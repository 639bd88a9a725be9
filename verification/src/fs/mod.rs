//! The virtual file system: file and directory types shared by the file
//! system drivers, and the registry through which the kernel reads files.

use vstd::prelude::*;

pub mod fat32;

use crate::fs::fat32::{Fat32Fs, padded};

verus! {

pub const MAX_PATH_LEN: usize = 256;
pub const MAX_OPEN_FILES: usize = 64;

#[derive(Debug, Clone, Copy, PartialEq, Eq, Structural)]
pub enum FileType {
    File,
    Directory,
}

/// One entry of a directory listing.
#[derive(Debug, Clone)]
pub struct DirEntry {
    pub name: String,
    pub file_type: FileType,
    pub size: u32,
}

/// An open file: its first cluster (`ino`), size and path.
#[derive(Debug)]
pub struct FileHandle {
    pub ino: u32,
    pub size: u32,
    pub path: String,
}

#[derive(Debug, Clone, Copy, PartialEq, Eq, Structural)]
pub enum FsError {
    NotFound,
    InvalidPath,
    IoError,
    NotADirectory,
    NotAFile,
    NoSpace,
}

/// A file system driver.
pub trait FileSystem {
    fn open(&self, path: &str) -> Result<FileHandle, FsError>;

    fn read_dir(&self, path: &str) -> Result<Vec<DirEntry>, FsError>;

    fn read(&self, handle: &FileHandle, offset: u32, buf: &mut [u8]) -> Result<usize, FsError>;
}

/// The file system registry: the mounted volume, if any.
pub struct Vfs<'a> {
    pub fs: Option<Fat32Fs<'a>>,
}

impl<'a> Vfs<'a> {
    /// A registry with nothing mounted.
    pub fn new() -> (v: Vfs<'a>)
        ensures
            v.fs is None,
    {
        Vfs { fs: None }
    }

    /// Mount `fs`, replacing any volume mounted before.
    pub fn register_fs(&mut self, fs: Fat32Fs<'a>)
        ensures
            final(self).fs == Some(fs),
    {
        self.fs = Some(fs);
    }

    /// The whole contents of the file a path names: its size in bytes, the
    /// data its cluster chain holds followed by zeros.
    pub fn read_file(&self, path: &str) -> (r: Result<Vec<u8>, FsError>)
        ensures
            self.fs is None ==> r == Err::<Vec<u8>, FsError>(FsError::NotFound),
            self.fs matches Some(fs) ==> match fs.lookup(path@) {
                Err(e) => r is Err && r->Err_0 == e,
                Ok(p) => {
                    let size = crate::bytes::le32(p.0, 28) as u32;
                    if size == 0 {
                        r is Ok && r->Ok_0@.len() == 0
                    } else {
                        match fs.file_data(p.1, size, size as int) {
                            Err(e) => r is Err && r->Err_0 == e,
                            Ok(d) => r is Ok && r->Ok_0@ == padded(d, size),
                        }
                    }
                },
            },
    {
        let fs = match &self.fs {
            Some(fs) => fs,
            None => {
                return Err(FsError::NotFound);
            },
        };
        let handle = match fs.open(path) {
            Ok(h) => h,
            Err(e) => {
                return Err(e);
            },
        };
        let mut buf = fat32::zeros(handle.size as usize);
        match fs.read(&handle, 0, buf.as_mut_slice()) {
            Ok(_) => {},
            Err(e) => {
                return Err(e);
            },
        }
        proof {
            if handle.size > 0 {
                let d = fs.file_data(handle.ino, handle.size, handle.size as int)->Ok_0;
                fs.lemma_file_chain_len(handle.ino as int, fs.chain_limit(), Seq::empty(), handle.size as int);
                assert(padded(d, handle.size).subrange(0, handle.size as int) =~= padded(d, handle.size));
                assert(buf@ =~= padded(d, handle.size));
            }
        }
        Ok(buf)
    }

    /// The listing of the directory a path names.
    pub fn list_dir(&self, path: &str) -> (r: Result<Vec<DirEntry>, FsError>)
        ensures
            self.fs is None ==> r == Err::<Vec<DirEntry>, FsError>(FsError::NotFound),
            self.fs matches Some(fs) ==> match fs.lookup(path@) {
                Err(e) => r is Err && r->Err_0 == e,
                Ok(p) => match fs.dir_entries(p.1 as int) {
                    Err(e) => r is Err && r->Err_0 == e,
                    Ok(es) => r is Ok && r->Ok_0@.len() == es.len() && forall|i: int|
                        0 <= i < es.len() ==> #[trigger] fat32::dir_entry_view(r->Ok_0@[i]) == fat32::listed(es[i]),
                },
            },
    {
        match &self.fs {
            Some(fs) => fs.read_dir(path),
            None => Err(FsError::NotFound),
        }
    }
}

} // verus!
