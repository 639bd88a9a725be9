//! Architecture-specific paging.

pub mod tables;
pub mod x86_64;
pub mod aarch64;
