//! Kernel IPC mailbox: messages queued in arrival order, each addressed to a
//! task; a task receives the oldest message addressed to it.

use vstd::prelude::*;
use std::collections::VecDeque;

verus! {

pub const IPC_PAYLOAD_SIZE: usize = 64;

/// Task identifier.
pub type TaskId = usize;

#[derive(Debug, Clone, Copy)]
pub struct IpcMessage {
    pub sender: TaskId,
    pub msg_type: u8,
    pub payload: [u8; IPC_PAYLOAD_SIZE],
}

/// Pending messages with their target task, oldest first.
pub struct Mailboxes {
    queue: VecDeque<(TaskId, IpcMessage)>,
}

/// Position of the oldest message for `who` at or after `i`.
pub open spec fn first_for(q: Seq<(TaskId, IpcMessage)>, who: TaskId, i: int) -> Option<int>
    decreases q.len() - i,
{
    if i < 0 || i >= q.len() {
        None
    } else if q[i].0 == who {
        Some(i)
    } else {
        first_for(q, who, i + 1)
    }
}

proof fn lemma_first_for(q: Seq<(TaskId, IpcMessage)>, who: TaskId, i: int)
    requires
        0 <= i,
    ensures
        first_for(q, who, i) matches Some(k) ==> i <= k < q.len() && q[k].0 == who,
    decreases q.len() - i,
{
    if i < q.len() && q[i].0 != who {
        lemma_first_for(q, who, i + 1);
    }
}

impl Mailboxes {
    /// Pending messages with their targets, oldest first.
    pub closed spec fn pending(&self) -> Seq<(TaskId, IpcMessage)> {
        self.queue@
    }
}

/// No messages pending.
pub fn init() -> (m: Mailboxes)
    ensures
        m.pending() == Seq::<(TaskId, IpcMessage)>::empty(),
{
    Mailboxes { queue: VecDeque::new() }
}

/// Queue `msg` for `target`.
pub fn send(mailboxes: &mut Mailboxes, target: TaskId, msg: IpcMessage)
    ensures
        final(mailboxes).pending() == old(mailboxes).pending().push((target, msg)),
{
    mailboxes.queue.push_back((target, msg));
}

/// Take the oldest message addressed to `who`, leaving the others queued.
pub fn recv(mailboxes: &mut Mailboxes, who: TaskId) -> (r: Option<IpcMessage>)
    ensures
        match first_for(old(mailboxes).pending(), who, 0) {
            Some(k) => r == Some(old(mailboxes).pending()[k].1) && final(mailboxes).pending() == old(
                mailboxes,
            ).pending().remove(k),
            None => r is None && final(mailboxes).pending() == old(mailboxes).pending(),
        },
{
    proof {
        lemma_first_for(mailboxes.queue@, who, 0);
    }
    let mut i: usize = 0;
    while i < mailboxes.queue.len()
        invariant
            i <= mailboxes.queue@.len(),
            mailboxes.queue@ == old(mailboxes).queue@,
            first_for(mailboxes.queue@, who, 0) == first_for(mailboxes.queue@, who, i as int),
        decreases mailboxes.queue.len() - i,
    {
        if mailboxes.queue[i].0 == who {
            let removed = mailboxes.queue.remove(i);
            match removed {
                Some(entry) => {
                    return Some(entry.1);
                },
                None => {
                    return None;
                },
            }
        }
        i = i + 1;
    }
    None
}

/// Sending and then receiving for the target, with nothing else queued for
/// it, gives the message back and leaves the other messages as they were.
pub proof fn recv_after_send(q: Seq<(TaskId, IpcMessage)>, target: TaskId, msg: IpcMessage)
    requires
        first_for(q, target, 0) is None,
    ensures
        first_for(q.push((target, msg)), target, 0) == Some(q.len() as int),
        q.push((target, msg)).remove(q.len() as int) == q,
{
    lemma_first_for_none_prefix(q, target, msg, 0);
    assert(q.push((target, msg)).remove(q.len() as int) =~= q);
}

proof fn lemma_first_for_none_prefix(q: Seq<(TaskId, IpcMessage)>, target: TaskId, msg: IpcMessage, i: int)
    requires
        0 <= i <= q.len(),
        first_for(q, target, i) is None,
    ensures
        first_for(q.push((target, msg)), target, i) == Some(q.len() as int),
    decreases q.len() - i,
{
    if i < q.len() {
        lemma_first_for_none_prefix(q, target, msg, i + 1);
    }
}

} // verus!
