//! Kernel input queue: a bounded FIFO of mouse and keyboard events filled by
//! the IRQ handlers and drained by the GUI task and the `read` system call.

use vstd::prelude::*;

verus! {

pub const INPUT_BUF_SIZE: usize = 256;

#[derive(Debug, Clone, Copy, PartialEq, Eq, Structural)]
pub enum InputEvent {
    MouseMove { x: u16, y: u16, buttons: u8 },
    MouseDown { button: u8, x: u16, y: u16 },
    MouseUp { button: u8, x: u16, y: u16 },
    KeyPress { ascii: u8 },
}

/// Ring buffer of pending events. One slot always stays free, so at most
/// `INPUT_BUF_SIZE - 1` events are pending.
pub struct InputQueue {
    buffer: [Option<InputEvent>; INPUT_BUF_SIZE],
    head: usize,
    tail: usize,
}

/// The pending events after offering `e` to a queue holding `v`: a full queue
/// drops it.
pub open spec fn push_one(v: Seq<InputEvent>, e: InputEvent) -> Seq<InputEvent> {
    if v.len() < INPUT_BUF_SIZE - 1 {
        v.push(e)
    } else {
        v
    }
}

/// Index of the first key press in `v` at or after `i` (`v.len()` if none).
pub open spec fn first_key_press(v: Seq<InputEvent>, i: int) -> int
    decreases v.len() - i,
{
    if i < 0 || i >= v.len() {
        v.len() as int
    } else if v[i] is KeyPress {
        i
    } else {
        first_key_press(v, i + 1)
    }
}

proof fn lemma_first_key_press_bounds(v: Seq<InputEvent>, i: int)
    requires
        0 <= i <= v.len(),
    ensures
        i <= first_key_press(v, i) <= v.len(),
        first_key_press(v, i) < v.len() ==> v[first_key_press(v, i)] is KeyPress,
        forall|j: int| i <= j < first_key_press(v, i) ==> !(#[trigger] v[j] is KeyPress),
    decreases v.len() - i,
{
    if i < v.len() && !(v[i] is KeyPress) {
        lemma_first_key_press_bounds(v, i + 1);
    }
}

impl InputQueue {
    /// Number of pending events.
    pub closed spec fn len(&self) -> nat {
        ((self.head + INPUT_BUF_SIZE - self.tail) % (INPUT_BUF_SIZE as int)) as nat
    }

    spec fn slot(&self, k: int) -> Option<InputEvent> {
        self.buffer@[(self.tail + k) % (INPUT_BUF_SIZE as int)]
    }

    pub closed spec fn wf(&self) -> bool {
        &&& self.head < INPUT_BUF_SIZE
        &&& self.tail < INPUT_BUF_SIZE
        &&& forall|k: int| 0 <= k < self.len() ==> (#[trigger] self.slot(k)) is Some
    }

    /// Pending events, oldest first.
    pub closed spec fn view(&self) -> Seq<InputEvent> {
        Seq::new(self.len(), |k: int| self.slot(k)->Some_0)
    }

    pub fn new() -> (r: Self)
        ensures
            r.wf(),
            r@ == Seq::<InputEvent>::empty(),
    {
        let r = Self { buffer: [None; INPUT_BUF_SIZE], head: 0, tail: 0 };
        assert(r@ =~= Seq::<InputEvent>::empty());
        r
    }

    /// Append `event` unless the queue is full; a full queue drops it.
    pub fn push(&mut self, event: InputEvent)
        requires
            old(self).wf(),
        ensures
            final(self).wf(),
            final(self)@ == push_one(old(self)@, event),
            final(self)@.len() < INPUT_BUF_SIZE,
    {
        let next = (self.head + 1) % INPUT_BUF_SIZE;
        assert(self.len() < INPUT_BUF_SIZE);
        if next != self.tail {
            let ghost pre = *self;
            self.buffer[self.head] = Some(event);
            self.head = next;
            assert(self.len() == pre.len() + 1);
            assert forall|k: int| 0 <= k < self.len() implies (#[trigger] self.slot(k)) is Some by {
                if k < pre.len() {
                    assert(self.slot(k) == pre.slot(k));
                }
            }
            assert forall|k: int| 0 <= k < self.len() implies #[trigger] self@[k] == pre@.push(event)[k] by {
                if k < pre.len() {
                    assert(self.slot(k) == pre.slot(k));
                }
            }
            assert(self@ =~= pre@.push(event));
        }
    }

    /// Remove and return the oldest event.
    pub fn poll(&mut self) -> (r: Option<InputEvent>)
        requires
            old(self).wf(),
        ensures
            final(self).wf(),
            old(self)@.len() == 0 ==> r is None && final(self)@ == old(self)@,
            old(self)@.len() > 0 ==> r == Some(old(self)@[0]) && final(self)@ == old(self)@.drop_first(),
    {
        if self.head == self.tail {
            None
        } else {
            let ghost pre = *self;
            let event = self.buffer[self.tail];
            assert(pre.slot(0) is Some);
            self.buffer[self.tail] = None;
            self.tail = (self.tail + 1) % INPUT_BUF_SIZE;
            assert(self.len() == pre.len() - 1);
            assert forall|k: int| 0 <= k < self.len() implies #[trigger] self.slot(k) == pre.slot(k + 1) by {}
            assert forall|k: int| 0 <= k < self.len() implies (#[trigger] self.slot(k)) is Some by {
                assert(self.slot(k) == pre.slot(k + 1));
            }
            assert(self@ =~= pre@.drop_first());
            event
        }
    }

    /// Remove the pending event at position `k` (ring slot `idx`), shifting the
    /// younger events down by one slot.
    #[verifier::spinoff_prover]
    #[verifier::rlimit(80)]
    fn remove_at(&mut self, idx: usize, Ghost(k): Ghost<int>)
        requires
            old(self).wf(),
            0 <= k < old(self)@.len(),
            idx == (old(self).tail + k) % (INPUT_BUF_SIZE as int),
        ensures
            final(self).wf(),
            final(self)@ == old(self)@.remove(k),
    {
        let ghost pre = *self;
        let ghost v = pre@;
        let mut idx = idx;
        self.buffer[idx] = None;
        let mut shift_from = (idx + 1) % INPUT_BUF_SIZE;
        let ghost mut w: int = k;
        proof {
            assert forall|j: int| 0 <= j < v.len() && j != k implies #[trigger] self.slot(j) == pre.slot(j) by {
                lemma_ring_distinct(pre.tail as int, j, k);
            }
        }
        let ghost n = pre.len() as int;
        while shift_from != self.head
            invariant
                self.head == pre.head,
                self.tail == pre.tail,
                pre.head < INPUT_BUF_SIZE,
                pre.tail < INPUT_BUF_SIZE,
                n == pre.len(),
                n < INPUT_BUF_SIZE,
                0 <= k <= w < n,
                idx == (self.tail + w) % (INPUT_BUF_SIZE as int),
                shift_from == (self.tail + w + 1) % (INPUT_BUF_SIZE as int),
                forall|j: int| 0 <= j < k ==> #[trigger] self.slot(j) == pre.slot(j),
                forall|j: int| k <= j < w ==> #[trigger] self.slot(j) == pre.slot(j + 1),
                forall|j: int| w < j < n ==> #[trigger] self.slot(j) == pre.slot(j),
            decreases n - w,
        {
            assert(w + 1 < n) by {
                if w + 1 >= n {
                    assert((self.tail + w + 1) % (INPUT_BUF_SIZE as int) == self.head);
                }
            }
            assert(self.slot(w + 1) == pre.slot(w + 1));
            let moved = self.buffer[shift_from];
            let ghost before = *self;
            self.buffer[idx] = moved;
            proof {
                assert(self.buffer@ == before.buffer@.update(idx as int, before.slot(w + 1)));
                lemma_shift_step(pre, before, *self, k, w, n);
            }
            idx = shift_from;
            shift_from = (shift_from + 1) % INPUT_BUF_SIZE;
            proof {
                w = w + 1;
            }
        }
        proof {
            assert((self.tail + n) % (INPUT_BUF_SIZE as int) == self.head as int);
            if w + 1 != n {
                lemma_ring_distinct(self.tail as int, w + 1, n);
            }
        }
        assert(w == n - 1);
        let ghost mid = *self;
        self.head = (self.head + INPUT_BUF_SIZE - 1) % INPUT_BUF_SIZE;
        assert(self.len() == pre.len() - 1);
        assert forall|j: int| 0 <= j < self.len() implies #[trigger] self.slot(j) == (if j < k {
            pre.slot(j)
        } else {
            pre.slot(j + 1)
        }) by {
            assert(self.slot(j) == mid.slot(j));
        }
        assert forall|j: int| 0 <= j < self.len() implies (#[trigger] self.slot(j)) is Some by {
            if j >= k {
                assert(pre.slot(j + 1) is Some);
            }
        }
        assert(self@ =~= v.remove(k));
    }

    /// Remove the oldest pending key press, keeping every other event in order.
    #[verifier::spinoff_prover]
    #[verifier::rlimit(40)]
    pub fn try_recv_key(&mut self) -> (r: Option<u8>)
        requires
            old(self).wf(),
        ensures
            final(self).wf(),
            ({
                let v = old(self)@;
                let k = first_key_press(v, 0);
                if k < v.len() {
                    &&& r == Some(v[k]->KeyPress_ascii)
                    &&& final(self)@ == v.remove(k)
                } else {
                    &&& r is None
                    &&& final(self)@ == v
                }
            }),
    {
        let ghost v = self@;
        proof {
            lemma_first_key_press_bounds(v, 0);
        }
        if self.head == self.tail {
            return None;
        }
        // Look for a KeyPress event without consuming it yet.
        let mut idx = self.tail;
        let ghost mut o: int = 0;
        while idx != self.head
            invariant
                self.wf(),
                self@ == v,
                v == old(self)@,
                0 <= o <= v.len(),
                idx == (self.tail + o) % (INPUT_BUF_SIZE as int),
                first_key_press(v, 0) == first_key_press(v, o),
            decreases v.len() - o,
        {
            assert(o < v.len()) by {
                if o >= v.len() {
                    assert(o == v.len());
                }
            }
            assert(self.slot(o) is Some);
            assert(self@[o] == self.slot(o)->Some_0);
            if let Some(InputEvent::KeyPress { ascii }) = self.buffer[idx] {
                // Found a key press: consume it and close the gap.
                assert(v[o] is KeyPress && v[o]->KeyPress_ascii == ascii);
                assert(first_key_press(v, o) == o);
                self.remove_at(idx, Ghost(o));
                assert(first_key_press(v, 0) < v.len());
                assert(self@ == v.remove(first_key_press(v, 0)));
                assert(Some(ascii) == Some(v[first_key_press(v, 0)]->KeyPress_ascii));
                return Some(ascii);
            }
            idx = (idx + 1) % INPUT_BUF_SIZE;
            proof {
                o = o + 1;
            }
        }
        assert(o == v.len());
        None
    }
}

/// One step of closing the gap left by the removed event at position `k`:
/// the event at `w + 1` moves down into position `w`.
proof fn lemma_shift_step(pre: InputQueue, before: InputQueue, after: InputQueue, k: int, w: int, n: int)
    requires
        before.tail == pre.tail,
        after.tail == pre.tail,
        pre.tail < INPUT_BUF_SIZE,
        0 <= k <= w,
        w + 1 < n,
        n < INPUT_BUF_SIZE,
        after.buffer@ == before.buffer@.update((pre.tail + w) % (INPUT_BUF_SIZE as int), before.slot(w + 1)),
        forall|j: int| 0 <= j < k ==> #[trigger] before.slot(j) == pre.slot(j),
        forall|j: int| k <= j < w ==> #[trigger] before.slot(j) == pre.slot(j + 1),
        forall|j: int| w < j < n ==> #[trigger] before.slot(j) == pre.slot(j),
    ensures
        forall|j: int| 0 <= j < k ==> #[trigger] after.slot(j) == pre.slot(j),
        forall|j: int| k <= j < w + 1 ==> #[trigger] after.slot(j) == pre.slot(j + 1),
        forall|j: int| w + 1 < j < n ==> #[trigger] after.slot(j) == pre.slot(j),
{
    assert forall|j: int| 0 <= j < n && j != w implies #[trigger] after.slot(j) == before.slot(j) by {
        lemma_ring_distinct(pre.tail as int, j, w);
    }
    assert(after.slot(w) == before.slot(w + 1));
}

/// Two different positions of a ring of `INPUT_BUF_SIZE` slots hold different slots.
proof fn lemma_ring_distinct(t: int, a: int, b: int)
    requires
        0 <= t < INPUT_BUF_SIZE,
        0 <= a < INPUT_BUF_SIZE,
        0 <= b < INPUT_BUF_SIZE,
        a != b,
    ensures
        (t + a) % (INPUT_BUF_SIZE as int) != (t + b) % (INPUT_BUF_SIZE as int),
{
    assert((t + a) % 256 == if t + a < 256 { t + a } else { t + a - 256 });
    assert((t + b) % 256 == if t + b < 256 { t + b } else { t + b - 256 });
}

/// Initialize the input subsystem (called once during kernel boot).
pub fn init() {
}

/// Push an input event from an IRQ handler or driver.
pub fn push(queue: &mut InputQueue, event: InputEvent)
    requires
        old(queue).wf(),
    ensures
        final(queue).wf(),
        final(queue)@ == push_one(old(queue)@, event),
{
    queue.push(event);
}

/// Poll the next pending input event (non-blocking, called by the GUI task).
pub fn poll(queue: &mut InputQueue) -> (r: Option<InputEvent>)
    requires
        old(queue).wf(),
    ensures
        final(queue).wf(),
        old(queue)@.len() == 0 ==> r is None && final(queue)@ == old(queue)@,
        old(queue)@.len() > 0 ==> r == Some(old(queue)@[0]) && final(queue)@ == old(queue)@.drop_first(),
{
    queue.poll()
}

/// Try to receive a key press (non-blocking, for the read system call).
/// Returns `Some(ascii)` if a key was pressed; other events stay queued.
pub fn try_recv_key(queue: &mut InputQueue) -> (r: Option<u8>)
    requires
        old(queue).wf(),
    ensures
        final(queue).wf(),
        ({
            let v = old(queue)@;
            let k = first_key_press(v, 0);
            if k < v.len() {
                r == Some(v[k]->KeyPress_ascii) && final(queue)@ == v.remove(k)
            } else {
                r is None && final(queue)@ == v
            }
        }),
{
    queue.try_recv_key()
}

} // verus!
