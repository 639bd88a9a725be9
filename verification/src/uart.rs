//! Serial console: what is sent for a string, and what received bytes become.

use vstd::prelude::*;
use vstd::string::StringSliceAdditionalSpecFns;
use crate::input::{InputEvent, InputQueue, push_one};

verus! {

/// The bytes sent for `s`: each newline is preceded by a carriage return.
pub open spec fn serial_bytes(s: Seq<u8>) -> Seq<u8>
    decreases s.len(),
{
    if s.len() == 0 {
        Seq::empty()
    } else {
        let head = if s[0] == 10 { seq![13u8, 10u8] } else { seq![s[0]] };
        head + serial_bytes(s.drop_first())
    }
}

proof fn lemma_serial_bytes_snoc(s: Seq<u8>, b: u8)
    ensures
        serial_bytes(s.push(b)) == serial_bytes(s) + (if b == 10 { seq![13u8, 10u8] } else { seq![b] }),
    decreases s.len(),
{
    if s.len() == 0 {
        assert(s.push(b).drop_first() =~= Seq::<u8>::empty());
        assert(s.push(b)[0] == b);
        assert(serial_bytes(Seq::<u8>::empty()) == Seq::<u8>::empty());
        let t = if b == 10 { seq![13u8, 10u8] } else { seq![b] };
        assert(serial_bytes(s.push(b)) == t + serial_bytes(s.push(b).drop_first()));
        assert(t + Seq::<u8>::empty() =~= t);
        assert(serial_bytes(s) == Seq::<u8>::empty());
        assert(Seq::<u8>::empty() + t =~= t);
    } else {
        lemma_serial_bytes_snoc(s.drop_first(), b);
        assert(s.push(b).drop_first() =~= s.drop_first().push(b));
        let h = if s[0] == 10 { seq![13u8, 10u8] } else { seq![s[0]] };
        let t = if b == 10 { seq![13u8, 10u8] } else { seq![b] };
        assert(h + (serial_bytes(s.drop_first()) + t) =~= (h + serial_bytes(s.drop_first())) + t);
    }
}

/// The bytes written to the serial port for `s`.
pub fn puts(s: &str) -> (out: Vec<u8>)
    ensures
        out@ == serial_bytes(s.spec_bytes()),
{
    let bytes = s.as_bytes();
    let mut out: Vec<u8> = Vec::new();
    let mut i: usize = 0;
    while i < bytes.len()
        invariant
            i <= bytes@.len(),
            bytes@ == s.spec_bytes(),
            out@ == serial_bytes(bytes@.subrange(0, i as int)),
        decreases bytes.len() - i,
    {
        let c = bytes[i];
        proof {
            lemma_serial_bytes_snoc(bytes@.subrange(0, i as int), c);
            assert(bytes@.subrange(0, i + 1) =~= bytes@.subrange(0, i as int).push(c));
        }
        if c == 10 {
            out.push(13);
        }
        out.push(c);
        i = i + 1;
    }
    assert(bytes@.subrange(0, bytes@.len() as int) =~= bytes@);
    out
}

/// The key press a received byte stands for: printable ASCII as itself,
/// carriage return and newline as newline, backspace as backspace; other
/// bytes are dropped.
pub open spec fn rx_key(data: u8) -> Option<u8> {
    if 32 <= data <= 126 {
        Some(data)
    } else if data == 13 || data == 10 {
        Some(10u8)
    } else if data == 8 {
        Some(8u8)
    } else {
        None
    }
}

/// The queue after the key presses for `data`.
pub open spec fn rx_pushed(q: Seq<InputEvent>, data: Seq<u8>) -> Seq<InputEvent>
    decreases data.len(),
{
    if data.len() == 0 {
        q
    } else {
        let q1 = match rx_key(data[0]) {
            Some(a) => push_one(q, InputEvent::KeyPress { ascii: a }),
            None => q,
        };
        rx_pushed(q1, data.drop_first())
    }
}

/// Turn the bytes drained from the receive FIFO into key presses.
pub fn handle_uart_irq(queue: &mut InputQueue, data: &[u8])
    requires
        old(queue).wf(),
    ensures
        final(queue).wf(),
        final(queue)@ == rx_pushed(old(queue)@, data@),
{
    let ghost target = rx_pushed(queue@, data@);
    let mut i: usize = 0;
    assert(data@.subrange(0, data@.len() as int) =~= data@);
    while i < data.len()
        invariant
            i <= data@.len(),
            queue.wf(),
            target == rx_pushed(queue@, data@.subrange(i as int, data@.len() as int)),
        decreases data.len() - i,
    {
        let b = data[i];
        proof {
            assert(data@.subrange(i as int, data@.len() as int).drop_first() =~= data@.subrange(i + 1, data@.len() as int));
        }
        if b >= 32 && b <= 126 {
            queue.push(InputEvent::KeyPress { ascii: b });
        } else if b == 13 || b == 10 {
            queue.push(InputEvent::KeyPress { ascii: 10 });
        } else if b == 8 {
            queue.push(InputEvent::KeyPress { ascii: 8 });
        }
        i = i + 1;
    }
    assert(data@.subrange(i as int, data@.len() as int) =~= Seq::<u8>::empty());
}

} // verus!
