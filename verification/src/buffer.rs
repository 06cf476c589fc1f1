//! The receive buffer: bytes as they come from the transport, cut into
//! frames at the terminator.
//!
//! A frame is what stands up to and including the first terminator. What
//! comes after it stays in the buffer for the next frame, so it does not
//! matter how the transport splits the stream into reads.

use crate::wire::{
    element, is_digit, lemma_decimal, lemma_position, lemma_position_is, position, wire,
    INST_TERM,
};
use vstd::prelude::*;

verus! {

/// Whether `bytes` hold a terminator, and so a whole frame.
pub open spec fn has_frame(bytes: Seq<u8>) -> bool {
    position(bytes, INST_TERM) < bytes.len()
}

/// The first frame of `bytes`: everything up to and including the first
/// terminator.
pub open spec fn first_frame(bytes: Seq<u8>) -> Seq<u8>
    recommends
        has_frame(bytes),
{
    bytes.take(position(bytes, INST_TERM) as int + 1)
}

/// What follows the first frame of `bytes`.
pub open spec fn after_frame(bytes: Seq<u8>) -> Seq<u8>
    recommends
        has_frame(bytes),
{
    bytes.skip(position(bytes, INST_TERM) as int + 1)
}

/// A frame and what follows it are the bytes they were cut from, and the
/// frame holds one terminator, at its end.
pub proof fn lemma_frame_split(bytes: Seq<u8>)
    requires
        has_frame(bytes),
    ensures
        first_frame(bytes) + after_frame(bytes) == bytes,
        first_frame(bytes).len() > 0,
        first_frame(bytes).last() == INST_TERM,
        position(first_frame(bytes), INST_TERM) == first_frame(bytes).len() - 1,
{
    lemma_position(bytes, INST_TERM);
    let frame = first_frame(bytes);
    assert(frame + after_frame(bytes) =~= bytes);
    lemma_position_is(frame, INST_TERM, frame.len() - 1);
}

/// Bytes that arrive later change nothing about a frame that is already
/// whole: they only follow it.
pub proof fn lemma_frame_append(bytes: Seq<u8>, more: Seq<u8>)
    requires
        has_frame(bytes),
    ensures
        has_frame(bytes + more),
        first_frame(bytes + more) == first_frame(bytes),
        after_frame(bytes + more) == after_frame(bytes) + more,
{
    lemma_position(bytes, INST_TERM);
    let at = position(bytes, INST_TERM) as int;
    lemma_position_is(bytes + more, INST_TERM, at);
    assert(first_frame(bytes + more) =~= first_frame(bytes));
    assert(after_frame(bytes + more) =~= after_frame(bytes) + more);
}

/// Bytes without a terminator become part of the frame that the bytes
/// behind them complete: where a read ends inside an instruction, the next
/// read goes on with it.
pub proof fn lemma_frame_resume(bytes: Seq<u8>, more: Seq<u8>)
    requires
        !has_frame(bytes),
    ensures
        has_frame(bytes + more) == has_frame(more),
        has_frame(more) ==> first_frame(bytes + more) == bytes + first_frame(more),
        has_frame(more) ==> after_frame(bytes + more) == after_frame(more),
{
    lemma_position(bytes, INST_TERM);
    lemma_position(more, INST_TERM);
    let at = (bytes.len() + position(more, INST_TERM)) as int;
    assert forall|i: int| 0 <= i < at implies (bytes + more)[i] != INST_TERM by {
        if i >= bytes.len() {
            assert((bytes + more)[i] == more[i - bytes.len()]);
        }
    }
    if at < (bytes + more).len() {
        assert((bytes + more)[at] == more[at - bytes.len()]);
    }
    lemma_position_is(bytes + more, INST_TERM, at);
    if has_frame(more) {
        assert(first_frame(bytes + more) =~= bytes + first_frame(more));
        assert(after_frame(bytes + more) =~= after_frame(more));
    }
}

/// Whether no element holds a terminator.
pub open spec fn free_of_terminator(elements: Seq<Seq<u8>>) -> bool {
    forall|i: int, j: int|
        0 <= i < elements.len() && 0 <= j < elements[i].len() ==> #[trigger] elements[i][j]
            != INST_TERM
}

/// The bytes of an instruction hold no terminator before their last byte,
/// where no element holds one.
proof fn lemma_wire_terminator(elements: Seq<Seq<u8>>)
    requires
        elements.len() > 0,
        free_of_terminator(elements),
    ensures
        position(wire(elements), INST_TERM) == wire(elements).len() - 1,
    decreases elements.len(),
{
    let bytes = wire(elements);
    let content = elements.first();
    let head = element(content);
    lemma_decimal(content.len());
    let digits = head.len() - content.len() - 1;
    assert forall|i: int| 0 <= i < head.len() implies head[i] != INST_TERM by {
        if i < digits {
            assert(is_digit(head[i]));
        } else if i > digits {
            assert(head[i] == content[i - digits - 1]);
        }
    }
    if elements.len() == 1 {
        assert forall|i: int| 0 <= i < bytes.len() - 1 implies bytes[i] != INST_TERM by {
            assert(bytes[i] == head[i]);
        }
        lemma_position_is(bytes, INST_TERM, bytes.len() - 1);
    } else {
        let tail = elements.drop_first();
        assert(free_of_terminator(tail)) by {
            assert forall|i: int, j: int|
                0 <= i < tail.len() && 0 <= j < tail[i].len() implies #[trigger] tail[i][j]
                != INST_TERM by {
                assert(tail[i] == elements[i + 1]);
            }
        }
        lemma_wire_terminator(tail);
        lemma_position(wire(tail), INST_TERM);
        let rest = wire(tail);
        assert forall|i: int| 0 <= i < bytes.len() - 1 implies bytes[i] != INST_TERM by {
            if i < head.len() {
                assert(bytes[i] == head[i]);
            } else if i > head.len() {
                assert(bytes[i] == rest[i - head.len() - 1]);
            }
        }
        assert(bytes[bytes.len() - 1] == rest[rest.len() - 1]);
        lemma_position_is(bytes, INST_TERM, bytes.len() - 1);
    }
}

/// Framing finds instructions: where no element of an instruction holds a
/// terminator, the first frame of its bytes, followed by anything, is its
/// bytes, and what follows the frame is what followed the instruction.
pub proof fn lemma_frame_of_wire(elements: Seq<Seq<u8>>, rest: Seq<u8>)
    requires
        elements.len() > 0,
        free_of_terminator(elements),
    ensures
        has_frame(wire(elements) + rest),
        first_frame(wire(elements) + rest) == wire(elements),
        after_frame(wire(elements) + rest) == rest,
{
    let bytes = wire(elements);
    lemma_wire_terminator(elements);
    lemma_position(bytes, INST_TERM);
    lemma_frame_append(bytes, rest);
    assert(first_frame(bytes) =~= bytes);
    assert(after_frame(bytes) + rest =~= rest);
}

/// The bytes of `data` from `start` on.
fn copy_from(data: &Vec<u8>, start: usize) -> (r: Vec<u8>)
    requires
        start <= data@.len(),
    ensures
        r@ == data@.skip(start as int),
{
    let mut r: Vec<u8> = Vec::new();
    let mut i: usize = start;
    while i < data.len()
        invariant
            start <= i <= data@.len(),
            r@ == data@.subrange(start as int, i as int),
        decreases data@.len() - i,
    {
        r.push(data[i]);
        assert(r@ =~= data@.subrange(start as int, i + 1));
        i += 1;
    }
    assert(r@ =~= data@.skip(start as int));
    r
}

/// Bytes that were received and not yet handed on.
pub struct ReceiveBuffer {
    data: Vec<u8>,
    cursor: usize,
}

impl ReceiveBuffer {
    #[verifier::type_invariant]
    spec fn well_formed(self) -> bool {
        self.cursor <= self.data@.len()
    }

    /// The bytes in the buffer, oldest first.
    pub closed spec fn pending(self) -> Seq<u8> {
        self.data@.skip(self.cursor as int)
    }

    /// An empty buffer.
    pub fn new() -> (r: Self)
        ensures
            r.pending() == Seq::<u8>::empty(),
    {
        let r = ReceiveBuffer { data: Vec::new(), cursor: 0 };
        assert(r.pending() =~= Seq::<u8>::empty());
        r
    }

    /// The number of bytes in the buffer.
    pub fn len(&self) -> (r: usize)
        ensures
            r == self.pending().len(),
    {
        proof {
            use_type_invariant(self);
        }
        self.data.len() - self.cursor
    }

    /// Puts `bytes` behind what the buffer holds. What was handed out
    /// before is dropped from the memory of the buffer.
    pub fn feed(&mut self, bytes: &[u8])
        ensures
            final(self).pending() == old(self).pending() + bytes@,
    {
        proof {
            use_type_invariant(&*self);
        }
        let ghost before = self.pending();
        let start: usize = self.cursor;
        let mut held: Vec<u8> = Vec::new();
        self.cursor = 0;
        core::mem::swap(&mut self.data, &mut held);
        let mut data: Vec<u8> = if start == 0 {
            held
        } else {
            copy_from(&held, start)
        };
        assert(data@ =~= before);
        let mut i: usize = 0;
        while i < bytes.len()
            invariant
                i <= bytes@.len(),
                data@ == before + bytes@.take(i as int),
            decreases bytes@.len() - i,
        {
            data.push(bytes[i]);
            assert(bytes@.take(i + 1) =~= bytes@.take(i as int).push(bytes@[i as int]));
            assert(data@ =~= before + bytes@.take(i + 1));
            i += 1;
        }
        assert(bytes@.take(i as int) =~= bytes@);
        core::mem::swap(&mut self.data, &mut data);
        assert(self.pending() =~= before + bytes@);
    }

    /// Takes the first frame out of the buffer, where it holds one.
    pub fn take_frame(&mut self) -> (r: Option<Vec<u8>>)
        ensures
            match r {
                Some(frame) => {
                    &&& has_frame(old(self).pending())
                    &&& frame@ == first_frame(old(self).pending())
                    &&& final(self).pending() == after_frame(old(self).pending())
                },
                None => !has_frame(old(self).pending()) && final(self).pending() == old(
                    self,
                ).pending(),
            },
    {
        proof {
            use_type_invariant(&*self);
        }
        let ghost pending = self.pending();
        let n = self.data.len();
        let start = self.cursor;
        let mut frame: Vec<u8> = Vec::new();
        let mut i: usize = start;
        while i < n && self.data[i] != INST_TERM
            invariant
                start <= i <= n,
                n == self.data@.len(),
                start == self.cursor,
                pending == self.pending(),
                frame@ == pending.take(i - start),
                forall|j: int| 0 <= j < i - start ==> pending[j] != INST_TERM,
            decreases n - i,
        {
            frame.push(self.data[i]);
            assert(frame@ =~= pending.take(i + 1 - start));
            i += 1;
        }
        proof {
            lemma_position_is(pending, INST_TERM, i - start);
        }
        if i == n {
            return None;
        }
        frame.push(self.data[i]);
        assert(frame@ =~= pending.take(i + 1 - start));
        self.cursor = i + 1;
        assert(self.pending() =~= after_frame(pending));
        Some(frame)
    }
}

} // verus!
