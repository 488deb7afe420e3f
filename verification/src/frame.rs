//! Messages on a stream: each message goes behind the varint of its length.

use crate::wire::{
    lemma_pow128_values, lemma_take_varint32_of_varint, lemma_varint_len, read_varint32,
    take_varint32, varint, write_varint,
};
use vstd::prelude::*;

verus! {

/// No message on a stream is longer than this many bytes.
pub const MAX_FRAME: usize = 16777216;

/// What the bytes read so far say about the frame that begins with them.
#[derive(Debug, Clone, Copy, PartialEq, Eq, Structural)]
pub enum FrameHead {
    /// The length is not complete: read one byte more.
    More,
    /// The length is complete: the message has this many bytes.
    Payload(usize),
    /// The length is complete and more than a message may have.
    TooLong,
    /// The bytes are not the length of a frame.
    Malformed,
}

/// A message as it goes over a stream.
pub open spec fn framed(message: Seq<u8>) -> Seq<u8> {
    varint(message.len()) + message
}

/// Whether every byte says that another follows.
pub open spec fn all_continue(head: Seq<u8>) -> bool {
    forall|i: int| 0 <= i < head.len() ==> #[trigger] head[i] >= 128
}

/// What the bytes `head`, read from the start of a frame, say: fewer than
/// five bytes that all ask for another are an incomplete length; bytes that
/// are exactly one varint are the length; anything else is no length.
pub open spec fn frame_head_of(head: Seq<u8>) -> FrameHead {
    if head.len() < 5 && all_continue(head) {
        FrameHead::More
    } else {
        match take_varint32(head) {
            Ok((len, n)) => if n != head.len() {
                FrameHead::Malformed
            } else if len > MAX_FRAME {
                FrameHead::TooLong
            } else {
                FrameHead::Payload(len as usize)
            },
            Err(_) => FrameHead::Malformed,
        }
    }
}

/// Puts a message behind its length.
pub fn frame(message: &[u8]) -> (r: Vec<u8>)
    ensures
        r@ == framed(message@),
{
    let mut out: Vec<u8> = Vec::new();
    write_varint(&mut out, message.len() as u64);
    let ghost head = out@;
    out.extend_from_slice(message);
    assert(out@ =~= head + message@);
    assert(Seq::<u8>::empty() + varint(message@.len()) =~= varint(message@.len()));
    out
}

/// Whether every byte of `head` says that another follows.
fn every_byte_continues(head: &[u8]) -> (r: bool)
    ensures
        r == all_continue(head@),
{
    let mut i: usize = 0;
    while i < head.len()
        invariant
            i <= head.len(),
            forall|k: int| 0 <= k < i ==> #[trigger] head@[k] >= 128,
        decreases head.len() - i,
    {
        if head[i] < 128 {
            return false;
        }
        i += 1;
    }
    true
}

/// Says what the bytes read so far from the start of a frame mean.
pub fn frame_head(head: &[u8]) -> (r: FrameHead)
    ensures
        r == frame_head_of(head@),
{
    if head.len() < 5 && every_byte_continues(head) {
        return FrameHead::More;
    }
    match read_varint32(head) {
        Ok((len, n)) => {
            if n != head.len() {
                FrameHead::Malformed
            } else if len as usize > MAX_FRAME {
                FrameHead::TooLong
            } else {
                FrameHead::Payload(len as usize)
            }
        },
        Err(_) => FrameHead::Malformed,
    }
}

/// Every byte of a varint but the last says that another follows, and the
/// last does not.
pub proof fn lemma_varint_shape(v: nat)
    ensures
        varint(v).len() >= 1,
        varint(v).last() < 128,
        forall|i: int| 0 <= i < varint(v).len() - 1 ==> #[trigger] varint(v)[i] >= 128,
    decreases v,
{
    if v >= 128 {
        lemma_varint_shape(v / 128);
        let tail = varint(v / 128);
        let first = (128 + v % 128) as u8;
        assert(varint(v) =~= seq![first] + tail);
        assert(varint(v).last() == tail.last());
        assert forall|i: int| 0 <= i < varint(v).len() - 1 implies #[trigger] varint(v)[i]
            >= 128 by {
            if i > 0 {
                assert(varint(v)[i] == tail[i - 1]);
            }
        }
    }
}

/// The head of a frame is known for what it is byte by byte: while the
/// length of a message of no more than `MAX_FRAME` bytes is not complete,
/// one byte more is asked for; once it is complete, it is read as that
/// length.
pub proof fn lemma_frame_head_of_length(len: nat, k: int)
    requires
        len <= MAX_FRAME,
        0 <= k <= varint(len).len(),
    ensures
        varint(len).len() <= 4,
        k < varint(len).len() ==> frame_head_of(varint(len).take(k)) == FrameHead::More,
        k == varint(len).len() ==> frame_head_of(varint(len).take(k)) == FrameHead::Payload(
            len as usize,
        ),
{
    let head = varint(len);
    lemma_pow128_values();
    lemma_varint_len(len, 4);
    lemma_varint_shape(len);
    if k < head.len() {
        assert forall|i: int| 0 <= i < head.take(k).len() implies #[trigger] head.take(k)[i]
            >= 128 by {
            assert(head.take(k)[i] == head[i]);
        }
    } else {
        assert(head.take(k) =~= head);
        assert(!all_continue(head)) by {
            assert(head[head.len() - 1] < 128);
        }
        lemma_take_varint32_of_varint(len, Seq::empty());
        assert(head + Seq::<u8>::empty() =~= head);
    }
}

} // verus!
