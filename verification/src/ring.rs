//! The bounded first-in-first-out buffers of `rbl_circular_buffer`, as the
//! verified code sees them. Nothing in this file is proved: each contract
//! restates what the crate's source does.
//!
//! The crate's buffer can be copied, and a copy shares its items with the
//! buffer that it was taken from. So each buffer is kept in a struct that can
//! be neither copied nor cloned and that alone reaches it.

use rbl_circular_buffer::CircularBuffer;
use vstd::prelude::*;

verus! {

/// A `rbl_circular_buffer::CircularBuffer` of numbers, opaque to the verifier.
#[verifier::external_body]
pub struct NumberRing {
    buffer: CircularBuffer<u64>,
}

/// A `rbl_circular_buffer::CircularBuffer` of texts, opaque to the verifier.
#[verifier::external_body]
pub struct TextRing {
    buffer: CircularBuffer<String>,
}

/// The numbers that a buffer holds, oldest first.
pub uninterp spec fn number_items(ring: NumberRing) -> Seq<u64>;

/// The size that a buffer of numbers was made with.
pub uninterp spec fn number_limit(ring: NumberRing) -> nat;

/// The texts that a buffer holds, oldest first.
pub uninterp spec fn text_items(ring: TextRing) -> Seq<Seq<char>>;

/// The size that a buffer of texts was made with.
pub uninterp spec fn text_limit(ring: TextRing) -> nat;

/// What a buffer of size `limit` that holds `items` holds after one push: the
/// new item comes last, and a buffer that was full loses its oldest item.
pub open spec fn pushed<T>(items: Seq<T>, limit: nat, item: T) -> Seq<T> {
    if items.len() < limit {
        items.push(item)
    } else {
        items.drop_first().push(item)
    }
}

/// `CircularBuffer::new` for numbers: an empty buffer of the given size. The
/// crate panics when the size in bytes does not fit a memory layout and
/// divides by the size on every push, so the size is positive and bounded.
/// That the memory is there to allocate is taken for granted.
#[verifier::external_body]
pub(crate) fn numbers_new(size: usize) -> (ring: NumberRing)
    requires
        0 < size <= usize::MAX / 16,
    ensures
        number_items(ring) == Seq::<u64>::empty(),
        number_limit(ring) == size,
{
    NumberRing { buffer: CircularBuffer::new(size) }
}

/// `CircularBuffer::push` for numbers: appends the value, overwriting the
/// oldest one when the buffer is full, and returns the room that is left.
#[verifier::external_body]
pub(crate) fn numbers_push(ring: &mut NumberRing, value: u64) -> (room: usize)
    requires
        0 < number_limit(*old(ring)),
        number_items(*old(ring)).len() <= number_limit(*old(ring)),
    ensures
        number_limit(*final(ring)) == number_limit(*old(ring)),
        number_items(*final(ring)) == pushed(
            number_items(*old(ring)),
            number_limit(*old(ring)),
            value,
        ),
        room == number_limit(*old(ring)) - number_items(*final(ring)).len(),
{
    ring.buffer.push(value)
}

/// `CircularBuffer::len` for numbers: how many values the buffer holds.
#[verifier::external_body]
pub(crate) fn numbers_len(ring: &NumberRing) -> (n: usize)
    ensures
        n == number_items(*ring).len(),
{
    ring.buffer.len()
}

/// The crate's `Iterator` for numbers, collected from a copy of the buffer:
/// every value that the buffer holds, oldest first. The buffer itself keeps
/// its values, since the iterator consumes the copy, and the copy is gone
/// when the call returns.
#[verifier::external_body]
pub(crate) fn numbers_collect(ring: &NumberRing) -> (values: Vec<u64>)
    ensures
        values@ == number_items(*ring),
{
    let copy: CircularBuffer<u64> = ring.buffer;
    copy.collect()
}

/// `CircularBuffer::new` for texts: an empty buffer of the given size, which
/// is positive and bounded for the same reasons as for numbers.
#[verifier::external_body]
pub(crate) fn texts_new(size: usize) -> (ring: TextRing)
    requires
        0 < size <= usize::MAX / 64,
    ensures
        text_items(ring) == Seq::<Seq<char>>::empty(),
        text_limit(ring) == size,
{
    TextRing { buffer: CircularBuffer::new(size) }
}

/// `CircularBuffer::push` for texts: appends the text, overwriting the oldest
/// one when the buffer is full, and returns the room that is left.
#[verifier::external_body]
pub(crate) fn texts_push(ring: &mut TextRing, text: String) -> (room: usize)
    requires
        0 < text_limit(*old(ring)),
        text_items(*old(ring)).len() <= text_limit(*old(ring)),
    ensures
        text_limit(*final(ring)) == text_limit(*old(ring)),
        text_items(*final(ring)) == pushed(
            text_items(*old(ring)),
            text_limit(*old(ring)),
            text@,
        ),
        room == text_limit(*old(ring)) - text_items(*final(ring)).len(),
{
    ring.buffer.push(text)
}

/// The crate's `Iterator::next` for texts: takes the oldest text out of the
/// buffer, or returns `None` and changes nothing when the buffer is empty.
#[verifier::external_body]
pub(crate) fn texts_pop(ring: &mut TextRing) -> (text: Option<String>)
    requires
        0 < text_limit(*old(ring)),
    ensures
        text_limit(*final(ring)) == text_limit(*old(ring)),
        match text {
            Some(first) => {
                &&& text_items(*old(ring)).len() > 0
                &&& first@ == text_items(*old(ring))[0]
                &&& text_items(*final(ring)) == text_items(*old(ring)).drop_first()
            },
            None => {
                &&& text_items(*old(ring)).len() == 0
                &&& text_items(*final(ring)) == text_items(*old(ring))
            },
        },
{
    ring.buffer.next()
}

} // verus!
