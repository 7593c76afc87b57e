//! The bounded window of a user's recent messages, kept in a
//! `circular_buffer::CircularBuffer`. Verus cannot look inside that type, so
//! what it holds is given a name and each method used gets a wrapper whose
//! contract is taken on trust.

use vstd::prelude::*;
use circular_buffer::CircularBuffer;

verus! {

/// Number of messages the window retains.
pub const MAX_WINDOW: usize = 5;

#[verifier::external_type_specification]
#[verifier::external_body]
#[verifier::reject_recursive_types(T)]
pub struct ExCircularBuffer<const N: usize, T>(circular_buffer::CircularBuffer<N, T>);

/// The messages a window holds, oldest first, each as its characters.
pub uninterp spec fn ring_contents(ring: CircularBuffer<MAX_WINDOW, String>) -> Seq<Seq<char>>;

/// What a window holds after one more message: the message is appended, and
/// a full window first gives up its oldest entry.
pub open spec fn pushed(window: Seq<Seq<char>>, text: Seq<char>) -> Seq<Seq<char>> {
    if window.len() >= MAX_WINDOW {
        window.subrange(window.len() - MAX_WINDOW + 1, window.len() as int).push(text)
    } else {
        window.push(text)
    }
}

/// `CircularBuffer::new`: the buffer starts out empty.
#[verifier::external_body]
pub(crate) fn ring_new() -> (ring: CircularBuffer<MAX_WINDOW, String>)
    ensures
        ring_contents(ring) == Seq::<Seq<char>>::empty(),
{
    CircularBuffer::new()
}

/// `CircularBuffer::len`: the number of elements held.
#[verifier::external_body]
pub(crate) fn ring_len(ring: &CircularBuffer<MAX_WINDOW, String>) -> (n: usize)
    ensures
        n == ring_contents(*ring).len(),
{
    ring.len()
}

/// `CircularBuffer::push_back`: appends at the back; when the buffer is at
/// capacity the front element is dropped to make room.
#[verifier::external_body]
pub(crate) fn ring_push_back(ring: &mut CircularBuffer<MAX_WINDOW, String>, text: String)
    ensures
        ring_contents(*final(ring)) == pushed(ring_contents(*old(ring)), text@),
{
    ring.push_back(text)
}

/// `CircularBuffer::get`: the element at `index` counted from the front, or
/// `None` when `index` is not below the length.
#[verifier::external_body]
pub(crate) fn ring_get(ring: &CircularBuffer<MAX_WINDOW, String>, index: usize) -> (item: Option<&String>)
    ensures
        index < ring_contents(*ring).len() ==> item.is_some() && item.unwrap()@
            == ring_contents(*ring)[index as int],
        index >= ring_contents(*ring).len() ==> item.is_none(),
{
    ring.get(index)
}

/// `CircularBuffer::clear`: drops every element.
#[verifier::external_body]
pub(crate) fn ring_clear(ring: &mut CircularBuffer<MAX_WINDOW, String>)
    ensures
        ring_contents(*final(ring)) == Seq::<Seq<char>>::empty(),
{
    ring.clear()
}

} // verus!
