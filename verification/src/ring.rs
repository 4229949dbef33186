//! The delay line's circular buffer, from the `ringbuffer` crate.
//!
//! `AllocRingBuffer` is declared opaquely; its contents are named by
//! `ring_seq` (oldest element first) and the capacity it was built
//! with by `ring_cap`. Each method the delay effect calls is wrapped
//! once, with a contract that states what the crate's source shows.

use ringbuffer::RingBuffer;
use vstd::prelude::*;

verus! {

#[verifier::external_type_specification]
#[verifier::external_body]
#[verifier::reject_recursive_types(T)]
pub struct ExAllocRingBuffer<T>(ringbuffer::AllocRingBuffer<T>);

/// The elements the buffer holds, oldest first.
pub uninterp spec fn ring_seq(q: ringbuffer::AllocRingBuffer<u64>) -> Seq<u64>;

/// The capacity the buffer was built with.
pub uninterp spec fn ring_cap(q: ringbuffer::AllocRingBuffer<u64>) -> nat;

/// Relies on `AllocRingBuffer::new`: an empty buffer of the given
/// capacity. It panics on capacity zero, which is ruled out here.
#[verifier::external_body]
pub fn ring_new(capacity: usize) -> (r: ringbuffer::AllocRingBuffer<u64>)
    requires
        capacity >= 1,
    ensures
        ring_seq(r) == Seq::<u64>::empty(),
        ring_cap(r) == capacity,
{
    ringbuffer::AllocRingBuffer::new(capacity)
}

/// Relies on `RingBuffer::enqueue`: appends at the newest end, first
/// dropping the oldest element when the buffer is full.
#[verifier::external_body]
pub fn ring_enqueue(q: &mut ringbuffer::AllocRingBuffer<u64>, v: u64)
    ensures
        ring_cap(*final(q)) == ring_cap(*old(q)),
        ring_seq(*old(q)).len() < ring_cap(*old(q)) ==> ring_seq(*final(q)) == ring_seq(
            *old(q),
        ).push(v),
        ring_seq(*old(q)).len() >= ring_cap(*old(q)) ==> ring_seq(*final(q)) == ring_seq(
            *old(q),
        ).drop_first().push(v),
{
    let _ = q.enqueue(v);
}

/// Relies on `RingBuffer::front`: the oldest element, if any.
#[verifier::external_body]
pub fn ring_front(q: &ringbuffer::AllocRingBuffer<u64>) -> (r: Option<u64>)
    ensures
        r == if ring_seq(*q).len() == 0 {
            None::<u64>
        } else {
            Some(ring_seq(*q)[0])
        },
{
    q.front().copied()
}

/// Relies on `RingBuffer::to_vec`: all elements, oldest first.
#[verifier::external_body]
pub fn ring_to_vec(q: &ringbuffer::AllocRingBuffer<u64>) -> (r: Vec<u64>)
    ensures
        r@ == ring_seq(*q),
{
    q.to_vec()
}

} // verus!
