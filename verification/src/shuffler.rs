use vstd::prelude::*;
use rand::seq::SliceRandom;

verus! {

/// Shuffles `batch` in place with the thread-local random generator, by
/// calling `rand::seq::SliceRandom::shuffle` with `rand::rng()`.
///
/// The order that comes out depends on the generator, so the contract states
/// only what holds of every outcome: the batch is a permutation of what went
/// in (rand's Fisher–Yates shuffle only swaps elements).  `rand::rng()`
/// panics if the operating system cannot seed the generator; that is a fault
/// of the environment and is not stated here.
#[verifier::external_body]
fn shuffle_batch<T>(batch: &mut Vec<T>)
    ensures
        final(batch)@.len() == old(batch)@.len(),
        final(batch)@.to_multiset() == old(batch)@.to_multiset(),
{
    batch.shuffle(&mut rand::rng());
}

/// Collects submitted vectors until `threshold` of them are pending, then
/// releases them all at once in a random order, so that the order of a batch
/// says nothing about the order (or origin) of its submissions.
#[derive(Debug)]
pub struct MixNetShuffler<T> {
    buffer: Vec<T>,
    threshold: usize,
}

impl<T> MixNetShuffler<T> {
    /// The number of submissions that releases a batch.
    pub closed spec fn threshold(&self) -> nat {
        self.threshold as nat
    }

    /// The submissions waiting for the next batch, in submission order.
    pub closed spec fn pending(&self) -> Seq<T> {
        self.buffer@
    }

    /// A full buffer is always released: fewer than `threshold` submissions
    /// ever wait.
    #[verifier::type_invariant]
    closed spec fn inv(&self) -> bool {
        self.buffer@.len() == 0 || self.buffer@.len() < self.threshold
    }

    /// An empty shuffler that releases a batch every `threshold` submissions.
    pub fn new(threshold: usize) -> (s: Self)
        ensures
            s.threshold() == threshold,
            s.pending() == Seq::<T>::empty(),
    {
        MixNetShuffler { buffer: Vec::new(), threshold }
    }

    /// Adds `vector` to the pending submissions.  When that brings their
    /// number to `threshold` (or more), all of them are released as one batch
    /// in random order and the shuffler starts over empty; otherwise `None`.
    pub fn submit_and_shuffle(&mut self, vector: T) -> (res: Option<Vec<T>>)
        ensures
            final(self).threshold() == old(self).threshold(),
            res is Some <==> old(self).pending().len() + 1 >= old(self).threshold(),
            res matches Some(batch) ==> {
                &&& batch@.to_multiset() == old(self).pending().push(vector).to_multiset()
                &&& batch@.len() == old(self).pending().len() + 1
                &&& final(self).pending() == Seq::<T>::empty()
                &&& old(self).threshold() >= 1 ==> batch@.len() == old(self).threshold()
            },
            final(self).pending().len() < final(self).threshold() || final(self).pending().len() == 0,
            res is None ==> final(self).pending() == old(self).pending().push(vector),
    {
        proof {
            use_type_invariant(&*self);
        }
        let mut pending: Vec<T> = Vec::new();
        std::mem::swap(&mut pending, &mut self.buffer);
        pending.push(vector);
        if pending.len() >= self.threshold {
            let ghost submitted = pending@;
            shuffle_batch(&mut pending);
            assert(pending@.to_multiset() == submitted.to_multiset());
            Some(pending)
        } else {
            self.buffer = pending;
            None
        }
    }
}

impl<T> Default for MixNetShuffler<T> {
    /// An empty shuffler with threshold zero: it releases every submission
    /// at once.
    fn default() -> (s: Self)
        ensures
            s.threshold() == 0,
            s.pending() == Seq::<T>::empty(),
    {
        MixNetShuffler { buffer: Vec::new(), threshold: 0 }
    }
}

} // verus!
