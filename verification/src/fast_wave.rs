//! The bookkeeping of WAV buffers read ahead by a dedicated reader thread.
//!
//! Each WAV gets a `BufferID` from the reader thread when registered. Its player counts down the
//! samples left in the buffered window and asks for a refill whenever fewer than three quarters of
//! a buffer remain.

use crate::fx::{fx_get, fx_insert, fx_new, fx_remove};
use fxhash::FxHashMap;
use vstd::prelude::*;

verus! {

broadcast use vstd::std_specs::hash::group_hash_axioms;

/// The identifier of a registered WAV buffer.
#[derive(Copy, Clone, Debug, PartialEq, Eq, Hash)]
pub struct BufferID(pub u64);

/// The number of samples left below which a refill is requested: three quarters of a buffer.
pub open spec fn spec_min_buffer(buffer_size: nat) -> nat {
    (3 * buffer_size / 4) as nat
}

/// Counts the samples left in the buffered window of one WAV.
#[derive(Copy, Clone, Debug)]
pub struct SampleBudget {
    buffer_left: usize,
    buffer_size: usize,
    min_buffer: usize,
}

impl SampleBudget {
    /// The samples left in the buffered window, the buffer size and the refill threshold.
    pub closed spec fn view(&self) -> (nat, nat, nat) {
        (self.buffer_left as nat, self.buffer_size as nat, self.min_buffer as nat)
    }

    /// The counts are consistent: at least one sample is left, never fewer than the threshold,
    /// and the threshold is three quarters of a buffer.
    pub closed spec fn wf(&self) -> bool {
        &&& self.buffer_size >= 2
        &&& self.buffer_size <= usize::MAX / 2
        &&& self.min_buffer == spec_min_buffer(self.buffer_size as nat)
        &&& self.min_buffer <= self.buffer_left
        &&& self.buffer_left <= self.buffer_size + self.min_buffer
    }

    /// A full window of `buffer_size` samples.
    pub fn new(buffer_size: usize) -> (r: Self)
        requires
            2 <= buffer_size <= usize::MAX / 2,
        ensures
            r.wf(),
            r@ == (buffer_size as nat, buffer_size as nat, spec_min_buffer(buffer_size as nat)),
    {
        let min_buffer = buffer_size / 4 * 3 + buffer_size % 4 * 3 / 4;
        proof {
            assert(min_buffer == 3 * buffer_size / 4) by (nonlinear_arith)
                requires
                    min_buffer == buffer_size / 4 * 3 + buffer_size % 4 * 3 / 4,
                    buffer_size >= 2;
        }
        SampleBudget { buffer_left: buffer_size, buffer_size, min_buffer }
    }

    /// Count one sample taken from the window. Returns whether a refill of one buffer is to be
    /// requested: the samples left fell below the threshold, and the refill is counted at once.
    pub fn take_sample(&mut self) -> (refill: bool)
        requires
            old(self).wf(),
        ensures
            final(self).wf(),
            refill == (old(self)@.0 - 1 < old(self)@.2),
            final(self)@.1 == old(self)@.1,
            final(self)@.2 == old(self)@.2,
            final(self)@.0 == (if refill { old(self)@.0 - 1 + old(self)@.1 } else { old(self)@.0 - 1 }),
    {
        proof {
            assert(self.min_buffer >= 1) by (nonlinear_arith)
                requires
                    self.min_buffer == 3 * self.buffer_size / 4,
                    self.buffer_size >= 2;
            assert(self.min_buffer <= self.buffer_size) by (nonlinear_arith)
                requires
                    self.min_buffer == 3 * self.buffer_size / 4;
        }
        self.buffer_left = self.buffer_left - 1;
        if self.buffer_left < self.min_buffer {
            self.buffer_left = self.buffer_left + self.buffer_size;
            true
        } else {
            false
        }
    }
}

/// The WAV buffers registered with the reader thread, by id.
pub struct Registry<B> {
    buffer_count: u64,
    buffers: FxHashMap<u64, B>,
}

impl<B> Registry<B> {
    /// The registered buffers by id.
    pub closed spec fn view(&self) -> Map<u64, B> {
        self.buffers@
    }

    /// The number of buffers registered so far: the next id.
    pub closed spec fn count(&self) -> u64 {
        self.buffer_count
    }

    /// Every registered id was handed out before the next one.
    pub closed spec fn wf(&self) -> bool {
        &&& self.buffers@.dom().finite()
        &&& forall|id: u64| #[trigger] self.buffers@.contains_key(id) ==> id < self.buffer_count
    }

    /// No buffers registered.
    pub fn new() -> (r: Self)
        ensures
            r.wf(),
            r@ == Map::<u64, B>::empty(),
            r.count() == 0,
    {
        let r = Registry { buffer_count: 0, buffers: fx_new() };
        proof {
            assert(r.buffers@ =~= Map::<u64, B>::empty());
        }
        r
    }

    /// Register a buffer under the next id.
    pub fn register(&mut self, buffer: B) -> (id: BufferID)
        requires
            old(self).wf(),
            old(self).count() < u64::MAX,
        ensures
            final(self).wf(),
            id.0 == old(self).count(),
            !old(self)@.contains_key(id.0),
            final(self)@ == old(self)@.insert(id.0, buffer),
            final(self).count() == old(self).count() + 1,
    {
        let id = BufferID(self.buffer_count);
        fx_insert(&mut self.buffers, id.0, buffer);
        self.buffer_count = self.buffer_count + 1;
        id
    }

    /// Remove the buffer with the given id, if registered.
    pub fn destroy(&mut self, id: BufferID) -> (r: Option<B>)
        requires
            old(self).wf(),
        ensures
            final(self).wf(),
            final(self)@ == old(self)@.remove(id.0),
            final(self).count() == old(self).count(),
            match r {
                Some(b) => old(self)@.contains_key(id.0) && b == old(self)@[id.0],
                None => !old(self)@.contains_key(id.0),
            },
    {
        fx_remove(&mut self.buffers, &id.0)
    }

    /// The buffer with the given id, if registered.
    pub fn get(&self, id: BufferID) -> (r: Option<&B>)
        ensures
            match r {
                Some(b) => self@.contains_key(id.0) && *b == self@[id.0],
                None => !self@.contains_key(id.0),
            },
    {
        fx_get(&self.buffers, &id.0)
    }
}

} // verus!
