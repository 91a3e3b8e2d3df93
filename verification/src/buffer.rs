//! The sliding sample window.
//!
//! Incoming chunks of arbitrary size accumulate in a fixed-capacity
//! trailing buffer; a contiguous block becomes available exactly when
//! the buffer holds `target` samples.  Whenever new data would overflow
//! the capacity, the oldest samples are dropped first, so the buffer
//! always holds the most recent `target` samples seen.

use vstd::prelude::*;

verus! {

/// A capability every sample source offers: its fixed sample rate and
/// the largest block length it supports.
pub trait Source {
    fn sample_rate(&self) -> u32;

    fn sample_size(&self) -> usize;
}

/// Fixed-capacity trailing window over a stream of samples.
pub struct WindowBuffer<T> {
    data: Vec<T>,
    target: usize,
}

impl<T: Copy> WindowBuffer<T> {
    /// The samples currently held, oldest first.
    pub closed spec fn contents(&self) -> Seq<T> {
        self.data@
    }

    /// The block length the window accumulates towards.
    pub closed spec fn target(&self) -> usize {
        self.target
    }

    /// The window never holds more than `target` samples.
    pub open spec fn wf(&self) -> bool {
        self.contents().len() <= self.target()
    }

    /// An empty window aiming for blocks of `target` samples.
    pub fn new(target: usize) -> (r: Self)
        ensures
            r.contents() == Seq::<T>::empty(),
            r.target() == target,
            r.wf(),
    {
        WindowBuffer { data: Vec::new(), target }
    }

    /// Appends `chunk`, dropping the oldest samples so that at most
    /// `target` remain: the new contents are the last
    /// `min(target, old len + chunk len)` samples of the concatenation.
    pub fn push(&mut self, chunk: &Vec<T>)
        requires
            old(self).wf(),
        ensures
            final(self).target() == old(self).target(),
            final(self).wf(),
            final(self).contents() == (old(self).contents() + chunk@).skip(
                overflow_of(old(self).contents().len(), chunk@.len(), old(self).target() as nat) as int,
            ),
            old(self).contents().len() + chunk@.len() <= old(self).target()
                ==> final(self).contents() == old(self).contents() + chunk@,
    {
        let old_len: usize = self.data.len();
        let ghost joined: Seq<T> = self.data@ + chunk@;
        let ghost ovf: nat = overflow_of(self.data@.len(), chunk@.len(), self.target as nat);
        let mut out: Vec<T> = Vec::new();
        if chunk.len() >= self.target {
            // Every old sample is shed; only the chunk's tail survives.
            let start: usize = chunk.len() - self.target;
            let mut i: usize = start;
            while i < chunk.len()
                invariant
                    start <= i <= chunk@.len(),
                    out@ == chunk@.subrange(start as int, i as int),
                decreases chunk@.len() - i,
            {
                let v: T = chunk[i];
                out.push(v);
                i = i + 1;
            }
            proof {
                assert(out@ =~= joined.skip(ovf as int));
            }
        } else {
            // Keep the newest old samples that still fit beside the chunk.
            let keep: usize = self.target - chunk.len();
            let drop: usize = if old_len > keep {
                old_len - keep
            } else {
                0
            };
            proof {
                assert(drop == ovf);
            }
            let mut i: usize = drop;
            while i < old_len
                invariant
                    drop <= i <= old_len,
                    old_len == self.data@.len(),
                    out@ == self.data@.subrange(drop as int, i as int),
                decreases old_len - i,
            {
                let v: T = self.data[i];
                out.push(v);
                i = i + 1;
            }
            let mut j: usize = 0;
            while j < chunk.len()
                invariant
                    j <= chunk@.len(),
                    old_len == self.data@.len(),
                    drop <= old_len,
                    out@ == self.data@.subrange(drop as int, old_len as int) + chunk@.subrange(
                        0,
                        j as int,
                    ),
                decreases chunk@.len() - j,
            {
                let v: T = chunk[j];
                out.push(v);
                j = j + 1;
            }
            proof {
                assert(out@ =~= joined.skip(ovf as int));
            }
        }
        self.data = out;
    }

    /// Returns a copy of the accumulated block exactly when the window
    /// is full; otherwise reports that more data is needed.  The window
    /// itself is left as it is either way.
    pub fn try_take_block(&self) -> (r: Option<Vec<T>>)
        ensures
            self.contents().len() == self.target() ==> (r matches Some(block)
                && block@ == self.contents()),
            self.contents().len() != self.target() ==> r is None,
    {
        if self.data.len() == self.target {
            let mut block: Vec<T> = Vec::new();
            let mut i: usize = 0;
            while i < self.data.len()
                invariant
                    i <= self.data@.len(),
                    block@ == self.data@.subrange(0, i as int),
                decreases self.data@.len() - i,
            {
                let v: T = self.data[i];
                block.push(v);
                i = i + 1;
            }
            proof {
                assert(block@ == self.data@.subrange(0, self.data@.len() as int));
                assert(self.data@.subrange(0, self.data@.len() as int) == self.data@);
            }
            Some(block)
        } else {
            None
        }
    }
}

/// How many of the oldest samples a push must shed to fit the capacity.
pub open spec fn overflow_of(len: nat, chunk: nat, target: nat) -> nat {
    if len + chunk > target {
        (len + chunk - target) as nat
    } else {
        0
    }
}

} // verus!
