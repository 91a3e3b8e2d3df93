//! The result mailbox.
//!
//! A single-slot, overwrite-on-write, best-effort-read cell carrying
//! the latest computed stereo band pair from the processing thread to
//! the render thread.  The writer blocks briefly on the lock; the
//! reader only ever *tries* the lock, so a contended frame is skipped
//! rather than waited for, and the render side never stalls.

use vstd::prelude::*;

use crate::process::Frequency;

verus! {

/// One completed stereo result: the two channels' band records.
#[derive(Clone)]
pub struct StereoFrequencies {
    pub left: Vec<Frequency>,
    pub right: Vec<Frequency>,
}

#[verifier::external_type_specification]
#[verifier::external_body]
#[verifier::reject_recursive_types(R)]
#[verifier::reject_recursive_types(T)]
pub struct ExMutex<R, T: ?Sized>(parking_lot::lock_api::Mutex<R, T>);

#[verifier::external_type_specification]
#[verifier::external_body]
pub struct ExRawMutex(parking_lot::RawMutex);

/// The shared cell itself.  Clones share one underlying slot, as the
/// two threads must.
#[derive(Clone)]
pub struct Slot {
    inner: std::sync::Arc<
        parking_lot::lock_api::Mutex<parking_lot::RawMutex, Option<StereoFrequencies>>,
    >,
}

impl Slot {
    /// An empty slot.
    ///
    /// Relies on `parking_lot`'s `Mutex::new` for a fresh unlocked lock
    /// around an empty payload.
    #[verifier::external_body]
    pub fn new() -> Slot {
        Slot { inner: std::sync::Arc::new(parking_lot::lock_api::Mutex::new(None)) }
    }

    /// Stores the newest result, discarding whatever was there.
    ///
    /// Relies on `parking_lot`'s `Mutex::lock`: the write waits for the
    /// lock, then replaces the payload.
    #[verifier::external_body]
    pub fn put(&self, left: Vec<Frequency>, right: Vec<Frequency>) {
        *self.inner.lock() = Some(StereoFrequencies { left, right });
    }

    /// Reads the latest stored result without ever blocking.
    ///
    /// Relies on `parking_lot`'s `Mutex::try_lock`: when the writer
    /// holds the lock, or nothing has been stored yet, the caller gets
    /// `None` and is expected to reuse its previous frame.
    #[verifier::external_body]
    pub fn take(&self) -> Option<StereoFrequencies> {
        self.inner.try_lock()?.clone()
    }
}

impl Default for Slot {
    fn default() -> Slot {
        Slot::new()
    }
}

} // verus!
