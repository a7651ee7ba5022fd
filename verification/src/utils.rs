//! Lock-free signalling cells shared between the control context and the
//! audio context.
//!
//! Nothing is promised about the values read from these cells: another
//! thread may store at any time. The engine's contracts therefore hold for
//! every value a read may return.
use vstd::prelude::*;

verus! {

/// Uniform constructor/load/store interface of the signalling cells.
pub trait AtomicOps {
    type Item;

    fn new(v: Self::Item) -> Self where Self: core::marker::Sized;

    fn get(&self) -> Self::Item;

    fn set(&self, v: Self::Item);
}

/// A 32-bit float cell, held as its IEEE-754 bit pattern so that the
/// verified engine never touches the float itself; the adapter converts at
/// the edge. Loads and stores are relaxed.
pub struct AtomicF32(pub core::sync::atomic::AtomicU32);

impl AtomicOps for AtomicF32 {
    type Item = u32;

    fn new(v: u32) -> Self {
        AtomicF32(core::sync::atomic::AtomicU32::new(v))
    }

    fn get(&self) -> u32 {
        self.0.load(core::sync::atomic::Ordering::Relaxed)
    }

    fn set(&self, v: u32) {
        self.0.store(v, core::sync::atomic::Ordering::Relaxed)
    }
}

/// A boolean flag cell; stores release so a flag raised after a parameter
/// write is seen no earlier than the write.
pub struct AtomicBool(pub core::sync::atomic::AtomicBool);

impl AtomicOps for AtomicBool {
    type Item = bool;

    fn new(v: bool) -> AtomicBool {
        AtomicBool(core::sync::atomic::AtomicBool::new(v))
    }

    fn get(&self) -> bool {
        self.0.load(core::sync::atomic::Ordering::Relaxed)
    }

    fn set(&self, v: bool) {
        self.0.store(v, core::sync::atomic::Ordering::Release)
    }
}

impl AtomicBool {
    /// Consume-and-clear: true exactly when the flag was set, and then it
    /// is cleared in the same atomic step, so a concurrent re-set is never
    /// lost.
    pub fn check_reset(&self) -> bool {
        self.0.compare_exchange(
            true,
            false,
            core::sync::atomic::Ordering::Acquire,
            core::sync::atomic::Ordering::Relaxed,
        ).is_ok()
    }

    /// Raise or clear the flag with release ordering.
    pub fn set_release(&self, v: bool) {
        self.0.store(v, core::sync::atomic::Ordering::Release)
    }
}

} // verus!
