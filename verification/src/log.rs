use std::sync::Arc;
use std::sync::atomic::AtomicBool;
use std::sync::atomic::Ordering;
use vstd::prelude::*;

verus! {

/// Handle on the flag that a logging filter reads to choose between verbose
/// and errors-only output. The flag is shared with the filter, which may
/// live on another thread.
pub struct LevelSwitch {
    switch: Arc<AtomicBool>,
}

impl LevelSwitch {
    /// A handle on `switch`.
    pub fn new(switch: Arc<AtomicBool>) -> (r: LevelSwitch)
        ensures
            r.flag() == switch,
    {
        LevelSwitch { switch }
    }

    /// The shared flag that the handle sets and clears.
    pub closed spec fn flag(&self) -> Arc<AtomicBool> {
        self.switch
    }

    /// Turns verbose output on.
    pub fn enable(&self) {
        self.switch.store(true, Ordering::Relaxed);
    }

    /// Turns verbose output off.
    pub fn disable(&self) {
        self.switch.store(false, Ordering::Relaxed);
    }
}

} // verus!
