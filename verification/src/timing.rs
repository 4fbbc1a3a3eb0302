use vstd::prelude::*;

verus! {

/// Marks the start of the named phase. Timing is switched off: nothing is recorded.
pub fn start(name: &str) {
}

/// Marks the end of the named phase. Timing is switched off: nothing is recorded.
pub fn stop(name: &str) {
}

/// Closes the named phase for good. Timing is switched off: nothing is reported.
pub fn finish(name: &str) {
}

} // verus!
