use vstd::prelude::*;

verus! {

/// Where one capture group matched in a line: the byte offsets of its start
/// and of its end.
#[derive(Clone, Copy, Debug)]
pub struct IOnigCaptureIndex {
    pub start: usize,
    pub end: usize,
}

} // verus!
