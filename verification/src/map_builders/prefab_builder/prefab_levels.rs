use vstd::prelude::*;

verus! {

/// A whole hand-drawn level: its layout, row by row, and its size.
#[derive(Copy, Clone, Debug)]
pub struct PrefabLevel {
    pub template: &'static str,
    pub width: usize,
    pub height: usize,
}

} // verus!
