use vstd::prelude::*;

verus! {

/// Why a heatmap cannot be rendered.
#[derive(Clone, Copy, Debug, PartialEq, Eq, Structural)]
pub enum HeatmapError {
    /// The step between neighbouring cells is zero or negative.
    NonPositiveStep,
    /// The bounding box holds no point: along some axis its minimum lies
    /// above its maximum.
    DegenerateBox,
    /// The set of reference points is empty.
    NoReferencePoints,
    /// The number of cells, width times height, cannot be addressed.
    IndexOverflow,
    /// The colour ramp is not defined at the heat level of the cell at `index`.
    RampUndefined { index: usize, level: u16 },
}

} // verus!
