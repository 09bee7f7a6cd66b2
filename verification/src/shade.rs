use vstd::prelude::*;

verus! {

/// The heat level of a distance: the distance times `value_scale`, cut off at
/// the highest level, and counted down from it, so that the reference point
/// itself is hottest and all that lies far away is level zero.
pub open spec fn level_of(distance: u64, value_scale: u64) -> u16 {
    if distance * value_scale >= u16::MAX {
        0
    } else {
        (u16::MAX - distance * value_scale) as u16
    }
}

/// The stretch of the colour ramp that a level falls on. The ramp runs
/// through seven colours, so it has six stretches of equal length, numbered
/// from zero.
pub open spec fn ramp_segment(level: u16) -> int {
    level * 6 / 0x1_0000
}

/// The levels that the colour ramp takes: those off its third and fifth
/// stretch.
pub open spec fn ramp_defined(level: u16) -> bool {
    ramp_segment(level) != 2 && ramp_segment(level) != 4
}

/// The packed colour that `fast_heatmap::get_color` gives for a level.
pub uninterp spec fn ramp_color(level: u16) -> u32;

/// Calls `fast_heatmap::get_color`, the default colour ramp of that crate.
/// Its contract is taken on trust.
///
/// It claims two things of the colour returned: that it depends on the level
/// alone, and that it is opaque, that is, its top byte, alpha, is `0xFF`
/// (the crate packs a colour as alpha, blue, green, red from the top byte
/// down, and always sets alpha to `0xFF`).
///
/// It admits only the levels of [`ramp_defined`]. The ramp goes black, blue,
/// cyan, green, yellow, red, white, and within a stretch adds to each
/// channel of the lower colour a share of the difference to the upper one.
/// From cyan to green and from yellow to red a channel falls: the share is
/// negative, the crate adds it as a wrapped unsigned number, and a build
/// with overflow checks stops there. On the other four stretches no channel
/// falls and nothing overflows.
#[verifier::external_body]
fn get_color(level: u16) -> (pixel: u32)
    requires
        ramp_defined(level),
    ensures
        pixel == ramp_color(level),
        pixel >= 0xFF00_0000,
{
    fast_heatmap::get_color(level)
}

/// The heat level of `distance`, see [`level_of`].
pub fn heat_level(distance: u64, value_scale: u64) -> (level: u16)
    ensures
        level == level_of(distance, value_scale),
{
    assert(distance * value_scale <= u128::MAX) by (nonlinear_arith)
        requires
            distance <= u64::MAX,
            value_scale <= u64::MAX,
    ;
    let scaled: u128 = distance as u128 * value_scale as u128;
    if scaled >= u16::MAX as u128 {
        0
    } else {
        u16::MAX - scaled as u16
    }
}

/// The colour of a heat level, packed with red in the lowest byte and full
/// alpha in the highest; `None` for a level that the ramp does not take.
pub fn heat_color(level: u16) -> (pixel: Option<u32>)
    ensures
        pixel is Some <==> ramp_defined(level),
        pixel matches Some(p) ==> p == ramp_color(level) && p >= 0xFF00_0000,
{
    let segment: u32 = level as u32 * 6 / 0x1_0000;
    if segment == 2 || segment == 4 {
        None
    } else {
        Some(get_color(level))
    }
}

} // verus!
