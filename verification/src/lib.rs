//! Nearest-station heatmaps over a rectangular lattice.
//!
//! A bounding box and a step span a lattice of cells, numbered row by row.
//! Every cell is coloured by the distance from its position to the nearest
//! of a fixed set of reference points, and the colours fill a buffer with
//! one pixel for each cell.
//!
//! Everything here is decided in whole numbers. A coordinate is a number of
//! ticks, a fixed fraction of a degree that the caller picks; a distance is a
//! number of the caller's units of length. The great-circle distance itself
//! is computed in floating point outside and handed in as a function of two
//! positions; what is proved holds for whatever that function returns.
//!
//! - [`grid`]: size of the lattice, and the mapping between the index of a
//!   cell and its position, both ways.
//! - [`nearest`]: the search for the nearest reference point; of several
//!   equally near ones the first wins.
//! - [`shade`]: from a distance to a heat level, and from a level to a
//!   colour of the ramp of the `fast_heatmap` crate.
//! - [`raster`]: the pixel of one cell, the pass that fills a buffer, and the
//!   whole rendering with its checks.
//! - [`encode`]: the buffer as red, green, blue, alpha bytes.

pub mod encode;
pub mod error;
pub mod geometry;
pub mod grid;
pub mod nearest;
pub mod raster;
pub mod shade;

pub use crate::encode::convert;
pub use crate::error::HeatmapError;
pub use crate::geometry::{Point, Rect};
pub use crate::grid::{dimensions, RectGridIterator};
pub use crate::nearest::{find_closest_point, nearest_of};
pub use crate::raster::{fill, progress_due, render, render_cell};
pub use crate::shade::{heat_color, heat_level};
