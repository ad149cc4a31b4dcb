//! Deduplicated color palettes on a voxel grid.
//!
//! An image's pixels are mapped into a perceptual color space, quantized
//! onto a regular three-dimensional integer lattice, and deduplicated by
//! lattice cell: the first color seen in each cell is the one kept. This
//! crate holds the verified core of that pipeline — the lattice key type,
//! the position-keyed map, and the first-wins reduction — stated over
//! mathematical sequences and proved with Verus.

mod color;
mod laws;
mod map;
mod model;
mod palette;
mod voxel;

pub use color::Color;
pub use laws::lemma_palette_coarsening;
pub use laws::lemma_palette_count_bound;
pub use laws::lemma_palette_counts_distinct_keys;
pub use laws::lemma_palette_first_wins;
pub use laws::lemma_palette_idempotent;
pub use map::VoxelMap;
pub use model::dedup_first;
pub use model::distinct_keys;
pub use model::first_index;
pub use model::first_value;
pub use model::has_key;
pub use model::key_set;
pub use model::lemma_dedup_first_value;
pub use palette::build_palette;
pub use voxel::VoxelPoint;
