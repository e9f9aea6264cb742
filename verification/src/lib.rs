//! Repairs colour fringing at the edges of transparent regions in RGBA images.
//!
//! Every fully transparent pixel receives the colour of the nearest opaque
//! pixel that borders a transparent one. The alpha channel is left as it is,
//! unless the fill is asked to make the filled region visible.

pub mod border;
pub mod fill;
pub mod grid;
pub mod index;
pub mod laws;
pub mod policy;
pub mod process;
pub mod rows;
pub mod stats;

pub use border::{find_border_pixels, is_border_pixel, BorderPixel};
pub use fill::{
    fill_from_lookups, fill_transparent_pixel, fill_transparent_pixels,
    fill_transparent_pixels_with,
};
pub use grid::{PixelGrid, Rgba};
pub use index::{apply_position_jitter, build_spatial_index, IndexEntry, SpatialIndex};
pub use policy::{Admission, LargeImagePolicy, PolicyRejection};
pub use process::{process_image, ProcessResult};
pub use stats::{ProcessingStats, SummaryLine};
