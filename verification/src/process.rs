//! The whole repair of one image: find the border, index it, fill.

use crate::border::{border_pixels, find_border_pixels, BorderPixel};
use crate::fill::{fill_transparent_pixels, filled, lookup_table, nearest_fill};
use crate::grid::{GridView, PixelGrid};
use crate::index::{build_spatial_index, first_in_cell, index_entries, IndexEntry, SpatialIndex};
use vstd::prelude::*;

verus! {

/// How the repair of one image ended.
#[derive(Clone, Copy, Debug, PartialEq, Eq, Structural)]
pub enum ProcessResult {
    /// Transparent pixels were filled.
    Success,
    /// The image has no border pixels and was left as it was.
    Skipped,
}

/// The index entries over all border pixels of the grid.
pub open spec fn grid_index(g: GridView) -> Seq<IndexEntry> {
    index_entries(border_pixels(g), border_pixels(g).len() as int)
}

/// The grid after the repair: as it was if it has no border pixels, and
/// otherwise filled from the index over its border pixels.
pub open spec fn processed(g: GridView, visualize: bool) -> GridView {
    if border_pixels(g).len() == 0 {
        g
    } else {
        filled(g, border_pixels(g), lookup_table(grid_index(g), g), visualize)
    }
}

/// The outcome of the repair: skipped exactly if the grid has no border
/// pixels.
pub open spec fn outcome(g: GridView) -> ProcessResult {
    if border_pixels(g).len() == 0 {
        ProcessResult::Skipped
    } else {
        ProcessResult::Success
    }
}

/// The first border pixel of a list is always indexed, so a border list
/// that is not empty has an index that is not empty.
pub proof fn lemma_index_not_empty(borders: Seq<BorderPixel>, n: int)
    requires
        1 <= n,
    ensures
        index_entries(borders, n).len() >= 1,
    decreases n,
{
    if n > 1 {
        lemma_index_not_empty(borders, n - 1);
    } else {
        assert(first_in_cell(borders, 0));
        assert(index_entries(borders, 0).len() == 0);
    }
}

/// Repairs one image in place. An image without border pixels is left
/// untouched and reported as skipped; in any other, every fully transparent
/// pixel takes the colour of the nearest border pixel.
pub fn process_image(image: &mut PixelGrid, debug_mode: bool) -> (result: ProcessResult)
    requires
        old(image).wf(),
    ensures
        final(image).wf(),
        final(image)@ == processed(old(image)@, debug_mode),
        result == outcome(old(image)@),
        result == ProcessResult::Skipped ==> final(image)@ == old(image)@,
        result == ProcessResult::Success ==> forall|x: int, y: int|
            old(image)@.contains(x, y) ==> #[trigger] final(image)@.pixel(x, y) == nearest_fill(
                old(image)@,
                grid_index(old(image)@),
                border_pixels(old(image)@),
                debug_mode,
                x,
                y,
            ),
{
    let border_pixels: Vec<BorderPixel> = find_border_pixels(image);
    if border_pixels.len() == 0 {
        return ProcessResult::Skipped;
    }
    let spatial_index: SpatialIndex = build_spatial_index(&border_pixels);
    proof {
        lemma_index_not_empty(border_pixels@, border_pixels@.len() as int);
    }
    let _unfilled: usize = fill_transparent_pixels(&spatial_index, &border_pixels, image, debug_mode);
    ProcessResult::Success
}

} // verus!
