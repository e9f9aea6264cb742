//! Border extraction: the opaque pixels that touch a transparent one.

use crate::grid::{GridView, PixelGrid, Rgba};
use crate::rows::{for_each_row, join, joined, row_views};
use vstd::prelude::*;

verus! {

/// An opaque pixel next to at least one fully transparent pixel: where it
/// lies (column, row) and the colour it had when it was found.
#[derive(Clone, Copy, Debug, PartialEq, Eq)]
pub struct BorderPixel {
    pub position: (u32, u32),
    pub color: (u8, u8, u8),
}

/// The cell lies inside the grid and is fully transparent.
pub open spec fn transparent_at(g: GridView, x: int, y: int) -> bool {
    g.contains(x, y) && g.alpha(x, y) == 0
}

/// One of the eight cells around `(x, y)` lies inside the grid and is fully
/// transparent. Cells outside the grid never count.
pub open spec fn has_transparent_neighbor(g: GridView, x: int, y: int) -> bool {
    ||| transparent_at(g, x - 1, y - 1)
    ||| transparent_at(g, x, y - 1)
    ||| transparent_at(g, x + 1, y - 1)
    ||| transparent_at(g, x + 1, y)
    ||| transparent_at(g, x - 1, y)
    ||| transparent_at(g, x + 1, y + 1)
    ||| transparent_at(g, x, y + 1)
    ||| transparent_at(g, x - 1, y + 1)
}

/// The cell holds a border pixel: it is inside the grid, not fully
/// transparent, and touches a fully transparent cell.
pub open spec fn is_border(g: GridView, x: int, y: int) -> bool {
    g.contains(x, y) && g.alpha(x, y) > 0 && has_transparent_neighbor(g, x, y)
}

/// The record that border extraction makes of the cell `(x, y)`.
pub open spec fn border_at(g: GridView, x: int, y: int) -> BorderPixel {
    let p = g.pixel(x, y);
    BorderPixel { position: (x as u32, y as u32), color: (p.r, p.g, p.b) }
}

/// The border pixels of row `y` in the columns below `n`, from left to right.
pub open spec fn row_borders(g: GridView, y: int, n: int) -> Seq<BorderPixel>
    decreases n,
{
    if n <= 0 {
        Seq::empty()
    } else if is_border(g, n - 1, y) {
        row_borders(g, y, n - 1).push(border_at(g, n - 1, y))
    } else {
        row_borders(g, y, n - 1)
    }
}

/// The border pixels of each row of the grid.
pub open spec fn border_rows(g: GridView) -> Seq<Seq<BorderPixel>> {
    Seq::new(g.height, |y: int| row_borders(g, y, g.width as int))
}

/// All border pixels of the grid in row-major order.
pub open spec fn border_pixels(g: GridView) -> Seq<BorderPixel> {
    joined(border_rows(g), g.height as int)
}

/// The record is the one that border extraction makes of the cell it names,
/// and that cell holds a border pixel.
pub open spec fn records_border(g: GridView, b: BorderPixel) -> bool {
    is_border(g, b.position.0 as int, b.position.1 as int) && b == border_at(
        g,
        b.position.0 as int,
        b.position.1 as int,
    )
}

/// The first position comes before the second in row-major order.
pub open spec fn row_major_before(a: (u32, u32), b: (u32, u32)) -> bool {
    a.1 < b.1 || (a.1 == b.1 && a.0 < b.0)
}

/// The border pixels of a row are records of border cells of that row, from
/// left to right, and hold every border cell of it.
pub proof fn lemma_row_borders(g: GridView, y: int, n: int)
    requires
        g.wf(),
        0 <= n <= g.width,
        0 <= y < g.height,
    ensures
        forall|k: int|
            0 <= k < row_borders(g, y, n).len() ==> {
                let b = #[trigger] row_borders(g, y, n)[k];
                records_border(g, b) && b.position.1 == y && b.position.0 < n
            },
        forall|j: int, k: int|
            0 <= j < k < row_borders(g, y, n).len() ==> (#[trigger] row_borders(g, y, n)[j]).position.0
                < (#[trigger] row_borders(g, y, n)[k]).position.0,
        forall|x: int|
            0 <= x < n && is_border(g, x, y) ==> row_borders(g, y, n).contains(
                #[trigger] border_at(g, x, y),
            ),
    decreases n,
{
    if n > 0 {
        lemma_row_borders(g, y, n - 1);
        let shorter = row_borders(g, y, n - 1);
        let row = row_borders(g, y, n);
        assert forall|x: int| 0 <= x < n && is_border(g, x, y) implies row.contains(
            #[trigger] border_at(g, x, y),
        ) by {
            if x < n - 1 {
                let k = choose|k: int| 0 <= k < shorter.len() && shorter[k] == border_at(g, x, y);
                assert(row[k] == border_at(g, x, y));
            } else {
                assert(row[shorter.len() as int] == border_at(g, x, y));
            }
        }
    }
}

/// The border pixels of the first `n` rows are records of border cells, in
/// row-major order, and hold every border cell of those rows.
pub proof fn lemma_border_rows(g: GridView, n: int)
    requires
        g.wf(),
        0 <= n <= g.height,
    ensures
        forall|k: int|
            0 <= k < joined(border_rows(g), n).len() ==> {
                let b = #[trigger] joined(border_rows(g), n)[k];
                records_border(g, b) && b.position.1 < n
            },
        forall|j: int, k: int|
            0 <= j < k < joined(border_rows(g), n).len() ==> row_major_before(
                (#[trigger] joined(border_rows(g), n)[j]).position,
                (#[trigger] joined(border_rows(g), n)[k]).position,
            ),
        forall|x: int, y: int|
            0 <= y < n && is_border(g, x, y) ==> joined(border_rows(g), n).contains(
                #[trigger] border_at(g, x, y),
            ),
    decreases n,
{
    if n > 0 {
        lemma_border_rows(g, n - 1);
        lemma_row_borders(g, n - 1, g.width as int);
        let shorter = joined(border_rows(g), n - 1);
        let all = joined(border_rows(g), n);
        let row = row_borders(g, n - 1, g.width as int);
        assert(all == shorter + row);
        assert forall|x: int, y: int| 0 <= y < n && is_border(g, x, y) implies all.contains(
            #[trigger] border_at(g, x, y),
        ) by {
            if y < n - 1 {
                let k = choose|k: int| 0 <= k < shorter.len() && shorter[k] == border_at(g, x, y);
                assert(all[k] == border_at(g, x, y));
            } else {
                let k = choose|k: int| 0 <= k < row.len() && row[k] == border_at(g, x, y);
                assert(all[shorter.len() + k] == border_at(g, x, y));
            }
        }
    }
}

/// Whether the cell `(x, y)`, which may lie outside the grid, is a fully
/// transparent pixel of it.
fn is_transparent(grid: &PixelGrid, x: i64, y: i64) -> (t: bool)
    requires
        grid.wf(),
    ensures
        t == transparent_at(grid@, x as int, y as int),
{
    if 0 <= x && x < grid.width() as i64 && 0 <= y && y < grid.height() as i64 {
        grid.get_pixel(x as u32, y as u32).a == 0
    } else {
        false
    }
}

/// Whether one of the eight neighbours of `(x, y)` inside the grid is fully
/// transparent.
pub fn is_border_pixel(grid: &PixelGrid, x: u32, y: u32) -> (border: bool)
    requires
        grid.wf(),
    ensures
        border == has_transparent_neighbor(grid@, x as int, y as int),
{
    let cx: i64 = x as i64;
    let cy: i64 = y as i64;
    is_transparent(grid, cx - 1, cy - 1) || is_transparent(grid, cx, cy - 1) || is_transparent(
        grid,
        cx + 1,
        cy - 1,
    ) || is_transparent(grid, cx + 1, cy) || is_transparent(grid, cx - 1, cy) || is_transparent(
        grid,
        cx + 1,
        cy + 1,
    ) || is_transparent(grid, cx, cy + 1) || is_transparent(grid, cx - 1, cy + 1)
}

/// The border pixels of row `y`, from left to right.
pub fn border_pixels_in_row(grid: &PixelGrid, y: u32) -> (row: Vec<BorderPixel>)
    requires
        grid.wf(),
        y < grid@.height,
    ensures
        row@ == row_borders(grid@, y as int, grid@.width as int),
{
    let width: u32 = grid.width();
    let mut row: Vec<BorderPixel> = Vec::new();
    let mut x: u32 = 0;
    while x < width
        invariant
            grid.wf(),
            y < grid@.height,
            width == grid@.width,
            x <= width,
            row@ == row_borders(grid@, y as int, x as int),
        decreases width - x,
    {
        let pixel: Rgba = grid.get_pixel(x, y);
        if pixel.a > 0 && is_border_pixel(grid, x, y) {
            row.push(BorderPixel { position: (x, y), color: (pixel.r, pixel.g, pixel.b) });
        }
        x = x + 1;
    }
    row
}

/// Finds the border pixels of the grid: every pixel that is not fully
/// transparent and has a fully transparent neighbour, in row-major order.
/// The rows are scanned in parallel; the order of the result does not depend
/// on it.
pub fn find_border_pixels(grid: &PixelGrid) -> (borders: Vec<BorderPixel>)
    requires
        grid.wf(),
    ensures
        borders@ == border_pixels(grid@),
        forall|k: int| 0 <= k < borders@.len() ==> records_border(grid@, #[trigger] borders@[k]),
        forall|x: int, y: int|
            is_border(grid@, x, y) ==> borders@.contains(#[trigger] border_at(grid@, x, y)),
        forall|j: int, k: int|
            0 <= j < k < borders@.len() ==> row_major_before(
                (#[trigger] borders@[j]).position,
                (#[trigger] borders@[k]).position,
            ),
{
    proof {
        lemma_border_rows(grid@, grid@.height as int);
    }
    let scan = |y: u32| -> (row: Vec<BorderPixel>)
        requires
            y < grid@.height,
        ensures
            row@ == row_borders(grid@, y as int, grid@.width as int),
        { border_pixels_in_row(grid, y) };
    let rows: Vec<Vec<BorderPixel>> = for_each_row(grid.height(), scan);
    assert(row_views(rows@) == border_rows(grid@));
    join(&rows)
}

} // verus!
