//! What holds of border extraction and of the repair, for every grid.

use crate::border::{
    border_at, border_pixels, border_rows, has_transparent_neighbor, is_border, lemma_border_rows,
    records_border, row_borders, row_major_before, transparent_at, BorderPixel,
};
use crate::fill::{
    filled, lemma_filled_pixel, lemma_table_never_fails, lookup_at, lookup_rows, lookup_table,
    row_lookups,
};
use crate::grid::{GridView, OPAQUE};
use crate::index::{
    entry_for, first_in_cell, index_entries, index_position, jittered_position,
    lemma_index_entries, refers_to, squared_distance, SUBPIXEL,
};
use crate::process::{grid_index, outcome, processed, ProcessResult};
use vstd::prelude::*;

verus! {

/// The cell `(x + dx, y + dy)` is one of the eight around `(x, y)`, lies
/// inside the grid and is fully transparent.
pub open spec fn is_transparent_neighbor(g: GridView, x: int, y: int, dx: int, dy: int) -> bool {
    &&& -1 <= dx <= 1
    &&& -1 <= dy <= 1
    &&& !(dx == 0 && dy == 0)
    &&& transparent_at(g, x + dx, y + dy)
}

/// A cell has a transparent neighbour exactly if one of the eight cells
/// around it lies inside the grid and has alpha 0.
pub proof fn transparent_neighbor_exists(g: GridView, x: int, y: int)
    ensures
        has_transparent_neighbor(g, x, y) <==> exists|dx: int, dy: int| #[trigger]
            is_transparent_neighbor(g, x, y, dx, dy),
{
    if has_transparent_neighbor(g, x, y) {
        if transparent_at(g, x - 1, y - 1) {
            assert(is_transparent_neighbor(g, x, y, -1, -1));
        } else if transparent_at(g, x, y - 1) {
            assert(is_transparent_neighbor(g, x, y, 0, -1));
        } else if transparent_at(g, x + 1, y - 1) {
            assert(is_transparent_neighbor(g, x, y, 1, -1));
        } else if transparent_at(g, x + 1, y) {
            assert(is_transparent_neighbor(g, x, y, 1, 0));
        } else if transparent_at(g, x - 1, y) {
            assert(is_transparent_neighbor(g, x, y, -1, 0));
        } else if transparent_at(g, x + 1, y + 1) {
            assert(is_transparent_neighbor(g, x, y, 1, 1));
        } else if transparent_at(g, x, y + 1) {
            assert(is_transparent_neighbor(g, x, y, 0, 1));
        } else {
            assert(is_transparent_neighbor(g, x, y, -1, 1));
        }
    }
}

/// Border extraction is sound and complete, and keeps row-major order: every
/// record in the border list is the record of a border cell; every border
/// cell of the grid has its record in the list; and of two records the
/// earlier one lies in an earlier row, or in the same row further left.
pub proof fn border_list_is_exact(g: GridView)
    requires
        g.wf(),
    ensures
        forall|k: int|
            0 <= k < border_pixels(g).len() ==> records_border(g, #[trigger] border_pixels(g)[k]),
        forall|x: int, y: int|
            is_border(g, x, y) ==> border_pixels(g).contains(#[trigger] border_at(g, x, y)),
        forall|j: int, k: int|
            0 <= j < k < border_pixels(g).len() ==> row_major_before(
                (#[trigger] border_pixels(g)[j]).position,
                (#[trigger] border_pixels(g)[k]).position,
            ),
{
    lemma_border_rows(g, g.height as int);
}

/// A cell in the left column is judged by the five cells around it that do
/// not lie further left.
pub proof fn left_edge_neighbors(g: GridView, y: int)
    ensures
        has_transparent_neighbor(g, 0, y) <==> {
            ||| transparent_at(g, 0, y - 1)
            ||| transparent_at(g, 1, y - 1)
            ||| transparent_at(g, 1, y)
            ||| transparent_at(g, 1, y + 1)
            ||| transparent_at(g, 0, y + 1)
        },
{
}

/// A cell in the right column is judged by the five cells around it that do
/// not lie further right.
pub proof fn right_edge_neighbors(g: GridView, y: int)
    ensures
        has_transparent_neighbor(g, g.width - 1, y) <==> {
            ||| transparent_at(g, g.width - 1, y - 1)
            ||| transparent_at(g, g.width - 2, y - 1)
            ||| transparent_at(g, g.width - 2, y)
            ||| transparent_at(g, g.width - 2, y + 1)
            ||| transparent_at(g, g.width - 1, y + 1)
        },
{
}

/// A cell in the top row is judged by the five cells around it that do not
/// lie further up.
pub proof fn top_edge_neighbors(g: GridView, x: int)
    ensures
        has_transparent_neighbor(g, x, 0) <==> {
            ||| transparent_at(g, x - 1, 0)
            ||| transparent_at(g, x + 1, 0)
            ||| transparent_at(g, x - 1, 1)
            ||| transparent_at(g, x, 1)
            ||| transparent_at(g, x + 1, 1)
        },
{
}

/// A cell in the bottom row is judged by the five cells around it that do
/// not lie further down.
pub proof fn bottom_edge_neighbors(g: GridView, x: int)
    ensures
        has_transparent_neighbor(g, x, g.height - 1) <==> {
            ||| transparent_at(g, x - 1, g.height - 1)
            ||| transparent_at(g, x + 1, g.height - 1)
            ||| transparent_at(g, x - 1, g.height - 2)
            ||| transparent_at(g, x, g.height - 2)
            ||| transparent_at(g, x + 1, g.height - 2)
        },
{
}

/// Each corner cell is judged by the three cells around it that lie inside
/// the grid.
pub proof fn corner_neighbors(g: GridView)
    ensures
        has_transparent_neighbor(g, 0, 0) <==> {
            ||| transparent_at(g, 1, 0)
            ||| transparent_at(g, 0, 1)
            ||| transparent_at(g, 1, 1)
        },
        has_transparent_neighbor(g, g.width - 1, 0) <==> {
            ||| transparent_at(g, g.width - 2, 0)
            ||| transparent_at(g, g.width - 2, 1)
            ||| transparent_at(g, g.width - 1, 1)
        },
        has_transparent_neighbor(g, 0, g.height - 1) <==> {
            ||| transparent_at(g, 0, g.height - 2)
            ||| transparent_at(g, 1, g.height - 2)
            ||| transparent_at(g, 1, g.height - 1)
        },
        has_transparent_neighbor(g, g.width - 1, g.height - 1) <==> {
            ||| transparent_at(g, g.width - 2, g.height - 2)
            ||| transparent_at(g, g.width - 1, g.height - 2)
            ||| transparent_at(g, g.width - 2, g.height - 1)
        },
{
}

/// A grid without a fully transparent pixel, and a grid in which every pixel
/// is fully transparent, has no border pixels: its repair is skipped and
/// leaves every byte as it was.
pub proof fn uniform_grid_is_skipped(g: GridView, visualize: bool)
    requires
        g.wf(),
        (forall|x: int, y: int| g.contains(x, y) ==> #[trigger] g.alpha(x, y) > 0) || (forall|
            x: int,
            y: int,
        |
            g.contains(x, y) ==> #[trigger] g.alpha(x, y) == 0),
    ensures
        border_pixels(g).len() == 0,
        outcome(g) == ProcessResult::Skipped,
        processed(g, visualize) == g,
{
    border_list_is_exact(g);
    if border_pixels(g).len() > 0 {
        let b = border_pixels(g)[0];
        assert(records_border(g, b));
    }
}

/// The index over a border list holds exactly the border pixels that are the
/// first in their cell, each with the jitter of its place, in the order of
/// the list.
pub proof fn index_is_exact(borders: Seq<BorderPixel>)
    requires
        borders.len() <= usize::MAX,
    ensures
        refers_to(index_entries(borders, borders.len() as int), borders),
        forall|k: int|
            0 <= k < index_entries(borders, borders.len() as int).len() ==> {
                let entry = #[trigger] index_entries(borders, borders.len() as int)[k];
                &&& first_in_cell(borders, entry.item as int)
                &&& entry == entry_for(borders, entry.item as int)
            },
        forall|j: int, k: int|
            0 <= j < k < index_entries(borders, borders.len() as int).len() ==> (
            #[trigger] index_entries(borders, borders.len() as int)[j]).item < (
            #[trigger] index_entries(borders, borders.len() as int)[k]).item,
        forall|i: int|
            0 <= i < borders.len() && first_in_cell(borders, i) ==> index_entries(
                borders,
                borders.len() as int,
            ).contains(#[trigger] entry_for(borders, i)),
{
    lemma_index_entries(borders, borders.len() as int);
}

proof fn lemma_all_indexed(borders: Seq<BorderPixel>, n: int)
    requires
        0 <= n <= borders.len(),
        forall|i: int| 0 <= i < n ==> first_in_cell(borders, i),
    ensures
        index_entries(borders, n).len() == n,
        forall|k: int| 0 <= k < n ==> #[trigger] index_entries(borders, n)[k] == entry_for(borders, k),
    decreases n,
{
    if n > 0 {
        lemma_all_indexed(borders, n - 1);
    }
}

/// No two border pixels of a grid lie in the same cell, so the index over
/// them has one entry for each, at the same place as in the border list.
pub proof fn every_border_pixel_is_indexed(g: GridView)
    requires
        g.wf(),
    ensures
        grid_index(g).len() == border_pixels(g).len(),
        forall|k: int|
            0 <= k < border_pixels(g).len() ==> #[trigger] grid_index(g)[k] == entry_for(
                border_pixels(g),
                k,
            ),
        refers_to(grid_index(g), border_pixels(g)),
{
    let borders = border_pixels(g);
    border_list_is_exact(g);
    assert forall|i: int| 0 <= i < borders.len() implies first_in_cell(borders, i) by {
        assert forall|j: int| 0 <= j < i implies (#[trigger] borders[j]).position
            != borders[i].position by {
            assert(row_major_before(borders[j].position, borders[i].position));
        }
    }
    lemma_all_indexed(borders, borders.len() as int);
    assert forall|k: int| 0 <= k < grid_index(g).len() implies (#[trigger] grid_index(g)[k]).item
        < borders.len() by {
        assert(records_border(g, borders[k]));
        g.lemma_index_in_range(borders[k].position.0 as int, borders[k].position.1 as int);
    }
}

/// No jitter moves a point further than this many index units.
pub const JITTER_REACH: u64 = 141;

/// A point within `reach` of the origin, moved by less than a jitter in
/// either direction along each axis, lies within `reach + JITTER_REACH`.
proof fn lemma_moved_point(vx: int, vy: int, jx: int, jy: int, reach: int)
    requires
        -100 < jx < 100,
        -100 < jy < 100,
        reach >= 0,
        vx * vx + vy * vy <= reach * reach,
    ensures
        (vx + jx) * (vx + jx) + (vy + jy) * (vy + jy) < (reach + 141) * (reach + 141),
{
    let p = vx * jx;
    let q = vy * jy;
    let r = vx * jy;
    let s = vy * jx;
    let t = p + q;
    let cross = r - s;
    let (a2, b2, c2, d2) = (vx * vx, vy * vy, jx * jx, jy * jy);
    let v2 = a2 + b2;
    let j2 = c2 + d2;
    assert(a2 >= 0 && b2 >= 0 && c2 >= 0 && d2 >= 0) by (nonlinear_arith)
        requires
            a2 == vx * vx,
            b2 == vy * vy,
            c2 == jx * jx,
            d2 == jy * jy,
    ;
    assert(p * p == a2 * c2) by (nonlinear_arith)
        requires
            p == vx * jx,
            a2 == vx * vx,
            c2 == jx * jx,
    ;
    assert(q * q == b2 * d2) by (nonlinear_arith)
        requires
            q == vy * jy,
            b2 == vy * vy,
            d2 == jy * jy,
    ;
    assert(r * r == a2 * d2) by (nonlinear_arith)
        requires
            r == vx * jy,
            a2 == vx * vx,
            d2 == jy * jy,
    ;
    assert(s * s == b2 * c2) by (nonlinear_arith)
        requires
            s == vy * jx,
            b2 == vy * vy,
            c2 == jx * jx,
    ;
    assert(p * q == r * s) by (nonlinear_arith)
        requires
            p == vx * jx,
            q == vy * jy,
            r == vx * jy,
            s == vy * jx,
    ;
    assert(v2 * j2 == a2 * c2 + a2 * d2 + b2 * c2 + b2 * d2) by (nonlinear_arith)
        requires
            v2 == a2 + b2,
            j2 == c2 + d2,
    ;
    assert(t * t == p * p + 2 * (p * q) + q * q) by (nonlinear_arith)
        requires
            t == p + q,
    ;
    assert(cross * cross == r * r - 2 * (r * s) + s * s) by (nonlinear_arith)
        requires
            cross == r - s,
    ;
    assert(v2 * j2 == t * t + cross * cross);
    assert(cross * cross >= 0) by (nonlinear_arith);
    assert(c2 <= 9801 && d2 <= 9801) by (nonlinear_arith)
        requires
            c2 == jx * jx,
            d2 == jy * jy,
            -100 < jx < 100,
            -100 < jy < 100,
    ;
    assert(v2 * j2 <= reach * reach * 19602) by (nonlinear_arith)
        requires
            0 <= v2 <= reach * reach,
            0 <= j2 <= 19602,
    ;
    assert(t <= 141 * reach) by (nonlinear_arith)
        requires
            t * t <= reach * reach * 19602,
            reach >= 0,
    ;
    assert((vx + jx) * (vx + jx) == a2 + 2 * p + c2) by (nonlinear_arith)
        requires
            p == vx * jx,
            a2 == vx * vx,
            c2 == jx * jx,
    ;
    assert((vy + jy) * (vy + jy) == b2 + 2 * q + d2) by (nonlinear_arith)
        requires
            q == vy * jy,
            b2 == vy * vy,
            d2 == jy * jy,
    ;
    assert((reach + 141) * (reach + 141) == reach * reach + 282 * reach + 19881)
        by (nonlinear_arith);
}

/// Jitter does not change which of two border pixels is nearer to a pixel
/// where the difference is clear: if one lies within `reach` index units of
/// the pixel and the other at least `reach + 2 * JITTER_REACH` units away,
/// less than three thousandths of a pixel more, then the first is indexed
/// nearer than the second, whatever their places in the border list.
pub proof fn jitter_keeps_clear_winners(
    nearer: (u32, u32),
    nearer_seed: nat,
    farther: (u32, u32),
    farther_seed: nat,
    x: int,
    y: int,
    reach: int,
)
    requires
        reach >= 0,
        squared_distance(index_position(nearer), x, y) <= reach * reach,
        squared_distance(index_position(farther), x, y) >= (reach + 2 * JITTER_REACH) * (reach + 2
            * JITTER_REACH),
    ensures
        squared_distance(jittered_position(nearer, nearer_seed), x, y) < squared_distance(
            jittered_position(farther, farther_seed),
            x,
            y,
        ),
{
    let a = index_position(nearer);
    let b = index_position(farther);
    let ja = jittered_position(nearer, nearer_seed);
    let jb = jittered_position(farther, farther_seed);
    let qx = x * SUBPIXEL;
    let qy = y * SUBPIXEL;
    lemma_moved_point(a.0 - qx, a.1 - qy, ja.0 - a.0, ja.1 - a.1, reach);
    if squared_distance(jb, x, y) < (reach + 141) * (reach + 141) {
        lemma_moved_point(jb.0 - qx, jb.1 - qy, b.0 - jb.0, b.1 - jb.1, reach + 141);
    }
}

/// The grids have the same dimensions, the same alpha in every pixel, and
/// the same colour in every pixel that is not fully transparent.
pub open spec fn same_opaque_content(a: GridView, b: GridView) -> bool {
    &&& a.width == b.width
    &&& a.height == b.height
    &&& forall|i: int|
        0 <= i < a.pixel_count() ==> {
            &&& (#[trigger] a.pixel_at(i)).a == b.pixel_at(i).a
            &&& a.pixel_at(i).a > 0 ==> a.pixel_at(i) == b.pixel_at(i)
        }
}

proof fn lemma_same_pixel(a: GridView, b: GridView, x: int, y: int)
    requires
        a.wf(),
        b.wf(),
        same_opaque_content(a, b),
    ensures
        transparent_at(a, x, y) == transparent_at(b, x, y),
        a.contains(x, y) ==> a.alpha(x, y) == b.alpha(x, y),
        a.contains(x, y) && a.alpha(x, y) > 0 ==> a.pixel(x, y) == b.pixel(x, y),
{
    if a.contains(x, y) {
        a.lemma_index_in_range(x, y);
        assert(a.pixel_at(a.index_of(x, y)).a == b.pixel_at(a.index_of(x, y)).a);
    }
}

proof fn lemma_same_border_cell(a: GridView, b: GridView, x: int, y: int)
    requires
        a.wf(),
        b.wf(),
        same_opaque_content(a, b),
    ensures
        is_border(a, x, y) == is_border(b, x, y),
        is_border(a, x, y) ==> border_at(a, x, y) == border_at(b, x, y),
{
    lemma_same_pixel(a, b, x, y);
    lemma_same_pixel(a, b, x - 1, y - 1);
    lemma_same_pixel(a, b, x, y - 1);
    lemma_same_pixel(a, b, x + 1, y - 1);
    lemma_same_pixel(a, b, x + 1, y);
    lemma_same_pixel(a, b, x - 1, y);
    lemma_same_pixel(a, b, x + 1, y + 1);
    lemma_same_pixel(a, b, x, y + 1);
    lemma_same_pixel(a, b, x - 1, y + 1);
}

proof fn lemma_same_row_borders(a: GridView, b: GridView, y: int, n: int)
    requires
        a.wf(),
        b.wf(),
        same_opaque_content(a, b),
    ensures
        row_borders(a, y, n) == row_borders(b, y, n),
    decreases n,
{
    if n > 0 {
        lemma_same_row_borders(a, b, y, n - 1);
        lemma_same_border_cell(a, b, n - 1, y);
    }
}

/// Border extraction reads nothing but the alpha of every pixel and the
/// colour of the pixels that are not fully transparent: two grids that agree
/// in these have the same border list, the same index and the same lookup
/// results.
pub proof fn borders_depend_on_opaque_content(a: GridView, b: GridView)
    requires
        a.wf(),
        b.wf(),
        same_opaque_content(a, b),
    ensures
        border_pixels(a) == border_pixels(b),
        grid_index(a) == grid_index(b),
        lookup_table(grid_index(a), a) == lookup_table(grid_index(b), b),
{
    assert forall|y: int| 0 <= y < a.height implies #[trigger] border_rows(a)[y] == border_rows(
        b,
    )[y] by {
        lemma_same_row_borders(a, b, y, a.width as int);
    }
    assert(border_rows(a) =~= border_rows(b));
    let index = grid_index(a);
    assert forall|y: int| 0 <= y < a.height implies #[trigger] lookup_rows(index, a)[y]
        == lookup_rows(index, b)[y] by {
        assert forall|x: int| 0 <= x < a.width implies #[trigger] lookup_at(index, a, x, y)
            == lookup_at(index, b, x, y) by {
            lemma_same_pixel(a, b, x, y);
        }
        assert(row_lookups(index, a, y) =~= row_lookups(index, b, y));
    }
    assert(lookup_rows(index, a) =~= lookup_rows(index, b));
}

/// A fill that leaves alpha alone changes nothing when it is applied a
/// second time with the same border list and the same lookup results.
pub proof fn fill_twice_is_fill_once(g: GridView, borders: Seq<BorderPixel>, lookups: Seq<usize>)
    requires
        g.wf(),
    ensures
        filled(filled(g, borders, lookups, false), borders, lookups, false) == filled(
            g,
            borders,
            lookups,
            false,
        ),
{
    let once = filled(g, borders, lookups, false);
    let twice = filled(once, borders, lookups, false);
    assert forall|k: int| 0 <= k < once.data.len() implies twice.data[k] == once.data[k] by {
        lemma_filled_pixel(g, borders, lookups, false, k / 4);
    }
    assert(twice.data =~= once.data);
}

/// A fill that leaves alpha alone keeps the alpha of every pixel and every
/// byte of the pixels that are not fully transparent.
pub proof fn fill_keeps_opaque_content(g: GridView, borders: Seq<BorderPixel>, lookups: Seq<usize>)
    requires
        g.wf(),
    ensures
        filled(g, borders, lookups, false).wf(),
        same_opaque_content(filled(g, borders, lookups, false), g),
{
    let once = filled(g, borders, lookups, false);
    assert forall|i: int| 0 <= i < once.pixel_count() implies {
        &&& (#[trigger] once.pixel_at(i)).a == g.pixel_at(i).a
        &&& once.pixel_at(i).a > 0 ==> once.pixel_at(i) == g.pixel_at(i)
    } by {
        lemma_filled_pixel(g, borders, lookups, false, i);
    }
}

/// The repair is idempotent where it leaves alpha alone: repairing a
/// repaired grid finds the same border pixels and changes no byte.
pub proof fn repair_is_idempotent(g: GridView)
    requires
        g.wf(),
    ensures
        border_pixels(processed(g, false)) == border_pixels(g),
        processed(processed(g, false), false) == processed(g, false),
{
    if border_pixels(g).len() > 0 {
        let borders = border_pixels(g);
        let lookups = lookup_table(grid_index(g), g);
        let once = processed(g, false);
        fill_keeps_opaque_content(g, borders, lookups);
        borders_depend_on_opaque_content(once, g);
        fill_twice_is_fill_once(g, borders, lookups);
    }
}

/// The repair is a function of the grid and the mode: two grids with the
/// same dimensions and the same bytes have the same border list, the same
/// index, the same outcome and, byte for byte, the same repaired grid.
pub proof fn repair_is_deterministic(first: GridView, second: GridView, visualize: bool)
    requires
        first.width == second.width,
        first.height == second.height,
        first.data == second.data,
    ensures
        border_pixels(first) == border_pixels(second),
        grid_index(first) == grid_index(second),
        outcome(first) == outcome(second),
        processed(first, visualize) == processed(second, visualize),
{
}

/// Making the fill visible changes alpha and nothing else: each pixel has
/// the same colour after a repair in either mode. A fully transparent pixel
/// of a grid that has border pixels ends with alpha 0 in the one mode and
/// opaque in the other; any other pixel is as it was in both.
pub proof fn visualize_changes_alpha_only(g: GridView, i: int)
    requires
        g.wf(),
        0 <= i < g.pixel_count(),
    ensures
        ({
            let shown = processed(g, true).pixel_at(i);
            let plain = processed(g, false).pixel_at(i);
            &&& shown.r == plain.r
            &&& shown.g == plain.g
            &&& shown.b == plain.b
            &&& if g.pixel_at(i).a == 0 && border_pixels(g).len() > 0 {
                shown.a == OPAQUE && plain.a == 0
            } else {
                shown == g.pixel_at(i) && plain == g.pixel_at(i)
            }
        }),
{
    let borders = border_pixels(g);
    if borders.len() > 0 {
        let index = grid_index(g);
        let lookups = lookup_table(index, g);
        every_border_pixel_is_indexed(g);
        lemma_table_never_fails(g, index, borders, 0);
        lemma_filled_pixel(g, borders, lookups, true, i);
        lemma_filled_pixel(g, borders, lookups, false, i);
    }
}

} // verus!
