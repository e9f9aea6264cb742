//! The fill: every fully transparent pixel takes the colour of the nearest
//! border pixel.

use crate::border::BorderPixel;
use crate::grid::{lemma_index_has_pixel, GridView, PixelGrid, Rgba, OPAQUE};
use crate::index::{lemma_nearest_entry, nearest_item, refers_to, IndexEntry, SpatialIndex};
use crate::rows::{
    for_each_row, join, joined, lemma_joined_all, lemma_joined_item, lemma_joined_len, row_views,
};
use vstd::prelude::*;

verus! {

/// The alpha that the fill gives a pixel it has coloured: opaque when the
/// filled region is to be made visible, otherwise still fully transparent.
pub open spec fn filled_alpha(visualize: bool) -> u8 {
    if visualize {
        OPAQUE
    } else {
        0
    }
}

/// The pixel that results from a lookup that returned `item`: the colour of
/// that border pixel where `item` is a place in the border list, and the
/// pixel as it was where it is not.
pub open spec fn recolored(
    borders: Seq<BorderPixel>,
    item: usize,
    pixel: Rgba,
    visualize: bool,
) -> Rgba {
    if item < borders.len() {
        let color = borders[item as int].color;
        Rgba { r: color.0, g: color.1, b: color.2, a: filled_alpha(visualize) }
    } else {
        pixel
    }
}

/// Pixel `i` is fully transparent and `lookups` has no usable result for it:
/// none at all, or one that is no place in the border list.
pub open spec fn lookup_fails(
    g: GridView,
    borders: Seq<BorderPixel>,
    lookups: Seq<usize>,
    i: int,
) -> bool {
    g.pixel_at(i).a == 0 && !(i < lookups.len() && lookups[i] < borders.len())
}

/// Pixel `i` after the fill: recoloured from its lookup result if it is
/// fully transparent and has one, and as it was otherwise.
pub open spec fn filled_pixel_at(
    g: GridView,
    borders: Seq<BorderPixel>,
    lookups: Seq<usize>,
    visualize: bool,
    i: int,
) -> Rgba {
    let pixel = g.pixel_at(i);
    if pixel.a == 0 && i < lookups.len() {
        recolored(borders, lookups[i], pixel, visualize)
    } else {
        pixel
    }
}

/// Channel `c` of a pixel: red, green, blue, alpha.
pub open spec fn channel(pixel: Rgba, c: int) -> u8 {
    if c == 0 {
        pixel.r
    } else if c == 1 {
        pixel.g
    } else if c == 2 {
        pixel.b
    } else {
        pixel.a
    }
}

/// The grid after the fill, with `lookups[i]` as the lookup result for the
/// pixel with row-major position `i`.
pub open spec fn filled(
    g: GridView,
    borders: Seq<BorderPixel>,
    lookups: Seq<usize>,
    visualize: bool,
) -> GridView {
    GridView {
        width: g.width,
        height: g.height,
        data: Seq::new(
            g.data.len(),
            |k: int| channel(filled_pixel_at(g, borders, lookups, visualize, k / 4), k % 4),
        ),
    }
}

/// Number of pixels among the first `n` whose lookup fails.
pub open spec fn failed_lookups(
    g: GridView,
    borders: Seq<BorderPixel>,
    lookups: Seq<usize>,
    n: int,
) -> nat
    decreases n,
{
    if n <= 0 {
        0
    } else if lookup_fails(g, borders, lookups, n - 1) {
        failed_lookups(g, borders, lookups, n - 1) + 1
    } else {
        failed_lookups(g, borders, lookups, n - 1)
    }
}

/// The filled grid read pixel by pixel.
pub proof fn lemma_filled_pixel(
    g: GridView,
    borders: Seq<BorderPixel>,
    lookups: Seq<usize>,
    visualize: bool,
    i: int,
)
    requires
        g.wf(),
        0 <= i < g.pixel_count(),
    ensures
        filled(g, borders, lookups, visualize).pixel_at(i) == filled_pixel_at(
            g,
            borders,
            lookups,
            visualize,
            i,
        ),
{
}

/// Recolours one fully transparent pixel from the result of its lookup and
/// says whether it did. A result that is no place in the border list leaves
/// the pixel as it was.
pub fn fill_transparent_pixel(
    border_pixels: &Vec<BorderPixel>,
    nearest_item: usize,
    pixel: &mut Rgba,
    debug_mode: bool,
) -> (painted: bool)
    ensures
        painted == (nearest_item < border_pixels@.len()),
        *final(pixel) == recolored(border_pixels@, nearest_item, *old(pixel), debug_mode),
{
    if nearest_item < border_pixels.len() {
        let color: (u8, u8, u8) = border_pixels[nearest_item].color;
        let alpha: u8 = if debug_mode {
            OPAQUE
        } else {
            0
        };
        *pixel = Rgba { r: color.0, g: color.1, b: color.2, a: alpha };
        true
    } else {
        false
    }
}

/// Fills the grid from lookup results that the caller obtained: `lookups[i]`
/// is the place in the border list found for the pixel with row-major
/// position `i`. Every fully transparent pixel with a usable result takes
/// that border pixel's colour; its alpha stays 0, or becomes opaque in
/// `debug_mode`. All other pixels keep every byte. Returns the number of
/// fully transparent pixels left as they were for want of a usable result.
pub fn fill_from_lookups(
    border_pixels: &Vec<BorderPixel>,
    lookups: &Vec<usize>,
    image: &mut PixelGrid,
    debug_mode: bool,
) -> (unfilled: usize)
    requires
        old(image).wf(),
    ensures
        final(image).wf(),
        final(image)@ == filled(old(image)@, border_pixels@, lookups@, debug_mode),
        unfilled == failed_lookups(
            old(image)@,
            border_pixels@,
            lookups@,
            old(image)@.pixel_count() as int,
        ),
{
    let count: usize = image.pixel_count();
    let ghost before = image@;
    let mut unfilled: usize = 0;
    let mut i: usize = 0;
    while i < count
        invariant
            before.wf(),
            image.wf(),
            count == before.pixel_count(),
            i <= count,
            image@.width == before.width,
            image@.height == before.height,
            image@.data.len() == before.data.len(),
            forall|k: int|
                0 <= k < 4 * i ==> #[trigger] image@.data[k] == channel(
                    filled_pixel_at(before, border_pixels@, lookups@, debug_mode, k / 4),
                    k % 4,
                ),
            forall|k: int| 4 * i <= k < before.data.len() ==> image@.data[k] == before.data[k],
            unfilled == failed_lookups(before, border_pixels@, lookups@, i as int),
            unfilled <= i,
        decreases count - i,
    {
        let mut pixel: Rgba = image.pixel_at(i);
        if pixel.a == 0 {
            if i < lookups.len() && fill_transparent_pixel(
                border_pixels,
                lookups[i],
                &mut pixel,
                debug_mode,
            ) {
                image.set_pixel_at(i, pixel);
            } else {
                unfilled = unfilled + 1;
            }
        }
        i = i + 1;
    }
    assert(image@.data =~= filled(before, border_pixels@, lookups@, debug_mode).data);
    unfilled
}

/// The lookup result for the pixel `(x, y)`: for a fully transparent pixel
/// the border-list place of the nearest indexed point, for any other pixel 0,
/// which is never read.
pub open spec fn lookup_at(index: Seq<IndexEntry>, g: GridView, x: int, y: int) -> usize {
    if g.alpha(x, y) == 0 {
        nearest_item(index, x, y)
    } else {
        0
    }
}

/// The lookup results for row `y`, from left to right.
pub open spec fn row_lookups(index: Seq<IndexEntry>, g: GridView, y: int) -> Seq<usize> {
    Seq::new(g.width, |x: int| lookup_at(index, g, x, y))
}

/// The lookup results for each row of the grid.
pub open spec fn lookup_rows(index: Seq<IndexEntry>, g: GridView) -> Seq<Seq<usize>> {
    Seq::new(g.height, |y: int| row_lookups(index, g, y))
}

/// The lookup results for all pixels in row-major order.
pub open spec fn lookup_table(index: Seq<IndexEntry>, g: GridView) -> Seq<usize> {
    joined(lookup_rows(index, g), g.height as int)
}

/// The pixel `(x, y)` after a fill with the nearest indexed border pixel.
pub open spec fn nearest_fill(
    g: GridView,
    index: Seq<IndexEntry>,
    borders: Seq<BorderPixel>,
    visualize: bool,
    x: int,
    y: int,
) -> Rgba {
    if g.alpha(x, y) == 0 {
        recolored(borders, nearest_item(index, x, y), g.pixel(x, y), visualize)
    } else {
        g.pixel(x, y)
    }
}

/// The lookup table has one result for each pixel, and the result for the
/// pixel `(x, y)` stands at its row-major position.
pub proof fn lemma_lookup_table(index: Seq<IndexEntry>, g: GridView, x: int, y: int)
    requires
        g.contains(x, y),
    ensures
        lookup_table(index, g).len() == g.pixel_count(),
        lookup_table(index, g)[g.index_of(x, y)] == lookup_at(index, g, x, y),
{
    let h = g.height as int;
    let w = g.width as int;
    lemma_joined_item(lookup_rows(index, g), h, w, x, y);
    assert(h * w == w * h) by (nonlinear_arith);
}

/// A grid filled from the lookup table holds, at each of its pixels, the
/// colour of the nearest indexed border pixel if the pixel was fully
/// transparent, and the pixel as it was otherwise.
pub proof fn lemma_filled_from_table(
    g: GridView,
    index: Seq<IndexEntry>,
    borders: Seq<BorderPixel>,
    visualize: bool,
    x: int,
    y: int,
)
    requires
        g.wf(),
        g.contains(x, y),
    ensures
        filled(g, borders, lookup_table(index, g), visualize).pixel(x, y) == nearest_fill(
            g,
            index,
            borders,
            visualize,
            x,
            y,
        ),
{
    lemma_lookup_table(index, g, x, y);
    g.lemma_index_in_range(x, y);
    lemma_filled_pixel(g, borders, lookup_table(index, g), visualize, g.index_of(x, y));
}

/// With an index whose entries all refer to places in the border list, no
/// lookup from the table fails.
pub proof fn lemma_table_never_fails(
    g: GridView,
    index: Seq<IndexEntry>,
    borders: Seq<BorderPixel>,
    n: int,
)
    requires
        index.len() > 0,
        refers_to(index, borders),
        0 <= n <= g.pixel_count(),
    ensures
        lookup_table(index, g).len() == g.pixel_count(),
        forall|i: int|
            0 <= i < g.pixel_count() ==> (#[trigger] lookup_table(index, g)[i]) < borders.len(),
        failed_lookups(g, borders, lookup_table(index, g), n) == 0,
    decreases n,
{
    let rows = lookup_rows(index, g);
    let h = g.height as int;
    let w = g.width as int;
    let valid = |item: usize| item < borders.len();
    assert forall|y: int, x: int| 0 <= y < h && 0 <= x < rows[y].len() implies valid(
        #[trigger] rows[y][x],
    ) by {
        lemma_nearest_entry(index, x, y);
    }
    lemma_joined_all(rows, h, valid);
    lemma_joined_len(rows, h, w);
    assert(h * w == w * h) by (nonlinear_arith);
    assert forall|i: int| 0 <= i < g.pixel_count() implies (#[trigger] lookup_table(index, g)[i])
        < borders.len() by {
        assert(valid(lookup_table(index, g)[i]));
    }
    if n > 0 {
        lemma_table_never_fails(g, index, borders, n - 1);
    }
}

/// The lookup result for the pixel `(x, y)` in a table of results in
/// row-major order.
pub open spec fn lookup_of(g: GridView, lookups: Seq<usize>, x: int, y: int) -> usize {
    lookups[g.index_of(x, y)]
}

/// The table holds one result for each pixel, and for each fully transparent
/// pixel a result that `nearest` gave for its column and row.
pub open spec fn answered_by<F: Fn(u32, u32) -> usize>(
    nearest: F,
    g: GridView,
    lookups: Seq<usize>,
) -> bool {
    &&& lookups.len() == g.pixel_count()
    &&& forall|x: u32, y: u32|
        g.contains(x as int, y as int) && g.alpha(x as int, y as int) == 0 ==> call_ensures(
            nearest,
            (x, y),
            #[trigger] lookup_of(g, lookups, x as int, y as int),
        )
}

/// The fill reads the lookup results of fully transparent pixels only: two
/// tables that agree in these give the same filled grid and the same number
/// of failed lookups.
pub proof fn lemma_filled_agrees(
    g: GridView,
    borders: Seq<BorderPixel>,
    first: Seq<usize>,
    second: Seq<usize>,
    visualize: bool,
    n: int,
)
    requires
        g.wf(),
        first.len() == g.pixel_count(),
        second.len() == g.pixel_count(),
        forall|x: int, y: int|
            g.contains(x, y) && g.alpha(x, y) == 0 ==> #[trigger] lookup_of(g, first, x, y)
                == lookup_of(g, second, x, y),
        0 <= n <= g.pixel_count(),
    ensures
        filled(g, borders, first, visualize) == filled(g, borders, second, visualize),
        failed_lookups(g, borders, first, n) == failed_lookups(g, borders, second, n),
    decreases n,
{
    let w = g.width as int;
    assert forall|i: int| 0 <= i < g.pixel_count() && g.pixel_at(i).a == 0 implies first[i]
        == second[i] by {
        lemma_index_has_pixel(g, i);
        assert(lookup_of(g, first, i % w, i / w) == lookup_of(g, second, i % w, i / w));
    }
    assert(filled(g, borders, first, visualize).data =~= filled(
        g,
        borders,
        second,
        visualize,
    ).data);
    if n > 0 {
        lemma_filled_agrees(g, borders, first, second, visualize, n - 1);
    }
}

/// Asks `nearest` for each fully transparent pixel of row `y`, from left to
/// right; the result for any other pixel is 0.
pub fn lookup_row<F: Fn(u32, u32) -> usize>(nearest: &F, grid: &PixelGrid, y: u32) -> (row: Vec<
    usize,
>)
    requires
        grid.wf(),
        y < grid@.height,
        forall|x: u32| x < grid@.width ==> call_requires(*nearest, (x, y)),
    ensures
        row@.len() == grid@.width,
        forall|x: u32|
            x < grid@.width ==> if grid@.alpha(x as int, y as int) == 0 {
                call_ensures(*nearest, (x, y), #[trigger] row@[x as int])
            } else {
                row@[x as int] == 0
            },
{
    let width: u32 = grid.width();
    let mut row: Vec<usize> = Vec::new();
    let mut x: u32 = 0;
    while x < width
        invariant
            grid.wf(),
            y < grid@.height,
            width == grid@.width,
            x <= width,
            row@.len() == x,
            forall|c: u32| c < grid@.width ==> call_requires(*nearest, (c, y)),
            forall|c: u32|
                c < x ==> if grid@.alpha(c as int, y as int) == 0 {
                    call_ensures(*nearest, (c, y), #[trigger] row@[c as int])
                } else {
                    row@[c as int] == 0
                },
        decreases width - x,
    {
        let item: usize = if grid.get_pixel(x, y).a == 0 {
            nearest(x, y)
        } else {
            0
        };
        row.push(item);
        x = x + 1;
    }
    row
}

/// Fills every fully transparent pixel with the colour of the border pixel
/// that `nearest` names for its column and row. The alpha of a filled pixel
/// stays 0, or becomes opaque in `debug_mode`; pixels that are not fully
/// transparent keep every byte, and so does a fully transparent pixel for
/// which `nearest` names no place in `border_pixels`. The rows are looked up
/// in parallel. Returns the number of fully transparent pixels left as they
/// were.
pub fn fill_transparent_pixels_with<F: Fn(u32, u32) -> usize + Sync>(
    nearest: F,
    border_pixels: &Vec<BorderPixel>,
    image: &mut PixelGrid,
    debug_mode: bool,
) -> (unfilled: usize)
    requires
        old(image).wf(),
        forall|x: u32, y: u32|
            old(image)@.contains(x as int, y as int) ==> #[trigger] call_requires(nearest, (x, y)),
    ensures
        final(image).wf(),
        exists|lookups: Seq<usize>|
            {
                &&& answered_by(nearest, old(image)@, lookups)
                &&& final(image)@ == filled(old(image)@, border_pixels@, lookups, debug_mode)
                &&& unfilled == failed_lookups(
                    old(image)@,
                    border_pixels@,
                    lookups,
                    old(image)@.pixel_count() as int,
                )
            },
{
    let grid: &PixelGrid = image;
    let asked: &F = &nearest;
    let lookup = |y: u32| -> (row: Vec<usize>)
        requires
            y < grid@.height,
            forall|x: u32| x < grid@.width ==> call_requires(*asked, (x, y)),
        ensures
            row@.len() == grid@.width,
            forall|x: u32|
                x < grid@.width ==> if grid@.alpha(x as int, y as int) == 0 {
                    call_ensures(*asked, (x, y), #[trigger] row@[x as int])
                } else {
                    row@[x as int] == 0
                },
        { lookup_row(asked, grid, y) };
    let rows: Vec<Vec<usize>> = for_each_row(grid.height(), lookup);
    let lookups: Vec<usize> = join(&rows);
    proof {
        let g = image@;
        let views = row_views(rows@);
        lemma_joined_len(views, g.height as int, g.width as int);
        assert(g.height * g.width == g.width * g.height) by (nonlinear_arith);
        assert forall|x: u32, y: u32|
            g.contains(x as int, y as int) && g.alpha(x as int, y as int) == 0 implies call_ensures(
            nearest,
            (x, y),
            #[trigger] lookup_of(g, lookups@, x as int, y as int),
        ) by {
            lemma_joined_item(views, g.height as int, g.width as int, x as int, y as int);
            assert(call_ensures(nearest, (x, y), rows@[y as int]@[x as int]));
        }
        assert(answered_by(nearest, g, lookups@));
    }
    fill_from_lookups(border_pixels, &lookups, image, debug_mode)
}

/// Fills every fully transparent pixel with the colour of the border pixel
/// whose indexed point is nearest to it. The alpha of a filled pixel stays 0,
/// or becomes opaque in `debug_mode`; pixels that are not fully transparent
/// keep every byte. The rows are looked up in parallel; the result does not
/// depend on it. Returns the number of fully transparent pixels left as they
/// were because the index referred to no place in `border_pixels`.
pub fn fill_transparent_pixels(
    spatial_index: &SpatialIndex,
    border_pixels: &Vec<BorderPixel>,
    image: &mut PixelGrid,
    debug_mode: bool,
) -> (unfilled: usize)
    requires
        old(image).wf(),
        spatial_index.wf(),
        spatial_index@.len() > 0,
    ensures
        final(image).wf(),
        final(image)@ == filled(
            old(image)@,
            border_pixels@,
            lookup_table(spatial_index@, old(image)@),
            debug_mode,
        ),
        forall|x: int, y: int|
            old(image)@.contains(x, y) ==> #[trigger] final(image)@.pixel(x, y) == nearest_fill(
                old(image)@,
                spatial_index@,
                border_pixels@,
                debug_mode,
                x,
                y,
            ),
        unfilled == failed_lookups(
            old(image)@,
            border_pixels@,
            lookup_table(spatial_index@, old(image)@),
            old(image)@.pixel_count() as int,
        ),
        refers_to(spatial_index@, border_pixels@) ==> unfilled == 0,
{
    let ghost g = image@;
    let nearest = |x: u32, y: u32| -> (item: usize)
        ensures
            item == nearest_item(spatial_index@, x as int, y as int),
        { spatial_index.nearest_one(x, y) };
    let unfilled: usize = fill_transparent_pixels_with(nearest, border_pixels, image, debug_mode);
    proof {
        let table = lookup_table(spatial_index@, g);
        let lookups = choose|lookups: Seq<usize>|
            {
                &&& answered_by(nearest, g, lookups)
                &&& image@ == filled(g, border_pixels@, lookups, debug_mode)
                &&& unfilled == failed_lookups(
                    g,
                    border_pixels@,
                    lookups,
                    g.pixel_count() as int,
                )
            };
        assert forall|x: int, y: int| g.contains(x, y) && g.alpha(x, y) == 0 implies #[trigger] lookup_of(
            g,
            lookups,
            x,
            y,
        ) == lookup_of(g, table, x, y) by {
            lemma_lookup_table(spatial_index@, g, x, y);
            assert(call_ensures(nearest, (x as u32, y as u32), lookup_of(g, lookups, x, y)));
        }
        if g.pixel_count() > 0 {
            lemma_index_has_pixel(g, 0);
            lemma_lookup_table(spatial_index@, g, 0, 0);
        } else {
            lemma_joined_len(lookup_rows(spatial_index@, g), g.height as int, g.width as int);
            assert(g.height * g.width == g.width * g.height) by (nonlinear_arith);
        }
        lemma_filled_agrees(
            g,
            border_pixels@,
            lookups,
            table,
            debug_mode,
            g.pixel_count() as int,
        );
        assert forall|x: int, y: int| g.contains(x, y) implies #[trigger] filled(
            g,
            border_pixels@,
            table,
            debug_mode,
        ).pixel(x, y) == nearest_fill(g, spatial_index@, border_pixels@, debug_mode, x, y) by {
            lemma_filled_from_table(g, spatial_index@, border_pixels@, debug_mode, x, y);
        }
        if refers_to(spatial_index@, border_pixels@) {
            lemma_table_never_fails(g, spatial_index@, border_pixels@, g.pixel_count() as int);
        }
    }
    unfilled
}

} // verus!
