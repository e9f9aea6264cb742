use kiddo::float::kdtree::KdTree;
use kiddo::SquaredEuclidean;
use pixelfix::border::{find_border_pixels, BorderPixel};
use pixelfix::fill::{
    fill_from_lookups, fill_transparent_pixel, fill_transparent_pixels,
    fill_transparent_pixels_with, lookup_row,
};
use pixelfix::grid::{PixelGrid, Rgba};
use pixelfix::index::{build_spatial_index, SpatialIndex, SUBPIXEL};
use pixelfix::process::{process_image, ProcessResult};

/// A grid whose pixel `i` has the colour `(i, 100 + i, 200 + i)` and the
/// alpha `alpha[i]`.
fn numbered_grid(width: u32, height: u32, alpha: &[u8]) -> PixelGrid {
    let mut data = Vec::new();
    for (i, a) in alpha.iter().enumerate() {
        data.push(i as u8);
        data.push(100u8.wrapping_add(i as u8));
        data.push(200u8.wrapping_add(i as u8));
        data.push(*a);
    }
    PixelGrid::from_raw(width, height, data).unwrap()
}

fn numbered(i: u8, a: u8) -> Rgba {
    Rgba { r: i, g: 100u8.wrapping_add(i), b: 200u8.wrapping_add(i), a }
}

fn ring_grid() -> PixelGrid {
    let mut alpha = [0u8; 16];
    for i in [5usize, 6, 9, 10] {
        alpha[i] = 255;
    }
    numbered_grid(4, 4, &alpha)
}

/// For each pixel of the 4x4 ring grid, the number of the pixel whose colour
/// it has after the fill.
const RING_SOURCES: [u8; 16] = [5, 5, 6, 6, 5, 5, 6, 6, 9, 9, 10, 10, 9, 9, 10, 10];

/// A float k-d tree over the indexed points.
fn float_tree(index: &SpatialIndex) -> KdTree<f64, usize, 2, 64, u32> {
    let mut tree: KdTree<f64, usize, 2, 64, u32> = KdTree::new();
    for entry in index.entries() {
        let point = [
            entry.position.0 as f64 / SUBPIXEL as f64,
            entry.position.1 as f64 / SUBPIXEL as f64,
        ];
        tree.add(&point, entry.item);
    }
    tree
}

#[test]
fn pixel_takes_the_colour_of_the_border_pixel_found() {
    let borders = vec![
        BorderPixel { position: (0, 0), color: (1, 2, 3) },
        BorderPixel { position: (1, 0), color: (4, 5, 6) },
    ];
    let mut pixel = Rgba { r: 9, g: 9, b: 9, a: 0 };
    assert!(fill_transparent_pixel(&borders, 1, &mut pixel, false));
    assert_eq!(pixel, Rgba { r: 4, g: 5, b: 6, a: 0 });
    assert!(fill_transparent_pixel(&borders, 0, &mut pixel, true));
    assert_eq!(pixel, Rgba { r: 1, g: 2, b: 3, a: 255 });
}

#[test]
fn pixel_is_left_alone_where_the_lookup_is_no_place_in_the_list() {
    let borders = vec![BorderPixel { position: (0, 0), color: (1, 2, 3) }];
    let mut pixel = Rgba { r: 9, g: 8, b: 7, a: 0 };
    assert!(!fill_transparent_pixel(&borders, 1, &mut pixel, false));
    assert!(!fill_transparent_pixel(&borders, usize::MAX, &mut pixel, true));
    assert!(!fill_transparent_pixel(&Vec::new(), 0, &mut pixel, true));
    assert_eq!(pixel, Rgba { r: 9, g: 8, b: 7, a: 0 });
}

#[test]
fn ring_is_filled_from_the_block() {
    let mut grid = ring_grid();
    let borders = find_border_pixels(&grid);
    assert_eq!(borders.len(), 4);
    let index = build_spatial_index(&borders);
    let unfilled = fill_transparent_pixels(&index, &borders, &mut grid, false);
    assert_eq!(unfilled, 0);
    for i in 0..16u8 {
        let alpha = if [5, 6, 9, 10].contains(&i) { 255 } else { 0 };
        assert_eq!(grid.pixel_at(i as usize), numbered(RING_SOURCES[i as usize], alpha));
    }
}

#[test]
fn ring_is_filled_and_shown_in_debug_mode() {
    let mut grid = ring_grid();
    assert_eq!(process_image(&mut grid, true), ProcessResult::Success);
    for i in 0..16u8 {
        assert_eq!(grid.pixel_at(i as usize), numbered(RING_SOURCES[i as usize], 255));
    }
}

#[test]
fn repair_of_the_ring() {
    let mut grid = ring_grid();
    assert_eq!(process_image(&mut grid, false), ProcessResult::Success);
    let mut expected = ring_grid();
    for i in 0..16usize {
        if expected.pixel_at(i).a == 0 {
            expected.set_pixel_at(i, numbered(RING_SOURCES[i], 0));
        }
    }
    assert_eq!(grid.as_raw(), expected.as_raw());
}

#[test]
fn single_opaque_pixel_is_skipped() {
    let mut grid = numbered_grid(1, 1, &[255]);
    assert_eq!(process_image(&mut grid, false), ProcessResult::Skipped);
    assert_eq!(grid.as_raw(), &vec![0, 100, 200, 255]);
}

#[test]
fn transparent_image_is_skipped() {
    let mut grid = numbered_grid(3, 2, &[0; 6]);
    let before = grid.as_raw().clone();
    assert_eq!(process_image(&mut grid, false), ProcessResult::Skipped);
    assert_eq!(grid.as_raw(), &before);
    assert_eq!(process_image(&mut grid, true), ProcessResult::Skipped);
    assert_eq!(grid.as_raw(), &before);
}

#[test]
fn opaque_image_is_skipped() {
    let mut grid = numbered_grid(3, 2, &[255, 1, 2, 3, 254, 255]);
    let before = grid.as_raw().clone();
    assert_eq!(process_image(&mut grid, true), ProcessResult::Skipped);
    assert_eq!(grid.as_raw(), &before);
}

#[test]
fn empty_image_is_skipped() {
    let mut grid = PixelGrid::from_raw(0, 0, Vec::new()).unwrap();
    assert_eq!(process_image(&mut grid, false), ProcessResult::Skipped);
    assert!(grid.as_raw().is_empty());
}

#[test]
fn opaque_pixels_keep_every_byte() {
    // # . . #'   with a faint pixel at the right end
    let mut grid = numbered_grid(4, 1, &[255, 0, 0, 1]);
    assert_eq!(process_image(&mut grid, false), ProcessResult::Success);
    assert_eq!(grid.pixel_at(0), numbered(0, 255));
    assert_eq!(grid.pixel_at(1), numbered(0, 0));
    assert_eq!(grid.pixel_at(2), numbered(3, 0));
    assert_eq!(grid.pixel_at(3), numbered(3, 1));
}

#[test]
fn pixel_between_two_border_pixels_takes_the_same_one_every_time() {
    // # . #    the pixel in the middle is one pixel from either; the border
    //          pixel on the left is indexed without jitter and is nearer.
    for _ in 0..5 {
        let mut grid = numbered_grid(3, 1, &[255, 0, 255]);
        assert_eq!(process_image(&mut grid, false), ProcessResult::Success);
        assert_eq!(grid.pixel_at(1), numbered(0, 0));
    }
    // .        the same from top to bottom
    for _ in 0..5 {
        let mut grid = numbered_grid(1, 3, &[255, 0, 255]);
        assert_eq!(process_image(&mut grid, false), ProcessResult::Success);
        assert_eq!(grid.pixel_at(1), numbered(0, 0));
    }
}

#[test]
fn repair_gives_the_same_bytes_every_time() {
    let mut alpha = Vec::new();
    for i in 0..(16 * 9) {
        alpha.push(if (i * 7 + i / 5) % 3 == 0 { 0 } else { 200 });
    }
    let mut first = numbered_grid(16, 9, &alpha);
    let mut second = numbered_grid(16, 9, &alpha);
    assert_eq!(process_image(&mut first, false), ProcessResult::Success);
    assert_eq!(process_image(&mut second, false), ProcessResult::Success);
    assert_eq!(first.as_raw(), second.as_raw());
}

#[test]
fn second_repair_changes_nothing() {
    let mut alpha = Vec::new();
    for i in 0..(12 * 7) {
        alpha.push(if (i * 5 + i / 4) % 4 == 0 { 0 } else { 255 });
    }
    let mut grid = numbered_grid(12, 7, &alpha);
    let before = find_border_pixels(&grid);
    assert_eq!(process_image(&mut grid, false), ProcessResult::Success);
    let once = grid.as_raw().clone();
    assert_eq!(find_border_pixels(&grid), before);
    assert_eq!(process_image(&mut grid, false), ProcessResult::Success);
    assert_eq!(grid.as_raw(), &once);
}

#[test]
fn debug_mode_changes_alpha_only() {
    let mut alpha = Vec::new();
    for i in 0..(10 * 6) {
        alpha.push(if (i * 3 + i / 7) % 5 < 2 { 0 } else { 90 });
    }
    let mut plain = numbered_grid(10, 6, &alpha);
    let mut shown = numbered_grid(10, 6, &alpha);
    assert_eq!(process_image(&mut plain, false), ProcessResult::Success);
    assert_eq!(process_image(&mut shown, true), ProcessResult::Success);
    for i in 0..60usize {
        let p = plain.pixel_at(i);
        let s = shown.pixel_at(i);
        assert_eq!((p.r, p.g, p.b), (s.r, s.g, s.b));
        if alpha[i] == 0 {
            assert_eq!((p.a, s.a), (0, 255));
        } else {
            assert_eq!((p.a, s.a), (90, 90));
        }
    }
}

#[test]
fn fill_follows_the_lookups_it_is_given() {
    let borders = vec![
        BorderPixel { position: (0, 0), color: (10, 20, 30) },
        BorderPixel { position: (3, 0), color: (40, 50, 60) },
    ];
    let mut grid = numbered_grid(4, 1, &[255, 0, 0, 255]);
    let unfilled = fill_from_lookups(&borders, &vec![1, 1, 0, 0], &mut grid, false);
    assert_eq!(unfilled, 0);
    assert_eq!(grid.pixel_at(0), numbered(0, 255));
    assert_eq!(grid.pixel_at(1), Rgba { r: 40, g: 50, b: 60, a: 0 });
    assert_eq!(grid.pixel_at(2), Rgba { r: 10, g: 20, b: 30, a: 0 });
    assert_eq!(grid.pixel_at(3), numbered(3, 255));
}

#[test]
fn lookups_that_are_no_place_in_the_list_are_counted() {
    let borders = vec![BorderPixel { position: (0, 0), color: (10, 20, 30) }];
    let mut grid = numbered_grid(5, 1, &[0, 0, 255, 0, 0]);
    // The table is one short, its second result is out of range, and the
    // result for the opaque pixel is never read.
    let unfilled = fill_from_lookups(&borders, &vec![0, 1, 7, 0], &mut grid, true);
    assert_eq!(unfilled, 2);
    assert_eq!(grid.pixel_at(0), Rgba { r: 10, g: 20, b: 30, a: 255 });
    assert_eq!(grid.pixel_at(1), numbered(1, 0));
    assert_eq!(grid.pixel_at(2), numbered(2, 255));
    assert_eq!(grid.pixel_at(3), Rgba { r: 10, g: 20, b: 30, a: 255 });
    assert_eq!(grid.pixel_at(4), numbered(4, 0));
}

#[test]
fn fill_without_lookups_changes_nothing() {
    let borders = vec![BorderPixel { position: (0, 0), color: (10, 20, 30) }];
    let mut grid = numbered_grid(2, 2, &[0, 255, 0, 0]);
    let before = grid.as_raw().clone();
    assert_eq!(fill_from_lookups(&borders, &Vec::new(), &mut grid, false), 3);
    assert_eq!(grid.as_raw(), &before);
}

#[test]
fn index_that_refers_to_a_longer_list_leaves_pixels_alone() {
    // The index was built over three border pixels, the fill gets only two.
    let borders = vec![
        BorderPixel { position: (0, 0), color: (1, 1, 1) },
        BorderPixel { position: (1, 0), color: (2, 2, 2) },
        BorderPixel { position: (4, 0), color: (3, 3, 3) },
    ];
    let index = build_spatial_index(&borders);
    let mut grid = numbered_grid(5, 1, &[255, 255, 0, 0, 255]);
    let unfilled = fill_transparent_pixels(&index, &borders[..2].to_vec(), &mut grid, false);
    assert_eq!(unfilled, 1);
    assert_eq!(grid.pixel_at(2), Rgba { r: 2, g: 2, b: 2, a: 0 });
    assert_eq!(grid.pixel_at(3), numbered(3, 0));
}

#[test]
fn float_tree_over_the_index_gives_the_same_fill() {
    let mut alpha = Vec::new();
    for i in 0..(20 * 15) {
        alpha.push(if (i * 11 + i / 6) % 7 < 3 { 0 } else { 255 });
    }
    let mut exact = numbered_grid(20, 15, &alpha);
    let mut by_tree = numbered_grid(20, 15, &alpha);
    let borders = find_border_pixels(&by_tree);
    let index = build_spatial_index(&borders);
    let tree = float_tree(&index);
    let unfilled = fill_transparent_pixels_with(
        |x, y| tree.nearest_one::<SquaredEuclidean>(&[x as f64, y as f64]).item,
        &borders,
        &mut by_tree,
        false,
    );
    assert_eq!(unfilled, 0);
    assert_eq!(process_image(&mut exact, false), ProcessResult::Success);
    assert_eq!(exact.as_raw(), by_tree.as_raw());
}

#[test]
fn fill_asks_for_fully_transparent_pixels_only() {
    let borders = vec![
        BorderPixel { position: (0, 0), color: (10, 20, 30) },
        BorderPixel { position: (1, 0), color: (40, 50, 60) },
    ];
    let mut grid = numbered_grid(3, 2, &[255, 0, 0, 0, 7, 0]);
    let asked = std::sync::Mutex::new(Vec::new());
    let unfilled = fill_transparent_pixels_with(
        |x, y| {
            asked.lock().unwrap().push((x, y));
            (x + y) as usize
        },
        &borders,
        &mut grid,
        true,
    );
    let mut asked = asked.into_inner().unwrap();
    asked.sort();
    assert_eq!(asked, vec![(0, 1), (1, 0), (2, 0), (2, 1)]);
    // (2, 0) and (2, 1) were answered with 2 and 3, which are no places.
    assert_eq!(unfilled, 2);
    assert_eq!(grid.pixel_at(0), numbered(0, 255));
    assert_eq!(grid.pixel_at(1), Rgba { r: 40, g: 50, b: 60, a: 255 });
    assert_eq!(grid.pixel_at(2), numbered(2, 0));
    assert_eq!(grid.pixel_at(3), Rgba { r: 40, g: 50, b: 60, a: 255 });
    assert_eq!(grid.pixel_at(4), numbered(4, 7));
    assert_eq!(grid.pixel_at(5), numbered(5, 0));
}

#[test]
fn rows_are_looked_up_from_left_to_right() {
    let grid = numbered_grid(4, 2, &[0, 255, 0, 0, 255, 0, 255, 255]);
    let nearest = |x: u32, y: u32| (10 * y + x + 1) as usize;
    assert_eq!(lookup_row(&nearest, &grid, 0), vec![1, 0, 3, 4]);
    assert_eq!(lookup_row(&nearest, &grid, 1), vec![0, 12, 0, 0]);
}
