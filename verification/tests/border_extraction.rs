use pixelfix::border::{border_pixels_in_row, find_border_pixels, is_border_pixel, BorderPixel};
use pixelfix::grid::{PixelGrid, Rgba};

/// A grid whose pixel `i` has the colour `(i, 100 + i, 200 + i)` and the
/// alpha `alpha[i]`.
fn grid_with_alpha(width: u32, height: u32, alpha: &[u8]) -> PixelGrid {
    let mut data = Vec::new();
    for (i, a) in alpha.iter().enumerate() {
        data.push(i as u8);
        data.push(100u8.wrapping_add(i as u8));
        data.push(200u8.wrapping_add(i as u8));
        data.push(*a);
    }
    PixelGrid::from_raw(width, height, data).unwrap()
}

fn record(i: u8, x: u32, y: u32) -> BorderPixel {
    BorderPixel { position: (x, y), color: (i, 100u8.wrapping_add(i), 200u8.wrapping_add(i)) }
}

#[test]
fn from_raw_wants_four_bytes_per_pixel() {
    assert!(PixelGrid::from_raw(2, 2, vec![0; 16]).is_some());
    assert!(PixelGrid::from_raw(2, 2, vec![0; 15]).is_none());
    assert!(PixelGrid::from_raw(2, 2, vec![0; 17]).is_none());
    assert!(PixelGrid::from_raw(0, 5, Vec::new()).is_some());
    assert!(PixelGrid::from_raw(0, 5, vec![0; 4]).is_none());
    assert!(PixelGrid::from_raw(65536, 65536, vec![0; 4]).is_none());
}

#[test]
fn pixels_are_stored_row_by_row() {
    let mut grid = grid_with_alpha(3, 2, &[1, 2, 3, 4, 5, 6]);
    assert_eq!(grid.width(), 3);
    assert_eq!(grid.height(), 2);
    assert_eq!(grid.pixel_count(), 6);
    assert_eq!(grid.index_of(2, 1), 5);
    assert_eq!(grid.get_pixel(1, 1), Rgba { r: 4, g: 104, b: 204, a: 5 });
    assert_eq!(grid.pixel_at(4), Rgba { r: 4, g: 104, b: 204, a: 5 });
    grid.put_pixel(2, 0, Rgba { r: 9, g: 8, b: 7, a: 6 });
    assert_eq!(grid.get_pixel(2, 0), Rgba { r: 9, g: 8, b: 7, a: 6 });
    assert_eq!(&grid.as_raw()[8..12], &[9, 8, 7, 6]);
    assert_eq!(grid.get_pixel(1, 0), Rgba { r: 1, g: 101, b: 201, a: 2 });
    assert_eq!(grid.into_raw().len(), 24);
}

#[test]
fn single_opaque_pixel_has_no_border() {
    let grid = grid_with_alpha(1, 1, &[255]);
    assert!(!is_border_pixel(&grid, 0, 0));
    assert!(find_border_pixels(&grid).is_empty());
}

#[test]
fn transparent_image_has_no_border() {
    let grid = grid_with_alpha(3, 3, &[0; 9]);
    assert!(find_border_pixels(&grid).is_empty());
}

#[test]
fn opaque_image_has_no_border() {
    let grid = grid_with_alpha(3, 2, &[255, 1, 255, 7, 255, 128]);
    assert!(find_border_pixels(&grid).is_empty());
}

#[test]
fn empty_image_has_no_border() {
    let grid = PixelGrid::from_raw(0, 0, Vec::new()).unwrap();
    assert!(find_border_pixels(&grid).is_empty());
    let grid = PixelGrid::from_raw(4, 0, Vec::new()).unwrap();
    assert!(find_border_pixels(&grid).is_empty());
}

#[test]
fn opaque_block_in_transparent_ring() {
    let mut alpha = [0u8; 16];
    for i in [5usize, 6, 9, 10] {
        alpha[i] = 255;
    }
    let grid = grid_with_alpha(4, 4, &alpha);
    let expected = vec![record(5, 1, 1), record(6, 2, 1), record(9, 1, 2), record(10, 2, 2)];
    assert_eq!(find_border_pixels(&grid), expected);
}

#[test]
fn border_list_is_in_row_major_order() {
    // . # #
    // # # #
    // # # .
    let grid = grid_with_alpha(3, 3, &[0, 9, 9, 9, 9, 9, 9, 9, 0]);
    let expected = vec![
        record(1, 1, 0),
        record(3, 0, 1),
        record(4, 1, 1),
        record(5, 2, 1),
        record(7, 1, 2),
    ];
    assert_eq!(find_border_pixels(&grid), expected);
    assert_eq!(border_pixels_in_row(&grid, 1), expected[1..4].to_vec());
    assert_eq!(border_pixels_in_row(&grid, 0), expected[0..1].to_vec());
}

#[test]
fn faintly_visible_pixels_count_as_opaque() {
    let grid = grid_with_alpha(2, 1, &[1, 0]);
    assert_eq!(find_border_pixels(&grid), vec![record(0, 0, 0)]);
}

#[test]
fn diagonal_neighbours_count() {
    // # .      the opaque pixel at the bottom right touches the transparent
    // . #      ones above and to the left, the one at the top left likewise
    let grid = grid_with_alpha(2, 2, &[255, 0, 0, 255]);
    assert_eq!(find_border_pixels(&grid), vec![record(0, 0, 0), record(3, 1, 1)]);
    // # #
    // # .      all three opaque pixels touch the transparent corner
    let grid = grid_with_alpha(2, 2, &[255, 255, 255, 0]);
    assert!(is_border_pixel(&grid, 0, 0));
    assert!(is_border_pixel(&grid, 1, 0));
    assert!(is_border_pixel(&grid, 0, 1));
}

#[test]
fn cells_outside_the_grid_never_count() {
    // Corners and edges of a fully opaque grid have neighbours outside the
    // grid only where others have pixels: none of them is a border pixel.
    let grid = grid_with_alpha(3, 3, &[255; 9]);
    for y in 0..3 {
        for x in 0..3 {
            assert!(!is_border_pixel(&grid, x, y));
        }
    }
    // # # #
    // # # #
    // # # .    only the three neighbours of the transparent corner see it
    let grid = grid_with_alpha(3, 3, &[255, 255, 255, 255, 255, 255, 255, 255, 0]);
    assert!(!is_border_pixel(&grid, 0, 0));
    assert!(!is_border_pixel(&grid, 2, 0));
    assert!(!is_border_pixel(&grid, 0, 2));
    assert!(is_border_pixel(&grid, 1, 1));
    assert!(is_border_pixel(&grid, 2, 1));
    assert!(is_border_pixel(&grid, 1, 2));
    assert!(!is_border_pixel(&grid, 2, 2));
}

#[test]
fn corner_is_judged_by_its_three_neighbours() {
    for hole in [1usize, 2, 3] {
        let mut alpha = [255u8; 4];
        alpha[hole] = 0;
        let grid = grid_with_alpha(2, 2, &alpha);
        assert!(is_border_pixel(&grid, 0, 0));
    }
    // A transparent pixel two columns away is no neighbour of the corner.
    let grid = grid_with_alpha(3, 1, &[255, 255, 0]);
    assert!(!is_border_pixel(&grid, 0, 0));
    assert!(is_border_pixel(&grid, 1, 0));
}

#[test]
fn edge_is_judged_by_its_five_neighbours() {
    // The pixel (1, 0) on the top edge of a 3x2 grid.
    for hole in [0usize, 2, 3, 4, 5] {
        let mut alpha = [255u8; 6];
        alpha[hole] = 0;
        let grid = grid_with_alpha(3, 2, &alpha);
        assert!(is_border_pixel(&grid, 1, 0));
    }
    let grid = grid_with_alpha(3, 2, &[255; 6]);
    assert!(!is_border_pixel(&grid, 1, 0));
}

#[test]
fn neighbours_of_a_cell_outside_the_grid() {
    let grid = grid_with_alpha(2, 1, &[255, 0]);
    assert!(is_border_pixel(&grid, 2, 0));
    assert!(!is_border_pixel(&grid, 3, 0));
    assert!(!is_border_pixel(&grid, u32::MAX, u32::MAX));
}

#[test]
fn wide_grid_is_scanned_completely() {
    let width = 300u32;
    let height = 40u32;
    let mut data = vec![255u8; (4 * width * height) as usize];
    // One transparent pixel in every row, at column 7 * y mod width.
    for y in 0..height {
        let x = (7 * y) % width;
        data[(4 * (y * width + x) + 3) as usize] = 0;
    }
    let grid = PixelGrid::from_raw(width, height, data).unwrap();
    let borders = find_border_pixels(&grid);
    let mut expected = Vec::new();
    for y in 0..height {
        for x in 0..width {
            if grid.get_pixel(x, y).a > 0 && is_border_pixel(&grid, x, y) {
                expected.push(BorderPixel { position: (x, y), color: (255, 255, 255) });
            }
        }
    }
    assert!(expected.len() > 100);
    assert_eq!(borders, expected);
}

#[test]
fn every_border_pixel_of_a_grid_is_indexed() {
    let mut alpha = Vec::new();
    for i in 0..(30 * 20) {
        alpha.push(if (i * 13 + i / 9) % 5 < 2 { 0 } else { 255 });
    }
    let grid = grid_with_alpha(30, 20, &alpha);
    let borders = find_border_pixels(&grid);
    assert!(borders.len() > 50);
    let index = pixelfix::index::build_spatial_index(&borders);
    assert_eq!(index.len(), borders.len());
    for (place, border) in borders.iter().enumerate() {
        let (x, y) = border.position;
        assert!(grid.get_pixel(x, y).a > 0);
        assert!(is_border_pixel(&grid, x, y));
        assert_eq!(index.entries()[place].item, place);
        if place > 0 {
            let (px, py) = borders[place - 1].position;
            assert!((py, px) < (y, x));
        }
    }
}

#[test]
fn rows_are_joined_in_order() {
    let rows = vec![vec![1u8, 2], Vec::new(), vec![3], vec![4, 5, 6]];
    assert_eq!(pixelfix::rows::join(&rows), vec![1, 2, 3, 4, 5, 6]);
    assert_eq!(pixelfix::rows::join(&Vec::<Vec<u8>>::new()), Vec::<u8>::new());
}
