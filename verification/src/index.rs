//! The spatial index over border pixels and its nearest-neighbour query.
//!
//! Index coordinates are whole numbers of `1 / SUBPIXEL` of a pixel, so that
//! the sub-pixel jitter and all distances are exact.

use crate::border::BorderPixel;
use std::collections::HashMap;
use vstd::prelude::*;

verus! {

broadcast use vstd::std_specs::hash::group_hash_axioms;

/// Index coordinate units per pixel: one unit is a hundred-thousandth of a
/// pixel.
pub const SUBPIXEL: u64 = 100_000;

/// The jitter of a coordinate stays below this many units, a thousandth of a
/// pixel.
pub const JITTER_RANGE: u64 = 100;

/// The largest index coordinate: the last column or row, with the largest
/// jitter.
pub const MAX_COORDINATE: u64 = 429_496_729_500_099;

/// One indexed point: a jittered position in index units and the place of
/// its border pixel in the border list.
#[derive(Clone, Copy, Debug, PartialEq, Eq)]
pub struct IndexEntry {
    pub position: (u64, u64),
    pub item: usize,
}

/// The position of a pixel in index units.
pub open spec fn index_position(position: (u32, u32)) -> (u64, u64) {
    ((position.0 * SUBPIXEL) as u64, (position.1 * SUBPIXEL) as u64)
}

/// The position of a border pixel in index units, moved by a jitter that
/// depends on nothing but its place `seed` in the border list: `seed mod 100`
/// units to the right and `7 * seed mod 100` units down.
pub open spec fn jittered_position(position: (u32, u32), seed: nat) -> (u64, u64) {
    (
        (index_position(position).0 + seed % (JITTER_RANGE as nat)) as u64,
        (index_position(position).1 + (seed * 7) % (JITTER_RANGE as nat)) as u64,
    )
}

/// No earlier border pixel lies in the cell of border pixel `i`.
pub open spec fn first_in_cell(borders: Seq<BorderPixel>, i: int) -> bool {
    forall|j: int| 0 <= j < i ==> (#[trigger] borders[j]).position != borders[i].position
}

/// The index entry of border pixel `i`.
pub open spec fn entry_for(borders: Seq<BorderPixel>, i: int) -> IndexEntry {
    IndexEntry { position: jittered_position(borders[i].position, i as nat), item: i as usize }
}

/// The entries for the first `n` border pixels: one for each that is the
/// first in its cell, in the order of the border list.
pub open spec fn index_entries(borders: Seq<BorderPixel>, n: int) -> Seq<IndexEntry>
    decreases n,
{
    if n <= 0 {
        Seq::empty()
    } else if first_in_cell(borders, n - 1) {
        index_entries(borders, n - 1).push(entry_for(borders, n - 1))
    } else {
        index_entries(borders, n - 1)
    }
}

/// Every coordinate of every entry is one that a jittered pixel position can
/// have.
pub open spec fn in_range(entries: Seq<IndexEntry>) -> bool {
    forall|k: int|
        0 <= k < entries.len() ==> (#[trigger] entries[k]).position.0 <= MAX_COORDINATE
            && entries[k].position.1 <= MAX_COORDINATE
}

/// Every entry refers to a place in `borders`, and there are no more entries
/// than border pixels.
pub open spec fn refers_to(entries: Seq<IndexEntry>, borders: Seq<BorderPixel>) -> bool {
    &&& entries.len() <= borders.len()
    &&& forall|k: int| 0 <= k < entries.len() ==> (#[trigger] entries[k]).item < borders.len()
}

/// The entries for the first `n` border pixels are no more than `n`. Each
/// is the entry of a border pixel below `n` that is the first in its cell,
/// every such border pixel has its entry, and the entries stand in the order
/// of the border list.
pub proof fn lemma_index_entries(borders: Seq<BorderPixel>, n: int)
    requires
        0 <= n <= borders.len() <= usize::MAX,
    ensures
        index_entries(borders, n).len() <= n,
        forall|k: int|
            0 <= k < index_entries(borders, n).len() ==> {
                let entry = #[trigger] index_entries(borders, n)[k];
                &&& entry.item < n
                &&& first_in_cell(borders, entry.item as int)
                &&& entry == entry_for(borders, entry.item as int)
            },
        forall|j: int, k: int|
            0 <= j < k < index_entries(borders, n).len() ==> (#[trigger] index_entries(
                borders,
                n,
            )[j]).item < (#[trigger] index_entries(borders, n)[k]).item,
        forall|i: int|
            0 <= i < n && first_in_cell(borders, i) ==> index_entries(borders, n).contains(
                #[trigger] entry_for(borders, i),
            ),
    decreases n,
{
    if n > 0 {
        lemma_index_entries(borders, n - 1);
        let shorter = index_entries(borders, n - 1);
        let entries = index_entries(borders, n);
        assert forall|k: int| 0 <= k < entries.len() implies {
            let entry = #[trigger] entries[k];
            &&& entry.item < n
            &&& first_in_cell(borders, entry.item as int)
            &&& entry == entry_for(borders, entry.item as int)
        } by {
            if k < shorter.len() {
                assert(entries[k] == shorter[k]);
            }
        }
        assert forall|j: int, k: int| 0 <= j < k < entries.len() implies (#[trigger] entries[j]).item
            < (#[trigger] entries[k]).item by {
            assert(entries[j] == shorter[j]);
            if k < shorter.len() {
                assert(entries[k] == shorter[k]);
            }
        }
        assert forall|i: int| 0 <= i < n && first_in_cell(borders, i) implies entries.contains(
            #[trigger] entry_for(borders, i),
        ) by {
            if i < n - 1 {
                let k = choose|k: int| 0 <= k < shorter.len() && shorter[k] == entry_for(borders, i);
                assert(entries[k] == entry_for(borders, i));
            } else {
                assert(entries[shorter.len() as int] == entry_for(borders, i));
            }
        }
    }
}

/// Squared Euclidean distance, in index units, between an indexed position
/// and the pixel `(x, y)`.
pub open spec fn squared_distance(position: (u64, u64), x: int, y: int) -> int {
    let dx = position.0 - x * SUBPIXEL;
    let dy = position.1 - y * SUBPIXEL;
    dx * dx + dy * dy
}

/// Entry `k` is the nearest to the pixel `(x, y)`: no entry is closer, and
/// every entry before it is farther away.
pub open spec fn is_nearest(entries: Seq<IndexEntry>, k: int, x: int, y: int) -> bool {
    &&& 0 <= k < entries.len()
    &&& forall|j: int|
        0 <= j < entries.len() ==> squared_distance(entries[k].position, x, y) <= squared_distance(
            (#[trigger] entries[j]).position,
            x,
            y,
        )
    &&& forall|j: int|
        0 <= j < k ==> squared_distance(entries[k].position, x, y) < squared_distance(
            (#[trigger] entries[j]).position,
            x,
            y,
        )
}

/// The nearest to the pixel `(x, y)` among the first `n` entries.
pub open spec fn nearest_upto(entries: Seq<IndexEntry>, n: int, x: int, y: int) -> int
    decreases n,
{
    if n <= 1 {
        0
    } else {
        let best = nearest_upto(entries, n - 1, x, y);
        if squared_distance(entries[n - 1].position, x, y) < squared_distance(
            entries[best].position,
            x,
            y,
        ) {
            n - 1
        } else {
            best
        }
    }
}

/// The entry nearest to the pixel `(x, y)`.
pub open spec fn nearest_entry(entries: Seq<IndexEntry>, x: int, y: int) -> int {
    nearest_upto(entries, entries.len() as int, x, y)
}

/// The border-list place stored with the entry nearest to the pixel `(x, y)`.
pub open spec fn nearest_item(entries: Seq<IndexEntry>, x: int, y: int) -> usize {
    entries[nearest_entry(entries, x, y)].item
}

/// Among the first `n` entries, `nearest_upto` is as close as any and
/// strictly closer than all before it.
pub proof fn lemma_nearest_upto(entries: Seq<IndexEntry>, n: int, x: int, y: int)
    requires
        1 <= n <= entries.len(),
    ensures
        is_nearest(entries.subrange(0, n), nearest_upto(entries, n, x, y), x, y),
    decreases n,
{
    let prefix = entries.subrange(0, n);
    if n > 1 {
        lemma_nearest_upto(entries, n - 1, x, y);
        let shorter = entries.subrange(0, n - 1);
        let best = nearest_upto(entries, n - 1, x, y);
        let k = nearest_upto(entries, n, x, y);
        assert forall|j: int| 0 <= j < prefix.len() implies squared_distance(
            prefix[k].position,
            x,
            y,
        ) <= squared_distance((#[trigger] prefix[j]).position, x, y) by {
            if j < n - 1 {
                assert(shorter[j] == prefix[j]);
            }
        }
        assert forall|j: int| 0 <= j < k implies squared_distance(prefix[k].position, x, y)
            < squared_distance((#[trigger] prefix[j]).position, x, y) by {
            assert(shorter[j] == prefix[j]);
        }
    }
}

/// The nearest entry of a non-empty index is nearest in the sense of
/// `is_nearest`.
pub proof fn lemma_nearest_entry(entries: Seq<IndexEntry>, x: int, y: int)
    requires
        entries.len() > 0,
    ensures
        is_nearest(entries, nearest_entry(entries, x, y), x, y),
{
    lemma_nearest_upto(entries, entries.len() as int, x, y);
    assert(entries.subrange(0, entries.len() as int) == entries);
}

/// At most one entry is nearest.
pub proof fn lemma_nearest_unique(entries: Seq<IndexEntry>, a: int, b: int, x: int, y: int)
    requires
        is_nearest(entries, a, x, y),
        is_nearest(entries, b, x, y),
    ensures
        a == b,
{
    if a < b {
        assert(squared_distance(entries[b].position, x, y) < squared_distance(
            entries[a].position,
            x,
            y,
        ));
    } else if b < a {
        assert(squared_distance(entries[a].position, x, y) < squared_distance(
            entries[b].position,
            x,
            y,
        ));
    }
}

/// Moves a border pixel's position into index units and adds the jitter of
/// its place `seed` in the border list.
pub fn apply_position_jitter(position: (u32, u32), seed: usize) -> (jittered: (u64, u64))
    ensures
        jittered == jittered_position(position, seed as nat),
        jittered.0 / SUBPIXEL == position.0,
        jittered.1 / SUBPIXEL == position.1,
        jittered.0 % SUBPIXEL == seed % 100,
        jittered.1 % SUBPIXEL == (seed * 7) % 100,
        jittered.0 <= MAX_COORDINATE,
        jittered.1 <= MAX_COORDINATE,
{
    let jitter_x: u64 = (seed as u128 % 100) as u64;
    let jitter_y: u64 = ((seed as u128 * 7) % 100) as u64;
    ((position.0 as u64) * SUBPIXEL + jitter_x, (position.1 as u64) * SUBPIXEL + jitter_y)
}

/// The cell of a position as one number.
pub open spec fn cell_key(position: (u32, u32)) -> u64 {
    (position.0 * 0x1_0000_0000 + position.1) as u64
}

/// The key under which a cell is remembered while the index is built.
fn key_of(position: (u32, u32)) -> (key: u64)
    ensures
        key == cell_key(position),
{
    (position.0 as u64) * 0x1_0000_0000 + (position.1 as u64)
}

/// A set of points to search for the nearest one: for each cell that holds a
/// border pixel, the jittered position of the first border pixel in it.
pub struct SpatialIndex {
    entries: Vec<IndexEntry>,
}

impl View for SpatialIndex {
    type V = Seq<IndexEntry>;

    closed spec fn view(&self) -> Seq<IndexEntry> {
        self.entries@
    }
}

impl SpatialIndex {
    /// Every coordinate is one that a jittered pixel position can have.
    pub open spec fn wf(&self) -> bool {
        in_range(self@)
    }

    /// Number of indexed points.
    pub fn len(&self) -> (n: usize)
        ensures
            n == self@.len(),
    {
        self.entries.len()
    }

    /// Whether nothing is indexed.
    pub fn is_empty(&self) -> (empty: bool)
        ensures
            empty == (self@.len() == 0),
    {
        self.entries.len() == 0
    }

    /// The indexed points in the order in which they were added.
    pub fn entries(&self) -> (entries: &Vec<IndexEntry>)
        ensures
            entries@ == self@,
    {
        &self.entries
    }

    /// Squared distance between entry `k` and the pixel `(x, y)`.
    fn distance_to(&self, k: usize, x: u32, y: u32) -> (d: u128)
        requires
            self.wf(),
            k < self@.len(),
        ensures
            d == squared_distance(self@[k as int].position, x as int, y as int),
    {
        let entry: IndexEntry = self.entries[k];
        let px: u128 = entry.position.0 as u128;
        let py: u128 = entry.position.1 as u128;
        let qx: u128 = (x as u128) * (SUBPIXEL as u128);
        let qy: u128 = (y as u128) * (SUBPIXEL as u128);
        let dx: u128 = if px >= qx {
            px - qx
        } else {
            qx - px
        };
        let dy: u128 = if py >= qy {
            py - qy
        } else {
            qy - py
        };
        proof {
            let m = MAX_COORDINATE as int;
            assert(0 <= dx * dx <= m * m) by (nonlinear_arith)
                requires
                    0 <= dx <= m,
            ;
            assert(0 <= dy * dy <= m * m) by (nonlinear_arith)
                requires
                    0 <= dy <= m,
            ;
            assert(dx * dx == (px - qx) * (px - qx)) by (nonlinear_arith)
                requires
                    dx == px - qx || dx == qx - px,
            ;
            assert(dy * dy == (py - qy) * (py - qy)) by (nonlinear_arith)
                requires
                    dy == py - qy || dy == qy - py,
            ;
        }
        dx * dx + dy * dy
    }

    /// Finds the entry nearest to the pixel `(x, y)` by squared Euclidean
    /// distance and returns the border-list place stored with it. Of several
    /// entries at the same distance the one added first is taken.
    pub fn nearest_one(&self, x: u32, y: u32) -> (item: usize)
        requires
            self.wf(),
            self@.len() > 0,
        ensures
            item == nearest_item(self@, x as int, y as int),
            is_nearest(self@, nearest_entry(self@, x as int, y as int), x as int, y as int),
    {
        let n: usize = self.entries.len();
        let mut best: usize = 0;
        let mut best_distance: u128 = self.distance_to(0, x, y);
        let mut k: usize = 1;
        while k < n
            invariant
                self.wf(),
                n == self@.len(),
                1 <= k <= n,
                best == nearest_upto(self@, k as int, x as int, y as int),
                best < k,
                best_distance == squared_distance(self@[best as int].position, x as int, y as int),
            decreases n - k,
        {
            let distance: u128 = self.distance_to(k, x, y);
            if distance < best_distance {
                best = k;
                best_distance = distance;
            }
            k = k + 1;
        }
        proof {
            lemma_nearest_entry(self@, x as int, y as int);
        }
        self.entries[best].item
    }
}

/// Builds the index over a border list. Of several border pixels in one cell
/// only the first is indexed; the others stay in the list and are never
/// found. Each indexed position carries the jitter of its place in the list.
pub fn build_spatial_index(border_pixels: &Vec<BorderPixel>) -> (index: SpatialIndex)
    ensures
        index@ == index_entries(border_pixels@, border_pixels@.len() as int),
        index.wf(),
        refers_to(index@, border_pixels@),
{
    let mut seen: HashMap<u64, usize> = HashMap::new();
    let mut entries: Vec<IndexEntry> = Vec::new();
    let mut i: usize = 0;
    while i < border_pixels.len()
        invariant
            i <= border_pixels.len(),
            entries@ == index_entries(border_pixels@, i as int),
            entries@.len() <= i,
            forall|k: int|
                0 <= k < entries@.len() ==> {
                    &&& (#[trigger] entries@[k]).item < i
                    &&& entries@[k].position.0 <= MAX_COORDINATE
                    &&& entries@[k].position.1 <= MAX_COORDINATE
                },
            forall|j: int|
                0 <= j < i ==> seen@.contains_key(
                    cell_key((#[trigger] border_pixels@[j]).position),
                ),
            forall|key: u64| #[trigger]
                seen@.contains_key(key) ==> exists|j: int|
                    0 <= j < i && cell_key((#[trigger] border_pixels@[j]).position) == key,
        decreases border_pixels.len() - i,
    {
        let pixel: BorderPixel = border_pixels[i];
        let key: u64 = key_of(pixel.position);
        if !seen.contains_key(&key) {
            assert(first_in_cell(border_pixels@, i as int));
            seen.insert(key, i);
            entries.push(IndexEntry { position: apply_position_jitter(pixel.position, i), item: i });
        } else {
            let ghost j = choose|j: int|
                0 <= j < i && cell_key((#[trigger] border_pixels@[j]).position) == key;
            assert(border_pixels@[j].position == border_pixels@[i as int].position);
            assert(!first_in_cell(border_pixels@, i as int));
        }
        i = i + 1;
    }
    SpatialIndex { entries }
}

} // verus!
