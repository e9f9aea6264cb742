//! Joining the results of work that was done row by row.

use rayon::iter::{IntoParallelIterator, ParallelIterator};
use vstd::prelude::*;

verus! {

/// The first `n` rows, one after the other.
pub open spec fn joined<T>(rows: Seq<Seq<T>>, n: int) -> Seq<T>
    decreases n,
{
    if n <= 0 {
        Seq::empty()
    } else {
        joined(rows, n - 1) + rows[n - 1]
    }
}

/// The contents of each row.
pub open spec fn row_views<T>(rows: Seq<Vec<T>>) -> Seq<Seq<T>> {
    Seq::new(rows.len(), |y: int| rows[y]@)
}

/// Where all rows have `width` items, the first `n` rows joined have
/// `n * width`, and item `x` of row `y` stands at place `y * width + x`.
pub proof fn lemma_joined_item<T>(rows: Seq<Seq<T>>, n: int, width: int, x: int, y: int)
    requires
        0 <= n <= rows.len(),
        forall|r: int| 0 <= r < n ==> (#[trigger] rows[r]).len() == width,
        0 <= x < width,
        0 <= y < n,
    ensures
        joined(rows, n).len() == n * width,
        joined(rows, n)[y * width + x] == rows[y][x],
    decreases n,
{
    lemma_joined_len(rows, n, width);
    lemma_joined_len(rows, n - 1, width);
    assert((n - 1) * width + width == n * width) by (nonlinear_arith);
    if y < n - 1 {
        lemma_joined_item(rows, n - 1, width, x, y);
        assert(y * width + width <= (n - 1) * width) by (nonlinear_arith)
            requires
                y < n - 1,
                width >= 0,
        ;
    }
}

/// Where all rows have `width` items, the first `n` rows joined have
/// `n * width`.
pub proof fn lemma_joined_len<T>(rows: Seq<Seq<T>>, n: int, width: int)
    requires
        0 <= n <= rows.len(),
        forall|r: int| 0 <= r < n ==> (#[trigger] rows[r]).len() == width,
    ensures
        joined(rows, n).len() == n * width,
    decreases n,
{
    if n > 0 {
        lemma_joined_len(rows, n - 1, width);
        assert((n - 1) * width + width == n * width) by (nonlinear_arith);
    } else {
        assert(0 * width == 0) by (nonlinear_arith);
    }
}

/// What holds of every item of the first `n` rows holds of every item of
/// the rows joined.
pub proof fn lemma_joined_all<T>(rows: Seq<Seq<T>>, n: int, holds: spec_fn(T) -> bool)
    requires
        0 <= n <= rows.len(),
        forall|y: int, x: int| 0 <= y < n && 0 <= x < rows[y].len() ==> holds(#[trigger] rows[y][x]),
    ensures
        forall|i: int| 0 <= i < joined(rows, n).len() ==> holds(#[trigger] joined(rows, n)[i]),
    decreases n,
{
    if n > 0 {
        lemma_joined_all(rows, n - 1, holds);
        let shorter = joined(rows, n - 1);
        assert forall|i: int| 0 <= i < joined(rows, n).len() implies holds(
            #[trigger] joined(rows, n)[i],
        ) by {
            if i >= shorter.len() {
                assert(joined(rows, n)[i] == rows[n - 1][i - shorter.len()]);
            }
        }
    }
}

/// Computes `work(y)` for every row number `y` below `height` on rayon's
/// worker pool, by `IntoParallelIterator::into_par_iter` on the range of row
/// numbers, `ParallelIterator::map` with `work`, and
/// `ParallelIterator::collect` into a vector. Nothing of this is proved: it
/// is taken from rayon that `work` is called once for each row number of the
/// range, and that `collect` returns the results in the order of the range,
/// whichever worker produced them. So the vector holds one result for each
/// row, in row order.
#[verifier::external_body]
pub(crate) fn for_each_row<T: Send, F: Fn(u32) -> T + Sync + Send>(height: u32, work: F) -> (rows: Vec<T>)
    requires
        forall|y: u32| y < height ==> call_requires(work, (y,)),
    ensures
        rows@.len() == height,
        forall|y: int| 0 <= y < height ==> call_ensures(work, (y as u32,), #[trigger] rows@[y]),
{
    (0..height).into_par_iter().map(work).collect()
}

/// Joins the rows into one list, keeping the order of the rows and the order
/// within each row.
pub fn join<T: Copy>(rows: &Vec<Vec<T>>) -> (all: Vec<T>)
    ensures
        all@ == joined(row_views(rows@), rows@.len() as int),
{
    let mut all: Vec<T> = Vec::new();
    let mut y: usize = 0;
    while y < rows.len()
        invariant
            y <= rows.len(),
            all@ == joined(row_views(rows@), y as int),
        decreases rows.len() - y,
    {
        let row: &Vec<T> = &rows[y];
        let ghost before = all@;
        let mut k: usize = 0;
        while k < row.len()
            invariant
                k <= row.len(),
                all@ == before + row@.subrange(0, k as int),
            decreases row.len() - k,
        {
            all.push(row[k]);
            k = k + 1;
        }
        assert(row@.subrange(0, row.len() as int) == row@);
        y = y + 1;
    }
    all
}

} // verus!
