//! How the rows of an image are shared among workers: stripes of whole rows,
//! one after another from the top, as even as they can be.

use vstd::prelude::*;

verus! {

/// How many stripes come out when `height` rows are shared among `n` workers:
/// one per worker, but never a stripe without rows.
pub open spec fn stripe_count(height: int, n: int) -> int {
    if n <= height {
        n
    } else {
        height
    }
}

/// Rows of stripe `i` when `height` rows are shared among `n` workers as
/// evenly as possible: the first `height % n` stripes take one row more.
pub open spec fn stripe_rows(height: int, n: int, i: int) -> int {
    height / n + if i < height % n {
        1int
    } else {
        0int
    }
}

/// First row of stripe `i`: the rows of all stripes before it.
pub open spec fn stripe_start(height: int, n: int, i: int) -> int {
    i * (height / n) + if i < height % n {
        i
    } else {
        height % n
    }
}

/// Whether row `y` is one of the rows of stripe `i`.
pub open spec fn stripe_has_row(height: int, n: int, i: int, y: int) -> bool {
    stripe_start(height, n, i) <= y < stripe_start(height, n, i) + stripe_rows(height, n, i)
}

/// Whether row `y` is a row of one of the first `k` stripes.
pub open spec fn row_covered(height: int, n: int, k: int, y: int) -> bool {
    exists|i: int| 0 <= i < k && #[trigger] stripe_has_row(height, n, i, y)
}

/// The stripes follow one another without gap or overlap, starting at row 0.
pub proof fn lemma_stripes_adjacent(height: int, n: int, i: int)
    requires
        0 <= height,
        1 <= n,
        0 <= i,
    ensures
        stripe_start(height, n, 0) == 0,
        stripe_start(height, n, i + 1) == stripe_start(height, n, i) + stripe_rows(height, n, i),
        0 <= stripe_rows(height, n, i),
        0 <= stripe_start(height, n, i),
{
    let q = height / n;
    let r = height % n;
    assert(0 <= q && 0 <= r < n) by (nonlinear_arith)
        requires
            0 <= height,
            1 <= n,
            q == height / n,
            r == height % n,
    ;
    assert((i + 1) * q == i * q + q) by (nonlinear_arith);
    assert(0 <= i * q) by (nonlinear_arith)
        requires
            0 <= i,
            0 <= q,
    ;
}

/// The stripes together end at row `height`; each of them has a row, and a
/// worker beyond their count would get none.
pub proof fn lemma_stripes_end(height: int, n: int)
    requires
        0 <= height,
        1 <= n,
    ensures
        stripe_start(height, n, stripe_count(height, n)) == height,
        forall|i: int|
            0 <= i < stripe_count(height, n) ==> 1 <= #[trigger] stripe_rows(height, n, i),
        forall|i: int|
            stripe_count(height, n) <= i < n ==> #[trigger] stripe_rows(height, n, i) == 0,
{
    let q = height / n;
    let r = height % n;
    assert(height == n * q + r && 0 <= r < n && 0 <= q) by (nonlinear_arith)
        requires
            0 <= height,
            1 <= n,
            q == height / n,
            r == height % n,
    ;
    if n <= height {
        assert(1 <= q) by (nonlinear_arith)
            requires
                height == n * q + r,
                0 <= r < n,
                n <= height,
                1 <= n,
        ;
        assert(stripe_start(height, n, n) == n * q + r);
    } else {
        assert(q == 0) by (nonlinear_arith)
            requires
                height == n * q + r,
                0 <= r < n,
                height < n,
                0 <= q,
        ;
        assert(height * q == 0 && n * q == 0) by (nonlinear_arith)
            requires
                q == 0,
        ;
        assert(stripe_start(height, n, height) == height * q + r);
    }
}

/// Every stripe lies inside the image.
pub proof fn lemma_stripes_within(height: int, n: int, i: int)
    requires
        0 <= height,
        1 <= n,
        0 <= i <= stripe_count(height, n),
    ensures
        0 <= stripe_start(height, n, i) <= height,
        i < stripe_count(height, n) ==> stripe_start(height, n, i) + stripe_rows(height, n, i)
            <= height,
    decreases stripe_count(height, n) - i,
{
    lemma_stripes_adjacent(height, n, i);
    lemma_stripes_end(height, n);
    if i < stripe_count(height, n) {
        lemma_stripes_within(height, n, i + 1);
    }
}

/// Later stripes start no earlier than earlier ones end.
pub proof fn lemma_stripes_ordered(height: int, n: int, i: int, j: int)
    requires
        0 <= height,
        1 <= n,
        0 <= i < j,
    ensures
        stripe_start(height, n, i) + stripe_rows(height, n, i) <= stripe_start(height, n, j),
    decreases j - i,
{
    lemma_stripes_adjacent(height, n, i);
    if i + 1 < j {
        lemma_stripes_ordered(height, n, i + 1, j);
        lemma_stripes_adjacent(height, n, i + 1);
    }
}

/// Every row before the start of stripe `k` lies in one of the stripes
/// before `k`.
pub proof fn lemma_rows_covered(height: int, n: int, k: int)
    requires
        0 <= height,
        1 <= n,
        0 <= k,
    ensures
        forall|y: int|
            0 <= y < stripe_start(height, n, k) ==> #[trigger] row_covered(height, n, k, y),
    decreases k,
{
    lemma_stripes_adjacent(height, n, 0);
    if k > 0 {
        lemma_rows_covered(height, n, k - 1);
        lemma_stripes_adjacent(height, n, k - 1);
        assert forall|y: int| 0 <= y < stripe_start(height, n, k) implies #[trigger] row_covered(
            height,
            n,
            k,
            y,
        ) by {
            if y < stripe_start(height, n, k - 1) {
                assert(row_covered(height, n, k - 1, y));
                let i = choose|i: int| 0 <= i < k - 1 && #[trigger] stripe_has_row(height, n, i, y);
                assert(stripe_has_row(height, n, i, y));
            } else {
                assert(stripe_has_row(height, n, k - 1, y));
            }
        }
    }
}

/// The row partition. When `height` rows are shared among `n >= 1` workers,
/// the stripes lie inside the image, every row of the image lies in a stripe,
/// no two stripes share a row, and no stripe has more than one row more than
/// another.
pub proof fn lemma_stripes_partition(height: int, n: int)
    requires
        0 <= height,
        1 <= n,
    ensures
        forall|i: int, y: int|
            0 <= i < stripe_count(height, n) && #[trigger] stripe_has_row(height, n, i, y) ==> 0
                <= y < height,
        forall|y: int|
            0 <= y < height ==> #[trigger] row_covered(height, n, stripe_count(height, n), y),
        forall|i: int, j: int, y: int|
            0 <= i < j < stripe_count(height, n) && #[trigger] stripe_has_row(height, n, i, y)
                ==> !#[trigger] stripe_has_row(height, n, j, y),
        forall|i: int, j: int|
            0 <= i < stripe_count(height, n) && 0 <= j < stripe_count(height, n)
                ==> #[trigger] stripe_rows(height, n, i) - #[trigger] stripe_rows(height, n, j) <= 1,
{
    lemma_stripes_end(height, n);
    lemma_rows_covered(height, n, stripe_count(height, n));
    assert forall|i: int, y: int|
        0 <= i < stripe_count(height, n) && #[trigger] stripe_has_row(
            height,
            n,
            i,
            y,
        ) implies 0 <= y < height by {
        lemma_stripes_within(height, n, i);
    }
    assert forall|i: int, j: int, y: int|
        0 <= i < j < stripe_count(height, n) && #[trigger] stripe_has_row(
            height,
            n,
            i,
            y,
        ) implies !#[trigger] stripe_has_row(height, n, j, y) by {
        lemma_stripes_ordered(height, n, i, j);
    }
}

/// The bytes of stripe `i` lie inside the image, after those of the stripes
/// before it.
pub proof fn lemma_stripe_bytes(height: int, n: int, i: int, stride: int)
    requires
        0 <= height,
        1 <= n,
        0 <= i < stripe_count(height, n),
        0 <= stride,
    ensures
        0 <= stripe_start(height, n, i) * stride,
        stripe_rows(height, n, i) * stride >= 0,
        (stripe_start(height, n, i) + stripe_rows(height, n, i)) * stride == stripe_start(
            height,
            n,
            i,
        ) * stride + stripe_rows(height, n, i) * stride,
        (stripe_start(height, n, i) + stripe_rows(height, n, i)) * stride <= height * stride,
{
    lemma_stripes_within(height, n, i);
    let a = stripe_start(height, n, i);
    let b = stripe_rows(height, n, i);
    assert(0 <= a * stride && 0 <= b * stride && (a + b) * stride == a * stride + b * stride && (a
        + b) * stride <= height * stride) by (nonlinear_arith)
        requires
            0 <= a,
            0 <= b,
            a + b <= height,
            0 <= stride,
    ;
}

} // verus!
