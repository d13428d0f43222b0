use vstd::prelude::*;
use vstd::arithmetic::mul::*;

use crate::model::{
    filled, lemma_index, lemma_product_at, lemma_sum_ext, lemma_sum_zero, lemma_transposed_at,
    plus_column, product, product_entry, row_sums, sum, transposed, MatrixModel,
};

verus! {

/// What a dense layer computes: `w * x` with the column `b` added to every column.
pub open spec fn dense_output(w: MatrixModel, b: MatrixModel, x: MatrixModel) -> MatrixModel {
    plus_column(product(w, x), b)
}

/// Entry-by-entry inner product of `g` and `y`: the loss whose gradient with
/// respect to `y` is `g`.
pub open spec fn pairing(g: MatrixModel, y: MatrixModel) -> int {
    sum(g.rows, |i: int| sum(g.cols, |c: int| g.at(i, c) * y.at(i, c)))
}

/// `m` with the entry at `(r, c)` raised by one.
pub open spec fn bumped(m: MatrixModel, r: int, c: int) -> MatrixModel {
    MatrixModel { data: m.data.update(c + r * m.cols, m.data[c + r * m.cols] + 1), ..m }
}

/// Shapes under which a dense layer with weights `w` and biases `b` takes
/// the input `x` and receives the output gradient `g`.
pub open spec fn dense_shapes(w: MatrixModel, b: MatrixModel, x: MatrixModel, g: MatrixModel) -> bool {
    &&& w.wf() && b.wf() && x.wf() && g.wf()
    &&& w.cols == x.rows
    &&& b.rows == w.rows && b.cols == 1
    &&& g.rows == w.rows && g.cols == x.cols
}

proof fn lemma_sum_sub(n: nat, f: spec_fn(int) -> int, g: spec_fn(int) -> int)
    ensures
        sum(n, f) - sum(n, g) == sum(n, |k: int| f(k) - g(k)),
    decreases n,
{
    if n > 0 {
        lemma_sum_sub((n - 1) as nat, f, g);
    }
}

/// A sum whose terms vanish but at `s` is that one term.
proof fn lemma_sum_single(n: nat, f: spec_fn(int) -> int, s: int)
    requires
        0 <= s < n,
        forall|k: int| 0 <= k < n && k != s ==> #[trigger] f(k) == 0,
    ensures
        sum(n, f) == f(s),
    decreases n,
{
    if n - 1 == s {
        lemma_sum_zero(s as nat, f);
    } else {
        lemma_sum_single((n - 1) as nat, f, s);
    }
}

proof fn lemma_bumped_at(m: MatrixModel, r: int, c: int, i: int, j: int)
    requires
        m.wf(),
        0 <= r < m.rows,
        0 <= c < m.cols,
        0 <= i < m.rows,
        0 <= j < m.cols,
    ensures
        bumped(m, r, c).at(i, j) == m.at(i, j) + if i == r && j == c { 1int } else { 0int },
{
    lemma_index(m.rows, m.cols, r, c);
    lemma_index(m.rows, m.cols, i, j);
    if i != r || j != c {
        if c + r * m.cols == j + i * m.cols {
            lemma_index(m.rows, m.cols, i, j);
            assert((c + r * m.cols) / m.cols as int == r);
        }
    }
}

proof fn lemma_dense_output_at(w: MatrixModel, b: MatrixModel, x: MatrixModel, i: int, c: int)
    requires
        w.wf(),
        b.wf(),
        x.wf(),
        w.cols == x.rows,
        b.rows == w.rows,
        b.cols == 1,
        0 <= i < w.rows,
        0 <= c < x.cols,
    ensures
        dense_output(w, b, x).at(i, c) == product_entry(w, x, i, c) + b.at(i, 0),
{
    lemma_product_at(w, x, i, c);
    lemma_index(w.rows, x.cols, i, c);
}

/// Where `f(i, c)` is `g(i, c)` times the change of entry `(i, c)` from `y2`
/// to `y1`, the pairings with `g` change by the sum of `f`.
proof fn lemma_pairing_difference(g: MatrixModel, y1: MatrixModel, y2: MatrixModel, f: spec_fn(int, int) -> int)
    requires
        forall|i: int, c: int| 0 <= i < g.rows && 0 <= c < g.cols ==> #[trigger] f(i, c) == g.at(i, c) * (y1.at(i, c) - y2.at(i, c)),
    ensures
        pairing(g, y1) - pairing(g, y2) == sum(g.rows, |i: int| sum(g.cols, |c: int| f(i, c))),
{
    let row1 = |i: int| sum(g.cols, |c: int| g.at(i, c) * y1.at(i, c));
    let row2 = |i: int| sum(g.cols, |c: int| g.at(i, c) * y2.at(i, c));
    let rowf = |i: int| sum(g.cols, |c: int| f(i, c));
    lemma_sum_sub(g.rows, row1, row2);
    assert forall|i: int| 0 <= i < g.rows implies #[trigger] rowf(i) == row1(i) - row2(i) by {
        let t1 = |c: int| g.at(i, c) * y1.at(i, c);
        let t2 = |c: int| g.at(i, c) * y2.at(i, c);
        lemma_sum_sub(g.cols, t1, t2);
        assert forall|c: int| 0 <= c < g.cols implies #[trigger] t1(c) - t2(c) == f(i, c) by {
            lemma_mul_is_distributive_sub(g.at(i, c), y1.at(i, c), y2.at(i, c));
        }
        lemma_sum_ext(g.cols, |c: int| t1(c) - t2(c), |c: int| f(i, c));
    }
    lemma_sum_ext(g.rows, |k: int| row1(k) - row2(k), rowf);
}

/// A double sum whose terms vanish outside row `r` is the sum along row `r`.
proof fn lemma_single_row(rows: nat, cols: nat, f: spec_fn(int, int) -> int, r: int)
    requires
        0 <= r < rows,
        forall|i: int, c: int| 0 <= i < rows && 0 <= c < cols && i != r ==> #[trigger] f(i, c) == 0,
    ensures
        sum(rows, |i: int| sum(cols, |c: int| f(i, c))) == sum(cols, |c: int| f(r, c)),
{
    let outer = |i: int| sum(cols, |c: int| f(i, c));
    assert forall|i: int| 0 <= i < rows && i != r implies #[trigger] outer(i) == 0 by {
        lemma_sum_zero(cols, |c: int| f(i, c));
    }
    lemma_sum_single(rows, outer, r);
}

/// A double sum whose terms vanish outside column `c0` is the sum down column `c0`.
proof fn lemma_single_col(rows: nat, cols: nat, f: spec_fn(int, int) -> int, c0: int)
    requires
        0 <= c0 < cols,
        forall|i: int, c: int| 0 <= i < rows && 0 <= c < cols && c != c0 ==> #[trigger] f(i, c) == 0,
    ensures
        sum(rows, |i: int| sum(cols, |c: int| f(i, c))) == sum(rows, |i: int| f(i, c0)),
{
    let outer = |i: int| sum(cols, |c: int| f(i, c));
    assert forall|i: int| 0 <= i < rows implies #[trigger] outer(i) == f(i, c0) by {
        lemma_sum_single(cols, |c: int| f(i, c), c0);
    }
    lemma_sum_ext(rows, outer, |i: int| f(i, c0));
}

/// The weight gradient `g * x^T` is exact: raising weight `(r, s)` by one
/// raises the loss `pairing(g, output)` by entry `(r, s)` of it.
pub proof fn lemma_dense_weight_gradient(w: MatrixModel, b: MatrixModel, x: MatrixModel, g: MatrixModel, r: int, s: int)
    requires
        dense_shapes(w, b, x, g),
        0 <= r < w.rows,
        0 <= s < w.cols,
    ensures
        pairing(g, dense_output(bumped(w, r, s), b, x)) - pairing(g, dense_output(w, b, x)) == product(
            g,
            transposed(x),
        ).at(r, s),
{
    let w1 = bumped(w, r, s);
    lemma_index(w.rows, w.cols, r, s);
    assert(w1.wf());
    let d = |i: int, c: int| if i == r { x.at(s, c) } else { 0 };
    assert forall|i: int, c: int| 0 <= i < g.rows && 0 <= c < g.cols implies #[trigger] dense_output(w1, b, x).at(i, c)
        - dense_output(w, b, x).at(i, c) == d(i, c) by {
        lemma_dense_output_at(w1, b, x, i, c);
        lemma_dense_output_at(w, b, x, i, c);
        let t1 = |k: int| w1.at(i, k) * x.at(k, c);
        let t0 = |k: int| w.at(i, k) * x.at(k, c);
        lemma_sum_sub(w.cols, t1, t0);
        let e = |k: int| t1(k) - t0(k);
        assert forall|k: int| 0 <= k < w.cols implies #[trigger] e(k) == if i == r && k == s { x.at(s, c) } else { 0 } by {
            lemma_bumped_at(w, r, s, i, k);
            lemma_mul_is_distributive_add_other_way(x.at(k, c), w.at(i, k), if i == r && k == s { 1int } else { 0int });
        }
        if i == r {
            lemma_sum_single(w.cols, e, s);
        } else {
            lemma_sum_zero(w.cols, e);
        }
    }
    let f = |i: int, c: int| g.at(i, c) * d(i, c);
    assert forall|i: int, c: int| 0 <= i < g.rows && 0 <= c < g.cols implies #[trigger] f(i, c) == g.at(i, c) * (dense_output(w1, b, x).at(i, c) - dense_output(w, b, x).at(i, c)) by {
        assert(dense_output(w1, b, x).at(i, c) - dense_output(w, b, x).at(i, c) == d(i, c));
    }
    lemma_pairing_difference(g, dense_output(w1, b, x), dense_output(w, b, x), f);
    lemma_single_row(g.rows, g.cols, f, r);
    lemma_product_at(g, transposed(x), r, s);
    assert forall|k: int| 0 <= k < g.cols implies #[trigger] f(r, k) == g.at(r, k) * transposed(x).at(k, s) by {
        lemma_transposed_at(x, s, k);
    }
    lemma_sum_ext(g.cols, |c: int| f(r, c), |k: int| g.at(r, k) * transposed(x).at(k, s));
}

/// The bias gradient (the row sums of `g`) is exact: raising bias `r` by one
/// raises the loss by entry `r` of it.
pub proof fn lemma_dense_bias_gradient(w: MatrixModel, b: MatrixModel, x: MatrixModel, g: MatrixModel, r: int)
    requires
        dense_shapes(w, b, x, g),
        0 <= r < w.rows,
    ensures
        pairing(g, dense_output(w, bumped(b, r, 0), x)) - pairing(g, dense_output(w, b, x)) == row_sums(g).at(r, 0),
{
    let b1 = bumped(b, r, 0);
    lemma_index(b.rows, b.cols, r, 0);
    assert(b1.wf());
    let d = |i: int, c: int| if i == r { 1int } else { 0int };
    assert forall|i: int, c: int| 0 <= i < g.rows && 0 <= c < g.cols implies #[trigger] dense_output(w, b1, x).at(i, c)
        - dense_output(w, b, x).at(i, c) == d(i, c) by {
        lemma_dense_output_at(w, b1, x, i, c);
        lemma_dense_output_at(w, b, x, i, c);
        lemma_bumped_at(b, r, 0, i, 0);
    }
    let f = |i: int, c: int| g.at(i, c) * d(i, c);
    assert forall|i: int, c: int| 0 <= i < g.rows && 0 <= c < g.cols implies #[trigger] f(i, c) == g.at(i, c) * (dense_output(w, b1, x).at(i, c) - dense_output(w, b, x).at(i, c)) by {
        assert(dense_output(w, b1, x).at(i, c) - dense_output(w, b, x).at(i, c) == d(i, c));
    }
    lemma_pairing_difference(g, dense_output(w, b1, x), dense_output(w, b, x), f);
    lemma_single_row(g.rows, g.cols, f, r);
    let ones = filled(g.cols, 1, 1);
    lemma_product_at(g, ones, r, 0);
    assert forall|k: int| 0 <= k < g.cols implies #[trigger] f(r, k) == g.at(r, k) * ones.at(k, 0) by {
        lemma_index(g.cols, 1, k, 0);
    }
    lemma_sum_ext(g.cols, |c: int| f(r, c), |k: int| g.at(r, k) * ones.at(k, 0));
}

/// The input gradient `w^T * g` is exact: raising input entry `(s, c0)` by
/// one raises the loss by entry `(s, c0)` of it.
pub proof fn lemma_dense_input_gradient(w: MatrixModel, b: MatrixModel, x: MatrixModel, g: MatrixModel, s: int, c0: int)
    requires
        dense_shapes(w, b, x, g),
        0 <= s < x.rows,
        0 <= c0 < x.cols,
    ensures
        pairing(g, dense_output(w, b, bumped(x, s, c0))) - pairing(g, dense_output(w, b, x)) == product(
            transposed(w),
            g,
        ).at(s, c0),
{
    let x1 = bumped(x, s, c0);
    lemma_index(x.rows, x.cols, s, c0);
    assert(x1.wf());
    let d = |i: int, c: int| if c == c0 { w.at(i, s) } else { 0 };
    assert forall|i: int, c: int| 0 <= i < g.rows && 0 <= c < g.cols implies #[trigger] dense_output(w, b, x1).at(i, c)
        - dense_output(w, b, x).at(i, c) == d(i, c) by {
        lemma_dense_output_at(w, b, x1, i, c);
        lemma_dense_output_at(w, b, x, i, c);
        let t1 = |k: int| w.at(i, k) * x1.at(k, c);
        let t0 = |k: int| w.at(i, k) * x.at(k, c);
        lemma_sum_sub(w.cols, t1, t0);
        let e = |k: int| t1(k) - t0(k);
        assert forall|k: int| 0 <= k < w.cols implies #[trigger] e(k) == if k == s && c == c0 { w.at(i, s) } else { 0 } by {
            lemma_bumped_at(x, s, c0, k, c);
            lemma_mul_is_distributive_add(w.at(i, k), x.at(k, c), if k == s && c == c0 { 1int } else { 0int });
        }
        if c == c0 {
            lemma_sum_single(w.cols, e, s);
        } else {
            lemma_sum_zero(w.cols, e);
        }
    }
    let f = |i: int, c: int| g.at(i, c) * d(i, c);
    assert forall|i: int, c: int| 0 <= i < g.rows && 0 <= c < g.cols implies #[trigger] f(i, c) == g.at(i, c) * (dense_output(w, b, x1).at(i, c) - dense_output(w, b, x).at(i, c)) by {
        assert(dense_output(w, b, x1).at(i, c) - dense_output(w, b, x).at(i, c) == d(i, c));
    }
    lemma_pairing_difference(g, dense_output(w, b, x1), dense_output(w, b, x), f);
    lemma_single_col(g.rows, g.cols, f, c0);
    lemma_product_at(transposed(w), g, s, c0);
    assert forall|k: int| 0 <= k < g.rows implies #[trigger] f(k, c0) == transposed(w).at(s, k) * g.at(k, c0) by {
        lemma_transposed_at(w, k, s);
        lemma_mul_is_commutative(g.at(k, c0), w.at(k, s));
    }
    lemma_sum_ext(g.rows, |i: int| f(i, c0), |k: int| transposed(w).at(s, k) * g.at(k, c0));
}

} // verus!
