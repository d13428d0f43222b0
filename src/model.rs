use vstd::prelude::*;
use vstd::arithmetic::div_mod::*;
use vstd::arithmetic::mul::*;
use vstd::arithmetic::power::pow;

verus! {

/// Mathematical picture of a dense matrix: its shape and its entries in
/// row-major order (the entry at row `r`, column `c` sits at `c + r * cols`).
pub struct MatrixModel {
    pub rows: nat,
    pub cols: nat,
    pub data: Seq<int>,
}

impl MatrixModel {
    pub open spec fn wf(self) -> bool {
        self.data.len() == self.rows * self.cols
    }

    pub open spec fn at(self, r: int, c: int) -> int {
        self.data[c + r * self.cols]
    }

    pub open spec fn same_shape(self, other: MatrixModel) -> bool {
        self.rows == other.rows && self.cols == other.cols
    }

    pub open spec fn nonzero(self) -> bool {
        forall|i: int| 0 <= i < self.data.len() ==> #[trigger] self.data[i] != 0
    }

    /// Every entry lies in `lo ..= hi`.
    pub open spec fn within(self, lo: int, hi: int) -> bool {
        forall|i: int| 0 <= i < self.data.len() ==> lo <= #[trigger] self.data[i] <= hi
    }
}

/// `f(0) + f(1) + ... + f(n - 1)`.
pub open spec fn sum(n: nat, f: spec_fn(int) -> int) -> int
    decreases n,
{
    if n == 0 {
        0
    } else {
        sum((n - 1) as nat, f) + f(n - 1)
    }
}

pub open spec fn filled(rows: nat, cols: nat, v: int) -> MatrixModel {
    MatrixModel { rows, cols, data: Seq::new(rows * cols, |i: int| v) }
}

pub open spec fn elementwise(a: MatrixModel, b: MatrixModel, f: spec_fn(int, int) -> int) -> MatrixModel {
    MatrixModel { rows: a.rows, cols: a.cols, data: Seq::new(a.data.len(), |i: int| f(a.data[i], b.data[i])) }
}

pub open spec fn sum_of(a: MatrixModel, b: MatrixModel) -> MatrixModel {
    elementwise(a, b, |x: int, y: int| x + y)
}

pub open spec fn difference(a: MatrixModel, b: MatrixModel) -> MatrixModel {
    elementwise(a, b, |x: int, y: int| x - y)
}

pub open spec fn quotient(a: MatrixModel, b: MatrixModel) -> MatrixModel {
    elementwise(a, b, |x: int, y: int| x / y)
}

/// Each entry of `a` raised to the matching entry of `e`.
pub open spec fn powers(a: MatrixModel, e: MatrixModel) -> MatrixModel {
    elementwise(a, e, |x: int, y: int| pow(x, y as nat))
}

/// Each entry of `a` raised to the one exponent `e`.
pub open spec fn power_unit(a: MatrixModel, e: nat) -> MatrixModel {
    MatrixModel { rows: a.rows, cols: a.cols, data: Seq::new(a.data.len(), |i: int| pow(a.data[i], e)) }
}

/// Every entry of `a` multiplied by `k`.
pub open spec fn scaled(a: MatrixModel, k: int) -> MatrixModel {
    MatrixModel { rows: a.rows, cols: a.cols, data: Seq::new(a.data.len(), |i: int| k * a.data[i]) }
}

/// The column `b` added to every column of `a`.
pub open spec fn plus_column(a: MatrixModel, b: MatrixModel) -> MatrixModel {
    MatrixModel { rows: a.rows, cols: a.cols, data: Seq::new(a.data.len(), |x: int| a.data[x] + b.data[x / a.cols as int]) }
}

/// The column of sums of each row of `a`, written as the product with a column of ones.
pub open spec fn row_sums(a: MatrixModel) -> MatrixModel {
    product(a, filled(a.cols, 1, 1))
}

/// Row `i` of `a` times column `j` of `b`, accumulated over `a.cols` terms.
pub open spec fn product_entry(a: MatrixModel, b: MatrixModel, i: int, j: int) -> int {
    sum(a.cols, |k: int| a.at(i, k) * b.at(k, j))
}

pub open spec fn product(a: MatrixModel, b: MatrixModel) -> MatrixModel {
    MatrixModel {
        rows: a.rows,
        cols: b.cols,
        data: Seq::new(a.rows * b.cols, |x: int| product_entry(a, b, x / b.cols as int, x % b.cols as int)),
    }
}

pub open spec fn transposed(a: MatrixModel) -> MatrixModel {
    MatrixModel {
        rows: a.cols,
        cols: a.rows,
        data: Seq::new(a.rows * a.cols, |x: int| a.at(x % a.rows as int, x / a.rows as int)),
    }
}

/// The flat position of `(r, c)` is in range, and dividing it back by the
/// column count gives `r` and `c` again.
pub proof fn lemma_index(rows: nat, cols: nat, r: int, c: int)
    requires
        0 <= r < rows,
        0 <= c < cols,
    ensures
        0 <= c + r * cols < rows * cols,
        (c + r * cols) / cols as int == r,
        (c + r * cols) % cols as int == c,
{
    lemma_mul_inequality(r + 1, rows as int, cols as int);
    lemma_mul_is_distributive_add_other_way(cols as int, r, 1);
    lemma_mul_nonnegative(r, cols as int);
    lemma_fundamental_div_mod_converse(c + r * cols, cols as int, r, c);
}

/// A flat position below `rows * cols` splits into a row and a column in range.
pub proof fn lemma_split(rows: nat, cols: nat, x: int)
    requires
        0 <= x < rows * cols,
    ensures
        cols > 0,
        0 <= x / (cols as int) < rows,
        0 <= x % (cols as int) < cols,
        x == x % cols as int + (x / cols as int) * cols,
{
    if cols == 0 {
        lemma_mul_basics(rows as int);
    }
    lemma_fundamental_div_mod(x, cols as int);
    lemma_mod_bound(x, cols as int);
    lemma_div_pos_is_pos(x, cols as int);
    lemma_mul_is_commutative(cols as int, x / cols as int);
    if x / cols as int >= rows {
        lemma_mul_inequality(rows as int, x / cols as int, cols as int);
    }
}

pub proof fn lemma_product_at(a: MatrixModel, b: MatrixModel, i: int, j: int)
    requires
        0 <= i < a.rows,
        0 <= j < b.cols,
    ensures
        product(a, b).at(i, j) == product_entry(a, b, i, j),
{
    lemma_index(a.rows, b.cols, i, j);
}

pub proof fn lemma_transposed_at(a: MatrixModel, r: int, c: int)
    requires
        0 <= r < a.rows,
        0 <= c < a.cols,
    ensures
        transposed(a).at(c, r) == a.at(r, c),
{
    lemma_index(a.cols, a.rows, c, r);
    lemma_mul_is_commutative(a.rows as int, a.cols as int);
}

pub proof fn lemma_sum_ext(n: nat, f: spec_fn(int) -> int, g: spec_fn(int) -> int)
    requires
        forall|k: int| 0 <= k < n ==> #[trigger] f(k) == g(k),
    ensures
        sum(n, f) == sum(n, g),
    decreases n,
{
    if n > 0 {
        lemma_sum_ext((n - 1) as nat, f, g);
    }
}

pub proof fn lemma_sum_scale(n: nat, c: int, f: spec_fn(int) -> int)
    ensures
        c * sum(n, f) == sum(n, |k: int| c * f(k)),
    decreases n,
{
    if n > 0 {
        lemma_sum_scale((n - 1) as nat, c, f);
        lemma_mul_is_distributive_add(c, sum((n - 1) as nat, f), f(n - 1));
    }
}

pub proof fn lemma_sum_add(n: nat, f: spec_fn(int) -> int, g: spec_fn(int) -> int)
    ensures
        sum(n, f) + sum(n, g) == sum(n, |k: int| f(k) + g(k)),
    decreases n,
{
    if n > 0 {
        lemma_sum_add((n - 1) as nat, f, g);
    }
}

pub proof fn lemma_sum_zero(n: nat, f: spec_fn(int) -> int)
    requires
        forall|k: int| 0 <= k < n ==> #[trigger] f(k) == 0,
    ensures
        sum(n, f) == 0,
    decreases n,
{
    if n > 0 {
        lemma_sum_zero((n - 1) as nat, f);
    }
}

/// A sum of non-negative terms only grows as terms are added.
pub proof fn lemma_sum_prefix(k: nat, n: nat, f: spec_fn(int) -> int)
    requires
        k <= n,
        forall|t: int| 0 <= t < n ==> #[trigger] f(t) >= 0,
    ensures
        0 <= sum(k, f) <= sum(n, f),
    decreases n,
{
    if n > k {
        lemma_sum_prefix(k, (n - 1) as nat, f);
    } else if k > 0 {
        lemma_sum_prefix((k - 1) as nat, (n - 1) as nat, f);
    }
}

/// For non-negative factors: once the running sum for entry `(i, j)` of the
/// product, taken through term `k`, passes `hi`, the finished entry does too.
pub proof fn lemma_partial_product_exceeds(a: MatrixModel, b: MatrixModel, i: int, j: int, k: int, hi: int)
    requires
        a.wf(),
        b.wf(),
        a.cols == b.rows,
        a.within(0, hi),
        b.within(0, hi),
        0 <= i < a.rows,
        0 <= j < b.cols,
        0 <= k < a.cols,
        a.at(i, k) * b.at(k, j) > hi || sum(k as nat, |t: int| a.at(i, t) * b.at(t, j)) + a.at(i, k) * b.at(
            k,
            j,
        ) > hi,
    ensures
        !product(a, b).within(0, hi),
{
    let f = |t: int| a.at(i, t) * b.at(t, j);
    assert forall|t: int| 0 <= t < a.cols implies #[trigger] f(t) >= 0 by {
        lemma_index(a.rows, a.cols, i, t);
        lemma_index(b.rows, b.cols, t, j);
        lemma_mul_nonnegative(a.at(i, t), b.at(t, j));
    }
    lemma_sum_prefix(k as nat, a.cols, f);
    lemma_sum_prefix((k + 1) as nat, a.cols, f);
    lemma_product_at(a, b, i, j);
    lemma_index(a.rows, b.cols, i, j);
    assert(product(a, b).data[j + i * b.cols] > hi);
}

/// A double sum may be taken in either order.
pub proof fn lemma_sum_swap(n: nat, m: nat, f: spec_fn(int, int) -> int)
    ensures
        sum(n, |i: int| sum(m, |j: int| f(i, j))) == sum(m, |j: int| sum(n, |i: int| f(i, j))),
    decreases n,
{
    if n > 0 {
        let n1 = (n - 1) as nat;
        let lhs_inner = |i: int| sum(m, |j: int| f(i, j));
        let head = |j: int| sum(n1, |i: int| f(i, j));
        let last = |j: int| f(n1 as int, j);
        lemma_sum_swap(n1, m, f);
        assert(sum(n, lhs_inner) == sum(n1, lhs_inner) + sum(m, last)) by {
            lemma_sum_ext(m, |j: int| f(n1 as int, j), last);
        }
        lemma_sum_add(m, head, last);
        let whole = |j: int| sum(n, |i: int| f(i, j));
        assert forall|k: int| 0 <= k < m implies #[trigger] whole(k) == head(k) + last(k) by {
            let col = |i: int| f(i, k);
            assert(whole(k) == sum(n, col));
            assert(head(k) == sum(n1, col));
        }
        lemma_sum_ext(m, |k: int| head(k) + last(k), whole);
        assert(sum(n1, lhs_inner) == sum(m, head));
    } else {
        lemma_sum_zero(m, |j: int| sum(n, |i: int| f(i, j)));
    }
}

/// Addition of matrices of one shape is commutative.
pub proof fn lemma_add_commutative(a: MatrixModel, b: MatrixModel)
    requires
        a.wf(),
        b.wf(),
        a.same_shape(b),
    ensures
        sum_of(a, b) == sum_of(b, a),
{
    assert(sum_of(a, b).data =~= sum_of(b, a).data);
}

/// Addition of matrices of one shape is associative.
pub proof fn lemma_add_associative(a: MatrixModel, b: MatrixModel, c: MatrixModel)
    requires
        a.wf(),
        b.wf(),
        c.wf(),
        a.same_shape(b),
        b.same_shape(c),
    ensures
        sum_of(sum_of(a, b), c) == sum_of(a, sum_of(b, c)),
{
    assert(sum_of(sum_of(a, b), c).data =~= sum_of(a, sum_of(b, c)).data);
}

proof fn lemma_product_associative_entry(a: MatrixModel, b: MatrixModel, c: MatrixModel, i: int, j: int)
    requires
        a.cols == b.rows,
        b.cols == c.rows,
        0 <= i < a.rows,
        0 <= j < c.cols,
    ensures
        product_entry(product(a, b), c, i, j) == product_entry(a, product(b, c), i, j),
{
    let ab = product(a, b);
    let bc = product(b, c);
    let f = |k: int, l: int| a.at(i, k) * b.at(k, l) * c.at(l, j);
    let by_l = |l: int| sum(a.cols, |k: int| f(k, l));
    let by_k = |k: int| sum(b.cols, |l: int| f(k, l));
    assert forall|l: int| 0 <= l < b.cols implies #[trigger] (ab.at(i, l) * c.at(l, j)) == by_l(l) by {
        let g = |k: int| a.at(i, k) * b.at(k, l);
        let w = c.at(l, j);
        lemma_product_at(a, b, i, l);
        lemma_sum_scale(a.cols, w, g);
        assert forall|k: int| 0 <= k < a.cols implies w * #[trigger] g(k) == f(k, l) by {
            lemma_mul_is_commutative(w, g(k));
        }
        lemma_sum_ext(a.cols, |k: int| w * g(k), |k: int| f(k, l));
        lemma_mul_is_commutative(w, sum(a.cols, g));
    }
    lemma_sum_ext(b.cols, |l: int| ab.at(i, l) * c.at(l, j), by_l);
    assert forall|k: int| 0 <= k < a.cols implies #[trigger] (a.at(i, k) * bc.at(k, j)) == by_k(k) by {
        let g = |l: int| b.at(k, l) * c.at(l, j);
        let w = a.at(i, k);
        lemma_product_at(b, c, k, j);
        lemma_sum_scale(b.cols, w, g);
        assert forall|l: int| 0 <= l < b.cols implies w * #[trigger] g(l) == f(k, l) by {
            lemma_mul_is_associative(w, b.at(k, l), c.at(l, j));
        }
        lemma_sum_ext(b.cols, |l: int| w * g(l), |l: int| f(k, l));
    }
    lemma_sum_ext(a.cols, |k: int| a.at(i, k) * bc.at(k, j), by_k);
    lemma_sum_swap(a.cols, b.cols, f);
}

/// The matrix product is associative.
pub proof fn lemma_product_associative(a: MatrixModel, b: MatrixModel, c: MatrixModel)
    requires
        a.cols == b.rows,
        b.cols == c.rows,
    ensures
        product(product(a, b), c) == product(a, product(b, c)),
{
    let lhs = product(product(a, b), c);
    let rhs = product(a, product(b, c));
    assert forall|x: int| 0 <= x < lhs.data.len() implies lhs.data[x] == rhs.data[x] by {
        lemma_split(a.rows, c.cols, x);
        lemma_product_associative_entry(a, b, c, x / c.cols as int, x % c.cols as int);
    }
    assert(lhs.data =~= rhs.data);
}

/// Transposing a product multiplies the transposes in reverse order.
pub proof fn lemma_transpose_of_product(a: MatrixModel, b: MatrixModel)
    requires
        a.cols == b.rows,
    ensures
        transposed(product(a, b)) == product(transposed(b), transposed(a)),
{
    let lhs = transposed(product(a, b));
    let rhs = product(transposed(b), transposed(a));
    lemma_mul_is_commutative(a.rows as int, b.cols as int);
    assert forall|x: int| 0 <= x < lhs.data.len() implies lhs.data[x] == rhs.data[x] by {
        lemma_split(b.cols, a.rows, x);
        let r = x % a.rows as int;
        let c = x / a.rows as int;
        lemma_product_at(a, b, r, c);
        assert forall|k: int| 0 <= k < a.cols implies #[trigger] (transposed(b).at(c, k) * transposed(a).at(k, r))
            == a.at(r, k) * b.at(k, c) by {
            lemma_transposed_at(b, k, c);
            lemma_transposed_at(a, r, k);
            lemma_mul_is_commutative(b.at(k, c), a.at(r, k));
        }
        lemma_sum_ext(
            a.cols,
            |k: int| transposed(b).at(c, k) * transposed(a).at(k, r),
            |k: int| a.at(r, k) * b.at(k, c),
        );
    }
    assert(lhs.data =~= rhs.data);
}

} // verus!
