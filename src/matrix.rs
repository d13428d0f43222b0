use vstd::prelude::*;
use vstd::arithmetic::mul::*;

use crate::model::{
    difference, filled, lemma_index, lemma_partial_product_exceeds, lemma_product_at, power_unit, powers,
    product, quotient, scaled, plus_column, sum, sum_of, transposed, MatrixModel,
};
use crate::numeric::{checked_power, Numeric};

verus! {

/// Why a matrix operation could not produce a result.
#[derive(Debug, Clone, Copy, PartialEq, Eq, Structural)]
pub enum MatrixError {
    /// The operands' shapes do not fit the operation.
    DimensionMismatch,
    /// Some entry of the exact result does not fit in the element type.
    OutOfRange,
}

/// A dense matrix with its entries stored row by row.
#[derive(Clone, Debug)]
pub struct Matrix<T: Numeric> {
    pub rows: usize,
    pub cols: usize,
    pub data: Vec<T>,
}

impl<T: Numeric> View for Matrix<T> {
    type V = MatrixModel;

    open spec fn view(&self) -> MatrixModel {
        MatrixModel {
            rows: self.rows as nat,
            cols: self.cols as nat,
            data: self.data@.map_values(|v: T| v.value()),
        }
    }
}

impl<T: Numeric> Matrix<T> {
    /// The stored entries are exactly `rows * cols`.
    pub open spec fn wf(&self) -> bool {
        self.data@.len() == self.rows * self.cols
    }

    /// Every entry of a matrix lies in the element type's range.
    pub proof fn lemma_entries_in_range(&self)
        ensures
            self@.within(0, T::upper()),
    {
        assert forall|i: int| 0 <= i < self@.data.len() implies 0 <= #[trigger] self@.data[i] <= T::upper() by {
            self.data@[i].lemma_range();
        }
    }

    pub fn new(rows: usize, cols: usize, init_val: T) -> (r: Matrix<T>)
        requires
            rows * cols <= usize::MAX,
        ensures
            r.wf(),
            r@ == filled(rows as nat, cols as nat, init_val.value()),
    {
        let n: usize = rows * cols;
        let mut data: Vec<T> = Vec::new();
        let mut i: usize = 0;
        while i < n
            invariant
                i <= n,
                data@.len() == i,
                forall|k: int| 0 <= k < i ==> #[trigger] data@[k] == init_val,
            decreases n - i,
        {
            data.push(init_val);
            i = i + 1;
        }
        let r = Matrix { rows, cols, data };
        assert(r@.data =~= filled(rows as nat, cols as nat, init_val.value()).data);
        r
    }

    pub fn get(&self, row: usize, col: usize) -> (r: T)
        requires
            self.wf(),
            row < self.rows,
            col < self.cols,
        ensures
            r.value() == self@.at(row as int, col as int),
    {
        let n: usize = self.data.len();
        proof {
            lemma_index(self.rows as nat, self.cols as nat, row as int, col as int);
            lemma_mul_nonnegative(row as int, self.cols as int);
        }
        self.data[col + row * self.cols]
    }

    pub fn set(&mut self, row: usize, col: usize, value: T)
        requires
            old(self).wf(),
            row < old(self).rows,
            col < old(self).cols,
        ensures
            final(self).wf(),
            final(self)@ == (MatrixModel {
                data: old(self)@.data.update(col + row * old(self).cols, value.value()),
                ..old(self)@
            }),
    {
        let n: usize = self.data.len();
        proof {
            lemma_index(self.rows as nat, self.cols as nat, row as int, col as int);
            lemma_mul_nonnegative(row as int, self.cols as int);
        }
        let idx: usize = col + row * self.cols;
        self.data.set(idx, value);
        assert(self@.data =~= old(self)@.data.update(idx as int, value.value()));
    }

    /// Rows become columns: the entry at `(r, c)` moves to `(c, r)`.
    pub fn transpose(&self) -> (r: Matrix<T>)
        requires
            self.wf(),
        ensures
            r.wf(),
            r@ == transposed(self@),
    {
        let mut data: Vec<T> = Vec::new();
        let mut r: usize = 0;
        proof {
            lemma_mul_is_commutative(self.rows as int, self.cols as int);
        }
        while r < self.cols
            invariant
                self.wf(),
                r <= self.cols,
                data@.len() == r * self.rows,
                forall|x: int| 0 <= x < data@.len() ==> #[trigger] data@[x].value() == transposed(self@).data[x],
            decreases self.cols - r,
        {
            let mut c: usize = 0;
            while c < self.rows
                invariant
                    self.wf(),
                    r < self.cols,
                    c <= self.rows,
                    data@.len() == r * self.rows + c,
                    forall|x: int| 0 <= x < data@.len() ==> #[trigger] data@[x].value() == transposed(self@).data[x],
                decreases self.rows - c,
            {
                let v = self.get(c, r);
                proof {
                    lemma_index(self.cols as nat, self.rows as nat, r as int, c as int);
                    lemma_mul_is_commutative(self.rows as int, self.cols as int);
                }
                data.push(v);
                c = c + 1;
            }
            proof {
                lemma_mul_is_distributive_add_other_way(self.rows as int, r as int, 1);
            }
            r = r + 1;
        }
        let m = Matrix { rows: self.cols, cols: self.rows, data };
        proof {
            lemma_mul_is_commutative(self.rows as int, self.cols as int);
        }
        assert(m@.data =~= transposed(self@).data);
        m
    }

    /// Entry-by-entry sum.
    pub fn add(self, other: Matrix<T>) -> (r: Result<Matrix<T>, MatrixError>)
        requires
            self.wf(),
            other.wf(),
        ensures
            r matches Ok(m) ==> m.wf() && m@ == sum_of(self@, other@),
            r matches Err(MatrixError::DimensionMismatch) <==> !self@.same_shape(other@),
            r matches Err(MatrixError::OutOfRange) <==> self@.same_shape(other@) && !sum_of(
                self@,
                other@,
            ).within(0, T::upper()),
    {
        if self.rows != other.rows || self.cols != other.cols {
            return Err(MatrixError::DimensionMismatch);
        }
        let n: usize = self.data.len();
        let mut data: Vec<T> = Vec::new();
        let mut i: usize = 0;
        while i < n
            invariant
                self.wf(),
                other.wf(),
                self@.same_shape(other@),
                n == self.data@.len(),
                i <= n,
                data@.len() == i,
                forall|k: int| 0 <= k < i ==> #[trigger] data@[k].value() == sum_of(self@, other@).data[k],
            decreases n - i,
        {
            match self.data[i].try_add(other.data[i]) {
                Some(v) => data.push(v),
                None => {
                    assert(sum_of(self@, other@).data[i as int] > T::upper());
                    return Err(MatrixError::OutOfRange);
                },
            }
            i = i + 1;
        }
        let m = Matrix { rows: self.rows, cols: self.cols, data };
        assert(m@.data =~= sum_of(self@, other@).data);
        proof {
            m.lemma_entries_in_range();
        }
        Ok(m)
    }
    /// Entry-by-entry difference.
    pub fn sub(self, other: Matrix<T>) -> (r: Result<Matrix<T>, MatrixError>)
        requires
            self.wf(),
            other.wf(),
        ensures
            r matches Ok(m) ==> m.wf() && m@ == difference(self@, other@),
            r matches Err(MatrixError::DimensionMismatch) <==> !self@.same_shape(other@),
            r matches Err(MatrixError::OutOfRange) <==> self@.same_shape(other@) && !difference(
                self@,
                other@,
            ).within(0, T::upper()),
    {
        if self.rows != other.rows || self.cols != other.cols {
            return Err(MatrixError::DimensionMismatch);
        }
        let n: usize = self.data.len();
        let mut data: Vec<T> = Vec::new();
        let mut i: usize = 0;
        while i < n
            invariant
                self.wf(),
                other.wf(),
                self@.same_shape(other@),
                n == self.data@.len(),
                i <= n,
                data@.len() == i,
                forall|k: int| 0 <= k < i ==> #[trigger] data@[k].value() == difference(self@, other@).data[k],
            decreases n - i,
        {
            match self.data[i].try_sub(other.data[i]) {
                Some(v) => data.push(v),
                None => {
                    assert(difference(self@, other@).data[i as int] < 0);
                    return Err(MatrixError::OutOfRange);
                },
            }
            i = i + 1;
        }
        let m = Matrix { rows: self.rows, cols: self.cols, data };
        assert(m@.data =~= difference(self@, other@).data);
        proof {
            m.lemma_entries_in_range();
        }
        Ok(m)
    }

    /// Entry-by-entry quotient. Every divisor must be non-zero.
    pub fn div(self, other: Matrix<T>) -> (r: Result<Matrix<T>, MatrixError>)
        requires
            self.wf(),
            other.wf(),
            self@.same_shape(other@) ==> other@.nonzero(),
        ensures
            r matches Ok(m) ==> m.wf() && m@ == quotient(self@, other@),
            r is Ok <==> self@.same_shape(other@),
            r matches Err(e) ==> e == MatrixError::DimensionMismatch,
    {
        if self.rows != other.rows || self.cols != other.cols {
            return Err(MatrixError::DimensionMismatch);
        }
        let n: usize = self.data.len();
        let mut data: Vec<T> = Vec::new();
        let mut i: usize = 0;
        while i < n
            invariant
                self.wf(),
                other.wf(),
                self@.same_shape(other@),
                other@.nonzero(),
                n == self.data@.len(),
                i <= n,
                data@.len() == i,
                forall|k: int| 0 <= k < i ==> #[trigger] data@[k].value() == quotient(self@, other@).data[k],
            decreases n - i,
        {
            assert(other@.data[i as int] != 0);
            data.push(self.data[i].quotient(other.data[i]));
            i = i + 1;
        }
        let m = Matrix { rows: self.rows, cols: self.cols, data };
        assert(m@.data =~= quotient(self@, other@).data);
        Ok(m)
    }

    /// Raises every entry to the exponent `pow`.
    pub fn pow_unit(&mut self, pow: T) -> (r: Result<Matrix<T>, MatrixError>)
        requires
            old(self).wf(),
        ensures
            *final(self) == *old(self),
            r matches Ok(m) ==> m.wf() && m@ == power_unit(old(self)@, pow.value() as nat),
            r is Ok <==> power_unit(old(self)@, pow.value() as nat).within(0, T::upper()),
            r matches Err(e) ==> e == MatrixError::OutOfRange,
    {
        let n: usize = self.data.len();
        let mut data: Vec<T> = Vec::new();
        let mut i: usize = 0;
        while i < n
            invariant
                self.wf(),
                n == self.data@.len(),
                i <= n,
                data@.len() == i,
                forall|k: int| 0 <= k < i ==> #[trigger] data@[k].value() == power_unit(self@, pow.value() as nat).data[k],
            decreases n - i,
        {
            match checked_power(self.data[i], pow) {
                Some(v) => data.push(v),
                None => {
                    assert(power_unit(self@, pow.value() as nat).data[i as int] > T::upper());
                    return Err(MatrixError::OutOfRange);
                },
            }
            i = i + 1;
        }
        let m = Matrix { rows: self.rows, cols: self.cols, data };
        assert(m@.data =~= power_unit(self@, pow.value() as nat).data);
        proof {
            m.lemma_entries_in_range();
        }
        Ok(m)
    }

    /// Raises every entry to the matching entry of `other`.
    pub fn pow_matrix(&mut self, other: Matrix<T>) -> (r: Result<Matrix<T>, MatrixError>)
        requires
            old(self).wf(),
            other.wf(),
        ensures
            *final(self) == *old(self),
            r matches Ok(m) ==> m.wf() && m@ == powers(old(self)@, other@),
            r matches Err(MatrixError::DimensionMismatch) <==> !old(self)@.same_shape(other@),
            r matches Err(MatrixError::OutOfRange) <==> old(self)@.same_shape(other@) && !powers(
                old(self)@,
                other@,
            ).within(0, T::upper()),
    {
        if self.rows != other.rows || self.cols != other.cols {
            return Err(MatrixError::DimensionMismatch);
        }
        let n: usize = self.data.len();
        let mut data: Vec<T> = Vec::new();
        let mut i: usize = 0;
        while i < n
            invariant
                self.wf(),
                other.wf(),
                self@.same_shape(other@),
                n == self.data@.len(),
                i <= n,
                data@.len() == i,
                forall|k: int| 0 <= k < i ==> #[trigger] data@[k].value() == powers(self@, other@).data[k],
            decreases n - i,
        {
            match checked_power(self.data[i], other.data[i]) {
                Some(v) => data.push(v),
                None => {
                    assert(powers(self@, other@).data[i as int] > T::upper());
                    return Err(MatrixError::OutOfRange);
                },
            }
            i = i + 1;
        }
        let m = Matrix { rows: self.rows, cols: self.cols, data };
        assert(m@.data =~= powers(self@, other@).data);
        proof {
            m.lemma_entries_in_range();
        }
        Ok(m)
    }
    /// Matrix product: `self.cols` must equal `other.rows`; the result has
    /// `self.rows` rows and `other.cols` columns.
    pub fn mul(self, other: Matrix<T>) -> (r: Result<Matrix<T>, MatrixError>)
        requires
            self.wf(),
            other.wf(),
        ensures
            r matches Ok(m) ==> m.wf() && m@ == product(self@, other@),
            r matches Err(MatrixError::DimensionMismatch) <==> self.cols != other.rows,
            r matches Err(MatrixError::OutOfRange) <==> self.cols == other.rows && !product(
                self@,
                other@,
            ).within(0, T::upper()),
    {
        if self.cols != other.rows {
            return Err(MatrixError::DimensionMismatch);
        }
        proof {
            self.lemma_entries_in_range();
            other.lemma_entries_in_range();
        }
        let mut data: Vec<T> = Vec::new();
        let mut i: usize = 0;
        while i < self.rows
            invariant
                self.wf(),
                other.wf(),
                self.cols == other.rows,
                self@.within(0, T::upper()),
                other@.within(0, T::upper()),
                i <= self.rows,
                data@.len() == i * other.cols,
                forall|x: int| 0 <= x < data@.len() ==> #[trigger] data@[x].value() == product(self@, other@).data[x],
            decreases self.rows - i,
        {
            let mut j: usize = 0;
            while j < other.cols
                invariant
                    self.wf(),
                    other.wf(),
                    self.cols == other.rows,
                    self@.within(0, T::upper()),
                    other@.within(0, T::upper()),
                    i < self.rows,
                    j <= other.cols,
                    data@.len() == i * other.cols + j,
                    forall|x: int| 0 <= x < data@.len() ==> #[trigger] data@[x].value() == product(self@, other@).data[x],
                decreases other.cols - j,
            {
                let mut total: T = T::zero();
                let mut k: usize = 0;
                while k < self.cols
                    invariant
                        self.wf(),
                        other.wf(),
                        self.cols == other.rows,
                        self@.within(0, T::upper()),
                        other@.within(0, T::upper()),
                        i < self.rows,
                        j < other.cols,
                        k <= self.cols,
                        total.value() == sum(k as nat, |t: int| self@.at(i as int, t) * other@.at(t, j as int)),
                    decreases self.cols - k,
                {
                    let a = self.get(i, k);
                    let b = other.get(k, j);
                    match a.try_mul(b) {
                        Some(p) => match total.try_add(p) {
                            Some(t) => {
                                total = t;
                            },
                            None => {
                                proof {
                                    lemma_partial_product_exceeds(self@, other@, i as int, j as int, k as int, T::upper());
                                }
                                return Err(MatrixError::OutOfRange);
                            },
                        },
                        None => {
                            proof {
                                lemma_partial_product_exceeds(self@, other@, i as int, j as int, k as int, T::upper());
                            }
                            return Err(MatrixError::OutOfRange);
                        },
                    }
                    k = k + 1;
                }
                proof {
                    lemma_product_at(self@, other@, i as int, j as int);
                    lemma_mul_is_commutative(i as int, other.cols as int);
                }
                data.push(total);
                j = j + 1;
            }
            proof {
                lemma_mul_is_distributive_add_other_way(other.cols as int, i as int, 1);
            }
            i = i + 1;
        }
        let m = Matrix { rows: self.rows, cols: other.cols, data };
        assert(m@.data =~= product(self@, other@).data);
        proof {
            m.lemma_entries_in_range();
        }
        Ok(m)
    }
    /// An entry-for-entry copy.
    pub fn duplicate(&self) -> (r: Matrix<T>)
        requires
            self.wf(),
        ensures
            r.wf(),
            r@ == self@,
    {
        let n: usize = self.data.len();
        let mut data: Vec<T> = Vec::new();
        let mut i: usize = 0;
        while i < n
            invariant
                n == self.data@.len(),
                i <= n,
                data@.len() == i,
                forall|k: int| 0 <= k < i ==> #[trigger] data@[k] == self.data@[k],
            decreases n - i,
        {
            data.push(self.data[i]);
            i = i + 1;
        }
        let m = Matrix { rows: self.rows, cols: self.cols, data };
        assert(m.data@ =~= self.data@);
        m
    }

    /// Every entry multiplied by `k`.
    pub fn scale(&self, k: T) -> (r: Result<Matrix<T>, MatrixError>)
        requires
            self.wf(),
        ensures
            r matches Ok(m) ==> m.wf() && m@ == scaled(self@, k.value()),
            r is Ok <==> scaled(self@, k.value()).within(0, T::upper()),
            r matches Err(e) ==> e == MatrixError::OutOfRange,
    {
        let n: usize = self.data.len();
        let mut data: Vec<T> = Vec::new();
        let mut i: usize = 0;
        while i < n
            invariant
                self.wf(),
                n == self.data@.len(),
                i <= n,
                data@.len() == i,
                forall|j: int| 0 <= j < i ==> #[trigger] data@[j].value() == scaled(self@, k.value()).data[j],
            decreases n - i,
        {
            match k.try_mul(self.data[i]) {
                Some(v) => data.push(v),
                None => {
                    assert(scaled(self@, k.value()).data[i as int] > T::upper());
                    return Err(MatrixError::OutOfRange);
                },
            }
            i = i + 1;
        }
        let m = Matrix { rows: self.rows, cols: self.cols, data };
        assert(m@.data =~= scaled(self@, k.value()).data);
        proof {
            m.lemma_entries_in_range();
        }
        Ok(m)
    }

    /// Adds the single column `column` to every column of `self`.
    pub fn add_column(&self, column: &Matrix<T>) -> (r: Result<Matrix<T>, MatrixError>)
        requires
            self.wf(),
            column.wf(),
        ensures
            r matches Ok(m) ==> m.wf() && m@ == plus_column(self@, column@),
            r matches Err(MatrixError::DimensionMismatch) <==> !(column.rows == self.rows && column.cols
                == 1),
            r matches Err(MatrixError::OutOfRange) <==> column.rows == self.rows && column.cols == 1
                && !plus_column(self@, column@).within(0, T::upper()),
    {
        if column.rows != self.rows || column.cols != 1 {
            return Err(MatrixError::DimensionMismatch);
        }
        let mut data: Vec<T> = Vec::new();
        let mut r: usize = 0;
        while r < self.rows
            invariant
                self.wf(),
                column.wf(),
                column.rows == self.rows,
                column.cols == 1,
                r <= self.rows,
                data@.len() == r * self.cols,
                forall|x: int| 0 <= x < data@.len() ==> #[trigger] data@[x].value() == plus_column(self@, column@).data[x],
            decreases self.rows - r,
        {
            let mut c: usize = 0;
            while c < self.cols
                invariant
                    self.wf(),
                    column.wf(),
                    column.rows == self.rows,
                    column.cols == 1,
                    r < self.rows,
                    c <= self.cols,
                    data@.len() == r * self.cols + c,
                    forall|x: int| 0 <= x < data@.len() ==> #[trigger] data@[x].value() == plus_column(self@, column@).data[x],
                decreases self.cols - c,
            {
                let a = self.get(r, c);
                let b = column.get(r, 0);
                proof {
                    lemma_index(self.rows as nat, self.cols as nat, r as int, c as int);
                    lemma_mul_is_commutative(r as int, self.cols as int);
                }
                match a.try_add(b) {
                    Some(v) => data.push(v),
                    None => {
                        assert(plus_column(self@, column@).data[c + r * self.cols] > T::upper());
                        return Err(MatrixError::OutOfRange);
                    },
                }
                c = c + 1;
            }
            proof {
                lemma_mul_is_distributive_add_other_way(self.cols as int, r as int, 1);
            }
            r = r + 1;
        }
        let m = Matrix { rows: self.rows, cols: self.cols, data };
        assert(m@.data =~= plus_column(self@, column@).data);
        proof {
            m.lemma_entries_in_range();
        }
        Ok(m)
    }
}

} // verus!
