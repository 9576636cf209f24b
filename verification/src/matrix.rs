//! The matrix store: rectangular element storage, its invariant, construction
//! and shape queries, element and row access, and structural mutation.

use vstd::prelude::*;
use vstd::pervasive::VecAdditionalExecFns;

verus! {

/// A dense two-dimensional matrix of `i64` elements.
///
/// Invariant (`wf`): `data` holds exactly `n` rows, each of length exactly
/// `m`. Every operation that succeeds preserves it; operations that reject a
/// mutation leave the matrix untouched.
#[derive(Debug, Clone)]
pub struct Mat2 {
    pub data: Vec<Vec<i64>>,
    /// Number of rows
    pub n: usize,
    /// Number of columns
    pub m: usize,
}

impl View for Mat2 {
    type V = Seq<Seq<i64>>;

    open spec fn view(&self) -> Seq<Seq<i64>> {
        Seq::new(self.data@.len(), |i: int| self.data@[i]@)
    }
}

impl PartialEq for Mat2 {
    /// Matrices are equal when their element storage is equal, element by
    /// element; the recorded dimension counts are not consulted.
    fn eq(&self, other: &Mat2) -> (r: bool) {
        if self.data.len() != other.data.len() {
            return false;
        }
        let mut i: usize = 0;
        while i < self.data.len()
            invariant
                i <= self.data@.len(),
                self.data@.len() == other.data@.len(),
                forall|p: int| 0 <= p < i ==> self@[p] == other@[p],
            decreases self.data@.len() - i,
        {
            if self.data[i].len() != other.data[i].len() {
                proof {
                    assert(self@[i as int].len() != other@[i as int].len());
                }
                return false;
            }
            let mut j: usize = 0;
            while j < self.data[i].len()
                invariant
                    i < self.data@.len(),
                    self.data@.len() == other.data@.len(),
                    j <= self.data@[i as int]@.len(),
                    self.data@[i as int]@.len() == other.data@[i as int]@.len(),
                    forall|q: int| 0 <= q < j ==> self@[i as int][q] == other@[i as int][q],
                decreases self.data@[i as int]@.len() - j,
            {
                if self.data[i][j] != other.data[i][j] {
                    proof {
                        assert(self@[i as int][j as int] != other@[i as int][j as int]);
                    }
                    return false;
                }
                j += 1;
            }
            proof {
                assert(self@[i as int] =~= other@[i as int]);
            }
            i += 1;
        }
        proof {
            assert(self@ =~~= other@);
        }
        true
    }
}

impl vstd::std_specs::cmp::PartialEqSpecImpl for Mat2 {
    open spec fn obeys_eq_spec() -> bool {
        true
    }

    open spec fn eq_spec(&self, other: &Mat2) -> bool {
        self@ == other@
    }
}

impl Mat2 {
    /// Number of rows, as the matrix reports it.
    pub open spec fn rows(&self) -> int {
        self.n as int
    }

    /// Number of columns, as the matrix reports it.
    pub open spec fn cols(&self) -> int {
        self.m as int
    }

    /// Well-formedness: the storage is rectangular and the recorded counts
    /// match its actual shape.
    pub open spec fn wf(&self) -> bool {
        &&& self@.len() == self.rows()
        &&& forall|i: int| 0 <= i < self@.len() ==> (#[trigger] self@[i]).len() == self.cols()
    }

    /// Create an `n` x `m` matrix with every element zero.
    pub fn new(n: usize, m: usize) -> (r: Mat2)
        ensures
            r.wf(),
            r.rows() == n,
            r.cols() == m,
            forall|i: int, j: int| 0 <= i < n && 0 <= j < m ==> r@[i][j] == 0,
    {
        let mut data: Vec<Vec<i64>> = Vec::new();
        let mut i: usize = 0;
        while i < n
            invariant
                i <= n,
                data@.len() == i,
                forall|p: int| 0 <= p < i ==> (#[trigger] data@[p])@.len() == m,
                forall|p: int, q: int| 0 <= p < i && 0 <= q < m ==> data@[p]@[q] == 0,
            decreases n - i,
        {
            let mut row: Vec<i64> = Vec::new();
            let mut j: usize = 0;
            while j < m
                invariant
                    j <= m,
                    row@.len() == j,
                    forall|q: int| 0 <= q < j ==> row@[q] == 0,
                decreases m - j,
            {
                row.push(0);
                j += 1;
            }
            data.push(row);
            i += 1;
        }
        Mat2 { data, n, m }
    }

    /// Create an `n` x `m` matrix, using `f` to produce the element at each
    /// (row, column) coordinate.
    pub fn new_with<F: Fn(usize, usize) -> i64>(n: usize, m: usize, f: F) -> (r: Mat2)
        requires
            forall|i: usize, j: usize| i < n && j < m ==> #[trigger] call_requires(f, (i, j)),
        ensures
            r.wf(),
            r.rows() == n,
            r.cols() == m,
            forall|i: usize, j: usize|
                i < n && j < m ==> #[trigger] call_ensures(f, (i, j), r@[i as int][j as int]),
    {
        let mut data: Vec<Vec<i64>> = Vec::new();
        let mut i: usize = 0;
        while i < n
            invariant
                i <= n,
                data@.len() == i,
                forall|i2: usize, j2: usize| i2 < n && j2 < m ==> #[trigger] call_requires(
                    f,
                    (i2, j2),
                ),
                forall|p: int| 0 <= p < i ==> (#[trigger] data@[p])@.len() == m,
                forall|p: usize, q: usize|
                    p < i && q < m ==> #[trigger] call_ensures(f, (p, q), data@[p as int]@[q as int]),
            decreases n - i,
        {
            let mut row: Vec<i64> = Vec::new();
            let mut j: usize = 0;
            while j < m
                invariant
                    i < n,
                    j <= m,
                    row@.len() == j,
                    forall|i2: usize, j2: usize| i2 < n && j2 < m ==> #[trigger] call_requires(
                        f,
                        (i2, j2),
                    ),
                    forall|q: usize| q < j ==> #[trigger] call_ensures(f, (i, q), row@[q as int]),
                decreases m - j,
            {
                let v = f(i, j);
                row.push(v);
                j += 1;
            }
            data.push(row);
            i += 1;
        }
        Mat2 { data, n, m }
    }

    /// Create a matrix from a nested vector. Returns `None` if the outer
    /// vector is empty or the inner vectors do not all have the same length.
    pub fn from_vec(v: Vec<Vec<i64>>) -> (r: Option<Mat2>)
        ensures
            match r {
                Some(mat) => {
                    &&& mat.wf()
                    &&& v@.len() > 0
                    &&& forall|i: int|
                        0 <= i < v@.len() ==> (#[trigger] v@[i])@.len() == v@[0]@.len()
                    &&& mat.rows() == v@.len()
                    &&& mat.cols() == v@[0]@.len()
                    &&& forall|i: int| 0 <= i < v@.len() ==> mat@[i] == (#[trigger] v@[i])@
                },
                None => v@.len() == 0 || exists|i: int|
                    0 <= i < v@.len() && (#[trigger] v@[i])@.len() != v@[0]@.len(),
            },
    {
        let n = v.len();
        if n == 0 {
            return None;
        }
        let l = v[0].len();
        let mut i: usize = 1;
        while i < n
            invariant
                1 <= i <= n,
                n == v@.len(),
                l == v@[0]@.len(),
                forall|p: int| 0 <= p < i ==> (#[trigger] v@[p])@.len() == l,
            decreases n - i,
        {
            if v[i].len() != l {
                return None;
            }
            i += 1;
        }
        Some(Mat2 { data: v, n, m: l })
    }

    /// Return the dimensions of the matrix as `(columns, rows)` — column
    /// count first, intentionally in that order.
    pub fn get_dimension(&self) -> (r: (usize, usize))
        ensures
            r.0 == self.cols(),
            r.1 == self.rows(),
    {
        (self.m, self.n)
    }

    /// The element at row `i`, column `j`. Both indices must be in range.
    pub fn get(&self, i: usize, j: usize) -> (r: i64)
        requires
            self.wf(),
            i < self.rows(),
            j < self.cols(),
        ensures
            r == self@[i as int][j as int],
    {
        proof {
            assert(self.data@[i as int]@ == self@[i as int]);
        }
        self.data[i][j]
    }

    /// The element at row `i`, column `j`, or `None` when either index is
    /// out of range.
    pub fn get_opt(&self, i: usize, j: usize) -> (r: Option<i64>)
        requires
            self.wf(),
        ensures
            r == if i < self.rows() && j < self.cols() {
                Some(self@[i as int][j as int])
            } else {
                None::<i64>
            },
    {
        if i < self.n && j < self.m {
            proof {
                assert(self.data@[i as int]@ == self@[i as int]);
            }
            Some(self.data[i][j])
        } else {
            None
        }
    }

    /// Borrow row `i`. The index must be in range.
    pub fn get_row(&self, i: usize) -> (r: &Vec<i64>)
        requires
            self.wf(),
            i < self.rows(),
        ensures
            r@ == self@[i as int],
    {
        &self.data[i]
    }

    /// Borrow row `i`, or `None` when `i` is out of range.
    pub fn get_row_opt(&self, i: usize) -> (r: Option<&Vec<i64>>)
        requires
            self.wf(),
        ensures
            match r {
                Some(row) => i < self.rows() && row@ == self@[i as int],
                None => i >= self.rows(),
            },
    {
        if i < self.n {
            Some(&self.data[i])
        } else {
            None
        }
    }

    /// Exchange rows `i` and `j` in place. Both indices must be in range.
    pub fn swap_rows(&mut self, i: usize, j: usize)
        requires
            old(self).wf(),
            i < old(self).rows(),
            j < old(self).rows(),
        ensures
            final(self).wf(),
            final(self).rows() == old(self).rows(),
            final(self).cols() == old(self).cols(),
            final(self)@ == old(self)@.update(i as int, old(self)@[j as int]).update(
                j as int,
                old(self)@[i as int],
            ),
    {
        if i != j {
            let mut tmp: Vec<i64> = Vec::new();
            self.data.set_and_swap(i, &mut tmp);
            self.data.set_and_swap(j, &mut tmp);
            self.data.set_and_swap(i, &mut tmp);
        }
        proof {
            assert(self@ =~~= old(self)@.update(i as int, old(self)@[j as int]).update(
                j as int,
                old(self)@[i as int],
            ));
        }
    }

    /// Replace row `i` with `r`. The index must be in range and `r` must
    /// have exactly `cols` elements, so the matrix stays rectangular.
    pub fn set_row(&mut self, i: usize, r: Vec<i64>)
        requires
            old(self).wf(),
            i < old(self).rows(),
            r@.len() == old(self).cols(),
        ensures
            final(self).wf(),
            final(self).rows() == old(self).rows(),
            final(self).cols() == old(self).cols(),
            final(self)@ == old(self)@.update(i as int, r@),
    {
        self.data.set(i, r);
        proof {
            assert(self@ =~~= old(self)@.update(i as int, r@));
        }
    }

    /// Append one row at the bottom. Succeeds exactly when `row` has `cols`
    /// elements; on a length mismatch the matrix is left untouched.
    pub fn append_row(&mut self, row: Vec<i64>) -> (ok: bool)
        requires
            old(self).wf(),
        ensures
            final(self).wf(),
            ok == (row@.len() == old(self).cols()),
            ok ==> {
                &&& final(self).rows() == old(self).rows() + 1
                &&& final(self).cols() == old(self).cols()
                &&& final(self)@ == old(self)@.push(row@)
            },
            !ok ==> *final(self) == *old(self),
    {
        let ghost row_snap = row@;
        if row.len() != self.m {
            return false;
        }
        self.data.push(row);
        self.n = self.data.len();
        proof {
            assert(self@ =~~= old(self)@.push(row_snap));
        }
        true
    }

    /// Append one column at the right: one element per row, in row order.
    /// Succeeds exactly when `column` has `rows` elements; on a length
    /// mismatch the matrix is left untouched.
    pub fn append_column(&mut self, column: Vec<i64>) -> (ok: bool)
        requires
            old(self).wf(),
            old(self).cols() < usize::MAX,
        ensures
            final(self).wf(),
            ok == (column@.len() == old(self).rows()),
            ok ==> {
                &&& final(self).rows() == old(self).rows()
                &&& final(self).cols() == old(self).cols() + 1
                &&& forall|i: int|
                    0 <= i < old(self).rows() ==> final(self)@[i] == (#[trigger] old(
                        self,
                    )@[i]).push(column@[i])
            },
            !ok ==> *final(self) == *old(self),
    {
        if column.len() != self.n {
            return false;
        }
        let mut idx: usize = 0;
        while idx < self.n
            invariant
                self.n == old(self).n,
                self.m == old(self).m,
                old(self).wf(),
                column@.len() == self.n,
                idx <= self.n,
                self@.len() == old(self)@.len(),
                forall|p: int|
                    0 <= p < idx ==> self@[p] == (#[trigger] old(self)@[p]).push(column@[p]),
                forall|p: int| idx <= p < self@.len() ==> self@[p] == old(self)@[p],
            decreases self.n - idx,
        {
            let v = column[idx];
            self.data[idx].push(v);
            idx += 1;
        }
        self.m = self.m + 1;
        proof {
            assert forall|i: int| 0 <= i < self@.len() implies (#[trigger] self@[i]).len()
                == self.cols() by {
                assert(self@[i] == old(self)@[i].push(column@[i]));
                assert(old(self)@[i].len() == old(self).cols());
            }
        }
        true
    }

    /// Append every column of `other` to this matrix, row-wise, consuming
    /// `other`. Succeeds exactly when the row counts match; on a mismatch the
    /// matrix is left untouched.
    pub fn augment(&mut self, other: Mat2) -> (ok: bool)
        requires
            old(self).wf(),
            other.wf(),
            old(self).cols() + other.cols() <= usize::MAX,
        ensures
            final(self).wf(),
            ok == (other.rows() == old(self).rows()),
            ok ==> {
                &&& final(self).rows() == old(self).rows()
                &&& final(self).cols() == old(self).cols() + other.cols()
                &&& forall|i: int|
                    0 <= i < old(self).rows() ==> final(self)@[i] == (#[trigger] old(self)@[i])
                        + other@[i]
            },
            !ok ==> *final(self) == *old(self),
    {
        if other.n != self.n {
            return false;
        }
        let mut o = other;
        let mut idx: usize = 0;
        while idx < self.n
            invariant
                self.n == old(self).n,
                self.m == old(self).m,
                old(self).wf(),
                other.wf(),
                other.rows() == self.n,
                o.m == other.m,
                idx <= self.n,
                o@.len() == other@.len(),
                self@.len() == old(self)@.len(),
                forall|p: int| idx <= p < o@.len() ==> o@[p] == other@[p],
                forall|p: int|
                    0 <= p < idx ==> self@[p] == (#[trigger] old(self)@[p]) + other@[p],
                forall|p: int| idx <= p < self@.len() ==> self@[p] == old(self)@[p],
            decreases self.n - idx,
        {
            let mut row: Vec<i64> = Vec::new();
            o.data.set_and_swap(idx, &mut row);
            self.data[idx].append(&mut row);
            idx += 1;
        }
        self.m = self.m + o.m;
        proof {
            assert forall|i: int| 0 <= i < self@.len() implies (#[trigger] self@[i]).len()
                == self.cols() by {
                assert(self@[i] == old(self)@[i] + other@[i]);
                assert(old(self)@[i].len() == old(self).cols());
                assert(other@[i].len() == other.cols());
            }
        }
        true
    }
}

} // verus!
