//! Elementary row operations: scaling a row by a scalar, and adding a scaled
//! row to another row. These are the primitives that elimination composes.

use vstd::prelude::*;
use vstd::pervasive::VecAdditionalExecFns;
use crate::matrix::Mat2;

verus! {

impl Mat2 {
    /// Multiply every element of row `i` by `a`, in place. The index must be
    /// in range, and every product must fit in the element type.
    pub fn scale_row(&mut self, i: usize, a: i64)
        requires
            old(self).wf(),
            i < old(self).rows(),
            forall|c: int|
                0 <= c < old(self).cols() ==> i64::MIN <= (#[trigger] old(self)@[i as int][c]) * a
                    <= i64::MAX,
        ensures
            final(self).wf(),
            final(self).rows() == old(self).rows(),
            final(self).cols() == old(self).cols(),
            forall|r: int| 0 <= r < old(self).rows() && r != i ==> final(self)@[r] == old(self)@[r],
            final(self)@[i as int].len() == old(self).cols(),
            forall|c: int|
                0 <= c < old(self).cols() ==> final(self)@[i as int][c] == (#[trigger] old(
                    self,
                )@[i as int][c]) * a,
    {
        let cols = self.m;
        let mut row: Vec<i64> = Vec::new();
        self.data.set_and_swap(i, &mut row);
        proof {
            assert(row@ == old(self)@[i as int]);
            assert(old(self)@[i as int].len() == old(self).cols());
        }
        let mut c: usize = 0;
        while c < cols
            invariant
                i < old(self).rows(),
                cols == old(self).cols(),
                row@.len() == cols,
                self.n == old(self).n,
                self.m == old(self).m,
                self@.len() == old(self)@.len(),
                forall|p: int| 0 <= p < self@.len() && p != i ==> self@[p] == old(self)@[p],
                c <= cols,
                forall|q: int| 0 <= q < c ==> row@[q] == (#[trigger] old(self)@[i as int][q]) * a,
                forall|q: int| c <= q < cols ==> row@[q] == old(self)@[i as int][q],
                forall|q: int|
                    0 <= q < cols ==> i64::MIN <= (#[trigger] old(self)@[i as int][q]) * a
                        <= i64::MAX,
            decreases cols - c,
        {
            let v = row[c];
            row.set(c, v * a);
            c += 1;
        }
        self.data.set(i, row);
        proof {
            assert forall|r: int| 0 <= r < old(self).rows() && r != i implies self@[r] == old(
                self,
            )@[r] by {}
        }
    }

    /// For each column, set `target[col] = source[col] * a + target[col]`,
    /// where `i` names the source row and `j` the target row, in place. Both
    /// indices must be in range, and every `source * a + target` value must
    /// fit in the element type.
    pub fn add_scaled(&mut self, i: usize, j: usize, a: i64)
        requires
            old(self).wf(),
            i < old(self).rows(),
            j < old(self).rows(),
            forall|c: int|
                0 <= c < old(self).cols() ==> i64::MIN <= (#[trigger] old(self)@[i as int][c]) * a
                    + old(self)@[j as int][c] <= i64::MAX,
        ensures
            final(self).wf(),
            final(self).rows() == old(self).rows(),
            final(self).cols() == old(self).cols(),
            forall|r: int| 0 <= r < old(self).rows() && r != j ==> final(self)@[r] == old(self)@[r],
            final(self)@[j as int].len() == old(self).cols(),
            forall|c: int|
                0 <= c < old(self).cols() ==> final(self)@[j as int][c] == (#[trigger] old(
                    self,
                )@[i as int][c]) * a + old(self)@[j as int][c],
    {
        let cols = self.m;
        let mut row: Vec<i64> = Vec::new();
        let mut c: usize = 0;
        while c < cols
            invariant
                self.wf(),
                *self == *old(self),
                i < self.rows(),
                j < self.rows(),
                cols == self.cols(),
                forall|q: int|
                    0 <= q < cols ==> i64::MIN <= (#[trigger] self@[i as int][q]) * a
                        + self@[j as int][q] <= i64::MAX,
                c <= cols,
                row@.len() == c,
                forall|q: int|
                    0 <= q < c ==> row@[q] == (#[trigger] self@[i as int][q]) * a
                        + self@[j as int][q],
            decreases cols - c,
        {
            let src = self.get(i, c);
            let tgt = self.get(j, c);
            proof {
                assert(-0x40000000000000000000000000000000 <= (src as int) * (a as int)
                    <= 0x40000000000000000000000000000000) by (nonlinear_arith)
                    requires
                        -0x8000000000000000 <= src as int <= 0x7fffffffffffffff,
                        -0x8000000000000000 <= a as int <= 0x7fffffffffffffff,
                ;
            }
            let sum_wide: i128 = (src as i128) * (a as i128) + (tgt as i128);
            let val: i64 = sum_wide as i64;
            row.push(val);
            c += 1;
        }
        self.set_row(j, row);
    }
}

} // verus!
