//! Reduced row-echelon form: the defining predicate, a validator proved
//! equivalent to it, and Gauss-Jordan reduction.

use vstd::prelude::*;
use crate::matrix::Mat2;

verus! {

/// Every entry of `row` is zero.
pub open spec fn row_is_zero(row: Seq<i64>) -> bool {
    forall|k: int| 0 <= k < row.len() ==> row[k] == 0
}

/// `l` is the position of the leading entry of `row`: the leftmost nonzero
/// entry. A row has at most one such position.
pub open spec fn is_lead(row: Seq<i64>, l: int) -> bool {
    &&& 0 <= l < row.len()
    &&& row[l] != 0
    &&& forall|k: int| 0 <= k < l ==> row[k] == 0
}

/// The four defining properties of reduced row-echelon form:
/// every all-zero row lies below every nonzero row; the leading entry of
/// each nonzero row is one; leading entries occur in strictly increasing
/// columns from top to bottom; and the column of a leading entry is zero in
/// every other row.
pub open spec fn is_rref_spec(m: Seq<Seq<i64>>) -> bool {
    &&& forall|i: int, j: int|
        0 <= i < j < m.len() && #[trigger] row_is_zero(m[i]) ==> #[trigger] row_is_zero(m[j])
    &&& forall|i: int, l: int| 0 <= i < m.len() && #[trigger] is_lead(m[i], l) ==> m[i][l] == 1
    &&& forall|i: int, j: int, li: int, lj: int|
        0 <= i < j < m.len() && #[trigger] is_lead(m[i], li) && #[trigger] is_lead(m[j], lj)
            ==> li < lj
    &&& forall|i: int, l: int, k: int|
        #![trigger is_lead(m[i], l), m[k][l]]
        0 <= i < m.len() && is_lead(m[i], l) && 0 <= k < m.len() && k != i ==> m[k][l] == 0
}

/// Every entry of column `c` is zero.
pub open spec fn col_is_zero(m: Seq<Seq<i64>>, c: int) -> bool {
    forall|k: int| 0 <= k < m.len() ==> #[trigger] m[k][c] == 0
}

/// A row with a nonzero entry at or below position `c` has a leading entry.
proof fn lemma_lead_exists(row: Seq<i64>, c: int)
    requires
        0 <= c < row.len(),
        row[c] != 0,
    ensures
        exists|l: int| is_lead(row, l),
    decreases c,
{
    if forall|k: int| 0 <= k < c ==> row[k] == 0 {
        assert(is_lead(row, c));
    } else {
        let k = choose|k: int| 0 <= k < c && row[k] != 0;
        lemma_lead_exists(row, k);
    }
}

impl Mat2 {
    /// Divide every element of row `r` by `p`, in place, rounding quotients
    /// toward zero. Entries equal to `p` become one and zero entries stay
    /// zero, which is all that elimination relies on.
    #[verifier::loop_isolation(false)]
    fn div_row(&mut self, r: usize, p: i64)
        requires
            old(self).wf(),
            r < old(self).rows(),
            p != 0,
        ensures
            final(self).wf(),
            final(self).rows() == old(self).rows(),
            final(self).cols() == old(self).cols(),
            forall|k: int| 0 <= k < old(self).rows() && k != r ==> final(self)@[k] == old(self)@[k],
            forall|c: int|
                0 <= c < old(self).cols() && old(self)@[r as int][c] == 0 ==> final(self)@[r as int][c] == 0,
            forall|c: int|
                0 <= c < old(self).cols() && old(self)@[r as int][c] == p ==> final(self)@[r as int][c] == 1,
            p == 1 ==> final(self)@[r as int] == old(self)@[r as int],
    {
        let cols = self.m;
        let mut row: Vec<i64> = Vec::new();
        self.data.set_and_swap(r, &mut row);
        proof {
            assert(row@ == old(self)@[r as int]);
            assert(old(self)@[r as int].len() == old(self).cols());
        }
        let mut c: usize = 0;
        while c < cols
            invariant
                c <= cols,
                row@.len() == cols,
                forall|q: int|
                    0 <= q < c && old(self)@[r as int][q] == 0 ==> #[trigger] row@[q] == 0,
                forall|q: int|
                    0 <= q < c && old(self)@[r as int][q] == p ==> #[trigger] row@[q] == 1,
                p == 1 ==> forall|q: int| 0 <= q < c ==> #[trigger] row@[q] == old(
                    self,
                )@[r as int][q],
                forall|q: int| c <= q < cols ==> #[trigger] row@[q] == old(self)@[r as int][q],
            decreases cols - c,
        {
            let e = row[c];
            let q: i64 = if p == 1 {
                e
            } else if e == 0 {
                0
            } else if e == p {
                1
            } else {
                let wide: i128 = (e as i128) / (p as i128);
                #[verifier::truncate] (wide as i64)
            };
            row.set(c, q);
            c += 1;
        }
        self.data.set(r, row);
        proof {
            assert forall|k: int| 0 <= k < old(self).rows() && k != r implies self@[k] == old(
                self,
            )@[k] by {}
            if p == 1 {
                assert(self@[r as int] =~= old(self)@[r as int]);
            }
        }
    }

    /// Subtract from row `k` its entry in column `j` times row `r`, in
    /// place, wrapping on overflow. When row `r` holds one in column `j`
    /// this drives the entry of row `k` in column `j` to zero, and columns
    /// where row `r` is zero are left untouched.
    #[verifier::loop_isolation(false)]
    fn elim_row(&mut self, k: usize, r: usize, j: usize)
        requires
            old(self).wf(),
            k < old(self).rows(),
            r < old(self).rows(),
            k != r,
            j < old(self).cols(),
        ensures
            final(self).wf(),
            final(self).rows() == old(self).rows(),
            final(self).cols() == old(self).cols(),
            forall|t: int| 0 <= t < old(self).rows() && t != k ==> final(self)@[t] == old(self)@[t],
            forall|c: int|
                0 <= c < old(self).cols() && old(self)@[r as int][c] == 0 ==> final(self)@[k as int][c] == old(self)@[k as int][c],
            old(self)@[r as int][j as int] == 1 ==> final(self)@[k as int][j as int] == 0,
            old(self)@[k as int][j as int] == 0 ==> final(self)@[k as int] == old(
                self,
            )@[k as int],
    {
        let cols = self.m;
        let e = self.get(k, j);
        let mut row: Vec<i64> = Vec::new();
        let mut c: usize = 0;
        while c < cols
            invariant
                c <= cols,
                row@.len() == c,
                *self == *old(self),
                forall|q: int|
                    0 <= q < c && old(self)@[r as int][q] == 0 ==> #[trigger] row@[q] == old(
                        self,
                    )@[k as int][q],
                old(self)@[r as int][j as int] == 1 && j < c ==> row@[j as int] == 0,
                e == old(self)@[k as int][j as int],
                e == 0 ==> forall|q: int| 0 <= q < c ==> #[trigger] row@[q] == old(
                    self,
                )@[k as int][q],
            decreases cols - c,
        {
            let s = self.get(r, c);
            let t = self.get(k, c);
            proof {
                assert(-0x40000000000000000000000000000000 <= (e as int) * (s as int)
                    <= 0x40000000000000000000000000000000) by (nonlinear_arith)
                    requires
                        -0x8000000000000000 <= e as int <= 0x7fffffffffffffff,
                        -0x8000000000000000 <= s as int <= 0x7fffffffffffffff,
                ;
            }
            let wide: i128 = (t as i128) - (e as i128) * (s as i128);
            let val: i64 = #[verifier::truncate] (wide as i64);
            proof {
                if s == 0 {
                    assert((e as int) * (s as int) == 0) by (nonlinear_arith)
                        requires
                            s as int == 0,
                    ;
                    assert(wide == t);
                }
                if c == j && old(self)@[r as int][j as int] == 1 {
                    assert((e as int) * (s as int) == e as int) by (nonlinear_arith)
                        requires
                            s as int == 1,
                    ;
                    assert(wide == 0);
                }
                if e == 0 {
                    assert((e as int) * (s as int) == 0) by (nonlinear_arith)
                        requires
                            e as int == 0,
                    ;
                    assert(wide == t);
                }
            }
            row.push(val);
            c += 1;
        }
        self.set_row(k, row);
        proof {
            if old(self)@[k as int][j as int] == 0 {
                assert(self@[k as int] =~= old(self)@[k as int]);
            }
        }
    }

    /// Transform the matrix in place into reduced row-echelon form by
    /// Gauss-Jordan elimination: one left-to-right pass over the columns,
    /// keeping a pivot-row counter; each column with a nonzero entry at or
    /// below the counter has such a row swapped up, divided by its pivot
    /// entry, and its pivot column cleared in every other row.
    #[verifier::loop_isolation(false)]
    pub fn reduce(&mut self)
        requires
            old(self).wf(),
        ensures
            final(self).wf(),
            final(self).rows() == old(self).rows(),
            final(self).cols() == old(self).cols(),
            is_rref_spec(final(self)@),
            is_rref_spec(old(self)@) ==> final(self)@ == old(self)@,
            forall|c: int|
                0 <= c < old(self).cols() && #[trigger] col_is_zero(old(self)@, c)
                    ==> col_is_zero(final(self)@, c),
    {
        let nrows = self.n;
        let ncols = self.m;
        let mut r: usize = 0;
        let ghost mut leads: Seq<int> = Seq::empty();
        let mut j: usize = 0;
        while j < ncols
            invariant
                self.wf(),
                self.rows() == nrows,
                self.cols() == ncols,
                j <= ncols,
                r <= nrows,
                leads.len() == r,
                forall|t: int| 0 <= t < r ==> 0 <= #[trigger] leads[t] < j,
                forall|t1: int, t2: int| 0 <= t1 < t2 < r ==> leads[t1] < leads[t2],
                forall|t: int| 0 <= t < r ==> self@[t][#[trigger] leads[t]] == 1,
                forall|t: int, k: int|
                    #![trigger leads[t], self@[k]]
                    0 <= t < r && 0 <= k < nrows && k != t ==> self@[k][leads[t]] == 0,
                forall|t: int, c: int|
                    0 <= t < r && 0 <= c < leads[t] ==> #[trigger] self@[t][c] == 0,
                forall|k: int, c: int|
                    r <= k < nrows && 0 <= c < j ==> #[trigger] self@[k][c] == 0,
                is_rref_spec(old(self)@) ==> self@ == old(self)@,
                forall|c: int|
                    0 <= c < ncols && #[trigger] col_is_zero(old(self)@, c) ==> col_is_zero(
                        self@,
                        c,
                    ),
            decreases ncols - j,
        {
            let mut p: usize = r;
            let mut found = false;
            while !found && p < nrows
                invariant
                    r <= p <= nrows,
                    forall|k: int| r <= k < p ==> self@[k][j as int] == 0,
                    found ==> p < nrows && self@[p as int][j as int] != 0,
                decreases nrows - p + (if found {
                    0int
                } else {
                    1int
                }),
            {
                if self.get(p, j) != 0 {
                    found = true;
                } else {
                    p += 1;
                }
            }
            if !found {
                // free column: zero in every row at or below the counter
                j += 1;
            } else {
                proof {
                    // on a matrix already in reduced form the pivot sits at
                    // the counter row and already equals one, so the pass
                    // below changes nothing
                    if is_rref_spec(old(self)@) {
                        if p > r {
                            assert(is_lead(self@[p as int], j as int));
                            if row_is_zero(self@[r as int]) {
                                assert(row_is_zero(self@[p as int]));
                                assert(self@[p as int][j as int] == 0);
                            } else {
                                let c0 = choose|c: int|
                                    0 <= c < self@[r as int].len() && self@[r as int][c] != 0;
                                lemma_lead_exists(self@[r as int], c0);
                                let lr = choose|l: int| is_lead(self@[r as int], l);
                                assert(is_lead(self@[r as int], lr));
                                assert(self@[r as int][j as int] == 0);
                                assert(lr > j);
                            }
                            assert(false);
                        }
                        assert(p == r);
                        assert(is_lead(self@[r as int], j as int));
                        assert(self@[r as int][j as int] == 1);
                    }
                }
                let ghost pre = self@;
                self.swap_rows(r, p);
                let ghost sw = self@;
                proof {
                    assert forall|k: int|
                        0 <= k < nrows && k != r && k != p implies sw[k] == pre[k] by {}
                    assert(sw[r as int] == pre[p as int]);
                    assert(sw[p as int] == pre[r as int]);
                }
                let pv = self.get(r, j);
                self.div_row(r, pv);
                let ghost mid = self@;
                proof {
                    assert(mid[r as int][j as int] == 1);
                    assert forall|c: int| 0 <= c < j implies mid[r as int][c] == 0 by {
                        assert(pre[p as int][c] == 0);
                        assert(sw[r as int][c] == 0);
                    }
                    assert forall|k: int| 0 <= k < nrows && k != r implies mid[k] == sw[k] by {}
                    assert forall|c: int|
                        0 <= c < ncols && col_is_zero(old(self)@, c) implies col_is_zero(
                        mid,
                        c,
                    ) by {
                        assert(col_is_zero(pre, c));
                        assert forall|k: int| 0 <= k < nrows implies sw[k][c] == 0 by {}
                        assert(col_is_zero(sw, c));
                        assert(sw[r as int][c] == 0);
                        assert(mid[r as int][c] == 0);
                        assert forall|k: int| 0 <= k < nrows implies mid[k][c] == 0 by {}
                    }
                    if is_rref_spec(old(self)@) {
                        assert(sw =~~= pre);
                        assert(mid[r as int] == sw[r as int]);
                        assert(mid =~~= sw);
                        assert(mid == old(self)@);
                    }
                }
                let mut k: usize = 0;
                while k < nrows
                    invariant
                        k <= nrows,
                        self.wf(),
                        self.rows() == nrows,
                        self.cols() == ncols,
                        forall|kk: int|
                            0 <= kk < nrows && (kk >= k || kk == r) ==> #[trigger] self@[kk]
                                == mid[kk],
                        forall|kk: int|
                            0 <= kk < k && kk != r ==> #[trigger] self@[kk][j as int] == 0,
                        forall|kk: int, c: int|
                            0 <= kk < k && kk != r && 0 <= c < ncols && mid[r as int][c] == 0
                                ==> #[trigger] self@[kk][c] == mid[kk][c],
                        is_rref_spec(old(self)@) ==> self@ == old(self)@,
                        forall|c: int|
                            0 <= c < ncols && #[trigger] col_is_zero(old(self)@, c)
                                ==> col_is_zero(self@, c),
                    decreases nrows - k,
                {
                    if k != r {
                        proof {
                            if is_rref_spec(old(self)@) {
                                assert(is_lead(old(self)@[r as int], j as int));
                                assert(old(self)@[k as int][j as int] == 0);
                            }
                        }
                        let ghost before = self@;
                        self.elim_row(k, r, j);
                        proof {
                            if is_rref_spec(old(self)@) {
                                assert(self@[k as int] == before[k as int]);
                                assert(self@ =~~= before);
                            }
                            assert forall|c: int|
                                0 <= c < ncols && col_is_zero(old(self)@, c) implies col_is_zero(
                                self@,
                                c,
                            ) by {
                                assert(col_is_zero(before, c));
                                assert(before[r as int] == mid[r as int]);
                                assert(before[r as int][c] == 0);
                                assert forall|kk: int| 0 <= kk < nrows implies self@[kk][c]
                                    == 0 by {
                                    assert(before[kk][c] == 0);
                                    if kk == k {
                                        assert(self@[kk][c] == before[kk][c]);
                                    } else {
                                        assert(self@[kk] == before[kk]);
                                    }
                                }
                            }
                        }
                    }
                    k += 1;
                }
                proof {
                    // row `r` now has its leading one in column `j`
                    assert(self@[r as int] == mid[r as int]);
                    assert(self@[r as int][j as int] == 1);
                    // earlier pivot rows keep their leading ones
                    assert forall|t: int| 0 <= t < r implies self@[t][leads[t]] == 1 by {
                        assert(mid[r as int][leads[t]] == 0);
                        assert(self@[t][leads[t]] == mid[t][leads[t]]);
                        assert(mid[t] == sw[t]);
                        assert(sw[t] == pre[t]);
                    }
                    // earlier pivot columns stay clean in every row
                    assert forall|t: int, k2: int|
                        0 <= t < r && 0 <= k2 < nrows && k2 != t implies self@[k2][leads[t]]
                        == 0 by {
                        assert(mid[r as int][leads[t]] == 0);
                        assert(pre[k2][leads[t]] == 0);
                        if k2 == r {
                            assert(self@[k2] == mid[k2]);
                        } else {
                            assert(mid[k2] == sw[k2]);
                            assert(sw[k2][leads[t]] == 0);
                            assert(self@[k2][leads[t]] == mid[k2][leads[t]]);
                        }
                    }
                    // rows strictly below the new pivot row are zero up to column `j`
                    assert forall|k2: int, c: int|
                        r + 1 <= k2 < nrows && 0 <= c <= j implies self@[k2][c] == 0 by {
                        if c < j {
                            assert(pre[k2][c] == 0);
                            assert(sw[k2][c] == 0);
                            assert(mid[r as int][c] == 0);
                            assert(mid[k2] == sw[k2]);
                            assert(self@[k2][c] == mid[k2][c]);
                        }
                    }
                    // the new pivot row is zero left of column `j`
                    assert forall|c: int| 0 <= c < j implies self@[r as int][c] == 0 by {
                        assert(mid[r as int][c] == 0);
                    }
                    leads = leads.push(j as int);
                }
                r += 1;
                j += 1;
            }
        }
        proof {
            assert forall|k: int| r <= k < nrows implies row_is_zero(self@[k]) by {
                assert(self@[k].len() == ncols);
                assert forall|c: int| 0 <= c < self@[k].len() implies self@[k][c] == 0 by {}
            }
            assert forall|t: int| 0 <= t < r implies is_lead(self@[t], leads[t]) by {
                assert(self@[t][leads[t]] == 1);
            }
            // a leading entry exists only in the pivot rows, and only at the
            // recorded pivot column
            assert forall|i: int, l: int|
                0 <= i < nrows && is_lead(self@[i], l) implies 0 <= i < r && l == leads[i] by {
                if i >= r {
                    assert(self@[i][l] == 0);
                } else {
                    if l < leads[i] {
                        assert(self@[i][l] == 0);
                    }
                    if l > leads[i] {
                        assert(self@[i][leads[i]] == 0);
                    }
                }
            }
            assert forall|i: int, j2: int|
                0 <= i < j2 < self@.len() && row_is_zero(self@[i]) implies row_is_zero(
                self@[j2],
            ) by {
                if i < r {
                    assert(self@[i][leads[i]] == 1);
                    assert(self@[i][leads[i]] == 0);
                }
            }
            assert forall|i: int, l: int|
                0 <= i < self@.len() && is_lead(self@[i], l) implies self@[i][l] == 1 by {}
            assert forall|i: int, j2: int, li: int, lj: int|
                0 <= i < j2 < self@.len() && is_lead(self@[i], li) && is_lead(self@[j2], lj)
                implies li < lj by {}
            assert forall|i: int, l: int, k: int|
                0 <= i < self@.len() && is_lead(self@[i], l) && 0 <= k < self@.len() && k != i
                implies self@[k][l] == 0 by {}
            assert(is_rref_spec(self@));
        }
    }

    /// Test whether this matrix is in reduced row-echelon form. Pure: the
    /// matrix is not changed. An all-zero matrix and an identity matrix both
    /// satisfy the predicate.
    #[verifier::loop_isolation(false)]
    pub fn is_rref(&self) -> (r: bool)
        requires
            self.wf(),
        ensures
            r == is_rref_spec(self@),
    {
        let nrows = self.n;
        let ncols = self.m;
        let mut prev_lead: usize = 0;
        let mut have_prev = false;
        let mut seen_zero = false;
        let ghost mut rp: int = 0;
        let mut i: usize = 0;
        while i < nrows
            invariant
                self.wf(),
                nrows == self.rows(),
                ncols == self.cols(),
                i <= nrows,
                forall|r1: int, r2: int|
                    0 <= r1 < r2 < i && #[trigger] row_is_zero(self@[r1])
                        ==> #[trigger] row_is_zero(self@[r2]),
                seen_zero == exists|r: int| 0 <= r < i && #[trigger] row_is_zero(self@[r]),
                forall|r: int, l: int|
                    0 <= r < i && #[trigger] is_lead(self@[r], l) ==> self@[r][l] == 1,
                forall|r1: int, r2: int, l1: int, l2: int|
                    0 <= r1 < r2 < i && #[trigger] is_lead(self@[r1], l1) && #[trigger] is_lead(
                        self@[r2],
                        l2,
                    ) ==> l1 < l2,
                forall|r: int, l: int, k: int|
                    #![trigger is_lead(self@[r], l), self@[k][l]]
                    0 <= r < i && is_lead(self@[r], l) && 0 <= k < nrows && k != r
                        ==> self@[k][l] == 0,
                have_prev == exists|r: int| 0 <= r < i && !(#[trigger] row_is_zero(self@[r])),
                have_prev ==> 0 <= rp < i && is_lead(self@[rp], prev_lead as int),
                have_prev ==> forall|r: int, l: int|
                    0 <= r < i && #[trigger] is_lead(self@[r], l) ==> l <= prev_lead,
            decreases nrows - i,
        {
            let mut l: usize = 0;
            let mut found = false;
            while !found && l < ncols
                invariant
                    self.wf(),
                    nrows == self.rows(),
                    ncols == self.cols(),
                    i < nrows,
                    l <= ncols,
                    forall|k: int| 0 <= k < l ==> self@[i as int][k] == 0,
                    found ==> l < ncols && self@[i as int][l as int] != 0,
                decreases ncols - l + (if found {
                    0int
                } else {
                    1int
                }),
            {
                if self.get(i, l) != 0 {
                    found = true;
                } else {
                    l += 1;
                }
            }
            if !found {
                proof {
                    assert(row_is_zero(self@[i as int]));
                }
                seen_zero = true;
            } else {
                proof {
                    assert(is_lead(self@[i as int], l as int));
                }
                if seen_zero {
                    proof {
                        let zr = choose|r: int| 0 <= r < i && #[trigger] row_is_zero(self@[r]);
                        assert(row_is_zero(self@[zr]));
                        assert(!row_is_zero(self@[i as int]));
                    }
                    return false;
                }
                if self.get(i, l) != 1 {
                    return false;
                }
                if have_prev && l <= prev_lead {
                    proof {
                        assert(is_lead(self@[rp], prev_lead as int));
                    }
                    return false;
                }
                let mut k: usize = 0;
                while k < nrows
                    invariant
                        self.wf(),
                        nrows == self.rows(),
                        ncols == self.cols(),
                        i < nrows,
                        l < ncols,
                        k <= nrows,
                        forall|kk: int| 0 <= kk < k && kk != i ==> self@[kk][l as int] == 0,
                    decreases nrows - k,
                {
                    if k != i {
                        if self.get(k, l) != 0 {
                            proof {
                                assert(is_lead(self@[i as int], l as int));
                            }
                            return false;
                        }
                    }
                    k += 1;
                }
                proof {
                    assert(!row_is_zero(self@[i as int]));
                    assert forall|r1: int, l1: int|
                        0 <= r1 < i && is_lead(self@[r1], l1) implies l1 < l as int by {
                        assert(self@[r1][l1] != 0);
                        assert(!row_is_zero(self@[r1]));
                    }
                }
                prev_lead = l;
                have_prev = true;
                proof {
                    rp = i as int;
                }
            }
            i += 1;
        }
        true
    }
}

} // verus!
