//! Lazy, forward-only views over a matrix: a walk over its rows, and a walk
//! over one column's entries.

use vstd::prelude::*;
use crate::matrix::Mat2;

verus! {

/// A forward-only walk over the rows of a matrix, in order. Restart by
/// obtaining a fresh walk from `Mat2::row_iter`.
pub struct RowIterator<'a> {
    pub mat: &'a Mat2,
    pub i: usize,
}

impl<'a> RowIterator<'a> {
    /// The next row, or `None` once every row has been yielded. After
    /// exhaustion every further call keeps returning `None`.
    pub fn next(&mut self) -> (r: Option<&'a Vec<i64>>)
        requires
            old(self).mat.wf(),
        ensures
            final(self).mat == old(self).mat,
            match r {
                Some(row) => {
                    &&& old(self).i < old(self).mat.rows()
                    &&& row@ == old(self).mat@[old(self).i as int]
                    &&& final(self).i == old(self).i + 1
                },
                None => {
                    &&& old(self).i >= old(self).mat.rows()
                    &&& final(self).i == old(self).i
                },
            },
    {
        let r = self.mat.get_row_opt(self.i);
        if r.is_some() {
            self.i = self.i + 1;
        }
        r
    }
}

/// A forward-only walk over the entries of one column, across rows in order.
/// A walk whose column index is out of range is exhausted from the start.
pub struct ColumnIterator<'a> {
    pub mat: &'a Mat2,
    pub col: usize,
    pub i: usize,
}

impl<'a> ColumnIterator<'a> {
    /// The next entry of the column, or `None` once every row has been
    /// visited or the column index is out of range. After exhaustion every
    /// further call keeps returning `None`.
    pub fn next(&mut self) -> (r: Option<i64>)
        requires
            old(self).mat.wf(),
        ensures
            final(self).mat == old(self).mat,
            final(self).col == old(self).col,
            match r {
                Some(v) => {
                    &&& old(self).i < old(self).mat.rows()
                    &&& old(self).col < old(self).mat.cols()
                    &&& v == old(self).mat@[old(self).i as int][old(self).col as int]
                    &&& final(self).i == old(self).i + 1
                },
                None => {
                    &&& old(self).i >= old(self).mat.rows() || old(self).col >= old(
                        self,
                    ).mat.cols()
                    &&& final(self).i == old(self).i
                },
            },
    {
        let r = self.mat.get_opt(self.i, self.col);
        if r.is_some() {
            self.i = self.i + 1;
        }
        r
    }
}

impl Mat2 {
    /// A fresh walk over the rows of this matrix, starting at the first row.
    pub fn row_iter<'a>(&'a self) -> (it: RowIterator<'a>)
        ensures
            it.mat == self,
            it.i == 0,
    {
        RowIterator { mat: self, i: 0 }
    }

    /// A fresh walk over the entries of column `col`, starting at the first
    /// row. With `col` out of range the walk yields nothing.
    pub fn column_iter<'a>(&'a self, col: usize) -> (it: ColumnIterator<'a>)
        ensures
            it.mat == self,
            it.col == col,
            it.i == 0,
    {
        ColumnIterator { mat: self, col, i: 0 }
    }
}

} // verus!
