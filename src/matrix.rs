use vstd::prelude::*;

verus! {

/// The rows of a row-major buffer: row `i` is `data[i * cols .. i * cols + cols]`.
pub open spec fn rows_of<T>(data: Seq<T>, rows: nat, cols: nat) -> Seq<Seq<T>> {
    Seq::new(rows, |i: int| data.subrange(i * cols, i * cols + cols))
}

/// Row `i` of `rows` rows of width `cols` lies inside a buffer of `rows * cols`.
pub proof fn lemma_row_in_bounds(i: int, rows: int, cols: int)
    by (nonlinear_arith)
    requires
        0 <= i < rows,
        0 <= cols,
    ensures
        0 <= i * cols,
        i * cols + cols <= rows * cols,
{
}

/// A dense matrix stored row by row: rows index samples, columns features.
#[derive(Debug, Clone)]
pub struct RowMatrix<T> {
    rows: usize,
    cols: usize,
    data: Vec<T>,
}

impl<T> View for RowMatrix<T> {
    type V = Seq<Seq<T>>;

    closed spec fn view(&self) -> Seq<Seq<T>> {
        rows_of(self.data@, self.rows as nat, self.cols as nat)
    }
}

impl<T: Copy> RowMatrix<T> {
    /// The buffer holds exactly `rows * cols` entries.
    pub closed spec fn wf(&self) -> bool {
        self.data@.len() == self.rows * self.cols
    }

    /// The number of columns, which the rows alone do not give when there are none.
    pub closed spec fn width(&self) -> nat {
        self.cols as nat
    }

    /// Every row of a well-formed matrix has `width()` entries.
    pub proof fn lemma_rows_have_width(&self)
        requires
            self.wf(),
        ensures
            forall|i: int| 0 <= i < self@.len() ==> (#[trigger] self@[i]).len() == self.width(),
    {
        assert forall|i: int| 0 <= i < self@.len() implies (#[trigger] self@[i]).len()
            == self.width() by {
            lemma_row_in_bounds(i, self.rows as int, self.cols as int);
        }
    }

    /// Builds a matrix of `rows` rows of width `cols` from a row-major buffer.
    pub fn from_row_major(rows: usize, cols: usize, data: Vec<T>) -> (r: Self)
        requires
            data@.len() == rows * cols,
        ensures
            r.wf(),
            r.width() == cols,
            r@ == rows_of(data@, rows as nat, cols as nat),
            r@.len() == rows,
    {
        RowMatrix { rows, cols, data }
    }

    /// A matrix with no rows, of width `cols`.
    pub fn empty(cols: usize) -> (r: Self)
        ensures
            r.wf(),
            r.width() == cols,
            r@ == Seq::<Seq<T>>::empty(),
    {
        let r = RowMatrix { rows: 0, cols, data: Vec::new() };
        assert(r@ =~= Seq::<Seq<T>>::empty());
        r
    }

    pub fn nrows(&self) -> (r: usize)
        requires
            self.wf(),
        ensures
            r == self@.len(),
    {
        self.rows
    }

    pub fn ncols(&self) -> (r: usize)
        requires
            self.wf(),
        ensures
            r == self.width(),
    {
        self.cols
    }

    /// The entry in row `i`, column `j`.
    pub fn get(&self, i: usize, j: usize) -> (r: T)
        requires
            self.wf(),
            i < self@.len(),
            j < self.width(),
        ensures
            r == self@[i as int][j as int],
    {
        proof {
            lemma_row_in_bounds(i as int, self.rows as int, self.cols as int);
        }
        let len = self.data.len();
        assert(i * self.cols + j < len);
        self.data[i * self.cols + j]
    }

    /// The row-major buffer.
    pub fn row_major(&self) -> (r: &Vec<T>)
        requires
            self.wf(),
        ensures
            r@.len() == self@.len() * self.width(),
            self@ == rows_of(r@, self@.len(), self.width()),
    {
        &self.data
    }

    /// Appends one row at the bottom.
    pub fn push_row(&mut self, row: Vec<T>)
        requires
            old(self).wf(),
            row@.len() == old(self).width(),
            old(self)@.len() < usize::MAX,
        ensures
            final(self).wf(),
            final(self).width() == old(self).width(),
            final(self)@ == old(self)@.push(row@),
    {
        let ghost old_data = self.data@;
        let ghost rows = self.rows as int;
        let ghost cols = self.cols as int;
        let ghost new_row = row@;
        let mut row = row;
        self.data.append(&mut row);
        self.rows = self.rows + 1;
        proof {
            assert((rows + 1) * cols == rows * cols + cols) by (nonlinear_arith);
            assert forall|i: int| 0 <= i < rows + 1 implies #[trigger] self@[i] == old(self)@.push(
                new_row,
            )[i] by {
                lemma_row_in_bounds(i, rows + 1, cols);
                if i < rows {
                    lemma_row_in_bounds(i, rows, cols);
                    assert(self.data@.subrange(i * cols, i * cols + cols) =~= old_data.subrange(
                        i * cols,
                        i * cols + cols,
                    ));
                } else {
                    assert(self.data@.subrange(i * cols, i * cols + cols) =~= old(self)@.push(
                        new_row,
                    )[i]);
                }
            }
            assert(self@ =~= old(self)@.push(new_row));
        }
    }

    /// The rows named by `indices`, in that order.
    pub fn select_rows(&self, indices: &[usize]) -> (r: Self)
        requires
            self.wf(),
            forall|k: int| 0 <= k < indices@.len() ==> #[trigger] indices@[k] < self@.len(),
        ensures
            r.wf(),
            r.width() == self.width(),
            r@ == indices@.map_values(|i: usize| self@[i as int]),
    {
        let mut out: RowMatrix<T> = RowMatrix::empty(self.cols);
        let mut k: usize = 0;
        while k < indices.len()
            invariant
                self.wf(),
                forall|m: int| 0 <= m < indices@.len() ==> #[trigger] indices@[m] < self@.len(),
                k <= indices@.len(),
                out.wf(),
                out.width() == self.width(),
                out@ == indices@.subrange(0, k as int).map_values(|i: usize| self@[i as int]),
            decreases indices@.len() - k,
        {
            let src = indices[k];
            let mut row: Vec<T> = Vec::new();
            let mut j: usize = 0;
            while j < self.cols
                invariant
                    self.wf(),
                    src < self@.len(),
                    j <= self.cols,
                    row@ == self@[src as int].subrange(0, j as int),
                decreases self.cols - j,
            {
                row.push(self.get(src, j));
                proof {
                    self.lemma_rows_have_width();
                }
                assert(row@ =~= self@[src as int].subrange(0, j + 1));
                j = j + 1;
            }
            proof {
                self.lemma_rows_have_width();
                assert(row@ =~= self@[src as int]);
            }
            out.push_row(row);
            assert(indices@.subrange(0, k + 1).map_values(|i: usize| self@[i as int]) =~= indices@.subrange(
                0,
                k as int,
            ).map_values(|i: usize| self@[i as int]).push(self@[src as int]));
            k = k + 1;
        }
        assert(indices@.subrange(0, indices@.len() as int) =~= indices@);
        out
    }
}

} // verus!
