//! Dense matrices of scalars, stored column by column.

use vstd::prelude::*;

verus! {

/// What a matrix is: its shape, and its coefficients in column-major order.
pub struct MatrixView {
    pub rows: nat,
    pub cols: nat,
    pub entries: Seq<u32>,
}

impl MatrixView {
    /// The coefficients fill the shape exactly.
    pub open spec fn wf(self) -> bool {
        self.entries.len() == self.rows * self.cols
    }

    /// The coefficient in row `r` and column `c`.
    pub open spec fn at(self, r: int, c: int) -> u32 {
        self.entries[c * self.rows + r]
    }
}

/// A matrix with `rows * columns` coefficients. The coefficient in row `r`
/// and column `c` is stored at position `c * rows + r`.
#[derive(Debug)]
pub struct Matrix {
    rows: usize,
    columns: usize,
    entries: Vec<u32>,
}

impl View for Matrix {
    type V = MatrixView;

    closed spec fn view(&self) -> MatrixView {
        MatrixView { rows: self.rows as nat, cols: self.columns as nat, entries: self.entries@ }
    }
}

/// A position inside the shape lies inside the storage.
pub proof fn lemma_position_in_bounds(rows: int, cols: int, r: int, c: int)
    requires
        0 <= r < rows,
        0 <= c < cols,
    ensures
        0 <= c * rows + r < rows * cols,
{
    assert(c * rows + r < rows * cols) by (nonlinear_arith)
        requires
            0 <= r < rows,
            0 <= c < cols,
    {
        assert((c + 1) * rows <= cols * rows);
    }
    assert(0 <= c * rows) by (nonlinear_arith)
        requires
            0 <= c,
            0 <= rows,
    ;
}

/// A copy of the entries of `v` from `start` up to `end`.
pub fn copy_range(v: &Vec<u32>, start: usize, end: usize) -> (r: Vec<u32>)
    requires
        start <= end <= v.len(),
    ensures
        r@ == v@.subrange(start as int, end as int),
{
    let mut out: Vec<u32> = Vec::new();
    let mut i: usize = start;
    while i < end
        invariant
            start <= i <= end <= v.len(),
            out@ == v@.subrange(start as int, i as int),
        decreases end - i,
    {
        out.push(v[i]);
        assert(out@ =~= v@.subrange(start as int, i + 1));
        i += 1;
    }
    out
}

impl Matrix {
    /// Every matrix holds as many coefficients as its shape has places.
    #[verifier::type_invariant]
    spec fn filled(self) -> bool {
        self.entries@.len() == self.rows * self.columns
    }

    /// A matrix of the given shape with every coefficient zero.
    pub fn new_zeros(rows: usize, columns: usize) -> (m: Matrix)
        requires
            rows * columns <= usize::MAX,
        ensures
            m@.wf(),
            m@.rows == rows,
            m@.cols == columns,
            forall|i: int| 0 <= i < m@.entries.len() ==> m@.entries[i] == 0,
    {
        let n: usize = rows * columns;
        let mut entries: Vec<u32> = Vec::new();
        let mut i: usize = 0;
        while i < n
            invariant
                i <= n,
                entries@.len() == i,
                forall|j: int| 0 <= j < i ==> entries@[j] == 0,
            decreases n - i,
        {
            entries.push(0);
            i += 1;
        }
        Matrix { rows, columns, entries }
    }

    /// The matrix of the given shape whose columns, one after the other, are
    /// `entries`; `None` exactly when their number is not `rows * columns`.
    pub fn from_column_vector(rows: usize, columns: usize, entries: Vec<u32>) -> (r: Option<Matrix>)
        ensures
            r.is_some() <==> entries@.len() == rows * columns,
            r.is_some() ==> r.unwrap()@ == (MatrixView {
                rows: rows as nat,
                cols: columns as nat,
                entries: entries@,
            }),
    {
        let given: usize = entries.len();
        match rows.checked_mul(columns) {
            Some(n) => {
                if given == n {
                    Some(Matrix { rows, columns, entries })
                } else {
                    None
                }
            },
            None => None,
        }
    }

    /// Number of rows.
    pub fn nrows(&self) -> (r: usize)
        ensures
            r == self@.rows,
            self@.wf(),
    {
        proof {
            use_type_invariant(self);
        }
        self.rows
    }

    /// Number of columns.
    pub fn ncols(&self) -> (r: usize)
        ensures
            r == self@.cols,
    {
        self.columns
    }

    /// The coefficients in column-major order.
    pub fn as_slice(&self) -> (r: &[u32])
        ensures
            r@ == self@.entries,
    {
        self.entries.as_slice()
    }

    /// Puts `x` in row `r` and column `c`.
    pub fn set(&mut self, r: usize, c: usize, x: u32)
        requires
            r < old(self)@.rows,
            c < old(self)@.cols,
        ensures
            final(self)@.rows == old(self)@.rows,
            final(self)@.cols == old(self)@.cols,
            final(self)@.entries == old(self)@.entries.update(c * old(self)@.rows + r, x),
    {
        let stored: usize = self.entries.len();
        proof {
            use_type_invariant(&*self);
            lemma_position_in_bounds(self.rows as int, self.columns as int, r as int, c as int);
            assert(stored == (self.rows as int) * (self.columns as int));
        }
        self.entries[c * self.rows + r] = x;
    }

    /// The coefficients in column-major order, giving up the matrix.
    pub fn into_vector(self) -> (r: Vec<u32>)
        ensures
            r@ == self@.entries,
    {
        self.entries
    }

    /// The coefficient in row `r` and column `c`.
    pub fn get(&self, r: usize, c: usize) -> (x: u32)
        requires
            r < self@.rows,
            c < self@.cols,
        ensures
            x == self@.at(r as int, c as int),
    {
        let stored: usize = self.entries.len();
        proof {
            use_type_invariant(self);
            lemma_position_in_bounds(self.rows as int, self.columns as int, r as int, c as int);
            assert(stored == (self.rows as int) * (self.columns as int));
        }
        self.entries[c * self.rows + r]
    }

    /// A matrix equal to this one.
    pub fn duplicate(&self) -> (m: Matrix)
        ensures
            m@ == self@,
    {
        proof {
            use_type_invariant(self);
        }
        let entries = copy_range(&self.entries, 0, self.entries.len());
        assert(entries@ =~= self.entries@);
        Matrix { rows: self.rows, columns: self.columns, entries }
    }
}

} // verus!
