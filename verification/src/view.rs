//! Views of matrices in memory.
use crate::error::{checked_mul, expect_at_least, expect_len, Error};
use crate::math::lemma_row_fits;
use vstd::prelude::*;

verus! {

/// A matrix laid over a slice: element `(p, j)` stands at `p * row_step + j * col_step`.
pub struct MatRef<'a, T> {
    data: &'a [T],
    rows: usize,
    cols: usize,
    row_step: usize,
    col_step: usize,
}

/// The last element of a strided matrix lies inside `len` elements.
pub open spec fn reaches(rows: int, cols: int, row_step: int, col_step: int, len: int) -> bool {
    rows > 0 && cols > 0 ==> (rows - 1) * row_step + (cols - 1) * col_step < len
}

impl<'a, T> MatRef<'a, T> {
    /// Every element of the matrix lies inside the slice.
    pub closed spec fn wf(&self) -> bool {
        &&& reaches(
            self.rows as int,
            self.cols as int,
            self.row_step as int,
            self.col_step as int,
            self.data@.len() as int,
        )
        &&& self.rows * self.cols <= usize::MAX
    }

    /// Number of rows.
    pub closed spec fn height(&self) -> int {
        self.rows as int
    }

    /// Number of columns.
    pub closed spec fn width(&self) -> int {
        self.cols as int
    }

    /// Element `(p, j)`.
    pub closed spec fn entry(&self, p: int, j: int) -> T {
        self.data@[p * self.row_step + j * self.col_step]
    }

    /// How far apart in the slice the rows and the columns lie.
    pub closed spec fn steps(&self) -> (int, int) {
        (self.row_step as int, self.col_step as int)
    }

    /// Length of the slice.
    pub closed spec fn extent(&self) -> int {
        self.data@.len() as int
    }

    /// The slice holds the matrix row after row, without gaps and nothing else.
    pub open spec fn contiguous(&self) -> bool {
        &&& self.steps() == (self.width(), 1int)
        &&& self.extent() == self.height() * self.width()
    }

    /// The matrix as its columns.
    pub open spec fn columns(&self) -> Seq<Seq<T>> {
        Seq::new(
            self.width() as nat,
            |j: int| Seq::new(self.height() as nat, |p: int| self.entry(p, j)),
        )
    }

    /// A row-major matrix without gaps.
    pub fn row_major(data: &'a [T], rows: usize, cols: usize) -> (r: Result<Self, Error>)
        ensures
            r is Ok <==> data@.len() == rows * cols,
            rows * cols > usize::MAX ==> r == Err::<Self, Error>(
                Error::Overflow { op: "MatRef::row_major", what: "rows×cols" },
            ),
            rows * cols <= usize::MAX && data@.len() != rows * cols ==> r == Err::<Self, Error>(
                Error::Shape {
                    op: "MatRef::row_major",
                    what: "data",
                    expected: (rows * cols) as usize,
                    got: data@.len() as usize,
                },
            ),
            r matches Ok(v) ==> {
                &&& v.wf()
                &&& v.height() == rows
                &&& v.width() == cols
                &&& v.steps() == (cols as int, 1int)
                &&& v.extent() == data@.len()
                &&& v.contiguous()
                &&& forall|p: int, j: int|
                    0 <= p < rows && 0 <= j < cols ==> #[trigger] v.entry(p, j) == data@[p * cols
                        + j]
            },
    {
        proof {
            assert(data.len() == data@.len());
        }
        match checked_mul("MatRef::row_major", "rows×cols", rows, cols) {
            Err(e) => Err(e),
            Ok(want) => match expect_len("MatRef::row_major", "data", data.len(), want) {
                Err(e) => Err(e),
                Ok(_) => {
                    proof {
                        if rows > 0 && cols > 0 {
                            lemma_row_fits(rows - 1, rows as int, cols as int);
                        }
                    }
                    Ok(MatRef { data, rows, cols, row_step: cols, col_step: 1 })
                },
            },
        }
    }

    /// A column-major matrix without gaps.
    pub fn col_major(data: &'a [T], rows: usize, cols: usize) -> (r: Result<Self, Error>)
        ensures
            r is Ok <==> data@.len() == rows * cols,
            rows * cols > usize::MAX ==> r == Err::<Self, Error>(
                Error::Overflow { op: "MatRef::col_major", what: "rows×cols" },
            ),
            rows * cols <= usize::MAX && data@.len() != rows * cols ==> r == Err::<Self, Error>(
                Error::Shape {
                    op: "MatRef::col_major",
                    what: "data",
                    expected: (rows * cols) as usize,
                    got: data@.len() as usize,
                },
            ),
            r matches Ok(v) ==> {
                &&& v.wf()
                &&& v.height() == rows
                &&& v.width() == cols
                &&& v.steps() == (1int, rows as int)
                &&& v.extent() == data@.len()
                &&& forall|p: int, j: int|
                    0 <= p < rows && 0 <= j < cols ==> #[trigger] v.entry(p, j) == data@[p + j
                        * rows]
            },
    {
        proof {
            assert(data.len() == data@.len());
        }
        match checked_mul("MatRef::col_major", "rows×cols", rows, cols) {
            Err(e) => Err(e),
            Ok(want) => match expect_len("MatRef::col_major", "data", data.len(), want) {
                Err(e) => Err(e),
                Ok(_) => {
                    proof {
                        if rows > 0 && cols > 0 {
                            lemma_row_fits(cols - 1, cols as int, rows as int);
                            assert(rows * cols == cols * rows) by (nonlinear_arith);
                        }
                    }
                    Ok(MatRef { data, rows, cols, row_step: 1, col_step: rows })
                },
            },
        }
    }

    /// A row-major matrix whose rows begin every `stride` elements.
    pub fn row_major_strided(data: &'a [T], rows: usize, cols: usize, stride: usize) -> (r: Result<
        Self,
        Error,
    >)
        ensures
            r is Ok <==> stride >= cols && rows * stride <= usize::MAX && data@.len() >= rows
                * stride,
            stride < cols ==> r == Err::<Self, Error>(
                Error::Shape {
                    op: "MatRef::row_major_strided",
                    what: "stride",
                    expected: cols,
                    got: stride,
                },
            ),
            stride >= cols && rows * stride > usize::MAX ==> r == Err::<Self, Error>(
                Error::Overflow { op: "MatRef::row_major_strided", what: "rows×stride" },
            ),
            stride >= cols && rows * stride <= usize::MAX && data@.len() < rows * stride ==> r
                == Err::<Self, Error>(
                Error::Shape {
                    op: "MatRef::row_major_strided",
                    what: "data",
                    expected: (rows * stride) as usize,
                    got: data@.len() as usize,
                },
            ),
            r matches Ok(v) ==> {
                &&& v.wf()
                &&& v.height() == rows
                &&& v.width() == cols
                &&& v.steps() == (stride as int, 1int)
                &&& v.extent() == data@.len()
                &&& forall|p: int, j: int|
                    0 <= p < rows && 0 <= j < cols ==> #[trigger] v.entry(p, j) == data@[p * stride
                        + j]
            },
    {
        proof {
            assert(data.len() == data@.len());
        }
        match expect_at_least("MatRef::row_major_strided", "stride", stride, cols) {
            Err(e) => Err(e),
            Ok(_) => match checked_mul("MatRef::row_major_strided", "rows×stride", rows, stride) {
                Err(e) => Err(e),
                Ok(want) => match expect_at_least(
                    "MatRef::row_major_strided",
                    "data",
                    data.len(),
                    want,
                ) {
                    Err(e) => Err(e),
                    Ok(_) => {
                        proof {
                            assert(rows * cols <= rows * stride) by (nonlinear_arith)
                                requires
                                    0 <= rows,
                                    cols <= stride,
                            ;
                            if rows > 0 && cols > 0 {
                                lemma_row_fits(rows - 1, rows as int, stride as int);
                            }
                        }
                        Ok(MatRef { data, rows, cols, row_step: stride, col_step: 1 })
                    },
                },
            },
        }
    }

    /// The same elements with rows and columns exchanged.
    pub fn transpose(self) -> (r: Self)
        requires
            self.wf(),
        ensures
            r.wf(),
            r.height() == self.width(),
            r.width() == self.height(),
            r.steps() == (self.steps().1, self.steps().0),
            r.extent() == self.extent(),
            forall|p: int, j: int|
                0 <= p < r.height() && 0 <= j < r.width() ==> #[trigger] r.entry(p, j)
                    == self.entry(j, p),
    {
        proof {
            assert(self.rows * self.cols == self.cols * self.rows) by (nonlinear_arith);
        }
        MatRef {
            data: self.data,
            rows: self.cols,
            cols: self.rows,
            row_step: self.col_step,
            col_step: self.row_step,
        }
    }

    /// Number of rows.
    pub fn rows(&self) -> (r: usize)
        ensures
            r == self.height(),
    {
        self.rows
    }

    /// Number of columns.
    pub fn cols(&self) -> (r: usize)
        ensures
            r == self.width(),
    {
        self.cols
    }

    /// The slice, when it holds the matrix row-major and without gaps.
    pub fn as_row_major_contiguous(&self) -> (r: Option<&'a [T]>)
        requires
            self.wf(),
        ensures
            r is Some <==> self.contiguous(),
            r matches Some(s) ==> {
                &&& s@.len() == self.height() * self.width()
                &&& forall|p: int, j: int|
                    0 <= p < self.height() && 0 <= j < self.width() ==> #[trigger] self.entry(p, j)
                        == s@[p * self.width() + j]
            },
    {
        if self.col_step == 1 && self.row_step == self.cols && self.data.len() == self.rows
            * self.cols {
            Some(self.data)
        } else {
            None
        }
    }
}

impl<'a, T: Copy> MatRef<'a, T> {
    /// Element `(p, j)`.
    pub fn get(&self, p: usize, j: usize) -> (r: T)
        requires
            self.wf(),
            p < self.height(),
            j < self.width(),
        ensures
            r == self.entry(p as int, j as int),
    {
        proof {
            assert(self.data.len() == self.data@.len());
            assert(p * self.row_step <= (self.rows - 1) * self.row_step) by (nonlinear_arith)
                requires
                    p <= self.rows - 1,
                    0 <= self.row_step,
            ;
            assert(j * self.col_step <= (self.cols - 1) * self.col_step) by (nonlinear_arith)
                requires
                    j <= self.cols - 1,
                    0 <= self.col_step,
            ;
            assert(0 <= p * self.row_step && 0 <= j * self.col_step) by (nonlinear_arith)
                requires
                    0 <= p,
                    0 <= j,
                    0 <= self.row_step,
                    0 <= self.col_step,
            ;
        }
        self.data[p * self.row_step + j * self.col_step]
    }
}

/// A matrix has no more elements than a machine word can count.
pub proof fn lemma_size_fits<'a, T>(v: MatRef<'a, T>)
    requires
        v.wf(),
    ensures
        0 <= v.height(),
        0 <= v.width(),
        v.height() * v.width() <= usize::MAX,
{
}

/// Law: transposing twice gives the matrix back, element by element.
pub proof fn law_transpose_twice<'a, T>(v: MatRef<'a, T>, t: MatRef<'a, T>, u: MatRef<'a, T>)
    requires
        t.height() == v.width(),
        t.width() == v.height(),
        u.height() == t.width(),
        u.width() == t.height(),
        forall|p: int, j: int|
            0 <= p < t.height() && 0 <= j < t.width() ==> #[trigger] t.entry(p, j) == v.entry(j, p),
        forall|p: int, j: int|
            0 <= p < u.height() && 0 <= j < u.width() ==> #[trigger] u.entry(p, j) == t.entry(j, p),
    ensures
        u.columns() == v.columns(),
{
    assert forall|j: int| 0 <= j < v.width() implies u.columns()[j] == v.columns()[j] by {
        assert(u.columns()[j] =~= v.columns()[j]);
    }
    assert(u.columns() =~= v.columns());
}

} // verus!
