//! Matrices stored row by row, their product, and their text form.
use vstd::prelude::*;

use crate::error::{Error, Result};
use crate::text::{self, push_i64, push_usize};
use crate::vector::{self, dot_product, Vector};

verus! {

/// A matrix of `row` rows and `col` columns whose elements are stored row
/// after row in `data`.
///
/// Nothing ties the length of `data` to `row * col`: each operation says
/// which lengths it accepts.
pub struct Matrix<T> {
    data: Vec<T>,
    row: usize,
    col: usize,
}

impl<T> Matrix<T> {
    /// The stored elements.
    pub closed spec fn data(&self) -> Seq<T> {
        self.data@
    }

    /// The number of rows.
    pub closed spec fn rows(&self) -> nat {
        self.row as nat
    }

    /// The number of columns.
    pub closed spec fn cols(&self) -> nat {
        self.col as nat
    }

    /// A matrix of `row` rows and `col` columns over `data`.
    pub fn new(data: Vec<T>, row: usize, col: usize) -> (m: Self)
        ensures
            m.data() == data@,
            m.rows() == row,
            m.cols() == col,
    {
        Matrix { data, row, col }
    }

    /// The number of rows.
    pub fn row_count(&self) -> (n: usize)
        ensures
            n == self.rows(),
    {
        self.row
    }

    /// The number of columns.
    pub fn col_count(&self) -> (n: usize)
        ensures
            n == self.cols(),
    {
        self.col
    }

    /// The number of stored elements.
    pub fn data_len(&self) -> (n: usize)
        ensures
            n == self.data().len(),
    {
        self.data.len()
    }
}

/// The element at row `i` and column `j` of a matrix of `m` columns stored in `s`.
pub open spec fn cell(s: Seq<i64>, m: int, i: int, j: int) -> i64 {
    s[i * m + j]
}

/// Row `i` of a matrix of `width` columns stored in `data`.
pub open spec fn row_slice(data: Seq<i64>, width: int, i: int) -> Seq<i64> {
    data.subrange(i * width, i * width + width)
}

/// The elements `data[j]`, `data[j + step]`, `data[j + 2 * step]`, ... that
/// lie inside `data`: column `j` of a matrix of `step` columns. Where
/// `data` is longer or shorter than a whole number of rows, the column is
/// longer or shorter accordingly.
pub open spec fn column(data: Seq<i64>, step: int, j: int) -> Seq<i64>
    decreases (if 0 <= j < data.len() {
        data.len() - j
    } else {
        0int
    }),
{
    if step <= 0 || j < 0 || j >= data.len() {
        Seq::empty()
    } else {
        seq![data[j]] + column(data, step, j + step)
    }
}

/// The first column index from `j` on, below `m`, whose column does not
/// hold exactly `p` elements.
pub open spec fn first_mismatch(data: Seq<i64>, m: int, p: int, j: int) -> Option<int>
    decreases m - j,
{
    if j >= m || j < 0 {
        None
    } else if column(data, m, j).len() != p {
        Some(j)
    } else {
        first_mismatch(data, m, p, j + 1)
    }
}

/// The element at row `i` and column `j` of the product of a matrix with
/// `p` columns stored in `ad` and a matrix with `m` columns stored in `bd`.
pub open spec fn product_cell(ad: Seq<i64>, bd: Seq<i64>, p: int, m: int, i: int, j: int) -> int {
    vector::dot(row_slice(ad, p, i), column(bd, m, j), p as nat)
}

/// What `multiply` needs beyond matching shapes to run without a panic:
/// the result's size fits a `usize`, every row of the left matrix lies
/// inside its data, every column start of the right matrix lies inside or
/// just past its data, and no dot product that is computed overflows.
pub open spec fn multiply_fits(a: Matrix<i64>, b: Matrix<i64>) -> bool {
    let n = a.rows() as int;
    let p = a.cols() as int;
    let m = b.cols() as int;
    &&& n * m <= usize::MAX
    &&& n > 0 ==> n * p <= a.data().len()
    &&& n > 0 && m > 0 ==> m - 1 <= b.data().len()
    &&& forall|i: int, j: int|
        0 <= i < n && 0 <= j < m && column(b.data(), m, j).len() == p ==> #[trigger] vector::dot_fits(
            row_slice(a.data(), p, i),
            column(b.data(), m, j),
        )
}

proof fn lemma_column_step(data: Seq<i64>, step: int, j: int)
    requires
        step > 0,
        0 <= j < data.len(),
    ensures
        column(data, step, j) == seq![data[j]] + column(data, step, j + step),
{
}

proof fn lemma_column_past_end(data: Seq<i64>, step: int, j: int)
    requires
        j >= data.len(),
    ensures
        column(data, step, j) == Seq::<i64>::empty(),
{
}

proof fn lemma_first_mismatch_skip(data: Seq<i64>, m: int, p: int, k: int, j: int)
    requires
        0 <= k <= j <= m,
        forall|t: int| 0 <= t < j ==> (#[trigger] column(data, m, t)).len() == p,
    ensures
        first_mismatch(data, m, p, k) == first_mismatch(data, m, p, j),
    decreases j - k,
{
    if k < j {
        lemma_first_mismatch_skip(data, m, p, k + 1, j);
        assert(column(data, m, k).len() == p);
    }
}

proof fn lemma_cell_before(i2: int, j2: int, i: int, j: int, m: int)
    requires
        0 <= i2 < i,
        0 <= j2 < m,
        0 <= j,
    ensures
        i2 * m + j2 < i * m + j,
{
    assert(i2 * m + j2 < i * m + j) by (nonlinear_arith)
        requires
            0 <= i2 < i,
            0 <= j2 < m,
            0 <= j,
    ;
}

impl Matrix<i64> {
    /// Row `i`, as a vector of its `cols()` elements.
    pub fn row_values(&self, i: usize) -> (v: Vec<i64>)
        requires
            (i + 1) * self.cols() <= self.data().len(),
        ensures
            v@ == row_slice(self.data(), self.cols() as int, i as int),
    {
        let p = self.col;
        let len = self.data.len();
        proof {
            assert(i * p + p == (i + 1) * p) by (nonlinear_arith);
            assert(i * p + p <= self.data().len());
        }
        let start = i * p;
        let mut v: Vec<i64> = Vec::new();
        let mut k: usize = 0;
        while k < p
            invariant
                p == self.cols(),
                start == i * p,
                start + p <= self.data().len(),
                len == self.data().len(),
                k <= p,
                v@ == self.data().subrange(start as int, start + k),
            decreases p - k,
        {
            v.push(self.data[start + k]);
            k = k + 1;
            assert(v@ =~= self.data().subrange(start as int, start + k));
        }
        v
    }

    /// Column `j`: the elements `data[j]`, `data[j + cols()]`, ... that lie
    /// inside the data.
    pub fn column_values(&self, j: usize) -> (v: Vec<i64>)
        requires
            self.cols() > 0,
            j <= self.data().len(),
        ensures
            v@ == column(self.data(), self.cols() as int, j as int),
    {
        let len = self.data.len();
        let step = self.col;
        let ghost d = self.data();
        let mut v: Vec<i64> = Vec::new();
        let mut k: usize = j;
        proof {
            assert(v@ + column(d, step as int, k as int) =~= column(d, step as int, j as int));
        }
        while k < len
            invariant
                len == d.len(),
                d == self.data(),
                step == self.cols(),
                step > 0,
                j <= k <= len,
                v@ + column(d, step as int, k as int) == column(d, step as int, j as int),
            decreases len - k,
        {
            let ghost old_v = v@;
            let ghost here = k as int;
            proof {
                lemma_column_step(d, step as int, here);
            }
            v.push(self.data[k]);
            if len - k > step {
                k = k + step;
            } else {
                k = len;
                proof {
                    lemma_column_past_end(d, step as int, here + step);
                    lemma_column_past_end(d, step as int, len as int);
                }
            }
            proof {
                assert(column(d, step as int, k as int) == column(d, step as int, here + step));
                assert(v@ + column(d, step as int, k as int) =~= old_v + (seq![d[here]] + column(
                    d,
                    step as int,
                    here + step,
                )));
            }
        }
        v
    }
}

/// `c` is the product of `a` and `b`: it has the rows of `a` and the columns
/// of `b`, one element for each pair of them, and its element at row `i` and
/// column `j` is the dot product of row `i` of `a` with column `j` of `b`.
pub open spec fn is_product(a: Matrix<i64>, b: Matrix<i64>, c: Matrix<i64>) -> bool {
    &&& c.rows() == a.rows()
    &&& c.cols() == b.cols()
    &&& c.data().len() == a.rows() * b.cols()
    &&& forall|i: int, j: int|
        0 <= i < a.rows() && 0 <= j < b.cols() ==> #[trigger] cell(c.data(), b.cols() as int, i, j)
            == product_cell(a.data(), b.data(), a.cols() as int, b.cols() as int, i, j)
}

/// The product is determined by its factors: two products of the same
/// matrices have the same shape and the same elements, whatever order their
/// elements were computed in.
pub proof fn lemma_product_unique(a: Matrix<i64>, b: Matrix<i64>, c1: Matrix<i64>, c2: Matrix<i64>)
    requires
        is_product(a, b, c1),
        is_product(a, b, c2),
    ensures
        c1.rows() == c2.rows(),
        c1.cols() == c2.cols(),
        c1.data() == c2.data(),
{
    let n = a.rows() as int;
    let m = b.cols() as int;
    assert forall|t: int| 0 <= t < c1.data().len() implies c1.data()[t] == c2.data()[t] by {
        let i = t / m;
        let j = t % m;
        assert(m > 0) by (nonlinear_arith)
            requires
                0 <= t < n * m,
                n >= 0,
                m >= 0,
        ;
        vstd::arithmetic::div_mod::lemma_fundamental_div_mod(t, m);
        assert(0 <= j < m);
        assert(0 <= i < n) by (nonlinear_arith)
            requires
                t == m * i + j,
                0 <= j < m,
                0 <= t < n * m,
                m > 0,
        ;
        assert(i * m + j == t) by (nonlinear_arith)
            requires
                t == m * i + j,
        ;
        assert(cell(c1.data(), m, i, j) == cell(c2.data(), m, i, j));
    }
    assert(c1.data() =~= c2.data());
}

/// The product of `a` and `b`.
///
/// The shapes must match (`a.cols() == b.rows()`), else the result is
/// `MatrixShapeMismatch`. Each element of the product is the dot product of
/// a row of `a` with a column of `b`; elements are computed row by row, and
/// the first whose row and column differ in length, which can happen only
/// when the data of `b` is not a whole number of rows, makes the result
/// `DotProductLengthMismatch`.
pub fn multiply(a: &Matrix<i64>, b: &Matrix<i64>) -> (r: Result<Matrix<i64>>)
    requires
        a.cols() == b.rows() ==> multiply_fits(*a, *b),
    ensures
        a.cols() != b.rows() ==> r == Err::<Matrix<i64>, Error>(
            Error::MatrixShapeMismatch { a_col: a.cols() as usize, b_row: b.rows() as usize },
        ),
        a.cols() == b.rows() && a.rows() > 0 ==> (match first_mismatch(
            b.data(),
            b.cols() as int,
            a.cols() as int,
            0,
        ) {
            Some(j) => r == Err::<Matrix<i64>, Error>(
                Error::DotProductLengthMismatch {
                    a: a.cols() as usize,
                    b: column(b.data(), b.cols() as int, j).len() as usize,
                },
            ),
            None => r is Ok,
        }),
        a.cols() == b.rows() && a.rows() == 0 ==> r is Ok,
        r matches Ok(c) ==> is_product(*a, *b, c),
{
    if a.col != b.row {
        return Err(Error::MatrixShapeMismatch { a_col: a.col, b_row: b.row });
    }
    let n = a.row;
    let p = a.col;
    let m = b.col;
    let ghost ad = a.data();
    let ghost bd = b.data();
    let mut data: Vec<i64> = Vec::new();
    let mut i: usize = 0;
    while i < n
        invariant
            n == a.rows(),
            p == a.cols(),
            p == b.rows(),
            m == b.cols(),
            ad == a.data(),
            bd == b.data(),
            multiply_fits(*a, *b),
            i <= n,
            data@.len() == i * m,
            i > 0 ==> forall|t: int| 0 <= t < m ==> (#[trigger] column(bd, m as int, t)).len() == p,
            forall|i2: int, j2: int|
                0 <= i2 < i && 0 <= j2 < m ==> #[trigger] cell(data@, m as int, i2, j2)
                    == product_cell(ad, bd, p as int, m as int, i2, j2),
        decreases n - i,
    {
        proof {
            assert((i + 1) * p <= n * p) by (nonlinear_arith)
                requires
                    i < n,
            ;
        }
        let mut j: usize = 0;
        while j < m
            invariant
                n == a.rows(),
                p == a.cols(),
                p == b.rows(),
                m == b.cols(),
                ad == a.data(),
                bd == b.data(),
                multiply_fits(*a, *b),
                i < n,
                (i + 1) * p <= ad.len(),
                j <= m,
                data@.len() == i * m + j,
                i > 0 ==> forall|t: int| 0 <= t < m ==> (#[trigger] column(bd, m as int, t)).len() == p,
                forall|t: int| 0 <= t < j ==> (#[trigger] column(bd, m as int, t)).len() == p,
                forall|i2: int, j2: int|
                    0 <= i2 < i && 0 <= j2 < m ==> #[trigger] cell(data@, m as int, i2, j2)
                        == product_cell(ad, bd, p as int, m as int, i2, j2),
                forall|j2: int|
                    0 <= j2 < j ==> #[trigger] cell(data@, m as int, i as int, j2)
                        == product_cell(ad, bd, p as int, m as int, i as int, j2),
            decreases m - j,
        {
            let row = a.row_values(i);
            let col = b.column_values(j);
            let ghost rs = row@;
            let ghost cs = col@;
            assert(i * p + p == (i + 1) * p && i * p >= 0) by (nonlinear_arith);
            assert(rs.len() == p);
            if col.len() == p {
                assert(vector::dot_fits(row_slice(ad, p as int, i as int), column(bd, m as int, j as int)));
            }
            let value = match dot_product(Vector::new(row), Vector::new(col)) {
                Ok(v) => v,
                Err(e) => {
                    proof {
                        assert(cs.len() != p);
                        assert(i == 0);
                        lemma_first_mismatch_skip(bd, m as int, p as int, 0, j as int);
                        assert(first_mismatch(bd, m as int, p as int, j as int) == Some(j as int));
                    }
                    return Err(e);
                },
            };
            let ghost old_data = data@;
            data.push(value);
            proof {
                assert forall|i2: int, j2: int|
                    0 <= i2 < i && 0 <= j2 < m implies #[trigger] cell(data@, m as int, i2, j2)
                    == product_cell(ad, bd, p as int, m as int, i2, j2) by {
                    lemma_cell_before(i2, j2, i as int, j as int, m as int);
                    assert(cell(data@, m as int, i2, j2) == cell(old_data, m as int, i2, j2));
                }
                assert forall|j2: int|
                    0 <= j2 < j + 1 implies #[trigger] cell(data@, m as int, i as int, j2)
                    == product_cell(ad, bd, p as int, m as int, i as int, j2) by {
                    if j2 < j {
                        assert(cell(data@, m as int, i as int, j2) == cell(
                            old_data,
                            m as int,
                            i as int,
                            j2,
                        ));
                    }
                }
            }
            j = j + 1;
        }
        proof {
            assert((i + 1) * m == i * m + m) by (nonlinear_arith);
        }
        i = i + 1;
    }
    proof {
        if n > 0 {
            lemma_first_mismatch_skip(bd, m as int, p as int, 0, m as int);
        }
    }
    Ok(Matrix { data, row: n, col: m })
}

/// The text of row `i` of a matrix of `col` columns stored in `data`: its
/// elements in decimal, separated by single spaces.
pub open spec fn row_text(data: Seq<i64>, col: int, i: int) -> Seq<char> {
    text::join(Seq::new(col as nat, |j: int| text::decimal(data[i * col + j] as int)), " "@)
}

/// The text of a matrix: its rows separated by `, `, between braces.
pub open spec fn matrix_text(data: Seq<i64>, row: int, col: int) -> Seq<char> {
    "{"@ + text::join(Seq::new(row as nat, |i: int| row_text(data, col, i)), ", "@) + "}"@
}

/// The text of a matrix together with its shape.
pub open spec fn matrix_debug_text(data: Seq<i64>, row: int, col: int) -> Seq<char> {
    "Matrix(row="@ + text::decimal(row) + ", col="@ + text::decimal(col) + ", "@ + matrix_text(data, row, col)
        + ")"@
}

impl Matrix<i64> {
    fn push_row_text(&self, s: &mut String, i: usize)
        requires
            self.cols() > 0,
            (i + 1) * self.cols() <= self.data().len(),
        ensures
            final(s)@ == old(s)@ + row_text(self.data(), self.cols() as int, i as int),
    {
        let p = self.col;
        let len = self.data.len();
        let ghost cells = Seq::new(p as nat, |j: int| text::decimal(self.data()[i * p + j] as int));
        proof {
            assert(i * p + p == (i + 1) * p && i * p >= 0) by (nonlinear_arith);
        }
        let ghost start = old(s)@;
        let mut j: usize = 0;
        while j < p
            invariant
                p == self.cols(),
                len == self.data().len(),
                i * p + p <= len,
                cells == Seq::new(p as nat, |j: int| text::decimal(self.data()[i * p + j] as int)),
                j <= p,
                s@ == start + text::join(cells.take(j as int), " "@),
            decreases p - j,
        {
            proof {
                text::lemma_join_take_step(cells, " "@, j as int);
                reveal_strlit(" ");
            }
            if j > 0 {
                s.append(" ");
            }
            push_i64(s, self.data[i * p + j]);
            j = j + 1;
        }
        proof {
            text::lemma_join_take_all(cells, " "@);
        }
    }

    fn push_matrix_text(&self, s: &mut String)
        requires
            self.rows() > 0 && self.cols() > 0 ==> self.rows() * self.cols() <= self.data().len(),
        ensures
            final(s)@ == old(s)@ + matrix_text(self.data(), self.rows() as int, self.cols() as int),
    {
        let n = self.row;
        let p = self.col;
        let ghost lines = Seq::new(n as nat, |i: int| row_text(self.data(), p as int, i));
        let ghost start = old(s)@;
        proof {
            reveal_strlit("{");
            reveal_strlit(", ");
            reveal_strlit("}");
        }
        s.append("{");
        let mut i: usize = 0;
        while i < n
            invariant
                n == self.rows(),
                p == self.cols(),
                n > 0 && p > 0 ==> n * p <= self.data().len(),
                lines == Seq::new(n as nat, |i: int| row_text(self.data(), p as int, i)),
                i <= n,
                s@ == start + "{"@ + text::join(lines.take(i as int), ", "@),
            decreases n - i,
        {
            proof {
                text::lemma_join_take_step(lines, ", "@, i as int);
            }
            if i > 0 {
                s.append(", ");
            }
            if p > 0 {
                proof {
                    assert((i + 1) * p <= n * p) by (nonlinear_arith)
                        requires
                            i < n,
                    ;
                }
                self.push_row_text(s, i);
            } else {
                assert(row_text(self.data(), p as int, i as int) =~= Seq::<char>::empty());
            }
            i = i + 1;
        }
        proof {
            text::lemma_join_take_all(lines, ", "@);
        }
        s.append("}");
    }

    /// The text of the matrix, such as `{22 28, 49 64}`: rows separated by
    /// `, `, elements of a row by a space, between braces.
    pub fn to_string(&self) -> (s: String)
        requires
            self.rows() > 0 && self.cols() > 0 ==> self.rows() * self.cols() <= self.data().len(),
        ensures
            s@ == matrix_text(self.data(), self.rows() as int, self.cols() as int),
    {
        let mut s = String::new();
        self.push_matrix_text(&mut s);
        s
    }

    /// The text of the matrix with its shape, such as
    /// `Matrix(row=2, col=2, {22 28, 49 64})`.
    pub fn debug_string(&self) -> (s: String)
        requires
            self.rows() > 0 && self.cols() > 0 ==> self.rows() * self.cols() <= self.data().len(),
        ensures
            s@ == matrix_debug_text(self.data(), self.rows() as int, self.cols() as int),
    {
        proof {
            reveal_strlit("Matrix(row=");
            reveal_strlit(", col=");
            reveal_strlit(", ");
            reveal_strlit(")");
        }
        let mut s = String::from_str("Matrix(row=");
        push_usize(&mut s, self.row);
        s.append(", col=");
        push_usize(&mut s, self.col);
        s.append(", ");
        self.push_matrix_text(&mut s);
        s.append(")");
        s
    }
}

} // verus!
