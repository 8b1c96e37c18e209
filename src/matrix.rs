use vstd::prelude::*;
use vstd::string::StringExecFns;
use crate::counters::fits_i64;

verus! {

/// Why a product could not be formed.
#[derive(Debug, Clone, Copy, PartialEq, Eq, Structural)]
pub enum MatrixError {
    /// The first operand's column count differs from the second's row count,
    /// or two vectors differ in length.
    DimensionMismatch,
    /// A product or running sum left the range of `i64`.
    Overflow,
}

/// A dense matrix stored row by row: entry `(i, j)` is `data[i * col + j]`.
pub struct Matrix {
    pub data: Vec<i64>,
    pub row: usize,
    pub col: usize,
}

/// The sum of `a[k] * b[k]` over `k < n`.
pub open spec fn dot(a: Seq<i64>, b: Seq<i64>, n: int) -> int
    decreases n,
{
    if n <= 0 {
        0
    } else {
        dot(a, b, n - 1) + a[n - 1] as int * b[n - 1] as int
    }
}

/// Every product and every running sum of `dot(a, b, a.len())` fits in `i64`.
pub open spec fn dot_fits(a: Seq<i64>, b: Seq<i64>) -> bool {
    forall|n: int|
        0 <= n < a.len() ==> fits_i64(#[trigger] a[n] as int * b[n] as int) && fits_i64(
            dot(a, b, n + 1),
        )
}

/// Row `i` of `m`.
pub open spec fn row_of(m: Matrix, i: int) -> Seq<i64> {
    m.data@.subrange(i * m.col, i * m.col + m.col)
}

/// Column `j` of `m`.
pub open spec fn col_of(m: Matrix, j: int) -> Seq<i64> {
    Seq::new(m.row as nat, |k: int| m.data@[k * m.col + j])
}

/// Every entry of `a * b` can be computed without leaving the range of `i64`.
pub open spec fn product_fits(a: Matrix, b: Matrix) -> bool {
    forall|i: int, j: int|
        0 <= i < a.row && 0 <= j < b.col ==> #[trigger] dot_fits(row_of(a, i), col_of(b, j))
}

/// `data` holds exactly `row * col` entries.
pub open spec fn shaped(m: Matrix) -> bool {
    m.data@.len() == m.row as int * m.col as int
}

proof fn lemma_cell_index(i: int, j: int, rows: int, cols: int)
    requires
        0 <= i < rows,
        0 <= j < cols,
    ensures
        0 <= i * cols,
        i * cols + j < rows * cols,
        i * cols + cols <= rows * cols,
{
    assert(0 <= i * cols) by (nonlinear_arith)
        requires
            0 <= i,
            0 <= j < cols,
    ;
    assert(i * cols + cols <= rows * cols) by (nonlinear_arith)
        requires
            0 <= i < rows,
            0 <= j < cols,
    ;
}

proof fn lemma_earlier_cell(i2: int, j2: int, i: int, cols: int)
    requires
        0 <= i2 < i,
        0 <= j2 < cols,
    ensures
        i2 * cols + j2 < i * cols,
{
    assert(i2 * cols + cols <= i * cols) by (nonlinear_arith)
        requires
            0 <= i2 < i,
            0 <= j2 < cols,
    ;
}

/// The dot product of two vectors of equal length, with checked arithmetic.
pub fn dot_product(mxa: &[i64], mxb: &[i64]) -> (r: Result<i64, MatrixError>)
    ensures
        mxa@.len() != mxb@.len() <==> r == Err::<i64, MatrixError>(MatrixError::DimensionMismatch),
        mxa@.len() == mxb@.len() ==> (r is Ok <==> dot_fits(mxa@, mxb@)),
        mxa@.len() == mxb@.len() && !dot_fits(mxa@, mxb@) ==> r == Err::<i64, MatrixError>(
            MatrixError::Overflow,
        ),
        r matches Ok(v) ==> v == dot(mxa@, mxb@, mxa@.len() as int),
{
    if mxa.len() != mxb.len() {
        return Err(MatrixError::DimensionMismatch);
    }
    let mut sum: i64 = 0;
    let mut i: usize = 0;
    while i < mxa.len()
        invariant
            mxa@.len() == mxb@.len(),
            i <= mxa@.len(),
            sum as int == dot(mxa@, mxb@, i as int),
            forall|n: int|
                0 <= n < i ==> fits_i64(#[trigger] mxa@[n] as int * mxb@[n] as int) && fits_i64(
                    dot(mxa@, mxb@, n + 1),
                ),
        decreases mxa@.len() - i,
    {
        let p = match mxa[i].checked_mul(mxb[i]) {
            Some(p) => p,
            None => {
                assert(!fits_i64(mxa@[i as int] as int * mxb@[i as int] as int));
                return Err(MatrixError::Overflow);
            },
        };
        sum = match sum.checked_add(p) {
            Some(s) => s,
            None => {
                assert(!fits_i64(dot(mxa@, mxb@, i + 1)));
                assert(fits_i64(mxa@[i as int] as int * mxb@[i as int] as int));
                return Err(MatrixError::Overflow);
            },
        };
        i = i + 1;
    }
    Ok(sum)
}

/// The product `mxa * mxb`, entry by entry through `dot_product`.
pub fn matrix_multiply(mxa: &Matrix, mxb: &Matrix) -> (r: Result<Matrix, MatrixError>)
    requires
        shaped(*mxa),
        shaped(*mxb),
        mxa.row as int * mxb.col as int <= usize::MAX,
    ensures
        mxa.col != mxb.row ==> r == Err::<Matrix, MatrixError>(MatrixError::DimensionMismatch),
        mxa.col == mxb.row ==> (r is Ok <==> product_fits(*mxa, *mxb)),
        mxa.col == mxb.row && !product_fits(*mxa, *mxb) ==> r == Err::<Matrix, MatrixError>(
            MatrixError::Overflow,
        ),
        r matches Ok(c) ==> {
            &&& c.row == mxa.row
            &&& c.col == mxb.col
            &&& shaped(c)
            &&& forall|i: int, j: int|
                0 <= i < c.row && 0 <= j < c.col ==> #[trigger] c.data@[i * c.col + j] == dot(
                    row_of(*mxa, i),
                    col_of(*mxb, j),
                    mxa.col as int,
                )
        },
{
    if mxa.col != mxb.row {
        return Err(MatrixError::DimensionMismatch);
    }
    let rows = mxa.row;
    let inner = mxa.col;
    let cols = mxb.col;
    let alen = mxa.data.len();
    let blen = mxb.data.len();
    let mut data: Vec<i64> = Vec::new();
    let mut i: usize = 0;
    while i < rows
        invariant
            alen == mxa.data@.len(),
            blen == mxb.data@.len(),
            rows == mxa.row,
            inner == mxa.col,
            cols == mxb.col,
            inner == mxb.row,
            shaped(*mxa),
            shaped(*mxb),
            rows as int * cols as int <= usize::MAX,
            i <= rows,
            data@.len() == i as int * cols as int,
            forall|i2: int, j2: int|
                0 <= i2 < i && 0 <= j2 < cols ==> #[trigger] data@[i2 * cols + j2] == dot(
                    row_of(*mxa, i2),
                    col_of(*mxb, j2),
                    inner as int,
                ),
            forall|i2: int, j2: int|
                0 <= i2 < i && 0 <= j2 < cols ==> #[trigger] dot_fits(
                    row_of(*mxa, i2),
                    col_of(*mxb, j2),
                ),
        decreases rows - i,
    {
        proof {
            lemma_cell_index(i as int, 0, rows as int, inner as int + 1);
        }
        let mut row: Vec<i64> = Vec::new();
        let mut k: usize = 0;
        while k < inner
            invariant
                alen == mxa.data@.len(),
                rows == mxa.row,
                inner == mxa.col,
                shaped(*mxa),
                i < rows,
                k <= inner,
                row@.len() == k,
                forall|k2: int| 0 <= k2 < k ==> #[trigger] row@[k2] == mxa.data@[i * inner + k2],
            decreases inner - k,
        {
            proof {
                lemma_cell_index(i as int, k as int, rows as int, inner as int);
            }
            row.push(mxa.data[i * inner + k]);
            k = k + 1;
        }
        proof {
            assert(0 <= i * inner);
            if inner > 0 {
                lemma_cell_index(i as int, 0, rows as int, inner as int);
            } else {
                assert(i * inner == 0) by (nonlinear_arith)
                    requires
                        inner == 0,
                ;
            }
            assert(row@ =~= row_of(*mxa, i as int));
        }
        let mut j: usize = 0;
        while j < cols
            invariant
                alen == mxa.data@.len(),
                blen == mxb.data@.len(),
                rows == mxa.row,
                inner == mxa.col,
                cols == mxb.col,
                inner == mxb.row,
                shaped(*mxa),
                shaped(*mxb),
                rows as int * cols as int <= usize::MAX,
                i < rows,
                j <= cols,
                row@ == row_of(*mxa, i as int),
                0 <= i as int * inner as int,
                i as int * inner as int + inner as int <= alen as int,
                data@.len() == i as int * cols as int + j,
                forall|i2: int, j2: int|
                    0 <= i2 < i && 0 <= j2 < cols ==> #[trigger] data@[i2 * cols + j2] == dot(
                        row_of(*mxa, i2),
                        col_of(*mxb, j2),
                        inner as int,
                    ),
                forall|j2: int|
                    0 <= j2 < j ==> #[trigger] data@[i * cols + j2] == dot(
                        row_of(*mxa, i as int),
                        col_of(*mxb, j2),
                        inner as int,
                    ),
                forall|i2: int, j2: int|
                    0 <= i2 < i && 0 <= j2 < cols ==> #[trigger] dot_fits(
                        row_of(*mxa, i2),
                        col_of(*mxb, j2),
                    ),
                forall|j2: int|
                    0 <= j2 < j ==> #[trigger] dot_fits(row_of(*mxa, i as int), col_of(*mxb, j2)),
            decreases cols - j,
        {
            let mut column: Vec<i64> = Vec::new();
            let mut k: usize = 0;
            while k < inner
                invariant
                    blen == mxb.data@.len(),
                    inner == mxb.row,
                    cols == mxb.col,
                    shaped(*mxb),
                    j < cols,
                    k <= inner,
                    column@.len() == k,
                    forall|k2: int|
                        0 <= k2 < k ==> #[trigger] column@[k2] == mxb.data@[k2 * cols + j],
                decreases inner - k,
            {
                proof {
                    lemma_cell_index(k as int, j as int, inner as int, cols as int);
                }
                column.push(mxb.data[k * cols + j]);
                k = k + 1;
            }
            assert(column@ =~= col_of(*mxb, j as int));
            let rs = row.as_slice();
            let cs = column.as_slice();
            assert(rs@ == row_of(*mxa, i as int));
            assert(cs@ == col_of(*mxb, j as int));
            let v = match dot_product(rs, cs) {
                Ok(v) => v,
                Err(e) => {
                    assert(!dot_fits(row_of(*mxa, i as int), col_of(*mxb, j as int)));
                    return Err(e);
                },
            };
            proof {
                lemma_cell_index(i as int, j as int, rows as int, cols as int);
            }
            let ghost before = data@;
            data.push(v);
            proof {
                assert forall|i2: int, j2: int| 0 <= i2 < i && 0 <= j2 < cols implies #[trigger] data@[
                    i2 * cols + j2] == before[i2 * cols + j2] by {
                    lemma_earlier_cell(i2, j2, i as int, cols as int);
                }
            }
            j = j + 1;
        }
        proof {
            assert((i + 1) as int * cols as int == i as int * cols as int + cols as int)
                by (nonlinear_arith);
            lemma_cell_index(i as int, 0, rows as int, cols as int + 1);
        }
        i = i + 1;
    }
    Ok(Matrix { data, row: rows, col: cols })
}

/// The character of decimal digit `d`.
pub open spec fn digit_char(d: nat) -> char {
    if d == 0 { '0' } else if d == 1 { '1' } else if d == 2 { '2' } else if d == 3 { '3' }
    else if d == 4 { '4' } else if d == 5 { '5' } else if d == 6 { '6' } else if d == 7 { '7' }
    else if d == 8 { '8' } else { '9' }
}

/// The decimal digits of `n`, most significant first, without leading zeros.
pub open spec fn digits(n: nat) -> Seq<char>
    decreases n,
{
    if n < 10 {
        seq![digit_char(n)]
    } else {
        digits(n / 10).push(digit_char(n % 10))
    }
}

/// `n` written in decimal, with a leading `-` when negative.
pub open spec fn decimal(n: int) -> Seq<char> {
    if n < 0 {
        seq!['-'] + digits((-n) as nat)
    } else {
        digits(n as nat)
    }
}

/// Decimal digit `d` as text.
fn digit_text(d: u128) -> (r: &'static str)
    requires
        d < 10,
    ensures
        r@ == seq![digit_char(d as nat)],
{
    proof {
        reveal_strlit("0");
        reveal_strlit("1");
        reveal_strlit("2");
        reveal_strlit("3");
        reveal_strlit("4");
        reveal_strlit("5");
        reveal_strlit("6");
        reveal_strlit("7");
        reveal_strlit("8");
        reveal_strlit("9");
    }
    if d == 0 {
        "0"
    } else if d == 1 {
        "1"
    } else if d == 2 {
        "2"
    } else if d == 3 {
        "3"
    } else if d == 4 {
        "4"
    } else if d == 5 {
        "5"
    } else if d == 6 {
        "6"
    } else if d == 7 {
        "7"
    } else if d == 8 {
        "8"
    } else {
        "9"
    }
}

/// `n` in decimal, without leading zeros.
fn natural_text(n: u128) -> (r: String)
    ensures
        r@ == digits(n as nat),
    decreases n,
{
    if n < 10 {
        <String as StringExecFns>::from_str(digit_text(n))
    } else {
        let high = natural_text(n / 10);
        let r = high.concat(digit_text(n % 10));
        assert(r@ =~= digits(n as nat));
        r
    }
}

/// `n` in decimal, with a leading `-` when negative.
fn decimal_text(n: i128) -> (r: String)
    ensures
        r@ == decimal(n as int),
{
    if n < 0 {
        let magnitude: u128 = (-(n + 1)) as u128 + 1;
        let body = natural_text(magnitude);
        proof {
            reveal_strlit("-");
        }
        let r = <String as StringExecFns>::from_str("-").concat(body.as_str());
        assert(r@ =~= decimal(n as int));
        r
    } else {
        natural_text(n as u128)
    }
}

/// Entry `(i, j)` of `m` in decimal.
pub open spec fn cell_text(m: Matrix, i: int, j: int) -> Seq<char> {
    decimal(m.data@[i * m.col + j] as int)
}

/// The first `n` entries of row `i`, separated by single spaces.
pub open spec fn row_text(m: Matrix, i: int, n: int) -> Seq<char>
    decreases n,
{
    if n <= 0 {
        Seq::empty()
    } else if n == 1 {
        cell_text(m, i, 0)
    } else {
        row_text(m, i, n - 1) + " "@ + cell_text(m, i, n - 1)
    }
}

/// The first `n` rows, separated by a comma and a space.
pub open spec fn rows_text(m: Matrix, n: int) -> Seq<char>
    decreases n,
{
    if n <= 0 {
        Seq::empty()
    } else if n == 1 {
        row_text(m, 0, m.col as int)
    } else {
        rows_text(m, n - 1) + ", "@ + row_text(m, n - 1, m.col as int)
    }
}

/// The entries in braces, e.g. `{22 28, 49 64}`.
pub open spec fn grid_text(m: Matrix) -> Seq<char> {
    "{"@ + rows_text(m, m.row as int) + "}"@
}

/// The shape and the entries, e.g. `Matrix(row=2, col=2, {22 28, 49 64})`.
pub open spec fn matrix_text(m: Matrix) -> Seq<char> {
    "Matrix(row="@ + decimal(m.row as int) + ", col="@ + decimal(m.col as int) + ", "@
        + grid_text(m) + ")"@
}

impl Matrix {
    /// A matrix of `row` rows and `col` columns over `data`, taken row by row.
    pub fn new(data: Vec<i64>, row: usize, col: usize) -> (r: Self)
        ensures
            r.data@ == data@,
            r.row == row,
            r.col == col,
    {
        Matrix { data, row, col }
    }

    /// The entries in braces: rows separated by `", "`, entries by `" "`.
    pub fn to_display_string(&self) -> (r: String)
        requires
            self.data@.len() >= self.row as int * self.col as int,
        ensures
            r@ == grid_text(*self),
    {
        let len = self.data.len();
        let mut s = <String as StringExecFns>::from_str("{");
        let mut i: usize = 0;
        while i < self.row
            invariant
                self.data@.len() >= self.row as int * self.col as int,
                len == self.data@.len(),
                i <= self.row,
                s@ == "{"@ + rows_text(*self, i as int),
            decreases self.row - i,
        {
            let mut line = String::new();
            let mut j: usize = 0;
            while j < self.col
                invariant
                    self.data@.len() >= self.row as int * self.col as int,
                    len == self.data@.len(),
                    i < self.row,
                    j <= self.col,
                    line@ == row_text(*self, i as int, j as int),
                decreases self.col - j,
            {
                proof {
                    lemma_cell_index(i as int, j as int, self.row as int, self.col as int);
                }
                let t = decimal_text(self.data[i * self.col + j] as i128);
                if j > 0 {
                    line.append(" ");
                }
                line.append(t.as_str());
                assert(line@ =~= row_text(*self, i as int, j + 1));
                j = j + 1;
            }
            if i > 0 {
                s.append(", ");
            }
            s.append(line.as_str());
            assert(s@ =~= "{"@ + rows_text(*self, i + 1));
            i = i + 1;
        }
        s.append("}");
        s
    }

    /// The shape and the entries, as in `Matrix(row=2, col=2, {22 28, 49 64})`.
    pub fn to_debug_string(&self) -> (r: String)
        requires
            self.data@.len() >= self.row as int * self.col as int,
        ensures
            r@ == matrix_text(*self),
    {
        let mut s = <String as StringExecFns>::from_str("Matrix(row=");
        let row = decimal_text(self.row as i128);
        s.append(row.as_str());
        s.append(", col=");
        let col = decimal_text(self.col as i128);
        s.append(col.as_str());
        s.append(", ");
        let grid = self.to_display_string();
        s.append(grid.as_str());
        s.append(")");
        s
    }
}

} // verus!
