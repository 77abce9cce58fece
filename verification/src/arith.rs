//! Multiplication over operands: scalar product, scalar/matrix
//! broadcasting, and the standard matrix product.

use crate::errors::ErrorKind;
use crate::operand::{Operand, OperandModel, grid_rect, rows_view};
use crate::scalar::{add_bits, mul_bits};
use crate::scalar::{float_add, float_mul};
use vstd::prelude::*;

verus! {

/// The accumulated sum of the first `n` products of `r` and `c`,
/// folded left to right from positive zero, exactly as a running
/// binary64 accumulator computes it.
pub open spec fn dot_prefix(r: Seq<u64>, c: Seq<u64>, n: int) -> u64
    decreases n,
{
    if n <= 0 {
        0u64
    } else {
        add_bits(dot_prefix(r, c, n - 1), mul_bits(r[n - 1], c[n - 1]))
    }
}

/// The dot product of a row and a column.
pub open spec fn dot(r: Seq<u64>, c: Seq<u64>) -> u64 {
    dot_prefix(r, c, r.len() as int)
}

/// Column `j` of a grid.
pub open spec fn col(m: Seq<Seq<u64>>, j: int) -> Seq<u64> {
    Seq::new(m.len(), |k: int| m[k][j])
}

/// Every element scaled by `s` (each element is the left factor, the
/// scalar the right one).
pub open spec fn scale_model(m: Seq<Seq<u64>>, s: u64) -> Seq<Seq<u64>> {
    Seq::new(m.len(), |i: int| Seq::new(m[i].len(), |j: int| mul_bits(m[i][j], s)))
}

/// The standard matrix product: cell `(i, j)` is the dot product of
/// row `i` of `a` and column `j` of `b`.
pub open spec fn matmul_model(a: Seq<Seq<u64>>, b: Seq<Seq<u64>>) -> Seq<Seq<u64>> {
    Seq::new(a.len(), |i: int| Seq::new(b[0].len(), |j: int| dot(a[i], col(b, j))))
}

/// What multiplying two operands yields, by the case analysis of the
/// engine: scalar times scalar, scalar broadcast over a matrix (from
/// either side), or the matrix product, which needs the left column
/// count to equal the right row count and both matrices non-empty.
pub open spec fn multiply_model(a: OperandModel, b: OperandModel) -> Result<
    OperandModel,
    ErrorKind,
> {
    match (a, b) {
        (OperandModel::Num(x), OperandModel::Num(y)) => Ok(OperandModel::Num(mul_bits(x, y))),
        (OperandModel::Num(s), OperandModel::Mat(m)) => Ok(OperandModel::Mat(scale_model(m, s))),
        (OperandModel::Mat(m), OperandModel::Num(s)) => Ok(OperandModel::Mat(scale_model(m, s))),
        (OperandModel::Mat(x), OperandModel::Mat(y)) => {
            if x.len() == 0 || y.len() == 0 {
                Err(ErrorKind::EmptyOperand)
            } else if x[0].len() != y.len() {
                Err(ErrorKind::DimensionMismatch)
            } else {
                Ok(OperandModel::Mat(matmul_model(x, y)))
            }
        },
    }
}

/// Every element of the grid multiplied by `s`.
fn scale_rows(m: &Vec<Vec<u64>>, s: u64) -> (r: Vec<Vec<u64>>)
    ensures
        rows_view(r@) == scale_model(rows_view(m@), s),
{
    let mut r: Vec<Vec<u64>> = Vec::new();
    let mut i: usize = 0;
    while i < m.len()
        invariant
            i <= m.len(),
            r@.len() == i,
            forall|k: int| 0 <= k < i ==> #[trigger] r@[k]@ == scale_model(rows_view(m@), s)[k],
        decreases m.len() - i,
    {
        let row = &m[i];
        let mut out: Vec<u64> = Vec::new();
        let mut j: usize = 0;
        while j < row.len()
            invariant
                j <= row.len(),
                out@.len() == j,
                forall|k: int| 0 <= k < j ==> #[trigger] out@[k] == mul_bits(row@[k], s),
            decreases row.len() - j,
        {
            out.push(float_mul(row[j], s));
            j += 1;
        }
        proof {
            assert(out@ =~= scale_model(rows_view(m@), s)[i as int]);
        }
        r.push(out);
        i += 1;
    }
    proof {
        assert(rows_view(r@) =~= scale_model(rows_view(m@), s));
    }
    r
}

/// The matrix product of two rectangular, compatible grids.
fn mat_product(a: &Vec<Vec<u64>>, b: &Vec<Vec<u64>>) -> (r: Vec<Vec<u64>>)
    requires
        grid_rect(rows_view(a@)),
        grid_rect(rows_view(b@)),
        a@.len() > 0,
        b@.len() > 0,
        a@[0]@.len() == b@.len(),
    ensures
        rows_view(r@) == matmul_model(rows_view(a@), rows_view(b@)),
{
    let inner = b.len();
    let cols = b[0].len();
    let mut r: Vec<Vec<u64>> = Vec::new();
    let mut i: usize = 0;
    while i < a.len()
        invariant
            i <= a.len(),
            r@.len() == i,
            inner == b@.len(),
            cols == b@[0]@.len(),
            grid_rect(rows_view(a@)),
            grid_rect(rows_view(b@)),
            a@.len() > 0,
            b@.len() > 0,
            a@[0]@.len() == b@.len(),
            forall|k: int| 0 <= k < i ==> #[trigger] r@[k]@ == matmul_model(
                rows_view(a@),
                rows_view(b@),
            )[k],
        decreases a.len() - i,
    {
        let row = &a[i];
        let mut out: Vec<u64> = Vec::new();
        let mut j: usize = 0;
        proof {
            assert(rows_view(a@)[i as int] == a@[i as int]@);
            assert(rows_view(a@)[0] == a@[0]@);
            assert(rows_view(a@)[i as int].len() == rows_view(a@)[0].len());
        }
        while j < cols
            invariant
                j <= cols,
                out@.len() == j,
                inner == b@.len(),
                cols == b@[0]@.len(),
                grid_rect(rows_view(b@)),
                row@.len() == inner,
                i < a@.len(),
                row@ == a@[i as int]@,
                forall|k: int| 0 <= k < j ==> #[trigger] out@[k] == dot(
                    rows_view(a@)[i as int],
                    col(rows_view(b@), k),
                ),
            decreases cols - j,
        {
            let mut acc: u64 = 0;
            let mut k: usize = 0;
            while k < inner
                invariant
                    k <= inner,
                    inner == b@.len(),
                    j < cols,
                    cols == b@[0]@.len(),
                    grid_rect(rows_view(b@)),
                    row@.len() == inner,
                    acc == dot_prefix(row@, col(rows_view(b@), j as int), k as int),
                decreases inner - k,
            {
                proof {
                    assert(rows_view(b@)[k as int] == b@[k as int]@);
                    assert(rows_view(b@)[0] == b@[0]@);
                    assert(rows_view(b@)[k as int].len() == rows_view(b@)[0].len());
                }
                let term = float_mul(row[k], b[k][j]);
                acc = float_add(acc, term);
                proof {
                    assert(col(rows_view(b@), j as int)[k as int] == b@[k as int]@[j as int]);
                }
                k += 1;
            }
            proof {
                assert(row@ == rows_view(a@)[i as int]);
                assert(acc == dot(rows_view(a@)[i as int], col(rows_view(b@), j as int)));
            }
            out.push(acc);
            j += 1;
        }
        proof {
            assert(out@ =~= matmul_model(rows_view(a@), rows_view(b@))[i as int]);
        }
        r.push(out);
        i += 1;
    }
    proof {
        assert(rows_view(r@) =~= matmul_model(rows_view(a@), rows_view(b@)));
    }
    r
}

/// Multiplies two operands, consuming both and yielding exactly one
/// new operand, or the error the case analysis calls for.  Matrix
/// operands must be rectangular, which every operand built by the
/// engine is.
pub fn multiply(a: Operand, b: Operand) -> (r: Result<Operand, ErrorKind>)
    requires
        a@.rect(),
        b@.rect(),
    ensures
        r is Ok <==> multiply_model(a@, b@) is Ok,
        r is Ok ==> r->Ok_0@ == multiply_model(a@, b@)->Ok_0,
        r is Err ==> r->Err_0 == multiply_model(a@, b@)->Err_0,
{
    match (a, b) {
        (Operand::Number(x), Operand::Number(y)) => Ok(Operand::Number(float_mul(x, y))),
        (Operand::Number(s), Operand::Matrix(m)) => Ok(Operand::Matrix(scale_rows(&m, s))),
        (Operand::Matrix(m), Operand::Number(s)) => Ok(Operand::Matrix(scale_rows(&m, s))),
        (Operand::Matrix(x), Operand::Matrix(y)) => {
            if x.len() == 0 || y.len() == 0 {
                Err(ErrorKind::EmptyOperand)
            } else if x[0].len() != y.len() {
                Err(ErrorKind::DimensionMismatch)
            } else {
                Ok(Operand::Matrix(mat_product(&x, &y)))
            }
        },
    }
}

/// Law: multiplying an R-by-C matrix by a C-by-K matrix succeeds, and
/// the product is the R-by-K grid whose cell `(i, j)` is the dot
/// product of row `i` of the left and column `j` of the right matrix.
pub proof fn lemma_matmul_shape(a: Seq<Seq<u64>>, b: Seq<Seq<u64>>)
    requires
        a.len() > 0,
        b.len() > 0,
        a[0].len() == b.len(),
    ensures
        multiply_model(OperandModel::Mat(a), OperandModel::Mat(b)) == Ok::<
            OperandModel,
            ErrorKind,
        >(OperandModel::Mat(matmul_model(a, b))),
        matmul_model(a, b).len() == a.len(),
        forall|i: int, j: int|
            0 <= i < a.len() && 0 <= j < b[0].len() ==> #[trigger] matmul_model(a, b)[i][j] == dot(
                a[i],
                col(b, j),
            ),
{
}

/// Law: scaling a matrix by a scalar, from either side, succeeds and
/// yields a matrix of the same shape whose every cell is the product
/// of the original cell (left factor) and the scalar (right factor).
pub proof fn lemma_scale_shape(m: Seq<Seq<u64>>, s: u64)
    ensures
        multiply_model(OperandModel::Num(s), OperandModel::Mat(m)) == Ok::<
            OperandModel,
            ErrorKind,
        >(OperandModel::Mat(scale_model(m, s))),
        multiply_model(OperandModel::Mat(m), OperandModel::Num(s)) == Ok::<
            OperandModel,
            ErrorKind,
        >(OperandModel::Mat(scale_model(m, s))),
        scale_model(m, s).len() == m.len(),
        forall|i: int| 0 <= i < m.len() ==> #[trigger] scale_model(m, s)[i].len() == m[i].len(),
        forall|i: int, j: int|
            0 <= i < m.len() && 0 <= j < m[i].len() ==> #[trigger] scale_model(m, s)[i][j]
                == mul_bits(m[i][j], s),
{
}

/// Law: the matrix product is refused with `DimensionMismatch` exactly
/// when the left column count differs from the right row count, and
/// with `EmptyOperand` when either matrix has no rows.
pub proof fn lemma_matmul_mismatch(a: Seq<Seq<u64>>, b: Seq<Seq<u64>>)
    ensures
        a.len() == 0 || b.len() == 0 ==> multiply_model(OperandModel::Mat(a), OperandModel::Mat(b))
            == Err::<OperandModel, ErrorKind>(ErrorKind::EmptyOperand),
        a.len() > 0 && b.len() > 0 && a[0].len() != b.len() ==> multiply_model(
            OperandModel::Mat(a),
            OperandModel::Mat(b),
        ) == Err::<OperandModel, ErrorKind>(ErrorKind::DimensionMismatch),
{
}

/// Law: a successful multiplication of well-formed operands yields a
/// well-formed operand, so the stack invariant survives it.
pub proof fn lemma_multiply_wf(a: OperandModel, b: OperandModel)
    requires
        a.wf(),
        b.wf(),
        multiply_model(a, b) is Ok,
    ensures
        multiply_model(a, b)->Ok_0.wf(),
{
    match (a, b) {
        (OperandModel::Num(_), OperandModel::Num(_)) => {},
        (OperandModel::Num(s), OperandModel::Mat(m)) => {
            assert(scale_model(m, s)[0].len() == m[0].len());
        },
        (OperandModel::Mat(m), OperandModel::Num(s)) => {
            assert(scale_model(m, s)[0].len() == m[0].len());
        },
        (OperandModel::Mat(x), OperandModel::Mat(y)) => {
            assert(matmul_model(x, y)[0].len() == y[0].len());
        },
    }
}

} // verus!
