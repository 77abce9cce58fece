//! The tagged value type living on the operand stack.

use vstd::prelude::*;

verus! {

/// Mathematical shape of one operand: a binary64 scalar (as its bit
/// pattern) or a grid of them, row by row.
#[verifier::ext_equal]
pub enum OperandModel {
    Num(u64),
    Mat(Seq<Seq<u64>>),
}

/// Every row of a grid has the same length as the first one.
pub open spec fn grid_rect(m: Seq<Seq<u64>>) -> bool {
    forall|i: int| 0 <= i < m.len() ==> #[trigger] m[i].len() == m[0].len()
}

impl OperandModel {
    /// Every row of a matrix has the same length as the first one;
    /// scalars are trivially rectangular.
    pub open spec fn rect(self) -> bool {
        match self {
            OperandModel::Num(_) => true,
            OperandModel::Mat(m) => grid_rect(m),
        }
    }

    /// A well-formed operand: a scalar, or a rectangular matrix with at
    /// least one row and at least one column.  No operation of the
    /// engine ever constructs a matrix operand that violates this.
    pub open spec fn wf(self) -> bool {
        match self {
            OperandModel::Num(_) => true,
            OperandModel::Mat(m) => m.len() >= 1 && m[0].len() >= 1 && self.rect(),
        }
    }
}

/// The grid held by a matrix operand, row by row, as plain sequences.
pub open spec fn rows_view(rs: Seq<Vec<u64>>) -> Seq<Seq<u64>> {
    Seq::new(rs.len(), |i: int| rs[i]@)
}

/// One value resident on the operand stack: a scalar or a matrix.
/// Scalars are IEEE-754 binary64 bit patterns; a matrix is a non-empty
/// rectangular sequence of rows of them (a single-row matrix doubles as
/// a 1-D vector for display purposes).
#[derive(PartialEq, Eq, Debug)]
pub enum Operand {
    Number(u64),
    Matrix(Vec<Vec<u64>>),
}

impl View for Operand {
    type V = OperandModel;

    open spec fn view(&self) -> OperandModel {
        match self {
            Operand::Number(b) => OperandModel::Num(*b),
            Operand::Matrix(m) => OperandModel::Mat(rows_view(m@)),
        }
    }
}

/// The whole operand stack, oldest first, as operand models.
pub open spec fn stack_view(s: Seq<Operand>) -> Seq<OperandModel> {
    Seq::new(s.len(), |i: int| s[i]@)
}

/// An element-wise copy of a grid of scalars: the result shares no
/// storage with the argument.
fn copy_rows(m: &Vec<Vec<u64>>) -> (r: Vec<Vec<u64>>)
    ensures
        rows_view(r@) == rows_view(m@),
{
    let mut r: Vec<Vec<u64>> = Vec::new();
    let mut i: usize = 0;
    while i < m.len()
        invariant
            i <= m.len(),
            r@.len() == i,
            forall|k: int| 0 <= k < i ==> #[trigger] r@[k]@ == m@[k]@,
        decreases m.len() - i,
    {
        let row = &m[i];
        let mut copy: Vec<u64> = Vec::new();
        let mut j: usize = 0;
        while j < row.len()
            invariant
                j <= row.len(),
                copy@ =~= row@.take(j as int),
            decreases row.len() - j,
        {
            copy.push(row[j]);
            j += 1;
        }
        assert(copy@ =~= row@);
        r.push(copy);
        i += 1;
    }
    assert(rows_view(r@) =~= rows_view(m@));
    r
}

impl Operand {
    /// A deep, independent copy: matrix rows are copied element-wise,
    /// never aliased, so mutating the copy cannot affect the original.
    pub fn duplicate(&self) -> (r: Operand)
        ensures
            r@ == self@,
    {
        match self {
            Operand::Number(b) => Operand::Number(*b),
            Operand::Matrix(m) => Operand::Matrix(copy_rows(m)),
        }
    }
}

impl Clone for Operand {
    fn clone(&self) -> (r: Self)
        ensures
            r@ == self@,
    {
        self.duplicate()
    }
}

} // verus!
