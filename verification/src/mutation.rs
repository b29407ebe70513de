//! The trace tampers and their kinds.
use vstd::prelude::*;

use crate::target::Target;

verus! {

/// A trace tamper.
#[derive(Debug)]
pub enum Mutation {
    /// XOR `mask` (truncated to column width) into a single cell.
    BitFlip { target: Target, col: usize, row: usize, mask: u128 },
    /// Inject a value (truncated to column width) that range checks must reject.
    OutOfBounds { target: Target, col: usize, row: usize, value: u128 },
    /// Toggle a cell of a `Bit` column.
    FlipSelector { target: Target, col: usize, row: usize },
    /// Swap every column between two rows.
    SwapRows { target: Target, row_a: usize, row_b: usize },
    /// Swap the listed columns between two rows, leaving the others in place.
    SwapColumns { target: Target, cols: Vec<usize>, row_a: usize, row_b: usize },
    /// Copy every column of `src_row` onto `dst_row`.
    DuplicateRow { target: Target, src_row: usize, dst_row: usize },
    /// Copy the listed columns of `src_row` onto `dst_row`.
    CopyColumns { target: Target, cols: Vec<usize>, src_row: usize, dst_row: usize },
    /// Overwrite every row of `col` with `value` (truncated to column width).
    ColumnUniformWrite { target: Target, col: usize, value: u128 },
    /// Zero every cell in the cross product of `rows` and `cols`.
    RowSegmentZero { target: Target, rows: Vec<usize>, cols: Vec<usize> },
    /// Replace row `i` of `col` with `base + i * step` (wrapping, then
    /// truncated to column width).
    MonotonicReplace { target: Target, col: usize, base: u128, step: u128 },
    /// Apply the mutations in order, as one tamper.
    Compound(Vec<Mutation>),
}

/// The variants that random search generates. `SwapColumns`,
/// `CopyColumns` and `Compound` are built by hand only.
#[derive(Clone, Copy, Debug, PartialEq, Eq, Structural, Hash)]
pub enum MutationKind {
    BitFlip,
    OutOfBounds,
    FlipSelector,
    SwapRows,
    DuplicateRow,
    ColumnUniformWrite,
    RowSegmentZero,
    MonotonicReplace,
}

/// The kind of `m`, if it has one.
pub open spec fn kind_of(m: Mutation) -> Option<MutationKind> {
    match m {
        Mutation::BitFlip { .. } => Some(MutationKind::BitFlip),
        Mutation::OutOfBounds { .. } => Some(MutationKind::OutOfBounds),
        Mutation::FlipSelector { .. } => Some(MutationKind::FlipSelector),
        Mutation::SwapRows { .. } => Some(MutationKind::SwapRows),
        Mutation::DuplicateRow { .. } => Some(MutationKind::DuplicateRow),
        Mutation::ColumnUniformWrite { .. } => Some(MutationKind::ColumnUniformWrite),
        Mutation::RowSegmentZero { .. } => Some(MutationKind::RowSegmentZero),
        Mutation::MonotonicReplace { .. } => Some(MutationKind::MonotonicReplace),
        Mutation::SwapColumns { .. } | Mutation::CopyColumns { .. } | Mutation::Compound(_) => None,
    }
}

/// The trace a non-compound mutation operates on.
pub open spec fn target_of(m: Mutation) -> Target {
    match m {
        Mutation::BitFlip { target, .. } => target,
        Mutation::OutOfBounds { target, .. } => target,
        Mutation::FlipSelector { target, .. } => target,
        Mutation::SwapRows { target, .. } => target,
        Mutation::SwapColumns { target, .. } => target,
        Mutation::DuplicateRow { target, .. } => target,
        Mutation::CopyColumns { target, .. } => target,
        Mutation::ColumnUniformWrite { target, .. } => target,
        Mutation::RowSegmentZero { target, .. } => target,
        Mutation::MonotonicReplace { target, .. } => target,
        Mutation::Compound(_) => Target::Main,
    }
}

impl Mutation {
    /// `Some` for the variants that random search generates; `None` for
    /// `SwapColumns`, `CopyColumns` and `Compound`.
    pub fn kind(&self) -> (res: Option<MutationKind>)
        ensures
            res == kind_of(*self),
    {
        match self {
            Mutation::BitFlip { .. } => Some(MutationKind::BitFlip),
            Mutation::OutOfBounds { .. } => Some(MutationKind::OutOfBounds),
            Mutation::FlipSelector { .. } => Some(MutationKind::FlipSelector),
            Mutation::SwapRows { .. } => Some(MutationKind::SwapRows),
            Mutation::DuplicateRow { .. } => Some(MutationKind::DuplicateRow),
            Mutation::ColumnUniformWrite { .. } => Some(MutationKind::ColumnUniformWrite),
            Mutation::RowSegmentZero { .. } => Some(MutationKind::RowSegmentZero),
            Mutation::MonotonicReplace { .. } => Some(MutationKind::MonotonicReplace),
            Mutation::SwapColumns { .. } | Mutation::CopyColumns { .. } | Mutation::Compound(_) => {
                None
            },
        }
    }
}

/// `a` and `b` are the same mutation: the same variant with equal fields,
/// lists with the same contents, and members that are the same in turn.
pub open spec fn same_mutation(a: Mutation, b: Mutation) -> bool
    decreases a,
{
    match a {
        Mutation::SwapColumns { target, cols, row_a, row_b } => b matches Mutation::SwapColumns {
            target: t,
            cols: c,
            row_a: ra,
            row_b: rb,
        } && t == target && c@ == cols@ && ra == row_a && rb == row_b,
        Mutation::CopyColumns { target, cols, src_row, dst_row } => b matches Mutation::CopyColumns {
            target: t,
            cols: c,
            src_row: s,
            dst_row: d,
        } && t == target && c@ == cols@ && s == src_row && d == dst_row,
        Mutation::RowSegmentZero { target, rows, cols } => b matches Mutation::RowSegmentZero {
            target: t,
            rows: r,
            cols: c,
        } && t == target && r@ == rows@ && c@ == cols@,
        Mutation::Compound(ms) => b matches Mutation::Compound(ns) && ns.len() == ms.len() && forall|i: int|
            0 <= i < ms.len() ==> same_mutation(#[trigger] ms@[i], ns@[i]),
        _ => a == b,
    }
}

/// A copy of the list `v`.
fn copy_list(v: &Vec<usize>) -> (r: Vec<usize>)
    ensures
        r@ == v@,
{
    let r = v.clone();
    assert(r@ =~= v@);
    r
}

/// A copy of `m`, member by member for a compound one.
fn copy_mutation(m: &Mutation) -> (r: Mutation)
    ensures
        same_mutation(*m, r),
    decreases m,
{
    match m {
        Mutation::BitFlip { target, col, row, mask } => Mutation::BitFlip { target: *target, col: *col, row: *row, mask: *mask },
        Mutation::OutOfBounds { target, col, row, value } => Mutation::OutOfBounds { target: *target, col: *col, row: *row, value: *value },
        Mutation::FlipSelector { target, col, row } => Mutation::FlipSelector { target: *target, col: *col, row: *row },
        Mutation::SwapRows { target, row_a, row_b } => Mutation::SwapRows { target: *target, row_a: *row_a, row_b: *row_b },
        Mutation::SwapColumns { target, cols, row_a, row_b } => Mutation::SwapColumns { target: *target, cols: copy_list(cols), row_a: *row_a, row_b: *row_b },
        Mutation::DuplicateRow { target, src_row, dst_row } => Mutation::DuplicateRow { target: *target, src_row: *src_row, dst_row: *dst_row },
        Mutation::CopyColumns { target, cols, src_row, dst_row } => Mutation::CopyColumns { target: *target, cols: copy_list(cols), src_row: *src_row, dst_row: *dst_row },
        Mutation::ColumnUniformWrite { target, col, value } => Mutation::ColumnUniformWrite { target: *target, col: *col, value: *value },
        Mutation::RowSegmentZero { target, rows, cols } => Mutation::RowSegmentZero { target: *target, rows: copy_list(rows), cols: copy_list(cols) },
        Mutation::MonotonicReplace { target, col, base, step } => Mutation::MonotonicReplace { target: *target, col: *col, base: *base, step: *step },
        Mutation::Compound(ms) => {
            let mut out: Vec<Mutation> = Vec::new();
            for i in 0..ms.len()
                invariant
                    *m == Mutation::Compound(*ms),
                    out@.len() == i,
                    forall|k: int| 0 <= k < i ==> same_mutation(#[trigger] ms@[k], out@[k]),
            {
                proof {
                    assert(decreases_to!(*m => (*m)->0));
                    assert(decreases_to!(*ms => ms@));
                    assert(decreases_to!(ms@ => ms@[i as int]));
                }
                out.push(copy_mutation(&ms[i]));
            }
            Mutation::Compound(out)
        },
    }
}

impl Clone for Mutation {
    fn clone(&self) -> (r: Self)
        ensures
            same_mutation(*self, r),
    {
        copy_mutation(self)
    }
}

} // verus!
