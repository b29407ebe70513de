//! Which cells a mutation may change, and the proof that it changes no other.
use vstd::prelude::*;

use crate::apply::{
    all_applicable, applicable, apply_all_spec, apply_spec, apply_to_trace_spec,
    lemma_applicable_same_shape, lemma_apply_all_shape,
    swap_listed_columns, trace_applicable
};
use crate::mutation::{target_of, Mutation};
use crate::target::Target;
use crate::trace::{
    cell_at, has_cell, lists, same_shape, same_trace_shape, trace_at, trace_has_cell, valid_target,
    TraceView, WitnessView
};

verus! {

/// A cell position: trace, column, row.
pub type CellPos = (Target, int, int);

/// Cell `(col, row)` of `tr` is one that the non-compound mutation `m` writes.
pub open spec fn in_trace_footprint(tr: TraceView, m: Mutation, col: int, row: int) -> bool {
    match m {
        Mutation::BitFlip { col: c, row: r, .. } => col == c && row == r,
        Mutation::OutOfBounds { col: c, row: r, .. } => col == c && row == r,
        Mutation::FlipSelector { col: c, row: r, .. } => col == c && row == r,
        Mutation::SwapRows { row_a, row_b, .. } => 0 <= col < tr.columns.len() && (row == row_a
            || row == row_b),
        Mutation::SwapColumns { cols, row_a, row_b, .. } => lists(cols@, col) && (row == row_a
            || row == row_b),
        Mutation::DuplicateRow { dst_row, .. } => 0 <= col < tr.columns.len() && row == dst_row,
        Mutation::CopyColumns { cols, dst_row, .. } => lists(cols@, col) && row == dst_row,
        Mutation::ColumnUniformWrite { col: c, .. } => col == c && 0 <= col < tr.columns.len() && 0
            <= row < tr.columns[col].cells.len(),
        Mutation::RowSegmentZero { rows, cols, .. } => lists(cols@, col) && lists(rows@, row),
        Mutation::MonotonicReplace { col: c, .. } => col == c && 0 <= col < tr.columns.len() && 0
            <= row < tr.columns[col].cells.len(),
        Mutation::Compound(_) => false,
    }
}

/// The cells of `w` that `m` writes (and that a snapshot taken before
/// applying it must record).
pub open spec fn footprint(w: WitnessView, m: Mutation) -> Set<CellPos>
    decreases m,
{
    match m {
        Mutation::Compound(ms) => footprint_all(w, ms@),
        _ => Set::new(
            |p: CellPos|
                p.0 == target_of(m) && valid_target(w, p.0) && in_trace_footprint(
                    trace_at(w, p.0),
                    m,
                    p.1,
                    p.2,
                ),
        ),
    }
}

/// The cells of `w` that the mutations of `ms` write.
pub open spec fn footprint_all(w: WitnessView, ms: Seq<Mutation>) -> Set<CellPos>
    decreases ms,
{
    if ms.len() == 0 {
        Set::empty()
    } else {
        footprint_all(w, ms.drop_last()).union(footprint(w, ms.last()))
    }
}

/// The footprint of a mutation depends on the shape of the witness only.
pub proof fn lemma_footprint_same_shape(a: WitnessView, b: WitnessView, m: Mutation)
    requires
        same_shape(a, b),
    ensures
        footprint(a, m) == footprint(b, m),
    decreases m,
{
    match m {
        Mutation::Compound(ms) => {
            lemma_footprint_all_same_shape(a, b, ms@);
        },
        _ => {
            let t = target_of(m);
            let ta = trace_at(a, t);
            let tb = trace_at(b, t);
            if valid_target(a, t) {
                assert(same_trace_shape(ta, tb));
            }
            assert forall|p: CellPos| #[trigger] footprint(a, m).contains(p) == footprint(b, m).contains(p) by {
                if valid_target(a, t) && 0 <= p.1 < ta.columns.len() {
                    assert(ta.columns[p.1].col_type == tb.columns[p.1].col_type);
                }
            }
            assert(footprint(a, m) =~= footprint(b, m));
        },
    }
}

/// The footprint of a sequence of mutations depends on the shape only.
pub proof fn lemma_footprint_all_same_shape(a: WitnessView, b: WitnessView, ms: Seq<Mutation>)
    requires
        same_shape(a, b),
    ensures
        footprint_all(a, ms) == footprint_all(b, ms),
    decreases ms,
{
    if ms.len() > 0 {
        lemma_footprint_all_same_shape(a, b, ms.drop_last());
        lemma_footprint_same_shape(a, b, ms.last());
    }
}

/// Swapping listed columns changes only rows `a` and `b` of listed columns.
proof fn lemma_swap_listed_frame(tr: TraceView, cols: Seq<usize>, a: int, b: int, col: int, row: int)
    requires
        forall|i: int| 0 <= i < cols.len() ==> trace_has_cell(tr, #[trigger] cols[i] as int, a) && trace_has_cell(tr, cols[i] as int, b),
        trace_has_cell(tr, col, row),
        !(lists(cols, col) && (row == a || row == b)),
    ensures
        swap_listed_columns(tr, cols, a, b).columns[col].cells[row] == tr.columns[col].cells[row],
        same_trace_shape(swap_listed_columns(tr, cols, a, b), tr),
    decreases cols.len(),
{
    if cols.len() > 0 {
        let prefix = cols.drop_last();
        assert forall|i: int| 0 <= i < prefix.len() implies trace_has_cell(tr, #[trigger] prefix[i] as int, a) && trace_has_cell(tr, prefix[i] as int, b) by {
            assert(prefix[i] == cols[i]);
        }
        if lists(prefix, col) {
            let j = choose|j: int| 0 <= j < prefix.len() && #[trigger] prefix[j] as int == col;
            assert(cols[j] as int == col);
        }
        lemma_swap_listed_frame(tr, prefix, a, b, col, row);
        assert(trace_has_cell(tr, cols.last() as int, a));
        if cols.last() as int == col {
            assert(cols[cols.len() - 1] as int == col);
        }
    }
}

/// A non-compound mutation changes no cell outside its footprint.
proof fn lemma_trace_frame(tr: TraceView, m: Mutation, col: int, row: int)
    requires
        trace_applicable(tr, m),
        trace_has_cell(tr, col, row),
        !in_trace_footprint(tr, m, col, row),
    ensures
        apply_to_trace_spec(tr, m).columns[col].cells[row] == tr.columns[col].cells[row],
{
    match m {
        Mutation::SwapColumns { cols, row_a, row_b, .. } => {
            lemma_swap_listed_frame(tr, cols@, row_a as int, row_b as int, col, row);
        },
        Mutation::RowSegmentZero { rows, cols, .. } => {},
        _ => {},
    }
}

/// Applying a mutation changes no cell outside its footprint.
pub proof fn lemma_frame(w: WitnessView, m: Mutation, p: CellPos)
    requires
        applicable(w, m),
        has_cell(w, p.0, p.1, p.2),
        !footprint(w, m).contains(p),
    ensures
        cell_at(apply_spec(w, m), p.0, p.1, p.2) == cell_at(w, p.0, p.1, p.2),
    decreases m,
{
    match m {
        Mutation::Compound(ms) => {
            lemma_frame_all(w, ms@, p);
        },
        _ => {
            let t = target_of(m);
            if p.0 == t {
                lemma_trace_frame(trace_at(w, t), m, p.1, p.2);
            }
        },
    }
}

/// Applying a sequence of mutations changes no cell outside its footprint.
pub proof fn lemma_frame_all(w: WitnessView, ms: Seq<Mutation>, p: CellPos)
    requires
        all_applicable(w, ms),
        has_cell(w, p.0, p.1, p.2),
        !footprint_all(w, ms).contains(p),
    ensures
        cell_at(apply_all_spec(w, ms), p.0, p.1, p.2) == cell_at(w, p.0, p.1, p.2),
    decreases ms,
{
    if ms.len() > 0 {
        let prefix = ms.drop_last();
        lemma_frame_all(w, prefix, p);
        let mid = apply_all_spec(w, prefix);
        lemma_apply_all_shape(w, prefix);
        lemma_applicable_same_shape(w, mid, ms.last());
        lemma_footprint_same_shape(w, mid, ms.last());
        lemma_shape_has_cell(mid, w, p);
        lemma_frame(mid, ms.last(), p);
    }
}

/// Witnesses of the same shape have the same cells.
pub proof fn lemma_shape_has_cell(a: WitnessView, b: WitnessView, p: CellPos)
    requires
        same_shape(a, b),
    ensures
        has_cell(a, p.0, p.1, p.2) == has_cell(b, p.0, p.1, p.2),
{
    if valid_target(a, p.0) {
        let ta = trace_at(a, p.0);
        let tb = trace_at(b, p.0);
        assert(same_trace_shape(ta, tb));
        if 0 <= p.1 < ta.columns.len() {
            assert(ta.columns[p.1].col_type == tb.columns[p.1].col_type);
        }
    }
}

} // verus!
