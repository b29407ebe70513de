//! Algebraic properties of applying mutations.
use vstd::prelude::*;

use crate::apply::{
    all_applicable, applicable, apply_all_spec, apply_spec, apply_to_trace_spec, fill_column, swap_column, xor_column, lemma_applicable_same_shape, lemma_apply_all_shape,
    monotonic_column, monotonic_value, swap_listed_columns,
    trace_applicable, u128_modulus};
use crate::mutation::{same_mutation, target_of, Mutation};
use crate::target::Target;
use crate::trace::{
    lists, trace_at, trace_has_cell, trace_within_width, valid_target, width_mask, with_trace,
    within_width, ColumnType, ColumnView, TraceView, WitnessView
};

verus! {

/// Every cell of `col` fits the width of the column.
pub open spec fn column_within_width(col: ColumnView) -> bool {
    forall|r: int| 0 <= r < col.cells.len() ==> (#[trigger] col.cells[r] & width_mask(col.col_type)) == col.cells[r]
}

proof fn lemma_trace_within_width_columns(tr: TraceView)
    ensures
        trace_within_width(tr) <==> forall|c: int| 0 <= c < tr.columns.len() ==> column_within_width(#[trigger] tr.columns[c]),
{
    if forall|c: int| 0 <= c < tr.columns.len() ==> column_within_width(#[trigger] tr.columns[c]) {
        assert forall|c: int, r: int| 0 <= c < tr.columns.len() && 0 <= r < tr.columns[c].cells.len() implies #[trigger] (
            tr.columns[c].cells[r] & width_mask(tr.columns[c].col_type)) == tr.columns[c].cells[r] by {
            assert(column_within_width(tr.columns[c]));
        }
    }
    if trace_within_width(tr) {
        assert forall|c: int| 0 <= c < tr.columns.len() implies column_within_width(#[trigger] tr.columns[c]) by {
            assert forall|r: int| 0 <= r < tr.columns[c].cells.len() implies (#[trigger] tr.columns[c].cells[r] & width_mask(tr.columns[c].col_type)) == tr.columns[c].cells[r] by {
                assert((tr.columns[c].cells[r] & width_mask(tr.columns[c].col_type)) == tr.columns[c].cells[r]);
            }
        }
    }
}

proof fn lemma_mask_idempotent(v: u128, m: u128)
    ensures
        ((v & m) & m) == (v & m),
        (0u128 & m) == 0,
{
    assert(((v & m) & m) == (v & m)) by (bit_vector);
    assert((0u128 & m) == 0) by (bit_vector);
}

proof fn lemma_xor_within(x: u128, y: u128, m: u128)
    requires
        (x & m) == x,
    ensures
        ((x ^ (y & m)) & m) == (x ^ (y & m)),
{
    assert((x & m) == x ==> ((x ^ (y & m)) & m) == (x ^ (y & m))) by (bit_vector);
}

proof fn lemma_toggle_within(x: u128)
    requires
        (x & 1) == x,
    ensures
        ((x ^ 1) & 1) == (x ^ 1),
{
    assert((x & 1) == x ==> ((x ^ 1) & 1) == (x ^ 1)) by (bit_vector);
}

proof fn lemma_swap_listed_within(tr: TraceView, cols: Seq<usize>, a: int, b: int)
    requires
        trace_within_width(tr),
        forall|i: int| 0 <= i < cols.len() ==> trace_has_cell(tr, #[trigger] cols[i] as int, a) && trace_has_cell(tr, cols[i] as int, b),
    ensures
        trace_within_width(swap_listed_columns(tr, cols, a, b)),
        swap_listed_columns(tr, cols, a, b).columns.len() == tr.columns.len(),
        forall|c: int| 0 <= c < tr.columns.len() ==> (#[trigger] swap_listed_columns(tr, cols, a, b).columns[c]).cells.len() == tr.columns[c].cells.len()
            && swap_listed_columns(tr, cols, a, b).columns[c].col_type == tr.columns[c].col_type,
    decreases cols.len(),
{
    if cols.len() > 0 {
        let front = cols.drop_last();
        assert forall|i: int| 0 <= i < front.len() implies trace_has_cell(tr, #[trigger] front[i] as int, a) && trace_has_cell(tr, front[i] as int, b) by {
            assert(front[i] == cols[i]);
        }
        lemma_swap_listed_within(tr, front, a, b);
        let prev = swap_listed_columns(tr, front, a, b);
        let c = cols.last() as int;
        assert(trace_has_cell(tr, cols[cols.len() - 1] as int, a));
        assert(trace_has_cell(tr, cols[cols.len() - 1] as int, b));
        lemma_trace_within_width_columns(prev);
        assert(column_within_width(prev.columns[c]));
        let next = swap_listed_columns(tr, cols, a, b);
        assert forall|k: int| 0 <= k < next.columns.len() implies column_within_width(#[trigger] next.columns[k]) by {
            if k == c {
                assert forall|r: int| 0 <= r < next.columns[k].cells.len() implies (#[trigger] next.columns[k].cells[r] & width_mask(next.columns[k].col_type)) == next.columns[k].cells[r] by {
                    if r == b {
                        assert(next.columns[k].cells[r] == prev.columns[c].cells[a]);
                    } else if r == a {
                        assert(next.columns[k].cells[r] == prev.columns[c].cells[b]);
                    } else {
                        assert(next.columns[k].cells[r] == prev.columns[c].cells[r]);
                    }
                }
            } else {
                assert(next.columns[k] == prev.columns[k]);
            }
        }
        lemma_trace_within_width_columns(next);
    }
}

/// A non-compound mutation keeps every cell of the trace within its width.
proof fn lemma_trace_within_width(tr: TraceView, m: Mutation)
    requires
        trace_within_width(tr),
        trace_applicable(tr, m),
    ensures
        trace_within_width(apply_to_trace_spec(tr, m)),
{
    lemma_trace_within_width_columns(tr);
    let res = apply_to_trace_spec(tr, m);
    match m {
        Mutation::SwapColumns { cols, row_a, row_b, .. } => {
            lemma_swap_listed_within(tr, cols@, row_a as int, row_b as int);
        },
        _ => {
            assert forall|c: int| 0 <= c < res.columns.len() implies column_within_width(#[trigger] res.columns[c]) by {
                let old_col = tr.columns[c];
                let new_col = res.columns[c];
                let wm = width_mask(old_col.col_type);
                assert(column_within_width(old_col));
                assert forall|r: int| 0 <= r < new_col.cells.len() implies (#[trigger] new_col.cells[r] & width_mask(new_col.col_type)) == new_col.cells[r] by {
                    match m {
                        Mutation::BitFlip { col, row, mask, .. } => {
                            if c == col && r == row {
                                lemma_xor_within(old_col.cells[r], mask, wm);
                            }
                        },
                        Mutation::OutOfBounds { col, row, value, .. } => {
                            lemma_mask_idempotent(value, wm);
                        },
                        Mutation::FlipSelector { col, row, .. } => {
                            if c == col && r == row {
                                lemma_toggle_within(old_col.cells[r]);
                            }
                        },
                        Mutation::SwapRows { row_a, row_b, .. } => {
                            if r == row_b {
                                assert(new_col.cells[r] == old_col.cells[row_a as int]);
                            } else if r == row_a {
                                assert(new_col.cells[r] == old_col.cells[row_b as int]);
                            }
                        },
                        Mutation::DuplicateRow { src_row, dst_row, .. } => {
                            if r == dst_row {
                                assert(new_col.cells[r] == old_col.cells[src_row as int]);
                            }
                        },
                        Mutation::CopyColumns { cols, src_row, dst_row, .. } => {
                            if lists(cols@, c) && r == dst_row {
                                assert(new_col.cells[r] == old_col.cells[src_row as int]);
                            }
                        },
                        Mutation::ColumnUniformWrite { col, value, .. } => {
                            lemma_mask_idempotent(value, wm);
                        },
                        Mutation::RowSegmentZero { rows, cols, .. } => {
                            lemma_mask_idempotent(0, wm);
                        },
                        Mutation::MonotonicReplace { col, base, step, .. } => {
                            lemma_mask_idempotent(monotonic_value(base, step, r), wm);
                        },
                        _ => {},
                    }
                }
            }
            lemma_trace_within_width_columns(res);
        },
    }
}

/// Applying a mutation keeps every cell within the width of its column:
/// what is written is truncated to it.
pub proof fn lemma_apply_within_width(w: WitnessView, m: Mutation)
    requires
        within_width(w),
        applicable(w, m),
    ensures
        within_width(apply_spec(w, m)),
    decreases m,
{
    match m {
        Mutation::Compound(ms) => {
            lemma_apply_all_within_width(w, ms@);
        },
        _ => {
            let t = target_of(m);
            lemma_trace_within_width(trace_at(w, t), m);
            let r = apply_spec(w, m);
            assert forall|i: int| 0 <= i < r.chiplet_traces.len() implies trace_within_width(#[trigger] r.chiplet_traces[i]) by {
                if t != Target::Chiplet(i as usize) {
                    assert(r.chiplet_traces[i] == w.chiplet_traces[i]);
                }
            }
        },
    }
}

/// Applying a sequence of mutations keeps every cell within its width.
pub proof fn lemma_apply_all_within_width(w: WitnessView, ms: Seq<Mutation>)
    requires
        within_width(w),
        all_applicable(w, ms),
    ensures
        within_width(apply_all_spec(w, ms)),
    decreases ms,
{
    if ms.len() > 0 {
        lemma_apply_all_within_width(w, ms.drop_last());
        let mid = apply_all_spec(w, ms.drop_last());
        lemma_apply_all_shape(w, ms.drop_last());
        lemma_applicable_same_shape(w, mid, ms.last());
        lemma_apply_within_width(mid, ms.last());
    }
}

/// Replacing a trace by itself leaves a witness as it is.
proof fn lemma_with_same_trace(w: WitnessView, t: Target)
    requires
        valid_target(w, t),
    ensures
        with_trace(w, t, trace_at(w, t)) == w,
{
    if let Target::Chiplet(i) = t {
        assert(w.chiplet_traces.update(i as int, w.chiplet_traces[i as int]) =~= w.chiplet_traces);
    }
}

/// Replacing a trace twice keeps the second replacement.
proof fn lemma_with_trace_twice(w: WitnessView, t: Target, a: TraceView, b: TraceView)
    requires
        valid_target(w, t),
    ensures
        with_trace(with_trace(w, t, a), t, b) == with_trace(w, t, b),
        trace_at(with_trace(w, t, a), t) == a,
        valid_target(with_trace(w, t, a), t),
{
    if let Target::Chiplet(i) = t {
        assert(w.chiplet_traces.update(i as int, a).update(i as int, b) =~= w.chiplet_traces.update(i as int, b));
    }
}

/// Flipping the same bits of a cell twice restores it.
pub proof fn lemma_bit_flip_twice(w: WitnessView, target: Target, col: usize, row: usize, mask: u128)
    requires
        applicable(w, Mutation::BitFlip { target, col, row, mask }),
    ensures
        apply_spec(apply_spec(w, Mutation::BitFlip { target, col, row, mask }), Mutation::BitFlip { target, col, row, mask }) == w,
{
    let m = Mutation::BitFlip { target, col, row, mask };
    let tr = trace_at(w, target);
    let once = apply_to_trace_spec(tr, m);
    lemma_with_trace_twice(w, target, once, apply_to_trace_spec(once, m));
    let x = tr.columns[col as int].cells[row as int];
    let k = mask & width_mask(tr.columns[col as int].col_type);
    assert((x ^ k) ^ k == x) by (bit_vector);
    assert(apply_to_trace_spec(once, m).columns[col as int].cells =~= tr.columns[col as int].cells);
    assert(apply_to_trace_spec(once, m).columns =~= tr.columns);
    lemma_with_same_trace(w, target);
}

/// Toggling a selector twice restores it.
pub proof fn lemma_flip_selector_twice(w: WitnessView, target: Target, col: usize, row: usize)
    requires
        applicable(w, Mutation::FlipSelector { target, col, row }),
    ensures
        apply_spec(apply_spec(w, Mutation::FlipSelector { target, col, row }), Mutation::FlipSelector { target, col, row }) == w,
{
    let m = Mutation::FlipSelector { target, col, row };
    let tr = trace_at(w, target);
    let once = apply_to_trace_spec(tr, m);
    lemma_with_trace_twice(w, target, once, apply_to_trace_spec(once, m));
    let x = tr.columns[col as int].cells[row as int];
    assert((x ^ 1) ^ 1 == x) by (bit_vector);
    assert(apply_to_trace_spec(once, m).columns[col as int].cells =~= tr.columns[col as int].cells);
    assert(apply_to_trace_spec(once, m).columns =~= tr.columns);
    lemma_with_same_trace(w, target);
}

/// Swapping two rows twice restores the trace.
pub proof fn lemma_swap_rows_twice(w: WitnessView, target: Target, row_a: usize, row_b: usize)
    requires
        applicable(w, Mutation::SwapRows { target, row_a, row_b }),
    ensures
        apply_spec(apply_spec(w, Mutation::SwapRows { target, row_a, row_b }), Mutation::SwapRows { target, row_a, row_b }) == w,
{
    let m = Mutation::SwapRows { target, row_a, row_b };
    let tr = trace_at(w, target);
    let once = apply_to_trace_spec(tr, m);
    lemma_with_trace_twice(w, target, once, apply_to_trace_spec(once, m));
    let twice = apply_to_trace_spec(once, m);
    assert forall|c: int| 0 <= c < tr.columns.len() implies #[trigger] twice.columns[c] == tr.columns[c] by {
        assert(row_a < tr.columns[c].cells.len() && row_b < tr.columns[c].cells.len());
        assert(twice.columns[c].cells =~= tr.columns[c].cells);
    }
    assert(twice.columns =~= tr.columns);
    lemma_with_same_trace(w, target);
}

/// Swapping rows `a` and `b` is swapping rows `b` and `a`.
pub proof fn lemma_swap_rows_symmetric(w: WitnessView, target: Target, row_a: usize, row_b: usize)
    requires
        applicable(w, Mutation::SwapRows { target, row_a, row_b }),
    ensures
        applicable(w, Mutation::SwapRows { target, row_a: row_b, row_b: row_a }),
        apply_spec(w, Mutation::SwapRows { target, row_a, row_b }) == apply_spec(w, Mutation::SwapRows { target, row_a: row_b, row_b: row_a }),
{
    let tr = trace_at(w, target);
    let x = apply_to_trace_spec(tr, Mutation::SwapRows { target, row_a, row_b });
    let y = apply_to_trace_spec(tr, Mutation::SwapRows { target, row_a: row_b, row_b: row_a });
    assert forall|c: int| 0 <= c < tr.columns.len() implies #[trigger] x.columns[c] == y.columns[c] by {
        assert(row_a < tr.columns[c].cells.len() && row_b < tr.columns[c].cells.len());
        assert(x.columns[c].cells =~= y.columns[c].cells);
    }
    assert(x.columns =~= y.columns);
}

/// A monotonic replacement with step zero writes its base to every row, as
/// a uniform write of the base does.
pub proof fn lemma_monotonic_step_zero(w: WitnessView, target: Target, col: usize, base: u128)
    requires
        applicable(w, Mutation::MonotonicReplace { target, col, base, step: 0 }),
    ensures
        apply_spec(w, Mutation::MonotonicReplace { target, col, base, step: 0 }) == apply_spec(
            w,
            Mutation::ColumnUniformWrite { target, col, value: base },
        ),
{
    let tr = trace_at(w, target);
    let c = tr.columns[col as int];
    assert forall|r: int| 0 <= r < c.cells.len() implies #[trigger] monotonic_value(base, 0, r) == base by {
        vstd::arithmetic::div_mod::lemma_small_mod(base as nat, u128_modulus() as nat);
    }
    assert(monotonic_column(c, base, 0).cells =~= fill_column(c, base).cells);
    assert(apply_to_trace_spec(tr, Mutation::MonotonicReplace { target, col, base, step: 0 }).columns
        =~= apply_to_trace_spec(tr, Mutation::ColumnUniformWrite { target, col, value: base }).columns);
}

/// A mask between one and the column's width mask survives truncation to
/// the column width.
proof fn lemma_mask_fits(mask: u128, t: ColumnType)
    requires
        1 <= mask <= width_mask(t),
    ensures
        (mask & width_mask(t)) == mask,
        (mask & width_mask(t)) != 0,
{
    match t {
        ColumnType::Bit => {
            assert(1 <= mask <= 1 ==> (mask & 1) == mask) by (bit_vector);
        },
        ColumnType::B8 => {
            assert(mask <= 0xFF ==> (mask & 0xFF) == mask) by (bit_vector);
        },
        ColumnType::B16 => {
            assert(mask <= 0xFFFF ==> (mask & 0xFFFF) == mask) by (bit_vector);
        },
        ColumnType::B32 => {
            assert(mask <= 0xFFFF_FFFF ==> (mask & 0xFFFF_FFFF) == mask) by (bit_vector);
        },
        ColumnType::B64 => {
            assert(mask <= 0xFFFF_FFFF_FFFF_FFFF ==> (mask & 0xFFFF_FFFF_FFFF_FFFF) == mask) by (bit_vector);
        },
        ColumnType::B128 => {
            assert((mask & 0xFFFF_FFFF_FFFF_FFFF_FFFF_FFFF_FFFF_FFFF) == mask) by (bit_vector);
        },
    }
}

/// A bit flip whose mask is between one and the column's width mask (the
/// masks random search draws) changes the cell it targets.
pub proof fn lemma_bit_flip_changes_cell(w: WitnessView, target: Target, col: usize, row: usize, mask: u128)
    requires
        applicable(w, Mutation::BitFlip { target, col, row, mask }),
        1 <= mask <= width_mask(trace_at(w, target).columns[col as int].col_type),
    ensures
        trace_at(apply_spec(w, Mutation::BitFlip { target, col, row, mask }), target).columns[col as int].cells[row as int]
            != trace_at(w, target).columns[col as int].cells[row as int],
{
    let t = trace_at(w, target).columns[col as int].col_type;
    lemma_mask_fits(mask, t);
    let x = trace_at(w, target).columns[col as int].cells[row as int];
    let k = mask & width_mask(t);
    assert(k != 0 ==> (x ^ k) != x) by (bit_vector);
}

/// A copy of a mutation (as `clone` makes) is accepted on the same witnesses
/// and produces the same witness.
pub proof fn lemma_same_mutation_applies_alike(w: WitnessView, a: Mutation, b: Mutation)
    requires
        same_mutation(a, b),
    ensures
        applicable(w, a) == applicable(w, b),
        apply_spec(w, a) == apply_spec(w, b),
    decreases a,
{
    match a {
        Mutation::Compound(ms) => {
            let ns = b->0;
            assert(decreases_to!(a => ms));
            lemma_same_mutations_apply_alike(w, ms@, ns@);
        },
        Mutation::SwapColumns { .. } | Mutation::CopyColumns { .. } | Mutation::RowSegmentZero { .. } => {
            assert(target_of(a) == target_of(b));
            assert(trace_applicable(trace_at(w, target_of(a)), a) == trace_applicable(trace_at(w, target_of(a)), b));
            assert(apply_to_trace_spec(trace_at(w, target_of(a)), a) == apply_to_trace_spec(trace_at(w, target_of(a)), b));
        },
        _ => {},
    }
}

/// Copies of a list of mutations, member by member, are accepted on the
/// same witnesses and produce the same witness.
pub proof fn lemma_same_mutations_apply_alike(w: WitnessView, ms: Seq<Mutation>, ns: Seq<Mutation>)
    requires
        ms.len() == ns.len(),
        forall|i: int| 0 <= i < ms.len() ==> same_mutation(#[trigger] ms[i], ns[i]),
    ensures
        all_applicable(w, ms) == all_applicable(w, ns),
        apply_all_spec(w, ms) == apply_all_spec(w, ns),
    decreases ms,
{
    if ms.len() > 0 {
        let k = ms.len() - 1;
        assert(same_mutation(ms[k], ns[k]));
        lemma_same_mutations_apply_alike(w, ms.drop_last(), ns.drop_last());
        lemma_same_mutation_applies_alike(w, ms.last(), ns.last());
        lemma_same_mutation_applies_alike(apply_all_spec(w, ms.drop_last()), ms.last(), ns.last());
    }
}

/// XORing the same mask into a cell twice (what `xor_cell` does twice)
/// restores the column.
pub proof fn lemma_xor_column_twice(col: ColumnView, row: int, mask: u128)
    requires
        0 <= row < col.cells.len(),
    ensures
        xor_column(xor_column(col, row, mask), row, mask) == col,
{
    let x = col.cells[row];
    let k = mask & width_mask(col.col_type);
    assert((x ^ k) ^ k == x) by (bit_vector);
    assert(xor_column(xor_column(col, row, mask), row, mask).cells =~= col.cells);
}

/// Exchanging two rows of a column (what `swap_cells` does) twice restores
/// the column, and exchanging a row with itself changes nothing.
pub proof fn lemma_swap_column_twice(col: ColumnView, a: int, b: int)
    requires
        0 <= a < col.cells.len(),
        0 <= b < col.cells.len(),
    ensures
        swap_column(swap_column(col, a, b), a, b) == col,
        a == b ==> swap_column(col, a, b) == col,
{
    assert(swap_column(swap_column(col, a, b), a, b).cells =~= col.cells);
    assert(a == b ==> swap_column(col, a, b).cells =~= col.cells);
}

/// A `CopyColumns` applies exactly when its trace exists and every listed
/// column exists and holds both the source and the destination row,
/// whichever of the two comes first.
pub proof fn lemma_copy_columns_applicable(w: WitnessView, target: Target, cols: Vec<usize>, src_row: usize, dst_row: usize)
    ensures
        applicable(w, Mutation::CopyColumns { target, cols, src_row, dst_row }) <==> {
            &&& valid_target(w, target)
            &&& forall|i: int|
                0 <= i < cols.len() ==> {
                    &&& #[trigger] cols@[i] < trace_at(w, target).columns.len()
                    &&& src_row < trace_at(w, target).columns[cols@[i] as int].cells.len()
                    &&& dst_row < trace_at(w, target).columns[cols@[i] as int].cells.len()
                }
        },
{
    let tr = trace_at(w, target);
    let m = Mutation::CopyColumns { target, cols, src_row, dst_row };
    assert(m->CopyColumns_cols@ == cols@);
    assert(trace_applicable(tr, m) == (forall|i: int|
            0 <= i < cols.len() ==> trace_has_cell(tr, #[trigger] cols@[i] as int, src_row as int)
                && trace_has_cell(tr, cols@[i] as int, dst_row as int)));
    let listed = forall|i: int|
        0 <= i < cols.len() ==> {
            &&& #[trigger] cols@[i] < tr.columns.len()
            &&& src_row < tr.columns[cols@[i] as int].cells.len()
            &&& dst_row < tr.columns[cols@[i] as int].cells.len()
        };
    assert(applicable(w, m) == (valid_target(w, target) && trace_applicable(tr, m)));
    if trace_applicable(tr, m) {
        assert forall|i: int| 0 <= i < cols.len() implies {
            &&& #[trigger] cols@[i] < tr.columns.len()
            &&& src_row < tr.columns[cols@[i] as int].cells.len()
            &&& dst_row < tr.columns[cols@[i] as int].cells.len()
        } by {
            assert(trace_has_cell(tr, cols@[i] as int, src_row as int));
        }
    }
    if listed {
        assert forall|i: int| 0 <= i < cols.len() implies trace_has_cell(tr, #[trigger] cols@[i] as int, src_row as int)
            && trace_has_cell(tr, cols@[i] as int, dst_row as int) by {
            assert(cols@[i] < tr.columns.len());
        }
    }
}

/// Whether a row-moving mutation applies does not depend on the order of
/// its two rows.
pub proof fn lemma_row_order_irrelevant(w: WitnessView, target: Target, cols: Vec<usize>, a: usize, b: usize)
    ensures
        applicable(w, Mutation::SwapRows { target, row_a: a, row_b: b }) == applicable(
            w,
            Mutation::SwapRows { target, row_a: b, row_b: a },
        ),
        applicable(w, Mutation::DuplicateRow { target, src_row: a, dst_row: b }) == applicable(
            w,
            Mutation::DuplicateRow { target, src_row: b, dst_row: a },
        ),
        applicable(w, Mutation::SwapColumns { target, cols, row_a: a, row_b: b }) == applicable(
            w,
            Mutation::SwapColumns { target, cols, row_a: b, row_b: a },
        ),
        applicable(w, Mutation::CopyColumns { target, cols, src_row: a, dst_row: b }) == applicable(
            w,
            Mutation::CopyColumns { target, cols, src_row: b, dst_row: a },
        ),
{
    let tr = trace_at(w, target);
    let pair = |x: usize, y: usize| forall|i: int|
        0 <= i < cols.len() ==> trace_has_cell(tr, #[trigger] cols@[i] as int, x as int)
            && trace_has_cell(tr, cols@[i] as int, y as int);
    let sc = Mutation::SwapColumns { target, cols, row_a: a, row_b: b };
    let sc2 = Mutation::SwapColumns { target, cols, row_a: b, row_b: a };
    let cc = Mutation::CopyColumns { target, cols, src_row: a, dst_row: b };
    let cc2 = Mutation::CopyColumns { target, cols, src_row: b, dst_row: a };
    assert(sc->SwapColumns_cols@ == cols@ && sc2->SwapColumns_cols@ == cols@);
    assert(cc->CopyColumns_cols@ == cols@ && cc2->CopyColumns_cols@ == cols@);
    assert(trace_applicable(tr, Mutation::SwapColumns { target, cols, row_a: a, row_b: b }) == pair(a, b));
    assert(trace_applicable(tr, Mutation::SwapColumns { target, cols, row_a: b, row_b: a }) == pair(b, a));
    assert(trace_applicable(tr, Mutation::CopyColumns { target, cols, src_row: a, dst_row: b }) == pair(a, b));
    assert(trace_applicable(tr, Mutation::CopyColumns { target, cols, src_row: b, dst_row: a }) == pair(b, a));
    assert(pair(a, b) == pair(b, a));
}

/// What a non-compound mutation other than `SwapColumns` leaves in each
/// cell of the trace it targets, in terms of the cells before it: the cell
/// it names gets the XOR, the truncated value or the toggled bit; rows are
/// exchanged or copied in every column; listed columns get the copied row
/// or zeros in the listed rows; a whole column gets the truncated value or
/// the wrapping progression; every other cell keeps its value.
pub proof fn lemma_cell_after(tr: TraceView, m: Mutation, c: int, r: int)
    requires
        trace_applicable(tr, m),
        trace_has_cell(tr, c, r),
        !(m is Compound),
        !(m is SwapColumns),
    ensures
        apply_to_trace_spec(tr, m).columns.len() == tr.columns.len(),
        apply_to_trace_spec(tr, m).columns[c].col_type == tr.columns[c].col_type,
        apply_to_trace_spec(tr, m).columns[c].cells.len() == tr.columns[c].cells.len(),
        apply_to_trace_spec(tr, m).columns[c].cells[r] == match m {
            Mutation::BitFlip { col, row, mask, .. } => if c == col && r == row {
                tr.columns[c].cells[r] ^ (mask & width_mask(tr.columns[c].col_type))
            } else {
                tr.columns[c].cells[r]
            },
            Mutation::OutOfBounds { col, row, value, .. } => if c == col && r == row {
                value & width_mask(tr.columns[c].col_type)
            } else {
                tr.columns[c].cells[r]
            },
            Mutation::FlipSelector { col, row, .. } => if c == col && r == row {
                tr.columns[c].cells[r] ^ 1
            } else {
                tr.columns[c].cells[r]
            },
            Mutation::SwapRows { row_a, row_b, .. } => if r == row_b {
                tr.columns[c].cells[row_a as int]
            } else if r == row_a {
                tr.columns[c].cells[row_b as int]
            } else {
                tr.columns[c].cells[r]
            },
            Mutation::DuplicateRow { src_row, dst_row, .. } => if r == dst_row {
                tr.columns[c].cells[src_row as int]
            } else {
                tr.columns[c].cells[r]
            },
            Mutation::CopyColumns { cols, src_row, dst_row, .. } => if r == dst_row && exists|i: int|
                0 <= i < cols.len() && cols@[i] == c {
                tr.columns[c].cells[src_row as int]
            } else {
                tr.columns[c].cells[r]
            },
            Mutation::ColumnUniformWrite { col, value, .. } => if c == col {
                value & width_mask(tr.columns[c].col_type)
            } else {
                tr.columns[c].cells[r]
            },
            Mutation::RowSegmentZero { rows, cols, .. } => if (exists|i: int| 0 <= i < cols.len() && cols@[i] == c)
                && (exists|j: int| 0 <= j < rows.len() && rows@[j] == r) {
                0
            } else {
                tr.columns[c].cells[r]
            },
            Mutation::MonotonicReplace { col, base, step, .. } => if c == col {
                (((base + r * step) % 0x1_0000_0000_0000_0000_0000_0000_0000_0000int) as u128) & width_mask(
                    tr.columns[c].col_type,
                )
            } else {
                tr.columns[c].cells[r]
            },
            _ => tr.columns[c].cells[r],
        },
{
    match m {
        Mutation::SwapRows { row_a, row_b, .. } => {
            assert(row_a < tr.columns[c].cells.len() && row_b < tr.columns[c].cells.len());
        },
        Mutation::DuplicateRow { src_row, dst_row, .. } => {
            assert(src_row < tr.columns[c].cells.len() && dst_row < tr.columns[c].cells.len());
        },
        Mutation::CopyColumns { cols, src_row, dst_row, .. } => {
            if exists|i: int| 0 <= i < cols.len() && cols@[i] == c {
                let i = choose|i: int| 0 <= i < cols.len() && cols@[i] == c;
                assert(trace_has_cell(tr, cols@[i] as int, src_row as int));
                assert(lists(cols@, c));
            } else {
                assert(!lists(cols@, c));
            }
        },
        Mutation::RowSegmentZero { rows, cols, .. } => {
            if lists(cols@, c) {
                assert(exists|i: int| 0 <= i < cols.len() && cols@[i] == c);
            }
            if lists(rows@, r) {
                assert(exists|j: int| 0 <= j < rows.len() && rows@[j] == r);
            }
        },
        _ => {},
    }
}

} // verus!
