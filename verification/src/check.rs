//! Checking one mutation against an oracle: snapshot the cells the
//! mutation writes, apply it, hand the tampered witness to the oracle, and
//! restore the snapshot.
use vstd::prelude::*;

use crate::apply::{
    all_applicable, applicable, apply_mutation, apply_spec, lemma_all_applicable_index,
    lemma_apply_shape, set_cell, set_column, trace_applicable, with_cells,
};
use crate::footprint::{footprint, footprint_all, lemma_frame, lemma_shape_has_cell, CellPos};
use crate::mutation::Mutation;
use crate::target::Target;
use crate::trace::{
    cell_at, has_cell, lemma_lists_take_step, lemma_replaces_trace_view, lists, same_shape,
    same_trace_shape, trace_at, trace_has_cell, valid_target, with_trace, ColumnTrace, TraceColumn,
    Witness, WitnessView,
};

verus! {

/// The value a cell held before a mutation, recorded so that it can be put back.
#[derive(Clone, Copy, Debug, PartialEq, Eq, Structural)]
pub struct CellPatch {
    pub target: Target,
    pub col: usize,
    pub row: usize,
    pub value: u128,
}

/// The position a patch records.
pub open spec fn patch_pos(p: CellPatch) -> CellPos {
    (p.target, p.col as int, p.row as int)
}

/// The positions that `ps` records.
pub open spec fn patch_positions(ps: Seq<CellPatch>) -> Set<CellPos> {
    Set::new(|q: CellPos| exists|i: int| 0 <= i < ps.len() && #[trigger] patch_pos(ps[i]) == q)
}

/// Every patch of `ps` records an existing cell of `w` with the value it has in `w`.
pub open spec fn records(w: WitnessView, ps: Seq<CellPatch>) -> bool {
    forall|i: int|
        0 <= i < ps.len() ==> {
            &&& has_cell(w, #[trigger] ps[i].target, ps[i].col as int, ps[i].row as int)
            &&& ps[i].value == cell_at(w, ps[i].target, ps[i].col as int, ps[i].row as int)
        }
}

/// Appending a patch adds its position.
proof fn lemma_positions_push(ps: Seq<CellPatch>, p: CellPatch)
    ensures
        patch_positions(ps.push(p)) == patch_positions(ps).insert(patch_pos(p)),
{
    assert forall|q: CellPos| #[trigger] patch_positions(ps.push(p)).contains(q) == patch_positions(ps).insert(patch_pos(p)).contains(q) by {
        if patch_positions(ps.push(p)).contains(q) {
            let i = choose|i: int| 0 <= i < ps.push(p).len() && #[trigger] patch_pos(ps.push(p)[i]) == q;
            if i < ps.len() {
                assert(patch_pos(ps[i]) == q);
            }
        }
        if patch_positions(ps).contains(q) {
            let i = choose|i: int| 0 <= i < ps.len() && #[trigger] patch_pos(ps[i]) == q;
            assert(patch_pos(ps.push(p)[i]) == q);
        }
        if q == patch_pos(p) {
            assert(patch_pos(ps.push(p)[ps.len() as int]) == q);
        }
    }
    assert(patch_positions(ps.push(p)) =~= patch_positions(ps).insert(patch_pos(p)));
}

/// The patch that records cell `(t, col, row)` of `w`.
pub open spec fn patch_of(w: WitnessView, t: Target, col: usize, row: usize) -> CellPatch {
    CellPatch { target: t, col, row, value: cell_at(w, t, col as int, row as int) }
}

/// The indices `0, 1, ..., n - 1`.
pub open spec fn indices(n: nat) -> Seq<usize> {
    Seq::new(n, |i: int| i as usize)
}

/// For each column of `cols` in turn, the patches of rows `ra` and then `rb`.
pub open spec fn patches_row_pair(w: WitnessView, t: Target, cols: Seq<usize>, ra: usize, rb: usize) -> Seq<CellPatch>
    decreases cols.len(),
{
    if cols.len() == 0 {
        Seq::empty()
    } else {
        patches_row_pair(w, t, cols.drop_last(), ra, rb).push(patch_of(w, t, cols.last(), ra)).push(
            patch_of(w, t, cols.last(), rb),
        )
    }
}

/// For each column of `cols` in turn, the patch of row `r`.
pub open spec fn patches_row(w: WitnessView, t: Target, cols: Seq<usize>, r: usize) -> Seq<CellPatch>
    decreases cols.len(),
{
    if cols.len() == 0 {
        Seq::empty()
    } else {
        patches_row(w, t, cols.drop_last(), r).push(patch_of(w, t, cols.last(), r))
    }
}

/// For each row of `rows` in turn, the patch of column `c`.
pub open spec fn patches_column(w: WitnessView, t: Target, c: usize, rows: Seq<usize>) -> Seq<CellPatch>
    decreases rows.len(),
{
    if rows.len() == 0 {
        Seq::empty()
    } else {
        patches_column(w, t, c, rows.drop_last()).push(patch_of(w, t, c, rows.last()))
    }
}

/// For each column of `cols` in turn, the patches of the rows of `rows`.
pub open spec fn patches_grid(w: WitnessView, t: Target, cols: Seq<usize>, rows: Seq<usize>) -> Seq<CellPatch>
    decreases cols.len(),
{
    if cols.len() == 0 {
        Seq::empty()
    } else {
        patches_grid(w, t, cols.drop_last(), rows) + patches_column(w, t, cols.last(), rows)
    }
}

/// The patches that a snapshot of `w` taken before `m` records, in the
/// order it records them.
pub open spec fn snapshot_seq(w: WitnessView, m: Mutation) -> Seq<CellPatch>
    decreases m,
{
    match m {
        Mutation::BitFlip { target, col, row, .. } => seq![patch_of(w, target, col, row)],
        Mutation::OutOfBounds { target, col, row, .. } => seq![patch_of(w, target, col, row)],
        Mutation::FlipSelector { target, col, row } => seq![patch_of(w, target, col, row)],
        Mutation::SwapRows { target, row_a, row_b } => patches_row_pair(
            w,
            target,
            indices(trace_at(w, target).columns.len()),
            row_a,
            row_b,
        ),
        Mutation::SwapColumns { target, cols, row_a, row_b } => patches_row_pair(w, target, cols@, row_a, row_b),
        Mutation::DuplicateRow { target, dst_row, .. } => patches_row(
            w,
            target,
            indices(trace_at(w, target).columns.len()),
            dst_row,
        ),
        Mutation::CopyColumns { target, cols, dst_row, .. } => patches_row(w, target, cols@, dst_row),
        Mutation::ColumnUniformWrite { target, col, .. } => patches_column(
            w,
            target,
            col,
            indices(trace_at(w, target).columns[col as int].cells.len()),
        ),
        Mutation::MonotonicReplace { target, col, .. } => patches_column(
            w,
            target,
            col,
            indices(trace_at(w, target).columns[col as int].cells.len()),
        ),
        Mutation::RowSegmentZero { target, rows, cols } => patches_grid(w, target, cols@, rows@),
        Mutation::Compound(ms) => snapshot_all(w, ms@),
    }
}

/// The patches that snapshots of `w` taken for the mutations of `ms`, one
/// after the other, record.
pub open spec fn snapshot_all(w: WitnessView, ms: Seq<Mutation>) -> Seq<CellPatch>
    decreases ms,
{
    if ms.len() == 0 {
        Seq::empty()
    } else {
        snapshot_all(w, ms.drop_last()) + snapshot_seq(w, ms.last())
    }
}

/// Records cell `(target, col, row)` of `witness`.
fn snapshot_cell(witness: &Witness, target: Target, col: usize, row: usize) -> (p: CellPatch)
    requires
        has_cell(witness@, target, col as int, row as int),
    ensures
        p == patch_of(witness@, target, col, row),
{
    let trace = target.resolve(witness);
    let value = trace.columns[col].cells[row];
    CellPatch { target, col, row, value }
}

/// Appends the record of cell `(target, col, row)` to `patches`.
fn push_snapshot(witness: &Witness, target: Target, col: usize, row: usize, patches: &mut Vec<CellPatch>)
    requires
        has_cell(witness@, target, col as int, row as int),
        records(witness@, old(patches)@),
    ensures
        final(patches)@ == old(patches)@.push(patch_of(witness@, target, col, row)),
        records(witness@, final(patches)@),
        patch_positions(final(patches)@) == patch_positions(old(patches)@).insert((target, col as int, row as int)),
{
    let p = snapshot_cell(witness, target, col, row);
    proof {
        lemma_positions_push(patches@, p);
    }
    patches.push(p);
}

/// Appends to `patches` a record of every cell of `witness` that `mutation` writes.
fn collect_patches(witness: &Witness, mutation: &Mutation, patches: &mut Vec<CellPatch>)
    requires
        applicable(witness@, *mutation),
        records(witness@, old(patches)@),
    ensures
        final(patches)@ == old(patches)@ + snapshot_seq(witness@, *mutation),
        records(witness@, final(patches)@),
        patch_positions(final(patches)@) == patch_positions(old(patches)@).union(footprint(witness@, *mutation)),
    decreases mutation,
{
    let ghost w = witness@;
    let ghost start = patch_positions(patches@);
    let ghost p0 = patches@;
    match mutation {
        Mutation::BitFlip { target, col, row, .. }
        | Mutation::OutOfBounds { target, col, row, .. }
        | Mutation::FlipSelector { target, col, row } => {
            push_snapshot(witness, *target, *col, *row, patches);
            assert(patches@ =~= p0 + snapshot_seq(w, *mutation));
            assert(patch_positions(patches@) =~= start.union(footprint(w, *mutation)));
        },
        Mutation::SwapRows { target, row_a, row_b } => {
            let trace = target.resolve(witness);
            let n = trace.columns.len();
            for col in 0..n
                invariant
                    n == trace_at(w, *target).columns.len(),
                    w == witness@,
                    applicable(w, *mutation),
                    *mutation == (Mutation::SwapRows { target: *target, row_a: *row_a, row_b: *row_b }),
                    records(w, patches@),
                    patches@ == p0 + patches_row_pair(w, *target, indices(col as nat), *row_a, *row_b),
                    patch_positions(patches@) == start.union(Set::new(|q: CellPos|
                        q.0 == *target && 0 <= q.1 < col && (q.2 == *row_a || q.2 == *row_b))),
            {
                assert(*row_a < (trace_at(w, *target).columns[col as int]).cells.len());
                push_snapshot(witness, *target, col, *row_a, patches);
                push_snapshot(witness, *target, col, *row_b, patches);
                assert(indices(col as nat + 1).drop_last() =~= indices(col as nat));
                assert(patches@ =~= p0 + patches_row_pair(w, *target, indices(col as nat + 1), *row_a, *row_b));
                assert(patch_positions(patches@) =~= start.union(Set::new(|q: CellPos|
                    q.0 == *target && 0 <= q.1 < col + 1 && (q.2 == *row_a || q.2 == *row_b))));
            }
            assert(patch_positions(patches@) =~= start.union(footprint(w, *mutation)));
        },
        Mutation::SwapColumns { target, cols, row_a, row_b } => {
            assert(trace_applicable(trace_at(w, *target), *mutation));
            for i in 0..cols.len()
                invariant
                    forall|k: int| 0 <= k < cols.len() ==> trace_has_cell(trace_at(w, *target), #[trigger] cols@[k] as int, *row_a as int)
                        && trace_has_cell(trace_at(w, *target), cols@[k] as int, *row_b as int),
                    w == witness@,
                    applicable(w, *mutation),
                    *mutation == (Mutation::SwapColumns { target: *target, cols: *cols, row_a: *row_a, row_b: *row_b }),
                    records(w, patches@),
                    patches@ == p0 + patches_row_pair(w, *target, cols@.take(i as int), *row_a, *row_b),
                    patch_positions(patches@) == start.union(Set::new(|q: CellPos|
                        q.0 == *target && lists(cols@.take(i as int), q.1) && (q.2 == *row_a || q.2 == *row_b))),
            {
                let col = cols[i];
                assert(trace_has_cell(trace_at(w, *target), cols@[i as int] as int, *row_a as int));
                push_snapshot(witness, *target, col, *row_a, patches);
                push_snapshot(witness, *target, col, *row_b, patches);
                assert(cols@.take(i as int + 1).drop_last() =~= cols@.take(i as int));
                assert(patches@ =~= p0 + patches_row_pair(w, *target, cols@.take(i as int + 1), *row_a, *row_b));
                assert forall|c: int| #[trigger] lists(cols@.take(i as int + 1), c) == (lists(cols@.take(i as int), c) || c == col as int) by {
                    lemma_lists_take_step(cols@, i as int, c);
                }
                assert(patch_positions(patches@) =~= start.union(Set::new(|q: CellPos|
                    q.0 == *target && lists(cols@.take(i as int + 1), q.1) && (q.2 == *row_a || q.2 == *row_b))));
            }
            assert(cols@.take(cols.len() as int) =~= cols@);
            assert(patch_positions(patches@) =~= start.union(footprint(w, *mutation)));
        },
        Mutation::DuplicateRow { target, src_row, dst_row } => {
            let trace = target.resolve(witness);
            let n = trace.columns.len();
            for col in 0..n
                invariant
                    n == trace_at(w, *target).columns.len(),
                    w == witness@,
                    applicable(w, *mutation),
                    *mutation == (Mutation::DuplicateRow { target: *target, src_row: *src_row, dst_row: *dst_row }),
                    records(w, patches@),
                    patches@ == p0 + patches_row(w, *target, indices(col as nat), *dst_row),
                    patch_positions(patches@) == start.union(Set::new(|q: CellPos|
                        q.0 == *target && 0 <= q.1 < col && q.2 == *dst_row)),
            {
                assert(*dst_row < (trace_at(w, *target).columns[col as int]).cells.len());
                push_snapshot(witness, *target, col, *dst_row, patches);
                assert(indices(col as nat + 1).drop_last() =~= indices(col as nat));
                assert(patches@ =~= p0 + patches_row(w, *target, indices(col as nat + 1), *dst_row));
                assert(patch_positions(patches@) =~= start.union(Set::new(|q: CellPos|
                    q.0 == *target && 0 <= q.1 < col + 1 && q.2 == *dst_row)));
            }
            assert(patch_positions(patches@) =~= start.union(footprint(w, *mutation)));
        },
        Mutation::CopyColumns { target, cols, src_row, dst_row } => {
            assert(trace_applicable(trace_at(w, *target), *mutation));
            for i in 0..cols.len()
                invariant
                    forall|k: int| 0 <= k < cols.len() ==> trace_has_cell(trace_at(w, *target), #[trigger] cols@[k] as int, *dst_row as int),
                    w == witness@,
                    applicable(w, *mutation),
                    *mutation == (Mutation::CopyColumns { target: *target, cols: *cols, src_row: *src_row, dst_row: *dst_row }),
                    records(w, patches@),
                    patches@ == p0 + patches_row(w, *target, cols@.take(i as int), *dst_row),
                    patch_positions(patches@) == start.union(Set::new(|q: CellPos|
                        q.0 == *target && lists(cols@.take(i as int), q.1) && q.2 == *dst_row)),
            {
                let col = cols[i];
                assert(trace_has_cell(trace_at(w, *target), cols@[i as int] as int, *dst_row as int));
                push_snapshot(witness, *target, col, *dst_row, patches);
                assert(cols@.take(i as int + 1).drop_last() =~= cols@.take(i as int));
                assert(patches@ =~= p0 + patches_row(w, *target, cols@.take(i as int + 1), *dst_row));
                assert forall|c: int| #[trigger] lists(cols@.take(i as int + 1), c) == (lists(cols@.take(i as int), c) || c == col as int) by {
                    lemma_lists_take_step(cols@, i as int, c);
                }
                assert(patch_positions(patches@) =~= start.union(Set::new(|q: CellPos|
                    q.0 == *target && lists(cols@.take(i as int + 1), q.1) && q.2 == *dst_row)));
            }
            assert(cols@.take(cols.len() as int) =~= cols@);
            assert(patch_positions(patches@) =~= start.union(footprint(w, *mutation)));
        },
        Mutation::ColumnUniformWrite { target, col, .. } | Mutation::MonotonicReplace { target, col, .. } => {
            let trace = target.resolve(witness);
            let n = trace.columns[*col].cells.len();
            for row in 0..n
                invariant
                    valid_target(w, *target),
                    *col < trace_at(w, *target).columns.len(),
                    n == trace_at(w, *target).columns[*col as int].cells.len(),
                    w == witness@,
                    applicable(w, *mutation),
                    records(w, patches@),
                    patches@ == p0 + patches_column(w, *target, *col, indices(row as nat)),
                    patch_positions(patches@) == start.union(Set::new(|q: CellPos|
                        q.0 == *target && q.1 == *col && 0 <= q.2 < row)),
            {
                push_snapshot(witness, *target, *col, row, patches);
                assert(indices(row as nat + 1).drop_last() =~= indices(row as nat));
                assert(patches@ =~= p0 + patches_column(w, *target, *col, indices(row as nat + 1)));
                assert(patch_positions(patches@) =~= start.union(Set::new(|q: CellPos|
                    q.0 == *target && q.1 == *col && 0 <= q.2 < row + 1)));
            }
            assert(patch_positions(patches@) =~= start.union(footprint(w, *mutation)));
        },
        Mutation::RowSegmentZero { target, rows, cols } => {
            assert(trace_applicable(trace_at(w, *target), *mutation));
            for ci in 0..cols.len()
                invariant
                    rows.len() == 0 || forall|i: int, j: int| 0 <= i < cols.len() && 0 <= j < rows.len() ==> trace_has_cell(trace_at(w, *target), #[trigger] cols@[i] as int, #[trigger] rows@[j] as int),
                    w == witness@,
                    applicable(w, *mutation),
                    *mutation == (Mutation::RowSegmentZero { target: *target, rows: *rows, cols: *cols }),
                    records(w, patches@),
                    patches@ == p0 + patches_grid(w, *target, cols@.take(ci as int), rows@),
                    patch_positions(patches@) == start.union(Set::new(|q: CellPos|
                        q.0 == *target && lists(cols@.take(ci as int), q.1) && lists(rows@, q.2))),
            {
                let col = cols[ci];
                let ghost mid = patch_positions(patches@);
                let ghost pm = patches@;
                for ri in 0..rows.len()
                    invariant
                        rows.len() == 0 || forall|i: int, j: int| 0 <= i < cols.len() && 0 <= j < rows.len() ==> trace_has_cell(trace_at(w, *target), #[trigger] cols@[i] as int, #[trigger] rows@[j] as int),
                        w == witness@,
                        ci < cols.len(),
                        col == cols@[ci as int],
                        applicable(w, *mutation),
                        *mutation == (Mutation::RowSegmentZero { target: *target, rows: *rows, cols: *cols }),
                        records(w, patches@),
                        patches@ == pm + patches_column(w, *target, col, rows@.take(ri as int)),
                        patch_positions(patches@) == mid.union(Set::new(|q: CellPos|
                            q.0 == *target && q.1 == col && lists(rows@.take(ri as int), q.2))),
                {
                    let row = rows[ri];
                    assert(trace_has_cell(trace_at(w, *target), cols@[ci as int] as int, rows@[ri as int] as int));
                    push_snapshot(witness, *target, col, row, patches);
                    assert(rows@.take(ri as int + 1).drop_last() =~= rows@.take(ri as int));
                    assert(patches@ =~= pm + patches_column(w, *target, col, rows@.take(ri as int + 1)));
                    assert forall|r: int| #[trigger] lists(rows@.take(ri as int + 1), r) == (lists(rows@.take(ri as int), r) || r == row as int) by {
                        lemma_lists_take_step(rows@, ri as int, r);
                    }
                    assert(patch_positions(patches@) =~= mid.union(Set::new(|q: CellPos|
                        q.0 == *target && q.1 == col && lists(rows@.take(ri as int + 1), q.2))));
                }
                assert(rows@.take(rows.len() as int) =~= rows@);
                assert(cols@.take(ci as int + 1).drop_last() =~= cols@.take(ci as int));
                assert(patches@ =~= p0 + patches_grid(w, *target, cols@.take(ci as int + 1), rows@));
                assert forall|c: int| #[trigger] lists(cols@.take(ci as int + 1), c) == (lists(cols@.take(ci as int), c) || c == col as int) by {
                    lemma_lists_take_step(cols@, ci as int, c);
                }
                assert(patch_positions(patches@) =~= start.union(Set::new(|q: CellPos|
                    q.0 == *target && lists(cols@.take(ci as int + 1), q.1) && lists(rows@, q.2))));
            }
            assert(cols@.take(cols.len() as int) =~= cols@);
            proof {
                if rows.len() > 0 {
                    assert(valid_target(w, *target));
                } else {
                    assert(!lists(rows@, 0));
                }
            }
            assert(patch_positions(patches@) =~= start.union(footprint(w, *mutation)));
        },
        Mutation::Compound(mutations) => {
            for i in 0..mutations.len()
                invariant
                    w == witness@,
                    *mutation == Mutation::Compound(*mutations),
                    all_applicable(w, mutations@),
                    records(w, patches@),
                    patches@ == p0 + snapshot_all(w, mutations@.take(i as int)),
                    patch_positions(patches@) == start.union(footprint_all(w, mutations@.take(i as int))),
            {
                proof {
                    lemma_all_applicable_index(w, mutations@, i as int);
                    assert(mutations@.take(i as int + 1).drop_last() =~= mutations@.take(i as int));
                    assert(decreases_to!(*mutation => (*mutation)->0));
                    assert(decreases_to!(*mutations => mutations@));
                    assert(decreases_to!(mutations@ => mutations@[i as int]));
                }
                collect_patches(witness, &mutations[i], patches);
                assert(patches@ =~= p0 + snapshot_all(w, mutations@.take(i as int + 1)));
                assert(patch_positions(patches@) =~= start.union(footprint_all(w, mutations@.take(i as int + 1))));
            }
            assert(mutations@.take(mutations.len() as int) =~= mutations@);
        },
    }
}

/// Records every cell of `witness` that `mutation` writes, with its value
/// before the mutation.
fn snapshot_for_mutation(witness: &Witness, mutation: &Mutation) -> (patches: Vec<CellPatch>)
    requires
        applicable(witness@, *mutation),
    ensures
        patches@ == snapshot_seq(witness@, *mutation),
        records(witness@, patches@),
        patch_positions(patches@) == footprint(witness@, *mutation),
        forall|q: CellPos|
            has_cell(witness@, q.0, q.1, q.2) && cell_at(apply_spec(witness@, *mutation), q.0, q.1, q.2)
                != cell_at(witness@, q.0, q.1, q.2) ==> #[trigger] patch_positions(patches@).contains(q),
{
    let mut patches = Vec::new();
    proof {
        assert(patch_positions(patches@) =~= Set::empty());
    }
    collect_patches(witness, mutation, &mut patches);
    assert(patches@ =~= snapshot_seq(witness@, *mutation));
    assert(patch_positions(patches@) =~= footprint(witness@, *mutation));
    assert forall|q: CellPos|
        has_cell(witness@, q.0, q.1, q.2) && cell_at(apply_spec(witness@, *mutation), q.0, q.1, q.2)
            != cell_at(witness@, q.0, q.1, q.2) implies #[trigger] patch_positions(patches@).contains(q) by {
        if !footprint(witness@, *mutation).contains(q) {
            lemma_frame(witness@, *mutation, q);
        }
    }
    patches
}

/// `w` with the cell that `p` records set to the recorded value.
pub open spec fn write_patch(w: WitnessView, p: CellPatch) -> WitnessView {
    let tr = trace_at(w, p.target);
    let column = tr.columns[p.col as int];
    with_trace(
        w,
        p.target,
        set_column(tr, p.col as int, with_cells(column, column.cells.update(p.row as int, p.value))),
    )
}

/// `w` with the patches of `ps` written back, the last one first (so the
/// first patch recorded for a cell is the one that stays).
pub open spec fn restore_spec(w: WitnessView, ps: Seq<CellPatch>) -> WitnessView
    decreases ps.len(),
{
    if ps.len() == 0 {
        w
    } else {
        write_patch(restore_spec(w, ps.drop_first()), ps[0])
    }
}

/// Every cell that `ps` records holds the recorded value in `w`.
pub open spec fn unchanged_at(w: WitnessView, ps: Seq<CellPatch>) -> bool {
    forall|i: int|
        0 <= i < ps.len() ==> cell_at(w, #[trigger] ps[i].target, ps[i].col as int, ps[i].row as int)
            == ps[i].value
}

/// Every patch of `ps` names an existing cell of `w`.
pub open spec fn patches_fit(w: WitnessView, ps: Seq<CellPatch>) -> bool {
    forall|i: int| 0 <= i < ps.len() ==> has_cell(w, #[trigger] ps[i].target, ps[i].col as int, ps[i].row as int)
}

/// Writes the recorded value of `patch` back into `witness`.
fn write_cell(witness: &mut Witness, patch: &CellPatch)
    requires
        has_cell(old(witness)@, patch.target, patch.col as int, patch.row as int),
    ensures
        final(witness)@ == write_patch(old(witness)@, *patch),
{
    let ghost before = *witness;
    let trace = patch.target.resolve_mut(witness);
    set_cell(trace, patch.col, patch.row, patch.value);
    let ghost after = *trace;
    proof {
        lemma_replaces_trace_view(before, *witness, patch.target, after);
    }
}

/// Writing a patch keeps the shape and changes the one cell it records.
pub proof fn lemma_write_patch(w: WitnessView, p: CellPatch, q: CellPos)
    requires
        has_cell(w, p.target, p.col as int, p.row as int),
    ensures
        same_shape(write_patch(w, p), w),
        has_cell(w, q.0, q.1, q.2) ==> cell_at(write_patch(w, p), q.0, q.1, q.2) == if q == patch_pos(p) {
            p.value
        } else {
            cell_at(w, q.0, q.1, q.2)
        },
{
    let r = write_patch(w, p);
    assert forall|i: int| 0 <= i < w.chiplet_traces.len() implies same_trace_shape(#[trigger] r.chiplet_traces[i], w.chiplet_traces[i]) by {
        let a = r.chiplet_traces[i];
        let b = w.chiplet_traces[i];
        assert forall|c: int| 0 <= c < a.columns.len() implies #[trigger] a.columns[c].col_type == b.columns[c].col_type
            && a.columns[c].cells.len() == b.columns[c].cells.len() by {}
    }
    let a = r.trace;
    let b = w.trace;
    assert forall|c: int| 0 <= c < a.columns.len() implies #[trigger] a.columns[c].col_type == b.columns[c].col_type
        && a.columns[c].cells.len() == b.columns[c].cells.len() by {}
}

/// Writing back `ps` in reverse order, when every patch records a cell of
/// `orig` with its value there: the recorded cells get their values in
/// `orig`, the others keep theirs.
pub proof fn lemma_restore_cells(w: WitnessView, ps: Seq<CellPatch>, orig: WitnessView, q: CellPos)
    requires
        same_shape(w, orig),
        records(orig, ps),
    ensures
        same_shape(restore_spec(w, ps), w),
        has_cell(w, q.0, q.1, q.2) ==> cell_at(restore_spec(w, ps), q.0, q.1, q.2) == if patch_positions(ps).contains(q) {
            cell_at(orig, q.0, q.1, q.2)
        } else {
            cell_at(w, q.0, q.1, q.2)
        },
    decreases ps.len(),
{
    if ps.len() > 0 {
        let rest = ps.drop_first();
        assert(records(orig, rest)) by {
            assert forall|i: int| 0 <= i < rest.len() implies has_cell(orig, #[trigger] rest[i].target, rest[i].col as int, rest[i].row as int)
                && rest[i].value == cell_at(orig, rest[i].target, rest[i].col as int, rest[i].row as int) by {
                assert(rest[i] == ps[i + 1]);
            }
        }
        lemma_restore_cells(w, rest, orig, q);
        let mid = restore_spec(w, rest);
        assert(has_cell(orig, ps[0].target, ps[0].col as int, ps[0].row as int));
        crate::apply::lemma_same_shape_trans(mid, w, orig);
        lemma_shape_has_cell(mid, orig, patch_pos(ps[0]));
        lemma_shape_has_cell(mid, w, q);
        lemma_write_patch(mid, ps[0], q);
        crate::apply::lemma_same_shape_trans(write_patch(mid, ps[0]), mid, w);
        assert(patch_positions(ps).contains(q) == (patch_positions(rest).contains(q) || q == patch_pos(ps[0]))) by {
            if patch_positions(ps).contains(q) {
                let i = choose|i: int| 0 <= i < ps.len() && #[trigger] patch_pos(ps[i]) == q;
                if i > 0 {
                    assert(patch_pos(rest[i - 1]) == q);
                }
            }
            if patch_positions(rest).contains(q) {
                let i = choose|i: int| 0 <= i < rest.len() && #[trigger] patch_pos(rest[i]) == q;
                assert(patch_pos(ps[i + 1]) == q);
            }
            if q == patch_pos(ps[0]) {
                assert(patch_pos(ps[0]) == q);
            }
        }
    }
}

/// Two witnesses of the same shape with the same cells are equal.
pub proof fn lemma_witness_ext(a: WitnessView, b: WitnessView)
    requires
        same_shape(a, b),
        a.chiplet_traces.len() <= usize::MAX,
        forall|t: Target, c: int, r: int| has_cell(a, t, c, r) ==> #[trigger] cell_at(a, t, c, r) == cell_at(b, t, c, r),
    ensures
        a == b,
{
    assert forall|c: int| 0 <= c < a.trace.columns.len() implies #[trigger] a.trace.columns[c] == b.trace.columns[c] by {
        assert(a.trace.columns[c].col_type == b.trace.columns[c].col_type);
        assert forall|r: int| 0 <= r < a.trace.columns[c].cells.len() implies a.trace.columns[c].cells[r] == b.trace.columns[c].cells[r] by {
            assert(cell_at(a, Target::Main, c, r) == cell_at(b, Target::Main, c, r));
        }
        assert(a.trace.columns[c].cells =~= b.trace.columns[c].cells);
    }
    assert(a.trace.columns =~= b.trace.columns);
    assert forall|i: int| 0 <= i < a.chiplet_traces.len() implies #[trigger] a.chiplet_traces[i] == b.chiplet_traces[i] by {
        let ta = a.chiplet_traces[i];
        let tb = b.chiplet_traces[i];
        assert(same_trace_shape(ta, tb));
        assert((i as usize) as int == i);
        assert forall|c: int| 0 <= c < ta.columns.len() implies #[trigger] ta.columns[c] == tb.columns[c] by {
            assert(ta.columns[c].col_type == tb.columns[c].col_type);
            assert forall|r: int| 0 <= r < ta.columns[c].cells.len() implies ta.columns[c].cells[r] == tb.columns[c].cells[r] by {
                assert(cell_at(a, Target::Chiplet(i as usize), c, r) == cell_at(b, Target::Chiplet(i as usize), c, r));
            }
            assert(ta.columns[c].cells =~= tb.columns[c].cells);
        }
        assert(ta.columns =~= tb.columns);
    }
    assert(a.chiplet_traces =~= b.chiplet_traces);
}

/// Restoring a snapshot taken before a mutation undoes the mutation: the
/// snapshot records exactly the cells the mutation writes, with their old
/// values, and the mutation writes no other cell.
pub proof fn lemma_restore_undoes_mutation(w: WitnessView, m: Mutation, ps: Seq<CellPatch>)
    requires
        applicable(w, m),
        w.chiplet_traces.len() <= usize::MAX,
        records(w, ps),
        patch_positions(ps) == footprint(w, m),
    ensures
        restore_spec(apply_spec(w, m), ps) == w,
{
    let a = apply_spec(w, m);
    lemma_apply_shape(w, m);
    let r = restore_spec(a, ps);
    lemma_restore_cells(a, ps, w, (Target::Main, 0, 0));
    crate::apply::lemma_same_shape_trans(r, a, w);
    assert forall|t: Target, c: int, row: int| has_cell(r, t, c, row) implies #[trigger] cell_at(r, t, c, row)
        == cell_at(w, t, c, row) by {
        let q = (t, c, row);
        lemma_shape_has_cell(r, a, q);
        lemma_shape_has_cell(a, w, q);
        lemma_restore_cells(a, ps, w, q);
        if !footprint(w, m).contains(q) {
            lemma_frame(w, m, q);
        }
    }
    lemma_witness_ext(r, w);
}

/// After a mutation, the cells its snapshot records all still hold their
/// recorded values exactly when the mutation left the witness as it was.
pub proof fn lemma_unchanged_iff_noop(w: WitnessView, m: Mutation, ps: Seq<CellPatch>)
    requires
        applicable(w, m),
        w.chiplet_traces.len() <= usize::MAX,
        records(w, ps),
        patch_positions(ps) == footprint(w, m),
    ensures
        unchanged_at(apply_spec(w, m), ps) <==> apply_spec(w, m) == w,
{
    let a = apply_spec(w, m);
    lemma_apply_shape(w, m);
    if unchanged_at(a, ps) {
        crate::apply::lemma_same_shape_trans(a, w, w);
        assert forall|t: Target, c: int, row: int| has_cell(a, t, c, row) implies #[trigger] cell_at(a, t, c, row)
            == cell_at(w, t, c, row) by {
            let q = (t, c, row);
            lemma_shape_has_cell(a, w, q);
            if footprint(w, m).contains(q) {
                assert(patch_positions(ps).contains(q));
                let i = choose|i: int| 0 <= i < ps.len() && #[trigger] patch_pos(ps[i]) == q;
                assert(cell_at(a, ps[i].target, ps[i].col as int, ps[i].row as int) == ps[i].value);
            } else {
                lemma_frame(w, m, q);
            }
        }
        lemma_witness_ext(a, w);
    }
}

/// Whether every cell that `patches` records holds its recorded value.
fn is_noop(witness: &Witness, patches: &Vec<CellPatch>) -> (res: bool)
    requires
        patches_fit(witness@, patches@),
    ensures
        res == unchanged_at(witness@, patches@),
{
    for i in 0..patches.len()
        invariant
            patches_fit(witness@, patches@),
            forall|k: int| 0 <= k < i ==> cell_at(witness@, #[trigger] patches@[k].target, patches@[k].col as int, patches@[k].row as int)
                == patches@[k].value,
    {
        let p = patches[i];
        assert(has_cell(witness@, patches@[i as int].target, p.col as int, p.row as int));
        let trace = p.target.resolve(witness);
        if trace.columns[p.col].cells[p.row] != p.value {
            return false;
        }
    }
    true
}

/// Writes every patch of `patches` back into `witness`, the last one first.
fn restore_all(witness: &mut Witness, patches: &Vec<CellPatch>)
    requires
        patches_fit(old(witness)@, patches@),
    ensures
        final(witness)@ == restore_spec(old(witness)@, patches@),
{
    let mut i = patches.len();
    assert(patches@.skip(i as int) =~= Seq::<CellPatch>::empty());
    proof {
        crate::apply::lemma_same_shape_refl(witness@);
    }
    while i > 0
        invariant
            i <= patches.len(),
            patches_fit(old(witness)@, patches@),
            same_shape(witness@, old(witness)@),
            witness@ == restore_spec(old(witness)@, patches@.skip(i as int)),
        decreases i,
    {
        i = i - 1;
        let p = patches[i];
        let ghost before = witness@;
        proof {
            assert(has_cell(old(witness)@, patches@[i as int].target, p.col as int, p.row as int));
            lemma_shape_has_cell(witness@, old(witness)@, patch_pos(p));
            lemma_write_patch(witness@, p, patch_pos(p));
            assert(patches@.skip(i as int).drop_first() =~= patches@.skip(i as int + 1));
        }
        write_cell(witness, &p);
        proof {
            crate::apply::lemma_same_shape_trans(witness@, before, old(witness)@);
        }
    }
    assert(patches@.skip(0) =~= patches@);
}

/// How a check ends, given what the oracle answered about the tampered
/// witness: `Ok((report, clean))` or an error of the oracle itself.
pub open spec fn verdict<R, E>(out: Result<(R, bool), E>) -> Result<Result<R, R>, E> {
    match out {
        Ok((report, clean)) => if clean {
            Ok(Err(report))
        } else {
            Ok(Ok(report))
        },
        Err(e) => Err(e),
    }
}

/// Turns the oracle's answer into the outcome of a check: a clean report
/// means the mutation escaped (`Err`), a report with violations means it
/// was caught (`Ok`), and an error of the oracle is passed on.
pub fn classify_report<R, E>(out: Result<(R, bool), E>) -> (res: Result<Result<R, R>, E>)
    ensures
        res == verdict(out),
{
    match out {
        Ok((report, clean)) => if clean {
            Ok(Err(report))
        } else {
            Ok(Ok(report))
        },
        Err(e) => Err(e),
    }
}

/// Applies `mutation` to `witness`, asks `run_preflight` about the tampered
/// witness, and puts `witness` back as it was.
///
/// A mutation that leaves the witness as it was is reported as caught with
/// `unchanged_report`, without asking the oracle. Otherwise the result is
/// `Ok(Ok(report))` when the oracle found violations (the mutation was
/// caught), `Ok(Err(report))` when its report is clean (the mutation
/// escaped), and `Err(e)` when the oracle failed.
pub fn check_in_place<R, E, P>(
    witness: &mut Witness,
    mutation: &Mutation,
    unchanged_report: R,
    run_preflight: P,
) -> (res: Result<Result<R, R>, E>) where P: FnOnce(&Witness) -> Result<(R, bool), E>
    requires
        applicable(old(witness)@, *mutation),
        forall|w: &Witness| #[trigger] run_preflight.requires((w,)),
    ensures
        final(witness)@ == old(witness)@,
        apply_spec(old(witness)@, *mutation) == old(witness)@ ==> res == Ok::<Result<R, R>, E>(
            Ok(unchanged_report),
        ),
        apply_spec(old(witness)@, *mutation) != old(witness)@ ==> exists|
            tampered: Witness,
            out: Result<(R, bool), E>,
        |
            #[trigger] run_preflight.ensures((&tampered,), out) && tampered@ == apply_spec(
                old(witness)@,
                *mutation,
            ) && res == verdict(out),
{
    let ghost original = witness@;
    assert(original.chiplet_traces.len() == witness.chiplet_traces.len());
    let patches = snapshot_for_mutation(witness, mutation);
    apply_mutation(witness, mutation);
    proof {
        lemma_apply_shape(original, *mutation);
        lemma_unchanged_iff_noop(original, *mutation, patches@);
        lemma_restore_undoes_mutation(original, *mutation, patches@);
        assert forall|i: int| 0 <= i < patches@.len() implies has_cell(witness@, #[trigger] patches@[i].target, patches@[i].col as int, patches@[i].row as int) by {
            lemma_shape_has_cell(witness@, original, patch_pos(patches@[i]));
        }
    }
    let res = if is_noop(witness, &patches) {
        Ok(Ok(unchanged_report))
    } else {
        let ghost tampered = *witness;
        let out = run_preflight(witness);
        proof {
            assert(run_preflight.ensures((&tampered,), out));
        }
        classify_report(out)
    };
    restore_all(witness, &patches);
    res
}

/// A copy of `column`.
fn clone_column(column: &TraceColumn) -> (res: TraceColumn)
    ensures
        res@ == column@,
{
    let cells = column.cells.clone();
    assert(cells@ =~= column.cells@);
    TraceColumn { col_type: column.col_type, cells }
}

/// A copy of `trace`.
fn clone_trace(trace: &ColumnTrace) -> (res: ColumnTrace)
    ensures
        res@ == trace@,
{
    let mut columns: Vec<TraceColumn> = Vec::new();
    for i in 0..trace.columns.len()
        invariant
            columns@.len() == i,
            forall|k: int| 0 <= k < i ==> #[trigger] columns@[k]@ == trace.columns@[k]@,
    {
        columns.push(clone_column(&trace.columns[i]));
    }
    let res = ColumnTrace { columns, num_vars: trace.num_vars };
    assert(res@.columns =~= trace@.columns);
    res
}

/// A copy of `witness`.
pub fn clone_witness(witness: &Witness) -> (res: Witness)
    ensures
        res@ == witness@,
{
    let mut chiplet_traces: Vec<ColumnTrace> = Vec::new();
    for i in 0..witness.chiplet_traces.len()
        invariant
            chiplet_traces@.len() == i,
            forall|k: int| 0 <= k < i ==> #[trigger] chiplet_traces@[k]@ == witness.chiplet_traces@[k]@,
    {
        chiplet_traces.push(clone_trace(&witness.chiplet_traces[i]));
    }
    let res = Witness { trace: clone_trace(&witness.trace), chiplet_traces };
    assert(res@.chiplet_traces =~= witness@.chiplet_traces);
    res
}

/// Applies `mutation` to a copy of `witness` and asks `run_preflight` about
/// the tampered copy; `witness` itself is left as it is.
///
/// `Ok(report)`: the mutation was caught (or changed nothing, reported with
/// `unchanged_report`). `Err(report)`: the oracle found the tampered
/// witness clean, so the mutation escaped. The outer `Err` is a failure of
/// the oracle.
pub fn check_single_mutation<R, E, P>(
    witness: &Witness,
    mutation: &Mutation,
    unchanged_report: R,
    run_preflight: P,
) -> (res: Result<Result<R, R>, E>) where P: FnOnce(&Witness) -> Result<(R, bool), E>
    requires
        applicable(witness@, *mutation),
        forall|w: &Witness| #[trigger] run_preflight.requires((w,)),
    ensures
        apply_spec(witness@, *mutation) == witness@ ==> res == Ok::<Result<R, R>, E>(
            Ok(unchanged_report),
        ),
        apply_spec(witness@, *mutation) != witness@ ==> exists|
            tampered: Witness,
            out: Result<(R, bool), E>,
        |
            #[trigger] run_preflight.ensures((&tampered,), out) && tampered@ == apply_spec(
                witness@,
                *mutation,
            ) && res == verdict(out),
{
    let mut scratch = clone_witness(witness);
    check_in_place(&mut scratch, mutation, unchanged_report, run_preflight)
}

} // verus!
