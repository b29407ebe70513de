//! Applying a mutation to a witness, in place.
use vstd::prelude::*;

use crate::mutation::{target_of, Mutation};
use crate::target::Target;
use crate::trace::{
    same_shape, same_trace_shape, col_mask, lemma_lists_take_all, lemma_lists_take_step, lists, lemma_columns_view_update, lemma_replaces_trace_view, trace_at, trace_has_cell,
    valid_target, width_mask, with_trace, ColumnTrace, ColumnType, ColumnView, TraceView, Witness,
    WitnessView,
};

verus! {

/// Modulus of `u128` arithmetic.
pub open spec fn u128_modulus() -> int {
    0x1_0000_0000_0000_0000_0000_0000_0000_0000int
}

/// `col` with its cells replaced by `cells`.
pub open spec fn with_cells(col: ColumnView, cells: Seq<u128>) -> ColumnView {
    ColumnView { col_type: col.col_type, cells }
}

/// `tr` with column `c` replaced by `col`.
pub open spec fn set_column(tr: TraceView, c: int, col: ColumnView) -> TraceView {
    TraceView { columns: tr.columns.update(c, col), num_vars: tr.num_vars }
}

/// `col` with `mask`, truncated to the column width, XORed into row `row`.
pub open spec fn xor_column(col: ColumnView, row: int, mask: u128) -> ColumnView {
    with_cells(col, col.cells.update(row, col.cells[row] ^ (mask & width_mask(col.col_type))))
}

/// `col` with `value`, truncated to the column width, written to row `row`.
pub open spec fn write_column(col: ColumnView, row: int, value: u128) -> ColumnView {
    with_cells(col, col.cells.update(row, value & width_mask(col.col_type)))
}

/// `col` with the bit in row `row` toggled.
pub open spec fn toggle_column(col: ColumnView, row: int) -> ColumnView {
    with_cells(col, col.cells.update(row, col.cells[row] ^ 1))
}

/// `col` with rows `a` and `b` exchanged.
pub open spec fn swap_column(col: ColumnView, a: int, b: int) -> ColumnView {
    with_cells(col, col.cells.update(a, col.cells[b]).update(b, col.cells[a]))
}

/// `col` with row `src` copied onto row `dst`.
pub open spec fn copy_column(col: ColumnView, src: int, dst: int) -> ColumnView {
    with_cells(col, col.cells.update(dst, col.cells[src]))
}

/// `col` with every row set to `value`, truncated to the column width.
pub open spec fn fill_column(col: ColumnView, value: u128) -> ColumnView {
    with_cells(col, Seq::new(col.cells.len(), |r: int| value & width_mask(col.col_type)))
}

/// `col` with the rows listed in `rows` set to zero.
pub open spec fn zero_rows_column(col: ColumnView, rows: Seq<usize>) -> ColumnView {
    with_cells(
        col,
        Seq::new(col.cells.len(), |r: int| if lists(rows, r) { 0 } else { col.cells[r] }),
    )
}

/// `base + row * step`, modulo 2^128.
pub open spec fn monotonic_value(base: u128, step: u128, row: int) -> u128 {
    ((base + row * step) % u128_modulus()) as u128
}

/// `col` with row `r` set to `base + r * step` (modulo 2^128), truncated to
/// the column width.
pub open spec fn monotonic_column(col: ColumnView, base: u128, step: u128) -> ColumnView {
    with_cells(
        col,
        Seq::new(col.cells.len(), |r: int| monotonic_value(base, step, r) & width_mask(col.col_type)),
    )
}

/// `tr` with rows `a` and `b` exchanged in the columns listed in `cols`,
/// one column after the other (a column listed twice is swapped back).
pub open spec fn swap_listed_columns(tr: TraceView, cols: Seq<usize>, a: int, b: int) -> TraceView
    decreases cols.len(),
{
    if cols.len() == 0 {
        tr
    } else {
        let prev = swap_listed_columns(tr, cols.drop_last(), a, b);
        let c = cols.last() as int;
        set_column(prev, c, swap_column(prev.columns[c], a, b))
    }
}

/// The effect of a non-compound mutation on the trace it targets.
pub open spec fn apply_to_trace_spec(tr: TraceView, m: Mutation) -> TraceView {
    match m {
        Mutation::BitFlip { col, row, mask, .. } => set_column(
            tr,
            col as int,
            xor_column(tr.columns[col as int], row as int, mask),
        ),
        Mutation::OutOfBounds { col, row, value, .. } => set_column(
            tr,
            col as int,
            write_column(tr.columns[col as int], row as int, value),
        ),
        Mutation::FlipSelector { col, row, .. } => set_column(
            tr,
            col as int,
            toggle_column(tr.columns[col as int], row as int),
        ),
        Mutation::SwapRows { row_a, row_b, .. } => TraceView {
            columns: tr.columns.map_values(|c: ColumnView| swap_column(c, row_a as int, row_b as int)),
            num_vars: tr.num_vars,
        },
        Mutation::SwapColumns { cols, row_a, row_b, .. } => swap_listed_columns(
            tr,
            cols@,
            row_a as int,
            row_b as int,
        ),
        Mutation::DuplicateRow { src_row, dst_row, .. } => TraceView {
            columns: tr.columns.map_values(
                |c: ColumnView| copy_column(c, src_row as int, dst_row as int),
            ),
            num_vars: tr.num_vars,
        },
        Mutation::CopyColumns { cols, src_row, dst_row, .. } => TraceView {
            columns: Seq::new(
                tr.columns.len(),
                |c: int|
                    if lists(cols@, c) {
                        copy_column(tr.columns[c], src_row as int, dst_row as int)
                    } else {
                        tr.columns[c]
                    },
            ),
            num_vars: tr.num_vars,
        },
        Mutation::ColumnUniformWrite { col, value, .. } => set_column(
            tr,
            col as int,
            fill_column(tr.columns[col as int], value),
        ),
        Mutation::RowSegmentZero { rows, cols, .. } => TraceView {
            columns: Seq::new(
                tr.columns.len(),
                |c: int|
                    if lists(cols@, c) {
                        zero_rows_column(tr.columns[c], rows@)
                    } else {
                        tr.columns[c]
                    },
            ),
            num_vars: tr.num_vars,
        },
        Mutation::MonotonicReplace { col, base, step, .. } => set_column(
            tr,
            col as int,
            monotonic_column(tr.columns[col as int], base, step),
        ),
        Mutation::Compound(_) => tr,
    }
}

/// Applying the non-compound mutation `m` to `tr` touches only cells that exist.
pub open spec fn trace_applicable(tr: TraceView, m: Mutation) -> bool {
    match m {
        Mutation::BitFlip { col, row, .. } => trace_has_cell(tr, col as int, row as int),
        Mutation::OutOfBounds { col, row, .. } => trace_has_cell(tr, col as int, row as int),
        Mutation::FlipSelector { col, row, .. } => {
            &&& trace_has_cell(tr, col as int, row as int)
            &&& tr.columns[col as int].col_type == ColumnType::Bit
        },
        Mutation::SwapRows { row_a, row_b, .. } => forall|c: int|
            0 <= c < tr.columns.len() ==> row_a < (#[trigger] tr.columns[c]).cells.len()
                && row_b < tr.columns[c].cells.len(),
        Mutation::SwapColumns { cols, row_a, row_b, .. } => forall|i: int|
            0 <= i < cols.len() ==> trace_has_cell(tr, #[trigger] cols@[i] as int, row_a as int)
                && trace_has_cell(tr, cols@[i] as int, row_b as int),
        Mutation::DuplicateRow { src_row, dst_row, .. } => forall|c: int|
            0 <= c < tr.columns.len() ==> src_row < (#[trigger] tr.columns[c]).cells.len()
                && dst_row < tr.columns[c].cells.len(),
        Mutation::CopyColumns { cols, src_row, dst_row, .. } => forall|i: int|
            0 <= i < cols.len() ==> trace_has_cell(tr, #[trigger] cols@[i] as int, src_row as int)
                && trace_has_cell(tr, cols@[i] as int, dst_row as int),
        Mutation::ColumnUniformWrite { col, .. } => col < tr.columns.len(),
        Mutation::RowSegmentZero { rows, cols, .. } => rows.len() == 0 || forall|i: int, j: int|
            0 <= i < cols.len() && 0 <= j < rows.len() ==> trace_has_cell(
                tr,
                #[trigger] cols@[i] as int,
                #[trigger] rows@[j] as int,
            ),
        Mutation::MonotonicReplace { col, .. } => col < tr.columns.len(),
        Mutation::Compound(_) => true,
    }
}

/// Applying `m` to `w` touches only traces and cells that exist: the
/// inputs on which applying it does not panic.
pub open spec fn applicable(w: WitnessView, m: Mutation) -> bool
    decreases m,
{
    match m {
        Mutation::Compound(ms) => all_applicable(w, ms@),
        _ => valid_target(w, target_of(m)) && trace_applicable(trace_at(w, target_of(m)), m),
    }
}

/// Every mutation of `ms` is applicable to `w`.
pub open spec fn all_applicable(w: WitnessView, ms: Seq<Mutation>) -> bool
    decreases ms,
{
    if ms.len() == 0 {
        true
    } else {
        all_applicable(w, ms.drop_last()) && applicable(w, ms.last())
    }
}

/// The witness that applying `m` to `w` produces.
pub open spec fn apply_spec(w: WitnessView, m: Mutation) -> WitnessView
    decreases m,
{
    match m {
        Mutation::Compound(ms) => apply_all_spec(w, ms@),
        _ => with_trace(w, target_of(m), apply_to_trace_spec(trace_at(w, target_of(m)), m)),
    }
}

/// The witness that applying the mutations of `ms` in order to `w` produces.
pub open spec fn apply_all_spec(w: WitnessView, ms: Seq<Mutation>) -> WitnessView
    decreases ms,
{
    if ms.len() == 0 {
        w
    } else {
        apply_spec(apply_all_spec(w, ms.drop_last()), ms.last())
    }
}

/// Writes `value` into cell `(col, row)` of `trace`.
pub(crate) fn set_cell(trace: &mut ColumnTrace, col: usize, row: usize, value: u128)
    requires
        trace_has_cell(old(trace)@, col as int, row as int),
    ensures
        final(trace)@ == set_column(
            old(trace)@,
            col as int,
            with_cells(old(trace)@.columns[col as int], old(trace)@.columns[col as int].cells.update(row as int, value)),
        ),
{
    let ghost before = trace.columns@;
    trace.columns[col].cells.set(row, value);
    proof {
        lemma_columns_view_update(before, col as int, trace.columns@[col as int]);
        assert(trace@.columns =~= set_column(
            old(trace)@,
            col as int,
            with_cells(old(trace)@.columns[col as int], old(trace)@.columns[col as int].cells.update(row as int, value)),
        ).columns);
    }
}

/// The height of column `col`.
fn column_len(trace: &ColumnTrace, col: usize) -> (n: usize)
    requires
        col < trace@.columns.len(),
    ensures
        n == trace@.columns[col as int].cells.len(),
{
    trace.columns[col].cells.len()
}

/// Writes `value`, truncated to the column width, into cell `(col, row)`.
pub fn write_value(trace: &mut ColumnTrace, col: usize, row: usize, value: u128)
    requires
        trace_has_cell(old(trace)@, col as int, row as int),
    ensures
        final(trace)@ == set_column(
            old(trace)@,
            col as int,
            write_column(old(trace)@.columns[col as int], row as int, value),
        ),
{
    let mask = col_mask(trace.columns[col].col_type);
    set_cell(trace, col, row, value & mask);
}

/// XORs `mask`, truncated to the column width, into cell `(col, row)`.
pub fn xor_cell(trace: &mut ColumnTrace, col: usize, row: usize, mask: u128)
    requires
        trace_has_cell(old(trace)@, col as int, row as int),
    ensures
        final(trace)@ == set_column(
            old(trace)@,
            col as int,
            xor_column(old(trace)@.columns[col as int], row as int, mask),
        ),
{
    let width = col_mask(trace.columns[col].col_type);
    let current = trace.columns[col].cells[row];
    set_cell(trace, col, row, current ^ (mask & width));
}

/// Toggles the bit in cell `(col, row)` of a `Bit` column.
fn flip_bit_cell(trace: &mut ColumnTrace, col: usize, row: usize)
    requires
        trace_has_cell(old(trace)@, col as int, row as int),
        old(trace)@.columns[col as int].col_type == ColumnType::Bit,
    ensures
        final(trace)@ == set_column(
            old(trace)@,
            col as int,
            toggle_column(old(trace)@.columns[col as int], row as int),
        ),
{
    let current = trace.columns[col].cells[row];
    set_cell(trace, col, row, current ^ 1);
}

/// Exchanges rows `a` and `b` of column `col`.
pub fn swap_cells(trace: &mut ColumnTrace, col: usize, a: usize, b: usize)
    requires
        trace_has_cell(old(trace)@, col as int, a as int),
        trace_has_cell(old(trace)@, col as int, b as int),
    ensures
        final(trace)@ == set_column(
            old(trace)@,
            col as int,
            swap_column(old(trace)@.columns[col as int], a as int, b as int),
        ),
{
    let x = trace.columns[col].cells[a];
    let y = trace.columns[col].cells[b];
    set_cell(trace, col, a, y);
    set_cell(trace, col, b, x);
    proof {
        assert(trace@.columns =~= set_column(
            old(trace)@,
            col as int,
            swap_column(old(trace)@.columns[col as int], a as int, b as int),
        ).columns);
    }
}

/// Copies row `src` of column `col` onto row `dst`.
fn copy_cell(trace: &mut ColumnTrace, col: usize, src: usize, dst: usize)
    requires
        trace_has_cell(old(trace)@, col as int, src as int),
        trace_has_cell(old(trace)@, col as int, dst as int),
    ensures
        final(trace)@ == set_column(
            old(trace)@,
            col as int,
            copy_column(old(trace)@.columns[col as int], src as int, dst as int),
        ),
{
    let x = trace.columns[col].cells[src];
    set_cell(trace, col, dst, x);
}

/// Exchanges rows `a` and `b` in every column.
fn swap_rows(trace: &mut ColumnTrace, a: usize, b: usize)
    requires
        forall|c: int|
            0 <= c < old(trace)@.columns.len() ==> a < (#[trigger] old(trace)@.columns[c]).cells.len()
                && b < old(trace)@.columns[c].cells.len(),
    ensures
        final(trace)@ == (TraceView {
            columns: old(trace)@.columns.map_values(|c: ColumnView| swap_column(c, a as int, b as int)),
            num_vars: old(trace)@.num_vars,
        }),
{
    let n = trace.columns.len();
    for c in 0..n
        invariant
            n == old(trace)@.columns.len(),
            trace@.num_vars == old(trace)@.num_vars,
            trace@.columns.len() == n,
            forall|k: int|
                0 <= k < n ==> a < (#[trigger] old(trace)@.columns[k]).cells.len()
                    && b < old(trace)@.columns[k].cells.len(),
            forall|k: int|
                0 <= k < c ==> #[trigger] trace@.columns[k] == swap_column(old(trace)@.columns[k], a as int, b as int),
            forall|k: int| c <= k < n ==> #[trigger] trace@.columns[k] == old(trace)@.columns[k],
    {
        swap_cells(trace, c, a, b);
    }
    assert(trace@.columns =~= old(trace)@.columns.map_values(|c: ColumnView| swap_column(c, a as int, b as int)));
}

/// Copies row `src` onto row `dst` in every column.
fn duplicate_row(trace: &mut ColumnTrace, src: usize, dst: usize)
    requires
        forall|c: int|
            0 <= c < old(trace)@.columns.len() ==> src < (#[trigger] old(trace)@.columns[c]).cells.len()
                && dst < old(trace)@.columns[c].cells.len(),
    ensures
        final(trace)@ == (TraceView {
            columns: old(trace)@.columns.map_values(|c: ColumnView| copy_column(c, src as int, dst as int)),
            num_vars: old(trace)@.num_vars,
        }),
{
    let n = trace.columns.len();
    for c in 0..n
        invariant
            n == old(trace)@.columns.len(),
            trace@.num_vars == old(trace)@.num_vars,
            trace@.columns.len() == n,
            forall|k: int|
                0 <= k < n ==> src < (#[trigger] old(trace)@.columns[k]).cells.len()
                    && dst < old(trace)@.columns[k].cells.len(),
            forall|k: int|
                0 <= k < c ==> #[trigger] trace@.columns[k] == copy_column(old(trace)@.columns[k], src as int, dst as int),
            forall|k: int| c <= k < n ==> #[trigger] trace@.columns[k] == old(trace)@.columns[k],
    {
        copy_cell(trace, c, src, dst);
    }
    assert(trace@.columns =~= old(trace)@.columns.map_values(|c: ColumnView| copy_column(c, src as int, dst as int)));
}

/// Exchanges rows `a` and `b` in the listed columns, one after the other.
fn swap_columns(trace: &mut ColumnTrace, cols: &Vec<usize>, a: usize, b: usize)
    requires
        forall|i: int|
            0 <= i < cols.len() ==> trace_has_cell(old(trace)@, #[trigger] cols@[i] as int, a as int)
                && trace_has_cell(old(trace)@, cols@[i] as int, b as int),
    ensures
        final(trace)@ == swap_listed_columns(old(trace)@, cols@, a as int, b as int),
{
    for i in 0..cols.len()
        invariant
            trace@ == swap_listed_columns(old(trace)@, cols@.take(i as int), a as int, b as int),
            trace@.columns.len() == old(trace)@.columns.len(),
            forall|c: int|
                0 <= c < trace@.columns.len() ==> (#[trigger] trace@.columns[c]).cells.len()
                    == old(trace)@.columns[c].cells.len(),
            forall|k: int|
                0 <= k < cols.len() ==> trace_has_cell(old(trace)@, #[trigger] cols@[k] as int, a as int)
                    && trace_has_cell(old(trace)@, cols@[k] as int, b as int),
    {
        proof {
            assert(cols@.take(i as int + 1).drop_last() =~= cols@.take(i as int));
            assert(cols@.take(i as int + 1).last() == cols@[i as int]);
        }
        swap_cells(trace, cols[i], a, b);
    }
    assert(cols@.take(cols.len() as int) =~= cols@);
}

/// Copies row `src` onto row `dst` in the listed columns.
fn copy_columns(trace: &mut ColumnTrace, cols: &Vec<usize>, src: usize, dst: usize)
    requires
        forall|i: int|
            0 <= i < cols.len() ==> trace_has_cell(old(trace)@, #[trigger] cols@[i] as int, src as int)
                && trace_has_cell(old(trace)@, cols@[i] as int, dst as int),
    ensures
        final(trace)@ == (TraceView {
            columns: Seq::new(
                old(trace)@.columns.len(),
                |c: int|
                    if lists(cols@, c) {
                        copy_column(old(trace)@.columns[c], src as int, dst as int)
                    } else {
                        old(trace)@.columns[c]
                    },
            ),
            num_vars: old(trace)@.num_vars,
        }),
{
    let n = trace.columns.len();
    for i in 0..cols.len()
        invariant
            trace@.num_vars == old(trace)@.num_vars,
            trace@.columns.len() == n,
            n == old(trace)@.columns.len(),
            forall|k: int|
                0 <= k < cols.len() ==> trace_has_cell(old(trace)@, #[trigger] cols@[k] as int, src as int)
                    && trace_has_cell(old(trace)@, cols@[k] as int, dst as int),
            forall|c: int|
                0 <= c < n ==> #[trigger] trace@.columns[c] == if lists(cols@.take(i as int), c) {
                    copy_column(old(trace)@.columns[c], src as int, dst as int)
                } else {
                    old(trace)@.columns[c]
                },
    {
        let c = cols[i];
        copy_cell(trace, c, src, dst);
        proof {
            assert forall|k: int| 0 <= k < n implies #[trigger] trace@.columns[k] == if lists(cols@.take(i as int + 1), k) {
                copy_column(old(trace)@.columns[k], src as int, dst as int)
            } else {
                old(trace)@.columns[k]
            } by {
                lemma_lists_take_step(cols@, i as int, k);
                if k == c as int {
                    let x = old(trace)@.columns[k];
                    assert(copy_column(copy_column(x, src as int, dst as int), src as int, dst as int).cells
                        =~= copy_column(x, src as int, dst as int).cells);
                }
            }
        }
    }
    proof {
        assert forall|k: int| 0 <= k < n implies #[trigger] lists(cols@.take(cols.len() as int), k) == lists(cols@, k) by {
            lemma_lists_take_all(cols@, k);
        }
    }
    assert(trace@.columns =~= Seq::new(
        old(trace)@.columns.len(),
        |c: int|
            if lists(cols@, c) {
                copy_column(old(trace)@.columns[c], src as int, dst as int)
            } else {
                old(trace)@.columns[c]
            },
    ));
}

/// Sets every row of column `col` to `value`, truncated to the column width.
fn column_uniform_write(trace: &mut ColumnTrace, col: usize, value: u128)
    requires
        col < old(trace)@.columns.len(),
    ensures
        final(trace)@ == set_column(old(trace)@, col as int, fill_column(old(trace)@.columns[col as int], value)),
{
    let n = column_len(trace, col);
    let ghost orig = old(trace)@.columns[col as int];
    assert(Seq::new(n as nat, |r: int| if r < 0 { value & width_mask(orig.col_type) } else { orig.cells[r] })
        =~= orig.cells);
    assert(trace@ =~~= set_column(
        old(trace)@,
        col as int,
        with_cells(orig, Seq::new(n as nat, |r: int| if r < 0 { value & width_mask(orig.col_type) } else { orig.cells[r] })),
    ));
    for row in 0..n
        invariant
            col < old(trace)@.columns.len(),
            n == orig.cells.len(),
            orig == old(trace)@.columns[col as int],
            trace@ == set_column(
                old(trace)@,
                col as int,
                with_cells(
                    orig,
                    Seq::new(n as nat, |r: int| if r < row { value & width_mask(orig.col_type) } else { orig.cells[r] }),
                ),
            ),
    {
        write_value(trace, col, row, value);
        proof {
            assert(trace@.columns[col as int].cells =~= Seq::new(
                n as nat,
                |r: int| if r < row + 1 { value & width_mask(orig.col_type) } else { orig.cells[r] },
            ));
            assert(trace@.columns =~= set_column(
                old(trace)@,
                col as int,
                with_cells(
                    orig,
                    Seq::new(n as nat, |r: int| if r < row + 1 { value & width_mask(orig.col_type) } else { orig.cells[r] }),
                ),
            ).columns);
        }
    }
    assert(Seq::new(n as nat, |r: int| if r < n { value & width_mask(orig.col_type) } else { orig.cells[r] })
        =~= fill_column(orig, value).cells);
    assert(trace@ =~~= set_column(old(trace)@, col as int, fill_column(orig, value)));
}

/// `base + row * step` in wrapping `u128` arithmetic equals `monotonic_value`.
proof fn lemma_wrapping_progression(base: u128, step: u128, row: u128)
    ensures
        vstd::wrapping::u128_specs::wrapping_add(base, vstd::wrapping::u128_specs::wrapping_mul(row, step))
            == monotonic_value(base, step, row as int),
{
    let m = u128_modulus();
    let p = (row as nat * step as nat) % (m as nat);
    vstd::arithmetic::div_mod::lemma_mod_bound((row * step) as int, m);
    vstd::arithmetic::div_mod::lemma_add_mod_noop_right(base as int, (row * step) as int, m);
    vstd::arithmetic::mul::lemma_mul_nonnegative(row as int, step as int);
    if base + p >= m {
        vstd::arithmetic::div_mod::lemma_mod_sub_multiples_vanish((base + p) as int, m);
        vstd::arithmetic::div_mod::lemma_small_mod((base + p - m) as nat, m as nat);
    } else {
        vstd::arithmetic::div_mod::lemma_small_mod((base + p) as nat, m as nat);
    }
}

/// Sets row `r` of column `col` to `base + r * step` (wrapping), truncated
/// to the column width.
fn monotonic_replace(trace: &mut ColumnTrace, col: usize, base: u128, step: u128)
    requires
        col < old(trace)@.columns.len(),
    ensures
        final(trace)@ == set_column(
            old(trace)@,
            col as int,
            monotonic_column(old(trace)@.columns[col as int], base, step),
        ),
{
    let n = column_len(trace, col);
    let ghost orig = old(trace)@.columns[col as int];
    assert(Seq::new(
                n as nat,
                |r: int| if r < 0 { monotonic_value(base, step, r) & width_mask(orig.col_type) } else { orig.cells[r] },
            ) =~= orig.cells);
    assert(trace@ =~~= set_column(
        old(trace)@,
        col as int,
        with_cells(
            orig,
            Seq::new(
                n as nat,
                |r: int| if r < 0 { monotonic_value(base, step, r) & width_mask(orig.col_type) } else { orig.cells[r] },
            ),
        ),
    ));
    for row in 0..n
        invariant
            col < old(trace)@.columns.len(),
            n == orig.cells.len(),
            orig == old(trace)@.columns[col as int],
            trace@ == set_column(
                old(trace)@,
                col as int,
                with_cells(
                    orig,
                    Seq::new(
                        n as nat,
                        |r: int|
                            if r < row {
                                monotonic_value(base, step, r) & width_mask(orig.col_type)
                            } else {
                                orig.cells[r]
                            },
                    ),
                ),
            ),
    {
        let value = base.wrapping_add((row as u128).wrapping_mul(step));
        proof {
            lemma_wrapping_progression(base, step, row as u128);
        }
        write_value(trace, col, row, value);
        proof {
            assert(trace@.columns[col as int].cells =~= Seq::new(
                n as nat,
                |r: int|
                    if r < row + 1 {
                        monotonic_value(base, step, r) & width_mask(orig.col_type)
                    } else {
                        orig.cells[r]
                    },
            ));
            assert(trace@.columns =~= set_column(
                old(trace)@,
                col as int,
                with_cells(
                    orig,
                    Seq::new(
                        n as nat,
                        |r: int|
                            if r < row + 1 {
                                monotonic_value(base, step, r) & width_mask(orig.col_type)
                            } else {
                                orig.cells[r]
                            },
                    ),
                ),
            ).columns);
        }
    }
    assert(Seq::new(
                n as nat,
                |r: int| if r < n { monotonic_value(base, step, r) & width_mask(orig.col_type) } else { orig.cells[r] },
            ) =~= monotonic_column(orig, base, step).cells);
    assert(trace@ =~~= set_column(old(trace)@, col as int, monotonic_column(orig, base, step)));
}

/// Zeroes the listed rows of column `col`.
fn zero_rows(trace: &mut ColumnTrace, col: usize, rows: &Vec<usize>)
    requires
        forall|j: int| 0 <= j < rows.len() ==> trace_has_cell(old(trace)@, col as int, #[trigger] rows@[j] as int),
    ensures
        rows.len() == 0 ==> final(trace)@ == old(trace)@,
        rows.len() > 0 ==> final(trace)@ == set_column(
            old(trace)@,
            col as int,
            zero_rows_column(old(trace)@.columns[col as int], rows@),
        ),
{
    if rows.len() > 0 {
        assert(trace_has_cell(old(trace)@, col as int, rows@[0] as int));
        let ghost orig = old(trace)@.columns[col as int];
        assert(zero_rows_column(orig, rows@.take(0)).cells =~= orig.cells);
        assert(trace@ =~~= set_column(old(trace)@, col as int, zero_rows_column(orig, rows@.take(0))));
    }
    for j in 0..rows.len()
        invariant
            forall|k: int| 0 <= k < rows.len() ==> trace_has_cell(old(trace)@, col as int, #[trigger] rows@[k] as int),
            rows.len() > 0 ==> col < old(trace)@.columns.len(),
            rows.len() > 0 ==> trace@ == set_column(
                old(trace)@,
                col as int,
                zero_rows_column(old(trace)@.columns[col as int], rows@.take(j as int)),
            ),
            rows.len() == 0 ==> trace@ == old(trace)@,
    {
        let r = rows[j];
        write_value(trace, col, r, 0);
        proof {
            let orig = old(trace)@.columns[col as int];
            assert(0u128 & width_mask(orig.col_type) == 0) by (bit_vector);
            assert forall|x: int| 0 <= x < orig.cells.len() implies
                #[trigger] zero_rows_column(orig, rows@.take(j as int + 1)).cells[x]
                    == trace@.columns[col as int].cells[x] by {
                lemma_lists_take_step(rows@, j as int, x);
            }
            assert(zero_rows_column(orig, rows@.take(j as int + 1)).cells =~= trace@.columns[col as int].cells);
            assert(trace@ =~~= set_column(old(trace)@, col as int, zero_rows_column(orig, rows@.take(j as int + 1))));
        }
    }
    assert(rows@.take(rows.len() as int) =~= rows@);
}

/// The trace `tr` with the rows in `rows` zeroed in the columns listed in
/// the prefix `cols_done`.
spec fn zeroed_prefix(tr: TraceView, rows: Seq<usize>, cols_done: Seq<usize>) -> TraceView {
    TraceView {
        columns: Seq::new(
            tr.columns.len(),
            |c: int| if lists(cols_done, c) { zero_rows_column(tr.columns[c], rows) } else { tr.columns[c] },
        ),
        num_vars: tr.num_vars,
    }
}

/// Zeroes every cell in the cross product of `rows` and `cols`.
fn row_segment_zero(trace: &mut ColumnTrace, rows: &Vec<usize>, cols: &Vec<usize>)
    requires
        rows.len() == 0 || forall|i: int, j: int|
            0 <= i < cols.len() && 0 <= j < rows.len() ==> trace_has_cell(
                old(trace)@,
                #[trigger] cols@[i] as int,
                #[trigger] rows@[j] as int,
            ),
    ensures
        final(trace)@ == (TraceView {
            columns: Seq::new(
                old(trace)@.columns.len(),
                |c: int|
                    if lists(cols@, c) {
                        zero_rows_column(old(trace)@.columns[c], rows@)
                    } else {
                        old(trace)@.columns[c]
                    },
            ),
            num_vars: old(trace)@.num_vars,
        }),
{
    let ghost orig = old(trace)@;
    assert(trace@ =~~= zeroed_prefix(orig, rows@, cols@.take(0)));
    for ci in 0..cols.len()
        invariant
            orig == old(trace)@,
            rows.len() == 0 || forall|i: int, j: int|
                0 <= i < cols.len() && 0 <= j < rows.len() ==> trace_has_cell(
                    orig,
                    #[trigger] cols@[i] as int,
                    #[trigger] rows@[j] as int,
                ),
            trace@ == zeroed_prefix(orig, rows@, cols@.take(ci as int)),
    {
        let c = cols[ci];
        proof {
            assert forall|j: int| 0 <= j < rows.len() implies trace_has_cell(trace@, c as int, #[trigger] rows@[j] as int) by {
                assert(trace_has_cell(orig, cols@[ci as int] as int, rows@[j] as int));
                assert(zero_rows_column(orig.columns[c as int], rows@).cells.len() == orig.columns[c as int].cells.len());
            }
        }
        let ghost prev = trace@;
        zero_rows(trace, c, rows);
        proof {
            assert forall|k: int| 0 <= k < orig.columns.len() implies
                #[trigger] trace@.columns[k] =~~= zeroed_prefix(orig, rows@, cols@.take(ci as int + 1)).columns[k] by {
                lemma_lists_take_step(cols@, ci as int, k);
                let x = orig.columns[k];
                assert(zero_rows_column(zero_rows_column(x, rows@), rows@).cells =~= zero_rows_column(x, rows@).cells);
                assert(prev.columns[k] == if lists(cols@.take(ci as int), k) { zero_rows_column(x, rows@) } else { x });
                if rows.len() == 0 {
                    assert(zero_rows_column(x, rows@).cells =~= x.cells);
                    assert(trace@.columns[k] == prev.columns[k]);
                } else if k == c as int {
                    assert(trace@.columns[k] == zero_rows_column(prev.columns[k], rows@));
                } else {
                    assert(trace_has_cell(prev, c as int, rows@[0] as int));
                    assert(trace@.columns[k] == prev.columns[k]);
                }
            }
            assert(prev.columns.len() == orig.columns.len());
            if rows.len() > 0 {
                assert(trace_has_cell(prev, c as int, rows@[0] as int));
            }
            assert(trace@.columns.len() == orig.columns.len());
            assert(trace@.num_vars == orig.num_vars);
            assert(trace@ =~~= zeroed_prefix(orig, rows@, cols@.take(ci as int + 1)));
        }
    }
    proof {
        assert forall|k: int| 0 <= k < orig.columns.len() implies #[trigger] lists(cols@.take(cols.len() as int), k) == lists(cols@, k) by {
            lemma_lists_take_all(cols@, k);
        }
        assert(trace@ =~~= TraceView {
            columns: Seq::new(
                orig.columns.len(),
                |c: int| if lists(cols@, c) { zero_rows_column(orig.columns[c], rows@) } else { orig.columns[c] },
            ),
            num_vars: orig.num_vars,
        });
    }
}

/// Applies a non-compound mutation to the trace it targets.
fn apply_to_trace(trace: &mut ColumnTrace, mutation: &Mutation)
    requires
        !(*mutation is Compound),
        trace_applicable(old(trace)@, *mutation),
    ensures
        final(trace)@ == apply_to_trace_spec(old(trace)@, *mutation),
{
    match mutation {
        Mutation::BitFlip { col, row, mask, .. } => xor_cell(trace, *col, *row, *mask),
        Mutation::OutOfBounds { col, row, value, .. } => write_value(trace, *col, *row, *value),
        Mutation::FlipSelector { col, row, .. } => flip_bit_cell(trace, *col, *row),
        Mutation::SwapRows { row_a, row_b, .. } => swap_rows(trace, *row_a, *row_b),
        Mutation::SwapColumns { cols, row_a, row_b, .. } => swap_columns(trace, cols, *row_a, *row_b),
        Mutation::DuplicateRow { src_row, dst_row, .. } => duplicate_row(trace, *src_row, *dst_row),
        Mutation::CopyColumns { cols, src_row, dst_row, .. } => copy_columns(trace, cols, *src_row, *dst_row),
        Mutation::ColumnUniformWrite { col, value, .. } => column_uniform_write(trace, *col, *value),
        Mutation::RowSegmentZero { rows, cols, .. } => row_segment_zero(trace, rows, cols),
        Mutation::MonotonicReplace { col, base, step, .. } => monotonic_replace(trace, *col, *base, *step),
        Mutation::Compound(_) => {},
    }
}

/// Applies a non-compound mutation to the witness.
fn apply_at(witness: &mut Witness, target: Target, mutation: &Mutation)
    requires
        !(*mutation is Compound),
        target == target_of(*mutation),
        applicable(old(witness)@, *mutation),
    ensures
        final(witness)@ == apply_spec(old(witness)@, *mutation),
{
    let ghost before = *witness;
    let trace = target.resolve_mut(witness);
    apply_to_trace(trace, mutation);
    let ghost after = *trace;
    proof {
        lemma_replaces_trace_view(before, *witness, target, after);
    }
}

/// Mutates `witness` in place per `mutation`.
pub fn apply_mutation(witness: &mut Witness, mutation: &Mutation)
    requires
        applicable(old(witness)@, *mutation),
    ensures
        final(witness)@ == apply_spec(old(witness)@, *mutation),
    decreases mutation,
{
    match mutation {
        Mutation::BitFlip { target, .. }
        | Mutation::OutOfBounds { target, .. }
        | Mutation::FlipSelector { target, .. }
        | Mutation::SwapRows { target, .. }
        | Mutation::SwapColumns { target, .. }
        | Mutation::DuplicateRow { target, .. }
        | Mutation::CopyColumns { target, .. }
        | Mutation::ColumnUniformWrite { target, .. }
        | Mutation::RowSegmentZero { target, .. }
        | Mutation::MonotonicReplace { target, .. } => apply_at(witness, *target, mutation),
        Mutation::Compound(mutations) => {
            let ghost start = witness@;
            for i in 0..mutations.len()
                invariant
                    *mutation == Mutation::Compound(*mutations),
                    all_applicable(start, mutations@),
                    witness@ == apply_all_spec(start, mutations@.take(i as int)),
                    same_shape(witness@, start),
            {
                proof {
                    lemma_all_applicable_index(start, mutations@, i as int);
                    lemma_applicable_same_shape(start, witness@, mutations@[i as int]);
                    assert(mutations@.take(i as int + 1).drop_last() =~= mutations@.take(i as int));
                    lemma_apply_shape(witness@, mutations@[i as int]);
                    lemma_same_shape_trans(apply_spec(witness@, mutations@[i as int]), witness@, start);
                    assert(decreases_to!(*mutation => (*mutation)->0));
                    assert(decreases_to!(*mutations => mutations@));
                    assert(decreases_to!(mutations@ => mutations@[i as int]));
                }
                apply_mutation(witness, &mutations[i]);
            }
            assert(mutations@.take(mutations.len() as int) =~= mutations@);
        },
    }
}

/// Shapes: `same_shape` is an equivalence.
pub proof fn lemma_same_shape_trans(a: WitnessView, b: WitnessView, c: WitnessView)
    requires
        same_shape(a, b),
        same_shape(b, c),
    ensures
        same_shape(a, c),
        same_shape(c, a),
{
    assert forall|i: int| 0 <= i < a.chiplet_traces.len() implies same_trace_shape(#[trigger] a.chiplet_traces[i], c.chiplet_traces[i]) by {
        assert(same_trace_shape(a.chiplet_traces[i], b.chiplet_traces[i]));
        assert(same_trace_shape(b.chiplet_traces[i], c.chiplet_traces[i]));
    }
    assert forall|i: int| 0 <= i < c.chiplet_traces.len() implies same_trace_shape(#[trigger] c.chiplet_traces[i], a.chiplet_traces[i]) by {
        assert(same_trace_shape(a.chiplet_traces[i], b.chiplet_traces[i]));
        assert(same_trace_shape(b.chiplet_traces[i], c.chiplet_traces[i]));
    }
}

/// Every witness has its own shape.
pub proof fn lemma_same_shape_refl(a: WitnessView)
    ensures
        same_shape(a, a),
{
    assert forall|i: int| 0 <= i < a.chiplet_traces.len() implies same_trace_shape(#[trigger] a.chiplet_traces[i], a.chiplet_traces[i]) by {}
}

/// Each mutation of an applicable sequence is applicable.
pub proof fn lemma_all_applicable_index(w: WitnessView, ms: Seq<Mutation>, i: int)
    requires
        all_applicable(w, ms),
        0 <= i < ms.len(),
    ensures
        applicable(w, ms[i]),
    decreases ms.len(),
{
    if i < ms.len() - 1 {
        lemma_all_applicable_index(w, ms.drop_last(), i);
    }
}

/// Swapping listed columns keeps the shape of a trace.
proof fn lemma_swap_listed_shape(tr: TraceView, cols: Seq<usize>, a: int, b: int)
    requires
        forall|i: int| 0 <= i < cols.len() ==> trace_has_cell(tr, #[trigger] cols[i] as int, a) && trace_has_cell(tr, cols[i] as int, b),
    ensures
        same_trace_shape(swap_listed_columns(tr, cols, a, b), tr),
    decreases cols.len(),
{
    if cols.len() > 0 {
        lemma_swap_listed_shape(tr, cols.drop_last(), a, b);
        assert(trace_has_cell(tr, cols.last() as int, a));
    }
}

/// A non-compound mutation keeps the shape of the trace it is applied to.
proof fn lemma_apply_to_trace_shape(tr: TraceView, m: Mutation)
    requires
        trace_applicable(tr, m),
    ensures
        same_trace_shape(apply_to_trace_spec(tr, m), tr),
{
    if let Mutation::SwapColumns { cols, row_a, row_b, .. } = m {
        lemma_swap_listed_shape(tr, cols@, row_a as int, row_b as int);
    }
}

/// Applying a mutation keeps the shape of the witness: its traces, their
/// columns, the column types and heights.
pub proof fn lemma_apply_shape(w: WitnessView, m: Mutation)
    requires
        applicable(w, m),
    ensures
        same_shape(apply_spec(w, m), w),
    decreases m,
{
    match m {
        Mutation::Compound(ms) => {
            lemma_apply_all_shape(w, ms@);
        },
        _ => {
            let t = target_of(m);
            lemma_apply_to_trace_shape(trace_at(w, t), m);
            let r = apply_spec(w, m);
            assert forall|i: int| 0 <= i < w.chiplet_traces.len() implies same_trace_shape(#[trigger] r.chiplet_traces[i], w.chiplet_traces[i]) by {}
        },
    }
}

/// Applying a sequence of mutations keeps the shape of the witness.
pub proof fn lemma_apply_all_shape(w: WitnessView, ms: Seq<Mutation>)
    requires
        all_applicable(w, ms),
    ensures
        same_shape(apply_all_spec(w, ms), w),
    decreases ms,
{
    if ms.len() == 0 {
        lemma_same_shape_refl(w);
    } else {
        lemma_apply_all_shape(w, ms.drop_last());
        let mid = apply_all_spec(w, ms.drop_last());
        lemma_applicable_same_shape(w, mid, ms.last());
        lemma_apply_shape(mid, ms.last());
        lemma_same_shape_trans(apply_spec(mid, ms.last()), mid, w);
    }
}

/// Whether a non-compound mutation applies depends on the shape of the trace only.
proof fn lemma_trace_applicable_same_shape(a: TraceView, b: TraceView, m: Mutation)
    requires
        same_trace_shape(a, b),
    ensures
        trace_applicable(a, m) == trace_applicable(b, m),
{
    assert forall|c: int, r: int| trace_has_cell(a, c, r) <==> #[trigger] trace_has_cell(b, c, r) by {
        if 0 <= c < a.columns.len() {
            assert(a.columns[c].col_type == b.columns[c].col_type);
        }
    }
    match m {
        Mutation::SwapRows { row_a, row_b, .. } => {
            if trace_applicable(a, m) {
                assert forall|c: int| 0 <= c < b.columns.len() implies row_a < (#[trigger] b.columns[c]).cells.len()
                    && row_b < b.columns[c].cells.len() by {
                    assert(a.columns[c].col_type == b.columns[c].col_type);
                    assert(row_a < a.columns[c].cells.len());
                }
            }
            if trace_applicable(b, m) {
                assert forall|c: int| 0 <= c < a.columns.len() implies row_a < (#[trigger] a.columns[c]).cells.len()
                    && row_b < a.columns[c].cells.len() by {
                    assert(a.columns[c].col_type == b.columns[c].col_type);
                    assert(row_a < b.columns[c].cells.len());
                }
            }
        },
        Mutation::DuplicateRow { src_row, dst_row, .. } => {
            if trace_applicable(a, m) {
                assert forall|c: int| 0 <= c < b.columns.len() implies src_row < (#[trigger] b.columns[c]).cells.len()
                    && dst_row < b.columns[c].cells.len() by {
                    assert(a.columns[c].col_type == b.columns[c].col_type);
                    assert(src_row < a.columns[c].cells.len());
                }
            }
            if trace_applicable(b, m) {
                assert forall|c: int| 0 <= c < a.columns.len() implies src_row < (#[trigger] a.columns[c]).cells.len()
                    && dst_row < a.columns[c].cells.len() by {
                    assert(a.columns[c].col_type == b.columns[c].col_type);
                    assert(src_row < b.columns[c].cells.len());
                }
            }
        },
        Mutation::FlipSelector { col, .. } => {
            if 0 <= col < a.columns.len() {
                assert(a.columns[col as int].col_type == b.columns[col as int].col_type);
            }
        },
        _ => {},
    }
}

/// Whether a mutation applies depends on the shape of the witness only.
pub proof fn lemma_applicable_same_shape(a: WitnessView, b: WitnessView, m: Mutation)
    requires
        same_shape(a, b),
    ensures
        applicable(a, m) == applicable(b, m),
    decreases m,
{
    match m {
        Mutation::Compound(ms) => {
            lemma_all_applicable_same_shape(a, b, ms@);
        },
        _ => {
            let t = target_of(m);
            if valid_target(a, t) {
                let ta = trace_at(a, t);
                let tb = trace_at(b, t);
                assert(same_trace_shape(ta, tb));
                lemma_trace_applicable_same_shape(ta, tb, m);
            }
        },
    }
}

/// Whether a sequence of mutations applies depends on the shape only.
pub proof fn lemma_all_applicable_same_shape(a: WitnessView, b: WitnessView, ms: Seq<Mutation>)
    requires
        same_shape(a, b),
    ensures
        all_applicable(a, ms) == all_applicable(b, ms),
    decreases ms,
{
    if ms.len() > 0 {
        lemma_all_applicable_same_shape(a, b, ms.drop_last());
        lemma_applicable_same_shape(a, b, ms.last());
    }
}

/// Whether cell `(col, row)` exists in `trace`.
fn has_cell_exec(trace: &ColumnTrace, col: usize, row: usize) -> (res: bool)
    ensures
        res == trace_has_cell(trace@, col as int, row as int),
{
    col < trace.columns.len() && row < trace.columns[col].cells.len()
}

/// Whether rows `a` and `b` exist in every column of `trace`.
fn rows_in_every_column(trace: &ColumnTrace, a: usize, b: usize) -> (res: bool)
    ensures
        res == forall|c: int| 0 <= c < trace@.columns.len() ==> a < (#[trigger] trace@.columns[c]).cells.len()
            && b < trace@.columns[c].cells.len(),
{
    for c in 0..trace.columns.len()
        invariant
            forall|k: int| 0 <= k < c ==> a < (#[trigger] trace@.columns[k]).cells.len() && b < trace@.columns[k].cells.len(),
    {
        if a >= trace.columns[c].cells.len() || b >= trace.columns[c].cells.len() {
            assert(!(a < trace@.columns[c as int].cells.len() && b < trace@.columns[c as int].cells.len()));
            return false;
        }
    }
    true
}

/// Whether rows `a` and `b` exist in every listed column of `trace`.
fn rows_in_listed_columns(trace: &ColumnTrace, cols: &Vec<usize>, a: usize, b: usize) -> (res: bool)
    ensures
        res == forall|i: int| 0 <= i < cols.len() ==> trace_has_cell(trace@, #[trigger] cols@[i] as int, a as int)
            && trace_has_cell(trace@, cols@[i] as int, b as int),
{
    for i in 0..cols.len()
        invariant
            forall|k: int| 0 <= k < i ==> trace_has_cell(trace@, #[trigger] cols@[k] as int, a as int)
                && trace_has_cell(trace@, cols@[k] as int, b as int),
    {
        if !has_cell_exec(trace, cols[i], a) || !has_cell_exec(trace, cols[i], b) {
            return false;
        }
    }
    true
}

/// Whether every listed row exists in every listed column of `trace`.
fn segment_in_trace(trace: &ColumnTrace, rows: &Vec<usize>, cols: &Vec<usize>) -> (res: bool)
    ensures
        res == forall|i: int, j: int|
            0 <= i < cols.len() && 0 <= j < rows.len() ==> trace_has_cell(trace@, #[trigger] cols@[i] as int, #[trigger] rows@[j] as int),
{
    for i in 0..cols.len()
        invariant
            forall|k: int, j: int|
                0 <= k < i && 0 <= j < rows.len() ==> trace_has_cell(trace@, #[trigger] cols@[k] as int, #[trigger] rows@[j] as int),
    {
        for j in 0..rows.len()
            invariant
                i < cols.len(),
                forall|k: int, l: int|
                    0 <= k < i && 0 <= l < rows.len() ==> trace_has_cell(trace@, #[trigger] cols@[k] as int, #[trigger] rows@[l] as int),
                forall|l: int| 0 <= l < j ==> trace_has_cell(trace@, cols@[i as int] as int, #[trigger] rows@[l] as int),
        {
            if !has_cell_exec(trace, cols[i], rows[j]) {
                return false;
            }
        }
    }
    true
}

/// Whether the non-compound `mutation` touches only cells of `trace` that exist.
fn trace_is_applicable(trace: &ColumnTrace, mutation: &Mutation) -> (res: bool)
    ensures
        res == trace_applicable(trace@, *mutation),
{
    match mutation {
        Mutation::BitFlip { col, row, .. } | Mutation::OutOfBounds { col, row, .. } => has_cell_exec(trace, *col, *row),
        Mutation::FlipSelector { col, row, .. } => has_cell_exec(trace, *col, *row)
            && trace.columns[*col].col_type == ColumnType::Bit,
        Mutation::SwapRows { row_a, row_b, .. } => rows_in_every_column(trace, *row_a, *row_b),
        Mutation::SwapColumns { cols, row_a, row_b, .. } => rows_in_listed_columns(trace, cols, *row_a, *row_b),
        Mutation::DuplicateRow { src_row, dst_row, .. } => rows_in_every_column(trace, *src_row, *dst_row),
        Mutation::CopyColumns { cols, src_row, dst_row, .. } => rows_in_listed_columns(trace, cols, *src_row, *dst_row),
        Mutation::ColumnUniformWrite { col, .. } | Mutation::MonotonicReplace { col, .. } => *col < trace.columns.len(),
        Mutation::RowSegmentZero { rows, cols, .. } => rows.len() == 0 || segment_in_trace(trace, rows, cols),
        Mutation::Compound(_) => true,
    }
}

/// Whether `mutation` touches only traces and cells of `witness` that
/// exist, that is whether `apply_mutation` accepts it.
pub fn is_applicable(witness: &Witness, mutation: &Mutation) -> (res: bool)
    ensures
        res == applicable(witness@, *mutation),
    decreases mutation,
{
    match mutation {
        Mutation::BitFlip { target, .. }
        | Mutation::OutOfBounds { target, .. }
        | Mutation::FlipSelector { target, .. }
        | Mutation::SwapRows { target, .. }
        | Mutation::SwapColumns { target, .. }
        | Mutation::DuplicateRow { target, .. }
        | Mutation::CopyColumns { target, .. }
        | Mutation::ColumnUniformWrite { target, .. }
        | Mutation::RowSegmentZero { target, .. }
        | Mutation::MonotonicReplace { target, .. } => {
            let valid = match target {
                Target::Main => true,
                Target::Chiplet(i) => *i < witness.chiplet_traces.len(),
            };
            valid && trace_is_applicable(target.resolve(witness), mutation)
        },
        Mutation::Compound(mutations) => {
            for i in 0..mutations.len()
                invariant
                    *mutation == Mutation::Compound(*mutations),
                    all_applicable(witness@, mutations@.take(i as int)),
            {
                proof {
                    assert(mutations@.take(i as int + 1).drop_last() =~= mutations@.take(i as int));
                    assert(decreases_to!(*mutation => (*mutation)->0));
                    assert(decreases_to!(*mutations => mutations@));
                    assert(decreases_to!(mutations@ => mutations@[i as int]));
                }
                if !is_applicable(witness, &mutations[i]) {
                    proof {
                        if all_applicable(witness@, mutations@) {
                            lemma_all_applicable_prefix(witness@, mutations@, i as int + 1);
                        }
                    }
                    return false;
                }
            }
            assert(mutations@.take(mutations.len() as int) =~= mutations@);
            true
        },
    }
}

/// A prefix of an applicable sequence is applicable, and its last element is.
proof fn lemma_all_applicable_prefix(w: WitnessView, ms: Seq<Mutation>, k: int)
    requires
        all_applicable(w, ms),
        0 < k <= ms.len(),
    ensures
        all_applicable(w, ms.take(k)),
        applicable(w, ms[k - 1]),
    decreases ms.len(),
{
    if k < ms.len() {
        lemma_all_applicable_prefix(w, ms.drop_last(), k);
        assert(ms.drop_last().take(k) =~= ms.take(k));
    } else {
        assert(ms.take(k) =~= ms);
    }
}

} // verus!
