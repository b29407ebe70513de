//! The trace model: typed columns of cells, grouped into a main trace and
//! any number of chiplet traces.
use vstd::prelude::*;

use crate::target::Target;

verus! {

/// Storage width of a column.
#[derive(Clone, Copy, Debug, PartialEq, Eq, Structural, Hash)]
pub enum ColumnType {
    Bit,
    B8,
    B16,
    B32,
    B64,
    B128,
}

/// The largest value a cell of a column of type `t` can hold; every
/// written value is truncated to it (`value & width_mask(t)`).
pub open spec fn width_mask(t: ColumnType) -> u128 {
    match t {
        ColumnType::Bit => 1,
        ColumnType::B8 => 0xFF,
        ColumnType::B16 => 0xFFFF,
        ColumnType::B32 => 0xFFFF_FFFF,
        ColumnType::B64 => 0xFFFF_FFFF_FFFF_FFFF,
        ColumnType::B128 => 0xFFFF_FFFF_FFFF_FFFF_FFFF_FFFF_FFFF_FFFF,
    }
}

/// A column of type `t` holds 1, 8, 16, 32, 64 or 128 bits, and its mask
/// keeps exactly those low bits: one less than two to that power.
pub proof fn lemma_width_mask_bits(t: ColumnType)
    ensures
        width_mask(t) + 1 == match t {
            ColumnType::Bit => 2int,
            ColumnType::B8 => 0x100int,
            ColumnType::B16 => 0x1_0000int,
            ColumnType::B32 => 0x1_0000_0000int,
            ColumnType::B64 => 0x1_0000_0000_0000_0000int,
            ColumnType::B128 => 0x1_0000_0000_0000_0000_0000_0000_0000_0000int,
        },
{
}

/// The width mask of a column type.
pub fn col_mask(t: ColumnType) -> (m: u128)
    ensures
        m == width_mask(t),
{
    match t {
        ColumnType::Bit => 1,
        ColumnType::B8 => 0xFF,
        ColumnType::B16 => 0xFFFF,
        ColumnType::B32 => 0xFFFF_FFFF,
        ColumnType::B64 => 0xFFFF_FFFF_FFFF_FFFF,
        ColumnType::B128 => 0xFFFF_FFFF_FFFF_FFFF_FFFF_FFFF_FFFF_FFFF,
    }
}

/// One typed column; cell `r` holds the raw bits of row `r`.
pub struct TraceColumn {
    pub col_type: ColumnType,
    pub cells: Vec<u128>,
}

/// Mathematical view of a column.
#[verifier::ext_equal]
pub struct ColumnView {
    pub col_type: ColumnType,
    pub cells: Seq<u128>,
}

impl View for TraceColumn {
    type V = ColumnView;

    open spec fn view(&self) -> ColumnView {
        ColumnView { col_type: self.col_type, cells: self.cells@ }
    }
}

/// A column-major trace: `columns[c].cells[r]` is the cell at column `c`, row `r`.
pub struct ColumnTrace {
    pub columns: Vec<TraceColumn>,
    pub num_vars: usize,
}

/// Mathematical view of a trace.
#[verifier::ext_equal]
pub struct TraceView {
    pub columns: Seq<ColumnView>,
    pub num_vars: usize,
}

impl View for ColumnTrace {
    type V = TraceView;

    open spec fn view(&self) -> TraceView {
        TraceView { columns: self.columns@.map_values(|c: TraceColumn| c@), num_vars: self.num_vars }
    }
}

/// The program witness: the main trace and the chiplet traces, indexed by
/// chiplet number.
pub struct Witness {
    pub trace: ColumnTrace,
    pub chiplet_traces: Vec<ColumnTrace>,
}

/// Mathematical view of a witness.
#[verifier::ext_equal]
pub struct WitnessView {
    pub trace: TraceView,
    pub chiplet_traces: Seq<TraceView>,
}

impl View for Witness {
    type V = WitnessView;

    open spec fn view(&self) -> WitnessView {
        WitnessView {
            trace: self.trace@,
            chiplet_traces: self.chiplet_traces@.map_values(|t: ColumnTrace| t@),
        }
    }
}

/// `t` names a trace of `w`.
pub open spec fn valid_target(w: WitnessView, t: Target) -> bool {
    match t {
        Target::Main => true,
        Target::Chiplet(i) => i < w.chiplet_traces.len(),
    }
}

/// The trace that `t` names.
pub open spec fn trace_at(w: WitnessView, t: Target) -> TraceView {
    match t {
        Target::Main => w.trace,
        Target::Chiplet(i) => w.chiplet_traces[i as int],
    }
}

/// `w` with the trace that `t` names replaced by `tr`.
pub open spec fn with_trace(w: WitnessView, t: Target, tr: TraceView) -> WitnessView {
    match t {
        Target::Main => WitnessView { trace: tr, chiplet_traces: w.chiplet_traces },
        Target::Chiplet(i) => WitnessView {
            trace: w.trace,
            chiplet_traces: w.chiplet_traces.update(i as int, tr),
        },
    }
}

/// Cell `(col, row)` exists in `tr`.
pub open spec fn trace_has_cell(tr: TraceView, col: int, row: int) -> bool {
    0 <= col < tr.columns.len() && 0 <= row < tr.columns[col].cells.len()
}

/// Cell `(t, col, row)` exists in `w`.
pub open spec fn has_cell(w: WitnessView, t: Target, col: int, row: int) -> bool {
    valid_target(w, t) && trace_has_cell(trace_at(w, t), col, row)
}

/// The value of cell `(t, col, row)` of `w`.
pub open spec fn cell_at(w: WitnessView, t: Target, col: int, row: int) -> u128 {
    trace_at(w, t).columns[col].cells[row]
}

/// Every count in `tr` fits a `usize`.
pub open spec fn trace_bounded(tr: TraceView) -> bool {
    &&& tr.columns.len() <= usize::MAX
    &&& forall|c: int| 0 <= c < tr.columns.len() ==> #[trigger] tr.columns[c].cells.len() <= usize::MAX
}

/// Every count in `w` fits a `usize`, as in every witness that exists.
pub open spec fn bounded(w: WitnessView) -> bool {
    &&& w.chiplet_traces.len() <= usize::MAX
    &&& trace_bounded(w.trace)
    &&& forall|i: int| 0 <= i < w.chiplet_traces.len() ==> trace_bounded(#[trigger] w.chiplet_traces[i])
}

proof fn lemma_trace_bounded(t: ColumnTrace)
    ensures
        trace_bounded(t@),
{
    assert(t@.columns.len() == t.columns.len());
    assert forall|c: int| 0 <= c < t@.columns.len() implies #[trigger] t@.columns[c].cells.len() <= usize::MAX by {
        assert(t@.columns[c] == t.columns@[c]@);
        assert(t.columns@[c].cells@.len() == t.columns@[c].cells.len());
    }
}

/// The view of a witness is bounded.
pub proof fn lemma_bounded(w: Witness)
    ensures
        bounded(w@),
{
    lemma_trace_bounded(w.trace);
    assert(w@.chiplet_traces.len() == w.chiplet_traces.len());
    assert forall|i: int| 0 <= i < w@.chiplet_traces.len() implies trace_bounded(#[trigger] w@.chiplet_traces[i]) by {
        lemma_trace_bounded(w.chiplet_traces@[i]);
    }
}

/// `x` occurs in `s`.
pub open spec fn lists(s: Seq<usize>, x: int) -> bool {
    exists|j: int| 0 <= j < s.len() && s[j] as int == x
}

/// Extending a prefix of `s` by one element adds that element.
pub proof fn lemma_lists_take_step(s: Seq<usize>, i: int, x: int)
    requires
        0 <= i < s.len(),
    ensures
        lists(s.take(i + 1), x) <==> (lists(s.take(i), x) || s[i] as int == x),
{
    if lists(s.take(i + 1), x) {
        let j = choose|j: int| 0 <= j < i + 1 && #[trigger] s.take(i + 1)[j] as int == x;
        if j < i {
            assert(s.take(i)[j] as int == x);
        }
    }
    if lists(s.take(i), x) {
        let j = choose|j: int| 0 <= j < i && #[trigger] s.take(i)[j] as int == x;
        assert(s.take(i + 1)[j] as int == x);
    }
    if s[i] as int == x {
        assert(s.take(i + 1)[i] as int == x);
    }
}

/// The whole of `s` is its longest prefix.
pub proof fn lemma_lists_take_all(s: Seq<usize>, x: int)
    ensures
        lists(s.take(s.len() as int), x) <==> lists(s, x),
{
    assert(s.take(s.len() as int) =~= s);
}

/// Nothing occurs in the empty prefix.
pub proof fn lemma_lists_take_none(s: Seq<usize>, x: int)
    ensures
        !lists(s.take(0), x),
{
}

/// Two traces have the same columns, types and heights.
pub open spec fn same_trace_shape(a: TraceView, b: TraceView) -> bool {
    &&& a.num_vars == b.num_vars
    &&& a.columns.len() == b.columns.len()
    &&& forall|c: int|
        0 <= c < a.columns.len() ==> {
            &&& #[trigger] a.columns[c].col_type == b.columns[c].col_type
            &&& a.columns[c].cells.len() == b.columns[c].cells.len()
        }
}

/// Two witnesses have the same traces, columns, types and heights.
pub open spec fn same_shape(a: WitnessView, b: WitnessView) -> bool {
    &&& same_trace_shape(a.trace, b.trace)
    &&& a.chiplet_traces.len() == b.chiplet_traces.len()
    &&& forall|i: int|
        0 <= i < a.chiplet_traces.len() ==> same_trace_shape(
            #[trigger] a.chiplet_traces[i],
            b.chiplet_traces[i],
        )
}

/// Every cell of `tr` fits the width of its column.
pub open spec fn trace_within_width(tr: TraceView) -> bool {
    forall|c: int, r: int|
        0 <= c < tr.columns.len() && 0 <= r < tr.columns[c].cells.len() ==> #[trigger] (
        tr.columns[c].cells[r] & width_mask(tr.columns[c].col_type)) == tr.columns[c].cells[r]
}

/// Every cell of `w` fits the width of its column.
pub open spec fn within_width(w: WitnessView) -> bool {
    &&& trace_within_width(w.trace)
    &&& forall|i: int| 0 <= i < w.chiplet_traces.len() ==> trace_within_width(#[trigger] w.chiplet_traces[i])
}

/// `after` is `before` with the trace that `t` names replaced by `tr`.
pub open spec fn replaces_trace(before: Witness, after: Witness, t: Target, tr: ColumnTrace) -> bool {
    match t {
        Target::Main => after.trace == tr && after.chiplet_traces == before.chiplet_traces,
        Target::Chiplet(i) => {
            &&& after.trace == before.trace
            &&& after.chiplet_traces@ == before.chiplet_traces@.update(i as int, tr)
        },
    }
}

/// Replacing a trace of a witness, seen through the views.
pub proof fn lemma_replaces_trace_view(before: Witness, after: Witness, t: Target, tr: ColumnTrace)
    requires
        valid_target(before@, t),
        replaces_trace(before, after, t, tr),
    ensures
        after@ == with_trace(before@, t, tr@),
{
    if let Target::Chiplet(i) = t {
        lemma_traces_view_update(before.chiplet_traces@, i as int, tr);
    }
}

/// Replacing element `i` of a sequence of traces commutes with taking views.
pub proof fn lemma_traces_view_update(s: Seq<ColumnTrace>, i: int, x: ColumnTrace)
    requires
        0 <= i < s.len(),
    ensures
        s.update(i, x).map_values(|t: ColumnTrace| t@) == s.map_values(|t: ColumnTrace| t@).update(i, x@),
{
    assert(s.update(i, x).map_values(|t: ColumnTrace| t@) =~= s.map_values(|t: ColumnTrace| t@).update(i, x@));
}

/// Replacing element `i` of a sequence of columns commutes with taking views.
pub proof fn lemma_columns_view_update(s: Seq<TraceColumn>, i: int, x: TraceColumn)
    requires
        0 <= i < s.len(),
    ensures
        s.update(i, x).map_values(|c: TraceColumn| c@) == s.map_values(|c: TraceColumn| c@).update(i, x@),
{
    assert(s.update(i, x).map_values(|c: TraceColumn| c@) =~= s.map_values(|c: TraceColumn| c@).update(i, x@));
}

} // verus!
