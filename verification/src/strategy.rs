//! The candidates random search draws mutations from, and the verified
//! constructors that turn random draws into mutations.
use vstd::prelude::*;

use crate::config::{col_allowed, kind_allowed, target_allowed, ScribbleConfig};
use crate::apply::applicable;
use crate::mutation::{kind_of, target_of, Mutation, MutationKind};
use crate::target::Target;
use crate::trace::{bounded, trace_bounded, trace_has_cell, trace_at, valid_target, width_mask, ColumnTrace, ColumnType, ColumnView, Witness, WitnessView};

verus! {

/// The shape of one trace random search may tamper with: its height (the
/// height of its first column) and its column types.
#[derive(Clone, Debug)]
pub struct TraceShape {
    pub target: Target,
    pub num_rows: usize,
    pub col_types: Vec<ColumnType>,
}

/// Mathematical view of a trace shape.
#[verifier::ext_equal]
pub struct ShapeView {
    pub target: Target,
    pub num_rows: nat,
    pub col_types: Seq<ColumnType>,
}

impl View for TraceShape {
    type V = ShapeView;

    open spec fn view(&self) -> ShapeView {
        ShapeView { target: self.target, num_rows: self.num_rows as nat, col_types: self.col_types@ }
    }
}

/// The shape of trace `t` of `w`.
pub open spec fn shape_of(w: WitnessView, t: Target) -> ShapeView {
    let tr = trace_at(w, t);
    ShapeView {
        target: t,
        num_rows: tr.columns[0].cells.len(),
        col_types: tr.columns.map_values(|c: ColumnView| c.col_type),
    }
}

/// Trace `t` of `w` is one random search may tamper with.
pub open spec fn shape_wanted(w: WitnessView, cfg: crate::config::ConfigView, t: Target) -> bool {
    target_allowed(cfg, t) && trace_at(w, t).columns.len() > 0
}

/// The wanted shapes among the first `n` chiplet traces, in order.
pub open spec fn chiplet_shapes(w: WitnessView, cfg: crate::config::ConfigView, n: nat) -> Seq<ShapeView>
    decreases n,
{
    if n == 0 {
        Seq::empty()
    } else {
        let t = Target::Chiplet((n - 1) as usize);
        chiplet_shapes(w, cfg, (n - 1) as nat) + if shape_wanted(w, cfg, t) {
            seq![shape_of(w, t)]
        } else {
            Seq::empty()
        }
    }
}

/// The wanted shapes of `w`: the main trace first, then the chiplet traces
/// in order, leaving out traces the configuration excludes and traces with
/// no columns.
pub open spec fn shapes_spec(w: WitnessView, cfg: crate::config::ConfigView) -> Seq<ShapeView> {
    (if shape_wanted(w, cfg, Target::Main) {
        seq![shape_of(w, Target::Main)]
    } else {
        Seq::empty()
    }) + chiplet_shapes(w, cfg, w.chiplet_traces.len())
}

/// Appends the shape of `trace`, unless it has no columns.
fn push_shape(out: &mut Vec<TraceShape>, target: Target, trace: &ColumnTrace)
    ensures
        trace@.columns.len() == 0 ==> final(out)@ == old(out)@,
        trace@.columns.len() > 0 ==> final(out)@.map_values(|s: TraceShape| s@) == old(out)@.map_values(|s: TraceShape| s@).push(
            ShapeView {
                target,
                num_rows: trace@.columns[0].cells.len(),
                col_types: trace@.columns.map_values(|c: ColumnView| c.col_type),
            },
        ),
{
    if trace.columns.len() == 0 {
        return;
    }
    let num_rows = trace.columns[0].cells.len();
    let mut col_types: Vec<ColumnType> = Vec::new();
    for c in 0..trace.columns.len()
        invariant
            col_types@ == trace@.columns.map_values(|c: ColumnView| c.col_type).take(c as int),
    {
        col_types.push(trace.columns[c].col_type);
        assert(col_types@ =~= trace@.columns.map_values(|c: ColumnView| c.col_type).take(c as int + 1));
    }
    assert(col_types@ =~= trace@.columns.map_values(|c: ColumnView| c.col_type));
    let ghost before = out@;
    out.push(TraceShape { target, num_rows, col_types });
    assert(out@.map_values(|s: TraceShape| s@) =~= before.map_values(|s: TraceShape| s@).push(
        ShapeView {
            target,
            num_rows: trace@.columns[0].cells.len(),
            col_types: trace@.columns.map_values(|c: ColumnView| c.col_type),
        },
    ));
}

/// The shapes of the traces of `witness` that random search may tamper
/// with: main first, then chiplets in order, skipping traces `config`
/// excludes and traces with no columns.
pub fn snapshot(witness: &Witness, config: &ScribbleConfig) -> (shapes: Vec<TraceShape>)
    ensures
        shapes@.map_values(|s: TraceShape| s@) == shapes_spec(witness@, config@),
{
    let mut out: Vec<TraceShape> = Vec::new();
    if config.is_target_allowed(Target::Main) {
        push_shape(&mut out, Target::Main, &witness.trace);
    }
    let ghost head = out@.map_values(|s: TraceShape| s@);
    assert(head =~= if shape_wanted(witness@, config@, Target::Main) {
        seq![shape_of(witness@, Target::Main)]
    } else {
        Seq::empty()
    });
    for i in 0..witness.chiplet_traces.len()
        invariant
            out@.map_values(|s: TraceShape| s@) == head + chiplet_shapes(witness@, config@, i as nat),
    {
        let target = Target::Chiplet(i);
        let ghost before = out@.map_values(|s: TraceShape| s@);
        if config.is_target_allowed(target) {
            push_shape(&mut out, target, &witness.chiplet_traces[i]);
        }
        assert(out@.map_values(|s: TraceShape| s@) =~= head + chiplet_shapes(witness@, config@, (i + 1) as nat));
    }
    out
}

/// A cell-level candidate: one column of one trace, and the rows a
/// mutation may pick in it.
#[derive(Clone, Debug)]
pub struct Cell {
    pub target: Target,
    pub col: usize,
    pub col_type: ColumnType,
    pub allowed_rows: Vec<usize>,
}

/// Mathematical view of a cell-level candidate.
#[verifier::ext_equal]
pub struct CellView {
    pub target: Target,
    pub col: usize,
    pub col_type: ColumnType,
    pub allowed_rows: Seq<usize>,
}

impl View for Cell {
    type V = CellView;

    open spec fn view(&self) -> CellView {
        CellView {
            target: self.target,
            col: self.col,
            col_type: self.col_type,
            allowed_rows: self.allowed_rows@,
        }
    }
}

/// The rows random search may pick in a trace of `n` rows: all of them.
pub open spec fn all_rows(n: nat) -> Seq<usize> {
    Seq::new(n, |r: int| r as usize)
}

/// The rows `0..n`.
fn row_range(n: usize) -> (rows: Vec<usize>)
    ensures
        rows@ == all_rows(n as nat),
{
    let mut rows: Vec<usize> = Vec::new();
    for r in 0..n
        invariant
            rows@ == all_rows(r as nat),
    {
        rows.push(r);
        assert(rows@ =~= all_rows(r as nat + 1));
    }
    rows
}

/// Mutations of kind `kind` may target a column of type `t`: `FlipSelector`
/// only `Bit` columns, every other kind any column.
pub open spec fn compatible(kind: MutationKind, t: ColumnType) -> bool {
    match kind {
        MutationKind::FlipSelector => t == ColumnType::Bit,
        _ => true,
    }
}

/// Whether mutations of kind `kind` may target a column of type `t`.
pub fn kind_compatible(kind: MutationKind, t: ColumnType) -> (res: bool)
    ensures
        res == compatible(kind, t),
{
    match kind {
        MutationKind::FlipSelector => matches!(t, ColumnType::Bit),
        _ => true,
    }
}

/// The candidates of kind `kind` among the first `k` columns of `s`.
pub open spec fn shape_cells(
    kind: MutationKind,
    s: ShapeView,
    cfg: crate::config::ConfigView,
    k: nat,
) -> Seq<CellView>
    decreases k,
{
    if k == 0 {
        Seq::empty()
    } else {
        let c = (k - 1) as int;
        shape_cells(kind, s, cfg, (k - 1) as nat) + if col_allowed(cfg, c) && compatible(kind, s.col_types[c]) {
            seq![CellView { target: s.target, col: c as usize, col_type: s.col_types[c], allowed_rows: all_rows(s.num_rows) }]
        } else {
            Seq::empty()
        }
    }
}

/// The candidates of kind `kind` in `shapes`: for each shape with rows, its
/// allowed columns of a compatible type, in order.
pub open spec fn cells_spec(kind: MutationKind, shapes: Seq<ShapeView>, cfg: crate::config::ConfigView) -> Seq<CellView>
    decreases shapes.len(),
{
    if shapes.len() == 0 {
        Seq::empty()
    } else {
        let s = shapes.last();
        cells_spec(kind, shapes.drop_last(), cfg) + if s.num_rows == 0 {
            Seq::empty()
        } else {
            shape_cells(kind, s, cfg, s.col_types.len())
        }
    }
}

/// The cell-level candidates of kind `kind` in `shapes`.
pub fn cells_for(kind: MutationKind, shapes: &Vec<TraceShape>, config: &ScribbleConfig) -> (cells: Vec<Cell>)
    ensures
        cells@.map_values(|c: Cell| c@) == cells_spec(kind, shapes@.map_values(|s: TraceShape| s@), config@),
{
    let ghost sv = shapes@.map_values(|s: TraceShape| s@);
    let mut out: Vec<Cell> = Vec::new();
    for i in 0..shapes.len()
        invariant
            sv == shapes@.map_values(|s: TraceShape| s@),
            out@.map_values(|c: Cell| c@) == cells_spec(kind, sv.take(i as int), config@),
    {
        let shape = &shapes[i];
        assert(sv.take(i as int + 1).drop_last() =~= sv.take(i as int));
        let ghost prefix = cells_spec(kind, sv.take(i as int), config@);
        if shape.num_rows > 0 {
            let allowed_rows = row_range(shape.num_rows);
            let n = shape.col_types.len();
            for col in 0..n
                invariant
                    sv == shapes@.map_values(|s: TraceShape| s@),
                    i < shapes.len(),
                    *shape == shapes@[i as int],
                    n == shape.col_types@.len(),
                    allowed_rows@ == all_rows(shape.num_rows as nat),
                    prefix == cells_spec(kind, sv.take(i as int), config@),
                    out@.map_values(|c: Cell| c@) == prefix + shape_cells(kind, shape@, config@, col as nat),
            {
                let t = shape.col_types[col];
                let ghost before = out@.map_values(|c: Cell| c@);
                assert(shape@.col_types[col as int] == t);
                if config.is_col_allowed(col) && kind_compatible(kind, t) {
                    out.push(Cell { target: shape.target, col, col_type: t, allowed_rows: allowed_rows.clone() });
                    proof {
                        let cell = out@[out@.len() - 1];
                        assert(cell.allowed_rows@ =~= allowed_rows@);
                        let cv = CellView { target: shape@.target, col: col, col_type: shape@.col_types[col as int], allowed_rows: all_rows(shape@.num_rows) };
                        assert(cell@ =~= cv);
                        assert(out@.map_values(|c: Cell| c@) =~= before.push(cv));
                        assert(shape_cells(kind, shape@, config@, col as nat + 1) == shape_cells(kind, shape@, config@, col as nat) + seq![cv]);
                    }
                } else {
                    assert(shape_cells(kind, shape@, config@, col as nat + 1) =~= shape_cells(kind, shape@, config@, col as nat));
                }
                assert(out@.map_values(|c: Cell| c@) =~= prefix + shape_cells(kind, shape@, config@, col as nat + 1));
            }
        }
        assert(sv.take(i as int + 1).last() == shape@);
        assert(out@.map_values(|c: Cell| c@) =~= cells_spec(kind, sv.take(i as int + 1), config@));
    }
    assert(sv.take(shapes.len() as int) =~= sv);
    out
}

/// A segment candidate: the columns and rows of one trace that a
/// `RowSegmentZero` may pick from.
#[derive(Clone, Debug)]
pub struct Segment {
    pub target: Target,
    pub allowed_cols: Vec<usize>,
    pub allowed_rows: Vec<usize>,
}

/// Mathematical view of a segment candidate.
#[verifier::ext_equal]
pub struct SegmentView {
    pub target: Target,
    pub allowed_cols: Seq<usize>,
    pub allowed_rows: Seq<usize>,
}

impl View for Segment {
    type V = SegmentView;

    open spec fn view(&self) -> SegmentView {
        SegmentView { target: self.target, allowed_cols: self.allowed_cols@, allowed_rows: self.allowed_rows@ }
    }
}

/// The allowed columns among the first `k` columns, in order.
pub open spec fn allowed_cols_spec(cfg: crate::config::ConfigView, k: nat) -> Seq<usize>
    decreases k,
{
    if k == 0 {
        Seq::empty()
    } else {
        allowed_cols_spec(cfg, (k - 1) as nat) + if col_allowed(cfg, k - 1) {
            seq![(k - 1) as usize]
        } else {
            Seq::empty()
        }
    }
}

/// The segment candidates of `shapes`: one per shape with rows and allowed
/// columns, in order.
pub open spec fn segments_spec(shapes: Seq<ShapeView>, cfg: crate::config::ConfigView) -> Seq<SegmentView>
    decreases shapes.len(),
{
    if shapes.len() == 0 {
        Seq::empty()
    } else {
        let s = shapes.last();
        let cols = allowed_cols_spec(cfg, s.col_types.len());
        segments_spec(shapes.drop_last(), cfg) + if cols.len() == 0 || s.num_rows == 0 {
            Seq::empty()
        } else {
            seq![SegmentView { target: s.target, allowed_cols: cols, allowed_rows: all_rows(s.num_rows) }]
        }
    }
}

/// The segment candidates of `shapes`.
pub fn segments_for(shapes: &Vec<TraceShape>, config: &ScribbleConfig) -> (segments: Vec<Segment>)
    ensures
        segments@.map_values(|s: Segment| s@) == segments_spec(shapes@.map_values(|s: TraceShape| s@), config@),
{
    let ghost sv = shapes@.map_values(|s: TraceShape| s@);
    let mut out: Vec<Segment> = Vec::new();
    for i in 0..shapes.len()
        invariant
            sv == shapes@.map_values(|s: TraceShape| s@),
            out@.map_values(|s: Segment| s@) == segments_spec(sv.take(i as int), config@),
    {
        let shape = &shapes[i];
        assert(sv.take(i as int + 1).drop_last() =~= sv.take(i as int));
        assert(sv.take(i as int + 1).last() == shape@);
        let mut allowed_cols: Vec<usize> = Vec::new();
        for c in 0..shape.col_types.len()
            invariant
                allowed_cols@ == allowed_cols_spec(config@, c as nat),
        {
            if config.is_col_allowed(c) {
                allowed_cols.push(c);
            }
            assert(allowed_cols@ =~= allowed_cols_spec(config@, c as nat + 1));
        }
        let allowed_rows = row_range(shape.num_rows);
        let ghost before = out@.map_values(|s: Segment| s@);
        if allowed_cols.len() != 0 && allowed_rows.len() != 0 {
            out.push(Segment { target: shape.target, allowed_cols, allowed_rows });
        }
        assert(out@.map_values(|s: Segment| s@) =~= segments_spec(sv.take(i as int + 1), config@));
    }
    assert(sv.take(shapes.len() as int) =~= sv);
    out
}

/// A row candidate: a trace and the rows a `SwapRows` or `DuplicateRow`
/// may pick in it.
#[derive(Clone, Debug)]
pub struct RowTarget {
    pub target: Target,
    pub rows: Vec<usize>,
}

/// Mathematical view of a row candidate.
#[verifier::ext_equal]
pub struct RowTargetView {
    pub target: Target,
    pub rows: Seq<usize>,
}

impl View for RowTarget {
    type V = RowTargetView;

    open spec fn view(&self) -> RowTargetView {
        RowTargetView { target: self.target, rows: self.rows@ }
    }
}

/// The row candidates of `shapes`: one per shape with at least two rows.
pub open spec fn row_targets_spec(shapes: Seq<ShapeView>) -> Seq<RowTargetView>
    decreases shapes.len(),
{
    if shapes.len() == 0 {
        Seq::empty()
    } else {
        let s = shapes.last();
        row_targets_spec(shapes.drop_last()) + if s.num_rows >= 2 {
            seq![RowTargetView { target: s.target, rows: all_rows(s.num_rows) }]
        } else {
            Seq::empty()
        }
    }
}

/// The row candidates of `shapes`.
pub fn row_targets(shapes: &Vec<TraceShape>) -> (targets: Vec<RowTarget>)
    ensures
        targets@.map_values(|t: RowTarget| t@) == row_targets_spec(shapes@.map_values(|s: TraceShape| s@)),
{
    let ghost sv = shapes@.map_values(|s: TraceShape| s@);
    let mut out: Vec<RowTarget> = Vec::new();
    for i in 0..shapes.len()
        invariant
            sv == shapes@.map_values(|s: TraceShape| s@),
            out@.map_values(|t: RowTarget| t@) == row_targets_spec(sv.take(i as int)),
    {
        let shape = &shapes[i];
        assert(sv.take(i as int + 1).drop_last() =~= sv.take(i as int));
        assert(sv.take(i as int + 1).last() == shape@);
        let rows = row_range(shape.num_rows);
        if rows.len() >= 2 {
            out.push(RowTarget { target: shape.target, rows });
        }
        assert(out@.map_values(|t: RowTarget| t@) =~= row_targets_spec(sv.take(i as int + 1)));
    }
    assert(sv.take(shapes.len() as int) =~= sv);
    out
}

/// Everything random search may draw from, by kind. A kind that the
/// configuration leaves out has no candidates.
pub struct MutationPlan {
    pub bit_flip: Vec<Cell>,
    pub out_of_bounds: Vec<Cell>,
    pub flip_selector: Vec<Cell>,
    pub column_uniform_write: Vec<Cell>,
    pub monotonic_replace: Vec<Cell>,
    pub row_segment_zero: Vec<Segment>,
    pub swap_rows: Vec<RowTarget>,
    pub duplicate_row: Vec<RowTarget>,
}

/// The views of a sequence of cell candidates.
pub open spec fn cell_views(cells: Seq<Cell>) -> Seq<CellView> {
    cells.map_values(|c: Cell| c@)
}

/// The cell candidates of kind `kind` that `cfg` lets random search draw from.
pub open spec fn planned_cells(w: WitnessView, cfg: crate::config::ConfigView, kind: MutationKind) -> Seq<CellView> {
    if kind_allowed(cfg, kind) {
        cells_spec(kind, shapes_spec(w, cfg), cfg)
    } else {
        Seq::empty()
    }
}

/// The row candidates for kind `kind` that `cfg` lets random search draw from.
pub open spec fn planned_rows(w: WitnessView, cfg: crate::config::ConfigView, kind: MutationKind) -> Seq<RowTargetView> {
    if kind_allowed(cfg, kind) {
        row_targets_spec(shapes_spec(w, cfg))
    } else {
        Seq::empty()
    }
}

/// The segment candidates that `cfg` lets random search draw a
/// `RowSegmentZero` from.
pub open spec fn planned_segments(w: WitnessView, cfg: crate::config::ConfigView) -> Seq<SegmentView> {
    if kind_allowed(cfg, MutationKind::RowSegmentZero) {
        segments_spec(shapes_spec(w, cfg), cfg)
    } else {
        Seq::empty()
    }
}

/// Cell candidates of kind `kind`, or none when `config` leaves the kind out.
fn planned_cells_for(kind: MutationKind, shapes: &Vec<TraceShape>, config: &ScribbleConfig) -> (cells: Vec<Cell>)
    ensures
        cell_views(cells@) == if kind_allowed(config@, kind) {
            cells_spec(kind, shapes@.map_values(|s: TraceShape| s@), config@)
        } else {
            Seq::empty()
        },
{
    if config.is_kind_allowed(kind) {
        cells_for(kind, shapes, config)
    } else {
        let cells: Vec<Cell> = Vec::new();
        assert(cell_views(cells@) =~= Seq::empty());
        cells
    }
}

/// The candidates random search draws mutations of each kind from, for
/// `witness` under `config`: for each kind `config` allows, the wanted
/// traces (see `snapshot`), their allowed columns of a compatible type
/// (cell kinds), their allowed columns and rows (`RowSegmentZero`), or their
/// rows when a trace has at least two (`SwapRows`, `DuplicateRow`).
pub fn mutation_plan(witness: &Witness, config: &ScribbleConfig) -> (plan: MutationPlan)
    ensures
        cell_views(plan.bit_flip@) == planned_cells(witness@, config@, MutationKind::BitFlip),
        cell_views(plan.out_of_bounds@) == planned_cells(witness@, config@, MutationKind::OutOfBounds),
        cell_views(plan.flip_selector@) == planned_cells(witness@, config@, MutationKind::FlipSelector),
        cell_views(plan.column_uniform_write@) == planned_cells(witness@, config@, MutationKind::ColumnUniformWrite),
        cell_views(plan.monotonic_replace@) == planned_cells(witness@, config@, MutationKind::MonotonicReplace),
        plan.row_segment_zero@.map_values(|s: Segment| s@) == planned_segments(witness@, config@),
        plan.swap_rows@.map_values(|t: RowTarget| t@) == planned_rows(witness@, config@, MutationKind::SwapRows),
        plan.duplicate_row@.map_values(|t: RowTarget| t@) == planned_rows(witness@, config@, MutationKind::DuplicateRow),
{
    let shapes = snapshot(witness, config);
    let bit_flip = planned_cells_for(MutationKind::BitFlip, &shapes, config);
    let out_of_bounds = planned_cells_for(MutationKind::OutOfBounds, &shapes, config);
    let flip_selector = planned_cells_for(MutationKind::FlipSelector, &shapes, config);
    let column_uniform_write = planned_cells_for(MutationKind::ColumnUniformWrite, &shapes, config);
    let monotonic_replace = planned_cells_for(MutationKind::MonotonicReplace, &shapes, config);
    let row_segment_zero = if config.is_kind_allowed(MutationKind::RowSegmentZero) {
        segments_for(&shapes, config)
    } else {
        let v: Vec<Segment> = Vec::new();
        assert(v@.map_values(|s: Segment| s@) =~= Seq::empty());
        v
    };
    let swap_rows = if config.is_kind_allowed(MutationKind::SwapRows) {
        row_targets(&shapes)
    } else {
        let v: Vec<RowTarget> = Vec::new();
        assert(v@.map_values(|t: RowTarget| t@) =~= Seq::empty());
        v
    };
    let duplicate_row = if config.is_kind_allowed(MutationKind::DuplicateRow) {
        row_targets(&shapes)
    } else {
        let v: Vec<RowTarget> = Vec::new();
        assert(v@.map_values(|t: RowTarget| t@) =~= Seq::empty());
        v
    };
    MutationPlan {
        bit_flip,
        out_of_bounds,
        flip_selector,
        column_uniform_write,
        monotonic_replace,
        row_segment_zero,
        swap_rows,
        duplicate_row,
    }
}

impl MutationPlan {
    /// Whether random search has nothing at all to draw from.
    pub fn is_empty(&self) -> (res: bool)
        ensures
            res == (self.bit_flip.len() == 0 && self.out_of_bounds.len() == 0 && self.flip_selector.len() == 0
                && self.column_uniform_write.len() == 0 && self.monotonic_replace.len() == 0
                && self.row_segment_zero.len() == 0 && self.swap_rows.len() == 0
                && self.duplicate_row.len() == 0),
    {
        self.bit_flip.len() == 0 && self.out_of_bounds.len() == 0 && self.flip_selector.len() == 0
            && self.column_uniform_write.len() == 0 && self.monotonic_replace.len() == 0
            && self.row_segment_zero.len() == 0 && self.swap_rows.len() == 0
            && self.duplicate_row.len() == 0
    }
}

/// The cell-level mutation of kind `kind` drawn from candidate `c`, row
/// index `row_idx` and the random values `a` and `b` (the mask, the value,
/// or the base and step, as the kind needs).
pub open spec fn cell_mutation(kind: MutationKind, c: CellView, row_idx: int, a: u128, b: u128) -> Mutation {
    let row = c.allowed_rows[row_idx];
    match kind {
        MutationKind::BitFlip => Mutation::BitFlip { target: c.target, col: c.col, row, mask: a },
        MutationKind::OutOfBounds => Mutation::OutOfBounds { target: c.target, col: c.col, row, value: a },
        MutationKind::FlipSelector => Mutation::FlipSelector { target: c.target, col: c.col, row },
        MutationKind::ColumnUniformWrite => Mutation::ColumnUniformWrite { target: c.target, col: c.col, value: a },
        MutationKind::MonotonicReplace => Mutation::MonotonicReplace { target: c.target, col: c.col, base: a, step: b },
        _ => arbitrary(),
    }
}

/// The `BitFlip` drawn from `cell`: row `allowed_rows[row_idx]`, mask
/// `mask`, a nonzero value within the column's width.
pub fn bitflip_from(cell: &Cell, row_idx: usize, mask: u128) -> (m: Mutation)
    requires
        row_idx < cell.allowed_rows.len(),
        1 <= mask <= width_mask(cell.col_type),
    ensures
        m == cell_mutation(MutationKind::BitFlip, cell@, row_idx as int, mask, 0),
{
    Mutation::BitFlip { target: cell.target, col: cell.col, row: cell.allowed_rows[row_idx], mask }
}

/// The `OutOfBounds` drawn from `cell`: row `allowed_rows[row_idx]`, value `value`.
pub fn out_of_bounds_from(cell: &Cell, row_idx: usize, value: u128) -> (m: Mutation)
    requires
        row_idx < cell.allowed_rows.len(),
    ensures
        m == cell_mutation(MutationKind::OutOfBounds, cell@, row_idx as int, value, 0),
{
    Mutation::OutOfBounds { target: cell.target, col: cell.col, row: cell.allowed_rows[row_idx], value }
}

/// The `FlipSelector` drawn from `cell`: row `allowed_rows[row_idx]`.
pub fn flip_selector_from(cell: &Cell, row_idx: usize) -> (m: Mutation)
    requires
        row_idx < cell.allowed_rows.len(),
    ensures
        m == cell_mutation(MutationKind::FlipSelector, cell@, row_idx as int, 0, 0),
{
    Mutation::FlipSelector { target: cell.target, col: cell.col, row: cell.allowed_rows[row_idx] }
}

/// The `ColumnUniformWrite` drawn from `cell` with value `value`, within
/// the column's width.
pub fn column_uniform_write_from(cell: &Cell, value: u128) -> (m: Mutation)
    requires
        value <= width_mask(cell.col_type),
    ensures
        m == (Mutation::ColumnUniformWrite { target: cell.target, col: cell.col, value }),
        m == cell_mutation(MutationKind::ColumnUniformWrite, cell@, 0, value, 0),
{
    Mutation::ColumnUniformWrite { target: cell.target, col: cell.col, value }
}

/// The `MonotonicReplace` drawn from `cell` with base `base` and step
/// `step`, both within the column's width.
pub fn monotonic_replace_from(cell: &Cell, base: u128, step: u128) -> (m: Mutation)
    requires
        base <= width_mask(cell.col_type),
        step <= width_mask(cell.col_type),
    ensures
        m == (Mutation::MonotonicReplace { target: cell.target, col: cell.col, base, step }),
        m == cell_mutation(MutationKind::MonotonicReplace, cell@, 0, base, step),
{
    Mutation::MonotonicReplace { target: cell.target, col: cell.col, base, step }
}

/// The `SwapRows` drawn from `rows` with row indices `ia` and `ib`; none
/// when the two indices coincide.
pub fn swap_rows_from(rows: &RowTarget, ia: usize, ib: usize) -> (m: Option<Mutation>)
    requires
        ia < rows.rows.len(),
        ib < rows.rows.len(),
    ensures
        ia == ib ==> m is None,
        ia != ib ==> m == Some(Mutation::SwapRows { target: rows.target, row_a: rows.rows@[ia as int], row_b: rows.rows@[ib as int] }),
{
    if ia == ib {
        None
    } else {
        Some(Mutation::SwapRows { target: rows.target, row_a: rows.rows[ia], row_b: rows.rows[ib] })
    }
}

/// The `DuplicateRow` drawn from `rows` with row indices `is` and `id`;
/// none when the two indices coincide.
pub fn duplicate_row_from(rows: &RowTarget, is: usize, id: usize) -> (m: Option<Mutation>)
    requires
        is < rows.rows.len(),
        id < rows.rows.len(),
    ensures
        is == id ==> m is None,
        is != id ==> m == Some(Mutation::DuplicateRow { target: rows.target, src_row: rows.rows@[is as int], dst_row: rows.rows@[id as int] }),
{
    if is == id {
        None
    } else {
        Some(Mutation::DuplicateRow { target: rows.target, src_row: rows.rows[is], dst_row: rows.rows[id] })
    }
}

/// How many rows and how many columns a `RowSegmentZero` picks at most
/// from a segment with `n` of them: `n`, but no more than eight.
pub fn segment_pick_bound(n: usize) -> (k: usize)
    ensures
        k == pick_bound(n as int),
{
    if n < 8 {
        n
    } else {
        8
    }
}

/// `s` is strictly increasing.
pub open spec fn strictly_increasing(s: Seq<usize>) -> bool {
    forall|i: int, j: int| 0 <= i < j < s.len() ==> s[i] < s[j]
}

/// The values of `v` at the indices `idx`.
pub open spec fn picked(v: Seq<usize>, idx: Seq<usize>) -> Seq<usize> {
    idx.map_values(|i: usize| v[i as int])
}

/// The values of `v`, sorted, each once.
fn sorted_unique(v: &Vec<usize>) -> (out: Vec<usize>)
    ensures
        strictly_increasing(out@),
        forall|x: usize| out@.contains(x) <==> v@.contains(x),
        out@.len() <= v@.len(),
        v@.len() > 0 ==> out@.len() > 0,
{
    let mut out: Vec<usize> = Vec::new();
    for i in 0..v.len()
        invariant
            strictly_increasing(out@),
            out@.len() <= i,
            forall|x: usize| out@.contains(x) <==> v@.take(i as int).contains(x),
    {
        let x = v[i];
        let mut p: usize = 0;
        while p < out.len() && out[p] < x
            invariant
                p <= out.len(),
                forall|k: int| 0 <= k < p ==> out@[k] < x,
            decreases out.len() - p,
        {
            p = p + 1;
        }
        let ghost before = out@;
        proof {
            assert forall|y: usize| v@.take(i as int + 1).contains(y) <==> (v@.take(i as int).contains(y) || y == x) by {
                if v@.take(i as int + 1).contains(y) {
                    let k = choose|k: int| 0 <= k < i + 1 && #[trigger] v@.take(i as int + 1)[k] == y;
                    if k < i {
                        assert(v@.take(i as int)[k] == y);
                    }
                }
                if v@.take(i as int).contains(y) {
                    let k = choose|k: int| 0 <= k < i && #[trigger] v@.take(i as int)[k] == y;
                    assert(v@.take(i as int + 1)[k] == y);
                }
                if y == x {
                    assert(v@.take(i as int + 1)[i as int] == y);
                }
            }
        }
        if p < out.len() && out[p] == x {
            assert(out@.contains(x));
            assert forall|y: usize| out@.contains(y) <==> (before.contains(y) || y == x) by {}
        } else {
            out.insert(p, x);
            proof {
                assert forall|a: int, b: int| 0 <= a < b < out@.len() implies out@[a] < out@[b] by {
                    if b < p as int {
                    } else if b == p as int {
                    } else if a < p as int {
                        assert(out@[b] == before[b - 1]);
                        assert(before[p as int] >= x);
                        if b - 1 > p as int {
                            assert(before[p as int] < before[b - 1]);
                        }
                    } else if a == p as int {
                        assert(out@[b] == before[b - 1]);
                        assert(before[p as int] >= x);
                        if b - 1 > p as int {
                            assert(before[p as int] < before[b - 1]);
                        }
                    } else {
                        assert(out@[a] == before[a - 1]);
                        assert(out@[b] == before[b - 1]);
                    }
                }
                assert forall|y: usize| out@.contains(y) <==> (before.contains(y) || y == x) by {
                    if out@.contains(y) {
                        let k = choose|k: int| 0 <= k < out@.len() && #[trigger] out@[k] == y;
                        if k < p {
                            assert(before[k] == y);
                        } else if k > p {
                            assert(before[k - 1] == y);
                        }
                    }
                    if before.contains(y) {
                        let k = choose|k: int| 0 <= k < before.len() && #[trigger] before[k] == y;
                        if k < p {
                            assert(out@[k] == y);
                        } else {
                            assert(out@[k + 1] == y);
                        }
                    }
                    if y == x {
                        assert(out@[p as int] == y);
                    }
                }
            }
        }
        assert forall|y: usize| out@.contains(y) <==> v@.take(i as int + 1).contains(y) by {
            assert(out@.contains(y) <==> (before.contains(y) || y == x));
            assert(before.contains(y) <==> v@.take(i as int).contains(y));
            assert(v@.take(i as int + 1).contains(y) <==> (v@.take(i as int).contains(y) || y == x));
        }
    }
    assert(v@.take(v.len() as int) =~= v@);
    if v.len() > 0 {
        assert(v@.contains(v@[0]));
        assert(out@.contains(v@[0]));
    }
    out
}

/// The values of `values` at the indices `idx`.
fn pick(values: &Vec<usize>, idx: &Vec<usize>) -> (out: Vec<usize>)
    requires
        forall|k: int| 0 <= k < idx.len() ==> #[trigger] idx@[k] < values.len(),
    ensures
        out@ == picked(values@, idx@),
{
    let mut out: Vec<usize> = Vec::new();
    for k in 0..idx.len()
        invariant
            forall|j: int| 0 <= j < idx.len() ==> #[trigger] idx@[j] < values.len(),
            out@ == picked(values@, idx@.take(k as int)),
    {
        out.push(values[idx[k]]);
        assert(out@ =~= picked(values@, idx@.take(k as int + 1)));
    }
    assert(idx@.take(idx.len() as int) =~= idx@);
    out
}

/// How many picks of a segment with `n` rows (or columns) a
/// `RowSegmentZero` draws at most: `n`, but no more than eight.
pub open spec fn pick_bound(n: int) -> int {
    if n < 8 {
        n
    } else {
        8
    }
}

/// The `RowSegmentZero` drawn from `seg` with row indices `row_idx` and
/// column indices `col_idx` (at least one of each, and at most
/// `segment_pick_bound` of the segment's rows, columns): the picked rows
/// and columns, each sorted and without repeats.
pub fn row_segment_zero_from(seg: &Segment, row_idx: &Vec<usize>, col_idx: &Vec<usize>) -> (m: Mutation)
    requires
        1 <= row_idx.len() <= pick_bound(seg.allowed_rows.len() as int),
        1 <= col_idx.len() <= pick_bound(seg.allowed_cols.len() as int),
        forall|k: int| 0 <= k < row_idx.len() ==> #[trigger] row_idx@[k] < seg.allowed_rows.len(),
        forall|k: int| 0 <= k < col_idx.len() ==> #[trigger] col_idx@[k] < seg.allowed_cols.len(),
    ensures
        m matches Mutation::RowSegmentZero { target, rows, cols } && target == seg.target
            && strictly_increasing(rows@) && strictly_increasing(cols@)
            && (forall|x: usize| rows@.contains(x) <==> picked(seg.allowed_rows@, row_idx@).contains(x))
            && (forall|x: usize| cols@.contains(x) <==> picked(seg.allowed_cols@, col_idx@).contains(x))
            && 1 <= rows@.len() <= row_idx@.len() && 1 <= cols@.len() <= col_idx@.len(),
{
    let rows = pick(&seg.allowed_rows, row_idx);
    let cols = pick(&seg.allowed_cols, col_idx);
    Mutation::RowSegmentZero { target: seg.target, rows: sorted_unique(&rows), cols: sorted_unique(&cols) }
}

/// Every column of every trace of `w` is as high as its first column.
pub open spec fn rectangular(w: WitnessView) -> bool {
    forall|t: Target, c: int|
        valid_target(w, t) && 0 <= c < trace_at(w, t).columns.len() ==> #[trigger] trace_at(w, t).columns[c].cells.len()
            == trace_at(w, t).columns[0].cells.len()
}

/// `s` is the shape of a trace of `w` that random search may tamper with.
pub open spec fn shape_fits(w: WitnessView, cfg: crate::config::ConfigView, s: ShapeView) -> bool {
    valid_target(w, s.target) && shape_wanted(w, cfg, s.target) && s == shape_of(w, s.target)
}

/// `c` is a candidate of kind `kind` of `w` under `cfg`: an existing column
/// of an allowed trace, allowed and of a type compatible with the kind,
/// with all the rows of the trace (and there are some).
pub open spec fn cell_fits(w: WitnessView, cfg: crate::config::ConfigView, kind: MutationKind, c: CellView) -> bool {
    let tr = trace_at(w, c.target);
    &&& valid_target(w, c.target)
    &&& target_allowed(cfg, c.target)
    &&& c.col < tr.columns.len()
    &&& col_allowed(cfg, c.col as int)
    &&& c.col_type == tr.columns[c.col as int].col_type
    &&& compatible(kind, c.col_type)
    &&& tr.columns[0].cells.len() > 0
    &&& c.allowed_rows == all_rows(tr.columns[0].cells.len())
}

/// `rt` is a row candidate of `w` under `cfg`: an allowed trace with
/// columns and at least two rows, with all its rows.
pub open spec fn row_target_fits(w: WitnessView, cfg: crate::config::ConfigView, rt: RowTargetView) -> bool {
    let tr = trace_at(w, rt.target);
    &&& valid_target(w, rt.target)
    &&& target_allowed(cfg, rt.target)
    &&& tr.columns.len() > 0
    &&& tr.columns[0].cells.len() >= 2
    &&& rt.rows == all_rows(tr.columns[0].cells.len())
}

/// `sg` is a segment candidate of `w` under `cfg`: an allowed trace, some
/// of its existing allowed columns, and all its rows (some of each).
pub open spec fn segment_fits(w: WitnessView, cfg: crate::config::ConfigView, sg: SegmentView) -> bool {
    let tr = trace_at(w, sg.target);
    &&& valid_target(w, sg.target)
    &&& target_allowed(cfg, sg.target)
    &&& sg.allowed_cols.len() > 0
    &&& forall|k: int| 0 <= k < sg.allowed_cols.len() ==> #[trigger] sg.allowed_cols[k] < tr.columns.len() && col_allowed(cfg, sg.allowed_cols[k] as int)
    &&& tr.columns.len() > 0
    &&& tr.columns[0].cells.len() > 0
    &&& sg.allowed_rows == all_rows(tr.columns[0].cells.len())
}

proof fn lemma_chiplet_shapes_fit(w: WitnessView, cfg: crate::config::ConfigView, n: nat)
    requires
        bounded(w),
        n <= w.chiplet_traces.len(),
    ensures
        forall|j: int| 0 <= j < chiplet_shapes(w, cfg, n).len() ==> shape_fits(w, cfg, #[trigger] chiplet_shapes(w, cfg, n)[j]),
    decreases n,
{
    if n > 0 {
        lemma_chiplet_shapes_fit(w, cfg, (n - 1) as nat);
        let t = Target::Chiplet((n - 1) as usize);
        assert((n - 1) as usize as int == n - 1);
        let prev = chiplet_shapes(w, cfg, (n - 1) as nat);
        assert forall|j: int| 0 <= j < chiplet_shapes(w, cfg, n).len() implies shape_fits(w, cfg, #[trigger] chiplet_shapes(w, cfg, n)[j]) by {
            if j < prev.len() {
                assert(chiplet_shapes(w, cfg, n)[j] == prev[j]);
            }
        }
    }
}

/// Every shape `snapshot` returns is the shape of a trace random search
/// may tamper with.
pub proof fn lemma_shapes_fit(w: WitnessView, cfg: crate::config::ConfigView)
    requires
        bounded(w),
    ensures
        forall|j: int| 0 <= j < shapes_spec(w, cfg).len() ==> shape_fits(w, cfg, #[trigger] shapes_spec(w, cfg)[j]),
{
    lemma_chiplet_shapes_fit(w, cfg, w.chiplet_traces.len());
    let head = if shape_wanted(w, cfg, Target::Main) { seq![shape_of(w, Target::Main)] } else { Seq::<ShapeView>::empty() };
    let rest = chiplet_shapes(w, cfg, w.chiplet_traces.len());
    assert forall|j: int| 0 <= j < shapes_spec(w, cfg).len() implies shape_fits(w, cfg, #[trigger] shapes_spec(w, cfg)[j]) by {
        if j >= head.len() {
            assert(shapes_spec(w, cfg)[j] == rest[j - head.len()]);
        }
    }
}

proof fn lemma_shape_cells_fit(w: WitnessView, cfg: crate::config::ConfigView, kind: MutationKind, s: ShapeView, k: nat)
    requires
        bounded(w),
        shape_fits(w, cfg, s),
        s.num_rows > 0,
        k <= s.col_types.len(),
    ensures
        forall|i: int| 0 <= i < shape_cells(kind, s, cfg, k).len() ==> cell_fits(w, cfg, kind, #[trigger] shape_cells(kind, s, cfg, k)[i]),
    decreases k,
{
    if k > 0 {
        lemma_shape_cells_fit(w, cfg, kind, s, (k - 1) as nat);
        assert(trace_bounded(trace_at(w, s.target)));
        let prev = shape_cells(kind, s, cfg, (k - 1) as nat);
        assert(((k - 1) as usize) as int == k - 1);
        assert forall|i: int| 0 <= i < shape_cells(kind, s, cfg, k).len() implies cell_fits(w, cfg, kind, #[trigger] shape_cells(kind, s, cfg, k)[i]) by {
            if i < prev.len() {
                assert(shape_cells(kind, s, cfg, k)[i] == prev[i]);
            }
        }
    }
}

proof fn lemma_cells_spec_fit(w: WitnessView, cfg: crate::config::ConfigView, kind: MutationKind, shapes: Seq<ShapeView>)
    requires
        bounded(w),
        forall|j: int| 0 <= j < shapes.len() ==> shape_fits(w, cfg, #[trigger] shapes[j]),
    ensures
        forall|i: int| 0 <= i < cells_spec(kind, shapes, cfg).len() ==> cell_fits(w, cfg, kind, #[trigger] cells_spec(kind, shapes, cfg)[i]),
    decreases shapes.len(),
{
    if shapes.len() > 0 {
        let front = shapes.drop_last();
        assert forall|j: int| 0 <= j < front.len() implies shape_fits(w, cfg, #[trigger] front[j]) by {
            assert(front[j] == shapes[j]);
        }
        lemma_cells_spec_fit(w, cfg, kind, front);
        let s = shapes.last();
        assert(shape_fits(w, cfg, shapes[shapes.len() - 1]));
        let prev = cells_spec(kind, front, cfg);
        if s.num_rows > 0 {
            lemma_shape_cells_fit(w, cfg, kind, s, s.col_types.len());
        }
        assert forall|i: int| 0 <= i < cells_spec(kind, shapes, cfg).len() implies cell_fits(w, cfg, kind, #[trigger] cells_spec(kind, shapes, cfg)[i]) by {
            if i < prev.len() {
                assert(cells_spec(kind, shapes, cfg)[i] == prev[i]);
            } else {
                assert(cells_spec(kind, shapes, cfg)[i] == shape_cells(kind, s, cfg, s.col_types.len())[i - prev.len()]);
            }
        }
    }
}

/// Every cell candidate the plan holds for a kind fits: an existing,
/// allowed column of an allowed trace, of a type the kind accepts, with all
/// the rows of its trace; and the configuration allows the kind.
pub proof fn lemma_planned_cells_fit(w: WitnessView, cfg: crate::config::ConfigView, kind: MutationKind, i: int)
    requires
        bounded(w),
        0 <= i < planned_cells(w, cfg, kind).len(),
    ensures
        kind_allowed(cfg, kind),
        cell_fits(w, cfg, kind, planned_cells(w, cfg, kind)[i]),
{
    lemma_shapes_fit(w, cfg);
    lemma_cells_spec_fit(w, cfg, kind, shapes_spec(w, cfg));
}

proof fn lemma_row_targets_fit(w: WitnessView, cfg: crate::config::ConfigView, shapes: Seq<ShapeView>)
    requires
        forall|j: int| 0 <= j < shapes.len() ==> shape_fits(w, cfg, #[trigger] shapes[j]),
    ensures
        forall|i: int| 0 <= i < row_targets_spec(shapes).len() ==> row_target_fits(w, cfg, #[trigger] row_targets_spec(shapes)[i]),
    decreases shapes.len(),
{
    if shapes.len() > 0 {
        let front = shapes.drop_last();
        assert forall|j: int| 0 <= j < front.len() implies shape_fits(w, cfg, #[trigger] front[j]) by {
            assert(front[j] == shapes[j]);
        }
        lemma_row_targets_fit(w, cfg, front);
        assert(shape_fits(w, cfg, shapes[shapes.len() - 1]));
        let prev = row_targets_spec(front);
        assert forall|i: int| 0 <= i < row_targets_spec(shapes).len() implies row_target_fits(w, cfg, #[trigger] row_targets_spec(shapes)[i]) by {
            if i < prev.len() {
                assert(row_targets_spec(shapes)[i] == prev[i]);
            }
        }
    }
}

/// Every row candidate the plan holds for `SwapRows` or `DuplicateRow`
/// fits: an allowed trace with columns and at least two rows, with all its
/// rows; and the configuration allows the kind.
pub proof fn lemma_planned_rows_fit(w: WitnessView, cfg: crate::config::ConfigView, kind: MutationKind, i: int)
    requires
        bounded(w),
        0 <= i < planned_rows(w, cfg, kind).len(),
    ensures
        kind_allowed(cfg, kind),
        row_target_fits(w, cfg, planned_rows(w, cfg, kind)[i]),
{
    lemma_shapes_fit(w, cfg);
    lemma_row_targets_fit(w, cfg, shapes_spec(w, cfg));
}

proof fn lemma_allowed_cols(cfg: crate::config::ConfigView, k: nat)
    requires
        k <= usize::MAX + 1,
    ensures
        forall|j: int| 0 <= j < allowed_cols_spec(cfg, k).len() ==> #[trigger] allowed_cols_spec(cfg, k)[j] < k
            && col_allowed(cfg, allowed_cols_spec(cfg, k)[j] as int),
    decreases k,
{
    if k > 0 {
        lemma_allowed_cols(cfg, (k - 1) as nat);
        let prev = allowed_cols_spec(cfg, (k - 1) as nat);
        assert(((k - 1) as usize) as int == k - 1);
        assert forall|j: int| 0 <= j < allowed_cols_spec(cfg, k).len() implies #[trigger] allowed_cols_spec(cfg, k)[j] < k
            && col_allowed(cfg, allowed_cols_spec(cfg, k)[j] as int) by {
            if j < prev.len() {
                assert(allowed_cols_spec(cfg, k)[j] == prev[j]);
            }
        }
    }
}

proof fn lemma_segments_fit(w: WitnessView, cfg: crate::config::ConfigView, shapes: Seq<ShapeView>)
    requires
        bounded(w),
        forall|j: int| 0 <= j < shapes.len() ==> shape_fits(w, cfg, #[trigger] shapes[j]),
    ensures
        forall|i: int| 0 <= i < segments_spec(shapes, cfg).len() ==> segment_fits(w, cfg, #[trigger] segments_spec(shapes, cfg)[i]),
    decreases shapes.len(),
{
    if shapes.len() > 0 {
        let front = shapes.drop_last();
        assert forall|j: int| 0 <= j < front.len() implies shape_fits(w, cfg, #[trigger] front[j]) by {
            assert(front[j] == shapes[j]);
        }
        lemma_segments_fit(w, cfg, front);
        let s = shapes.last();
        assert(shape_fits(w, cfg, shapes[shapes.len() - 1]));
        assert(trace_bounded(trace_at(w, s.target)));
        lemma_allowed_cols(cfg, s.col_types.len());
        let prev = segments_spec(front, cfg);
        assert forall|i: int| 0 <= i < segments_spec(shapes, cfg).len() implies segment_fits(w, cfg, #[trigger] segments_spec(shapes, cfg)[i]) by {
            if i < prev.len() {
                assert(segments_spec(shapes, cfg)[i] == prev[i]);
            }
        }
    }
}

/// Every segment candidate the plan holds fits: an allowed trace, some of
/// its existing allowed columns, all its rows; and the configuration
/// allows `RowSegmentZero`.
pub proof fn lemma_planned_segments_fit(w: WitnessView, cfg: crate::config::ConfigView, i: int)
    requires
        bounded(w),
        kind_allowed(cfg, MutationKind::RowSegmentZero),
        0 <= i < segments_spec(shapes_spec(w, cfg), cfg).len(),
    ensures
        segment_fits(w, cfg, segments_spec(shapes_spec(w, cfg), cfg)[i]),
{
    lemma_shapes_fit(w, cfg);
    lemma_segments_fit(w, cfg, shapes_spec(w, cfg));
}

/// A cell-level mutation drawn from a fitting candidate of a rectangular
/// witness has the candidate's kind and trace, and applies without
/// touching a missing cell.
pub proof fn lemma_drawn_cell_mutation(
    w: WitnessView,
    cfg: crate::config::ConfigView,
    kind: MutationKind,
    c: CellView,
    row_idx: int,
    a: u128,
    b: u128,
)
    requires
        bounded(w),
        rectangular(w),
        cell_fits(w, cfg, kind, c),
        0 <= row_idx < c.allowed_rows.len(),
        kind == MutationKind::BitFlip || kind == MutationKind::OutOfBounds || kind == MutationKind::FlipSelector
            || kind == MutationKind::ColumnUniformWrite || kind == MutationKind::MonotonicReplace,
    ensures
        kind_of(cell_mutation(kind, c, row_idx, a, b)) == Some(kind),
        target_of(cell_mutation(kind, c, row_idx, a, b)) == c.target,
        applicable(w, cell_mutation(kind, c, row_idx, a, b)),
{
    let tr = trace_at(w, c.target);
    assert(trace_bounded(tr));
    assert(tr.columns[c.col as int].cells.len() == tr.columns[0].cells.len());
    assert(c.allowed_rows[row_idx] as int == row_idx);
}

/// A `SwapRows` or `DuplicateRow` drawn from a fitting row candidate of a
/// rectangular witness with two different row indices moves two different
/// rows and applies.
pub proof fn lemma_drawn_row_mutation(
    w: WitnessView,
    cfg: crate::config::ConfigView,
    rt: RowTargetView,
    ia: int,
    ib: int,
)
    requires
        bounded(w),
        rectangular(w),
        row_target_fits(w, cfg, rt),
        0 <= ia < rt.rows.len(),
        0 <= ib < rt.rows.len(),
        ia != ib,
    ensures
        rt.rows[ia] != rt.rows[ib],
        applicable(w, Mutation::SwapRows { target: rt.target, row_a: rt.rows[ia], row_b: rt.rows[ib] }),
        applicable(w, Mutation::DuplicateRow { target: rt.target, src_row: rt.rows[ia], dst_row: rt.rows[ib] }),
{
    let tr = trace_at(w, rt.target);
    assert(trace_bounded(tr));
    assert(rt.rows[ia] as int == ia);
    assert(rt.rows[ib] as int == ib);
    assert forall|c: int| 0 <= c < tr.columns.len() implies rt.rows[ia] < (#[trigger] tr.columns[c]).cells.len()
        && rt.rows[ib] < tr.columns[c].cells.len() by {
        assert(trace_at(w, rt.target).columns[c].cells.len() == trace_at(w, rt.target).columns[0].cells.len());
    }
}

/// A `RowSegmentZero` whose rows and columns come from a fitting segment
/// candidate of a rectangular witness applies.
pub proof fn lemma_drawn_segment_mutation(
    w: WitnessView,
    cfg: crate::config::ConfigView,
    sg: SegmentView,
    rows: Vec<usize>,
    cols: Vec<usize>,
)
    requires
        bounded(w),
        rectangular(w),
        segment_fits(w, cfg, sg),
        forall|x: usize| rows@.contains(x) ==> sg.allowed_rows.contains(x),
        forall|x: usize| cols@.contains(x) ==> sg.allowed_cols.contains(x),
    ensures
        applicable(w, Mutation::RowSegmentZero { target: sg.target, rows, cols }),
{
    let tr = trace_at(w, sg.target);
    assert(trace_bounded(tr));
    assert forall|i: int, j: int| 0 <= i < cols.len() && 0 <= j < rows.len() implies trace_has_cell(
        tr,
        #[trigger] cols@[i] as int,
        #[trigger] rows@[j] as int,
    ) by {
        assert(cols@.contains(cols@[i]));
        assert(rows@.contains(rows@[j]));
        let k = choose|k: int| 0 <= k < sg.allowed_cols.len() && sg.allowed_cols[k] == cols@[i];
        assert(sg.allowed_cols[k] < tr.columns.len());
        let r = choose|r: int| 0 <= r < sg.allowed_rows.len() && sg.allowed_rows[r] == rows@[j];
        assert(sg.allowed_rows[r] as int == r);
        assert(trace_at(w, sg.target).columns[cols@[i] as int].cells.len() == trace_at(w, sg.target).columns[0].cells.len());
    }
}

/// Every column that `m` names is one `cfg` allows.
pub open spec fn names_allowed_cols(cfg: crate::config::ConfigView, m: Mutation) -> bool {
    match m {
        Mutation::BitFlip { col, .. } => col_allowed(cfg, col as int),
        Mutation::OutOfBounds { col, .. } => col_allowed(cfg, col as int),
        Mutation::FlipSelector { col, .. } => col_allowed(cfg, col as int),
        Mutation::ColumnUniformWrite { col, .. } => col_allowed(cfg, col as int),
        Mutation::MonotonicReplace { col, .. } => col_allowed(cfg, col as int),
        Mutation::RowSegmentZero { cols, .. } => forall|k: int| 0 <= k < cols.len() ==> col_allowed(cfg, #[trigger] cols@[k] as int),
        Mutation::SwapColumns { cols, .. } => forall|k: int| 0 <= k < cols.len() ==> col_allowed(cfg, #[trigger] cols@[k] as int),
        Mutation::CopyColumns { cols, .. } => forall|k: int| 0 <= k < cols.len() ==> col_allowed(cfg, #[trigger] cols@[k] as int),
        _ => true,
    }
}

/// The random values in `m` lie in the ranges random search draws them
/// from: a nonzero mask, and values, bases and steps within the width of
/// the column of `w` they go to; two different rows for `SwapRows` and
/// `DuplicateRow`; one to eight rows and columns for `RowSegmentZero`.
pub open spec fn within_draw_range(w: WitnessView, m: Mutation) -> bool {
    match m {
        Mutation::BitFlip { target, col, mask, .. } => 1 <= mask <= width_mask(
            trace_at(w, target).columns[col as int].col_type,
        ),
        Mutation::ColumnUniformWrite { target, col, value } => value <= width_mask(
            trace_at(w, target).columns[col as int].col_type,
        ),
        Mutation::MonotonicReplace { target, col, base, step } => base <= width_mask(
            trace_at(w, target).columns[col as int].col_type,
        ) && step <= width_mask(trace_at(w, target).columns[col as int].col_type),
        Mutation::SwapRows { row_a, row_b, .. } => row_a != row_b,
        Mutation::DuplicateRow { src_row, dst_row, .. } => src_row != dst_row,
        Mutation::RowSegmentZero { rows, cols, .. } => 1 <= rows.len() <= 8 && 1 <= cols.len() <= 8,
        _ => true,
    }
}

/// `m` is a mutation random search may draw from `w` under `cfg`: a kind
/// the configuration allows (so never `SwapColumns`, `CopyColumns` or
/// `Compound`), on an allowed trace of `w` that has columns, naming only
/// allowed columns, with its random values in range, and applicable to `w`
/// (every row it names exists, and a selector flip is on a `Bit` column).
pub open spec fn draw_fits(w: WitnessView, cfg: crate::config::ConfigView, m: Mutation) -> bool {
    &&& kind_of(m) is Some
    &&& kind_allowed(cfg, kind_of(m).unwrap())
    &&& valid_target(w, target_of(m))
    &&& target_allowed(cfg, target_of(m))
    &&& trace_at(w, target_of(m)).columns.len() > 0
    &&& names_allowed_cols(cfg, m)
    &&& within_draw_range(w, m)
    &&& applicable(w, m)
}

/// Every cell-level mutation drawn from the plan's candidates for its kind
/// (as the `*_from` constructors build it, with the random values in their
/// ranges) is one random search may draw.
pub proof fn lemma_plan_cell_draw_fits(
    w: WitnessView,
    cfg: crate::config::ConfigView,
    kind: MutationKind,
    i: int,
    row_idx: int,
    a: u128,
    b: u128,
)
    requires
        bounded(w),
        rectangular(w),
        kind == MutationKind::BitFlip || kind == MutationKind::OutOfBounds || kind == MutationKind::FlipSelector
            || kind == MutationKind::ColumnUniformWrite || kind == MutationKind::MonotonicReplace,
        0 <= i < planned_cells(w, cfg, kind).len(),
        0 <= row_idx < planned_cells(w, cfg, kind)[i].allowed_rows.len(),
        kind == MutationKind::BitFlip ==> 1 <= a <= width_mask(planned_cells(w, cfg, kind)[i].col_type),
        kind == MutationKind::ColumnUniformWrite ==> a <= width_mask(planned_cells(w, cfg, kind)[i].col_type),
        kind == MutationKind::MonotonicReplace ==> a <= width_mask(planned_cells(w, cfg, kind)[i].col_type)
            && b <= width_mask(planned_cells(w, cfg, kind)[i].col_type),
    ensures
        kind_of(cell_mutation(kind, planned_cells(w, cfg, kind)[i], row_idx, a, b)) == Some(kind),
        draw_fits(w, cfg, cell_mutation(kind, planned_cells(w, cfg, kind)[i], row_idx, a, b)),
{
    let c = planned_cells(w, cfg, kind)[i];
    lemma_planned_cells_fit(w, cfg, kind, i);
    lemma_drawn_cell_mutation(w, cfg, kind, c, row_idx, a, b);
}

/// Every `SwapRows` or `DuplicateRow` drawn from the plan's row candidates
/// for its kind with two different row indices (as `swap_rows_from` and
/// `duplicate_row_from` build it) is one random search may draw.
pub proof fn lemma_plan_row_draw_fits(
    w: WitnessView,
    cfg: crate::config::ConfigView,
    kind: MutationKind,
    i: int,
    ia: int,
    ib: int,
)
    requires
        bounded(w),
        rectangular(w),
        kind == MutationKind::SwapRows || kind == MutationKind::DuplicateRow,
        0 <= i < planned_rows(w, cfg, kind).len(),
        0 <= ia < planned_rows(w, cfg, kind)[i].rows.len(),
        0 <= ib < planned_rows(w, cfg, kind)[i].rows.len(),
        ia != ib,
    ensures
        kind == MutationKind::SwapRows ==> draw_fits(
            w,
            cfg,
            Mutation::SwapRows {
                target: planned_rows(w, cfg, kind)[i].target,
                row_a: planned_rows(w, cfg, kind)[i].rows[ia],
                row_b: planned_rows(w, cfg, kind)[i].rows[ib],
            },
        ),
        kind == MutationKind::DuplicateRow ==> draw_fits(
            w,
            cfg,
            Mutation::DuplicateRow {
                target: planned_rows(w, cfg, kind)[i].target,
                src_row: planned_rows(w, cfg, kind)[i].rows[ia],
                dst_row: planned_rows(w, cfg, kind)[i].rows[ib],
            },
        ),
{
    let rt = planned_rows(w, cfg, kind)[i];
    lemma_planned_rows_fit(w, cfg, kind, i);
    lemma_drawn_row_mutation(w, cfg, rt, ia, ib);
}

/// Every `RowSegmentZero` drawn from the plan's segment candidates (as
/// `row_segment_zero_from` builds it from row and column indices) is one
/// random search may draw.
pub proof fn lemma_plan_segment_draw_fits(
    w: WitnessView,
    cfg: crate::config::ConfigView,
    i: int,
    row_idx: Seq<usize>,
    col_idx: Seq<usize>,
    rows: Vec<usize>,
    cols: Vec<usize>,
)
    requires
        bounded(w),
        rectangular(w),
        0 <= i < planned_segments(w, cfg).len(),
        1 <= row_idx.len() <= pick_bound(planned_segments(w, cfg)[i].allowed_rows.len() as int),
        1 <= col_idx.len() <= pick_bound(planned_segments(w, cfg)[i].allowed_cols.len() as int),
        forall|k: int| 0 <= k < row_idx.len() ==> #[trigger] row_idx[k] < planned_segments(w, cfg)[i].allowed_rows.len(),
        forall|k: int| 0 <= k < col_idx.len() ==> #[trigger] col_idx[k] < planned_segments(w, cfg)[i].allowed_cols.len(),
        forall|x: usize| rows@.contains(x) <==> picked(planned_segments(w, cfg)[i].allowed_rows, row_idx).contains(x),
        forall|x: usize| cols@.contains(x) <==> picked(planned_segments(w, cfg)[i].allowed_cols, col_idx).contains(x),
        1 <= rows@.len() <= row_idx.len(),
        1 <= cols@.len() <= col_idx.len(),
    ensures
        draw_fits(w, cfg, Mutation::RowSegmentZero { target: planned_segments(w, cfg)[i].target, rows, cols }),
{
    let sg = planned_segments(w, cfg)[i];
    lemma_planned_segments_fit(w, cfg, i);
    assert forall|x: usize| rows@.contains(x) implies sg.allowed_rows.contains(x) by {
        let p = picked(sg.allowed_rows, row_idx);
        let k = choose|k: int| 0 <= k < p.len() && p[k] == x;
        assert(sg.allowed_rows[row_idx[k] as int] == x);
    }
    assert forall|x: usize| cols@.contains(x) implies sg.allowed_cols.contains(x) by {
        let p = picked(sg.allowed_cols, col_idx);
        let k = choose|k: int| 0 <= k < p.len() && p[k] == x;
        assert(sg.allowed_cols[col_idx[k] as int] == x);
    }
    lemma_drawn_segment_mutation(w, cfg, sg, rows, cols);
    assert forall|k: int| 0 <= k < cols.len() implies col_allowed(cfg, #[trigger] cols@[k] as int) by {
        assert(cols@.contains(cols@[k]));
        let j = choose|j: int| 0 <= j < sg.allowed_cols.len() && sg.allowed_cols[j] == cols@[k];
        assert(col_allowed(cfg, sg.allowed_cols[j] as int));
    }
}

/// Only `FlipSelector` restricts the column types it accepts, to `Bit`;
/// every other kind accepts a column of any type.
pub proof fn lemma_only_selector_restricts(kind: MutationKind, t: ColumnType)
    ensures
        kind != MutationKind::FlipSelector ==> compatible(kind, t),
        compatible(MutationKind::FlipSelector, t) <==> t == ColumnType::Bit,
{
}

proof fn lemma_chiplet_shape_listed(w: WitnessView, cfg: crate::config::ConfigView, n: nat, idx: usize)
    requires
        idx < n,
        shape_wanted(w, cfg, Target::Chiplet(idx)),
    ensures
        exists|j: int| 0 <= j < chiplet_shapes(w, cfg, n).len() && chiplet_shapes(w, cfg, n)[j] == shape_of(w, Target::Chiplet(idx)),
    decreases n,
{
    let prev = chiplet_shapes(w, cfg, (n - 1) as nat);
    if idx == n - 1 {
        assert(((n - 1) as usize) == idx);
        assert(chiplet_shapes(w, cfg, n)[prev.len() as int] == shape_of(w, Target::Chiplet(idx)));
    } else {
        lemma_chiplet_shape_listed(w, cfg, (n - 1) as nat, idx);
        let j = choose|j: int| 0 <= j < prev.len() && prev[j] == shape_of(w, Target::Chiplet(idx));
        assert(chiplet_shapes(w, cfg, n)[j] == prev[j]);
    }
}

/// Every trace random search may tamper with (an allowed trace that has
/// columns) has its shape among the plan's shapes.
pub proof fn lemma_wanted_shape_listed(w: WitnessView, cfg: crate::config::ConfigView, t: Target)
    requires
        valid_target(w, t),
        shape_wanted(w, cfg, t),
    ensures
        exists|j: int| 0 <= j < shapes_spec(w, cfg).len() && shapes_spec(w, cfg)[j] == shape_of(w, t),
{
    let head = if shape_wanted(w, cfg, Target::Main) { seq![shape_of(w, Target::Main)] } else { Seq::<ShapeView>::empty() };
    let rest = chiplet_shapes(w, cfg, w.chiplet_traces.len());
    match t {
        Target::Main => {
            assert(shapes_spec(w, cfg)[0] == shape_of(w, t));
        },
        Target::Chiplet(idx) => {
            lemma_chiplet_shape_listed(w, cfg, w.chiplet_traces.len(), idx);
            let j = choose|j: int| 0 <= j < rest.len() && rest[j] == shape_of(w, t);
            assert(shapes_spec(w, cfg)[head.len() + j] == rest[j]);
        },
    }
}

/// The cell candidate for column `c` of shape `s`, with every row of the shape.
pub open spec fn cell_of(s: ShapeView, c: int) -> CellView {
    CellView { target: s.target, col: c as usize, col_type: s.col_types[c], allowed_rows: all_rows(s.num_rows) }
}

proof fn lemma_shape_cells_listed(kind: MutationKind, s: ShapeView, cfg: crate::config::ConfigView, k: nat, c: int)
    requires
        0 <= c < k,
        col_allowed(cfg, c),
        compatible(kind, s.col_types[c]),
    ensures
        exists|i: int| 0 <= i < shape_cells(kind, s, cfg, k).len() && shape_cells(kind, s, cfg, k)[i] == cell_of(s, c),
    decreases k,
{
    let prev = shape_cells(kind, s, cfg, (k - 1) as nat);
    if c == k - 1 {
        assert(shape_cells(kind, s, cfg, k)[prev.len() as int] == cell_of(s, c));
    } else {
        lemma_shape_cells_listed(kind, s, cfg, (k - 1) as nat, c);
        let i = choose|i: int| 0 <= i < prev.len() && prev[i] == cell_of(s, c);
        assert(shape_cells(kind, s, cfg, k)[i] == prev[i]);
    }
}

proof fn lemma_cells_spec_listed(kind: MutationKind, shapes: Seq<ShapeView>, cfg: crate::config::ConfigView, j: int, c: int)
    requires
        0 <= j < shapes.len(),
        shapes[j].num_rows > 0,
        0 <= c < shapes[j].col_types.len(),
        col_allowed(cfg, c),
        compatible(kind, shapes[j].col_types[c]),
    ensures
        exists|i: int| 0 <= i < cells_spec(kind, shapes, cfg).len() && cells_spec(kind, shapes, cfg)[i] == cell_of(shapes[j], c),
    decreases shapes.len(),
{
    let front = shapes.drop_last();
    let prev = cells_spec(kind, front, cfg);
    if j == shapes.len() - 1 {
        let s = shapes.last();
        lemma_shape_cells_listed(kind, s, cfg, s.col_types.len(), c);
        let i = choose|i: int| 0 <= i < shape_cells(kind, s, cfg, s.col_types.len()).len()
            && shape_cells(kind, s, cfg, s.col_types.len())[i] == cell_of(s, c);
        assert(cells_spec(kind, shapes, cfg)[prev.len() + i] == cell_of(s, c));
    } else {
        assert(front[j] == shapes[j]);
        lemma_cells_spec_listed(kind, front, cfg, j, c);
        let i = choose|i: int| 0 <= i < prev.len() && prev[i] == cell_of(front[j], c);
        assert(cells_spec(kind, shapes, cfg)[i] == prev[i]);
    }
}

/// Every allowed column of a type the kind accepts, in a trace random
/// search may tamper with that has rows, is a cell candidate of that kind
/// when the configuration allows the kind; the candidate carries every row
/// of the trace.
pub proof fn lemma_planned_cells_complete(w: WitnessView, cfg: crate::config::ConfigView, kind: MutationKind, t: Target, c: int)
    requires
        bounded(w),
        kind_allowed(cfg, kind),
        valid_target(w, t),
        target_allowed(cfg, t),
        0 <= c < trace_at(w, t).columns.len(),
        trace_at(w, t).columns[0].cells.len() > 0,
        col_allowed(cfg, c),
        compatible(kind, trace_at(w, t).columns[c].col_type),
    ensures
        exists|i: int|
            0 <= i < planned_cells(w, cfg, kind).len() && planned_cells(w, cfg, kind)[i].target == t
                && planned_cells(w, cfg, kind)[i].col as int == c
                && planned_cells(w, cfg, kind)[i].col_type == trace_at(w, t).columns[c].col_type
                && planned_cells(w, cfg, kind)[i].allowed_rows == all_rows(trace_at(w, t).columns[0].cells.len()),
{
    lemma_wanted_shape_listed(w, cfg, t);
    let shapes = shapes_spec(w, cfg);
    let j = choose|j: int| 0 <= j < shapes.len() && shapes[j] == shape_of(w, t);
    assert(trace_bounded(trace_at(w, t)));
    lemma_cells_spec_listed(kind, shapes, cfg, j, c);
    let i = choose|i: int| 0 <= i < cells_spec(kind, shapes, cfg).len() && cells_spec(kind, shapes, cfg)[i] == cell_of(shapes[j], c);
    assert(planned_cells(w, cfg, kind)[i] == cell_of(shape_of(w, t), c));
}

proof fn lemma_row_targets_listed(shapes: Seq<ShapeView>, j: int)
    requires
        0 <= j < shapes.len(),
        shapes[j].num_rows >= 2,
    ensures
        exists|i: int| 0 <= i < row_targets_spec(shapes).len() && row_targets_spec(shapes)[i] == (RowTargetView {
            target: shapes[j].target,
            rows: all_rows(shapes[j].num_rows),
        }),
    decreases shapes.len(),
{
    let front = shapes.drop_last();
    let prev = row_targets_spec(front);
    if j == shapes.len() - 1 {
        assert(row_targets_spec(shapes)[prev.len() as int] == (RowTargetView { target: shapes[j].target, rows: all_rows(shapes[j].num_rows) }));
    } else {
        assert(front[j] == shapes[j]);
        lemma_row_targets_listed(front, j);
        let i = choose|i: int| 0 <= i < prev.len() && prev[i] == (RowTargetView { target: front[j].target, rows: all_rows(front[j].num_rows) });
        assert(row_targets_spec(shapes)[i] == prev[i]);
    }
}

/// Every trace random search may tamper with that has at least two rows
/// is a row candidate for `SwapRows` and `DuplicateRow` when the
/// configuration allows the kind, with all its rows.
pub proof fn lemma_planned_rows_complete(w: WitnessView, cfg: crate::config::ConfigView, kind: MutationKind, t: Target)
    requires
        kind_allowed(cfg, kind),
        valid_target(w, t),
        target_allowed(cfg, t),
        trace_at(w, t).columns.len() > 0,
        trace_at(w, t).columns[0].cells.len() >= 2,
    ensures
        exists|i: int|
            0 <= i < planned_rows(w, cfg, kind).len() && planned_rows(w, cfg, kind)[i] == (RowTargetView {
                target: t,
                rows: all_rows(trace_at(w, t).columns[0].cells.len()),
            }),
{
    lemma_wanted_shape_listed(w, cfg, t);
    let shapes = shapes_spec(w, cfg);
    let j = choose|j: int| 0 <= j < shapes.len() && shapes[j] == shape_of(w, t);
    lemma_row_targets_listed(shapes, j);
    let i = choose|i: int| 0 <= i < row_targets_spec(shapes).len() && row_targets_spec(shapes)[i] == (RowTargetView {
        target: shapes[j].target,
        rows: all_rows(shapes[j].num_rows),
    });
    assert(planned_rows(w, cfg, kind)[i] == (RowTargetView { target: t, rows: all_rows(trace_at(w, t).columns[0].cells.len()) }));
}

proof fn lemma_allowed_cols_listed(cfg: crate::config::ConfigView, k: nat, c: int)
    requires
        0 <= c < k,
        k <= usize::MAX + 1,
        col_allowed(cfg, c),
    ensures
        allowed_cols_spec(cfg, k).contains(c as usize),
    decreases k,
{
    let prev = allowed_cols_spec(cfg, (k - 1) as nat);
    if c == k - 1 {
        assert(allowed_cols_spec(cfg, k)[prev.len() as int] == c as usize);
    } else {
        lemma_allowed_cols_listed(cfg, (k - 1) as nat, c);
        let i = choose|i: int| 0 <= i < prev.len() && prev[i] == c as usize;
        assert(allowed_cols_spec(cfg, k)[i] == prev[i]);
    }
}

proof fn lemma_segments_listed(shapes: Seq<ShapeView>, cfg: crate::config::ConfigView, j: int)
    requires
        0 <= j < shapes.len(),
        shapes[j].num_rows > 0,
        allowed_cols_spec(cfg, shapes[j].col_types.len()).len() > 0,
    ensures
        exists|i: int| 0 <= i < segments_spec(shapes, cfg).len() && segments_spec(shapes, cfg)[i] == (SegmentView {
            target: shapes[j].target,
            allowed_cols: allowed_cols_spec(cfg, shapes[j].col_types.len()),
            allowed_rows: all_rows(shapes[j].num_rows),
        }),
    decreases shapes.len(),
{
    let front = shapes.drop_last();
    let prev = segments_spec(front, cfg);
    let sg = SegmentView {
        target: shapes[j].target,
        allowed_cols: allowed_cols_spec(cfg, shapes[j].col_types.len()),
        allowed_rows: all_rows(shapes[j].num_rows),
    };
    if j == shapes.len() - 1 {
        assert(segments_spec(shapes, cfg)[prev.len() as int] == sg);
    } else {
        assert(front[j] == shapes[j]);
        lemma_segments_listed(front, cfg, j);
        let i = choose|i: int| 0 <= i < prev.len() && prev[i] == sg;
        assert(segments_spec(shapes, cfg)[i] == prev[i]);
    }
}

/// Every trace random search may tamper with that has rows and an allowed
/// column is a segment candidate when the configuration allows
/// `RowSegmentZero`, and its candidate lists every column of the trace
/// that the configuration allows, with every row of the trace.
pub proof fn lemma_planned_segments_complete(w: WitnessView, cfg: crate::config::ConfigView, t: Target, c: int)
    requires
        bounded(w),
        kind_allowed(cfg, MutationKind::RowSegmentZero),
        valid_target(w, t),
        target_allowed(cfg, t),
        0 <= c < trace_at(w, t).columns.len(),
        trace_at(w, t).columns[0].cells.len() > 0,
        col_allowed(cfg, c),
    ensures
        exists|i: int|
            0 <= i < planned_segments(w, cfg).len() && planned_segments(w, cfg)[i].target == t
                && planned_segments(w, cfg)[i].allowed_rows == all_rows(trace_at(w, t).columns[0].cells.len())
                && forall|d: int|
                    0 <= d < trace_at(w, t).columns.len() && col_allowed(cfg, d) ==> #[trigger] planned_segments(
                        w,
                        cfg,
                    )[i].allowed_cols.contains(d as usize),
{
    lemma_wanted_shape_listed(w, cfg, t);
    let shapes = shapes_spec(w, cfg);
    let j = choose|j: int| 0 <= j < shapes.len() && shapes[j] == shape_of(w, t);
    let n = trace_at(w, t).columns.len();
    assert(trace_bounded(trace_at(w, t)));
    assert(shapes[j].col_types.len() == n);
    lemma_allowed_cols_listed(cfg, n, c);
    lemma_segments_listed(shapes, cfg, j);
    let i = choose|i: int| 0 <= i < segments_spec(shapes, cfg).len() && segments_spec(shapes, cfg)[i] == (SegmentView {
        target: shapes[j].target,
        allowed_cols: allowed_cols_spec(cfg, shapes[j].col_types.len()),
        allowed_rows: all_rows(shapes[j].num_rows),
    });
    assert forall|d: int| 0 <= d < n && col_allowed(cfg, d) implies #[trigger] planned_segments(w, cfg)[i].allowed_cols.contains(d as usize) by {
        lemma_allowed_cols_listed(cfg, n, d);
    }
}

/// The targets of every trace of a witness with `n` chiplet traces: the
/// main trace, then each chiplet trace in order.
pub open spec fn all_targets_spec(n: nat) -> Seq<Target> {
    seq![Target::Main] + Seq::new(n, |i: int| Target::Chiplet(i as usize))
}

/// The targets listed for a witness are exactly the traces it has, each
/// once, the main trace first.
pub proof fn lemma_all_targets_cover(w: WitnessView, t: Target)
    requires
        w.chiplet_traces.len() <= usize::MAX,
    ensures
        all_targets_spec(w.chiplet_traces.len()).contains(t) <==> valid_target(w, t),
        all_targets_spec(w.chiplet_traces.len()).len() == w.chiplet_traces.len() + 1,
        all_targets_spec(w.chiplet_traces.len())[0] == Target::Main,
        forall|i: int, j: int|
            0 <= i < j < all_targets_spec(w.chiplet_traces.len()).len() ==> #[trigger] all_targets_spec(
                w.chiplet_traces.len(),
            )[i] != #[trigger] all_targets_spec(w.chiplet_traces.len())[j],
{
    let s = all_targets_spec(w.chiplet_traces.len());
    match t {
        Target::Main => {
            assert(s[0] == t);
        },
        Target::Chiplet(idx) => {
            if valid_target(w, t) {
                assert(s[idx as int + 1] == t);
            }
            if s.contains(t) {
                let k = choose|k: int| 0 <= k < s.len() && s[k] == t;
                assert(k >= 1);
                assert(s[k] == Target::Chiplet((k - 1) as usize));
            }
        },
    }
    assert forall|i: int, j: int| 0 <= i < j < s.len() implies #[trigger] s[i] != #[trigger] s[j] by {
        if i > 0 {
            assert(s[i] == Target::Chiplet((i - 1) as usize));
            assert(s[j] == Target::Chiplet((j - 1) as usize));
        }
    }
}

/// The targets of every trace of `witness`: `Main`, then `Chiplet(i)` for
/// each chiplet trace.
pub fn all_targets(witness: &Witness) -> (targets: Vec<Target>)
    ensures
        targets@ == all_targets_spec(witness.chiplet_traces.len() as nat),
{
    let mut targets: Vec<Target> = Vec::new();
    targets.push(Target::Main);
    let n = witness.chiplet_traces.len();
    for i in 0..n
        invariant
            targets@ == all_targets_spec(i as nat),
    {
        targets.push(Target::Chiplet(i));
        assert(targets@ =~= all_targets_spec(i as nat + 1));
    }
    targets
}

} // verus!
