//! Trace mutation engine for zero-knowledge execution traces: tampers a
//! valid trace cell by cell and checks that an oracle (the constraint
//! preflight) notices every change.

pub mod apply;
pub mod check;
pub mod config;
pub mod footprint;
pub mod laws;
pub mod mutation;
pub mod strategy;
pub mod target;
pub mod trace;

pub use apply::{apply_mutation, is_applicable, swap_cells, write_value, xor_cell};
pub use check::{check_in_place, check_single_mutation, classify_report, clone_witness, CellPatch};
pub use config::ScribbleConfig;
pub use mutation::{Mutation, MutationKind};
pub use strategy::{
    all_targets, bitflip_from, cells_for, column_uniform_write_from, duplicate_row_from,
    flip_selector_from, kind_compatible, monotonic_replace_from, mutation_plan, out_of_bounds_from,
    row_segment_zero_from, row_targets, segment_pick_bound, segments_for, snapshot, swap_rows_from,
    Cell, MutationPlan, RowTarget, Segment, TraceShape,
};
pub use target::Target;
pub use trace::{col_mask, ColumnTrace, ColumnType, TraceColumn, Witness};
