//! Laws and edge cases of the engine on concrete values.

use zk_scribble::{
    all_targets, apply_mutation, check_in_place, check_single_mutation, classify_report, col_mask,
    kind_compatible, mutation_plan, row_segment_zero_from, segment_pick_bound, swap_rows_from,
    swap_cells, write_value, xor_cell, ColumnTrace, ColumnType, Mutation, MutationKind, RowTarget,
    ScribbleConfig, Segment, Target, TraceColumn, Witness,
};

fn column(col_type: ColumnType, cells: Vec<u128>) -> TraceColumn {
    TraceColumn { col_type, cells }
}

fn sample_witness() -> Witness {
    Witness {
        trace: ColumnTrace {
            columns: vec![
                column(ColumnType::Bit, vec![0, 1, 0, 1]),
                column(ColumnType::B8, vec![1, 2, 3, 4]),
                column(ColumnType::B32, vec![10, 20, 30, 40]),
            ],
            num_vars: 2,
        },
        chiplet_traces: vec![ColumnTrace {
            columns: vec![column(ColumnType::B16, vec![7, 8, 9, 10]), column(ColumnType::Bit, vec![1, 1, 0, 0])],
            num_vars: 2,
        }],
    }
}

fn cells(w: &Witness) -> Vec<Vec<Vec<u128>>> {
    let mut out = vec![w.trace.columns.iter().map(|c| c.cells.clone()).collect::<Vec<_>>()];
    for t in &w.chiplet_traces {
        out.push(t.columns.iter().map(|c| c.cells.clone()).collect());
    }
    out
}

#[test]
fn unchanged_mutation_is_caught_without_asking_the_oracle() {
    let mut w = sample_witness();
    let m = Mutation::SwapRows { target: Target::Main, row_a: 2, row_b: 2 };
    let res: Result<Result<&str, &str>, ()> =
        check_in_place(&mut w, &m, "unchanged", |_w: &Witness| Ok(("asked", true)));
    assert_eq!(res, Ok(Ok("unchanged")));
}

#[test]
fn rewriting_the_same_value_is_unchanged() {
    let w = sample_witness();
    let m = Mutation::OutOfBounds { target: Target::Main, col: 2, row: 1, value: 20 };
    let res: Result<Result<&str, &str>, ()> =
        check_single_mutation(&w, &m, "unchanged", |_w: &Witness| Ok(("asked", true)));
    assert_eq!(res, Ok(Ok("unchanged")));
}

#[test]
fn clean_report_means_escaped() {
    let w = sample_witness();
    let m = Mutation::BitFlip { target: Target::Main, col: 2, row: 0, mask: 1 };
    let res: Result<Result<&str, &str>, ()> =
        check_single_mutation(&w, &m, "unchanged", |_w: &Witness| Ok(("clean", true)));
    assert_eq!(res, Ok(Err("clean")));
}

#[test]
fn report_with_violations_means_caught() {
    let w = sample_witness();
    let m = Mutation::BitFlip { target: Target::Main, col: 2, row: 0, mask: 1 };
    let res: Result<Result<&str, &str>, ()> =
        check_single_mutation(&w, &m, "unchanged", |_w: &Witness| Ok(("violations", false)));
    assert_eq!(res, Ok(Ok("violations")));
}

#[test]
fn oracle_failure_is_passed_on() {
    let mut w = sample_witness();
    let before = cells(&w);
    let m = Mutation::BitFlip { target: Target::Main, col: 2, row: 0, mask: 1 };
    let res: Result<Result<(), ()>, &str> = check_in_place(&mut w, &m, (), |_w: &Witness| Err("broken"));
    assert_eq!(res, Err("broken"));
    assert_eq!(cells(&w), before);
}

#[test]
fn oracle_sees_the_tampered_witness_and_the_witness_is_restored() {
    let mut w = sample_witness();
    let before = cells(&w);
    let m = Mutation::ColumnUniformWrite { target: Target::Chiplet(0), col: 0, value: 0x1_2345 };
    let res: Result<Result<u128, u128>, ()> = check_in_place(&mut w, &m, 0, |t: &Witness| {
        let seen = t.chiplet_traces[0].columns[0].cells[3];
        Ok((seen, false))
    });
    assert_eq!(res, Ok(Ok(0x2345)));
    assert_eq!(cells(&w), before);
}

#[test]
fn classify_report_maps_every_answer() {
    assert_eq!(classify_report::<u8, ()>(Ok((1, true))), Ok(Err(1)));
    assert_eq!(classify_report::<u8, ()>(Ok((2, false))), Ok(Ok(2)));
    assert_eq!(classify_report::<u8, &str>(Err("e")), Err("e"));
}

#[test]
fn compound_restores_in_place_even_with_repeated_cells() {
    let mut w = sample_witness();
    let before = cells(&w);
    let m = Mutation::Compound(vec![
        Mutation::SwapColumns { target: Target::Main, cols: vec![2, 2, 1], row_a: 0, row_b: 3 },
        Mutation::OutOfBounds { target: Target::Main, col: 1, row: 3, value: 0x1FF },
        Mutation::RowSegmentZero { target: Target::Chiplet(0), rows: vec![3, 0, 3], cols: vec![1, 0] },
    ]);
    let res: Result<Result<(), ()>, ()> = check_in_place(&mut w, &m, (), |_w: &Witness| Ok(((), true)));
    assert_eq!(res, Ok(Err(())));
    assert_eq!(cells(&w), before);
}

#[test]
fn swap_columns_listed_twice_swaps_back() {
    let mut w = sample_witness();
    apply_mutation(&mut w, &Mutation::SwapColumns { target: Target::Main, cols: vec![2, 2, 1], row_a: 0, row_b: 3 });
    assert_eq!(w.trace.columns[2].cells, vec![10, 20, 30, 40]);
    assert_eq!(w.trace.columns[1].cells, vec![4, 2, 3, 1]);
}

#[test]
fn bit_flip_twice_restores() {
    let mut w = sample_witness();
    let m = Mutation::BitFlip { target: Target::Chiplet(0), col: 0, row: 2, mask: 0xF_FFFF };
    apply_mutation(&mut w, &m);
    assert_eq!(w.chiplet_traces[0].columns[0].cells[2], 9 ^ 0xFFFF);
    apply_mutation(&mut w, &m);
    assert_eq!(cells(&w), cells(&sample_witness()));
}

#[test]
fn swap_rows_is_symmetric_and_undoes_itself() {
    let mut a = sample_witness();
    let mut b = sample_witness();
    apply_mutation(&mut a, &Mutation::SwapRows { target: Target::Main, row_a: 1, row_b: 2 });
    apply_mutation(&mut b, &Mutation::SwapRows { target: Target::Main, row_a: 2, row_b: 1 });
    assert_eq!(cells(&a), cells(&b));
    apply_mutation(&mut a, &Mutation::SwapRows { target: Target::Main, row_a: 1, row_b: 2 });
    assert_eq!(cells(&a), cells(&sample_witness()));
}

#[test]
fn monotonic_step_zero_equals_uniform_write() {
    let mut a = sample_witness();
    let mut b = sample_witness();
    apply_mutation(&mut a, &Mutation::MonotonicReplace { target: Target::Main, col: 1, base: 0x1234, step: 0 });
    apply_mutation(&mut b, &Mutation::ColumnUniformWrite { target: Target::Main, col: 1, value: 0x1234 });
    assert_eq!(cells(&a), cells(&b));
    assert_eq!(a.trace.columns[1].cells, vec![0x34; 4]);
}

#[test]
fn monotonic_replace_wraps_before_truncating() {
    let mut w = sample_witness();
    apply_mutation(
        &mut w,
        &Mutation::MonotonicReplace { target: Target::Main, col: 2, base: u128::MAX, step: u128::MAX },
    );
    // u128::MAX + r * u128::MAX = -(r + 1) modulo 2^128, truncated to 32 bits.
    assert_eq!(w.trace.columns[2].cells, vec![0xFFFF_FFFF, 0xFFFF_FFFE, 0xFFFF_FFFD, 0xFFFF_FFFC]);
}

#[test]
fn writes_stay_within_column_width() {
    let mut w = sample_witness();
    apply_mutation(&mut w, &Mutation::OutOfBounds { target: Target::Chiplet(0), col: 0, row: 0, value: u128::MAX });
    apply_mutation(&mut w, &Mutation::BitFlip { target: Target::Main, col: 1, row: 0, mask: u128::MAX });
    apply_mutation(&mut w, &Mutation::ColumnUniformWrite { target: Target::Main, col: 0, value: 3 });
    assert_eq!(w.chiplet_traces[0].columns[0].cells[0], 0xFFFF);
    assert_eq!(w.trace.columns[1].cells[0], 0xFE);
    assert_eq!(w.trace.columns[0].cells, vec![1, 1, 1, 1]);
}

#[test]
fn empty_row_list_leaves_segment_untouched() {
    let mut w = sample_witness();
    apply_mutation(&mut w, &Mutation::RowSegmentZero { target: Target::Main, rows: vec![], cols: vec![0, 1] });
    assert_eq!(cells(&w), cells(&sample_witness()));
}

#[test]
fn col_mask_gives_every_width() {
    assert_eq!(col_mask(ColumnType::Bit), 1);
    assert_eq!(col_mask(ColumnType::B8), 0xFF);
    assert_eq!(col_mask(ColumnType::B16), 0xFFFF);
    assert_eq!(col_mask(ColumnType::B32), 0xFFFF_FFFF);
    assert_eq!(col_mask(ColumnType::B64), 0xFFFF_FFFF_FFFF_FFFF);
    assert_eq!(col_mask(ColumnType::B128), u128::MAX);
}

#[test]
fn config_filters_targets_and_columns() {
    let cfg = ScribbleConfig::default().target(Target::Chiplet(0)).include_cols([0, 1, 2]).exclude_cols([1]).cases(17);
    assert_eq!(cfg.case_count(), 17);
    assert!(cfg.is_target_allowed(Target::Chiplet(0)));
    assert!(!cfg.is_target_allowed(Target::Main));
    assert!(cfg.is_col_allowed(0));
    assert!(!cfg.is_col_allowed(1));
    assert!(!cfg.is_col_allowed(3));
    let all = ScribbleConfig::default();
    assert_eq!(all.case_count(), 256);
    assert!(all.is_target_allowed(Target::Chiplet(9)));
    assert!(all.is_col_allowed(1000));
    let two = ScribbleConfig::default().targets([Target::Main, Target::Chiplet(1)]);
    assert!(two.is_target_allowed(Target::Chiplet(1)));
    assert!(!two.is_target_allowed(Target::Chiplet(0)));
}

#[test]
fn flip_selector_candidates_are_bit_columns_only() {
    let w = sample_witness();
    let plan = mutation_plan(&w, &ScribbleConfig::default().mutations([MutationKind::FlipSelector]));
    let found: Vec<(Target, usize)> = plan.flip_selector.iter().map(|c| (c.target, c.col)).collect();
    assert_eq!(found, vec![(Target::Main, 0), (Target::Chiplet(0), 1)]);
    assert!(plan.bit_flip.is_empty());
    assert!(plan.swap_rows.is_empty());
    assert!(!plan.is_empty());
    assert!(kind_compatible(MutationKind::FlipSelector, ColumnType::Bit));
    assert!(!kind_compatible(MutationKind::FlipSelector, ColumnType::B8));
    assert!(kind_compatible(MutationKind::BitFlip, ColumnType::B128));
}

#[test]
fn plan_respects_target_and_column_filters() {
    let w = sample_witness();
    let cfg = ScribbleConfig::default().target(Target::Main).exclude_cols([1]);
    let plan = mutation_plan(&w, &cfg);
    let found: Vec<(Target, usize)> = plan.bit_flip.iter().map(|c| (c.target, c.col)).collect();
    assert_eq!(found, vec![(Target::Main, 0), (Target::Main, 2)]);
    assert_eq!(plan.bit_flip[0].allowed_rows, vec![0, 1, 2, 3]);
    assert_eq!(plan.row_segment_zero.len(), 1);
    assert_eq!(plan.row_segment_zero[0].allowed_cols, vec![0, 2]);
    assert_eq!(plan.swap_rows.len(), 1);
    assert_eq!(plan.duplicate_row[0].rows, vec![0, 1, 2, 3]);
}

#[test]
fn plan_is_empty_when_nothing_is_allowed() {
    let w = sample_witness();
    let plan = mutation_plan(&w, &ScribbleConfig::default().target(Target::Chiplet(5)));
    assert!(plan.is_empty());
}

#[test]
fn row_segment_draws_are_sorted_and_unique() {
    let seg = Segment { target: Target::Main, allowed_cols: vec![0, 2, 5], allowed_rows: vec![0, 1, 2, 3] };
    let m = row_segment_zero_from(&seg, &vec![3, 1, 3, 0], &vec![2, 2, 0]);
    match m {
        Mutation::RowSegmentZero { target, rows, cols } => {
            assert_eq!(target, Target::Main);
            assert_eq!(rows, vec![0, 1, 3]);
            assert_eq!(cols, vec![0, 5]);
        },
        other => panic!("unexpected {other:?}"),
    }
    assert_eq!(segment_pick_bound(3), 3);
    assert_eq!(segment_pick_bound(20), 8);
}

#[test]
fn row_draws_need_two_different_rows() {
    let rt = RowTarget { target: Target::Chiplet(0), rows: vec![0, 1, 2, 3] };
    assert!(swap_rows_from(&rt, 2, 2).is_none());
    match swap_rows_from(&rt, 1, 3) {
        Some(Mutation::SwapRows { target, row_a, row_b }) => {
            assert_eq!((target, row_a, row_b), (Target::Chiplet(0), 1, 3));
        },
        other => panic!("unexpected {other:?}"),
    }
}

#[test]
fn all_targets_lists_main_then_chiplets() {
    let mut w = sample_witness();
    w.chiplet_traces.push(ColumnTrace { columns: vec![], num_vars: 2 });
    assert_eq!(all_targets(&w), vec![Target::Main, Target::Chiplet(0), Target::Chiplet(1)]);
}

#[test]
fn out_of_range_chiplet_is_not_applicable() {
    let w = sample_witness();
    assert!(!zk_scribble::is_applicable(&w, &Mutation::BitFlip { target: Target::Chiplet(7), col: 0, row: 0, mask: 1 }));
    assert!(zk_scribble::is_applicable(&w, &Mutation::BitFlip { target: Target::Chiplet(0), col: 1, row: 3, mask: 1 }));
}

#[test]
fn flip_selector_on_wide_column_is_not_applicable() {
    let w = sample_witness();
    assert!(!zk_scribble::is_applicable(&w, &Mutation::FlipSelector { target: Target::Main, col: 2, row: 0 }));
    assert!(zk_scribble::is_applicable(&w, &Mutation::FlipSelector { target: Target::Main, col: 0, row: 0 }));
}

#[test]
fn applicability_follows_every_part_of_a_compound() {
    let w = sample_witness();
    let good = Mutation::Compound(vec![
        Mutation::SwapColumns { target: Target::Main, cols: vec![0, 2], row_a: 0, row_b: 3 },
        Mutation::RowSegmentZero { target: Target::Main, rows: vec![], cols: vec![99] },
    ]);
    assert!(zk_scribble::is_applicable(&w, &good));
    let bad = Mutation::Compound(vec![
        Mutation::DuplicateRow { target: Target::Main, src_row: 0, dst_row: 1 },
        Mutation::CopyColumns { target: Target::Chiplet(0), cols: vec![0, 2], src_row: 0, dst_row: 1 },
    ]);
    assert!(!zk_scribble::is_applicable(&w, &bad));
    assert!(!zk_scribble::is_applicable(&w, &Mutation::SwapRows { target: Target::Main, row_a: 0, row_b: 4 }));
}

#[test]
fn resolve_selects_the_named_trace() {
    let mut w = sample_witness();
    assert_eq!(Target::Main.resolve(&w).columns.len(), 3);
    assert_eq!(Target::Chiplet(0).resolve(&w).columns[0].cells, vec![7, 8, 9, 10]);
    Target::Chiplet(0).resolve_mut(&mut w).columns[0].cells[1] = 99;
    assert_eq!(w.chiplet_traces[0].columns[0].cells, vec![7, 99, 9, 10]);
    assert_eq!(w.trace.columns[2].cells, vec![10, 20, 30, 40]);
}

fn trace_cells(t: &ColumnTrace) -> Vec<Vec<u128>> {
    t.columns.iter().map(|c| c.cells.clone()).collect()
}

#[test]
fn xor_cell_twice_restores_the_cell() {
    let mut t = sample_witness().trace;
    let before = trace_cells(&t);
    xor_cell(&mut t, 1, 2, 0x1_0000_00FF);
    assert_eq!(t.columns[1].cells[2], before[1][2] ^ 0xFF);
    assert_eq!(t.columns[0].cells, before[0]);
    assert_eq!(t.columns[2].cells, before[2]);
    xor_cell(&mut t, 1, 2, 0x1_0000_00FF);
    assert_eq!(trace_cells(&t), before);
}

#[test]
fn write_value_truncates_to_the_column() {
    let mut t = sample_witness().trace;
    let before = trace_cells(&t);
    write_value(&mut t, 1, 0, 0x1_2345);
    assert_eq!(t.columns[1].cells, vec![0x45, 2, 3, 4]);
    assert_eq!(t.columns[0].cells, before[0]);
    assert_eq!(t.columns[2].cells, before[2]);
    write_value(&mut t, 0, 1, 2);
    assert_eq!(t.columns[0].cells, vec![0, 0, 0, 1]);
}

#[test]
fn swap_cells_twice_restores_the_column() {
    let mut t = sample_witness().trace;
    let before = trace_cells(&t);
    swap_cells(&mut t, 2, 0, 3);
    assert_eq!(t.columns[2].cells, vec![40, 20, 30, 10]);
    swap_cells(&mut t, 2, 0, 3);
    assert_eq!(trace_cells(&t), before);
    swap_cells(&mut t, 2, 1, 1);
    assert_eq!(trace_cells(&t), before);
}

#[test]
fn a_cloned_mutation_applies_alike() {
    let m = Mutation::Compound(vec![
        Mutation::SwapColumns { target: Target::Main, cols: vec![0, 2], row_a: 0, row_b: 3 },
        Mutation::RowSegmentZero { target: Target::Main, rows: vec![1], cols: vec![1] },
    ]);
    let copy = m.clone();
    let mut a = sample_witness();
    let mut b = sample_witness();
    apply_mutation(&mut a, &m);
    apply_mutation(&mut b, &copy);
    assert_eq!(cells(&a), cells(&b));
    assert_eq!(trace_cells(&a.trace), vec![vec![1, 1, 0, 0], vec![1, 0, 3, 4], vec![40, 20, 30, 10]]);
    assert_eq!(format!("{m:?}"), format!("{copy:?}"));
}

#[test]
fn every_draw_from_the_plan_fits_the_config_and_applies() {
    let w = sample_witness();
    let cfg = ScribbleConfig::default()
        .mutations([
            MutationKind::BitFlip,
            MutationKind::OutOfBounds,
            MutationKind::FlipSelector,
            MutationKind::ColumnUniformWrite,
            MutationKind::MonotonicReplace,
            MutationKind::RowSegmentZero,
            MutationKind::SwapRows,
            MutationKind::DuplicateRow,
        ])
        .exclude_cols([1]);
    let plan = mutation_plan(&w, &cfg);
    let mut drawn: Vec<Mutation> = Vec::new();
    for c in &plan.bit_flip {
        let max = col_mask(c.col_type);
        for r in 0..c.allowed_rows.len() {
            drawn.push(zk_scribble::bitflip_from(c, r, 1));
            drawn.push(zk_scribble::bitflip_from(c, r, max));
        }
    }
    for c in &plan.out_of_bounds {
        drawn.push(zk_scribble::out_of_bounds_from(c, c.allowed_rows.len() - 1, u128::MAX));
    }
    for c in &plan.flip_selector {
        drawn.push(zk_scribble::flip_selector_from(c, 0));
    }
    for c in &plan.column_uniform_write {
        drawn.push(zk_scribble::column_uniform_write_from(c, col_mask(c.col_type)));
    }
    for c in &plan.monotonic_replace {
        drawn.push(zk_scribble::monotonic_replace_from(c, col_mask(c.col_type), col_mask(c.col_type)));
    }
    for s in &plan.row_segment_zero {
        let all_rows: Vec<usize> = (0..segment_pick_bound(s.allowed_rows.len())).collect();
        let all_cols: Vec<usize> = (0..segment_pick_bound(s.allowed_cols.len())).collect();
        drawn.push(row_segment_zero_from(s, &all_rows, &all_cols));
    }
    for t in &plan.swap_rows {
        drawn.push(swap_rows_from(t, 0, t.rows.len() - 1).unwrap());
    }
    for t in &plan.duplicate_row {
        drawn.push(zk_scribble::duplicate_row_from(t, t.rows.len() - 1, 0).unwrap());
    }
    assert!(drawn.len() > 20);
    for m in &drawn {
        assert!(zk_scribble::is_applicable(&w, m), "{m:?}");
        match m {
            Mutation::BitFlip { col, .. }
            | Mutation::OutOfBounds { col, .. }
            | Mutation::FlipSelector { col, .. }
            | Mutation::ColumnUniformWrite { col, .. }
            | Mutation::MonotonicReplace { col, .. } => assert_ne!(*col, 1),
            Mutation::RowSegmentZero { cols, .. } => assert!(!cols.contains(&1)),
            _ => {},
        }
        let kind = m.kind().expect("drawn mutations have a kind");
        assert!(cfg.is_kind_allowed(kind));
    }
}
