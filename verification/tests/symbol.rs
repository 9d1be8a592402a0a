use qsc_generator::symbol::{DrawCommand, Fill, Symbol};

#[test]
fn symbol_needs_one_flag_per_module() {
    assert!(Symbol::new(2, vec![true, false, false, true]).is_some());
    assert!(Symbol::new(2, vec![true, false, false]).is_none());
    assert!(Symbol::new(2, vec![true; 5]).is_none());
    assert!(Symbol::new(0, vec![]).is_some());
    assert!(Symbol::new(0, vec![true]).is_none());
    assert!(Symbol::new(1, vec![]).is_none());
    assert!(Symbol::new(usize::MAX, vec![]).is_none());
    assert!(Symbol::new(usize::MAX, vec![false; 1]).is_none());
}

#[test]
fn symbol_keeps_side_and_flags() {
    let flags = vec![true, false, false, false, true, false, true, true, false];
    let symbol = Symbol::new(3, flags.clone()).unwrap();
    assert_eq!(symbol.side(), 3);
    assert_eq!(symbol.modules(), &flags);
}

#[test]
fn module_at_reads_column_x_of_row_y() {
    let symbol = Symbol::new(3, vec![true, false, false, false, true, false, true, true, false]).unwrap();
    assert!(symbol.module_at(0, 0));
    assert!(!symbol.module_at(1, 0));
    assert!(!symbol.module_at(2, 0));
    assert!(!symbol.module_at(0, 1));
    assert!(symbol.module_at(1, 1));
    assert!(symbol.module_at(0, 2));
    assert!(symbol.module_at(1, 2));
    assert!(!symbol.module_at(2, 2));
}

#[test]
fn set_flag_is_painted_black_and_unset_white() {
    let symbol = Symbol::new(2, vec![true, false, false, true]).unwrap();
    assert_eq!(symbol.fill_at(0, 0), Fill::Black);
    assert_eq!(symbol.fill_at(1, 0), Fill::White);
    assert_eq!(symbol.fill_at(0, 1), Fill::White);
    assert_eq!(symbol.fill_at(1, 1), Fill::Black);
}

#[test]
fn blit_plan_clears_and_then_fills_row_by_row() {
    let symbol = Symbol::new(2, vec![true, false, false, true]).unwrap();
    assert_eq!(
        symbol.blit_plan(),
        vec![
            DrawCommand::Clear,
            DrawCommand::FillCell { x: 0, y: 0, fill: Fill::Black },
            DrawCommand::FillCell { x: 1, y: 0, fill: Fill::White },
            DrawCommand::FillCell { x: 0, y: 1, fill: Fill::White },
            DrawCommand::FillCell { x: 1, y: 1, fill: Fill::Black },
        ]
    );
}

#[test]
fn blit_plan_of_the_empty_symbol_only_clears() {
    let symbol = Symbol::new(0, vec![]).unwrap();
    assert_eq!(symbol.blit_plan(), vec![DrawCommand::Clear]);
}

#[test]
fn blit_plan_has_one_fill_for_each_module() {
    let flags: Vec<bool> = (0..49).map(|i| i % 3 == 0).collect();
    let symbol = Symbol::new(7, flags.clone()).unwrap();
    let plan = symbol.blit_plan();
    assert_eq!(plan.len(), 50);
    for y in 0..7 {
        for x in 0..7 {
            let fill = if flags[y * 7 + x] { Fill::Black } else { Fill::White };
            assert_eq!(plan[1 + y * 7 + x], DrawCommand::FillCell { x, y, fill });
        }
    }
}
