use mj_tui::screens::history_panel::DiffView;

#[test]
fn side_by_side_from_one_hundred_columns() {
    assert!(DiffView::use_side_by_side(100));
    assert!(!DiffView::use_side_by_side(99));
}
