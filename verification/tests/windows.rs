//! Sliding-window tests.

use h3db::query::TableSetQuery;
use h3db::tableset::TableSet;
use h3db::window::{
    contains_h3index_query, decide_window, window_resolution, SlidingWindow, WindowAction,
};
use h3ron::{H3Cell, Index};

const CELL9: u64 = 0x8928308280fffff;

fn tableset(basename: &str, base: &[u8], compacted: &[u8]) -> TableSet {
    let mut ts = TableSet::new(basename);
    for r in base {
        ts.base_h3_resolutions.insert(*r);
    }
    for r in compacted {
        ts.compacted_h3_resolutions.insert(*r);
    }
    ts
}

#[test]
fn test_window_resolution_values() {
    // The coarsest resolution whose windows hold at most the given number
    // of target cells: seven children per step.
    assert_eq!(window_resolution(5, 1), 5);
    assert_eq!(window_resolution(5, 6), 5);
    assert_eq!(window_resolution(5, 7), 4);
    assert_eq!(window_resolution(5, 48), 4);
    assert_eq!(window_resolution(5, 49), 3);
    assert_eq!(window_resolution(5, 50), 3);
    assert_eq!(window_resolution(2, 1000), 0);
    assert_eq!(window_resolution(0, 100), 0);
    assert_eq!(window_resolution(15, u32::MAX), 4);
}

#[test]
fn test_window_queue_order_and_exhaustion() {
    let c9 = H3Cell::try_from(CELL9).unwrap();
    let w7 = c9.get_parent(7).unwrap().h3index();
    let mut ts = tableset("t", &[9], &[]);
    ts.columns.set("v".to_string(), "u32".to_string());

    let mut window = SlidingWindow::create_window(
        ts,
        vec![w7],
        9,
        7,
        TableSetQuery::AutoGenerated,
        None,
        4,
    )
    .unwrap();
    assert_eq!(window.next_window(), Some(w7));
    assert_eq!(window.next_window(), None);
    assert_eq!(window.next_window(), None);
}

#[test]
fn test_window_children_lie_under_the_window() {
    let c9 = H3Cell::try_from(CELL9).unwrap();
    let w7 = c9.get_parent(7).unwrap().h3index();
    let ts = tableset("t", &[9], &[]);
    let window = SlidingWindow::create_window(
        ts,
        vec![w7],
        9,
        7,
        TableSetQuery::AutoGenerated,
        None,
        1,
    )
    .unwrap();
    let children = window.window_children(w7).unwrap();
    assert_eq!(children.len(), 49);
    for child in &children {
        let cell = H3Cell::try_from(*child).unwrap();
        assert_eq!(cell.resolution(), 9);
        assert_eq!(cell.get_parent(7).unwrap().h3index(), w7);
    }
}

#[test]
fn test_window_without_data_is_skipped() {
    // The prefetch said the window cell has no rows: the window emits
    // nothing, whatever children the polygon kept.
    let ts = tableset("t", &[9], &[]);
    let action = decide_window(&ts, false, vec![CELL9], &TableSetQuery::AutoGenerated).unwrap();
    assert!(matches!(action, WindowAction::Skip));
}

#[test]
fn test_window_without_children_is_skipped() {
    let ts = tableset("t", &[9], &[]);
    let action = decide_window(&ts, true, vec![], &TableSetQuery::AutoGenerated).unwrap();
    assert!(matches!(action, WindowAction::Skip));
}

#[test]
fn test_window_with_data_emits_planned_query() {
    let mut ts = tableset("t", &[9], &[]);
    ts.columns.set("v".to_string(), "u32".to_string());
    let expected = ts
        .build_select_query(&vec![CELL9], &TableSetQuery::AutoGenerated)
        .unwrap();
    let action = decide_window(&ts, true, vec![CELL9], &TableSetQuery::AutoGenerated).unwrap();
    match action {
        WindowAction::Emit(sql, cells) => {
            assert_eq!(sql, expected);
            assert_eq!(cells, vec![CELL9]);
        }
        WindowAction::Skip => panic!("window with data must emit"),
    }
}

#[test]
fn test_contains_query_default_probe() {
    let ts = tableset("t", &[9], &[]);
    let sql = contains_h3index_query(&ts, CELL9, None).unwrap();
    assert_eq!(
        sql,
        format!(
            "select h3index from t_09_base where h3index in [{}] limit 1",
            CELL9
        )
    );
}

#[test]
fn test_contains_query_custom_template() {
    let ts = tableset("t", &[9], &[]);
    let sql = contains_h3index_query(
        &ts,
        CELL9,
        Some("select v from <[table]> where h3index in <[h3indexes]>".to_string()),
    )
    .unwrap();
    assert_eq!(
        sql,
        format!(
            "select v from t_09_base where h3index in [{}] limit 1",
            CELL9
        )
    );
}
