//! Query planner tests. Cells are taken from the H3 library itself.

use h3db::errors::Error;
use h3db::query::TableSetQuery;
use h3db::tableset::TableSet;
use h3ron::{H3Cell, Index};

/// A well-known valid cell at resolution 9.
const CELL9: u64 = 0x8928308280fffff;

fn tableset(basename: &str, base: &[u8], compacted: &[u8]) -> TableSet {
    let mut ts = TableSet::new(basename);
    for r in base {
        ts.base_h3_resolutions.insert(*r);
    }
    for r in compacted {
        ts.compacted_h3_resolutions.insert(*r);
    }
    ts
}

#[test]
fn test_autogenerated_single_resolution_exact() {
    let mut ts = tableset("t", &[9], &[]);
    ts.columns.set("v".to_string(), "u32".to_string());
    let sql = ts
        .build_select_query(&vec![CELL9], &TableSetQuery::AutoGenerated)
        .unwrap();
    assert_eq!(
        sql,
        format!("select h3index, v from t_09_base where h3index in [{}]", CELL9)
    );
}

#[test]
fn test_autogenerated_two_resolutions() {
    // Two resolution-5 cells; the plan reads their resolution-3 ancestors
    // from the compacted table and the cells themselves from the base table.
    let cell4 = H3Cell::try_from(CELL9).unwrap().get_parent(4).unwrap();
    let children = cell4.get_children(5).unwrap();
    let mut it = children.iter();
    let c5a = it.next().unwrap();
    let c5b = it.next().unwrap();

    let mut ts = tableset("t", &[5], &[3]);
    ts.columns.set("v".to_string(), "u32".to_string());

    let cells = vec![c5a.h3index(), c5b.h3index()];
    let sql = ts
        .build_select_query(&cells, &TableSetQuery::AutoGenerated)
        .unwrap();

    // The resolution-3 ancestors, in first-occurrence order without
    // duplicates.
    let p3a = c5a.get_parent(3).unwrap().h3index();
    let p3b = c5b.get_parent(3).unwrap().h3index();
    let ancestors3 = if p3a == p3b {
        format!("[{}]", p3a)
    } else {
        format!("[{},{}]", p3a, p3b)
    };
    let expected = format!(
        "select h3index, v from t_03_compacted where h3index in {} union all select h3index, v from t_05_base where h3index in [{},{}]",
        ancestors3,
        c5a.h3index(),
        c5b.h3index()
    );
    assert_eq!(sql, expected);
}

#[test]
fn test_autogenerated_filters_h3index_columns_and_keeps_order() {
    let mut ts = tableset("t", &[9], &[]);
    ts.columns.set("b".to_string(), "u32".to_string());
    ts.columns.set("h3index_extra".to_string(), "u64".to_string());
    ts.columns.set("a".to_string(), "string".to_string());
    let sql = ts
        .build_select_query(&vec![CELL9], &TableSetQuery::AutoGenerated)
        .unwrap();
    assert_eq!(
        sql,
        format!("select h3index, b, a from t_09_base where h3index in [{}]", CELL9)
    );
}

#[test]
fn test_templated_select_substitution() {
    let ts = tableset("t", &[9], &[]);
    let query = TableSetQuery::TemplatedSelect(
        "select h3index, v from <[table]> where h3index in <[h3indexes]> and v > 1".to_string(),
    );
    let sql = ts.build_select_query(&vec![CELL9], &query).unwrap();
    assert_eq!(
        sql,
        format!(
            "select h3index, v from t_09_base where h3index in [{}] and v > 1",
            CELL9
        )
    );
}

#[test]
fn test_template_missing_placeholder() {
    let ts = tableset("t", &[9], &[]);
    let query = TableSetQuery::TemplatedSelect("select h3index from <[table]>".to_string());
    let err = ts.build_select_query(&vec![CELL9], &query).unwrap_err();
    assert_eq!(err, Error::MissingQueryPlaceholder("<[h3indexes]>".to_string()));

    let query = TableSetQuery::TemplatedSelect("select h3index in <[h3indexes]>".to_string());
    let err = ts.build_select_query(&vec![CELL9], &query).unwrap_err();
    assert_eq!(err, Error::MissingQueryPlaceholder("<[table]>".to_string()));
}

#[test]
fn test_validate() {
    assert!(TableSetQuery::AutoGenerated.validate().is_ok());
    assert!(TableSetQuery::TemplatedSelect(
        "select h3index from <[table]> where h3index in <[h3indexes]>".to_string()
    )
    .validate()
    .is_ok());
    assert_eq!(
        TableSetQuery::TemplatedSelect("select 1".to_string()).validate(),
        Err(Error::MissingQueryPlaceholder("<[table]>".to_string()))
    );
}

#[test]
fn test_empty_indexes() {
    let ts = tableset("t", &[9], &[]);
    let err = ts
        .build_select_query(&vec![], &TableSetQuery::AutoGenerated)
        .unwrap_err();
    assert_eq!(err, Error::EmptyIndexes);
}

#[test]
fn test_invalid_cell() {
    let ts = tableset("t", &[9], &[]);
    let err = ts
        .build_select_query(&vec![0u64], &TableSetQuery::AutoGenerated)
        .unwrap_err();
    assert_eq!(err, Error::InvalidCell);

    let err = ts
        .build_select_query(&vec![CELL9, 0u64], &TableSetQuery::AutoGenerated)
        .unwrap_err();
    assert_eq!(err, Error::InvalidCell);
}

#[test]
fn test_mixed_resolutions() {
    let c8 = H3Cell::try_from(CELL9).unwrap().get_parent(8).unwrap().h3index();
    let ts = tableset("t", &[8, 9], &[]);
    let err = ts
        .build_select_query(&vec![CELL9, c8], &TableSetQuery::AutoGenerated)
        .unwrap_err();
    assert_eq!(err, Error::MixedResolutions);
}

#[test]
fn test_no_queryable_tables() {
    // Every stored resolution lies above the cells' resolution.
    let c5 = H3Cell::try_from(CELL9).unwrap().get_parent(5).unwrap().h3index();
    let ts = tableset("t", &[9], &[7]);
    let err = ts
        .build_select_query(&vec![c5], &TableSetQuery::AutoGenerated)
        .unwrap_err();
    assert_eq!(err, Error::NoQueryableTables);
}

#[test]
fn test_planner_references_exactly_reachable_resolutions() {
    let c5 = H3Cell::try_from(CELL9).unwrap().get_parent(5).unwrap().h3index();
    let mut ts = tableset("t", &[2, 5], &[0, 3, 7]);
    ts.columns.set("v".to_string(), "u32".to_string());
    let sql = ts
        .build_select_query(&vec![c5], &TableSetQuery::AutoGenerated)
        .unwrap();
    let a = sql.find("t_00_compacted").expect("resolution 0 read");
    let b = sql.find("t_02_compacted").expect("resolution 2 read");
    let c = sql.find("t_03_compacted").expect("resolution 3 read");
    let d = sql.find("t_05_base").expect("resolution 5 read");
    assert!(a < b && b < c && c < d);
    assert!(!sql.contains("t_07"));
    assert!(!sql.contains("t_05_compacted"));
    assert!(!sql.contains("t_02_base"));
    assert_eq!(sql.matches(" union all ").count(), 3);
}

#[test]
fn test_planner_is_deterministic() {
    let cell4 = H3Cell::try_from(CELL9).unwrap().get_parent(4).unwrap();
    let children = cell4.get_children(5).unwrap();
    let cells: Vec<u64> = children.iter().map(|c| c.h3index()).collect();
    let mut ts = tableset("t", &[5], &[3, 4]);
    ts.columns.set("v".to_string(), "u32".to_string());
    let first = ts
        .build_select_query(&cells, &TableSetQuery::AutoGenerated)
        .unwrap();
    let second = ts
        .clone()
        .build_select_query(&cells.clone(), &TableSetQuery::AutoGenerated)
        .unwrap();
    assert_eq!(first, second);
}

#[test]
fn test_query_from_option() {
    let q = TableSetQuery::from(None);
    assert_eq!(q, TableSetQuery::AutoGenerated);
    assert_eq!(q.into_template(), None);
    let q = TableSetQuery::from(Some("select 1".to_string()));
    assert_eq!(q, TableSetQuery::TemplatedSelect("select 1".to_string()));
    assert_eq!(q.into_template(), Some("select 1".to_string()));
}
