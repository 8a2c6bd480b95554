//! Uncompacting tests. Cells are taken from the H3 library itself.

use h3db::batch::{ColumnBatch, ColumnData};
use h3db::errors::Error;
use h3db::uncompact::uncompact;
use h3ron::{H3Cell, Index};

const CELL9: u64 = 0x8928308280fffff;

fn h3_column(batch: &ColumnBatch) -> Vec<u64> {
    match batch.get("h3index").unwrap() {
        ColumnData::U64(v) => v.clone(),
        _ => panic!("h3index column must hold cells"),
    }
}

#[test]
fn test_uncompact_expands_coarse_rows() {
    // Two requested cells under one coarse parent, one under another.
    let parent8 = H3Cell::try_from(CELL9).unwrap().get_parent(8).unwrap();
    let children = parent8.get_children(9).unwrap();
    let mut it = children.iter();
    let c1 = it.next().unwrap().h3index();
    let c2 = it.next().unwrap().h3index();
    let other8 = parent8.get_children(9).unwrap().iter().last().unwrap();
    let c3 = other8.h3index();

    let requested = vec![c1, c2, c3];

    // The raw batch holds one compacted row at resolution 8 and one base
    // row at resolution 9; the coarse row covers all three requested cells.
    let mut raw = ColumnBatch::new();
    raw.push_column(
        "h3index".to_string(),
        ColumnData::U64(vec![parent8.h3index(), c3]),
    );
    raw.push_column("v".to_string(), ColumnData::U32(vec![7, 8]));

    let out = uncompact(&raw, &requested).unwrap();
    assert_eq!(h3_column(&out), vec![c1, c2, c3]);
    match out.get("v").unwrap() {
        ColumnData::U32(v) => assert_eq!(v, &vec![7, 7, 7]),
        _ => panic!("v column type changed"),
    }
}

#[test]
fn test_uncompact_drops_unrequested_rows_and_keeps_requested() {
    let parent8 = H3Cell::try_from(CELL9).unwrap().get_parent(8).unwrap();
    let children = parent8.get_children(9).unwrap();
    let all: Vec<u64> = children.iter().map(|c| c.h3index()).collect();
    let c1 = all[0];
    let c2 = all[1];
    let unrequested = all[2];

    let mut raw = ColumnBatch::new();
    raw.push_column("h3index".to_string(), ColumnData::U64(vec![c1, unrequested]));
    raw.push_column(
        "name".to_string(),
        ColumnData::Text(vec!["a".to_string(), "b".to_string()]),
    );

    let requested = vec![c1, c2];
    let out = uncompact(&raw, &requested).unwrap();
    // The requested base row passes through, the unrequested one is
    // dropped, and nothing covers the second requested cell.
    assert_eq!(h3_column(&out), vec![c1]);
    match out.get("name").unwrap() {
        ColumnData::Text(v) => assert_eq!(v, &vec!["a".to_string()]),
        _ => panic!("name column type changed"),
    }
}

#[test]
fn test_uncompact_never_duplicates_a_descendant() {
    // The cell's own row and its coarse ancestor both appear: the cell is
    // still emitted once.
    let parent8 = H3Cell::try_from(CELL9).unwrap().get_parent(8).unwrap();
    let c1 = parent8.get_children(9).unwrap().first().unwrap().h3index();

    let mut raw = ColumnBatch::new();
    raw.push_column(
        "h3index".to_string(),
        ColumnData::U64(vec![c1, parent8.h3index()]),
    );
    raw.push_column("v".to_string(), ColumnData::I64(vec![5, 6]));

    let out = uncompact(&raw, &vec![c1]).unwrap();
    assert_eq!(h3_column(&out), vec![c1]);
    match out.get("v").unwrap() {
        ColumnData::I64(v) => assert_eq!(v, &vec![5]),
        _ => panic!("v column type changed"),
    }
}

#[test]
fn test_uncompact_empty_requested() {
    let mut raw = ColumnBatch::new();
    raw.push_column("h3index".to_string(), ColumnData::U64(vec![CELL9]));
    let out = uncompact(&raw, &vec![]).unwrap();
    assert_eq!(h3_column(&out), Vec::<u64>::new());
}

#[test]
fn test_uncompact_requires_h3index_column() {
    let mut raw = ColumnBatch::new();
    raw.push_column("v".to_string(), ColumnData::U32(vec![1]));
    let err = uncompact(&raw, &vec![CELL9]).unwrap_err();
    assert!(matches!(err, Error::DatabaseError(_)));

    let mut raw = ColumnBatch::new();
    raw.push_column("h3index".to_string(), ColumnData::U32(vec![1]));
    let err = uncompact(&raw, &vec![CELL9]).unwrap_err();
    assert!(matches!(err, Error::DatabaseError(_)));
}

#[test]
fn test_batch_shape() {
    let mut batch = ColumnBatch::new();
    assert!(batch.is_empty());
    assert_eq!(batch.num_rows(), 0);
    batch.push_column("h3index".to_string(), ColumnData::U64(vec![1, 2, 3]));
    batch.push_column(
        "flag".to_string(),
        ColumnData::Bool(vec![true, false, true]),
    );
    assert!(!batch.is_empty());
    assert_eq!(batch.num_columns(), 2);
    assert_eq!(batch.num_rows(), 3);
    let types = batch.column_types();
    assert_eq!(
        types,
        vec![
            ("h3index".to_string(), "u64".to_string()),
            ("flag".to_string(), "bool".to_string())
        ]
    );
    assert_eq!(batch.get("h3index").unwrap().kind_name(), "u64");
    assert!(batch.get("missing").is_none());
}
