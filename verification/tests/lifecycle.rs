//! Async result lifecycle tests.

use h3db::batch::{ColumnBatch, ColumnData};
use h3db::errors::Error;
use h3db::handle::{AsyncResultHandle, QueryPayload, ResultSet};

fn small_batch() -> ColumnBatch {
    let mut batch = ColumnBatch::new();
    batch.push_column("h3index".to_string(), ColumnData::U64(vec![1, 2]));
    batch.push_column("v".to_string(), ColumnData::U32(vec![10, 20]));
    batch
}

#[test]
fn test_handle_consumed_on_second_await() {
    let mut handle = AsyncResultHandle::new(42, 1000);
    assert_eq!(handle.consume(), Ok(42));
    assert_eq!(handle.consume(), Err(Error::HandleConsumed));
    assert_eq!(handle.consume(), Err(Error::HandleConsumed));
}

#[test]
fn test_result_set_await_cycle() {
    let handle = AsyncResultHandle::new(7, 500);
    let mut rs = ResultSet::from_handle(handle);
    assert_eq!(rs.get_empty(), None);
    assert_eq!(rs.get_query_duration_ms(), None);

    let task = rs.begin_await().unwrap();
    assert_eq!(task, Some(7));
    assert_eq!(rs.begin_await(), Err(Error::HandleConsumed));

    rs.finish_await(small_batch(), 250);
    assert_eq!(rs.get_empty(), Some(false));
    assert_eq!(rs.get_query_duration_ms(), Some(250));
    assert_eq!(rs.begin_await(), Ok(None));

    let types = rs.get_column_types().unwrap();
    assert_eq!(
        types,
        vec![
            ("h3index".to_string(), "u64".to_string()),
            ("v".to_string(), "u32".to_string())
        ]
    );

    let batch = rs.to_columnset().unwrap();
    assert_eq!(batch.num_rows(), 2);
    // Ownership transfer: the second take returns nothing.
    assert!(rs.to_columnset().is_none());
    assert_eq!(rs.get_empty(), None);
}

#[test]
fn test_result_set_from_batch_is_immediate() {
    let mut rs = ResultSet::from_batch(small_batch());
    assert_eq!(rs.get_num_h3indexes_queried(), None);
    assert_eq!(rs.get_window_index(), None);
    assert!(rs.get_h3indexes_queried().is_empty());
    assert_eq!(rs.begin_await(), Ok(None));
    assert_eq!(rs.get_empty(), Some(false));
    assert_eq!(rs.get_query_duration_ms(), None);
    assert!(rs.to_columnset().is_some());
}

#[test]
fn test_result_set_metadata() {
    let mut rs = ResultSet::from_batch(small_batch());
    rs.h3indexes_queried = Some(vec![1, 2, 3]);
    rs.window_h3index = Some(9);
    assert_eq!(rs.get_num_h3indexes_queried(), Some(3));
    assert_eq!(rs.get_h3indexes_queried(), vec![1, 2, 3]);
    assert_eq!(rs.get_window_index(), Some(9));
    assert!(matches!(rs.payload, QueryPayload::Ready(_)));
}

#[test]
fn test_empty_batch_is_empty() {
    let rs = ResultSet::from_batch(ColumnBatch::new());
    assert_eq!(rs.get_empty(), Some(true));

    let mut batch = ColumnBatch::new();
    batch.push_column("v".to_string(), ColumnData::U32(vec![]));
    let rs = ResultSet::from_batch(batch);
    assert_eq!(rs.get_empty(), Some(true));
}
