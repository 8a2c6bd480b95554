//! Tableset discovery tests.

use h3db::tableset::find_tablesets;

#[test]
fn test_find_tablesets() {
    let table_names: Vec<String> = [
        "aggregate_function_combinators",
        "asynchronous_metrics",
        "build_options",
        "clusters",
        "collations",
        "columns",
        "contributors",
        "something_else_06_base",
        "something_else_07_base",
        "data_type_families",
        "databases",
        "detached_parts",
        "dictionaries",
        "disks",
        "events",
        "formats",
        "functions",
        "graphite_retentions",
        "macros",
        "merge_tree_settings",
        "merges",
        "metric_log",
        "metrics",
        "models",
        "mutations",
        "numbers",
        "numbers_mt",
        "one",
        "parts",
        "parts_columns",
        "processes",
        "quota_usage",
        "quotas",
        "replicas",
        "replication_queue",
        "row_policies",
        "settings",
        "stack_trace",
        "storage_policies",
        "table_engines",
        "table_functions",
        "tables",
        "trace_log",
        "zeros",
        "zeros_mt",
        "water_00_base",
        "water_00_compacted",
        "water_01_base",
        "water_01_compacted",
        "water_02_base",
        "water_02_compacted",
        "water_03_base",
        "water_03_compacted",
        "water_04_base",
        "water_04_compacted",
        "water_05_base",
        "water_05_compacted",
        "water_06_base",
        "water_06_compacted",
        "water_07_base",
        "water_07_compacted",
        "water_08_base",
        "water_08_compacted",
        "water_09_base",
        "water_09_compacted",
        "water_10_base",
        "water_10_compacted",
        "water_11_base",
        "water_11_compacted",
        "water_12_base",
        "water_12_compacted",
        "water_13_base",
        "water_13_compacted",
    ]
    .iter()
    .map(|s| s.to_string())
    .collect();

    let tablesets = find_tablesets(&table_names);
    assert_eq!(tablesets.len(), 2);
    assert!(tablesets.contains_key("water"));
    let water_ts = tablesets.get("water").unwrap();
    assert_eq!(water_ts.basename, "water");
    for h3res in 0..=13 {
        assert!(water_ts.base_h3_resolutions.contains(h3res));
        assert!(water_ts.compacted_h3_resolutions.contains(h3res));
    }
    assert!(!water_ts.base_h3_resolutions.contains(14));
    assert!(!water_ts.compacted_h3_resolutions.contains(14));

    assert!(tablesets.contains_key("something_else"));
    let se_ts = tablesets.get("something_else").unwrap();
    assert_eq!(se_ts.basename, "something_else");
    assert_eq!(se_ts.base_h3_resolutions.len(), 2);
    assert!(se_ts.base_h3_resolutions.contains(6));
    assert!(se_ts.base_h3_resolutions.contains(7));
    assert_eq!(se_ts.compacted_h3_resolutions.len(), 0);
}

#[test]
fn test_discovery_partition_example() {
    let names: Vec<String> = [
        "water_00_base",
        "water_00_compacted",
        "water_01_base",
        "something_else_06_base",
        "something_else_07_base",
    ]
    .iter()
    .map(|s| s.to_string())
    .collect();

    let tablesets = find_tablesets(&names);
    assert_eq!(tablesets.len(), 2);

    let water = tablesets.get("water").unwrap();
    assert!(water.base_h3_resolutions.contains(0));
    assert!(water.base_h3_resolutions.contains(1));
    assert_eq!(water.base_h3_resolutions.len(), 2);
    assert!(water.compacted_h3_resolutions.contains(0));
    assert_eq!(water.compacted_h3_resolutions.len(), 1);
    assert_eq!(water.columns.len(), 0);

    let se = tablesets.get("something_else").unwrap();
    assert!(se.base_h3_resolutions.contains(6));
    assert!(se.base_h3_resolutions.contains(7));
    assert_eq!(se.base_h3_resolutions.len(), 2);
    assert_eq!(se.compacted_h3_resolutions.len(), 0);

    assert!(tablesets.get("else").is_none());
    assert!(!tablesets.contains_key("something"));
}

#[test]
fn test_discovery_skips_unparseable_names() {
    let names: Vec<String> = ["one", "two_99_base", "x_05_base"]
        .iter()
        .map(|s| s.to_string())
        .collect();
    let tablesets = find_tablesets(&names);
    assert_eq!(tablesets.len(), 0);
}

#[test]
fn test_discovery_orders_resolutions() {
    let names: Vec<String> = ["pond_07_base", "pond_03_base", "pond_05_base"]
        .iter()
        .map(|s| s.to_string())
        .collect();
    let tablesets = find_tablesets(&names);
    let pond = tablesets.get("pond").unwrap();
    let tables = pond.base_tables();
    let rezs: Vec<u8> = tables.iter().map(|t| t.table_spec.h3_resolution).collect();
    assert_eq!(rezs, vec![3, 5, 7]);
    assert_eq!(pond.num_tables(), 3);
    assert_eq!(pond.tables().len(), 3);
    assert_eq!(pond.compacted_tables().len(), 0);
    assert_eq!(tables[0].to_table_name(), "pond_03_base");
}
