//! Table-name codec tests.

use h3db::tables::{Table, TableSpec};

#[test]
fn test_table_to_name() {
    let table = Table {
        basename: "some_table".to_string(),
        table_spec: TableSpec {
            h3_resolution: 5,
            is_compacted: false,
            is_intermediate: false,
        },
    };

    assert_eq!(table.to_table_name(), "some_table_05_base")
}

#[test]
fn test_table_from_name() {
    let table = Table::parse("some_ta78ble_05_base");
    assert!(table.is_some());
    let table_u = table.unwrap();
    assert_eq!(table_u.basename, "some_ta78ble".to_string());
    assert_eq!(table_u.table_spec.h3_resolution, 5_u8);
    assert_eq!(table_u.table_spec.is_compacted, false);
}

#[test]
fn test_parse_compacted_name() {
    let table = Table::parse("water_05_compacted").unwrap();
    assert_eq!(table.basename, "water");
    assert_eq!(table.table_spec.h3_resolution, 5);
    assert!(table.table_spec.is_compacted);
    assert!(!table.table_spec.is_intermediate);
}

#[test]
fn test_parse_simple_base_name() {
    let table = Table::parse("water_05_base").unwrap();
    assert_eq!(table.basename, "water");
    assert_eq!(table.table_spec.h3_resolution, 5);
    assert!(!table.table_spec.is_compacted);
}

#[test]
fn test_parse_rejects_out_of_range_resolution() {
    assert!(Table::parse("x_16_base").is_none());
    assert!(Table::parse("xy_16_base").is_none());
    assert!(Table::parse("water_99_base").is_none());
}

#[test]
fn test_parse_rejects_other_kinds() {
    assert!(Table::parse("x_05_other").is_none());
    assert!(Table::parse("xy_05_other").is_none());
    assert!(Table::parse("xy_05_basee").is_none());
}

#[test]
fn test_parse_rejects_malformed_names() {
    assert!(Table::parse("water").is_none());
    assert!(Table::parse("water_5_base").is_none());
    assert!(Table::parse("_05_base").is_none());
    assert!(Table::parse("7ater_05_base").is_none());
    assert!(Table::parse("w_05_base").is_none());
    assert!(Table::parse("wa-ter_05_base").is_none());
}

#[test]
fn test_roundtrip_examples() {
    for (basename, r, compacted) in [
        ("water", 0u8, false),
        ("water", 15, true),
        ("some_table_00", 9, false),
        ("ab", 1, true),
    ] {
        let table = Table {
            basename: basename.to_string(),
            table_spec: TableSpec {
                h3_resolution: r,
                is_compacted: compacted,
                is_intermediate: false,
            },
        };
        let name = table.to_table_name();
        let parsed = Table::parse(&name).unwrap();
        assert_eq!(parsed.basename, basename);
        assert_eq!(parsed.table_spec.h3_resolution, r);
        assert_eq!(parsed.table_spec.is_compacted, compacted);
        assert_eq!(parsed.table_spec.is_intermediate, false);
    }
}
