use drum_remap::{join_maps, load_file_to_map, make_conversion_map, ConversionTable, RemapError};

fn table_pairs(table: &ConversionTable) -> Vec<(u8, u8)> {
    (0u8..=255).filter_map(|key| table.get(key).map(|to| (key, to))).collect()
}

#[test]
fn shared_names_map_source_number_to_destination_number() {
    let table = make_conversion_map("36 Kick\n38 Snare\n", "40 Kick\n41 Snare\n").unwrap();
    assert_eq!(table_pairs(&table), vec![(36, 40), (38, 41)]);
    assert_eq!(table.len(), 2);
}

#[test]
fn source_only_names_map_to_themselves() {
    let table = make_conversion_map("36 Kick\n50 Cowbell\n", "40 Kick\n").unwrap();
    assert_eq!(table.get(50), Some(50));
    assert_eq!(table_pairs(&table), vec![(36, 40), (50, 50)]);
}

#[test]
fn destination_only_names_add_no_key() {
    let table = make_conversion_map("36 Kick\n", "40 Kick\n41 Snare\n42 Hat\n").unwrap();
    assert_eq!(table.get(41), None);
    assert_eq!(table.get(42), None);
    assert_eq!(table.get(40), None);
    assert_eq!(table_pairs(&table), vec![(36, 40)]);
}

#[test]
fn empty_maps_join_to_empty_table() {
    assert_eq!(table_pairs(&make_conversion_map("", "").unwrap()), vec![]);
    assert_eq!(table_pairs(&make_conversion_map("", "40 Kick").unwrap()), vec![]);
    assert_eq!(table_pairs(&make_conversion_map("36 Kick", "").unwrap()), vec![(36, 36)]);
}

#[test]
fn later_source_entry_decides_a_shared_number() {
    // two source names on one number: the later entry decides
    let table = make_conversion_map("36 Kick\n36 Thud\n", "40 Kick\n").unwrap();
    assert_eq!(table_pairs(&table), vec![(36, 36)]);
    let table = make_conversion_map("36 Thud\n36 Kick\n", "40 Kick\n").unwrap();
    assert_eq!(table_pairs(&table), vec![(36, 40)]);
    // a name entered again keeps its first place
    let table = make_conversion_map("35 Kick\n36 Thud\n36 Kick\n", "40 Kick\n").unwrap();
    assert_eq!(table_pairs(&table), vec![(36, 36)]);
}

#[test]
fn destination_number_may_be_a_source_number() {
    let table = make_conversion_map("36 Kick\n38 Snare\n", "38 Kick\n36 Snare\n").unwrap();
    assert_eq!(table_pairs(&table), vec![(36, 38), (38, 36)]);
}

#[test]
fn bad_line_in_either_map_fails() {
    assert_eq!(
        make_conversion_map("36 Kick\n200 Overload\n", "40 Kick\n").err(),
        Some(RemapError::MapParse { line: 2 })
    );
    assert_eq!(
        make_conversion_map("36 Kick\n", "\n\n128 Kick\n").err(),
        Some(RemapError::MapParse { line: 3 })
    );
    assert_eq!(
        make_conversion_map("999 a\n", "\n\n128 Kick\n").err(),
        Some(RemapError::MapParse { line: 1 })
    );
}

#[test]
fn join_maps_of_loaded_maps() {
    let source = load_file_to_map("36 Kick\n38 Snare\n42 Hat\n").unwrap();
    let destination = load_file_to_map("1 Hat\n2 Kick\n3 Ride\n").unwrap();
    let table = join_maps(&source, &destination);
    assert_eq!(table_pairs(&table), vec![(36, 2), (38, 38), (42, 1)]);
}

#[test]
fn table_insert_and_get() {
    let mut table = ConversionTable::new();
    assert_eq!(table.len(), 0);
    assert_eq!(table.get(36), None);
    assert!(table.insert(36, 40));
    assert!(table.insert(0, 127));
    assert!(!table.insert(128, 1));
    assert!(!table.insert(1, 128));
    assert_eq!(table_pairs(&table), vec![(0, 127), (36, 40)]);
    assert!(table.insert(36, 41));
    assert_eq!(table.get(36), Some(41));
    assert_eq!(table.len(), 2);
}
