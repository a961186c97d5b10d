use mazze_storage::storage::storage_db::kvdb_mdbx::{col_table_name, KvdbMdbxStats};
use mazze_storage::storage::storage_db::mdbx_columns::{Column, NUM_COLUMNS};
use std::collections::HashSet;

#[test]
fn ids_stable_and_dense() {
    let all = Column::all();
    assert_eq!(all.len() as u32, NUM_COLUMNS);
    for (i, col) in all.iter().enumerate() {
        assert_eq!(
            col.id(),
            i as u32,
            "column {:?} at position {} should have id {}, has {}",
            col,
            i,
            i,
            col.id()
        );
    }
    let max_id = all.iter().map(|c| c.id()).max().unwrap();
    assert_eq!(max_id + 1, NUM_COLUMNS);
}

#[test]
fn names_are_unique() {
    let all = Column::all();
    let names: HashSet<&'static str> = all.iter().map(|c| c.name()).collect();
    assert_eq!(names.len(), all.len());
}

#[test]
fn name_matches_debug_repr() {
    for col in Column::all() {
        let dbg = format!("{:?}", col);
        assert_eq!(
            dbg,
            col.name(),
            "Debug repr {:?} disagrees with name() {:?}",
            dbg,
            col.name()
        );
    }
}

#[test]
fn every_id_below_the_count_has_its_column() {
    for id in 0..NUM_COLUMNS {
        assert_eq!(Column::from_id(id).unwrap().id(), id);
    }
    assert_eq!(Column::from_id(NUM_COLUMNS), None);
    assert_eq!(Column::from_id(u32::MAX), None);
}

#[test]
fn tables_are_named_after_their_column() {
    assert_eq!(col_table_name(0), "col-0");
    assert_eq!(col_table_name(48), "col-48");
    assert_eq!(col_table_name(u32::MAX), "col-4294967295");
}

#[test]
fn a_column_that_was_never_written_takes_no_room() {
    let stats = KvdbMdbxStats::unwritten();
    assert_eq!(stats.entries, 0);
    assert_eq!(stats.leaf_pages, 0);
    assert_eq!(stats.bytes_used, 0);
    assert_eq!(stats.page_size_bytes, 0);
}
