//! The file-backed store: header layout and persistence of the id counter
//! across a reopen of the table file image.

use kronkstore::db::{Database, StoreBackend};
use kronkstore::query::SelectQuery;
use kronkstore::schema::{ColumnDataType, TableDescriptor};
use kronkstore::store::{ByteStore, FileByteStore, StorageError};

fn one_column() -> TableDescriptor {
    TableDescriptor::new("counters", vec![("id", ColumnDataType::SerialId)]).unwrap()
}

#[test]
fn a_fresh_image_is_a_zeroed_header() {
    let t = one_column();
    let s = FileByteStore::new(&t);
    assert_eq!(s.as_bytes(), &[0u8; 64]);
}

#[test]
fn id_counter_survives_a_reopen() {
    let t = one_column();
    let row_size = t.total_size();
    let mut store = FileByteStore::new(&t);
    store.insert(&t, &[]).unwrap();
    // persist the image and reopen it, as the surrounding program would
    let image: Vec<u8> = store.as_bytes().to_vec();
    drop(store);
    let mut reopened = FileByteStore::open("counters", image).unwrap();
    assert_eq!(reopened.id_counter, 1);
    reopened.insert(&t, &[]).unwrap();
    // two rows with ids 0 then 1
    let rows = reopened.get_reader();
    assert_eq!(rows.len(), 2 * row_size);
    assert_eq!(&rows[0..8], &[0, 0, 0, 0, 0, 0, 0, 0]);
    assert_eq!(&rows[8..16], &[1, 0, 0, 0, 0, 0, 0, 0]);
    // file size and header: 64 + 2 rows, bytes 0..8 encode 2 little-endian
    let image = reopened.as_bytes();
    assert_eq!(image.len(), 64 + 2 * row_size);
    assert_eq!(&image[0..8], &[2, 0, 0, 0, 0, 0, 0, 0]);
}

#[test]
fn a_truncated_image_is_rejected() {
    let r = FileByteStore::open("counters", vec![0u8; 63]);
    assert_eq!(r.unwrap_err(), StorageError::CorruptStore);
}

#[test]
fn a_database_can_adopt_a_file_image() {
    let t = one_column();
    let mut store = FileByteStore::new(&t);
    store.insert(&t, &[]).unwrap();
    store.insert(&t, &[]).unwrap();
    store.insert(&t, &[]).unwrap();
    let mut db = Database::new("db");
    db.add_table_with_store(one_column(), StoreBackend::File(store)).unwrap();
    let q = SelectQuery::parse_query_string("select id from counters", &db).unwrap();
    let res = db.query(&q).unwrap();
    assert_eq!(res.len(), 3);
    assert_eq!(res[2].1, vec![("id".to_string(), "2".to_string())]);
}

#[test]
fn a_trailing_row_fragment_is_a_corrupt_store() {
    let mut image = vec![0u8; 64];
    image.extend_from_slice(&[1, 2, 3]);
    let store = FileByteStore::open("counters", image).unwrap();
    let mut db = Database::new("db");
    db.add_table_with_store(one_column(), StoreBackend::File(store)).unwrap();
    let q = SelectQuery::parse_query_string("select id from counters", &db).unwrap();
    assert_eq!(db.query(&q).unwrap_err(), StorageError::CorruptStore);
}
