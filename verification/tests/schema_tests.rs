//! Schema declaration, the per-type text codec, and row encoding.

use kronkstore::schema::{
    CodecError, ColumnDataType, DatabaseDescriptor, GetTableDescriptor, SchemaError,
    TableDescriptor,
};

fn books() -> TableDescriptor {
    TableDescriptor::new(
        "books",
        vec![
            ("id", ColumnDataType::SerialId),
            ("author", ColumnDataType::Byte(64)),
            ("title", ColumnDataType::Byte(64)),
            ("year_published", ColumnDataType::Int32),
            ("us_based_publisher", ColumnDataType::Boolean),
        ],
    )
    .unwrap()
}

#[test]
fn sizes_follow_the_declared_widths() {
    assert_eq!(ColumnDataType::SerialId.size_in_bytes(), 8);
    assert_eq!(ColumnDataType::Byte(64).size_in_bytes(), 64);
    assert_eq!(ColumnDataType::Boolean.size_in_bytes(), 1);
    assert_eq!(ColumnDataType::Int32.size_in_bytes(), 4);
    assert_eq!(ColumnDataType::UInt32.size_in_bytes(), 4);
    assert_eq!(ColumnDataType::Int64.size_in_bytes(), 8);
    assert_eq!(ColumnDataType::UInt64.size_in_bytes(), 8);
    assert_eq!(ColumnDataType::UuidV4.size_in_bytes(), 16);
}

#[test]
fn layout_is_a_prefix_sum() {
    let t = books();
    let offsets: Vec<usize> = t.columns.iter().map(|c| c.offset).collect();
    assert_eq!(offsets, vec![0, 8, 72, 136, 140]);
    assert_eq!(t.total_size(), 141);
    assert_eq!(t.id_column().name, "id");
}

#[test]
fn serial_id_is_required_exactly_once() {
    let r = TableDescriptor::new("t", vec![("a", ColumnDataType::Int32)]);
    assert_eq!(r.unwrap_err(), SchemaError::MissingSerialId);
    let r = TableDescriptor::new(
        "t",
        vec![("a", ColumnDataType::SerialId), ("b", ColumnDataType::SerialId)],
    );
    assert_eq!(r.unwrap_err(), SchemaError::MissingSerialId);
}

#[test]
fn duplicate_column_names_are_rejected() {
    let r = TableDescriptor::new(
        "t",
        vec![("id", ColumnDataType::SerialId), ("id", ColumnDataType::Int32)],
    );
    assert_eq!(r.unwrap_err(), SchemaError::DuplicateColumn("id".to_string()));
}

#[test]
fn duplicate_table_names_are_rejected() {
    let t1 = TableDescriptor::new("same", vec![("id", ColumnDataType::SerialId)]).unwrap();
    let t2 = TableDescriptor::new("same", vec![("id", ColumnDataType::SerialId)]).unwrap();
    let r = DatabaseDescriptor::new("db", vec![t1, t2]);
    assert_eq!(r.unwrap_err(), SchemaError::DuplicateTable("same".to_string()));

    let t1 = TableDescriptor::new("same", vec![("id", ColumnDataType::SerialId)]).unwrap();
    let t2 = TableDescriptor::new("same", vec![("id", ColumnDataType::SerialId)]).unwrap();
    let mut d = DatabaseDescriptor::new("db", vec![t1]).unwrap();
    assert_eq!(
        d.add_table(t2).unwrap_err(),
        SchemaError::DuplicateTable("same".to_string())
    );
    assert!(d.table_with_name("same").is_some());
    assert!(d.table_with_name("other").is_none());
}

#[test]
fn a_table_wider_than_memory_is_rejected() {
    let r = TableDescriptor::new(
        "t",
        vec![
            ("id", ColumnDataType::SerialId),
            ("a", ColumnDataType::Byte(usize::MAX)),
            ("b", ColumnDataType::Byte(usize::MAX)),
        ],
    );
    assert_eq!(r.unwrap_err(), SchemaError::TableTooLarge);
}

#[test]
fn parse_string_encodes_each_type() {
    assert_eq!(
        ColumnDataType::Int32.parse_string("1932").unwrap(),
        vec![0x8c, 0x07, 0x00, 0x00]
    );
    assert_eq!(
        ColumnDataType::Int32.parse_string("-1").unwrap(),
        vec![0xff, 0xff, 0xff, 0xff]
    );
    assert_eq!(ColumnDataType::Boolean.parse_string("true").unwrap(), vec![1]);
    assert_eq!(ColumnDataType::Boolean.parse_string("false").unwrap(), vec![0]);
    assert_eq!(
        ColumnDataType::UInt64.parse_string("7").unwrap(),
        vec![7, 0, 0, 0, 0, 0, 0, 0]
    );
    let b = ColumnDataType::Byte(8).parse_string("hi").unwrap();
    assert_eq!(b, vec![b'h', b'i', 0, 0, 0, 0, 0, 0]);
}

#[test]
fn parse_string_rejects_bad_values() {
    assert_eq!(
        ColumnDataType::SerialId.parse_string("3").unwrap_err(),
        SchemaError::SerialIdProvided
    );
    assert_eq!(
        ColumnDataType::Boolean.parse_string("yes").unwrap_err(),
        SchemaError::UnparseableValue("yes".to_string())
    );
    assert_eq!(
        ColumnDataType::Int32.parse_string("2147483648").unwrap_err(),
        SchemaError::UnparseableValue("2147483648".to_string())
    );
    assert_eq!(
        ColumnDataType::UInt32.parse_string("-1").unwrap_err(),
        SchemaError::UnparseableValue("-1".to_string())
    );
    // the text must leave at least one trailing NUL in the window
    assert_eq!(
        ColumnDataType::Byte(3).parse_string("abc").unwrap_err(),
        SchemaError::OversizedByteValue(3, 3)
    );
    assert!(ColumnDataType::Byte(4).parse_string("abc").is_ok());
}

#[test]
fn parse_bytes_decodes_each_type() {
    assert_eq!(
        ColumnDataType::Int32.parse_bytes(&[0x8c, 0x07, 0x00, 0x00]).unwrap(),
        "1932"
    );
    assert_eq!(
        ColumnDataType::Int32.parse_bytes(&[0xff, 0xff, 0xff, 0xff]).unwrap(),
        "-1"
    );
    assert_eq!(ColumnDataType::Boolean.parse_bytes(&[1]).unwrap(), "true");
    assert_eq!(ColumnDataType::Boolean.parse_bytes(&[0]).unwrap(), "false");
    assert_eq!(
        ColumnDataType::SerialId.parse_bytes(&[2, 0, 0, 0, 0, 0, 0, 0]).unwrap(),
        "2"
    );
    assert_eq!(
        ColumnDataType::Byte(8)
            .parse_bytes(&[b'h', b'i', 0, 0, 0, 0, 0, 0])
            .unwrap(),
        "hi"
    );
}

#[test]
fn parse_bytes_rejects_bad_buffers() {
    assert_eq!(
        ColumnDataType::Int32.parse_bytes(&[1, 2]).unwrap_err(),
        CodecError::InsufficientBuffer(4, 2)
    );
    assert_eq!(
        ColumnDataType::Byte(4).parse_bytes(&[0xff, 0xfe, 1, 0]).unwrap_err(),
        CodecError::InvalidUtf8
    );
}

#[test]
fn uuid_text_round_trips_through_the_store_bytes() {
    let canonical = "550e8400-e29b-41d4-a716-446655440000";
    let bytes = ColumnDataType::UuidV4.parse_string(canonical).unwrap();
    assert_eq!(bytes.len(), 16);
    assert_eq!(bytes[0], 0x55);
    assert_eq!(ColumnDataType::UuidV4.parse_bytes(&bytes).unwrap(), canonical);
    // an uppercase spelling parses to the same bytes and renders lowercase
    let upper = "550E8400-E29B-41D4-A716-446655440000";
    let bytes2 = ColumnDataType::UuidV4.parse_string(upper).unwrap();
    assert_eq!(bytes, bytes2);
    assert_eq!(ColumnDataType::UuidV4.parse_bytes(&bytes2).unwrap(), canonical);
    assert_eq!(
        ColumnDataType::UuidV4.parse_string("not-a-uuid").unwrap_err(),
        SchemaError::UnparseableValue("not-a-uuid".to_string())
    );
}

#[test]
fn insertion_bytes_round_trip_per_column() {
    let t = books();
    let row = t
        .get_insertion_bytes(
            0,
            &[("author", "Billy Bob"), ("title", "How to Sting Like a Bee"), (
                "year_published",
                "1932",
            )],
        )
        .unwrap();
    assert_eq!(row.len(), 141);
    // each supplied column reads back as the original text
    for c in &t.columns {
        let window = &row[c.offset..c.offset + c.datatype.size_in_bytes()];
        let text = c.datatype.parse_bytes(window).unwrap();
        match c.name.as_str() {
            "id" => assert_eq!(text, "0"),
            "author" => assert_eq!(text, "Billy Bob"),
            "title" => assert_eq!(text, "How to Sting Like a Bee"),
            "year_published" => assert_eq!(text, "1932"),
            // no value supplied: zero fill decodes as false
            "us_based_publisher" => assert_eq!(text, "false"),
            _ => unreachable!(),
        }
    }
}

#[test]
fn unknown_insert_columns_are_ignored_and_bad_values_reported() {
    let t = books();
    let row = t.get_insertion_bytes(3, &[("nonesuch", "zzz")]).unwrap();
    assert_eq!(row.len(), 141);
    assert_eq!(&row[0..8], &[3, 0, 0, 0, 0, 0, 0, 0]);
    let err = t
        .get_insertion_bytes(0, &[("year_published", "soon")])
        .unwrap_err();
    assert_eq!(err, SchemaError::UnparseableValue("soon".to_string()));
}
