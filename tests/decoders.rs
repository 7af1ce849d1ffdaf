use sqlite_query::db::{
    compare_bytes, get_page_header, get_page_size, parse_24bit_be_twos_complement,
    parse_btree_leaf_cell_content, parse_cell_pointers, parse_index_payload, Record,
};
use sqlite_query::creation_sql::Field;
use sqlite_query::decimal::decimal_of;
use sqlite_query::error::DbError;
use sqlite_query::header::{BTreePage, PageHeader};
use sqlite_query::record::{parse_record, parse_record_len};
use sqlite_query::schema::Schema;
use sqlite_query::util::{get_value_for_record, read_page};
use sqlite_query::varint::parse_varint;

#[test]
fn varint_single_byte() {
    assert_eq!(parse_varint(&[0x05, 0xff]), Some((5, 1)));
    assert_eq!(parse_varint(&[0x7f]), Some((127, 1)));
}

#[test]
fn varint_multi_byte() {
    assert_eq!(parse_varint(&[0x81, 0x00]), Some((128, 2)));
    assert_eq!(parse_varint(&[0x87, 0x68]), Some((1000, 2)));
    assert_eq!(parse_varint(&[0x82, 0x80, 0x01]), Some((32769, 3)));
}

#[test]
fn varint_nine_bytes_uses_all_bits_of_last() {
    let bytes = [0xff; 9];
    assert_eq!(parse_varint(&bytes), Some((u64::MAX, 9)));
    let mut b = [0x80u8; 9];
    b[8] = 0x01;
    assert_eq!(parse_varint(&b), Some((1, 9)));
}

#[test]
fn varint_truncated() {
    assert_eq!(parse_varint(&[]), None);
    assert_eq!(parse_varint(&[0x81, 0x82]), None);
}

#[test]
fn record_columns_and_length() {
    // header: length 4, NULL, 1-byte int, text of 3 bytes
    let bytes = [4, 0, 1, 19, 42, b'a', b'b', b'c', 99];
    let (cols, n) = parse_record_len(&bytes).unwrap();
    assert_eq!(cols, vec![vec![], vec![42], b"abc".to_vec()]);
    assert_eq!(n, 8);
    assert_eq!(parse_record(&bytes).unwrap().len(), 3);
}

#[test]
fn record_widths_of_integer_types() {
    // types 5 (6 bytes), 6 (8 bytes), 8 and 9 (no bytes)
    let mut bytes = vec![5, 5, 6, 8, 9];
    bytes.extend([1u8; 14]);
    let (cols, n) = parse_record_len(&bytes).unwrap();
    assert_eq!(cols.iter().map(|c| c.len()).collect::<Vec<_>>(), vec![6, 8, 0, 0]);
    assert_eq!(n, 19);
}

#[test]
fn record_errors() {
    assert_eq!(parse_record(&[3, 19, 0]), Err(DbError::MalformedRecord));
    assert_eq!(parse_record(&[2, 10]), Err(DbError::MalformedRecord));
    assert_eq!(parse_record(&[9, 1]), Err(DbError::MalformedRecord));
    assert_eq!(parse_record(&[]), Err(DbError::MalformedRecord));
}

#[test]
fn page_header_leaf_and_interior() {
    let leaf = [13, 0, 0, 0, 3, 0x0f, 0xa0, 0];
    let h = PageHeader::parse(&leaf).unwrap();
    assert_eq!(h.page_type, BTreePage::LeafTable);
    assert_eq!(h.number_of_cells, 3);
    assert_eq!(h.start_of_content_area, 4000);
    assert_eq!(h.right_most_pointer, None);
    assert_eq!(h.size(), 8);
    let interior = [5, 0, 0, 0, 1, 0, 0, 0, 0, 0, 1, 2];
    let h = get_page_header(&interior).unwrap();
    assert_eq!(h.page_type, BTreePage::InteriorTable);
    assert_eq!(h.right_most_pointer, Some(258));
    assert_eq!(h.size(), 12);
}

#[test]
fn page_header_errors() {
    assert_eq!(PageHeader::parse(&[7, 0, 0, 0, 0, 0, 0, 0]).unwrap_err(), DbError::InvalidPageType(7));
    assert_eq!(PageHeader::parse(&[2, 0, 0, 0, 0, 0, 0, 0]).unwrap_err(), DbError::TruncatedHeader);
    assert_eq!(PageHeader::parse(&[]).unwrap_err(), DbError::TruncatedHeader);
}

#[test]
fn cell_count_only_header() {
    let h = sqlite_query::page::get_page_header(&[13, 0, 0, 1, 2]).unwrap();
    assert_eq!(h.number_of_cells, 258);
    assert!(sqlite_query::page::get_page_header(&[13, 0, 0]).is_err());
}

#[test]
fn cell_pointers_are_big_endian() {
    assert_eq!(parse_cell_pointers(&[0x0f, 0xa0, 0x0f, 0x00, 0x01], 2), vec![4000, 3840]);
    assert_eq!(parse_cell_pointers(&[0x0f, 0xa0, 0x0f], 5), vec![4000]);
}

#[test]
fn page_size_from_file_header() {
    let mut header = vec![0u8; 100];
    header[16] = 0x10;
    assert_eq!(get_page_size(&header), Ok(4096));
    assert_eq!(get_page_size(&vec![0u8; 10]), Err(DbError::TruncatedHeader));
}

#[test]
fn small_signed_integers() {
    assert_eq!(parse_24bit_be_twos_complement(&[0x05]), 5);
    assert_eq!(parse_24bit_be_twos_complement(&[0xff]), -1);
    assert_eq!(parse_24bit_be_twos_complement(&[0x01, 0x00]), 256);
    assert_eq!(parse_24bit_be_twos_complement(&[0x80, 0x00]), -32768);
    assert_eq!(parse_24bit_be_twos_complement(&[0x01, 0x00, 0x00]), 65536);
    assert_eq!(parse_24bit_be_twos_complement(&[0xff, 0xff, 0xfe]), -2);
}

#[test]
fn leaf_cell_and_index_payload() {
    let mut page = vec![0u8; 10];
    // payload size 4, rowid 7, record [3, 1, 23 (text 5)] "hello"
    page.extend([8, 7, 3, 1, 23, 9, b'h', b'e', b'l', b'l', b'o']);
    let cols = parse_btree_leaf_cell_content(10, &page).unwrap();
    assert_eq!(cols, vec![vec![9], b"hello".to_vec()]);
    let payload = [6, 3, 17, 1, b'a', b'b', 12];
    assert_eq!(parse_index_payload(&payload).unwrap(), vec![b"ab".to_vec(), vec![12]]);
    assert_eq!(parse_index_payload(&[0x80]), Err(DbError::Truncated));
}

#[test]
fn catalog_entry_from_record() {
    let rec = vec![b"table".to_vec(), b"t".to_vec(), b"t".to_vec(), vec![2], b"CREATE TABLE t (a)".to_vec()];
    let s = Schema::parse(rec).unwrap();
    assert_eq!(s.root_page, 2);
    assert_eq!(s.kind, b"table".to_vec());
    assert!(Schema::parse_return_option(vec![b"table".to_vec()]).is_none());
    assert_eq!(Schema::parse(vec![vec![]; 5]).unwrap_err(), DbError::BadSchema);
}

#[test]
fn pages_are_counted_from_one() {
    let file: Vec<u8> = (0..30u8).collect();
    assert_eq!(read_page(&file, 10, 2).unwrap(), &file[10..20]);
    assert_eq!(read_page(&file, 10, 0), Err(DbError::PageOutOfRange));
    assert_eq!(read_page(&file, 10, 4), Err(DbError::PageOutOfRange));
}

#[test]
fn primary_key_value_is_rowid() {
    let rec = Record { row_id: 42, columns: vec![vec![], b"x".to_vec()] };
    let pk = Field { name: b"id".to_vec(), is_primary_key: true };
    let other = Field { name: b"name".to_vec(), is_primary_key: false };
    assert_eq!(get_value_for_record(&rec, 0, &pk), b"42".to_vec());
    assert_eq!(get_value_for_record(&rec, 1, &other), b"x".to_vec());
    assert_eq!(get_value_for_record(&rec, 5, &other), Vec::<u8>::new());
    let negative = Record { row_id: -7, columns: vec![] };
    assert_eq!(get_value_for_record(&negative, 0, &pk), b"-7".to_vec());
}

#[test]
fn decimal_rendering() {
    assert_eq!(decimal_of(0), b"0".to_vec());
    assert_eq!(decimal_of(1234567), b"1234567".to_vec());
    assert_eq!(decimal_of(i64::MIN), b"-9223372036854775808".to_vec());
}

#[test]
fn byte_order_comparison() {
    assert_eq!(compare_bytes(b"abc", b"abc"), 0);
    assert!(compare_bytes(b"ab", b"abc") < 0);
    assert!(compare_bytes(b"b", b"abc") > 0);
}
