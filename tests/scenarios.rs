use sqlite_query::db::{get_page_size, parse_schemas, DB};
use sqlite_query::error::DbError;
use sqlite_query::page::get_page_header;
use sqlite_query::select_sql::parse_sql;

const PAGE_SIZE: usize = 4096;

const COMPANIES_SQL: &str = "CREATE TABLE companies\n(\n\tid integer primary key autoincrement\n, name text, domain text, year_founded text, industry text, \"size range\" text, locality text, country text, current_employees text, total_employees text)";
const INDEX_SQL: &str = "CREATE INDEX idx_companies_country\n\ton companies (country)";

fn varint(mut v: u64) -> Vec<u8> {
    let mut groups = vec![(v & 0x7f) as u8];
    v >>= 7;
    while v > 0 {
        groups.push(((v & 0x7f) as u8) | 0x80);
        v >>= 7;
    }
    groups.reverse();
    groups
}

enum Value {
    Null,
    Int(i64),
    Text(Vec<u8>),
}

fn record(values: &[Value]) -> Vec<u8> {
    let mut types = Vec::new();
    let mut body = Vec::new();
    for v in values {
        match v {
            Value::Null => types.extend(varint(0)),
            Value::Int(i) => {
                if *i >= -128 && *i <= 127 {
                    types.extend(varint(1));
                    body.push(*i as i8 as u8);
                } else {
                    types.extend(varint(2));
                    body.extend((*i as i16).to_be_bytes());
                }
            }
            Value::Text(t) => {
                types.extend(varint(13 + 2 * t.len() as u64));
                body.extend(t);
            }
        }
    }
    let mut header_len = types.len() + 1;
    if varint(header_len as u64).len() > 1 {
        header_len += 1;
    }
    let mut out = varint(header_len as u64);
    out.extend(types);
    out.extend(body);
    out
}

fn text(s: &str) -> Value {
    Value::Text(s.as_bytes().to_vec())
}

fn table_leaf_cell(rowid: u64, values: &[Value]) -> Vec<u8> {
    let rec = record(values);
    let mut cell = varint(rec.len() as u64);
    cell.extend(varint(rowid));
    cell.extend(rec);
    cell
}

fn table_interior_cell(child: u32, key: u64) -> Vec<u8> {
    let mut cell = child.to_be_bytes().to_vec();
    cell.extend(varint(key));
    cell
}

fn index_leaf_cell(key: &str, rowid: i64) -> Vec<u8> {
    let rec = record(&[text(key), Value::Int(rowid)]);
    let mut cell = varint(rec.len() as u64);
    cell.extend(rec);
    cell
}

fn index_interior_cell(child: u32, key: &str, rowid: i64) -> Vec<u8> {
    let rec = record(&[text(key), Value::Int(rowid)]);
    let mut cell = child.to_be_bytes().to_vec();
    cell.extend(varint(rec.len() as u64));
    cell.extend(rec);
    cell
}

/// A page whose b-tree header starts at `off`, with the cells packed at its end.
fn page(off: usize, kind: u8, cells: &[Vec<u8>], right_most: Option<u32>) -> Vec<u8> {
    let mut p = vec![0u8; PAGE_SIZE];
    let header = if right_most.is_some() { 12 } else { 8 };
    let mut end = PAGE_SIZE;
    let mut pointers = Vec::new();
    for c in cells {
        end -= c.len();
        p[end..end + c.len()].copy_from_slice(c);
        pointers.push(end as u16);
    }
    p[off] = kind;
    p[off + 3..off + 5].copy_from_slice(&(cells.len() as u16).to_be_bytes());
    p[off + 5..off + 7].copy_from_slice(&(end as u16).to_be_bytes());
    if let Some(r) = right_most {
        p[off + 8..off + 12].copy_from_slice(&r.to_be_bytes());
    }
    for (i, ptr) in pointers.iter().enumerate() {
        let at = off + header + 2 * i;
        p[at..at + 2].copy_from_slice(&ptr.to_be_bytes());
    }
    p
}

fn country_of(id: i64) -> &'static str {
    match id {
        5 | 17 | 28 | 42 => "eritrea",
        _ => ["albania", "brazil", "canada", "denmark", "france"][(id % 5) as usize],
    }
}

fn industry_of(id: i64) -> &'static str {
    match id {
        3 | 30 | 54 => "mining",
        _ => "software",
    }
}

fn company_row(id: i64) -> Vec<Value> {
    vec![
        Value::Null,
        text(&format!("company {}", id)),
        text(&format!("c{}.com", id)),
        text("1999"),
        text(industry_of(id)),
        text("1 - 10"),
        text("somewhere"),
        text(country_of(id)),
        text("7"),
        text("9"),
    ]
}

/// A database of 55 companies: the table on pages 2 to 5 (an interior root
/// over three leaves), the index on `country` on pages 6 to 8.
fn sample_database(extra_catalog_entry: bool) -> Vec<u8> {
    let mut catalog = vec![
        table_leaf_cell(
            1,
            &[text("table"), text("companies"), text("companies"), Value::Int(2), text(COMPANIES_SQL)],
        ),
        table_leaf_cell(
            2,
            &[
                text("index"),
                text("idx_companies_country"),
                text("companies"),
                Value::Int(6),
                text(INDEX_SQL),
            ],
        ),
    ];
    if extra_catalog_entry {
        catalog.push(table_leaf_cell(
            3,
            &[
                text("table"),
                text("sqlite_sequence"),
                text("sqlite_sequence"),
                Value::Int(9),
                text("CREATE TABLE sqlite_sequence(name,seq)"),
            ],
        ));
    }
    let mut first = page(100, 13, &catalog, None);
    first[16..18].copy_from_slice(&(PAGE_SIZE as u16).to_be_bytes());
    first[0..16].copy_from_slice(b"SQLite format 3\0");

    let leaf = |ids: std::ops::RangeInclusive<i64>| {
        let cells: Vec<Vec<u8>> = ids.map(|id| table_leaf_cell(id as u64, &company_row(id))).collect();
        page(0, 13, &cells, None)
    };
    let root = page(0, 5, &[table_interior_cell(3, 20), table_interior_cell(4, 40)], Some(5));

    let mut entries: Vec<(String, i64)> = (1..=55).map(|id| (country_of(id).to_string(), id)).collect();
    entries.sort();
    let left: Vec<Vec<u8>> = entries[..27].iter().map(|(k, r)| index_leaf_cell(k, *r)).collect();
    let right: Vec<Vec<u8>> = entries[28..].iter().map(|(k, r)| index_leaf_cell(k, *r)).collect();
    let (mk, mr) = &entries[27];
    let index_root = page(0, 2, &[index_interior_cell(7, mk, *mr)], Some(8));

    let mut db = first;
    db.extend(root);
    db.extend(leaf(1..=20));
    db.extend(leaf(21..=40));
    db.extend(leaf(41..=55));
    db.extend(index_root);
    db.extend(page(0, 10, &left, None));
    db.extend(page(0, 10, &right, None));
    db
}

fn open(bytes: Vec<u8>) -> DB {
    let page_size = get_page_size(&bytes).unwrap();
    let header = get_page_header(&bytes[100..]).unwrap();
    let schemas = parse_schemas(&bytes, header.number_of_cells).unwrap();
    DB::new(page_size, schemas, bytes)
}

fn run(db: &DB, query: &str) -> Vec<String> {
    let q = parse_sql(query).unwrap();
    db.process_query(&q)
        .unwrap()
        .iter()
        .map(|l| String::from_utf8_lossy(l).to_string())
        .collect()
}

#[test]
fn dbinfo_reports_page_size_and_catalog_entries() {
    let db = open(sample_database(true));
    let lines: Vec<String> = db.dbinfo().iter().map(|l| String::from_utf8_lossy(l).to_string()).collect();
    assert_eq!(lines.join("\n") + "\n", "database page size: 4096\nnumber of tables: 3\n");
}

/// A file holding only a catalog, whose entries have the given table names.
fn catalog_only(table_names: &[&str]) -> Vec<u8> {
    let cells: Vec<Vec<u8>> = table_names
        .iter()
        .enumerate()
        .map(|(i, t)| {
            table_leaf_cell(
                i as u64 + 1,
                &[text("table"), text(t), text(t), Value::Int(i as i64 + 2), text("CREATE TABLE x (a)")],
            )
        })
        .collect();
    let mut first = page(100, 13, &cells, None);
    first[16..18].copy_from_slice(&(PAGE_SIZE as u16).to_be_bytes());
    first
}

#[test]
fn tables_lists_every_catalog_entry() {
    let db = open(catalog_only(&["companies", "idx_companies_country"]));
    assert_eq!(
        String::from_utf8_lossy(&db.table_names()).to_string() + "\n",
        "companies idx_companies_country\n"
    );
}

#[test]
fn tables_shows_the_table_name_column_of_index_entries() {
    let db = open(sample_database(false));
    assert_eq!(String::from_utf8_lossy(&db.table_names()), "companies companies");
}

#[test]
fn count_all_companies() {
    let db = open(sample_database(false));
    assert_eq!(run(&db, "SELECT COUNT(*) FROM companies"), vec!["55"]);
}

#[test]
fn count_is_case_insensitive_and_other_aggregates_print_nothing() {
    let db = open(sample_database(false));
    assert_eq!(run(&db, "select count(*) from companies"), vec!["55"]);
    assert!(run(&db, "SELECT max(*) FROM companies").is_empty());
}

#[test]
fn filter_on_indexed_column_uses_index() {
    let db = open(sample_database(false));
    let mut got = run(&db, "SELECT name, country FROM companies WHERE country = 'eritrea'");
    got.sort();
    let mut want: Vec<String> = (1..=55)
        .filter(|id| country_of(*id) == "eritrea")
        .map(|id| format!("company {}|eritrea", id))
        .collect();
    want.sort();
    assert_eq!(got, want);
}

#[test]
fn primary_key_column_shows_rowid() {
    let db = open(sample_database(false));
    let mut got = run(&db, "SELECT id, name FROM companies WHERE country = 'eritrea'");
    got.sort();
    let mut want: Vec<String> = vec!["17|company 17", "28|company 28", "42|company 42", "5|company 5"]
        .into_iter()
        .map(String::from)
        .collect();
    want.sort();
    assert_eq!(got, want);
}

#[test]
fn filter_on_unindexed_column_scans_in_tree_order() {
    let db = open(sample_database(false));
    assert_eq!(
        run(&db, "SELECT name FROM companies WHERE industry = 'mining'"),
        vec!["company 3", "company 30", "company 54"]
    );
}

#[test]
fn index_and_scan_agree() {
    let db = open(sample_database(false));
    let mut by_index = run(&db, "SELECT id, name FROM companies WHERE country = 'brazil'");
    let mut by_scan: Vec<String> = run(&db, "SELECT id, name, country FROM companies")
        .into_iter()
        .filter(|l| l.ends_with("|brazil"))
        .map(|l| l.trim_end_matches("|brazil").to_string())
        .collect();
    by_index.sort();
    by_scan.sort();
    assert_eq!(by_index.len(), 11);
    assert_eq!(by_index, by_scan);
}

#[test]
fn full_scan_visits_leaves_left_to_right() {
    let db = open(sample_database(false));
    let ids: Vec<String> = run(&db, "SELECT id FROM companies");
    let want: Vec<String> = (1..=55).map(|i| i.to_string()).collect();
    assert_eq!(ids, want);
}

#[test]
fn missing_value_gives_no_rows() {
    let db = open(sample_database(false));
    assert!(run(&db, "SELECT name FROM companies WHERE country = 'atlantis'").is_empty());
    assert!(run(&db, "SELECT name FROM companies WHERE industry = 'farming'").is_empty());
}

#[test]
fn unknown_table_and_column_are_errors() {
    let db = open(sample_database(false));
    let q = parse_sql("SELECT name FROM people").unwrap();
    assert_eq!(db.process_query(&q).unwrap_err(), DbError::TableNotFound);
    let q = parse_sql("SELECT nickname FROM companies").unwrap();
    assert_eq!(db.process_query(&q).unwrap_err(), DbError::UnknownColumn);
}

#[test]
fn corrupt_page_type_is_an_error() {
    let mut bytes = sample_database(false);
    bytes[PAGE_SIZE] = 7;
    let db = open(bytes);
    let q = parse_sql("SELECT name FROM companies").unwrap();
    assert_eq!(db.process_query(&q).unwrap_err(), DbError::InvalidPageType(7));
}

#[test]
fn root_page_out_of_file_is_an_error() {
    let mut bytes = sample_database(false);
    bytes.truncate(PAGE_SIZE);
    let db = open(bytes);
    let q = parse_sql("SELECT COUNT(*) FROM companies").unwrap();
    assert_eq!(db.process_query(&q).unwrap_err(), DbError::PageOutOfRange);
}

fn replace_page(bytes: &mut Vec<u8>, n: usize, new_page: Vec<u8>) {
    bytes[(n - 1) * PAGE_SIZE..n * PAGE_SIZE].copy_from_slice(&new_page);
}

#[test]
fn index_duplicates_on_both_sides_of_an_interior_key() {
    // The interior index cell holds a "canada" entry; other "canada" entries
    // sit in both leaves.
    let db = open(sample_database(false));
    let mut by_index = run(&db, "SELECT id FROM companies WHERE country = 'canada'");
    by_index.sort();
    let mut want: Vec<String> =
        (1..=55).filter(|id| country_of(*id) == "canada").map(|id| id.to_string()).collect();
    want.sort();
    assert_eq!(want.len(), 9);
    assert_eq!(by_index, want);
}

#[test]
fn cell_pointer_into_header_is_an_error() {
    let mut bytes = sample_database(false);
    // first cell pointer of page 3, a leaf
    bytes[2 * PAGE_SIZE + 8] = 0;
    bytes[2 * PAGE_SIZE + 9] = 4;
    let db = open(bytes);
    let q = parse_sql("SELECT name FROM companies").unwrap();
    assert_eq!(db.process_query(&q).unwrap_err(), DbError::CellPointerOutOfBounds);
}

#[test]
fn decreasing_interior_keys_are_an_error() {
    let mut bytes = sample_database(false);
    replace_page(&mut bytes, 2, page(0, 5, &[table_interior_cell(3, 40), table_interior_cell(4, 20)], Some(5)));
    let db = open(bytes);
    let q = parse_sql("SELECT name FROM companies").unwrap();
    assert_eq!(db.process_query(&q).unwrap_err(), DbError::UnorderedKeys);
}

#[test]
fn cyclic_tree_is_an_error() {
    let mut bytes = sample_database(false);
    replace_page(&mut bytes, 2, page(0, 5, &[table_interior_cell(3, 20)], Some(2)));
    let db = open(bytes);
    let q = parse_sql("SELECT COUNT(*) FROM companies").unwrap();
    assert_eq!(db.process_query(&q).unwrap_err(), DbError::TreeTooDeep);
}

#[test]
fn rowid_missing_from_table_is_an_error() {
    let mut bytes = sample_database(false);
    // drop the rows 41 to 55 from the last leaf; the index still names them
    replace_page(&mut bytes, 5, page(0, 13, &[], None));
    let db = open(bytes);
    let q = parse_sql("SELECT name FROM companies WHERE country = 'eritrea'").unwrap();
    assert_eq!(db.process_query(&q).unwrap_err(), DbError::RowNotFound);
}

#[test]
fn four_byte_index_rowid_is_an_error() {
    let mut bytes = sample_database(false);
    let rec = record(&[text("albania"), Value::Text(b"abcd".to_vec())]);
    let mut cell = varint(rec.len() as u64);
    cell.extend(rec);
    replace_page(&mut bytes, 7, page(0, 10, &[cell], None));
    let db = open(bytes);
    let q = parse_sql("SELECT name FROM companies WHERE country = 'albania'").unwrap();
    assert_eq!(db.process_query(&q).unwrap_err(), DbError::BadRowidWidth);
}

#[test]
fn unparsable_create_statement_is_an_error() {
    let cells = vec![table_leaf_cell(
        1,
        &[text("table"), text("v"), text("v"), Value::Int(2), text("CREATE VIEW v AS SELECT 1")],
    )];
    let mut first = page(100, 13, &cells, None);
    first[16..18].copy_from_slice(&(PAGE_SIZE as u16).to_be_bytes());
    let db = open(first);
    let q = parse_sql("SELECT a FROM v").unwrap();
    assert_eq!(db.process_query(&q).unwrap_err(), DbError::BadCreateStatement);
}
