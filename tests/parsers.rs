use sqlite_query::creation_sql::{parse_create_index, parse_creation};
use sqlite_query::select_sql::{parse_sql, SelectClause, Sql};

fn b(s: &str) -> Vec<u8> {
    s.as_bytes().to_vec()
}

#[test]
fn creation_sql_test_simple() {
    let statement = "CREATE TABLE companies\n(\n\tid integer primary key autoincrement\n, name text, domain text, year_founded text, industry text, \"size range\" text, locality text, country text, current_employees text, total_employees text)";
    let resp = parse_creation(statement.as_bytes()).unwrap();
    assert_eq!(resp.table, b("companies"));
    let names: Vec<Vec<u8>> = resp.fields.iter().map(|f| f.name.clone()).collect();
    assert_eq!(
        names,
        vec![
            b("id"),
            b("name"),
            b("domain"),
            b("year_founded"),
            b("industry"),
            b("size range"),
            b("locality"),
            b("country"),
            b("current_employees"),
            b("total_employees"),
        ]
    );
    let keys: Vec<bool> = resp.fields.iter().map(|f| f.is_primary_key).collect();
    assert_eq!(keys, vec![true, false, false, false, false, false, false, false, false, false]);
}

#[test]
fn test_parse_create_index() {
    let statement = "CREATE INDEX idx_companies_country\n\ton companies (country)";
    let resp = parse_create_index(statement.as_bytes()).unwrap();
    assert_eq!(resp.index_name, b("idx_companies_country"));
    assert_eq!(resp.table_name, b("companies"));
    assert_eq!(resp.column_name, b("country"));
}

#[test]
fn create_statements_accept_optional_words() {
    let idx = parse_create_index(b"create unique index i on t(c)").unwrap();
    assert_eq!(idx.column_name, b("c"));
    let t = parse_creation(b"CREATE TABLE IF NOT EXISTS t (a INTEGER PRIMARY KEY, b TEXT NOT NULL);").unwrap();
    assert_eq!(t.table, b("t"));
    assert_eq!(t.fields.len(), 2);
    assert!(t.fields[0].is_primary_key);
    assert!(!t.fields[1].is_primary_key);
}

#[test]
fn create_statements_reject_other_text() {
    assert!(parse_create_index(b"CREATE TABLE t (a)").is_none());
    assert!(parse_create_index(b"CREATE INDEX i ON t c").is_none());
    assert!(parse_creation(b"CREATE INDEX i ON t (c)").is_none());
    assert!(parse_creation(b"CREATE TABLE t ()").is_none());
    assert!(parse_creation(b"CREATE TABLE \"\" (a)").is_none());
}

#[test]
fn select_sql_test_simple() {
    let cases: Vec<(&str, Sql)> = vec![
        (
            "SELECT one FROM apples",
            Sql { select_clause: SelectClause::Columns(vec![b("one")]), table: b("apples"), where_clause: None },
        ),
        (
            "SELECT one FROM apples WHERE key = 'value'",
            Sql {
                select_clause: SelectClause::Columns(vec![b("one")]),
                table: b("apples"),
                where_clause: Some((b("key"), b("value"))),
            },
        ),
        (
            "SELECT one(*) FROM apples",
            Sql { select_clause: SelectClause::FunctionCall(b("one")), table: b("apples"), where_clause: None },
        ),
        (
            "SELECT one, two FROM apples",
            Sql {
                select_clause: SelectClause::Columns(vec![b("one"), b("two")]),
                table: b("apples"),
                where_clause: None,
            },
        ),
        (
            "select one, two fRoM apples",
            Sql {
                select_clause: SelectClause::Columns(vec![b("one"), b("two")]),
                table: b("apples"),
                where_clause: None,
            },
        ),
    ];
    for (text, want) in cases {
        println!("\n\nrunning tests for [{}]", text);
        assert_eq!(parse_sql(text).unwrap(), want);
    }
}

#[test]
fn select_rejects_unsupported_forms() {
    assert!(parse_sql("SELECT a FROM t ORDER BY a").is_none());
    assert!(parse_sql("SELECT a FROM t WHERE a > 'x'").is_none());
    assert!(parse_sql("SELECT a FROM t WHERE a = \"x\"").is_none());
    assert!(parse_sql("SELECT a FROM t, u").is_none());
    assert!(parse_sql("DELETE FROM t").is_none());
}

#[test]
fn where_literal_keeps_spaces_and_case() {
    let q = parse_sql("SELECT a FROM t WHERE b = 'New York'").unwrap();
    assert_eq!(q.where_clause, Some((b("b"), b("New York"))));
}
