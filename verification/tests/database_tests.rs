use web_crawler::common::{FilterType, LinkFilter};
use web_crawler::database::{
    decode_field, decode_named_field, decode_result, find_column_index, DbColumn, DbDecodeError,
    DbParamsEncoder, DbResult, DbRow, DbRowDecoder, DbValue, DbValueDecoder, DbValueEncoder,
    Expected, PostgresDbConfig, Single,
};

fn text(s: &str) -> DbValue {
    DbValue::Text(s.to_string())
}

fn cols(names: &[&str]) -> Vec<DbColumn> {
    names.iter().map(|n| DbColumn { name: n.to_string() }).collect()
}

#[test]
fn scalar_decoding() {
    assert_eq!(String::decode(&text("a")).unwrap(), "a");
    assert_eq!(String::decode(&DbValue::Varchar("b".to_string())).unwrap(), "b");
    assert!(matches!(
        String::decode(&DbValue::Int4(1)),
        Err(DbDecodeError::UnexpectedValue { expected: Expected::TextOrVarchar })
    ));
    assert_eq!(i64::decode(&DbValue::Int2(-3)).unwrap(), -3);
    assert_eq!(i32::decode(&DbValue::Int4(7)).unwrap(), 7);
    assert!(i32::decode(&DbValue::Int8(7)).is_err());
    assert_eq!(u64::decode(&DbValue::Int4(-1)).unwrap(), u64::MAX);
    assert_eq!(u32::decode(&DbValue::Oid(9)).unwrap(), 9);
    assert_eq!(i16::decode(&DbValue::Int2(5)).unwrap(), 5);
    assert!(bool::decode(&DbValue::Boolean(true)).unwrap());
    assert_eq!(Vec::<u8>::decode(&DbValue::Bytea(vec![1, 2])).unwrap(), vec![1, 2]);
    assert_eq!(Option::<i32>::decode(&DbValue::Null).unwrap(), None);
    assert_eq!(Option::<i32>::decode(&DbValue::Int4(3)).unwrap(), Some(3));
    assert_eq!(FilterType::decode(&text("keyword")).unwrap(), FilterType::Keyword);
    assert!(matches!(FilterType::decode(&text("nope")), Err(DbDecodeError::UnknownFilterType { .. })));
}

#[test]
fn array_decoding_stops_at_the_first_failure() {
    let ok = DbValue::Array(vec![DbValue::Int4(1), DbValue::Int2(2)]);
    assert_eq!(Vec::<i64>::decode(&ok).unwrap(), vec![1, 2]);
    let bad = DbValue::Array(vec![DbValue::Int4(1), text("x")]);
    assert!(matches!(
        Vec::<i64>::decode(&bad),
        Err(DbDecodeError::UnexpectedValue { expected: Expected::Int8Int4OrInt2 })
    ));
    assert!(matches!(Vec::<i64>::decode(&DbValue::Null), Err(DbDecodeError::UnexpectedValue { expected: Expected::Array })));
}

#[test]
fn rows_and_results() {
    let row = DbRow { values: vec![text("a.com"), DbValue::Int8(4)] };
    let (d, n) = <(String, i64)>::decode_row(&row, &[]).unwrap();
    assert_eq!(d, "a.com");
    assert_eq!(n, 4);
    assert!(matches!(
        <(String, i64, bool)>::decode_row(&row, &[]),
        Err(DbDecodeError::MissingColumn { index: 2 })
    ));
    let empty = DbRow { values: vec![] };
    assert!(matches!(Single::<String>::decode_row(&empty, &[]), Err(DbDecodeError::EmptyRow)));
    let res = DbResult {
        columns: cols(&["url"]),
        rows: vec![DbRow { values: vec![text("u1")] }, DbRow { values: vec![text("u2")] }],
    };
    let urls: Vec<Single<String>> = decode_result(&res).unwrap();
    assert_eq!(urls.len(), 2);
    assert_eq!(urls[1].0, "u2");
}

#[test]
fn named_fields() {
    let columns = cols(&["id", "pattern", "filter_type", "is_active", "created_at"]);
    assert_eq!(find_column_index(&columns, "filter_type").unwrap(), 2);
    assert!(matches!(find_column_index(&columns, "nope"), Err(DbDecodeError::ColumnNotFound { .. })));
    let row = DbRow {
        values: vec![
            DbValue::Int4(3),
            text("utm_"),
            text("keyword"),
            DbValue::Boolean(true),
            text("2024-01-01"),
        ],
    };
    let f = LinkFilter::decode_row(&row, &columns).unwrap();
    assert_eq!(f.id, 3);
    assert_eq!(f.pattern, "utm_");
    assert_eq!(f.filter_type, FilterType::Keyword);
    assert!(f.is_active);
    assert_eq!(f.created_at, "2024-01-01");
    match decode_field::<i32>(&row, 1, "pattern") {
        Err(DbDecodeError::Field { name, .. }) => assert_eq!(name, "pattern"),
        _ => panic!("decoded text as an integer"),
    }
    assert!(matches!(decode_field::<i32>(&row, 9, "x"), Err(DbDecodeError::FieldIndexOutOfBounds { index: 9 })));
    assert!(decode_named_field::<bool>(&row, &columns, "is_active").unwrap());
    let short = cols(&["id"]);
    assert!(matches!(LinkFilter::decode_row(&row, &short), Err(DbDecodeError::ColumnNotFound { .. })));
}

#[test]
fn encoding() {
    assert!(matches!("x".encode(), DbValue::Text(s) if s == "x"));
    assert!(matches!(u64::MAX.encode(), DbValue::Int8(-1)));
    assert!(matches!(u32::MAX.encode(), DbValue::Int4(-1)));
    assert!(matches!(Option::<i32>::None.encode(), DbValue::Null));
    assert!(matches!(FilterType::UrlRegex.encode(), DbValue::Text(s) if s == "url_regex"));
    let strings = vec!["a".to_string(), "b".to_string()];
    match (&strings).encode() {
        DbValue::Array(vs) => assert_eq!(vs.len(), 2),
        _ => panic!("not an array"),
    }
    let params = (&"p".to_string(), FilterType::Keyword).encode_params();
    assert_eq!(params.len(), 2);
    // What is written is read back.
    assert_eq!(u64::decode(&12345678901u64.encode()).unwrap(), 12345678901u64);
    assert_eq!(u32::decode(&4000000000u32.encode()).unwrap(), 4000000000u32);
    assert_eq!(FilterType::decode(&FilterType::Extension.encode()).unwrap(), FilterType::Extension);
}

#[test]
fn connection_url() {
    let cfg = PostgresDbConfig {
        host: "localhost".to_string(),
        db: "crawler".to_string(),
        user: "u".to_string(),
        password: "p".to_string(),
        port: "5432".to_string(),
    };
    assert_eq!(cfg.db_url(), "postgresql://u:p@localhost:5432/crawler");
}
