use cassandra::errors::{MyError, ProtocolError, Unsupported};
use cassandra::frame::{FromWire, Opcode};
use cassandra::results::{NonRowResult, QueryResult, ResultKind};
use cassandra::types::CQLType;

fn push_string(out: &mut Vec<u8>, s: &str) {
    out.extend_from_slice(&(s.len() as u16).to_be_bytes());
    out.extend_from_slice(s.as_bytes());
}

fn frame(body: &[u8]) -> Vec<u8> {
    let mut out = vec![0x83, 0x00, 0x00, 0x00, 0x08];
    out.extend_from_slice(&(body.len() as u32).to_be_bytes());
    out.extend_from_slice(body);
    out
}

/// A rows body with a global table spec, columns "id" (int) and "name" (varchar), and
/// the given cells, each a length prefix and its bytes.
fn two_column_body(rows: &[[Option<&[u8]>; 2]]) -> Vec<u8> {
    let mut body = vec![0, 0, 0, 2, 0, 0, 0, 1, 0, 0, 0, 2];
    push_string(&mut body, "ks");
    push_string(&mut body, "people");
    push_string(&mut body, "id");
    body.extend_from_slice(&[0x00, 0x09]);
    push_string(&mut body, "name");
    body.extend_from_slice(&[0x00, 0x0D]);
    body.extend_from_slice(&(rows.len() as i32).to_be_bytes());
    for row in rows {
        for cell in row {
            match cell {
                None => body.extend_from_slice(&(-1i32).to_be_bytes()),
                Some(b) => {
                    body.extend_from_slice(&(b.len() as i32).to_be_bytes());
                    body.extend_from_slice(b);
                }
            }
        }
    }
    body
}

#[test]
fn global_table_spec_is_shared_by_every_column() {
    let body = two_column_body(&[]);
    let result = QueryResult::decode(&frame(&body)).unwrap();
    let spec = result.table_spec.clone().unwrap();
    assert_eq!(spec.keyspace, "ks");
    assert_eq!(spec.table, "people");
    assert_eq!(result.columns.len(), 2);
    assert_eq!(result.columns[0].table_spec, spec);
    assert_eq!(result.columns[1].table_spec, spec);
    assert_eq!(result.columns[0].name, "id");
    assert_eq!(result.columns[0].datatype, CQLType::Int);
    assert_eq!(result.columns[1].name, "name");
    assert_eq!(result.columns[1].datatype, CQLType::Varchar);
    assert_eq!(result.rows.len(), 0);
}

#[test]
fn per_column_table_specs_are_read_for_each_column() {
    let mut body = vec![0, 0, 0, 2, 0, 0, 0, 0, 0, 0, 0, 2];
    push_string(&mut body, "k1");
    push_string(&mut body, "t1");
    push_string(&mut body, "a");
    body.extend_from_slice(&[0x00, 0x04]);
    push_string(&mut body, "k2");
    push_string(&mut body, "t2");
    push_string(&mut body, "b");
    body.extend_from_slice(&[0x00, 0x20, 0x00, 0x0D]);
    body.extend_from_slice(&[0, 0, 0, 0]);
    let result = QueryResult::decode(&frame(&body)).unwrap();
    assert!(result.table_spec.is_none());
    assert_eq!(result.columns[0].table_spec.keyspace, "k1");
    assert_eq!(result.columns[1].table_spec.table, "t2");
    assert_eq!(result.columns[1].datatype, CQLType::ListOf(Box::new(CQLType::Varchar)));
}

#[test]
fn null_is_distinct_from_an_empty_value() {
    let empty: &[u8] = &[];
    let body = two_column_body(&[[None, Some(empty)]]);
    let result = QueryResult::decode(&frame(&body)).unwrap();
    let row = &result.rows[0];
    assert_eq!(row.columns[0], ("id".to_string(), None));
    assert_eq!(row.columns[1], ("name".to_string(), Some(vec![])));
}

#[test]
fn rows_are_read_in_column_order_and_converted() {
    let id: &[u8] = &[0, 0, 0, 42];
    let name: &[u8] = b"John";
    let body = two_column_body(&[[Some(id), Some(name)], [None, None]]);
    let result = QueryResult::decode(&frame(&body)).unwrap();
    assert_eq!(result.header.opcode, Opcode::Result);
    assert_eq!(result.kind, ResultKind::Rows);
    assert_eq!(result.rows.len(), 2);
    let first = &result.rows[0];
    assert_eq!(first.get::<i32>("id").unwrap(), Some(42));
    assert_eq!(first.get::<String>("name").unwrap(), Some("John".to_string()));
    let second = &result.rows[1];
    assert_eq!(second.get::<i32>("id").unwrap(), None);
    assert!(matches!(first.get::<i32>("nope"), Err(MyError::UnknownColumn)));
    assert!(matches!(first.get::<bool>("name"), Err(MyError::Protocol(ProtocolError::Malformed))));
}

#[test]
fn empty_rows_result_is_not_an_error() {
    let body = vec![0, 0, 0, 2, 0, 0, 0, 0, 0, 0, 0, 0, 0, 0, 0, 0];
    let result = QueryResult::decode(&frame(&body)).unwrap();
    assert_eq!(result.columns.len(), 0);
    assert_eq!(result.rows.len(), 0);
    assert!(!result.has_more_pages());
}

#[test]
fn void_result_on_the_non_row_path() {
    let result = NonRowResult::decode(&frame(&[0, 0, 0, 1])).unwrap();
    assert_eq!(result.kind, ResultKind::Void);
    assert_eq!(result.header.length, 4);
}

#[test]
fn schema_change_result_on_the_non_row_path_ignores_its_details() {
    let mut body = vec![0, 0, 0, 5];
    push_string(&mut body, "CREATED");
    let result = NonRowResult::decode(&frame(&body)).unwrap();
    assert_eq!(result.kind, ResultKind::SchemaChange);
}

#[test]
fn non_row_path_refuses_other_kinds() {
    assert!(matches!(
        NonRowResult::decode(&frame(&[0, 0, 0, 2])),
        Err(MyError::Unsupported(Unsupported::ResultKind(2)))
    ));
    assert!(matches!(
        NonRowResult::decode(&frame(&[0, 0, 0, 9])),
        Err(MyError::Protocol(ProtocolError::UnknownResultKind(9)))
    ));
}

#[test]
fn rows_path_refuses_other_kinds() {
    assert!(matches!(
        QueryResult::decode(&frame(&[0, 0, 0, 1])),
        Err(MyError::Unsupported(Unsupported::ResultKind(1)))
    ));
}

#[test]
fn no_metadata_is_unsupported() {
    let body = vec![0, 0, 0, 2, 0, 0, 0, 4, 0, 0, 0, 0, 0, 0, 0, 0];
    assert!(matches!(QueryResult::decode(&frame(&body)), Err(MyError::Unsupported(Unsupported::NoMetadata))));
}

#[test]
fn has_more_pages_is_reported() {
    let body = vec![0, 0, 0, 2, 0, 0, 0, 2, 0, 0, 0, 0, 0, 0, 0, 0];
    let result = QueryResult::decode(&frame(&body)).unwrap();
    assert!(result.has_more_pages());
}

#[test]
fn negative_counts_and_trailing_bytes_are_rejected() {
    let negative = vec![0, 0, 0, 2, 0, 0, 0, 0, 0xFF, 0xFF, 0xFF, 0xFF];
    assert!(matches!(
        QueryResult::decode(&frame(&negative)),
        Err(MyError::Protocol(ProtocolError::NegativeCount(-1)))
    ));
    let trailing = vec![0, 0, 0, 2, 0, 0, 0, 0, 0, 0, 0, 0, 0, 0, 0, 0, 0x99];
    assert!(matches!(
        QueryResult::decode(&frame(&trailing)),
        Err(MyError::Protocol(ProtocolError::TrailingBytes))
    ));
}

#[test]
fn value_past_the_body_is_truncated() {
    let mut body = two_column_body(&[]);
    let n = body.len();
    body[n - 1] = 1;
    body.extend_from_slice(&[0, 0, 0, 9, 1, 2]);
    assert!(matches!(QueryResult::decode(&frame(&body)), Err(MyError::Protocol(ProtocolError::Truncated))));
}

#[test]
fn body_shorter_than_announced_is_an_io_error() {
    let mut f = frame(&[0, 0, 0, 1]);
    f.pop();
    assert!(matches!(NonRowResult::decode(&f), Err(MyError::IO(_))));
    assert!(matches!(QueryResult::decode(&f), Err(MyError::IO(_))));
}
