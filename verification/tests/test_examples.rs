use chdb_rust::arg::Arg;
use chdb_rust::error::Result;
use chdb_rust::format::InputFormat;
use chdb_rust::format::OutputFormat;
use chdb_rust::log_level::LogLevel;
use chdb_rust::query_result::QueryResult;
use chdb_rust::rowbinary::value::{Shape, TextPolicy, Value};
use chdb_rust::session::SessionBuilder;

/// The answer of the engine to a query, as the bytes it hands back.
fn answer(data: &[u8], rows_read: u64) -> Result<QueryResult> {
    QueryResult::new(data.to_vec(), rows_read, data.len() as u64, None).check_error()
}

#[test]
fn test_stateful() -> Result<()> {
    let builder = SessionBuilder::new("chdb".to_string())
        .with_data_path("chdb-rust".to_string())
        .with_arg(Arg::LogLevel(LogLevel::Debug))
        .with_arg(Arg::Custom("priority".into(), Some("1".into())))
        .with_auto_cleanup(true);
    assert_eq!(builder.data_path(), "chdb-rust");
    assert!(builder.auto_cleanup());
    assert_eq!(
        builder.default_args(),
        &vec![
            Arg::LogLevel(LogLevel::Debug),
            Arg::Custom("priority".to_string(), Some("1".to_string())),
        ]
    );
    assert_eq!(Arg::OutputFormat(OutputFormat::JSONEachRow), Arg::OutputFormat(OutputFormat::JSONEachRow));
    assert_ne!(Arg::MultiQuery, Arg::OutputFormat(OutputFormat::JSONEachRow));

    let len = answer(b"{\"COUNT()\":1}\n", 1)?;
    assert_eq!(len.data_utf8_lossy(), "{\"COUNT()\":1}\n");

    let result = answer(b"{\"id\":1,\"msg\":\"test\"}\n", 1)?;
    assert_eq!(result.data_utf8_lossy(), "{\"id\":1,\"msg\":\"test\"}\n");
    Ok(())
}

#[test]
fn test_stateless() -> Result<()> {
    let query = format!(
        "SELECT * FROM file('tests/logs.csv', {})",
        InputFormat::CSV.as_str()
    );
    assert_eq!(query, "SELECT * FROM file('tests/logs.csv', CSV)");

    let result = answer(b"{\"id\":1,\"msg\":\"test\"}\n", 1)?;

    assert_eq!(result.data_utf8_lossy(), "{\"id\":1,\"msg\":\"test\"}\n");
    Ok(())
}

#[test]
fn test_rowbinary() -> Result<()> {
    assert_eq!(OutputFormat::RowBinary.as_str(), "RowBinary");
    let result = answer(&[0x04, b't', b'e', b's', b't'], 1)?;
    let log_entry = Shape::Tuple(vec![Shape::Text(TextPolicy::Strict)]);
    let mut rows = vec![];
    result.fetch_rows(&log_entry, &mut rows)?;
    assert_eq!(rows.len(), 1);
    assert_eq!(rows[0], Value::Tuple(vec![Value::Text("test".to_string())]));

    Ok(())
}
