use chdb_rust::arg::Arg;
use chdb_rust::error::Error;
use chdb_rust::format::{InputFormat, OutputFormat};
use chdb_rust::log_level::LogLevel;
use chdb_rust::query_result::QueryResult;
use chdb_rust::session::SessionBuilder;

#[test]
fn result_reports_what_it_was_given() {
    let result = QueryResult::new(vec![0x61, 0x62], 3, 17, None);
    assert_eq!(result.data_ref(), &[0x61u8, 0x62][..]);
    assert_eq!(result.rows_read(), 3);
    assert_eq!(result.bytes_read(), 17);
    assert!(result.check_error_ref().is_ok());
    assert_eq!(result.data_utf8().unwrap(), "ab");
    assert_eq!(result.data_utf8_lossy(), "ab");
}

#[test]
fn result_text_must_be_utf8() {
    let result = QueryResult::new(vec![0x61, 0xff, 0x62], 0, 0, None);
    assert!(matches!(result.data_utf8(), Err(Error::FromUtf8Error(_))));
    assert_eq!(result.data_utf8_lossy(), "a\u{fffd}b");
    let empty = QueryResult::new(vec![], 0, 0, None);
    assert_eq!(empty.data_utf8().unwrap(), "");
    assert_eq!(empty.data_utf8_lossy(), "");
}

#[test]
fn engine_complaint_is_passed_through() {
    let result = QueryResult::new(vec![], 0, 0, Some("Code: 62. Syntax error".to_string()));
    match result.check_error_ref() {
        Err(Error::QueryError(text)) => assert_eq!(text, "Code: 62. Syntax error"),
        other => panic!("unexpected: {:?}", other),
    }
    match result.check_error() {
        Err(Error::QueryError(text)) => assert_eq!(text, "Code: 62. Syntax error"),
        other => panic!("unexpected: {:?}", other.map(|_| ())),
    }
    let fine = QueryResult::new(vec![1], 1, 1, None).check_error().unwrap();
    assert_eq!(fine.data_ref(), &[1u8][..]);
}

#[test]
fn builder_collects_settings() {
    let builder = SessionBuilder::new("/tmp/chdb".to_string());
    assert_eq!(builder.data_path(), "/tmp/chdb");
    assert!(builder.default_args().is_empty());
    assert_eq!(builder.default_output_format(), None);
    assert!(!builder.auto_cleanup());

    let builder = builder
        .with_arg(Arg::MultiQuery)
        .with_output_format(OutputFormat::RowBinary)
        .with_arg(Arg::ConfigFilePath("config.xml".to_string()))
        .with_auto_cleanup(true)
        .with_data_path("/var/chdb".to_string());
    assert_eq!(builder.data_path(), "/var/chdb");
    assert_eq!(builder.default_output_format(), Some(OutputFormat::RowBinary));
    assert!(builder.auto_cleanup());
    assert_eq!(
        builder.default_args(),
        &vec![
            Arg::MultiQuery,
            Arg::OutputFormat(OutputFormat::RowBinary),
            Arg::ConfigFilePath("config.xml".to_string()),
        ]
    );
    let builder = builder.with_auto_cleanup(false).with_output_format(OutputFormat::CSV);
    assert!(!builder.auto_cleanup());
    assert_eq!(builder.default_output_format(), Some(OutputFormat::CSV));
    assert_eq!(builder.default_args().len(), 4);
}

#[test]
fn names_are_as_the_engine_spells_them() {
    assert_eq!(OutputFormat::JSONEachRow.as_str(), "JSONEachRow");
    assert_eq!(OutputFormat::RowBinary.as_str(), "RowBinary");
    assert_eq!(OutputFormat::TabSeparated.as_str(), "TabSeparated");
    assert_eq!(OutputFormat::CSV.as_str(), "CSV");
    assert_eq!(OutputFormat::JSON.as_str(), "JSON");
    assert_eq!(OutputFormat::Native.as_str(), "Native");
    assert_eq!(OutputFormat::Parquet.as_str(), "Parquet");
    assert_eq!(OutputFormat::Pretty.as_str(), "Pretty");
    assert_eq!(InputFormat::CSV.as_str(), "CSV");
    assert_eq!(InputFormat::RowBinary.as_str(), "RowBinary");
    assert_eq!(LogLevel::Trace.as_str(), "trace");
    assert_eq!(LogLevel::Debug.as_str(), "debug");
    assert_eq!(LogLevel::Info.as_str(), "information");
    assert_eq!(LogLevel::Warn.as_str(), "warning");
    assert_eq!(LogLevel::Error.as_str(), "error");
}
