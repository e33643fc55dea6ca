use data_lib::errors::DataError;

#[test]
fn a_decode_error_says_where() {
    let error = DataError::DecodeError { row: 2, column: 0 };
    assert_eq!(error.message(), "no textual form for the value at row 2, column 0");
    let far = DataError::DecodeError { row: 1203, column: 45 };
    assert_eq!(far.message(), "no textual form for the value at row 1203, column 45");
}

#[test]
fn a_malformed_schema_says_what_is_missing() {
    assert_eq!(
        DataError::MalformedSchemaError.message(),
        "the schema description has no table name"
    );
}

#[test]
fn backend_failures_are_told_apart() {
    assert_eq!(DataError::ConnectionError.message(), "the backend could not be reached");
    assert_eq!(DataError::QueryError.message(), "the backend failed the read");
    assert_eq!(DataError::ExecutionError.message(), "the backend failed the statement");
    assert_ne!(DataError::QueryError, DataError::ExecutionError);
    assert_ne!(
        DataError::DecodeError { row: 0, column: 1 },
        DataError::DecodeError { row: 1, column: 0 }
    );
}
