use data_lib::data_clients::PostgresSQLClient;
use data_lib::data_serialization::{Consumable, DataFormat};
use data_lib::errors::DataError;

fn strings(items: &[&str]) -> Vec<String> {
    items.iter().map(|s| s.to_string()).collect()
}

#[test]
fn postgres_parameter_parsing_does_produce_valid_ddl() {
    let column_names_and_types = vec![
        "test ".to_string(),
        " id SERIAL PRIMARY KEY".to_string(),
        " dummy_column VARCHAR NOT NULL".to_string(),
    ];

    let ddl_statement =
        PostgresSQLClient::make_table_query_string(&column_names_and_types).unwrap();
    assert_eq!(
        "CREATE TABLE test ( id SERIAL PRIMARY KEY, dummy_column VARCHAR NOT NULL )",
        ddl_statement,
        "ddl is not \
        valid"
    );
}

#[test]
fn ddl_without_columns_keeps_the_space_before_the_bracket() {
    let statement = PostgresSQLClient::make_table_query_string(&strings(&["t"]));
    assert_eq!(statement, Ok("CREATE TABLE t( )".to_string()));
}

#[test]
fn ddl_with_one_column_has_no_comma() {
    let statement = PostgresSQLClient::make_table_query_string(&strings(&["t", "a INT"]));
    assert_eq!(statement, Ok("CREATE TABLE t(a INT )".to_string()));
}

#[test]
fn ddl_joins_columns_with_a_bare_comma() {
    let statement =
        PostgresSQLClient::make_table_query_string(&strings(&["t", "a INT", "b TEXT", "c REAL"]));
    assert_eq!(statement, Ok("CREATE TABLE t(a INT,b TEXT,c REAL )".to_string()));
}

#[test]
fn ddl_equals_the_formula_for_many_columns() {
    let mut description = vec!["wide".to_string()];
    for i in 0..40 {
        description.push(format!("c{} INT", i));
    }
    let expected =
        format!("CREATE TABLE {}({} )", description[0], description[1..].join(","));
    assert_eq!(PostgresSQLClient::make_table_query_string(&description), Ok(expected));
}

#[test]
fn ddl_copies_entries_unchanged() {
    let statement =
        PostgresSQLClient::make_table_query_string(&strings(&["t; DROP", "a,b", "", "\u{e9} \"x\""]));
    assert_eq!(statement, Ok("CREATE TABLE t; DROP(a,b,,\u{e9} \"x\" )".to_string()));
}

#[test]
fn ddl_of_nothing_is_a_malformed_schema() {
    let statement = PostgresSQLClient::make_table_query_string(&Vec::new());
    assert_eq!(statement, Err(DataError::MalformedSchemaError));
}

#[test]
fn consumable_hands_back_what_it_was_given() {
    let dataset = strings(&["first", "", "third, with comma"]);
    let consumable = Consumable::new(dataset.clone());
    assert_eq!(consumable.get_data(), &dataset);
    assert_eq!(consumable.get_data().len(), 3);
}

#[test]
fn consumable_may_be_empty() {
    let consumable = Consumable::new(Vec::new());
    assert!(consumable.get_data().is_empty());
}

#[test]
fn data_format_has_the_delimited_text_tag() {
    assert_eq!(DataFormat::CSV, DataFormat::CSV);
    assert!(matches!(DataFormat::CSV, DataFormat::CSV));
}
