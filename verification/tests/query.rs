use rustywebserver::query::{
    build_environment, combine_query_and_post_data, read_pair, write_query_variables,
};
use rustywebserver::table::{Entry, Table};

fn entry(key: &str, value: &str) -> Entry {
    Entry { key: key.as_bytes().to_vec(), value: value.as_bytes().to_vec() }
}

#[test]
fn query_and_post_data_are_joined_by_an_ampersand() {
    assert_eq!(combine_query_and_post_data(Some(b"a=1"), Some(b"b=2")), b"a=1&b=2".to_vec());
}

#[test]
fn one_part_alone_is_left_as_it_is() {
    assert_eq!(combine_query_and_post_data(None, Some(b"b=2")), b"b=2".to_vec());
    assert_eq!(combine_query_and_post_data(Some(b"a=1"), None), b"a=1".to_vec());
    assert_eq!(combine_query_and_post_data(None, None), Vec::<u8>::new());
    assert_eq!(combine_query_and_post_data(Some(b""), Some(b"b=2")), b"b=2".to_vec());
    assert_eq!(combine_query_and_post_data(Some(b"a=1"), Some(b"")), b"a=1&".to_vec());
}

#[test]
fn parameter_is_split_at_its_first_equals_sign() {
    assert_eq!(read_pair(b"a=b=c"), Some((b"a".to_vec(), b"b=c".to_vec())));
    assert_eq!(read_pair(b"k="), Some((b"k".to_vec(), Vec::new())));
    assert_eq!(read_pair(b"=v"), Some((Vec::new(), b"v".to_vec())));
    assert_eq!(read_pair(b"novalue"), None);
    assert_eq!(read_pair(b""), None);
}

#[test]
fn parameters_without_a_value_set_no_variable() {
    let mut env = Table::new();
    write_query_variables(&mut env, b"x&a=1&&b=2&");
    assert_eq!(env.entries, vec![entry("Query_a", "1"), entry("Query_b", "2")]);
    let mut env = Table::new();
    write_query_variables(&mut env, b"");
    assert_eq!(env.entries, Vec::<Entry>::new());
}

#[test]
fn posted_pairs_become_query_variables() {
    let env = build_environment(&Table::new(), b"POST", b"/scripts/run", None, Some(b"a=1&b=2"));
    assert_eq!(env.get(b"Query_a"), Some(&b"1".to_vec()));
    assert_eq!(env.get(b"Query_b"), Some(&b"2".to_vec()));
    assert_eq!(env.get(b"Method"), Some(&b"POST".to_vec()));
    assert_eq!(env.get(b"Path"), Some(&b"/scripts/run".to_vec()));
    assert_eq!(env.get(b"a"), None);
}

#[test]
fn environment_is_written_in_order() {
    let mut headers = Table::new();
    headers.insert(b"Host".to_vec(), b"h".to_vec());
    headers.insert(b"Accept".to_vec(), b"*/*".to_vec());
    let env = build_environment(&headers, b"POST", b"/scripts/run", Some(b"a=0&c=3"), Some(b"a=1&b=2"));
    assert_eq!(
        env.entries,
        vec![
            entry("Host", "h"),
            entry("Accept", "*/*"),
            entry("Method", "POST"),
            entry("Path", "/scripts/run"),
            entry("Query_a", "0"),
            entry("Query_c", "3"),
            entry("Query_a", "1"),
            entry("Query_b", "2"),
        ]
    );
}

#[test]
fn body_parameter_replaces_query_parameter_of_the_same_name() {
    let env = build_environment(&Table::new(), b"POST", b"/s", Some(b"a=0&c=3"), Some(b"a=1"));
    assert_eq!(env.get(b"Query_a"), Some(&b"1".to_vec()));
    assert_eq!(env.get(b"Query_c"), Some(&b"3".to_vec()));
}

#[test]
fn header_named_like_a_reserved_variable_is_replaced() {
    let mut headers = Table::new();
    headers.insert(b"Method".to_vec(), b"spoofed".to_vec());
    let env = build_environment(&headers, b"GET", b"/s", None, None);
    assert_eq!(env.get(b"Method"), Some(&b"GET".to_vec()));
    assert_eq!(env.len(), 3);
}

#[test]
fn table_keeps_the_last_value_written() {
    let mut table = Table::new();
    assert_eq!(table.len(), 0);
    assert_eq!(table.get(b"k"), None);
    table.insert(b"k".to_vec(), b"1".to_vec());
    table.insert(b"j".to_vec(), b"2".to_vec());
    table.insert(b"k".to_vec(), b"3".to_vec());
    assert_eq!(table.len(), 3);
    assert_eq!(table.get(b"k"), Some(&b"3".to_vec()));
    assert_eq!(table.get(b"j"), Some(&b"2".to_vec()));
    assert_eq!(table.get(b""), None);
}
