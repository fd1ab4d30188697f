use jsonxf::{minimize, minimize_bytes};

#[test]
fn minimize_object_with_whitespace() {
    assert_eq!(
        minimize(r#"{ "a": "b", "c": 0 } "#).unwrap(),
        r#"{"a":"b","c":0}"#
    );
}

#[test]
fn minimize_scalar_surrounded_by_whitespace() {
    assert_eq!(minimize("\r\n\tnull\r\n").unwrap(), "null");
}

#[test]
fn minimize_concatenated_scalars_passthrough() {
    // Top-level newline separation applies only at structural opens, so
    // concatenated scalars collapse with no separator at all.
    assert_eq!(minimize("1 2 3").unwrap(), "123");
}

#[test]
fn minimize_concatenated_structures_newline_separated() {
    assert_eq!(minimize("{} [] {\"a\":1}").unwrap(), "{}\n[]\n{\"a\":1}");
}

#[test]
fn minimize_no_trailing_newline() {
    assert_eq!(minimize("[1, 2]\n").unwrap(), "[1,2]");
}

#[test]
fn minimize_empty_input() {
    assert_eq!(minimize("").unwrap(), "");
}

#[test]
fn minimize_nested_structures() {
    assert_eq!(
        minimize("{ \"a\" : [ 1 , { \"b\" : [] } ] }").unwrap(),
        r#"{"a":[1,{"b":[]}]}"#
    );
}

#[test]
fn minimize_preserves_string_whitespace() {
    assert_eq!(
        minimize("{ \"key with\tspaces\": \" a \\n b \" }").unwrap(),
        "{\"key with\tspaces\":\" a \\n b \"}"
    );
}

#[test]
fn minimize_preserves_escaped_quote_and_backslash() {
    assert_eq!(
        minimize(r#"{ "a": "b \" c \\ d" }"#).unwrap(),
        r#"{"a":"b \" c \\ d"}"#
    );
}

#[test]
fn minimize_escaped_backslash_then_quote_closes_string() {
    // In `"x\\"`, the second backslash is escaped, so the quote closes the
    // string and the following spaces are insignificant.
    assert_eq!(minimize("[ \"x\\\\\" , 1 ]").unwrap(), "[\"x\\\\\",1]");
}

#[test]
fn minimize_unbalanced_close_passthrough() {
    assert_eq!(minimize(" } ").unwrap(), "}");
    assert_eq!(minimize("]]").unwrap(), "]]");
}

#[test]
fn minimize_unterminated_string_consumes_rest() {
    assert_eq!(minimize("\"abc d\ne").unwrap(), "\"abc d\ne");
}

#[test]
fn minimize_idempotent_scenarios() {
    for input in [
        r#"{ "a": "b", "c": 0 } "#,
        "\r\n\tnull\r\n",
        "{} [] 1 2",
        r#"{ "s": " \" \\ " }"#,
        "} ] unbalanced [",
    ] {
        let once = minimize(input).unwrap();
        let twice = minimize(&once).unwrap();
        assert_eq!(twice, once);
    }
}

#[test]
fn minimize_insensitive_to_inserted_whitespace() {
    let compact = minimize(r#"{"a":[1,2],"b":{}}"#).unwrap();
    let spaced = minimize("{ \"a\" :\t[ 1 ,\r\n 2 ] , \"b\" : { } }").unwrap();
    assert_eq!(spaced, compact);
}

#[test]
fn minimize_bytes_plain() {
    assert_eq!(
        minimize_bytes(b"{ \"a\": 1 }"),
        b"{\"a\":1}".to_vec()
    );
}

#[test]
fn minimize_bytes_non_utf8_passthrough() {
    // The byte-level transform copies non-ASCII bytes verbatim.
    assert_eq!(
        minimize_bytes(&[0xff, 0x20, 0xfe]),
        vec![0xff, 0xfe]
    );
}

#[test]
fn minimize_bytes_idempotent_on_arbitrary_bytes() {
    let inputs: Vec<Vec<u8>> = vec![
        b"{ \"a\" : 1 }".to_vec(),
        vec![0xff, 0x20, 0x7b, 0x7d, 0x20, 0x5b, 0x5d],
        b"\"open string \xff ".to_vec(),
    ];
    for input in inputs {
        let once = minimize_bytes(&input);
        let twice = minimize_bytes(&once);
        assert_eq!(twice, once);
    }
}

#[test]
fn minimize_multibyte_characters_kept() {
    assert_eq!(
        minimize("{ \"k\u{e9}y\": \"\u{1f600} value\" }").unwrap(),
        "{\"k\u{e9}y\":\"\u{1f600} value\"}"
    );
}
