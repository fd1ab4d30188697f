use jsonxf::{pretty_print, pretty_print_bytes};

#[test]
fn pretty_print_nested_object() {
    assert_eq!(
        pretty_print(r#"{"a":1,"b":[1,2]}"#, "  ").unwrap(),
        "{\n  \"a\": 1,\n  \"b\": [\n    1,\n    2\n  ]\n}\n"
    );
}

#[test]
fn pretty_print_empty_object_compact() {
    assert_eq!(pretty_print("{}", "  ").unwrap(), "{}\n");
}

#[test]
fn pretty_print_empty_array_compact() {
    assert_eq!(pretty_print("[]", "  ").unwrap(), "[]\n");
}

#[test]
fn pretty_print_nested_empty_structures() {
    assert_eq!(
        pretty_print(r#"{"a":{},"b":[]}"#, "  ").unwrap(),
        "{\n  \"a\": {},\n  \"b\": []\n}\n"
    );
}

#[test]
fn pretty_print_tab_indent() {
    assert_eq!(
        pretty_print("[1,2]", "\t").unwrap(),
        "[\n\t1,\n\t2\n]\n"
    );
}

#[test]
fn pretty_print_empty_input() {
    assert_eq!(pretty_print("", "  ").unwrap(), "");
}

#[test]
fn pretty_print_scalar_passthrough() {
    assert_eq!(pretty_print(" true ", "  ").unwrap(), "true");
}

#[test]
fn pretty_print_colon_gets_one_space() {
    assert_eq!(
        pretty_print(r#"{"a":"b"}"#, "  ").unwrap(),
        "{\n  \"a\": \"b\"\n}\n"
    );
}

#[test]
fn pretty_print_preserves_string_content() {
    assert_eq!(
        pretty_print("{\"s\":\" a \\\" b \\\\ {c} \"}", "  ").unwrap(),
        "{\n  \"s\": \" a \\\" b \\\\ {c} \"\n}\n"
    );
}

#[test]
fn pretty_print_structural_bytes_inside_string_inert() {
    // Brackets, commas and colons inside a string neither indent nor
    // change depth.
    assert_eq!(
        pretty_print(r#"["{,:}[]"]"#, "  ").unwrap(),
        "[\n  \"{,:}[]\"\n]\n"
    );
}

#[test]
fn pretty_print_unbalanced_close() {
    assert_eq!(pretty_print("}", "  ").unwrap(), "\n}");
}

#[test]
fn pretty_print_top_level_values_each_terminated() {
    assert_eq!(
        pretty_print("{} []", "  ").unwrap(),
        "{}\n[]\n"
    );
}

#[test]
fn pretty_print_multibyte_characters_kept() {
    assert_eq!(
        pretty_print("{\"k\u{e9}y\":\"\u{1f600}\"}", "  ").unwrap(),
        "{\n  \"k\u{e9}y\": \"\u{1f600}\"\n}\n"
    );
}

#[test]
fn pretty_print_bytes_plain() {
    assert_eq!(
        pretty_print_bytes(b"[1]", b" "),
        b"[\n 1\n]\n".to_vec()
    );
}

#[test]
fn pretty_print_bytes_empty_indent() {
    assert_eq!(
        pretty_print_bytes(b"[1,2]", b""),
        b"[\n1,\n2\n]\n".to_vec()
    );
}

#[test]
fn pretty_print_bytes_non_whitespace_indent() {
    // The indent unit is arbitrary bytes; nothing validates it.
    assert_eq!(
        pretty_print_bytes(b"[1]", b"ab"),
        b"[\nab1\n]\n".to_vec()
    );
}
