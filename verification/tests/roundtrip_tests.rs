use jsonxf::{minimize, pretty_print};

#[test]
fn minimize_after_pretty_print_restores_compact_form() {
    for input in [
        r#"{"a":1,"b":[1,2]}"#,
        r#"{ "a": { "b": {} }, "c": [ [], [1] ] }"#,
        "{} [] null",
        r#"{"s":" keep \" this \\ intact "}"#,
    ] {
        let compact = minimize(input).unwrap();
        for indent in ["", " ", "  ", "\t", " \t "] {
            let pretty = pretty_print(input, indent).unwrap();
            assert_eq!(minimize(&pretty).unwrap(), compact);
        }
    }
}

#[test]
fn pretty_print_insensitive_to_input_whitespace() {
    let a = pretty_print(r#"{"a":[1,2]}"#, "  ").unwrap();
    let b = pretty_print(" { \"a\" : [ 1 ,\n\t2 ] }\r\n", "  ").unwrap();
    assert_eq!(a, b);
}

#[test]
fn pretty_print_of_minimized_form_matches_pretty_print_of_original() {
    let input = r#"{ "a": [ 1, { "b": [] } ], "c": {} }"#;
    let compact = minimize(input).unwrap();
    assert_eq!(
        pretty_print(&compact, "  ").unwrap(),
        pretty_print(input, "  ").unwrap()
    );
}
