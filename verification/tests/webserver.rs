use things::arg_types::{normalize_args, IdentifierToken};

#[test]
fn normalize_args_defaults_to_today() {
    assert_eq!(normalize_args(None), vec!["today"]);
    assert_eq!(
        normalize_args(Some(vec!["".to_string(), " ".to_string()])),
        vec!["today"]
    );
}

#[test]
fn normalize_args_trims_entries() {
    assert_eq!(
        normalize_args(Some(vec![" today ".to_string(), "  ".to_string()])),
        vec!["today"]
    );
}

#[test]
fn normalize_args_keeps_the_order_of_what_is_left() {
    assert_eq!(
        normalize_args(Some(vec![" show".to_string(), "".to_string(), "ABC\n".to_string()])),
        vec!["show", "ABC"]
    );
}

#[test]
fn an_identifier_is_trimmed_and_never_empty() {
    let token: IdentifierToken = "  ABCD ".parse().unwrap();
    assert_eq!(token.as_str(), "ABCD");
    assert_eq!("   ".parse::<IdentifierToken>().err(), Some("The value is empty".to_string()));
}
