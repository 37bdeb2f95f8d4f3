use things::auth::validate_auth;
use things::client::HttpStatus;

#[test]
fn an_error_body_stays_on_one_line() {
    let shown = HttpStatus::new(
        401,
        "the account",
        "denied\n2026-09-24T08:00:00Z  WARN things::replay: forged\r\u{1b}[8m",
    )
    .to_string();
    assert!(!shown.contains(['\n', '\r', '\u{1b}']), "{shown:?}");
}

#[test]
fn an_error_body_is_capped_at_three_hundred_characters() {
    let long = "x".repeat(400);
    let shown = HttpStatus::new(500, "the commit on 3", &long).to_string();
    assert_eq!(shown, format!("HTTP 500 for the commit on 3: {}", "x".repeat(300)));
}

#[test]
fn credentials_are_checked_before_a_sign_in() {
    assert_eq!(
        validate_auth(" user@example.com ", "pass word "),
        Ok(("user@example.com".to_string(), "pass word ".to_string()))
    );
    assert_eq!(
        validate_auth("  ", "x"),
        Err("The Things Cloud email is empty.".to_string())
    );
    assert_eq!(
        validate_auth("user@example.com", ""),
        Err("The Things Cloud password is empty.".to_string())
    );
}
