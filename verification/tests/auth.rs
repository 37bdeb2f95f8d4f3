use things::auth::{validate_auth, write_verified_auth};

#[test]
fn a_refused_sign_in_saves_nothing() {
    let Err(error) = write_verified_auth("other@example.com", "wrong", |_, _| {
        Err("HTTP 401 for the account".to_string())
    }) else {
        panic!("a refused sign-in saves nothing");
    };
    assert!(error.contains("HTTP 401"), "{error}");
    assert_eq!(
        error,
        "Signing in to Things Cloud failed, nothing was saved: HTTP 401 for the account"
    );
}

#[test]
fn the_sign_in_tries_the_credentials_that_are_saved() {
    let mut tried = None;
    let saved = write_verified_auth(" user@example.com ", "pass word ", |email, password| {
        tried = Some((email.to_string(), password.to_string()));
        Ok(())
    })
    .expect("saved");
    assert_eq!(
        tried,
        Some(("user@example.com".to_string(), "pass word ".to_string()))
    );
    assert_eq!(
        saved,
        ("user@example.com".to_string(), "pass word ".to_string())
    );
}

#[test]
fn an_empty_field_is_refused_before_the_sign_in() {
    let result = write_verified_auth("user@example.com", "", |_, _| {
        panic!("no sign-in without a password")
    });
    assert_eq!(result, Err("The Things Cloud password is empty.".to_string()));
    let result = write_verified_auth("   ", "hunter2", |_, _| panic!("no sign-in without an email"));
    assert_eq!(result, Err("The Things Cloud email is empty.".to_string()));
}

#[test]
fn the_email_is_trimmed_and_the_password_kept_as_typed() {
    assert_eq!(
        validate_auth("\tada@example.com\n", " secret "),
        Ok(("ada@example.com".to_string(), " secret ".to_string()))
    );
}
