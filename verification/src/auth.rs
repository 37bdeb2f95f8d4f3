//! the Things Cloud credentials: checked before a sign-in and before they are saved

use crate::common::{chars_of, string_of, trim_chars, trim_spec};
use vstd::prelude::*;

verus! {

/// the credentials a sign-in sends, the email trimmed, or why there are none
pub open spec fn validated_auth(email: Seq<char>, password: Seq<char>) -> Result<
    (Seq<char>, Seq<char>),
    Seq<char>,
> {
    if trim_spec(email).len() == 0 {
        Err("The Things Cloud email is empty."@)
    } else if password.len() == 0 {
        Err("The Things Cloud password is empty."@)
    } else {
        Ok((trim_spec(email), password))
    }
}

pub fn validate_auth(email: &str, password: &str) -> (checked: Result<(String, String), String>)
    ensures
        match checked {
            Ok((email_out, password_out)) => validated_auth(email@, password@) == Ok::<
                (Seq<char>, Seq<char>),
                Seq<char>,
            >((email_out@, password_out@)),
            Err(message) => validated_auth(email@, password@) == Err::<
                (Seq<char>, Seq<char>),
                Seq<char>,
            >(message@),
        },
{
    let kept = trim_chars(&chars_of(email));
    if kept.len() == 0 {
        return Err(String::from_str("The Things Cloud email is empty."));
    }
    let password = String::from_str(password);
    if password.as_str().unicode_len() == 0 {
        return Err(String::from_str("The Things Cloud password is empty."));
    }
    Ok((string_of(&kept), password))
}

/// the message of a refused sign-in: nothing was saved, and the refusal's own words after it
pub open spec fn refused_message(cause: Seq<char>) -> Seq<char> {
    "Signing in to Things Cloud failed, nothing was saved: "@ + cause
}

/// the credentials go to the auth file once `sign_in` accepts them
///
/// a refused pair leaves the file as it was: the pair to write comes back only after `sign_in` took it, and the file is written around the library
pub fn write_verified_auth<F: FnOnce(&str, &str) -> Result<(), String>>(
    email: &str,
    password: &str,
    sign_in: F,
) -> (saved: Result<(String, String), String>)
    requires
        forall|e: &str, p: &str| #[trigger] sign_in.requires((e, p)),
    ensures
        match validated_auth(email@, password@) {
            Err(message) => saved matches Err(m) && m@ == message,
            Ok((e, p)) => exists|a: &str, b: &str, answer: Result<(), String>|
                {
                    &&& a@ == e
                    &&& b@ == p
                    &&& #[trigger] sign_in.ensures((a, b), answer)
                    &&& match (answer, saved) {
                        (Ok(_), Ok((saved_email, saved_password))) => saved_email@ == e
                            && saved_password@ == p,
                        (Err(cause), Err(m)) => m@ == refused_message(cause@),
                        _ => false,
                    }
                },
        },
{
    let (email, password) = match validate_auth(email, password) {
        Ok(pair) => pair,
        Err(message) => {
            return Err(message);
        },
    };
    let a = email.as_str();
    let b = password.as_str();
    let answer = sign_in(a, b);
    assert(sign_in.ensures((a, b), answer));
    match answer {
        Ok(()) => Ok((email, password)),
        Err(cause) => {
            let mut message = String::from_str("Signing in to Things Cloud failed, nothing was saved: ");
            message.append(cause.as_str());
            Err(message)
        },
    }
}

} // verus!
