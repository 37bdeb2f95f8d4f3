//! what the Things Cloud client reports of an answer

use crate::common::{chars_of, decimal, decimal_text, sanitize, string_of, Shown};
use vstd::prelude::*;

verus! {

/// the answer as a message shows it: at most its first 300 characters, on one line
pub open spec fn shown_body(text: Seq<char>) -> Seq<char> {
    sanitize(
        if text.len() > 300 {
            text.take(300)
        } else {
            text
        },
        Shown::Field,
    )
}

/// an answer with an error status
///
/// a caller tells it apart from a request that never reached the server
#[derive(Debug)]
pub struct HttpStatus {
    pub status: u16,
    pub label: String,
    pub body: String,
}

impl HttpStatus {
    pub open spec fn label_text(&self) -> Seq<char> {
        self.label@
    }

    pub open spec fn body_text(&self) -> Seq<char> {
        self.body@
    }

    /// the answer as a message shows it, capped and on one line
    pub fn new(status: u16, label: &str, text: &str) -> (answer: HttpStatus)
        ensures
            answer.status == status,
            answer.label_text() == label@,
            answer.body_text() == shown_body(text@),
    {
        let chars = chars_of(text);
        let mut kept: Vec<char> = Vec::new();
        let mut i: usize = 0;
        while i < chars.len() && i < 300
            invariant
                i <= chars@.len(),
                i <= 300,
                kept@ == chars@.take(i as int),
            decreases 300 - i,
        {
            kept.push(chars[i]);
            i += 1;
            assert(kept@ =~= chars@.take(i as int));
        }
        proof {
            if chars@.len() <= 300 {
                assert(chars@.take(i as int) =~= chars@);
            }
        }
        let capped = string_of(&kept);
        HttpStatus {
            status,
            label: String::from_str(label),
            body: crate::common::one_line(capped.as_str()),
        }
    }

    /// `HTTP <status> for <label>: <body>`
    pub fn message(&self) -> (text: String)
        ensures
            text@ == "HTTP "@ + decimal(self.status as nat) + " for "@ + self.label_text() + ": "@
                + self.body_text(),
    {
        let mut text = String::from_str("HTTP ");
        let number = decimal_text(self.status as u64);
        text.append(number.as_str());
        text.append(" for ");
        text.append(self.label.as_str());
        text.append(": ");
        text.append(self.body.as_str());
        text
    }

    /// `to_string` of the answer, its message
    pub fn to_string(&self) -> (text: String)
        ensures
            text@ == "HTTP "@ + decimal(self.status as nat) + " for "@ + self.label_text() + ": "@
                + self.body_text(),
    {
        self.message()
    }
}

} // verus!
