//! command line values

use crate::common::{trim_chars, string_of, chars_of, trim_spec};
use vstd::prelude::*;

verus! {

/// an id or id prefix as typed, trimmed and never empty
#[derive(Clone)]
pub struct IdentifierToken(String);

impl IdentifierToken {
    pub closed spec fn text(&self) -> Seq<char> {
        self.0@
    }

    pub fn as_str(&self) -> (text: &str)
        ensures
            text@ == self.text(),
    {
        self.0.as_str()
    }

    /// the token a value names, its trimmed text, refused when nothing is left
    pub fn parse(value: &str) -> (token: Result<IdentifierToken, String>)
        ensures
            match token {
                Ok(token) => trim_spec(value@).len() > 0 && token.text() == trim_spec(value@),
                Err(message) => trim_spec(value@).len() == 0 && message@ == "The value is empty"@,
            },
    {
        let chars = chars_of(value);
        let kept = trim_chars(&chars);
        if kept.len() == 0 {
            return Err(String::from_str("The value is empty"));
        }
        Ok(IdentifierToken(string_of(&kept)))
    }
}

impl core::str::FromStr for IdentifierToken {
    type Err = String;

    fn from_str(value: &str) -> (token: Result<Self, Self::Err>)
        ensures
            match token {
                Ok(token) => trim_spec(value@).len() > 0 && token.text() == trim_spec(value@),
                Err(message) => trim_spec(value@).len() == 0 && message@ == "The value is empty"@,
            },
    {
        IdentifierToken::parse(value)
    }
}

/// the arguments a request names, trimmed, without the empty ones
pub open spec fn kept_args(args: Seq<Seq<char>>) -> Seq<Seq<char>> {
    args.map_values(|arg: Seq<char>| trim_spec(arg)).filter(|arg: Seq<char>| arg.len() > 0)
}

/// the command line a request runs: its arguments trimmed, without the empty ones, `today` when none is left
pub open spec fn normalized_args(args: Option<Seq<Seq<char>>>) -> Seq<Seq<char>> {
    let kept = match args {
        Some(args) => kept_args(args),
        None => seq![],
    };
    if kept.len() == 0 {
        seq!["today"@]
    } else {
        kept
    }
}

pub fn normalize_args(args: Option<Vec<String>>) -> (out: Vec<String>)
    ensures
        out.deep_view() == normalized_args(
            match args {
                Some(args) => Some(args.deep_view()),
                None => None,
            },
        ),
{
    let mut out: Vec<String> = Vec::new();
    let ghost given: Seq<Seq<char>> = match args {
        Some(ref list) => list.deep_view(),
        None => seq![],
    };
    if let Some(list) = args {
        let n = list.len();
        let mut i: usize = 0;
        while i < n
            invariant
                i <= n,
                n == list@.len(),
                given == list.deep_view(),
                out.deep_view() == kept_args(given.take(i as int)),
            decreases n - i,
        {
            let chars = chars_of(list[i].as_str());
            let kept = trim_chars(&chars);
            let ghost before = out.deep_view();
            if kept.len() > 0 {
                out.push(string_of(&kept));
                assert(out.deep_view() =~= before.push(trim_spec(given[i as int])));
            }
            proof {
                reveal_with_fuel(Seq::<_>::filter, 1);
                let mapped = given.take(i + 1).map_values(|arg: Seq<char>| trim_spec(arg));
                assert(mapped.drop_last() =~= given.take(i as int).map_values(
                    |arg: Seq<char>| trim_spec(arg),
                ));
                assert(mapped.last() == trim_spec(given[i as int]));
            }
            i += 1;
        }
        assert(given.take(n as int) =~= given);
    }
    if out.len() == 0 {
        out.push(String::from_str("today"));
        assert(out.deep_view() =~= seq!["today"@]);
    }
    out
}

} // verus!
