//! text for the terminal: cloud titles and notes with their control characters shown, counts, colors

use crate::ids::things_id::push_char;
use crate::ids::things_id::ThingsId;
use vstd::prelude::*;
use vstd::string::StringSliceAdditionalSpecFns;

verus! {

pub const RESET: &'static str = "\x1b[0m";

pub const DIM: &'static str = "\x1b[2m";

pub const GREEN: &'static str = "\x1b[32m";

/// the characters of a text, in order
pub fn chars_of(text: &str) -> (chars: Vec<char>)
    ensures
        chars@ == text@,
{
    let mut chars: Vec<char> = Vec::new();
    broadcast use vstd::string::group_string_axioms;

    let ghost whole = text@;
    for c in it: text.chars()
        invariant
            whole == text@,
            it.seq() == whole,
            chars@ == whole.take(it.index() as int),
    {
        chars.push(c);
        assert(chars@ =~= whole.take(it.index() + 1));
    }
    chars
}

/// a text made of the given characters
pub fn string_of(chars: &[char]) -> (text: String)
    ensures
        text@ == chars@,
{
    let mut text = String::new();
    let mut i: usize = 0;
    while i < chars.len()
        invariant
            i <= chars@.len(),
            text@ == chars@.take(i as int),
        decreases chars@.len() - i,
    {
        push_char(&mut text, chars[i]);
        i += 1;
        assert(text@ =~= chars@.take(i as int));
    }
    assert(chars@.take(chars@.len() as int) =~= chars@);
    text
}

/// how `sanitized` shows the text it is given
#[derive(PartialEq, Eq, Structural, Clone, Copy)]
pub enum Shown {
    /// the output on a terminal that shows colors
    ///
    /// the CLI's own SGR sequences pass
    Colored,
    /// text without colors of its own
    ///
    /// errors and output off a terminal
    Plain,
    /// JSON
    ///
    /// its escapes decode to the same text
    Json,
    /// one field of cloud text
    ///
    /// kept on its line
    Field,
}

/// an ASCII digit or a `;`, the characters of SGR parameters
pub open spec fn sgr_param(c: char) -> bool {
    ('0' <= c <= '9') || c == ';'
}

/// the number of SGR parameter characters at the start of `s`
pub open spec fn param_run(s: Seq<char>) -> nat
    decreases s.len(),
{
    if s.len() > 0 && sgr_param(s[0]) {
        1 + param_run(s.drop_first())
    } else {
        0
    }
}

/// the length of the select graphic rendition sequence `ESC [ params m` at the start of `s`, if one stands there
pub open spec fn sgr_len(s: Seq<char>) -> Option<nat> {
    if s.len() >= 2 && s[0] == '\u{1b}' && s[1] == '[' {
        let k = param_run(s.skip(2));
        if 2 + k < s.len() && s[2 + k as int] == 'm' {
            Some(k + 3)
        } else {
            None
        }
    } else {
        None
    }
}

/// C1, and the embedding, override and isolate controls that reorder the text around them on a terminal that applies bidi
pub open spec fn replaced_spec(c: char) -> bool {
    ('\u{80}' <= c <= '\u{9f}') || ('\u{202a}' <= c <= '\u{202e}') || ('\u{2066}' <= c
        <= '\u{2069}')
}

/// a lowercase hexadecimal digit
pub open spec fn hex_digit(n: u32) -> char {
    if n < 10 {
        (48 + n) as char
    } else {
        (87 + n) as char
    }
}

/// the JSON escape `\uXXXX` of a character below U+10000
pub open spec fn json_escape(c: char) -> Seq<char> {
    let v = c as u32;
    seq![
        '\\',
        'u',
        hex_digit((v / 4096) % 16),
        hex_digit((v / 256) % 16),
        hex_digit((v / 16) % 16),
        hex_digit(v % 16),
    ]
}

/// a character in caret notation, `^@` for NUL up to `^_`
pub open spec fn caret(c: char) -> Seq<char> {
    seq!['^', ((c as u32) + 64) as char]
}

/// how one character shows, when no SGR sequence starts at it
pub open spec fn shown_char(c: char, shown: Shown) -> Seq<char> {
    if (c == '\n' || c == '\t') && shown != Shown::Field {
        seq![c]
    } else if c == '\u{1b}' && (shown == Shown::Colored || shown == Shown::Json) {
        seq!['^', '[']
    } else if shown == Shown::Json && (c == '\u{7f}' || replaced_spec(c)) {
        json_escape(c)
    } else if c == '\u{7f}' {
        seq!['^', '?']
    } else if (c as u32) < 32 {
        caret(c)
    } else if replaced_spec(c) {
        seq!['\u{fffd}']
    } else if (c == '\u{2028}' || c == '\u{2029}') && shown == Shown::Field {
        seq!['\u{fffd}']
    } else {
        seq![c]
    }
}

/// the text as `shown` shows it: SGR sequences pass where colors do, every other control escapes
pub open spec fn sanitize(s: Seq<char>, shown: Shown) -> Seq<char>
    decreases s.len(),
{
    if s.len() == 0 {
        seq![]
    } else if s[0] == '\u{1b}' && (shown == Shown::Colored || shown == Shown::Json) && sgr_len(
        s,
    ) is Some {
        let k = sgr_len(s)->0;
        if 0 < k <= s.len() {
            s.take(k as int) + sanitize(s.skip(k as int), shown)
        } else {
            seq![]
        }
    } else {
        shown_char(s[0], shown) + sanitize(s.drop_first(), shown)
    }
}

proof fn lemma_param_run_is(s: Seq<char>, k: int)
    requires
        0 <= k <= s.len(),
        forall|i: int| 0 <= i < k ==> sgr_param(#[trigger] s[i]),
        k == s.len() || !sgr_param(s[k]),
    ensures
        param_run(s) == k,
    decreases s.len(),
{
    if k > 0 {
        let t = s.drop_first();
        assert forall|i: int| 0 <= i < k - 1 implies sgr_param(#[trigger] t[i]) by {
            assert(t[i] == s[i + 1]);
        }
        if k < s.len() {
            assert(t[k - 1] == s[k]);
        }
        lemma_param_run_is(t, k - 1);
    }
}

/// the select graphic rendition sequence at `at`, by its length
fn sgr(text: &Vec<char>, at: usize) -> (len: Option<usize>)
    requires
        at <= text@.len(),
    ensures
        len == (match sgr_len(text@.skip(at as int)) {
            Some(k) => Some(k as usize),
            None => None,
        }),
        len matches Some(k) ==> 0 < k && at + k <= text@.len(),
{
    let n = text.len();
    let ghost s = text@.skip(at as int);
    if !(n - at >= 2 && text[at] == '\u{1b}' && text[at + 1] == '[') {
        return None;
    }
    let mut k: usize = 0;
    while at + 2 + k < n && ((text[at + 2 + k] >= '0' && text[at + 2 + k] <= '9') || text[at + 2
        + k] == ';')
        invariant
            at + 2 + k <= n,
            n == text@.len(),
            s == text@.skip(at as int),
            forall|i: int| 0 <= i < k ==> sgr_param(#[trigger] s.skip(2)[i]),
        decreases n - k,
    {
        assert(s.skip(2)[k as int] == text@[at + 2 + k]);
        k += 1;
    }
    proof {
        if at + 2 + k < n {
            assert(s.skip(2)[k as int] == text@[at + 2 + k]);
        }
        lemma_param_run_is(s.skip(2), k as int);
    }
    if at + 2 + k < n && text[at + 2 + k] == 'm' {
        Some(k + 3)
    } else {
        None
    }
}

/// C1, and the embedding, override and isolate controls that reorder the text around them on a terminal that applies bidi
fn replaced(c: char) -> (hit: bool)
    ensures
        hit == replaced_spec(c),
{
    ('\u{80}' <= c && c <= '\u{9f}') || ('\u{202a}' <= c && c <= '\u{202e}') || ('\u{2066}' <= c
        && c <= '\u{2069}')
}

fn hex_char(n: u32) -> (c: char)
    requires
        n < 16,
    ensures
        c == hex_digit(n),
{
    if n < 10 {
        ((48 + n) as u8) as char
    } else {
        ((87 + n) as u8) as char
    }
}

fn sanitized(text: &str, shown: Shown) -> (out: String)
    ensures
        out@ == sanitize(text@, shown),
{
    let chars = chars_of(text);
    let n = chars.len();
    let mut out: Vec<char> = Vec::new();
    let mut at: usize = 0;
    assert(chars@.skip(0) =~= chars@);
    assert(out@ + sanitize(chars@.skip(0), shown) =~= sanitize(text@, shown));
    while at < n
        invariant
            at <= n,
            n == chars@.len(),
            chars@ == text@,
            out@ + sanitize(chars@.skip(at as int), shown) == sanitize(text@, shown),
        decreases n - at,
    {
        let ghost rest = chars@.skip(at as int);
        let ghost before = out@;
        let c = chars[at];
        assert(rest[0] == c);
        assert(rest.drop_first() =~= chars@.skip(at + 1));
        let mut taken = false;
        if c == '\u{1b}' && (shown == Shown::Colored || shown == Shown::Json) {
            if let Some(k) = sgr(&chars, at) {
                let mut i: usize = 0;
                while i < k
                    invariant
                        i <= k,
                        at + k <= n,
                        n == chars@.len(),
                        out@ == before + chars@.skip(at as int).take(i as int),
                    decreases k - i,
                {
                    out.push(chars[at + i]);
                    i += 1;
                    assert(out@ =~= before + chars@.skip(at as int).take(i as int));
                }
                assert(rest.skip(k as int) =~= chars@.skip(at + k));
                assert(out@ + sanitize(chars@.skip(at + k), shown) =~= before + sanitize(
                    rest,
                    shown,
                ));
                at = at + k;
                taken = true;
            } else {
                out.push('^');
                out.push('[');
            }
        } else if (c == '\n' || c == '\t') && shown != Shown::Field {
            out.push(c);
        } else if shown == Shown::Json && (c == '\u{7f}' || replaced(c)) {
            let v = c as u32;
            out.push('\\');
            out.push('u');
            out.push(hex_char((v / 4096) % 16));
            out.push(hex_char((v / 256) % 16));
            out.push(hex_char((v / 16) % 16));
            out.push(hex_char(v % 16));
        } else if c == '\u{7f}' {
            out.push('^');
            out.push('?');
        } else if (c as u32) < 32 {
            out.push('^');
            out.push(((c as u32) + 64) as u8 as char);
        } else if replaced(c) {
            out.push('\u{fffd}');
        } else if (c == '\u{2028}' || c == '\u{2029}') && shown == Shown::Field {
            out.push('\u{fffd}');
        } else {
            out.push(c);
        }
        if !taken {
            assert(out@ =~= before + shown_char(c, shown));
            at += 1;
        }
    }
    assert(chars@.skip(n as int) =~= Seq::<char>::empty());
    assert(out@ =~= sanitize(text@, shown));
    string_of(&out)
}

/// the finished output on a terminal that shows colors
///
/// the CLI's own SGR colors pass
/// other C0 controls and DEL show in caret notation
/// C1 and the bidi controls show as U+FFFD
/// titles and notes come from the cloud
/// anyone who can mail a to-do into the Inbox writes them there
/// the text they add passes `one_line` before it gets here
/// that keeps their escape sequences out
pub fn printable(text: &str) -> (out: String)
    ensures
        out@ == sanitize(text@, Shown::Colored),
{
    sanitized(text, Shown::Colored)
}

/// errors and output without colors
///
/// no escape sequence passes
/// the CLI adds none
pub fn printable_plain(text: &str) -> (out: String)
    ensures
        out@ == sanitize(text@, Shown::Plain),
{
    sanitized(text, Shown::Plain)
}

/// JSON for the terminal
///
/// the controls a JSON writer leaves raw leave as `\u` escapes that decode to the same text
pub fn printable_json(text: &str) -> (out: String)
    ensures
        out@ == sanitize(text@, Shown::Json),
{
    sanitized(text, Shown::Json)
}

/// one field of cloud text, a title for instance, for a line of terminal output
///
/// every control character shows escaped, line breaks and escape sequences included
pub fn one_line(text: &str) -> (out: String)
    ensures
        out@ == sanitize(text@, Shown::Field),
{
    sanitized(text, Shown::Field)
}

/// the White_Space property of Unicode: the controls from tab to carriage return, the space,
/// next line, no-break space, ogham space mark, the spaces from en quad to hair space, the line
/// and paragraph separators, narrow no-break space, medium mathematical space and ideographic space
pub open spec fn is_whitespace_spec(c: char) -> bool {
    let n = c as u32;
    ||| 0x9 <= n <= 0xd
    ||| n == 0x20
    ||| n == 0x85
    ||| n == 0xa0
    ||| n == 0x1680
    ||| 0x2000 <= n <= 0x200a
    ||| n == 0x2028
    ||| n == 0x2029
    ||| n == 0x202f
    ||| n == 0x205f
    ||| n == 0x3000
}

/// `char::is_whitespace`: whether the character has the White_Space property
#[verifier::external_body]
pub fn is_whitespace(c: char) -> (ws: bool)
    ensures
        ws == is_whitespace_spec(c),
{
    c.is_whitespace()
}

/// the text holds nothing but whitespace, which `trim` takes away entirely
pub open spec fn blank(s: Seq<char>) -> bool {
    forall|i: int| 0 <= i < s.len() ==> is_whitespace_spec(#[trigger] s[i])
}

/// the text is empty once trimmed
pub fn is_blank(text: &str) -> (empty: bool)
    ensures
        empty == blank(text@),
{
    let chars = chars_of(text);
    let mut i: usize = 0;
    while i < chars.len()
        invariant
            i <= chars@.len(),
            chars@ == text@,
            forall|k: int| 0 <= k < i ==> is_whitespace_spec(#[trigger] chars@[k]),
        decreases chars@.len() - i,
    {
        if !is_whitespace(chars[i]) {
            return false;
        }
        i += 1;
    }
    true
}

/// a title as the lists show it, "(untitled)" when it holds nothing
pub fn shown_title(title: &str) -> (out: String)
    ensures
        out@ == (if blank(title@) {
            "(untitled)"@
        } else {
            sanitize(title@, Shown::Field)
        }),
{
    if is_blank(title) {
        String::from_str("(untitled)")
    } else {
        one_line(title)
    }
}

/// the decimal digits of a number
pub open spec fn decimal(n: nat) -> Seq<char>
    decreases n,
{
    if n < 10 {
        seq![(48 + n) as char]
    } else {
        decimal(n / 10).push((48 + n % 10) as char)
    }
}

/// a signed number in decimal, a minus before a negative one
pub open spec fn signed_decimal(n: int) -> Seq<char> {
    if n < 0 {
        "-"@ + decimal((-n) as nat)
    } else {
        decimal(n as nat)
    }
}

/// a signed number in decimal
pub fn signed_decimal_text(n: i64) -> (text: String)
    ensures
        text@ == signed_decimal(n as int),
{
    if n < 0 {
        let magnitude = (-(n as i128)) as u64;
        let digits = decimal_text(magnitude);
        let mut text = String::from_str("-");
        text.append(digits.as_str());
        text
    } else {
        decimal_text(n as u64)
    }
}

/// a number in decimal
pub fn decimal_text(n: u64) -> (text: String)
    ensures
        text@ == decimal(n as nat),
{
    let mut digits: Vec<char> = Vec::new();
    let mut rest = n;
    // the digits come least significant first
    while rest >= 10
        invariant
            decimal(n as nat) == decimal(rest as nat) + digits@.reverse(),
        decreases rest,
    {
        let d = rest % 10;
        digits.push(((48 + d) as u8) as char);
        proof {
            assert(decimal(rest as nat) == decimal((rest / 10) as nat).push(
                (48 + rest % 10) as char,
            ));
            assert(digits@.reverse() =~= seq![((48 + d) as u8) as char] + digits@.drop_last().reverse());
        }
        rest = rest / 10;
    }
    let mut out: Vec<char> = Vec::new();
    out.push(((48 + rest) as u8) as char);
    let k = digits.len();
    let mut i: usize = 0;
    while i < k
        invariant
            i <= k,
            k == digits@.len(),
            out@ == seq![((48 + rest) as u8) as char] + digits@.reverse().take(i as int),
            decimal(n as nat) == decimal(rest as nat) + digits@.reverse(),
            rest < 10,
        decreases k - i,
    {
        out.push(digits[k - 1 - i]);
        i += 1;
        assert(out@ =~= seq![((48 + rest) as u8) as char] + digits@.reverse().take(i as int));
    }
    assert(digits@.reverse().take(k as int) =~= digits@.reverse());
    assert(decimal(rest as nat) == seq![((48 + rest) as u8) as char]);
    assert(out@ =~= decimal(n as nat));
    string_of(&out)
}

/// a count with its noun, singular for one
pub fn counted(count: usize, noun: &str) -> (text: String)
    ensures
        text@ == decimal(count as nat) + " "@ + noun@ + (if count == 1 {
            ""@
        } else {
            "s"@
        }),
{
    let mut text = decimal_text(count as u64);
    text.append(" ");
    text.append(noun);
    if count != 1 {
        text.append("s");
    }
    proof {
        reveal_strlit(" ");
        reveal_strlit("s");
        reveal_strlit("");
    }
    assert(text@ =~= decimal(count as nat) + " "@ + noun@ + (if count == 1 {
        ""@
    } else {
        "s"@
    }));
    text
}

/// the texts one after another
pub open spec fn joined(parts: Seq<&str>) -> Seq<char>
    decreases parts.len(),
{
    if parts.len() == 0 {
        seq![]
    } else {
        joined(parts.drop_last()) + parts.last()@
    }
}

/// the text in the given SGR colors and reset after, or alone when colors are off
pub fn colored(text: &str, codes: &[&str], no_color: bool) -> (out: String)
    ensures
        out@ == (if no_color {
            text@
        } else {
            joined(codes@) + text@ + RESET@
        }),
{
    let mut out = String::new();
    if no_color {
        out.append(text);
        assert(out@ =~= text@);
        return out;
    }
    let mut i: usize = 0;
    while i < codes.len()
        invariant
            i <= codes@.len(),
            out@ == joined(codes@.take(i as int)),
        decreases codes@.len() - i,
    {
        out.append(codes[i]);
        assert(codes@.take(i + 1).drop_last() =~= codes@.take(i as int));
        i += 1;
    }
    assert(codes@.take(codes@.len() as int) =~= codes@);
    out.append(text);
    out.append(RESET);
    out
}

/// the number of whitespace characters at the start of `s`
pub open spec fn leading_ws(s: Seq<char>) -> nat
    decreases s.len(),
{
    if s.len() > 0 && is_whitespace_spec(s[0]) {
        1 + leading_ws(s.drop_first())
    } else {
        0
    }
}

/// the number of whitespace characters at the end of `s`
pub open spec fn trailing_ws(s: Seq<char>) -> nat
    decreases s.len(),
{
    if s.len() > 0 && is_whitespace_spec(s.last()) {
        1 + trailing_ws(s.drop_last())
    } else {
        0
    }
}

/// the text without its leading and trailing whitespace, as `str::trim` leaves it
pub open spec fn trim_spec(s: Seq<char>) -> Seq<char> {
    let rest = s.skip(leading_ws(s) as int);
    rest.take(rest.len() - trailing_ws(rest))
}

proof fn lemma_leading_ws_is(s: Seq<char>, k: int)
    requires
        0 <= k <= s.len(),
        forall|i: int| 0 <= i < k ==> is_whitespace_spec(#[trigger] s[i]),
        k == s.len() || !is_whitespace_spec(s[k]),
    ensures
        leading_ws(s) == k,
    decreases s.len(),
{
    if k > 0 {
        let t = s.drop_first();
        assert forall|i: int| 0 <= i < k - 1 implies is_whitespace_spec(#[trigger] t[i]) by {
            assert(t[i] == s[i + 1]);
        }
        if k < s.len() {
            assert(t[k - 1] == s[k]);
        }
        lemma_leading_ws_is(t, k - 1);
    }
}

proof fn lemma_trailing_ws_is(s: Seq<char>, k: int)
    requires
        0 <= k <= s.len(),
        forall|i: int| s.len() - k <= i < s.len() ==> is_whitespace_spec(#[trigger] s[i]),
        k == s.len() || !is_whitespace_spec(s[s.len() - 1 - k]),
    ensures
        trailing_ws(s) == k,
    decreases s.len(),
{
    if k > 0 {
        let t = s.drop_last();
        assert(is_whitespace_spec(s[s.len() - 1]));
        assert forall|i: int| t.len() - (k - 1) <= i < t.len() implies is_whitespace_spec(
            #[trigger] t[i],
        ) by {
            assert(t[i] == s[i]);
        }
        if k < s.len() {
            assert(t[t.len() - 1 - (k - 1)] == s[s.len() - 1 - k]);
        }
        lemma_trailing_ws_is(t, k - 1);
    }
}

/// the characters of the text without its leading and trailing whitespace
pub fn trim_chars(text: &Vec<char>) -> (kept: Vec<char>)
    ensures
        kept@ == trim_spec(text@),
{
    let n = text.len();
    let mut start: usize = 0;
    while start < n && is_whitespace(text[start])
        invariant
            start <= n,
            n == text@.len(),
            forall|i: int| 0 <= i < start ==> is_whitespace_spec(#[trigger] text@[i]),
        decreases n - start,
    {
        start += 1;
    }
    proof {
        lemma_leading_ws_is(text@, start as int);
    }
    let ghost rest = text@.skip(start as int);
    let mut end: usize = n;
    while end > start && is_whitespace(text[end - 1])
        invariant
            start <= end <= n,
            n == text@.len(),
            rest == text@.skip(start as int),
            forall|i: int| end <= i < n ==> is_whitespace_spec(#[trigger] text@[i]),
        decreases end,
    {
        end -= 1;
    }
    proof {
        assert forall|i: int| rest.len() - (n - end) <= i < rest.len() implies is_whitespace_spec(
            #[trigger] rest[i],
        ) by {
            assert(rest[i] == text@[start + i]);
        }
        if end > start {
            assert(rest[rest.len() - 1 - (n - end)] == text@[end - 1]);
        }
        lemma_trailing_ws_is(rest, (n - end) as int);
    }
    let mut kept: Vec<char> = Vec::new();
    let mut i: usize = start;
    while i < end
        invariant
            start <= i <= end,
            end <= n,
            n == text@.len(),
            kept@ == text@.subrange(start as int, i as int),
        decreases end - i,
    {
        kept.push(text[i]);
        i += 1;
        assert(kept@ =~= text@.subrange(start as int, i as int));
    }
    assert(kept@ =~= trim_spec(text@));
    kept
}

/// `str::trim`, as a new string
pub fn trimmed(text: &str) -> (kept: String)
    ensures
        kept@ == trim_spec(text@),
{
    let chars = chars_of(text);
    let kept = trim_chars(&chars);
    string_of(&kept)
}


/// the symbols the terminal views draw
pub struct Icons {
    // sidebar and view icons
    pub inbox: &'static str,
    pub today: &'static str,
    pub upcoming: &'static str,
    pub anytime: &'static str,
    pub find: &'static str,

    // task and grouping icons
    pub task_open: &'static str,
    pub task_done: &'static str,
    pub task_someday: &'static str,
    pub task_canceled: &'static str,
    pub today_staged: &'static str,
    pub project: &'static str,
    pub project_someday: &'static str,
    pub area: &'static str,
    pub tag: &'static str,
    pub evening: &'static str,
    pub repeat: &'static str,

    // project progress icons
    pub progress_empty: &'static str,
    pub progress_quarter: &'static str,
    pub progress_half: &'static str,
    pub progress_three_quarter: &'static str,
    pub progress_full: &'static str,

    // status and event icons
    pub deadline: &'static str,
    pub done: &'static str,
    pub incomplete: &'static str,
    pub canceled: &'static str,
    pub deleted: &'static str,

    // checklist icons
    pub checklist_open: &'static str,
    pub checklist_done: &'static str,
    pub checklist_canceled: &'static str,
}

/// the symbols the views draw, one per view, kind of item, progress step, event and checklist state
pub fn icons() -> (icons: Icons)
    ensures
        icons.inbox@ == "⬓"@,
        icons.today@ == "⭑"@,
        icons.upcoming@ == "▷"@,
        icons.anytime@ == "≋"@,
        icons.find@ == "⌕"@,
        icons.task_open@ == "▢"@,
        icons.task_done@ == "◼"@,
        icons.task_someday@ == "⬚"@,
        icons.task_canceled@ == "☒"@,
        icons.today_staged@ == "●"@,
        icons.project@ == "●"@,
        icons.project_someday@ == "◌"@,
        icons.area@ == "◆"@,
        icons.tag@ == "⌗"@,
        icons.evening@ == "☽"@,
        icons.repeat@ == "↻"@,
        icons.progress_empty@ == "◯"@,
        icons.progress_quarter@ == "◔"@,
        icons.progress_half@ == "◑"@,
        icons.progress_three_quarter@ == "◕"@,
        icons.progress_full@ == "◉"@,
        icons.deadline@ == "⚑"@,
        icons.done@ == "✓"@,
        icons.incomplete@ == "↺"@,
        icons.canceled@ == "☒"@,
        icons.deleted@ == "×"@,
        icons.checklist_open@ == "○"@,
        icons.checklist_done@ == "●"@,
        icons.checklist_canceled@ == "×"@,
{
    Icons {
        inbox: "⬓",
        today: "⭑",
        upcoming: "▷",
        anytime: "≋",
        find: "⌕",
        task_open: "▢",
        task_done: "◼",
        task_someday: "⬚",
        task_canceled: "☒",
        today_staged: "●",
        project: "●",
        project_someday: "◌",
        area: "◆",
        tag: "⌗",
        evening: "☽",
        repeat: "↻",
        progress_empty: "◯",
        progress_quarter: "◔",
        progress_half: "◑",
        progress_three_quarter: "◕",
        progress_full: "◉",
        deadline: "⚑",
        done: "✓",
        incomplete: "↺",
        canceled: "☒",
        deleted: "×",
        checklist_open: "○",
        checklist_done: "●",
        checklist_canceled: "×",
    }
}

/// the project or area a to-do goes into
pub enum Container {
    Project(ThingsId),
    Area(ThingsId),
}

/// what `crc32fast::hash` gives for the bytes: their CRC-32 checksum (the IEEE polynomial)
pub uninterp spec fn crc32_of(bytes: Seq<u8>) -> u32;

/// `crc32fast::hash`: the CRC-32 checksum of the bytes, a function of the bytes alone
#[verifier::external_body]
fn crc32(bytes: &[u8]) -> (sum: u32)
    ensures
        sum == crc32_of(bytes@),
{
    crc32fast::hash(bytes)
}

/// a note in the structured form the app writes: its kind (`tx`, text), its format, the checksum
/// of its text and the text
pub struct StructuredNote {
    pub object_type: String,
    pub format_type: u32,
    pub checksum: u32,
    pub value: String,
}

/// the text of a note in the structured form a `Task6` note takes, with the CRC-32 of its UTF-8 bytes
pub fn task6_note(value: &str) -> (note: StructuredNote)
    ensures
        note.object_type@ == "tx"@,
        note.format_type == 1,
        note.checksum == crc32_of(value.spec_bytes()),
        note.value@ == value@,
{
    let checksum = crc32(value.as_bytes());
    StructuredNote {
        object_type: String::from_str("tx"),
        format_type: 1,
        checksum,
        value: String::from_str(value),
    }
}

} // verus!
