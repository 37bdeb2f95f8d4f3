//! small text operations on characters: splitting, ASCII case, decimal numbers

use vstd::prelude::*;

verus! {

/// the pieces of `s` between the separators `c`, every piece kept, empty ones too
pub open spec fn split_spec(s: Seq<char>, c: char) -> Seq<Seq<char>>
    decreases s.len(),
{
    if s.len() == 0 {
        seq![seq![]]
    } else {
        let pieces = split_spec(s.drop_last(), c);
        if s.last() == c {
            pieces.push(seq![])
        } else {
            pieces.update(pieces.len() - 1, pieces.last().push(s.last()))
        }
    }
}

proof fn lemma_split_nonempty(s: Seq<char>, c: char)
    ensures
        split_spec(s, c).len() >= 1,
    decreases s.len(),
{
    if s.len() > 0 {
        lemma_split_nonempty(s.drop_last(), c);
    }
}

/// the position of the first `c` in `s`
pub open spec fn find_spec(s: Seq<char>, c: char) -> Option<nat>
    decreases s.len(),
{
    if s.len() == 0 {
        None
    } else if s[0] == c {
        Some(0)
    } else {
        match find_spec(s.drop_first(), c) {
            Some(k) => Some(k + 1),
            None => None,
        }
    }
}

/// `split_once`: the text before the first `c` and the text after it
pub open spec fn split_once_spec(s: Seq<char>, c: char) -> Option<(Seq<char>, Seq<char>)> {
    match find_spec(s, c) {
        Some(k) => Some((s.take(k as int), s.skip(k + 1 as int))),
        None => None,
    }
}

proof fn lemma_find_is(s: Seq<char>, c: char, k: int)
    requires
        0 <= k <= s.len(),
        forall|i: int| 0 <= i < k ==> #[trigger] s[i] != c,
    ensures
        k < s.len() && s[k] == c ==> find_spec(s, c) == Some(k as nat),
        k == s.len() ==> find_spec(s, c) is None,
    decreases s.len(),
{
    if s.len() > 0 && k > 0 {
        let t = s.drop_first();
        assert forall|i: int| 0 <= i < k - 1 implies #[trigger] t[i] != c by {
            assert(t[i] == s[i + 1]);
        }
        if k < s.len() {
            assert(t[k - 1] == s[k]);
        }
        lemma_find_is(t, c, k - 1);
    }
}

/// the first `c` splits the characters in two
pub fn split_once(s: &Vec<char>, c: char) -> (parts: Option<(Vec<char>, Vec<char>)>)
    ensures
        match parts {
            Some((before, after)) => split_once_spec(s@, c) == Some((before@, after@)),
            None => split_once_spec(s@, c) is None,
        },
{
    let n = s.len();
    let mut k: usize = 0;
    while k < n && s[k] != c
        invariant
            k <= n,
            n == s@.len(),
            forall|i: int| 0 <= i < k ==> #[trigger] s@[i] != c,
        decreases n - k,
    {
        k += 1;
    }
    proof {
        lemma_find_is(s@, c, k as int);
    }
    if k == n {
        return None;
    }
    let before = slice_of(s, 0, k);
    let after = slice_of(s, k + 1, n);
    Some((before, after))
}

/// the characters from `from` up to `to`
pub fn slice_of(s: &Vec<char>, from: usize, to: usize) -> (part: Vec<char>)
    requires
        from <= to <= s@.len(),
    ensures
        part@ == s@.subrange(from as int, to as int),
{
    let mut part: Vec<char> = Vec::new();
    let mut i = from;
    while i < to
        invariant
            from <= i <= to,
            to <= s@.len(),
            part@ == s@.subrange(from as int, i as int),
        decreases to - i,
    {
        part.push(s[i]);
        i += 1;
        assert(part@ =~= s@.subrange(from as int, i as int));
    }
    part
}

/// the pieces between the separators, every piece kept
pub fn split(s: &Vec<char>, c: char) -> (pieces: Vec<Vec<char>>)
    ensures
        pieces@.map_values(|p: Vec<char>| p@) == split_spec(s@, c),
{
    let mut pieces: Vec<Vec<char>> = Vec::new();
    let mut current: Vec<char> = Vec::new();
    let n = s.len();
    let mut i: usize = 0;
    assert(s@.take(0) =~= Seq::<char>::empty());
    while i < n
        invariant
            i <= n,
            n == s@.len(),
            pieces@.map_values(|p: Vec<char>| p@).push(current@) == split_spec(s@.take(i as int), c),
        decreases n - i,
    {
        let ch = s[i];
        let ghost before = pieces@.map_values(|p: Vec<char>| p@).push(current@);
        assert(s@.take(i + 1).drop_last() =~= s@.take(i as int));
        assert(s@.take(i + 1).last() == ch);
        if ch == c {
            let done = current;
            pieces.push(done);
            current = Vec::new();
            assert(pieces@.map_values(|p: Vec<char>| p@).push(current@) =~= before.push(seq![]));
        } else {
            current.push(ch);
            assert(pieces@.map_values(|p: Vec<char>| p@).push(current@) =~= before.update(
                before.len() - 1,
                before.last().push(ch),
            ));
        }
        i += 1;
    }
    assert(s@.take(n as int) =~= s@);
    pieces.push(current);
    pieces
}

/// the ASCII lowercase of a character
pub open spec fn lower_spec(c: char) -> char {
    if 'A' <= c <= 'Z' {
        ((c as u32) + 32) as char
    } else {
        c
    }
}

/// the text with its ASCII letters in lowercase
pub open spec fn lowercase_spec(s: Seq<char>) -> Seq<char> {
    s.map_values(|c: char| lower_spec(c))
}

pub fn lower(c: char) -> (l: char)
    ensures
        l == lower_spec(c),
{
    if 'A' <= c && c <= 'Z' {
        ((c as u32 + 32) as u8) as char
    } else {
        c
    }
}

/// the two texts are equal once their ASCII letters are in lowercase
pub fn eq_ignore_ascii_case(a: &Vec<char>, b: &str) -> (same: bool)
    ensures
        same == (lowercase_spec(a@) == lowercase_spec(b@)),
{
    let bs = crate::common::chars_of(b);
    if a.len() != bs.len() {
        assert(lowercase_spec(a@).len() != lowercase_spec(b@).len());
        return false;
    }
    let mut i: usize = 0;
    while i < a.len()
        invariant
            i <= a@.len(),
            a@.len() == bs@.len(),
            bs@ == b@,
            forall|k: int| 0 <= k < i ==> lower_spec(a@[k]) == lower_spec(#[trigger] bs@[k]),
        decreases a@.len() - i,
    {
        if lower(a[i]) != lower(bs[i]) {
            assert(lowercase_spec(a@)[i as int] != lowercase_spec(b@)[i as int]);
            return false;
        }
        i += 1;
    }
    assert(lowercase_spec(a@) =~= lowercase_spec(b@));
    true
}

/// an ASCII digit
pub open spec fn is_digit(c: char) -> bool {
    '0' <= c <= '9'
}

/// the value of a run of ASCII digits
pub open spec fn digits_value(s: Seq<char>) -> nat
    decreases s.len(),
{
    if s.len() == 0 {
        0
    } else {
        digits_value(s.drop_last()) * 10 + ((s.last() as u32) - 48) as nat
    }
}

/// what `str::parse` reads as an integer: an optional sign, `-` only where negatives are allowed, then at least one ASCII digit and nothing else
pub open spec fn parse_int_spec(s: Seq<char>, signed: bool) -> Option<int> {
    let negative = sign_negative(s, signed);
    let digits = sign_digits(s, signed);
    if digits.len() > 0 && forall|i: int| 0 <= i < digits.len() ==> is_digit(#[trigger] digits[i]) {
        if negative {
            Some(-(digits_value(digits) as int))
        } else {
            Some(digits_value(digits) as int)
        }
    } else {
        None
    }
}

/// a leading `-` is read as a sign
pub open spec fn sign_negative(s: Seq<char>, signed: bool) -> bool {
    !(s.len() > 0 && s[0] == '+') && signed && s.len() > 0 && s[0] == '-'
}

/// the text after its sign
pub open spec fn sign_digits(s: Seq<char>, signed: bool) -> Seq<char> {
    if s.len() > 0 && (s[0] == '+' || (signed && s[0] == '-')) {
        s.drop_first()
    } else {
        s
    }
}

/// `str::parse::<i32>`: the number, None when the text is no integer or leaves the range
pub open spec fn parse_i32_spec(s: Seq<char>) -> Option<i32> {
    match parse_int_spec(s, true) {
        Some(v) if i32::MIN <= v <= i32::MAX => Some(v as i32),
        _ => None,
    }
}

/// `str::parse::<u32>`: the number, None when the text is no integer or leaves the range
pub open spec fn parse_u32_spec(s: Seq<char>) -> Option<u32> {
    match parse_int_spec(s, false) {
        Some(v) if 0 <= v <= u32::MAX => Some(v as u32),
        _ => None,
    }
}

/// the integer a text spells, up to a bound, None when the text is no integer or the value passes the bound
fn parse_bounded(s: &Vec<char>, signed: bool, max_positive: u64, max_negative: u64) -> (value: Option<(bool, u64)>)
    requires
        max_positive < 0x1_0000_0000,
        max_negative < 0x1_0000_0000,
    ensures
        match value {
            Some((negative, magnitude)) => parse_int_spec(s@, signed) == Some(
                if negative {
                    -(magnitude as int)
                } else {
                    magnitude as int
                },
            ) && (if negative {
                magnitude <= max_negative
            } else {
                magnitude <= max_positive
            }),
            None => match parse_int_spec(s@, signed) {
                Some(v) => v > max_positive || v < -(max_negative as int),
                None => true,
            },
        },
{
    let n = s.len();
    let mut start: usize = 0;
    let mut negative = false;
    if n > 0 && s[0] == '+' {
        start = 1;
    } else if signed && n > 0 && s[0] == '-' {
        start = 1;
        negative = true;
    }
    let ghost digits = s@.skip(start as int);
    assert(negative == sign_negative(s@, signed));
    proof {
        if start == 1 {
            assert(digits =~= s@.drop_first());
        } else {
            assert(digits =~= s@);
        }
        assert(digits == sign_digits(s@, signed));
    }
    if start == n {
        return None;
    }
    let limit = if negative {
        max_negative
    } else {
        max_positive
    };
    let mut acc: u64 = 0;
    let mut i = start;
    let mut over = false;
    assert(digits.take(0) =~= Seq::<char>::empty());
    while i < n
        invariant
            start <= i <= n,
            n == s@.len(),
            start < n,
            digits == s@.skip(start as int),
            digits == sign_digits(s@, signed),
            negative == sign_negative(s@, signed),
            limit == (if negative {
                max_negative
            } else {
                max_positive
            }),
            limit < 0x1_0000_0000,
            forall|k: int| 0 <= k < i - start ==> is_digit(#[trigger] digits[k]),
            !over ==> acc == digits_value(digits.take(i - start)),
            !over ==> acc <= limit,
            over ==> digits_value(digits.take(i - start)) > limit,
        decreases n - i,
    {
        let c = s[i];
        assert(digits[i - start] == c);
        if !('0' <= c && c <= '9') {
            assert(!is_digit(digits[i - start]));
            return None;
        }
        let d = (c as u32 - 48) as u64;
        proof {
            assert(digits.take(i - start + 1).drop_last() =~= digits.take(i - start));
            assert(digits.take(i - start + 1).last() == c);
        }
        if !over {
            acc = acc * 10 + d;
            if acc > limit {
                over = true;
            }
        } else {
            proof {
                let prev = digits_value(digits.take(i - start));
                assert(prev * 10 + d >= prev);
            }
        }
        i += 1;
    }
    assert(digits.take(n - start) =~= digits);
    if over {
        None
    } else {
        Some((negative, acc))
    }
}

/// `str::parse::<i32>`
pub fn parse_i32(s: &Vec<char>) -> (value: Option<i32>)
    ensures
        value == parse_i32_spec(s@),
{
    match parse_bounded(s, true, 2147483647, 2147483648) {
        Some((negative, magnitude)) => {
            if negative {
                Some((0 - (magnitude as i64)) as i32)
            } else {
                Some(magnitude as i32)
            }
        },
        None => None,
    }
}

/// `str::parse::<u32>`
pub fn parse_u32(s: &Vec<char>) -> (value: Option<u32>)
    ensures
        value == parse_u32_spec(s@),
{
    match parse_bounded(s, false, 4294967295, 0) {
        Some((_, magnitude)) => Some(magnitude as u32),
        None => None,
    }
}

} // verus!
