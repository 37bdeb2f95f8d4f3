//! a Things 3 entity identifier, the 16 bytes behind a canonical base58 id
//!
//! the uuid ids of histories from before base58 ids are not read

use crate::ids::digits::{
    all_below, be_value, le_digits, le_minimal, le_value, leading_count, lemma_be_reversed,
    lemma_be_skip_zeros, lemma_be_take_step, lemma_be_upper, lemma_le_lower, lemma_le_push,
    lemma_le_digits, lemma_le_top_zero, lemma_le_unique, lemma_leading_count,
    lemma_leading_count_props, lemma_power_adds,
    lemma_power_base_monotone, lemma_power_monotone, lemma_power_positive, power, reversed,
};
use vstd::prelude::*;
use vstd::string::StringSliceAdditionalSpecFns;

verus! {

/// a Things 3 entity identifier, the 16 bytes behind a canonical base58 id
#[derive(Debug, Clone, Copy, Eq, Hash, PartialOrd, Ord)]
pub struct ThingsId(pub [u8; 16]);

impl View for ThingsId {
    type V = Seq<u8>;

    open spec fn view(&self) -> Seq<u8> {
        self.0@
    }
}

impl PartialEq for ThingsId {
    fn eq(&self, other: &Self) -> (same: bool) {
        let mut i: usize = 0;
        while i < 16
            invariant
                i <= 16,
                forall|k: int| 0 <= k < i ==> self.0@[k] == other.0@[k],
            decreases 16 - i,
        {
            if self.0[i] != other.0[i] {
                return false;
            }
            i += 1;
        }
        assert(self.0@ =~= other.0@);
        true
    }
}

impl vstd::std_specs::cmp::PartialEqSpecImpl for ThingsId {
    open spec fn obeys_eq_spec() -> bool {
        true
    }

    open spec fn eq_spec(&self, other: &Self) -> bool {
        self.0@ == other.0@
    }
}

/// the text of an id, its base58 bytes as characters
pub open spec fn id_text(id: ThingsId) -> Seq<char> {
    base58_spec(id@).map_values(|b: u8| b as char)
}

/// 16 bytes no process could predict
#[verifier::external_body]
fn random_bytes() -> (bytes: [u8; 16]) {
    rand::random()
}

/// `u128::to_be_bytes`: the bytes of the number, most significant first
#[verifier::external_body]
fn u128_be_bytes(value: u128) -> (bytes: [u8; 16])
    ensures
        be_value(bytes@, 256) == value,
{
    value.to_be_bytes()
}

/// `String::push`: the string with one more character at its end
#[verifier::external_body]
pub fn push_char(text: &mut String, c: char)
    ensures
        final(text)@ == old(text)@.push(c),
{
    text.push(c)
}

/// how Rust's `Debug` writes a string: quoted, with quotes, backslashes and control characters escaped
pub uninterp spec fn debug_str_spec(text: Seq<char>) -> Seq<char>;

/// `format!("{:?}", text)` for a string
#[verifier::external_body]
pub(crate) fn debug_str(text: &str) -> (shown: String)
    ensures
        shown@ == debug_str_spec(text@),
{
    format!("{:?}", text)
}

impl ThingsId {
    /// a fresh id from 16 random bytes
    pub fn random() -> (id: ThingsId)
        ensures
            1 <= id_text(id).len() <= 22,
    {
        let id = ThingsId(random_bytes());
        proof {
            lemma_base58_len(id@);
        }
        id
    }

    /// the id whose bytes spell `value`, most significant byte first
    pub fn from_u128(value: u128) -> (id: ThingsId)
        ensures
            be_value(id@, 256) == value,
    {
        ThingsId(u128_be_bytes(value))
    }

    pub fn as_bytes(&self) -> (bytes: &[u8; 16])
        ensures
            bytes@ == self@,
    {
        &self.0
    }

    /// the id's text begins with `prefix`
    pub fn starts_with(&self, prefix: &str) -> (found: bool)
        ensures
            found == prefix.spec_bytes().is_prefix_of(base58_spec(self@)),
    {
        let (buf, len) = base58_encode_fixed(&self.0);
        let wanted = prefix.as_bytes();
        let n = wanted.len();
        if n > len {
            return false;
        }
        let mut i: usize = 0;
        while i < n
            invariant
                i <= n,
                n <= len,
                len <= 22,
                buf@.len() == 22,
                wanted@ == prefix.spec_bytes(),
                buf@.take(len as int) == base58_spec(self@),
                n == wanted@.len(),
                forall|k: int| 0 <= k < i ==> wanted@[k] == buf@[k],
            decreases n - i,
        {
            if wanted[i] != buf[i] {
                assert(buf@.take(len as int)[i as int] == buf@[i as int]);
                assert(base58_spec(self@).subrange(0, n as int)[i as int] != wanted@[i as int]);
                return false;
            }
            i += 1;
        }
        assert forall|k: int| 0 <= k < n implies wanted@[k] == buf@.take(len as int)[k] by {}
        true
    }

    /// the id's canonical base58 text
    pub fn to_string(&self) -> (text: String)
        ensures
            text@ == id_text(*self),
            1 <= text@.len() <= 22,
    {
        let (buf, len) = base58_encode_fixed(&self.0);
        let ghost encoded = base58_spec(self@);
        let mut text = String::new();
        let mut i: usize = 0;
        while i < len
            invariant
                i <= len,
                len <= 22,
                buf@.len() == 22,
                buf@.take(len as int) == encoded,
                text@ == encoded.take(i as int).map_values(|b: u8| b as char),
            decreases len - i,
        {
            let ghost before = text@;
            push_char(&mut text, buf[i] as char);
            proof {
                assert(buf@.take(len as int)[i as int] == buf@[i as int]);
                assert(text@ =~= encoded.take(i + 1).map_values(|b: u8| b as char));
            }
            i += 1;
        }
        assert(encoded.take(len as int) =~= encoded);
        text
    }

    /// the id a text names, or the text refused
    pub fn parse(text: &str) -> (res: Result<ThingsId, ParseThingsIdError>)
        ensures
            match res {
                Ok(id) => parse_spec(text.spec_bytes()) == Some(id@) && text.spec_bytes() == base58_spec(id@),
                Err(error) => parse_spec(text.spec_bytes()) is None && error.0@ == text@,
            },
    {
        let n = text.as_bytes().len();
        if n == 0 || n > 22 {
            return Err(ParseThingsIdError(text.to_owned()));
        }
        let decoded = match base58_decode(text) {
            Some(decoded) => decoded,
            None => {
                return Err(ParseThingsIdError(text.to_owned()));
            },
        };
        if decoded.len() != 16 {
            return Err(ParseThingsIdError(text.to_owned()));
        }
        let mut bytes = [0u8; 16];
        let mut i: usize = 0;
        while i < 16
            invariant
                i <= 16,
                decoded@.len() == 16,
                bytes@.len() == 16,
                forall|k: int| 0 <= k < i ==> bytes@[k] == decoded@[k],
            decreases 16 - i,
        {
            bytes[i] = decoded[i];
            i += 1;
        }
        assert(bytes@ =~= decoded@);
        proof {
            lemma_only_canonical_text_parses(text.spec_bytes(), bytes@);
        }
        Ok(ThingsId(bytes))
    }
}

impl core::str::FromStr for ThingsId {
    type Err = ParseThingsIdError;

    fn from_str(text: &str) -> (res: Result<Self, Self::Err>)
        ensures
            match res {
                Ok(id) => parse_spec(text.spec_bytes()) == Some(id@) && text.spec_bytes() == base58_spec(id@),
                Err(error) => parse_spec(text.spec_bytes()) is None && error.0@ == text@,
            },
    {
        ThingsId::parse(text)
    }
}

/// a string that is no [`ThingsId`]
#[derive(Debug)]
pub struct ParseThingsIdError(pub String);

impl ParseThingsIdError {
    /// the refusal as a message shows it
    pub fn message(&self) -> (text: String)
        ensures
            text@ == "invalid Things ID: "@ + debug_str_spec(self.0@),
    {
        let mut text = String::from_str("invalid Things ID: ");
        let shown = debug_str(self.0.as_str());
        text.append(shown.as_str());
        text
    }
}

/// the character of a base58 digit, in the alphabet `1-9 A-H J-N P-Z a-k m-z`
pub open spec fn base58_char_spec(d: u8) -> u8 {
    if d < 9 {
        (49 + d) as u8
    } else if d < 17 {
        (56 + d) as u8
    } else if d < 22 {
        (57 + d) as u8
    } else if d < 33 {
        (58 + d) as u8
    } else if d < 44 {
        (64 + d) as u8
    } else {
        (65 + d) as u8
    }
}

/// the digit a character of the base58 alphabet stands for, None for any other byte
pub open spec fn base58_digit_spec(c: u8) -> Option<u8> {
    if 49 <= c <= 57 {
        Some((c - 49) as u8)
    } else if 65 <= c <= 72 {
        Some((c - 56) as u8)
    } else if 74 <= c <= 78 {
        Some((c - 57) as u8)
    } else if 80 <= c <= 90 {
        Some((c - 58) as u8)
    } else if 97 <= c <= 107 {
        Some((c - 64) as u8)
    } else if 109 <= c <= 122 {
        Some((c - 65) as u8)
    } else {
        None
    }
}

/// `n` copies of `x`
pub open spec fn repeated(x: u8, n: nat) -> Seq<u8> {
    Seq::new(n, |_i: int| x)
}

/// the base58 text of `raw`: a `1` for every leading zero byte, then the base58 digits of the number the bytes spell, most significant first
pub open spec fn base58_spec(raw: Seq<u8>) -> Seq<u8> {
    repeated(49, leading_count(raw, 0)) + reversed(le_digits(be_value(raw, 256), 58)).map_values(
        |d: u8| base58_char_spec(d),
    )
}

/// the digits of a run of base58 characters
pub open spec fn base58_digits_of(text: Seq<u8>) -> Seq<u8> {
    text.map_values(|c: u8| base58_digit_spec(c)->0)
}

/// every byte of `text` is a base58 character
pub open spec fn all_base58(text: Seq<u8>) -> bool {
    forall|i: int| 0 <= i < text.len() ==> (#[trigger] base58_digit_spec(text[i])) is Some
}

/// the bytes a base58 text stands for: a zero byte for every leading `1`, then the bytes of the number the remaining digits spell, None when a character is outside the alphabet
pub open spec fn base58_decode_spec(text: Seq<u8>) -> Option<Seq<u8>> {
    let z = leading_count(text, 49);
    let rest = text.skip(z as int);
    if all_base58(rest) {
        Some(
            repeated(0, z) + reversed(le_digits(be_value(base58_digits_of(rest), 58), 256)),
        )
    } else {
        None
    }
}

/// the id a text names: one to 22 bytes decoding to exactly 16
pub open spec fn parse_spec(text: Seq<u8>) -> Option<Seq<u8>> {
    if text.len() == 0 || text.len() > 22 {
        None
    } else {
        match base58_decode_spec(text) {
            Some(bytes) if bytes.len() == 16 => Some(bytes),
            _ => None,
        }
    }
}

pub proof fn lemma_base58_char_digit(d: u8)
    requires
        d < 58,
    ensures
        base58_digit_spec(base58_char_spec(d)) == Some(d),
        base58_char_spec(d) == 49 <==> d == 0,
        base58_char_spec(d) < 128,
{
}

/// a first byte that is not zero makes the big-endian value positive
proof fn lemma_be_positive(s: Seq<u8>)
    requires
        s.len() > 0,
        s[0] != 0,
    ensures
        be_value(s, 256) >= 1,
{
    let r = reversed(s);
    assert(reversed(r) =~= s);
    lemma_be_reversed(r, 256);
    assert(r.last() == s[0]);
    lemma_le_lower(r, 256);
    lemma_power_positive(256, (r.len() - 1) as nat);
}

/// 16 bytes take at most 22 base58 characters, however many of them lead with zero
proof fn lemma_room(z: nat)
    requires
        z <= 16,
    ensures
        power(256, (16 - z) as nat) <= power(58, (22 - z) as nat),
{
    reveal_with_fuel(power, 23);
    assert(power(256, 16) == 340282366920938463463374607431768211456nat);
    assert(power(58, 22) == 624332378391008467754527498760580235264nat);
    lemma_power_adds(256, (16 - z) as nat, z);
    lemma_power_adds(58, (22 - z) as nat, z);
    assert((16 - z) as nat + z == 16);
    assert((22 - z) as nat + z == 22);
    lemma_power_base_monotone(58, 256, z);
    lemma_power_positive(256, z);
    let a = power(256, (16 - z) as nat);
    let b = power(58, (22 - z) as nat);
    let p = power(256, z);
    let q = power(58, z);
    assert(a <= b) by (nonlinear_arith)
        requires
            a * p <= b * q,
            q <= p,
            p >= 1,
    ;
}

proof fn lemma_power_converse(b: nat, e1: nat, e2: nat)
    requires
        b >= 1,
        power(b, e1) < power(b, e2),
    ensures
        e1 < e2,
{
    if e1 >= e2 {
        lemma_power_monotone(b, e2, e1);
    }
}

/// one step of multiply-and-carry: digit `d` of the old number times `m` plus the carry, split into a digit and a new carry in base `bb`
proof fn lemma_carry_step(a_new: int, a_old: int, c: int, p: int, d: int, m: int, bb: int, x: int)
    requires
        bb > 0,
        a_new + c * p == a_old * m + x,
    ensures
        ({
            let v = d * m + c;
            (a_new + (v % bb) * p) + (v / bb) * (bb * p) == (a_old + d * p) * m + x
        }),
{
    let v = d * m + c;
    vstd::arithmetic::div_mod::lemma_fundamental_div_mod(v, bb);
    assert((v / bb) * (bb * p) == (bb * (v / bb)) * p) by (nonlinear_arith);
    assert((v % bb) * p + (bb * (v / bb)) * p == v * p) by (nonlinear_arith)
        requires
            v == bb * (v / bb) + v % bb,
    ;
    assert(v * p == d * p * m + c * p) by (nonlinear_arith)
        requires
            v == d * m + c,
    ;
    assert((a_old + d * p) * m == a_old * m + d * p * m) by (nonlinear_arith);
}

/// the character of a base58 digit
pub fn base58_char(d: u8) -> (c: u8)
    requires
        d < 58,
    ensures
        c == base58_char_spec(d),
{
    if d < 9 {
        49 + d
    } else if d < 17 {
        56 + d
    } else if d < 22 {
        57 + d
    } else if d < 33 {
        58 + d
    } else if d < 44 {
        64 + d
    } else {
        65 + d
    }
}

/// the digit a base58 character stands for
pub fn base58_digit(byte: u8) -> (d: Option<u8>)
    ensures
        d == base58_digit_spec(byte),
{
    if 49 <= byte && byte <= 57 {
        Some(byte - 49)
    } else if 65 <= byte && byte <= 72 {
        Some(byte - 56)
    } else if 74 <= byte && byte <= 78 {
        Some(byte - 57)
    } else if 80 <= byte && byte <= 90 {
        Some(byte - 58)
    } else if 97 <= byte && byte <= 107 {
        Some(byte - 64)
    } else if 109 <= byte && byte <= 122 {
        Some(byte - 65)
    } else {
        None
    }
}

/// 16 bytes as base58 in a stack buffer, with the number of bytes the encoding takes
pub fn base58_encode_fixed(raw: &[u8; 16]) -> (res: ([u8; 22], usize))
    ensures
        1 <= res.1 <= 22,
        res.0@.take(res.1 as int) == base58_spec(raw@),
{
    let mut digits = [0u8; 22];
    let mut len: usize = 0;
    let mut i: usize = 0;
    assert(raw@.take(0) =~= Seq::<u8>::empty());
    assert(digits@.take(0) =~= Seq::<u8>::empty());
    while i < 16
        invariant
            i <= 16,
            len <= 22,
            digits@.len() == 22,
            all_below(digits@.take(len as int), 58),
            le_minimal(digits@.take(len as int)),
            le_value(digits@.take(len as int), 58) == be_value(raw@.take(i as int), 256),
        decreases 16 - i,
    {
        let byte = raw[i];
        let mut carry: u32 = byte as u32;
        let ghost old_digits = digits@;
        let ghost old_value = le_value(digits@.take(len as int), 58);
        let ghost target = old_value * 256 + byte as nat;
        proof {
            lemma_be_take_step(raw@, i as int, 256);
            assert(target == be_value(raw@.take(i + 1), 256));
            assert(all_below(raw@.take(i + 1), 256));
            lemma_be_upper(raw@.take(i + 1), 256);
            lemma_power_monotone(256, (i + 1) as nat, 16);
            lemma_room(0);
            assert(digits@.take(0) =~= Seq::<u8>::empty());
            assert(old_digits.take(0) =~= Seq::<u8>::empty());
            assert(power(58, 0) == 1);
            assert(carry as nat * 1 == carry as nat);
        }
        let mut j: usize = 0;
        while j < len
            invariant
                j <= len,
                len <= 22,
                digits@.len() == 22,
                old_digits.len() == 22,
                carry < 256,
                forall|k: int| j <= k < 22 ==> digits@[k] == old_digits[k],
                all_below(old_digits.take(len as int), 58),
                all_below(digits@.take(j as int), 58),
                le_value(digits@.take(j as int), 58) + carry as nat * power(58, j as nat)
                    == le_value(old_digits.take(j as int), 58) * 256 + byte as nat,
            decreases len - j,
        {
            let ghost before = digits@;
            let dj = digits[j];
            assert(old_digits.take(len as int)[j as int] == old_digits[j as int]);
            assert(dj < 58);
            let value: u32 = (dj as u32) * 256 + carry;
            digits[j] = (value % 58) as u8;
            carry = value / 58;
            proof {
                assert(digits@.take(j + 1) =~= before.take(j as int).push((value % 58) as u8));
                assert(old_digits.take(j + 1) =~= old_digits.take(j as int).push(dj));
                lemma_le_push(before.take(j as int), (value % 58) as u8, 58);
                lemma_le_push(old_digits.take(j as int), dj, 58);
                lemma_carry_step(
                    le_value(before.take(j as int), 58) as int,
                    le_value(old_digits.take(j as int), 58) as int,
                    (value - dj * 256) as int,
                    power(58, j as nat) as int,
                    dj as int,
                    256,
                    58,
                    byte as int,
                );
                assert(power(58, (j + 1) as nat) == 58 * power(58, j as nat));
                assert forall|k: int| 0 <= k < j + 1 implies #[trigger] digits@.take(j + 1)[k]
                    < 58 by {
                    if k < j {
                        assert(digits@.take(j + 1)[k] == before.take(j as int)[k]);
                    }
                }
            }
            j += 1;
        }
        assert(old_digits.take(len as int) =~= old_digits.take(j as int));
        let ghost pushed = false;
        proof {
            if carry == 0 && len > 0 {
                // the new top digit cannot be zero: the number grew by a factor of 256
                lemma_le_lower(old_digits.take(len as int), 58);
                if digits@.take(len as int).last() == 0 {
                    lemma_le_top_zero(digits@.take(len as int), 58);
                    lemma_power_positive(58, (len - 1) as nat);
                    assert(false);
                }
            }
        }
        while carry > 0
            invariant
                len <= 22,
                digits@.len() == 22,
                all_below(digits@.take(len as int), 58),
                le_value(digits@.take(len as int), 58) + carry as nat * power(58, len as nat)
                    == target,
                target < power(58, 22),
                carry == 0 ==> le_minimal(digits@.take(len as int)),
            decreases carry,
        {
            proof {
                lemma_power_positive(58, len as nat);
                assert(power(58, len as nat) <= carry as nat * power(58, len as nat))
                    by (nonlinear_arith)
                    requires
                        carry >= 1,
                ;
                if len >= 22 {
                    lemma_power_monotone(58, 22, len as nat);
                    assert(false);
                }
            }
            let ghost before = digits@;
            let d = (carry % 58) as u8;
            digits[len] = d;
            let ghost old_carry = carry;
            carry = carry / 58;
            proof {
                assert(digits@.take(len + 1) =~= before.take(len as int).push(d));
                lemma_le_push(before.take(len as int), d, 58);
                vstd::arithmetic::div_mod::lemma_fundamental_div_mod(old_carry as int, 58);
                let p = power(58, len as nat);
                assert(power(58, (len + 1) as nat) == 58 * p);
                assert(old_carry as nat * p == d as nat * p + carry as nat * (58 * p))
                    by (nonlinear_arith)
                    requires
                        old_carry as int == 58 * (carry as int) + d as int,
                ;
                assert forall|k: int| 0 <= k < len + 1 implies #[trigger] digits@.take(len + 1)[k]
                    < 58 by {
                    if k < len {
                        assert(digits@.take(len + 1)[k] == before.take(len as int)[k]);
                    }
                }
                if carry == 0 {
                    assert(d == old_carry);
                    assert(digits@.take(len + 1).last() == d);
                }
            }
            len += 1;
        }
        i += 1;
    }
    assert(raw@.take(16) =~= raw@);
    let ghost dig = digits@.take(len as int);
    let ghost value = be_value(raw@, 256);
    proof {
        lemma_le_unique(dig, 58);
    }
    let mut leading_ones: usize = 0;
    while leading_ones < 16 && raw[leading_ones] == 0
        invariant
            leading_ones <= 16,
            forall|k: int| 0 <= k < leading_ones ==> raw@[k] == 0,
        decreases 16 - leading_ones,
    {
        leading_ones += 1;
    }
    proof {
        lemma_leading_count(raw@, 0, leading_ones as int);
        lemma_be_skip_zeros(raw@, leading_ones as int, 256);
        let rest = raw@.skip(leading_ones as int);
        assert(all_below(rest, 256));
        lemma_be_upper(rest, 256);
        if leading_ones < 16 {
            assert(rest[0] == raw@[leading_ones as int]);
            lemma_be_positive(rest);
        }
        if len > 0 {
            lemma_le_lower(dig, 58);
            lemma_room(leading_ones as nat);
            lemma_power_converse(58, (len - 1) as nat, (22 - leading_ones) as nat);
        } else {
            assert(dig =~= Seq::<u8>::empty());
        }
    }
    let total = leading_ones + len;
    let mut out = [0u8; 22];
    let mut k: usize = 0;
    while k < leading_ones
        invariant
            k <= leading_ones,
            leading_ones <= 16,
            out@.len() == 22,
            forall|m: int| 0 <= m < k ==> out@[m] == 49,
        decreases leading_ones - k,
    {
        out[k] = 49;
        k += 1;
    }
    let mut t: usize = 0;
    while t < len
        invariant
            t <= len,
            leading_ones + len <= 22,
            digits@.len() == 22,
            dig == digits@.take(len as int),
            all_below(dig, 58),
            out@.len() == 22,
            forall|m: int| 0 <= m < leading_ones ==> out@[m] == 49,
            forall|m: int|
                leading_ones <= m < leading_ones + t ==> #[trigger] out@[m] == base58_char_spec(
                    dig[len - 1 - (m - leading_ones)],
                ),
        decreases len - t,
    {
        let d = digits[len - 1 - t];
        assert(d == dig[len - 1 - t]);
        out[leading_ones + t] = base58_char(d);
        t += 1;
    }
    proof {
        let expected = base58_spec(raw@);
        let tail = reversed(le_digits(value, 58)).map_values(|d: u8| base58_char_spec(d));
        assert(le_digits(value, 58) == dig);
        assert(expected.len() == total);
        assert forall|m: int| 0 <= m < total implies out@.take(total as int)[m] == expected[m] by {
            if m < leading_ones {
                assert(expected[m] == repeated(49, leading_ones as nat)[m]);
            } else {
                assert(expected[m] == tail[m - leading_ones]);
            }
        }
        assert(out@.take(total as int) =~= expected);
    }
    (out, total)
}

/// the bytes a base58 text stands for, None when a character is outside the alphabet
pub fn base58_decode(input: &str) -> (res: Option<Vec<u8>>)
    ensures
        match res {
            Some(bytes) => base58_decode_spec(input.spec_bytes()) == Some(bytes@),
            None => base58_decode_spec(input.spec_bytes()) is None,
        },
{
    let bytes = input.as_bytes();
    let n = bytes.len();
    let mut leading_ones: usize = 0;
    while leading_ones < n && bytes[leading_ones] == 49
        invariant
            leading_ones <= n,
            n == bytes@.len(),
            forall|k: int| 0 <= k < leading_ones ==> bytes@[k] == 49,
        decreases n - leading_ones,
    {
        leading_ones += 1;
    }
    proof {
        lemma_leading_count(bytes@, 49, leading_ones as int);
    }
    let ghost rest = bytes@.skip(leading_ones as int);
    let mut decoded: Vec<u8> = Vec::new();
    let mut pos: usize = leading_ones;
    assert(rest.take(0) =~= Seq::<u8>::empty());
    assert(base58_digits_of(rest.take(0)) =~= Seq::<u8>::empty());
    while pos < n
        invariant
            leading_ones <= pos <= n,
            n == bytes@.len(),
            bytes@ == input.spec_bytes(),
            leading_count(bytes@, 49) == leading_ones,
            rest == bytes@.skip(leading_ones as int),
            all_base58(rest.take(pos - leading_ones)),
            all_below(decoded@, 256),
            le_minimal(decoded@),
            le_value(decoded@, 256) == be_value(
                base58_digits_of(rest.take(pos - leading_ones)),
                58,
            ),
        decreases n - pos,
    {
        let ch = bytes[pos];
        let ghost done = (pos - leading_ones) as int;
        assert(rest[done] == ch);
        let digit = match base58_digit(ch) {
            Some(d) => d,
            None => {
                assert(base58_digit_spec(rest[done]) is None);
                assert(!all_base58(rest));
                assert(leading_count(input.spec_bytes(), 49) == leading_ones);
                assert(base58_decode_spec(input.spec_bytes()) is None);
                return None;
            },
        };
        proof {
            lemma_base58_digit_bound(ch);
        }
        let mut carry: u32 = digit as u32;
        let ghost old_digits = decoded@;
        let ghost old_value = le_value(decoded@, 256);
        let ghost target = old_value * 58 + digit as nat;
        let ghost digs = base58_digits_of(rest.take(done + 1));
        proof {
            assert(digs.drop_last() =~= base58_digits_of(rest.take(done)));
            assert(digs.last() == digit);
            assert(be_value(digs, 58) == target);
            assert(decoded@.take(0) =~= Seq::<u8>::empty());
            assert(old_digits.take(0) =~= Seq::<u8>::empty());
            assert(power(256, 0) == 1);
            assert(carry as nat * 1 == carry as nat);
        }
        let len = decoded.len();
        let mut j: usize = 0;
        while j < len
            invariant
                j <= len,
                len == old_digits.len(),
                decoded@.len() == len,
                carry < 58,
                forall|k: int| j <= k < len ==> decoded@[k] == old_digits[k],
                all_below(decoded@.take(j as int), 256),
                le_value(decoded@.take(j as int), 256) + carry as nat * power(256, j as nat)
                    == le_value(old_digits.take(j as int), 256) * 58 + digit as nat,
            decreases len - j,
        {
            let ghost before = decoded@;
            let b = decoded[j];
            let value: u32 = (b as u32) * 58 + carry;
            assert((value & 0xff) == value % 256 && (value >> 8) == value / 256) by (bit_vector);
            let low = value & 0xff;
            let high = value >> 8;
            decoded.set(j, low as u8);
            carry = high;
            proof {
                assert(decoded@.take(j + 1) =~= before.take(j as int).push((value % 256) as u8));
                assert(old_digits.take(j + 1) =~= old_digits.take(j as int).push(b));
                lemma_le_push(before.take(j as int), (value % 256) as u8, 256);
                lemma_le_push(old_digits.take(j as int), b, 256);
                lemma_carry_step(
                    le_value(before.take(j as int), 256) as int,
                    le_value(old_digits.take(j as int), 256) as int,
                    (value - b * 58) as int,
                    power(256, j as nat) as int,
                    b as int,
                    58,
                    256,
                    digit as int,
                );
                assert(power(256, (j + 1) as nat) == 256 * power(256, j as nat));
                assert forall|k: int| 0 <= k < j + 1 implies #[trigger] decoded@.take(j + 1)[k]
                    < 256 by {}
            }
            j += 1;
        }
        proof {
            assert(decoded@.take(len as int) =~= decoded@);
            assert(old_digits.take(len as int) =~= old_digits);
            if carry == 0 && len > 0 {
                // the number grew by a factor of 58, its top byte stays
                lemma_le_lower(old_digits, 256);
                if decoded@.last() == 0 {
                    lemma_le_top_zero(decoded@, 256);
                    lemma_power_positive(256, (len - 1) as nat);
                    assert(false);
                }
            }
        }
        while carry > 0
            invariant
                all_below(decoded@, 256),
                le_value(decoded@, 256) + carry as nat * power(256, decoded@.len()) == target,
                carry == 0 ==> le_minimal(decoded@),
            decreases carry,
        {
            let ghost before = decoded@;
            assert((carry & 0xff) == carry % 256 && (carry >> 8) == carry / 256) by (bit_vector);
            let low = carry & 0xff;
            let high = carry >> 8;
            decoded.push(low as u8);
            let ghost old_carry = carry;
            carry = high;
            proof {
                lemma_le_push(before, (old_carry % 256) as u8, 256);
                vstd::arithmetic::div_mod::lemma_fundamental_div_mod(old_carry as int, 256);
                let p = power(256, before.len());
                assert(power(256, decoded@.len()) == 256 * p);
                assert(old_carry as nat * p == (old_carry % 256) as nat * p + carry as nat * (
                256 * p)) by (nonlinear_arith)
                    requires
                        old_carry as int == 256 * (carry as int) + (old_carry % 256) as int,
                ;
                if carry == 0 {
                    assert(old_carry % 256 == old_carry);
                }
            }
        }
        proof {
            assert(rest.take(done + 1) =~= rest.take(done).push(ch));
            assert(all_base58(rest.take(done + 1))) by {
                assert forall|k: int| 0 <= k < done + 1 implies (#[trigger] base58_digit_spec(
                    rest.take(done + 1)[k],
                )) is Some by {
                    if k < done {
                        assert(rest.take(done + 1)[k] == rest.take(done)[k]);
                    }
                }
            }
        }
        pos += 1;
    }
    let mut out: Vec<u8> = Vec::new();
    let mut k: usize = 0;
    while k < leading_ones
        invariant
            k <= leading_ones,
            out@ == repeated(0, k as nat),
        decreases leading_ones - k,
    {
        out.push(0);
        k += 1;
        assert(out@ =~= repeated(0, k as nat));
    }
    let dlen = decoded.len();
    let mut t: usize = 0;
    while t < dlen
        invariant
            t <= dlen,
            dlen == decoded@.len(),
            out@ == repeated(0, leading_ones as nat) + reversed(decoded@).take(t as int),
        decreases dlen - t,
    {
        out.push(decoded[dlen - 1 - t]);
        t += 1;
        assert(out@ =~= repeated(0, leading_ones as nat) + reversed(decoded@).take(t as int));
    }
    proof {
        assert(reversed(decoded@).take(dlen as int) =~= reversed(decoded@));
        assert(rest.take(n - leading_ones) =~= rest);
        lemma_le_unique(decoded@, 256);
    }
    Some(out)
}

/// sixteen bytes take one to 22 base58 characters
pub proof fn lemma_base58_len(raw: Seq<u8>)
    requires
        raw.len() == 16,
    ensures
        1 <= base58_spec(raw).len() <= 22,
{
    let z = leading_count(raw, 0);
    let v = be_value(raw, 256);
    let dig = le_digits(v, 58);
    lemma_le_digits(v, 58);
    lemma_leading_count_props(raw, 0);
    lemma_be_skip_zeros(raw, z as int, 256);
    let rest = raw.skip(z as int);
    assert(all_below(rest, 256));
    lemma_be_upper(rest, 256);
    if z < 16 {
        assert(rest[0] == raw[z as int]);
        lemma_be_positive(rest);
    }
    if dig.len() > 0 {
        lemma_le_lower(dig, 58);
        lemma_room(z);
        lemma_power_converse(58, (dig.len() - 1) as nat, (22 - z) as nat);
    }
}

/// decoding the base58 text of any bytes gives the bytes back
pub proof fn lemma_base58_roundtrip(raw: Seq<u8>)
    ensures
        base58_decode_spec(base58_spec(raw)) == Some(raw),
{
    let z = leading_count(raw, 0);
    let v = be_value(raw, 256);
    let l = le_digits(v, 58);
    lemma_le_digits(v, 58);
    let t = reversed(l).map_values(|d: u8| base58_char_spec(d));
    let e = base58_spec(raw);
    assert(e =~= repeated(49, z) + t);
    assert forall|i: int| 0 <= i < t.len() implies #[trigger] t[i] == base58_char_spec(
        l[l.len() - 1 - i],
    ) && base58_digit_spec(t[i]) == Some(l[l.len() - 1 - i]) by {
        assert(l[l.len() - 1 - i] < 58);
        lemma_base58_char_digit(l[l.len() - 1 - i]);
    }
    // the text leads with exactly z ones
    if t.len() > 0 {
        assert(l.last() == l[l.len() - 1]);
        lemma_base58_char_digit(l.last());
        assert(e[z as int] == t[0]);
    }
    lemma_leading_count(e, 49, z as int);
    let rest = e.skip(z as int);
    assert(rest =~= t);
    assert(all_base58(rest));
    assert(base58_digits_of(rest) =~= reversed(l));
    lemma_be_reversed(l, 58);
    // the bytes after the leading zeros are the digits of the value in base 256
    lemma_leading_count_props(raw, 0);
    lemma_be_skip_zeros(raw, z as int, 256);
    let s = raw.skip(z as int);
    let rs = reversed(s);
    assert(reversed(rs) =~= s);
    lemma_be_reversed(rs, 256);
    assert(all_below(rs, 256));
    if rs.len() > 0 {
        assert(rs.last() == s[0]);
        assert(s[0] == raw[z as int]);
    }
    lemma_le_unique(rs, 256);
    assert(le_digits(v, 256) == rs);
    assert(raw =~= repeated(0, z) + s);
}

/// the text of an id parses back to the id
pub proof fn lemma_parse_of_base58(raw: Seq<u8>)
    requires
        raw.len() == 16,
    ensures
        parse_spec(base58_spec(raw)) == Some(raw),
{
    lemma_base58_len(raw);
    lemma_base58_roundtrip(raw);
}

/// the text of an id is ASCII, and its bytes are the base58 encoding
pub proof fn lemma_id_text_bytes(id: ThingsId)
    ensures
        vstd::utf8::is_ascii_chars(id_text(id)),
        vstd::utf8::encode_utf8(id_text(id)) == base58_spec(id@),
{
    let e = base58_spec(id@);
    let t = id_text(id);
    let z = leading_count(id@, 0);
    let l = le_digits(be_value(id@, 256), 58);
    lemma_le_digits(be_value(id@, 256), 58);
    assert forall|i: int| 0 <= i < e.len() implies #[trigger] e[i] < 128 by {
        if i >= z {
            let d = reversed(l)[i - z];
            assert(d == l[l.len() - 1 - (i - z)]);
            lemma_base58_char_digit(d);
        }
    }
    assert(vstd::utf8::is_ascii_chars(t)) by {
        assert forall|i: int| 0 <= i < t.len() implies '\0' <= #[trigger] t[i] <= '\u{7f}' by {
            assert(t[i] == e[i] as char);
            assert(e[i] < 128);
        }
    }
    vstd::utf8::is_ascii_chars_encode_utf8(t);
    assert forall|i: int| 0 <= i < e.len() implies vstd::utf8::encode_utf8(t)[i] == e[i] by {
        assert(t[i] as u8 == vstd::utf8::encode_utf8(t)[i]);
        assert(t[i] == e[i] as char);
        assert(e[i] < 128);
    }
    assert(vstd::utf8::encode_utf8(t) =~= e);
}

/// the text `to_string` gives parses back to the same id
pub proof fn lemma_to_string_parse(id: ThingsId, text: &str)
    requires
        text@ == id_text(id),
    ensures
        parse_spec(text.spec_bytes()) == Some(id@),
{
    lemma_id_text_bytes(id);
    lemma_parse_of_base58(id@);
}

proof fn lemma_base58_digit_bound(c: u8)
    requires
        base58_digit_spec(c) is Some,
    ensures
        base58_digit_spec(c)->0 < 58,
{
}

/// a base58 character's digit names it back
proof fn lemma_base58_digit_char(c: u8)
    requires
        base58_digit_spec(c) is Some,
    ensures
        base58_char_spec(base58_digit_spec(c)->0) == c,
        base58_digit_spec(c)->0 < 58,
{
}

/// Every character of an id's text is in the base58 alphabet.
pub proof fn lemma_id_text_alphabet(raw: Seq<u8>)
    ensures
        all_base58(base58_spec(raw)),
{
    let z = leading_count(raw, 0);
    let l = le_digits(be_value(raw, 256), 58);
    lemma_le_digits(be_value(raw, 256), 58);
    let e = base58_spec(raw);
    assert forall|i: int| 0 <= i < e.len() implies (#[trigger] base58_digit_spec(e[i])) is Some by {
        if i >= z {
            let d = reversed(l)[i - z];
            assert(d == l[l.len() - 1 - (i - z)]);
            lemma_base58_char_digit(d);
        }
    }
}

/// Only an id's own text parses to it: a text that names an id is the base58 text of that id,
/// so no other spelling of the id, with more leading ones or otherwise, is taken.
pub proof fn lemma_only_canonical_text_parses(text: Seq<u8>, raw: Seq<u8>)
    requires
        parse_spec(text) == Some(raw),
    ensures
        text == base58_spec(raw),
{
    let z = leading_count(text, 49);
    let rest = text.skip(z as int);
    lemma_leading_count_props(text, 49);
    assert(all_base58(rest));
    let digits = base58_digits_of(rest);
    let v = be_value(digits, 58);
    let lv = le_digits(v, 256);
    lemma_le_digits(v, 256);
    let body = reversed(lv);
    assert(raw =~= repeated(0, z) + body);
    // the zero bytes lead the id exactly as the ones lead the text
    if body.len() > 0 {
        assert(body[0] == lv.last());
        assert(raw[z as int] == body[0]);
    }
    lemma_leading_count(raw, 0, z as int);
    // the value of the id is the value the digits spell
    lemma_be_skip_zeros(raw, z as int, 256);
    assert(raw.skip(z as int) =~= body);
    lemma_be_reversed(lv, 256);
    assert(be_value(raw, 256) == v);
    // the digits, read least significant first, are the base58 digits of that value
    let rd = reversed(digits);
    assert(reversed(rd) =~= digits);
    lemma_be_reversed(rd, 58);
    assert forall|i: int| 0 <= i < rd.len() implies #[trigger] rd[i] < 58 by {
        assert(rd[i] == digits[digits.len() - 1 - i]);
        lemma_base58_digit_char(rest[digits.len() - 1 - i]);
    }
    if rd.len() > 0 {
        assert(rd.last() == digits[0]);
        assert(rest[0] == text[z as int]);
        lemma_base58_digit_char(rest[0]);
    }
    lemma_le_unique(rd, 58);
    assert(le_digits(v, 58) == rd);
    // and each digit is written back as the character it was read from
    let written = reversed(le_digits(v, 58)).map_values(|d: u8| base58_char_spec(d));
    assert forall|i: int| 0 <= i < written.len() implies written[i] == rest[i] by {
        assert(reversed(rd)[i] == digits[i]);
        lemma_base58_digit_char(rest[i]);
    }
    assert(written =~= rest);
    assert(text =~= repeated(49, z) + rest);
}

} // verus!
