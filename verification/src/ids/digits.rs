//! positional numerals: the value of a digit sequence in a base, the digits of a value, and the facts that tie them together

use vstd::prelude::*;

verus! {

/// `b` to the power `e`
pub open spec fn power(b: nat, e: nat) -> nat
    decreases e,
{
    if e == 0 {
        1
    } else {
        b * power(b, (e - 1) as nat)
    }
}

/// the value of `s` read with its least significant digit first
pub open spec fn le_value(s: Seq<u8>, b: nat) -> nat
    decreases s.len(),
{
    if s.len() == 0 {
        0
    } else {
        s[0] as nat + b * le_value(s.drop_first(), b)
    }
}

/// the value of `s` read with its most significant digit first
pub open spec fn be_value(s: Seq<u8>, b: nat) -> nat
    decreases s.len(),
{
    if s.len() == 0 {
        0
    } else {
        be_value(s.drop_last(), b) * b + s.last() as nat
    }
}

/// every digit of `s` is below `b`
pub open spec fn all_below(s: Seq<u8>, b: nat) -> bool {
    forall|i: int| 0 <= i < s.len() ==> #[trigger] s[i] < b
}

/// no zero digit stands at the most significant end of little-endian digits
pub open spec fn le_minimal(s: Seq<u8>) -> bool {
    s.len() == 0 || s.last() != 0
}

/// the sequence read back to front
pub open spec fn reversed(s: Seq<u8>) -> Seq<u8> {
    Seq::new(s.len(), |i: int| s[s.len() - 1 - i])
}

/// the little-endian digits of `v` in base `b`, without a zero on the most significant end
pub open spec fn le_digits(v: nat, b: nat) -> Seq<u8>
    decreases v,
{
    if v == 0 || b < 2 {
        seq![]
    } else {
        proof {
            vstd::arithmetic::div_mod::lemma_div_decreases(v as int, b as int);
        }
        seq![(v % b) as u8] + le_digits(v / b, b)
    }
}

/// the number of zero entries at the front of `s`
pub open spec fn leading_count(s: Seq<u8>, x: u8) -> nat
    decreases s.len(),
{
    if s.len() > 0 && s[0] == x {
        1 + leading_count(s.drop_first(), x)
    } else {
        0
    }
}

pub proof fn lemma_power_positive(b: nat, e: nat)
    requires
        b >= 1,
    ensures
        power(b, e) >= 1,
    decreases e,
{
    if e > 0 {
        lemma_power_positive(b, (e - 1) as nat);
        assert(b * power(b, (e - 1) as nat) >= 1) by (nonlinear_arith)
            requires
                b >= 1,
                power(b, (e - 1) as nat) >= 1,
        ;
    }
}

pub proof fn lemma_power_monotone(b: nat, e1: nat, e2: nat)
    requires
        b >= 1,
        e1 <= e2,
    ensures
        power(b, e1) <= power(b, e2),
    decreases e2,
{
    if e1 < e2 {
        lemma_power_monotone(b, e1, (e2 - 1) as nat);
        lemma_power_positive(b, (e2 - 1) as nat);
        assert(power(b, (e2 - 1) as nat) <= b * power(b, (e2 - 1) as nat)) by (nonlinear_arith)
            requires
                b >= 1,
        ;
    }
}

pub proof fn lemma_power_adds(b: nat, e1: nat, e2: nat)
    ensures
        power(b, e1 + e2) == power(b, e1) * power(b, e2),
    decreases e1,
{
    if e1 > 0 {
        let e0 = (e1 - 1) as nat;
        lemma_power_adds(b, e0, e2);
        assert(power(b, e1 + e2) == b * power(b, e0 + e2));
        assert(power(b, e1) == b * power(b, e0));
        let p = power(b, e0);
        let q = power(b, e2);
        assert(b * (p * q) == (b * p) * q) by (nonlinear_arith);
        assert(power(b, e1 + e2) == power(b, e1) * q);
    } else {
        assert(power(b, e1) == 1);
        assert(e1 + e2 == e2);
        assert(1 * power(b, e2) == power(b, e2));
    }
}

pub proof fn lemma_power_base_monotone(a: nat, b: nat, e: nat)
    requires
        a <= b,
    ensures
        power(a, e) <= power(b, e),
    decreases e,
{
    if e > 0 {
        lemma_power_base_monotone(a, b, (e - 1) as nat);
        let p = power(a, (e - 1) as nat);
        let q = power(b, (e - 1) as nat);
        assert(a * p <= b * q) by (nonlinear_arith)
            requires
                a <= b,
                p <= q,
        ;
    }
}

/// appending a most significant digit adds it at its weight
pub proof fn lemma_le_push(s: Seq<u8>, x: u8, b: nat)
    ensures
        le_value(s.push(x), b) == le_value(s, b) + x as nat * power(b, s.len()),
    decreases s.len(),
{
    if s.len() == 0 {
        assert(s.push(x).drop_first() =~= Seq::<u8>::empty());
        assert(le_value(Seq::<u8>::empty(), b) == 0);
        assert(le_value(s, b) == 0);
        assert(power(b, 0) == 1);
        assert(s.push(x)[0] == x);
        assert(le_value(s.push(x), b) == x as nat + b * 0);
        assert(b * 0 == 0);
        assert(x as nat * 1 == x as nat);
    } else {
        assert(s.push(x).drop_first() =~= s.drop_first().push(x));
        lemma_le_push(s.drop_first(), x, b);
        let a = le_value(s.drop_first(), b);
        let p = power(b, (s.len() - 1) as nat);
        assert(power(b, s.len()) == b * p);
        assert(s.push(x)[0] == s[0]);
        assert(le_value(s.push(x), b) == s[0] as nat + b * le_value(s.drop_first().push(x), b));
        assert(b * (a + x as nat * p) == b * a + x as nat * (b * p)) by (nonlinear_arith);
    }
}

/// digits below the base stay below its power at their length
pub proof fn lemma_le_upper(s: Seq<u8>, b: nat)
    requires
        all_below(s, b),
    ensures
        le_value(s, b) < power(b, s.len()),
    decreases s.len(),
{
    if s.len() > 0 {
        let t = s.drop_first();
        assert(all_below(t, b)) by {
            assert forall|i: int| 0 <= i < t.len() implies #[trigger] t[i] < b by {
                assert(t[i] == s[i + 1]);
            }
        }
        lemma_le_upper(t, b);
        let v = le_value(t, b);
        let p = power(b, t.len());
        assert(s[0] < b);
        assert(s[0] as nat + b * v < b * p) by (nonlinear_arith)
            requires
                s[0] < b,
                v < p,
                v + 1 <= p,
        ;
    }
}

/// a nonzero most significant digit makes the value reach the power below its length
pub proof fn lemma_le_lower(s: Seq<u8>, b: nat)
    requires
        s.len() > 0,
        s.last() != 0,
    ensures
        le_value(s, b) >= power(b, (s.len() - 1) as nat),
{
    let t = s.drop_last();
    assert(t.push(s.last()) =~= s);
    lemma_le_push(t, s.last(), b);
    let p = power(b, t.len());
    assert(s.last() as nat * p >= p) by (nonlinear_arith)
        requires
            s.last() as nat >= 1,
    ;
}

/// a zero most significant digit leaves the value below the power below its length
pub proof fn lemma_le_top_zero(s: Seq<u8>, b: nat)
    requires
        s.len() > 0,
        s.last() == 0,
        all_below(s, b),
    ensures
        le_value(s, b) < power(b, (s.len() - 1) as nat),
{
    let t = s.drop_last();
    assert(t.push(s.last()) =~= s);
    lemma_le_push(t, s.last(), b);
    assert(all_below(t, b)) by {
        assert forall|i: int| 0 <= i < t.len() implies #[trigger] t[i] < b by {
            assert(t[i] == s[i]);
        }
    }
    lemma_le_upper(t, b);
}

/// the value of `le_digits` is the value it was taken from, and its digits are proper
pub proof fn lemma_le_digits(v: nat, b: nat)
    requires
        b >= 2,
        b <= 256,
    ensures
        le_value(le_digits(v, b), b) == v,
        all_below(le_digits(v, b), b),
        le_minimal(le_digits(v, b)),
        v > 0 ==> le_digits(v, b).len() > 0,
    decreases v,
{
    if v > 0 {
        vstd::arithmetic::div_mod::lemma_div_decreases(v as int, b as int);
        lemma_le_digits(v / b, b);
        let d = le_digits(v, b);
        let rest = le_digits(v / b, b);
        assert(d =~= seq![(v % b) as u8] + rest);
        assert(d.drop_first() =~= rest);
        vstd::arithmetic::div_mod::lemma_fundamental_div_mod(v as int, b as int);
        assert((v % b) < b) by (nonlinear_arith)
            requires
                b >= 2,
        ;
        assert(d[0] as nat == v % b);
        assert(le_value(d, b) == d[0] as nat + b * le_value(rest, b));
        assert forall|i: int| 0 <= i < d.len() implies #[trigger] d[i] < b by {
            if i > 0 {
                assert(d[i] == rest[i - 1]);
            }
        }
        if rest.len() > 0 {
            assert(d.last() == rest.last());
        } else {
            assert(v / b == 0);
            assert(b * (v / b) == 0);
            assert(v % b == v);
        }
    }
}

/// proper little-endian digits are the digits of their value
pub proof fn lemma_le_unique(s: Seq<u8>, b: nat)
    requires
        b >= 2,
        b <= 256,
        all_below(s, b),
        le_minimal(s),
    ensures
        s == le_digits(le_value(s, b), b),
    decreases s.len(),
{
    if s.len() == 0 {
        assert(le_digits(0, b) =~= s);
    } else {
        let t = s.drop_first();
        assert(all_below(t, b)) by {
            assert forall|i: int| 0 <= i < t.len() implies #[trigger] t[i] < b by {
                assert(t[i] == s[i + 1]);
            }
        }
        if t.len() > 0 {
            assert(t.last() == s.last());
        }
        lemma_le_unique(t, b);
        let v = le_value(s, b);
        let w = le_value(t, b);
        assert(s[0] < b);
        assert(v == s[0] as nat + b * w);
        assert(v % b == s[0] as nat && v / b == w) by {
            vstd::arithmetic::div_mod::lemma_fundamental_div_mod_converse(
                v as int,
                b as int,
                w as int,
                s[0] as int,
            );
        }
        if v == 0 {
            assert(w == 0 && s[0] == 0) by (nonlinear_arith)
                requires
                    v == s[0] as nat + b * w,
                    v == 0,
                    b >= 2,
            ;
            if t.len() > 0 {
                lemma_le_lower(t, b);
                lemma_power_positive(b, (t.len() - 1) as nat);
            } else {
                assert(s.last() == s[0]);
            }
        }
        assert(v > 0);
        assert(le_digits(v, b) =~= seq![(v % b) as u8] + le_digits(v / b, b));
        assert(s =~= seq![s[0]] + t);
    }
}

/// read back to front, the big-endian value is the little-endian one
pub proof fn lemma_be_reversed(s: Seq<u8>, b: nat)
    ensures
        be_value(reversed(s), b) == le_value(s, b),
    decreases s.len(),
{
    if s.len() > 0 {
        let t = s.drop_first();
        lemma_be_reversed(t, b);
        let r = reversed(s);
        assert(r.drop_last() =~= reversed(t));
        assert(r.last() == s[0]);
        let w = le_value(t, b);
        assert(w * b == b * w) by (nonlinear_arith);
    }
}

/// `be_value` of a prefix one longer adds the next digit
pub proof fn lemma_be_take_step(s: Seq<u8>, i: int, b: nat)
    requires
        0 <= i < s.len(),
    ensures
        be_value(s.take(i + 1), b) == be_value(s.take(i), b) * b + s[i] as nat,
{
    assert(s.take(i + 1).drop_last() =~= s.take(i));
}

/// zero digits in front leave a big-endian value as it is
pub proof fn lemma_be_skip_zeros(s: Seq<u8>, z: int, b: nat)
    requires
        0 <= z <= s.len(),
        forall|i: int| 0 <= i < z ==> s[i] == 0,
    ensures
        be_value(s, b) == be_value(s.skip(z), b),
    decreases s.len(),
{
    if z > 0 {
        if s.len() == z {
            lemma_be_all_zero(s, b);
            assert(s.skip(z) =~= Seq::<u8>::empty());
        } else {
            lemma_be_skip_zeros(s.drop_last(), z, b);
            assert(s.drop_last().skip(z) =~= s.skip(z).drop_last());
            assert(s.skip(z).last() == s.last());
            assert(be_value(s.skip(z), b) == be_value(s.skip(z).drop_last(), b) * b
                + s.skip(z).last() as nat);
        }
    } else {
        assert(s.skip(z) =~= s);
    }
}

pub proof fn lemma_be_all_zero(s: Seq<u8>, b: nat)
    requires
        forall|i: int| 0 <= i < s.len() ==> s[i] == 0,
    ensures
        be_value(s, b) == 0,
    decreases s.len(),
{
    if s.len() > 0 {
        lemma_be_all_zero(s.drop_last(), b);
        assert(s.last() == s[s.len() - 1]);
        assert(be_value(s, b) == be_value(s.drop_last(), b) * b + s.last() as nat);
    }
}

/// a big-endian value below the power of its length
pub proof fn lemma_be_upper(s: Seq<u8>, b: nat)
    requires
        all_below(s, b),
    ensures
        be_value(s, b) < power(b, s.len()),
{
    let r = reversed(s);
    assert(reversed(r) =~= s);
    assert(all_below(r, b)) by {
        assert forall|i: int| 0 <= i < r.len() implies #[trigger] r[i] < b by {
            assert(r[i] == s[s.len() - 1 - i]);
        }
    }
    lemma_be_reversed(r, b);
    lemma_le_upper(r, b);
}

/// `leading_count` as the length of the run of `x` at the front
pub proof fn lemma_leading_count(s: Seq<u8>, x: u8, z: int)
    requires
        0 <= z <= s.len(),
        forall|i: int| 0 <= i < z ==> s[i] == x,
        z == s.len() || s[z] != x,
    ensures
        leading_count(s, x) == z,
    decreases s.len(),
{
    if z > 0 {
        let t = s.drop_first();
        assert forall|i: int| 0 <= i < z - 1 implies t[i] == x by {
            assert(t[i] == s[i + 1]);
        }
        if z - 1 < t.len() {
            assert(t[z - 1] == s[z]);
        }
        lemma_leading_count(t, x, z - 1);
    }
}

/// the entries before `leading_count` are `x`, and the one after it is not
pub proof fn lemma_leading_count_props(s: Seq<u8>, x: u8)
    ensures
        leading_count(s, x) <= s.len(),
        forall|i: int| 0 <= i < leading_count(s, x) ==> s[i] == x,
        leading_count(s, x) < s.len() ==> s[leading_count(s, x) as int] != x,
    decreases s.len(),
{
    if s.len() > 0 && s[0] == x {
        let t = s.drop_first();
        lemma_leading_count_props(t, x);
        assert forall|i: int| 0 <= i < leading_count(s, x) implies s[i] == x by {
            if i > 0 {
                assert(s[i] == t[i - 1]);
            }
        }
        if leading_count(s, x) < s.len() {
            assert(s[leading_count(s, x) as int] == t[leading_count(t, x) as int]);
        }
    }
}

} // verus!
