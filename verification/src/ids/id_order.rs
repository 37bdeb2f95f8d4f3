//! ids in the order of their bytes, the order sorted id lists keep

use crate::ids::digits::{all_below, be_value, lemma_be_upper, power};
use crate::ids::things_id::ThingsId;
use vstd::prelude::*;

verus! {

/// an id as the number its bytes spell, most significant first
pub open spec fn id_value(id: ThingsId) -> int {
    be_value(id@, 256) as int
}

/// two byte strings of one length that agree up to `k` and differ there spell numbers in the order of that byte
pub proof fn lemma_be_order(s: Seq<u8>, t: Seq<u8>, k: int)
    requires
        s.len() == t.len(),
        0 <= k < s.len(),
        s.take(k) =~= t.take(k),
        s[k] < t[k],
    ensures
        be_value(s, 256) < be_value(t, 256),
    decreases s.len(),
{
    let n = s.len() as int;
    if k == n - 1 {
        assert(s.drop_last() =~= s.take(k));
        assert(t.drop_last() =~= t.take(k));
    } else {
        assert(s.drop_last().take(k) =~= s.take(k));
        assert(t.drop_last().take(k) =~= t.take(k));
        lemma_be_order(s.drop_last(), t.drop_last(), k);
        let x = be_value(s.drop_last(), 256) as int;
        let y = be_value(t.drop_last(), 256) as int;
        vstd::arithmetic::mul::lemma_mul_inequality(x + 1, y, 256);
        assert((x + 1) * 256 == x * 256 + 256) by {
            vstd::arithmetic::mul::lemma_mul_is_distributive_add_other_way(256, x, 1);
        }
    }
}

/// an id spells a number below 2 to the 128th
pub proof fn lemma_id_value_bound(id: ThingsId)
    ensures
        0 <= id_value(id) < 0x1_0000_0000_0000_0000_0000_0000_0000_0000,
{
    assert(all_below(id@, 256));
    lemma_be_upper(id@, 256);
    assert(power(256, 16) == 0x1_0000_0000_0000_0000_0000_0000_0000_0000) by {
        reveal_with_fuel(power, 17);
    }
}

/// ids with the same value are the same bytes
pub proof fn lemma_id_value_injective(a: ThingsId, b: ThingsId)
    requires
        a@ != b@,
    ensures
        id_value(a) != id_value(b),
{
    assert(exists|k: int| 0 <= k < 16 && a@[k] != b@[k]) by {
        if !(exists|k: int| 0 <= k < 16 && a@[k] != b@[k]) {
            assert(a@ =~= b@);
        }
    }
    let k = choose|k: int| 0 <= k < 16 && a@[k] != b@[k];
    lemma_first_difference(a@, b@, k);
    // the first byte where they differ
    let first = choose|f: int|
        0 <= f < 16 && a@[f] != b@[f] && forall|g: int| 0 <= g < f ==> a@[g] == b@[g];
    assert(a@.take(first) =~= b@.take(first));
    if a@[first] < b@[first] {
        lemma_be_order(a@, b@, first);
    } else {
        lemma_be_order(b@, a@, first);
    }
}

/// where two sequences differ somewhere, they differ first somewhere
proof fn lemma_first_difference(s: Seq<u8>, t: Seq<u8>, k: int)
    requires
        s.len() == t.len(),
        0 <= k < s.len(),
        s[k] != t[k],
    ensures
        exists|f: int|
            0 <= f < s.len() && s[f] != t[f] && forall|g: int| 0 <= g < f ==> s[g] == t[g],
    decreases k,
{
    if exists|g: int| 0 <= g < k && s[g] != t[g] {
        let g = choose|g: int| 0 <= g < k && s[g] != t[g];
        lemma_first_difference(s, t, g);
    } else {
        assert(forall|g: int| 0 <= g < k ==> s[g] == t[g]);
    }
}

impl ThingsId {
    /// the id comes before `other` in the order of their bytes
    pub fn sorts_before(&self, other: &ThingsId) -> (before: bool)
        ensures
            before == (id_value(*self) < id_value(*other)),
    {
        let mut k: usize = 0;
        while k < 16
            invariant
                k <= 16,
                self@.len() == 16,
                other@.len() == 16,
                self@.take(k as int) =~= other@.take(k as int),
            decreases 16 - k,
        {
            if self.0[k] != other.0[k] {
                proof {
                    if self@[k as int] < other@[k as int] {
                        lemma_be_order(self@, other@, k as int);
                    } else {
                        lemma_be_order(other@, self@, k as int);
                    }
                }
                return self.0[k] < other.0[k];
            }
            assert(self@.take(k + 1) =~= self@.take(k as int).push(self@[k as int]));
            assert(other@.take(k + 1) =~= other@.take(k as int).push(other@[k as int]));
            k += 1;
        }
        assert(self@ =~= self@.take(16));
        assert(other@ =~= other@.take(16));
        false
    }
}

} // verus!
