//! finding ids by a prefix of their text, and the shortest prefix that sets each id apart

use crate::ids::things_id::{
    base58_encode_fixed, base58_spec, id_text, lemma_base58_len, lemma_base58_roundtrip, ThingsId,
};
use vstd::prelude::*;
use vstd::string::StringSliceAdditionalSpecFns;

verus! {

/// the length of the longest common prefix of `a` and `b`
pub open spec fn lcp(a: Seq<u8>, b: Seq<u8>) -> nat
    decreases a.len(),
{
    if a.len() == 0 || b.len() == 0 || a[0] != b[0] {
        0
    } else {
        1 + lcp(a.drop_first(), b.drop_first())
    }
}

/// `lcp` is the length of the run the two sequences share from their start
pub proof fn lemma_lcp(a: Seq<u8>, b: Seq<u8>)
    ensures
        lcp(a, b) <= a.len(),
        lcp(a, b) <= b.len(),
        forall|i: int| 0 <= i < lcp(a, b) ==> a[i] == b[i],
        lcp(a, b) < a.len() && lcp(a, b) < b.len() ==> a[lcp(a, b) as int] != b[lcp(a, b) as int],
    decreases a.len(),
{
    if !(a.len() == 0 || b.len() == 0 || a[0] != b[0]) {
        lemma_lcp(a.drop_first(), b.drop_first());
        assert forall|i: int| 0 <= i < lcp(a, b) implies a[i] == b[i] by {
            if i > 0 {
                assert(a[i] == a.drop_first()[i - 1]);
                assert(b[i] == b.drop_first()[i - 1]);
            }
        }
        if lcp(a, b) < a.len() && lcp(a, b) < b.len() {
            assert(a[lcp(a, b) as int] == a.drop_first()[lcp(a, b) - 1]);
            assert(b[lcp(a, b) as int] == b.drop_first()[lcp(a, b) - 1]);
        }
    }
}

/// a run of length `k` the two share from their start, ending at a difference or at the end of one, is their `lcp`
pub proof fn lemma_lcp_is(a: Seq<u8>, b: Seq<u8>, k: int)
    requires
        0 <= k <= a.len(),
        k <= b.len(),
        forall|i: int| 0 <= i < k ==> a[i] == b[i],
        k == a.len() || k == b.len() || a[k] != b[k],
    ensures
        lcp(a, b) == k,
    decreases a.len(),
{
    if k > 0 {
        let a1 = a.drop_first();
        let b1 = b.drop_first();
        assert forall|i: int| 0 <= i < k - 1 implies a1[i] == b1[i] by {
            assert(a1[i] == a[i + 1]);
            assert(b1[i] == b[i + 1]);
        }
        if k < a.len() && k < b.len() {
            assert(a1[k - 1] == a[k]);
            assert(b1[k - 1] == b[k]);
        }
        lemma_lcp_is(a1, b1, k - 1);
    }
}

/// the base58 texts of the ids, as bytes
pub open spec fn encodings(ids: Seq<ThingsId>) -> Seq<Seq<u8>> {
    ids.map_values(|id: ThingsId| base58_spec(id@))
}

/// the longest common prefix the text at `i` shares with any other text before position `n`;
/// a copy of the same text adds nothing
pub open spec fn max_lcp_upto(encs: Seq<Seq<u8>>, i: int, n: int) -> nat
    decreases n,
{
    if n <= 0 {
        0
    } else {
        let prev = max_lcp_upto(encs, i, n - 1);
        if encs[n - 1] == encs[i] {
            prev
        } else {
            let here = lcp(encs[i], encs[n - 1]);
            if here > prev {
                here
            } else {
                prev
            }
        }
    }
}

/// the length of the shortest unique prefix of the text at `i`: one character past the longest prefix it shares with another text, at most the whole text
pub open spec fn need_len(encs: Seq<Seq<u8>>, i: int) -> nat {
    let m = max_lcp_upto(encs, i, encs.len() as int) + 1;
    if m < encs[i].len() {
        m
    } else {
        encs[i].len()
    }
}

/// the shortest unique prefix of the id at `i`, as text
#[verifier::opaque]
pub open spec fn unique_prefix(ids: Seq<ThingsId>, i: int) -> Seq<char> {
    encodings(ids)[i].take(need_len(encodings(ids), i) as int).map_values(|b: u8| b as char)
}

/// the id occurs before position `n`
pub open spec fn occurs_before(ids: Seq<ThingsId>, id: ThingsId, n: int) -> bool {
    exists|j: int| 0 <= j < n && (#[trigger] ids[j])@ == id@
}

/// each id with its shortest unique prefix, in the order the ids first occur
pub open spec fn prefix_entries(ids: Seq<ThingsId>, n: int) -> Seq<(ThingsId, Seq<char>)>
    decreases n,
{
    if n <= 0 {
        seq![]
    } else if occurs_before(ids, ids[n - 1], n - 1) {
        prefix_entries(ids, n - 1)
    } else {
        prefix_entries(ids, n - 1).push((ids[n - 1], unique_prefix(ids, n - 1)))
    }
}

/// the ids whose text begins with `prefix`, in their order
pub open spec fn prefix_matches_spec(ids: Seq<ThingsId>, prefix: Seq<u8>) -> Seq<ThingsId> {
    ids.filter(|id: ThingsId| prefix.is_prefix_of(base58_spec(id@)))
}

proof fn lemma_max_lcp(encs: Seq<Seq<u8>>, i: int, n: int)
    requires
        0 <= i < encs.len(),
        n <= encs.len(),
    ensures
        forall|j: int|
            0 <= j < n && encs[j] != encs[i] ==> lcp(encs[i], #[trigger] encs[j]) <= max_lcp_upto(
                encs,
                i,
                n,
            ),
        max_lcp_upto(encs, i, n) > 0 ==> exists|j: int|
            0 <= j < n && encs[j] != encs[i] && lcp(encs[i], #[trigger] encs[j]) == max_lcp_upto(
                encs,
                i,
                n,
            ),
    decreases n,
{
    if n > 0 {
        lemma_max_lcp(encs, i, n - 1);
    }
}

/// two ids with the same text are the same id
pub proof fn lemma_same_text_same_id(a: ThingsId, b: ThingsId)
    ensures
        base58_spec(a@) == base58_spec(b@) <==> a@ == b@,
{
    lemma_base58_roundtrip(a@);
    lemma_base58_roundtrip(b@);
}

/// the length of the common prefix of two byte runs
pub fn lcp_len_bytes(a: &[u8], b: &[u8]) -> (k: usize)
    ensures
        k == lcp(a@, b@),
{
    let max = if a.len() < b.len() {
        a.len()
    } else {
        b.len()
    };
    let mut i: usize = 0;
    while i < max
        invariant
            i <= max,
            max <= a@.len(),
            max <= b@.len(),
            max == a@.len() || max == b@.len(),
            forall|k: int| 0 <= k < i ==> a@[k] == b@[k],
        decreases max - i,
    {
        if a[i] != b[i] {
            proof {
                lemma_lcp_is(a@, b@, i as int);
            }
            return i;
        }
        i += 1;
    }
    proof {
        lemma_lcp_is(a@, b@, i as int);
    }
    max
}

/// the length of the common prefix of two encodings in their stack buffers
fn lcp_len_encoded(a: &[u8; 22], alen: usize, b: &[u8; 22], blen: usize) -> (k: usize)
    requires
        alen <= 22,
        blen <= 22,
    ensures
        k == lcp(a@.take(alen as int), b@.take(blen as int)),
{
    let max = if alen < blen {
        alen
    } else {
        blen
    };
    let mut i: usize = 0;
    while i < max
        invariant
            i <= max,
            max <= alen <= 22,
            max <= blen <= 22,
            a@.len() == 22,
            b@.len() == 22,
            max == alen || max == blen,
            forall|k: int| 0 <= k < i ==> a@.take(alen as int)[k] == b@.take(blen as int)[k],
        decreases max - i,
    {
        if a[i] != b[i] {
            proof {
                lemma_lcp_is(a@.take(alen as int), b@.take(blen as int), i as int);
            }
            return i;
        }
        i += 1;
    }
    proof {
        lemma_lcp_is(a@.take(alen as int), b@.take(blen as int), i as int);
    }
    max
}

/// the length of the common prefix of two texts, in bytes
pub fn lcp_len(a: &str, b: &str) -> (k: usize)
    ensures
        k == lcp(a.spec_bytes(), b.spec_bytes()),
{
    lcp_len_bytes(a.as_bytes(), b.as_bytes())
}

/// every id whose base58 form starts with `prefix`, in the order given
///
/// the ids are sorted by their bytes, and ids sharing a textual prefix are not
/// contiguous in that order once their encoded lengths differ. the whole list
/// is therefore scanned rather than stopped at the first miss after a match
pub fn prefix_matches(sorted_ids: &[ThingsId], prefix: &str) -> (found: Vec<ThingsId>)
    ensures
        found@ == prefix_matches_spec(sorted_ids@, prefix.spec_bytes()),
{
    let wanted = prefix.as_bytes();
    let mut found: Vec<ThingsId> = Vec::new();
    let n = sorted_ids.len();
    let mut i: usize = 0;
    while i < n
        invariant
            i <= n,
            n == sorted_ids@.len(),
            wanted@ == prefix.spec_bytes(),
            found@ == prefix_matches_spec(sorted_ids@.take(i as int), prefix.spec_bytes()),
        decreases n - i,
    {
        let id = sorted_ids[i];
        let hit = id.starts_with(prefix);
        if hit {
            found.push(id);
        }
        proof {
            reveal_with_fuel(Seq::<_>::filter, 1);
            assert(sorted_ids@.take(i + 1).drop_last() =~= sorted_ids@.take(i as int));
            assert(sorted_ids@.take(i + 1).last() == id);
        }
        i += 1;
    }
    assert(sorted_ids@.take(n as int) =~= sorted_ids@);
    found
}

/// the byte prefix of an encoding, as text
fn prefix_text(buf: &[u8; 22], need: usize) -> (text: String)
    requires
        need <= 22,
    ensures
        text@ == buf@.take(need as int).map_values(|b: u8| b as char),
{
    let mut text = String::new();
    let mut i: usize = 0;
    while i < need
        invariant
            i <= need,
            need <= 22,
            buf@.len() == 22,
            text@ == buf@.take(i as int).map_values(|b: u8| b as char),
        decreases need - i,
    {
        crate::ids::things_id::push_char(&mut text, buf[i] as char);
        assert(text@ =~= buf@.take(i + 1).map_values(|b: u8| b as char));
        i += 1;
    }
    text
}

/// Compute the shortest unique prefix for every ID.
///
/// Each id is listed once, in the order of its first occurrence, so duplicate
/// IDs in the input are coalesced to a single entry.
pub fn shortest_unique_prefixes(ids: &[ThingsId]) -> (prefixes: Vec<(ThingsId, String)>)
    ensures
        prefixes@.len() == prefix_entries(ids@, ids@.len() as int).len(),
        forall|k: int|
            0 <= k < prefixes@.len() ==> (#[trigger] prefixes@[k]).0 == prefix_entries(
                ids@,
                ids@.len() as int,
            )[k].0 && prefixes@[k].1@ == prefix_entries(ids@, ids@.len() as int)[k].1,
{
    let n = ids.len();
    let ghost encs = encodings(ids@);
    let mut bufs: Vec<([u8; 22], usize)> = Vec::new();
    let mut i: usize = 0;
    while i < n
        invariant
            i <= n,
            n == ids@.len(),
            encs == encodings(ids@),
            bufs@.len() == i,
            forall|k: int|
                0 <= k < i ==> (#[trigger] bufs@[k]).0@.take(bufs@[k].1 as int) == encs[k]
                    && bufs@[k].1 <= 22,
        decreases n - i,
    {
        bufs.push(base58_encode_fixed(&ids[i].0));
        i += 1;
    }
    let mut result: Vec<(ThingsId, String)> = Vec::new();
    let mut i: usize = 0;
    while i < n
        invariant
            i <= n,
            n == ids@.len(),
            encs == encodings(ids@),
            bufs@.len() == n,
            forall|k: int|
                0 <= k < n ==> (#[trigger] bufs@[k]).0@.take(bufs@[k].1 as int) == encs[k]
                    && bufs@[k].1 <= 22,
            result@.len() == prefix_entries(ids@, i as int).len(),
            forall|k: int|
                0 <= k < result@.len() ==> (#[trigger] result@[k]).0 == prefix_entries(
                    ids@,
                    i as int,
                )[k].0 && result@[k].1@ == prefix_entries(ids@, i as int)[k].1,
        decreases n - i,
    {
        // an id listed already keeps its first entry
        let mut seen = false;
        let mut j: usize = 0;
        while j < i
            invariant
                j <= i,
                i < n,
                n == ids@.len(),
                seen == occurs_before(ids@, ids@[i as int], j as int),
            decreases i - j,
        {
            if ids[j] == ids[i] {
                seen = true;
            }
            proof {
                if !seen {
                    assert(!occurs_before(ids@, ids@[i as int], j + 1)) by {
                        if occurs_before(ids@, ids@[i as int], j + 1) {
                            let w = choose|w: int|
                                0 <= w < j + 1 && (#[trigger] ids@[w])@ == ids@[i as int]@;
                            assert(w < j);
                        }
                    }
                } else {
                    if ids@[j as int]@ == ids@[i as int]@ {
                        assert(0 <= j < j + 1 && ids@[j as int]@ == ids@[i as int]@);
                    }
                    assert(occurs_before(ids@, ids@[i as int], j + 1)) by {
                        if !occurs_before(ids@, ids@[i as int], j as int) {
                            assert(ids@[j as int]@ == ids@[i as int]@);
                        } else {
                            let w = choose|w: int|
                                0 <= w < j && (#[trigger] ids@[w])@ == ids@[i as int]@;
                            assert(0 <= w < j + 1);
                        }
                    }
                }
            }
            j += 1;
        }
        if !seen {
            let (buf, len) = bufs[i];
            let mut best: usize = 0;
            let mut j: usize = 0;
            while j < n
                invariant
                    j <= n,
                    i < n,
                    n == ids@.len(),
                    encs == encodings(ids@),
                    encs.len() == n,
                    bufs@.len() == n,
                    buf == bufs@[i as int].0,
                    len == bufs@[i as int].1,
                    forall|k: int|
                        0 <= k < n ==> (#[trigger] bufs@[k]).0@.take(bufs@[k].1 as int) == encs[k]
                            && bufs@[k].1 <= 22,
                    best == max_lcp_upto(encs, i as int, j as int),
                    best <= 22,
                decreases n - j,
            {
                proof {
                    lemma_same_text_same_id(ids@[i as int], ids@[j as int]);
                }
                if ids[j] != ids[i] {
                    let (other, other_len) = bufs[j];
                    let common = lcp_len_encoded(&buf, len, &other, other_len);
                    proof {
                        lemma_lcp(buf@.take(len as int), other@.take(other_len as int));
                    }
                    if common > best {
                        best = common;
                    }
                }
                j += 1;
            }
            let need = if best + 1 < len {
                best + 1
            } else {
                len
            };
            let text = prefix_text(&buf, need);
            proof {
                reveal(unique_prefix);
                assert(need == need_len(encs, i as int));
                assert(buf@.take(need as int) =~= encs[i as int].take(need as int));
            }
            result.push((ids[i], text));
        }
        proof {
            let before = prefix_entries(ids@, i as int);
            let after = prefix_entries(ids@, i + 1);
            if seen {
                assert(after == before);
            } else {
                assert(after == before.push((ids@[i as int], unique_prefix(ids@, i as int))));
            }
        }
        i += 1;
    }
    result
}

/// the longest text among the entries
pub open spec fn longest_prefix_len(entries: Seq<(ThingsId, Seq<char>)>) -> nat
    decreases entries.len(),
{
    if entries.len() == 0 {
        0
    } else {
        let rest = longest_prefix_len(entries.drop_last());
        let last = entries.last().1.len();
        if last > rest {
            last
        } else {
            rest
        }
    }
}

/// Return the shared width needed to display group-local unique IDs.
///
/// This is the maximum length among all shortest unique prefixes for the
/// given group. Callers can then render `id[..width]` for every row.
pub fn longest_shortest_unique_prefix_len(ids: &[ThingsId]) -> (width: usize)
    ensures
        width == longest_prefix_len(prefix_entries(ids@, ids@.len() as int)),
{
    if ids.len() == 0 {
        return 0;
    }
    let prefixes = shortest_unique_prefixes(ids);
    let ghost entries = prefix_entries(ids@, ids@.len() as int);
    let mut width: usize = 0;
    let mut k: usize = 0;
    while k < prefixes.len()
        invariant
            k <= prefixes@.len(),
            prefixes@.len() == entries.len(),
            forall|m: int|
                0 <= m < prefixes@.len() ==> (#[trigger] prefixes@[m]).0 == entries[m].0
                    && prefixes@[m].1@ == entries[m].1,
            width == longest_prefix_len(entries.take(k as int)),
        decreases prefixes@.len() - k,
    {
        let shown = prefixes[k].1.as_str().unicode_len();
        assert(entries.take(k + 1).drop_last() =~= entries.take(k as int));
        assert(entries.take(k + 1).last() == entries[k as int]);
        if shown > width {
            width = shown;
        }
        k += 1;
    }
    assert(entries.take(prefixes@.len() as int) =~= entries);
    width
}

/// a prefix of `a` that `b` begins with is within their common prefix
proof fn lemma_prefix_within_lcp(a: Seq<u8>, b: Seq<u8>, k: int)
    requires
        0 <= k <= a.len(),
        a.take(k).is_prefix_of(b),
    ensures
        lcp(a, b) >= k,
{
    lemma_lcp(a, b);
    if lcp(a, b) < k {
        let l = lcp(a, b) as int;
        assert(a.take(k)[l] == b[l]);
    }
}

/// the shortest unique prefix of an id begins no other id's text, unless it is the whole text of the id and that text begins the other's
pub proof fn lemma_unique_prefix_sets_apart(ids: Seq<ThingsId>, i: int, j: int)
    requires
        0 <= i < ids.len(),
        0 <= j < ids.len(),
        ids[i]@ != ids[j]@,
        encodings(ids)[i].take(need_len(encodings(ids), i) as int).is_prefix_of(
            encodings(ids)[j],
        ),
    ensures
        need_len(encodings(ids), i) == encodings(ids)[i].len(),
        encodings(ids)[i].is_prefix_of(encodings(ids)[j]),
{
    let encs = encodings(ids);
    let need = need_len(encs, i);
    lemma_same_text_same_id(ids[i], ids[j]);
    lemma_max_lcp(encs, i, encs.len() as int);
    lemma_prefix_within_lcp(encs[i], encs[j], need as int);
    assert(encs[i].take(encs[i].len() as int) =~= encs[i]);
}

/// one character fewer than the shortest unique prefix begins the text of another id
pub proof fn lemma_unique_prefix_minimal(ids: Seq<ThingsId>, i: int)
    requires
        0 <= i < ids.len(),
        need_len(encodings(ids), i) > 1,
    ensures
        exists|j: int|
            0 <= j < ids.len() && ids[j]@ != ids[i]@ && encodings(ids)[i].take(
                need_len(encodings(ids), i) - 1,
            ).is_prefix_of(#[trigger] encodings(ids)[j]),
{
    let encs = encodings(ids);
    let need = need_len(encs, i);
    lemma_max_lcp(encs, i, encs.len() as int);
    let m = max_lcp_upto(encs, i, encs.len() as int);
    assert(m > 0);
    let j = choose|j: int|
        0 <= j < encs.len() && encs[j] != encs[i] && lcp(encs[i], #[trigger] encs[j]) == m;
    lemma_lcp(encs[i], encs[j]);
    let t = encs[i].take(need - 1);
    assert(t.is_prefix_of(encs[j])) by {
        assert forall|x: int| 0 <= x < t.len() implies t[x] == encs[j][x] by {}
        assert(t =~= encs[j].subrange(0, t.len() as int));
    }
}


/// a byte run and its characters stand in the same prefix relation
proof fn lemma_chars_prefix(s: Seq<u8>, t: Seq<u8>)
    ensures
        s.map_values(|b: u8| b as char).is_prefix_of(t.map_values(|b: u8| b as char))
            <==> s.is_prefix_of(t),
{
    let cs = s.map_values(|b: u8| b as char);
    let ct = t.map_values(|b: u8| b as char);
    if cs.is_prefix_of(ct) {
        assert forall|x: int| 0 <= x < s.len() implies s[x] == t[x] by {
            assert(cs[x] == ct.subrange(0, cs.len() as int)[x]);
            assert(cs[x] == s[x] as char);
            assert(ct[x] == t[x] as char);
        }
        assert(s =~= t.subrange(0, s.len() as int));
    }
    if s.is_prefix_of(t) {
        assert forall|x: int| 0 <= x < cs.len() implies cs[x] == ct.subrange(0, cs.len() as int)[x] by {
            assert(s[x] == t.subrange(0, s.len() as int)[x]);
        }
        assert(cs =~= ct.subrange(0, cs.len() as int));
    }
}

/// where the entry at `k` comes from: the first occurrence of its id, with that id's prefix
proof fn lemma_entry_origin(ids: Seq<ThingsId>, n: int, k: int) -> (i: int)
    requires
        0 <= n <= ids.len(),
        0 <= k < prefix_entries(ids, n).len(),
    ensures
        0 <= i < n,
        !occurs_before(ids, ids[i], i),
        prefix_entries(ids, n)[k] == (ids[i], unique_prefix(ids, i)),
    decreases n,
{
    let e = prefix_entries(ids, n - 1);
    if occurs_before(ids, ids[n - 1], n - 1) {
        lemma_entry_origin(ids, n - 1, k)
    } else if k < e.len() {
        let i = lemma_entry_origin(ids, n - 1, k);
        assert(prefix_entries(ids, n)[k] == e[k]);
        i
    } else {
        n - 1
    }
}

/// the entry that names the id at `j`
proof fn lemma_entry_of(ids: Seq<ThingsId>, n: int, j: int) -> (k: int)
    requires
        0 <= j < n <= ids.len(),
    ensures
        0 <= k < prefix_entries(ids, n).len(),
        prefix_entries(ids, n)[k].0@ == ids[j]@,
    decreases n,
{
    let e = prefix_entries(ids, n - 1);
    let r = prefix_entries(ids, n);
    if j < n - 1 {
        let k = lemma_entry_of(ids, n - 1, j);
        if !occurs_before(ids, ids[n - 1], n - 1) {
            assert(r[k] == e[k]);
        }
        k
    } else if occurs_before(ids, ids[n - 1], n - 1) {
        let w = choose|w: int| 0 <= w < n - 1 && (#[trigger] ids[w])@ == ids[n - 1]@;
        lemma_entry_of(ids, n - 1, w)
    } else {
        assert(r[e.len() as int] == (ids[n - 1], unique_prefix(ids, n - 1)));
        e.len() as int
    }
}

/// no two entries name the same id
proof fn lemma_entries_distinct(ids: Seq<ThingsId>, n: int, k1: int, k2: int)
    requires
        0 <= n <= ids.len(),
        0 <= k1 < k2 < prefix_entries(ids, n).len(),
    ensures
        prefix_entries(ids, n)[k1].0@ != prefix_entries(ids, n)[k2].0@,
    decreases n,
{
    let e = prefix_entries(ids, n - 1);
    let r = prefix_entries(ids, n);
    if occurs_before(ids, ids[n - 1], n - 1) {
        lemma_entries_distinct(ids, n - 1, k1, k2);
    } else if k2 < e.len() {
        lemma_entries_distinct(ids, n - 1, k1, k2);
        assert(r[k1] == e[k1]);
        assert(r[k2] == e[k2]);
    } else {
        let i = lemma_entry_origin(ids, n - 1, k1);
        assert(r[k1] == e[k1]);
        assert(r[k2] == (ids[n - 1], unique_prefix(ids, n - 1)));
        if r[k1].0@ == r[k2].0@ {
            assert(0 <= i < n - 1 && ids[i]@ == ids[n - 1]@);
            assert(occurs_before(ids, ids[n - 1], n - 1));
        }
    }
}

/// Every distinct id of the input has exactly one entry, every entry names an id of
/// the input, and each entry's text is a non-empty prefix of that id's own text.
pub proof fn lemma_prefix_entries_cover(ids: Seq<ThingsId>)
    ensures
        forall|j: int|
            0 <= j < ids.len() ==> exists|k: int|
                0 <= k < prefix_entries(ids, ids.len() as int).len() && (#[trigger] prefix_entries(
                    ids,
                    ids.len() as int,
                )[k]).0@ == (#[trigger] ids[j])@,
        forall|k: int|
            0 <= k < prefix_entries(ids, ids.len() as int).len() ==> exists|j: int|
                0 <= j < ids.len() && (#[trigger] prefix_entries(ids, ids.len() as int)[k]).0
                    == #[trigger] ids[j],
        forall|k1: int, k2: int|
            0 <= k1 < k2 < prefix_entries(ids, ids.len() as int).len() ==> (
            #[trigger] prefix_entries(ids, ids.len() as int)[k1]).0@ != (
            #[trigger] prefix_entries(ids, ids.len() as int)[k2]).0@,
        forall|k: int|
            0 <= k < prefix_entries(ids, ids.len() as int).len() ==> {
                let entry = #[trigger] prefix_entries(ids, ids.len() as int)[k];
                &&& 1 <= entry.1.len() <= id_text(entry.0).len()
                &&& entry.1.is_prefix_of(id_text(entry.0))
            },
{
    let n = ids.len() as int;
    let r = prefix_entries(ids, n);
    assert forall|j: int| 0 <= j < ids.len() implies exists|k: int|
        0 <= k < r.len() && (#[trigger] r[k]).0@ == (#[trigger] ids[j])@ by {
        let k = lemma_entry_of(ids, n, j);
    }
    assert forall|k: int| 0 <= k < r.len() implies exists|j: int|
        0 <= j < ids.len() && (#[trigger] r[k]).0 == #[trigger] ids[j] by {
        let i = lemma_entry_origin(ids, n, k);
        assert(r[k].0 == ids[i]);
    }
    assert forall|k1: int, k2: int| 0 <= k1 < k2 < r.len() implies (#[trigger] r[k1]).0@ != (
    #[trigger] r[k2]).0@ by {
        lemma_entries_distinct(ids, n, k1, k2);
    }
    assert forall|k: int| 0 <= k < r.len() implies {
        let entry = #[trigger] r[k];
        &&& 1 <= entry.1.len() <= id_text(entry.0).len()
        &&& entry.1.is_prefix_of(id_text(entry.0))
    } by {
        let i = lemma_entry_origin(ids, n, k);
        reveal(unique_prefix);
        let encs = encodings(ids);
        assert(encs[i] == base58_spec(ids[i]@));
        lemma_base58_len(ids[i]@);
        let need = need_len(encs, i);
        assert(encs[i].take(need as int).is_prefix_of(encs[i])) by {
            assert(encs[i].take(need as int) =~= encs[i].subrange(0, need as int));
        }
        lemma_chars_prefix(encs[i].take(need as int), encs[i]);
    }
}

/// Where no id's text begins the text of another id, the text of each entry begins
/// the text of its own id and of no other id of the input.
pub proof fn lemma_prefix_entries_unique(ids: Seq<ThingsId>)
    requires
        forall|a: int, b: int|
            0 <= a < ids.len() && 0 <= b < ids.len() && (#[trigger] ids[a])@ != (#[trigger] ids[b])@
                ==> !id_text(ids[a]).is_prefix_of(id_text(ids[b])),
    ensures
        forall|k: int, j: int|
            0 <= k < prefix_entries(ids, ids.len() as int).len() && 0 <= j < ids.len() && (
            #[trigger] prefix_entries(ids, ids.len() as int)[k]).1.is_prefix_of(
                id_text(#[trigger] ids[j]),
            ) ==> ids[j]@ == prefix_entries(ids, ids.len() as int)[k].0@,
{
    let n = ids.len() as int;
    let r = prefix_entries(ids, n);
    assert forall|k: int, j: int|
        0 <= k < r.len() && 0 <= j < ids.len() && (#[trigger] r[k]).1.is_prefix_of(
            id_text(#[trigger] ids[j]),
        ) implies ids[j]@ == r[k].0@ by {
        let i = lemma_entry_origin(ids, n, k);
        reveal(unique_prefix);
        let encs = encodings(ids);
        assert(encs[i] == base58_spec(ids[i]@));
        assert(encs[j] == base58_spec(ids[j]@));
        let need = need_len(encs, i);
        lemma_chars_prefix(encs[i].take(need as int), encs[j]);
        if ids[j]@ != ids[i]@ {
            lemma_unique_prefix_sets_apart(ids, i, j);
            lemma_chars_prefix(encs[i], encs[j]);
            assert(id_text(ids[i]).is_prefix_of(id_text(ids[j])));
        }
    }
}

/// No entry's text is longer than it must be: one character fewer begins the text of
/// another id of the input.
pub proof fn lemma_prefix_entries_minimal(ids: Seq<ThingsId>)
    ensures
        forall|k: int|
            0 <= k < prefix_entries(ids, ids.len() as int).len() && (#[trigger] prefix_entries(
                ids,
                ids.len() as int,
            )[k]).1.len() > 1 ==> exists|j: int|
                0 <= j < ids.len() && ids[j]@ != prefix_entries(ids, ids.len() as int)[k].0@
                    && prefix_entries(ids, ids.len() as int)[k].1.take(
                    prefix_entries(ids, ids.len() as int)[k].1.len() - 1,
                ).is_prefix_of(id_text(#[trigger] ids[j])),
{
    let n = ids.len() as int;
    let r = prefix_entries(ids, n);
    assert forall|k: int| 0 <= k < r.len() && (#[trigger] r[k]).1.len() > 1 implies exists|j: int|
        0 <= j < ids.len() && ids[j]@ != r[k].0@ && r[k].1.take(r[k].1.len() - 1).is_prefix_of(
            id_text(#[trigger] ids[j]),
        ) by {
        let i = lemma_entry_origin(ids, n, k);
        reveal(unique_prefix);
        let encs = encodings(ids);
        let need = need_len(encs, i);
        assert(r[k].1.len() == need);
        lemma_unique_prefix_minimal(ids, i);
        let j = choose|j: int|
            0 <= j < ids.len() && ids[j]@ != ids[i]@ && encs[i].take(need - 1).is_prefix_of(
                #[trigger] encs[j],
            );
        assert(encs[j] == base58_spec(ids[j]@));
        lemma_chars_prefix(encs[i].take(need - 1), encs[j]);
        assert(r[k].1.take(need - 1) =~= encs[i].take(need - 1).map_values(|b: u8| b as char));
    }
}

/// texts agreeing below `m` give the same longest shared prefix below `m`
proof fn lemma_max_lcp_agree(a: Seq<Seq<u8>>, b: Seq<Seq<u8>>, i: int, m: int)
    requires
        0 <= i < a.len(),
        i < b.len(),
        m <= a.len(),
        m <= b.len(),
        forall|j: int| 0 <= j < m ==> a[j] == b[j],
        a[i] == b[i],
    ensures
        max_lcp_upto(a, i, m) == max_lcp_upto(b, i, m),
    decreases m,
{
    if m > 0 {
        lemma_max_lcp_agree(a, b, i, m - 1);
    }
}

/// an id given once more, after it was given, has the same prefix as before everywhere
proof fn lemma_repeat_keeps_prefix(ids: Seq<ThingsId>, x: ThingsId, d: int, i: int)
    requires
        0 <= d < ids.len(),
        ids[d]@ == x@,
        0 <= i < ids.len(),
    ensures
        unique_prefix(ids.push(x), i) == unique_prefix(ids, i),
{
    reveal(unique_prefix);
    let more = ids.push(x);
    let a = encodings(ids);
    let b = encodings(more);
    let n = ids.len() as int;
    assert forall|j: int| 0 <= j < n implies a[j] == b[j] by {
        assert(more[j] == ids[j]);
    }
    lemma_max_lcp_agree(a, b, i, n);
    assert(b[n] == a[d]);
    lemma_max_lcp(a, i, n);
    assert(max_lcp_upto(b, i, n + 1) == max_lcp_upto(a, i, n));
    assert(need_len(b, i) == need_len(a, i));
}

/// the entries below `m` do not see what comes after
proof fn lemma_entries_prefix_agree(ids: Seq<ThingsId>, x: ThingsId, d: int, m: int)
    requires
        0 <= d < ids.len(),
        ids[d]@ == x@,
        0 <= m <= ids.len(),
    ensures
        prefix_entries(ids.push(x), m) == prefix_entries(ids, m),
    decreases m,
{
    if m > 0 {
        let more = ids.push(x);
        lemma_entries_prefix_agree(ids, x, d, m - 1);
        assert(more[m - 1] == ids[m - 1]);
        assert(occurs_before(more, more[m - 1], m - 1) == occurs_before(ids, ids[m - 1], m - 1)) by {
            if occurs_before(more, more[m - 1], m - 1) {
                let w = choose|w: int| 0 <= w < m - 1 && (#[trigger] more[w])@ == more[m - 1]@;
                assert(ids[w] == more[w]);
            }
            if occurs_before(ids, ids[m - 1], m - 1) {
                let w = choose|w: int| 0 <= w < m - 1 && (#[trigger] ids[w])@ == ids[m - 1]@;
                assert(ids[w] == more[w]);
            }
        }
        lemma_repeat_keeps_prefix(ids, x, d, m - 1);
    }
}

/// Giving an id once more changes nothing: the repeat is folded into the id's one
/// entry, and every entry keeps its prefix.
pub proof fn lemma_repeated_id_changes_nothing(ids: Seq<ThingsId>, x: ThingsId)
    requires
        exists|d: int| 0 <= d < ids.len() && (#[trigger] ids[d])@ == x@,
    ensures
        prefix_entries(ids.push(x), ids.len() + 1int) == prefix_entries(ids, ids.len() as int),
{
    let d = choose|d: int| 0 <= d < ids.len() && (#[trigger] ids[d])@ == x@;
    let more = ids.push(x);
    let n = ids.len() as int;
    assert(more[d] == ids[d]);
    assert(occurs_before(more, more[n], n));
    lemma_entries_prefix_agree(ids, x, d, n);
}

} // verus!
