//! naming tags on the command line: by title, case aside, or by id prefix, and items by their kind

use crate::common::{signed_decimal, signed_decimal_text, string_of, trim_spec, trimmed};
use crate::find::{lowercased, to_lowercase};
use crate::ids::things_id::{base58_spec, parse_spec, ThingsId};
use crate::mark::{tokens, tokens_of};
use crate::store::entities::{Tag, Task};
use crate::store::{carried, holds_id, tag_with, ThingsStore};
use crate::wire::TaskType;
use vstd::prelude::*;

verus! {

/// an item named by its kind with its article, a kind not known here by its number
pub open spec fn kind_text(kind: TaskType) -> Seq<char> {
    match kind {
        TaskType::Todo => "a to-do"@,
        TaskType::Project => "a project"@,
        TaskType::Heading => "a heading"@,
        TaskType::Unknown(raw) => "an item of unknown kind "@ + signed_decimal(raw as int),
    }
}

/// an item named by its kind with its article
pub fn kind_with_article(task: &Task) -> (text: String)
    ensures
        text@ == kind_text(task.item_type),
{
    match task.item_type {
        TaskType::Todo => String::from_str("a to-do"),
        TaskType::Project => String::from_str("a project"),
        TaskType::Heading => String::from_str("a heading"),
        TaskType::Unknown(raw) => {
            let mut text = String::from_str("an item of unknown kind ");
            text.append(signed_decimal_text(raw as i64).as_str());
            text
        },
    }
}

/// the tag's title, trimmed, is the token, case aside
pub open spec fn title_names(tag: Tag, token: Seq<char>) -> bool {
    lowercased(trim_spec(tag.title@)) == lowercased(token)
}

/// the tag's id text starts with the token
pub open spec fn id_names(tag: Tag, token: Seq<char>) -> bool {
    vstd::utf8::encode_utf8(token).is_prefix_of(base58_spec(tag.uuid@))
}

/// the ids of the first `n` tags a token names by title
pub open spec fn titled(tags: Seq<Tag>, token: Seq<char>, n: int) -> Seq<ThingsId>
    decreases n,
{
    if n <= 0 {
        seq![]
    } else if title_names(tags[n - 1], token) {
        titled(tags, token, n - 1).push(tags[n - 1].uuid)
    } else {
        titled(tags, token, n - 1)
    }
}

/// the ids of the first `n` tags a token names by id prefix
pub open spec fn prefixed(tags: Seq<Tag>, token: Seq<char>, n: int) -> Seq<ThingsId>
    decreases n,
{
    if n <= 0 {
        seq![]
    } else if id_names(tags[n - 1], token) {
        prefixed(tags, token, n - 1).push(tags[n - 1].uuid)
    } else {
        prefixed(tags, token, n - 1)
    }
}

/// the tag a token names: the one tag of that title, case aside, or else the one tag whose id it starts, or the message why none
pub open spec fn tag_for(tags: Seq<Tag>, token: Seq<char>) -> Result<ThingsId, Seq<char>> {
    let exact = titled(tags, token, tags.len() as int);
    let prefix = prefixed(tags, token, tags.len() as int);
    if exact.len() == 1 {
        Ok(exact[0])
    } else if exact.len() > 1 {
        Err("Ambiguous tag title: "@ + token)
    } else if prefix.len() == 1 {
        Ok(prefix[0])
    } else if prefix.len() > 1 {
        Err("Ambiguous tag ID prefix: "@ + token)
    } else {
        Err("Tag not found: "@ + token)
    }
}

/// the tags a token names by title, case aside
fn titled_ids(tags: &Vec<Tag>, token: &str) -> (ids: Vec<ThingsId>)
    ensures
        ids@ == titled(tags@, token@, tags@.len() as int),
{
    let lowered = to_lowercase(token);
    let mut ids: Vec<ThingsId> = Vec::new();
    let mut i: usize = 0;
    while i < tags.len()
        invariant
            i <= tags@.len(),
            lowered@ == lowercased(token@),
            ids@ == titled(tags@, token@, i as int),
        decreases tags@.len() - i,
    {
        let title = to_lowercase(trimmed(tags[i].title.as_str()).as_str());
        if same_chars(title.as_str(), lowered.as_str()) {
            ids.push(tags[i].uuid);
        }
        i += 1;
    }
    ids
}

/// the tags whose id text a token starts
fn prefixed_ids(tags: &Vec<Tag>, token: &str) -> (ids: Vec<ThingsId>)
    ensures
        ids@ == prefixed(tags@, token@, tags@.len() as int),
{
    let mut ids: Vec<ThingsId> = Vec::new();
    let mut i: usize = 0;
    while i < tags.len()
        invariant
            i <= tags@.len(),
            ids@ == prefixed(tags@, token@, i as int),
        decreases tags@.len() - i,
    {
        if tags[i].uuid.starts_with(token) {
            ids.push(tags[i].uuid);
        }
        i += 1;
    }
    ids
}

/// the two texts are the same
fn same_chars(a: &str, b: &str) -> (same: bool)
    ensures
        same == (a@ == b@),
{
    let x = crate::common::chars_of(a);
    let y = crate::common::chars_of(b);
    if x.len() != y.len() {
        return false;
    }
    let mut i: usize = 0;
    while i < x.len()
        invariant
            i <= x@.len(),
            x@.len() == y@.len(),
            x@ == a@,
            y@ == b@,
            forall|k: int| 0 <= k < i ==> x@[k] == y@[k],
        decreases x@.len() - i,
    {
        if x[i] != y[i] {
            return false;
        }
        i += 1;
    }
    assert(a@ =~= b@);
    true
}

/// the tag a token names: by title, case aside, or else by id prefix
pub fn resolve_single_tag_id(tags: &Vec<Tag>, token: &str) -> (found: Result<ThingsId, String>)
    ensures
        match tag_for(tags@, token@) {
            Ok(id) => found == Ok::<ThingsId, String>(id),
            Err(message) => found matches Err(m) && m@ == message,
        },
{
    let exact = titled_ids(tags, token);
    if exact.len() == 1 {
        return Ok(exact[0]);
    }
    if exact.len() > 1 {
        let mut message = String::from_str("Ambiguous tag title: ");
        message.append(token);
        return Err(message);
    }
    let prefix = prefixed_ids(tags, token);
    if prefix.len() == 1 {
        return Ok(prefix[0]);
    }
    if prefix.len() > 1 {
        let mut message = String::from_str("Ambiguous tag ID prefix: ");
        message.append(token);
        return Err(message);
    }
    let mut message = String::from_str("Tag not found: ");
    message.append(token);
    Err(message)
}

impl ThingsStore {
    /// the tag the whole text names, whatever commas its title holds, or the message why none
    pub fn resolve_single_tag(&self, identifier: &str) -> (found: (Option<&Tag>, String))
        ensures
            match tag_for(self.tags@, identifier@) {
                Ok(id) => found.1@.len() == 0 && match tag_with(self.tags@, id) {
                    Some(t) => found.0 matches Some(f) && *f == t,
                    None => found.0 is None,
                },
                Err(message) => found.0 is None && found.1@ == message,
            },
    {
        match resolve_single_tag_id(&self.tags, identifier) {
            Ok(id) => (self.tag(&id), String::new()),
            Err(message) => (None, message),
        }
    }
}

/// a task or an area carries the tag with an id of these bytes
pub open spec fn carried_bytes(tasks: Seq<crate::store::entities::Task>, areas: Seq<crate::store::entities::Area>, bytes: Seq<u8>) -> bool {
    (exists|i: int, k: int| 0 <= i < tasks.len() && 0 <= k < tasks[i].tags@.len() && #[trigger] tasks[i].tags@[k]@ == bytes)
        || (exists|i: int, k: int| 0 <= i < areas.len() && 0 <= k < areas[i].tags@.len() && #[trigger] areas[i].tags@[k]@ == bytes)
}

/// carrying a tag is carrying the bytes of its id
proof fn lemma_carried_bytes(tasks: Seq<Task>, areas: Seq<crate::store::entities::Area>, id: ThingsId)
    ensures
        carried(tasks, areas, id) == carried_bytes(tasks, areas, id@),
{
    if carried(tasks, areas, id) {
        if exists|i: int| 0 <= i < tasks.len() && holds_id(#[trigger] tasks[i].tags@, id) {
            let i = choose|i: int| 0 <= i < tasks.len() && holds_id(#[trigger] tasks[i].tags@, id);
            let k = choose|k: int| 0 <= k < tasks[i].tags@.len() && #[trigger] tasks[i].tags@[k]@ == id@;
            assert(tasks[i].tags@[k]@ == id@);
        } else {
            let i = choose|i: int| 0 <= i < areas.len() && holds_id(#[trigger] areas[i].tags@, id);
            let k = choose|k: int| 0 <= k < areas[i].tags@.len() && #[trigger] areas[i].tags@[k]@ == id@;
            assert(areas[i].tags@[k]@ == id@);
        }
    }
    if carried_bytes(tasks, areas, id@) {
        if exists|i: int, k: int| 0 <= i < tasks.len() && 0 <= k < tasks[i].tags@.len() && #[trigger] tasks[i].tags@[k]@ == id@ {
            let (i, k) = choose|i: int, k: int| 0 <= i < tasks.len() && 0 <= k < tasks[i].tags@.len() && #[trigger] tasks[i].tags@[k]@ == id@;
            assert(holds_id(tasks[i].tags@, id));
        } else {
            let (i, k) = choose|i: int, k: int| 0 <= i < areas.len() && 0 <= k < areas[i].tags@.len() && #[trigger] areas[i].tags@[k]@ == id@;
            assert(holds_id(areas[i].tags@, id));
        }
    }
}

/// the bytes of each id of a list
pub open spec fn id_bytes_of(ids: Seq<ThingsId>) -> Seq<Seq<u8>> {
    ids.map_values(|id: ThingsId| id@)
}

/// the ids, as their bytes, of the tags the first `n` tokens name, each once in the order first named, or the message of the first token that names none
///
/// for a removal the full id of a tag no longer listed still names it while something carries it
pub open spec fn tags_named(
    tags: Seq<Tag>,
    tasks: Seq<Task>,
    areas: Seq<crate::store::entities::Area>,
    tokens: Seq<Seq<char>>,
    removable: bool,
    n: int,
) -> Result<Seq<Seq<u8>>, Seq<char>>
    decreases n,
{
    if n <= 0 {
        Ok(seq![])
    } else {
        match tags_named(tags, tasks, areas, tokens, removable, n - 1) {
            Err(message) => Err(message),
            Ok(list) => {
                let token = tokens[n - 1];
                let named = match tag_for(tags, token) {
                    Ok(id) => Ok(id@),
                    Err(message) => match parse_spec(vstd::utf8::encode_utf8(token)) {
                        Some(bytes) => if removable && carried_bytes(tasks, areas, bytes) {
                            Ok(bytes)
                        } else {
                            Err(message)
                        },
                        None => Err(message),
                    },
                };
                match named {
                    Err(message) => Err(message),
                    Ok(bytes) => if list.contains(bytes) {
                        Ok(list)
                    } else {
                        Ok(list.push(bytes))
                    },
                }
            },
        }
    }
}

/// a failure among the first tokens stays the failure as more come
proof fn lemma_tags_named_stay_failed(
    tags: Seq<Tag>,
    tasks: Seq<Task>,
    areas: Seq<crate::store::entities::Area>,
    tokens: Seq<Seq<char>>,
    removable: bool,
    from: int,
    to: int,
)
    requires
        1 <= from <= to,
        tags_named(tags, tasks, areas, tokens, removable, from) is Err,
    ensures
        tags_named(tags, tasks, areas, tokens, removable, to) == tags_named(tags, tasks, areas, tokens, removable, from),
    decreases to - from,
{
    if from < to {
        lemma_tags_named_stay_failed(tags, tasks, areas, tokens, removable, from, to - 1);
    }
}

/// the id is in the list
fn holds(ids: &Vec<ThingsId>, id: &ThingsId) -> (found: bool)
    ensures
        found == id_bytes_of(ids@).contains(id@),
{
    let mut k: usize = 0;
    while k < ids.len()
        invariant
            k <= ids@.len(),
            forall|m: int| 0 <= m < k ==> ids@[m]@ != id@,
        decreases ids@.len() - k,
    {
        if ids[k] == *id {
            assert(id_bytes_of(ids@)[k as int] == id@);
            return true;
        }
        k += 1;
    }
    proof {
        if id_bytes_of(ids@).contains(id@) {
            let m = choose|m: int| 0 <= m < ids@.len() && id_bytes_of(ids@)[m] == id@;
            assert(ids@[m]@ == id@);
        }
    }
    false
}

impl ThingsStore {
    /// the tags a comma-separated list names, each once in order, or nothing and the message of the first token that names none
    fn resolve_tags(&self, raw_tags: &str, removable: bool) -> (res: (Vec<ThingsId>, String))
        ensures
            match tags_named(
                self.tags@,
                self.tasks@,
                self.areas@,
                tokens_of(raw_tags@),
                removable,
                tokens_of(raw_tags@).len() as int,
            ) {
                Ok(list) => id_bytes_of(res.0@) == list && res.1@.len() == 0,
                Err(message) => res.0@.len() == 0 && res.1@ == message,
            },
    {
        let found = tokens(raw_tags);
        let ghost all = tokens_of(raw_tags@);
        let mut resolved: Vec<ThingsId> = Vec::new();
        assert(id_bytes_of(resolved@) =~= Seq::<Seq<u8>>::empty());
        let mut t: usize = 0;
        while t < found.len()
            invariant
                t <= found@.len(),
                found@.map_values(|x: Vec<char>| x@) == all,
                all == tokens_of(raw_tags@),
                tags_named(self.tags@, self.tasks@, self.areas@, all, removable, t as int) == Ok::<Seq<Seq<u8>>, Seq<char>>(
                    id_bytes_of(resolved@),
                ),
            decreases found@.len() - t,
        {
            let token = string_of(&found[t]);
            assert(all[t as int] == token@);
            let id = match resolve_single_tag_id(&self.tags, token.as_str()) {
                Ok(id) => id,
                Err(message) => {
                    let parsed = ThingsId::parse(token.as_str());
                    match parsed {
                        Ok(id) => {
                            proof {
                                lemma_carried_bytes(self.tasks@, self.areas@, id);
                            }
                            if removable && self.tag_is_carried(&id) {
                                id
                            } else {
                                proof {
                                    lemma_tags_named_stay_failed(self.tags@, self.tasks@, self.areas@, all, removable, t + 1, all.len() as int);
                                }
                                return (Vec::new(), message);
                            }
                        },
                        Err(_) => {
                            proof {
                                lemma_tags_named_stay_failed(self.tags@, self.tasks@, self.areas@, all, removable, t + 1, all.len() as int);
                            }
                            return (Vec::new(), message);
                        },
                    }
                },
            };
            if !holds(&resolved, &id) {
                let ghost before = resolved@;
                resolved.push(id);
                assert(id_bytes_of(resolved@) =~= id_bytes_of(before).push(id@));
            } else {
                proof {
                    let k = choose|k: int| 0 <= k < resolved@.len() && resolved@[k]@ == id@;
                    assert(id_bytes_of(resolved@)[k] == id@);
                }
            }
            t += 1;
        }
        (resolved, String::new())
    }

    /// the tags a comma-separated list names, each once in order, or the message of the first token that names none
    pub fn resolve_tag_ids(&self, raw_tags: &str) -> (res: (Vec<ThingsId>, String))
        ensures
            match tags_named(
                self.tags@,
                self.tasks@,
                self.areas@,
                tokens_of(raw_tags@),
                false,
                tokens_of(raw_tags@).len() as int,
            ) {
                Ok(list) => id_bytes_of(res.0@) == list && res.1@.len() == 0,
                Err(message) => res.0@.len() == 0 && res.1@ == message,
            },
    {
        self.resolve_tags(raw_tags, false)
    }

    /// the tags a removal names: as `resolve_tag_ids`, and besides the full id of a tag deleted while something still carries it
    pub fn resolve_removable_tag_ids(&self, raw_tags: &str) -> (res: (Vec<ThingsId>, String))
        ensures
            match tags_named(
                self.tags@,
                self.tasks@,
                self.areas@,
                tokens_of(raw_tags@),
                true,
                tokens_of(raw_tags@).len() as int,
            ) {
                Ok(list) => id_bytes_of(res.0@) == list && res.1@.len() == 0,
                Err(message) => res.0@.len() == 0 && res.1@ == message,
            },
    {
        self.resolve_tags(raw_tags, true)
    }
}

} // verus!
