//! renaming and moving a tag, and deleting one with the tag taken off everything that carries it

use crate::common::{blank, one_line, sanitize, trim_spec, trimmed, Shown};
use crate::ids::things_id::ThingsId;
use crate::store::entities::{Area, Instant, Tag, Task};
use crate::store::{
    chain_before, climb_ends, climb_step, climbs, held, holds_id, lists_in_order, parent_of, tag_position, tag_with,
    ThingsStore,
};
use crate::tag_names::{resolve_single_tag_id, tag_for};
use crate::text::{eq_ignore_ascii_case, lowercase_spec};
use vstd::prelude::*;

verus! {

/// what a tag edit asks: a new name, or a new parent, `clear` for none
pub struct TagsEditArgs {
    pub tag_id: String,
    pub name: Option<String>,
    pub move_target: Option<String>,
}

/// what a tag edit writes: the title and the parents, each None where it is left as it is
pub struct TagUpdate {
    pub title: Option<String>,
    pub parent_ids: Option<Vec<ThingsId>>,
}

/// a tag edit ready to write: the tag, the update and a label per part it changes
pub struct TagsEditPlan<'a> {
    pub tag: &'a Tag,
    pub update: TagUpdate,
    pub labels: Vec<String>,
    /// the instant the update is stamped with
    pub modification_date: Instant,
}

/// a tag delete ready to write: the tag, and the tags each carrier keeps, to-dos and projects first, then areas
pub struct TagsDeletePlan<'a> {
    pub tag: &'a Tag,
    pub task_tags: Vec<(ThingsId, Vec<ThingsId>)>,
    pub area_tags: Vec<(ThingsId, Vec<ThingsId>)>,
}

/// the first `n` ids of a list but those of an id
pub open spec fn without_tag(ids: Seq<ThingsId>, id: ThingsId, n: int) -> Seq<ThingsId>
    decreases n,
{
    if n <= 0 {
        seq![]
    } else if ids[n - 1]@ != id@ {
        without_tag(ids, id, n - 1).push(ids[n - 1])
    } else {
        without_tag(ids, id, n - 1)
    }
}

/// each of the first `n` tasks that carries the tag, with the tags it keeps
pub open spec fn task_carriers(tasks: Seq<Task>, id: ThingsId, n: int) -> Seq<(ThingsId, Seq<ThingsId>)>
    decreases n,
{
    if n <= 0 {
        seq![]
    } else if holds_id(tasks[n - 1].tags@, id) {
        task_carriers(tasks, id, n - 1).push((tasks[n - 1].uuid, without_tag(tasks[n - 1].tags@, id, tasks[n - 1].tags@.len() as int)))
    } else {
        task_carriers(tasks, id, n - 1)
    }
}

/// each of the first `n` areas that carries the tag, with the tags it keeps
pub open spec fn area_carriers(areas: Seq<Area>, id: ThingsId, n: int) -> Seq<(ThingsId, Seq<ThingsId>)>
    decreases n,
{
    if n <= 0 {
        seq![]
    } else if holds_id(areas[n - 1].tags@, id) {
        area_carriers(areas, id, n - 1).push((areas[n - 1].uuid, without_tag(areas[n - 1].tags@, id, areas[n - 1].tags@.len() as int)))
    } else {
        area_carriers(areas, id, n - 1)
    }
}

/// a tag of the store has the tag as its parent
pub open spec fn has_children(tags: Seq<Tag>, id: ThingsId) -> bool {
    exists|k: int| 0 <= k < tags.len() && ((#[trigger] tags[k]).parent_uuid matches Some(p) && p@ == id@)
}

/// the carriers as plain values
pub open spec fn carrier_views(list: Seq<(ThingsId, Vec<ThingsId>)>) -> Seq<(ThingsId, Seq<ThingsId>)> {
    list.map_values(|c: (ThingsId, Vec<ThingsId>)| (c.0, c.1@))
}

/// what deleting a tag gives: the tag, the to-dos and projects that carry it and the areas that do, each with the tags it keeps, or the message refusing it
///
/// a tag with child tags is refused: what the app does to them is not captured
pub open spec fn tag_delete_outcome(tasks: Seq<Task>, areas: Seq<Area>, tags: Seq<Tag>, identifier: Seq<char>) -> Result<
    (Tag, Seq<(ThingsId, Seq<ThingsId>)>, Seq<(ThingsId, Seq<ThingsId>)>),
    Seq<char>,
> {
    match tag_for(tags, identifier) {
        Err(message) => Err(message),
        Ok(id) => match tag_with(tags, id) {
            None => Err(seq![]),
            Some(tag) => if has_children(tags, tag.uuid) {
                Err(sanitize(tag.title@, Shown::Field) + " has child tags, move or delete them first."@)
            } else {
                Ok((tag, task_carriers(tasks, tag.uuid, tasks.len() as int), area_carriers(areas, tag.uuid, areas.len() as int)))
            },
        },
    }
}

/// the ids but those of a tag
fn without_id(ids: &Vec<ThingsId>, id: &ThingsId) -> (kept: Vec<ThingsId>)
    ensures
        kept@ == without_tag(ids@, *id, ids@.len() as int),
{
    let mut kept: Vec<ThingsId> = Vec::new();
    let mut i: usize = 0;
    while i < ids.len()
        invariant
            i <= ids@.len(),
            kept@ == without_tag(ids@, *id, i as int),
        decreases ids@.len() - i,
    {
        if ids[i] != *id {
            kept.push(ids[i]);
        }
        i += 1;
    }
    kept
}

/// the id is among the tags
fn carries(ids: &Vec<ThingsId>, id: &ThingsId) -> (found: bool)
    ensures
        found == holds_id(ids@, *id),
{
    let mut k: usize = 0;
    while k < ids.len()
        invariant
            k <= ids@.len(),
            forall|m: int| 0 <= m < k ==> ids@[m]@ != id@,
        decreases ids@.len() - k,
    {
        if ids[k] == *id {
            assert(ids@[k as int]@ == id@);
            return true;
        }
        k += 1;
    }
    false
}

impl ThingsStore {
    /// some tag has the tag as its parent
    fn has_child_tags(&self, id: &ThingsId) -> (found: bool)
        ensures
            found == has_children(self.tags@, *id),
    {
        let mut k: usize = 0;
        while k < self.tags.len()
            invariant
                k <= self.tags@.len(),
                forall|m: int| 0 <= m < k ==> !((#[trigger] self.tags@[m]).parent_uuid matches Some(p) && p@ == id@),
            decreases self.tags@.len() - k,
        {
            match self.tags[k].parent_uuid {
                Some(p) => {
                    if p == *id {
                        assert(self.tags@[k as int].parent_uuid matches Some(q) && q@ == id@);
                        return true;
                    }
                },
                None => {},
            }
            k += 1;
        }
        false
    }
}

/// the plan of a tag delete: the tag named by title or id prefix, refused while child tags hang under it, and every to-do, project and area that carries it with the tags it keeps, so that one commit takes the tag off them
pub fn tags_delete_plan<'a>(identifier: &str, store: &'a ThingsStore) -> (plan: Result<TagsDeletePlan<'a>, String>)
    ensures
        match tag_delete_outcome(store.tasks@, store.areas@, store.tags@, identifier@) {
            Err(message) => plan matches Err(m) && m@ == message,
            Ok((tag, tasks, areas)) => plan matches Ok(p) && *p.tag == tag && carrier_views(p.task_tags@) == tasks
                && carrier_views(p.area_tags@) == areas,
        },
{
    let (found, message) = store.resolve_single_tag(identifier);
    let tag = match found {
        Some(tag) => tag,
        None => return Err(message),
    };
    if store.has_child_tags(&tag.uuid) {
        let mut refused = one_line(tag.title.as_str());
        refused.append(" has child tags, move or delete them first.");
        return Err(refused);
    }
    let mut task_tags: Vec<(ThingsId, Vec<ThingsId>)> = Vec::new();
    let mut i: usize = 0;
    while i < store.tasks.len()
        invariant
            i <= store.tasks@.len(),
            carrier_views(task_tags@) == task_carriers(store.tasks@, tag.uuid, i as int),
        decreases store.tasks@.len() - i,
    {
        let task = &store.tasks[i];
        if carries(&task.tags, &tag.uuid) {
            let kept = without_id(&task.tags, &tag.uuid);
            let ghost before = task_tags@;
            task_tags.push((task.uuid, kept));
            assert(carrier_views(task_tags@) =~= carrier_views(before).push((task.uuid, kept@)));
        }
        i += 1;
    }
    let mut area_tags: Vec<(ThingsId, Vec<ThingsId>)> = Vec::new();
    let mut j: usize = 0;
    while j < store.areas.len()
        invariant
            j <= store.areas@.len(),
            carrier_views(area_tags@) == area_carriers(store.areas@, tag.uuid, j as int),
        decreases store.areas@.len() - j,
    {
        let area = &store.areas[j];
        if carries(&area.tags, &tag.uuid) {
            let kept = without_id(&area.tags, &tag.uuid);
            let ghost before = area_tags@;
            area_tags.push((area.uuid, kept));
            assert(carrier_views(area_tags@) =~= carrier_views(before).push((area.uuid, kept@)));
        }
        j += 1;
    }
    proof {
        assert(carrier_views(Seq::<(ThingsId, Vec<ThingsId>)>::empty()) =~= Seq::<(ThingsId, Seq<ThingsId>)>::empty());
    }
    Ok(TagsDeletePlan { tag, task_tags, area_tags })
}

/// two chains that climb from one tag to where its parents stop are the same chain
pub proof fn lemma_climb_unique(tags: Seq<Tag>, tag: ThingsId, a: Seq<ThingsId>, b: Seq<ThingsId>)
    requires
        climbs(tags, tag, a),
        climb_ends(tags, tag, a),
        climbs(tags, tag, b),
        climb_ends(tags, tag, b),
    ensures
        a.len() == b.len(),
        forall|k: int| 0 <= k < a.len() ==> (#[trigger] a[k])@ == b[k]@,
{
    let n = if a.len() < b.len() { a.len() as int } else { b.len() as int };
    assert forall|k: int| 0 <= k < n implies (#[trigger] a[k])@ == b[k]@ by {
        lemma_climb_prefix(tags, tag, a, b, k);
    }
    if a.len() < b.len() {
        lemma_climb_stops(tags, tag, a, b);
    } else if b.len() < a.len() {
        lemma_climb_stops(tags, tag, b, a);
    }
}

/// the chains agree up to where the shorter one ends
proof fn lemma_climb_prefix(tags: Seq<Tag>, tag: ThingsId, a: Seq<ThingsId>, b: Seq<ThingsId>, k: int)
    requires
        climbs(tags, tag, a),
        climbs(tags, tag, b),
        0 <= k < a.len(),
        k < b.len(),
    ensures
        a[k]@ == b[k]@,
    decreases k,
{
    assert(climb_step(tags, tag, a, k));
    assert(climb_step(tags, tag, b, k));
    if k > 0 {
        lemma_climb_prefix(tags, tag, a, b, k - 1);
        lemma_same_parent(tags, a[k - 1], b[k - 1]);
    }
}

/// ids with the same bytes have the same parent
proof fn lemma_same_parent(tags: Seq<Tag>, x: ThingsId, y: ThingsId)
    requires
        x@ == y@,
    ensures
        parent_of(tags, x) == parent_of(tags, y),
{
}

/// a chain that ends is no strict prefix of another that climbs
proof fn lemma_climb_stops(tags: Seq<Tag>, tag: ThingsId, a: Seq<ThingsId>, b: Seq<ThingsId>)
    requires
        climbs(tags, tag, a),
        climb_ends(tags, tag, a),
        climbs(tags, tag, b),
        forall|k: int| 0 <= k < a.len() && k < b.len() ==> (#[trigger] a[k])@ == b[k]@,
    ensures
        a.len() >= b.len(),
{
    if a.len() < b.len() {
        let n = a.len() as int;
        assert(climb_step(tags, tag, b, n));
        if n > 0 {
            lemma_same_parent(tags, a[n - 1], b[n - 1]);
        }
        let p = parent_of(tags, chain_before(tag, b, n))->0;
        assert(p@ == b[n]@);
        assert(b[n]@ != tag@);
        if holds_id(a, p) {
            let k = choose|k: int| 0 <= k < a.len() && #[trigger] a[k]@ == p@;
            assert(b[k]@ == a[k]@);
            assert(b[k]@ != b[n]@);
        }
    }
}

/// the tag stands among the ancestors of the other one
pub open spec fn is_below(tags: Seq<Tag>, tag: ThingsId, other: ThingsId) -> bool {
    exists|chain: Seq<ThingsId>| #[trigger] climbs(tags, other, chain) && climb_ends(tags, other, chain) && holds_id(chain, tag)
}

/// the parents a tag edit gives, its label, or the message refusing the move
pub open spec fn move_outcome(tags: Seq<Tag>, tag: Tag, target: Seq<char>) -> Result<(Seq<ThingsId>, Seq<char>), Seq<char>> {
    let raw = trim_spec(target);
    if lowercase_spec(raw) == lowercase_spec("clear"@) {
        Ok((seq![], "move=clear"@))
    } else {
        match tag_for(tags, raw) {
            Err(message) => Err(message),
            Ok(id) => match tag_with(tags, id) {
                None => Err(seq![]),
                Some(parent) => if parent.uuid@ == tag.uuid@ {
                    Err("A tag cannot be its own parent."@)
                } else if is_below(tags, tag.uuid, parent.uuid) {
                    Err(
                        "Cannot move "@ + sanitize(tag.title@, Shown::Field) + " under "@ + sanitize(
                            parent.title@,
                            Shown::Field,
                        ) + ", which is below it."@,
                    )
                } else {
                    Ok((seq![parent.uuid], "move="@ + raw))
                },
            },
        }
    }
}

/// another tag of the store has the name, ASCII case aside
pub open spec fn name_taken(tags: Seq<Tag>, tag: Tag, name: Seq<char>) -> bool {
    exists|k: int|
        0 <= k < tags.len() && (#[trigger] tags[k]).uuid@ != tag.uuid@ && lowercase_spec(tags[k].title@) == lowercase_spec(
            name,
        )
}

/// what a tag edit gives: the tag, the new title, the new parents and the labels, or the message refusing it
pub open spec fn tag_edit_outcome(tags: Seq<Tag>, args: TagsEditArgs) -> Result<
    (Tag, Option<Seq<char>>, Option<Seq<ThingsId>>, Seq<Seq<char>>),
    Seq<char>,
> {
    match tag_for(tags, args.tag_id@) {
        Err(message) => Err(message),
        Ok(id) => match tag_with(tags, id) {
            None => Err(seq![]),
            Some(tag) => {
                let named = match args.name {
                    None => Ok((None::<Seq<char>>, Seq::<Seq<char>>::empty())),
                    Some(n) => {
                        let name = trim_spec(n@);
                        if name.len() == 0 {
                            Err("Tag name cannot be empty."@)
                        } else if name_taken(tags, tag, name) {
                            Err("A tag named "@ + name + " exists already."@)
                        } else {
                            Ok((Some(name), seq!["name"@]))
                        }
                    },
                };
                match named {
                    Err(message) => Err(message),
                    Ok((title, labels)) => {
                        let moved = match args.move_target {
                            None => Ok((None::<Seq<ThingsId>>, labels)),
                            Some(m) => match move_outcome(tags, tag, m@) {
                                Err(message) => Err(message),
                                Ok((parents, label)) => Ok((Some(parents), labels.push(label))),
                            },
                        };
                        match moved {
                            Err(message) => Err(message),
                            Ok((parents, labels)) => if title is None && parents is None {
                                Err("No edit changes requested."@)
                            } else {
                                Ok((tag, title, parents, labels))
                            },
                        }
                    },
                }
            },
        }
    }
}

/// the strings as texts
pub open spec fn label_texts(list: Seq<String>) -> Seq<Seq<char>> {
    list.map_values(|s: String| s@)
}

impl ThingsStore {
    /// another tag has the name, ASCII case aside
    fn tag_name_taken(&self, tag: &Tag, name: &str) -> (taken: bool)
        ensures
            taken == name_taken(self.tags@, *tag, name@),
    {
        let mut k: usize = 0;
        while k < self.tags.len()
            invariant
                k <= self.tags@.len(),
                forall|m: int|
                    0 <= m < k ==> !((#[trigger] self.tags@[m]).uuid@ != tag.uuid@ && lowercase_spec(self.tags@[m].title@)
                        == lowercase_spec(name@)),
            decreases self.tags@.len() - k,
        {
            let other = &self.tags[k];
            if other.uuid != tag.uuid && eq_ignore_ascii_case(&crate::common::chars_of(other.title.as_str()), name) {
                return true;
            }
            k += 1;
        }
        false
    }

    /// the parents and label of a move, or the message refusing it
    fn tag_move(&self, tag: &Tag, target: &str) -> (res: Result<(Vec<ThingsId>, String), String>)
        ensures
            match move_outcome(self.tags@, *tag, target@) {
                Err(message) => res matches Err(m) && m@ == message,
                Ok((parents, label)) => res matches Ok(r) && r.0@ == parents && r.1@ == label,
            },
    {
        let raw = trimmed(target);
        let raw_chars = crate::common::chars_of(raw.as_str());
        if eq_ignore_ascii_case(&raw_chars, "clear") {
            return Ok((Vec::new(), String::from_str("move=clear")));
        }
        let (found, message) = self.resolve_single_tag(raw.as_str());
        let parent = match found {
            Some(parent) => parent,
            None => return Err(message),
        };
        if parent.uuid == tag.uuid {
            return Err(String::from_str("A tag cannot be its own parent."));
        }
        let chain = self.tag_ancestors(&parent.uuid);
        proof {
            assert forall|c: Seq<ThingsId>| #[trigger] climbs(self.tags@, parent.uuid, c) && climb_ends(self.tags@, parent.uuid, c)
                implies holds_id(c, tag.uuid) == holds_id(chain@, tag.uuid) by {
                lemma_climb_unique(self.tags@, parent.uuid, c, chain@);
                if holds_id(c, tag.uuid) {
                    let k = choose|k: int| 0 <= k < c.len() && #[trigger] c[k]@ == tag.uuid@;
                    assert(chain@[k]@ == tag.uuid@);
                }
                if holds_id(chain@, tag.uuid) {
                    let k = choose|k: int| 0 <= k < chain@.len() && #[trigger] chain@[k]@ == tag.uuid@;
                    assert(c[k]@ == tag.uuid@);
                }
            }
        }
        if carries(&chain, &tag.uuid) {
            let mut refused = String::from_str("Cannot move ");
            refused.append(one_line(tag.title.as_str()).as_str());
            refused.append(" under ");
            refused.append(one_line(parent.title.as_str()).as_str());
            refused.append(", which is below it.");
            return Err(refused);
        }
        let mut parents: Vec<ThingsId> = Vec::new();
        parents.push(parent.uuid);
        let mut label = String::from_str("move=");
        label.append(raw.as_str());
        proof {
            assert(parents@ =~= seq![parent.uuid]);
        }
        Ok((parents, label))
    }
}

/// the plan of a tag edit: the tag named by title or id prefix, a new name no other tag has, ASCII case aside, and a new parent, or none, that is not the tag or below it
pub fn tags_edit_plan<'a>(args: &TagsEditArgs, store: &'a ThingsStore, now: Instant) -> (plan: Result<
    TagsEditPlan<'a>,
    String,
>)
    requires
        store.well_formed(),
    ensures
        plan matches Ok(p) ==> p.modification_date == now,
        match tag_edit_outcome(store.tags@, *args) {
            Err(message) => plan matches Err(m) && m@ == message,
            Ok((tag, title, parents, labels)) => (plan matches Ok(p) && *p.tag == tag && (match title {
                None => p.update.title is None,
                Some(t) => (p.update.title matches Some(u) && u@ == t),
            }) && (match parents {
                None => p.update.parent_ids is None,
                Some(ids) => (p.update.parent_ids matches Some(v) && v@ == ids),
            }) && label_texts(p.labels@) == labels),
        },
{
    let (found, message) = store.resolve_single_tag(args.tag_id.as_str());
    let tag = match found {
        Some(tag) => tag,
        None => return Err(message),
    };
    let mut labels: Vec<String> = Vec::new();
    let mut title: Option<String> = None;
    match &args.name {
        Some(n) => {
            let name = trimmed(n.as_str());
            if name.as_str().unicode_len() == 0 {
                return Err(String::from_str("Tag name cannot be empty."));
            }
            if store.tag_name_taken(tag, name.as_str()) {
                let mut refused = String::from_str("A tag named ");
                refused.append(name.as_str());
                refused.append(" exists already.");
                return Err(refused);
            }
            labels.push(String::from_str("name"));
            title = Some(name);
        },
        None => {},
    }
    let ghost named_labels = labels@;
    let mut parent_ids: Option<Vec<ThingsId>> = None;
    match &args.move_target {
        Some(m) => match store.tag_move(tag, m.as_str()) {
            Ok((parents, label)) => {
                labels.push(label);
                parent_ids = Some(parents);
            },
            Err(message) => return Err(message),
        },
        None => {},
    }
    if title.is_none() && parent_ids.is_none() {
        return Err(String::from_str("No edit changes requested."));
    }
    proof {
        reveal_strlit("name");
        assert(label_texts(labels@) =~= match args.name {
            None => Seq::<Seq<char>>::empty(),
            Some(n) => seq!["name"@],
        } + match args.move_target {
            None => Seq::<Seq<char>>::empty(),
            Some(m) => seq![move_outcome(store.tags@, *tag, m@)->Ok_0.1],
        });
    }
    Ok(TagsEditPlan { tag, update: TagUpdate { title, parent_ids }, labels, modification_date: now })
}

/// the list holds a tag of the id
pub open spec fn in_tag_list(list: Seq<Tag>, id: ThingsId) -> bool {
    exists|k: int| 0 <= k < list.len() && (#[trigger] list[k]).uuid@ == id@
}

/// the parent a tag shows under in the list of tags `listed`: its parent where that is another tag
/// of the list and the tag is not among the parent's ancestors; None where the tag shows at the top,
/// so that a tag whose chain of parents comes back to it still shows somewhere
pub open spec fn shown_parent(tags: Seq<Tag>, listed: Seq<Tag>, tag: Tag) -> Option<ThingsId> {
    match tag.parent_uuid {
        None => None,
        Some(p) => if p@ != tag.uuid@ && in_tag_list(listed, p) && !is_below(tags, tag.uuid, p) {
            Some(p)
        } else {
            None
        },
    }
}

/// the tags of the rows
pub open spec fn row_tags(rows: Seq<(&Tag, Option<ThingsId>)>) -> Seq<Tag> {
    rows.map_values(|r: (&Tag, Option<ThingsId>)| *r.0)
}

/// a tag the app makes: its title and the parent it goes under, if any
pub struct NewTag {
    pub title: String,
    pub parent: Option<ThingsId>,
}

/// a tag of the store has the name, ASCII case aside
pub open spec fn name_used(tags: Seq<Tag>, name: Seq<char>) -> bool {
    exists|k: int| 0 <= k < tags.len() && lowercase_spec((#[trigger] tags[k]).title@) == lowercase_spec(name)
}

/// what a new tag comes to: its trimmed name and its parent, or the message refusing it
pub open spec fn tag_new_outcome(tags: Seq<Tag>, name: Seq<char>, parent: Option<Seq<char>>) -> Result<
    (Seq<char>, Option<ThingsId>),
    Seq<char>,
> {
    let title = trim_spec(name);
    if title.len() == 0 {
        Err("Tag name cannot be empty."@)
    } else if name_used(tags, title) {
        Err("A tag named "@ + title + " exists already."@)
    } else {
        match parent {
            None => Ok((title, None)),
            Some(raw) => match tag_for(tags, raw) {
                Err(message) => Err(message),
                Ok(id) => Ok((title, Some(id))),
            },
        }
    }
}

/// the list holds a tag of the id, looked up
fn listed_id(list: &Vec<&Tag>, id: &ThingsId) -> (found: bool)
    ensures
        found == in_tag_list(held(list@), *id),
{
    let mut k: usize = 0;
    while k < list.len()
        invariant
            k <= list@.len(),
            forall|m: int| 0 <= m < k ==> (#[trigger] held(list@)[m]).uuid@ != id@,
        decreases list@.len() - k,
    {
        if list[k].uuid == *id {
            assert(held(list@)[k as int].uuid@ == id@);
            return true;
        }
        k += 1;
    }
    false
}

impl ThingsStore {
    /// a tag of the store has the name, ASCII case aside
    fn tag_name_used(&self, name: &str) -> (used: bool)
        ensures
            used == name_used(self.tags@, name@),
    {
        let mut k: usize = 0;
        while k < self.tags.len()
            invariant
                k <= self.tags@.len(),
                forall|m: int|
                    0 <= m < k ==> lowercase_spec((#[trigger] self.tags@[m]).title@) != lowercase_spec(name@),
            decreases self.tags@.len() - k,
        {
            if eq_ignore_ascii_case(&crate::common::chars_of(self.tags[k].title.as_str()), name) {
                return true;
            }
            k += 1;
        }
        false
    }

    /// the parent a tag of the list shows under, None for the top
    fn shown_parent_of(&self, listed: &Vec<&Tag>, tag: &Tag) -> (parent: Option<ThingsId>)
        ensures
            parent == shown_parent(self.tags@, held(listed@), *tag),
    {
        let p = match tag.parent_uuid {
            Some(p) => p,
            None => return None,
        };
        if p == tag.uuid || !listed_id(listed, &p) {
            return None;
        }
        let chain = self.tag_ancestors(&p);
        proof {
            assert(is_below(self.tags@, tag.uuid, p) == holds_id(chain@, tag.uuid)) by {
                if is_below(self.tags@, tag.uuid, p) {
                    let c = choose|c: Seq<ThingsId>|
                        #[trigger] climbs(self.tags@, p, c) && climb_ends(self.tags@, p, c) && holds_id(c, tag.uuid);
                    lemma_climb_unique(self.tags@, p, c, chain@);
                    let k = choose|k: int| 0 <= k < c.len() && #[trigger] c[k]@ == tag.uuid@;
                    assert(chain@[k]@ == tag.uuid@);
                }
                if holds_id(chain@, tag.uuid) {
                    assert(climbs(self.tags@, p, chain@) && climb_ends(self.tags@, p, chain@));
                }
            }
        }
        if carries(&chain, &tag.uuid) {
            None
        } else {
            Some(p)
        }
    }

    /// the tags of the list of tags, in its order, each with the parent it shows under, None for the top
    pub fn tag_tree(&self) -> (rows: Vec<(&Tag, Option<ThingsId>)>)
        requires
            self.well_formed(),
        ensures
            lists_in_order(row_tags(rows@), self.tags@, |t: Tag| !blank(t.title@), |t: Tag| tag_position(t)),
            forall|i: int|
                0 <= i < rows@.len() ==> (#[trigger] rows@[i]).1 == shown_parent(
                    self.tags@,
                    row_tags(rows@),
                    *rows@[i].0,
                ),
    {
        let listed = self.tags();
        let mut rows: Vec<(&Tag, Option<ThingsId>)> = Vec::new();
        let mut k: usize = 0;
        while k < listed.len()
            invariant
                k <= listed@.len(),
                rows@.len() == k,
                forall|m: int| 0 <= m < k ==> *(#[trigger] rows@[m]).0 == held(listed@)[m],
                forall|m: int|
                    0 <= m < k ==> (#[trigger] rows@[m]).1 == shown_parent(self.tags@, held(listed@), *rows@[m].0),
            decreases listed@.len() - k,
        {
            let tag = listed[k];
            let parent = self.shown_parent_of(&listed, tag);
            rows.push((tag, parent));
            k += 1;
        }
        assert(row_tags(rows@) =~= held(listed@));
        rows
    }

    /// a new tag: its name, trimmed, that no tag has, ASCII case aside, and the parent the
    /// title or id prefix `parent` names, or the message refusing it
    pub fn tags_new_plan(&self, name: &str, parent: Option<&str>) -> (plan: Result<NewTag, String>)
        ensures
            match tag_new_outcome(
                self.tags@,
                name@,
                match parent {
                    Some(raw) => Some(raw@),
                    None => None,
                },
            ) {
                Err(message) => plan matches Err(m) && m@ == message,
                Ok((title, id)) => plan matches Ok(t) && t.title@ == title && t.parent == id,
            },
    {
        let title = trimmed(name);
        if title.as_str().unicode_len() == 0 {
            return Err(String::from_str("Tag name cannot be empty."));
        }
        if self.tag_name_used(title.as_str()) {
            let mut refused = String::from_str("A tag named ");
            refused.append(title.as_str());
            refused.append(" exists already.");
            return Err(refused);
        }
        let parent_id = match parent {
            None => None,
            Some(raw) => match resolve_single_tag_id(&self.tags, raw) {
                Ok(id) => Some(id),
                Err(message) => return Err(message),
            },
        };
        Ok(NewTag { title, parent: parent_id })
    }
}

} // verus!
