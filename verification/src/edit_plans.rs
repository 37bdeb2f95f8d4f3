//! editing an area or a project: its title, its notes, where a project stands and the tags either carries

use crate::common::{trim_spec, trimmed};
use crate::find::{lowercased, to_lowercase};
use crate::ids::things_id::ThingsId;
use crate::mark::tokens_of;
use crate::store::entities::{is_project_spec, Area, Instant, Task};
use crate::wire::EntityType;
use crate::store::{area_resolution, area_with_bytes, mark_lookup, ThingsStore};
use crate::tag_names::{id_bytes_of, tags_named};
use vstd::prelude::*;

verus! {

/// the tags to add and to take off, each a comma-separated list of titles or id prefixes
pub struct TagDeltaArgs {
    pub add_tags: Option<String>,
    pub remove_tags: Option<String>,
}

/// what an area edit asks
pub struct AreasEditArgs {
    pub area_id: String,
    pub title: Option<String>,
    pub tag_delta: TagDeltaArgs,
}

/// what a project edit asks: a title, notes, `clear` or an area to move to, and tags
pub struct ProjectsEditArgs {
    pub project_id: String,
    pub title: Option<String>,
    pub move_target: Option<String>,
    pub notes: Option<String>,
    pub tag_delta: TagDeltaArgs,
}

/// what an area edit writes, each None where it is left as it is
pub struct AreaUpdate {
    pub title: Option<String>,
    pub tag_ids: Option<Vec<ThingsId>>,
}

/// what a project edit writes, each None where it is left as it is: the notes as the text they hold, empty to clear them
pub struct ProjectUpdate {
    pub title: Option<String>,
    pub notes: Option<String>,
    pub area_ids: Option<Vec<ThingsId>>,
    pub tag_ids: Option<Vec<ThingsId>>,
}

/// an area edit ready to write
pub struct AreasEditPlan<'a> {
    pub area: &'a Area,
    pub update: AreaUpdate,
    pub labels: Vec<String>,
    /// the instant the update is stamped with
    pub modification_date: Instant,
}

/// a project edit ready to write
pub struct ProjectsEditPlan<'a> {
    pub project: &'a Task,
    pub update: ProjectUpdate,
    pub labels: Vec<String>,
    /// the entity the update is written as
    pub entity: EntityType,
    /// the instant the update is stamped with
    pub modification_date: Instant,
}

/// the tags a list names, or nothing and the message of the first token that names none
pub open spec fn named_tags(tasks: Seq<Task>, areas: Seq<Area>, tags: Seq<crate::store::entities::Tag>, raw: Seq<char>) -> (
    Seq<Seq<u8>>,
    Seq<char>,
) {
    match tags_named(tags, tasks, areas, tokens_of(raw), false, tokens_of(raw).len() as int) {
        Ok(list) => (list, seq![]),
        Err(message) => (seq![], message),
    }
}

/// the tags with the first `n` ids added that they lack
pub open spec fn with_added(current: Seq<Seq<u8>>, ids: Seq<Seq<u8>>, n: int) -> Seq<Seq<u8>>
    decreases n,
{
    if n <= 0 {
        current
    } else {
        let before = with_added(current, ids, n - 1);
        if before.contains(ids[n - 1]) {
            before
        } else {
            before.push(ids[n - 1])
        }
    }
}

/// the first `n` tags but those among the ids
pub open spec fn without_ids(current: Seq<Seq<u8>>, ids: Seq<Seq<u8>>, n: int) -> Seq<Seq<u8>>
    decreases n,
{
    if n <= 0 {
        seq![]
    } else if ids.contains(current[n - 1]) {
        without_ids(current, ids, n - 1)
    } else {
        without_ids(current, ids, n - 1).push(current[n - 1])
    }
}

/// the tags an edit leaves, as the bytes of their ids, and the labels it adds, or the message of a tag list refused; None where the tags are left as they are
pub open spec fn tag_delta_outcome(
    tasks: Seq<Task>,
    areas: Seq<Area>,
    tags: Seq<crate::store::entities::Tag>,
    current: Seq<Seq<u8>>,
    delta: TagDeltaArgs,
) -> Result<(Option<Seq<Seq<u8>>>, Seq<Seq<char>>), Seq<char>> {
    let added = match delta.add_tags {
        None => Ok((current, Seq::<Seq<char>>::empty())),
        Some(raw) => {
            let (ids, message) = named_tags(tasks, areas, tags, raw@);
            if message.len() > 0 {
                Err(message)
            } else {
                Ok((with_added(current, ids, ids.len() as int), seq!["add-tags"@]))
            }
        },
    };
    match added {
        Err(message) => Err(message),
        Ok((after_add, labels)) => {
            let removed = match delta.remove_tags {
                None => Ok((after_add, labels)),
                Some(raw) => {
                    let (ids, message) = named_tags(tasks, areas, tags, raw@);
                    if message.len() > 0 {
                        Err(message)
                    } else {
                        Ok((without_ids(after_add, ids, after_add.len() as int), labels.push("remove-tags"@)))
                    }
                },
            };
            match removed {
                Err(message) => Err(message),
                Ok((after, labels)) => Ok(
                    (if delta.add_tags is Some || delta.remove_tags is Some { Some(after) } else { None }, labels),
                ),
            }
        },
    }
}

/// the strings as texts
pub open spec fn label_texts(list: Seq<String>) -> Seq<Seq<char>> {
    list.map_values(|s: String| s@)
}

/// the id's bytes are among the list's
fn holds_bytes(ids: &Vec<ThingsId>, id: &ThingsId) -> (found: bool)
    ensures
        found == id_bytes_of(ids@).contains(id@),
{
    let mut k: usize = 0;
    while k < ids.len()
        invariant
            k <= ids@.len(),
            forall|m: int| 0 <= m < k ==> ids@[m]@ != id@,
        decreases ids@.len() - k,
    {
        if ids[k] == *id {
            assert(id_bytes_of(ids@)[k as int] == id@);
            return true;
        }
        k += 1;
    }
    proof {
        if id_bytes_of(ids@).contains(id@) {
            let m = choose|m: int| 0 <= m < ids@.len() && id_bytes_of(ids@)[m] == id@;
            assert(ids@[m]@ == id@);
        }
    }
    false
}

/// the tags with those of a list added that they lack
pub(crate) fn add_ids(current: &mut Vec<ThingsId>, ids: &Vec<ThingsId>)
    ensures
        id_bytes_of(final(current)@) == with_added(id_bytes_of(old(current)@), id_bytes_of(ids@), ids@.len() as int),
{
    let ghost start = id_bytes_of(current@);
    let mut i: usize = 0;
    while i < ids.len()
        invariant
            i <= ids@.len(),
            start == id_bytes_of(old(current)@),
            id_bytes_of(current@) == with_added(start, id_bytes_of(ids@), i as int),
        decreases ids@.len() - i,
    {
        assert(id_bytes_of(ids@)[i as int] == ids@[i as int]@);
        if !holds_bytes(current, &ids[i]) {
            let ghost before = current@;
            current.push(ids[i]);
            assert(id_bytes_of(current@) =~= id_bytes_of(before).push(ids@[i as int]@));
        }
        i += 1;
    }
}

/// the tags but those of a list
pub(crate) fn remove_ids(current: &Vec<ThingsId>, ids: &Vec<ThingsId>) -> (kept: Vec<ThingsId>)
    ensures
        id_bytes_of(kept@) == without_ids(id_bytes_of(current@), id_bytes_of(ids@), current@.len() as int),
{
    let mut kept: Vec<ThingsId> = Vec::new();
    let mut i: usize = 0;
    while i < current.len()
        invariant
            i <= current@.len(),
            id_bytes_of(kept@) == without_ids(id_bytes_of(current@), id_bytes_of(ids@), i as int),
        decreases current@.len() - i,
    {
        assert(id_bytes_of(current@)[i as int] == current@[i as int]@);
        if !holds_bytes(ids, &current[i]) {
            let ghost before = kept@;
            kept.push(current[i]);
            assert(id_bytes_of(kept@) =~= id_bytes_of(before).push(current@[i as int]@));
        }
        i += 1;
    }
    kept
}

impl ThingsStore {
    /// the tags an edit leaves and the labels it adds, or the message of a tag list refused
    fn tag_delta(&self, current: &Vec<ThingsId>, delta: &TagDeltaArgs, labels: &mut Vec<String>) -> (res: Result<
        Option<Vec<ThingsId>>,
        String,
    >)
        ensures
            match tag_delta_outcome(self.tasks@, self.areas@, self.tags@, id_bytes_of(current@), *delta) {
                Err(message) => res matches Err(m) && m@ == message,
                Ok((after, added)) => res matches Ok(r) && label_texts(final(labels)@) == label_texts(old(labels)@)
                    + added && match after {
                    None => r is None,
                    Some(ids) => (r matches Some(v) && id_bytes_of(v@) == ids),
                },
            },
    {
        proof {
            reveal_strlit("add-tags");
            reveal_strlit("remove-tags");
        }
        let ghost start_labels = labels@;
        let mut tags = current.clone();
        assert(tags@ == current@);
        match &delta.add_tags {
            Some(raw) => {
                let (ids, message) = self.resolve_tag_ids(raw.as_str());
                if !message.as_str().is_empty() {
                    return Err(message);
                }
                assert(id_bytes_of(ids@) =~= named_tags(self.tasks@, self.areas@, self.tags@, raw@).0);
                add_ids(&mut tags, &ids);
                labels.push(String::from_str("add-tags"));
            },
            None => {},
        }
        let ghost after_add = tags@;
        let ghost mid_labels = labels@;
        match &delta.remove_tags {
            Some(raw) => {
                let (ids, message) = self.resolve_tag_ids(raw.as_str());
                if !message.as_str().is_empty() {
                    return Err(message);
                }
                assert(id_bytes_of(ids@) =~= named_tags(self.tasks@, self.areas@, self.tags@, raw@).0);
                tags = remove_ids(&tags, &ids);
                labels.push(String::from_str("remove-tags"));
            },
            None => {},
        }
        proof {
            let added = if delta.add_tags is Some { seq!["add-tags"@] } else { Seq::<Seq<char>>::empty() };
            assert(label_texts(mid_labels) =~= label_texts(start_labels) + added);
            let all = if delta.remove_tags is Some { added.push("remove-tags"@) } else { added };
            assert(label_texts(labels@) =~= label_texts(start_labels) + all);
        }
        proof {
            let expected = tag_delta_outcome(self.tasks@, self.areas@, self.tags@, id_bytes_of(current@), *delta);
            assert(expected is Ok);
            let (after, added) = expected->Ok_0;
            assert(label_texts(labels@) == label_texts(start_labels) + added);
            if delta.add_tags is Some || delta.remove_tags is Some {
                assert(after == Some(id_bytes_of(tags@)));
            }
        }
        if delta.add_tags.is_some() || delta.remove_tags.is_some() {
            Ok(Some(tags))
        } else {
            Ok(None)
        }
    }
}

/// what an area edit gives: the area, the new title, the tags it leaves and the labels, or the message refusing it
pub open spec fn area_edit_outcome(
    tasks: Seq<Task>,
    areas: Seq<Area>,
    tags: Seq<crate::store::entities::Tag>,
    sorted: Seq<ThingsId>,
    args: AreasEditArgs,
) -> Result<(Area, Option<Seq<char>>, Option<Seq<Seq<u8>>>, Seq<Seq<char>>), Seq<char>> {
    let found = area_resolution(areas, sorted, args.area_id@);
    match found.0 {
        None => Err(found.1),
        Some(bytes) => {
            let area = area_with_bytes(areas, bytes)->0;
            let titled = match args.title {
                None => Ok((None::<Seq<char>>, Seq::<Seq<char>>::empty())),
                Some(t) => if trim_spec(t@).len() == 0 {
                    Err("Area title cannot be empty."@)
                } else {
                    Ok((Some(trim_spec(t@)), seq!["title"@]))
                },
            };
            match titled {
                Err(message) => Err(message),
                Ok((title, labels)) => match tag_delta_outcome(tasks, areas, tags, id_bytes_of(area.tags@), args.tag_delta) {
                    Err(message) => Err(message),
                    Ok((after, added)) => if title is None && after is None {
                        Err("No edit changes requested."@)
                    } else {
                        Ok((area, title, after, labels + added))
                    },
                },
            }
        },
    }
}

/// the plan of an area edit: the area by id or unique prefix, a title that is not blank, and the tags added and taken off
pub fn areas_edit_plan<'a>(args: &AreasEditArgs, store: &'a ThingsStore, now: Instant) -> (plan: Result<
    AreasEditPlan<'a>,
    String,
>)
    ensures
        plan matches Ok(p) ==> p.modification_date == now,
        match area_edit_outcome(store.tasks@, store.areas@, store.tags@, store.area_ids_sorted@, *args) {
            Err(message) => plan matches Err(m) && m@ == message,
            Ok((area, title, after, labels)) => (plan matches Ok(p) && *p.area == area && (match title {
                None => p.update.title is None,
                Some(t) => (p.update.title matches Some(u) && u@ == t),
            }) && (match after {
                None => p.update.tag_ids is None,
                Some(ids) => (p.update.tag_ids matches Some(v) && id_bytes_of(v@) == ids),
            }) && label_texts(p.labels@) == labels),
        },
{
    let (found, message, _) = store.resolve_area_identifier(args.area_id.as_str());
    let area = match found {
        Some(area) => area,
        None => return Err(message),
    };
    proof {
        reveal_strlit("title");
    }
    let mut labels: Vec<String> = Vec::new();
    let mut title: Option<String> = None;
    match &args.title {
        Some(t) => {
            let t = trimmed(t.as_str());
            if t.as_str().unicode_len() == 0 {
                return Err(String::from_str("Area title cannot be empty."));
            }
            labels.push(String::from_str("title"));
            title = Some(t);
        },
        None => {},
    }
    let ghost titled = labels@;
    let tag_ids = match store.tag_delta(&area.tags, &args.tag_delta, &mut labels) {
        Ok(tags) => tags,
        Err(message) => return Err(message),
    };
    if title.is_none() && tag_ids.is_none() {
        return Err(String::from_str("No edit changes requested."));
    }
    proof {
        assert(label_texts(titled) =~= if args.title is Some { seq!["title"@] } else { Seq::<Seq<char>>::empty() });
    }
    Ok(AreasEditPlan { area, update: AreaUpdate { title, tag_ids }, labels, modification_date: now })
}

/// where a project edit moves the project: no area, or the area the target names alone, or the message refusing the move
pub open spec fn project_move(
    tasks: Seq<Task>,
    areas: Seq<Area>,
    markable: Seq<ThingsId>,
    sorted_tasks: Seq<ThingsId>,
    sorted_areas: Seq<ThingsId>,
    target: Seq<char>,
) -> Result<(Seq<ThingsId>, Seq<char>), Seq<char>> {
    let raw = trim_spec(target);
    let lowered = lowercased(raw);
    if lowered == "inbox"@ {
        Err("Projects cannot be moved to Inbox."@)
    } else if lowered == "clear"@ {
        Ok((seq![], "move=clear"@))
    } else {
        let project = match mark_lookup(tasks, markable, sorted_tasks, raw).0 {
            Some(p) => is_project_spec(p),
            None => false,
        };
        let found = area_resolution(areas, sorted_areas, raw);
        match found.0 {
            Some(bytes) => if project {
                Err("Ambiguous --move target '"@ + raw + "' (matches project and area)."@)
            } else {
                Ok((seq![area_with_bytes(areas, bytes)->0.uuid], "move="@ + raw))
            },
            None => if project {
                Err("Projects can only be moved to an area or clear."@)
            } else {
                Err("Container not found: "@ + raw)
            },
        }
    }
}

/// what a project edit gives: the project, the new title, notes, area and tags, and the labels, or the message refusing it
pub open spec fn project_edit_outcome(
    tasks: Seq<Task>,
    areas: Seq<Area>,
    tags: Seq<crate::store::entities::Tag>,
    markable: Seq<ThingsId>,
    sorted_tasks: Seq<ThingsId>,
    sorted_areas: Seq<ThingsId>,
    args: ProjectsEditArgs,
) -> Result<
    (Task, Option<Seq<char>>, Option<Seq<char>>, Option<Seq<ThingsId>>, Option<Seq<Seq<u8>>>, Seq<Seq<char>>),
    Seq<char>,
> {
    let (found, message) = mark_lookup(tasks, markable, sorted_tasks, args.project_id@);
    match found {
        None => Err(message),
        Some(project) => if !is_project_spec(project) {
            Err("The specified ID is not a project."@)
        } else {
            let titled = match args.title {
                None => Ok((None::<Seq<char>>, Seq::<Seq<char>>::empty())),
                Some(t) => if trim_spec(t@).len() == 0 {
                    Err("Project title cannot be empty."@)
                } else {
                    Ok((Some(trim_spec(t@)), seq!["title"@]))
                },
            };
            match titled {
                Err(message) => Err(message),
                Ok((title, labels)) => {
                    let notes = match args.notes {
                        None => None::<Seq<char>>,
                        Some(n) => Some(n@),
                    };
                    let labels = if args.notes is Some { labels.push("notes"@) } else { labels };
                    let moved = match args.move_target {
                        None => Ok((None::<Seq<ThingsId>>, labels)),
                        Some(m) => match project_move(tasks, areas, markable, sorted_tasks, sorted_areas, m@) {
                            Err(message) => Err(message),
                            Ok((ids, label)) => Ok((Some(ids), labels.push(label))),
                        },
                    };
                    match moved {
                        Err(message) => Err(message),
                        Ok((area_ids, labels)) => match tag_delta_outcome(
                            tasks,
                            areas,
                            tags,
                            id_bytes_of(project.tags@),
                            args.tag_delta,
                        ) {
                            Err(message) => Err(message),
                            Ok((after, added)) => if title is None && notes is None && area_ids is None && after is None {
                                Err("No edit changes requested."@)
                            } else {
                                Ok((project, title, notes, area_ids, after, labels + added))
                            },
                        },
                    }
                },
            }
        },
    }
}

impl ThingsStore {
    /// where a project edit moves the project, or the message refusing the move
    fn project_move(&self, target: &str) -> (res: Result<(Vec<ThingsId>, String), String>)
        requires
            self.well_formed(),
        ensures
            match project_move(
                self.tasks@,
                self.areas@,
                self.markable_ids_sorted@,
                self.task_ids_sorted@,
                self.area_ids_sorted@,
                target@,
            ) {
                Err(message) => res matches Err(m) && m@ == message,
                Ok((ids, label)) => res matches Ok(r) && r.0@ == ids && r.1@ == label,
            },
    {
        proof {
            reveal_strlit("inbox");
            reveal_strlit("clear");
        }
        let raw = trimmed(target);
        let lowered = to_lowercase(raw.as_str());
        if same(lowered.as_str(), "inbox") {
            return Err(String::from_str("Projects cannot be moved to Inbox."));
        }
        if same(lowered.as_str(), "clear") {
            return Ok((Vec::new(), String::from_str("move=clear")));
        }
        let (found, message, _) = self.resolve_mark_identifier(raw.as_str());
        let ghost lookup = mark_lookup(self.tasks@, self.markable_ids_sorted@, self.task_ids_sorted@, raw@);
        proof {
            assert(match found {
                Some(t) => lookup.0 == Some(*t),
                None => lookup.0 is None,
            });
        }
        let project = match found {
            Some(p) => p.is_project(),
            None => false,
        };
        let (area, _, _) = self.resolve_area_identifier(raw.as_str());
        match area {
            Some(area) => {
                if project {
                    let mut refused = String::from_str("Ambiguous --move target '");
                    refused.append(raw.as_str());
                    refused.append("' (matches project and area).");
                    return Err(refused);
                }
                let mut ids: Vec<ThingsId> = Vec::new();
                ids.push(area.uuid);
                let mut label = String::from_str("move=");
                label.append(raw.as_str());
                proof {
                    assert(ids@ =~= seq![area.uuid]);
                }
                Ok((ids, label))
            },
            None => {
                if project {
                    return Err(String::from_str("Projects can only be moved to an area or clear."));
                }
                let mut refused = String::from_str("Container not found: ");
                refused.append(raw.as_str());
                Err(refused)
            },
        }
    }
}

/// the two texts are the same
fn same(a: &str, b: &str) -> (same: bool)
    ensures
        same == (a@ == b@),
{
    let x = crate::common::chars_of(a);
    let y = crate::common::chars_of(b);
    if x.len() != y.len() {
        return false;
    }
    let mut i: usize = 0;
    while i < x.len()
        invariant
            i <= x@.len(),
            x@.len() == y@.len(),
            x@ == a@,
            y@ == b@,
            forall|k: int| 0 <= k < i ==> x@[k] == y@[k],
        decreases x@.len() - i,
    {
        if x[i] != y[i] {
            return false;
        }
        i += 1;
    }
    assert(a@ =~= b@);
    true
}

/// the plan of a project edit: the project by id or unique prefix, a title that is not blank, notes, an area to move to or none, and the tags added and taken off
pub fn projects_edit_plan<'a>(args: &ProjectsEditArgs, store: &'a ThingsStore, now: Instant) -> (plan: Result<
    ProjectsEditPlan<'a>,
    String,
>)
    requires
        store.well_formed(),
    ensures
        plan matches Ok(p) ==> p.entity == EntityType::Task7 && p.modification_date == now,
        match project_edit_outcome(
            store.tasks@,
            store.areas@,
            store.tags@,
            store.markable_ids_sorted@,
            store.task_ids_sorted@,
            store.area_ids_sorted@,
            *args,
        ) {
            Err(message) => plan matches Err(m) && m@ == message,
            Ok((project, title, notes, area_ids, after, labels)) => (plan matches Ok(p) && *p.project == project && (
            match title {
                None => p.update.title is None,
                Some(t) => (p.update.title matches Some(u) && u@ == t),
            }) && (match notes {
                None => p.update.notes is None,
                Some(n) => (p.update.notes matches Some(u) && u@ == n),
            }) && (match area_ids {
                None => p.update.area_ids is None,
                Some(ids) => (p.update.area_ids matches Some(v) && v@ == ids),
            }) && (match after {
                None => p.update.tag_ids is None,
                Some(ids) => (p.update.tag_ids matches Some(v) && id_bytes_of(v@) == ids),
            }) && label_texts(p.labels@) == labels),
        },
{
    let (found, message, _) = store.resolve_mark_identifier(args.project_id.as_str());
    let ghost lookup = mark_lookup(store.tasks@, store.markable_ids_sorted@, store.task_ids_sorted@, args.project_id@);
    proof {
        assert(message@ == lookup.1);
        assert(match found {
            Some(t) => lookup.0 == Some(*t),
            None => lookup.0 is None,
        });
        reveal_strlit("title");
        reveal_strlit("notes");
    }
    let project = match found {
        Some(project) => project,
        None => return Err(message),
    };
    if !project.is_project() {
        return Err(String::from_str("The specified ID is not a project."));
    }
    let mut labels: Vec<String> = Vec::new();
    let mut title: Option<String> = None;
    match &args.title {
        Some(t) => {
            let t = trimmed(t.as_str());
            if t.as_str().unicode_len() == 0 {
                return Err(String::from_str("Project title cannot be empty."));
            }
            labels.push(String::from_str("title"));
            title = Some(t);
        },
        None => {},
    }
    let ghost titled = labels@;
    let notes = match &args.notes {
        Some(n) => {
            labels.push(String::from_str("notes"));
            Some(n.clone())
        },
        None => None,
    };
    let ghost noted = labels@;
    let mut area_ids: Option<Vec<ThingsId>> = None;
    match &args.move_target {
        Some(m) => match store.project_move(m.as_str()) {
            Ok((ids, label)) => {
                labels.push(label);
                area_ids = Some(ids);
            },
            Err(message) => return Err(message),
        },
        None => {},
    }
    let ghost moved = labels@;
    let tag_ids = match store.tag_delta(&project.tags, &args.tag_delta, &mut labels) {
        Ok(tags) => tags,
        Err(message) => return Err(message),
    };
    if title.is_none() && notes.is_none() && area_ids.is_none() && tag_ids.is_none() {
        return Err(String::from_str("No edit changes requested."));
    }
    proof {
        let l1 = if args.title is Some { seq!["title"@] } else { Seq::<Seq<char>>::empty() };
        assert(label_texts(titled) =~= l1);
        let l2 = if args.notes is Some { l1.push("notes"@) } else { l1 };
        assert(label_texts(noted) =~= l2);
        let l3 = match &args.move_target {
            None => l2,
            Some(m) => l2.push(project_move(
                store.tasks@,
                store.areas@,
                store.markable_ids_sorted@,
                store.task_ids_sorted@,
                store.area_ids_sorted@,
                m@,
            )->Ok_0.1),
        };
        assert(label_texts(moved) =~= l3);
    }
    Ok(
        ProjectsEditPlan {
            project,
            update: ProjectUpdate { title, notes, area_ids, tag_ids },
            labels,
            entity: EntityType::Task7,
            modification_date: now,
        },
    )
}

} // verus!
