//! editing to-dos: title, notes, where they stand, tags, checklist, when they start, deadline, reminder and repeat
//!
//! every change of an edit lands in one commit: one update per to-do, the checklist items it removes, renames and adds, and the template of a repeat it adds

use crate::arg_types::IdentifierToken;
use crate::calendar::{
    day_of, day_of_spec, day_text, day_text_spec, day_timestamp, day_timestamp_spec,
    instant_read, invalid_day_message, invalid_reminder_message, parse_day, parse_instant,
    parse_reminder, parsed_day, parsed_reminder, valid_day,
};
use crate::common::{chars_of, string_of, trim_chars, trim_spec, trimmed};
use crate::edit_plans::{with_added, without_ids, TagDeltaArgs};
use crate::find::{lowercased, to_lowercase};
use crate::ids::things_id::{debug_str, debug_str_spec, ThingsId};
use crate::mark::{checklist_resolution, items_held, items_matching, tokens_of};
use crate::new_task::{bound_result, first_of};
use crate::repeat::occurrence::{first_in_reach, well_formed};
use crate::repeat::template::template_days_spec;
use crate::repeat::wire_rule::{is_written_rule, Bound};
use crate::repeat::{repeat_spec_of, repeat_spec_splits, CadenceView, RepeatSpec};
use crate::store::entities::{is_project_spec, is_template_spec, ChecklistItem, Instant, Task};
use crate::store::{area_resolution, area_with_bytes, held, mark_lookup, ThingsStore};
use crate::tag_names::{id_bytes_of, tags_named};
use crate::text::{split_once, split_once_spec};
use crate::wire::{EntityType, RecurrenceRule, TaskStart, TaskStatus};
use vstd::prelude::*;

verus! {

/// what an edit asks of the to-dos it names
pub struct EditArgs {
    pub task_ids: Vec<IdentifierToken>,
    pub title: Option<String>,
    /// the new notes, empty to clear them
    pub notes: Option<String>,
    /// Inbox, clear, or a project or area by id or unique prefix
    pub move_target: Option<String>,
    pub tag_delta: TagDeltaArgs,
    pub add_checklist: Vec<String>,
    /// comma-separated short ids
    pub remove_checklist: Option<String>,
    /// each `short-id:new title`
    pub rename_checklist: Vec<String>,
    /// RFC 3339 or YYYY-MM-DD
    pub completed_on: Option<String>,
    /// RFC 3339 or YYYY-MM-DD
    pub created_on: Option<String>,
    /// anytime, today, evening, someday, or YYYY-MM-DD
    pub when: Option<String>,
    pub deadline_date: Option<String>,
    pub clear_deadline: bool,
    /// HH:MM on the scheduled day
    pub reminder: Option<String>,
    pub clear_reminder: bool,
    pub repeat: Option<String>,
    pub times: Option<i32>,
    pub until: Option<String>,
}

/// where an edit puts a to-do: out of any project, area and heading, or into a project or an area
#[derive(Debug, Clone, Copy)]
pub enum EditContainer {
    Cleared,
    Project(ThingsId),
    Area(ThingsId),
}

/// what `--move` asks of every to-do of an edit
#[derive(Debug, Clone, Copy)]
pub enum EditMove {
    Stay,
    Inbox,
    Clear,
    Into(EditContainer),
}

/// what an edit shares across its to-dos: the to-dos, the move, the tags to add and to take off, the checklist renames, and the labels so far
pub struct SetupView {
    pub tasks: Seq<Task>,
    pub moving: EditMove,
    pub add_ids: Seq<Seq<u8>>,
    pub remove_ids: Seq<Seq<u8>>,
    pub renames: Seq<(Seq<char>, Seq<char>)>,
    pub labels: Seq<Seq<char>>,
}

/// the label joins the labels unless it is among them
pub open spec fn with_label(labels: Seq<Seq<char>>, label: Seq<char>) -> Seq<Seq<char>> {
    if labels.contains(label) {
        labels
    } else {
        labels.push(label)
    }
}

/// the to-dos the first `n` identifiers name, each a to-do an edit can write; or the message for the first that names none or a project
pub open spec fn edit_targets(store: ThingsStore, ids: Seq<IdentifierToken>, n: int) -> Result<Seq<Task>, Seq<char>>
    decreases n,
{
    if n <= 0 {
        Ok(seq![])
    } else {
        match edit_targets(store, ids, n - 1) {
            Err(message) => Err(message),
            Ok(list) => {
                let (found, message) = mark_lookup(
                    store.tasks@,
                    store.markable_ids_sorted@,
                    store.task_ids_sorted@,
                    ids[n - 1].text(),
                );
                match found {
                    None => Err(message),
                    Some(task) => if is_project_spec(task) {
                        Err("Use 'projects edit' to edit a project."@)
                    } else {
                        Ok(list.push(task))
                    },
                }
            },
        }
    }
}

/// the text of `--move`, empty without one
pub open spec fn move_text(args: EditArgs) -> Seq<char> {
    match args.move_target {
        Some(m) => m@,
        None => seq![],
    }
}

/// what `--move` asks and its label: nothing when it is blank, the Inbox, clear, or a project or area by id or unique prefix
pub open spec fn edit_move(store: ThingsStore, args: EditArgs) -> Result<(EditMove, Seq<Seq<char>>), Seq<char>> {
    let raw = move_text(args);
    let lowered = lowercased(raw);
    if trim_spec(raw).len() == 0 {
        Ok((EditMove::Stay, seq![]))
    } else if lowered == "inbox"@ {
        if args.when is Some || args.reminder is Some || args.repeat is Some {
            Err(
                "--move inbox cannot be combined with --when, --reminder or --repeat, an Inbox to-do has no day."@,
            )
        } else {
            Ok((EditMove::Inbox, seq!["move=inbox"@]))
        }
    } else if lowered == "clear"@ {
        Ok((EditMove::Clear, seq!["move=clear"@]))
    } else {
        let project = mark_lookup(store.tasks@, store.markable_ids_sorted@, store.task_ids_sorted@, raw).0;
        let area = match area_resolution(store.areas@, store.area_ids_sorted@, raw).0 {
            Some(bytes) => area_with_bytes(store.areas@, bytes),
            None => None,
        };
        let project_id = match project {
            Some(p) => if is_project_spec(p) {
                Some(p.uuid)
            } else {
                None
            },
            None => None,
        };
        if project_id is Some && area is Some {
            Err("Ambiguous --move target '"@ + raw + "' (matches project and area)."@)
        } else if project is Some && project_id is None {
            Err("--move target must be Inbox, clear, a project ID, or an area ID."@)
        } else if project_id is Some {
            Ok((EditMove::Into(EditContainer::Project(project_id->0)), seq!["move="@ + raw]))
        } else if area is Some {
            Ok((EditMove::Into(EditContainer::Area(area->0.uuid)), seq!["move="@ + raw]))
        } else {
            Err("Container not found: "@ + raw)
        }
    }
}

/// the position of an entry with a key among the first `n`
pub open spec fn key_at(list: Seq<(Seq<char>, Seq<char>)>, key: Seq<char>, n: int) -> Option<int>
    decreases n,
{
    if n <= 0 {
        None
    } else if list[n - 1].0 == key {
        Some(n - 1)
    } else {
        key_at(list, key, n - 1)
    }
}

/// the entries with one more: a key already there takes the new value in its place
pub open spec fn upsert(list: Seq<(Seq<char>, Seq<char>)>, key: Seq<char>, value: Seq<char>) -> Seq<(Seq<char>, Seq<char>)> {
    match key_at(list, key, list.len() as int) {
        Some(k) => list.update(k, (key, value)),
        None => list.push((key, value)),
    }
}

/// the message for a rename that is not `id:new title`
pub open spec fn rename_refusal(token: Seq<char>) -> Seq<char> {
    "--rename-checklist requires 'id:new title' format, got: "@ + debug_str_spec(token)
}

/// the renames the first `n` tokens ask, each short id once with its last title, or the message for the first that is not `id:new title`
pub open spec fn rename_entries(tokens: Seq<String>, n: int) -> Result<Seq<(Seq<char>, Seq<char>)>, Seq<char>>
    decreases n,
{
    if n <= 0 {
        Ok(seq![])
    } else {
        match rename_entries(tokens, n - 1) {
            Err(message) => Err(message),
            Ok(list) => {
                let token = tokens[n - 1]@;
                match split_once_spec(token, ':') {
                    None => Err(rename_refusal(token)),
                    Some((short, title)) => {
                        let short = trim_spec(short);
                        let title = trim_spec(title);
                        if short.len() == 0 || title.len() == 0 {
                            Err(rename_refusal(token))
                        } else {
                            Ok(upsert(list, short, title))
                        }
                    },
                }
            },
        }
    }
}

/// the tags a list names, or the message of the first token that names none
pub open spec fn named(store: ThingsStore, raw: Seq<char>) -> Result<Seq<Seq<u8>>, Seq<char>> {
    tags_named(store.tags@, store.tasks@, store.areas@, tokens_of(raw), false, tokens_of(raw).len() as int)
}

/// what an edit shares across its to-dos, or the message refusing it: a flag meant for a single to-do given for several, a to-do not found or a project, the move, the tags, the renames
pub open spec fn edit_setup(store: ThingsStore, args: EditArgs) -> Result<SetupView, Seq<char>> {
    let multiple = args.task_ids@.len() > 1;
    if multiple && args.title is Some {
        Err("--title requires a single task ID."@)
    } else if multiple && args.notes is Some {
        Err("--notes requires a single task ID."@)
    } else if multiple && (args.completed_on is Some || args.created_on is Some) {
        Err("--completed-on/--created-on require a single task ID."@)
    } else if multiple && args.repeat is Some {
        Err("--repeat requires a single task ID."@)
    } else if multiple && (args.add_checklist@.len() > 0 || args.remove_checklist is Some
        || args.rename_checklist@.len() > 0) {
        Err("--add-checklist/--remove-checklist/--rename-checklist require a single task ID."@)
    } else {
        match edit_targets(store, args.task_ids@, args.task_ids@.len() as int) {
            Err(message) => Err(message),
            Ok(tasks) => match edit_move(store, args) {
                Err(message) => Err(message),
                Ok((moving, labels)) => {
                    let added = match args.tag_delta.add_tags {
                        None => Ok((Seq::<Seq<u8>>::empty(), labels)),
                        Some(raw) => match named(store, raw@) {
                            Err(message) => Err(message),
                            Ok(ids) => Ok((ids, labels.push("add-tags"@))),
                        },
                    };
                    match added {
                        Err(message) => Err(message),
                        Ok((add_ids, labels)) => {
                            let removed = match args.tag_delta.remove_tags {
                                None => Ok((Seq::<Seq<u8>>::empty(), labels)),
                                Some(raw) => match named(store, raw@) {
                                    Err(message) => Err(message),
                                    Ok(ids) => Ok((ids, with_label(labels, "remove-tags"@))),
                                },
                            };
                            match removed {
                                Err(message) => Err(message),
                                Ok((remove_ids, labels)) => match rename_entries(
                                    args.rename_checklist@,
                                    args.rename_checklist@.len() as int,
                                ) {
                                    Err(message) => Err(message),
                                    Ok(renames) => Ok(
                                        SetupView { tasks, moving, add_ids, remove_ids, renames, labels },
                                    ),
                                },
                            }
                        },
                    }
                },
            },
        }
    }
}

/// the strings as texts
pub open spec fn texts(list: Seq<String>) -> Seq<Seq<char>> {
    list.map_values(|s: String| s@)
}

/// the renames as texts
pub open spec fn rename_texts(list: Seq<(String, String)>) -> Seq<(Seq<char>, Seq<char>)> {
    list.map_values(|e: (String, String)| (e.0@, e.1@))
}

/// what an edit shares across its to-dos, computed
pub struct Setup<'a> {
    pub tasks: Vec<&'a Task>,
    pub moving: EditMove,
    /// the text of `--move` in lowercase
    pub lowered: String,
    pub add_ids: Vec<ThingsId>,
    pub remove_ids: Vec<ThingsId>,
    pub renames: Vec<(String, String)>,
    pub labels: Vec<String>,
}

/// what an edit shares, as values
pub open spec fn setup_view(setup: Setup) -> SetupView {
    SetupView {
        tasks: held(setup.tasks@),
        moving: setup.moving,
        add_ids: id_bytes_of(setup.add_ids@),
        remove_ids: id_bytes_of(setup.remove_ids@),
        renames: rename_texts(setup.renames@),
        labels: texts(setup.labels@),
    }
}

/// a label's text is among the labels
fn holds_label(labels: &Vec<String>, label: &str) -> (found: bool)
    ensures
        found == texts(labels@).contains(label@),
{
    let mut k: usize = 0;
    while k < labels.len()
        invariant
            k <= labels@.len(),
            forall|m: int| 0 <= m < k ==> labels@[m]@ != label@,
        decreases labels@.len() - k,
    {
        if same_text(labels[k].as_str(), label) {
            assert(texts(labels@)[k as int] == label@);
            return true;
        }
        k += 1;
    }
    proof {
        if texts(labels@).contains(label@) {
            let m = choose|m: int| 0 <= m < labels@.len() && texts(labels@)[m] == label@;
            assert(labels@[m]@ == label@);
        }
    }
    false
}

/// two texts are the same
fn same_text(a: &str, b: &str) -> (same: bool)
    ensures
        same == (a@ == b@),
{
    let x = chars_of(a);
    let y = chars_of(b);
    if x.len() != y.len() {
        return false;
    }
    let mut i: usize = 0;
    while i < x.len()
        invariant
            i <= x@.len(),
            x@.len() == y@.len(),
            x@ == a@,
            y@ == b@,
            forall|k: int| 0 <= k < i ==> x@[k] == y@[k],
        decreases x@.len() - i,
    {
        if x[i] != y[i] {
            return false;
        }
        i += 1;
    }
    assert(x@ =~= y@);
    true
}

/// the label joins the labels unless it is among them
fn add_label(labels: &mut Vec<String>, label: String)
    ensures
        texts(final(labels)@) == with_label(texts(old(labels)@), label@),
{
    if !holds_label(labels, label.as_str()) {
        let ghost before = labels@;
        labels.push(label);
        assert(texts(labels@) =~= texts(before).push(label@));
    }
}

/// the label joins the labels
fn push_label(labels: &mut Vec<String>, label: String)
    ensures
        texts(final(labels)@) == texts(old(labels)@).push(label@),
{
    let ghost before = labels@;
    labels.push(label);
    assert(texts(labels@) =~= texts(before).push(label@));
}

impl ThingsStore {
    /// the to-dos the identifiers name
    fn edit_targets_of(&self, ids: &Vec<IdentifierToken>) -> (res: Result<Vec<&Task>, String>)
        ensures
            match edit_targets(*self, ids@, ids@.len() as int) {
                Ok(list) => res matches Ok(v) && held(v@) == list,
                Err(message) => res matches Err(m) && m@ == message,
            },
    {
        let mut tasks: Vec<&Task> = Vec::new();
        let mut i: usize = 0;
        assert(held(tasks@) =~= Seq::<Task>::empty());
        while i < ids.len()
            invariant
                i <= ids@.len(),
                edit_targets(*self, ids@, i as int) == Ok::<Seq<Task>, Seq<char>>(held(tasks@)),
            decreases ids@.len() - i,
        {
            let (found, message, _) = self.resolve_mark_identifier(ids[i].as_str());
            let ghost lookup = mark_lookup(self.tasks@, self.markable_ids_sorted@, self.task_ids_sorted@, ids@[i as int].text());
            proof {
                assert(message@ == lookup.1);
                assert(match found {
                    Some(t) => lookup.0 == Some(*t),
                    None => lookup.0 is None,
                });
            }
            let task = match found {
                Some(task) => task,
                None => {
                    proof {
                        lemma_targets_stay_failed(*self, ids@, i + 1, ids@.len() as int, message@);
                    }
                    return Err(message);
                },
            };
            if task.is_project() {
                let refused = String::from_str("Use 'projects edit' to edit a project.");
                proof {
                    lemma_targets_stay_failed(*self, ids@, i + 1, ids@.len() as int, refused@);
                }
                return Err(refused);
            }
            let ghost before = tasks@;
            tasks.push(task);
            assert(held(tasks@) =~= held(before).push(*task));
            i += 1;
        }
        Ok(tasks)
    }
}

/// a search for the to-dos that failed stays failed with its message
proof fn lemma_targets_stay_failed(store: ThingsStore, ids: Seq<IdentifierToken>, n: int, m: int, message: Seq<char>)
    requires
        0 <= n <= m,
        edit_targets(store, ids, n) == Err::<Seq<Task>, Seq<char>>(message),
    ensures
        edit_targets(store, ids, m) == Err::<Seq<Task>, Seq<char>>(message),
    decreases m - n,
{
    if n < m {
        lemma_targets_stay_failed(store, ids, n, m - 1, message);
    }
}

/// a rename list that failed stays failed with its message
proof fn lemma_renames_stay_failed(tokens: Seq<String>, n: int, m: int, message: Seq<char>)
    requires
        0 <= n <= m,
        rename_entries(tokens, n) == Err::<Seq<(Seq<char>, Seq<char>)>, Seq<char>>(message),
    ensures
        rename_entries(tokens, m) == Err::<Seq<(Seq<char>, Seq<char>)>, Seq<char>>(message),
    decreases m - n,
{
    if n < m {
        lemma_renames_stay_failed(tokens, n, m - 1, message);
    }
}

/// the position of the entry with a key
fn key_index(list: &Vec<(String, String)>, key: &str) -> (found: Option<usize>)
    ensures
        match found {
            Some(k) => k < list@.len() && key_at(rename_texts(list@), key@, list@.len() as int) == Some(k as int),
            None => key_at(rename_texts(list@), key@, list@.len() as int) is None,
        },
{
    let ghost entries = rename_texts(list@);
    let mut k: usize = list.len();
    while k > 0
        invariant
            k <= list@.len(),
            entries == rename_texts(list@),
            key_at(entries, key@, list@.len() as int) == key_at(entries, key@, k as int),
        decreases k,
    {
        assert(entries[k - 1] == (list@[k - 1].0@, list@[k - 1].1@));
        if same_text(list[k - 1].0.as_str(), key) {
            assert(key_at(entries, key@, k as int) == Some(k - 1));
            return Some(k - 1);
        }
        k -= 1;
    }
    None
}

/// the renames `--rename-checklist` asks
fn renames_of(tokens: &Vec<String>) -> (res: Result<Vec<(String, String)>, String>)
    ensures
        match rename_entries(tokens@, tokens@.len() as int) {
            Ok(list) => res matches Ok(v) && rename_texts(v@) == list,
            Err(message) => res matches Err(m) && m@ == message,
        },
{
    let mut list: Vec<(String, String)> = Vec::new();
    assert(rename_texts(list@) =~= Seq::<(Seq<char>, Seq<char>)>::empty());
    let mut i: usize = 0;
    while i < tokens.len()
        invariant
            i <= tokens@.len(),
            rename_entries(tokens@, i as int) == Ok::<Seq<(Seq<char>, Seq<char>)>, Seq<char>>(rename_texts(list@)),
        decreases tokens@.len() - i,
    {
        let token = &tokens[i];
        let chars = chars_of(token.as_str());
        let refused = {
            let mut message = String::from_str("--rename-checklist requires 'id:new title' format, got: ");
            let shown = debug_str(token.as_str());
            message.append(shown.as_str());
            message
        };
        let (short_chars, title_chars) = match split_once(&chars, ':') {
            Some(parts) => parts,
            None => {
                proof {
                    lemma_renames_stay_failed(tokens@, i + 1, tokens@.len() as int, refused@);
                }
                return Err(refused);
            },
        };
        let short = string_of(&trim_chars(&short_chars));
        let title = string_of(&trim_chars(&title_chars));
        if short.as_str().unicode_len() == 0 || title.as_str().unicode_len() == 0 {
            proof {
                lemma_renames_stay_failed(tokens@, i + 1, tokens@.len() as int, refused@);
            }
            return Err(refused);
        }
        let ghost before = rename_texts(list@);
        assert(short@ == trim_spec(short_chars@));
        assert(title@ == trim_spec(title_chars@));
        let found = key_index(&list, short.as_str());
        assert(found matches Some(k) ==> key_at(before, short@, before.len() as int) == Some(k as int));
        match found {
            Some(k) => {
                let ghost entry = (short@, title@);
                let ghost old_list = list@;
                list.set(k, (short, title));
                proof {
                    assert(before.len() == old_list.len());
                    assert(key_at(before, trim_spec(short_chars@), before.len() as int) == Some(k as int));
                    assert(upsert(before, trim_spec(short_chars@), trim_spec(title_chars@)) == before.update(
                        k as int,
                        entry,
                    ));
                    assert forall|j: int| 0 <= j < before.len() implies rename_texts(list@)[j] == before.update(
                        k as int,
                        entry,
                    )[j] by {
                        if j != k {
                            assert(list@[j] == old_list[j]);
                        }
                    }
                    assert(rename_texts(list@) =~= before.update(k as int, entry));
                }
            },
            None => {
                list.push((short, title));
                assert(rename_texts(list@) =~= upsert(before, trim_spec(short_chars@), trim_spec(title_chars@)));
            },
        }
        i += 1;
    }
    Ok(list)
}

/// the tags a list names
pub(crate) fn named_of(store: &ThingsStore, raw: &str) -> (res: Result<Vec<ThingsId>, String>)
    ensures
        match named(*store, raw@) {
            Ok(ids) => res matches Ok(v) && id_bytes_of(v@) == ids,
            Err(message) => res matches Err(m) && m@ == message,
        },
{
    let (ids, refusal) = store.resolve_tag_ids(raw);
    proof {
        crate::new_task::lemma_tag_refusal_said(
            store.tags@,
            store.tasks@,
            store.areas@,
            tokens_of(raw@),
            tokens_of(raw@).len() as int,
        );
    }
    if refusal.as_str().unicode_len() > 0 {
        return Err(refusal);
    }
    Ok(ids)
}

/// the text of `--move`, empty without one
fn move_text_of(args: &EditArgs) -> (text: &str)
    ensures
        text@ == move_text(*args),
{
    proof {
        reveal_strlit("");
    }
    match &args.move_target {
        Some(m) => m.as_str(),
        None => "",
    }
}

/// what `--move` asks and its label
fn move_of(store: &ThingsStore, args: &EditArgs, lowered: &String) -> (res: Result<(EditMove, Vec<String>), String>)
    requires
        lowered@ == lowercased(move_text(*args)),
    ensures
        match edit_move(*store, *args) {
            Ok((moving, labels)) => res matches Ok(r) && r.0 == moving && texts(r.1@) == labels,
            Err(message) => res matches Err(m) && m@ == message,
        },
{
    let raw = move_text_of(args);
    let mut labels: Vec<String> = Vec::new();
    if trimmed(raw).as_str().unicode_len() == 0 {
        assert(texts(labels@) =~= Seq::<Seq<char>>::empty());
        return Ok((EditMove::Stay, labels));
    }
    if same_text(lowered.as_str(), "inbox") {
        if args.when.is_some() || args.reminder.is_some() || args.repeat.is_some() {
            return Err(
                String::from_str(
                    "--move inbox cannot be combined with --when, --reminder or --repeat, an Inbox to-do has no day.",
                ),
            );
        }
        labels.push(String::from_str("move=inbox"));
        assert(texts(labels@) =~= seq!["move=inbox"@]);
        return Ok((EditMove::Inbox, labels));
    }
    if same_text(lowered.as_str(), "clear") {
        labels.push(String::from_str("move=clear"));
        assert(texts(labels@) =~= seq!["move=clear"@]);
        return Ok((EditMove::Clear, labels));
    }
    let (project, _, _) = store.resolve_mark_identifier(raw);
    let (area, _, _) = store.resolve_area_identifier(raw);
    let project_id = match project {
        Some(p) => if p.is_project() {
            Some(p.uuid)
        } else {
            None
        },
        None => None,
    };
    if project_id.is_some() && area.is_some() {
        let mut refused = String::from_str("Ambiguous --move target '");
        refused.append(raw);
        refused.append("' (matches project and area).");
        return Err(refused);
    }
    if project.is_some() && project_id.is_none() {
        return Err(String::from_str("--move target must be Inbox, clear, a project ID, or an area ID."));
    }
    let mut label = String::from_str("move=");
    label.append(raw);
    match project_id {
        Some(p) => {
            labels.push(label);
            assert(texts(labels@) =~= seq!["move="@ + raw@]);
            Ok((EditMove::Into(EditContainer::Project(p)), labels))
        },
        None => match area {
            Some(a) => {
                labels.push(label);
                assert(texts(labels@) =~= seq!["move="@ + raw@]);
                Ok((EditMove::Into(EditContainer::Area(a.uuid)), labels))
            },
            None => {
                let mut refused = String::from_str("Container not found: ");
                refused.append(raw);
                Err(refused)
            },
        },
    }
}

/// what an edit shares across its to-dos, computed
fn setup_of<'a>(store: &'a ThingsStore, args: &EditArgs) -> (res: Result<Setup<'a>, String>)
    ensures
        match edit_setup(*store, *args) {
            Ok(view) => res matches Ok(r) && setup_view(r) == view && r.lowered@ == lowercased(move_text(*args)),
            Err(message) => res matches Err(m) && m@ == message,
        },
{
    let multiple = args.task_ids.len() > 1;
    if multiple && args.title.is_some() {
        return Err(String::from_str("--title requires a single task ID."));
    }
    if multiple && args.notes.is_some() {
        return Err(String::from_str("--notes requires a single task ID."));
    }
    if multiple && (args.completed_on.is_some() || args.created_on.is_some()) {
        return Err(String::from_str("--completed-on/--created-on require a single task ID."));
    }
    if multiple && args.repeat.is_some() {
        return Err(String::from_str("--repeat requires a single task ID."));
    }
    if multiple && (args.add_checklist.len() > 0 || args.remove_checklist.is_some() || args.rename_checklist.len() > 0) {
        return Err(String::from_str("--add-checklist/--remove-checklist/--rename-checklist require a single task ID."));
    }
    let tasks = match store.edit_targets_of(&args.task_ids) {
        Ok(tasks) => tasks,
        Err(message) => return Err(message),
    };
    let lowered = to_lowercase(move_text_of(args));
    let (moving, mut labels) = match move_of(store, args, &lowered) {
        Ok(found) => found,
        Err(message) => return Err(message),
    };
    let add_ids = match &args.tag_delta.add_tags {
        Some(raw) => match named_of(store, raw.as_str()) {
            Ok(ids) => {
                push_label(&mut labels, String::from_str("add-tags"));
                ids
            },
            Err(message) => return Err(message),
        },
        None => {
            let none: Vec<ThingsId> = Vec::new();
            assert(id_bytes_of(none@) =~= Seq::<Seq<u8>>::empty());
            none
        },
    };
    let remove_ids = match &args.tag_delta.remove_tags {
        Some(raw) => match named_of(store, raw.as_str()) {
            Ok(ids) => {
                add_label(&mut labels, String::from_str("remove-tags"));
                ids
            },
            Err(message) => return Err(message),
        },
        None => {
            let none: Vec<ThingsId> = Vec::new();
            assert(id_bytes_of(none@) =~= Seq::<Seq<u8>>::empty());
            none
        },
    };
    let renames = match renames_of(&args.rename_checklist) {
        Ok(renames) => renames,
        Err(message) => return Err(message),
    };
    Ok(Setup { tasks, moving, lowered, add_ids, remove_ids, renames, labels })
}

/// the template behind a to-do an edit makes repeat: its rule, the day of its first instance, the day it makes the next one, for a repeat after completion the day its interval counts back to, and the to-do as the edit leaves it, which it mirrors
pub struct EditTemplate {
    pub rule: RecurrenceRule,
    pub first: i32,
    pub next: i32,
    pub after_completion_reference: Option<i32>,
    pub title: String,
    pub notes: Option<String>,
    pub tag_ids: Vec<ThingsId>,
    pub project: Option<ThingsId>,
    pub area: Option<ThingsId>,
    pub action_group: Option<ThingsId>,
    pub alarm_time_offset: Option<i64>,
    pub sort_index: i32,
    pub today_sort_index: i32,
    /// the checklist as the edit leaves it: titles and indexes
    pub checklist: Vec<(String, i32)>,
}

/// what an edit writes to one to-do, each None where it is left as it is: its fields, the checklist items it removes, renames and adds, and the template of a repeat it adds
pub struct TaskEdit {
    pub title: Option<String>,
    /// the new notes, empty when they are cleared
    pub notes: Option<String>,
    pub stop_date: Option<Instant>,
    pub creation_date: Option<Instant>,
    pub container: Option<EditContainer>,
    pub start: Option<TaskStart>,
    pub scheduled_date: Option<Option<i64>>,
    pub today_index_reference: Option<Option<i64>>,
    pub evening: Option<bool>,
    pub deadline: Option<Option<i64>>,
    pub alarm_time_offset: Option<Option<i64>>,
    pub tag_ids: Option<Vec<ThingsId>>,
    pub removed_items: Vec<ThingsId>,
    /// the items renamed, with their new titles, in the order the renames came
    pub renamed_items: Vec<(ThingsId, String)>,
    /// the items added: title and index
    pub added_items: Vec<(String, i32)>,
    pub template: Option<EditTemplate>,
}

/// the fields of a to-do an edit writes, as values
pub struct FieldsView {
    pub title: Option<Seq<char>>,
    pub notes: Option<Seq<char>>,
    pub stop_date: Option<Instant>,
    pub creation_date: Option<Instant>,
    pub container: Option<EditContainer>,
    pub start: Option<TaskStart>,
    pub scheduled_date: Option<Option<i64>>,
    pub today_index_reference: Option<Option<i64>>,
    pub evening: Option<bool>,
    pub deadline: Option<Option<i64>>,
    pub alarm_time_offset: Option<Option<i64>>,
    pub tag_ids: Option<Seq<Seq<u8>>>,
    pub repeats: bool,
}

/// the checklist changes of an edit to one to-do, as values
pub struct ChecklistView {
    pub removed: Seq<ThingsId>,
    pub renamed: Seq<(ThingsId, Seq<char>)>,
    pub added: Seq<(Seq<char>, i32)>,
}

/// the repeat an edit adds, as values: the rule's spec, its end, its first day, the next day, the day an interval counts back to
pub struct RepeatView {
    pub spec: (CadenceView, i32),
    pub end: Bound,
    pub first: int,
    pub next: int,
    pub back: Option<int>,
}

/// an update that writes nothing
pub open spec fn no_fields() -> FieldsView {
    FieldsView {
        title: None,
        notes: None,
        stop_date: None,
        creation_date: None,
        container: None,
        start: None,
        scheduled_date: None,
        today_index_reference: None,
        evening: None,
        deadline: None,
        alarm_time_offset: None,
        tag_ids: None,
        repeats: false,
    }
}

/// what an edit of one to-do comes to: its fields, checklist changes and repeat with the labels so far, a refusal, or a day beyond the calendar, an index past the largest, or a repeat interval that cannot be split
pub enum EditStep {
    Done(FieldsView, ChecklistView, Option<RepeatView>, Seq<Seq<char>>),
    Refused(Seq<char>),
    Unplannable,
}

/// an instant read from a flag, as values
pub open spec fn instant_of(read: (i64, u32)) -> Instant {
    Instant { seconds: read.0, nanos: read.1 }
}

/// the title, the completion and creation instants and the notes an edit writes, with their labels
#[verifier::opaque]
pub open spec fn edit_basics(
    args: EditArgs,
    task: Task,
    labels: Seq<Seq<char>>,
    completed: Option<Result<(i64, u32), Seq<char>>>,
    created: Option<Result<(i64, u32), Seq<char>>>,
) -> Result<(FieldsView, Seq<Seq<char>>), Seq<char>> {
    let titled = match args.title {
        None => Ok((no_fields(), labels)),
        Some(t) => if trim_spec(t@).len() == 0 {
            Err("Task title cannot be empty."@)
        } else {
            Ok((FieldsView { title: Some(trim_spec(t@)), ..no_fields() }, with_label(labels, "title"@)))
        },
    };
    match titled {
        Err(message) => Err(message),
        Ok((v, labels)) => {
            let stopped = match args.completed_on {
                None => Ok((v, labels)),
                Some(_) => if task.status != TaskStatus::Completed && task.status != TaskStatus::Canceled {
                    Err("--completed-on needs a completed or canceled task."@)
                } else {
                    match completed {
                        Some(Ok(read)) => Ok((FieldsView { stop_date: Some(instant_of(read)), ..v }, labels.push("completed-on"@))),
                        Some(Err(message)) => Err(message),
                        None => Err(seq![]),
                    }
                },
            };
            match stopped {
                Err(message) => Err(message),
                Ok((v, labels)) => {
                    let made = match args.created_on {
                        None => Ok((v, labels)),
                        Some(_) => match created {
                            Some(Ok(read)) => Ok((FieldsView { creation_date: Some(instant_of(read)), ..v }, labels.push("created-on"@))),
                            Some(Err(message)) => Err(message),
                            None => Err(seq![]),
                        },
                    };
                    match made {
                        Err(message) => Err(message),
                        Ok((v, labels)) => match args.notes {
                            None => Ok((v, labels)),
                            Some(n) => Ok((FieldsView { notes: Some(n@), ..v }, with_label(labels, "notes"@))),
                        },
                    }
                },
            }
        },
    }
}

/// the fields that leave a to-do without a day: the day, its day group, the evening bit, and a reminder it had
pub open spec fn unscheduled(v: FieldsView, task: Task) -> FieldsView {
    FieldsView {
        scheduled_date: Some(None),
        today_index_reference: Some(None),
        evening: Some(false),
        alarm_time_offset: if task.alarm_time_offset is Some {
            Some(None)
        } else {
            v.alarm_time_offset
        },
        ..v
    }
}

/// the fields once `--move` is read: out of the Inbox into Anytime when it moves into a project or area or is cleared, into the Inbox without a day
pub open spec fn edit_moved(moving: EditMove, lowered: Seq<char>, task: Task, v: FieldsView) -> FieldsView {
    let shared = match moving {
        EditMove::Inbox => FieldsView { container: Some(EditContainer::Cleared), start: Some(TaskStart::Inbox), ..v },
        EditMove::Into(c) => FieldsView { container: Some(c), ..v },
        _ => v,
    };
    let cleared = if lowered == "clear"@ {
        FieldsView {
            container: Some(EditContainer::Cleared),
            start: if task.start == TaskStart::Inbox {
                Some(TaskStart::Anytime)
            } else {
                shared.start
            },
            ..shared
        }
    } else {
        shared
    };
    let boxed = if lowered == "inbox"@ {
        unscheduled(cleared, task)
    } else {
        cleared
    };
    match moving {
        EditMove::Into(_) => if task.start == TaskStart::Inbox {
            FieldsView { start: Some(TaskStart::Anytime), ..boxed }
        } else {
            boxed
        },
        _ => boxed,
    }
}

/// the fields once the tags are added and taken off
pub open spec fn edit_tagged(setup: SetupView, task: Task, v: FieldsView) -> FieldsView {
    if setup.add_ids.len() > 0 || setup.remove_ids.len() > 0 {
        let added = with_added(id_bytes_of(task.tags@), setup.add_ids, setup.add_ids.len() as int);
        FieldsView { tag_ids: Some(without_ids(added, setup.remove_ids, added.len() as int)), ..v }
    } else {
        v
    }
}

/// the largest index of the first `n` checklist items, None without any
pub open spec fn max_index(items: Seq<ChecklistItem>, n: int) -> Option<i32>
    decreases n,
{
    if n <= 0 {
        None
    } else {
        match max_index(items, n - 1) {
            None => Some(items[n - 1].index),
            Some(m) => Some(if items[n - 1].index > m { items[n - 1].index } else { m }),
        }
    }
}

/// the renames the first `n` entries ask of a to-do's checklist, each item by a unique prefix of its id, or the message for the first that names none or several
pub open spec fn renamed_items(items: Seq<ChecklistItem>, renames: Seq<(Seq<char>, Seq<char>)>, n: int) -> Result<Seq<(ThingsId, Seq<char>)>, Seq<char>>
    decreases n,
{
    if n <= 0 {
        Ok(seq![])
    } else {
        match renamed_items(items, renames, n - 1) {
            Err(message) => Err(message),
            Ok(list) => {
                let (short, title) = renames[n - 1];
                let found = items_matching(items, short);
                if found.len() == 0 {
                    Err("Checklist item not found: '"@ + short + "'"@)
                } else if found.len() > 1 {
                    Err("Ambiguous checklist item prefix: '"@ + short + "'"@)
                } else {
                    Ok(list.push((found[0].uuid, title)))
                }
            },
        }
    }
}

/// the items the first `n` titles add after the largest index, or the message refusing a blank title; None where an index would pass the largest an `i32` holds
pub open spec fn added_items(titles: Seq<String>, top: int, n: int) -> Option<Result<Seq<(Seq<char>, i32)>, Seq<char>>>
    decreases n,
{
    if n <= 0 {
        Some(Ok(seq![]))
    } else {
        match added_items(titles, top, n - 1) {
            None => None,
            Some(Err(message)) => Some(Err(message)),
            Some(Ok(list)) => {
                let title = trim_spec(titles[n - 1]@);
                if title.len() == 0 {
                    Some(Err("Checklist item title cannot be empty."@))
                } else if top + n > i32::MAX {
                    None
                } else {
                    Some(Ok(list.push((title, (top + n) as i32))))
                }
            },
        }
    }
}

/// the checklist changes of an edit to one to-do, with their labels
#[verifier::opaque]
pub open spec fn edit_checklist(
    args: EditArgs,
    setup: SetupView,
    task: Task,
    labels: Seq<Seq<char>>,
) -> Option<Result<(ChecklistView, Seq<Seq<char>>), Seq<char>>> {
    let items = task.checklist_items@;
    let removing = match args.remove_checklist {
        None => Ok((Seq::<ThingsId>::empty(), labels)),
        Some(raw) => {
            let tokens = tokens_of(raw@);
            if tokens.len() == 0 {
                Err("No checklist item IDs provided."@)
            } else {
                match checklist_resolution(items, tokens, tokens.len() as int) {
                    Err(message) => Err(message),
                    Ok(found) => Ok(
                        (found.map_values(|item: ChecklistItem| item.uuid), with_label(labels, "remove-checklist"@)),
                    ),
                }
            }
        },
    };
    match removing {
        Err(message) => Some(Err(message)),
        Ok((removed, labels)) => {
            let renaming = if setup.renames.len() > 0 {
                match renamed_items(items, setup.renames, setup.renames.len() as int) {
                    Err(message) => Err(message),
                    Ok(renamed) => Ok((renamed, with_label(labels, "rename-checklist"@))),
                }
            } else {
                Ok((Seq::<(ThingsId, Seq<char>)>::empty(), labels))
            };
            match renaming {
                Err(message) => Some(Err(message)),
                Ok((renamed, labels)) => if args.add_checklist@.len() > 0 {
                    let top = match max_index(items, items.len() as int) {
                        Some(m) => m as int,
                        None => 0,
                    };
                    match added_items(args.add_checklist@, top, args.add_checklist@.len() as int) {
                        None => None,
                        Some(Err(message)) => Some(Err(message)),
                        Some(Ok(added)) => Some(
                            Ok((ChecklistView { removed, renamed, added }, with_label(labels, "add-checklist"@))),
                        ),
                    }
                } else {
                    Some(Ok((ChecklistView { removed, renamed, added: seq![] }, labels)))
                },
            }
        },
    }
}

/// what the schedule flags of an edit come to for one to-do: its fields, the repeat it adds and the labels, a refusal, or a day beyond the calendar or a repeat interval that cannot be split
pub enum ScheduleStep {
    Done(FieldsView, Option<RepeatView>, Seq<Seq<char>>),
    Refused(Seq<char>),
    Unplannable,
}

/// the day a repeat added by an edit counts from: the day the edit gives, or the to-do's own
pub open spec fn repeat_from(task: Task, v: FieldsView) -> Option<i32> {
    match v.scheduled_date {
        Some(Some(day)) => day_of_spec(day as int),
        Some(None) => None,
        None => match task.start_date {
            Some(start) => day_of_spec(start.seconds as int),
            None => None,
        },
    }
}

/// the fields once `--repeat` is read: a to-do that does not repeat yet, on a day the rule falls on, without a deadline
pub open spec fn edit_repeat(args: EditArgs, task: Task, v: FieldsView, labels: Seq<Seq<char>>) -> ScheduleStep {
    match args.repeat {
        None => if args.times is Some || args.until is Some {
            ScheduleStep::Refused("--times and --until need --repeat"@)
        } else {
            ScheduleStep::Done(v, None, labels)
        },
        Some(text) => if is_template_spec(task) || (task.recurrence_rule is None && task.recurrence_templates@.len() > 0) {
            ScheduleStep::Refused("This to-do already repeats."@)
        } else if !repeat_spec_splits(text@) {
            ScheduleStep::Unplannable
        } else {
            match repeat_spec_of(text@) {
                Err(message) => ScheduleStep::Refused(message),
                Ok(spec) => match bound_result(args.times, args.until) {
                    Err(message) => ScheduleStep::Refused(message),
                    Ok(end) => match repeat_from(task, v) {
                        None => ScheduleStep::Refused("--repeat requires a scheduled day, set --when today or YYYY-MM-DD"@),
                        Some(from) => if !first_in_reach(spec.0, from as int) {
                            ScheduleStep::Unplannable
                        } else {
                            let first = first_of(spec.0, from as int);
                            if first != from {
                                ScheduleStep::Refused(
                                    day_text_spec(from as int) + " is not a day of "@ + text@ + ", the next one is "@
                                        + day_text_spec(first) + ", set --when "@ + day_text_spec(first),
                                )
                            } else if end matches Bound::Until(until) && until < first {
                                ScheduleStep::Refused(
                                    "--until "@ + day_text_spec(end->Until_0 as int) + " is before the first occurrence "@
                                        + day_text_spec(first),
                                )
                            } else if match v.deadline {
                                Some(d) => d is Some,
                                None => task.deadline is Some,
                            } {
                                ScheduleStep::Refused(
                                    "A repeating to-do keeps its deadline as an offset the CLI does not write yet, clear the deadline before adding --repeat."@,
                                )
                            } else {
                                match template_days_spec(spec, first) {
                                    None => ScheduleStep::Unplannable,
                                    Some((next, back)) => ScheduleStep::Done(
                                        FieldsView { repeats: true, ..v },
                                        Some(RepeatView { spec, end, first, next, back }),
                                        with_label(labels, "repeat="@ + text@),
                                    ),
                                }
                            }
                        },
                    },
                },
            }
        },
    }
}

/// the fields once `--when` is read, the text trimmed: a day today or before starts in Anytime, a later one in Someday
pub open spec fn edit_when(task: Task, v: FieldsView, when: Seq<char>, today_ts: i64, labels: Seq<Seq<char>>) -> Result<(FieldsView, Seq<Seq<char>>), Seq<char>> {
    let lowered = lowercased(when);
    if lowered == "anytime"@ || lowered == "someday"@ {
        Ok(
            (
                unscheduled(
                    FieldsView {
                        start: Some(if lowered == "anytime"@ { TaskStart::Anytime } else { TaskStart::Someday }),
                        ..v
                    },
                    task,
                ),
                with_label(labels, "when="@ + lowered),
            ),
        )
    } else if lowered == "today"@ || lowered == "evening"@ {
        Ok(
            (
                FieldsView {
                    start: Some(TaskStart::Anytime),
                    scheduled_date: Some(Some(today_ts)),
                    today_index_reference: Some(Some(today_ts)),
                    evening: Some(lowered == "evening"@),
                    ..v
                },
                with_label(labels, "when="@ + lowered),
            ),
        )
    } else {
        match parsed_day(when) {
            None => Err(invalid_day_message(when, "--when"@)),
            Some(n) => {
                let day = day_timestamp_spec(n as int) as i64;
                Ok(
                    (
                        FieldsView {
                            start: Some(if day <= today_ts { TaskStart::Anytime } else { TaskStart::Someday }),
                            scheduled_date: Some(Some(day)),
                            today_index_reference: Some(Some(day)),
                            evening: Some(false),
                            ..v
                        },
                        with_label(labels, "when="@ + when),
                    ),
                )
            },
        }
    }
}

/// the fields once the deadline and reminder flags are read
pub open spec fn edit_deadline_reminder(args: EditArgs, task: Task, v: FieldsView, labels: Seq<Seq<char>>) -> Result<(FieldsView, Seq<Seq<char>>), Seq<char>> {
    let dated = match args.deadline_date {
        None => Ok((v, labels)),
        Some(d) => match parsed_day(d@) {
            None => Err(invalid_day_message(d@, "--deadline"@)),
            Some(n) => Ok(
                (
                    FieldsView { deadline: Some(Some(day_timestamp_spec(n as int) as i64)), ..v },
                    with_label(labels, "deadline="@ + d@),
                ),
            ),
        },
    };
    match dated {
        Err(message) => Err(message),
        Ok((v, labels)) => {
            let (v, labels) = if args.clear_deadline {
                (FieldsView { deadline: Some(None), ..v }, with_label(labels, "deadline=none"@))
            } else {
                (v, labels)
            };
            let reminded = match args.reminder {
                None => Ok((v, labels)),
                Some(r) => if !match v.scheduled_date {
                    Some(day) => day is Some,
                    None => task.start_date is Some,
                } {
                    Err("--reminder requires a scheduled day, set --when today or YYYY-MM-DD"@)
                } else {
                    match parsed_reminder(r@) {
                        None => Err(invalid_reminder_message(r@)),
                        Some(secs) => Ok(
                            (
                                FieldsView { alarm_time_offset: Some(Some(secs as i64)), ..v },
                                with_label(labels, "reminder="@ + r@),
                            ),
                        ),
                    }
                },
            };
            match reminded {
                Err(message) => Err(message),
                Ok((v, labels)) => Ok(
                    if args.clear_reminder {
                        (FieldsView { alarm_time_offset: Some(None), ..v }, with_label(labels, "reminder=none"@))
                    } else {
                        (v, labels)
                    },
                ),
            }
        },
    }
}

/// the schedule flags of an edit for one to-do: when, deadline, reminder and repeat, refused on an item with an old repeater
#[verifier::opaque]
pub open spec fn edit_schedule(args: EditArgs, task: Task, v: FieldsView, labels: Seq<Seq<char>>, today_ts: i64) -> ScheduleStep {
    let scheduling = args.when is Some || args.deadline_date is Some || args.clear_deadline || args.reminder is Some
        || args.clear_reminder || args.repeat is Some;
    if !scheduling {
        if args.times is Some || args.until is Some {
            ScheduleStep::Refused("--times and --until need --repeat"@)
        } else {
            ScheduleStep::Done(v, None, labels)
        }
    } else if task.repeater is Some {
        ScheduleStep::Refused(
            "Task7 repeater tasks are blocked from scheduling until repeater bookkeeping is supported."@,
        )
    } else {
        let timed = match args.when {
            None => Ok((v, labels)),
            Some(w) => edit_when(task, v, trim_spec(w@), today_ts, labels),
        };
        match timed {
            Err(message) => ScheduleStep::Refused(message),
            Ok((v, labels)) => match edit_deadline_reminder(args, task, v, labels) {
                Err(message) => ScheduleStep::Refused(message),
                Ok((v, labels)) => edit_repeat(args, task, v, labels),
            },
        }
    }
}

/// what an edit does to one to-do: its basic fields, its move, its tags, its checklist, its schedule; refused when it changes nothing
#[verifier::opaque]
pub open spec fn task_edit(
    args: EditArgs,
    setup: SetupView,
    lowered: Seq<char>,
    task: Task,
    labels: Seq<Seq<char>>,
    completed: Option<Result<(i64, u32), Seq<char>>>,
    created: Option<Result<(i64, u32), Seq<char>>>,
    today_ts: i64,
) -> EditStep {
    match edit_basics(args, task, labels, completed, created) {
        Err(message) => EditStep::Refused(message),
        Ok((v, labels)) => {
            let v = edit_tagged(setup, task, edit_moved(setup.moving, lowered, task, v));
            match edit_checklist(args, setup, task, labels) {
                None => EditStep::Unplannable,
                Some(Err(message)) => EditStep::Refused(message),
                Some(Ok((checklist, labels))) => match edit_schedule(args, task, v, labels, today_ts) {
                    ScheduleStep::Refused(message) => EditStep::Refused(message),
                    ScheduleStep::Unplannable => EditStep::Unplannable,
                    ScheduleStep::Done(v, repeat, labels) => {
                        let checklist_changes = args.add_checklist@.len() > 0 || args.remove_checklist is Some
                            || setup.renames.len() > 0;
                        if v == no_fields() && !checklist_changes {
                            EditStep::Refused("No edit changes requested."@)
                        } else {
                            EditStep::Done(v, checklist, repeat, labels)
                        }
                    },
                },
            }
        },
    }
}

/// what an edit comes to: the to-dos with what it writes to each and the labels, the message refusing it, or a day beyond the calendar, an index past the largest, or a repeat interval that cannot be split
pub enum EditOutcome {
    Planned(Seq<Task>, Seq<(FieldsView, ChecklistView, Option<RepeatView>)>, Seq<Seq<char>>),
    Refused(Seq<char>),
    Unplannable,
}

/// the edit of the first `n` to-dos, each in turn, the labels carried from one to the next
pub open spec fn edit_steps(
    args: EditArgs,
    setup: SetupView,
    lowered: Seq<char>,
    completed: Option<Result<(i64, u32), Seq<char>>>,
    created: Option<Result<(i64, u32), Seq<char>>>,
    today_ts: i64,
    n: int,
) -> EditOutcome
    decreases n,
{
    if n <= 0 {
        EditOutcome::Planned(setup.tasks, seq![], setup.labels)
    } else {
        match edit_steps(args, setup, lowered, completed, created, today_ts, n - 1) {
            EditOutcome::Planned(tasks, edits, labels) => match task_edit(
                args,
                setup,
                lowered,
                setup.tasks[n - 1],
                labels,
                completed,
                created,
                today_ts,
            ) {
                EditStep::Done(fields, checklist, repeat, labels) => EditOutcome::Planned(
                    tasks,
                    edits.push((fields, checklist, repeat)),
                    labels,
                ),
                EditStep::Refused(message) => EditOutcome::Refused(message),
                EditStep::Unplannable => EditOutcome::Unplannable,
            },
            other => other,
        }
    }
}

/// what an edit comes to, the instants its flags name read beforehand
pub open spec fn edit_outcome(
    store: ThingsStore,
    args: EditArgs,
    completed: Option<Result<(i64, u32), Seq<char>>>,
    created: Option<Result<(i64, u32), Seq<char>>>,
    today_ts: i64,
) -> EditOutcome {
    match edit_setup(store, args) {
        Err(message) => EditOutcome::Refused(message),
        Ok(setup) => edit_steps(
            args,
            setup,
            lowercased(move_text(args)),
            completed,
            created,
            today_ts,
            setup.tasks.len() as int,
        ),
    }
}

/// the title of a checklist item after the first `n` renames: the last that names it, or its own
pub open spec fn title_after(renamed: Seq<(ThingsId, Seq<char>)>, item: ChecklistItem, n: int) -> Seq<char>
    decreases n,
{
    if n <= 0 {
        item.title@
    } else if renamed[n - 1].0@ == item.uuid@ {
        renamed[n - 1].1
    } else {
        title_after(renamed, item, n - 1)
    }
}

/// the first `n` checklist items an edit keeps, with their titles after the renames and their indexes
pub open spec fn kept_items(items: Seq<ChecklistItem>, c: ChecklistView, n: int) -> Seq<(Seq<char>, i32)>
    decreases n,
{
    if n <= 0 {
        seq![]
    } else if crate::store::holds_id(c.removed, items[n - 1].uuid) {
        kept_items(items, c, n - 1)
    } else {
        kept_items(items, c, n - 1).push(
            (title_after(c.renamed, items[n - 1], c.renamed.len() as int), items[n - 1].index),
        )
    }
}

/// the checklist as an edit leaves it, which a template copies: the items kept, then those added
pub open spec fn checklist_copies(task: Task, c: ChecklistView) -> Seq<(Seq<char>, i32)> {
    kept_items(task.checklist_items@, c, task.checklist_items@.len() as int) + c.added
}

/// a project, area or heading that may be missing, as the edit leaves it
pub open spec fn project_after(task: Task, f: FieldsView) -> Option<ThingsId> {
    match f.container {
        Some(EditContainer::Project(p)) => Some(p),
        Some(_) => None,
        None => task.project,
    }
}

/// the area as the edit leaves it
pub open spec fn area_after(task: Task, f: FieldsView) -> Option<ThingsId> {
    match f.container {
        Some(EditContainer::Area(a)) => Some(a),
        Some(_) => None,
        None => task.area,
    }
}

/// the heading as the edit leaves it
pub open spec fn heading_after(task: Task, f: FieldsView) -> Option<ThingsId> {
    match f.container {
        Some(_) => None,
        None => task.action_group,
    }
}

/// the texts of a list of titles and indexes
pub open spec fn copy_texts(list: Seq<(String, i32)>) -> Seq<(Seq<char>, i32)> {
    list.map_values(|e: (String, i32)| (e.0@, e.1))
}

/// the renames of a list, as values
pub open spec fn renamed_texts(list: Seq<(ThingsId, String)>) -> Seq<(ThingsId, Seq<char>)> {
    list.map_values(|e: (ThingsId, String)| (e.0, e.1@))
}

/// the fields an edit writes, as values
pub open spec fn fields_of(e: TaskEdit) -> FieldsView {
    FieldsView {
        title: crate::new_task::text_view(e.title),
        notes: crate::new_task::text_view(e.notes),
        stop_date: e.stop_date,
        creation_date: e.creation_date,
        container: e.container,
        start: e.start,
        scheduled_date: e.scheduled_date,
        today_index_reference: e.today_index_reference,
        evening: e.evening,
        deadline: e.deadline,
        alarm_time_offset: e.alarm_time_offset,
        tag_ids: match e.tag_ids {
            Some(ids) => Some(id_bytes_of(ids@)),
            None => None,
        },
        repeats: e.template is Some,
    }
}

/// the checklist changes an edit writes, as values
pub open spec fn checklist_of(e: TaskEdit) -> ChecklistView {
    ChecklistView { removed: e.removed_items@, renamed: renamed_texts(e.renamed_items@), added: copy_texts(e.added_items@) }
}

/// the template is the one the repeat view says, mirroring the to-do as the edit leaves it
pub open spec fn template_matches(t: EditTemplate, r: RepeatView, task: Task, f: FieldsView, c: ChecklistView, today_ts: i64) -> bool {
    &&& is_written_rule(r.spec, r.first, day_of_spec(today_ts as int)->0 as int, r.end, t.rule)
    &&& t.first == r.first
    &&& t.next == r.next
    &&& match r.back {
        Some(b) => t.after_completion_reference == Some(b as i32),
        None => t.after_completion_reference is None,
    }
    &&& t.title@ == match f.title {
        Some(title) => title,
        None => task.title@,
    }
    &&& crate::new_task::text_view(t.notes) == match f.notes {
        Some(notes) => Some(notes),
        None => crate::new_task::text_view(task.notes),
    }
    &&& id_bytes_of(t.tag_ids@) == match f.tag_ids {
        Some(ids) => ids,
        None => id_bytes_of(task.tags@),
    }
    &&& t.project == project_after(task, f)
    &&& t.area == area_after(task, f)
    &&& t.action_group == heading_after(task, f)
    &&& t.alarm_time_offset == match f.alarm_time_offset {
        Some(alarm) => alarm,
        None => task.alarm_time_offset,
    }
    &&& t.sort_index == task.index
    &&& t.today_sort_index == task.today_index
    &&& copy_texts(t.checklist@) == checklist_copies(task, c)
}

/// the edit of one to-do is what the step says
pub open spec fn edit_matches(e: TaskEdit, task: Task, step: (FieldsView, ChecklistView, Option<RepeatView>), today_ts: i64) -> bool {
    &&& fields_of(e) == step.0
    &&& checklist_of(e) == step.1
    &&& match step.2 {
        None => e.template is None,
        Some(r) => e.template matches Some(t) && template_matches(t, r, task, step.0, step.1, today_ts),
    }
}

/// an edit ready to write: the to-dos it names, what it writes to each, and the labels; every
/// update goes out as `entity`, stamped with `modification_date`, and an item it adds is made then too
pub struct EditPlan<'a> {
    pub tasks: Vec<&'a Task>,
    pub edits: Vec<TaskEdit>,
    pub labels: Vec<String>,
    pub entity: EntityType,
    pub modification_date: Instant,
}

/// the plan, where there is one, writes as the app writes now, at the instant `now`
pub open spec fn stamped_at(plan: Result<EditPlan, String>, now: Instant) -> bool {
    plan matches Ok(p) ==> p.entity == EntityType::Task7 && p.modification_date == now
}

/// the plan is what the outcome says
pub open spec fn edit_plan_matches(outcome: EditOutcome, plan: Result<EditPlan, String>, today_ts: i64) -> bool {
    match outcome {
        EditOutcome::Planned(tasks, steps, labels) => plan matches Ok(p) && held(p.tasks@) == tasks && texts(p.labels@)
            == labels && p.edits@.len() == steps.len() && steps.len() == tasks.len() && forall|i: int|
            0 <= i < steps.len() ==> edit_matches(#[trigger] p.edits@[i], tasks[i], steps[i], today_ts),
        EditOutcome::Refused(message) => plan matches Err(m) && m@ == message,
        EditOutcome::Unplannable => false,
    }
}

/// an instant read from a flag, or the message refusing it, as values
pub open spec fn read_view(read: Option<Result<(i64, u32), String>>) -> Option<Result<(i64, u32), Seq<char>>> {
    match read {
        Some(Ok(r)) => Some(Ok(r)),
        Some(Err(m)) => Some(Err(m@)),
        None => None,
    }
}

/// an edit that has written no checklist change and no template yet
pub open spec fn bare(e: TaskEdit) -> bool {
    &&& e.removed_items@.len() == 0
    &&& e.renamed_items@.len() == 0
    &&& e.added_items@.len() == 0
    &&& e.template is None
}

/// an edit that writes nothing
fn empty_edit() -> (e: TaskEdit)
    ensures
        fields_of(e) == no_fields(),
        bare(e),
{
    TaskEdit {
        title: None,
        notes: None,
        stop_date: None,
        creation_date: None,
        container: None,
        start: None,
        scheduled_date: None,
        today_index_reference: None,
        evening: None,
        deadline: None,
        alarm_time_offset: None,
        tag_ids: None,
        removed_items: Vec::new(),
        renamed_items: Vec::new(),
        added_items: Vec::new(),
        template: None,
    }
}

/// the title, the instants and the notes an edit writes
fn basics_of(
    args: &EditArgs,
    task: &Task,
    labels: &mut Vec<String>,
    completed: &Option<Result<(i64, u32), String>>,
    created: &Option<Result<(i64, u32), String>>,
) -> (res: Result<TaskEdit, String>)
    requires
        completed is Some == args.completed_on is Some,
        created is Some == args.created_on is Some,
    ensures
        match edit_basics(*args, *task, texts(old(labels)@), read_view(*completed), read_view(*created)) {
            Ok((v, l)) => res matches Ok(e) && fields_of(e) == v && bare(e) && texts(final(labels)@) == l,
            Err(m) => res matches Err(x) && x@ == m,
        },
{
    reveal(edit_basics);
    let mut e = empty_edit();
    match &args.title {
        Some(t) => {
            let title = trimmed(t.as_str());
            if title.as_str().unicode_len() == 0 {
                return Err(String::from_str("Task title cannot be empty."));
            }
            e.title = Some(title);
            add_label(labels, String::from_str("title"));
        },
        None => {},
    }
    match &args.completed_on {
        Some(_) => {
            if task.status != TaskStatus::Completed && task.status != TaskStatus::Canceled {
                return Err(String::from_str("--completed-on needs a completed or canceled task."));
            }
            match completed {
                Some(Ok(read)) => {
                    e.stop_date = Some(Instant { seconds: read.0, nanos: read.1 });
                    push_label(labels, String::from_str("completed-on"));
                },
                Some(Err(message)) => return Err(message.clone()),
                None => return Err(String::new()),
            }
        },
        None => {},
    }
    match &args.created_on {
        Some(_) => match created {
            Some(Ok(read)) => {
                e.creation_date = Some(Instant { seconds: read.0, nanos: read.1 });
                push_label(labels, String::from_str("created-on"));
            },
            Some(Err(message)) => return Err(message.clone()),
            None => return Err(String::new()),
        },
        None => {},
    }
    match &args.notes {
        Some(n) => {
            e.notes = Some(n.clone());
            add_label(labels, String::from_str("notes"));
        },
        None => {},
    }
    Ok(e)
}

/// the fields once `--move` is read
fn moved(moving: EditMove, lowered: &String, task: &Task, e: TaskEdit) -> (res: TaskEdit)
    ensures
        fields_of(res) == edit_moved(moving, lowered@, *task, fields_of(e)),
        bare(e) ==> bare(res),
{
    let mut e = e;
    match moving {
        EditMove::Inbox => {
            e.container = Some(EditContainer::Cleared);
            e.start = Some(TaskStart::Inbox);
        },
        EditMove::Into(c) => {
            e.container = Some(c);
        },
        _ => {},
    }
    if same_text(lowered.as_str(), "clear") {
        e.container = Some(EditContainer::Cleared);
        if task.start == TaskStart::Inbox {
            e.start = Some(TaskStart::Anytime);
        }
    }
    if same_text(lowered.as_str(), "inbox") {
        e.scheduled_date = Some(None);
        e.today_index_reference = Some(None);
        e.evening = Some(false);
        if task.alarm_time_offset.is_some() {
            e.alarm_time_offset = Some(None);
        }
    }
    match moving {
        EditMove::Into(_) => {
            if task.start == TaskStart::Inbox {
                e.start = Some(TaskStart::Anytime);
            }
        },
        _ => {},
    }
    e
}

/// the fields once the tags are added and taken off
fn tagged(setup: &Setup, task: &Task, e: TaskEdit) -> (res: TaskEdit)
    ensures
        fields_of(res) == edit_tagged(setup_view(*setup), *task, fields_of(e)),
        bare(e) ==> bare(res),
{
    let mut e = e;
    if setup.add_ids.len() > 0 || setup.remove_ids.len() > 0 {
        let mut current = task.tags.clone();
        assert(current@ == task.tags@);
        crate::edit_plans::add_ids(&mut current, &setup.add_ids);
        let kept = crate::edit_plans::remove_ids(&current, &setup.remove_ids);
        e.tag_ids = Some(kept);
    }
    e
}

/// renames that failed stay failed with their message
proof fn lemma_renamed_stay_failed(items: Seq<ChecklistItem>, renames: Seq<(Seq<char>, Seq<char>)>, n: int, m: int, message: Seq<char>)
    requires
        0 <= n <= m,
        renamed_items(items, renames, n) == Err::<Seq<(ThingsId, Seq<char>)>, Seq<char>>(message),
    ensures
        renamed_items(items, renames, m) == Err::<Seq<(ThingsId, Seq<char>)>, Seq<char>>(message),
    decreases m - n,
{
    if n < m {
        lemma_renamed_stay_failed(items, renames, n, m - 1, message);
    }
}

/// additions that failed or ran past the largest index stay so
proof fn lemma_added_stay(titles: Seq<String>, top: int, n: int, m: int)
    requires
        0 <= n <= m,
        !(added_items(titles, top, n) matches Some(Ok(_))),
    ensures
        added_items(titles, top, m) == added_items(titles, top, n),
    decreases m - n,
{
    if n < m {
        lemma_added_stay(titles, top, n, m - 1);
    }
}

/// the largest index of a to-do's checklist items, None without any
fn max_index_of(items: &Vec<ChecklistItem>) -> (top: Option<i32>)
    ensures
        top == max_index(items@, items@.len() as int),
{
    let mut top: Option<i32> = None;
    let mut i: usize = 0;
    while i < items.len()
        invariant
            i <= items@.len(),
            top == max_index(items@, i as int),
        decreases items@.len() - i,
    {
        let index = items[i].index;
        top = match top {
            None => Some(index),
            Some(m) => Some(if index > m { index } else { m }),
        };
        i += 1;
    }
    top
}

/// the checklist changes of an edit to one to-do
#[verifier::loop_isolation(false)]
#[verifier::spinoff_prover]
#[verifier::rlimit(50)]
fn checklist_changes(args: &EditArgs, setup: &Setup, task: &Task, labels: &mut Vec<String>) -> (res: Option<
    Result<(Vec<ThingsId>, Vec<(ThingsId, String)>, Vec<(String, i32)>), String>,
>)
    ensures
        match edit_checklist(*args, setup_view(*setup), *task, texts(old(labels)@)) {
            None => res is None,
            Some(Err(m)) => res matches Some(Err(x)) && x@ == m,
            Some(Ok((c, l))) => res matches Some(Ok(r)) && r.0@ == c.removed && renamed_texts(r.1@) == c.renamed
                && copy_texts(r.2@) == c.added && texts(final(labels)@) == l,
        },
{
    reveal(edit_checklist);
    let ghost items = task.checklist_items@;
    let mut removed: Vec<ThingsId> = Vec::new();
    match &args.remove_checklist {
        Some(raw) => {
            let (found, refusal) = crate::mark::resolve_checklist_items(task, raw.as_str());
            proof {
                reveal_strlit("No checklist item IDs provided.");
                crate::mark::lemma_resolution_message(items, tokens_of(raw@), tokens_of(raw@).len() as int);
            }
            if refusal.as_str().unicode_len() > 0 {
                return Some(Err(refusal));
            }
            let mut k: usize = 0;
            while k < found.len()
                invariant
                    k <= found@.len(),
                    removed@ == items_held(found@).take(k as int).map_values(|item: ChecklistItem| item.uuid),
                decreases found@.len() - k,
            {
                let ghost before = removed@;
                removed.push(found[k].uuid);
                assert(items_held(found@).take(k + 1).map_values(|item: ChecklistItem| item.uuid) =~= before.push(found@[k as int].uuid));
                k += 1;
            }
            assert(items_held(found@).take(found@.len() as int) =~= items_held(found@));
            add_label(labels, String::from_str("remove-checklist"));
        },
        None => {},
    }
    let mut renamed: Vec<(ThingsId, String)> = Vec::new();
    if setup.renames.len() > 0 {
        let ghost entries = rename_texts(setup.renames@);
        let mut r: usize = 0;
        assert(renamed_texts(renamed@) =~= Seq::<(ThingsId, Seq<char>)>::empty());
        while r < setup.renames.len()
            invariant
                r <= setup.renames@.len(),
                entries == rename_texts(setup.renames@),
                items == task.checklist_items@,
                renamed_items(items, entries, r as int) == Ok::<Seq<(ThingsId, Seq<char>)>, Seq<char>>(renamed_texts(renamed@)),
            decreases setup.renames@.len() - r,
        {
            let short = chars_of(setup.renames[r].0.as_str());
            assert(entries[r as int] == (setup.renames@[r as int].0@, setup.renames@[r as int].1@));
            let found = crate::mark::matching_items(&task.checklist_items, &short);
            if found.len() == 0 {
                let message = crate::mark::quoted("Checklist item not found: '", &short);
                proof {
                    lemma_renamed_stay_failed(items, entries, r + 1, entries.len() as int, message@);
                }
                return Some(Err(message));
            }
            if found.len() > 1 {
                let message = crate::mark::quoted("Ambiguous checklist item prefix: '", &short);
                proof {
                    lemma_renamed_stay_failed(items, entries, r + 1, entries.len() as int, message@);
                }
                return Some(Err(message));
            }
            let ghost before = renamed@;
            renamed.push((found[0].uuid, setup.renames[r].1.clone()));
            assert(items_held(found@)[0] == *found@[0]);
            assert(renamed_texts(renamed@) =~= renamed_texts(before).push((found@[0].uuid, setup.renames@[r as int].1@)));
            r += 1;
        }
        add_label(labels, String::from_str("rename-checklist"));
    } else {
        assert(renamed_texts(renamed@) =~= Seq::<(ThingsId, Seq<char>)>::empty());
    }
    let mut added: Vec<(String, i32)> = Vec::new();
    assert(copy_texts(added@) =~= Seq::<(Seq<char>, i32)>::empty());
    if args.add_checklist.len() > 0 {
        let top: i64 = match max_index_of(&task.checklist_items) {
            Some(m) => m as i64,
            None => 0,
        };
        let ghost titles = args.add_checklist@;
        let mut a: usize = 0;
        while a < args.add_checklist.len()
            invariant
                a <= titles.len(),
                titles == args.add_checklist@,
                i32::MIN <= top <= i32::MAX,
                added_items(titles, top as int, a as int) == Some(Ok::<Seq<(Seq<char>, i32)>, Seq<char>>(copy_texts(added@))),
            decreases titles.len() - a,
        {
            let title = trimmed(args.add_checklist[a].as_str());
            if title.as_str().unicode_len() == 0 {
                proof {
                    lemma_added_stay(titles, top as int, a + 1, titles.len() as int);
                }
                return Some(Err(String::from_str("Checklist item title cannot be empty.")));
            }
            if top + (a as i64) + 1 > i32::MAX as i64 {
                proof {
                    lemma_added_stay(titles, top as int, a + 1, titles.len() as int);
                }
                return None;
            }
            let ghost before = added@;
            added.push((title, (top + (a as i64) + 1) as i32));
            assert(copy_texts(added@) =~= copy_texts(before).push((title@, (top + (a as i64) + 1) as i32)));
            a += 1;
        }
        add_label(labels, String::from_str("add-checklist"));
    }
    Some(Ok((removed, renamed, added)))
}

/// the fields with the repeat flag set as given
pub open spec fn with_repeats(v: FieldsView, repeats: bool) -> FieldsView {
    FieldsView { repeats, ..v }
}

/// the fields once `--when` is read
fn when_edit(task: &Task, e: TaskEdit, when: &str, today_ts: i64, labels: &mut Vec<String>) -> (res: Result<TaskEdit, String>)
    ensures
        match edit_when(*task, fields_of(e), when@, today_ts, texts(old(labels)@)) {
            Ok((v, l)) => res matches Ok(r) && fields_of(r) == v && (bare(e) ==> bare(r)) && texts(final(labels)@) == l,
            Err(m) => res matches Err(x) && x@ == m,
        },
{
    let mut e = e;
    let lowered = to_lowercase(when);
    let anytime = same_text(lowered.as_str(), "anytime");
    if anytime || same_text(lowered.as_str(), "someday") {
        e.start = Some(if anytime { TaskStart::Anytime } else { TaskStart::Someday });
        e.scheduled_date = Some(None);
        e.today_index_reference = Some(None);
        e.evening = Some(false);
        if task.alarm_time_offset.is_some() {
            e.alarm_time_offset = Some(None);
        }
        let mut label = String::from_str("when=");
        label.append(lowered.as_str());
        add_label(labels, label);
        return Ok(e);
    }
    let evening = same_text(lowered.as_str(), "evening");
    if same_text(lowered.as_str(), "today") || evening {
        e.start = Some(TaskStart::Anytime);
        e.scheduled_date = Some(Some(today_ts));
        e.today_index_reference = Some(Some(today_ts));
        e.evening = Some(evening);
        let mut label = String::from_str("when=");
        label.append(lowered.as_str());
        add_label(labels, label);
        return Ok(e);
    }
    let day = match parse_day(when, "--when") {
        Ok(day) => day,
        Err(message) => return Err(message),
    };
    let day_ts = day_timestamp(day);
    e.start = Some(if day_ts <= today_ts { TaskStart::Anytime } else { TaskStart::Someday });
    e.scheduled_date = Some(Some(day_ts));
    e.today_index_reference = Some(Some(day_ts));
    e.evening = Some(false);
    let mut label = String::from_str("when=");
    label.append(when);
    add_label(labels, label);
    Ok(e)
}

/// the fields once the deadline and reminder flags are read
fn deadline_reminder_edit(args: &EditArgs, task: &Task, e: TaskEdit, labels: &mut Vec<String>) -> (res: Result<TaskEdit, String>)
    ensures
        match edit_deadline_reminder(*args, *task, fields_of(e), texts(old(labels)@)) {
            Ok((v, l)) => res matches Ok(r) && fields_of(r) == v && (bare(e) ==> bare(r)) && texts(final(labels)@) == l,
            Err(m) => res matches Err(x) && x@ == m,
        },
{
    let mut e = e;
    match &args.deadline_date {
        Some(d) => match parse_day(d.as_str(), "--deadline") {
            Ok(day) => {
                e.deadline = Some(Some(day_timestamp(day)));
                let mut label = String::from_str("deadline=");
                label.append(d.as_str());
                add_label(labels, label);
            },
            Err(message) => return Err(message),
        },
        None => {},
    }
    if args.clear_deadline {
        e.deadline = Some(None);
        add_label(labels, String::from_str("deadline=none"));
    }
    match &args.reminder {
        Some(r) => {
            let dated = match e.scheduled_date {
                Some(day) => day.is_some(),
                None => task.start_date.is_some(),
            };
            if !dated {
                return Err(String::from_str("--reminder requires a scheduled day, set --when today or YYYY-MM-DD"));
            }
            match parse_reminder(r.as_str()) {
                Ok(secs) => {
                    e.alarm_time_offset = Some(Some(secs));
                    let mut label = String::from_str("reminder=");
                    label.append(r.as_str());
                    add_label(labels, label);
                },
                Err(message) => return Err(message),
            }
        },
        None => {},
    }
    if args.clear_reminder {
        e.alarm_time_offset = Some(None);
        add_label(labels, String::from_str("reminder=none"));
    }
    Ok(e)
}

/// what the schedule flags of an edit come to for one to-do, computed: the fields, and the rule, its end, first day, next day and the day it counts back to
enum ScheduleApplied {
    Done(TaskEdit, Option<(RepeatSpec, Bound, i32, i32, Option<i32>)>),
    Refused(String),
    Unplannable,
}

/// the repeat a step gives, as values
pub open spec fn repeat_of(r: Option<(RepeatSpec, Bound, i32, i32, Option<i32>)>) -> Option<RepeatView> {
    match r {
        Some((spec, end, first, next, back)) => Some(
            RepeatView {
                spec: spec@,
                end,
                first: first as int,
                next: next as int,
                back: match back {
                    Some(b) => Some(b as int),
                    None => None,
                },
            },
        ),
        None => None,
    }
}

/// the day a repeat added by an edit counts from
fn repeat_from_of(task: &Task, e: &TaskEdit) -> (from: Option<i32>)
    ensures
        from == repeat_from(*task, fields_of(*e)),
{
    match e.scheduled_date {
        Some(Some(day)) => day_of(day),
        Some(None) => None,
        None => match task.start_date {
            Some(start) => day_of(start.seconds),
            None => None,
        },
    }
}

/// the fields once `--repeat` is read
fn repeat_edit(args: &EditArgs, task: &Task, e: TaskEdit, labels: &mut Vec<String>) -> (res: ScheduleApplied)
    ensures
        match edit_repeat(*args, *task, fields_of(e), texts(old(labels)@)) {
            ScheduleStep::Done(v, r, l) => res matches ScheduleApplied::Done(x, y) && with_repeats(fields_of(x), v.repeats)
                == v && (bare(e) ==> bare(x) && (v.repeats <==> y is Some)) && repeat_of(y) == r && texts(final(labels)@) == l && (y matches Some(t) ==> well_formed(t.0@)
                && valid_day(t.2 as int) && (t.1 matches Bound::Until(u) ==> valid_day(u as int))),
            ScheduleStep::Refused(m) => res matches ScheduleApplied::Refused(x) && x@ == m,
            ScheduleStep::Unplannable => res matches ScheduleApplied::Unplannable,
        },
{
    let text = match &args.repeat {
        Some(text) => text,
        None => {
            if args.times.is_some() || args.until.is_some() {
                return ScheduleApplied::Refused(String::from_str("--times and --until need --repeat"));
            }
            return ScheduleApplied::Done(e, None);
        },
    };
    if task.is_recurrence_template() || task.is_recurrence_instance() {
        return ScheduleApplied::Refused(String::from_str("This to-do already repeats."));
    }
    if !RepeatSpec::splits(text.as_str()) {
        return ScheduleApplied::Unplannable;
    }
    let spec = match RepeatSpec::parse(text.as_str()) {
        Ok(spec) => spec,
        Err(message) => return ScheduleApplied::Refused(message),
    };
    proof {
        crate::repeat::lemma_parsed_well_formed(text@);
    }
    let end = match crate::new_task::bound_of(args.times, &args.until) {
        Ok(end) => end,
        Err(message) => return ScheduleApplied::Refused(message),
    };
    let from = match repeat_from_of(task, &e) {
        Some(from) => from,
        None => return ScheduleApplied::Refused(
            String::from_str("--repeat requires a scheduled day, set --when today or YYYY-MM-DD"),
        ),
    };
    if !spec.first_reachable(from) {
        return ScheduleApplied::Unplannable;
    }
    let first = spec.first_occurrence(from);
    proof {
        let chosen = first_of(spec@.0, from as int);
        crate::new_task::lemma_first_unique(spec@.0, from as int, first as int, chosen);
    }
    if first != from {
        let mut message = day_text(from);
        message.append(" is not a day of ");
        message.append(text.as_str());
        message.append(", the next one is ");
        let shown = day_text(first);
        message.append(shown.as_str());
        message.append(", set --when ");
        message.append(shown.as_str());
        return ScheduleApplied::Refused(message);
    }
    match end {
        Bound::Until(until) => {
            if until < first {
                let mut message = String::from_str("--until ");
                let shown_until = day_text(until);
                message.append(shown_until.as_str());
                message.append(" is before the first occurrence ");
                let shown_first = day_text(first);
                message.append(shown_first.as_str());
                return ScheduleApplied::Refused(message);
            }
        },
        _ => {},
    }
    let has_deadline = match e.deadline {
        Some(d) => d.is_some(),
        None => task.deadline.is_some(),
    };
    if has_deadline {
        return ScheduleApplied::Refused(
            String::from_str(
                "A repeating to-do keeps its deadline as an offset the CLI does not write yet, clear the deadline before adding --repeat.",
            ),
        );
    }
    let (next, back) = match spec.template_days(first) {
        Some(days) => days,
        None => return ScheduleApplied::Unplannable,
    };
    let mut label = String::from_str("repeat=");
    label.append(text.as_str());
    add_label(labels, label);
    ScheduleApplied::Done(e, Some((spec, end, first, next, back)))
}

/// the schedule flags of an edit for one to-do
fn schedule_edit(args: &EditArgs, task: &Task, e: TaskEdit, labels: &mut Vec<String>, today_ts: i64) -> (res: ScheduleApplied)
    ensures
        match edit_schedule(*args, *task, fields_of(e), texts(old(labels)@), today_ts) {
            ScheduleStep::Done(v, r, l) => res matches ScheduleApplied::Done(x, y) && with_repeats(fields_of(x), v.repeats)
                == v && (bare(e) ==> bare(x) && (v.repeats <==> y is Some)) && repeat_of(y) == r && texts(final(labels)@) == l && (y matches Some(t) ==> well_formed(t.0@)
                && valid_day(t.2 as int) && (t.1 matches Bound::Until(u) ==> valid_day(u as int))),
            ScheduleStep::Refused(m) => res matches ScheduleApplied::Refused(x) && x@ == m,
            ScheduleStep::Unplannable => res matches ScheduleApplied::Unplannable,
        },
{
    reveal(edit_schedule);
    let scheduling = args.when.is_some() || args.deadline_date.is_some() || args.clear_deadline || args.reminder.is_some()
        || args.clear_reminder || args.repeat.is_some();
    if !scheduling {
        if args.times.is_some() || args.until.is_some() {
            return ScheduleApplied::Refused(String::from_str("--times and --until need --repeat"));
        }
        return ScheduleApplied::Done(e, None);
    }
    if task.has_repeater() {
        return ScheduleApplied::Refused(
            String::from_str("Task7 repeater tasks are blocked from scheduling until repeater bookkeeping is supported."),
        );
    }
    let e = match &args.when {
        Some(w) => {
            let when = trimmed(w.as_str());
            match when_edit(task, e, when.as_str(), today_ts, labels) {
                Ok(e) => e,
                Err(message) => return ScheduleApplied::Refused(message),
            }
        },
        None => e,
    };
    let e = match deadline_reminder_edit(args, task, e, labels) {
        Ok(e) => e,
        Err(message) => return ScheduleApplied::Refused(message),
    };
    repeat_edit(args, task, e, labels)
}

/// the id is among the list's
fn holds_id_of(ids: &Vec<ThingsId>, id: &ThingsId) -> (found: bool)
    ensures
        found == crate::store::holds_id(ids@, *id),
{
    let mut k: usize = 0;
    while k < ids.len()
        invariant
            k <= ids@.len(),
            forall|m: int| 0 <= m < k ==> ids@[m]@ != id@,
        decreases ids@.len() - k,
    {
        if ids[k] == *id {
            assert(ids@[k as int]@ == id@);
            return true;
        }
        k += 1;
    }
    false
}

/// the title of a checklist item after the renames
fn title_after_of(renamed: &Vec<(ThingsId, String)>, item: &ChecklistItem) -> (title: String)
    ensures
        title@ == title_after(renamed_texts(renamed@), *item, renamed@.len() as int),
{
    let mut title = item.title.clone();
    let mut k: usize = 0;
    while k < renamed.len()
        invariant
            k <= renamed@.len(),
            title@ == title_after(renamed_texts(renamed@), *item, k as int),
        decreases renamed@.len() - k,
    {
        assert(renamed_texts(renamed@)[k as int] == (renamed@[k as int].0, renamed@[k as int].1@));
        if renamed[k].0 == item.uuid {
            title = renamed[k].1.clone();
        }
        k += 1;
    }
    title
}

/// the checklist as an edit leaves it: the items kept with their titles after the renames, then those added
fn copies_of(task: &Task, removed: &Vec<ThingsId>, renamed: &Vec<(ThingsId, String)>, added: &Vec<(String, i32)>) -> (copies: Vec<(String, i32)>)
    ensures
        copy_texts(copies@) == checklist_copies(
            *task,
            ChecklistView { removed: removed@, renamed: renamed_texts(renamed@), added: copy_texts(added@) },
        ),
{
    let ghost c = ChecklistView { removed: removed@, renamed: renamed_texts(renamed@), added: copy_texts(added@) };
    let items = &task.checklist_items;
    let mut copies: Vec<(String, i32)> = Vec::new();
    let mut i: usize = 0;
    assert(copy_texts(copies@) =~= Seq::<(Seq<char>, i32)>::empty());
    while i < items.len()
        invariant
            i <= items@.len(),
            copy_texts(copies@) == kept_items(items@, c, i as int),
            c == (ChecklistView { removed: removed@, renamed: renamed_texts(renamed@), added: copy_texts(added@) }),
        decreases items@.len() - i,
    {
        let item = &items[i];
        if !holds_id_of(removed, &item.uuid) {
            let title = title_after_of(renamed, item);
            let ghost before = copies@;
            copies.push((title, item.index));
            assert(copy_texts(copies@) =~= copy_texts(before).push((title@, item.index)));
        }
        i += 1;
    }
    let mut a: usize = 0;
    let ghost kept = copy_texts(copies@);
    while a < added.len()
        invariant
            a <= added@.len(),
            copy_texts(copies@) == kept + copy_texts(added@).take(a as int),
        decreases added@.len() - a,
    {
        let ghost before = copies@;
        let title = added[a].0.clone();
        copies.push((title, added[a].1));
        assert(copy_texts(added@)[a as int] == (added@[a as int].0@, added@[a as int].1));
        assert(copy_texts(added@).take(a + 1) =~= copy_texts(added@).take(a as int).push(copy_texts(added@)[a as int]));
        assert(copy_texts(copies@) =~= copy_texts(before).push((title@, added@[a as int].1)));
        assert(copy_texts(copies@) =~= kept + copy_texts(added@).take(a + 1));
        a += 1;
    }
    assert(copy_texts(added@).take(added@.len() as int) =~= copy_texts(added@));
    copies
}

/// the template of a repeat an edit adds, mirroring the to-do as the edit leaves it
fn template_for(
    task: &Task,
    e: &TaskEdit,
    copies: Vec<(String, i32)>,
    repeat: (RepeatSpec, Bound, i32, i32, Option<i32>),
    today_ts: i64,
) -> (t: EditTemplate)
    requires
        day_of_spec(today_ts as int) is Some,
        well_formed(repeat.0@),
        valid_day(repeat.2 as int),
        repeat.1 matches Bound::Until(u) ==> valid_day(u as int),
    ensures
        ({
            let r = repeat_of(Some(repeat))->0;
            let f = fields_of(*e);
            &&& is_written_rule(r.spec, r.first, day_of_spec(today_ts as int)->0 as int, r.end, t.rule)
            &&& t.first == r.first
            &&& t.next == r.next
            &&& match r.back {
                Some(b) => t.after_completion_reference == Some(b as i32),
                None => t.after_completion_reference is None,
            }
            &&& t.title@ == match f.title {
                Some(title) => title,
                None => task.title@,
            }
            &&& crate::new_task::text_view(t.notes) == match f.notes {
                Some(notes) => Some(notes),
                None => crate::new_task::text_view(task.notes),
            }
            &&& id_bytes_of(t.tag_ids@) == match f.tag_ids {
                Some(ids) => ids,
                None => id_bytes_of(task.tags@),
            }
            &&& t.project == project_after(*task, f)
            &&& t.area == area_after(*task, f)
            &&& t.action_group == heading_after(*task, f)
            &&& t.alarm_time_offset == match f.alarm_time_offset {
                Some(alarm) => alarm,
                None => task.alarm_time_offset,
            }
            &&& t.sort_index == task.index
            &&& t.today_sort_index == task.today_index
            &&& t.checklist@ == copies@
        }),
{
    let (spec, end, first, next, back) = repeat;
    let today = match day_of(today_ts) {
        Some(day) => day,
        None => 0,
    };
    let rule = spec.rule(first, today, end);
    let title = match &e.title {
        Some(t) => t.clone(),
        None => task.title.clone(),
    };
    let notes = match &e.notes {
        Some(n) => Some(n.clone()),
        None => task.notes.clone(),
    };
    let tag_ids = match &e.tag_ids {
        Some(ids) => ids.clone(),
        None => task.tags.clone(),
    };
    let (project, area, action_group) = match e.container {
        Some(EditContainer::Project(p)) => (Some(p), None, None),
        Some(EditContainer::Area(a)) => (None, Some(a), None),
        Some(EditContainer::Cleared) => (None, None, None),
        None => (task.project, task.area, task.action_group),
    };
    let alarm_time_offset = match e.alarm_time_offset {
        Some(alarm) => alarm,
        None => task.alarm_time_offset,
    };
    EditTemplate {
        rule,
        first,
        next,
        after_completion_reference: back,
        title,
        notes,
        tag_ids,
        project,
        area,
        action_group,
        alarm_time_offset,
        sort_index: task.index,
        today_sort_index: task.today_index,
        checklist: copies,
    }
}

/// what an edit of one to-do comes to, computed
enum OneEdit {
    Done(TaskEdit),
    Refused(String),
    Unplannable,
}

/// what an edit does to one to-do
fn edit_one(
    args: &EditArgs,
    setup: &Setup,
    task: &Task,
    labels: &mut Vec<String>,
    completed: &Option<Result<(i64, u32), String>>,
    created: &Option<Result<(i64, u32), String>>,
    today_ts: i64,
) -> (res: OneEdit)
    requires
        completed is Some == args.completed_on is Some,
        created is Some == args.created_on is Some,
        day_of_spec(today_ts as int) is Some,
    ensures
        match task_edit(
            *args,
            setup_view(*setup),
            setup.lowered@,
            *task,
            texts(old(labels)@),
            read_view(*completed),
            read_view(*created),
            today_ts,
        ) {
            EditStep::Done(f, c, r, l) => res matches OneEdit::Done(e) && edit_matches(e, *task, (f, c, r), today_ts)
                && texts(final(labels)@) == l,
            EditStep::Refused(m) => res matches OneEdit::Refused(x) && x@ == m,
            EditStep::Unplannable => res matches OneEdit::Unplannable,
        },
{
    reveal(task_edit);
    let e = match basics_of(args, task, labels, completed, created) {
        Ok(e) => e,
        Err(message) => return OneEdit::Refused(message),
    };
    let e = tagged(setup, task, moved(setup.moving, &setup.lowered, task, e));
    let (removed, renamed, added) = match checklist_changes(args, setup, task, labels) {
        None => return OneEdit::Unplannable,
        Some(Err(message)) => return OneEdit::Refused(message),
        Some(Ok(changes)) => changes,
    };
    let (e, repeat) = match schedule_edit(args, task, e, labels, today_ts) {
        ScheduleApplied::Done(e, repeat) => (e, repeat),
        ScheduleApplied::Refused(message) => return OneEdit::Refused(message),
        ScheduleApplied::Unplannable => return OneEdit::Unplannable,
    };
    let checklist_changes = args.add_checklist.len() > 0 || args.remove_checklist.is_some() || setup.renames.len() > 0;
    let nothing = e.title.is_none() && e.notes.is_none() && e.stop_date.is_none() && e.creation_date.is_none()
        && e.container.is_none() && e.start.is_none() && e.scheduled_date.is_none() && e.today_index_reference.is_none()
        && e.evening.is_none() && e.deadline.is_none() && e.alarm_time_offset.is_none() && e.tag_ids.is_none()
        && repeat.is_none();
    proof {
        reveal(edit_schedule);
    }
    if nothing && !checklist_changes {
        return OneEdit::Refused(String::from_str("No edit changes requested."));
    }
    let mut e = e;
    let template = match repeat {
        Some(r) => {
            let copies = copies_of(task, &removed, &renamed, &added);
            Some(template_for(task, &e, copies, r, today_ts))
        },
        None => None,
    };
    e.removed_items = removed;
    e.renamed_items = renamed;
    e.added_items = added;
    e.template = template;
    OneEdit::Done(e)
}

/// an edit that was refused or could not be planned stays so as the to-dos go on
proof fn lemma_steps_stay(
    args: EditArgs,
    setup: SetupView,
    lowered: Seq<char>,
    completed: Option<Result<(i64, u32), Seq<char>>>,
    created: Option<Result<(i64, u32), Seq<char>>>,
    today_ts: i64,
    n: int,
    m: int,
)
    requires
        0 <= n <= m,
        !(edit_steps(args, setup, lowered, completed, created, today_ts, n) is Planned),
    ensures
        edit_steps(args, setup, lowered, completed, created, today_ts, m) == edit_steps(
            args,
            setup,
            lowered,
            completed,
            created,
            today_ts,
            n,
        ),
    decreases m - n,
{
    if n < m {
        lemma_steps_stay(args, setup, lowered, completed, created, today_ts, n, m - 1);
    }
}

/// what an edit comes to, computed: None where a day would fall beyond the calendar, an index past the largest, or a repeat interval cannot be split
fn plan_edit<'a>(
    args: &EditArgs,
    store: &'a ThingsStore,
    completed: &Option<Result<(i64, u32), String>>,
    created: &Option<Result<(i64, u32), String>>,
    now: Instant,
    today_ts: i64,
) -> (res: Option<Result<EditPlan<'a>, String>>)
    requires
        completed is Some == args.completed_on is Some,
        created is Some == args.created_on is Some,
        day_of_spec(today_ts as int) is Some,
    ensures
        res matches Some(plan) ==> stamped_at(plan, now),
        match res {
            None => edit_outcome(*store, *args, read_view(*completed), read_view(*created), today_ts) is Unplannable,
            Some(plan) => edit_plan_matches(
                edit_outcome(*store, *args, read_view(*completed), read_view(*created), today_ts),
                plan,
                today_ts,
            ),
        },
{
    let setup = match setup_of(store, args) {
        Ok(setup) => setup,
        Err(message) => return Some(Err(message)),
    };
    let ghost view = setup_view(setup);
    let ghost lowered = setup.lowered@;
    let ghost done = read_view(*completed);
    let ghost made = read_view(*created);
    let mut labels = setup.labels.clone();
    assert(labels@ == setup.labels@);
    let mut edits: Vec<TaskEdit> = Vec::new();
    let ghost mut steps: Seq<(FieldsView, ChecklistView, Option<RepeatView>)> = seq![];
    let mut i: usize = 0;
    while i < setup.tasks.len()
        invariant
            i <= setup.tasks@.len(),
            edit_setup(*store, *args) == Ok::<SetupView, Seq<char>>(view),
            view == setup_view(setup),
            lowered == setup.lowered@,
            lowered == lowercased(move_text(*args)),
            done == read_view(*completed),
            made == read_view(*created),
            completed is Some == args.completed_on is Some,
            created is Some == args.created_on is Some,
            day_of_spec(today_ts as int) is Some,
            edit_steps(*args, view, lowered, done, made, today_ts, i as int) == EditOutcome::Planned(
                view.tasks,
                steps,
                texts(labels@),
            ),
            steps.len() == i,
            edits@.len() == i,
            forall|j: int| 0 <= j < i ==> edit_matches(#[trigger] edits@[j], view.tasks[j], steps[j], today_ts),
        decreases setup.tasks@.len() - i,
    {
        let task = setup.tasks[i];
        assert(view.tasks[i as int] == *task);
        let ghost before_labels = texts(labels@);
        match edit_one(args, &setup, task, &mut labels, completed, created, today_ts) {
            OneEdit::Done(e) => {
                let ghost step = match task_edit(*args, view, lowered, *task, before_labels, done, made, today_ts) {
                    EditStep::Done(f, c, r, _) => (f, c, r),
                    _ => steps[0],
                };
                edits.push(e);
                proof {
                    steps = steps.push(step);
                }
            },
            OneEdit::Refused(message) => {
                proof {
                    assert(edit_steps(*args, view, lowered, done, made, today_ts, i + 1) == EditOutcome::Refused(message@));
                    lemma_steps_stay(*args, view, lowered, done, made, today_ts, i + 1, view.tasks.len() as int);
                    assert(edit_outcome(*store, *args, done, made, today_ts) == edit_steps(*args, view, lowered, done, made, today_ts, view.tasks.len() as int));
                }
                return Some(Err(message));
            },
            OneEdit::Unplannable => {
                proof {
                    assert(edit_steps(*args, view, lowered, done, made, today_ts, i + 1) == EditOutcome::Unplannable);
                    lemma_steps_stay(*args, view, lowered, done, made, today_ts, i + 1, view.tasks.len() as int);
                    assert(edit_outcome(*store, *args, done, made, today_ts) == edit_steps(*args, view, lowered, done, made, today_ts, view.tasks.len() as int));
                }
                return None;
            },
        }
        i += 1;
    }
    Some(Ok(EditPlan { tasks: setup.tasks, edits, labels, entity: EntityType::Task7, modification_date: now }))
}

/// what reading an instant flag gives: nothing without the flag, otherwise what `parse_instant` may give for its text
pub open spec fn flag_read(flag: Option<String>, label: Seq<char>, read: Option<Result<(i64, u32), Seq<char>>>) -> bool {
    match flag {
        None => read is None,
        Some(text) => read matches Some(r) && instant_read(text@, label, r),
    }
}

/// an instant flag read, None without it
fn read_flag(flag: &Option<String>, label: &str) -> (read: Option<Result<(i64, u32), String>>)
    ensures
        flag_read(*flag, label@, read_view(read)),
{
    match flag {
        Some(text) => Some(parse_instant(text.as_str(), label)),
        None => None,
    }
}

/// the plan of an edit: the to-dos it names, what it writes to each and the labels, or the message refusing it, with the instants `--completed-on` and `--created-on` name read beforehand
///
/// `today_ts` is the timestamp of today's UTC midnight; a day today or before starts in Anytime, a later one in Someday
pub fn edit_plan_with<'a>(
    args: &EditArgs,
    store: &'a ThingsStore,
    now: Instant,
    today_ts: i64,
    completed: &Option<Result<(i64, u32), String>>,
    created: &Option<Result<(i64, u32), String>>,
) -> (plan: Result<EditPlan<'a>, String>)
    requires
        completed is Some == args.completed_on is Some,
        created is Some == args.created_on is Some,
        day_of_spec(today_ts as int) is Some,
        !(edit_outcome(*store, *args, read_view(*completed), read_view(*created), today_ts) is Unplannable),
    ensures
        edit_plan_matches(edit_outcome(*store, *args, read_view(*completed), read_view(*created), today_ts), plan, today_ts),
        stamped_at(plan, now),
{
    match plan_edit(args, store, completed, created, now, today_ts) {
        Some(plan) => plan,
        None => Err(String::new()),
    }
}

/// the plan of an edit, reading the instants its flags name in the machine's time zone; None where a day would fall beyond the calendar, a checklist index past the largest, or a repeat interval cannot be split before its unit
pub fn edit_plan<'a>(args: &EditArgs, store: &'a ThingsStore, now: Instant, today_ts: i64) -> (plan: Option<
    Result<EditPlan<'a>, String>,
>)
    requires
        day_of_spec(today_ts as int) is Some,
    ensures
        plan matches Some(p) ==> stamped_at(p, now),
        exists|done: Option<Result<(i64, u32), Seq<char>>>, made: Option<Result<(i64, u32), Seq<char>>>|
            flag_read(args.completed_on, "--completed-on"@, done) && flag_read(args.created_on, "--created-on"@, made)
                && match plan {
                None => edit_outcome(*store, *args, done, made, today_ts) is Unplannable,
                Some(p) => edit_plan_matches(edit_outcome(*store, *args, done, made, today_ts), p, today_ts),
            },
{
    let completed = read_flag(&args.completed_on, "--completed-on");
    let created = read_flag(&args.created_on, "--created-on");
    let plan = match plan_edit(args, store, &completed, &created, now, today_ts) {
        None => None,
        Some(_) => Some(edit_plan_with(args, store, now, today_ts, &completed, &created)),
    };
    proof {
        let done = read_view(completed);
        let made = read_view(created);
        assert(flag_read(args.completed_on, "--completed-on"@, done) && flag_read(args.created_on, "--created-on"@, made));
    }
    plan
}

/// a sequence with one more at its end holds what it held and the one added
proof fn lemma_push_holds(s: Seq<Seq<u8>>, y: Seq<u8>, x: Seq<u8>)
    ensures
        s.push(y).contains(x) <==> (s.contains(x) || y == x),
{
    if s.contains(x) {
        let k = choose|k: int| 0 <= k < s.len() && (#[trigger] s[k]) == x;
        assert(s.push(y)[k] == x);
    }
    if y == x {
        assert(s.push(y)[s.len() as int] == x);
    }
    if s.push(y).contains(x) {
        let k = choose|k: int| 0 <= k < s.push(y).len() && (#[trigger] s.push(y)[k]) == x;
        if k < s.len() {
            assert(s[k] == x);
        }
    }
}

/// the tags after the additions: those there were, then each added one not there yet
proof fn lemma_with_added_holds(current: Seq<Seq<u8>>, ids: Seq<Seq<u8>>, n: int, x: Seq<u8>)
    requires
        0 <= n <= ids.len(),
    ensures
        with_added(current, ids, n).contains(x) <==> (current.contains(x) || ids.take(n).contains(x)),
    decreases n,
{
    if n == 0 {
        assert(ids.take(0) =~= Seq::<Seq<u8>>::empty());
    } else {
        lemma_with_added_holds(current, ids, n - 1, x);
        let before = with_added(current, ids, n - 1);
        assert(ids.take(n) =~= ids.take(n - 1).push(ids[n - 1]));
        lemma_push_holds(ids.take(n - 1), ids[n - 1], x);
        lemma_push_holds(before, ids[n - 1], x);
        if before.contains(ids[n - 1]) && ids[n - 1] == x {
            assert(before.contains(x));
        }
    }
}

/// the tags after the removals: those among the first `n` not removed
proof fn lemma_without_ids_holds(current: Seq<Seq<u8>>, ids: Seq<Seq<u8>>, n: int, x: Seq<u8>)
    requires
        0 <= n <= current.len(),
    ensures
        without_ids(current, ids, n).contains(x) <==> (current.take(n).contains(x) && !ids.contains(x)),
    decreases n,
{
    if n == 0 {
        assert(current.take(0) =~= Seq::<Seq<u8>>::empty());
    } else {
        lemma_without_ids_holds(current, ids, n - 1, x);
        let before = without_ids(current, ids, n - 1);
        assert(current.take(n) =~= current.take(n - 1).push(current[n - 1]));
        lemma_push_holds(current.take(n - 1), current[n - 1], x);
        lemma_push_holds(before, current[n - 1], x);
    }
}

/// the additions come after the tags there were
proof fn lemma_with_added_extends(current: Seq<Seq<u8>>, ids: Seq<Seq<u8>>, n: int)
    requires
        0 <= n <= ids.len(),
    ensures
        with_added(current, ids, n).len() >= current.len(),
        with_added(current, ids, n).take(current.len() as int) == current,
    decreases n,
{
    if n > 0 {
        lemma_with_added_extends(current, ids, n - 1);
        let before = with_added(current, ids, n - 1);
        assert(before.push(ids[n - 1]).take(current.len() as int) =~= before.take(current.len() as int));
    }
}

/// the removals keep the first `n` tags not removed, in their order, and what follows only adds
proof fn lemma_without_ids_filters(current: Seq<Seq<u8>>, ids: Seq<Seq<u8>>, k: int, n: int)
    requires
        0 <= k <= n <= current.len(),
    ensures
        without_ids(current, ids, k) == current.take(k).filter(|x: Seq<u8>| !ids.contains(x)),
        without_ids(current, ids, n).len() >= without_ids(current, ids, k).len(),
        without_ids(current, ids, n).take(without_ids(current, ids, k).len() as int) == without_ids(current, ids, k),
    decreases n,
{
    if n > k {
        lemma_without_ids_filters(current, ids, k, n - 1);
        let before = without_ids(current, ids, n - 1);
        let part = without_ids(current, ids, k);
        assert(before.push(current[n - 1]).take(part.len() as int) =~= before.take(part.len() as int));
    } else if k > 0 {
        lemma_without_ids_filters(current, ids, k - 1, k - 1);
        reveal_with_fuel(Seq::<_>::filter, 1);
        assert(current.take(k).drop_last() =~= current.take(k - 1));
        assert(current.take(k).last() == current[k - 1]);
        assert(without_ids(current, ids, k).take(without_ids(current, ids, k).len() as int) =~= without_ids(current, ids, k));
    } else {
        assert(current.take(0) =~= Seq::<Seq<u8>>::empty());
        assert(without_ids(current, ids, 0).take(0) =~= Seq::<Seq<u8>>::empty());
    }
}

/// An edit of a to-do's tags keeps the tags it does not remove first, in the order the to-do
/// had them; what it adds comes after.
pub proof fn lemma_tag_edit_keeps_order(setup: SetupView, task: Task, v: FieldsView)
    requires
        setup.add_ids.len() > 0 || setup.remove_ids.len() > 0,
    ensures
        ({
            let kept = id_bytes_of(task.tags@).filter(|x: Seq<u8>| !setup.remove_ids.contains(x));
            let written = edit_tagged(setup, task, v).tag_ids->0;
            written.len() >= kept.len() && written.take(kept.len() as int) == kept
        }),
{
    let current = id_bytes_of(task.tags@);
    let added = with_added(current, setup.add_ids, setup.add_ids.len() as int);
    lemma_with_added_extends(current, setup.add_ids, setup.add_ids.len() as int);
    lemma_without_ids_filters(added, setup.remove_ids, current.len() as int, added.len() as int);
    assert(added.take(current.len() as int) == current);
}

/// An edit of a to-do's tags keeps what it does not remove: where `--add-tags` or `--remove-tags`
/// is given, the tags written are exactly the to-do's tags and the added ones, less the removed
/// ones, so a tag the to-do had and that is not removed stays, every added tag not also removed
/// is there, and no removed tag is.
pub proof fn lemma_tag_edit_keeps_the_rest(setup: SetupView, task: Task, v: FieldsView)
    requires
        setup.add_ids.len() > 0 || setup.remove_ids.len() > 0,
    ensures
        edit_tagged(setup, task, v).tag_ids is Some,
        forall|x: Seq<u8>|
            #[trigger] edit_tagged(setup, task, v).tag_ids->0.contains(x) <==> ((id_bytes_of(task.tags@).contains(x)
                || setup.add_ids.contains(x)) && !setup.remove_ids.contains(x)),
{
    let current = id_bytes_of(task.tags@);
    let added = with_added(current, setup.add_ids, setup.add_ids.len() as int);
    assert(setup.add_ids.take(setup.add_ids.len() as int) =~= setup.add_ids);
    assert(added.take(added.len() as int) =~= added);
    assert forall|x: Seq<u8>| #[trigger] edit_tagged(setup, task, v).tag_ids->0.contains(x) <==> ((current.contains(x)
        || setup.add_ids.contains(x)) && !setup.remove_ids.contains(x)) by {
        lemma_with_added_holds(current, setup.add_ids, setup.add_ids.len() as int, x);
        lemma_without_ids_holds(added, setup.remove_ids, added.len() as int, x);
    }
}

} // verus!
