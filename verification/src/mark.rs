//! what a mark may change: the checklist items a list of prefixes names, and the to-dos and projects whose status may change

use crate::common::{
    chars_of, decimal, decimal_text, signed_decimal, signed_decimal_text, string_of, trim_chars,
    trim_spec,
};
use crate::ids::things_id::{base58_spec, ThingsId};
use crate::common::{one_line, sanitize, Shown};
use crate::store::entities::{is_project_spec, is_template_spec, ChecklistItem, Instant, Task};
use crate::store::{
    effective_project, held, holds_id, in_trash_spec, lemma_distinct_task_positions,
    lemma_listed_in_order, lemma_lists_in_order_exists, lemma_lists_in_order_unique, lemma_position_key,
    listed, lists_in_order, mark_lookup, pick,
    task_before, task_position, task_with, ThingsStore,
};
use crate::wire::{EntityType, TaskType};
use crate::text::{split, split_spec};
use crate::wire::{RecurrenceType, TaskStatus};
use vstd::prelude::*;
use vstd::string::StringSliceAdditionalSpecFns;

verus! {

/// the status a mark sets
#[derive(Debug, Clone, Copy, PartialEq, Eq, Structural)]
pub enum MarkAction {
    Completed,
    Incomplete,
    Canceled,
}

/// the tokens of a comma-separated list: each piece trimmed, the empty ones left out
pub open spec fn tokens_of(raw: Seq<char>) -> Seq<Seq<char>> {
    split_spec(raw, ',').map_values(|piece: Seq<char>| trim_spec(piece)).filter(
        |token: Seq<char>| token.len() > 0,
    )
}

/// the checklist items whose id text starts with a token
pub open spec fn items_matching(items: Seq<ChecklistItem>, token: Seq<char>) -> Seq<ChecklistItem> {
    items.filter(
        |item: ChecklistItem| vstd::utf8::encode_utf8(token).is_prefix_of(base58_spec(item.uuid@)),
    )
}

/// an item with the id of `item` is already in the list
pub open spec fn holds_item(list: Seq<ChecklistItem>, item: ChecklistItem) -> bool {
    exists|k: int| 0 <= k < list.len() && #[trigger] list[k].uuid@ == item.uuid@
}

/// the items the first `n` tokens name, each once, or the message for the first token that names none or several
pub open spec fn checklist_resolution(items: Seq<ChecklistItem>, tokens: Seq<Seq<char>>, n: int) -> Result<
    Seq<ChecklistItem>,
    Seq<char>,
>
    decreases n,
{
    if n <= 0 {
        Ok(seq![])
    } else {
        match checklist_resolution(items, tokens, n - 1) {
            Err(message) => Err(message),
            Ok(list) => {
                let token = tokens[n - 1];
                let found = items_matching(items, token);
                if found.len() == 0 {
                    Err("Checklist item not found: '"@ + token + "'"@)
                } else if found.len() > 1 {
                    Err("Ambiguous checklist item prefix: '"@ + token + "'"@)
                } else if holds_item(list, found[0]) {
                    Ok(list)
                } else {
                    Ok(list.push(found[0]))
                }
            },
        }
    }
}

/// a resolution that failed stays failed with its message as more tokens come
proof fn lemma_resolution_stays_failed(
    items: Seq<ChecklistItem>,
    tokens: Seq<Seq<char>>,
    n: int,
    m: int,
    message: Seq<char>,
)
    requires
        0 <= n <= m,
        checklist_resolution(items, tokens, n) == Err::<Seq<ChecklistItem>, Seq<char>>(message),
    ensures
        checklist_resolution(items, tokens, m) == Err::<Seq<ChecklistItem>, Seq<char>>(message),
    decreases m - n,
{
    if n < m {
        lemma_resolution_stays_failed(items, tokens, n, m - 1, message);
    }
}

/// the message of a failed resolution is never empty
pub(crate) proof fn lemma_resolution_message(items: Seq<ChecklistItem>, tokens: Seq<Seq<char>>, n: int)
    ensures
        checklist_resolution(items, tokens, n) matches Err(message) ==> message.len() > 0,
    decreases n,
{
    reveal_strlit("'");
    if n > 0 {
        lemma_resolution_message(items, tokens, n - 1);
    }
}

/// the items of a list of references
pub open spec fn items_held(list: Seq<&ChecklistItem>) -> Seq<ChecklistItem> {
    list.map_values(|item: &ChecklistItem| *item)
}

/// the non-empty trimmed pieces of a comma-separated list
pub(crate) fn tokens(raw: &str) -> (found: Vec<Vec<char>>)
    ensures
        found@.map_values(|t: Vec<char>| t@) == tokens_of(raw@),
{
    let chars = chars_of(raw);
    let pieces = split(&chars, ',');
    let ghost trimmed_pieces = split_spec(raw@, ',').map_values(|piece: Seq<char>| trim_spec(piece));
    let mut found: Vec<Vec<char>> = Vec::new();
    let mut i: usize = 0;
    while i < pieces.len()
        invariant
            i <= pieces@.len(),
            pieces@.map_values(|p: Vec<char>| p@) == split_spec(raw@, ','),
            trimmed_pieces == split_spec(raw@, ',').map_values(|piece: Seq<char>| trim_spec(piece)),
            found@.map_values(|t: Vec<char>| t@) == trimmed_pieces.take(i as int).filter(
                |token: Seq<char>| token.len() > 0,
            ),
        decreases pieces@.len() - i,
    {
        let token = trim_chars(&pieces[i]);
        proof {
            assert(pieces@.map_values(|p: Vec<char>| p@)[i as int] == pieces@[i as int]@);
            assert(trimmed_pieces[i as int] == token@);
            reveal_with_fuel(Seq::<_>::filter, 1);
            assert(trimmed_pieces.take(i + 1).drop_last() =~= trimmed_pieces.take(i as int));
        }
        let keep = token.len() > 0;
        let ghost before = found@;
        if keep {
            found.push(token);
            assert(found@.map_values(|t: Vec<char>| t@) =~= before.map_values(|t: Vec<char>| t@).push(
                trimmed_pieces[i as int],
            ));
        }
        i += 1;
    }
    assert(trimmed_pieces.take(pieces@.len() as int) =~= trimmed_pieces);
    found
}

/// the checklist items of a to-do whose id text starts with a token
pub(crate) fn matching_items<'a>(items: &'a Vec<ChecklistItem>, token: &Vec<char>) -> (found: Vec<&'a ChecklistItem>)
    ensures
        items_held(found@) == items_matching(items@, token@),
{
    let text = string_of(token);
    let prefix = text.as_str();
    let mut found: Vec<&'a ChecklistItem> = Vec::new();
    let mut i: usize = 0;
    while i < items.len()
        invariant
            i <= items@.len(),
            prefix.spec_bytes() == vstd::utf8::encode_utf8(token@),
            items_held(found@) == items_matching(items@.take(i as int), token@),
        decreases items@.len() - i,
    {
        let hit = items[i].uuid.starts_with(prefix);
        proof {
            reveal_with_fuel(Seq::<_>::filter, 1);
            assert(items@.take(i + 1).drop_last() =~= items@.take(i as int));
            assert(items@.take(i + 1).last() == items@[i as int]);
        }
        let ghost before = found@;
        if hit {
            found.push(&items[i]);
            assert(items_held(found@) =~= items_held(before).push(items@[i as int]));
        }
        i += 1;
    }
    assert(items@.take(items@.len() as int) =~= items@);
    found
}

/// an item with the id of `item` is already in the list
fn holds_item_exec(list: &Vec<&ChecklistItem>, item: &ChecklistItem) -> (found: bool)
    ensures
        found == holds_item(items_held(list@), *item),
{
    let mut k: usize = 0;
    while k < list.len()
        invariant
            k <= list@.len(),
            forall|m: int| 0 <= m < k ==> items_held(list@)[m].uuid@ != item.uuid@,
        decreases list@.len() - k,
    {
        if list[k].uuid == item.uuid {
            assert(items_held(list@)[k as int].uuid@ == item.uuid@);
            return true;
        }
        k += 1;
    }
    false
}

/// a message framing a token in quotes
pub(crate) fn quoted(prefix: &str, token: &Vec<char>) -> (message: String)
    ensures
        message@ == prefix@ + token@ + "'"@,
{
    let mut message = String::from_str(prefix);
    let text = string_of(token);
    message.append(text.as_str());
    message.append("'");
    message
}

/// the checklist items of a to-do a comma-separated list of id prefixes names, each once, or the message for the first prefix that names none or several
pub fn resolve_checklist_items<'a>(task: &'a Task, raw_ids: &str) -> (res: (Vec<&'a ChecklistItem>, String))
    ensures
        tokens_of(raw_ids@).len() == 0 ==> res.0@.len() == 0 && res.1@
            == "No checklist item IDs provided."@,
        tokens_of(raw_ids@).len() > 0 ==> match checklist_resolution(
            task.checklist_items@,
            tokens_of(raw_ids@),
            tokens_of(raw_ids@).len() as int,
        ) {
            Ok(list) => items_held(res.0@) == list && res.1@.len() == 0,
            Err(message) => res.0@.len() == 0 && res.1@ == message,
        },
{
    let tokens = tokens(raw_ids);
    let ghost all = tokens_of(raw_ids@);
    if tokens.len() == 0 {
        return (Vec::new(), String::from_str("No checklist item IDs provided."));
    }
    let mut resolved: Vec<&'a ChecklistItem> = Vec::new();
    assert(items_held(resolved@) =~= Seq::<ChecklistItem>::empty());
    let mut t: usize = 0;
    while t < tokens.len()
        invariant
            t <= tokens@.len(),
            tokens@.map_values(|x: Vec<char>| x@) == all,
            all == tokens_of(raw_ids@),
            checklist_resolution(task.checklist_items@, all, t as int) == Ok::<
                Seq<ChecklistItem>,
                Seq<char>,
            >(items_held(resolved@)),
        decreases tokens@.len() - t,
    {
        let token = &tokens[t];
        assert(all[t as int] == token@);
        let found = matching_items(&task.checklist_items, token);
        if found.len() == 0 {
            let message = quoted("Checklist item not found: '", token);
            proof {
                lemma_resolution_stays_failed(task.checklist_items@, all, t + 1, all.len() as int, message@);
            }
            return (Vec::new(), message);
        }
        if found.len() > 1 {
            let message = quoted("Ambiguous checklist item prefix: '", token);
            proof {
                lemma_resolution_stays_failed(task.checklist_items@, all, t + 1, all.len() as int, message@);
            }
            return (Vec::new(), message);
        }
        let item = found[0];
        assert(items_held(found@)[0] == *item);
        if !holds_item_exec(&resolved, item) {
            let ghost before = resolved@;
            resolved.push(item);
            assert(items_held(resolved@) =~= items_held(before).push(*item));
        }
        t += 1;
    }
    (resolved, String::new())
}

/// why a repeat's instance may not change status, None when its template repeats on a fixed schedule
pub open spec fn recurring_instance_refusal(tasks: Seq<Task>, task: Task) -> Option<Seq<char>> {
    if task.recurrence_templates@.len() != 1 {
        Some(
            "This repeating item names "@ + decimal(task.recurrence_templates@.len())
                + " templates where one is expected."@,
        )
    } else {
        match task_with(tasks, task.recurrence_templates@[0]) {
            None => Some("The template of this repeating item did not replay completely."@),
            Some(template) => match template.recurrence_rule {
                None => Some("The template of this repeating item has no repeat rule."@),
                Some(rule) => match rule.recurrence_type {
                    RecurrenceType::FixedSchedule => None,
                    RecurrenceType::AfterCompletion => Some(
                        "Only an Apple client completes or cancels an item that repeats after completion."@,
                    ),
                    RecurrenceType::Unknown(v) => Some(
                        "The template has a repeat type the CLI does not know: rr.tp="@
                            + signed_decimal(v as int) + "."@,
                    ),
                },
            },
        }
    }
}

/// why a task may not take the status a mark sets, None when it may
pub open spec fn mark_refusal(tasks: Seq<Task>, task: Task, action: MarkAction) -> Option<Seq<char>> {
    if task.repeater is Some {
        Some(
            "Cannot change the status of an item with a repeater, whose bookkeeping the Apple clients keep."@,
        )
    } else if is_template_spec(task) {
        Some("A repeat template takes no status, mark one of its instances instead."@)
    } else if task.status is Unknown {
        Some("Item is of an unknown status."@)
    } else if action == MarkAction::Completed && task.status == TaskStatus::Completed {
        Some("Item is already completed."@)
    } else if action == MarkAction::Incomplete && task.status == TaskStatus::Incomplete {
        Some("Item is already incomplete."@)
    } else if action == MarkAction::Canceled && task.status == TaskStatus::Canceled {
        Some("Item is already canceled."@)
    } else if task.recurrence_rule is None && task.recurrence_templates@.len() > 0 {
        recurring_instance_refusal(tasks, task)
    } else {
        None
    }
}

/// a status change of a repeat's instance
///
/// the app follows it with template bookkeeping for after completion rules
pub fn validate_recurring_instance(task: &Task, store: &ThingsStore) -> (res: (bool, String))
    ensures
        match recurring_instance_refusal(store.tasks@, *task) {
            None => res.0 && res.1@.len() == 0,
            Some(reason) => !res.0 && res.1@ == reason && reason.len() > 0,
        },
{
    proof {
        reveal_strlit("This repeating item names ");
        reveal_strlit("The template of this repeating item did not replay completely.");
        reveal_strlit("The template of this repeating item has no repeat rule.");
        reveal_strlit("Only an Apple client completes or cancels an item that repeats after completion.");
        reveal_strlit("The template has a repeat type the CLI does not know: rr.tp=");
        reveal_strlit("Cannot change the status of an item with a repeater, whose bookkeeping the Apple clients keep.");
        reveal_strlit("A repeat template takes no status, mark one of its instances instead.");
        reveal_strlit("Item is of an unknown status.");
        reveal_strlit("Item is already completed.");
        reveal_strlit("Item is already incomplete.");
        reveal_strlit("Item is already canceled.");
    }
    if task.recurrence_templates.len() != 1 {
        let mut message = String::from_str("This repeating item names ");
        let count = decimal_text(task.recurrence_templates.len() as u64);
        message.append(count.as_str());
        message.append(" templates where one is expected.");
        return (false, message);
    }
    // the store keeps a template id while the state holds the template
    // one that did not replay completely is no task
    let template = match store.task(&task.recurrence_templates[0]) {
        Some(template) => template,
        None => {
            return (false, String::from_str("The template of this repeating item did not replay completely."));
        },
    };
    let rule = match &template.recurrence_rule {
        Some(rule) => rule,
        None => {
            return (false, String::from_str("The template of this repeating item has no repeat rule."));
        },
    };
    match rule.recurrence_type {
        RecurrenceType::FixedSchedule => (true, String::new()),
        RecurrenceType::AfterCompletion => (
            false,
            String::from_str(
                "Only an Apple client completes or cancels an item that repeats after completion.",
            ),
        ),
        RecurrenceType::Unknown(v) => {
            let mut message = String::from_str("The template has a repeat type the CLI does not know: rr.tp=");
            let code = signed_decimal_text(v);
            message.append(code.as_str());
            message.append(".");
            (false, message)
        },
    }
}

/// why a task may not take the status a mark sets, empty when it may
pub fn validate_mark_target(task: &Task, action: MarkAction, store: &ThingsStore) -> (reason: String)
    ensures
        match mark_refusal(store.tasks@, *task, action) {
            None => reason@.len() == 0,
            Some(refusal) => reason@ == refusal && refusal.len() > 0,
        },
{
    proof {
        reveal_strlit("This repeating item names ");
        reveal_strlit("The template of this repeating item did not replay completely.");
        reveal_strlit("The template of this repeating item has no repeat rule.");
        reveal_strlit("Only an Apple client completes or cancels an item that repeats after completion.");
        reveal_strlit("The template has a repeat type the CLI does not know: rr.tp=");
        reveal_strlit("Cannot change the status of an item with a repeater, whose bookkeeping the Apple clients keep.");
        reveal_strlit("A repeat template takes no status, mark one of its instances instead.");
        reveal_strlit("Item is of an unknown status.");
        reveal_strlit("Item is already completed.");
        reveal_strlit("Item is already incomplete.");
        reveal_strlit("Item is already canceled.");
    }
    if task.has_repeater() {
        return String::from_str(
            "Cannot change the status of an item with a repeater, whose bookkeeping the Apple clients keep.",
        );
    }
    if task.is_recurrence_template() {
        return String::from_str("A repeat template takes no status, mark one of its instances instead.");
    }
    if let TaskStatus::Unknown(_) = task.status {
        return String::from_str("Item is of an unknown status.");
    }
    if action == MarkAction::Completed && task.status == TaskStatus::Completed {
        return String::from_str("Item is already completed.");
    }
    if action == MarkAction::Incomplete && task.status == TaskStatus::Incomplete {
        return String::from_str("Item is already incomplete.");
    }
    if action == MarkAction::Canceled && task.status == TaskStatus::Canceled {
        return String::from_str("Item is already canceled.");
    }
    if task.is_recurrence_instance() {
        let (ok, reason) = validate_recurring_instance(task, store);
        if !ok {
            return reason;
        }
    }
    String::new()
}

/// a status a mark writes to a to-do, project or checklist item: its id, the entity it is written
/// as, the status, the moment it closed (None where it opens again) and the moment of the write
#[derive(Debug, Clone, Copy, PartialEq)]
pub struct StatusUpdate {
    pub uuid: ThingsId,
    pub entity: EntityType,
    pub status: TaskStatus,
    pub stop_date: Option<Instant>,
    pub modification_date: Instant,
}

/// the status an action sets
pub open spec fn action_status(action: MarkAction) -> TaskStatus {
    match action {
        MarkAction::Completed => TaskStatus::Completed,
        MarkAction::Incomplete => TaskStatus::Incomplete,
        MarkAction::Canceled => TaskStatus::Canceled,
    }
}

/// the update an action writes to an item
pub open spec fn update_of(uuid: ThingsId, action: MarkAction, now: Instant, entity: EntityType) -> StatusUpdate {
    StatusUpdate {
        uuid,
        entity,
        status: action_status(action),
        stop_date: if action != MarkAction::Incomplete {
            Some(now)
        } else {
            None
        },
        modification_date: now,
    }
}

/// the items the first `n` identifiers name, each once in the order first named, their ids, and the messages of the identifiers that name none
pub open spec fn mark_targets(
    tasks: Seq<Task>,
    markable: Seq<ThingsId>,
    sorted: Seq<ThingsId>,
    identifiers: Seq<&str>,
    n: int,
) -> (Seq<Task>, Seq<ThingsId>, Seq<Seq<char>>)
    decreases n,
{
    if n <= 0 {
        (seq![], seq![], seq![])
    } else {
        let (targets, seen, errors) = mark_targets(tasks, markable, sorted, identifiers, n - 1);
        let (found, message) = mark_lookup(tasks, markable, sorted, identifiers[n - 1]@);
        match found {
            None => (targets, seen, errors.push(message)),
            Some(task) => if holds_id(seen, task.uuid) {
                (targets, seen, errors)
            } else {
                (targets.push(task), seen.push(task.uuid), errors)
            },
        }
    }
}

/// an open to-do a closing project takes along: outside the Trash, no template, not named before
pub open spec fn open_child(tasks: Seq<Task>, project: Task, seen: Seq<ThingsId>, task: Task) -> bool {
    &&& task.item_type == TaskType::Todo
    &&& !in_trash_spec(tasks, task)
    &&& task.status == TaskStatus::Incomplete
    &&& !is_template_spec(task)
    &&& !holds_id(seen, task.uuid)
    &&& effective_project(tasks, task) matches Some(p) && p@ == project.uuid@
}

/// `list` holds the open to-dos a closing project takes along, in the order of the lists
pub open spec fn lists_children(tasks: Seq<Task>, project: Task, seen: Seq<ThingsId>, list: Seq<Task>) -> bool {
    lists_in_order(list, tasks, |t: Task| open_child(tasks, project, seen, t), |t: Task| task_position(t))
}

/// the open to-dos a closing project takes along, in the order of the lists
pub open spec fn open_children(tasks: Seq<Task>, project: Task, seen: Seq<ThingsId>) -> Seq<Task> {
    choose|list: Seq<Task>| #[trigger] lists_children(tasks, project, seen, list)
}

/// where a plan stands: the ids named so far, the updates, the items they change and the messages
pub type PlanState = (Seq<ThingsId>, Seq<StatusUpdate>, Seq<Task>, Seq<Seq<char>>);

/// the plan after one open to-do of a closing project
pub open spec fn child_step(tasks: Seq<Task>, project: Task, action: MarkAction, now: Instant, child: Task, state: PlanState) -> PlanState {
    let (seen, updates, changed, errors) = state;
    match mark_refusal(tasks, child, action) {
        Some(reason) => (
            seen,
            updates,
            changed,
            errors.push(
                reason + " ("@ + sanitize(child.title@, Shown::Field) + ", in "@ + sanitize(
                    project.title@,
                    Shown::Field,
                ) + ")"@,
            ),
        ),
        None => (
            seen.push(child.uuid),
            updates.push(update_of(child.uuid, action, now, EntityType::Task7)),
            changed.push(child),
            errors,
        ),
    }
}

/// the plan after the first `j` open to-dos of a closing project
pub open spec fn child_steps(
    tasks: Seq<Task>,
    project: Task,
    action: MarkAction,
    now: Instant,
    children: Seq<Task>,
    j: int,
    start: PlanState,
) -> PlanState
    decreases j,
{
    if j <= 0 {
        start
    } else {
        child_step(tasks, project, action, now, children[j - 1], child_steps(tasks, project, action, now, children, j - 1, start))
    }
}

/// the plan after one target
pub open spec fn target_step(tasks: Seq<Task>, task: Task, action: MarkAction, now: Instant, state: PlanState) -> PlanState {
    match mark_refusal(tasks, task, action) {
        Some(reason) => (
            state.0,
            state.1,
            state.2,
            state.3.push(reason + " ("@ + sanitize(task.title@, Shown::Field) + ")"@),
        ),
        None => {
            let after = if is_project_spec(task) && action != MarkAction::Incomplete {
                let children = open_children(tasks, task, state.0);
                child_steps(tasks, task, action, now, children, children.len() as int, state)
            } else {
                state
            };
            (after.0, after.1.push(update_of(task.uuid, action, now, EntityType::Task7)), after.2.push(task), after.3)
        },
    }
}

/// the plan after the first `k` targets
pub open spec fn plan_steps(
    tasks: Seq<Task>,
    targets: Seq<Task>,
    action: MarkAction,
    now: Instant,
    k: int,
    start: PlanState,
) -> PlanState
    decreases k,
{
    if k <= 0 {
        start
    } else {
        target_step(tasks, targets[k - 1], action, now, plan_steps(tasks, targets, action, now, k - 1, start))
    }
}

/// the plan of a mark: every identifier resolved, then every target checked, a closing project taking its open to-dos along
pub open spec fn mark_plan(
    tasks: Seq<Task>,
    markable: Seq<ThingsId>,
    sorted: Seq<ThingsId>,
    identifiers: Seq<&str>,
    action: MarkAction,
    now: Instant,
) -> PlanState {
    let (targets, seen, errors) = mark_targets(tasks, markable, sorted, identifiers, identifiers.len() as int);
    plan_steps(tasks, targets, action, now, targets.len() as int, (seen, seq![], seq![], errors))
}

/// the texts of a list of strings
pub open spec fn texts(list: Seq<String>) -> Seq<Seq<char>> {
    list.map_values(|s: String| s@)
}

/// a message followed by a title in brackets
fn with_title(reason: &String, title: &str) -> (message: String)
    ensures
        message@ == reason@ + " ("@ + sanitize(title@, Shown::Field) + ")"@,
{
    let mut message = reason.clone();
    message.append(" (");
    let shown = one_line(title);
    message.append(shown.as_str());
    message.append(")");
    message
}

/// a message followed by a title and its project's in brackets
fn with_titles(reason: &String, title: &str, project: &str) -> (message: String)
    ensures
        message@ == reason@ + " ("@ + sanitize(title@, Shown::Field) + ", in "@ + sanitize(
            project@,
            Shown::Field,
        ) + ")"@,
{
    let mut message = reason.clone();
    message.append(" (");
    let shown = one_line(title);
    message.append(shown.as_str());
    message.append(", in ");
    let shown = one_line(project);
    message.append(shown.as_str());
    message.append(")");
    message
}

/// the update an action writes to an item
fn update_for(uuid: ThingsId, action: MarkAction, now: Instant, entity: EntityType) -> (update: StatusUpdate)
    ensures
        update == update_of(uuid, action, now, entity),
{
    let status = match action {
        MarkAction::Completed => TaskStatus::Completed,
        MarkAction::Incomplete => TaskStatus::Incomplete,
        MarkAction::Canceled => TaskStatus::Canceled,
    };
    let stop_date = if action != MarkAction::Incomplete {
        Some(now)
    } else {
        None
    };
    StatusUpdate { uuid, entity, status, stop_date, modification_date: now }
}

/// the id is in the list
fn holds(ids: &Vec<ThingsId>, id: &ThingsId) -> (found: bool)
    ensures
        found == holds_id(ids@, *id),
{
    let mut k: usize = 0;
    while k < ids.len()
        invariant
            k <= ids@.len(),
            forall|m: int| 0 <= m < k ==> ids@[m]@ != id@,
        decreases ids@.len() - k,
    {
        if ids[k] == *id {
            assert(ids@[k as int]@ == id@);
            return true;
        }
        k += 1;
    }
    false
}

/// the plan after one open to-do of a closing project, written into the plan
fn plan_child<'a>(
    store: &'a ThingsStore,
    project: &Task,
    child: &'a Task,
    action: MarkAction,
    now: Instant,
    seen: &mut Vec<ThingsId>,
    updates: &mut Vec<StatusUpdate>,
    changed: &mut Vec<&'a Task>,
    errors: &mut Vec<String>,
)
    ensures
        ({
            let after = child_step(
                store.tasks@,
                *project,
                action,
                now,
                *child,
                (old(seen)@, old(updates)@, held(old(changed)@), texts(old(errors)@)),
            );
            &&& final(seen)@ == after.0
            &&& final(updates)@ == after.1
            &&& held(final(changed)@) == after.2
            &&& texts(final(errors)@) == after.3
        }),
{
    let refused = validate_mark_target(child, action, store);
    if refused.as_str().is_empty() {
        seen.push(child.uuid);
        updates.push(update_for(child.uuid, action, now, EntityType::Task7));
        let ghost before = changed@;
        changed.push(child);
        assert(held(changed@) =~= held(before).push(*child));
    } else {
        let message = with_titles(&refused, child.title.as_str(), project.title.as_str());
        let ghost before = errors@;
        errors.push(message);
        assert(texts(errors@) =~= texts(before).push(message@));
    }
}

/// the plan after one target, written into the plan
fn plan_target<'a>(
    store: &'a ThingsStore,
    task: &'a Task,
    action: MarkAction,
    now: Instant,
    seen: &mut Vec<ThingsId>,
    updates: &mut Vec<StatusUpdate>,
    changed: &mut Vec<&'a Task>,
    errors: &mut Vec<String>,
)
    requires
        store.well_formed(),
    ensures
        ({
            let after = target_step(
                store.tasks@,
                *task,
                action,
                now,
                (old(seen)@, old(updates)@, held(old(changed)@), texts(old(errors)@)),
            );
            &&& final(seen)@ == after.0
            &&& final(updates)@ == after.1
            &&& held(final(changed)@) == after.2
            &&& texts(final(errors)@) == after.3
        }),
{
    let reason = validate_mark_target(task, action, store);
    if !reason.as_str().is_empty() {
        let message = with_title(&reason, task.title.as_str());
        let ghost before = errors@;
        errors.push(message);
        assert(texts(errors@) =~= texts(before).push(message@));
        return;
    }
    if task.is_project() && action != MarkAction::Incomplete {
        let children = open_children_of(store, task, seen);
        let ghost all_children = held(children@);
        let ghost state: PlanState = (seen@, updates@, held(changed@), texts(errors@));
        let mut j: usize = 0;
        while j < children.len()
            invariant
                j <= children@.len(),
                all_children == held(children@),
                seen@ == child_steps(store.tasks@, *task, action, now, all_children, j as int, state).0,
                updates@ == child_steps(store.tasks@, *task, action, now, all_children, j as int, state).1,
                held(changed@) == child_steps(store.tasks@, *task, action, now, all_children, j as int, state).2,
                texts(errors@) == child_steps(store.tasks@, *task, action, now, all_children, j as int, state).3,
            decreases children@.len() - j,
        {
            let child = children[j];
            assert(all_children[j as int] == *child);
            plan_child(store, task, child, action, now, seen, updates, changed, errors);
            j += 1;
        }
    }
    updates.push(update_for(task.uuid, action, now, EntityType::Task7));
    let ghost before = changed@;
    changed.push(task);
    assert(held(changed@) =~= held(before).push(*task));
}

/// the open to-dos a closing project takes along, those named before left out, in the order of the lists
fn open_children_of<'a>(store: &'a ThingsStore, project: &Task, seen: &Vec<ThingsId>) -> (list: Vec<&'a Task>)
    requires
        store.well_formed(),
    ensures
        held(list@) == open_children(store.tasks@, *project, seen@),
{
    let ghost keep = |t: Task| open_child(store.tasks@, *project, seen@, t);
    let keeps = |j: usize| -> (r: bool)
        requires
            j < store.tasks@.len(),
        ensures
            r == open_child(store.tasks@, *project, seen@, store.tasks@[j as int]),
        {
            let child = &store.tasks[j];
            child.is_todo() && !store.in_trash(child) && child.status == TaskStatus::Incomplete
                && !child.is_recurrence_template() && !holds(seen, &child.uuid) && match store.effective_project_uuid(child) {
                Some(p) => p == project.uuid,
                None => false,
            }
        };
    let picked = pick(store.tasks.len(), keeps, Ghost(|j: int| keep(store.tasks@[j])));
    proof {
        lemma_distinct_task_positions(store.tasks@, picked@);
    }
    let list = listed(&store.tasks, &picked, task_before, Ghost(keep), Ghost(|t: Task| task_position(t)));
    proof {
        lemma_listed_in_order(held(list@), store.tasks@, picked@, keep, |t: Task| task_position(t));
        assert(lists_children(store.tasks@, *project, seen@, held(list@)));
        let chosen = open_children(store.tasks@, *project, seen@);
        assert(lists_children(store.tasks@, *project, seen@, chosen));
        lemma_lists_in_order_unique(held(list@), chosen, store.tasks@, keep, |t: Task| task_position(t));
    }
    list
}

/// the plan of a mark: every identifier resolved, each item once, then every target checked, a closing project taking its open to-dos along; the updates to write, the items they change and the messages of those refused
///
/// every target is checked before any is written, and a batch lands whole or not at all: where a message comes, nothing is written
pub fn mark_status_plan<'a>(store: &'a ThingsStore, identifiers: &[&str], action: MarkAction, now: Instant) -> (plan: (
    Vec<StatusUpdate>,
    Vec<&'a Task>,
    Vec<String>,
))
    requires
        store.well_formed(),
    ensures
        ({
            let expected = mark_plan(
                store.tasks@,
                store.markable_ids_sorted@,
                store.task_ids_sorted@,
                identifiers@,
                action,
                now,
            );
            &&& plan.0@ == expected.1
            &&& held(plan.1@) == expected.2
            &&& texts(plan.2@) == expected.3
        }),
{
    let ghost tasks = store.tasks@;
    let ghost markable = store.markable_ids_sorted@;
    let ghost sorted = store.task_ids_sorted@;
    let mut targets: Vec<&'a Task> = Vec::new();
    let mut seen: Vec<ThingsId> = Vec::new();
    let mut errors: Vec<String> = Vec::new();
    let mut i: usize = 0;
    while i < identifiers.len()
        invariant
            i <= identifiers@.len(),
            tasks == store.tasks@,
            markable == store.markable_ids_sorted@,
            sorted == store.task_ids_sorted@,
            (held(targets@), seen@, texts(errors@)) == mark_targets(tasks, markable, sorted, identifiers@, i as int),
        decreases identifiers@.len() - i,
    {
        let (found, message, _) = store.resolve_mark_identifier(identifiers[i]);
        let ghost lookup = mark_lookup(tasks, markable, sorted, identifiers@[i as int]@);
        proof {
            assert(message@ == lookup.1);
            assert(match found {
                Some(t) => lookup.0 == Some(*t),
                None => lookup.0 is None,
            });
        }
        let ghost before = (targets@, seen@, errors@);
        match found {
            None => {
                errors.push(message);
                assert(texts(errors@) =~= texts(before.2).push(message@));
            },
            Some(task) => {
                if !holds(&seen, &task.uuid) {
                    seen.push(task.uuid);
                    targets.push(task);
                    assert(held(targets@) =~= held(before.0).push(*task));
                }
            },
        }
        i += 1;
    }
    let ghost start: PlanState = (seen@, seq![], seq![], texts(errors@));
    let ghost all_targets = held(targets@);
    let mut updates: Vec<StatusUpdate> = Vec::new();
    let mut changed: Vec<&'a Task> = Vec::new();
    let mut k: usize = 0;
    while k < targets.len()
        invariant
            k <= targets@.len(),
            store.well_formed(),
            tasks == store.tasks@,
            all_targets == held(targets@),
            seen@ == plan_steps(tasks, all_targets, action, now, k as int, start).0,
            updates@ == plan_steps(tasks, all_targets, action, now, k as int, start).1,
            held(changed@) == plan_steps(tasks, all_targets, action, now, k as int, start).2,
            texts(errors@) == plan_steps(tasks, all_targets, action, now, k as int, start).3,
        decreases targets@.len() - k,
    {
        let task = targets[k];
        assert(all_targets[k as int] == *task);
        plan_target(store, task, action, now, &mut seen, &mut updates, &mut changed, &mut errors);
        k += 1;
    }
    (updates, changed, errors)
}


/// how a checklist mark names its action: `checked`, `unchecked` or `canceled`
pub open spec fn checklist_label(action: MarkAction) -> Seq<char> {
    match action {
        MarkAction::Completed => "checked"@,
        MarkAction::Incomplete => "unchecked"@,
        MarkAction::Canceled => "canceled"@,
    }
}

/// why a checklist mark refuses the first `n` items: the first of them of an unknown status or already at the status the action sets
pub open spec fn checklist_refusal(items: Seq<ChecklistItem>, action: MarkAction, n: int) -> Option<Seq<char>>
    decreases n,
{
    if n <= 0 {
        None
    } else {
        match checklist_refusal(items, action, n - 1) {
            Some(message) => Some(message),
            None => {
                let item = items[n - 1];
                if item.status is Unknown {
                    Some("Checklist item is of an unknown status: "@ + sanitize(item.title@, Shown::Field))
                } else if item.status == action_status(action) {
                    Some(
                        "Checklist item is already "@ + checklist_label(action) + ": "@ + sanitize(
                            item.title@,
                            Shown::Field,
                        ),
                    )
                } else {
                    None
                }
            },
        }
    }
}

/// the updates a checklist mark writes, one per item in order
pub open spec fn checklist_updates(items: Seq<ChecklistItem>, action: MarkAction, now: Instant) -> Seq<StatusUpdate> {
    items.map_values(|item: ChecklistItem| update_of(item.uuid, action, now, EntityType::ChecklistItem3))
}

fn checklist_label_text(action: MarkAction) -> (label: String)
    ensures
        label@ == checklist_label(action),
{
    match action {
        MarkAction::Completed => String::from_str("checked"),
        MarkAction::Incomplete => String::from_str("unchecked"),
        MarkAction::Canceled => String::from_str("canceled"),
    }
}

/// the plan of a checklist mark on a to-do: the items the prefixes name, the update of each and the action's label, or the message of the first prefix or item refused
///
/// an item of an unknown status, or already at the status the action sets, refuses the whole mark
pub fn mark_checklist_plan<'a>(task: &'a Task, raw_ids: &str, action: MarkAction, now: Instant) -> (plan: Result<
    (Vec<StatusUpdate>, Vec<&'a ChecklistItem>, String),
    String,
>)
    ensures
        tokens_of(raw_ids@).len() == 0 ==> (plan matches Err(m) && m@ == "No checklist item IDs provided."@),
        tokens_of(raw_ids@).len() > 0 ==> match checklist_resolution(
            task.checklist_items@,
            tokens_of(raw_ids@),
            tokens_of(raw_ids@).len() as int,
        ) {
            Err(message) => (plan matches Err(m) && m@ == message),
            Ok(items) => match checklist_refusal(items, action, items.len() as int) {
                Some(message) => (plan matches Err(m) && m@ == message),
                None => (plan matches Ok(p) && p.0@ == checklist_updates(items, action, now) && items_held(p.1@)
                    == items && p.2@ == checklist_label(action)),
            },
        },
{
    let (items, err) = resolve_checklist_items(task, raw_ids);
    if !err.as_str().is_empty() {
        return Err(err);
    }
    proof {
        if tokens_of(raw_ids@).len() == 0 {
            reveal_strlit("No checklist item IDs provided.");
            assert(err@.len() != 0);
        }
    }
    let label = checklist_label_text(action);
    let ghost all = items_held(items@);
    assert(tokens_of(raw_ids@).len() > 0);
    proof {
        lemma_resolution_message(task.checklist_items@, tokens_of(raw_ids@), tokens_of(raw_ids@).len() as int);
    }
    let mut updates: Vec<StatusUpdate> = Vec::new();
    let mut i: usize = 0;
    while i < items.len()
        invariant
            i <= items@.len(),
            all == items_held(items@),
            tokens_of(raw_ids@).len() > 0,
            checklist_resolution(task.checklist_items@, tokens_of(raw_ids@), tokens_of(raw_ids@).len() as int)
                == Ok::<Seq<ChecklistItem>, Seq<char>>(all),
            label@ == checklist_label(action),
            checklist_refusal(all, action, i as int) is None,
            updates@ == checklist_updates(all.take(i as int), action, now),
        decreases items@.len() - i,
    {
        let item = items[i];
        assert(all[i as int] == *item);
        let title = one_line(item.title.as_str());
        match item.status {
            TaskStatus::Unknown(_) => {
                let mut message = String::from_str("Checklist item is of an unknown status: ");
                message.append(title.as_str());
                proof {
                    lemma_checklist_refusal_stays(all, action, i + 1, all.len() as int);
                }
                return Err(message);
            },
            _ => {},
        }
        if item.status == action_status_exec(action) {
            let mut message = String::from_str("Checklist item is already ");
            message.append(label.as_str());
            message.append(": ");
            message.append(title.as_str());
            proof {
                lemma_checklist_refusal_stays(all, action, i + 1, all.len() as int);
            }
            return Err(message);
        }
        updates.push(update_for(item.uuid, action, now, EntityType::ChecklistItem3));
        assert(checklist_updates(all.take(i + 1), action, now) =~= checklist_updates(all.take(i as int), action, now).push(
            update_of(item.uuid, action, now, EntityType::ChecklistItem3),
        ));
        i += 1;
    }
    assert(all.take(all.len() as int) =~= all);
    Ok((updates, items, label))
}

/// a refusal of the first items stands whatever follows them
proof fn lemma_checklist_refusal_stays(items: Seq<ChecklistItem>, action: MarkAction, from: int, to: int)
    requires
        1 <= from <= to,
        checklist_refusal(items, action, from) is Some,
    ensures
        checklist_refusal(items, action, to) == checklist_refusal(items, action, from),
    decreases to - from,
{
    if from < to {
        lemma_checklist_refusal_stays(items, action, from, to - 1);
    }
}

fn action_status_exec(action: MarkAction) -> (status: TaskStatus)
    ensures
        status == action_status(action),
{
    match action {
        MarkAction::Completed => TaskStatus::Completed,
        MarkAction::Incomplete => TaskStatus::Incomplete,
        MarkAction::Canceled => TaskStatus::Canceled,
    }
}

/// the open to-dos a closing project takes along are listed, where the tasks' ids differ
proof fn lemma_open_children_listed(tasks: Seq<Task>, project: Task, seen: Seq<ThingsId>)
    requires
        forall|a: int, b: int| 0 <= a < b < tasks.len() ==> (#[trigger] tasks[a]).uuid@ != (#[trigger] tasks[b]).uuid@,
    ensures
        lists_children(tasks, project, seen, open_children(tasks, project, seen)),
        forall|j: int|
            0 <= j < tasks.len() && open_child(tasks, project, seen, #[trigger] tasks[j]) ==> open_children(
                tasks,
                project,
                seen,
            ).contains(tasks[j]),
{
    let keep = |t: Task| open_child(tasks, project, seen, t);
    let key = |t: Task| task_position(t);
    assert forall|i: int, j: int|
        0 <= i < tasks.len() && 0 <= j < tasks.len() && keep(tasks[i]) && keep(tasks[j]) && key(#[trigger] tasks[i])
            == key(#[trigger] tasks[j]) implies tasks[i] == tasks[j] by {
        lemma_position_key(tasks[i].index, tasks[i].uuid, tasks[j].index, tasks[j].uuid);
        if i < j {
            assert(tasks[i].uuid@ != tasks[j].uuid@);
        } else if j < i {
            assert(tasks[j].uuid@ != tasks[i].uuid@);
        }
    }
    lemma_lists_in_order_exists(tasks, keep, key);
    let l = choose|l: Seq<Task>| lists_in_order(l, tasks, keep, key);
    assert(lists_children(tasks, project, seen, l));
    let c = open_children(tasks, project, seen);
    assert(lists_in_order(c, tasks, keep, key));
    assert forall|j: int| 0 <= j < tasks.len() && open_child(tasks, project, seen, #[trigger] tasks[j]) implies c.contains(
        tasks[j],
    ) by {
        assert(keep(tasks[j]));
    }
}

/// each open to-do a closing project takes along that may take the status gets its update
proof fn lemma_child_steps_update(
    tasks: Seq<Task>,
    project: Task,
    action: MarkAction,
    now: Instant,
    children: Seq<Task>,
    n: int,
    start: PlanState,
    k: int,
)
    requires
        0 <= k < n <= children.len(),
        mark_refusal(tasks, children[k], action) is None,
    ensures
        child_steps(tasks, project, action, now, children, n, start).1.contains(
            update_of(children[k].uuid, action, now, EntityType::Task7),
        ),
    decreases n,
{
    let before = child_steps(tasks, project, action, now, children, n - 1, start);
    let u = update_of(children[k].uuid, action, now, EntityType::Task7);
    if k == n - 1 {
        assert(child_steps(tasks, project, action, now, children, n, start).1 == before.1.push(u));
        assert(before.1.push(u)[before.1.len() as int] == u);
    } else {
        lemma_child_steps_update(tasks, project, action, now, children, n - 1, start, k);
        let w = choose|w: int| 0 <= w < before.1.len() && before.1[w] == u;
        let after = child_steps(tasks, project, action, now, children, n, start);
        if mark_refusal(tasks, children[n - 1], action) is None {
            assert(after.1 == before.1.push(update_of(children[n - 1].uuid, action, now, EntityType::Task7)));
            assert(after.1[w] == u);
        } else {
            assert(after.1 == before.1);
        }
    }
}

/// Completing or canceling a project takes its open to-dos along: every open to-do in the
/// project, outside the Trash, no template and not named already, that may take the status gets
/// an update to the same status, closed at the same moment, and so does the project, last.
pub proof fn lemma_closing_project_takes_open_todos(
    tasks: Seq<Task>,
    project: Task,
    action: MarkAction,
    now: Instant,
    state: PlanState,
    child: Task,
)
    requires
        forall|a: int, b: int| 0 <= a < b < tasks.len() ==> (#[trigger] tasks[a]).uuid@ != (#[trigger] tasks[b]).uuid@,
        action == MarkAction::Completed || action == MarkAction::Canceled,
        is_project_spec(project),
        mark_refusal(tasks, project, action) is None,
        tasks.contains(child),
        child.item_type == TaskType::Todo,
        child.status == TaskStatus::Incomplete,
        !in_trash_spec(tasks, child),
        !is_template_spec(child),
        effective_project(tasks, child) matches Some(p) && p@ == project.uuid@,
        !holds_id(state.0, child.uuid),
        mark_refusal(tasks, child, action) is None,
    ensures
        exists|k: int|
            0 <= k < target_step(tasks, project, action, now, state).1.len() && {
                let u = #[trigger] target_step(tasks, project, action, now, state).1[k];
                &&& u.uuid == child.uuid
                &&& u.status == (if action == MarkAction::Completed {
                    TaskStatus::Completed
                } else {
                    TaskStatus::Canceled
                })
                &&& u.stop_date == Some(now)
            },
        target_step(tasks, project, action, now, state).1.last().uuid == project.uuid,
        target_step(tasks, project, action, now, state).1.last().status == (if action == MarkAction::Completed {
            TaskStatus::Completed
        } else {
            TaskStatus::Canceled
        }),
{
    lemma_open_children_listed(tasks, project, state.0);
    let children = open_children(tasks, project, state.0);
    assert(open_child(tasks, project, state.0, child));
    let j = choose|j: int| 0 <= j < tasks.len() && tasks[j] == child;
    assert(children.contains(tasks[j]));
    let k = choose|k: int| 0 <= k < children.len() && children[k] == child;
    lemma_child_steps_update(tasks, project, action, now, children, children.len() as int, state, k);
    let after = child_steps(tasks, project, action, now, children, children.len() as int, state);
    let u = update_of(child.uuid, action, now, EntityType::Task7);
    let w = choose|w: int| 0 <= w < after.1.len() && after.1[w] == u;
    let r = target_step(tasks, project, action, now, state);
    assert(r.1 == after.1.push(update_of(project.uuid, action, now, EntityType::Task7)));
    assert(r.1[w] == u);
}

/// Reopening a project leaves its to-dos as they are: a project marked incomplete gets its own
/// update and nothing else is written or refused along with it.
pub proof fn lemma_reopening_a_project_goes_alone(tasks: Seq<Task>, project: Task, now: Instant, state: PlanState)
    requires
        mark_refusal(tasks, project, MarkAction::Incomplete) is None,
    ensures
        target_step(tasks, project, MarkAction::Incomplete, now, state).1.len() == state.1.len() + 1,
        target_step(tasks, project, MarkAction::Incomplete, now, state).1.last().uuid == project.uuid,
        target_step(tasks, project, MarkAction::Incomplete, now, state).1.last().status == TaskStatus::Incomplete,
        target_step(tasks, project, MarkAction::Incomplete, now, state).1.last().stop_date is None,
        target_step(tasks, project, MarkAction::Incomplete, now, state).3 == state.3,
{
}

} // verus!
