//! Statements that hold across operations, each proved once and for all:
//! what a partial update leaves alone, what a double toggle restores, and
//! which tasks the date views admit.

use crate::model::{Task, UpdateTaskInput};
use crate::store::{due_on, patched_task, planned_after, toggled_important};
use crate::text::{date_part, lex_lt};
use vstd::prelude::*;

verus! {

/// An update that only sets the completion flag leaves the title, body,
/// importance, every date field and the list reference unchanged, and
/// refreshes only the update time.
pub proof fn lemma_update_only_completion(t: Task, u: UpdateTaskInput, now: String)
    requires
        u.title is None,
        u.content is None,
        u.is_important is None,
        u.due_date is None,
        u.start_date is None,
        u.remind_time is None,
        u.repeat_rule is None,
        u.list_id is None,
        (u.is_completed is Some),
    ensures
        patched_task(t, u, now).id == t.id,
        patched_task(t, u, now).title == t.title,
        patched_task(t, u, now).content == t.content,
        patched_task(t, u, now).is_completed == u.is_completed->0,
        patched_task(t, u, now).is_important == t.is_important,
        patched_task(t, u, now).due_date == t.due_date,
        patched_task(t, u, now).start_date == t.start_date,
        patched_task(t, u, now).remind_time == t.remind_time,
        patched_task(t, u, now).repeat_rule == t.repeat_rule,
        patched_task(t, u, now).list_id == t.list_id,
        patched_task(t, u, now).created_at == t.created_at,
        patched_task(t, u, now).updated_at == now,
{
}

/// Flipping the importance flag twice restores the original flag; each
/// flip rewrites the update time, so the record ends with the second
/// moment, and no other field ever moves.
pub proof fn lemma_toggle_important_twice(t: Task, first: String, second: String)
    ensures
        toggled_important(toggled_important(t, first), second).is_important == t.is_important,
        toggled_important(toggled_important(t, first), second).updated_at == second,
        toggled_important(t, first).is_important == !t.is_important,
        toggled_important(t, first).updated_at == first,
        toggled_important(toggled_important(t, first), second) == (Task {
            updated_at: second,
            ..t
        }),
{
}

/// Which tasks count as due on a day depends only on the day's date part:
/// any time-of-day component of the reference moment is ignored.
pub proof fn lemma_due_on_date_only(t: Task, day1: Seq<char>, day2: Seq<char>)
    requires
        date_part(day1) == date_part(day2),
    ensures
        due_on(day1)(t) == due_on(day2)(t),
{
}

/// The planned view excludes a task whose due date falls on the reference
/// day itself (unless its start date lies strictly later), and includes
/// every task whose due date lies strictly after that day.
pub proof fn lemma_planned_excludes_today(t: Task, day: Seq<char>)
    ensures
        (t.due_date is Some && date_part(t.due_date->0@) == date_part(day) && !(t.start_date
            is Some && lex_lt(date_part(day), date_part(t.start_date->0@)))) ==> !planned_after(
            day,
        )(t),
        (t.due_date is Some && lex_lt(date_part(day), date_part(t.due_date->0@)))
            ==> planned_after(day)(t),
{
}

} // verus!
