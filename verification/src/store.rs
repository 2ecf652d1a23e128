//! The store: every list, task and subtask, held in memory, with the
//! create/read/update/delete and query operations of the command surface.
//! Identifiers are unique per record kind, every task references an
//! existing list, and every subtask references an existing task; each
//! operation preserves these invariants and says exactly which records it
//! touches.

use crate::model::{
    CreateListInput, CreateSubtaskInput, CreateTaskInput, List, StoreError, Subtask, Task,
    UpdateListInput, UpdateSubtaskInput, UpdateTaskInput,
};
use crate::runtime::{fresh_uuid, now_rfc3339, today_utc};
use crate::sorting::{list_leq, sort_lists, sort_tasks, task_leq, TaskOrder};
use crate::text::{date_part, date_part_str, has_substring, lex_lt, str_contains, str_eq, str_lt};
use vstd::prelude::*;
use vstd::relations::sorted_by;
use vstd::string::StringExecFns;

verus! {

/// The whole data set: all lists, tasks and subtasks.
pub struct Store {
    pub lists: Vec<List>,
    pub tasks: Vec<Task>,
    pub subtasks: Vec<Subtask>,
}

impl Store {
    /// Some list carries this id.
    pub open spec fn has_list(self, id: Seq<char>) -> bool {
        exists|i: int| 0 <= i < self.lists@.len() && #[trigger] self.lists@[i].id@ == id
    }

    /// Some task carries this id.
    pub open spec fn has_task(self, id: Seq<char>) -> bool {
        exists|i: int| 0 <= i < self.tasks@.len() && #[trigger] self.tasks@[i].id@ == id
    }

    /// Some subtask carries this id.
    pub open spec fn has_subtask(self, id: Seq<char>) -> bool {
        exists|i: int| 0 <= i < self.subtasks@.len() && #[trigger] self.subtasks@[i].id@ == id
    }

    /// No two lists share an id.
    pub open spec fn lists_unique(self) -> bool {
        forall|i: int, j: int|
            #![trigger self.lists@[i].id@, self.lists@[j].id@]
            0 <= i < j < self.lists@.len() ==> self.lists@[i].id@ != self.lists@[j].id@
    }

    /// No two tasks share an id.
    pub open spec fn tasks_unique(self) -> bool {
        forall|i: int, j: int|
            #![trigger self.tasks@[i].id@, self.tasks@[j].id@]
            0 <= i < j < self.tasks@.len() ==> self.tasks@[i].id@ != self.tasks@[j].id@
    }

    /// No two subtasks share an id.
    pub open spec fn subtasks_unique(self) -> bool {
        forall|i: int, j: int|
            #![trigger self.subtasks@[i].id@, self.subtasks@[j].id@]
            0 <= i < j < self.subtasks@.len() ==> self.subtasks@[i].id@ != self.subtasks@[j].id@
    }

    /// Every task references an existing list.
    pub open spec fn task_refs_ok(self) -> bool {
        forall|i: int|
            0 <= i < self.tasks@.len() ==> self.has_list(#[trigger] self.tasks@[i].list_id@)
    }

    /// Every subtask references an existing task.
    pub open spec fn subtask_refs_ok(self) -> bool {
        forall|i: int|
            0 <= i < self.subtasks@.len() ==> self.has_task(#[trigger] self.subtasks@[i].task_id@)
    }

    /// The store's invariant: unique ids and intact references.
    pub open spec fn wf(self) -> bool {
        &&& self.lists_unique()
        &&& self.tasks_unique()
        &&& self.subtasks_unique()
        &&& self.task_refs_ok()
        &&& self.subtask_refs_ok()
    }

    /// Some list is marked as the default list.
    pub open spec fn has_default_list(self) -> bool {
        exists|i: int| 0 <= i < self.lists@.len() && (#[trigger] self.lists@[i]).is_default
    }

    /// An empty store.
    pub fn new() -> (r: Store)
        ensures
            r.lists@.len() == 0,
            r.tasks@.len() == 0,
            r.subtasks@.len() == 0,
            r.wf(),
            !r.has_default_list(),
    {
        Store { lists: Vec::new(), tasks: Vec::new(), subtasks: Vec::new() }
    }

    /// Finds the position of the list with this id.
    fn find_list_index(&self, id: &str) -> (r: Option<usize>)
        ensures
            match r {
                Option::Some(i) => i < self.lists@.len() && self.lists@[i as int].id@ == id@,
                Option::None => !self.has_list(id@),
            },
    {
        let mut i: usize = 0;
        while i < self.lists.len()
            invariant
                i <= self.lists@.len(),
                forall|k: int| 0 <= k < i ==> #[trigger] self.lists@[k].id@ != id@,
            decreases self.lists@.len() - i,
        {
            if str_eq(self.lists[i].id.as_str(), id) {
                return Option::Some(i);
            }
            i += 1;
        }
        Option::None
    }

    /// Finds the position of the task with this id.
    fn find_task_index(&self, id: &str) -> (r: Option<usize>)
        ensures
            match r {
                Option::Some(i) => i < self.tasks@.len() && self.tasks@[i as int].id@ == id@,
                Option::None => !self.has_task(id@),
            },
    {
        let mut i: usize = 0;
        while i < self.tasks.len()
            invariant
                i <= self.tasks@.len(),
                forall|k: int| 0 <= k < i ==> #[trigger] self.tasks@[k].id@ != id@,
            decreases self.tasks@.len() - i,
        {
            if str_eq(self.tasks[i].id.as_str(), id) {
                return Option::Some(i);
            }
            i += 1;
        }
        Option::None
    }

    /// Whether some list is marked default.
    fn has_default_exec(&self) -> (r: bool)
        ensures
            r == self.has_default_list(),
    {
        let mut i: usize = 0;
        while i < self.lists.len()
            invariant
                i <= self.lists@.len(),
                forall|k: int| 0 <= k < i ==> !(#[trigger] self.lists@[k]).is_default,
            decreases self.lists@.len() - i,
        {
            if self.lists[i].is_default {
                return true;
            }
            i += 1;
        }
        false
    }

    /// All lists, by ascending position.
    pub fn get_lists(&self) -> (r: Vec<List>)
        ensures
            sorted_by(r@, list_leq()),
            r@.to_multiset() == self.lists@.to_multiset(),
    {
        sort_lists(&self.lists)
    }
}

/// The greatest position value among the lists; zero when there are none.
pub open spec fn max_order_of(s: Seq<List>) -> int
    decreases s.len(),
{
    if s.len() == 0 {
        0
    } else if s.len() == 1 {
        s[0].order as int
    } else {
        let m = max_order_of(s.drop_last());
        if s.last().order as int > m {
            s.last().order as int
        } else {
            m
        }
    }
}

/// Computes the greatest position value among the lists.
fn max_order(lists: &Vec<List>) -> (r: i32)
    requires
        lists@.len() > 0,
    ensures
        r as int == max_order_of(lists@),
{
    let mut m = lists[0].order;
    let mut i: usize = 1;
    proof {
        assert(lists@.subrange(0, 1).len() == 1);
        assert(lists@.subrange(0, 1)[0] == lists@[0]);
    }
    while i < lists.len()
        invariant
            1 <= i <= lists@.len(),
            m as int == max_order_of(lists@.subrange(0, i as int)),
        decreases lists@.len() - i,
    {
        proof {
            let pre = lists@.subrange(0, i + 1);
            assert(pre.len() == i + 1 > 1);
            assert(pre.drop_last() =~= lists@.subrange(0, i as int));
            assert(pre.last() == lists@[i as int]);
        }
        if lists[i].order > m {
            m = lists[i].order;
        }
        i += 1;
    }
    proof {
        assert(lists@.subrange(0, lists@.len() as int) =~= lists@);
    }
    m
}

impl Store {
    /// Creates a list from the given id and creation time: appended at the
    /// end of the display order, never the default list. A colliding id is
    /// a storage failure and leaves the store unchanged.
    pub fn create_list_with(&mut self, input: CreateListInput, id: String, now: String) -> (r:
        Result<List, StoreError>)
        requires
            old(self).wf(),
            max_order_of(old(self).lists@) < i32::MAX,
        ensures
            final(self).wf(),
            final(self).tasks == old(self).tasks,
            final(self).subtasks == old(self).subtasks,
            old(self).has_default_list() ==> final(self).has_default_list(),
            match r {
                Result::Ok(l) => {
                    &&& !old(self).has_list(id@)
                    &&& l.id == id
                    &&& l.name == input.name
                    &&& l.color == input.color
                    &&& l.icon == input.icon
                    &&& l.is_default == false
                    &&& l.created_at == now
                    &&& l.order as int == if old(self).lists@.len() == 0 {
                        0int
                    } else {
                        max_order_of(old(self).lists@) + 1
                    }
                    &&& final(self).lists@ == old(self).lists@.push(l)
                },
                Result::Err(e) => {
                    &&& e == StoreError::StorageFailure
                    &&& old(self).has_list(id@)
                    &&& *final(self) == *old(self)
                },
            },
    {
        match self.find_list_index(id.as_str()) {
            Option::Some(_) => Result::Err(StoreError::StorageFailure),
            Option::None => {
                let order: i32 = if self.lists.len() == 0 {
                    0
                } else {
                    max_order(&self.lists) + 1
                };
                let l = List {
                    id,
                    name: input.name,
                    color: input.color,
                    icon: input.icon,
                    is_default: false,
                    created_at: now,
                    order,
                };
                let record = l.clone();
                let ghost pre = *self;
                let ghost gl = l;
                self.lists.push(l);
                proof {
                    lemma_wf_after_list_push(pre, *self, gl);
                }
                Result::Ok(record)
            },
        }
    }

    /// Creates a list under a freshly drawn id and the current time. The
    /// failure case is the storage failure of a colliding random id.
    pub fn create_list(&mut self, input: CreateListInput) -> (r: Result<List, StoreError>)
        requires
            old(self).wf(),
            max_order_of(old(self).lists@) < i32::MAX,
        ensures
            final(self).wf(),
            final(self).tasks == old(self).tasks,
            final(self).subtasks == old(self).subtasks,
            old(self).has_default_list() ==> final(self).has_default_list(),
            old(self).lists@.len() == 0 ==> (r is Ok),
            match r {
                Result::Ok(l) => {
                    &&& !old(self).has_list(l.id@)
                    &&& l.id@.len() == 36
                    &&& l.name == input.name
                    &&& l.color == input.color
                    &&& l.icon == input.icon
                    &&& l.is_default == false
                    &&& l.order as int == if old(self).lists@.len() == 0 {
                        0int
                    } else {
                        max_order_of(old(self).lists@) + 1
                    }
                    &&& final(self).lists@ == old(self).lists@.push(l)
                },
                Result::Err(e) => {
                    &&& e == StoreError::StorageFailure
                    &&& *final(self) == *old(self)
                },
            },
    {
        let id = fresh_uuid();
        let now = now_rfc3339();
        self.create_list_with(input, id, now)
    }

    /// Seeds the default list when none is present: a no-op when one
    /// already exists, so running it at every startup is safe. A colliding
    /// id is a storage failure and leaves the store unchanged.
    pub fn seed_default_list_with(&mut self, id: String, now: String) -> (r: Result<
        Option<List>,
        StoreError,
    >)
        requires
            old(self).wf(),
        ensures
            final(self).wf(),
            final(self).tasks == old(self).tasks,
            final(self).subtasks == old(self).subtasks,
            match r {
                Result::Ok(created) => {
                    &&& final(self).has_default_list()
                    &&& match created {
                        Option::Some(l) => {
                            &&& !old(self).has_default_list()
                            &&& !old(self).has_list(id@)
                            &&& l.id == id
                            &&& l.name@ == "我的一天"@
                            &&& l.color matches Option::Some(c) && c@ == "#0078D4"@
                            &&& l.icon matches Option::Some(c) && c@ == "sun"@
                            &&& l.is_default == true
                            &&& l.created_at == now
                            &&& l.order == 0
                            &&& final(self).lists@ == old(self).lists@.push(l)
                        },
                        Option::None => {
                            &&& old(self).has_default_list()
                            &&& *final(self) == *old(self)
                        },
                    }
                },
                Result::Err(e) => {
                    &&& e == StoreError::StorageFailure
                    &&& !old(self).has_default_list()
                    &&& old(self).has_list(id@)
                    &&& *final(self) == *old(self)
                },
            },
    {
        if self.has_default_exec() {
            return Result::Ok(Option::None);
        }
        match self.find_list_index(id.as_str()) {
            Option::Some(_) => Result::Err(StoreError::StorageFailure),
            Option::None => {
                let l = List {
                    id,
                    name: String::from_str("我的一天"),
                    color: Option::Some(String::from_str("#0078D4")),
                    icon: Option::Some(String::from_str("sun")),
                    is_default: true,
                    created_at: now,
                    order: 0,
                };
                let record = l.clone();
                let ghost pre = *self;
                let ghost gl = l;
                self.lists.push(l);
                proof {
                    lemma_wf_after_list_push(pre, *self, gl);
                }
                Result::Ok(Option::Some(record))
            },
        }
    }

    /// Seeds the default list under a freshly drawn id and the current
    /// time; the data half of startup initialization.
    pub fn ensure_default_list(&mut self) -> (r: Result<Option<List>, StoreError>)
        requires
            old(self).wf(),
        ensures
            final(self).wf(),
            final(self).tasks == old(self).tasks,
            final(self).subtasks == old(self).subtasks,
            old(self).has_default_list() ==> (r is Ok),
            match r {
                Result::Ok(created) => {
                    &&& final(self).has_default_list()
                    &&& match created {
                        Option::Some(l) => {
                            &&& !old(self).has_default_list()
                            &&& l.is_default == true
                            &&& final(self).lists@ == old(self).lists@.push(l)
                        },
                        Option::None => {
                            &&& old(self).has_default_list()
                            &&& *final(self) == *old(self)
                        },
                    }
                },
                Result::Err(e) => {
                    &&& e == StoreError::StorageFailure
                    &&& *final(self) == *old(self)
                },
            },
    {
        let id = fresh_uuid();
        let now = now_rfc3339();
        self.seed_default_list_with(id, now)
    }
}

/// The tasks of one list.
pub open spec fn in_list(list_id: Seq<char>) -> spec_fn(Task) -> bool {
    |t: Task| t.list_id@ == list_id
}

/// The tasks flagged important.
pub open spec fn important_task() -> spec_fn(Task) -> bool {
    |t: Task| t.is_important
}

/// The tasks flagged completed.
pub open spec fn completed_task() -> spec_fn(Task) -> bool {
    |t: Task| t.is_completed
}

/// The tasks whose title or body contains the query, case-sensitively.
pub open spec fn matches_query(q: Seq<char>) -> spec_fn(Task) -> bool {
    |t: Task|
        has_substring(t.title@, q) || (t.content is Some && has_substring(t.content->0@, q))
}

/// The tasks due on the given day, comparing date parts only.
pub open spec fn due_on(day: Seq<char>) -> spec_fn(Task) -> bool {
    |t: Task| t.due_date is Some && date_part(t.due_date->0@) == date_part(day)
}

/// The tasks whose due date or start date lies strictly after the given
/// day, comparing date parts only.
pub open spec fn planned_after(day: Seq<char>) -> spec_fn(Task) -> bool {
    |t: Task|
        (t.due_date is Some && lex_lt(date_part(day), date_part(t.due_date->0@))) || (
        t.start_date is Some && lex_lt(date_part(day), date_part(t.start_date->0@)))
}

/// Which tasks a query keeps.
enum TaskFilter<'a> {
    InList(&'a str),
    Important,
    Completed,
    Query(&'a str),
    DueOn(&'a str),
    PlannedAfter(&'a str),
}

/// The predicate a task filter stands for.
spec fn filter_spec<'a>(f: TaskFilter<'a>) -> spec_fn(Task) -> bool {
    match f {
        TaskFilter::InList(l) => in_list(l@),
        TaskFilter::Important => important_task(),
        TaskFilter::Completed => completed_task(),
        TaskFilter::Query(q) => matches_query(q@),
        TaskFilter::DueOn(day) => due_on(day@),
        TaskFilter::PlannedAfter(day) => planned_after(day@),
    }
}

/// Decides whether one task passes the filter.
fn task_matches(f: &TaskFilter<'_>, t: &Task) -> (r: bool)
    ensures
        r == filter_spec(*f)(*t),
{
    match f {
        TaskFilter::InList(l) => str_eq(t.list_id.as_str(), l),
        TaskFilter::Important => t.is_important,
        TaskFilter::Completed => t.is_completed,
        TaskFilter::Query(q) => {
            if str_contains(t.title.as_str(), q) {
                true
            } else {
                match &t.content {
                    Option::Some(c) => str_contains(c.as_str(), q),
                    Option::None => false,
                }
            }
        },
        TaskFilter::DueOn(day) => {
            match &t.due_date {
                Option::Some(d) => str_eq(date_part_str(d.as_str()), date_part_str(day)),
                Option::None => false,
            }
        },
        TaskFilter::PlannedAfter(day) => {
            let after_due = match &t.due_date {
                Option::Some(d) => str_lt(date_part_str(day), date_part_str(d.as_str())),
                Option::None => false,
            };
            let after_start = match &t.start_date {
                Option::Some(s) => str_lt(date_part_str(day), date_part_str(s.as_str())),
                Option::None => false,
            };
            after_due || after_start
        },
    }
}

/// Copies the tasks that pass the filter, in their stored order.
fn filter_tasks(tasks: &Vec<Task>, f: &TaskFilter<'_>) -> (r: Vec<Task>)
    ensures
        r@ == tasks@.filter(filter_spec(*f)),
{
    let mut out: Vec<Task> = Vec::new();
    let mut i: usize = 0;
    proof {
        assert(tasks@.subrange(0, 0) =~= Seq::<Task>::empty());
        reveal(Seq::filter);
    }
    while i < tasks.len()
        invariant
            i <= tasks@.len(),
            out@ == tasks@.subrange(0, i as int).filter(filter_spec(*f)),
        decreases tasks@.len() - i,
    {
        proof {
            crate::sorting::lemma_filter_push(
                tasks@.subrange(0, i as int),
                tasks@[i as int],
                filter_spec(*f),
            );
            assert(tasks@.subrange(0, i + 1) =~= tasks@.subrange(0, i as int).push(
                tasks@[i as int],
            ));
        }
        if task_matches(f, &tasks[i]) {
            let copy = tasks[i].clone();
            out.push(copy);
        }
        i += 1;
    }
    proof {
        assert(tasks@.subrange(0, tasks@.len() as int) =~= tasks@);
    }
    out
}

impl Store {
    /// All tasks, or the tasks of one list: incomplete first, then newest
    /// creation first.
    pub fn get_tasks(&self, list_id: Option<&str>) -> (r: Vec<Task>)
        ensures
            sorted_by(r@, task_leq(TaskOrder::Standard)),
            match list_id {
                Option::Some(lid) => r@.to_multiset() == self.tasks@.filter(
                    in_list(lid@),
                ).to_multiset(),
                Option::None => r@.to_multiset() == self.tasks@.to_multiset(),
            },
    {
        match list_id {
            Option::Some(lid) => {
                let picked = filter_tasks(&self.tasks, &TaskFilter::InList(lid));
                sort_tasks(&picked, TaskOrder::Standard)
            },
            Option::None => sort_tasks(&self.tasks, TaskOrder::Standard),
        }
    }

    /// The important tasks: incomplete first, then newest creation first.
    pub fn get_important_tasks(&self) -> (r: Vec<Task>)
        ensures
            sorted_by(r@, task_leq(TaskOrder::Standard)),
            r@.to_multiset() == self.tasks@.filter(important_task()).to_multiset(),
    {
        let picked = filter_tasks(&self.tasks, &TaskFilter::Important);
        sort_tasks(&picked, TaskOrder::Standard)
    }

    /// The completed tasks, most recently updated first.
    pub fn get_completed_tasks(&self) -> (r: Vec<Task>)
        ensures
            sorted_by(r@, task_leq(TaskOrder::Completed)),
            r@.to_multiset() == self.tasks@.filter(completed_task()).to_multiset(),
    {
        let picked = filter_tasks(&self.tasks, &TaskFilter::Completed);
        sort_tasks(&picked, TaskOrder::Completed)
    }

    /// The tasks whose title or body contains the query, case-sensitively:
    /// incomplete first, then newest creation first.
    pub fn search_tasks(&self, query: &str) -> (r: Vec<Task>)
        ensures
            sorted_by(r@, task_leq(TaskOrder::Standard)),
            r@.to_multiset() == self.tasks@.filter(matches_query(query@)).to_multiset(),
    {
        let picked = filter_tasks(&self.tasks, &TaskFilter::Query(query));
        sort_tasks(&picked, TaskOrder::Standard)
    }

    /// The tasks due on the given day, ignoring any time-of-day component
    /// of the stored due date.
    pub fn get_today_tasks_on(&self, day: &str) -> (r: Vec<Task>)
        ensures
            sorted_by(r@, task_leq(TaskOrder::Standard)),
            r@.to_multiset() == self.tasks@.filter(due_on(day@)).to_multiset(),
    {
        let picked = filter_tasks(&self.tasks, &TaskFilter::DueOn(day));
        sort_tasks(&picked, TaskOrder::Standard)
    }

    /// The tasks due on the current UTC date.
    pub fn get_today_tasks(&self) -> (r: Vec<Task>)
        ensures
            sorted_by(r@, task_leq(TaskOrder::Standard)),
            exists|day: Seq<char>|
                r@.to_multiset() == self.tasks@.filter(#[trigger] due_on(day)).to_multiset(),
    {
        let today = today_utc();
        let r = self.get_today_tasks_on(today.as_str());
        proof {
            assert(r@.to_multiset() == self.tasks@.filter(due_on(today@)).to_multiset());
        }
        r
    }

    /// The tasks whose due date or start date lies strictly after the
    /// given day: earliest due date first, then newest creation first.
    pub fn get_planned_tasks_on(&self, day: &str) -> (r: Vec<Task>)
        ensures
            sorted_by(r@, task_leq(TaskOrder::Planned)),
            r@.to_multiset() == self.tasks@.filter(planned_after(day@)).to_multiset(),
    {
        let picked = filter_tasks(&self.tasks, &TaskFilter::PlannedAfter(day));
        sort_tasks(&picked, TaskOrder::Planned)
    }

    /// The tasks planned strictly after the current UTC date.
    pub fn get_planned_tasks(&self) -> (r: Vec<Task>)
        ensures
            sorted_by(r@, task_leq(TaskOrder::Planned)),
            exists|day: Seq<char>|
                r@.to_multiset() == self.tasks@.filter(
                    #[trigger] planned_after(day),
                ).to_multiset(),
    {
        let today = today_utc();
        let r = self.get_planned_tasks_on(today.as_str());
        proof {
            assert(r@.to_multiset() == self.tasks@.filter(planned_after(today@)).to_multiset());
        }
        r
    }
}

/// A list after a partial update: supplied fields replace the old values,
/// absent fields keep them; id, default flag and creation time never
/// change.
pub open spec fn patched_list(l: List, u: UpdateListInput) -> List {
    List {
        id: l.id,
        name: if u.name is Some {
            u.name->0
        } else {
            l.name
        },
        color: if u.color is Some {
            u.color
        } else {
            l.color
        },
        icon: if u.icon is Some {
            u.icon
        } else {
            l.icon
        },
        is_default: l.is_default,
        created_at: l.created_at,
        order: if u.order is Some {
            u.order->0
        } else {
            l.order
        },
    }
}

/// The list with this id is the default list.
pub open spec fn default_list_id(s: Store, id: Seq<char>) -> bool {
    exists|i: int|
        0 <= i < s.lists@.len() && #[trigger] s.lists@[i].id@ == id && s.lists@[i].is_default
}

/// The task with this id belongs to the list with that id.
pub open spec fn task_in_list(s: Store, task_id: Seq<char>, list_id: Seq<char>) -> bool {
    exists|i: int|
        0 <= i < s.tasks@.len() && #[trigger] s.tasks@[i].id@ == task_id && s.tasks@[i].list_id@
            == list_id
}

/// Keeps the lists that do not carry the deleted id.
pub open spec fn list_survives(id: Seq<char>) -> spec_fn(List) -> bool {
    |l: List| l.id@ != id
}

/// Keeps the tasks that do not belong to the deleted list.
pub open spec fn task_survives(id: Seq<char>) -> spec_fn(Task) -> bool {
    |t: Task| t.list_id@ != id
}

/// Keeps the subtasks whose parent task does not belong to the deleted
/// list.
pub open spec fn subtask_survives(pre: Store, id: Seq<char>) -> spec_fn(Subtask) -> bool {
    |st: Subtask| !task_in_list(pre, st.task_id@, id)
}

impl Store {
    /// Applies a partial update to the list with the given id: absent
    /// fields are left unchanged. Fails with `NotFound` when no list
    /// carries the id.
    pub fn update_list(&mut self, input: UpdateListInput) -> (r: Result<List, StoreError>)
        requires
            old(self).wf(),
        ensures
            final(self).wf(),
            final(self).tasks == old(self).tasks,
            final(self).subtasks == old(self).subtasks,
            old(self).has_default_list() ==> final(self).has_default_list(),
            match r {
                Result::Ok(l) => exists|i: int|
                    {
                        &&& 0 <= i < old(self).lists@.len()
                        &&& (#[trigger] old(self).lists@[i]).id@ == input.id@
                        &&& l == patched_list(old(self).lists@[i], input)
                        &&& final(self).lists@ == old(self).lists@.update(i, l)
                    },
                Result::Err(e) => {
                    &&& e == StoreError::NotFound
                    &&& !old(self).has_list(input.id@)
                    &&& *final(self) == *old(self)
                },
            },
    {
        let idx = match self.find_list_index(input.id.as_str()) {
            Option::None => {
                return Result::Err(StoreError::NotFound);
            },
            Option::Some(i) => i,
        };
        let mut nl = self.lists[idx].clone();
        if let Option::Some(name) = input.name {
            nl.name = name;
        }
        if let Option::Some(color) = input.color {
            nl.color = Option::Some(color);
        }
        if let Option::Some(icon) = input.icon {
            nl.icon = Option::Some(icon);
        }
        if let Option::Some(order) = input.order {
            nl.order = order;
        }
        let record = nl.clone();
        let ghost pre = *self;
        let ghost gl = nl;
        self.lists.set(idx, nl);
        proof {
            lemma_wf_after_list_update(pre, *self, gl, idx as int);
        }
        Result::Ok(record)
    }

    /// Deletes a non-default list together with every task in it and,
    /// transitively, every subtask of those tasks. Deleting the default
    /// list is an invalid operation and changes nothing; an unknown id is
    /// `NotFound`.
    pub fn delete_list(&mut self, id: &str) -> (r: Result<(), StoreError>)
        requires
            old(self).wf(),
        ensures
            final(self).wf(),
            old(self).has_default_list() ==> final(self).has_default_list(),
            match r {
                Result::Ok(u) => {
                    &&& old(self).has_list(id@)
                    &&& !default_list_id(*old(self), id@)
                    &&& final(self).lists@ == old(self).lists@.filter(list_survives(id@))
                    &&& final(self).tasks@ == old(self).tasks@.filter(task_survives(id@))
                    &&& final(self).subtasks@ == old(self).subtasks@.filter(
                        subtask_survives(*old(self), id@),
                    )
                },
                Result::Err(e) => {
                    &&& *final(self) == *old(self)
                    &&& (e == StoreError::NotFound || e == StoreError::InvalidOperation)
                    &&& (e == StoreError::NotFound <==> !old(self).has_list(id@))
                    &&& (e == StoreError::InvalidOperation <==> default_list_id(*old(self), id@))
                },
            },
    {
        let idx = match self.find_list_index(id) {
            Option::None => {
                proof {
                    if default_list_id(*self, id@) {
                        let j = choose|j: int|
                            0 <= j < self.lists@.len() && self.lists@[j].id@ == id@
                                && self.lists@[j].is_default;
                        assert(self.has_list(id@));
                    }
                }
                return Result::Err(StoreError::NotFound);
            },
            Option::Some(i) => i,
        };
        if self.lists[idx].is_default {
            proof {
                assert(default_list_id(*self, id@));
            }
            return Result::Err(StoreError::InvalidOperation);
        }
        proof {
            if default_list_id(*self, id@) {
                let j = choose|j: int|
                    0 <= j < self.lists@.len() && self.lists@[j].id@ == id@
                        && self.lists@[j].is_default;
                if j != idx {
                    assert(self.lists@[if j < idx {
                        j
                    } else {
                        idx as int
                    }].id@ != self.lists@[if j < idx {
                        idx as int
                    } else {
                        j
                    }].id@);
                }
            }
        }
        let ghost pre = *self;
        let mut kept_subtasks: Vec<Subtask> = Vec::new();
        let mut i: usize = 0;
        proof {
            assert(pre.subtasks@.subrange(0, 0) =~= Seq::<Subtask>::empty());
            reveal(Seq::filter);
        }
        while i < self.subtasks.len()
            invariant
                *self == pre,
                pre.wf(),
                i <= pre.subtasks@.len(),
                kept_subtasks@ == pre.subtasks@.subrange(0, i as int).filter(
                    subtask_survives(pre, id@),
                ),
            decreases pre.subtasks@.len() - i,
        {
            let keep = match self.find_task_index(self.subtasks[i].task_id.as_str()) {
                Option::Some(t) => !str_eq(self.tasks[t].list_id.as_str(), id),
                Option::None => {
                    proof {
                        assert(pre.has_task(pre.subtasks@[i as int].task_id@));
                        assert(false);
                    }
                    false
                },
            };
            proof {
                let st = pre.subtasks@[i as int];
                if keep {
                    let t = choose|t: int|
                        0 <= t < pre.tasks@.len() && pre.tasks@[t].id@ == st.task_id@
                            && pre.tasks@[t].list_id@ != id@;
                    if task_in_list(pre, st.task_id@, id@) {
                        let j = choose|j: int|
                            0 <= j < pre.tasks@.len() && pre.tasks@[j].id@ == st.task_id@
                                && pre.tasks@[j].list_id@ == id@;
                        if j != t {
                            assert(pre.tasks@[if j < t {
                                j
                            } else {
                                t
                            }].id@ != pre.tasks@[if j < t {
                                t
                            } else {
                                j
                            }].id@);
                        }
                    }
                    assert(subtask_survives(pre, id@)(st));
                } else {
                    assert(task_in_list(pre, st.task_id@, id@));
                    assert(!subtask_survives(pre, id@)(st));
                }
                crate::sorting::lemma_filter_push(
                    pre.subtasks@.subrange(0, i as int),
                    st,
                    subtask_survives(pre, id@),
                );
                assert(pre.subtasks@.subrange(0, i + 1) =~= pre.subtasks@.subrange(
                    0,
                    i as int,
                ).push(st));
            }
            if keep {
                let copy = self.subtasks[i].clone();
                kept_subtasks.push(copy);
            }
            i += 1;
        }
        proof {
            assert(pre.subtasks@.subrange(0, pre.subtasks@.len() as int) =~= pre.subtasks@);
        }
        let kept_tasks = filter_tasks_surviving(&self.tasks, id);
        let kept_lists = filter_lists_surviving(&self.lists, id);
        self.lists = kept_lists;
        self.tasks = kept_tasks;
        self.subtasks = kept_subtasks;
        proof {
            lemma_wf_after_list_delete(pre, *self, id@);
        }
        Result::Ok(())
    }
}

/// Copies the tasks that do not belong to the given list.
fn filter_tasks_surviving(tasks: &Vec<Task>, id: &str) -> (r: Vec<Task>)
    ensures
        r@ == tasks@.filter(task_survives(id@)),
{
    let mut out: Vec<Task> = Vec::new();
    let mut i: usize = 0;
    proof {
        assert(tasks@.subrange(0, 0) =~= Seq::<Task>::empty());
        reveal(Seq::filter);
    }
    while i < tasks.len()
        invariant
            i <= tasks@.len(),
            out@ == tasks@.subrange(0, i as int).filter(task_survives(id@)),
        decreases tasks@.len() - i,
    {
        proof {
            crate::sorting::lemma_filter_push(
                tasks@.subrange(0, i as int),
                tasks@[i as int],
                task_survives(id@),
            );
            assert(tasks@.subrange(0, i + 1) =~= tasks@.subrange(0, i as int).push(
                tasks@[i as int],
            ));
        }
        if !str_eq(tasks[i].list_id.as_str(), id) {
            let copy = tasks[i].clone();
            out.push(copy);
        }
        i += 1;
    }
    proof {
        assert(tasks@.subrange(0, tasks@.len() as int) =~= tasks@);
    }
    out
}

/// Copies the lists that do not carry the given id.
fn filter_lists_surviving(lists: &Vec<List>, id: &str) -> (r: Vec<List>)
    ensures
        r@ == lists@.filter(list_survives(id@)),
{
    let mut out: Vec<List> = Vec::new();
    let mut i: usize = 0;
    proof {
        assert(lists@.subrange(0, 0) =~= Seq::<List>::empty());
        reveal(Seq::filter);
    }
    while i < lists.len()
        invariant
            i <= lists@.len(),
            out@ == lists@.subrange(0, i as int).filter(list_survives(id@)),
        decreases lists@.len() - i,
    {
        proof {
            crate::sorting::lemma_filter_push(
                lists@.subrange(0, i as int),
                lists@[i as int],
                list_survives(id@),
            );
            assert(lists@.subrange(0, i + 1) =~= lists@.subrange(0, i as int).push(
                lists@[i as int],
            ));
        }
        if !str_eq(lists[i].id.as_str(), id) {
            let copy = lists[i].clone();
            out.push(copy);
        }
        i += 1;
    }
    proof {
        assert(lists@.subrange(0, lists@.len() as int) =~= lists@);
    }
    out
}

/// Filtering a sequence of lists with pairwise-distinct ids keeps the ids
/// pairwise distinct.
proof fn lemma_lists_filter_unique(s: Seq<List>, pred: spec_fn(List) -> bool)
    requires
        forall|i: int, j: int|
            #![trigger s[i].id@, s[j].id@]
            0 <= i < j < s.len() ==> s[i].id@ != s[j].id@,
    ensures
        forall|i: int, j: int|
            #![trigger s.filter(pred)[i].id@, s.filter(pred)[j].id@]
            0 <= i < j < s.filter(pred).len() ==> s.filter(pred)[i].id@ != s.filter(pred)[j].id@,
{
    let key = |l: List| l.id@;
    assert forall|i: int, j: int|
        #![trigger key(s[i]), key(s[j])]
        0 <= i < j < s.len() implies key(s[i]) != key(s[j]) by {
        assert(s[i].id@ != s[j].id@);
    }
    crate::sorting::lemma_filter_keeps_distinct(s, pred, key);
    assert forall|i: int, j: int|
        #![trigger s.filter(pred)[i].id@, s.filter(pred)[j].id@]
        0 <= i < j < s.filter(pred).len() implies s.filter(pred)[i].id@ != s.filter(
        pred,
    )[j].id@ by {
        assert(key(s.filter(pred)[i]) != key(s.filter(pred)[j]));
    }
}

/// Filtering a sequence of tasks with pairwise-distinct ids keeps the ids
/// pairwise distinct.
proof fn lemma_tasks_filter_unique(s: Seq<Task>, pred: spec_fn(Task) -> bool)
    requires
        forall|i: int, j: int|
            #![trigger s[i].id@, s[j].id@]
            0 <= i < j < s.len() ==> s[i].id@ != s[j].id@,
    ensures
        forall|i: int, j: int|
            #![trigger s.filter(pred)[i].id@, s.filter(pred)[j].id@]
            0 <= i < j < s.filter(pred).len() ==> s.filter(pred)[i].id@ != s.filter(pred)[j].id@,
{
    let key = |t: Task| t.id@;
    assert forall|i: int, j: int|
        #![trigger key(s[i]), key(s[j])]
        0 <= i < j < s.len() implies key(s[i]) != key(s[j]) by {
        assert(s[i].id@ != s[j].id@);
    }
    crate::sorting::lemma_filter_keeps_distinct(s, pred, key);
    assert forall|i: int, j: int|
        #![trigger s.filter(pred)[i].id@, s.filter(pred)[j].id@]
        0 <= i < j < s.filter(pred).len() implies s.filter(pred)[i].id@ != s.filter(
        pred,
    )[j].id@ by {
        assert(key(s.filter(pred)[i]) != key(s.filter(pred)[j]));
    }
}

/// Filtering a sequence of subtasks with pairwise-distinct ids keeps the
/// ids pairwise distinct.
pub(crate) proof fn lemma_subtasks_filter_unique(s: Seq<Subtask>, pred: spec_fn(Subtask) -> bool)
    requires
        forall|i: int, j: int|
            #![trigger s[i].id@, s[j].id@]
            0 <= i < j < s.len() ==> s[i].id@ != s[j].id@,
    ensures
        forall|i: int, j: int|
            #![trigger s.filter(pred)[i].id@, s.filter(pred)[j].id@]
            0 <= i < j < s.filter(pred).len() ==> s.filter(pred)[i].id@ != s.filter(pred)[j].id@,
{
    let key = |st: Subtask| st.id@;
    assert forall|i: int, j: int|
        #![trigger key(s[i]), key(s[j])]
        0 <= i < j < s.len() implies key(s[i]) != key(s[j]) by {
        assert(s[i].id@ != s[j].id@);
    }
    crate::sorting::lemma_filter_keeps_distinct(s, pred, key);
    assert forall|i: int, j: int|
        #![trigger s.filter(pred)[i].id@, s.filter(pred)[j].id@]
        0 <= i < j < s.filter(pred).len() implies s.filter(pred)[i].id@ != s.filter(
        pred,
    )[j].id@ by {
        assert(key(s.filter(pred)[i]) != key(s.filter(pred)[j]));
    }
}

/// Updating one list in place, without touching its id or default flag,
/// preserves the store invariant and the default list.
proof fn lemma_wf_after_list_update(pre: Store, post: Store, l: List, i: int)
    requires
        pre.wf(),
        0 <= i < pre.lists@.len(),
        l.id@ == pre.lists@[i].id@,
        l.is_default == pre.lists@[i].is_default,
        post.lists@ == pre.lists@.update(i, l),
        post.tasks@ == pre.tasks@,
        post.subtasks@ == pre.subtasks@,
    ensures
        post.wf(),
        pre.has_default_list() ==> post.has_default_list(),
{
    assert forall|id: Seq<char>| pre.has_list(id) implies post.has_list(id) by {
        let k = choose|k: int| 0 <= k < pre.lists@.len() && pre.lists@[k].id@ == id;
        assert(post.lists@[k].id@ == id);
    }
    assert forall|p: int, q: int|
        #![trigger post.lists@[p].id@, post.lists@[q].id@]
        0 <= p < q < post.lists@.len() implies post.lists@[p].id@ != post.lists@[q].id@ by {
        assert(pre.lists@[p].id@ != pre.lists@[q].id@);
        assert(post.lists@[p].id@ == pre.lists@[p].id@);
        assert(post.lists@[q].id@ == pre.lists@[q].id@);
    }
    assert forall|k: int| 0 <= k < post.tasks@.len() implies post.has_list(
        #[trigger] post.tasks@[k].list_id@,
    ) by {
        assert(pre.has_list(pre.tasks@[k].list_id@));
    }
    if pre.has_default_list() {
        let k = choose|k: int| 0 <= k < pre.lists@.len() && pre.lists@[k].is_default;
        assert(post.lists@[k].is_default);
    }
}

/// Removing one non-default list, the tasks in it and the subtasks of
/// those tasks preserves the store invariant and the default list.
proof fn lemma_wf_after_list_delete(pre: Store, post: Store, id: Seq<char>)
    requires
        pre.wf(),
        !default_list_id(pre, id),
        post.lists@ == pre.lists@.filter(list_survives(id)),
        post.tasks@ == pre.tasks@.filter(task_survives(id)),
        post.subtasks@ == pre.subtasks@.filter(subtask_survives(pre, id)),
    ensures
        post.wf(),
        pre.has_default_list() ==> post.has_default_list(),
{
    lemma_lists_filter_unique(pre.lists@, list_survives(id));
    lemma_tasks_filter_unique(pre.tasks@, task_survives(id));
    lemma_subtasks_filter_unique(pre.subtasks@, subtask_survives(pre, id));
    crate::sorting::lemma_filter_sub_elements(pre.lists@, list_survives(id));
    crate::sorting::lemma_filter_sub_elements(pre.tasks@, task_survives(id));
    crate::sorting::lemma_filter_sub_elements(pre.subtasks@, subtask_survives(pre, id));
    broadcast use vstd::seq_lib::group_filter_ensures;

    assert forall|k: int| 0 <= k < post.tasks@.len() implies post.has_list(
        #[trigger] post.tasks@[k].list_id@,
    ) by {
        let t = post.tasks@[k];
        assert(post.tasks@.contains(t));
        assert(pre.tasks@.contains(t));
        let p = choose|p: int| 0 <= p < pre.tasks@.len() && pre.tasks@[p] == t;
        assert(pre.has_list(pre.tasks@[p].list_id@));
        let q = choose|q: int| 0 <= q < pre.lists@.len() && pre.lists@[q].id@ == t.list_id@;
        assert(task_survives(id)(t));
        assert(t.list_id@ != id);
        assert(list_survives(id)(pre.lists@[q]));
        assert(post.lists@.contains(pre.lists@[q]));
        let w = choose|w: int| 0 <= w < post.lists@.len() && post.lists@[w] == pre.lists@[q];
        assert(post.lists@[w].id@ == t.list_id@);
    }
    assert forall|k: int| 0 <= k < post.subtasks@.len() implies post.has_task(
        #[trigger] post.subtasks@[k].task_id@,
    ) by {
        let st = post.subtasks@[k];
        assert(post.subtasks@.contains(st));
        assert(pre.subtasks@.contains(st));
        let p = choose|p: int| 0 <= p < pre.subtasks@.len() && pre.subtasks@[p] == st;
        assert(pre.has_task(pre.subtasks@[p].task_id@));
        let q = choose|q: int| 0 <= q < pre.tasks@.len() && pre.tasks@[q].id@ == st.task_id@;
        assert(subtask_survives(pre, id)(st));
        assert(!task_in_list(pre, st.task_id@, id));
        if pre.tasks@[q].list_id@ == id {
            assert(task_in_list(pre, st.task_id@, id));
        }
        assert(task_survives(id)(pre.tasks@[q]));
        assert(post.tasks@.contains(pre.tasks@[q]));
        let w = choose|w: int| 0 <= w < post.tasks@.len() && post.tasks@[w] == pre.tasks@[q];
        assert(post.tasks@[w].id@ == st.task_id@);
    }
    if pre.has_default_list() {
        let k = choose|k: int| 0 <= k < pre.lists@.len() && pre.lists@[k].is_default;
        if pre.lists@[k].id@ == id {
            assert(default_list_id(pre, id));
        }
        assert(list_survives(id)(pre.lists@[k]));
        assert(post.lists@.contains(pre.lists@[k]));
        let w = choose|w: int| 0 <= w < post.lists@.len() && post.lists@[w] == pre.lists@[k];
        assert(post.lists@[w].is_default);
    }
}

/// A freshly created task: fields from the input, flags off, both
/// timestamps set to the creation time.
pub open spec fn built_task(input: CreateTaskInput, id: String, now: String) -> Task {
    Task {
        id: id,
        title: input.title,
        content: input.content,
        is_completed: false,
        is_important: false,
        due_date: input.due_date,
        start_date: input.start_date,
        remind_time: input.remind_time,
        repeat_rule: input.repeat_rule,
        list_id: input.list_id,
        created_at: now,
        updated_at: now,
    }
}

/// A task after a partial update: supplied fields replace the old values,
/// absent fields keep them; the id and creation time never change, and the
/// update time is always refreshed.
pub open spec fn patched_task(t: Task, u: UpdateTaskInput, now: String) -> Task {
    Task {
        id: t.id,
        title: if u.title is Some {
            u.title->0
        } else {
            t.title
        },
        content: if u.content is Some {
            u.content
        } else {
            t.content
        },
        is_completed: if u.is_completed is Some {
            u.is_completed->0
        } else {
            t.is_completed
        },
        is_important: if u.is_important is Some {
            u.is_important->0
        } else {
            t.is_important
        },
        due_date: if u.due_date is Some {
            u.due_date
        } else {
            t.due_date
        },
        start_date: if u.start_date is Some {
            u.start_date
        } else {
            t.start_date
        },
        remind_time: if u.remind_time is Some {
            u.remind_time
        } else {
            t.remind_time
        },
        repeat_rule: if u.repeat_rule is Some {
            u.repeat_rule
        } else {
            t.repeat_rule
        },
        list_id: if u.list_id is Some {
            u.list_id->0
        } else {
            t.list_id
        },
        created_at: t.created_at,
        updated_at: now,
    }
}

/// A task with its importance flag flipped and its update time refreshed;
/// everything else is unchanged.
pub open spec fn toggled_important(t: Task, now: String) -> Task {
    Task {
        id: t.id,
        title: t.title,
        content: t.content,
        is_completed: t.is_completed,
        is_important: !t.is_important,
        due_date: t.due_date,
        start_date: t.start_date,
        remind_time: t.remind_time,
        repeat_rule: t.repeat_rule,
        list_id: t.list_id,
        created_at: t.created_at,
        updated_at: now,
    }
}

/// A task with its completion flag flipped and its update time refreshed;
/// everything else is unchanged.
pub open spec fn toggled_completed(t: Task, now: String) -> Task {
    Task {
        id: t.id,
        title: t.title,
        content: t.content,
        is_completed: !t.is_completed,
        is_important: t.is_important,
        due_date: t.due_date,
        start_date: t.start_date,
        remind_time: t.remind_time,
        repeat_rule: t.repeat_rule,
        list_id: t.list_id,
        created_at: t.created_at,
        updated_at: now,
    }
}

/// Keeps the tasks that do not carry the deleted id.
pub open spec fn task_id_differs(id: Seq<char>) -> spec_fn(Task) -> bool {
    |t: Task| t.id@ != id
}

/// Keeps the subtasks that do not belong to the deleted task.
pub open spec fn not_of_task(id: Seq<char>) -> spec_fn(Subtask) -> bool {
    |st: Subtask| st.task_id@ != id
}

impl Store {
    /// Creates a task from the given id and creation time. The referenced
    /// list must exist and the id must be new; otherwise the operation is
    /// a storage failure and the store is unchanged.
    pub fn create_task_with(&mut self, input: CreateTaskInput, id: String, now: String) -> (r:
        Result<Task, StoreError>)
        requires
            old(self).wf(),
        ensures
            final(self).wf(),
            final(self).lists == old(self).lists,
            final(self).subtasks == old(self).subtasks,
            match r {
                Result::Ok(t) => {
                    &&& !old(self).has_task(id@)
                    &&& old(self).has_list(input.list_id@)
                    &&& t == built_task(input, id, now)
                    &&& final(self).tasks@ == old(self).tasks@.push(t)
                },
                Result::Err(e) => {
                    &&& e == StoreError::StorageFailure
                    &&& (old(self).has_task(id@) || !old(self).has_list(input.list_id@))
                    &&& *final(self) == *old(self)
                },
            },
    {
        if let Option::Some(_) = self.find_task_index(id.as_str()) {
            return Result::Err(StoreError::StorageFailure);
        }
        if let Option::None = self.find_list_index(input.list_id.as_str()) {
            return Result::Err(StoreError::StorageFailure);
        }
        let created_at = now.clone();
        let t = Task {
            id,
            title: input.title,
            content: input.content,
            is_completed: false,
            is_important: false,
            due_date: input.due_date,
            start_date: input.start_date,
            remind_time: input.remind_time,
            repeat_rule: input.repeat_rule,
            list_id: input.list_id,
            created_at,
            updated_at: now,
        };
        let record = t.clone();
        let ghost pre = *self;
        let ghost gt = t;
        self.tasks.push(t);
        proof {
            lemma_wf_after_task_push(pre, *self, gt);
        }
        Result::Ok(record)
    }

    /// Creates a task under a freshly drawn id and the current time. The
    /// failure case is a missing list or a colliding random id.
    pub fn create_task(&mut self, input: CreateTaskInput) -> (r: Result<Task, StoreError>)
        requires
            old(self).wf(),
        ensures
            final(self).wf(),
            final(self).lists == old(self).lists,
            final(self).subtasks == old(self).subtasks,
            old(self).tasks@.len() == 0 && old(self).has_list(input.list_id@) ==> (r is Ok),
            match r {
                Result::Ok(t) => {
                    &&& !old(self).has_task(t.id@)
                    &&& old(self).has_list(input.list_id@)
                    &&& t.id@.len() == 36
                    &&& t.title == input.title
                    &&& t.content == input.content
                    &&& t.is_completed == false
                    &&& t.is_important == false
                    &&& t.due_date == input.due_date
                    &&& t.start_date == input.start_date
                    &&& t.remind_time == input.remind_time
                    &&& t.repeat_rule == input.repeat_rule
                    &&& t.list_id == input.list_id
                    &&& t.created_at == t.updated_at
                    &&& final(self).tasks@ == old(self).tasks@.push(t)
                },
                Result::Err(e) => {
                    &&& e == StoreError::StorageFailure
                    &&& *final(self) == *old(self)
                },
            },
    {
        let id = fresh_uuid();
        let now = now_rfc3339();
        self.create_task_with(input, id, now)
    }

    /// Applies a partial update to the task with the given id: absent
    /// fields are left unchanged, and the update time is refreshed. Fails
    /// with `NotFound` for an unknown id, and with a storage failure when
    /// the update would move the task to a missing list.
    pub fn update_task_with(&mut self, input: UpdateTaskInput, now: String) -> (r: Result<
        Task,
        StoreError,
    >)
        requires
            old(self).wf(),
        ensures
            final(self).wf(),
            final(self).lists == old(self).lists,
            final(self).subtasks == old(self).subtasks,
            match r {
                Result::Ok(t) => exists|i: int|
                    {
                        &&& 0 <= i < old(self).tasks@.len()
                        &&& (#[trigger] old(self).tasks@[i]).id@ == input.id@
                        &&& t == patched_task(old(self).tasks@[i], input, now)
                        &&& final(self).tasks@ == old(self).tasks@.update(i, t)
                    },
                Result::Err(e) => {
                    &&& *final(self) == *old(self)
                    &&& (e == StoreError::NotFound || e == StoreError::StorageFailure)
                    &&& (e == StoreError::NotFound <==> !old(self).has_task(input.id@))
                    &&& (e == StoreError::StorageFailure <==> old(self).has_task(input.id@)
                        && input.list_id is Some && !old(self).has_list(input.list_id->0@))
                },
            },
    {
        let idx = match self.find_task_index(input.id.as_str()) {
            Option::None => {
                return Result::Err(StoreError::NotFound);
            },
            Option::Some(i) => i,
        };
        if let Option::Some(lid) = &input.list_id {
            if let Option::None = self.find_list_index(lid.as_str()) {
                return Result::Err(StoreError::StorageFailure);
            }
        }
        let mut nt = self.tasks[idx].clone();
        if let Option::Some(title) = input.title {
            nt.title = title;
        }
        if let Option::Some(content) = input.content {
            nt.content = Option::Some(content);
        }
        if let Option::Some(is_completed) = input.is_completed {
            nt.is_completed = is_completed;
        }
        if let Option::Some(is_important) = input.is_important {
            nt.is_important = is_important;
        }
        if let Option::Some(due_date) = input.due_date {
            nt.due_date = Option::Some(due_date);
        }
        if let Option::Some(start_date) = input.start_date {
            nt.start_date = Option::Some(start_date);
        }
        if let Option::Some(remind_time) = input.remind_time {
            nt.remind_time = Option::Some(remind_time);
        }
        if let Option::Some(repeat_rule) = input.repeat_rule {
            nt.repeat_rule = Option::Some(repeat_rule);
        }
        if let Option::Some(list_id) = input.list_id {
            nt.list_id = list_id;
        }
        nt.updated_at = now;
        let record = nt.clone();
        let ghost pre = *self;
        let ghost gt = nt;
        self.tasks.set(idx, nt);
        proof {
            lemma_wf_after_task_update(pre, *self, gt, idx as int);
        }
        Result::Ok(record)
    }

    /// Applies a partial update under the current time.
    pub fn update_task(&mut self, input: UpdateTaskInput) -> (r: Result<Task, StoreError>)
        requires
            old(self).wf(),
        ensures
            final(self).wf(),
            final(self).lists == old(self).lists,
            final(self).subtasks == old(self).subtasks,
            match r {
                Result::Ok(t) => exists|i: int, now: String|
                    {
                        &&& 0 <= i < old(self).tasks@.len()
                        &&& old(self).tasks@[i].id@ == input.id@
                        &&& t == #[trigger] patched_task(old(self).tasks@[i], input, now)
                        &&& final(self).tasks@ == old(self).tasks@.update(i, t)
                    },
                Result::Err(e) => {
                    &&& *final(self) == *old(self)
                    &&& (e == StoreError::NotFound || e == StoreError::StorageFailure)
                    &&& (e == StoreError::NotFound <==> !old(self).has_task(input.id@))
                    &&& (e == StoreError::StorageFailure <==> old(self).has_task(input.id@)
                        && input.list_id is Some && !old(self).has_list(input.list_id->0@))
                },
            },
    {
        let now = now_rfc3339();
        self.update_task_with(input, now)
    }

    /// Deletes the task with the given id, if present, together with its
    /// subtasks. Deleting an absent id is not an error.
    pub fn delete_task(&mut self, id: &str) -> (r: Result<(), StoreError>)
        requires
            old(self).wf(),
        ensures
            final(self).wf(),
            final(self).lists == old(self).lists,
            r is Ok,
            final(self).tasks@ == old(self).tasks@.filter(task_id_differs(id@)),
            final(self).subtasks@ == old(self).subtasks@.filter(not_of_task(id@)),
    {
        let kept_tasks = filter_tasks_with_other_id(&self.tasks, id);
        let kept_subtasks = filter_subtasks_of_other_tasks(&self.subtasks, id);
        let ghost pre = *self;
        self.tasks = kept_tasks;
        self.subtasks = kept_subtasks;
        proof {
            lemma_wf_after_task_delete(pre, *self, id@);
        }
        Result::Ok(())
    }

    /// Flips the importance flag of the task with the given id and
    /// refreshes its update time. Fails with `NotFound` for an unknown id.
    pub fn toggle_task_important_with(&mut self, id: &str, now: String) -> (r: Result<
        Task,
        StoreError,
    >)
        requires
            old(self).wf(),
        ensures
            final(self).wf(),
            final(self).lists == old(self).lists,
            final(self).subtasks == old(self).subtasks,
            match r {
                Result::Ok(t) => exists|i: int|
                    {
                        &&& 0 <= i < old(self).tasks@.len()
                        &&& (#[trigger] old(self).tasks@[i]).id@ == id@
                        &&& t == toggled_important(old(self).tasks@[i], now)
                        &&& final(self).tasks@ == old(self).tasks@.update(i, t)
                    },
                Result::Err(e) => {
                    &&& e == StoreError::NotFound
                    &&& !old(self).has_task(id@)
                    &&& *final(self) == *old(self)
                },
            },
    {
        let idx = match self.find_task_index(id) {
            Option::None => {
                return Result::Err(StoreError::NotFound);
            },
            Option::Some(i) => i,
        };
        let mut nt = self.tasks[idx].clone();
        nt.is_important = !nt.is_important;
        nt.updated_at = now;
        let record = nt.clone();
        let ghost pre = *self;
        let ghost gt = nt;
        self.tasks.set(idx, nt);
        proof {
            lemma_wf_after_task_update(pre, *self, gt, idx as int);
        }
        Result::Ok(record)
    }

    /// Flips the importance flag under the current time.
    pub fn toggle_task_important(&mut self, id: &str) -> (r: Result<Task, StoreError>)
        requires
            old(self).wf(),
        ensures
            final(self).wf(),
            final(self).lists == old(self).lists,
            final(self).subtasks == old(self).subtasks,
            match r {
                Result::Ok(t) => exists|i: int, now: String|
                    {
                        &&& 0 <= i < old(self).tasks@.len()
                        &&& old(self).tasks@[i].id@ == id@
                        &&& t == #[trigger] toggled_important(old(self).tasks@[i], now)
                        &&& final(self).tasks@ == old(self).tasks@.update(i, t)
                    },
                Result::Err(e) => {
                    &&& e == StoreError::NotFound
                    &&& !old(self).has_task(id@)
                    &&& *final(self) == *old(self)
                },
            },
    {
        let now = now_rfc3339();
        self.toggle_task_important_with(id, now)
    }

    /// Flips the completion flag of the task with the given id and
    /// refreshes its update time. Fails with `NotFound` for an unknown id.
    pub fn toggle_task_completed_with(&mut self, id: &str, now: String) -> (r: Result<
        Task,
        StoreError,
    >)
        requires
            old(self).wf(),
        ensures
            final(self).wf(),
            final(self).lists == old(self).lists,
            final(self).subtasks == old(self).subtasks,
            match r {
                Result::Ok(t) => exists|i: int|
                    {
                        &&& 0 <= i < old(self).tasks@.len()
                        &&& (#[trigger] old(self).tasks@[i]).id@ == id@
                        &&& t == toggled_completed(old(self).tasks@[i], now)
                        &&& final(self).tasks@ == old(self).tasks@.update(i, t)
                    },
                Result::Err(e) => {
                    &&& e == StoreError::NotFound
                    &&& !old(self).has_task(id@)
                    &&& *final(self) == *old(self)
                },
            },
    {
        let idx = match self.find_task_index(id) {
            Option::None => {
                return Result::Err(StoreError::NotFound);
            },
            Option::Some(i) => i,
        };
        let mut nt = self.tasks[idx].clone();
        nt.is_completed = !nt.is_completed;
        nt.updated_at = now;
        let record = nt.clone();
        let ghost pre = *self;
        let ghost gt = nt;
        self.tasks.set(idx, nt);
        proof {
            lemma_wf_after_task_update(pre, *self, gt, idx as int);
        }
        Result::Ok(record)
    }

    /// Flips the completion flag under the current time.
    pub fn toggle_task_completed(&mut self, id: &str) -> (r: Result<Task, StoreError>)
        requires
            old(self).wf(),
        ensures
            final(self).wf(),
            final(self).lists == old(self).lists,
            final(self).subtasks == old(self).subtasks,
            match r {
                Result::Ok(t) => exists|i: int, now: String|
                    {
                        &&& 0 <= i < old(self).tasks@.len()
                        &&& old(self).tasks@[i].id@ == id@
                        &&& t == #[trigger] toggled_completed(old(self).tasks@[i], now)
                        &&& final(self).tasks@ == old(self).tasks@.update(i, t)
                    },
                Result::Err(e) => {
                    &&& e == StoreError::NotFound
                    &&& !old(self).has_task(id@)
                    &&& *final(self) == *old(self)
                },
            },
    {
        let now = now_rfc3339();
        self.toggle_task_completed_with(id, now)
    }
}

/// Copies the tasks whose id differs from the given one.
fn filter_tasks_with_other_id(tasks: &Vec<Task>, id: &str) -> (r: Vec<Task>)
    ensures
        r@ == tasks@.filter(task_id_differs(id@)),
{
    let mut out: Vec<Task> = Vec::new();
    let mut i: usize = 0;
    proof {
        assert(tasks@.subrange(0, 0) =~= Seq::<Task>::empty());
        reveal(Seq::filter);
    }
    while i < tasks.len()
        invariant
            i <= tasks@.len(),
            out@ == tasks@.subrange(0, i as int).filter(task_id_differs(id@)),
        decreases tasks@.len() - i,
    {
        proof {
            crate::sorting::lemma_filter_push(
                tasks@.subrange(0, i as int),
                tasks@[i as int],
                task_id_differs(id@),
            );
            assert(tasks@.subrange(0, i + 1) =~= tasks@.subrange(0, i as int).push(
                tasks@[i as int],
            ));
        }
        if !str_eq(tasks[i].id.as_str(), id) {
            let copy = tasks[i].clone();
            out.push(copy);
        }
        i += 1;
    }
    proof {
        assert(tasks@.subrange(0, tasks@.len() as int) =~= tasks@);
    }
    out
}

/// Copies the subtasks whose parent task id differs from the given one.
fn filter_subtasks_of_other_tasks(subtasks: &Vec<Subtask>, id: &str) -> (r: Vec<Subtask>)
    ensures
        r@ == subtasks@.filter(not_of_task(id@)),
{
    let mut out: Vec<Subtask> = Vec::new();
    let mut i: usize = 0;
    proof {
        assert(subtasks@.subrange(0, 0) =~= Seq::<Subtask>::empty());
        reveal(Seq::filter);
    }
    while i < subtasks.len()
        invariant
            i <= subtasks@.len(),
            out@ == subtasks@.subrange(0, i as int).filter(not_of_task(id@)),
        decreases subtasks@.len() - i,
    {
        proof {
            crate::sorting::lemma_filter_push(
                subtasks@.subrange(0, i as int),
                subtasks@[i as int],
                not_of_task(id@),
            );
            assert(subtasks@.subrange(0, i + 1) =~= subtasks@.subrange(0, i as int).push(
                subtasks@[i as int],
            ));
        }
        if !str_eq(subtasks[i].task_id.as_str(), id) {
            let copy = subtasks[i].clone();
            out.push(copy);
        }
        i += 1;
    }
    proof {
        assert(subtasks@.subrange(0, subtasks@.len() as int) =~= subtasks@);
    }
    out
}

/// Appending a task that references an existing list under a new id
/// preserves the store invariant.
pub(crate) proof fn lemma_wf_after_task_push(pre: Store, post: Store, t: Task)
    requires
        pre.wf(),
        !pre.has_task(t.id@),
        pre.has_list(t.list_id@),
        post.tasks@ == pre.tasks@.push(t),
        post.lists@ == pre.lists@,
        post.subtasks@ == pre.subtasks@,
    ensures
        post.wf(),
{
    assert forall|id: Seq<char>| pre.has_task(id) implies post.has_task(id) by {
        let i = choose|i: int| 0 <= i < pre.tasks@.len() && pre.tasks@[i].id@ == id;
        assert(post.tasks@[i].id@ == id);
    }
    assert forall|i: int, j: int|
        #![trigger post.tasks@[i].id@, post.tasks@[j].id@]
        0 <= i < j < post.tasks@.len() implies post.tasks@[i].id@ != post.tasks@[j].id@ by {
        if j < pre.tasks@.len() {
            assert(pre.tasks@[i].id@ != pre.tasks@[j].id@);
        } else {
            assert(post.tasks@[j] == t);
            assert(post.tasks@[i] == pre.tasks@[i]);
            if pre.tasks@[i].id@ == t.id@ {
                assert(pre.has_task(t.id@));
            }
        }
    }
    assert forall|i: int| 0 <= i < post.tasks@.len() implies post.has_list(
        #[trigger] post.tasks@[i].list_id@,
    ) by {
        if i < pre.tasks@.len() {
            assert(pre.has_list(pre.tasks@[i].list_id@));
        } else {
            assert(post.tasks@[i] == t);
        }
    }
    assert forall|i: int| 0 <= i < post.subtasks@.len() implies post.has_task(
        #[trigger] post.subtasks@[i].task_id@,
    ) by {
        assert(pre.has_task(pre.subtasks@[i].task_id@));
    }
}

/// Replacing one task in place, without touching its id and with its list
/// reference intact, preserves the store invariant.
proof fn lemma_wf_after_task_update(pre: Store, post: Store, t: Task, i: int)
    requires
        pre.wf(),
        0 <= i < pre.tasks@.len(),
        t.id@ == pre.tasks@[i].id@,
        pre.has_list(t.list_id@),
        post.tasks@ == pre.tasks@.update(i, t),
        post.lists@ == pre.lists@,
        post.subtasks@ == pre.subtasks@,
    ensures
        post.wf(),
{
    assert forall|id: Seq<char>| pre.has_task(id) implies post.has_task(id) by {
        let k = choose|k: int| 0 <= k < pre.tasks@.len() && pre.tasks@[k].id@ == id;
        assert(post.tasks@[k].id@ == id);
    }
    assert forall|p: int, q: int|
        #![trigger post.tasks@[p].id@, post.tasks@[q].id@]
        0 <= p < q < post.tasks@.len() implies post.tasks@[p].id@ != post.tasks@[q].id@ by {
        assert(pre.tasks@[p].id@ != pre.tasks@[q].id@);
        assert(post.tasks@[p].id@ == pre.tasks@[p].id@);
        assert(post.tasks@[q].id@ == pre.tasks@[q].id@);
    }
    assert forall|k: int| 0 <= k < post.tasks@.len() implies post.has_list(
        #[trigger] post.tasks@[k].list_id@,
    ) by {
        if k != i {
            assert(pre.has_list(pre.tasks@[k].list_id@));
        }
    }
    assert forall|k: int| 0 <= k < post.subtasks@.len() implies post.has_task(
        #[trigger] post.subtasks@[k].task_id@,
    ) by {
        assert(pre.has_task(pre.subtasks@[k].task_id@));
    }
}

/// Removing one task and its subtasks preserves the store invariant.
proof fn lemma_wf_after_task_delete(pre: Store, post: Store, id: Seq<char>)
    requires
        pre.wf(),
        post.tasks@ == pre.tasks@.filter(task_id_differs(id)),
        post.subtasks@ == pre.subtasks@.filter(not_of_task(id)),
        post.lists@ == pre.lists@,
    ensures
        post.wf(),
{
    lemma_tasks_filter_unique(pre.tasks@, task_id_differs(id));
    lemma_subtasks_filter_unique(pre.subtasks@, not_of_task(id));
    crate::sorting::lemma_filter_sub_elements(pre.tasks@, task_id_differs(id));
    crate::sorting::lemma_filter_sub_elements(pre.subtasks@, not_of_task(id));
    broadcast use vstd::seq_lib::group_filter_ensures;

    assert forall|k: int| 0 <= k < post.tasks@.len() implies post.has_list(
        #[trigger] post.tasks@[k].list_id@,
    ) by {
        let t = post.tasks@[k];
        assert(post.tasks@.contains(t));
        assert(pre.tasks@.contains(t));
        let p = choose|p: int| 0 <= p < pre.tasks@.len() && pre.tasks@[p] == t;
        assert(pre.has_list(pre.tasks@[p].list_id@));
    }
    assert forall|k: int| 0 <= k < post.subtasks@.len() implies post.has_task(
        #[trigger] post.subtasks@[k].task_id@,
    ) by {
        let st = post.subtasks@[k];
        assert(post.subtasks@.contains(st));
        assert(pre.subtasks@.contains(st));
        let p = choose|p: int| 0 <= p < pre.subtasks@.len() && pre.subtasks@[p] == st;
        assert(pre.has_task(pre.subtasks@[p].task_id@));
        let q = choose|q: int| 0 <= q < pre.tasks@.len() && pre.tasks@[q].id@ == st.task_id@;
        assert(not_of_task(id)(st));
        assert(st.task_id@ != id);
        assert(task_id_differs(id)(pre.tasks@[q]));
        assert(post.tasks@.contains(pre.tasks@[q]));
        let w = choose|w: int| 0 <= w < post.tasks@.len() && post.tasks@[w] == pre.tasks@[q];
        assert(post.tasks@[w].id@ == st.task_id@);
    }
}

/// Appending a list with a new id preserves the store invariant, and keeps
/// or establishes the default list.
proof fn lemma_wf_after_list_push(pre: Store, post: Store, l: List)
    requires
        pre.wf(),
        !pre.has_list(l.id@),
        post.lists@ == pre.lists@.push(l),
        post.tasks@ == pre.tasks@,
        post.subtasks@ == pre.subtasks@,
    ensures
        post.wf(),
        pre.has_default_list() ==> post.has_default_list(),
        l.is_default ==> post.has_default_list(),
{
    assert forall|id: Seq<char>| pre.has_list(id) implies post.has_list(id) by {
        let i = choose|i: int| 0 <= i < pre.lists@.len() && pre.lists@[i].id@ == id;
        assert(post.lists@[i].id@ == id);
    }
    assert forall|i: int, j: int|
        #![trigger post.lists@[i].id@, post.lists@[j].id@]
        0 <= i < j < post.lists@.len() implies post.lists@[i].id@ != post.lists@[j].id@ by {
        if j < pre.lists@.len() {
            assert(pre.lists@[i].id@ != pre.lists@[j].id@);
        } else {
            assert(post.lists@[j] == l);
            assert(post.lists@[i] == pre.lists@[i]);
            if pre.lists@[i].id@ == l.id@ {
                assert(pre.has_list(l.id@));
            }
        }
    }
    assert forall|i: int| 0 <= i < post.tasks@.len() implies post.has_list(
        #[trigger] post.tasks@[i].list_id@,
    ) by {
        assert(pre.has_list(pre.tasks@[i].list_id@));
    }
    if pre.has_default_list() {
        let i = choose|i: int| 0 <= i < pre.lists@.len() && pre.lists@[i].is_default;
        assert(post.lists@[i].is_default);
    }
    if l.is_default {
        assert(post.lists@[pre.lists@.len() as int].is_default);
    }
}

} // verus!
