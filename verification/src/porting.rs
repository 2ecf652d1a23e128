//! Export and import: a snapshot document of lists and tasks, and the
//! merge that brings one back in. Lists are inserted only when their id is
//! absent; tasks are always inserted again under fresh ids and fresh
//! timestamps, so importing the same document twice duplicates tasks but
//! never lists.

use crate::model::{List, StoreError, Task};
use crate::runtime::{fresh_uuid, now_rfc3339};
use crate::sorting::{task_leq, TaskOrder};
use crate::store::{in_list, Store};
use crate::text::str_eq;
use vstd::prelude::*;
use vstd::relations::sorted_by;
use vstd::string::StringExecFns;

verus! {

/// A portable snapshot: a format version, the moment of the export, the
/// exported tasks and every list.
#[derive(Debug)]
pub struct ExportData {
    pub version: String,
    pub export_date: String,
    pub tasks: Vec<Task>,
    pub lists: Vec<List>,
}

/// Some list in the sequence carries this id.
pub open spec fn list_ids_has(s: Seq<List>, id: Seq<char>) -> bool {
    exists|i: int| 0 <= i < s.len() && #[trigger] s[i].id@ == id
}

/// The lists after an import: each incoming list is appended only if its
/// id is absent at that point; existing lists are never touched.
pub open spec fn merge_lists(existing: Seq<List>, incoming: Seq<List>) -> Seq<List>
    decreases incoming.len(),
{
    if incoming.len() == 0 {
        existing
    } else {
        let first = incoming[0];
        let ex2 = if list_ids_has(existing, first.id@) {
            existing
        } else {
            existing.push(first)
        };
        merge_lists(ex2, incoming.skip(1))
    }
}

/// A task as re-created by an import: the payload of the original under a
/// fresh id, with both timestamps set to the import time and the original
/// list reference preserved.
pub open spec fn imported_task(t: Task, id: String, now: String) -> Task {
    Task {
        id: id,
        title: t.title,
        content: t.content,
        is_completed: t.is_completed,
        is_important: t.is_important,
        due_date: t.due_date,
        start_date: t.start_date,
        remind_time: t.remind_time,
        repeat_rule: t.repeat_rule,
        list_id: t.list_id,
        created_at: now,
        updated_at: now,
    }
}

/// An import succeeds exactly when the fresh ids are new and pairwise
/// distinct and every incoming task references a list present after the
/// list merge.
pub open spec fn import_fits(s: Store, tasks: Seq<Task>, lists: Seq<List>, ids: Seq<String>) -> bool {
    &&& forall|k: int| 0 <= k < ids.len() ==> !s.has_task((#[trigger] ids[k])@)
    &&& forall|k: int, l: int|
        #![trigger ids[k], ids[l]]
        0 <= k < l < ids.len() ==> ids[k]@ != ids[l]@
    &&& forall|k: int|
        0 <= k < tasks.len() ==> list_ids_has(
            merge_lists(s.lists@, lists),
            (#[trigger] tasks[k]).list_id@,
        )
}

/// Copies a vector of lists.
fn clone_lists(lists: &Vec<List>) -> (r: Vec<List>)
    ensures
        r@ == lists@,
{
    let mut out: Vec<List> = Vec::new();
    let mut i: usize = 0;
    while i < lists.len()
        invariant
            i <= lists@.len(),
            out@ == lists@.subrange(0, i as int),
        decreases lists@.len() - i,
    {
        let copy = lists[i].clone();
        out.push(copy);
        proof {
            assert(lists@.subrange(0, i + 1) =~= lists@.subrange(0, i as int).push(
                lists@[i as int],
            ));
        }
        i += 1;
    }
    proof {
        assert(lists@.subrange(0, lists@.len() as int) =~= lists@);
    }
    out
}

/// Whether some list in the vector carries this id.
fn vec_has_list_id(lists: &Vec<List>, id: &str) -> (r: bool)
    ensures
        r == list_ids_has(lists@, id@),
{
    let mut i: usize = 0;
    while i < lists.len()
        invariant
            i <= lists@.len(),
            forall|k: int| 0 <= k < i ==> #[trigger] lists@[k].id@ != id@,
        decreases lists@.len() - i,
    {
        if str_eq(lists[i].id.as_str(), id) {
            return true;
        }
        i += 1;
    }
    false
}

/// Merges the incoming lists into a copy of the existing ones, skipping
/// ids that are already present.
fn merged_lists_from(existing: &Vec<List>, incoming: &Vec<List>) -> (r: Vec<List>)
    requires
        forall|p: int, q: int|
            #![trigger existing@[p].id@, existing@[q].id@]
            0 <= p < q < existing@.len() ==> existing@[p].id@ != existing@[q].id@,
    ensures
        r@ == merge_lists(existing@, incoming@),
        r@.len() >= existing@.len(),
        r@.subrange(0, existing@.len() as int) == existing@,
        forall|p: int, q: int|
            #![trigger r@[p].id@, r@[q].id@]
            0 <= p < q < r@.len() ==> r@[p].id@ != r@[q].id@,
{
    let mut merged = clone_lists(existing);
    let mut i: usize = 0;
    proof {
        assert(incoming@.skip(0) =~= incoming@);
        assert(merged@.subrange(0, existing@.len() as int) =~= existing@);
    }
    while i < incoming.len()
        invariant
            i <= incoming@.len(),
            merge_lists(existing@, incoming@) == merge_lists(merged@, incoming@.skip(i as int)),
            merged@.len() >= existing@.len(),
            merged@.subrange(0, existing@.len() as int) == existing@,
            forall|p: int, q: int|
                #![trigger merged@[p].id@, merged@[q].id@]
                0 <= p < q < merged@.len() ==> merged@[p].id@ != merged@[q].id@,
        decreases incoming@.len() - i,
    {
        let present = vec_has_list_id(&merged, incoming[i].id.as_str());
        let ghost s = incoming@.skip(i as int);
        let ghost before = merged@;
        proof {
            assert(s.len() > 0);
            assert(s[0] == incoming@[i as int]);
            assert(s.skip(1) =~= incoming@.skip(i + 1));
        }
        if !present {
            let copy = incoming[i].clone();
            merged.push(copy);
            proof {
                assert(merged@ == before.push(incoming@[i as int]));
                assert(merged@.subrange(0, existing@.len() as int) =~= existing@);
                assert forall|p: int, q: int|
                    #![trigger merged@[p].id@, merged@[q].id@]
                    0 <= p < q < merged@.len() implies merged@[p].id@ != merged@[q].id@ by {
                    if q < before.len() {
                        assert(before[p].id@ != before[q].id@);
                    } else {
                        assert(merged@[q] == incoming@[i as int]);
                        assert(merged@[p] == before[p]);
                        if before[p].id@ == incoming@[i as int].id@ {
                            assert(list_ids_has(before, incoming@[i as int].id@));
                        }
                    }
                }
            }
        }
        proof {
            assert(merge_lists(before, s) == merge_lists(merged@, s.skip(1)));
        }
        i += 1;
    }
    proof {
        assert(incoming@.skip(incoming@.len() as int).len() == 0);
    }
    merged
}

impl Store {
    /// Builds the export document as of the given moment: all tasks, or
    /// the tasks of one list, in the standard order, together with every
    /// list as stored.
    pub fn export_tasks_with(&self, list_id: Option<&str>, export_date: String) -> (r: ExportData)
        ensures
            r.version@ == "1.0"@,
            r.export_date == export_date,
            sorted_by(r.tasks@, task_leq(TaskOrder::Standard)),
            match list_id {
                Option::Some(lid) => r.tasks@.to_multiset() == self.tasks@.filter(
                    in_list(lid@),
                ).to_multiset(),
                Option::None => r.tasks@.to_multiset() == self.tasks@.to_multiset(),
            },
            r.lists@ == self.lists@,
    {
        let tasks = self.get_tasks(list_id);
        let lists = clone_lists(&self.lists);
        ExportData { version: String::from_str("1.0"), export_date, tasks, lists }
    }

    /// Builds the export document as of the current time.
    pub fn export_tasks(&self, list_id: Option<&str>) -> (r: ExportData)
        ensures
            r.version@ == "1.0"@,
            sorted_by(r.tasks@, task_leq(TaskOrder::Standard)),
            match list_id {
                Option::Some(lid) => r.tasks@.to_multiset() == self.tasks@.filter(
                    in_list(lid@),
                ).to_multiset(),
                Option::None => r.tasks@.to_multiset() == self.tasks@.to_multiset(),
            },
            r.lists@ == self.lists@,
    {
        let now = now_rfc3339();
        self.export_tasks_with(list_id, now)
    }

    /// Imports a document under the given fresh ids and import time:
    /// absent lists are re-created as they were, and every task in the
    /// document is inserted again as a new record. The whole import either
    /// applies or leaves the store unchanged.
    pub fn import_tasks_with(&mut self, tasks: &Vec<Task>, lists: &Vec<List>, ids: Vec<String>, now: String) -> (r:
        Result<Vec<Task>, StoreError>)
        requires
            old(self).wf(),
            ids@.len() == tasks@.len(),
        ensures
            final(self).wf(),
            old(self).has_default_list() ==> final(self).has_default_list(),
            match r {
                Result::Ok(out) => {
                    &&& import_fits(*old(self), tasks@, lists@, ids@)
                    &&& final(self).lists@ == merge_lists(old(self).lists@, lists@)
                    &&& out@.len() == tasks@.len()
                    &&& forall|k: int|
                        0 <= k < out@.len() ==> out@[k] == imported_task(
                            #[trigger] tasks@[k],
                            ids@[k],
                            now,
                        )
                    &&& final(self).tasks@ == old(self).tasks@ + out@
                    &&& final(self).subtasks == old(self).subtasks
                },
                Result::Err(e) => {
                    &&& e == StoreError::StorageFailure
                    &&& !import_fits(*old(self), tasks@, lists@, ids@)
                    &&& *final(self) == *old(self)
                },
            },
    {
        let merged = merged_lists_from(&self.lists, lists);
        if !self.ids_fresh_and_distinct(&ids) {
            return Result::Err(StoreError::StorageFailure);
        }
        if !tasks_reference_lists(tasks, &merged) {
            proof {
                assert(!import_fits(*self, tasks@, lists@, ids@));
            }
            return Result::Err(StoreError::StorageFailure);
        }
        let ghost pre = *self;
        self.lists = merged;
        proof {
            lemma_wf_after_lists_grow(pre, *self);
        }
        let ghost mid = *self;
        let mut out: Vec<Task> = Vec::new();
        let mut k: usize = 0;
        proof {
            assert(mid.tasks@ + out@ =~= mid.tasks@);
        }
        while k < tasks.len()
            invariant
                k <= tasks@.len(),
                ids@.len() == tasks@.len(),
                self.wf(),
                self.lists == mid.lists,
                self.subtasks == mid.subtasks,
                mid.tasks@ == pre.tasks@,
                mid.lists@ == merge_lists(pre.lists@, lists@),
                out@.len() == k,
                self.tasks@ == mid.tasks@ + out@,
                forall|j: int|
                    0 <= j < k ==> out@[j] == imported_task(#[trigger] tasks@[j], ids@[j], now),
                forall|j: int| 0 <= j < ids@.len() ==> !pre.has_task((#[trigger] ids@[j])@),
                forall|j: int, l: int|
                    #![trigger ids@[j], ids@[l]]
                    0 <= j < l < ids@.len() ==> ids@[j]@ != ids@[l]@,
                forall|j: int|
                    0 <= j < tasks@.len() ==> list_ids_has(
                        mid.lists@,
                        (#[trigger] tasks@[j]).list_id@,
                    ),
            decreases tasks@.len() - k,
        {
            let t = Task {
                id: ids[k].clone(),
                title: tasks[k].title.clone(),
                content: tasks[k].content.clone(),
                is_completed: tasks[k].is_completed,
                is_important: tasks[k].is_important,
                due_date: tasks[k].due_date.clone(),
                start_date: tasks[k].start_date.clone(),
                remind_time: tasks[k].remind_time.clone(),
                repeat_rule: tasks[k].repeat_rule.clone(),
                list_id: tasks[k].list_id.clone(),
                created_at: now.clone(),
                updated_at: now.clone(),
            };
            proof {
                assert(t == imported_task(tasks@[k as int], ids@[k as int], now));
                assert forall|idx: int|
                    0 <= idx < self.tasks@.len() implies self.tasks@[idx].id@ != t.id@ by {
                    if idx < mid.tasks@.len() {
                        if self.tasks@[idx].id@ == t.id@ {
                            assert(pre.has_task(ids@[k as int]@));
                        }
                    } else {
                        let j = idx - mid.tasks@.len();
                        assert(out@[j] == imported_task(tasks@[j], ids@[j], now));
                        assert(self.tasks@[idx].id@ == ids@[j]@);
                    }
                }
                assert(!self.has_task(t.id@));
                let w = choose|w: int| 0 <= w < mid.lists@.len() && mid.lists@[w].id@
                    == tasks@[k as int].list_id@;
                assert(self.lists@[w].id@ == t.list_id@);
                assert(self.has_list(t.list_id@));
            }
            let record = t.clone();
            let ghost before_push = *self;
            let ghost gt = t;
            self.tasks.push(t);
            proof {
                crate::store::lemma_wf_after_task_push(before_push, *self, gt);
                assert(self.tasks@ =~= mid.tasks@ + out@.push(gt));
            }
            out.push(record);
            k += 1;
        }
        Result::Ok(out)
    }

    /// Imports a document under freshly drawn ids and the current time.
    /// Every imported task keeps the payload and list reference of its
    /// original but carries a new id and new timestamps. The failure case
    /// is a task that references a list absent even after the list merge,
    /// or a colliding random id.
    pub fn import_tasks(&mut self, data: &ExportData) -> (r: Result<Vec<Task>, StoreError>)
        requires
            old(self).wf(),
        ensures
            final(self).wf(),
            old(self).has_default_list() ==> final(self).has_default_list(),
            data.tasks@.len() == 0 ==> (r is Ok),
            match r {
                Result::Ok(out) => {
                    &&& final(self).lists@ == merge_lists(old(self).lists@, data.lists@)
                    &&& out@.len() == data.tasks@.len()
                    &&& forall|k: int|
                        0 <= k < out@.len() ==> {
                            let orig = #[trigger] data.tasks@[k];
                            &&& out@[k].id@.len() == 36
                            &&& !old(self).has_task(out@[k].id@)
                            &&& out@[k].title == orig.title
                            &&& out@[k].content == orig.content
                            &&& out@[k].is_completed == orig.is_completed
                            &&& out@[k].is_important == orig.is_important
                            &&& out@[k].due_date == orig.due_date
                            &&& out@[k].start_date == orig.start_date
                            &&& out@[k].remind_time == orig.remind_time
                            &&& out@[k].repeat_rule == orig.repeat_rule
                            &&& out@[k].list_id == orig.list_id
                            &&& out@[k].created_at == out@[k].updated_at
                        }
                    &&& final(self).tasks@ == old(self).tasks@ + out@
                    &&& final(self).subtasks == old(self).subtasks
                },
                Result::Err(e) => {
                    &&& e == StoreError::StorageFailure
                    &&& *final(self) == *old(self)
                },
            },
    {
        let mut ids: Vec<String> = Vec::new();
        let mut k: usize = 0;
        while k < data.tasks.len()
            invariant
                k <= data.tasks@.len(),
                ids@.len() == k,
                forall|j: int| 0 <= j < k ==> (#[trigger] ids@[j])@.len() == 36,
            decreases data.tasks@.len() - k,
        {
            let id = fresh_uuid();
            ids.push(id);
            k += 1;
        }
        let now = now_rfc3339();
        self.import_tasks_with(&data.tasks, &data.lists, ids, now)
    }

    /// Whether the fresh ids are absent from the store and pairwise
    /// distinct.
    fn ids_fresh_and_distinct(&self, ids: &Vec<String>) -> (r: bool)
        ensures
            r == ((forall|k: int| 0 <= k < ids@.len() ==> !self.has_task((#[trigger] ids@[k])@))
                && (forall|k: int, l: int|
                #![trigger ids@[k], ids@[l]]
                0 <= k < l < ids@.len() ==> ids@[k]@ != ids@[l]@)),
    {
        let mut k: usize = 0;
        while k < ids.len()
            invariant
                k <= ids@.len(),
                forall|j: int| 0 <= j < k ==> !self.has_task((#[trigger] ids@[j])@),
                forall|j: int, l: int|
                    #![trigger ids@[j], ids@[l]]
                    0 <= j < l < k ==> ids@[j]@ != ids@[l]@,
            decreases ids@.len() - k,
        {
            if self.task_id_present(ids[k].as_str()) {
                return false;
            }
            let mut l: usize = 0;
            while l < k
                invariant
                    l <= k < ids@.len(),
                    forall|j: int| 0 <= j < l ==> (#[trigger] ids@[j])@ != ids@[k as int]@,
                decreases k - l,
            {
                if str_eq(ids[l].as_str(), ids[k].as_str()) {
                    return false;
                }
                l += 1;
            }
            k += 1;
        }
        true
    }

    /// Whether some task carries this id.
    fn task_id_present(&self, id: &str) -> (r: bool)
        ensures
            r == self.has_task(id@),
    {
        let mut i: usize = 0;
        while i < self.tasks.len()
            invariant
                i <= self.tasks@.len(),
                forall|k: int| 0 <= k < i ==> #[trigger] self.tasks@[k].id@ != id@,
            decreases self.tasks@.len() - i,
        {
            if str_eq(self.tasks[i].id.as_str(), id) {
                return true;
            }
            i += 1;
        }
        false
    }
}

/// Whether every incoming task references a list of the merged set.
fn tasks_reference_lists(tasks: &Vec<Task>, merged: &Vec<List>) -> (r: bool)
    ensures
        r == forall|k: int|
            0 <= k < tasks@.len() ==> list_ids_has(merged@, (#[trigger] tasks@[k]).list_id@),
{
    let mut k: usize = 0;
    while k < tasks.len()
        invariant
            k <= tasks@.len(),
            forall|j: int| 0 <= j < k ==> list_ids_has(merged@, (#[trigger] tasks@[j]).list_id@),
        decreases tasks@.len() - k,
    {
        if !vec_has_list_id(merged, tasks[k].list_id.as_str()) {
            return false;
        }
        k += 1;
    }
    true
}

/// Growing the set of lists, without touching tasks or subtasks, preserves
/// the store invariant.
proof fn lemma_wf_after_lists_grow(pre: Store, post: Store)
    requires
        pre.wf(),
        post.lists@.len() >= pre.lists@.len(),
        post.lists@.subrange(0, pre.lists@.len() as int) == pre.lists@,
        forall|p: int, q: int|
            #![trigger post.lists@[p].id@, post.lists@[q].id@]
            0 <= p < q < post.lists@.len() ==> post.lists@[p].id@ != post.lists@[q].id@,
        post.tasks@ == pre.tasks@,
        post.subtasks@ == pre.subtasks@,
    ensures
        post.wf(),
        pre.has_default_list() ==> post.has_default_list(),
{
    assert forall|i: int| 0 <= i < post.tasks@.len() implies post.has_list(
        #[trigger] post.tasks@[i].list_id@,
    ) by {
        assert(pre.has_list(pre.tasks@[i].list_id@));
        let w = choose|w: int| 0 <= w < pre.lists@.len() && pre.lists@[w].id@
            == pre.tasks@[i].list_id@;
        assert(post.lists@.subrange(0, pre.lists@.len() as int)[w] == pre.lists@[w]);
        assert(post.lists@[w].id@ == pre.tasks@[i].list_id@);
    }
    assert forall|i: int| 0 <= i < post.subtasks@.len() implies post.has_task(
        #[trigger] post.subtasks@[i].task_id@,
    ) by {
        assert(pre.has_task(pre.subtasks@[i].task_id@));
    }
    if pre.has_default_list() {
        let w = choose|w: int| 0 <= w < pre.lists@.len() && pre.lists@[w].is_default;
        assert(post.lists@.subrange(0, pre.lists@.len() as int)[w] == pre.lists@[w]);
        assert(post.lists@[w].is_default);
    }
}

/// Merging never removes a list: every id present before is present after.
pub proof fn lemma_merge_keeps_existing(existing: Seq<List>, incoming: Seq<List>, id: Seq<char>)
    requires
        list_ids_has(existing, id),
    ensures
        list_ids_has(merge_lists(existing, incoming), id),
    decreases incoming.len(),
{
    if incoming.len() > 0 {
        let first = incoming[0];
        let ex2 = if list_ids_has(existing, first.id@) {
            existing
        } else {
            existing.push(first)
        };
        if !list_ids_has(existing, first.id@) {
            let w = choose|w: int| 0 <= w < existing.len() && existing[w].id@ == id;
            assert(ex2[w].id@ == id);
        }
        lemma_merge_keeps_existing(ex2, incoming.skip(1), id);
    }
}

/// After a merge, every incoming id is present.
pub proof fn lemma_merge_adds_incoming(existing: Seq<List>, incoming: Seq<List>, k: int)
    requires
        0 <= k < incoming.len(),
    ensures
        list_ids_has(merge_lists(existing, incoming), incoming[k].id@),
    decreases incoming.len(),
{
    let first = incoming[0];
    let ex2 = if list_ids_has(existing, first.id@) {
        existing
    } else {
        existing.push(first)
    };
    if k == 0 {
        if list_ids_has(existing, first.id@) {
            lemma_merge_keeps_existing(ex2, incoming.skip(1), first.id@);
        } else {
            assert(ex2[existing.len() as int].id@ == first.id@);
            assert(list_ids_has(ex2, first.id@));
            lemma_merge_keeps_existing(ex2, incoming.skip(1), first.id@);
        }
    } else {
        lemma_merge_adds_incoming(ex2, incoming.skip(1), k - 1);
        assert(incoming.skip(1)[k - 1] == incoming[k]);
    }
}

/// Merging changes nothing when every incoming id is already present.
pub proof fn lemma_merge_noop_when_present(existing: Seq<List>, incoming: Seq<List>)
    requires
        forall|k: int|
            0 <= k < incoming.len() ==> list_ids_has(existing, (#[trigger] incoming[k]).id@),
    ensures
        merge_lists(existing, incoming) == existing,
    decreases incoming.len(),
{
    if incoming.len() > 0 {
        assert(list_ids_has(existing, incoming[0].id@));
        assert forall|k: int|
            0 <= k < incoming.skip(1).len() implies list_ids_has(
            existing,
            (#[trigger] incoming.skip(1)[k]).id@,
        ) by {
            assert(incoming.skip(1)[k] == incoming[k + 1]);
        }
        lemma_merge_noop_when_present(existing, incoming.skip(1));
    }
}

/// Importing the same document's lists a second time adds nothing: the
/// list merge is idempotent.
pub proof fn lemma_merge_lists_idempotent(existing: Seq<List>, incoming: Seq<List>)
    ensures
        merge_lists(merge_lists(existing, incoming), incoming) == merge_lists(existing, incoming),
{
    assert forall|k: int|
        0 <= k < incoming.len() implies list_ids_has(
        merge_lists(existing, incoming),
        (#[trigger] incoming[k]).id@,
    ) by {
        lemma_merge_adds_incoming(existing, incoming, k);
    }
    lemma_merge_noop_when_present(merge_lists(existing, incoming), incoming);
}

} // verus!
