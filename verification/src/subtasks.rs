//! Subtask operations: the checklist items owned by tasks, with the same
//! create/read/update/delete shape as tasks at a smaller scope.

use crate::model::{CreateSubtaskInput, StoreError, Subtask, UpdateSubtaskInput};
use crate::runtime::{fresh_uuid, now_rfc3339};
use crate::sorting::{sort_subtasks, subtask_leq};
use crate::store::Store;
use crate::text::str_eq;
use vstd::prelude::*;
use vstd::relations::sorted_by;

verus! {

/// The subtasks of one task.
pub open spec fn of_task(task_id: Seq<char>) -> spec_fn(Subtask) -> bool {
    |st: Subtask| st.task_id@ == task_id
}

/// A freshly created subtask: incomplete, both timestamps set to the
/// creation time.
pub open spec fn built_subtask(input: CreateSubtaskInput, id: String, now: String) -> Subtask {
    Subtask {
        id: id,
        task_id: input.task_id,
        title: input.title,
        is_completed: false,
        created_at: now,
        updated_at: now,
    }
}

/// A subtask after a partial update: supplied fields replace the old
/// values, absent fields keep them; the id, parent task and creation time
/// never change, and the update time is always refreshed.
pub open spec fn patched_subtask(st: Subtask, u: UpdateSubtaskInput, now: String) -> Subtask {
    Subtask {
        id: st.id,
        task_id: st.task_id,
        title: if u.title is Some {
            u.title->0
        } else {
            st.title
        },
        is_completed: if u.is_completed is Some {
            u.is_completed->0
        } else {
            st.is_completed
        },
        created_at: st.created_at,
        updated_at: now,
    }
}

/// A subtask with its completion flag flipped and its update time
/// refreshed; everything else is unchanged.
pub open spec fn toggled_subtask(st: Subtask, now: String) -> Subtask {
    Subtask {
        id: st.id,
        task_id: st.task_id,
        title: st.title,
        is_completed: !st.is_completed,
        created_at: st.created_at,
        updated_at: now,
    }
}

/// Copies the subtasks of one task, in their stored order.
fn filter_subtasks_of_task(subtasks: &Vec<Subtask>, task_id: &str) -> (r: Vec<Subtask>)
    ensures
        r@ == subtasks@.filter(of_task(task_id@)),
{
    let mut out: Vec<Subtask> = Vec::new();
    let mut i: usize = 0;
    proof {
        assert(subtasks@.subrange(0, 0) =~= Seq::<Subtask>::empty());
        reveal(Seq::filter);
    }
    while i < subtasks.len()
        invariant
            i <= subtasks@.len(),
            out@ == subtasks@.subrange(0, i as int).filter(of_task(task_id@)),
        decreases subtasks@.len() - i,
    {
        proof {
            crate::sorting::lemma_filter_push(
                subtasks@.subrange(0, i as int),
                subtasks@[i as int],
                of_task(task_id@),
            );
            assert(subtasks@.subrange(0, i + 1) =~= subtasks@.subrange(0, i as int).push(
                subtasks@[i as int],
            ));
        }
        if str_eq(subtasks[i].task_id.as_str(), task_id) {
            let copy = subtasks[i].clone();
            out.push(copy);
        }
        i += 1;
    }
    proof {
        assert(subtasks@.subrange(0, subtasks@.len() as int) =~= subtasks@);
    }
    out
}

impl Store {
    /// The subtasks of one task, by ascending creation time.
    pub fn get_subtasks(&self, task_id: &str) -> (r: Vec<Subtask>)
        ensures
            sorted_by(r@, subtask_leq()),
            r@.to_multiset() == self.subtasks@.filter(of_task(task_id@)).to_multiset(),
    {
        let picked = filter_subtasks_of_task(&self.subtasks, task_id);
        sort_subtasks(&picked)
    }

    /// Every subtask, by ascending creation time.
    pub fn get_all_subtasks(&self) -> (r: Vec<Subtask>)
        ensures
            sorted_by(r@, subtask_leq()),
            r@.to_multiset() == self.subtasks@.to_multiset(),
    {
        sort_subtasks(&self.subtasks)
    }

    /// Creates a subtask from the given id and creation time. The parent
    /// task must exist and the id must be new; otherwise the operation is
    /// a storage failure and the store is unchanged.
    pub fn create_subtask_with(&mut self, input: CreateSubtaskInput, id: String, now: String) -> (r:
        Result<Subtask, StoreError>)
        requires
            old(self).wf(),
        ensures
            final(self).wf(),
            final(self).lists == old(self).lists,
            final(self).tasks == old(self).tasks,
            match r {
                Result::Ok(st) => {
                    &&& !old(self).has_subtask(id@)
                    &&& old(self).has_task(input.task_id@)
                    &&& st == built_subtask(input, id, now)
                    &&& final(self).subtasks@ == old(self).subtasks@.push(st)
                },
                Result::Err(e) => {
                    &&& e == StoreError::StorageFailure
                    &&& (old(self).has_subtask(id@) || !old(self).has_task(input.task_id@))
                    &&& *final(self) == *old(self)
                },
            },
    {
        if self.subtask_id_in_use(id.as_str()) {
            return Result::Err(StoreError::StorageFailure);
        }
        if !self.task_id_in_use(input.task_id.as_str()) {
            return Result::Err(StoreError::StorageFailure);
        }
        let created_at = now.clone();
        let st = Subtask {
            id,
            task_id: input.task_id,
            title: input.title,
            is_completed: false,
            created_at,
            updated_at: now,
        };
        let record = st.clone();
        let ghost pre = *self;
        let ghost gst = st;
        self.subtasks.push(st);
        proof {
            lemma_wf_after_subtask_push(pre, *self, gst);
        }
        Result::Ok(record)
    }

    /// Creates a subtask under a freshly drawn id and the current time.
    /// The failure case is a missing parent task or a colliding random id.
    pub fn create_subtask(&mut self, input: CreateSubtaskInput) -> (r: Result<Subtask, StoreError>)
        requires
            old(self).wf(),
        ensures
            final(self).wf(),
            final(self).lists == old(self).lists,
            final(self).tasks == old(self).tasks,
            old(self).subtasks@.len() == 0 && old(self).has_task(input.task_id@) ==> (r is Ok),
            match r {
                Result::Ok(st) => {
                    &&& !old(self).has_subtask(st.id@)
                    &&& old(self).has_task(input.task_id@)
                    &&& st.id@.len() == 36
                    &&& st.task_id == input.task_id
                    &&& st.title == input.title
                    &&& st.is_completed == false
                    &&& st.created_at == st.updated_at
                    &&& final(self).subtasks@ == old(self).subtasks@.push(st)
                },
                Result::Err(e) => {
                    &&& e == StoreError::StorageFailure
                    &&& *final(self) == *old(self)
                },
            },
    {
        let id = fresh_uuid();
        let now = now_rfc3339();
        self.create_subtask_with(input, id, now)
    }

    /// Applies a partial update to the subtask with the given id: absent
    /// fields are left unchanged, and the update time is refreshed. Fails
    /// with `NotFound` for an unknown id.
    pub fn update_subtask_with(&mut self, input: UpdateSubtaskInput, now: String) -> (r: Result<
        Subtask,
        StoreError,
    >)
        requires
            old(self).wf(),
        ensures
            final(self).wf(),
            final(self).lists == old(self).lists,
            final(self).tasks == old(self).tasks,
            match r {
                Result::Ok(st) => exists|i: int|
                    {
                        &&& 0 <= i < old(self).subtasks@.len()
                        &&& (#[trigger] old(self).subtasks@[i]).id@ == input.id@
                        &&& st == patched_subtask(old(self).subtasks@[i], input, now)
                        &&& final(self).subtasks@ == old(self).subtasks@.update(i, st)
                    },
                Result::Err(e) => {
                    &&& e == StoreError::NotFound
                    &&& !old(self).has_subtask(input.id@)
                    &&& *final(self) == *old(self)
                },
            },
    {
        let idx = match self.subtask_index_of(input.id.as_str()) {
            Option::None => {
                return Result::Err(StoreError::NotFound);
            },
            Option::Some(i) => i,
        };
        let mut nst = self.subtasks[idx].clone();
        if let Option::Some(title) = input.title {
            nst.title = title;
        }
        if let Option::Some(is_completed) = input.is_completed {
            nst.is_completed = is_completed;
        }
        nst.updated_at = now;
        let record = nst.clone();
        let ghost pre = *self;
        let ghost gst = nst;
        self.subtasks.set(idx, nst);
        proof {
            lemma_wf_after_subtask_update(pre, *self, gst, idx as int);
        }
        Result::Ok(record)
    }

    /// Applies a partial update under the current time.
    pub fn update_subtask(&mut self, input: UpdateSubtaskInput) -> (r: Result<Subtask, StoreError>)
        requires
            old(self).wf(),
        ensures
            final(self).wf(),
            final(self).lists == old(self).lists,
            final(self).tasks == old(self).tasks,
            match r {
                Result::Ok(st) => exists|i: int, now: String|
                    {
                        &&& 0 <= i < old(self).subtasks@.len()
                        &&& old(self).subtasks@[i].id@ == input.id@
                        &&& st == #[trigger] patched_subtask(old(self).subtasks@[i], input, now)
                        &&& final(self).subtasks@ == old(self).subtasks@.update(i, st)
                    },
                Result::Err(e) => {
                    &&& e == StoreError::NotFound
                    &&& !old(self).has_subtask(input.id@)
                    &&& *final(self) == *old(self)
                },
            },
    {
        let now = now_rfc3339();
        self.update_subtask_with(input, now)
    }

    /// Deletes the subtask with the given id, if present. Deleting an
    /// absent id is not an error.
    pub fn delete_subtask(&mut self, id: &str) -> (r: Result<(), StoreError>)
        requires
            old(self).wf(),
        ensures
            final(self).wf(),
            final(self).lists == old(self).lists,
            final(self).tasks == old(self).tasks,
            r is Ok,
            final(self).subtasks@ == old(self).subtasks@.filter(subtask_id_differs(id@)),
    {
        let kept = filter_subtasks_with_other_id(&self.subtasks, id);
        let ghost pre = *self;
        self.subtasks = kept;
        proof {
            lemma_wf_after_subtask_delete(pre, *self, id@);
        }
        Result::Ok(())
    }

    /// Flips the completion flag of the subtask with the given id and
    /// refreshes its update time. Fails with `NotFound` for an unknown id.
    pub fn toggle_subtask_completed_with(&mut self, id: &str, now: String) -> (r: Result<
        Subtask,
        StoreError,
    >)
        requires
            old(self).wf(),
        ensures
            final(self).wf(),
            final(self).lists == old(self).lists,
            final(self).tasks == old(self).tasks,
            match r {
                Result::Ok(st) => exists|i: int|
                    {
                        &&& 0 <= i < old(self).subtasks@.len()
                        &&& (#[trigger] old(self).subtasks@[i]).id@ == id@
                        &&& st == toggled_subtask(old(self).subtasks@[i], now)
                        &&& final(self).subtasks@ == old(self).subtasks@.update(i, st)
                    },
                Result::Err(e) => {
                    &&& e == StoreError::NotFound
                    &&& !old(self).has_subtask(id@)
                    &&& *final(self) == *old(self)
                },
            },
    {
        let idx = match self.subtask_index_of(id) {
            Option::None => {
                return Result::Err(StoreError::NotFound);
            },
            Option::Some(i) => i,
        };
        let mut nst = self.subtasks[idx].clone();
        nst.is_completed = !nst.is_completed;
        nst.updated_at = now;
        let record = nst.clone();
        let ghost pre = *self;
        let ghost gst = nst;
        self.subtasks.set(idx, nst);
        proof {
            lemma_wf_after_subtask_update(pre, *self, gst, idx as int);
        }
        Result::Ok(record)
    }

    /// Flips the completion flag under the current time.
    pub fn toggle_subtask_completed(&mut self, id: &str) -> (r: Result<Subtask, StoreError>)
        requires
            old(self).wf(),
        ensures
            final(self).wf(),
            final(self).lists == old(self).lists,
            final(self).tasks == old(self).tasks,
            match r {
                Result::Ok(st) => exists|i: int, now: String|
                    {
                        &&& 0 <= i < old(self).subtasks@.len()
                        &&& old(self).subtasks@[i].id@ == id@
                        &&& st == #[trigger] toggled_subtask(old(self).subtasks@[i], now)
                        &&& final(self).subtasks@ == old(self).subtasks@.update(i, st)
                    },
                Result::Err(e) => {
                    &&& e == StoreError::NotFound
                    &&& !old(self).has_subtask(id@)
                    &&& *final(self) == *old(self)
                },
            },
    {
        let now = now_rfc3339();
        self.toggle_subtask_completed_with(id, now)
    }

    /// Whether some subtask carries this id.
    fn subtask_id_in_use(&self, id: &str) -> (r: bool)
        ensures
            r == self.has_subtask(id@),
    {
        match self.subtask_index_of(id) {
            Option::Some(_) => true,
            Option::None => false,
        }
    }

    /// Whether some task carries this id.
    fn task_id_in_use(&self, id: &str) -> (r: bool)
        ensures
            r == self.has_task(id@),
    {
        let mut i: usize = 0;
        while i < self.tasks.len()
            invariant
                i <= self.tasks@.len(),
                forall|k: int| 0 <= k < i ==> #[trigger] self.tasks@[k].id@ != id@,
            decreases self.tasks@.len() - i,
        {
            if str_eq(self.tasks[i].id.as_str(), id) {
                return true;
            }
            i += 1;
        }
        false
    }

    /// Finds the position of the subtask with this id.
    fn subtask_index_of(&self, id: &str) -> (r: Option<usize>)
        ensures
            match r {
                Option::Some(i) => i < self.subtasks@.len() && self.subtasks@[i as int].id@ == id@,
                Option::None => !self.has_subtask(id@),
            },
    {
        let mut i: usize = 0;
        while i < self.subtasks.len()
            invariant
                i <= self.subtasks@.len(),
                forall|k: int| 0 <= k < i ==> #[trigger] self.subtasks@[k].id@ != id@,
            decreases self.subtasks@.len() - i,
        {
            if str_eq(self.subtasks[i].id.as_str(), id) {
                return Option::Some(i);
            }
            i += 1;
        }
        Option::None
    }
}

/// Keeps the subtasks that do not carry the deleted id.
pub open spec fn subtask_id_differs(id: Seq<char>) -> spec_fn(Subtask) -> bool {
    |st: Subtask| st.id@ != id
}

/// Copies the subtasks whose id differs from the given one.
fn filter_subtasks_with_other_id(subtasks: &Vec<Subtask>, id: &str) -> (r: Vec<Subtask>)
    ensures
        r@ == subtasks@.filter(subtask_id_differs(id@)),
{
    let mut out: Vec<Subtask> = Vec::new();
    let mut i: usize = 0;
    proof {
        assert(subtasks@.subrange(0, 0) =~= Seq::<Subtask>::empty());
        reveal(Seq::filter);
    }
    while i < subtasks.len()
        invariant
            i <= subtasks@.len(),
            out@ == subtasks@.subrange(0, i as int).filter(subtask_id_differs(id@)),
        decreases subtasks@.len() - i,
    {
        proof {
            crate::sorting::lemma_filter_push(
                subtasks@.subrange(0, i as int),
                subtasks@[i as int],
                subtask_id_differs(id@),
            );
            assert(subtasks@.subrange(0, i + 1) =~= subtasks@.subrange(0, i as int).push(
                subtasks@[i as int],
            ));
        }
        if !str_eq(subtasks[i].id.as_str(), id) {
            let copy = subtasks[i].clone();
            out.push(copy);
        }
        i += 1;
    }
    proof {
        assert(subtasks@.subrange(0, subtasks@.len() as int) =~= subtasks@);
    }
    out
}

/// Appending a subtask that references an existing task under a new id
/// preserves the store invariant.
proof fn lemma_wf_after_subtask_push(pre: Store, post: Store, st: Subtask)
    requires
        pre.wf(),
        !pre.has_subtask(st.id@),
        pre.has_task(st.task_id@),
        post.subtasks@ == pre.subtasks@.push(st),
        post.lists@ == pre.lists@,
        post.tasks@ == pre.tasks@,
    ensures
        post.wf(),
{
    assert forall|i: int, j: int|
        #![trigger post.subtasks@[i].id@, post.subtasks@[j].id@]
        0 <= i < j < post.subtasks@.len() implies post.subtasks@[i].id@ != post.subtasks@[j].id@ by {
        if j < pre.subtasks@.len() {
            assert(pre.subtasks@[i].id@ != pre.subtasks@[j].id@);
        } else {
            assert(post.subtasks@[j] == st);
            assert(post.subtasks@[i] == pre.subtasks@[i]);
            if pre.subtasks@[i].id@ == st.id@ {
                assert(pre.has_subtask(st.id@));
            }
        }
    }
    assert forall|i: int| 0 <= i < post.tasks@.len() implies post.has_list(
        #[trigger] post.tasks@[i].list_id@,
    ) by {
        assert(pre.has_list(pre.tasks@[i].list_id@));
    }
    assert forall|i: int| 0 <= i < post.subtasks@.len() implies post.has_task(
        #[trigger] post.subtasks@[i].task_id@,
    ) by {
        if i < pre.subtasks@.len() {
            assert(pre.has_task(pre.subtasks@[i].task_id@));
        } else {
            assert(post.subtasks@[i] == st);
        }
    }
}

/// Replacing one subtask in place, without touching its id or parent task,
/// preserves the store invariant.
proof fn lemma_wf_after_subtask_update(pre: Store, post: Store, st: Subtask, i: int)
    requires
        pre.wf(),
        0 <= i < pre.subtasks@.len(),
        st.id@ == pre.subtasks@[i].id@,
        st.task_id@ == pre.subtasks@[i].task_id@,
        post.subtasks@ == pre.subtasks@.update(i, st),
        post.lists@ == pre.lists@,
        post.tasks@ == pre.tasks@,
    ensures
        post.wf(),
{
    assert forall|p: int, q: int|
        #![trigger post.subtasks@[p].id@, post.subtasks@[q].id@]
        0 <= p < q < post.subtasks@.len() implies post.subtasks@[p].id@ != post.subtasks@[q].id@ by {
        assert(pre.subtasks@[p].id@ != pre.subtasks@[q].id@);
        assert(post.subtasks@[p].id@ == pre.subtasks@[p].id@);
        assert(post.subtasks@[q].id@ == pre.subtasks@[q].id@);
    }
    assert forall|k: int| 0 <= k < post.tasks@.len() implies post.has_list(
        #[trigger] post.tasks@[k].list_id@,
    ) by {
        assert(pre.has_list(pre.tasks@[k].list_id@));
    }
    assert forall|k: int| 0 <= k < post.subtasks@.len() implies post.has_task(
        #[trigger] post.subtasks@[k].task_id@,
    ) by {
        assert(post.subtasks@[k].task_id@ == pre.subtasks@[k].task_id@);
        assert(pre.has_task(pre.subtasks@[k].task_id@));
    }
}

/// Removing one subtask preserves the store invariant.
proof fn lemma_wf_after_subtask_delete(pre: Store, post: Store, id: Seq<char>)
    requires
        pre.wf(),
        post.subtasks@ == pre.subtasks@.filter(subtask_id_differs(id)),
        post.lists@ == pre.lists@,
        post.tasks@ == pre.tasks@,
    ensures
        post.wf(),
{
    crate::store::lemma_subtasks_filter_unique(pre.subtasks@, subtask_id_differs(id));
    crate::sorting::lemma_filter_sub_elements(pre.subtasks@, subtask_id_differs(id));
    assert forall|i: int| 0 <= i < post.tasks@.len() implies post.has_list(
        #[trigger] post.tasks@[i].list_id@,
    ) by {
        assert(pre.has_list(pre.tasks@[i].list_id@));
    }
    assert forall|k: int| 0 <= k < post.subtasks@.len() implies post.has_task(
        #[trigger] post.subtasks@[k].task_id@,
    ) by {
        let st = post.subtasks@[k];
        assert(post.subtasks@.contains(st));
        assert(pre.subtasks@.contains(st));
        let p = choose|p: int| 0 <= p < pre.subtasks@.len() && pre.subtasks@[p] == st;
        assert(pre.has_task(pre.subtasks@[p].task_id@));
    }
}

} // verus!
