//! The orders in which query results are returned, and verified insertion
//! sorts for each record kind. Every order is a total preorder: ties between
//! distinct records are allowed and their relative placement is left open,
//! as it is for the backing storage engine.

use crate::model::{List, Subtask, Task};
use crate::text::{
    lemma_lex_le_antisymmetric, lemma_lex_le_refl, lemma_lex_le_total, lemma_lex_le_transitive,
    lex_le,
};
use vstd::prelude::*;
use vstd::relations::{sorted_by, strongly_connected, transitive};
use vstd::seq_lib::lemma_multiset_commutative;

verus! {

/// Which order a task query returns its rows in.
#[derive(Clone, Copy)]
pub enum TaskOrder {
    /// Incomplete tasks first, then newest creation first.
    Standard,
    /// Earliest due date first (tasks without one lead), then newest creation
    /// first.
    Planned,
    /// Most recently updated first.
    Completed,
}

/// Newest creation time first.
pub open spec fn created_desc(a: Task, b: Task) -> bool {
    lex_le(b.created_at@, a.created_at@)
}

/// The task order `o`, as a relation between two tasks.
pub open spec fn task_le(o: TaskOrder, a: Task, b: Task) -> bool {
    match o {
        TaskOrder::Standard => if a.is_completed != b.is_completed {
            !a.is_completed
        } else {
            created_desc(a, b)
        },
        TaskOrder::Planned => match (a.due_date, b.due_date) {
            (Option::None, Option::None) => created_desc(a, b),
            (Option::None, Option::Some(_)) => true,
            (Option::Some(_), Option::None) => false,
            (Option::Some(x), Option::Some(y)) => if x@ == y@ {
                created_desc(a, b)
            } else {
                lex_le(x@, y@)
            },
        },
        TaskOrder::Completed => lex_le(b.updated_at@, a.updated_at@),
    }
}

/// The task order `o` as a first-class relation, for `sorted_by`.
pub open spec fn task_leq(o: TaskOrder) -> spec_fn(Task, Task) -> bool {
    |a: Task, b: Task| task_le(o, a, b)
}

/// Lists are returned by ascending position.
pub open spec fn list_le(a: List, b: List) -> bool {
    a.order <= b.order
}

/// The list order as a first-class relation.
pub open spec fn list_leq() -> spec_fn(List, List) -> bool {
    |a: List, b: List| list_le(a, b)
}

/// Subtasks are returned by ascending creation time.
pub open spec fn subtask_le(a: Subtask, b: Subtask) -> bool {
    lex_le(a.created_at@, b.created_at@)
}

/// The subtask order as a first-class relation.
pub open spec fn subtask_leq() -> spec_fn(Subtask, Subtask) -> bool {
    |a: Subtask, b: Subtask| subtask_le(a, b)
}

/// Every task order relates any two tasks and carries over chains.
pub proof fn lemma_task_le_preorder(o: TaskOrder)
    ensures
        strongly_connected(task_leq(o)),
        transitive(task_leq(o)),
{
    let leq = task_leq(o);
    assert forall|a: Task, b: Task| #[trigger] leq(a, b) || #[trigger] leq(b, a) by {
        lemma_lex_le_total(b.created_at@, a.created_at@);
        lemma_lex_le_total(b.updated_at@, a.updated_at@);
        if a.due_date is Some && b.due_date is Some {
            lemma_lex_le_total(a.due_date->0@, b.due_date->0@);
            if lex_le(a.due_date->0@, b.due_date->0@) && lex_le(b.due_date->0@, a.due_date->0@) {
                lemma_lex_le_antisymmetric(a.due_date->0@, b.due_date->0@);
            }
        }
    }
    assert forall|a: Task, b: Task, c: Task| #[trigger] leq(a, b) && #[trigger] leq(b, c) implies leq(
        a,
        c,
    ) by {
        if lex_le(c.created_at@, b.created_at@) && lex_le(b.created_at@, a.created_at@) {
            lemma_lex_le_transitive(c.created_at@, b.created_at@, a.created_at@);
        }
        if lex_le(c.updated_at@, b.updated_at@) && lex_le(b.updated_at@, a.updated_at@) {
            lemma_lex_le_transitive(c.updated_at@, b.updated_at@, a.updated_at@);
        }
        if a.due_date is Some && b.due_date is Some && c.due_date is Some {
            let x = a.due_date->0@;
            let y = b.due_date->0@;
            let z = c.due_date->0@;
            lemma_lex_le_refl(x);
            lemma_lex_le_refl(y);
            if lex_le(x, y) && lex_le(y, z) {
                lemma_lex_le_transitive(x, y, z);
            }
            if lex_le(x, z) && lex_le(z, x) {
                lemma_lex_le_antisymmetric(x, z);
            }
            if lex_le(x, y) && lex_le(y, x) {
                lemma_lex_le_antisymmetric(x, y);
            }
            if lex_le(y, z) && lex_le(z, y) {
                lemma_lex_le_antisymmetric(y, z);
            }
        }
    }
}

/// The list order relates any two lists and carries over chains.
pub proof fn lemma_list_le_preorder()
    ensures
        strongly_connected(list_leq()),
        transitive(list_leq()),
{
}

/// The subtask order relates any two subtasks and carries over chains.
pub proof fn lemma_subtask_le_preorder()
    ensures
        strongly_connected(subtask_leq()),
        transitive(subtask_leq()),
{
    let leq = subtask_leq();
    assert forall|a: Subtask, b: Subtask| #[trigger] leq(a, b) || #[trigger] leq(b, a) by {
        lemma_lex_le_total(a.created_at@, b.created_at@);
    }
    assert forall|a: Subtask, b: Subtask, c: Subtask|
        #[trigger] leq(a, b) && #[trigger] leq(b, c) implies leq(a, c) by {
        lemma_lex_le_transitive(a.created_at@, b.created_at@, c.created_at@);
    }
}

/// Inserting at a position bounded below by everything before it and above
/// by everything after it keeps a sequence sorted.
pub proof fn lemma_sorted_insert<T>(s: Seq<T>, x: T, i: int, leq: spec_fn(T, T) -> bool)
    requires
        sorted_by(s, leq),
        0 <= i <= s.len(),
        forall|k: int| 0 <= k < i ==> leq(#[trigger] s[k], x),
        forall|k: int| i <= k < s.len() ==> leq(x, #[trigger] s[k]),
    ensures
        sorted_by(s.insert(i, x), leq),
{
    s.insert_ensures(i, x);
    let t = s.insert(i, x);
    assert forall|p: int, q: int| 0 <= p < q < t.len() implies leq(t[p], t[q]) by {
        if q < i {
            assert(t[p] == s[p] && t[q] == s[q]);
        } else if q == i {
            assert(t[p] == s[p] && t[q] == x);
        } else {
            assert(t[q] == s[q - 1]);
            if p < i {
                assert(t[p] == s[p]);
                if p < q - 1 {
                    assert(leq(s[p], s[q - 1]));
                }
            } else if p == i {
                assert(t[p] == x);
            } else {
                assert(t[p] == s[p - 1]);
            }
        }
    }
}

/// Inserting anywhere adds exactly one occurrence to the multiset of
/// elements.
pub proof fn lemma_multiset_insert<T>(s: Seq<T>, x: T, i: int)
    requires
        0 <= i <= s.len(),
    ensures
        s.insert(i, x).to_multiset() == s.to_multiset().insert(x),
{
    broadcast use vstd::seq_lib::group_to_multiset_ensures;

    let pre = s.subrange(0, i);
    let post = s.subrange(i, s.len() as int);
    assert(s =~= pre + post);
    assert(s.insert(i, x) =~= pre.push(x) + post);
    lemma_multiset_commutative(pre, post);
    lemma_multiset_commutative(pre.push(x), post);
    assert(pre.push(x).to_multiset() =~= pre.to_multiset().insert(x));
    assert(pre.to_multiset().insert(x).add(post.to_multiset()) =~= pre.to_multiset().add(
        post.to_multiset(),
    ).insert(x));
}

/// Appending the next element extends a filtered prefix by that element
/// exactly when it satisfies the predicate.
pub proof fn lemma_filter_push<T>(prefix: Seq<T>, x: T, pred: spec_fn(T) -> bool)
    ensures
        prefix.push(x).filter(pred) == if pred(x) {
            prefix.filter(pred).push(x)
        } else {
            prefix.filter(pred)
        },
{
    reveal(Seq::filter);
    assert(prefix.push(x).drop_last() =~= prefix);
    assert(prefix.push(x).last() == x);
}

/// Every element of a filtered sequence occurs in the original.
pub proof fn lemma_filter_sub_elements<T>(s: Seq<T>, pred: spec_fn(T) -> bool)
    ensures
        forall|x: T| #[trigger] s.filter(pred).contains(x) ==> s.contains(x),
    decreases s.len(),
{
    reveal(Seq::filter);
    if s.len() > 0 {
        let d = s.drop_last();
        lemma_filter_sub_elements(d, pred);
        assert forall|x: T| #[trigger] s.filter(pred).contains(x) implies s.contains(x) by {
            let f = s.filter(pred);
            let fd = d.filter(pred);
            let i = choose|i: int| 0 <= i < f.len() && f[i] == x;
            if pred(s.last()) && i == f.len() - 1 {
                assert(s[s.len() - 1] == x);
            } else {
                assert(f[i] == fd[i]);
                assert(fd.contains(x));
                assert(d.contains(x));
                let j = choose|j: int| 0 <= j < d.len() && d[j] == x;
                assert(s[j] == x);
            }
        }
    }
}

/// Filtering keeps pairwise-distinct keys pairwise distinct.
pub proof fn lemma_filter_keeps_distinct<T>(
    s: Seq<T>,
    pred: spec_fn(T) -> bool,
    key: spec_fn(T) -> Seq<char>,
)
    requires
        forall|i: int, j: int|
            #![trigger key(s[i]), key(s[j])]
            0 <= i < j < s.len() ==> key(s[i]) != key(s[j]),
    ensures
        forall|i: int, j: int|
            #![trigger key(s.filter(pred)[i]), key(s.filter(pred)[j])]
            0 <= i < j < s.filter(pred).len() ==> key(s.filter(pred)[i]) != key(s.filter(pred)[j]),
    decreases s.len(),
{
    reveal(Seq::filter);
    if s.len() > 0 {
        let d = s.drop_last();
        assert forall|i: int, j: int|
            #![trigger key(d[i]), key(d[j])]
            0 <= i < j < d.len() implies key(d[i]) != key(d[j]) by {
            assert(d[i] == s[i] && d[j] == s[j]);
            assert(key(s[i]) != key(s[j]));
        }
        lemma_filter_keeps_distinct(d, pred, key);
        lemma_filter_sub_elements(d, pred);
        let f = s.filter(pred);
        let fd = d.filter(pred);
        assert forall|i: int, j: int|
            #![trigger key(f[i]), key(f[j])]
            0 <= i < j < f.len() implies key(f[i]) != key(f[j]) by {
            if pred(s.last()) {
                if j < f.len() - 1 {
                    assert(f[i] == fd[i] && f[j] == fd[j]);
                    assert(key(fd[i]) != key(fd[j]));
                } else {
                    assert(f[j] == s.last());
                    assert(f[i] == fd[i]);
                    assert(fd.contains(fd[i]));
                    assert(d.contains(fd[i]));
                    let k = choose|k: int| 0 <= k < d.len() && d[k] == fd[i];
                    assert(s[k] == fd[i]);
                    assert(key(s[k]) != key(s[s.len() - 1]));
                }
            } else {
                assert(f[i] == fd[i] && f[j] == fd[j]);
                assert(key(fd[i]) != key(fd[j]));
            }
        }
    }
}

/// Decides the task order `o` between two tasks.
pub fn task_le_exec(o: TaskOrder, a: &Task, b: &Task) -> (r: bool)
    ensures
        r == task_le(o, *a, *b),
{
    match o {
        TaskOrder::Standard => {
            if a.is_completed != b.is_completed {
                !a.is_completed
            } else {
                crate::text::str_le(b.created_at.as_str(), a.created_at.as_str())
            }
        },
        TaskOrder::Planned => {
            match (&a.due_date, &b.due_date) {
                (Option::None, Option::None) => crate::text::str_le(
                    b.created_at.as_str(),
                    a.created_at.as_str(),
                ),
                (Option::None, Option::Some(_)) => true,
                (Option::Some(_), Option::None) => false,
                (Option::Some(x), Option::Some(y)) => {
                    if crate::text::str_eq(x.as_str(), y.as_str()) {
                        crate::text::str_le(b.created_at.as_str(), a.created_at.as_str())
                    } else {
                        crate::text::str_le(x.as_str(), y.as_str())
                    }
                },
            }
        },
        TaskOrder::Completed => crate::text::str_le(b.updated_at.as_str(), a.updated_at.as_str()),
    }
}

/// Decides the list order between two lists.
pub fn list_le_exec(a: &List, b: &List) -> (r: bool)
    ensures
        r == list_le(*a, *b),
{
    a.order <= b.order
}

/// Decides the subtask order between two subtasks.
pub fn subtask_le_exec(a: &Subtask, b: &Subtask) -> (r: bool)
    ensures
        r == subtask_le(*a, *b),
{
    crate::text::str_le(a.created_at.as_str(), b.created_at.as_str())
}

/// Sorts tasks by the order `o`; the result is a rearrangement of the input.
pub fn sort_tasks(v: &Vec<Task>, o: TaskOrder) -> (r: Vec<Task>)
    ensures
        sorted_by(r@, task_leq(o)),
        r@.to_multiset() == v@.to_multiset(),
{
    let ghost leq = task_leq(o);
    proof {
        lemma_task_le_preorder(o);
        broadcast use vstd::seq_lib::group_to_multiset_ensures;

        assert(v@.subrange(0, 0) =~= Seq::<Task>::empty());
        assert(Seq::<Task>::empty().to_multiset() =~= v@.subrange(0, 0).to_multiset());
    }
    let mut out: Vec<Task> = Vec::new();
    let mut idx: usize = 0;
    while idx < v.len()
        invariant
            idx <= v.len(),
            leq == task_leq(o),
            strongly_connected(leq),
            transitive(leq),
            sorted_by(out@, leq),
            out@.to_multiset() == v@.subrange(0, idx as int).to_multiset(),
        decreases v.len() - idx,
    {
        let x = v[idx].clone();
        let p = task_insert_position(&out, &x, o);
        proof {
            assert forall|k: int| p <= k < out@.len() implies leq(x, #[trigger] out@[k]) by {
                assert(leq(x, out@[p as int]));
                if k > p {
                    assert(leq(out@[p as int], out@[k]));
                }
            }
            lemma_sorted_insert(out@, x, p as int, leq);
            lemma_multiset_insert(out@, x, p as int);
            assert(v@.subrange(0, idx + 1) =~= v@.subrange(0, idx as int).push(v@[idx as int]));
            broadcast use vstd::seq_lib::group_to_multiset_ensures;

        }
        out.insert(p, x);
        idx += 1;
    }
    proof {
        assert(v@.subrange(0, v@.len() as int) =~= v@);
    }
    out
}

/// Finds the first position whose element does not precede `x` in order `o`.
fn task_insert_position(out: &Vec<Task>, x: &Task, o: TaskOrder) -> (p: usize)
    requires
        sorted_by(out@, task_leq(o)),
    ensures
        p <= out@.len(),
        forall|k: int| 0 <= k < p ==> #[trigger] task_leq(o)(out@[k], *x),
        p < out@.len() ==> task_leq(o)(*x, out@[p as int]),
        p == out@.len() ==> forall|k: int| 0 <= k < out@.len() ==> #[trigger] task_leq(o)(
            out@[k],
            *x,
        ),
    {
    let ghost leq = task_leq(o);
    proof {
        lemma_task_le_preorder(o);
    }
    let mut p: usize = 0;
    loop
        invariant
            p <= out@.len(),
            leq == task_leq(o),
            strongly_connected(leq),
            forall|k: int| 0 <= k < p ==> #[trigger] leq(out@[k], *x),
        ensures
            p <= out@.len(),
            forall|k: int| 0 <= k < p ==> #[trigger] leq(out@[k], *x),
            p < out@.len() ==> !leq(out@[p as int], *x),
        decreases out@.len() - p,
    {
        if p >= out.len() {
            break ;
        }
        if !task_le_exec(o, &out[p], x) {
            break ;
        }
        p += 1;
    }
    proof {
        if p < out@.len() {
            assert(leq(*x, out@[p as int]));
        }
    }
    p
}

/// Sorts lists by ascending position; the result is a rearrangement of the
/// input.
pub fn sort_lists(v: &Vec<List>) -> (r: Vec<List>)
    ensures
        sorted_by(r@, list_leq()),
        r@.to_multiset() == v@.to_multiset(),
{
    let ghost leq = list_leq();
    proof {
        lemma_list_le_preorder();
        broadcast use vstd::seq_lib::group_to_multiset_ensures;

        assert(v@.subrange(0, 0) =~= Seq::<List>::empty());
        assert(Seq::<List>::empty().to_multiset() =~= v@.subrange(0, 0).to_multiset());
    }
    let mut out: Vec<List> = Vec::new();
    let mut idx: usize = 0;
    while idx < v.len()
        invariant
            idx <= v.len(),
            leq == list_leq(),
            sorted_by(out@, leq),
            out@.to_multiset() == v@.subrange(0, idx as int).to_multiset(),
        decreases v.len() - idx,
    {
        let x = v[idx].clone();
        let mut p: usize = 0;
        loop
            invariant
                p <= out@.len(),
                leq == list_leq(),
                forall|k: int| 0 <= k < p ==> #[trigger] leq(out@[k], x),
            ensures
                p <= out@.len(),
                forall|k: int| 0 <= k < p ==> #[trigger] leq(out@[k], x),
                p < out@.len() ==> !leq(out@[p as int], x),
            decreases out@.len() - p,
        {
            if p >= out.len() {
                break ;
            }
            if !list_le_exec(&out[p], &x) {
                break ;
            }
            p += 1;
        }
        proof {
            assert forall|k: int| p <= k < out@.len() implies leq(x, #[trigger] out@[k]) by {
                assert(leq(x, out@[p as int]));
                if k > p {
                    assert(leq(out@[p as int], out@[k]));
                }
            }
            lemma_sorted_insert(out@, x, p as int, leq);
            lemma_multiset_insert(out@, x, p as int);
            assert(v@.subrange(0, idx + 1) =~= v@.subrange(0, idx as int).push(v@[idx as int]));
            broadcast use vstd::seq_lib::group_to_multiset_ensures;

        }
        out.insert(p, x);
        idx += 1;
    }
    proof {
        assert(v@.subrange(0, v@.len() as int) =~= v@);
    }
    out
}

/// Sorts subtasks by ascending creation time; the result is a rearrangement
/// of the input.
pub fn sort_subtasks(v: &Vec<Subtask>) -> (r: Vec<Subtask>)
    ensures
        sorted_by(r@, subtask_leq()),
        r@.to_multiset() == v@.to_multiset(),
{
    let ghost leq = subtask_leq();
    proof {
        lemma_subtask_le_preorder();
        broadcast use vstd::seq_lib::group_to_multiset_ensures;

        assert(v@.subrange(0, 0) =~= Seq::<Subtask>::empty());
        assert(Seq::<Subtask>::empty().to_multiset() =~= v@.subrange(0, 0).to_multiset());
    }
    let mut out: Vec<Subtask> = Vec::new();
    let mut idx: usize = 0;
    while idx < v.len()
        invariant
            idx <= v.len(),
            leq == subtask_leq(),
            strongly_connected(leq),
            transitive(leq),
            sorted_by(out@, leq),
            out@.to_multiset() == v@.subrange(0, idx as int).to_multiset(),
        decreases v.len() - idx,
    {
        let x = v[idx].clone();
        let mut p: usize = 0;
        loop
            invariant
                p <= out@.len(),
                leq == subtask_leq(),
                strongly_connected(leq),
                forall|k: int| 0 <= k < p ==> #[trigger] leq(out@[k], x),
            ensures
                p <= out@.len(),
                forall|k: int| 0 <= k < p ==> #[trigger] leq(out@[k], x),
                p < out@.len() ==> !leq(out@[p as int], x),
            decreases out@.len() - p,
        {
            if p >= out.len() {
                break ;
            }
            if !subtask_le_exec(&out[p], &x) {
                break ;
            }
            p += 1;
        }
        proof {
            assert forall|k: int| p <= k < out@.len() implies leq(x, #[trigger] out@[k]) by {
                assert(leq(x, out@[p as int]));
                if k > p {
                    assert(leq(out@[p as int], out@[k]));
                }
            }
            lemma_sorted_insert(out@, x, p as int, leq);
            lemma_multiset_insert(out@, x, p as int);
            assert(v@.subrange(0, idx + 1) =~= v@.subrange(0, idx as int).push(v@[idx as int]));
            broadcast use vstd::seq_lib::group_to_multiset_ensures;

        }
        out.insert(p, x);
        idx += 1;
    }
    proof {
        assert(v@.subrange(0, v@.len() as int) =~= v@);
    }
    out
}

} // verus!
