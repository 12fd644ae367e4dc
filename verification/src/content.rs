//! The decoded contents of an archive, and the merge that folds a later
//! delta into a running snapshot: by task identifier, last write wins, a
//! whole record at a time.

use vstd::prelude::*;
use vstd::pervasive::VecAdditionalExecFns;
use crate::task::{Task, TaskV};

verus! {

/// An ordered collection of tasks, unique by `id` when built by folding;
/// insertion order is kept for display stability.
#[derive(Debug, Clone, PartialEq, Eq)]
pub struct Content {
    pub tasks: Vec<Task>,
}

impl View for Content {
    type V = Seq<TaskV>;

    open spec fn view(&self) -> Seq<TaskV> {
        self.tasks.deep_view()
    }
}

/// The position of the first task with the given id, or -1 if there is none.
pub open spec fn index_of_id(s: Seq<TaskV>, id: Seq<char>) -> int
    decreases s.len(),
{
    if s.len() == 0 {
        -1
    } else if s[0].id == id {
        0
    } else {
        let r = index_of_id(s.subrange(1, s.len() as int), id);
        if r == -1 {
            -1
        } else {
            r + 1
        }
    }
}

/// The first task with the given id, if any.
pub open spec fn lookup(s: Seq<TaskV>, id: Seq<char>) -> Option<TaskV> {
    if index_of_id(s, id) >= 0 {
        Some(s[index_of_id(s, id)])
    } else {
        None
    }
}

/// No two tasks share an id.
pub open spec fn unique_ids(s: Seq<TaskV>) -> bool {
    forall|j: int, k: int| 0 <= j < k < s.len() ==> s[j].id != s[k].id
}

/// Folding one task in: a new id is appended, a known id replaces the
/// record in place.
pub open spec fn merge_one(s: Seq<TaskV>, t: TaskV) -> Seq<TaskV> {
    let i = index_of_id(s, t.id);
    if i == -1 {
        s.push(t)
    } else {
        s.update(i, t)
    }
}

/// Folding a whole delta in, task by task, in delta order.
pub open spec fn merge(s: Seq<TaskV>, delta: Seq<TaskV>) -> Seq<TaskV>
    decreases delta.len(),
{
    if delta.len() == 0 {
        s
    } else {
        merge(merge_one(s, delta[0]), delta.subrange(1, delta.len() as int))
    }
}

pub proof fn lemma_index_props(s: Seq<TaskV>, id: Seq<char>)
    ensures
        index_of_id(s, id) >= -1,
        index_of_id(s, id) == -1 ==> (forall|k: int| 0 <= k < s.len() ==> (#[trigger] s[k]).id != id),
        index_of_id(s, id) >= 0 ==> {
            let i = index_of_id(s, id);
            &&& 0 <= i < s.len()
            &&& s[i].id == id
            &&& forall|k: int| 0 <= k < i ==> (#[trigger] s[k]).id != id
        },
    decreases s.len(),
{
    if s.len() > 0 && s[0].id != id {
        let rest = s.subrange(1, s.len() as int);
        lemma_index_props(rest, id);
        assert forall|k: int| 1 <= k < s.len() implies (#[trigger] s[k]) == rest[k - 1] by {}
    }
}

pub proof fn lemma_index_unique(s: Seq<TaskV>, id: Seq<char>, i: int)
    requires
        0 <= i < s.len(),
        s[i].id == id,
        forall|k: int| 0 <= k < i ==> (#[trigger] s[k]).id != id,
    ensures
        index_of_id(s, id) == i,
    decreases s.len(),
{
    if s[0].id == id {
        assert(i == 0);
    } else {
        let rest = s.subrange(1, s.len() as int);
        assert(rest[i - 1] == s[i]);
        assert forall|k: int| 0 <= k < i - 1 implies (#[trigger] rest[k]).id != id by {
            assert(rest[k] == s[k + 1]);
        }
        lemma_index_unique(rest, id, i - 1);
    }
}

pub proof fn lemma_index_none(s: Seq<TaskV>, id: Seq<char>)
    requires
        forall|k: int| 0 <= k < s.len() ==> (#[trigger] s[k]).id != id,
    ensures
        index_of_id(s, id) == -1,
    decreases s.len(),
{
    if s.len() > 0 {
        let rest = s.subrange(1, s.len() as int);
        assert forall|k: int| 0 <= k < rest.len() implies (#[trigger] rest[k]).id != id by {
            assert(rest[k] == s[k + 1]);
        }
        lemma_index_none(rest, id);
    }
}

/// What folding one task does to every later lookup: the folded task is
/// found under its own id, everything else is untouched.
pub proof fn lemma_lookup_merge_one(s: Seq<TaskV>, t: TaskV, id: Seq<char>)
    ensures
        lookup(merge_one(s, t), id) == if id == t.id {
            Some(t)
        } else {
            lookup(s, id)
        },
{
    let i = index_of_id(s, t.id);
    lemma_index_props(s, t.id);
    lemma_index_props(s, id);
    if i == -1 {
        let m = s.push(t);
        assert(forall|k: int| 0 <= k < s.len() ==> m[k] == (#[trigger] s[k]));
        assert(m[s.len() as int] == t);
        if id == t.id {
            lemma_index_unique(m, id, s.len() as int);
        } else {
            let j = index_of_id(s, id);
            if j >= 0 {
                lemma_index_unique(m, id, j);
            } else {
                assert(forall|k: int| 0 <= k < m.len() ==> (#[trigger] m[k]).id != id);
                lemma_index_none(m, id);
            }
        }
    } else {
        let m = s.update(i, t);
        assert(forall|k: int| 0 <= k < s.len() && k != i ==> m[k] == (#[trigger] s[k]));
        assert(m[i] == t);
        if id == t.id {
            assert(forall|k: int| 0 <= k < i ==> (#[trigger] m[k]).id != id);
            lemma_index_unique(m, id, i);
        } else {
            let j = index_of_id(s, id);
            if j >= 0 {
                assert(j != i);
                assert(m[j].id == id);
                assert(forall|k: int| 0 <= k < j ==> (#[trigger] m[k]).id != id);
                lemma_index_unique(m, id, j);
            } else {
                assert(forall|k: int| 0 <= k < m.len() ==> (#[trigger] m[k]).id != id);
                lemma_index_none(m, id);
            }
        }
    }
}

/// Last write wins along the chain: whatever the snapshot held, folding a
/// delta with `t1` and then one with `t2` for the same id leaves `t2`.
pub proof fn lemma_fold_last_wins(s: Seq<TaskV>, t1: TaskV, t2: TaskV)
    requires
        t1.id == t2.id,
    ensures
        lookup(merge(merge(s, seq![t1]), seq![t2]), t1.id) == Some(t2),
{
    lemma_merge_singleton(s, t1);
    lemma_merge_singleton(merge_one(s, t1), t2);
    lemma_lookup_merge_one(merge_one(s, t1), t2, t1.id);
}

/// Folds of disjoint single-task deltas commute, up to lookup.
pub proof fn lemma_fold_disjoint_commutes(s: Seq<TaskV>, t1: TaskV, t2: TaskV, id: Seq<char>)
    requires
        t1.id != t2.id,
    ensures
        lookup(merge(merge(s, seq![t1]), seq![t2]), id) == lookup(
            merge(merge(s, seq![t2]), seq![t1]),
            id,
        ),
{
    lemma_merge_singleton(s, t1);
    lemma_merge_singleton(s, t2);
    lemma_merge_singleton(merge_one(s, t1), t2);
    lemma_merge_singleton(merge_one(s, t2), t1);
    lemma_lookup_merge_one(merge_one(s, t1), t2, id);
    lemma_lookup_merge_one(merge_one(s, t2), t1, id);
    lemma_lookup_merge_one(s, t1, id);
    lemma_lookup_merge_one(s, t2, id);
}

/// The last task in a delta bearing the given id, if any: the record that
/// survives once the whole delta is folded.
pub open spec fn last_with_id(d: Seq<TaskV>, id: Seq<char>) -> Option<TaskV>
    decreases d.len(),
{
    if d.len() == 0 {
        None
    } else {
        let r = last_with_id(d.subrange(1, d.len() as int), id);
        if r is Some {
            r
        } else if d[0].id == id {
            Some(d[0])
        } else {
            None
        }
    }
}

proof fn lemma_last_with_id_witness(d: Seq<TaskV>, id: Seq<char>)
    ensures
        last_with_id(d, id) is Some <==> (exists|i: int|
            0 <= i < d.len() && (#[trigger] d[i]).id == id),
    decreases d.len(),
{
    if d.len() > 0 {
        let rest = d.subrange(1, d.len() as int);
        lemma_last_with_id_witness(rest, id);
        assert(forall|i: int| 0 <= i < rest.len() ==> (#[trigger] rest[i]) == d[i + 1]);
        if last_with_id(d, id) is Some {
            if last_with_id(rest, id) is Some {
                let i = choose|i: int| 0 <= i < rest.len() && (#[trigger] rest[i]).id == id;
                assert(d[i + 1].id == id);
            } else {
                assert(d[0].id == id);
            }
        }
        if exists|i: int| 0 <= i < d.len() && (#[trigger] d[i]).id == id {
            let i = choose|i: int| 0 <= i < d.len() && (#[trigger] d[i]).id == id;
            if i > 0 {
                assert(rest[i - 1].id == id);
            }
        }
    }
}

/// Folding a whole delta acts on each id as the delta's last record under
/// that id does: the lookup yields that record, or what the snapshot
/// already held when the delta never touches the id.
pub proof fn lemma_lookup_merge(s: Seq<TaskV>, d: Seq<TaskV>, id: Seq<char>)
    ensures
        lookup(merge(s, d), id) == match last_with_id(d, id) {
            Some(t) => Some(t),
            None => lookup(s, id),
        },
    decreases d.len(),
{
    if d.len() > 0 {
        let tail = d.subrange(1, d.len() as int);
        lemma_lookup_merge_one(s, d[0], id);
        lemma_lookup_merge(merge_one(s, d[0]), tail, id);
    }
}

/// Folds of whole deltas over disjoint id sets commute: whichever is folded
/// first, every id afterwards looks up the same record.  Folds that share
/// an id stay order-dependent, as `lemma_fold_last_wins` shows.
pub proof fn lemma_fold_disjoint_deltas_commute(s: Seq<TaskV>, d1: Seq<TaskV>, d2: Seq<TaskV>)
    requires
        forall|i: int, j: int|
            0 <= i < d1.len() && 0 <= j < d2.len() ==> (#[trigger] d1[i]).id != (
            #[trigger] d2[j]).id,
    ensures
        forall|id: Seq<char>|
            #[trigger] lookup(merge(merge(s, d1), d2), id) == lookup(merge(merge(s, d2), d1), id),
{
    assert forall|id: Seq<char>|
        #[trigger] lookup(merge(merge(s, d1), d2), id) == lookup(
            merge(merge(s, d2), d1),
            id,
        ) by {
        lemma_lookup_merge(merge(s, d1), d2, id);
        lemma_lookup_merge(s, d1, id);
        lemma_lookup_merge(merge(s, d2), d1, id);
        lemma_lookup_merge(s, d2, id);
        lemma_last_with_id_witness(d1, id);
        lemma_last_with_id_witness(d2, id);
        if last_with_id(d1, id) is Some && last_with_id(d2, id) is Some {
            let i = choose|i: int| 0 <= i < d1.len() && (#[trigger] d1[i]).id == id;
            let j = choose|j: int| 0 <= j < d2.len() && (#[trigger] d2[j]).id == id;
            assert(d1[i].id == d2[j].id);
            assert(false);
        }
    }
}

pub proof fn lemma_merge_singleton(s: Seq<TaskV>, t: TaskV)
    ensures
        merge(s, seq![t]) == merge_one(s, t),
{
    let d = seq![t];
    assert(d.subrange(1, 1) =~= Seq::<TaskV>::empty());
    assert(merge(merge_one(s, t), d.subrange(1, 1)) == merge_one(s, t));
}

/// Folding keeps task ids unique.
pub proof fn lemma_merge_one_preserves_unique(s: Seq<TaskV>, t: TaskV)
    requires
        unique_ids(s),
    ensures
        unique_ids(merge_one(s, t)),
{
    lemma_index_props(s, t.id);
    let i = index_of_id(s, t.id);
    let m = merge_one(s, t);
    if i == -1 {
        assert forall|j: int, k: int| 0 <= j < k < m.len() implies m[j].id != m[k].id by {
            if k < s.len() {
                assert(m[j] == s[j]);
                assert(m[k] == s[k]);
            } else {
                assert(m[k] == t);
                assert(m[j] == s[j]);
            }
        }
    } else {
        assert forall|j: int, k: int| 0 <= j < k < m.len() implies m[j].id != m[k].id by {
            if j == i {
                assert(m[k] == s[k]);
                assert(s[i].id == t.id);
            } else if k == i {
                assert(m[j] == s[j]);
                assert(s[i].id == t.id);
            }
        }
    }
}

pub proof fn lemma_merge_preserves_unique(s: Seq<TaskV>, delta: Seq<TaskV>)
    requires
        unique_ids(s),
    ensures
        unique_ids(merge(s, delta)),
    decreases delta.len(),
{
    if delta.len() > 0 {
        lemma_merge_one_preserves_unique(s, delta[0]);
        lemma_merge_preserves_unique(merge_one(s, delta[0]), delta.subrange(1, delta.len() as int));
    }
}

/// The position of the first task with the given id, scanned directly.
fn find_task_index(tasks: &Vec<Task>, id: &String) -> (r: Option<usize>)
    ensures
        r matches Some(i) ==> i < tasks.len() && index_of_id(tasks.deep_view(), id@) == i,
        r is None ==> index_of_id(tasks.deep_view(), id@) == -1,
{
    let ghost s = tasks.deep_view();
    let mut i: usize = 0;
    while i < tasks.len()
        invariant
            i <= tasks.len(),
            s == tasks.deep_view(),
            forall|k: int| 0 <= k < i ==> (#[trigger] s[k]).id != id@,
        decreases tasks.len() - i,
    {
        if crate::events::str_eq(tasks[i].id.as_str(), id.as_str()) {
            proof {
                assert(s[i as int] == tasks@[i as int].deep_view());
                lemma_index_unique(s, id@, i as int);
            }
            return Some(i);
        }
        proof {
            assert(s[i as int] == tasks@[i as int].deep_view());
        }
        i = i + 1;
    }
    proof {
        lemma_index_none(s, id@);
    }
    None
}

impl Content {
    /// An empty collection.
    pub fn new() -> (r: Content)
        ensures
            r@ == Seq::<TaskV>::empty(),
    {
        let tasks: Vec<Task> = Vec::new();
        proof {
            assert(tasks.deep_view() =~= Seq::<TaskV>::empty());
        }
        Content { tasks }
    }

    /// Folds a later delta into this snapshot: by task id, last write wins,
    /// whole records replaced at once.
    pub fn update(&mut self, delta: Content)
        ensures
            final(self)@ == merge(old(self)@, delta@),
    {
        let ghost target = merge(old(self)@, delta@);
        let mut rest = delta;
        while rest.tasks.len() > 0
            invariant
                target == merge(self@, rest@),
            decreases rest.tasks.len(),
        {
            let ghost pre_rest = rest@;
            let ghost pre_self = self@;
            let t = rest.tasks.remove(0);
            proof {
                assert(rest.tasks.deep_view() =~= pre_rest.subrange(1, pre_rest.len() as int));
                assert(pre_rest[0] == t@);
            }
            match find_task_index(&self.tasks, &t.id) {
                Some(i) => {
                    proof {
                        assert(index_of_id(pre_self, t@.id) == i);
                    }
                    self.tasks.set(i, t);
                    proof {
                        assert(self.tasks.deep_view() =~= pre_self.update(i as int, t@));
                    }
                },
                None => {
                    self.tasks.push(t);
                    proof {
                        assert(self.tasks.deep_view() =~= pre_self.push(t@));
                    }
                },
            }
            proof {
                assert(self@ == merge_one(pre_self, pre_rest[0]));
            }
        }
        proof {
            assert(rest@ =~= Seq::<TaskV>::empty());
        }
    }
}

} // verus!
