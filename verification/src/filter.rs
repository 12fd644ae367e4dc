//! The filter engine: a conjunction of optional criteria over tasks.  Each
//! field is a toggle: `Some` makes it part of the filter, `None` ignores it.

use vstd::prelude::*;
use crate::task::Task;

verus! {

/// A boolean predicate over tasks, built from optional toggles.
pub struct Filter {
    inbox: Option<bool>,
    flagged: Option<bool>,
    completed: Option<bool>,
    has_project: Option<bool>,
    has_due_date: Option<bool>,
}

/// The tasks of `s` that satisfy the filter, in their original order.
pub open spec fn filter_spec(f: Filter, s: Seq<Task>) -> Seq<Task>
    decreases s.len(),
{
    if s.len() == 0 {
        Seq::empty()
    } else if f.matches(s[0]) {
        seq![s[0]] + filter_spec(f, s.subrange(1, s.len() as int))
    } else {
        filter_spec(f, s.subrange(1, s.len() as int))
    }
}

impl Filter {
    /// Whether a task passes every toggle the filter sets.
    pub closed spec fn matches(self, t: Task) -> bool {
        &&& (self.inbox matches Some(b) ==> t.inbox == b)
        &&& (self.flagged matches Some(b) ==> t.flagged == b)
        &&& (self.completed matches Some(b) ==> (t.completed is Some) == b)
        &&& (self.has_project matches Some(b) ==> (t.parent is Some) == b)
        &&& (self.has_due_date matches Some(b) ==> (t.due is Some) == b)
    }

    /// A filter that lets everything through.
    pub fn new_empty() -> (r: Filter)
        ensures
            forall|t: Task| #[trigger] r.matches(t),
    {
        Filter { inbox: None, flagged: None, completed: None, has_project: None, has_due_date: None }
    }

    /// A filter that shows tasks that have not been completed.
    pub fn new_incomplete() -> (r: Filter)
        ensures
            forall|t: Task| #[trigger] r.matches(t) <==> t.completed is None,
    {
        Filter {
            inbox: None,
            flagged: None,
            completed: Some(false),
            has_project: None,
            has_due_date: None,
        }
    }

    /// A filter that shows tasks that have been completed.
    pub fn new_complete() -> (r: Filter)
        ensures
            forall|t: Task| #[trigger] r.matches(t) <==> t.completed is Some,
    {
        Filter {
            inbox: None,
            flagged: None,
            completed: Some(true),
            has_project: None,
            has_due_date: None,
        }
    }

    /// A filter that shows incomplete inbox items.
    pub fn new_inbox() -> (r: Filter)
        ensures
            forall|t: Task| #[trigger] r.matches(t) <==> t.inbox && t.completed is None,
    {
        Filter {
            inbox: Some(true),
            flagged: None,
            completed: Some(false),
            has_project: None,
            has_due_date: None,
        }
    }

    /// A filter that shows incomplete flagged items.
    pub fn new_flagged() -> (r: Filter)
        ensures
            forall|t: Task| #[trigger] r.matches(t) <==> t.flagged && t.completed is None,
    {
        Filter {
            inbox: None,
            flagged: Some(true),
            completed: Some(false),
            has_project: None,
            has_due_date: None,
        }
    }

    /// A filter that shows items assigned to projects.
    pub fn new_projects() -> (r: Filter)
        ensures
            forall|t: Task| #[trigger] r.matches(t) <==> t.parent is Some,
    {
        Filter {
            inbox: None,
            flagged: None,
            completed: None,
            has_project: Some(true),
            has_due_date: None,
        }
    }

    /// A filter that shows incomplete items with a due date.
    pub fn new_forecast() -> (r: Filter)
        ensures
            forall|t: Task| #[trigger] r.matches(t) <==> t.due is Some && t.completed is None,
    {
        Filter {
            inbox: None,
            flagged: None,
            completed: Some(false),
            has_project: None,
            has_due_date: Some(true),
        }
    }

    /// Whether one task passes the filter.
    pub fn accepts(&self, t: &Task) -> (r: bool)
        ensures
            r == self.matches(*t),
    {
        if let Some(b) = self.inbox {
            if t.inbox != b {
                return false;
            }
        }
        if let Some(b) = self.flagged {
            if t.flagged != b {
                return false;
            }
        }
        if let Some(b) = self.completed {
            if t.completed.is_some() != b {
                return false;
            }
        }
        if let Some(b) = self.has_project {
            if t.parent.is_some() != b {
                return false;
            }
        }
        if let Some(b) = self.has_due_date {
            if t.due.is_some() != b {
                return false;
            }
        }
        true
    }

    /// Keeps the tasks that pass the filter, in order.
    pub fn apply(self, tasks: Vec<Task>) -> (r: Vec<Task>)
        ensures
            r@ == filter_spec(self, tasks@),
    {
        let ghost full = tasks@;
        let mut rest = tasks;
        let mut out: Vec<Task> = Vec::new();
        proof {
            assert(out@ + filter_spec(self, rest@) =~= filter_spec(self, full));
        }
        while rest.len() > 0
            invariant
                filter_spec(self, full) == out@ + filter_spec(self, rest@),
            decreases rest.len(),
        {
            let ghost pre_rest = rest@;
            let ghost pre_out = out@;
            let t = rest.remove(0);
            proof {
                assert(rest@ =~= pre_rest.subrange(1, pre_rest.len() as int));
                assert(pre_rest[0] == t);
            }
            if self.accepts(&t) {
                out.push(t);
                proof {
                    assert(out@ =~= pre_out + seq![t]);
                    assert(pre_out + (seq![t] + filter_spec(self, rest@)) =~= (pre_out + seq![t])
                        + filter_spec(self, rest@));
                }
            }
        }
        proof {
            assert(rest@ =~= Seq::<Task>::empty());
            assert(out@ + filter_spec(self, rest@) =~= out@);
        }
        out
    }
}

/// The filter behind a built-in perspective name.
pub fn perspective_name_to_filter(name: &str) -> (r: Filter)
    requires
        name@ == "inbox"@ || name@ == "flagged"@ || name@ == "forecast"@ || name@ == "projects"@
            || name@ == "completed"@,
    ensures
        name@ == "inbox"@ ==> (forall|t: Task| #[trigger] r.matches(t) <==> t.inbox && t.completed is None),
        name@ == "flagged"@ ==> (forall|t: Task| #[trigger] r.matches(t) <==> t.flagged && t.completed is None),
        name@ == "forecast"@ ==> (forall|t: Task| #[trigger] r.matches(t) <==> t.due is Some && t.completed is None),
        name@ == "projects"@ ==> (forall|t: Task| #[trigger] r.matches(t) <==> t.parent is Some),
        name@ == "completed"@ ==> (forall|t: Task| #[trigger] r.matches(t) <==> t.completed is Some),
{
    proof {
        reveal_strlit("inbox");
        reveal_strlit("flagged");
        reveal_strlit("forecast");
        reveal_strlit("projects");
        reveal_strlit("completed");
        assert("inbox"@.len() == 5);
        assert("flagged"@.len() == 7);
        assert("forecast"@.len() == 8);
        assert("projects"@.len() == 8);
        assert("completed"@.len() == 9);
        assert("forecast"@[0] == 'f');
        assert("projects"@[0] == 'p');
    }
    if crate::events::str_eq(name, "inbox") {
        Filter::new_inbox()
    } else if crate::events::str_eq(name, "flagged") {
        Filter::new_flagged()
    } else if crate::events::str_eq(name, "forecast") {
        Filter::new_forecast()
    } else if crate::events::str_eq(name, "projects") {
        Filter::new_projects()
    } else if crate::events::str_eq(name, "completed") {
        Filter::new_complete()
    } else {
        proof {
            assert(false);
        }
        Filter::new_empty()
    }
}

} // verus!
