//! The task model: one actionable item and the text forms of its
//! enumeration and boolean fields.

use vstd::prelude::*;
use crate::time::Timestamp;
use crate::util::ID;

verus! {

/// The order in which the subtasks of a task are to be completed.
#[derive(Debug, Clone, Copy, PartialEq, Eq, Structural)]
pub enum SubtaskOrder {
    Parallel,
    Sequential,
}

/// The text form of a subtask order.
pub open spec fn order_chars(o: SubtaskOrder) -> Seq<char> {
    match o {
        SubtaskOrder::Parallel => "parallel"@,
        SubtaskOrder::Sequential => "sequential"@,
    }
}

/// What parsing a subtask order yields.
pub open spec fn parse_order_spec(s: Seq<char>) -> Option<SubtaskOrder> {
    if s == "parallel"@ {
        Some(SubtaskOrder::Parallel)
    } else if s == "sequential"@ {
        Some(SubtaskOrder::Sequential)
    } else {
        None
    }
}

pub fn format_order(o: &SubtaskOrder) -> (r: &'static str)
    ensures
        r@ == order_chars(*o),
{
    match o {
        SubtaskOrder::Parallel => "parallel",
        SubtaskOrder::Sequential => "sequential",
    }
}

pub fn parse_order(s: &str) -> (r: Option<SubtaskOrder>)
    ensures
        r == parse_order_spec(s@),
{
    if crate::events::str_eq(s, "parallel") {
        Some(SubtaskOrder::Parallel)
    } else if crate::events::str_eq(s, "sequential") {
        Some(SubtaskOrder::Sequential)
    } else {
        None
    }
}

/// The text form of a boolean field: the literal words.
pub open spec fn bool_chars(b: bool) -> Seq<char> {
    if b {
        "true"@
    } else {
        "false"@
    }
}

/// What parsing a boolean field yields.
pub open spec fn parse_bool_spec(s: Seq<char>) -> Option<bool> {
    if s == "true"@ {
        Some(true)
    } else if s == "false"@ {
        Some(false)
    } else {
        None
    }
}

pub fn format_bool(b: bool) -> (r: &'static str)
    ensures
        r@ == bool_chars(b),
{
    if b {
        "true"
    } else {
        "false"
    }
}

pub fn parse_bool(s: &str) -> (r: Option<bool>)
    ensures
        r == parse_bool_spec(s@),
{
    if crate::events::str_eq(s, "true") {
        Some(true)
    } else if crate::events::str_eq(s, "false") {
        Some(false)
    } else {
        None
    }
}

/// One task.  `id` is immutable once assigned and `added` never changes;
/// every other field may be overwritten by a later delta for the same `id`.
#[derive(Debug, Clone, PartialEq, Eq)]
pub struct Task {
    // metadata
    pub id: ID,
    pub parent: Option<ID>,
    pub rank: Option<i64>,
    pub inbox: bool,
    pub added: Timestamp,
    pub modified: Option<Timestamp>,
    // attributes
    pub title: String,
    pub note: Option<String>,
    pub context: Option<ID>,
    pub flagged: bool,
    pub due: Option<Timestamp>,
    pub start: Option<Timestamp>,
    pub completed: Option<Timestamp>,
    pub estimated_duration: Option<u64>,
    pub complete_by_children: bool,
    pub order: Option<SubtaskOrder>,
}

/// The mathematical value of a task.
pub struct TaskV {
    pub id: Seq<char>,
    pub parent: Option<Seq<char>>,
    pub rank: Option<i64>,
    pub inbox: bool,
    pub added: Timestamp,
    pub modified: Option<Timestamp>,
    pub title: Seq<char>,
    pub note: Option<Seq<char>>,
    pub context: Option<Seq<char>>,
    pub flagged: bool,
    pub due: Option<Timestamp>,
    pub start: Option<Timestamp>,
    pub completed: Option<Timestamp>,
    pub estimated_duration: Option<u64>,
    pub complete_by_children: bool,
    pub order: Option<SubtaskOrder>,
}

impl View for Task {
    type V = TaskV;

    open spec fn view(&self) -> TaskV {
        TaskV {
            id: self.id@,
            parent: self.parent.deep_view(),
            rank: self.rank,
            inbox: self.inbox,
            added: self.added,
            modified: self.modified,
            title: self.title@,
            note: self.note.deep_view(),
            context: self.context.deep_view(),
            flagged: self.flagged,
            due: self.due,
            start: self.start,
            completed: self.completed,
            estimated_duration: self.estimated_duration,
            complete_by_children: self.complete_by_children,
            order: self.order,
        }
    }
}

impl DeepView for Task {
    type V = TaskV;

    open spec fn deep_view(&self) -> TaskV {
        self.view()
    }
}

impl TaskV {
    /// Every timestamp the task carries is a real calendar date.
    pub open spec fn wf(self) -> bool {
        &&& self.added.valid()
        &&& (self.modified matches Some(t) ==> t.valid())
        &&& (self.due matches Some(t) ==> t.valid())
        &&& (self.start matches Some(t) ==> t.valid())
        &&& (self.completed matches Some(t) ==> t.valid())
    }
}

impl Task {
    pub open spec fn wf(self) -> bool {
        self@.wf()
    }

    /// Whether every timestamp the task carries is a real calendar date.
    pub fn check_wf(&self) -> (r: bool)
        ensures
            r == self.wf(),
    {
        self.added.check_valid() && (match &self.modified {
            Some(t) => t.check_valid(),
            None => true,
        }) && (match &self.due {
            Some(t) => t.check_valid(),
            None => true,
        }) && (match &self.start {
            Some(t) => t.check_valid(),
            None => true,
        }) && (match &self.completed {
            Some(t) => t.check_valid(),
            None => true,
        })
    }
}

impl Default for Task {
    /// A fresh task: a random identifier, added and modified now, every
    /// optional field absent, subtasks sequential.
    fn default() -> (r: Task)
        ensures
            r.id@.len() == 11,
            r.parent is None,
            r.rank is None,
            !r.inbox,
            r.modified is Some,
            r.title@ == Seq::<char>::empty(),
            r.note is None,
            r.context is None,
            !r.flagged,
            r.due is None,
            r.start is None,
            r.completed is None,
            r.estimated_duration is None,
            !r.complete_by_children,
            r.order == Some(SubtaskOrder::Sequential),
            r.wf(),
    {
        let now = crate::time::now_timestamp();
        Task {
            id: crate::util::generate_id(),
            parent: None,
            rank: None,
            inbox: false,
            added: now,
            modified: Some(crate::time::now_timestamp()),
            title: String::new(),
            note: None,
            context: None,
            flagged: false,
            due: None,
            start: None,
            completed: None,
            estimated_duration: None,
            complete_by_children: false,
            order: Some(SubtaskOrder::Sequential),
        }
    }
}

} // verus!
