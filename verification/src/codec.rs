//! The streaming object codec: decoding tasks from a forward-only XML
//! event stream with explicit depth bookkeeping.  The specification
//! functions here are the reference semantics of the decoder; the
//! executable functions are proved equal to them.

use vstd::prelude::*;
use crate::content::Content;
use crate::digits::{parse_u64_spec, parse_i64_spec};
use crate::error::{OpenFocusError, OpenFocusErrorType};
use crate::events::{Event, EventV, attr_value, attrs_get_val, get_text_content, str_eq};
use crate::task::{Task, TaskV, SubtaskOrder, parse_bool_spec, parse_order_spec};
use crate::time::{Timestamp, parse_ts_spec};

verus! {

/// The fields of a task as they stand mid-decode: everything optional
/// until the closing tag is reached.
pub struct TaskAcc {
    pub id: Seq<char>,
    pub parent: Option<Seq<char>>,
    pub rank: Option<i64>,
    pub inbox: bool,
    pub added: Option<Timestamp>,
    pub modified: Option<Timestamp>,
    pub title: Option<Seq<char>>,
    pub note: Option<Seq<char>>,
    pub context: Option<Seq<char>>,
    pub flagged: bool,
    pub due: Option<Timestamp>,
    pub start: Option<Timestamp>,
    pub completed: Option<Timestamp>,
    pub estimated_duration: Option<u64>,
    pub complete_by_children: bool,
    pub order: Option<SubtaskOrder>,
}

/// The state of a task decode just after its opening tag, which carries
/// the mandatory id.
pub open spec fn init_acc(id: Seq<char>) -> TaskAcc {
    TaskAcc {
        id: id,
        parent: None,
        rank: None,
        inbox: false,
        added: None,
        modified: None,
        title: None,
        note: None,
        context: None,
        flagged: false,
        due: None,
        start: None,
        completed: None,
        estimated_duration: None,
        complete_by_children: false,
        order: None,
    }
}

/// Closing a task: `added` and `name` must have been seen; every other
/// field keeps its default or decoded value.
pub open spec fn finish_acc(a: TaskAcc) -> Option<TaskV> {
    if a.added is Some && a.title is Some {
        Some(
            TaskV {
                id: a.id,
                parent: a.parent,
                rank: a.rank,
                inbox: a.inbox,
                added: a.added->Some_0,
                modified: a.modified,
                title: a.title->Some_0,
                note: a.note,
                context: a.context,
                flagged: a.flagged,
                due: a.due,
                start: a.start,
                completed: a.completed,
                estimated_duration: a.estimated_duration,
                complete_by_children: a.complete_by_children,
                order: a.order,
            },
        )
    } else {
        None
    }
}

/// Consuming a balanced subtree: the index just past the end tag that
/// closes `depth` open elements, or the stream's end if it runs out first.
pub open spec fn skip_spec(evs: Seq<EventV>, i: int, depth: int) -> int
    decreases evs.len() - i,
{
    if i < 0 || i >= evs.len() {
        i
    } else {
        match evs[i] {
            EventV::Start { .. } => skip_spec(evs, i + 1, depth + 1),
            EventV::End { .. } => if depth <= 1 {
                i + 1
            } else {
                skip_spec(evs, i + 1, depth - 1)
            },
            _ => skip_spec(evs, i + 1, depth),
        }
    }
}

pub proof fn lemma_skip_bounds(evs: Seq<EventV>, i: int, depth: int)
    requires
        0 <= i <= evs.len(),
    ensures
        i <= skip_spec(evs, i, depth) <= evs.len(),
        i < evs.len() ==> i + 1 <= skip_spec(evs, i, depth),
    decreases evs.len() - i,
{
    if i < evs.len() {
        match evs[i] {
            EventV::Start { .. } => lemma_skip_bounds(evs, i + 1, depth + 1),
            EventV::End { .. } => if depth > 1 {
                lemma_skip_bounds(evs, i + 1, depth - 1)
            },
            _ => lemma_skip_bounds(evs, i + 1, depth),
        }
    }
}

/// One field element, dispatched by tag name: the state after handling the
/// start tag at `i` (and, for text-carrying fields, the event after it),
/// or `None` on a decode error.  The result is the next event index, the
/// depth, and the updated fields.
pub open spec fn field_step(
    evs: Seq<EventV>,
    i: int,
    depth: int,
    a: TaskAcc,
    name: Seq<char>,
    attrs: Seq<(Seq<char>, Seq<char>)>,
) -> Option<(int, int, TaskAcc)> {
    if name == "task"@ {
        // a nested task element names the enclosing project
        Some((i + 1, depth + 1, TaskAcc { parent: attr_value(attrs, "idref"@), ..a }))
    } else if name == "context"@ {
        Some((i + 1, depth + 1, TaskAcc { context: attr_value(attrs, "idref"@), ..a }))
    } else if name == "project"@ {
        // placeholder element: its subtree is skipped structurally
        Some((skip_spec(evs, i + 1, 1), depth, a))
    } else if name == "note"@ {
        // notes are not decoded; the subtree is skipped and an empty
        // placeholder recorded
        Some((skip_spec(evs, i + 1, 1), depth, TaskAcc { note: Some(Seq::empty()), ..a }))
    } else if name == "added"@ {
        // mandatory: must carry text that parses as a timestamp
        if i + 1 < evs.len() && evs[i + 1] is Text {
            match parse_ts_spec(evs[i + 1]->Text_0) {
                Some(t) => Some((i + 2, depth + 1, TaskAcc { added: Some(t), ..a })),
                None => None,
            }
        } else {
            None
        }
    } else if name == "inbox"@ {
        // present but empty leaves the flag at its default
        if i + 1 < evs.len() && evs[i + 1] is Text {
            match parse_bool_spec(evs[i + 1]->Text_0) {
                Some(b) => Some((i + 2, depth + 1, TaskAcc { inbox: b, ..a })),
                None => None,
            }
        } else if i + 1 < evs.len() {
            Some((i + 2, depth, a))
        } else {
            Some((i + 1, depth, a))
        }
    } else if name == "flagged"@ {
        if i + 1 < evs.len() && evs[i + 1] is Text {
            match parse_bool_spec(evs[i + 1]->Text_0) {
                Some(b) => Some((i + 2, depth + 1, TaskAcc { flagged: b, ..a })),
                None => None,
            }
        } else {
            None
        }
    } else if name == "complete-by-children"@ || name == "completed-by-children"@ {
        // the second spelling appears in older documents
        if i + 1 < evs.len() && evs[i + 1] is Text {
            match parse_bool_spec(evs[i + 1]->Text_0) {
                Some(b) => Some((i + 2, depth + 1, TaskAcc { complete_by_children: b, ..a })),
                None => None,
            }
        } else {
            None
        }
    } else if name == "name"@ {
        // present but empty decodes to the empty title
        if i + 1 < evs.len() && evs[i + 1] is Text {
            Some((i + 2, depth + 1, TaskAcc { title: Some(evs[i + 1]->Text_0), ..a }))
        } else if i + 1 < evs.len() {
            Some((i + 2, depth, TaskAcc { title: Some(Seq::empty()), ..a }))
        } else {
            Some((i + 1, depth, TaskAcc { title: Some(Seq::empty()), ..a }))
        }
    } else if name == "rank"@ {
        if i + 1 < evs.len() && evs[i + 1] is Text {
            match parse_i64_spec(evs[i + 1]->Text_0) {
                Some(v) => Some((i + 2, depth + 1, TaskAcc { rank: Some(v), ..a })),
                None => None,
            }
        } else if i + 1 < evs.len() {
            Some((i + 2, depth, a))
        } else {
            Some((i + 1, depth, a))
        }
    } else if name == "estimated-minutes"@ {
        if i + 1 < evs.len() && evs[i + 1] is Text {
            match parse_u64_spec(evs[i + 1]->Text_0) {
                Some(v) => Some((i + 2, depth + 1, TaskAcc { estimated_duration: Some(v), ..a })),
                None => None,
            }
        } else if i + 1 < evs.len() {
            Some((i + 2, depth, a))
        } else {
            Some((i + 1, depth, a))
        }
    } else if name == "order"@ {
        if i + 1 < evs.len() && evs[i + 1] is Text {
            match parse_order_spec(evs[i + 1]->Text_0) {
                Some(o) => Some((i + 2, depth + 1, TaskAcc { order: Some(o), ..a })),
                None => None,
            }
        } else if i + 1 < evs.len() {
            Some((i + 2, depth, a))
        } else {
            Some((i + 1, depth, a))
        }
    } else if name == "start"@ {
        if i + 1 < evs.len() && evs[i + 1] is Text {
            match parse_ts_spec(evs[i + 1]->Text_0) {
                Some(t) => Some((i + 2, depth + 1, TaskAcc { start: Some(t), ..a })),
                None => None,
            }
        } else if i + 1 < evs.len() {
            Some((i + 2, depth, a))
        } else {
            Some((i + 1, depth, a))
        }
    } else if name == "due"@ {
        if i + 1 < evs.len() && evs[i + 1] is Text {
            match parse_ts_spec(evs[i + 1]->Text_0) {
                Some(t) => Some((i + 2, depth + 1, TaskAcc { due: Some(t), ..a })),
                None => None,
            }
        } else if i + 1 < evs.len() {
            Some((i + 2, depth, a))
        } else {
            Some((i + 1, depth, a))
        }
    } else if name == "completed"@ {
        if i + 1 < evs.len() && evs[i + 1] is Text {
            match parse_ts_spec(evs[i + 1]->Text_0) {
                Some(t) => Some((i + 2, depth + 1, TaskAcc { completed: Some(t), ..a })),
                None => None,
            }
        } else if i + 1 < evs.len() {
            Some((i + 2, depth, a))
        } else {
            Some((i + 1, depth, a))
        }
    } else if name == "modified"@ {
        if i + 1 < evs.len() && evs[i + 1] is Text {
            match parse_ts_spec(evs[i + 1]->Text_0) {
                Some(t) => Some((i + 2, depth + 1, TaskAcc { modified: Some(t), ..a })),
                None => None,
            }
        } else if i + 1 < evs.len() {
            Some((i + 2, depth, a))
        } else {
            Some((i + 1, depth, a))
        }
    } else {
        // unrecognized nested tags are ignored; depth still tracks them
        Some((i + 1, depth + 1, a))
    }
}

/// Decoding the inside of a `task` element from event `i` at nesting
/// `depth`: the decoded task and the index just past its end tag, or
/// `None` on a decode error (which includes the stream ending before the
/// task closes).
pub open spec fn decode_task_spec(evs: Seq<EventV>, i: int, depth: int, a: TaskAcc) -> Option<
    (TaskV, int),
>
    decreases evs.len() - i,
{
    if i < 0 || i >= evs.len() {
        None
    } else {
        match evs[i] {
            EventV::Start { name, attrs } => match field_step(evs, i, depth, a, name, attrs) {
                None => None,
                Some((j, d, a2)) => if i < j <= evs.len() {
                    decode_task_spec(evs, j, d, a2)
                } else {
                    None
                },
            },
            EventV::End { .. } => {
                if depth == 1 {
                    match finish_acc(a) {
                        Some(t) => Some((t, i + 1)),
                        None => None,
                    }
                } else {
                    decode_task_spec(evs, i + 1, depth - 1, a)
                }
            },
            _ => decode_task_spec(evs, i + 1, depth, a),
        }
    }
}

pub proof fn lemma_decode_task_bounds(evs: Seq<EventV>, i: int, depth: int, a: TaskAcc)
    requires
        0 <= i,
    ensures
        decode_task_spec(evs, i, depth, a) matches Some(r) ==> i < r.1 <= evs.len(),
    decreases evs.len() - i,
{
    if 0 <= i < evs.len() {
        match evs[i] {
            EventV::Start { name, attrs } => {
                match field_step(evs, i, depth, a, name, attrs) {
                    None => {},
                    Some((j, d, a2)) => {
                        if i < j <= evs.len() {
                            lemma_decode_task_bounds(evs, j, d, a2);
                        }
                    },
                }
            },
            EventV::End { .. } => {
                if depth != 1 {
                    lemma_decode_task_bounds(evs, i + 1, depth - 1, a);
                }
            },
            _ => lemma_decode_task_bounds(evs, i + 1, depth, a),
        }
    }
}

/// The top-level dispatch over a document's events, from event `i`, with
/// the tasks decoded so far: `task` elements are decoded, `perspective`
/// and the document root are passed over, anything else is skipped
/// structurally.  The stream ends at the root's end tag (or with the
/// events themselves).
pub open spec fn decode_doc_spec(evs: Seq<EventV>, i: int, acc: Seq<TaskV>) -> Option<Seq<TaskV>>
    decreases evs.len() - i,
{
    if i < 0 {
        None
    } else if i >= evs.len() {
        Some(acc)
    } else {
        match evs[i] {
            EventV::Start { name, attrs } => {
                if name == "task"@ {
                    match attr_value(attrs, "id"@) {
                        None => None,  // tasks must have ids
                        Some(id) => match decode_task_spec(evs, i + 1, 1, init_acc(id)) {
                            None => None,
                            Some((t, j)) => if i < j <= evs.len() {
                                decode_doc_spec(evs, j, acc.push(t))
                            } else {
                                None
                            },
                        },
                    }
                } else if name == "perspective"@ {
                    decode_doc_spec(evs, i + 1, acc)
                } else if name == "omnifocus"@ {
                    decode_doc_spec(evs, i + 1, acc)
                } else {
                    let j = skip_spec(evs, i + 1, 1);
                    if i < j <= evs.len() {
                        decode_doc_spec(evs, j, acc)
                    } else {
                        None
                    }
                }
            },
            EventV::End { name } => if name == "omnifocus"@ {
                Some(acc)
            } else {
                decode_doc_spec(evs, i + 1, acc)
            },
            _ => decode_doc_spec(evs, i + 1, acc),
        }
    }
}

/// What decoding a whole event stream yields.
pub open spec fn decode_content_spec(evs: Seq<EventV>) -> Option<Seq<TaskV>> {
    decode_doc_spec(evs, 0, Seq::empty())
}

/// What decoding a whole archive yields: unwrap the zip container, tokenize
/// the XML, decode the events.
pub open spec fn archive_decode(data: Seq<u8>) -> Option<Seq<TaskV>> {
    match crate::zipio::zip_entry(data) {
        None => None,
        Some(xml) => match crate::xmlio::xml_events_of(xml) {
            None => None,
            Some(evs) => decode_content_spec(evs),
        },
    }
}

/// The fields of a task mid-decode, as the executable decoder holds them.
struct TaskBuild {
    id: String,
    parent: Option<String>,
    rank: Option<i64>,
    inbox: bool,
    added: Option<Timestamp>,
    modified: Option<Timestamp>,
    title: Option<String>,
    note: Option<String>,
    context: Option<String>,
    flagged: bool,
    due: Option<Timestamp>,
    start: Option<Timestamp>,
    completed: Option<Timestamp>,
    estimated_duration: Option<u64>,
    complete_by_children: bool,
    order: Option<SubtaskOrder>,
}

impl View for TaskBuild {
    type V = TaskAcc;

    closed spec fn view(&self) -> TaskAcc {
        TaskAcc {
            id: self.id@,
            parent: self.parent.deep_view(),
            rank: self.rank,
            inbox: self.inbox,
            added: self.added,
            modified: self.modified,
            title: self.title.deep_view(),
            note: self.note.deep_view(),
            context: self.context.deep_view(),
            flagged: self.flagged,
            due: self.due,
            start: self.start,
            completed: self.completed,
            estimated_duration: self.estimated_duration,
            complete_by_children: self.complete_by_children,
            order: self.order,
        }
    }
}

impl TaskBuild {
    fn new(id: String) -> (r: TaskBuild)
        ensures
            r@ == init_acc(id@),
    {
        let r = TaskBuild {
            id,
            parent: None,
            rank: None,
            inbox: false,
            added: None,
            modified: None,
            title: None,
            note: None,
            context: None,
            flagged: false,
            due: None,
            start: None,
            completed: None,
            estimated_duration: None,
            complete_by_children: false,
            order: None,
        };
        r
    }

    fn build(self) -> (r: Option<Task>)
        ensures
            r matches Some(t) ==> finish_acc(self@) == Some(t@),
            r is None ==> finish_acc(self@) is None,
    {
        match (self.added, self.title) {
            (Some(added), Some(title)) => Some(
                Task {
                    id: self.id,
                    parent: self.parent,
                    rank: self.rank,
                    inbox: self.inbox,
                    added,
                    modified: self.modified,
                    title,
                    note: self.note,
                    context: self.context,
                    flagged: self.flagged,
                    due: self.due,
                    start: self.start,
                    completed: self.completed,
                    estimated_duration: self.estimated_duration,
                    complete_by_children: self.complete_by_children,
                    order: self.order,
                },
            ),
            _ => None,
        }
    }
}

/// Skips over an arbitrary XML structure by keeping track of depth.
pub fn skip_events(events: &Vec<Event>, start: usize) -> (r: usize)
    requires
        start <= events.len(),
    ensures
        r == skip_spec(events.deep_view(), start as int, 1),
        start <= r <= events.len(),
{
    let ghost evs = events.deep_view();
    let mut i: usize = start;
    // one less than the current depth, so the counter stays within bounds
    let mut depth0: usize = 0;
    while i < events.len()
        invariant
            start <= i <= events.len(),
            evs == events.deep_view(),
            depth0 as int <= i as int - start as int,
            skip_spec(evs, start as int, 1) == skip_spec(evs, i as int, depth0 as int + 1),
        decreases events.len() - i,
    {
        proof {
            assert(evs[i as int] == events@[i as int]@);
            lemma_skip_bounds(evs, i as int + 1, depth0 as int + 2);
            lemma_skip_bounds(evs, i as int + 1, depth0 as int);
        }
        match &events[i] {
            Event::Start { .. } => {
                depth0 = depth0 + 1;
            },
            Event::End { .. } => {
                if depth0 == 0 {
                    return i + 1;
                }
                depth0 = depth0 - 1;
            },
            _ => {},
        }
        i = i + 1;
    }
    i
}

/// Decodes one task from inside its opening tag (whose `id` attribute is
/// handed in), mirroring `decode_task_spec` exactly.
#[verifier::rlimit(100)]
fn parse_task(events: &Vec<Event>, start: usize, id: String) -> (r: Result<
    (Task, usize),
    OpenFocusError,
>)
    requires
        start <= events.len(),
    ensures
        r matches Ok((t, j)) ==> decode_task_spec(events.deep_view(), start as int, 1, init_acc(id@))
            == Some((t@, j as int)) && start < j <= events.len(),
        r is Err ==> decode_task_spec(events.deep_view(), start as int, 1, init_acc(id@)) is None,
        r matches Err(e) ==> e.kind == OpenFocusErrorType::Parse,
{
    let ghost evs = events.deep_view();
    let mut b = TaskBuild::new(id);
    let mut i: usize = start;
    let mut depth0: usize = 0;
    loop
        invariant_except_break
            start <= i <= events.len(),
            evs == events.deep_view(),
            depth0 as int <= i as int - start as int,
            b.id@ == id@,
            decode_task_spec(evs, start as int, 1, init_acc(id@)) == decode_task_spec(
                evs,
                i as int,
                depth0 as int + 1,
                b@,
            ),
        decreases events.len() - i,
    {
        if i >= events.len() {
            return Err(OpenFocusError::new(OpenFocusErrorType::Parse));
        }
        proof {
            assert(evs[i as int] == events@[i as int]@);
        }
        let ghost pre = b@;
        let ghost d0 = depth0 as int + 1;
        let ghost i0 = i as int;
        match &events[i] {
            Event::Start { name, attrs } => {
                let ghost namev = name@;
                let ghost attrsv = attrs.deep_view();
                if str_eq(name.as_str(), "task") {
                    b.parent = attrs_get_val(attrs, "idref");
                    depth0 = depth0 + 1;
                    i = i + 1;
                } else if str_eq(name.as_str(), "context") {
                    b.context = attrs_get_val(attrs, "idref");
                    depth0 = depth0 + 1;
                    i = i + 1;
                } else if str_eq(name.as_str(), "project") {
                    i = skip_events(events, i + 1);
                } else if str_eq(name.as_str(), "note") {
                    b.note = Some(String::new());
                    i = skip_events(events, i + 1);
                } else if str_eq(name.as_str(), "added") {
                    let text = get_text_content(events, i + 1)?;
                    match crate::time::parse_timestamp(text.as_str()) {
                        Some(t) => {
                            b.added = Some(t);
                        },
                        None => {
                            return Err(OpenFocusError::new(OpenFocusErrorType::Parse));
                        },
                    }
                    depth0 = depth0 + 1;
                    i = i + 2;
                } else if str_eq(name.as_str(), "inbox") {
                    match get_text_content(events, i + 1) {
                        Ok(text) => {
                            match crate::task::parse_bool(text.as_str()) {
                                Some(v) => {
                                    b.inbox = v;
                                },
                                None => {
                                    return Err(OpenFocusError::new(OpenFocusErrorType::Parse));
                                },
                            }
                            depth0 = depth0 + 1;
                            i = i + 2;
                        },
                        Err(_) => {
                            if i + 1 < events.len() {
                                i = i + 2;
                            } else {
                                i = i + 1;
                            }
                        },
                    }
                } else if str_eq(name.as_str(), "flagged") {
                    let text = get_text_content(events, i + 1)?;
                    match crate::task::parse_bool(text.as_str()) {
                        Some(v) => {
                            b.flagged = v;
                        },
                        None => {
                            return Err(OpenFocusError::new(OpenFocusErrorType::Parse));
                        },
                    }
                    depth0 = depth0 + 1;
                    i = i + 2;
                } else if str_eq(name.as_str(), "complete-by-children") || str_eq(
                    name.as_str(),
                    "completed-by-children",
                ) {
                    let text = get_text_content(events, i + 1)?;
                    match crate::task::parse_bool(text.as_str()) {
                        Some(v) => {
                            b.complete_by_children = v;
                        },
                        None => {
                            return Err(OpenFocusError::new(OpenFocusErrorType::Parse));
                        },
                    }
                    depth0 = depth0 + 1;
                    i = i + 2;
                } else if str_eq(name.as_str(), "name") {
                    match get_text_content(events, i + 1) {
                        Ok(text) => {
                            b.title = Some(text);
                            depth0 = depth0 + 1;
                            i = i + 2;
                        },
                        Err(_) => {
                            b.title = Some(String::new());
                            if i + 1 < events.len() {
                                i = i + 2;
                            } else {
                                i = i + 1;
                            }
                        },
                    }
                } else if str_eq(name.as_str(), "rank") {
                    match get_text_content(events, i + 1) {
                        Ok(text) => {
                            match crate::digits::parse_i64(text.as_str()) {
                                Some(v) => {
                                    b.rank = Some(v);
                                },
                                None => {
                                    return Err(OpenFocusError::new(OpenFocusErrorType::Parse));
                                },
                            }
                            depth0 = depth0 + 1;
                            i = i + 2;
                        },
                        Err(_) => {
                            if i + 1 < events.len() {
                                i = i + 2;
                            } else {
                                i = i + 1;
                            }
                        },
                    }
                } else if str_eq(name.as_str(), "estimated-minutes") {
                    match get_text_content(events, i + 1) {
                        Ok(text) => {
                            match crate::digits::parse_u64(text.as_str()) {
                                Some(v) => {
                                    b.estimated_duration = Some(v);
                                },
                                None => {
                                    return Err(OpenFocusError::new(OpenFocusErrorType::Parse));
                                },
                            }
                            depth0 = depth0 + 1;
                            i = i + 2;
                        },
                        Err(_) => {
                            if i + 1 < events.len() {
                                i = i + 2;
                            } else {
                                i = i + 1;
                            }
                        },
                    }
                } else if str_eq(name.as_str(), "order") {
                    match get_text_content(events, i + 1) {
                        Ok(text) => {
                            match crate::task::parse_order(text.as_str()) {
                                Some(v) => {
                                    b.order = Some(v);
                                },
                                None => {
                                    return Err(OpenFocusError::new(OpenFocusErrorType::Parse));
                                },
                            }
                            depth0 = depth0 + 1;
                            i = i + 2;
                        },
                        Err(_) => {
                            if i + 1 < events.len() {
                                i = i + 2;
                            } else {
                                i = i + 1;
                            }
                        },
                    }
                } else if str_eq(name.as_str(), "start") {
                    match get_text_content(events, i + 1) {
                        Ok(text) => {
                            match crate::time::parse_timestamp(text.as_str()) {
                                Some(t) => {
                                    b.start = Some(t);
                                },
                                None => {
                                    return Err(OpenFocusError::new(OpenFocusErrorType::Parse));
                                },
                            }
                            depth0 = depth0 + 1;
                            i = i + 2;
                        },
                        Err(_) => {
                            if i + 1 < events.len() {
                                i = i + 2;
                            } else {
                                i = i + 1;
                            }
                        },
                    }
                } else if str_eq(name.as_str(), "due") {
                    match get_text_content(events, i + 1) {
                        Ok(text) => {
                            match crate::time::parse_timestamp(text.as_str()) {
                                Some(t) => {
                                    b.due = Some(t);
                                },
                                None => {
                                    return Err(OpenFocusError::new(OpenFocusErrorType::Parse));
                                },
                            }
                            depth0 = depth0 + 1;
                            i = i + 2;
                        },
                        Err(_) => {
                            if i + 1 < events.len() {
                                i = i + 2;
                            } else {
                                i = i + 1;
                            }
                        },
                    }
                } else if str_eq(name.as_str(), "completed") {
                    match get_text_content(events, i + 1) {
                        Ok(text) => {
                            match crate::time::parse_timestamp(text.as_str()) {
                                Some(t) => {
                                    b.completed = Some(t);
                                },
                                None => {
                                    return Err(OpenFocusError::new(OpenFocusErrorType::Parse));
                                },
                            }
                            depth0 = depth0 + 1;
                            i = i + 2;
                        },
                        Err(_) => {
                            if i + 1 < events.len() {
                                i = i + 2;
                            } else {
                                i = i + 1;
                            }
                        },
                    }
                } else if str_eq(name.as_str(), "modified") {
                    match get_text_content(events, i + 1) {
                        Ok(text) => {
                            match crate::time::parse_timestamp(text.as_str()) {
                                Some(t) => {
                                    b.modified = Some(t);
                                },
                                None => {
                                    return Err(OpenFocusError::new(OpenFocusErrorType::Parse));
                                },
                            }
                            depth0 = depth0 + 1;
                            i = i + 2;
                        },
                        Err(_) => {
                            if i + 1 < events.len() {
                                i = i + 2;
                            } else {
                                i = i + 1;
                            }
                        },
                    }
                } else {
                    depth0 = depth0 + 1;
                    i = i + 1;
                }
                proof {
                    lemma_skip_bounds(evs, i0 + 1, 1);
                    assert(field_step(evs, i0, d0, pre, namev, attrsv) == Some(
                        (i as int, depth0 as int + 1, b@),
                    ));
                    assert(decode_task_spec(evs, i0, d0, pre) == decode_task_spec(
                        evs,
                        i as int,
                        depth0 as int + 1,
                        b@,
                    ));
                }
            },
            Event::End { .. } => {
                if depth0 == 0 {
                    match b.build() {
                        Some(t) => {
                            return Ok((t, i + 1));
                        },
                        None => {
                            return Err(OpenFocusError::new(OpenFocusErrorType::Parse));
                        },
                    }
                }
                depth0 = depth0 - 1;
                i = i + 1;
            },
            _ => {
                i = i + 1;
            },
        }
    }
}

/// Entry point of the object decoder: extracts the tasks of one document's
/// event stream.
pub fn parse_events(events: &Vec<Event>) -> (r: Result<Content, OpenFocusError>)
    ensures
        r matches Ok(c) ==> decode_content_spec(events.deep_view()) == Some(c@),
        r is Err ==> decode_content_spec(events.deep_view()) is None,
        r matches Err(e) ==> e.kind == OpenFocusErrorType::Parse,
{
    let ghost evs = events.deep_view();
    let mut tasks: Vec<Task> = Vec::new();
    let mut i: usize = 0;
    proof {
        assert(tasks.deep_view() =~= Seq::<TaskV>::empty());
    }
    while i < events.len()
        invariant
            i <= events.len(),
            evs == events.deep_view(),
            decode_doc_spec(evs, 0, Seq::empty()) == decode_doc_spec(
                evs,
                i as int,
                tasks.deep_view(),
            ),
        decreases events.len() - i,
    {
        proof {
            assert(evs[i as int] == events@[i as int]@);
        }
        let ghost pre_tasks = tasks.deep_view();
        let ghost i0 = i as int;
        match &events[i] {
            Event::Start { name, attrs } => {
                if str_eq(name.as_str(), "task") {
                    match attrs_get_val(attrs, "id") {
                        None => {
                            return Err(OpenFocusError::new(OpenFocusErrorType::Parse));
                        },
                        Some(id) => {
                            let ghost idv = id@;
                            let (t, j) = parse_task(events, i + 1, id)?;
                            proof {
                                lemma_decode_task_bounds(evs, i0 + 1, 1, init_acc(idv));
                            }
                            tasks.push(t);
                            i = j;
                            proof {
                                assert(tasks.deep_view() =~= pre_tasks.push(t@));
                            }
                        },
                    }
                } else if str_eq(name.as_str(), "perspective") {
                    i = i + 1;
                } else if str_eq(name.as_str(), "omnifocus") {
                    i = i + 1;
                } else {
                    proof {
                        lemma_skip_bounds(evs, i0 + 1, 1);
                    }
                    i = skip_events(events, i + 1);
                }
            },
            Event::End { name } => {
                if str_eq(name.as_str(), "omnifocus") {
                    return Ok(Content { tasks });
                }
                i = i + 1;
            },
            _ => {
                i = i + 1;
            },
        }
    }
    Ok(Content { tasks })
}

/// Entry point of the archive decoder: takes the bytes of one archive file
/// and extracts its tasks.
pub fn parse(data: &[u8]) -> (r: Result<Content, OpenFocusError>)
    ensures
        r matches Ok(c) ==> archive_decode(data@) == Some(c@),
        r is Err ==> archive_decode(data@) is None,
        r matches Err(e) ==> e.kind == OpenFocusErrorType::Parse,
{
    let xml = match crate::zipio::read_zip_entry(data) {
        Some(x) => x,
        None => {
            return Err(OpenFocusError::new(OpenFocusErrorType::Parse));
        },
    };
    let events = match crate::xmlio::read_xml_events(xml.as_slice()) {
        Some(e) => e,
        None => {
            return Err(OpenFocusError::new(OpenFocusErrorType::Parse));
        },
    };
    parse_events(&events)
}

} // verus!
