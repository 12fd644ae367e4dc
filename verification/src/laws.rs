//! The laws of the codec: decoding an encoded delta yields the delta back,
//! and an optional element that is present but empty decodes to an absent
//! field.  The proofs step the reference decoder through the event stream
//! the encoder lays down, one field element at a time.

use vstd::prelude::*;
use crate::codec::{
    TaskAcc, init_acc, finish_acc, skip_spec, field_step, decode_task_spec, decode_doc_spec,
    decode_content_spec,
};
use crate::encode::{
    text_elem, empty_elem, attr_elem, opt_ts_elem, rank_elems, est_elems, order_elems, note_elems,
    encode_task_body, encode_task_evs, encode_tasks, encode_content_evs, root_attrs, tasks_wf,
};
use crate::events::{EventV, attr_value};
use crate::task::{TaskV, SubtaskOrder, bool_chars, order_chars, parse_bool_spec, parse_order_spec};
use crate::time::Timestamp;

verus! {

/// Shifts the index of a task-decode result.
pub open spec fn lift_task(r: Option<(TaskV, int)>, k: int) -> Option<(TaskV, int)> {
    match r {
        Some((t, j)) => Some((t, j + k)),
        None => None,
    }
}

/// The element names of the format are pairwise distinct.
#[verifier::rlimit(100)]
proof fn lemma_tags_distinct()
    ensures
        "context"@ != "task"@,
        "project"@ != "task"@,
        "project"@ != "context"@,
        "note"@ != "task"@,
        "note"@ != "context"@,
        "note"@ != "project"@,
        "added"@ != "task"@,
        "added"@ != "context"@,
        "added"@ != "project"@,
        "added"@ != "note"@,
        "inbox"@ != "task"@,
        "inbox"@ != "context"@,
        "inbox"@ != "project"@,
        "inbox"@ != "note"@,
        "inbox"@ != "added"@,
        "flagged"@ != "task"@,
        "flagged"@ != "context"@,
        "flagged"@ != "project"@,
        "flagged"@ != "note"@,
        "flagged"@ != "added"@,
        "flagged"@ != "inbox"@,
        "complete-by-children"@ != "task"@,
        "complete-by-children"@ != "context"@,
        "complete-by-children"@ != "project"@,
        "complete-by-children"@ != "note"@,
        "complete-by-children"@ != "added"@,
        "complete-by-children"@ != "inbox"@,
        "complete-by-children"@ != "flagged"@,
        "completed-by-children"@ != "task"@,
        "completed-by-children"@ != "context"@,
        "completed-by-children"@ != "project"@,
        "completed-by-children"@ != "note"@,
        "completed-by-children"@ != "added"@,
        "completed-by-children"@ != "inbox"@,
        "completed-by-children"@ != "flagged"@,
        "completed-by-children"@ != "complete-by-children"@,
        "name"@ != "task"@,
        "name"@ != "context"@,
        "name"@ != "project"@,
        "name"@ != "note"@,
        "name"@ != "added"@,
        "name"@ != "inbox"@,
        "name"@ != "flagged"@,
        "name"@ != "complete-by-children"@,
        "name"@ != "completed-by-children"@,
        "rank"@ != "task"@,
        "rank"@ != "context"@,
        "rank"@ != "project"@,
        "rank"@ != "note"@,
        "rank"@ != "added"@,
        "rank"@ != "inbox"@,
        "rank"@ != "flagged"@,
        "rank"@ != "complete-by-children"@,
        "rank"@ != "completed-by-children"@,
        "rank"@ != "name"@,
        "estimated-minutes"@ != "task"@,
        "estimated-minutes"@ != "context"@,
        "estimated-minutes"@ != "project"@,
        "estimated-minutes"@ != "note"@,
        "estimated-minutes"@ != "added"@,
        "estimated-minutes"@ != "inbox"@,
        "estimated-minutes"@ != "flagged"@,
        "estimated-minutes"@ != "complete-by-children"@,
        "estimated-minutes"@ != "completed-by-children"@,
        "estimated-minutes"@ != "name"@,
        "estimated-minutes"@ != "rank"@,
        "order"@ != "task"@,
        "order"@ != "context"@,
        "order"@ != "project"@,
        "order"@ != "note"@,
        "order"@ != "added"@,
        "order"@ != "inbox"@,
        "order"@ != "flagged"@,
        "order"@ != "complete-by-children"@,
        "order"@ != "completed-by-children"@,
        "order"@ != "name"@,
        "order"@ != "rank"@,
        "order"@ != "estimated-minutes"@,
        "start"@ != "task"@,
        "start"@ != "context"@,
        "start"@ != "project"@,
        "start"@ != "note"@,
        "start"@ != "added"@,
        "start"@ != "inbox"@,
        "start"@ != "flagged"@,
        "start"@ != "complete-by-children"@,
        "start"@ != "completed-by-children"@,
        "start"@ != "name"@,
        "start"@ != "rank"@,
        "start"@ != "estimated-minutes"@,
        "start"@ != "order"@,
        "due"@ != "task"@,
        "due"@ != "context"@,
        "due"@ != "project"@,
        "due"@ != "note"@,
        "due"@ != "added"@,
        "due"@ != "inbox"@,
        "due"@ != "flagged"@,
        "due"@ != "complete-by-children"@,
        "due"@ != "completed-by-children"@,
        "due"@ != "name"@,
        "due"@ != "rank"@,
        "due"@ != "estimated-minutes"@,
        "due"@ != "order"@,
        "due"@ != "start"@,
        "completed"@ != "task"@,
        "completed"@ != "context"@,
        "completed"@ != "project"@,
        "completed"@ != "note"@,
        "completed"@ != "added"@,
        "completed"@ != "inbox"@,
        "completed"@ != "flagged"@,
        "completed"@ != "complete-by-children"@,
        "completed"@ != "completed-by-children"@,
        "completed"@ != "name"@,
        "completed"@ != "rank"@,
        "completed"@ != "estimated-minutes"@,
        "completed"@ != "order"@,
        "completed"@ != "start"@,
        "completed"@ != "due"@,
        "modified"@ != "task"@,
        "modified"@ != "context"@,
        "modified"@ != "project"@,
        "modified"@ != "note"@,
        "modified"@ != "added"@,
        "modified"@ != "inbox"@,
        "modified"@ != "flagged"@,
        "modified"@ != "complete-by-children"@,
        "modified"@ != "completed-by-children"@,
        "modified"@ != "name"@,
        "modified"@ != "rank"@,
        "modified"@ != "estimated-minutes"@,
        "modified"@ != "order"@,
        "modified"@ != "start"@,
        "modified"@ != "due"@,
        "modified"@ != "completed"@,
        "omnifocus"@ != "task"@,
        "omnifocus"@ != "perspective"@,
{
    reveal_strlit("task");
    reveal_strlit("context");
    reveal_strlit("project");
    reveal_strlit("note");
    reveal_strlit("added");
    reveal_strlit("inbox");
    reveal_strlit("flagged");
    reveal_strlit("complete-by-children");
    reveal_strlit("completed-by-children");
    reveal_strlit("name");
    reveal_strlit("rank");
    reveal_strlit("estimated-minutes");
    reveal_strlit("order");
    reveal_strlit("start");
    reveal_strlit("due");
    reveal_strlit("completed");
    reveal_strlit("modified");
    reveal_strlit("omnifocus");
    reveal_strlit("perspective");
    assert("task"@.len() == 4);
    assert("context"@.len() == 7);
    assert("project"@.len() == 7);
    assert("note"@.len() == 4);
    assert("added"@.len() == 5);
    assert("inbox"@.len() == 5);
    assert("flagged"@.len() == 7);
    assert("complete-by-children"@.len() == 20);
    assert("completed-by-children"@.len() == 21);
    assert("name"@.len() == 4);
    assert("rank"@.len() == 4);
    assert("estimated-minutes"@.len() == 17);
    assert("order"@.len() == 5);
    assert("start"@.len() == 5);
    assert("due"@.len() == 3);
    assert("completed"@.len() == 9);
    assert("modified"@.len() == 8);
    assert("omnifocus"@.len() == 9);
    assert("perspective"@.len() == 11);
    assert("added"@[0] == 'a');
    assert("context"@[0] == 'c');
    assert("flagged"@[0] == 'f');
    assert("inbox"@[0] == 'i');
    assert("name"@[0] == 'n');
    assert("name"@[1] == 'a');
    assert("note"@[0] == 'n');
    assert("note"@[1] == 'o');
    assert("order"@[0] == 'o');
    assert("project"@[0] == 'p');
    assert("rank"@[0] == 'r');
    assert("start"@[0] == 's');
    assert("task"@[0] == 't');
}

proof fn lemma_skip_shift(pre: Seq<EventV>, suf: Seq<EventV>, j: int, d: int)
    requires
        j >= 0,
    ensures
        skip_spec(pre + suf, pre.len() + j, d) == pre.len() + skip_spec(suf, j, d),
    decreases suf.len() - j,
{
    let evs = pre + suf;
    let i = pre.len() + j;
    if j < suf.len() {
        assert(evs[i] == suf[j]);
        match suf[j] {
            EventV::Start { .. } => lemma_skip_shift(pre, suf, j + 1, d + 1),
            EventV::End { .. } => {
                if d > 1 {
                    lemma_skip_shift(pre, suf, j + 1, d - 1);
                }
            },
            _ => lemma_skip_shift(pre, suf, j + 1, d),
        }
    } else {
        assert(i >= evs.len());
    }
}

/// Handling one field element does not depend on what stands before it in
/// the stream.
#[verifier::rlimit(100)]
proof fn lemma_field_step_shift(
    pre: Seq<EventV>,
    suf: Seq<EventV>,
    j: int,
    d: int,
    a: TaskAcc,
    name: Seq<char>,
    attrs: Seq<(Seq<char>, Seq<char>)>,
)
    requires
        j >= 0,
    ensures
        match field_step(suf, j, d, a, name, attrs) {
            None => field_step(pre + suf, pre.len() + j, d, a, name, attrs) is None,
            Some((j2, d2, a2)) => field_step(pre + suf, pre.len() + j, d, a, name, attrs) == Some(
                (pre.len() + j2, d2, a2),
            ),
        },
{
    let evs = pre + suf;
    let i = pre.len() + j;
    lemma_skip_shift(pre, suf, j + 1, 1);
    assert(evs.len() == pre.len() + suf.len());
    if j + 1 < suf.len() {
        assert(evs[i + 1] == suf[j + 1]);
    }
}

/// Decoding a task does not depend on what stands before its events.
proof fn lemma_task_shift(pre: Seq<EventV>, suf: Seq<EventV>, j: int, d: int, a: TaskAcc)
    requires
        j >= 0,
    ensures
        decode_task_spec(pre + suf, pre.len() + j, d, a) == lift_task(
            decode_task_spec(suf, j, d, a),
            pre.len() as int,
        ),
    decreases suf.len() - j,
{
    let evs = pre + suf;
    let i = pre.len() + j;
    if j < suf.len() {
        assert(evs[i] == suf[j]);
        match suf[j] {
            EventV::Start { name, attrs } => {
                lemma_field_step_shift(pre, suf, j, d, a, name, attrs);
                match field_step(suf, j, d, a, name, attrs) {
                    None => {},
                    Some((j2, d2, a2)) => {
                        if j < j2 <= suf.len() {
                            lemma_task_shift(pre, suf, j2, d2, a2);
                        } else {
                            assert(!(i < pre.len() + j2 <= evs.len()));
                        }
                    },
                }
            },
            EventV::End { .. } => {
                if d != 1 {
                    lemma_task_shift(pre, suf, j + 1, d - 1, a);
                }
            },
            _ => lemma_task_shift(pre, suf, j + 1, d, a),
        }
    } else {
        assert(i >= evs.len());
    }
}

/// The top-level dispatch does not depend on what stands before its events.
proof fn lemma_doc_shift(pre: Seq<EventV>, suf: Seq<EventV>, j: int, acc: Seq<TaskV>)
    requires
        j >= 0,
    ensures
        decode_doc_spec(pre + suf, pre.len() + j, acc) == decode_doc_spec(suf, j, acc),
    decreases suf.len() - j,
{
    let evs = pre + suf;
    let i = pre.len() + j;
    if j < suf.len() {
        assert(evs[i] == suf[j]);
        match suf[j] {
            EventV::Start { name, attrs } => {
                if name == "task"@ {
                    match attr_value(attrs, "id"@) {
                        None => {},
                        Some(id) => {
                            lemma_task_shift(pre, suf, j + 1, 1, init_acc(id));
                            match decode_task_spec(suf, j + 1, 1, init_acc(id)) {
                                None => {},
                                Some((t, j2)) => {
                                    if j < j2 <= suf.len() {
                                        lemma_doc_shift(pre, suf, j2, acc.push(t));
                                    } else {
                                        assert(!(i < pre.len() + j2 <= evs.len()));
                                    }
                                },
                            }
                        },
                    }
                } else if name == "perspective"@ || name == "omnifocus"@ {
                    lemma_doc_shift(pre, suf, j + 1, acc);
                } else {
                    lemma_skip_shift(pre, suf, j + 1, 1);
                    let j2 = skip_spec(suf, j + 1, 1);
                    if j < j2 <= suf.len() {
                        lemma_doc_shift(pre, suf, j2, acc);
                    } else {
                        assert(!(i < pre.len() + j2 <= evs.len()));
                    }
                }
            },
            EventV::End { name } => {
                if name != "omnifocus"@ {
                    lemma_doc_shift(pre, suf, j + 1, acc);
                }
            },
            _ => lemma_doc_shift(pre, suf, j + 1, acc),
        }
    } else {
        assert(i >= evs.len());
    }
}

#[verifier::rlimit(100)]
proof fn peel_inbox(b: bool, rest: Seq<EventV>, d: int, a: TaskAcc)
    requires
        d >= 1,
    ensures
        decode_task_spec(text_elem("inbox"@, bool_chars(b)) + rest, 0, d, a) == lift_task(
            decode_task_spec(rest, 0, d, TaskAcc { inbox: b, ..a }),
            3,
        ),
{
    lemma_tags_distinct();
    reveal_strlit("true");
    reveal_strlit("false");
    let piece = text_elem("inbox"@, bool_chars(b));
    let evs = piece + rest;
    let a2 = TaskAcc { inbox: b, ..a };
    assert(evs[0] == piece[0]);
    assert(evs[1] == piece[1]);
    assert(evs[2] == piece[2]);
    assert(parse_bool_spec(bool_chars(b)) == Some(b));
    assert(field_step(evs, 0, d, a, "inbox"@, Seq::empty()) == Some((2int, d + 1, a2)));
    assert(decode_task_spec(evs, 0, d, a) == decode_task_spec(evs, 2, d + 1, a2));
    assert(decode_task_spec(evs, 2, d + 1, a2) == decode_task_spec(evs, 3, d, a2));
    lemma_task_shift(piece, rest, 0, d, a2);
}

#[verifier::rlimit(100)]
proof fn peel_flagged(b: bool, rest: Seq<EventV>, d: int, a: TaskAcc)
    requires
        d >= 1,
    ensures
        decode_task_spec(text_elem("flagged"@, bool_chars(b)) + rest, 0, d, a) == lift_task(
            decode_task_spec(rest, 0, d, TaskAcc { flagged: b, ..a }),
            3,
        ),
{
    lemma_tags_distinct();
    reveal_strlit("true");
    reveal_strlit("false");
    let piece = text_elem("flagged"@, bool_chars(b));
    let evs = piece + rest;
    let a2 = TaskAcc { flagged: b, ..a };
    assert(evs[0] == piece[0]);
    assert(evs[1] == piece[1]);
    assert(evs[2] == piece[2]);
    assert(parse_bool_spec(bool_chars(b)) == Some(b));
    assert(field_step(evs, 0, d, a, "flagged"@, Seq::empty()) == Some((2int, d + 1, a2)));
    assert(decode_task_spec(evs, 0, d, a) == decode_task_spec(evs, 2, d + 1, a2));
    assert(decode_task_spec(evs, 2, d + 1, a2) == decode_task_spec(evs, 3, d, a2));
    lemma_task_shift(piece, rest, 0, d, a2);
}

#[verifier::rlimit(100)]
proof fn peel_complete_by_children(b: bool, rest: Seq<EventV>, d: int, a: TaskAcc)
    requires
        d >= 1,
    ensures
        decode_task_spec(text_elem("complete-by-children"@, bool_chars(b)) + rest, 0, d, a) == lift_task(
            decode_task_spec(rest, 0, d, TaskAcc { complete_by_children: b, ..a }),
            3,
        ),
{
    lemma_tags_distinct();
    reveal_strlit("true");
    reveal_strlit("false");
    let piece = text_elem("complete-by-children"@, bool_chars(b));
    let evs = piece + rest;
    let a2 = TaskAcc { complete_by_children: b, ..a };
    assert(evs[0] == piece[0]);
    assert(evs[1] == piece[1]);
    assert(evs[2] == piece[2]);
    assert(parse_bool_spec(bool_chars(b)) == Some(b));
    assert(field_step(evs, 0, d, a, "complete-by-children"@, Seq::empty()) == Some((2int, d + 1, a2)));
    assert(decode_task_spec(evs, 0, d, a) == decode_task_spec(evs, 2, d + 1, a2));
    assert(decode_task_spec(evs, 2, d + 1, a2) == decode_task_spec(evs, 3, d, a2));
    lemma_task_shift(piece, rest, 0, d, a2);
}

#[verifier::rlimit(100)]
proof fn peel_start(o: Option<Timestamp>, rest: Seq<EventV>, d: int, a: TaskAcc)
    requires
        d >= 1,
        a.start is None,
        o matches Some(t) ==> t.valid(),
    ensures
        decode_task_spec(opt_ts_elem("start"@, o) + rest, 0, d, a) == lift_task(
            decode_task_spec(rest, 0, d, TaskAcc { start: o, ..a }),
            opt_ts_elem("start"@, o).len() as int,
        ),
{
    lemma_tags_distinct();
    let piece = opt_ts_elem("start"@, o);
    let evs = piece + rest;
    let a2 = TaskAcc { start: o, ..a };
    match o {
        Some(t) => {
            crate::time::lemma_timestamp_round_trip(t);
            assert(evs[0] == piece[0]);
            assert(evs[1] == piece[1]);
            assert(evs[2] == piece[2]);
            assert(field_step(evs, 0, d, a, "start"@, Seq::empty()) == Some((2int, d + 1, a2)));
            assert(decode_task_spec(evs, 0, d, a) == decode_task_spec(evs, 2, d + 1, a2));
            assert(decode_task_spec(evs, 2, d + 1, a2) == decode_task_spec(evs, 3, d, a2));
            lemma_task_shift(piece, rest, 0, d, a2);
        },
        None => {
            assert(evs[0] == piece[0]);
            assert(evs[1] == piece[1]);
            assert(a2 == a);
            assert(field_step(evs, 0, d, a, "start"@, Seq::empty()) == Some((2int, d, a)));
            assert(decode_task_spec(evs, 0, d, a) == decode_task_spec(evs, 2, d, a));
            lemma_task_shift(piece, rest, 0, d, a);
        },
    }
}

#[verifier::rlimit(100)]
proof fn peel_due(o: Option<Timestamp>, rest: Seq<EventV>, d: int, a: TaskAcc)
    requires
        d >= 1,
        a.due is None,
        o matches Some(t) ==> t.valid(),
    ensures
        decode_task_spec(opt_ts_elem("due"@, o) + rest, 0, d, a) == lift_task(
            decode_task_spec(rest, 0, d, TaskAcc { due: o, ..a }),
            opt_ts_elem("due"@, o).len() as int,
        ),
{
    lemma_tags_distinct();
    let piece = opt_ts_elem("due"@, o);
    let evs = piece + rest;
    let a2 = TaskAcc { due: o, ..a };
    match o {
        Some(t) => {
            crate::time::lemma_timestamp_round_trip(t);
            assert(evs[0] == piece[0]);
            assert(evs[1] == piece[1]);
            assert(evs[2] == piece[2]);
            assert(field_step(evs, 0, d, a, "due"@, Seq::empty()) == Some((2int, d + 1, a2)));
            assert(decode_task_spec(evs, 0, d, a) == decode_task_spec(evs, 2, d + 1, a2));
            assert(decode_task_spec(evs, 2, d + 1, a2) == decode_task_spec(evs, 3, d, a2));
            lemma_task_shift(piece, rest, 0, d, a2);
        },
        None => {
            assert(evs[0] == piece[0]);
            assert(evs[1] == piece[1]);
            assert(a2 == a);
            assert(field_step(evs, 0, d, a, "due"@, Seq::empty()) == Some((2int, d, a)));
            assert(decode_task_spec(evs, 0, d, a) == decode_task_spec(evs, 2, d, a));
            lemma_task_shift(piece, rest, 0, d, a);
        },
    }
}

#[verifier::rlimit(100)]
proof fn peel_completed(o: Option<Timestamp>, rest: Seq<EventV>, d: int, a: TaskAcc)
    requires
        d >= 1,
        a.completed is None,
        o matches Some(t) ==> t.valid(),
    ensures
        decode_task_spec(opt_ts_elem("completed"@, o) + rest, 0, d, a) == lift_task(
            decode_task_spec(rest, 0, d, TaskAcc { completed: o, ..a }),
            opt_ts_elem("completed"@, o).len() as int,
        ),
{
    lemma_tags_distinct();
    let piece = opt_ts_elem("completed"@, o);
    let evs = piece + rest;
    let a2 = TaskAcc { completed: o, ..a };
    match o {
        Some(t) => {
            crate::time::lemma_timestamp_round_trip(t);
            assert(evs[0] == piece[0]);
            assert(evs[1] == piece[1]);
            assert(evs[2] == piece[2]);
            assert(field_step(evs, 0, d, a, "completed"@, Seq::empty()) == Some((2int, d + 1, a2)));
            assert(decode_task_spec(evs, 0, d, a) == decode_task_spec(evs, 2, d + 1, a2));
            assert(decode_task_spec(evs, 2, d + 1, a2) == decode_task_spec(evs, 3, d, a2));
            lemma_task_shift(piece, rest, 0, d, a2);
        },
        None => {
            assert(evs[0] == piece[0]);
            assert(evs[1] == piece[1]);
            assert(a2 == a);
            assert(field_step(evs, 0, d, a, "completed"@, Seq::empty()) == Some((2int, d, a)));
            assert(decode_task_spec(evs, 0, d, a) == decode_task_spec(evs, 2, d, a));
            lemma_task_shift(piece, rest, 0, d, a);
        },
    }
}

#[verifier::rlimit(100)]
proof fn peel_modified(o: Option<Timestamp>, rest: Seq<EventV>, d: int, a: TaskAcc)
    requires
        d >= 1,
        a.modified is None,
        o matches Some(t) ==> t.valid(),
    ensures
        decode_task_spec(opt_ts_elem("modified"@, o) + rest, 0, d, a) == lift_task(
            decode_task_spec(rest, 0, d, TaskAcc { modified: o, ..a }),
            opt_ts_elem("modified"@, o).len() as int,
        ),
{
    lemma_tags_distinct();
    let piece = opt_ts_elem("modified"@, o);
    let evs = piece + rest;
    let a2 = TaskAcc { modified: o, ..a };
    match o {
        Some(t) => {
            crate::time::lemma_timestamp_round_trip(t);
            assert(evs[0] == piece[0]);
            assert(evs[1] == piece[1]);
            assert(evs[2] == piece[2]);
            assert(field_step(evs, 0, d, a, "modified"@, Seq::empty()) == Some((2int, d + 1, a2)));
            assert(decode_task_spec(evs, 0, d, a) == decode_task_spec(evs, 2, d + 1, a2));
            assert(decode_task_spec(evs, 2, d + 1, a2) == decode_task_spec(evs, 3, d, a2));
            lemma_task_shift(piece, rest, 0, d, a2);
        },
        None => {
            assert(evs[0] == piece[0]);
            assert(evs[1] == piece[1]);
            assert(a2 == a);
            assert(field_step(evs, 0, d, a, "modified"@, Seq::empty()) == Some((2int, d, a)));
            assert(decode_task_spec(evs, 0, d, a) == decode_task_spec(evs, 2, d, a));
            lemma_task_shift(piece, rest, 0, d, a);
        },
    }
}

#[verifier::rlimit(100)]
proof fn peel_parent(p: Option<Seq<char>>, rest: Seq<EventV>, d: int, a: TaskAcc)
    requires
        d >= 1,
    ensures
        decode_task_spec(attr_elem("task"@, "idref"@, p) + rest, 0, d, a) == lift_task(
            decode_task_spec(rest, 0, d, TaskAcc { parent: p, ..a }),
            2,
        ),
{
    lemma_tags_distinct();
    reveal_strlit("idref");
    let piece = attr_elem("task"@, "idref"@, p);
    let evs = piece + rest;
    let a2 = TaskAcc { parent: p, ..a };
    assert(evs[0] == piece[0]);
    assert(evs[1] == piece[1]);
    match p {
        Some(v) => {
            assert(attr_value(seq![("idref"@, v)], "idref"@) == Some(v));
            assert(field_step(evs, 0, d, a, "task"@, seq![("idref"@, v)]) == Some((1int, d + 1, a2)));
        },
        None => {
            assert(attr_value(Seq::<(Seq<char>, Seq<char>)>::empty(), "idref"@) is None);
            assert(field_step(evs, 0, d, a, "task"@, Seq::empty()) == Some((1int, d + 1, a2)));
        },
    }
    assert(decode_task_spec(evs, 0, d, a) == decode_task_spec(evs, 1, d + 1, a2));
    assert(decode_task_spec(evs, 1, d + 1, a2) == decode_task_spec(evs, 2, d, a2));
    lemma_task_shift(piece, rest, 0, d, a2);
}

#[verifier::rlimit(100)]
proof fn peel_context(p: Option<Seq<char>>, rest: Seq<EventV>, d: int, a: TaskAcc)
    requires
        d >= 1,
    ensures
        decode_task_spec(attr_elem("context"@, "idref"@, p) + rest, 0, d, a) == lift_task(
            decode_task_spec(rest, 0, d, TaskAcc { context: p, ..a }),
            2,
        ),
{
    lemma_tags_distinct();
    reveal_strlit("idref");
    let piece = attr_elem("context"@, "idref"@, p);
    let evs = piece + rest;
    let a2 = TaskAcc { context: p, ..a };
    assert(evs[0] == piece[0]);
    assert(evs[1] == piece[1]);
    match p {
        Some(v) => {
            assert(attr_value(seq![("idref"@, v)], "idref"@) == Some(v));
            assert(field_step(evs, 0, d, a, "context"@, seq![("idref"@, v)]) == Some((1int, d + 1, a2)));
        },
        None => {
            assert(attr_value(Seq::<(Seq<char>, Seq<char>)>::empty(), "idref"@) is None);
            assert(field_step(evs, 0, d, a, "context"@, Seq::empty()) == Some((1int, d + 1, a2)));
        },
    }
    assert(decode_task_spec(evs, 0, d, a) == decode_task_spec(evs, 1, d + 1, a2));
    assert(decode_task_spec(evs, 1, d + 1, a2) == decode_task_spec(evs, 2, d, a2));
    lemma_task_shift(piece, rest, 0, d, a2);
}

#[verifier::rlimit(100)]
proof fn peel_added(t: Timestamp, rest: Seq<EventV>, d: int, a: TaskAcc)
    requires
        d >= 1,
        t.valid(),
    ensures
        decode_task_spec(text_elem("added"@, crate::time::ts_chars(t)) + rest, 0, d, a)
            == lift_task(decode_task_spec(rest, 0, d, TaskAcc { added: Some(t), ..a }), 3),
{
    lemma_tags_distinct();
    crate::time::lemma_timestamp_round_trip(t);
    let piece = text_elem("added"@, crate::time::ts_chars(t));
    let evs = piece + rest;
    let a2 = TaskAcc { added: Some(t), ..a };
    assert(evs[0] == piece[0]);
    assert(evs[1] == piece[1]);
    assert(evs[2] == piece[2]);
    assert(field_step(evs, 0, d, a, "added"@, Seq::empty()) == Some((2int, d + 1, a2)));
    assert(decode_task_spec(evs, 0, d, a) == decode_task_spec(evs, 2, d + 1, a2));
    assert(decode_task_spec(evs, 2, d + 1, a2) == decode_task_spec(evs, 3, d, a2));
    lemma_task_shift(piece, rest, 0, d, a2);
}

#[verifier::rlimit(100)]
proof fn peel_name(title: Seq<char>, rest: Seq<EventV>, d: int, a: TaskAcc)
    requires
        d >= 1,
    ensures
        decode_task_spec(text_elem("name"@, title) + rest, 0, d, a) == lift_task(
            decode_task_spec(rest, 0, d, TaskAcc { title: Some(title), ..a }),
            3,
        ),
{
    lemma_tags_distinct();
    let piece = text_elem("name"@, title);
    let evs = piece + rest;
    let a2 = TaskAcc { title: Some(title), ..a };
    assert(evs[0] == piece[0]);
    assert(evs[1] == piece[1]);
    assert(evs[2] == piece[2]);
    assert(field_step(evs, 0, d, a, "name"@, Seq::empty()) == Some((2int, d + 1, a2)));
    assert(decode_task_spec(evs, 0, d, a) == decode_task_spec(evs, 2, d + 1, a2));
    assert(decode_task_spec(evs, 2, d + 1, a2) == decode_task_spec(evs, 3, d, a2));
    lemma_task_shift(piece, rest, 0, d, a2);
}

#[verifier::rlimit(100)]
proof fn peel_rank(r: Option<i64>, rest: Seq<EventV>, d: int, a: TaskAcc)
    requires
        d >= 1,
        a.rank is None,
    ensures
        decode_task_spec(rank_elems(r) + rest, 0, d, a) == lift_task(
            decode_task_spec(rest, 0, d, TaskAcc { rank: r, ..a }),
            rank_elems(r).len() as int,
        ),
{
    lemma_tags_distinct();
    let piece = rank_elems(r);
    let evs = piece + rest;
    let a2 = TaskAcc { rank: r, ..a };
    match r {
        Some(v) => {
            crate::digits::lemma_i64_text_round_trip(v);
            assert(evs[0] == piece[0]);
            assert(evs[1] == piece[1]);
            assert(evs[2] == piece[2]);
            assert(field_step(evs, 0, d, a, "rank"@, Seq::empty()) == Some((2int, d + 1, a2)));
            assert(decode_task_spec(evs, 0, d, a) == decode_task_spec(evs, 2, d + 1, a2));
            assert(decode_task_spec(evs, 2, d + 1, a2) == decode_task_spec(evs, 3, d, a2));
            lemma_task_shift(piece, rest, 0, d, a2);
        },
        None => {
            assert(evs =~= rest);
            assert(a2 == a);
            assert(lift_task(decode_task_spec(rest, 0, d, a), 0int) == decode_task_spec(
                rest,
                0,
                d,
                a,
            ));
        },
    }
}

#[verifier::rlimit(100)]
proof fn peel_estimated(o: Option<u64>, rest: Seq<EventV>, d: int, a: TaskAcc)
    requires
        d >= 1,
        a.estimated_duration is None,
    ensures
        decode_task_spec(est_elems(o) + rest, 0, d, a) == lift_task(
            decode_task_spec(rest, 0, d, TaskAcc { estimated_duration: o, ..a }),
            est_elems(o).len() as int,
        ),
{
    lemma_tags_distinct();
    let piece = est_elems(o);
    let evs = piece + rest;
    let a2 = TaskAcc { estimated_duration: o, ..a };
    match o {
        Some(v) => {
            crate::digits::lemma_u64_text_round_trip(v);
            assert(evs[0] == piece[0]);
            assert(evs[1] == piece[1]);
            assert(evs[2] == piece[2]);
            assert(field_step(evs, 0, d, a, "estimated-minutes"@, Seq::empty()) == Some(
                (2int, d + 1, a2),
            ));
            assert(decode_task_spec(evs, 0, d, a) == decode_task_spec(evs, 2, d + 1, a2));
            assert(decode_task_spec(evs, 2, d + 1, a2) == decode_task_spec(evs, 3, d, a2));
            lemma_task_shift(piece, rest, 0, d, a2);
        },
        None => {
            assert(evs[0] == piece[0]);
            assert(evs[1] == piece[1]);
            assert(a2 == a);
            assert(field_step(evs, 0, d, a, "estimated-minutes"@, Seq::empty()) == Some(
                (2int, d, a),
            ));
            assert(decode_task_spec(evs, 0, d, a) == decode_task_spec(evs, 2, d, a));
            lemma_task_shift(piece, rest, 0, d, a);
        },
    }
}

#[verifier::rlimit(100)]
proof fn peel_order(o: Option<SubtaskOrder>, rest: Seq<EventV>, d: int, a: TaskAcc)
    requires
        d >= 1,
        a.order is None,
    ensures
        decode_task_spec(order_elems(o) + rest, 0, d, a) == lift_task(
            decode_task_spec(rest, 0, d, TaskAcc { order: o, ..a }),
            order_elems(o).len() as int,
        ),
{
    lemma_tags_distinct();
    reveal_strlit("parallel");
    reveal_strlit("sequential");
    let piece = order_elems(o);
    let evs = piece + rest;
    let a2 = TaskAcc { order: o, ..a };
    match o {
        Some(v) => {
            assert(parse_order_spec(order_chars(v)) == Some(v));
            assert(evs[0] == piece[0]);
            assert(evs[1] == piece[1]);
            assert(evs[2] == piece[2]);
            assert(field_step(evs, 0, d, a, "order"@, Seq::empty()) == Some((2int, d + 1, a2)));
            assert(decode_task_spec(evs, 0, d, a) == decode_task_spec(evs, 2, d + 1, a2));
            assert(decode_task_spec(evs, 2, d + 1, a2) == decode_task_spec(evs, 3, d, a2));
            lemma_task_shift(piece, rest, 0, d, a2);
        },
        None => {
            assert(evs[0] == piece[0]);
            assert(evs[1] == piece[1]);
            assert(a2 == a);
            assert(field_step(evs, 0, d, a, "order"@, Seq::empty()) == Some((2int, d, a)));
            assert(decode_task_spec(evs, 0, d, a) == decode_task_spec(evs, 2, d, a));
            lemma_task_shift(piece, rest, 0, d, a);
        },
    }
}

#[verifier::rlimit(100)]
proof fn peel_note(n: Option<Seq<char>>, rest: Seq<EventV>, d: int, a: TaskAcc)
    requires
        d >= 1,
        a.note is None,
        n matches Some(x) ==> x == Seq::<char>::empty(),
    ensures
        decode_task_spec(note_elems(n) + rest, 0, d, a) == lift_task(
            decode_task_spec(rest, 0, d, TaskAcc { note: n, ..a }),
            note_elems(n).len() as int,
        ),
{
    lemma_tags_distinct();
    let piece = note_elems(n);
    let evs = piece + rest;
    let a2 = TaskAcc { note: n, ..a };
    match n {
        Some(x) => {
            assert(evs[0] == piece[0]);
            assert(evs[1] == piece[1]);
            assert(skip_spec(evs, 1, 1) == 2);
            assert(field_step(evs, 0, d, a, "note"@, Seq::empty()) == Some((2int, d, a2)));
            assert(decode_task_spec(evs, 0, d, a) == decode_task_spec(evs, 2, d, a2));
            lemma_task_shift(piece, rest, 0, d, a2);
        },
        None => {
            assert(evs =~= rest);
            assert(a2 == a);
            assert(lift_task(decode_task_spec(rest, 0, d, a), 0int) == decode_task_spec(
                rest,
                0,
                d,
                a,
            ));
        },
    }
}

#[verifier::rlimit(100)]
proof fn peel_project(rest: Seq<EventV>, d: int, a: TaskAcc)
    requires
        d >= 1,
    ensures
        decode_task_spec(empty_elem("project"@) + rest, 0, d, a) == lift_task(
            decode_task_spec(rest, 0, d, a),
            2,
        ),
{
    lemma_tags_distinct();
    let piece = empty_elem("project"@);
    let evs = piece + rest;
    assert(evs[0] == piece[0]);
    assert(evs[1] == piece[1]);
    assert(skip_spec(evs, 1, 1) == 2);
    assert(field_step(evs, 0, d, a, "project"@, Seq::empty()) == Some((2int, d, a)));
    assert(decode_task_spec(evs, 0, d, a) == decode_task_spec(evs, 2, d, a));
    lemma_task_shift(piece, rest, 0, d, a);
}

/// The fields of a task decode as they stand after the first seven field
/// elements of an encoded task.
pub open spec fn mid_acc(t: TaskV) -> TaskAcc {
    TaskAcc {
        id: t.id,
        parent: t.parent,
        rank: t.rank,
        inbox: t.inbox,
        added: Some(t.added),
        modified: None,
        title: Some(t.title),
        note: None,
        context: t.context,
        flagged: false,
        due: None,
        start: None,
        completed: None,
        estimated_duration: None,
        complete_by_children: false,
        order: None,
    }
}

/// The trailing field elements of an encoded task, right-nested, with the
/// closing tag and whatever follows the task.
pub open spec fn task_tail_evs(t: TaskV, rest: Seq<EventV>) -> Seq<EventV> {
    opt_ts_elem("start"@, t.start) + (opt_ts_elem("due"@, t.due) + (opt_ts_elem(
        "completed"@,
        t.completed,
    ) + (opt_ts_elem("modified"@, t.modified) + (est_elems(t.estimated_duration) + (text_elem(
        "flagged"@,
        bool_chars(t.flagged),
    ) + (text_elem("complete-by-children"@, bool_chars(t.complete_by_children)) + (order_elems(
        t.order,
    ) + (note_elems(t.note) + (seq![EventV::End { name: "task"@ }] + rest)))))))))
}

#[verifier::rlimit(100)]
proof fn lemma_decode_task_tail(t: TaskV, rest: Seq<EventV>)
    requires
        t.wf(),
        t.note matches Some(x) ==> x == Seq::<char>::empty(),
    ensures
        decode_task_spec(task_tail_evs(t, rest), 0, 1, mid_acc(t)) == Some(
            (t, task_tail_evs(t, rest).len() - rest.len()),
        ),
{
    let e_end = seq![EventV::End { name: "task"@ }];
    let q16 = e_end + rest;
    let q15 = note_elems(t.note) + q16;
    let q14 = order_elems(t.order) + q15;
    let q13 = text_elem("complete-by-children"@, bool_chars(t.complete_by_children)) + q14;
    let q12 = text_elem("flagged"@, bool_chars(t.flagged)) + q13;
    let q11 = est_elems(t.estimated_duration) + q12;
    let q10 = opt_ts_elem("modified"@, t.modified) + q11;
    let q9 = opt_ts_elem("completed"@, t.completed) + q10;
    let q8 = opt_ts_elem("due"@, t.due) + q9;
    let q7 = opt_ts_elem("start"@, t.start) + q8;

    let a6 = mid_acc(t);
    let a7 = TaskAcc { start: t.start, ..a6 };
    let a8 = TaskAcc { due: t.due, ..a7 };
    let a9 = TaskAcc { completed: t.completed, ..a8 };
    let a10 = TaskAcc { modified: t.modified, ..a9 };
    let a11 = TaskAcc { estimated_duration: t.estimated_duration, ..a10 };
    let a12 = TaskAcc { flagged: t.flagged, ..a11 };
    let a13 = TaskAcc { complete_by_children: t.complete_by_children, ..a12 };
    let a14 = TaskAcc { order: t.order, ..a13 };
    let a15 = TaskAcc { note: t.note, ..a14 };

    peel_start(t.start, q8, 1, a6);
    peel_due(t.due, q9, 1, a7);
    peel_completed(t.completed, q10, 1, a8);
    peel_modified(t.modified, q11, 1, a9);
    peel_estimated(t.estimated_duration, q12, 1, a10);
    peel_flagged(t.flagged, q13, 1, a11);
    peel_complete_by_children(t.complete_by_children, q14, 1, a12);
    peel_order(t.order, q15, 1, a13);
    peel_note(t.note, q16, 1, a14);

    assert(q16[0] == e_end[0]);
    assert(finish_acc(a15) == Some(t));
    assert(decode_task_spec(q16, 0, 1, a15) == Some((t, 1int)));

    let l16 = note_elems(t.note).len() as int;
    let l15 = order_elems(t.order).len() as int;
    let l12 = est_elems(t.estimated_duration).len() as int;
    let l8 = opt_ts_elem("start"@, t.start).len() as int;
    let l9 = opt_ts_elem("due"@, t.due).len() as int;
    let l10 = opt_ts_elem("completed"@, t.completed).len() as int;
    let l11 = opt_ts_elem("modified"@, t.modified).len() as int;

    assert(decode_task_spec(q15, 0, 1, a14) == Some((t, 1 + l16)));
    assert(decode_task_spec(q14, 0, 1, a13) == Some((t, 1 + l16 + l15)));
    assert(decode_task_spec(q13, 0, 1, a12) == Some((t, 1 + l16 + l15 + 3)));
    assert(decode_task_spec(q12, 0, 1, a11) == Some((t, 1 + l16 + l15 + 6)));
    assert(decode_task_spec(q11, 0, 1, a10) == Some((t, 1 + l16 + l15 + 6 + l12)));
    assert(decode_task_spec(q10, 0, 1, a9) == Some((t, 1 + l16 + l15 + 6 + l12 + l11)));
    assert(decode_task_spec(q9, 0, 1, a8) == Some((t, 1 + l16 + l15 + 6 + l12 + l11 + l10)));
    assert(decode_task_spec(q8, 0, 1, a7) == Some((t, 1 + l16 + l15 + 6 + l12 + l11 + l10 + l9)));
    assert(decode_task_spec(q7, 0, 1, a6) == Some(
        (t, 1 + l16 + l15 + 6 + l12 + l11 + l10 + l9 + l8),
    ));
    assert(q7 == task_tail_evs(t, rest));
    assert(task_tail_evs(t, rest).len() - rest.len() == 1 + l16 + l15 + 6 + l12 + l11 + l10 + l9
        + l8);
}

/// The events of an encoded task, re-grouped so that each field element
/// heads the remainder of the stream.
#[verifier::rlimit(100)]
proof fn lemma_task_events_nested(t: TaskV, rest: Seq<EventV>)
    ensures
        (encode_task_body(t) + seq![EventV::End { name: "task"@ }]) + rest == empty_elem(
            "project"@,
        ) + (text_elem("inbox"@, bool_chars(t.inbox)) + (attr_elem("task"@, "idref"@, t.parent) + (
        text_elem("added"@, crate::time::ts_chars(t.added)) + (text_elem("name"@, t.title) + (
        rank_elems(t.rank) + (attr_elem("context"@, "idref"@, t.context) + task_tail_evs(
            t,
            rest,
        ))))))),
{
    let e_end = seq![EventV::End { name: "task"@ }];
    let q16 = e_end + rest;
    let q15 = note_elems(t.note) + q16;
    let q14 = order_elems(t.order) + q15;
    let q13 = text_elem("complete-by-children"@, bool_chars(t.complete_by_children)) + q14;
    let q12 = text_elem("flagged"@, bool_chars(t.flagged)) + q13;
    let q11 = est_elems(t.estimated_duration) + q12;
    let q10 = opt_ts_elem("modified"@, t.modified) + q11;
    let q9 = opt_ts_elem("completed"@, t.completed) + q10;
    let q8 = opt_ts_elem("due"@, t.due) + q9;
    let q7 = opt_ts_elem("start"@, t.start) + q8;
    let q6 = attr_elem("context"@, "idref"@, t.context) + q7;
    let q5 = rank_elems(t.rank) + q6;
    let q4 = text_elem("name"@, t.title) + q5;
    let q3 = text_elem("added"@, crate::time::ts_chars(t.added)) + q4;
    let q2 = attr_elem("task"@, "idref"@, t.parent) + q3;
    let q1 = text_elem("inbox"@, bool_chars(t.inbox)) + q2;

    let p1 = empty_elem("project"@);
    let p2 = text_elem("inbox"@, bool_chars(t.inbox));
    let p3 = attr_elem("task"@, "idref"@, t.parent);
    let p4 = text_elem("added"@, crate::time::ts_chars(t.added));
    let p5 = text_elem("name"@, t.title);
    let p6 = rank_elems(t.rank);
    let p7 = attr_elem("context"@, "idref"@, t.context);
    let p8 = opt_ts_elem("start"@, t.start);
    let p9 = opt_ts_elem("due"@, t.due);
    let p10 = opt_ts_elem("completed"@, t.completed);
    let p11 = opt_ts_elem("modified"@, t.modified);
    let p12 = est_elems(t.estimated_duration);
    let p13 = text_elem("flagged"@, bool_chars(t.flagged));
    let p14 = text_elem("complete-by-children"@, bool_chars(t.complete_by_children));
    let p15 = order_elems(t.order);
    let p16 = note_elems(t.note);
    let m2 = p1 + p2;
    let m3 = m2 + p3;
    let m4 = m3 + p4;
    let m5 = m4 + p5;
    let m6 = m5 + p6;
    let m7 = m6 + p7;
    let m8 = m7 + p8;
    let m9 = m8 + p9;
    let m10 = m9 + p10;
    let m11 = m10 + p11;
    let m12 = m11 + p12;
    let m13 = m12 + p13;
    let m14 = m13 + p14;
    let m15 = m14 + p15;
    let m16 = m15 + p16;
    assert(encode_task_body(t) == m16);
    assert((m16 + e_end) + rest =~= m16 + q16);
    assert(m16 + q16 =~= m15 + q15);
    assert(m15 + q15 =~= m14 + q14);
    assert(m14 + q14 =~= m13 + q13);
    assert(m13 + q13 =~= m12 + q12);
    assert(m12 + q12 =~= m11 + q11);
    assert(m11 + q11 =~= m10 + q10);
    assert(m10 + q10 =~= m9 + q9);
    assert(m9 + q9 =~= m8 + q8);
    assert(m8 + q8 =~= m7 + q7);
    assert(m7 + q7 =~= m6 + q6);
    assert(m6 + q6 =~= m5 + q5);
    assert(m5 + q5 =~= m4 + q4);
    assert(m4 + q4 =~= m3 + q3);
    assert(m3 + q3 =~= m2 + q2);
    assert(m2 + q2 =~= p1 + q1);
    assert(q7 == task_tail_evs(t, rest));
}

/// Decoding the inside of an encoded task yields the task back, whatever
/// follows it in the stream.
#[verifier::rlimit(100)]
proof fn lemma_decode_encoded_task(t: TaskV, rest: Seq<EventV>)
    requires
        t.wf(),
        t.note matches Some(x) ==> x == Seq::<char>::empty(),
    ensures
        decode_task_spec(
            (encode_task_body(t) + seq![EventV::End { name: "task"@ }]) + rest,
            0,
            1,
            init_acc(t.id),
        ) == Some((t, encode_task_body(t).len() + 1int)),
{
    lemma_task_events_nested(t, rest);
    let q7 = task_tail_evs(t, rest);
    let q6 = attr_elem("context"@, "idref"@, t.context) + q7;
    let q5 = rank_elems(t.rank) + q6;
    let q4 = text_elem("name"@, t.title) + q5;
    let q3 = text_elem("added"@, crate::time::ts_chars(t.added)) + q4;
    let q2 = attr_elem("task"@, "idref"@, t.parent) + q3;
    let q1 = text_elem("inbox"@, bool_chars(t.inbox)) + q2;
    let q0 = empty_elem("project"@) + q1;
    assert(q0 == (encode_task_body(t) + seq![EventV::End { name: "task"@ }]) + rest);

    let a0 = init_acc(t.id);
    let a1 = TaskAcc { inbox: t.inbox, ..a0 };
    let a2 = TaskAcc { parent: t.parent, ..a1 };
    let a3 = TaskAcc { added: Some(t.added), ..a2 };
    let a4 = TaskAcc { title: Some(t.title), ..a3 };
    let a5 = TaskAcc { rank: t.rank, ..a4 };
    let a6 = TaskAcc { context: t.context, ..a5 };
    assert(a6 == mid_acc(t));

    peel_project(q1, 1, a0);
    peel_inbox(t.inbox, q2, 1, a0);
    peel_parent(t.parent, q3, 1, a1);
    peel_added(t.added, q4, 1, a2);
    peel_name(t.title, q5, 1, a3);
    peel_rank(t.rank, q6, 1, a4);
    peel_context(t.context, q7, 1, a5);
    lemma_decode_task_tail(t, rest);

    let ltail = q7.len() - rest.len();
    let l6 = rank_elems(t.rank).len() as int;
    assert(decode_task_spec(q7, 0, 1, a6) == Some((t, ltail)));
    assert(decode_task_spec(q6, 0, 1, a5) == Some((t, ltail + 2)));
    assert(decode_task_spec(q5, 0, 1, a4) == Some((t, ltail + 2 + l6)));
    assert(decode_task_spec(q4, 0, 1, a3) == Some((t, ltail + 5 + l6)));
    assert(decode_task_spec(q3, 0, 1, a2) == Some((t, ltail + 8 + l6)));
    assert(decode_task_spec(q2, 0, 1, a1) == Some((t, ltail + 10 + l6)));
    assert(decode_task_spec(q1, 0, 1, a0) == Some((t, ltail + 13 + l6)));
    assert(decode_task_spec(q0, 0, 1, a0) == Some((t, ltail + 15 + l6)));
    assert(encode_task_body(t).len() + 1int == ltail + 15 + l6) by {
        assert(q0.len() == encode_task_body(t).len() + 1 + rest.len());
    }
}

/// Every task of a delta carries an empty placeholder note or none at all;
/// the note's contents are outside what the codec encodes.
pub open spec fn notes_empty(ts: Seq<TaskV>) -> bool {
    forall|i: int|
        0 <= i < ts.len() ==> ((#[trigger] ts[i]).note matches Some(x) ==> x
            == Seq::<char>::empty())
}

#[verifier::rlimit(100)]
proof fn lemma_decode_encoded_tasks(ts: Seq<TaskV>, acc: Seq<TaskV>)
    requires
        tasks_wf(ts),
        notes_empty(ts),
    ensures
        decode_doc_spec(encode_tasks(ts) + seq![EventV::End { name: "omnifocus"@ }], 0, acc)
            == Some(acc + ts),
    decreases ts.len(),
{
    let e_omni = seq![EventV::End { name: "omnifocus"@ }];
    let evs = encode_tasks(ts) + e_omni;
    if ts.len() == 0 {
        assert(evs =~= e_omni);
        assert(evs[0] == e_omni[0]);
        assert(decode_doc_spec(evs, 0, acc) == Some(acc));
        assert(acc + ts =~= acc);
    } else {
        let t = ts[0];
        let tail = ts.subrange(1, ts.len() as int);
        assert(tasks_wf(tail) && notes_empty(tail)) by {
            assert(forall|i: int| 0 <= i < tail.len() ==> tail[i] == ts[i + 1]);
        }
        let start_ev = EventV::Start { name: "task"@, attrs: seq![("id"@, t.id)] };
        let s_start = seq![start_ev];
        let body = encode_task_body(t);
        let e_task = seq![EventV::End { name: "task"@ }];
        let tail_evs = encode_tasks(tail) + e_omni;
        let task_rest = (body + e_task) + tail_evs;
        assert(encode_tasks(ts) == encode_task_evs(t) + encode_tasks(tail)) by {
            assert(ts.subrange(1, ts.len() as int) == tail);
        }
        assert(encode_task_evs(t) == (s_start + body) + e_task);
        assert((s_start + body) + e_task =~= s_start + (body + e_task));
        assert((s_start + (body + e_task)) + encode_tasks(tail) =~= s_start + ((body + e_task)
            + encode_tasks(tail)));
        assert((encode_task_evs(t) + encode_tasks(tail)) + e_omni =~= encode_task_evs(t)
            + tail_evs);
        assert((s_start + ((body + e_task) + encode_tasks(tail))) + e_omni =~= s_start + (((body
            + e_task) + encode_tasks(tail)) + e_omni));
        assert(((body + e_task) + encode_tasks(tail)) + e_omni =~= (body + e_task) + tail_evs);
        assert(evs == s_start + task_rest);
        assert(evs[0] == start_ev);
        assert(attr_value(seq![("id"@, t.id)], "id"@) == Some(t.id));
        assert(ts[0].wf());
        lemma_decode_encoded_task(t, tail_evs);
        lemma_task_shift(s_start, task_rest, 0, 1, init_acc(t.id));
        let l = body.len() + 2;
        assert(decode_task_spec(evs, 1, 1, init_acc(t.id)) == Some((t, l as int)));
        assert(0 < l <= evs.len()) by {
            assert(evs.len() == encode_task_evs(t).len() + encode_tasks(tail).len()
                + e_omni.len());
            assert(encode_task_evs(t).len() == l);
        }
        lemma_doc_shift(encode_task_evs(t), tail_evs, 0, acc.push(t));
        assert(decode_doc_spec(evs, l as int, acc.push(t)) == decode_doc_spec(
            tail_evs,
            0,
            acc.push(t),
        )) by {
            assert(evs == encode_task_evs(t) + tail_evs);
            assert(encode_task_evs(t).len() + 0 == l as int);
        }
        lemma_decode_encoded_tasks(tail, acc.push(t));
        assert(decode_doc_spec(evs, 0, acc) == Some(acc.push(t) + tail));
        assert(acc.push(t) + tail =~= acc + ts);
    }
}

/// Round trip at the event layer: decoding an encoded delta yields the
/// delta back, field for field, for any combination of present and absent
/// optional fields (a present note must be the empty placeholder the
/// decoder can recover).
pub proof fn lemma_encode_decode_round_trip(ts: Seq<TaskV>)
    requires
        tasks_wf(ts),
        notes_empty(ts),
    ensures
        decode_content_spec(encode_content_evs(ts)) == Some(ts),
{
    lemma_tags_distinct();
    let root_ev = EventV::Start { name: "omnifocus"@, attrs: root_attrs() };
    let suf = encode_tasks(ts) + seq![EventV::End { name: "omnifocus"@ }];
    let evs = encode_content_evs(ts);
    assert(evs =~= seq![root_ev] + suf);
    assert(evs[0] == root_ev);
    lemma_doc_shift(seq![root_ev], suf, 0, Seq::empty());
    assert(decode_doc_spec(evs, 1, Seq::empty()) == decode_doc_spec(suf, 0, Seq::empty()));
    lemma_decode_encoded_tasks(ts, Seq::empty());
    assert(Seq::empty() + ts =~= ts);
    assert(decode_doc_spec(evs, 0, Seq::empty()) == Some(ts));
}

/// A `due` element that is present but empty decodes to an absent due
/// date: the decoder passes it without touching the field, exactly as if
/// the element had been omitted.
pub proof fn lemma_empty_due_is_absent(evs: Seq<EventV>, i: int, depth: int, a: TaskAcc)
    requires
        0 <= i,
        i + 1 < evs.len(),
        evs[i] matches EventV::Start { name, attrs } && name == "due"@,
        !(evs[i + 1] is Text),
        depth >= 1,
    ensures
        decode_task_spec(evs, i, depth, a) == decode_task_spec(evs, i + 2, depth, a),
{
    lemma_tags_distinct();
    if let EventV::Start { name, attrs } = evs[i] {
        assert(field_step(evs, i, depth, a, name, attrs) == Some((i + 2, depth, a)));
    }
}

/// Only a `due` element that carries text can set the due date, and only
/// to a value its text parses to.
pub proof fn lemma_due_with_text(evs: Seq<EventV>, i: int, depth: int, a: TaskAcc, x: Seq<char>)
    requires
        0 <= i,
        i + 1 < evs.len(),
        evs[i] matches EventV::Start { name, attrs } && name == "due"@,
        evs[i + 1] == EventV::Text(x),
        depth >= 1,
    ensures
        match crate::time::parse_ts_spec(x) {
            Some(d) => decode_task_spec(evs, i, depth, a) == decode_task_spec(
                evs,
                i + 2,
                depth + 1,
                TaskAcc { due: Some(d), ..a },
            ),
            None => decode_task_spec(evs, i, depth, a) is None,
        },
{
    lemma_tags_distinct();
    if let EventV::Start { name, attrs } = evs[i] {
        match crate::time::parse_ts_spec(x) {
            Some(d) => {
                assert(field_step(evs, i, depth, a, name, attrs) == Some(
                    (i + 2, depth + 1, TaskAcc { due: Some(d), ..a }),
                ));
            },
            None => {
                assert(field_step(evs, i, depth, a, name, attrs) is None);
            },
        }
    }
}

} // verus!
