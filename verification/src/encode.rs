//! The encode path of the object codec: serializing a `Content` delta to
//! the document's event stream, in the fixed field order, with present
//! optional fields carrying text and absent ones written as empty elements.

use vstd::prelude::*;
use crate::content::Content;
use crate::digits::{dec_digits, dec_digits_signed, format_i64, format_u64};
use crate::error::{OpenFocusError, OpenFocusErrorType};
use crate::events::{Event, EventV, ev_start, ev_start_attr, ev_end, ev_text};
use crate::task::{Task, TaskV, bool_chars, order_chars, format_bool, format_order};
use crate::time::{Timestamp, ts_chars, format_timestamp};

verus! {

/// All tasks of a delta carry real calendar timestamps.
pub open spec fn tasks_wf(s: Seq<TaskV>) -> bool {
    forall|i: int| 0 <= i < s.len() ==> (#[trigger] s[i]).wf()
}

/// `<name>text</name>`
pub open spec fn text_elem(name: Seq<char>, text: Seq<char>) -> Seq<EventV> {
    seq![
        EventV::Start { name, attrs: Seq::empty() },
        EventV::Text(text),
        EventV::End { name },
    ]
}

/// `<name/>`
pub open spec fn empty_elem(name: Seq<char>) -> Seq<EventV> {
    seq![EventV::Start { name, attrs: Seq::empty() }, EventV::End { name }]
}

/// `<name key="v"/>` when the value is present, `<name/>` otherwise.
pub open spec fn attr_elem(name: Seq<char>, key: Seq<char>, v: Option<Seq<char>>) -> Seq<EventV> {
    match v {
        Some(v) => seq![EventV::Start { name, attrs: seq![(key, v)] }, EventV::End { name }],
        None => empty_elem(name),
    }
}

/// A timestamp element: text when present, self-closing when absent.
pub open spec fn opt_ts_elem(name: Seq<char>, o: Option<Timestamp>) -> Seq<EventV> {
    match o {
        Some(t) => text_elem(name, ts_chars(t)),
        None => empty_elem(name),
    }
}

/// The rank is written only when present.
pub open spec fn rank_elems(r: Option<i64>) -> Seq<EventV> {
    match r {
        Some(v) => text_elem("rank"@, dec_digits_signed(v as int)),
        None => Seq::empty(),
    }
}

pub open spec fn est_elems(o: Option<u64>) -> Seq<EventV> {
    match o {
        Some(v) => text_elem("estimated-minutes"@, dec_digits(v as nat)),
        None => empty_elem("estimated-minutes"@),
    }
}

pub open spec fn order_elems(o: Option<crate::task::SubtaskOrder>) -> Seq<EventV> {
    match o {
        Some(v) => text_elem("order"@, order_chars(v)),
        None => empty_elem("order"@),
    }
}

/// A note is written as an empty placeholder element when present; its
/// contents are not encoded.
pub open spec fn note_elems(n: Option<Seq<char>>) -> Seq<EventV> {
    match n {
        Some(_) => empty_elem("note"@),
        None => Seq::empty(),
    }
}

/// The children of a task element, in the fixed field order.
pub open spec fn encode_task_body(t: TaskV) -> Seq<EventV> {
    empty_elem("project"@) + text_elem("inbox"@, bool_chars(t.inbox)) + attr_elem(
        "task"@,
        "idref"@,
        t.parent,
    ) + text_elem("added"@, ts_chars(t.added)) + text_elem("name"@, t.title) + rank_elems(t.rank)
        + attr_elem("context"@, "idref"@, t.context) + opt_ts_elem("start"@, t.start) + opt_ts_elem(
        "due"@,
        t.due,
    ) + opt_ts_elem("completed"@, t.completed) + opt_ts_elem("modified"@, t.modified) + est_elems(
        t.estimated_duration,
    ) + text_elem("flagged"@, bool_chars(t.flagged)) + text_elem(
        "complete-by-children"@,
        bool_chars(t.complete_by_children),
    ) + order_elems(t.order) + note_elems(t.note)
}

/// One whole task element: an id-attributed start tag, the fields, the
/// end tag.
pub open spec fn encode_task_evs(t: TaskV) -> Seq<EventV> {
    seq![EventV::Start { name: "task"@, attrs: seq![("id"@, t.id)] }] + encode_task_body(t) + seq![
        EventV::End { name: "task"@ },
    ]
}

/// The fixed attributes of the document root.
pub open spec fn root_attrs() -> Seq<(Seq<char>, Seq<char>)> {
    seq![
        ("xmlns"@, "http://www.omnigroup.com/namespace/OmniFocus/v2"@),
        ("app-id"@, "wtf.will.openfocus"@),
        ("app-version"@, "0.0.0"@),
        ("os-name"@, "unknown"@),
        ("os-version"@, "unknown"@),
        ("machine-model"@, "unknown"@),
    ]
}

pub open spec fn encode_tasks(ts: Seq<TaskV>) -> Seq<EventV>
    decreases ts.len(),
{
    if ts.len() == 0 {
        Seq::empty()
    } else {
        encode_task_evs(ts[0]) + encode_tasks(ts.subrange(1, ts.len() as int))
    }
}

/// A whole document's event stream for a delta.
pub open spec fn encode_content_evs(ts: Seq<TaskV>) -> Seq<EventV> {
    seq![EventV::Start { name: "omnifocus"@, attrs: root_attrs() }] + encode_tasks(ts) + seq![
        EventV::End { name: "omnifocus"@ },
    ]
}

pub proof fn lemma_encode_tasks_snoc(ts: Seq<TaskV>, k: int)
    requires
        0 <= k < ts.len(),
    ensures
        encode_tasks(ts.subrange(0, k + 1)) == encode_tasks(ts.subrange(0, k)) + encode_task_evs(
            ts[k],
        ),
    decreases k,
{
    let a = ts.subrange(0, k + 1);
    let b = ts.subrange(0, k);
    if k == 0 {
        assert(a.subrange(1, 1) =~= Seq::<TaskV>::empty());
        assert(encode_tasks(b) =~= Seq::<EventV>::empty());
        assert(encode_tasks(a) =~= encode_task_evs(ts[0]) + encode_tasks(a.subrange(1, 1)));
        assert(encode_tasks(a) =~= encode_tasks(b) + encode_task_evs(ts[0]));
    } else {
        let ts2 = ts.subrange(1, ts.len() as int);
        lemma_encode_tasks_snoc(ts2, k - 1);
        assert(a.subrange(1, a.len() as int) =~= ts2.subrange(0, k));
        assert(b.subrange(1, b.len() as int) =~= ts2.subrange(0, k - 1));
        assert(a[0] == ts[0] && b[0] == ts[0]);
        assert(ts2[k - 1] == ts[k]);
        assert(encode_tasks(a) == encode_task_evs(ts[0]) + encode_tasks(ts2.subrange(0, k)));
        assert(encode_tasks(b) == encode_task_evs(ts[0]) + encode_tasks(ts2.subrange(0, k - 1)));
        assert(encode_task_evs(ts[0]) + (encode_tasks(ts2.subrange(0, k - 1)) + encode_task_evs(
            ts[k],
        )) =~= (encode_task_evs(ts[0]) + encode_tasks(ts2.subrange(0, k - 1))) + encode_task_evs(
            ts[k],
        ));
    }
}

/// Appends one event.
fn push_event(out: &mut Vec<Event>, e: Event)
    ensures
        final(out).deep_view() == old(out).deep_view() + seq![e@],
{
    let ghost pre = out.deep_view();
    let ghost ev = e@;
    out.push(e);
    proof {
        assert(out.deep_view() =~= pre + seq![ev]);
    }
}

/// Appends `<name>text</name>`.
fn push_text_elem(out: &mut Vec<Event>, name: &str, text: String)
    ensures
        final(out).deep_view() == old(out).deep_view() + text_elem(name@, text@),
{
    let ghost pre = out.deep_view();
    let ghost textv = text@;
    push_event(out, ev_start(name));
    push_event(out, ev_text(text));
    push_event(out, ev_end(name));
    proof {
        assert(out.deep_view() =~= pre + text_elem(name@, textv));
    }
}

/// Appends `<name/>`.
fn push_empty_elem(out: &mut Vec<Event>, name: &str)
    ensures
        final(out).deep_view() == old(out).deep_view() + empty_elem(name@),
{
    let ghost pre = out.deep_view();
    push_event(out, ev_start(name));
    push_event(out, ev_end(name));
    proof {
        assert(out.deep_view() =~= pre + empty_elem(name@));
    }
}

/// Appends `<name key="v"/>` or `<name/>`.
fn push_attr_elem(out: &mut Vec<Event>, name: &str, key: &str, v: &Option<String>)
    ensures
        final(out).deep_view() == old(out).deep_view() + attr_elem(name@, key@, v.deep_view()),
{
    let ghost pre = out.deep_view();
    match v {
        Some(v) => {
            let ghost vv = v@;
            push_event(out, ev_start_attr(name, key, v.as_str()));
            push_event(out, ev_end(name));
            proof {
                assert(out.deep_view() =~= pre + attr_elem(name@, key@, Some(vv)));
            }
        },
        None => {
            push_empty_elem(out, name);
        },
    }
}

/// Appends a timestamp element, empty when the timestamp is absent.
fn push_opt_ts_elem(out: &mut Vec<Event>, name: &str, o: &Option<Timestamp>)
    requires
        o matches Some(t) ==> t.valid(),
    ensures
        final(out).deep_view() == old(out).deep_view() + opt_ts_elem(name@, *o),
{
    match o {
        Some(t) => {
            push_text_elem(out, name, format_timestamp(t));
        },
        None => {
            push_empty_elem(out, name);
        },
    }
}

/// Serializes the children of one task element, in the fixed field order.
#[verifier::rlimit(100)]
fn encode_task_fields(out: &mut Vec<Event>, t: &Task)
    requires
        t.wf(),
    ensures
        final(out).deep_view() == old(out).deep_view() + encode_task_body(t@),
{
    let ghost base = out.deep_view();
    let ghost mut body: Seq<EventV> = Seq::empty();
    proof {
        assert(out.deep_view() =~= base + body);
    }
    push_empty_elem(out, "project");
    proof {
        body = body + empty_elem("project"@);
        assert(out.deep_view() =~= base + body);
    }
    push_text_elem(out, "inbox", String::from_str(format_bool(t.inbox)));
    proof {
        body = body + text_elem("inbox"@, bool_chars(t.inbox));
        assert(out.deep_view() =~= base + body);
    }
    push_attr_elem(out, "task", "idref", &t.parent);
    proof {
        body = body + attr_elem("task"@, "idref"@, t@.parent);
        assert(out.deep_view() =~= base + body);
    }
    push_text_elem(out, "added", format_timestamp(&t.added));
    proof {
        body = body + text_elem("added"@, ts_chars(t.added));
        assert(out.deep_view() =~= base + body);
    }
    push_text_elem(out, "name", crate::events::clone_string(&t.title));
    proof {
        body = body + text_elem("name"@, t.title@);
        assert(out.deep_view() =~= base + body);
    }
    match &t.rank {
        Some(v) => push_text_elem(out, "rank", format_i64(*v)),
        None => {},
    }
    proof {
        body = body + rank_elems(t.rank);
        assert(out.deep_view() =~= base + body);
    }
    push_attr_elem(out, "context", "idref", &t.context);
    proof {
        body = body + attr_elem("context"@, "idref"@, t@.context);
        assert(out.deep_view() =~= base + body);
    }
    push_opt_ts_elem(out, "start", &t.start);
    proof {
        body = body + opt_ts_elem("start"@, t.start);
        assert(out.deep_view() =~= base + body);
    }
    push_opt_ts_elem(out, "due", &t.due);
    proof {
        body = body + opt_ts_elem("due"@, t.due);
        assert(out.deep_view() =~= base + body);
    }
    push_opt_ts_elem(out, "completed", &t.completed);
    proof {
        body = body + opt_ts_elem("completed"@, t.completed);
        assert(out.deep_view() =~= base + body);
    }
    push_opt_ts_elem(out, "modified", &t.modified);
    proof {
        body = body + opt_ts_elem("modified"@, t.modified);
        assert(out.deep_view() =~= base + body);
    }
    match &t.estimated_duration {
        Some(v) => push_text_elem(out, "estimated-minutes", format_u64(*v)),
        None => push_empty_elem(out, "estimated-minutes"),
    }
    proof {
        body = body + est_elems(t.estimated_duration);
        assert(out.deep_view() =~= base + body);
    }
    push_text_elem(out, "flagged", String::from_str(format_bool(t.flagged)));
    proof {
        body = body + text_elem("flagged"@, bool_chars(t.flagged));
        assert(out.deep_view() =~= base + body);
    }
    push_text_elem(
        out,
        "complete-by-children",
        String::from_str(format_bool(t.complete_by_children)),
    );
    proof {
        body = body + text_elem("complete-by-children"@, bool_chars(t.complete_by_children));
        assert(out.deep_view() =~= base + body);
    }
    match &t.order {
        Some(o) => push_text_elem(out, "order", String::from_str(format_order(o))),
        None => push_empty_elem(out, "order"),
    }
    proof {
        body = body + order_elems(t.order);
        assert(out.deep_view() =~= base + body);
    }
    match &t.note {
        Some(_) => push_empty_elem(out, "note"),
        None => {},
    }
    proof {
        body = body + note_elems(t@.note);
        assert(out.deep_view() =~= base + body);
        assert(body == encode_task_body(t@));
    }
}

/// Serializes one task element.
fn encode_task(out: &mut Vec<Event>, t: &Task)
    requires
        t.wf(),
    ensures
        final(out).deep_view() == old(out).deep_view() + encode_task_evs(t@),
{
    let ghost pre = out.deep_view();
    push_event(out, ev_start_attr("task", "id", t.id.as_str()));
    encode_task_fields(out, t);
    push_event(out, ev_end("task"));
    proof {
        assert(out.deep_view() =~= pre + encode_task_evs(t@));
    }
}

/// The document root's start event, with its fixed identifying attributes.
fn root_start_event() -> (e: Event)
    ensures
        e@ == (EventV::Start { name: "omnifocus"@, attrs: root_attrs() }),
{
    let mut attrs: Vec<(String, String)> = Vec::new();
    attrs.push(
        (
            String::from_str("xmlns"),
            String::from_str("http://www.omnigroup.com/namespace/OmniFocus/v2"),
        ),
    );
    attrs.push((String::from_str("app-id"), String::from_str("wtf.will.openfocus")));
    attrs.push((String::from_str("app-version"), String::from_str("0.0.0")));
    attrs.push((String::from_str("os-name"), String::from_str("unknown")));
    attrs.push((String::from_str("os-version"), String::from_str("unknown")));
    attrs.push((String::from_str("machine-model"), String::from_str("unknown")));
    proof {
        assert(attrs.deep_view() =~= root_attrs());
    }
    Event::Start { name: String::from_str("omnifocus"), attrs }
}

/// Serializes a delta to its document event stream.
pub fn encode_events(delta: &Content) -> (r: Vec<Event>)
    requires
        tasks_wf(delta@),
    ensures
        r.deep_view() == encode_content_evs(delta@),
{
    let ghost ts = delta@;
    let mut out: Vec<Event> = Vec::new();
    proof {
        assert(out.deep_view() =~= Seq::<EventV>::empty());
    }
    push_event(&mut out, root_start_event());
    let ghost head = seq![EventV::Start { name: "omnifocus"@, attrs: root_attrs() }];
    let mut k: usize = 0;
    proof {
        assert(ts.subrange(0, 0) =~= Seq::<TaskV>::empty());
        assert(out.deep_view() =~= head + encode_tasks(ts.subrange(0, 0)));
    }
    while k < delta.tasks.len()
        invariant
            k <= delta.tasks.len(),
            ts == delta@,
            tasks_wf(ts),
            out.deep_view() == head + encode_tasks(ts.subrange(0, k as int)),
            head == seq![EventV::Start { name: "omnifocus"@, attrs: root_attrs() }],
        decreases delta.tasks.len() - k,
    {
        proof {
            assert(ts[k as int] == delta.tasks@[k as int]@);
            assert(ts[k as int].wf());
        }
        let ghost pre = out.deep_view();
        encode_task(&mut out, &delta.tasks[k]);
        proof {
            lemma_encode_tasks_snoc(ts, k as int);
            assert(out.deep_view() =~= head + encode_tasks(ts.subrange(0, k as int + 1)));
        }
        k = k + 1;
    }
    push_event(&mut out, ev_end("omnifocus"));
    proof {
        assert(ts.subrange(0, ts.len() as int) =~= ts);
        assert(out.deep_view() =~= encode_content_evs(ts));
    }
    out
}

/// Serializes a delta and wraps it in a zip container: the single entry of
/// the result holds the rendered document.
pub fn encode_archive(delta: &Content) -> (r: Result<Vec<u8>, OpenFocusError>)
    requires
        tasks_wf(delta@),
    ensures
        r matches Ok(b) ==> crate::xmlio::xml_render(encode_content_evs(delta@)) is Some
            && crate::zipio::zip_entry(b@) == crate::xmlio::xml_render(encode_content_evs(delta@)),
        r matches Err(e) ==> e.kind == OpenFocusErrorType::Unknown,
        (crate::xmlio::xml_render(encode_content_evs(delta@)) matches Some(x) && x.len()
            < 0xFFFF_0000) ==> r is Ok,
{
    let events = encode_events(delta);
    let xml = match crate::xmlio::write_xml_events(&events) {
        Some(x) => x,
        None => {
            return Err(OpenFocusError::new(OpenFocusErrorType::Unknown));
        },
    };
    match crate::zipio::write_zip_entry(xml.as_slice()) {
        Some(b) => Ok(b),
        None => Err(OpenFocusError::new(OpenFocusErrorType::Unknown)),
    }
}

} // verus!
