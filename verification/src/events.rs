//! The forward-only stream of XML events that the object codec reads and
//! writes.  Start tags carry their attributes; everything the codec does
//! not act on (declarations, comments, whitespace, CDATA) is an opaque
//! `Other` event.

use vstd::prelude::*;
use crate::error::{OpenFocusError, OpenFocusErrorType};

verus! {

/// One event of an XML document stream.
#[derive(Debug, Clone, PartialEq, Eq)]
pub enum Event {
    Start { name: String, attrs: Vec<(String, String)> },
    End { name: String },
    Text(String),
    Other,
}

/// The mathematical value of an event: names, attributes and text as
/// character sequences.
pub enum EventV {
    Start { name: Seq<char>, attrs: Seq<(Seq<char>, Seq<char>)> },
    End { name: Seq<char> },
    Text(Seq<char>),
    Other,
}

impl View for Event {
    type V = EventV;

    open spec fn view(&self) -> EventV {
        match self {
            Event::Start { name, attrs } => EventV::Start {
                name: name@,
                attrs: attrs.deep_view(),
            },
            Event::End { name } => EventV::End { name: name@ },
            Event::Text(t) => EventV::Text(t@),
            Event::Other => EventV::Other,
        }
    }
}

impl DeepView for Event {
    type V = EventV;

    open spec fn deep_view(&self) -> EventV {
        self.view()
    }
}

/// The value of the first attribute named `key`, if any.
pub open spec fn attr_value(attrs: Seq<(Seq<char>, Seq<char>)>, key: Seq<char>) -> Option<
    Seq<char>,
>
    decreases attrs.len(),
{
    if attrs.len() == 0 {
        None
    } else if attrs[0].0 == key {
        Some(attrs[0].1)
    } else {
        attr_value(attrs.subrange(1, attrs.len() as int), key)
    }
}

/// Looks up the first attribute named `key`.
pub fn attrs_get_val(attrs: &Vec<(String, String)>, key: &str) -> (r: Option<String>)
    ensures
        r matches Some(v) ==> attr_value(attrs.deep_view(), key@) == Some(v@),
        r is None ==> attr_value(attrs.deep_view(), key@) is None,
{
    let mut i: usize = 0;
    proof {
        assert(attrs.deep_view().subrange(0, attrs.len() as int) =~= attrs.deep_view());
    }
    while i < attrs.len()
        invariant
            i <= attrs.len(),
            attr_value(attrs.deep_view(), key@) == attr_value(
                attrs.deep_view().subrange(i as int, attrs.len() as int),
                key@,
            ),
        decreases attrs.len() - i,
    {
        let ghost rest = attrs.deep_view().subrange(i as int, attrs.len() as int);
        if str_eq(attrs[i].0.as_str(), key) {
            proof {
                assert(rest[0] == attrs.deep_view()[i as int]);
            }
            return Some(clone_string(&attrs[i].1));
        }
        proof {
            assert(rest[0] == attrs.deep_view()[i as int]);
            assert(rest.subrange(1, rest.len() as int) =~= attrs.deep_view().subrange(
                i as int + 1,
                attrs.len() as int,
            ));
        }
        i = i + 1;
    }
    proof {
        assert(attrs.deep_view().subrange(i as int, attrs.len() as int) =~= Seq::empty());
    }
    None
}

/// Whether two strings hold the same characters.
pub fn str_eq(a: &str, b: &str) -> (r: bool)
    ensures
        r == (a@ == b@),
{
    let sa = String::from_str(a);
    let sb = String::from_str(b);
    sa == sb
}

/// A copy of a string with the same characters.
pub fn clone_string(s: &String) -> (r: String)
    ensures
        r@ == s@,
{
    s.clone()
}

/// A copy of a byte vector with the same contents.
pub fn clone_bytes(s: &Vec<u8>) -> (r: Vec<u8>)
    ensures
        r@ == s@,
{
    let mut out: Vec<u8> = Vec::new();
    let mut i: usize = 0;
    while i < s.len()
        invariant
            i <= s.len(),
            out@ == s@.subrange(0, i as int),
        decreases s.len() - i,
    {
        out.push(s[i]);
        proof {
            assert(out@ =~= s@.subrange(0, i as int + 1));
        }
        i = i + 1;
    }
    proof {
        assert(s@.subrange(0, s@.len() as int) =~= s@);
    }
    out
}

/// The text inside a simple element: the event at `pos` must be character
/// data, as in `<example>THIS TEXT IS EXTRACTED</example>`.
pub fn get_text_content(events: &Vec<Event>, pos: usize) -> (r: Result<String, OpenFocusError>)
    ensures
        r matches Ok(t) ==> pos < events.len() && events@[pos as int]@ == EventV::Text(t@),
        r is Err ==> !(pos < events.len() && events@[pos as int]@ is Text),
        r matches Err(e) ==> e.kind == OpenFocusErrorType::Parse,
{
    if pos < events.len() {
        match &events[pos] {
            Event::Text(t) => Ok(clone_string(t)),
            _ => Err(OpenFocusError::new(OpenFocusErrorType::Parse)),
        }
    } else {
        Err(OpenFocusError::new(OpenFocusErrorType::Parse))
    }
}

/// A start event without attributes.
pub fn ev_start(name: &str) -> (e: Event)
    ensures
        e@ == (EventV::Start { name: name@, attrs: Seq::<(Seq<char>, Seq<char>)>::empty() }),
{
    let attrs: Vec<(String, String)> = Vec::new();
    proof {
        assert(attrs.deep_view() =~= Seq::<(Seq<char>, Seq<char>)>::empty());
    }
    Event::Start { name: String::from_str(name), attrs }
}

/// A start event with one attribute.
pub fn ev_start_attr(name: &str, key: &str, value: &str) -> (e: Event)
    ensures
        e@ == (EventV::Start { name: name@, attrs: seq![(key@, value@)] }),
{
    let mut attrs: Vec<(String, String)> = Vec::new();
    let k = String::from_str(key);
    let v = String::from_str(value);
    attrs.push((k, v));
    proof {
        assert(attrs.deep_view() =~= seq![(key@, value@)]);
    }
    Event::Start { name: String::from_str(name), attrs }
}

/// An end event.
pub fn ev_end(name: &str) -> (e: Event)
    ensures
        e@ == (EventV::End { name: name@ }),
{
    Event::End { name: String::from_str(name) }
}

/// A character-data event.
pub fn ev_text(text: String) -> (e: Event)
    ensures
        e@ == EventV::Text(text@),
{
    Event::Text(text)
}

} // verus!
