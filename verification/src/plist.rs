//! The property-list sub-format used inside perspective records: a value
//! is a string leaf or a dictionary of string keys to values, encoded as
//! alternating `key` / value elements.  Arrays and data blobs are outside
//! this document's needs and are not decoded.

use vstd::prelude::*;
use crate::error::{OpenFocusError, OpenFocusErrorType};
use crate::events::{Event, EventV, get_text_content, str_eq};

verus! {

broadcast use vstd::std_specs::vec::group_vec_axioms;

/// One entry of a property-list dictionary.
#[derive(Debug, PartialEq, Eq)]
pub struct PlistEntry {
    pub key: String,
    pub value: PlistItem,
}

/// One property-list value.
#[derive(Debug, PartialEq, Eq)]
pub enum PlistItem {
    String(String),
    Dict(Vec<PlistEntry>),
}

/// The mathematical value of a property-list item.
pub enum PlistItemV {
    String(Seq<char>),
    Dict(Seq<(Seq<char>, PlistItemV)>),
}

/// The mathematical value of an item.
pub open spec fn plist_view(p: PlistItem) -> PlistItemV
    decreases p,
{
    match p {
        PlistItem::String(s) => PlistItemV::String(s@),
        PlistItem::Dict(entries) => PlistItemV::Dict(entries_view(entries@)),
    }
}

/// The mathematical value of a run of dictionary entries.
pub open spec fn entries_view(s: Seq<PlistEntry>) -> Seq<(Seq<char>, PlistItemV)>
    decreases s,
{
    if s.len() == 0 {
        Seq::empty()
    } else {
        seq![(s[0].key@, plist_view(s[0].value))] + entries_view(s.subrange(1, s.len() as int))
    }
}

pub proof fn lemma_entries_view_index(s: Seq<PlistEntry>)
    ensures
        entries_view(s).len() == s.len(),
        forall|i: int|
            0 <= i < s.len() ==> #[trigger] entries_view(s)[i] == (s[i].key@, plist_view(
                s[i].value,
            )),
    decreases s.len(),
{
    if s.len() > 0 {
        let rest = s.subrange(1, s.len() as int);
        lemma_entries_view_index(rest);
        assert(forall|i: int| 0 <= i < rest.len() ==> (#[trigger] rest[i]) == s[i + 1]);
        assert(forall|i: int|
            1 <= i < s.len() ==> #[trigger] entries_view(s)[i] == entries_view(rest)[i - 1]);
    }
}

impl View for PlistItem {
    type V = PlistItemV;

    open spec fn view(&self) -> PlistItemV {
        plist_view(*self)
    }
}

impl PlistItem {
    /// The string inside a leaf.
    pub fn unwrap_string<'a>(&'a self) -> (r: &'a String)
        requires
            self@ is String,
        ensures
            self@ == PlistItemV::String(r@),
    {
        match self {
            PlistItem::String(s) => s,
            _ => {
                proof {
                    assert(false);
                }
                unreached()
            },
        }
    }

    /// The entries inside a dictionary, in insertion order.
    pub fn unwrap_dict<'a>(&'a self) -> (r: &'a Vec<PlistEntry>)
        requires
            self@ is Dict,
        ensures
            self@ == PlistItemV::Dict(entries_view(r@)),
    {
        match self {
            PlistItem::Dict(d) => d,
            _ => {
                proof {
                    assert(false);
                }
                unreached()
            },
        }
    }
}

/// Replaces the first entry under `key`, or appends a new one: dictionary
/// keys stay unique, insertion order is kept.
pub open spec fn dict_insert(
    entries: Seq<(Seq<char>, PlistItemV)>,
    key: Seq<char>,
    v: PlistItemV,
) -> Seq<(Seq<char>, PlistItemV)>
    decreases entries.len(),
{
    if entries.len() == 0 {
        seq![(key, v)]
    } else if entries[0].0 == key {
        seq![(key, v)] + entries.subrange(1, entries.len() as int)
    } else {
        seq![entries[0]] + dict_insert(entries.subrange(1, entries.len() as int), key, v)
    }
}

/// What decoding one property-list value from event `i` yields: the value
/// and the next event index, or `None` on a decode error.  A `string`
/// leaf's end tag is left for the enclosing dictionary's loop to pass
/// over, exactly as the streaming decoder reads it.
pub open spec fn plist_spec(evs: Seq<EventV>, i: int) -> Option<(PlistItemV, int)>
    decreases evs.len() - i, 1int,
{
    if i < 0 || i >= evs.len() {
        None
    } else {
        match evs[i] {
            EventV::Start { name, .. } => {
                if name == "string"@ {
                    if i + 1 < evs.len() && evs[i + 1] is Text {
                        Some((PlistItemV::String(evs[i + 1]->Text_0), i + 2))
                    } else {
                        None
                    }
                } else if name == "dict"@ {
                    match plist_dict_spec(evs, i + 1, Seq::empty()) {
                        Some((entries, j)) => Some((PlistItemV::Dict(entries), j)),
                        None => None,
                    }
                } else {
                    None
                }
            },
            _ => None,
        }
    }
}

/// What decoding dictionary entries from event `i` yields, given the
/// entries decoded so far: alternating `key` elements and values until the
/// dictionary's own end tag.  Other end tags (the leaves') are passed
/// over; character data between entries is a decode error.
pub open spec fn plist_dict_spec(
    evs: Seq<EventV>,
    i: int,
    acc: Seq<(Seq<char>, PlistItemV)>,
) -> Option<(Seq<(Seq<char>, PlistItemV)>, int)>
    decreases evs.len() - i, 0int,
{
    if i < 0 {
        None
    } else if i >= evs.len() {
        Some((acc, i))
    } else {
        match evs[i] {
            EventV::Start { name, .. } => {
                if name == "key"@ {
                    if i + 1 < evs.len() && evs[i + 1] is Text && i + 3 < evs.len() {
                        let key = evs[i + 1]->Text_0;
                        // the event after the key text (its end tag) is
                        // consumed unexamined
                        match plist_spec(evs, i + 3) {
                            Some((v, j)) => if i + 3 < j <= evs.len() {
                                plist_dict_spec(evs, j, dict_insert(acc, key, v))
                            } else {
                                None
                            },
                            None => None,
                        }
                    } else {
                        None
                    }
                } else {
                    None
                }
            },
            EventV::End { name } => {
                if name == "dict"@ {
                    Some((acc, i + 1))
                } else {
                    plist_dict_spec(evs, i + 1, acc)
                }
            },
            _ => None,
        }
    }
}

/// Inserts into the entry vector as `dict_insert` describes.
fn dict_insert_exec(entries: &mut Vec<PlistEntry>, key: String, v: PlistItem)
    ensures
        entries_view(final(entries)@) == dict_insert(entries_view(old(entries)@), key@, v@),
{
    let ghost pre = entries_view(entries@);
    let ghost keyv = key@;
    let ghost vv = v@;
    let mut k: usize = 0;
    while k < entries.len()
        invariant
            k <= entries.len(),
            pre == entries_view(entries@),
            pre == entries_view(old(entries)@),
            keyv == key@,
            vv == v@,
            forall|x: int| 0 <= x < k ==> (#[trigger] pre[x]).0 != keyv,
        decreases entries.len() - k,
    {
        proof {
            lemma_entries_view_index(entries@);
            assert(pre[k as int] == (entries@[k as int].key@, plist_view(
                entries@[k as int].value,
            )));
        }
        if str_eq(entries[k].key.as_str(), key.as_str()) {
            entries.set(k, PlistEntry { key, value: v });
            proof {
                lemma_dict_insert_at(pre, keyv, vv, k as int);
                lemma_entries_view_index(entries@);
                assert(entries_view(entries@) =~= pre.update(k as int, (keyv, vv)));
            }
            return ;
        }
        k = k + 1;
    }
    proof {
        lemma_entries_view_index(entries@);
    }
    entries.push(PlistEntry { key, value: v });
    proof {
        lemma_dict_insert_missing(pre, keyv, vv);
        lemma_entries_view_index(entries@);
        assert(entries_view(entries@) =~= pre.push((keyv, vv)));
    }
}

proof fn lemma_dict_insert_at(
    entries: Seq<(Seq<char>, PlistItemV)>,
    key: Seq<char>,
    v: PlistItemV,
    k: int,
)
    requires
        0 <= k < entries.len(),
        entries[k].0 == key,
        forall|x: int| 0 <= x < k ==> (#[trigger] entries[x]).0 != key,
    ensures
        dict_insert(entries, key, v) == entries.update(k, (key, v)),
    decreases entries.len(),
{
    if entries[0].0 == key {
        assert(k == 0);
        assert(seq![(key, v)] + entries.subrange(1, entries.len() as int) =~= entries.update(
            0,
            (key, v),
        ));
    } else {
        let rest = entries.subrange(1, entries.len() as int);
        assert(rest[k - 1] == entries[k]);
        assert(forall|x: int| 0 <= x < k - 1 ==> (#[trigger] rest[x]) == entries[x + 1]);
        lemma_dict_insert_at(rest, key, v, k - 1);
        assert(seq![entries[0]] + rest.update(k - 1, (key, v)) =~= entries.update(k, (key, v)));
    }
}

proof fn lemma_dict_insert_missing(
    entries: Seq<(Seq<char>, PlistItemV)>,
    key: Seq<char>,
    v: PlistItemV,
)
    requires
        forall|x: int| 0 <= x < entries.len() ==> (#[trigger] entries[x]).0 != key,
    ensures
        dict_insert(entries, key, v) == entries.push((key, v)),
    decreases entries.len(),
{
    if entries.len() == 0 {
        assert(seq![(key, v)] =~= entries.push((key, v)));
    } else {
        let rest = entries.subrange(1, entries.len() as int);
        assert(forall|x: int| 0 <= x < rest.len() ==> (#[trigger] rest[x]) == entries[x + 1]);
        lemma_dict_insert_missing(rest, key, v);
        assert(seq![entries[0]] + rest.push((key, v)) =~= entries.push((key, v)));
    }
}

/// Decodes one property-list value starting at event `pos`.
pub fn parse_plist(events: &Vec<Event>, pos: usize) -> (r: Result<
    (PlistItem, usize),
    OpenFocusError,
>)
    requires
        pos <= events.len(),
    ensures
        r matches Ok((item, j)) ==> plist_spec(events.deep_view(), pos as int) == Some(
            (item@, j as int),
        ) && pos < j <= events.len(),
        r is Err ==> plist_spec(events.deep_view(), pos as int) is None,
        r matches Err(e) ==> e.kind == OpenFocusErrorType::Parse,
    decreases events.len() - pos, 1int,
{
    let ghost evs = events.deep_view();
    if pos >= events.len() {
        return Err(OpenFocusError::new(OpenFocusErrorType::Parse));
    }
    proof {
        assert(evs[pos as int] == events@[pos as int]@);
    }
    match &events[pos] {
        Event::Start { name, .. } => {
            if str_eq(name.as_str(), "string") {
                let text = get_text_content(events, pos + 1)?;
                Ok((PlistItem::String(text), pos + 2))
            } else if str_eq(name.as_str(), "dict") {
                let entries: Vec<PlistEntry> = Vec::new();
                proof {
                    assert(entries_view(entries@) =~= Seq::<(Seq<char>, PlistItemV)>::empty());
                }
                let (d, j) = parse_plist_dict(events, pos + 1, entries)?;
                Ok((PlistItem::Dict(d), j))
            } else {
                Err(OpenFocusError::new(OpenFocusErrorType::Parse))
            }
        },
        _ => Err(OpenFocusError::new(OpenFocusErrorType::Parse)),
    }
}

/// Decodes dictionary entries starting at event `pos`, extending the
/// entries decoded so far.
pub fn parse_plist_dict(events: &Vec<Event>, pos: usize, acc: Vec<PlistEntry>) -> (r: Result<
    (Vec<PlistEntry>, usize),
    OpenFocusError,
>)
    requires
        pos <= events.len(),
    ensures
        r matches Ok((d, j)) ==> plist_dict_spec(events.deep_view(), pos as int, entries_view(acc@))
            == Some((entries_view(d@), j as int)) && pos <= j <= events.len(),
        r is Err ==> plist_dict_spec(events.deep_view(), pos as int, entries_view(acc@)) is None,
        r matches Err(e) ==> e.kind == OpenFocusErrorType::Parse,
    decreases events.len() - pos, 0int,
{
    let ghost evs = events.deep_view();
    if pos >= events.len() {
        return Ok((acc, pos));
    }
    proof {
        assert(evs[pos as int] == events@[pos as int]@);
    }
    match &events[pos] {
        Event::Start { name, .. } => {
            if str_eq(name.as_str(), "key") {
                let key = get_text_content(events, pos + 1)?;
                if events.len() - pos <= 3 {
                    return Err(OpenFocusError::new(OpenFocusErrorType::Parse));
                }
                let (v, j) = parse_plist(events, pos + 3)?;
                let mut entries = acc;
                dict_insert_exec(&mut entries, key, v);
                parse_plist_dict(events, j, entries)
            } else {
                Err(OpenFocusError::new(OpenFocusErrorType::Parse))
            }
        },
        Event::End { name } => {
            if str_eq(name.as_str(), "dict") {
                Ok((acc, pos + 1))
            } else {
                parse_plist_dict(events, pos + 1, acc)
            }
        },
        _ => Err(OpenFocusError::new(OpenFocusErrorType::Parse)),
    }
}

} // verus!
