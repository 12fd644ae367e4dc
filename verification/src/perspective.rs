//! Perspective records: partially supported.  Only the added date is
//! decoded; the record's own id is not yet read and a fixed placeholder
//! stands in for it.

use vstd::prelude::*;
use crate::error::{OpenFocusError, OpenFocusErrorType};
use crate::events::{Event, EventV, get_text_content, str_eq};
use crate::plist::{plist_spec, parse_plist};
use crate::time::{Timestamp, parse_ts_spec};
use crate::util::ID;

verus! {

/// One perspective record.
#[derive(Debug, Clone, PartialEq, Eq)]
pub struct Perspective {
    pub id: ID,
    pub added: Timestamp,
}

/// What decoding a perspective from event `i` yields, given the added date
/// seen so far: the added date and the next event index.  An embedded
/// property list is decoded and discarded; the record ends at its end tag
/// (or with the events), and must have carried an added date by then.
pub open spec fn perspective_spec(evs: Seq<EventV>, i: int, added: Option<Timestamp>) -> Option<
    (Timestamp, int),
>
    decreases evs.len() - i,
{
    if i < 0 {
        None
    } else if i >= evs.len() {
        match added {
            Some(t) => Some((t, i)),
            None => None,
        }
    } else {
        match evs[i] {
            EventV::Start { name, .. } => {
                if name == "added"@ {
                    if i + 1 < evs.len() && evs[i + 1] is Text {
                        match parse_ts_spec(evs[i + 1]->Text_0) {
                            Some(t) => perspective_spec(evs, i + 2, Some(t)),
                            None => None,
                        }
                    } else {
                        None
                    }
                } else if name == "plist"@ {
                    // the plist value itself begins at the next event
                    match plist_spec(evs, i + 1) {
                        Some((_v, j)) => if i < j <= evs.len() {
                            perspective_spec(evs, j, added)
                        } else {
                            None
                        },
                        None => None,
                    }
                } else {
                    perspective_spec(evs, i + 1, added)
                }
            },
            EventV::End { name } => {
                if name == "perspective"@ {
                    match added {
                        Some(t) => Some((t, i + 1)),
                        None => None,
                    }
                } else {
                    perspective_spec(evs, i + 1, added)
                }
            },
            _ => perspective_spec(evs, i + 1, added),
        }
    }
}

/// Decodes one perspective record from inside its opening tag.  The id is
/// not yet decoded; a fixed placeholder stands in for it.
pub fn parse_perspective(events: &Vec<Event>, pos: usize) -> (r: Result<
    (Perspective, usize),
    OpenFocusError,
>)
    requires
        pos <= events.len(),
    ensures
        r matches Ok((p, j)) ==> perspective_spec(events.deep_view(), pos as int, None) == Some(
            (p.added, j as int),
        ) && pos <= j <= events.len(),
        r is Err ==> perspective_spec(events.deep_view(), pos as int, None) is None,
        r matches Err(e) ==> e.kind == OpenFocusErrorType::Parse,
{
    let ghost evs = events.deep_view();
    let mut added: Option<Timestamp> = None;
    let mut i: usize = pos;
    loop
        invariant_except_break
            pos <= i <= events.len(),
            evs == events.deep_view(),
            perspective_spec(evs, pos as int, None) == perspective_spec(evs, i as int, added),
        decreases events.len() - i,
    {
        if i >= events.len() {
            match added {
                Some(t) => {
                    return Ok((Perspective { id: String::from_str("foo"), added: t }, i));
                },
                None => {
                    return Err(OpenFocusError::new(OpenFocusErrorType::Parse));
                },
            }
        }
        proof {
            assert(evs[i as int] == events@[i as int]@);
        }
        match &events[i] {
            Event::Start { name, .. } => {
                if str_eq(name.as_str(), "added") {
                    let text = get_text_content(events, i + 1)?;
                    match crate::time::parse_timestamp(text.as_str()) {
                        Some(t) => {
                            added = Some(t);
                        },
                        None => {
                            return Err(OpenFocusError::new(OpenFocusErrorType::Parse));
                        },
                    }
                    i = i + 2;
                } else if str_eq(name.as_str(), "plist") {
                    let (_v, j) = parse_plist(events, i + 1)?;
                    i = j;
                } else {
                    i = i + 1;
                }
            },
            Event::End { name } => {
                if str_eq(name.as_str(), "perspective") {
                    match added {
                        Some(t) => {
                            return Ok((Perspective { id: String::from_str("foo"), added: t }, i + 1));
                        },
                        None => {
                            return Err(OpenFocusError::new(OpenFocusErrorType::Parse));
                        },
                    }
                }
                i = i + 1;
            },
            _ => {
                i = i + 1;
            },
        }
    }
}

} // verus!
