//! The boundary to the `xml` crate: rendering an event stream to document
//! bytes and tokenizing document bytes back into events.  Both directions
//! are deterministic functions of their input, named here so contracts can
//! speak of them; what the names denote is fixed by the `xml` crate.

use vstd::prelude::*;
use crate::events::{Event, EventV};

verus! {

/// The event stream that the `xml` crate reads off a document, with
/// anything but start tags, end tags and character data mapped to
/// `EventV::Other`; `None` where the bytes are not well-formed XML.
pub uninterp spec fn xml_events_of(bytes: Seq<u8>) -> Option<Seq<EventV>>;

/// The document bytes that the `xml` crate writes for an event stream;
/// `None` where the writer rejects an event.  The writer does not reject
/// every malformed stream: one that merely ends early still yields bytes.
pub uninterp spec fn xml_render(events: Seq<EventV>) -> Option<Seq<u8>>;

/// Relies on `xml::reader::EventReader`: tokenizes an XML document into a
/// stream of events, a function of the bytes alone.  Start and end tags and
/// character data are kept (tag and attribute names reduced to their local
/// part); every other event kind is opaque to the codec.
#[verifier::external_body]
pub fn read_xml_events(bytes: &[u8]) -> (r: Option<Vec<Event>>)
    ensures
        r matches Some(v) ==> xml_events_of(bytes@) == Some(v.deep_view()),
        r is None ==> xml_events_of(bytes@) is None,
{
    let mut out: Vec<Event> = Vec::new();
    for e in xml::reader::EventReader::new(bytes) {
        match e {
            Ok(xml::reader::XmlEvent::StartElement { name, attributes, .. }) => {
                let attrs = attributes.into_iter().map(|a| (a.name.local_name, a.value)).collect();
                out.push(Event::Start { name: name.local_name, attrs });
            },
            Ok(xml::reader::XmlEvent::EndElement { name }) => out.push(Event::End { name: name.local_name }),
            Ok(xml::reader::XmlEvent::Characters(t)) => out.push(Event::Text(t)),
            Ok(_) => out.push(Event::Other),
            Err(_) => return None,
        }
    }
    Some(out)
}

/// Relies on `xml::writer::EventWriter`: writes an event stream as an XML
/// document (with its declaration), a function of the events alone.
#[verifier::external_body]
pub fn write_xml_events(events: &Vec<Event>) -> (r: Option<Vec<u8>>)
    ensures
        r matches Some(b) ==> xml_render(events.deep_view()) == Some(b@),
        r is None ==> xml_render(events.deep_view()) is None,
{
    let mut w = xml::writer::EventWriter::new(Vec::new());
    for e in events.iter() {
        let res = match e {
            Event::Start { name, attrs } => {
                let mut b = xml::writer::XmlEvent::start_element(name.as_str());
                for (k, v) in attrs.iter() { b = b.attr(k.as_str(), v.as_str()); }
                w.write(b)
            },
            Event::End { name: _ } => w.write(xml::writer::XmlEvent::end_element()),
            Event::Text(t) => w.write(xml::writer::XmlEvent::characters(t.as_str())),
            Event::Other => Ok(()),
        };
        if res.is_err() { return None; }
    }
    Some(w.into_inner())
}

} // verus!
