//! The event stream that the XML-based parsers of this library consume.
//! Tokenising the XML itself is left to an outside pull parser behind one
//! trusted wrapper; every interpretation of the events is verified code.

use quick_xml::events::Event;
use vstd::prelude::*;

verus! {

/// Opening tag: the payload is the tag name.
pub const XML_START: u8 = 0;

/// Closing tag: the payload is the tag name.
pub const XML_END: u8 = 1;

/// Self-closing (empty) tag: the payload is the tag name.
pub const XML_EMPTY: u8 = 2;

/// Character data between tags, whitespace-trimmed: the payload is the text.
pub const XML_TEXT: u8 = 3;

/// The event stream that `quick_xml` produces for a document: a function of
/// the text alone.  Each element is an event kind (one of the `XML_*` codes)
/// and its payload.
pub uninterp spec fn xml_events_of(s: Seq<char>) -> Seq<(u8, Seq<char>)>;

pub open spec fn events_view(v: Seq<(u8, String)>) -> Seq<(u8, Seq<char>)> {
    v.map_values(|p: (u8, String)| (p.0, p.1@))
}

/// Relies on `quick_xml::Reader` (`from_str`, `trim_text`, `read_event`): it
/// tokenises the document into start, end, empty and trimmed text events,
/// raw (unescaped) text payloads, stopping at the end of input or at the
/// first malformed construct.
#[verifier::external_body]
pub(crate) fn xml_events(text: &str) -> (r: Vec<(u8, String)>)
    ensures
        events_view(r@) == xml_events_of(text@),
{
    let mut reader = quick_xml::Reader::from_str(text);
    reader.trim_text(true);
    let mut out = Vec::new();
    loop {
        let (kind, payload) = match reader.read_event() {
            Ok(Event::Start(e)) => (XML_START, e.name().as_ref().to_vec()),
            Ok(Event::End(e)) => (XML_END, e.name().as_ref().to_vec()),
            Ok(Event::Empty(e)) => (XML_EMPTY, e.name().as_ref().to_vec()),
            Ok(Event::Text(e)) => (XML_TEXT, e.to_vec()),
            Ok(Event::Eof) | Err(_) => break,
            Ok(_) => continue,
        };
        out.push((kind, String::from_utf8_lossy(&payload).into_owned()));
    }
    out
}

} // verus!
