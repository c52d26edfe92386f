//! XML events of a WebDAV response, read with quick-xml, as plain values.

use crate::text::chars_of;
use vstd::string::StrSliceExecFns;
use quick_xml::events::{BytesStart, Event};
use quick_xml::Reader;
use vstd::prelude::*;

verus! {

broadcast use vstd::string::group_string_axioms;

/// quick-xml's pull reader; opaque here.
#[verifier::external_type_specification]
#[verifier::external_body]
#[verifier::reject_recursive_types(R)]
pub struct ExXmlReader<R>(Reader<R>);

/// An attribute of an element, raw (not unescaped) as in the document.
#[derive(Clone, Debug)]
pub struct XmlAttribute {
    pub key: Vec<u8>,
    pub value: Vec<u8>,
}

/// A start or empty-element tag: its qualified name and its attributes
/// (`None` where quick-xml could not read one).
#[derive(Clone, Debug)]
pub struct XmlTag {
    pub name: Vec<u8>,
    pub attributes: Vec<Option<XmlAttribute>>,
}

/// One event of an XML document, as the response parsers use it.
#[derive(Clone, Debug)]
pub enum XmlEvent {
    /// `<name ...>`
    Start(XmlTag),
    /// `<name .../>`
    Empty(XmlTag),
    /// `</name>`
    End(Vec<u8>),
    /// Character data, unescaped.
    Text(String),
    /// Character data that could not be unescaped, with quick-xml's message.
    TextError(String),
    /// End of the document.
    Eof,
    /// A syntax error, with quick-xml's message.
    Error(String),
    /// Comments, declarations, processing instructions, CDATA, doctype.
    Other,
    /// More events than the document has characters, which a reader that
    /// consumes input with every event never gives.
    Overrun,
}

/// The event ends the document: end of input, a syntax error, or an overrun.
pub open spec fn is_final(e: XmlEvent) -> bool {
    e is Eof || e is Error || e is Overrun
}

/// A complete event stream: at least one event, the last one final and no
/// other one final.
pub open spec fn is_stream(evs: Seq<XmlEvent>) -> bool {
    &&& evs.len() >= 1
    &&& is_final(evs.last())
    &&& forall|i: int| 0 <= i < evs.len() - 1 ==> !is_final(#[trigger] evs[i])
}

/// quick-xml's `Reader::from_str`; nothing is claimed of the reader.
#[verifier::external_body]
fn reader_from_str<'a>(xml: &'a str) -> Reader<&'a [u8]> {
    Reader::from_str(xml)
}

/// quick-xml's `config_mut().trim_text(true)`: surrounding whitespace of
/// character data is dropped and whitespace-only data produces no event.
#[verifier::external_body]
fn trim_text(reader: &mut Reader<&[u8]>) {
    reader.config_mut().trim_text(true);
}

/// The event, counting from 0, that quick-xml's reader, made with
/// `Reader::from_str` on `doc` and set to trim text, gives on its `k`-th
/// `read_event_into`, as an `XmlEvent` (see `next_event`).
pub uninterp spec fn xml_event_at(doc: Seq<char>, k: nat) -> XmlEvent;

/// A reading position in a document: quick-xml's reader over `doc`, set to
/// trim text, which has given `read` events; and its event buffer.
pub struct XmlCursor<'a> {
    reader: Reader<&'a [u8]>,
    buf: Vec<u8>,
    doc: &'a str,
    read: usize,
}

impl<'a> View for XmlCursor<'a> {
    type V = (Seq<char>, nat);

    /// The document and the number of events read from it.
    closed spec fn view(&self) -> (Seq<char>, nat) {
        (self.doc@, self.read as nat)
    }
}

/// A cursor at the start of `xml`.
fn open_cursor<'a>(xml: &'a str) -> (c: XmlCursor<'a>)
    ensures
        c@ == (xml@, 0nat),
{
    let mut reader = reader_from_str(xml);
    trim_text(&mut reader);
    XmlCursor { reader, buf: Vec::new(), doc: xml, read: 0 }
}

/// quick-xml's start or empty-element tag: opaque here.
#[verifier::external_type_specification]
#[verifier::external_body]
pub struct ExBytesStart<'a>(BytesStart<'a>);

/// quick-xml's `BytesStart::name` and `attributes`, copied out as bytes;
/// nothing is claimed of them.
#[verifier::external_body]
fn tag_of(e: &BytesStart) -> XmlTag {
    let attributes = e.attributes().map(|a| a.ok().map(|a| XmlAttribute { key: a.key.as_ref().to_vec(), value: a.value.to_vec() })).collect();
    XmlTag { name: e.name().as_ref().to_vec(), attributes }
}

/// quick-xml's `read_event_into` on the cursor's reader, the event converted
/// to an `XmlEvent` (character data unescaped with `BytesText::unescape`).
/// The contract claims that the event is the one quick-xml gives on that
/// call for that document (`xml_event_at`), which depends on the document
/// and on how many events were read before, and counts the event as read.
#[verifier::external_body]
fn next_event(c: &mut XmlCursor) -> (e: XmlEvent)
    requires
        old(c)@.1 < usize::MAX,
    ensures
        e == xml_event_at(old(c)@.0, old(c)@.1),
        final(c)@ == (old(c)@.0, old(c)@.1 + 1),
{
    c.read += 1;
    c.buf.clear();
    match c.reader.read_event_into(&mut c.buf) {
        Ok(Event::Start(e)) => XmlEvent::Start(tag_of(&e)),
        Ok(Event::Empty(e)) => XmlEvent::Empty(tag_of(&e)),
        Ok(Event::End(e)) => XmlEvent::End(e.name().as_ref().to_vec()),
        Ok(Event::Text(e)) => match e.unescape() {
            Ok(t) => XmlEvent::Text(t.into_owned()),
            Err(err) => XmlEvent::TextError(err.to_string()),
        },
        Ok(Event::Eof) => XmlEvent::Eof,
        Ok(_) => XmlEvent::Other,
        Err(err) => XmlEvent::Error(err.to_string()),
    }
}

/// Whether the event ends the document.
fn event_is_final(e: &XmlEvent) -> (r: bool)
    ensures
        r == is_final(*e),
{
    match e {
        XmlEvent::Eof => true,
        XmlEvent::Error(_) => true,
        XmlEvent::Overrun => true,
        _ => false,
    }
}

/// The events read from `doc` from the `k`-th on: up to and including the
/// first final one; a reader that has not ended the document after one
/// event more than it has characters is taken to have overrun.
pub open spec fn xml_stream_from(doc: Seq<char>, k: nat) -> Seq<XmlEvent>
    decreases doc.len() + 1 - k,
{
    if k > doc.len() || k >= usize::MAX {
        seq![XmlEvent::Overrun]
    } else if is_final(xml_event_at(doc, k)) {
        seq![xml_event_at(doc, k)]
    } else {
        seq![xml_event_at(doc, k)] + xml_stream_from(doc, k + 1)
    }
}

/// The events quick-xml reads from a document.
pub open spec fn xml_stream(doc: Seq<char>) -> Seq<XmlEvent> {
    xml_stream_from(doc, 0)
}

/// The events read from a position on form a complete stream.
pub proof fn lemma_stream_from(doc: Seq<char>, k: nat)
    ensures
        is_stream(xml_stream_from(doc, k)),
    decreases doc.len() + 1 - k,
{
    let s = xml_stream_from(doc, k);
    if !(k > doc.len() || k >= usize::MAX) && !is_final(xml_event_at(doc, k)) {
        lemma_stream_from(doc, k + 1);
        let t = xml_stream_from(doc, k + 1);
        assert(s == seq![xml_event_at(doc, k)] + t);
        assert(s.last() == t.last());
        assert forall|i: int| 0 <= i < s.len() - 1 implies !is_final(#[trigger] s[i]) by {
            if i > 0 {
                assert(s[i] == t[i - 1]);
            }
        }
    }
}

/// The events of an XML document, with surrounding whitespace of character
/// data trimmed, up to and including the end of input or the first syntax
/// error (see `xml_stream`).
pub fn read_xml_events(xml: &str) -> (evs: Vec<XmlEvent>)
    ensures
        evs@ == xml_stream(xml@),
        is_stream(evs@),
{
    proof {
        lemma_stream_from(xml@, 0);
    }
    let mut cursor = open_cursor(xml);
    let limit = xml.unicode_len();
    let mut evs: Vec<XmlEvent> = Vec::new();
    let mut k: usize = 0;
    loop
        invariant
            cursor@ == (xml@, k as nat),
            limit == xml@.len(),
            k <= limit + 1,
            evs@ + xml_stream_from(xml@, k as nat) == xml_stream(xml@),
            is_stream(xml_stream(xml@)),
        decreases limit + 1 - k,
    {
        if k > limit || k == usize::MAX {
            evs.push(XmlEvent::Overrun);
            assert(evs@ =~= xml_stream(xml@));
            return evs;
        }
        let ghost before = evs@;
        let e = next_event(&mut cursor);
        let fin = event_is_final(&e);
        evs.push(e);
        if fin {
            assert(evs@ =~= xml_stream(xml@));
            return evs;
        }
        assert(xml_stream_from(xml@, k as nat) == seq![e] + xml_stream_from(xml@, (k + 1) as nat));
        assert(evs@ + xml_stream_from(xml@, (k + 1) as nat) =~= before + xml_stream_from(xml@, k as nat));
        k = k + 1;
    }
}

/// The bytes spell the ASCII text `lit`.
pub open spec fn bytes_is(n: Seq<u8>, lit: Seq<char>) -> bool {
    n.len() == lit.len() && forall|i: int| 0 <= i < n.len() ==> n[i] as u32 == lit[i] as u32
}

/// Whether the bytes spell `lit`.
pub fn name_is(n: &[u8], lit: &str) -> (r: bool)
    ensures
        r == bytes_is(n@, lit@),
{
    let l = chars_of(lit);
    if n.len() != l.len() {
        return false;
    }
    let mut i: usize = 0;
    while i < n.len()
        invariant
            n.len() == l.len(),
            l@ == lit@,
            i <= n.len(),
            forall|j: int| 0 <= j < i ==> n@[j] as u32 == l@[j] as u32,
        decreases n.len() - i,
    {
        if (n[i] as u32) != (l[i] as u32) {
            return false;
        }
        i = i + 1;
    }
    true
}

/// The attribute list holds `name="UID"`.
pub open spec fn has_uid_name(attrs: Seq<Option<XmlAttribute>>) -> bool {
    exists|i: int|
        0 <= i < attrs.len() && (#[trigger] attrs[i] matches Some(a) && bytes_is(a.key@, "name"@)
            && bytes_is(a.value@, "UID"@))
}

/// Whether the attribute list holds `name="UID"`.
pub fn tag_has_uid_name(attrs: &Vec<Option<XmlAttribute>>) -> (r: bool)
    ensures
        r == has_uid_name(attrs@),
{
    let mut i: usize = 0;
    while i < attrs.len()
        invariant
            i <= attrs.len(),
            forall|j: int|
                0 <= j < i ==> !(#[trigger] attrs@[j] matches Some(a) && bytes_is(a.key@, "name"@)
                    && bytes_is(a.value@, "UID"@)),
        decreases attrs.len() - i,
    {
        match &attrs[i] {
            Some(a) => {
                if name_is(a.key.as_slice(), "name") && name_is(a.value.as_slice(), "UID") {
                    return true;
                }
            },
            None => {},
        }
        i = i + 1;
    }
    false
}

} // verus!
