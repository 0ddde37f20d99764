//! The XML events of a Confluence Storage Format fragment, read with
//! `quick_xml` and handed to the parser as plain values.
use vstd::prelude::*;

use quick_xml::escape::resolve_predefined_entity;
use quick_xml::events::{BytesRef, BytesStart, Event};
use quick_xml::name::QName;
use quick_xml::{Reader, XmlVersion};

verus! {

/// A start or empty-element tag: its name and its attributes in order, each
/// with its normalized value (`None` when normalization failed).
#[derive(Debug, PartialEq, Eq)]
pub struct XmlTag {
    pub name: String,
    pub attrs: Vec<(String, Option<String>)>,
}

/// One event of the XML reader.
#[derive(Debug, PartialEq, Eq)]
pub enum XmlEvent {
    Start(XmlTag),
    Empty(XmlTag),
    /// An end tag and its name.
    End(String),
    /// Character data between markup, as written.
    Text(String),
    /// A general or character reference: what stands between `&` and `;`.
    GeneralRef(String),
    CData(String),
    /// A comment, processing instruction, declaration or doctype.
    Other,
    Eof,
    /// The reader reported an error.
    Error,
}

#[verifier::external_type_specification]
#[verifier::external_body]
#[verifier::reject_recursive_types(R)]
pub struct ExReader<R>(Reader<R>);

#[verifier::external_type_specification]
#[verifier::external_body]
pub struct ExBytesStart<'a>(BytesStart<'a>);

/// The event that the `k`-th call (counting from 0) of `Reader::read_event`
/// returns on a reader made by `Reader::from_str(src)`, copied into plain
/// values.
pub uninterp spec fn xml_event(src: Seq<char>, k: nat) -> XmlEvent;

/// `Reader::buffer_position` of that reader after `k` calls of `read_event`:
/// the byte offset in `src` up to which it has read.
pub uninterp spec fn xml_offset(src: Seq<char>, k: nat) -> u64;

/// `Reader::read_to_end(QName(name))` on that reader after `k` calls of
/// `read_event`: whether the end tag closing the element named `name` was
/// found (`Ok`), and after how many `read_event` calls in all the reader then
/// stands. (`read_to_end` reads event by event with the reader's own
/// `read_event` until that end tag, an error or the end of the input.)
pub uninterp spec fn xml_read_to_end(src: Seq<char>, k: nat, name: Seq<char>) -> (bool, nat);

/// `BytesRef::resolve_char_ref` on a reference named `name`, with its error
/// taken as `None`.
pub uninterp spec fn char_ref(name: Seq<char>) -> Option<Option<char>>;

/// A `quick_xml` reader over `src`, with the number of events read from it.
pub struct XmlReader<'a> {
    reader: Reader<&'a [u8]>,
    src: Ghost<Seq<char>>,
    reads: Ghost<nat>,
}

impl<'a> XmlReader<'a> {
    /// The text the reader reads.
    pub closed spec fn source(&self) -> Seq<char> {
        self.src@
    }

    /// How many events have been read.
    pub closed spec fn reads(&self) -> nat {
        self.reads@
    }

    /// A reader at the start of `src`.
    pub fn new(src: &'a str) -> (r: XmlReader<'a>)
        ensures
            r.source() == src@,
            r.reads() == 0,
    {
        XmlReader { reader: reader_from_str(src), src: Ghost(src@), reads: Ghost(0) }
    }
}

/// `Reader::from_str`: a reader with the default configuration.
#[verifier::external_body]
fn reader_from_str(src: &str) -> Reader<&[u8]> {
    Reader::from_str(src)
}

/// `Reader::read_event`: the next event, copied into plain values. The
/// contract says that it is the event numbered by how many were read before,
/// and counts this one.
#[verifier::external_body]
pub(crate) fn read_event(r: &mut XmlReader) -> (e: XmlEvent)
    ensures
        e == xml_event(old(r).source(), old(r).reads()),
        final(r).source() == old(r).source(),
        final(r).reads() == old(r).reads() + 1,
{
    match r.reader.read_event() {
        Ok(Event::Start(e)) => XmlEvent::Start(xml_tag(&e)),
        Ok(Event::Empty(e)) => XmlEvent::Empty(xml_tag(&e)),
        Ok(Event::End(e)) => XmlEvent::End(e.name().as_ref().to_string()),
        Ok(Event::Text(e)) => XmlEvent::Text(e.into_inner().into_owned()),
        Ok(Event::GeneralRef(e)) => XmlEvent::GeneralRef(e.into_inner().into_owned()),
        Ok(Event::CData(e)) => XmlEvent::CData(e.into_inner().into_owned()),
        Ok(Event::Eof) => XmlEvent::Eof,
        Ok(_) => XmlEvent::Other,
        Err(_) => XmlEvent::Error,
    }
}

/// `Reader::read_to_end`: skips to the end tag that closes the element named
/// `name` that was just opened. The contract says that the reader then
/// stands where the named number of `read_event` calls leaves it, and whether
/// the end tag was found.
#[verifier::external_body]
pub(crate) fn read_to_end(r: &mut XmlReader, name: &str) -> (found: bool)
    ensures
        final(r).source() == old(r).source(),
        (found, final(r).reads()) == xml_read_to_end(old(r).source(), old(r).reads(), name@),
{
    r.reader.read_to_end(QName(name)).is_ok()
}

/// Copies a tag: its name, and each attribute that parses with its value
/// normalized as XML 1.0 (`Attribute::normalized_value`).
#[verifier::external_body]
fn xml_tag(e: &BytesStart) -> XmlTag {
    let attrs = e.attributes().flatten().map(|a| (
        a.key.as_ref().to_string(),
        a.normalized_value(XmlVersion::Implicit1_0).ok().map(|v| v.into_owned()),
    ));
    XmlTag { name: e.name().as_ref().to_string(), attrs: attrs.collect() }
}

/// `Reader::buffer_position`: the byte offset up to which the reader has read.
#[verifier::external_body]
pub(crate) fn buffer_position(r: &XmlReader) -> (p: u64)
    ensures
        p == xml_offset(r.source(), r.reads()),
{
    r.reader.buffer_position()
}

/// `BytesRef::resolve_char_ref` on the reference `name`: a character for
/// `#` followed by a decimal or `x` and a hexadecimal number, `Some(None)` for
/// a name that does not start with `#`, `None` for an error.
#[verifier::external_body]
pub(crate) fn resolve_char_ref(name: &str) -> (r: Option<Option<char>>)
    ensures
        r == char_ref(name@),
        (name@.len() == 0 || name@[0] != '#') ==> r == Some(None::<char>),
        (name@.len() > 0 && name@[0] == '#') ==> r != Some(None::<char>),
{
    BytesRef::new(name).resolve_char_ref().ok()
}

/// The five entities that XML predefines.
pub open spec fn xml_entity(name: Seq<char>) -> Option<Seq<char>> {
    if name == "lt"@ {
        Some("<"@)
    } else if name == "gt"@ {
        Some(">"@)
    } else if name == "amp"@ {
        Some("&"@)
    } else if name == "apos"@ {
        Some("'"@)
    } else if name == "quot"@ {
        Some("\""@)
    } else {
        None
    }
}

/// `quick_xml::escape::resolve_predefined_entity`, which without the
/// `escape-html` feature resolves exactly the five predefined XML entities.
#[verifier::external_body]
pub(crate) fn predefined_entity(name: &str) -> (r: Option<&'static str>)
    ensures
        match r {
            Some(s) => xml_entity(name@) == Some(s@),
            None => xml_entity(name@) is None,
        },
{
    resolve_predefined_entity(name)
}

} // verus!
