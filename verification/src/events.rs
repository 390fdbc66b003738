//! The boundary to the external XML tokenizer. Each input document is turned
//! into a sequence of plain structural events; everything after that point is
//! verified interpretation.
use quick_xml::Reader;
use quick_xml::events::{BytesStart, Event};
use vstd::prelude::*;

verus! {

/// One attribute as the tokenizer reports it: key bytes and the raw, still
/// escaped value bytes.
pub struct RawAttr {
    pub key: Vec<u8>,
    pub value: Vec<u8>,
}

impl View for RawAttr {
    type V = (Seq<u8>, Seq<u8>);

    open spec fn view(&self) -> (Seq<u8>, Seq<u8>) {
        (self.key@, self.value@)
    }
}

/// One structural event of an input document, reduced to plain values.
pub enum RawEvent {
    /// `<name attr="...">`.
    Open(Vec<u8>, Vec<RawAttr>),
    /// `<name attr="..."/>`.
    SelfClosed(Vec<u8>, Vec<RawAttr>),
    /// `</name>`.
    Close(Vec<u8>),
    /// A run of literal character data, holding no references.
    Text(Vec<u8>),
    /// A general reference `&name;`, unresolved; carries the name between
    /// `&` and `;`.
    EntityRef(Vec<u8>),
    /// A declaration, comment, processing instruction, CDATA section or
    /// doctype: nothing the interpreters read.
    Other,
}

/// The mathematical shape of a `RawEvent`.
pub enum EventView {
    Open(Seq<u8>, Seq<(Seq<u8>, Seq<u8>)>),
    SelfClosed(Seq<u8>, Seq<(Seq<u8>, Seq<u8>)>),
    Close(Seq<u8>),
    Text(Seq<u8>),
    EntityRef(Seq<u8>),
    Other,
}

pub open spec fn attrs_view(a: Seq<RawAttr>) -> Seq<(Seq<u8>, Seq<u8>)> {
    Seq::new(a.len(), |i: int| a[i]@)
}

impl View for RawEvent {
    type V = EventView;

    open spec fn view(&self) -> EventView {
        match self {
            RawEvent::Open(n, a) => EventView::Open(n@, attrs_view(a@)),
            RawEvent::SelfClosed(n, a) => EventView::SelfClosed(n@, attrs_view(a@)),
            RawEvent::Close(n) => EventView::Close(n@),
            RawEvent::Text(t) => EventView::Text(t@),
            RawEvent::EntityRef(t) => EventView::EntityRef(t@),
            RawEvent::Other => EventView::Other,
        }
    }
}

/// The events a vector of them holds.
pub open spec fn events_view(evs: Seq<RawEvent>) -> Seq<EventView> {
    Seq::new(evs.len(), |i: int| evs[i]@)
}

#[verifier::external_type_specification]
#[verifier::external_body]
#[verifier::reject_recursive_types(R)]
pub struct ExReader<R>(Reader<R>);

#[verifier::external_type_specification]
#[verifier::external_body]
pub struct ExBytesStart<'a>(BytesStart<'a>);

/// What tokenizing a document yields, a function of the bytes alone: the
/// events this boundary reports, in order, and then either a clean end
/// (`None`) or the message of the error that stops it. An element whose
/// attribute list is malformed counts as such a stop.
pub uninterp spec fn spec_tokens(xml: Seq<u8>) -> (Seq<EventView>, Option<Seq<char>>);

/// What a reader will still report: the events to come, then a clean end or
/// the error that stops it.
pub uninterp spec fn reader_rest(r: Reader<&[u8]>) -> (Seq<EventView>, Option<Seq<char>>);

/// Relies on quick_xml's `Reader::from_reader`: a tokenizer positioned at the
/// start of the given bytes, with the default configuration. Tokenizing a
/// byte slice reads nothing but the slice, so what the reader will report is
/// a function of the bytes alone.
#[verifier::external_body]
fn xml_reader<'a>(xml: &'a [u8]) -> (r: Reader<&'a [u8]>)
    ensures
        reader_rest(r) == spec_tokens(xml@),
{
    Reader::from_reader(xml)
}

/// Relies on quick_xml's `BytesStart::name`: the element name as it stands in
/// the tag.
#[verifier::external_body]
fn tag_name(e: &BytesStart<'_>) -> (r: Vec<u8>) {
    e.name().as_ref().as_bytes().to_vec()
}

/// Relies on quick_xml's `BytesStart::attributes`: each attribute's key and
/// raw value, in document order; a malformed attribute list is an error.
#[verifier::external_body]
fn collect_attrs(e: &BytesStart<'_>) -> (r: Result<Vec<RawAttr>, String>) {
    let mut out = Vec::new();
    for a in e.attributes() {
        let a = a.map_err(|err| format!("{}", err))?;
        out.push(RawAttr { key: a.key.as_ref().as_bytes().to_vec(), value: a.value.as_bytes().to_vec() });
    }
    Ok(out)
}

/// Relies on quick_xml's `BytesStart::name` and `BytesStart::attributes`,
/// through the helpers above: one element tag as plain values.
#[verifier::external_body]
fn element_event(e: &BytesStart<'_>, empty: bool) -> (r: Result<RawEvent, String>) {
    let name = tag_name(e);
    let attrs = collect_attrs(e)?;
    Ok(if empty { RawEvent::SelfClosed(name, attrs) } else { RawEvent::Open(name, attrs) })
}

/// Relies on quick_xml's `Reader::read_event`: the next event of the
/// document, or `None` at its end; a tokenizer or attribute error is a
/// `String`. Reading from a byte slice is deterministic, so each call
/// delivers the head of what the reader still has to report.
#[verifier::external_body]
fn next_event(r: &mut Reader<&[u8]>) -> (ev: Result<Option<RawEvent>, String>)
    ensures
        ({
            let (pending, fail) = reader_rest(*old(r));
            match ev {
                Ok(Some(e)) => pending.len() > 0 && e@ == pending[0] && reader_rest(*final(r))
                    == (pending.drop_first(), fail),
                Ok(None) => pending.len() == 0 && fail is None,
                Err(m) => pending.len() == 0 && fail == Some(m@),
            }
        }),
{
    match r.read_event() {
        Err(e) => Err(format!("{}", e)),
        Ok(ev) => Ok(match ev {
            Event::Start(e) => Some(element_event(&e, false)?),
            Event::Empty(e) => Some(element_event(&e, true)?),
            Event::End(e) => Some(RawEvent::Close(e.name().as_ref().as_bytes().to_vec())),
            Event::Text(e) => Some(RawEvent::Text(e.into_inner().into_owned().into_bytes())),
            Event::GeneralRef(e) => Some(RawEvent::EntityRef(e.into_inner().into_owned().into_bytes())),
            Event::Eof => None,
            _ => Some(RawEvent::Other),
        }),
    }
}

/// What unescaping a raw attribute value yields, a function of the raw bytes
/// alone; `None` where the value cannot be unescaped.
pub uninterp spec fn spec_unescaped(raw: Seq<u8>) -> Option<Seq<u8>>;

/// Relies on quick_xml's `escape::unescape`: resolves character and
/// predefined entity references in an attribute value.
#[verifier::external_body]
pub fn unescape_value(raw: &[u8]) -> (r: Option<Vec<u8>>)
    ensures
        match r {
            Some(v) => spec_unescaped(raw@) == Some(v@),
            None => spec_unescaped(raw@) is None,
        },
{
    let s = core::str::from_utf8(raw).ok()?;
    let u = quick_xml::escape::unescape(s).ok()?;
    Some(u.into_owned().into_bytes())
}

/// What a general reference resolves to, a function of its name alone;
/// `None` for an unknown entity or an invalid character reference.
pub uninterp spec fn spec_entity(name: Seq<u8>) -> Option<Seq<u8>>;

/// Relies on quick_xml's `escape::resolve_predefined_entity` and
/// `BytesRef::resolve_char_ref`: the replacement text of a general reference.
#[verifier::external_body]
pub fn resolve_entity(name: &[u8]) -> (r: Option<Vec<u8>>)
    ensures
        match r {
            Some(v) => spec_entity(name@) == Some(v@),
            None => spec_entity(name@) is None,
        },
{
    let s = core::str::from_utf8(name).ok()?;
    if let Some(t) = quick_xml::escape::resolve_predefined_entity(s) {
        return Some(t.as_bytes().to_vec());
    }
    match quick_xml::events::BytesRef::new(s).resolve_char_ref() {
        Ok(Some(c)) => Some(c.to_string().into_bytes()),
        _ => None,
    }
}

/// Tokenizes a whole document: exactly the events of `spec_tokens`, or the
/// error that stops it.
pub fn collect_events(xml: &[u8]) -> (r: Result<Vec<RawEvent>, String>)
    ensures
        ({
            let (evs, fail) = spec_tokens(xml@);
            match r {
                Ok(v) => fail is None && events_view(v@) == evs,
                Err(m) => fail == Some(m@),
            }
        }),
{
    let mut reader = xml_reader(xml);
    let ghost evs = spec_tokens(xml@).0;
    let ghost fail = spec_tokens(xml@).1;
    let mut out: Vec<RawEvent> = Vec::new();
    proof {
        assert(evs.skip(0) =~= evs);
        assert(events_view(out@) =~= evs.take(0));
    }
    loop
        invariant
            evs == spec_tokens(xml@).0,
            fail == spec_tokens(xml@).1,
            out@.len() <= evs.len(),
            reader_rest(reader) == (evs.skip(out@.len() as int), fail),
            events_view(out@) == evs.take(out@.len() as int),
        decreases evs.len() - out@.len(),
    {
        let ghost done = out@.len() as int;
        match next_event(&mut reader) {
            Ok(Some(ev)) => {
                proof {
                    assert(evs.skip(done)[0] == evs[done]);
                    assert(evs.skip(done).drop_first() =~= evs.skip(done + 1));
                }
                out.push(ev);
                proof {
                    assert(events_view(out@) =~= evs.take(done + 1));
                }
            },
            Ok(None) => {
                proof {
                    assert(evs.skip(done).len() == 0);
                    assert(events_view(out@) =~= evs);
                }
                return Ok(out);
            },
            Err(m) => {
                return Err(m);
            },
        }
    }
}

} // verus!
