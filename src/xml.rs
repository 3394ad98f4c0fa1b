use vstd::prelude::*;
use crate::text::chars_of;
use vstd::string::StringExecFns;
use quick_xml::events::{BytesStart, Event};
use quick_xml::reader::Reader;

verus! {

#[verifier::external_type_specification]
#[verifier::external_body]
pub struct ExBytesStart<'a>(BytesStart<'a>);

/// An element tag: its local name and its attributes (full key, raw value) in order.
pub struct XmlTag {
    pub name: String,
    pub attrs: Vec<(String, String)>,
}

/// One event of an XML document, as the parsers of this crate consume it.
pub enum XmlEvent {
    Start(XmlTag),
    Empty(XmlTag),
    End(String),
    Text(String),
    Other,
}

/// An event as plain values: tags carry their local name and attributes.
pub enum EventView {
    Start(Seq<char>, Seq<(Seq<char>, Seq<char>)>),
    Empty(Seq<char>, Seq<(Seq<char>, Seq<char>)>),
    End(Seq<char>),
    Text(Seq<char>),
    Other,
}

pub open spec fn attrs_view(a: Seq<(String, String)>) -> Seq<(Seq<char>, Seq<char>)> {
    a.map_values(|p: (String, String)| (p.0@, p.1@))
}

pub open spec fn event_view(e: XmlEvent) -> EventView {
    match e {
        XmlEvent::Start(t) => EventView::Start(t.name@, attrs_view(t.attrs@)),
        XmlEvent::Empty(t) => EventView::Empty(t.name@, attrs_view(t.attrs@)),
        XmlEvent::End(n) => EventView::End(n@),
        XmlEvent::Text(x) => EventView::Text(x@),
        XmlEvent::Other => EventView::Other,
    }
}

pub open spec fn events_view(v: Seq<XmlEvent>) -> Seq<EventView> {
    v.map_values(|e: XmlEvent| event_view(e))
}

/// The events of an XML document up to its end (whitespace around text trimmed, text
/// unescaped), or none when the document does not parse.
pub uninterp spec fn xml_events(s: Seq<char>) -> Option<Seq<EventView>>;

/// Relies on `BytesStart::local_name` and `BytesStart::attributes`: the tag's local
/// name and its well-formed attributes, decoded lossily.
#[verifier::external_body]
fn tag_of(e: &BytesStart) -> XmlTag {
    let attrs = e.attributes().flatten().map(
        |a| (String::from_utf8_lossy(a.key.as_ref()).to_string(),
            String::from_utf8_lossy(&a.value).to_string()),
    ).collect();
    XmlTag { name: String::from_utf8_lossy(e.local_name().as_ref()).to_string(), attrs }
}

/// Relies on `quick_xml::Reader::from_str` (with `trim_text`) and `Reader::read_event`:
/// every event of the document up to its end, or the parser's first error. The events
/// depend on the text alone.
#[verifier::external_body]
pub(crate) fn read_events(xml: &str) -> (r: Result<Vec<XmlEvent>, String>)
    ensures
        r is Ok <==> xml_events(xml@) is Some,
        r matches Ok(v) ==> xml_events(xml@) == Some(events_view(v@)),
{
    let mut rd = Reader::from_str(xml);
    rd.config_mut().trim_text(true);
    let mut out = Vec::new();
    loop {
        out.push(match rd.read_event().map_err(|e| e.to_string())? {
            Event::Start(e) => XmlEvent::Start(tag_of(&e)),
            Event::Empty(e) => XmlEvent::Empty(tag_of(&e)),
            Event::End(e) => XmlEvent::End(String::from_utf8_lossy(e.local_name().as_ref()).into()),
            Event::Text(t) => XmlEvent::Text(t.unescape().unwrap_or_default().into()),
            Event::Eof => return Ok(out),
            _ => XmlEvent::Other,
        });
    }
}

/// Whether two texts hold the same characters.
pub fn same_text(a: &str, b: &str) -> (r: bool)
    ensures
        r == (a@ == b@),
{
    let x = chars_of(a);
    let y = chars_of(b);
    if x.len() != y.len() {
        return false;
    }
    let mut i: usize = 0;
    while i < x.len()
        invariant
            i <= x@.len() == y@.len(),
            x@ == a@,
            y@ == b@,
            x@.take(i as int) == y@.take(i as int),
        decreases x.len() - i,
    {
        if x[i] != y[i] {
            assert(x@[i as int] != y@[i as int]);
            return false;
        }
        assert(x@.take(i + 1) =~= x@.take(i as int).push(x@[i as int]));
        assert(y@.take(i + 1) =~= y@.take(i as int).push(y@[i as int]));
        i = i + 1;
    }
    assert(x@.take(i as int) =~= x@);
    assert(y@.take(i as int) =~= y@);
    true
}

/// The value of the first attribute whose key is `key`.
pub open spec fn attr_of(attrs: Seq<(Seq<char>, Seq<char>)>, key: Seq<char>) -> Option<Seq<char>>
    decreases attrs.len(),
{
    if attrs.len() == 0 {
        None
    } else if attrs[0].0 == key {
        Some(attrs[0].1)
    } else {
        attr_of(attrs.drop_first(), key)
    }
}

/// Looks up an attribute of a tag by its full key.
pub fn find_attr(tag: &XmlTag, key: &str) -> (r: Option<String>)
    ensures
        r matches Some(v) ==> attr_of(attrs_view(tag.attrs@), key@) == Some(v@),
        r is None ==> attr_of(attrs_view(tag.attrs@), key@) is None,
{
    let ghost av = attrs_view(tag.attrs@);
    let mut i: usize = 0;
    assert(av.skip(0) =~= av);
    while i < tag.attrs.len()
        invariant
            i <= tag.attrs@.len(),
            av == attrs_view(tag.attrs@),
            attr_of(av.skip(i as int), key@) == attr_of(av, key@),
        decreases tag.attrs.len() - i,
    {
        assert(av.skip(i as int).drop_first() =~= av.skip(i + 1));
        assert(av.skip(i as int)[0] == (tag.attrs@[i as int].0@, tag.attrs@[i as int].1@));
        if same_text(tag.attrs[i].0.as_str(), key) {
            return Some(tag.attrs[i].1.clone());
        }
        i = i + 1;
    }
    None
}

/// The attributes of an opening or self-closing element named `name`.
pub open spec fn opened(e: EventView, name: Seq<char>) -> Option<Seq<(Seq<char>, Seq<char>)>> {
    match e {
        EventView::Start(n, a) => if n == name { Some(a) } else { None },
        EventView::Empty(n, a) => if n == name { Some(a) } else { None },
        _ => None,
    }
}

/// The tag of `e` when it opens (or opens and closes) an element named `name`.
pub fn opened_tag<'a>(e: &'a XmlEvent, name: &str) -> (r: Option<&'a XmlTag>)
    ensures
        r matches Some(t) ==> opened(event_view(*e), name@) == Some(attrs_view(t.attrs@)),
        r is None ==> opened(event_view(*e), name@) is None,
{
    match e {
        XmlEvent::Start(t) | XmlEvent::Empty(t) => {
            if same_text(t.name.as_str(), name) {
                Some(t)
            } else {
                None
            }
        },
        _ => None,
    }
}

} // verus!
