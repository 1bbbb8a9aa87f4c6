//! Reading XML into a list of events, with `quick_xml`.

use vstd::prelude::*;

use quick_xml::events::attributes::{AttrError, Attribute, Attributes};
use quick_xml::events::{BytesStart, Event};
use quick_xml::Reader;

use crate::error::ParseError;

verus! {

#[verifier::external_type_specification]
#[verifier::external_body]
#[verifier::reject_recursive_types(R)]
pub struct ExReader<R>(Reader<R>);

#[verifier::external_type_specification]
#[verifier::external_body]
pub struct ExBytesStart<'a>(BytesStart<'a>);

#[verifier::external_type_specification]
#[verifier::external_body]
pub struct ExAttributes<'a>(Attributes<'a>);

// `Attributes` iterates over these two, so Verus needs them declared.
#[verifier::external_type_specification]
#[verifier::external_body]
pub struct ExAttribute<'a>(Attribute<'a>);

#[verifier::external_type_specification]
#[verifier::external_body]
pub struct ExAttrError(AttrError);

/// A `quick_xml` reader over a text, with the text and how many events it
/// has read; its view is `(text, events read, whether it trims text)`.
pub struct XmlReader<'a> {
    reader: Reader<&'a [u8]>,
    text: Ghost<Seq<char>>,
    read: Ghost<nat>,
    trimmed: Ghost<bool>,
}

impl<'a> View for XmlReader<'a> {
    type V = (Seq<char>, nat, bool);

    closed spec fn view(&self) -> (Seq<char>, nat, bool) {
        (self.text@, self.read@, self.trimmed@)
    }
}

/// A start tag or an empty element that a reader read; its view is the
/// text and the index of the event.
pub struct XmlStart<'a> {
    tag: BytesStart<'a>,
    at: Ghost<(Seq<char>, nat, bool)>,
}

impl<'a> View for XmlStart<'a> {
    type V = (Seq<char>, nat);

    closed spec fn view(&self) -> (Seq<char>, nat) {
        (self.at@.0, self.at@.1)
    }
}

/// The attributes of a tag as they are read; its view is the text, the
/// index of the tag's event and how many attributes were read.
pub struct XmlAttributes<'a> {
    attributes: Attributes<'a>,
    at: Ghost<(Seq<char>, nat, nat)>,
}

impl<'a> View for XmlAttributes<'a> {
    type V = (Seq<char>, nat, nat);

    closed spec fn view(&self) -> (Seq<char>, nat, nat) {
        self.at@
    }
}

/// The kind of an XML event.
pub enum XmlEventKind {
    Start,
    Empty,
    /// An end tag, with its name
    End(Seq<char>),
    Comment,
    Decl,
    Eof,
    Other,
}

/// An XML event as `quick_xml` reads it.
pub enum RawEvent<'a> {
    Start(XmlStart<'a>),
    Empty(XmlStart<'a>),
    /// An end tag, with its name
    End(String),
    Comment,
    Decl,
    Eof,
    /// Text, CDATA, a processing instruction, a document type or a
    /// reference
    Other,
}

/// The kind of a raw event.
pub open spec fn raw_kind(e: RawEvent) -> XmlEventKind {
    match e {
        RawEvent::Start(_) => XmlEventKind::Start,
        RawEvent::Empty(_) => XmlEventKind::Empty,
        RawEvent::End(n) => XmlEventKind::End(n@),
        RawEvent::Comment => XmlEventKind::Comment,
        RawEvent::Decl => XmlEventKind::Decl,
        RawEvent::Eof => XmlEventKind::Eof,
        RawEvent::Other => XmlEventKind::Other,
    }
}

/// A start tag or an empty element: its name and attributes in order.
#[derive(Debug)]
pub struct XmlTag {
    pub name: String,
    pub attributes: Vec<(String, String)>,
}

/// An XML event, with names and attribute values as text.
#[derive(Debug)]
pub enum XmlEvent {
    Start(XmlTag),
    Empty(XmlTag),
    End(String),
    Comment,
    Decl,
    /// Text, CDATA, a processing instruction, a document type or a
    /// reference
    Other,
}

/// The event at `index` (counting from 0) that a `quick_xml` reader over
/// `text` that trims whitespace around text reads: its kind, or the text
/// of the reader's error.
pub uninterp spec fn event_at(text: Seq<char>, index: nat) -> Result<XmlEventKind, Seq<char>>;

/// The name of the tag of the event at `index` of `text`.
pub uninterp spec fn tag_name_at(text: Seq<char>, index: nat) -> Seq<char>;

/// The attribute at `j` of the tag of the event at `index` of `text`, as
/// `quick_xml`'s iterator over the attributes gives it: the key and the raw
/// value, the text of an error, or `None` past the last one.
pub uninterp spec fn attribute_at(text: Seq<char>, index: nat, j: nat) -> Option<Result<(Seq<char>, Seq<char>), Seq<char>>>;

/// `quick_xml::Reader::from_str`: a reader over `text` that has read
/// nothing yet.
#[verifier::external_body]
fn xml_reader<'a>(text: &'a str) -> (r: XmlReader<'a>)
    ensures
        r@ == (text@, 0nat, false),
{
    XmlReader { reader: Reader::from_str(text), text: Ghost(text@), read: Ghost(0nat), trimmed: Ghost(false) }
}

/// `quick_xml::reader::Config::trim_text(true)`: the reader drops
/// whitespace around text.
#[verifier::external_body]
fn xml_trim_text(reader: &mut XmlReader)
    requires
        old(reader)@.1 == 0,
    ensures
        final(reader)@ == (old(reader)@.0, 0nat, true),
{
    reader.reader.config_mut().trim_text(true);
    reader.trimmed = Ghost(true);
}

/// `quick_xml::Reader::read_event`: the next event, or the reader's error as
/// text. The contract claims that it is the event at the reader's count of
/// the events of its text, and that a tag read keeps where it was read.
#[verifier::external_body]
fn xml_read_event<'a>(reader: &mut XmlReader<'a>) -> (r: Result<RawEvent<'a>, String>)
    requires
        old(reader)@.2,
    ensures
        final(reader)@ == (old(reader)@.0, old(reader)@.1 + 1, true),
        match r {
            Ok(e) => (event_at(old(reader)@.0, old(reader)@.1) matches Ok(k) && k == raw_kind(e))
                && (e matches RawEvent::Start(t) ==> t@ == (old(reader)@.0, old(reader)@.1))
                && (e matches RawEvent::Empty(t) ==> t@ == (old(reader)@.0, old(reader)@.1)),
            Err(m) => event_at(old(reader)@.0, old(reader)@.1) matches Err(x) && x == m@,
        },
{
    let at = Ghost(reader@);
    reader.read = Ghost(reader.read@ + 1);
    match reader.reader.read_event() {
        Ok(Event::Start(e)) => Ok(RawEvent::Start(XmlStart { tag: e, at })),
        Ok(Event::Empty(e)) => Ok(RawEvent::Empty(XmlStart { tag: e, at })),
        Ok(Event::End(e)) => Ok(RawEvent::End(e.name().as_ref().to_owned())),
        Ok(Event::Comment(_)) => Ok(RawEvent::Comment),
        Ok(Event::Decl(_)) => Ok(RawEvent::Decl),
        Ok(Event::Eof) => Ok(RawEvent::Eof),
        Ok(_) => Ok(RawEvent::Other),
        Err(e) => Err(format!("{e}")),
    }
}

/// `quick_xml::events::BytesStart::name`: the tag's name.
#[verifier::external_body]
fn xml_tag_name(tag: &XmlStart) -> (r: String)
    ensures
        r@ == tag_name_at(tag@.0, tag@.1),
{
    tag.tag.name().as_ref().to_owned()
}

/// `quick_xml::events::BytesStart::attributes`: an iterator over the tag's
/// attributes, none read yet.
#[verifier::external_body]
fn xml_attributes<'a>(tag: &'a XmlStart) -> (r: XmlAttributes<'a>)
    ensures
        r@ == (tag@.0, tag@.1, 0nat),
{
    XmlAttributes { attributes: tag.tag.attributes(), at: Ghost((tag.at@.0, tag.at@.1, 0nat)) }
}

/// `Iterator::next` on `quick_xml`'s attributes: the next attribute's key
/// and raw value, or the error as text.
#[verifier::external_body]
fn xml_next_attribute(attributes: &mut XmlAttributes) -> (r: Option<Result<(String, String), String>>)
    ensures
        final(attributes)@ == (old(attributes)@.0, old(attributes)@.1, old(attributes)@.2 + 1),
        match r {
            None => attribute_at(old(attributes)@.0, old(attributes)@.1, old(attributes)@.2) is None,
            Some(Ok(kv)) => attribute_at(old(attributes)@.0, old(attributes)@.1, old(attributes)@.2)
                matches Some(Ok(x)) && x.0 == kv.0@ && x.1 == kv.1@,
            Some(Err(m)) => attribute_at(old(attributes)@.0, old(attributes)@.1, old(attributes)@.2)
                matches Some(Err(x)) && x == m@,
        },
{
    let r = match attributes.attributes.next() {
        None => None,
        Some(Ok(a)) => Some(Ok((a.key.as_ref().to_owned(), a.value.into_owned()))),
        Some(Err(e)) => Some(Err(format!("{e}"))),
    };
    attributes.at = Ghost((attributes.at@.0, attributes.at@.1, attributes.at@.2 + 1));
    r
}

/// Whether the first `n` attributes of the tag of event `i` of `text` read
/// without error and there are no more.
pub open spec fn attributes_end(text: Seq<char>, i: nat, n: nat) -> bool {
    &&& forall|j: nat| j < n ==> (#[trigger] attribute_at(text, i, j) matches Some(Ok(_)))
    &&& attribute_at(text, i, n) is None
}

/// Whether `t` is the tag of event `i` of `text`, as read: its name and all
/// its attributes.
pub open spec fn tag_read(t: XmlTag, text: Seq<char>, i: nat) -> bool {
    &&& t.name@ == tag_name_at(text, i)
    &&& attributes_end(text, i, t.attributes@.len())
    &&& forall|j: int| 0 <= j < t.attributes@.len() ==> attribute_at(text, i, j as nat)
        == attribute_read(#[trigger] t.attributes@[j])
}

/// An attribute as the iterator over a tag's attributes gives it.
pub open spec fn attribute_read(a: (String, String)) -> Option<Result<(Seq<char>, Seq<char>), Seq<char>>> {
    Some(Ok((a.0@, a.1@)))
}

/// Reads the attributes of a tag, at most `limit` of them.
fn read_tag(tag: &XmlStart, limit: usize) -> (r: Result<XmlTag, ParseError>)
    ensures
        r matches Ok(t) ==> t.attributes@.len() <= limit && tag_read(t, tag@.0, tag@.1),
        r is Err ==> (r matches Err(ParseError::AttrError(_))) || (r matches Err(ParseError::InternalError(_))),
        r is Err ==> (exists|j: nat| j <= limit && (#[trigger] attribute_at(tag@.0, tag@.1, j) matches Some(Err(_))))
            || (forall|j: nat| j <= limit ==> (#[trigger] attribute_at(tag@.0, tag@.1, j) matches Some(Ok(_)))),
{
    let name = xml_tag_name(tag);
    let mut attrs = xml_attributes(tag);
    let mut attributes: Vec<(String, String)> = Vec::new();
    let mut count: u128 = 0;
    while count <= limit as u128
        invariant
            attributes@.len() == count,
            attrs@ == (tag@.0, tag@.1, count as nat),
            name@ == tag_name_at(tag@.0, tag@.1),
            forall|j: int| 0 <= j < count ==> attribute_at(tag@.0, tag@.1, j as nat)
                == attribute_read(#[trigger] attributes@[j]),
        decreases limit + 1 - count,
    {
        match xml_next_attribute(&mut attrs) {
            None => {
                let t = XmlTag { name, attributes };
                proof {
                    assert forall|j: nat| j < t.attributes@.len() implies (#[trigger] attribute_at(tag@.0, tag@.1, j) matches Some(Ok(_))) by {
                        assert(attribute_at(tag@.0, tag@.1, j as int as nat) == attribute_read(t.attributes@[j as int]));
                    }
                }
                return Ok(t);
            },
            Some(Err(e)) => return Err(ParseError::AttrError(e)),
            Some(Ok(kv)) => {
                attributes.push(kv);
            },
        }
        count = count + 1;
    }
    proof {
        assert forall|j: nat| j <= limit implies (#[trigger] attribute_at(tag@.0, tag@.1, j) matches Some(Ok(_))) by {
            assert(attribute_at(tag@.0, tag@.1, j as int as nat) == attribute_read(attributes@[j as int]));
        }
    }
    Err(ParseError::InternalError(crate::text::to_owned_string("Too many attributes.")))
}

/// How many elements are open after the events `ev`: a start tag opens
/// one, an end tag closes one if one is open. (The count stops at
/// `usize::MAX`.)
pub open spec fn open_after(ev: Seq<XmlEvent>) -> int
    decreases ev.len(),
{
    if ev.len() == 0 {
        0
    } else {
        let d = open_after(ev.drop_last());
        match ev.last() {
            XmlEvent::Start(_) => if d < usize::MAX { d + 1 } else { d },
            XmlEvent::End(_) => if d > 0 { d - 1 } else { d },
            _ => d,
        }
    }
}

/// Whether event `k` of `ev` is the end tag that closes the first element.
pub open spec fn closes_first(ev: Seq<XmlEvent>, k: int) -> bool {
    ev[k] is End && open_after(ev.take(k)) == 1
}

/// Adding an event keeps what the earlier events say.
pub proof fn lemma_push_event(before: Seq<XmlEvent>, x: XmlEvent)
    ensures
        before.push(x).drop_last() == before,
        forall|k: int| 0 <= k < before.len() ==> #[trigger] closes_first(before.push(x), k) == closes_first(before, k),
        before.push(x).len() > before.len() ==> closes_first(before.push(x), before.len() as int)
            == (x is End && open_after(before) == 1),
{
    assert(before.push(x).drop_last() =~= before);
    assert forall|k: int| 0 <= k < before.len() implies #[trigger] closes_first(before.push(x), k) == closes_first(before, k) by {
        assert(before.push(x).take(k) =~= before.take(k));
    }
    assert(before.push(x).take(before.len() as int) =~= before);
}

/// Whether `e` is the event at `i` of `text`, as read.
pub open spec fn event_read(e: XmlEvent, text: Seq<char>, i: nat) -> bool {
    match e {
        XmlEvent::Start(t) => (event_at(text, i) matches Ok(XmlEventKind::Start)) && tag_read(t, text, i),
        XmlEvent::Empty(t) => (event_at(text, i) matches Ok(XmlEventKind::Empty)) && tag_read(t, text, i),
        XmlEvent::End(n) => event_at(text, i) matches Ok(XmlEventKind::End(m)) && m == n@,
        XmlEvent::Comment => event_at(text, i) matches Ok(XmlEventKind::Comment),
        XmlEvent::Decl => event_at(text, i) matches Ok(XmlEventKind::Decl),
        XmlEvent::Other => event_at(text, i) matches Ok(XmlEventKind::Other),
    }
}

/// Whether `ev` are the first events of `text`, as read.
pub open spec fn events_of(text: Seq<char>, ev: Seq<XmlEvent>) -> bool {
    forall|k: int| 0 <= k < ev.len() ==> event_read(#[trigger] ev[k], text, k as nat)
}

/// Whether `ev` are the events of `text` as read, up to the end tag that
/// closes the first element, or up to the end of the input.
pub open spec fn document_events(text: Seq<char>, ev: Seq<XmlEvent>) -> bool {
    &&& ev.len() <= text.len() + 1
    &&& events_of(text, ev)
    &&& forall|k: int| 0 <= k < ev.len() - 1 ==> !#[trigger] closes_first(ev, k)
    &&& ((event_at(text, ev.len()) matches Ok(XmlEventKind::Eof))
        || (ev.len() > 0 && closes_first(ev, ev.len() - 1)))
}

/// Whether the tag of event `k` of `text` has more attributes than `text`
/// has characters.
pub open spec fn too_many_attributes(text: Seq<char>, k: nat) -> bool {
    forall|j: nat| j <= text.len() ==> #[trigger] attribute_at(text, k, j) matches Some(Ok(_))
}

/// Whether reading `text` fails: the reader reports an error, a tag has an
/// attribute that does not read or more attributes than `text` has
/// characters, or no event up to the length of `text` is the end.
pub open spec fn xml_unreadable(text: Seq<char>) -> bool {
    ||| exists|k: nat| #[trigger] event_at(text, k) is Err
    ||| exists|k: nat, j: nat| #[trigger] attribute_at(text, k, j) matches Some(Err(_))
    ||| exists|k: nat| #[trigger] too_many_attributes(text, k)
    ||| forall|k: nat| k <= text.len() ==> !(#[trigger] event_at(text, k) matches Ok(XmlEventKind::Eof))
}

/// Reads `xml` into its events, whitespace around text dropped, up to the
/// end tag that closes the first element, or to the end of the input.
pub fn tokenize(xml: &str) -> (r: Result<Vec<XmlEvent>, ParseError>)
    ensures
        r matches Ok(ev) ==> document_events(xml@, ev@),
        r is Err ==> xml_unreadable(xml@),
        r is Err ==> (r matches Err(ParseError::XMLError(_))) || (r matches Err(ParseError::AttrError(_)))
            || (r matches Err(ParseError::InternalError(_))),
        r matches Err(ParseError::XMLError(m)) ==> exists|k: nat| #![trigger event_at(xml@, k)]
            (event_at(xml@, k) matches Err(x) && x == m@)
            && forall|j: nat| j < k ==> (#[trigger] event_at(xml@, j)) is Ok,
{
    let mut reader = xml_reader(xml);
    xml_trim_text(&mut reader);
    let limit = xml.unicode_len();
    let mut events: Vec<XmlEvent> = Vec::new();
    let mut depth: usize = 0;
    let mut count: u128 = 0;
    while count <= limit as u128
        invariant
            events@.len() == count,
            limit == xml@.len(),
            reader@ == (xml@, count as nat, true),
            depth == open_after(events@),
            forall|k: int| 0 <= k < events@.len() ==> !#[trigger] closes_first(events@, k),
            forall|k: int| 0 <= k < events@.len() ==> event_read(#[trigger] events@[k], xml@, k as nat),
        decreases limit + 1 - count,
    {
        let ghost before = events@;
        proof {
            assert forall|j: nat| j < count implies (#[trigger] event_at(xml@, j)) is Ok by {
                assert(event_read(events@[j as int], xml@, j as int as nat));
            }
        }
        let ev = match xml_read_event(&mut reader) {
            Ok(ev) => ev,
            Err(e) => {
                proof {
                    assert(event_at(xml@, count as nat) is Err);
                }
                return Err(ParseError::XMLError(e));
            },
        };
        match ev {
            RawEvent::Start(tag) => {
                let t = match read_tag(&tag, limit) {
                    Ok(t) => t,
                    Err(e) => {
                        proof {
                            lemma_tag_unreadable(xml@, tag@.1, limit as nat);
                        }
                        return Err(e);
                    },
                };
                events.push(XmlEvent::Start(t));
                proof {
                    lemma_push_event(before, XmlEvent::Start(t));
                    assert(events@[count as int] == XmlEvent::Start(t));
                }
                if depth < usize::MAX {
                    depth = depth + 1;
                }
            },
            RawEvent::Empty(tag) => {
                let t = match read_tag(&tag, limit) {
                    Ok(t) => t,
                    Err(e) => {
                        proof {
                            lemma_tag_unreadable(xml@, tag@.1, limit as nat);
                        }
                        return Err(e);
                    },
                };
                events.push(XmlEvent::Empty(t));
                proof {
                    lemma_push_event(before, XmlEvent::Empty(t));
                    assert(events@[count as int] == XmlEvent::Empty(t));
                }
            },
            RawEvent::End(name) => {
                let ghost nm = name;
                events.push(XmlEvent::End(name));
                proof {
                    lemma_push_event(before, XmlEvent::End(nm));
                    assert(events@[count as int] == XmlEvent::End(nm));
                }
                if depth > 0 {
                    depth = depth - 1;
                    if depth == 0 {
                        return Ok(events);
                    }
                }
            },
            RawEvent::Comment => {
                events.push(XmlEvent::Comment);
                proof {
                    lemma_push_event(before, XmlEvent::Comment);
                    assert(events@[count as int] == XmlEvent::Comment);
                }
            },
            RawEvent::Decl => {
                events.push(XmlEvent::Decl);
                proof {
                    lemma_push_event(before, XmlEvent::Decl);
                    assert(events@[count as int] == XmlEvent::Decl);
                }
            },
            RawEvent::Eof => return Ok(events),
            RawEvent::Other => {
                events.push(XmlEvent::Other);
                proof {
                    lemma_push_event(before, XmlEvent::Other);
                    assert(events@[count as int] == XmlEvent::Other);
                }
            },
        }
        count = count + 1;
    }
    proof {
        assert forall|k: nat| k <= xml@.len() implies !(#[trigger] event_at(xml@, k) matches Ok(XmlEventKind::Eof)) by {
            assert(event_read(events@[k as int], xml@, k as int as nat));
        }
    }
    Err(ParseError::InternalError(crate::text::to_owned_string("Too many XML events.")))
}

/// A tag whose attributes do not all read, or are more than `limit`, makes
/// the text unreadable.
proof fn lemma_tag_unreadable(text: Seq<char>, k: nat, limit: nat)
    requires
        limit == text.len(),
        (exists|j: nat| j <= limit && (#[trigger] attribute_at(text, k, j) matches Some(Err(_))))
            || (forall|j: nat| j <= limit ==> (#[trigger] attribute_at(text, k, j) matches Some(Ok(_)))),
    ensures
        xml_unreadable(text),
{
    if exists|j: nat| j <= limit && (#[trigger] attribute_at(text, k, j) matches Some(Err(_))) {
        let j = choose|j: nat| j <= limit && (#[trigger] attribute_at(text, k, j) matches Some(Err(_)));
        assert(attribute_at(text, k, j) matches Some(Err(_)));
    } else {
        assert(too_many_attributes(text, k));
    }
}

} // verus!
