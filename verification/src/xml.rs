//! XML events as the extractor sees them, read with `quick_xml`.
//!
//! A `quick_xml::Reader` over a string yields a sequence of events; the
//! extractor consumes them up to the first end-of-input or error. Tag and
//! attribute names are kept as raw bytes (`prefix:local`), attribute values
//! as raw (still escaped) bytes, text as unescaped characters (or `None`
//! where unescaping failed).

use quick_xml::events::{BytesStart, Event};
use quick_xml::Reader;
use vstd::prelude::*;
use vstd::utf8::*;
use vstd::string::*;
use crate::text::{bytes_eq, lossy, utf8_lossy};

verus! {

#[verifier::external_type_specification]
#[verifier::external_body]
#[verifier::reject_recursive_types(R)]
pub struct ExXmlReader<R>(Reader<R>);

#[verifier::external_type_specification]
#[verifier::external_body]
pub struct ExXmlError(quick_xml::Error);

/// An attribute: raw qualified key and raw value.
pub struct XmlAttr {
    pub key: Vec<u8>,
    pub value: Vec<u8>,
}

pub struct XmlAttrModel {
    pub key: Seq<u8>,
    pub value: Seq<u8>,
}

impl DeepView for XmlAttr {
    type V = XmlAttrModel;

    open spec fn deep_view(&self) -> XmlAttrModel {
        XmlAttrModel { key: self.key@, value: self.value@ }
    }
}

/// An opening (or empty-element) tag: raw qualified name and attributes.
pub struct XmlTag {
    pub name: Vec<u8>,
    pub attrs: Vec<XmlAttr>,
}

pub struct XmlTagModel {
    pub name: Seq<u8>,
    pub attrs: Seq<XmlAttrModel>,
}

impl DeepView for XmlTag {
    type V = XmlTagModel;

    open spec fn deep_view(&self) -> XmlTagModel {
        XmlTagModel { name: self.name@, attrs: self.attrs.deep_view() }
    }
}

/// One XML event.
pub enum XmlEvent {
    Start(XmlTag),
    Empty(XmlTag),
    /// Closing tag with its raw qualified name.
    End(Vec<u8>),
    /// Character data, unescaped; `None` where unescaping failed.
    Text(Option<String>),
    Eof,
    /// Comments, CDATA, declarations, processing instructions, doctypes.
    Other,
}

pub enum XmlEventModel {
    Start(XmlTagModel),
    Empty(XmlTagModel),
    End(Seq<u8>),
    Text(Option<Seq<char>>),
    Eof,
    Other,
}

impl DeepView for XmlEvent {
    type V = XmlEventModel;

    open spec fn deep_view(&self) -> XmlEventModel {
        match self {
            XmlEvent::Start(t) => XmlEventModel::Start(t.deep_view()),
            XmlEvent::Empty(t) => XmlEventModel::Empty(t.deep_view()),
            XmlEvent::End(n) => XmlEventModel::End(n@),
            XmlEvent::Text(t) => XmlEventModel::Text(t.deep_view()),
            XmlEvent::Eof => XmlEventModel::Eof,
            XmlEvent::Other => XmlEventModel::Other,
        }
    }
}

/// One result of reading from the reader: an event, or a failure.
pub enum XmlStep {
    Event(XmlEventModel),
    Failure,
}

pub open spec fn is_terminal(s: XmlStep) -> bool {
    s matches XmlStep::Failure || s matches XmlStep::Event(XmlEventModel::Eof)
}

/// A step sequence that ends with its first end-of-input or failure.
pub open spec fn well_terminated(s: Seq<XmlStep>) -> bool {
    &&& s.len() > 0
    &&& is_terminal(s.last())
    &&& forall|i: int| 0 <= i < s.len() - 1 ==> !is_terminal(#[trigger] s[i])
}

/// What `quick_xml` reads from `text` (a reader made by `Reader::from_str`
/// with the default configuration), event after event, up to and including
/// the first `Eof` event or error.
pub uninterp spec fn xml_parse(text: Seq<char>) -> Seq<XmlStep>;

/// What a reader still yields, up to and including the first `Eof` or error.
pub uninterp spec fn xml_remaining(reader: Reader<&[u8]>) -> Seq<XmlStep>;

/// `Reader::from_str`. Claimed: the reader yields `xml_parse(text)`, a
/// finite sequence ending with its first `Eof` or error (every event other
/// than `Eof` consumes input, so the end of input is reached).
#[verifier::external_body]
fn xml_reader(text: &str) -> (r: Reader<&[u8]>)
    ensures
        xml_remaining(r) == xml_parse(text@),
        well_terminated(xml_remaining(r)),
{
    Reader::from_str(text)
}

/// `Reader::read_event`, with the event turned into an `XmlEvent` (raw
/// names, raw attribute values of the well-formed attributes, unescaped
/// text). Claimed: it yields the next step of what the reader still yields.
#[verifier::external_body]
fn xml_next(r: &mut Reader<&[u8]>) -> (res: Result<XmlEvent, quick_xml::Error>)
    requires
        xml_remaining(*old(r)).len() > 0,
    ensures
        xml_remaining(*final(r)) == xml_remaining(*old(r)).drop_first(),
        match res {
            Ok(e) => xml_remaining(*old(r))[0] == XmlStep::Event(e.deep_view()),
            Err(_) => xml_remaining(*old(r))[0] == XmlStep::Failure,
        },
{
    let tag = |e: &BytesStart| XmlTag {
        name: e.name().as_ref().to_vec(),
        attrs: e.attributes().flatten().map(|a| XmlAttr { key: a.key.as_ref().to_vec(), value: a.value.to_vec() }).collect(),
    };
    Ok(match r.read_event()? {
        Event::Start(e) => XmlEvent::Start(tag(&e)),
        Event::Empty(e) => XmlEvent::Empty(tag(&e)),
        Event::End(e) => XmlEvent::End(e.name().as_ref().to_vec()),
        Event::Text(e) => XmlEvent::Text(e.unescape().ok().map(|s| s.into_owned())),
        Event::Eof => XmlEvent::Eof,
        _ => XmlEvent::Other,
    })
}

/// All events of an XML text up to the first end-of-input or error; `error`
/// holds the error where reading stopped at one.
pub struct XmlStream {
    pub events: Vec<XmlEvent>,
    pub error: Option<quick_xml::Error>,
}

/// The events before the terminal step.
pub open spec fn step_events(steps: Seq<XmlStep>) -> Seq<XmlEventModel> {
    steps.drop_last().map_values(|s: XmlStep| s->Event_0)
}

/// Whether the terminal step is a failure.
pub open spec fn step_failed(steps: Seq<XmlStep>) -> bool {
    steps.last() is Failure
}

/// Reads every event of `text`.
pub fn read_xml(text: &str) -> (s: XmlStream)
    ensures
        s.events.deep_view() == step_events(xml_parse(text@)),
        s.error is Some <==> step_failed(xml_parse(text@)),
        forall|i: int|
            0 <= i < s.events.len() ==> !(#[trigger] s.events.deep_view()[i] matches XmlEventModel::Eof),
{
    let ghost full = xml_parse(text@);
    let mut r = xml_reader(text);
    let mut events: Vec<XmlEvent> = Vec::new();
    loop
        invariant
            full == xml_parse(text@),
            well_terminated(full),
            events.len() < full.len(),
            xml_remaining(r) == full.skip(events.len() as int),
            forall|i: int|
                0 <= i < events.len() ==> full[i] == XmlStep::Event(
                    #[trigger] events.deep_view()[i],
                ),
        decreases xml_remaining(r).len(),
    {
        let ghost k = events.len() as int;
        let res = xml_next(&mut r);
        assert(full.skip(k).drop_first() =~= full.skip(k + 1));
        match res {
            Ok(XmlEvent::Eof) => {
                assert(k == full.len() - 1);
                assert forall|i: int| 0 <= i < k implies #[trigger] events.deep_view()[i]
                    == step_events(full)[i] by {
                    assert(full[i] == XmlStep::Event(events.deep_view()[i]));
                }
                assert(events.deep_view() =~= step_events(full));
                return XmlStream { events, error: None };
            },
            Ok(e) => {
                let ghost em = e.deep_view();
                let ghost before = events.deep_view();
                proof {
                    if k == full.len() - 1 {
                        assert(is_terminal(full[k]));
                    }
                }
                events.push(e);
                assert(events.deep_view()[k] == em);
                assert forall|i: int| 0 <= i < events.len() implies full[i] == XmlStep::Event(
                    #[trigger] events.deep_view()[i],
                ) by {
                    if i < k {
                        assert(events.deep_view()[i] == before[i]);
                    }
                }
            },
            Err(err) => {
                assert(k == full.len() - 1);
                assert forall|i: int| 0 <= i < k implies #[trigger] events.deep_view()[i]
                    == step_events(full)[i] by {
                    assert(full[i] == XmlStep::Event(events.deep_view()[i]));
                }
                assert(events.deep_view() =~= step_events(full));
                return XmlStream { events, error: Some(err) };
            },
        }
    }
}


// ── Names and attributes ──────────────────────────────────────────────────────

/// The local part of a qualified name: everything after the first `:`
/// (the whole name when there is none), as `QName::local_name` gives it.
pub open spec fn local_part(q: Seq<u8>) -> Seq<u8> {
    if exists|i: int| 0 <= i < q.len() && q[i] == 58u8 {
        let i = choose|i: int|
            0 <= i < q.len() && q[i] == 58u8 && forall|j: int| 0 <= j < i ==> q[j] != 58u8;
        q.skip(i + 1)
    } else {
        q
    }
}

/// The local part of a qualified name.
pub fn local_name(q: &[u8]) -> (r: Vec<u8>)
    ensures
        r@ == local_part(q@),
{
    let mut i: usize = 0;
    while i < q.len() && q[i] != 58u8
        invariant
            i <= q.len(),
            forall|j: int| 0 <= j < i ==> q@[j] != 58u8,
        decreases q.len() - i,
    {
        i = i + 1;
    }
    let mut r: Vec<u8> = Vec::new();
    let start: usize = if i < q.len() {
        i + 1
    } else {
        0
    };
    let mut k: usize = start;
    while k < q.len()
        invariant
            start <= k <= q.len(),
            r@ == q@.subrange(start as int, k as int),
        decreases q.len() - k,
    {
        r.push(q[k]);
        k = k + 1;
    }
    proof {
        if i < q.len() {
            let w = choose|w: int|
                0 <= w < q.len() && q@[w] == 58u8 && forall|j: int| 0 <= j < w ==> q@[j] != 58u8;
            assert(q@[i as int] == 58u8);
            if w < i {
                assert(q@[w] != 58u8);
            }
            if w > i {
                assert(q@[i as int] != 58u8);
            }
            assert(r@ =~= q@.skip(i + 1));
        } else {
            assert(r@ =~= q@);
        }
    }
    r
}

/// The element and attribute names the extractor acts on.
#[derive(Clone, Copy, PartialEq, Eq, Structural)]
pub enum TagKind {
    Body,
    Hdr,
    Ftr,
    Footnote,
    Endnote,
    Comment,
    P,
    PPr,
    NumPr,
    R,
    T,
    DelText,
    Tbl,
    Tr,
    Tc,
    Ins,
    Del,
    TxbxContent,
    Hyperlink,
    PStyle,
    OutlineLvl,
    Ilvl,
    NumId,
    Tab,
    Br,
    Blip,
    Imagedata,
    FootnoteReference,
    EndnoteReference,
    CommentRangeStart,
    CommentRangeEnd,
    HeaderReference,
    FooterReference,
    Relationship,
    Title,
    Creator,
    LastModifiedBy,
    Created,
    Modified,
    Unknown,
}

/// The kind of an element, from its local name.
#[verifier::opaque]
pub open spec fn kind_of(local: Seq<u8>) -> TagKind {
    if local == "body".spec_bytes() {
        TagKind::Body
    } else if local == "hdr".spec_bytes() {
        TagKind::Hdr
    } else if local == "ftr".spec_bytes() {
        TagKind::Ftr
    } else if local == "footnote".spec_bytes() {
        TagKind::Footnote
    } else if local == "endnote".spec_bytes() {
        TagKind::Endnote
    } else if local == "comment".spec_bytes() {
        TagKind::Comment
    } else if local == "p".spec_bytes() {
        TagKind::P
    } else if local == "pPr".spec_bytes() {
        TagKind::PPr
    } else if local == "numPr".spec_bytes() {
        TagKind::NumPr
    } else if local == "r".spec_bytes() {
        TagKind::R
    } else if local == "t".spec_bytes() {
        TagKind::T
    } else if local == "delText".spec_bytes() {
        TagKind::DelText
    } else if local == "tbl".spec_bytes() {
        TagKind::Tbl
    } else if local == "tr".spec_bytes() {
        TagKind::Tr
    } else if local == "tc".spec_bytes() {
        TagKind::Tc
    } else if local == "ins".spec_bytes() {
        TagKind::Ins
    } else if local == "del".spec_bytes() {
        TagKind::Del
    } else if local == "txbxContent".spec_bytes() {
        TagKind::TxbxContent
    } else if local == "hyperlink".spec_bytes() {
        TagKind::Hyperlink
    } else if local == "pStyle".spec_bytes() {
        TagKind::PStyle
    } else if local == "outlineLvl".spec_bytes() {
        TagKind::OutlineLvl
    } else if local == "ilvl".spec_bytes() {
        TagKind::Ilvl
    } else if local == "numId".spec_bytes() {
        TagKind::NumId
    } else if local == "tab".spec_bytes() {
        TagKind::Tab
    } else if local == "br".spec_bytes() {
        TagKind::Br
    } else if local == "blip".spec_bytes() {
        TagKind::Blip
    } else if local == "imagedata".spec_bytes() {
        TagKind::Imagedata
    } else if local == "footnoteReference".spec_bytes() {
        TagKind::FootnoteReference
    } else if local == "endnoteReference".spec_bytes() {
        TagKind::EndnoteReference
    } else if local == "commentRangeStart".spec_bytes() {
        TagKind::CommentRangeStart
    } else if local == "commentRangeEnd".spec_bytes() {
        TagKind::CommentRangeEnd
    } else if local == "headerReference".spec_bytes() {
        TagKind::HeaderReference
    } else if local == "footerReference".spec_bytes() {
        TagKind::FooterReference
    } else if local == "Relationship".spec_bytes() {
        TagKind::Relationship
    } else if local == "title".spec_bytes() {
        TagKind::Title
    } else if local == "creator".spec_bytes() {
        TagKind::Creator
    } else if local == "lastModifiedBy".spec_bytes() {
        TagKind::LastModifiedBy
    } else if local == "created".spec_bytes() {
        TagKind::Created
    } else if local == "modified".spec_bytes() {
        TagKind::Modified
    } else {
        TagKind::Unknown
    }
}

/// The kind of an element with the qualified name `q`.
pub open spec fn tag_kind(q: Seq<u8>) -> TagKind {
    kind_of(local_part(q))
}

fn is(local: &[u8], name: &str) -> (r: bool)
    ensures
        r == (local@ == name.spec_bytes()),
{
    bytes_eq(local, name.as_bytes())
}

/// Classifies an element by its qualified name.
pub fn classify(q: &[u8]) -> (k: TagKind)
    ensures
        k == tag_kind(q@),
{
    reveal(kind_of);
    let v = local_name(q);
    let l = v.as_slice();
    if is(l, "body") {
        TagKind::Body
    } else if is(l, "hdr") {
        TagKind::Hdr
    } else if is(l, "ftr") {
        TagKind::Ftr
    } else if is(l, "footnote") {
        TagKind::Footnote
    } else if is(l, "endnote") {
        TagKind::Endnote
    } else if is(l, "comment") {
        TagKind::Comment
    } else if is(l, "p") {
        TagKind::P
    } else if is(l, "pPr") {
        TagKind::PPr
    } else if is(l, "numPr") {
        TagKind::NumPr
    } else if is(l, "r") {
        TagKind::R
    } else if is(l, "t") {
        TagKind::T
    } else if is(l, "delText") {
        TagKind::DelText
    } else if is(l, "tbl") {
        TagKind::Tbl
    } else if is(l, "tr") {
        TagKind::Tr
    } else if is(l, "tc") {
        TagKind::Tc
    } else if is(l, "ins") {
        TagKind::Ins
    } else if is(l, "del") {
        TagKind::Del
    } else if is(l, "txbxContent") {
        TagKind::TxbxContent
    } else if is(l, "hyperlink") {
        TagKind::Hyperlink
    } else if is(l, "pStyle") {
        TagKind::PStyle
    } else if is(l, "outlineLvl") {
        TagKind::OutlineLvl
    } else if is(l, "ilvl") {
        TagKind::Ilvl
    } else if is(l, "numId") {
        TagKind::NumId
    } else if is(l, "tab") {
        TagKind::Tab
    } else if is(l, "br") {
        TagKind::Br
    } else if is(l, "blip") {
        TagKind::Blip
    } else if is(l, "imagedata") {
        TagKind::Imagedata
    } else if is(l, "footnoteReference") {
        TagKind::FootnoteReference
    } else if is(l, "endnoteReference") {
        TagKind::EndnoteReference
    } else if is(l, "commentRangeStart") {
        TagKind::CommentRangeStart
    } else if is(l, "commentRangeEnd") {
        TagKind::CommentRangeEnd
    } else if is(l, "headerReference") {
        TagKind::HeaderReference
    } else if is(l, "footerReference") {
        TagKind::FooterReference
    } else if is(l, "Relationship") {
        TagKind::Relationship
    } else if is(l, "title") {
        TagKind::Title
    } else if is(l, "creator") {
        TagKind::Creator
    } else if is(l, "lastModifiedBy") {
        TagKind::LastModifiedBy
    } else if is(l, "created") {
        TagKind::Created
    } else if is(l, "modified") {
        TagKind::Modified
    } else {
        TagKind::Unknown
    }
}

/// The value of the first attribute whose local name is `key`, decoded
/// (`get_attr`).
pub open spec fn attr_value(attrs: Seq<XmlAttrModel>, key: Seq<u8>) -> Option<Seq<char>>
    decreases attrs.len(),
{
    if attrs.len() == 0 {
        None
    } else if local_part(attrs[0].key) == key {
        Some(utf8_lossy(attrs[0].value))
    } else {
        attr_value(attrs.drop_first(), key)
    }
}

/// The value of the first attribute whose qualified name is `key`, decoded.
pub open spec fn attr_value_exact(attrs: Seq<XmlAttrModel>, key: Seq<u8>) -> Option<Seq<char>>
    decreases attrs.len(),
{
    if attrs.len() == 0 {
        None
    } else if attrs[0].key == key {
        Some(utf8_lossy(attrs[0].value))
    } else {
        attr_value_exact(attrs.drop_first(), key)
    }
}

/// The value of the first attribute whose local name is `key`.
pub fn get_attr(attrs: &Vec<XmlAttr>, key: &str) -> (r: Option<String>)
    ensures
        r.deep_view() == attr_value(attrs.deep_view(), key.spec_bytes()),
{
    let mut i: usize = 0;
    assert(attrs.deep_view().skip(0) =~= attrs.deep_view());
    while i < attrs.len()
        invariant
            i <= attrs.len(),
            attr_value(attrs.deep_view(), key.spec_bytes()) == attr_value(
                attrs.deep_view().skip(i as int),
                key.spec_bytes(),
            ),
        decreases attrs.len() - i,
    {
        let ghost rest = attrs.deep_view().skip(i as int);
        assert(rest[0] == attrs[i as int].deep_view());
        assert(rest.drop_first() =~= attrs.deep_view().skip(i + 1));
        let l = local_name(attrs[i].key.as_slice());
        if bytes_eq(l.as_slice(), key.as_bytes()) {
            return Some(lossy(attrs[i].value.as_slice()));
        }
        i = i + 1;
    }
    None
}

/// The value of the first attribute whose qualified name is `key`.
pub fn get_attr_exact(attrs: &Vec<XmlAttr>, key: &str) -> (r: Option<String>)
    ensures
        r.deep_view() == attr_value_exact(attrs.deep_view(), key.spec_bytes()),
{
    let mut i: usize = 0;
    assert(attrs.deep_view().skip(0) =~= attrs.deep_view());
    while i < attrs.len()
        invariant
            i <= attrs.len(),
            attr_value_exact(attrs.deep_view(), key.spec_bytes()) == attr_value_exact(
                attrs.deep_view().skip(i as int),
                key.spec_bytes(),
            ),
        decreases attrs.len() - i,
    {
        let ghost rest = attrs.deep_view().skip(i as int);
        assert(rest[0] == attrs[i as int].deep_view());
        assert(rest.drop_first() =~= attrs.deep_view().skip(i + 1));
        if bytes_eq(attrs[i].key.as_slice(), key.as_bytes()) {
            return Some(lossy(attrs[i].value.as_slice()));
        }
        i = i + 1;
    }
    None
}

} // verus!
