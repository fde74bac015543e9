//! XML documents read as a list of events (start and end tags, text,
//! CDATA), the form in which the Bible and ProPresenter importers consume
//! them. The tokenizing itself is `quick_xml`'s.
use quick_xml::events::{BytesStart, Event};
use quick_xml::Reader;
use std::borrow::Cow;
use vstd::prelude::*;

verus! {

#[verifier::external_type_specification]
#[verifier::external_body]
#[verifier::reject_recursive_types(R)]
pub struct ExXmlReader<R>(quick_xml::Reader<R>);

#[verifier::external_type_specification]
#[verifier::external_body]
pub struct ExXmlEvent<'a>(quick_xml::events::Event<'a>);

#[verifier::external_type_specification]
#[verifier::external_body]
pub struct ExXmlBytesStart<'a>(quick_xml::events::BytesStart<'a>);

/// An attribute of a tag.
#[derive(Clone, Debug)]
pub struct XmlAttr {
    /// The key as written (prefix included).
    pub key: String,
    /// The value as written (entities not expanded).
    pub raw_value: String,
    /// The value with entities expanded; `None` when that failed.
    pub value: Option<String>,
}

/// A start or empty tag.
#[derive(Clone, Debug)]
pub struct XmlTag {
    /// The qualified name (`osis:verse`).
    pub name: String,
    /// The local name (`verse`).
    pub local: String,
    pub attrs: Vec<XmlAttr>,
}

/// One event of an XML document.
#[derive(Clone, Debug)]
pub enum XmlEvent {
    Start(XmlTag),
    Empty(XmlTag),
    End { name: String, local: String },
    /// Text between tags, trimmed, entities expanded (`None` when that failed).
    Text(Option<String>),
    /// CDATA content as written, and escaped for use as text (`None` when
    /// that failed).
    CData { raw: String, escaped: Option<String> },
    /// Comments, declarations, processing instructions, doctypes.
    Other,
    Eof,
}

/// A tokenizing error and the byte position where it was found.
#[derive(Clone, Debug)]
pub struct XmlError {
    pub position: u64,
    pub message: String,
}

/// What quick-xml reads from `text` (text trimming on), event after event
/// as [`XmlEvent`]s: the events up to and including the first `Eof`, or,
/// when reading fails first, the events before the failure and the error.
pub uninterp spec fn xml_doc(text: Seq<char>) -> (Seq<XmlEvent>, Option<XmlError>);

/// What a reader has still to give, in the form of [`xml_doc`].
pub uninterp spec fn xml_pending(reader: Reader<&[u8]>) -> (Seq<XmlEvent>, Option<XmlError>);

/// The shape [`xml_doc`] has: without an error the events end with the one
/// `Eof`; with an error there is no `Eof` among them.
pub open spec fn doc_shape(d: (Seq<XmlEvent>, Option<XmlError>)) -> bool {
    &&& d.1 is None ==> d.0.len() > 0 && d.0.last() is Eof
    &&& forall|i: int| 0 <= i < d.0.len() && (d.1 is Some || i < d.0.len() - 1) ==> !(#[trigger] d.0[i] is Eof)
}

/// `quick_xml::Reader::from_str` with text trimming switched on: a reader
/// that has all of `xml_doc(text)` still to give.
#[verifier::external_body]
fn xml_reader<'a>(text: &'a str) -> (r: Reader<&'a [u8]>)
    ensures
        xml_pending(r) == xml_doc(text@),
        doc_shape(xml_pending(r)),
{
    let mut reader = Reader::from_str(text);
    reader.config_mut().trim_text(true);
    reader
}

/// `quick_xml::Reader::read_event`, converted by [`event_of`]: the next
/// pending event, or, when none is left before an error, that error with the
/// reader's byte position. Nothing is stated of reading after the `Eof` or
/// after an error.
#[verifier::external_body]
fn read_xml_event<'a>(reader: &mut Reader<&'a [u8]>) -> (r: Result<XmlEvent, XmlError>)
    ensures
        xml_pending(*old(reader)).0.len() > 0 ==> r == Ok::<XmlEvent, XmlError>(xml_pending(*old(reader)).0[0])
            && xml_pending(*final(reader)) == (xml_pending(*old(reader)).0.drop_first(), xml_pending(*old(reader)).1),
        xml_pending(*old(reader)).0.len() == 0 && xml_pending(*old(reader)).1 is Some
            ==> r == Err::<XmlEvent, XmlError>(xml_pending(*old(reader)).1.unwrap()),
{
    match reader.read_event() {
        Ok(e) => Ok(event_of(e)),
        Err(e) => Err(XmlError { position: reader.buffer_position() as u64, message: e.to_string() }),
    }
}

/// A `quick_xml` start tag as owned strings (names and keys converted
/// lossily from UTF-8, values unescaped with `Attribute::unescape_value`).
#[verifier::external_body]
fn tag_of(e: &BytesStart) -> XmlTag {
    let attrs = e.attributes().flatten().map(|a| XmlAttr {
        key: String::from_utf8_lossy(a.key.as_ref()).into_owned(),
        raw_value: String::from_utf8_lossy(&a.value).into_owned(),
        value: a.unescape_value().ok().map(|v| v.into_owned()),
    });
    XmlTag {
        name: String::from_utf8_lossy(e.name().as_ref()).into_owned(),
        local: String::from_utf8_lossy(e.local_name().as_ref()).into_owned(),
        attrs: attrs.collect(),
    }
}

/// A `quick_xml` event as owned data, variant by variant (text unescaped
/// with `BytesText::unescape`, CDATA escaped with `BytesCData::escape`).
#[verifier::external_body]
fn event_of(e: Event) -> XmlEvent {
    match e {
        Event::Start(t) => XmlEvent::Start(tag_of(&t)),
        Event::Empty(t) => XmlEvent::Empty(tag_of(&t)),
        Event::End(t) => XmlEvent::End {
            name: String::from_utf8_lossy(t.name().as_ref()).into_owned(),
            local: String::from_utf8_lossy(t.local_name().as_ref()).into_owned(),
        },
        Event::Text(t) => XmlEvent::Text(t.unescape().ok().map(Cow::into_owned)),
        Event::CData(t) => XmlEvent::CData {
            raw: String::from_utf8_lossy(t.as_ref()).into_owned(),
            escaped: t.escape().ok().map(|b| String::from_utf8_lossy(&b).into_owned()),
        },
        Event::Eof => XmlEvent::Eof,
        _ => XmlEvent::Other,
    }
}

/// The result of tokenizing a document: its events through the `Eof`, or
/// the error that stopped the reading.
pub open spec fn doc_result(d: (Seq<XmlEvent>, Option<XmlError>)) -> Result<Seq<XmlEvent>, XmlError> {
    match d.1 {
        None => Ok(d.0),
        Some(e) => Err(e),
    }
}

/// The events of a document up to and including its end, or the first
/// tokenizing error.
pub fn xml_events(xml: &str) -> (r: Result<Vec<XmlEvent>, XmlError>)
    ensures
        match doc_result(xml_doc(xml@)) {
            Ok(evs) => r matches Ok(v) && v@ == evs,
            Err(e) => r == Err::<Vec<XmlEvent>, XmlError>(e),
        },
        r matches Ok(v) ==> v.len() > 0 && v@.last() is Eof && forall|i: int| 0 <= i < v.len() - 1 ==> !(#[trigger] v@[i] is Eof),
{
    let mut reader = xml_reader(xml);
    let ghost doc = xml_doc(xml@);
    let mut out: Vec<XmlEvent> = Vec::new();
    loop
        invariant
            doc == xml_doc(xml@),
            doc_shape(doc),
            out@ + xml_pending(reader).0 == doc.0,
            xml_pending(reader).1 == doc.1,
            forall|i: int| 0 <= i < out.len() ==> !(#[trigger] out@[i] is Eof),
        decreases xml_pending(reader).0.len(),
    {
        let ghost pend = xml_pending(reader);
        proof {
            if pend.0.len() == 0 && pend.1 is None {
                assert(out@ + pend.0 =~= out@);
                assert(doc.0.last() == out@[out.len() - 1]);
            }
        }
        let ev = match read_xml_event(&mut reader) {
            Ok(e) => e,
            Err(e) => {
                proof {
                    if pend.0.len() > 0 {
                        assert(false);
                    }
                }
                return Err(e);
            },
        };
        proof {
            if pend.0.len() == 0 {
                assert(pend.1 is None);
                assert(false);
            }
            assert(ev == pend.0[0]);
            assert(doc.0[out.len() as int] == pend.0[0]);
        }
        let eof = matches!(ev, XmlEvent::Eof);
        let ghost before = out@;
        out.push(ev);
        assert(out@ + xml_pending(reader).0 =~= before + pend.0) by {
            assert(pend.0 =~= seq![pend.0[0]] + pend.0.drop_first());
        }
        if eof {
            proof {
                let k = before.len() as int;
                assert(doc.0[k] is Eof);
                if doc.1 is Some || k < doc.0.len() - 1 {
                    assert(!(doc.0[k] is Eof));
                }
                assert(k == doc.0.len() - 1);
                assert(out@ =~= doc.0);
            }
            return Ok(out);
        }
        proof {
            assert(!(out@[before.len() as int] is Eof));
        }
    }
}

} // verus!
