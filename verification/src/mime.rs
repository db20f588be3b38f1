//! Trusted bridges to the MIME parser. Every result is a plain value and is
//! given a name over the raw message bytes: parsing is deterministic, so each
//! name stands for the outcome of the corresponding parser call on those
//! bytes alone. The extraction logic above these wrappers is verified against
//! the names.

use vstd::prelude::*;

verus! {

/// One attachment part as handed out by the parser: declared metadata plus
/// the decoded contents.
pub struct AttachmentPart {
    pub filename: Option<String>,
    pub mime: Option<String>,
    pub content_id: Option<String>,
    pub contents: Vec<u8>,
}

pub ghost struct PartV {
    pub filename: Option<Seq<char>>,
    pub mime: Option<Seq<char>>,
    pub content_id: Option<Seq<char>>,
    pub contents: Seq<u8>,
}

impl View for AttachmentPart {
    type V = PartV;

    open spec fn view(&self) -> PartV {
        PartV {
            filename: self.filename.deep_view(),
            mime: self.mime.deep_view(),
            content_id: self.content_id.deep_view(),
            contents: self.contents@,
        }
    }
}

impl DeepView for AttachmentPart {
    type V = PartV;

    open spec fn deep_view(&self) -> PartV {
        self.view()
    }
}

/// Whether `MessageParser::parse` accepts the bytes as a MIME message.
pub uninterp spec fn mime_parses(data: Seq<u8>) -> bool;

/// Relies on `mail_parser::MessageParser::parse`: success is deterministic in
/// the input bytes.
#[verifier::external_body]
pub(crate) fn mime_parse_ok(data: &[u8]) -> (r: bool)
    ensures
        r == mime_parses(data@),
{
    mail_parser::MessageParser::default().parse(data).is_some()
}

/// The text of the named header, as `Message::header` plus
/// `HeaderValue::as_text` report it.
pub uninterp spec fn mime_header_of(data: Seq<u8>, name: Seq<char>) -> Option<Seq<char>>;

/// Relies on `MessageParser::parse`, `Message::header` and
/// `HeaderValue::as_text`: the header text depends on the bytes and the name
/// alone, and is absent when the message does not parse.
#[verifier::external_body]
pub(crate) fn mime_header_text(data: &[u8], name: &str) -> (r: Option<String>)
    ensures
        match r {
            Option::Some(s) => mime_header_of(data@, name@) == Option::Some(s@),
            Option::None => mime_header_of(data@, name@) == Option::<Seq<char>>::None,
        },
        !mime_parses(data@) ==> r is None,
{
    match mail_parser::MessageParser::default().parse(data) {
        Some(m) => m.header(name).and_then(|h| h.as_text()).map(|t| t.to_string()),
        None => None,
    }
}

/// The message date in RFC 3339 form, as `Message::date` plus
/// `DateTime::to_rfc3339` report it.
pub uninterp spec fn mime_date_of(data: Seq<u8>) -> Option<Seq<char>>;

/// Relies on `MessageParser::parse`, `Message::date` and
/// `DateTime::to_rfc3339`: absent when unparseable.
#[verifier::external_body]
pub(crate) fn mime_date_iso(data: &[u8]) -> (r: Option<String>)
    ensures
        match r {
            Option::Some(s) => mime_date_of(data@) == Option::Some(s@),
            Option::None => mime_date_of(data@) == Option::<Seq<char>>::None,
        },
        !mime_parses(data@) ==> r is None,
{
    match mail_parser::MessageParser::default().parse(data) {
        Some(m) => m.date().map(|d| d.to_rfc3339()),
        None => None,
    }
}

/// The protocol message id, as `Message::message_id` reports it.
pub uninterp spec fn mime_message_id_of(data: Seq<u8>) -> Option<Seq<char>>;

/// Relies on `MessageParser::parse` and `Message::message_id`.
#[verifier::external_body]
pub(crate) fn mime_message_id(data: &[u8]) -> (r: Option<String>)
    ensures
        match r {
            Option::Some(s) => mime_message_id_of(data@) == Option::Some(s@),
            Option::None => mime_message_id_of(data@) == Option::<Seq<char>>::None,
        },
        !mime_parses(data@) ==> r is None,
{
    match mail_parser::MessageParser::default().parse(data) {
        Some(m) => m.message_id().map(|s| s.to_string()),
        None => None,
    }
}

/// The first HTML body, as `Message::body_html(0)` reports it.
pub uninterp spec fn mime_html_of(data: Seq<u8>) -> Option<Seq<char>>;

/// Relies on `MessageParser::parse` and `Message::body_html`.
#[verifier::external_body]
pub(crate) fn mime_body_html(data: &[u8]) -> (r: Option<String>)
    ensures
        match r {
            Option::Some(s) => mime_html_of(data@) == Option::Some(s@),
            Option::None => mime_html_of(data@) == Option::<Seq<char>>::None,
        },
        !mime_parses(data@) ==> r is None,
{
    match mail_parser::MessageParser::default().parse(data) {
        Some(m) => m.body_html(0).map(|s| s.into_owned()),
        None => None,
    }
}

/// The first plain-text body, as `Message::body_text(0)` reports it.
pub uninterp spec fn mime_text_of(data: Seq<u8>) -> Option<Seq<char>>;

/// Relies on `MessageParser::parse` and `Message::body_text`.
#[verifier::external_body]
pub(crate) fn mime_body_text(data: &[u8]) -> (r: Option<String>)
    ensures
        match r {
            Option::Some(s) => mime_text_of(data@) == Option::Some(s@),
            Option::None => mime_text_of(data@) == Option::<Seq<char>>::None,
        },
        !mime_parses(data@) ==> r is None,
{
    match mail_parser::MessageParser::default().parse(data) {
        Some(m) => m.body_text(0).map(|s| s.into_owned()),
        None => None,
    }
}

/// The attachment parts, in order, as `Message::attachments` hands them out:
/// declared name, declared content type, content id and decoded contents.
pub uninterp spec fn mime_parts_of(data: Seq<u8>) -> Seq<PartV>;

/// Relies on `MessageParser::parse`, `Message::attachments` and the part
/// accessors `attachment_name`, `content_type`, `content_id` and `contents`;
/// each part is converted to plain values. Empty when the message does not
/// parse.
#[verifier::external_body]
pub(crate) fn mime_attachment_parts(data: &[u8]) -> (r: Vec<AttachmentPart>)
    ensures
        r.deep_view() == mime_parts_of(data@),
        !mime_parses(data@) ==> r.deep_view().len() == 0,
{
    match mail_parser::MessageParser::default().parse(data) {
        Some(m) => m.attachments().map(
            |a| AttachmentPart {
                filename: mail_parser::MimeHeaders::attachment_name(a).map(|s| s.to_string()),
                mime: mail_parser::MimeHeaders::content_type(a).map(|c| c.c_type.to_string()),
                content_id: mail_parser::MimeHeaders::content_id(a).map(|s| s.to_string()),
                contents: a.contents().to_vec(),
            },
        ).collect(),
        None => Vec::new(),
    }
}

} // verus!
