//! Reading a schema tree from an XML document and writing it back, through
//! the event reader and writer of `quick_xml`.

use crate::error::XmlError;
use crate::frame_values::{lossy_text, utf8_lossy_text};
use crate::schema::{
    attribute_models, element_models, lemma_children, lemma_element_models_push, ElementModel,
    XmlElement,
};
use quick_xml::events::{BytesEnd, BytesStart, BytesText, Event};
use quick_xml::{Reader, Writer};
use vstd::prelude::*;
use vstd::string::StringSliceAdditionalSpecFns;

verus! {

/// The event reader of `quick_xml` over bytes in memory.
#[verifier::external_body]
pub struct EventReader<'a> {
    inner: Reader<&'a [u8]>,
}

/// The event writer of `quick_xml` over a byte vector.
#[verifier::external_body]
pub struct EventWriter {
    inner: Writer<Vec<u8>>,
}

#[verifier::external_type_specification]
#[verifier::external_body]
pub struct ExBytesStart<'a>(BytesStart<'a>);

#[verifier::external_type_specification]
#[verifier::external_body]
pub struct ExXmlFailure(quick_xml::Error);

/// The ways in which `quick_xml` fails, one for each variant of its error.
#[derive(Debug, Clone, Copy, PartialEq, Eq, Structural)]
pub enum Failure {
    Io,
    Utf8,
    UnexpectedEof,
    EndEventMismatch,
    UnexpectedToken,
    UnexpectedBang,
    TextNotFound,
    XmlDeclWithoutVersion,
    NameWithQuote,
    NoEqAfterName,
    UnquotedValue,
    DuplicatedAttribute,
    EscapeError,
}

/// The error reported for a failure. Bytes that cannot be read or are no
/// text, and references that cannot be resolved, keep their kind; the four
/// failures of an attribute are one kind; all else is malformed markup.
pub open spec fn reported(f: Failure) -> XmlError {
    match f {
        Failure::Io => XmlError::Io,
        Failure::Utf8 => XmlError::Encoding,
        Failure::EscapeError => XmlError::Escape,
        Failure::NameWithQuote => XmlError::Attribute,
        Failure::NoEqAfterName => XmlError::Attribute,
        Failure::UnquotedValue => XmlError::Attribute,
        Failure::DuplicatedAttribute => XmlError::Attribute,
        _ => XmlError::Syntax,
    }
}

/// One event as the reader hands it out: the bytes of a tag's name and its
/// attributes in order, each with the bytes of its key and its value
/// unescaped, or with the error that reading it gave; the text of a text
/// event, unescaped, or the error that this gave.
pub enum RawEvent {
    Start(Vec<u8>, Vec<Result<(Vec<u8>, String), quick_xml::Error>>),
    Text(Result<String, quick_xml::Error>),
    End,
    Eof,
    Other,
}

/// What a [`RawEvent`] holds, as mathematical values.
pub enum EventModel {
    Start { name: Seq<u8>, attributes: Seq<Result<(Seq<u8>, Seq<char>), Failure>> },
    Text(Result<Seq<char>, Failure>),
    End,
    Eof,
    Other,
}

/// Which variant an error of `quick_xml` is.
pub uninterp spec fn failure_of(e: quick_xml::Error) -> Failure;

/// One attribute as it was read, as mathematical values.
pub open spec fn attribute_read(item: Result<(Vec<u8>, String), quick_xml::Error>) -> Result<
    (Seq<u8>, Seq<char>),
    Failure,
> {
    match item {
        Ok(pair) => Ok((pair.0@, pair.1@)),
        Err(e) => Err(failure_of(e)),
    }
}

impl View for RawEvent {
    type V = EventModel;

    open spec fn view(&self) -> EventModel {
        match *self {
            RawEvent::Start(name, attributes) => EventModel::Start {
                name: name@,
                attributes: Seq::new(attributes@.len(), |i: int| attribute_read(attributes@[i])),
            },
            RawEvent::Text(Ok(text)) => EventModel::Text(Ok(text@)),
            RawEvent::Text(Err(e)) => EventModel::Text(Err(failure_of(e))),
            RawEvent::End => EventModel::End,
            RawEvent::Eof => EventModel::Eof,
            RawEvent::Other => EventModel::Other,
        }
    }
}

/// What one read gave, as mathematical values.
pub open spec fn read_model(r: Result<RawEvent, quick_xml::Error>) -> Result<EventModel, Failure> {
    match r {
        Ok(event) => Ok(event@),
        Err(e) => Err(failure_of(e)),
    }
}

/// One event of a document, with what the schema reads from it.
pub enum XmlToken {
    /// An opening tag: its name and its attributes in document order.
    Start { name: String, attributes: Vec<(String, String)> },
    /// Text between tags, unescaped.
    Text(String),
    /// A closing tag.
    End,
    /// Anything else: empty-element tags, comments, declarations, and text
    /// outside every element.
    Other,
}

/// What an [`XmlToken`] holds, as mathematical values.
pub enum TokenModel {
    Start { name: Seq<char>, attributes: Seq<(Seq<char>, Seq<char>)> },
    Text(Seq<char>),
    End,
    Other,
}

impl View for XmlToken {
    type V = TokenModel;

    open spec fn view(&self) -> TokenModel {
        match self {
            XmlToken::Start { name, attributes } => TokenModel::Start {
                name: name@,
                attributes: attribute_models(attributes@),
            },
            XmlToken::Text(t) => TokenModel::Text(t@),
            XmlToken::End => TokenModel::End,
            XmlToken::Other => TokenModel::Other,
        }
    }
}

/// The models of a sequence of tokens.
pub open spec fn token_models(tokens: Seq<XmlToken>) -> Seq<TokenModel> {
    Seq::new(tokens.len(), |i: int| tokens[i]@)
}

/// What the read number `k` from now on a reader gives, counted from zero.
pub uninterp spec fn upcoming(reader: EventReader<'static>, k: nat) -> Result<EventModel, Failure>;

/// What the read number `k`, counted from zero, gives on a reader of
/// `quick_xml` that is made over the bytes of a document with the trimming
/// of text switched on.
pub uninterp spec fn document_event(xml: Seq<u8>, k: nat) -> Result<EventModel, Failure>;

/// `Reader::from_reader` of `quick_xml` over bytes in memory, with
/// `Reader::trim_text` switched on: text events lose the white space at
/// their ends, and empty ones are left out. What the reader gives depends
/// on the bytes alone.
#[verifier::external_body]
fn trimming_reader<'a>(xml: &'a [u8]) -> (reader: EventReader<'a>)
    ensures
        forall|k: nat| #[trigger] upcoming(reader, k) == document_event(xml@, k),
{
    let mut inner = Reader::from_reader(xml);
    inner.trim_text(true);
    EventReader { inner }
}

/// `Reader::read_event` of `quick_xml`, the event handed out as plain
/// values: of an opening tag `BytesStart::name` and every item of
/// `BytesStart::attributes`, its value from
/// `Attribute::unescape_and_decode_value`; of a text event what
/// `BytesText::unescape_and_decode` gives. The result is the next that the
/// reader had to give, and the reader goes on behind it.
#[verifier::external_body]
fn next_event(reader: &mut EventReader) -> (r: Result<RawEvent, quick_xml::Error>)
    ensures
        read_model(r) == upcoming(*old(reader), 0),
        forall|k: nat| #[trigger] upcoming(*final(reader), k) == upcoming(*old(reader), k + 1),
{
    let mut buf = Vec::new();
    Ok(match reader.inner.read_event(&mut buf)? {
        Event::Start(e) => RawEvent::Start(e.name().to_vec(), e.attributes().map(|a| {
            a.and_then(|a| Ok((a.key.to_vec(), a.unescape_and_decode_value(&reader.inner)?)))
        }).collect()),
        Event::Text(e) => RawEvent::Text(e.unescape_and_decode(&reader.inner)),
        Event::End(_) => RawEvent::End,
        Event::Eof => RawEvent::Eof,
        _ => RawEvent::Other,
    })
}

/// Which variant an error of `quick_xml` is.
#[verifier::external_body]
fn failure_kind(e: &quick_xml::Error) -> (f: Failure)
    ensures
        f == failure_of(*e),
{
    match e {
        quick_xml::Error::Io(_) => Failure::Io,
        quick_xml::Error::Utf8(_) => Failure::Utf8,
        quick_xml::Error::UnexpectedEof(_) => Failure::UnexpectedEof,
        quick_xml::Error::EndEventMismatch { .. } => Failure::EndEventMismatch,
        quick_xml::Error::UnexpectedToken(_) => Failure::UnexpectedToken,
        quick_xml::Error::UnexpectedBang => Failure::UnexpectedBang,
        quick_xml::Error::TextNotFound => Failure::TextNotFound,
        quick_xml::Error::XmlDeclWithoutVersion(_) => Failure::XmlDeclWithoutVersion,
        quick_xml::Error::NameWithQuote(_) => Failure::NameWithQuote,
        quick_xml::Error::NoEqAfterName(_) => Failure::NoEqAfterName,
        quick_xml::Error::UnquotedValue(_) => Failure::UnquotedValue,
        quick_xml::Error::DuplicatedAttribute(_, _) => Failure::DuplicatedAttribute,
        quick_xml::Error::EscapeError(_) => Failure::EscapeError,
    }
}

/// The bytes that a writer of `quick_xml` over a byte vector has written.
pub uninterp spec fn written(w: EventWriter) -> Seq<u8>;

/// The bytes that an opening tag of `quick_xml` holds between `<` and `>`.
pub uninterp spec fn tag_bytes(tag: BytesStart<'static>) -> Seq<u8>;

/// One byte as `quick_xml` escapes it in an attribute value.
pub open spec fn escaped_byte(b: u8) -> Seq<u8> {
    if b == 0x3C {
        seq![0x26u8, 0x6C, 0x74, 0x3B]
    } else if b == 0x3E {
        seq![0x26u8, 0x67, 0x74, 0x3B]
    } else if b == 0x27 {
        seq![0x26u8, 0x61, 0x70, 0x6F, 0x73, 0x3B]
    } else if b == 0x26 {
        seq![0x26u8, 0x61, 0x6D, 0x70, 0x3B]
    } else if b == 0x22 {
        seq![0x26u8, 0x71, 0x75, 0x6F, 0x74, 0x3B]
    } else {
        seq![b]
    }
}

/// Bytes as `quick_xml` escapes them in an attribute value: `<`, `>`, `'`,
/// `&` and `"` become `&lt;`, `&gt;`, `&apos;`, `&amp;` and `&quot;`.
pub open spec fn escaped_bytes(raw: Seq<u8>) -> Seq<u8>
    decreases raw.len(),
{
    if raw.len() == 0 {
        Seq::empty()
    } else {
        escaped_bytes(raw.drop_last()) + escaped_byte(raw.last())
    }
}

/// `Writer::new` of `quick_xml` over an empty byte vector: nothing is
/// written yet.
#[verifier::external_body]
fn new_writer() -> (w: EventWriter)
    ensures
        written(w) == Seq::<u8>::empty(),
{
    EventWriter { inner: Writer::new(Vec::new()) }
}

/// `Writer::write_event` of `quick_xml` with a text event made by
/// `BytesText::from_escaped`: the bytes are written as they are given. The
/// only failure of `write_event` is one of the writer underneath, which here
/// is a byte vector: writing to it appends and does not fail.
#[verifier::external_body]
fn write_text(w: &mut EventWriter, text: &[u8]) -> (r: Result<(), quick_xml::Error>)
    ensures
        r is Ok,
        written(*final(w)) == written(*old(w)) + text@,
{
    w.inner.write_event(Event::Text(BytesText::from_escaped(text)))
}

/// `BytesStart::owned_name` of `quick_xml`: a tag that holds its name and
/// no attribute.
#[verifier::external_body]
fn new_tag(name: &[u8]) -> (tag: BytesStart<'static>)
    ensures
        tag_bytes(tag) == name@,
{
    BytesStart::owned_name(name.to_vec())
}

/// `BytesStart::push_attribute` of `quick_xml` with a key and a value as
/// text: a space, the key, `="`, the escaped value and `"` are added.
#[verifier::external_body]
fn push_attribute(tag: &mut BytesStart<'static>, key: &str, value: &str)
    ensures
        tag_bytes(*final(tag)) == tag_bytes(*old(tag)) + seq![0x20u8] + vstd::utf8::encode_utf8(key@) + seq![
            0x3Du8,
            0x22u8,
        ] + escaped_bytes(vstd::utf8::encode_utf8(value@)) + seq![0x22u8],
{
    tag.push_attribute((key, value));
}

/// `Writer::write_event` of `quick_xml` with a start event: `<`, what the
/// tag holds, and `>` are written. Over a byte vector the write does not
/// fail.
#[verifier::external_body]
fn write_start(w: &mut EventWriter, tag: &BytesStart<'static>) -> (r: Result<
    (),
    quick_xml::Error,
>)
    ensures
        r is Ok,
        written(*final(w)) == written(*old(w)) + seq![0x3Cu8] + tag_bytes(*tag) + seq![0x3Eu8],
{
    w.inner.write_event(Event::Start(tag.to_borrowed()))
}

/// `Writer::write_event` of `quick_xml` with an end event made by
/// `BytesEnd::borrowed`: `</`, the name and `>` are written. Over a byte
/// vector the write does not fail.
#[verifier::external_body]
fn write_end(w: &mut EventWriter, name: &[u8]) -> (r: Result<(), quick_xml::Error>)
    ensures
        r is Ok,
        written(*final(w)) == written(*old(w)) + seq![0x3Cu8, 0x2Fu8] + name@ + seq![0x3Eu8],
{
    w.inner.write_event(Event::End(BytesEnd::borrowed(name)))
}

/// `Writer::into_inner` of `quick_xml`: the bytes that were written.
#[verifier::external_body]
fn written_bytes(w: EventWriter) -> (bytes: Vec<u8>)
    ensures
        bytes@ == written(w),
{
    w.inner.into_inner()
}

/// The tree under construction while a document is read: the elements that
/// are open, the outermost first, and the root once it is closed.
pub struct BuildState {
    pub stack: Seq<ElementModel>,
    pub root: Option<ElementModel>,
}

/// The state after one more token. An opening tag opens an element. Text
/// becomes the text of the innermost open element. A closing tag closes the
/// innermost open element, which becomes the last child of the one around
/// it, or the root where none is around it. Anything else changes nothing.
pub open spec fn after_token(s: BuildState, t: TokenModel) -> BuildState {
    match t {
        TokenModel::Start { name, attributes } => BuildState {
            stack: s.stack.push(
                ElementModel { name, attributes, value: None, children: Seq::empty() },
            ),
            root: s.root,
        },
        TokenModel::Text(text) => if s.stack.len() == 0 {
            s
        } else {
            BuildState {
                stack: s.stack.update(
                    s.stack.len() - 1,
                    ElementModel { value: Some(text), ..s.stack.last() },
                ),
                root: s.root,
            }
        },
        TokenModel::End => if s.stack.len() == 0 {
            s
        } else if s.stack.len() == 1 {
            BuildState { stack: Seq::empty(), root: Some(s.stack[0]) }
        } else {
            let closed = s.stack.last();
            let rest = s.stack.drop_last();
            let parent = rest.last();
            BuildState {
                stack: rest.update(
                    rest.len() - 1,
                    ElementModel { children: parent.children.push(closed), ..parent },
                ),
                root: s.root,
            }
        },
        TokenModel::Other => s,
    }
}

/// The state after the first `n` tokens.
pub open spec fn built(tokens: Seq<TokenModel>, n: int) -> BuildState
    decreases n,
{
    if n <= 0 || n > tokens.len() {
        BuildState { stack: Seq::empty(), root: None }
    } else {
        after_token(built(tokens, n - 1), tokens[n - 1])
    }
}

/// The tree that the tokens of a document describe: the last outermost
/// element that was closed, if there is one.
pub open spec fn tree_of(tokens: Seq<TokenModel>) -> Option<ElementModel> {
    built(tokens, tokens.len() as int).root
}

/// Text as the bytes of its UTF-8 encoding.
pub open spec fn utf8(s: Seq<char>) -> Seq<u8> {
    vstd::utf8::encode_utf8(s)
}

/// The first `n` attributes as they stand in an opening tag: each with a
/// space before it, its value escaped and in double quotes.
pub open spec fn attribute_bytes(attrs: Seq<(Seq<char>, Seq<char>)>, n: int) -> Seq<u8>
    decreases n,
{
    if n <= 0 || n > attrs.len() {
        Seq::empty()
    } else {
        attribute_bytes(attrs, n - 1) + seq![0x20u8] + utf8(attrs[n - 1].0) + seq![0x3Du8, 0x22u8]
            + escaped_bytes(utf8(attrs[n - 1].1)) + seq![0x22u8]
    }
}

/// Four spaces: one level of indentation.
pub open spec fn indent_unit() -> Seq<u8> {
    seq![0x20u8, 0x20u8, 0x20u8, 0x20u8]
}

/// `level` levels of indentation.
pub open spec fn indent_bytes(level: nat) -> Seq<u8>
    decreases level,
{
    if level == 0 {
        Seq::empty()
    } else {
        indent_bytes((level - 1) as nat) + indent_unit()
    }
}

/// A line feed where `needed`, else nothing.
pub open spec fn line_feed_if(needed: bool) -> Seq<u8> {
    if needed {
        seq![0x0Au8]
    } else {
        Seq::empty()
    }
}

/// The text of an element as it is written: on a line of its own, one level
/// deeper, where the element has children; directly behind the opening tag
/// where it has none.
pub open spec fn value_bytes(value: Option<Seq<char>>, complex: bool, indent: Seq<u8>) -> Seq<u8> {
    match value {
        Some(v) => if complex {
            indent + indent_unit() + utf8(v) + seq![0x0Au8]
        } else {
            utf8(v)
        },
        None => Seq::empty(),
    }
}

/// The start of an element as it is written: indentation, the opening tag
/// with the attributes, a line feed where the element has children, its text.
pub open spec fn head_bytes(e: ElementModel, indent: Seq<u8>) -> Seq<u8> {
    let complex = e.children.len() > 0;
    indent + seq![0x3Cu8] + (utf8(e.name) + attribute_bytes(
        e.attributes,
        e.attributes.len() as int,
    )) + seq![0x3Eu8] + line_feed_if(complex) + value_bytes(e.value, complex, indent)
}

/// The end of an element as it is written: the closing tag, on a line of
/// its own where the element has children, and a line feed unless the
/// element is a root without children.
pub open spec fn tail_bytes(e: ElementModel, indent: Seq<u8>) -> Seq<u8> {
    let complex = e.children.len() > 0;
    (if complex {
        indent
    } else {
        Seq::empty()
    }) + seq![0x3Cu8, 0x2Fu8] + utf8(e.name) + seq![0x3Eu8] + line_feed_if(
        complex || indent.len() > 0,
    )
}

/// An element as it is written at the indentation `indent`: its start, its
/// children one level deeper, its end.
pub open spec fn element_bytes(e: ElementModel, indent: Seq<u8>) -> Seq<u8>
    decreases e, 1int, 0int,
{
    head_bytes(e, indent) + children_bytes(
        e.children,
        indent + indent_unit(),
        e.children.len() as int,
    ) + tail_bytes(e, indent)
}

/// The first `n` children as they are written at the indentation `indent`.
pub open spec fn children_bytes(children: Seq<ElementModel>, indent: Seq<u8>, n: int) -> Seq<u8>
    decreases children, 0int, n,
{
    if n <= 0 || n > children.len() {
        Seq::empty()
    } else {
        children_bytes(children, indent, n - 1) + element_bytes(children[n - 1], indent)
    }
}

/// The error reported for a failure; see [`reported`].
pub fn error_of(f: Failure) -> (e: XmlError)
    ensures
        e == reported(f),
{
    match f {
        Failure::Io => XmlError::Io,
        Failure::Utf8 => XmlError::Encoding,
        Failure::EscapeError => XmlError::Escape,
        Failure::NameWithQuote => XmlError::Attribute,
        Failure::NoEqAfterName => XmlError::Attribute,
        Failure::UnquotedValue => XmlError::Attribute,
        Failure::DuplicatedAttribute => XmlError::Attribute,
        _ => XmlError::Syntax,
    }
}

/// The own error for an error of `quick_xml`: what its variant is reported
/// as; see [`reported`].
pub fn own_error(e: quick_xml::Error) -> (r: XmlError)
    ensures
        r == reported(failure_of(e)),
{
    error_of(failure_kind(&e))
}

/// The failure of the first of the first `n` attributes that could not be
/// read, if there is one.
pub open spec fn first_failure(
    items: Seq<Result<(Seq<u8>, Seq<char>), Failure>>,
    n: int,
) -> Option<Failure>
    decreases n,
{
    if n <= 0 || n > items.len() {
        None
    } else {
        match first_failure(items, n - 1) {
            Some(f) => Some(f),
            None => match items[n - 1] {
                Err(f) => Some(f),
                Ok(_) => None,
            },
        }
    }
}

/// Those of the first `n` attributes that were read, as the schema holds
/// them: the key read as UTF-8 with invalid sequences replaced, and the
/// value.
pub open spec fn attributes_read(
    items: Seq<Result<(Seq<u8>, Seq<char>), Failure>>,
    n: int,
) -> Seq<(Seq<char>, Seq<char>)>
    decreases n,
{
    if n <= 0 || n > items.len() {
        Seq::empty()
    } else {
        match items[n - 1] {
            Ok(pair) => attributes_read(items, n - 1).push((utf8_lossy_text(pair.0), pair.1)),
            Err(_) => attributes_read(items, n - 1),
        }
    }
}

/// How far the reading of a document has come: still open, with the tokens
/// so far and the number of elements that are open; or closed, with all the
/// tokens of the document or the error that ended the reading.
pub enum Scan {
    Open { tokens: Seq<TokenModel>, depth: nat },
    Closed(Result<Seq<TokenModel>, XmlError>),
}

/// The reading after one more read. A read that fails ends it with the
/// error reported for the failure, and so does the first attribute of an
/// opening tag that could not be read. The end of the document ends it with
/// the tokens so far. An opening tag gives a token with its name, read as
/// UTF-8 with invalid sequences replaced, and its attributes. Text gives a
/// token while an element is open, and ends the reading where it could not
/// be unescaped; outside every element it is passed over unread. A closing
/// tag gives a token. Anything else is passed over.
pub open spec fn after_event(
    tokens: Seq<TokenModel>,
    depth: nat,
    read: Result<EventModel, Failure>,
) -> Scan {
    match read {
        Err(f) => Scan::Closed(Err(reported(f))),
        Ok(EventModel::Eof) => Scan::Closed(Ok(tokens)),
        Ok(EventModel::Start { name, attributes }) => match first_failure(
            attributes,
            attributes.len() as int,
        ) {
            Some(f) => Scan::Closed(Err(reported(f))),
            None => Scan::Open {
                tokens: tokens.push(
                    TokenModel::Start {
                        name: utf8_lossy_text(name),
                        attributes: attributes_read(attributes, attributes.len() as int),
                    },
                ),
                depth: depth + 1,
            },
        },
        Ok(EventModel::Text(text)) => if depth == 0 {
            Scan::Open { tokens: tokens.push(TokenModel::Other), depth }
        } else {
            match text {
                Ok(t) => Scan::Open { tokens: tokens.push(TokenModel::Text(t)), depth },
                Err(f) => Scan::Closed(Err(reported(f))),
            }
        },
        Ok(EventModel::End) => Scan::Open {
            tokens: tokens.push(TokenModel::End),
            depth: if depth > 0 {
                (depth - 1) as nat
            } else {
                0
            },
        },
        Ok(EventModel::Other) => Scan::Open { tokens: tokens.push(TokenModel::Other), depth },
    }
}

/// The reading of a document after `n` reads.
pub open spec fn scanned(xml: Seq<u8>, n: nat) -> Scan
    decreases n,
{
    if n == 0 {
        Scan::Open { tokens: Seq::empty(), depth: 0 }
    } else {
        match scanned(xml, (n - 1) as nat) {
            Scan::Closed(r) => Scan::Closed(r),
            Scan::Open { tokens, depth } => after_event(
                tokens,
                depth,
                document_event(xml, (n - 1) as nat),
            ),
        }
    }
}

/// The tokens of a document, or the error that ended its reading. A
/// document is given one read more than it has bytes; one that has not
/// ended by then is refused as `Runaway`.
pub open spec fn document_tokens(xml: Seq<u8>) -> Result<Seq<TokenModel>, XmlError> {
    match scanned(xml, xml.len() + 1) {
        Scan::Closed(r) => r,
        Scan::Open { .. } => Err(XmlError::Runaway),
    }
}

/// A reading that is closed stays as it is.
pub proof fn lemma_closed_stays(xml: Seq<u8>, n: nat, m: nat)
    requires
        n <= m,
        scanned(xml, n) is Closed,
    ensures
        scanned(xml, m) == scanned(xml, n),
    decreases m,
{
    if n < m {
        lemma_closed_stays(xml, n, (m - 1) as nat);
    }
}

/// Once an attribute could not be read, the first failure is fixed.
pub proof fn lemma_first_failure_stays(
    items: Seq<Result<(Seq<u8>, Seq<char>), Failure>>,
    n: int,
    m: int,
)
    requires
        0 <= n <= m <= items.len(),
        first_failure(items, n) is Some,
    ensures
        first_failure(items, m) == first_failure(items, n),
    decreases m,
{
    if n < m {
        lemma_first_failure_stays(items, n, m - 1);
    }
}

/// The attributes of an opening tag as they were read, as mathematical
/// values.
pub open spec fn attributes_model(
    items: Seq<Result<(Vec<u8>, String), quick_xml::Error>>,
) -> Seq<Result<(Seq<u8>, Seq<char>), Failure>> {
    Seq::new(items.len(), |i: int| attribute_read(items[i]))
}

/// The attributes of an opening tag as the schema holds them, or the error
/// of the first that could not be read; see [`first_failure`] and
/// [`attributes_read`].
pub fn attributes_from(items: &Vec<Result<(Vec<u8>, String), quick_xml::Error>>) -> (r: Result<
    Vec<(String, String)>,
    XmlError,
>)
    ensures
        match first_failure(attributes_model(items@), items@.len() as int) {
            Some(f) => r == Err::<Vec<(String, String)>, XmlError>(reported(f)),
            None => r is Ok && attribute_models(r->Ok_0@) == attributes_read(
                attributes_model(items@),
                items@.len() as int,
            ),
        },
{
    let ghost model = attributes_model(items@);
    let mut out: Vec<(String, String)> = Vec::new();
    let mut i: usize = 0;
    assert(attribute_models(out@) =~= Seq::<(Seq<char>, Seq<char>)>::empty());
    while i < items.len()
        invariant
            i <= items.len(),
            model == attributes_model(items@),
            first_failure(model, i as int) is None,
            attribute_models(out@) == attributes_read(model, i as int),
        decreases items.len() - i,
    {
        assert(model[i as int] == attribute_read(items@[i as int]));
        match &items[i] {
            Ok(pair) => {
                let key = lossy_text(pair.0.as_slice());
                let value = pair.1.clone();
                let ghost before = out@;
                out.push((key, value));
                assert(attribute_models(out@) =~= attribute_models(before).push(
                    (utf8_lossy_text(pair.0@), pair.1@),
                ));
            },
            Err(e) => {
                proof {
                    lemma_first_failure_stays(model, i + 1, items@.len() as int);
                }
                return Err(error_of(failure_kind(e)));
            },
        }
        i += 1;
    }
    Ok(out)
}

/// The models of a sequence of tokens with one more.
pub proof fn lemma_token_models_push(tokens: Seq<XmlToken>, token: XmlToken)
    ensures
        token_models(tokens.push(token)) == token_models(tokens).push(token@),
{
    assert(token_models(tokens.push(token)) =~= token_models(tokens).push(token@));
}

/// One read and what it makes of the reading; see [`after_event`]. The
/// count of open elements is held at `usize::MAX`.
fn scan_event(reader: &mut EventReader, tokens: &mut Vec<XmlToken>, depth: &mut usize) -> (done:
    Option<Result<(), XmlError>>)
    ensures
        forall|k: nat| #[trigger] upcoming(*final(reader), k) == upcoming(*old(reader), k + 1),
        match after_event(
            token_models(old(tokens)@),
            *old(depth) as nat,
            upcoming(*old(reader), 0),
        ) {
            Scan::Open { tokens: t, depth: d } => done is None && token_models(final(tokens)@) == t
                && (*final(depth) == d || *old(depth) == usize::MAX),
            Scan::Closed(Ok(t)) => done == Some(Ok::<(), XmlError>(())) && token_models(
                final(tokens)@,
            ) == t,
            Scan::Closed(Err(e)) => done == Some(Err::<(), XmlError>(e)),
        },
{
    let event = match next_event(reader) {
        Ok(e) => e,
        Err(e) => {
            return Some(Err(own_error(e)));
        },
    };
    proof {
        lemma_token_models_push(tokens@, XmlToken::End);
        lemma_token_models_push(tokens@, XmlToken::Other);
    }
    match event {
        RawEvent::Eof => Some(Ok(())),
        RawEvent::Start(name, attributes) => {
            assert(event@->Start_attributes =~= attributes_model(attributes@));
            match attributes_from(&attributes) {
                Err(e) => Some(Err(e)),
                Ok(list) => {
                    let token = XmlToken::Start {
                        name: lossy_text(name.as_slice()),
                        attributes: list,
                    };
                    proof {
                        lemma_token_models_push(tokens@, token);
                    }
                    tokens.push(token);
                    if *depth < usize::MAX {
                        *depth += 1;
                    }
                    None
                },
            }
        },
        RawEvent::Text(text) => {
            if *depth == 0 {
                tokens.push(XmlToken::Other);
                None
            } else {
                match text {
                    Ok(t) => {
                        let token = XmlToken::Text(t);
                        proof {
                            lemma_token_models_push(tokens@, token);
                        }
                        tokens.push(token);
                        None
                    },
                    Err(e) => Some(Err(own_error(e))),
                }
            }
        },
        RawEvent::End => {
            tokens.push(XmlToken::End);
            if *depth > 0 {
                *depth -= 1;
            }
            None
        },
        RawEvent::Other => {
            tokens.push(XmlToken::Other);
            None
        },
    }
}

/// The tokens of a document; see [`document_tokens`].
pub fn read_tokens(xml: &[u8]) -> (r: Result<Vec<XmlToken>, XmlError>)
    ensures
        match document_tokens(xml@) {
            Ok(t) => r is Ok && token_models(r->Ok_0@) == t,
            Err(e) => r == Err::<Vec<XmlToken>, XmlError>(e),
        },
{
    let mut reader = trimming_reader(xml);
    let mut tokens: Vec<XmlToken> = Vec::new();
    let mut depth: usize = 0;
    let limit = xml.len();
    let mut count: usize = 0;
    assert(token_models(tokens@) =~= Seq::<TokenModel>::empty());
    while count < limit
        invariant
            count <= limit,
            limit == xml@.len(),
            depth <= count,
            scanned(xml@, count as nat) == (Scan::Open {
                tokens: token_models(tokens@),
                depth: depth as nat,
            }),
            forall|k: nat| #[trigger] upcoming(reader, k) == document_event(xml@, count as nat + k),
        decreases limit - count,
    {
        assert(upcoming(reader, 0) == document_event(xml@, count as nat));
        match scan_event(&mut reader, &mut tokens, &mut depth) {
            Some(Ok(_)) => {
                proof {
                    lemma_closed_stays(xml@, (count + 1) as nat, (limit + 1) as nat);
                }
                return Ok(tokens);
            },
            Some(Err(e)) => {
                proof {
                    lemma_closed_stays(xml@, (count + 1) as nat, (limit + 1) as nat);
                }
                return Err(e);
            },
            None => {},
        }
        count += 1;
    }
    assert(upcoming(reader, 0) == document_event(xml@, count as nat));
    match scan_event(&mut reader, &mut tokens, &mut depth) {
        Some(Ok(_)) => Ok(tokens),
        Some(Err(e)) => Err(e),
        None => Err(XmlError::Runaway),
    }
}

/// The model of an optional element.
pub open spec fn root_model(root: Option<XmlElement>) -> Option<ElementModel> {
    match root {
        Some(e) => Some(e@),
        None => None,
    }
}

/// The tree that the tokens of a document describe; see [`tree_of`].
pub fn tree_from_tokens(tokens: &Vec<XmlToken>) -> (root: Option<XmlElement>)
    ensures
        root_model(root) == tree_of(token_models(tokens@)),
{
    let ghost all = token_models(tokens@);
    let mut stack: Vec<XmlElement> = Vec::new();
    let mut root: Option<XmlElement> = None;
    let mut i: usize = 0;
    assert(element_models(stack@) =~= Seq::<ElementModel>::empty());
    while i < tokens.len()
        invariant
            i <= tokens.len(),
            all == token_models(tokens@),
            element_models(stack@) == built(all, i as int).stack,
            root_model(root) == built(all, i as int).root,
        decreases tokens.len() - i,
    {
        let ghost models = element_models(stack@);
        assert(all[i as int] == tokens@[i as int]@);
        match &tokens[i] {
            XmlToken::Start { name, attributes } => {
                let element = XmlElement::new(
                    name.clone(),
                    crate::schema::duplicate_attributes(attributes),
                    None,
                    Vec::new(),
                );
                proof {
                    lemma_element_models_push(stack@, element);
                    assert(element_models(Seq::<XmlElement>::empty()) =~= Seq::<
                        ElementModel,
                    >::empty());
                }
                stack.push(element);
            },
            XmlToken::Text(text) => {
                match stack.pop() {
                    Some(top) => {
                        let ghost rest = stack@;
                        let changed = XmlElement {
                            name: top.name,
                            attributes: top.attributes,
                            value: Some(text.clone()),
                            children: top.children,
                        };
                        proof {
                            lemma_children(top);
                            lemma_children(changed);
                            lemma_element_models_push(rest, changed);
                            assert(element_models(rest) =~= models.drop_last());
                            assert(element_models(rest).push(changed@) =~= models.update(
                                models.len() - 1,
                                ElementModel { value: Some(text@), ..models.last() },
                            ));
                        }
                        stack.push(changed);
                    },
                    None => {},
                }
            },
            XmlToken::End => {
                match stack.pop() {
                    Some(closed) => {
                        let ghost rest = stack@;
                        proof {
                            assert(element_models(rest) =~= models.drop_last());
                        }
                        match stack.pop() {
                            Some(parent) => {
                                let ghost outer = stack@;
                                let mut children = parent.children;
                                let ghost kids = children@;
                                proof {
                                    lemma_children(parent);
                                    lemma_element_models_push(kids, closed);
                                }
                                children.push(closed);
                                let changed = XmlElement {
                                    name: parent.name,
                                    attributes: parent.attributes,
                                    value: parent.value,
                                    children,
                                };
                                proof {
                                    lemma_children(changed);
                                    lemma_element_models_push(outer, changed);
                                    let r = models.drop_last();
                                    assert(element_models(outer) =~= r.drop_last());
                                    assert(element_models(outer).push(changed@) =~= r.update(
                                        r.len() - 1,
                                        ElementModel {
                                            children: r.last().children.push(closed@),
                                            ..r.last()
                                        },
                                    ));
                                }
                                stack.push(changed);
                            },
                            None => {
                                proof {
                                    assert(models.len() == 1);
                                    assert(element_models(stack@) =~= Seq::<ElementModel>::empty());
                                }
                                root = Some(closed);
                            },
                        }
                    },
                    None => {},
                }
            },
            XmlToken::Other => {},
        }
        i += 1;
    }
    root
}

/// The tree that an XML document describes, or `None` where it closes no
/// outermost element; see [`document_tokens`] and [`tree_of`].
pub fn parse_document(xml: &[u8]) -> (r: Result<Option<XmlElement>, XmlError>)
    ensures
        match document_tokens(xml@) {
            Ok(t) => r is Ok && root_model(r->Ok_0) == tree_of(t),
            Err(e) => r == Err::<Option<XmlElement>, XmlError>(e),
        },
{
    match read_tokens(xml) {
        Ok(tokens) => Ok(tree_from_tokens(&tokens)),
        Err(e) => Err(e),
    }
}

/// Writes bytes as they are. Writing into memory always succeeds.
pub fn put(writer: &mut EventWriter, bytes: &[u8]) -> (r: Result<(), XmlError>)
    ensures
        r is Ok,
        written(*final(writer)) == written(*old(writer)) + bytes@,
{
    match write_text(writer, bytes) {
        Ok(_) => Ok(()),
        Err(x) => Err(own_error(x)),
    }
}

/// Writes a line feed.
pub fn put_line_feed(writer: &mut EventWriter) -> (r: Result<(), XmlError>)
    ensures
        r is Ok,
        written(*final(writer)) == written(*old(writer)) + seq![0x0Au8],
{
    proof {
        lemma_line_feed();
    }
    put(writer, "\n".as_bytes())
}

/// The opening tag of an element: its name and its attributes.
pub fn tag_of(element: &XmlElement) -> (tag: BytesStart<'static>)
    ensures
        tag_bytes(tag) == utf8(element@.name) + attribute_bytes(
            element@.attributes,
            element@.attributes.len() as int,
        ),
{
    let ghost e = element@;
    let mut tag = new_tag(element.name.as_str().as_bytes());
    let mut i: usize = 0;
    assert(tag_bytes(tag) =~= utf8(e.name) + attribute_bytes(e.attributes, 0));
    while i < element.attributes.len()
        invariant
            i <= element.attributes.len(),
            e == element@,
            tag_bytes(tag) == utf8(e.name) + attribute_bytes(e.attributes, i as int),
        decreases element.attributes.len() - i,
    {
        push_attribute(&mut tag, element.attributes[i].0.as_str(), element.attributes[i].1.as_str());
        proof {
            assert(e.attributes[i as int] == (
                element.attributes@[i as int].0@,
                element.attributes@[i as int].1@,
            ));
            assert(tag_bytes(tag) =~= utf8(e.name) + attribute_bytes(e.attributes, i + 1));
        }
        i += 1;
    }
    tag
}

/// Writes the start of an element; see [`head_bytes`].
pub fn write_head(writer: &mut EventWriter, element: &XmlElement, indent: &Vec<u8>) -> (r: Result<
    (),
    XmlError,
>)
    ensures
        r is Ok,
        written(*final(writer)) == written(*old(writer)) + head_bytes(element@, indent@),
{
    let ghost start = written(*writer);
    let ghost e = element@;
    let complex = element.children.len() > 0;
    proof {
        lemma_children(*element);
    }
    match put(writer, indent.as_slice()) {
        Ok(_) => {},
        Err(x) => {
            return Err(x);
        },
    }
    let tag = tag_of(element);
    match write_start(writer, &tag) {
        Ok(_) => {},
        Err(x) => {
            return Err(own_error(x));
        },
    }
    if complex {
        match put_line_feed(writer) {
            Ok(_) => {},
            Err(x) => {
                return Err(x);
            },
        }
    }
    let ghost opened = indent@ + seq![0x3Cu8] + (utf8(e.name) + attribute_bytes(
        e.attributes,
        e.attributes.len() as int,
    )) + seq![0x3Eu8] + line_feed_if(complex);
    assert(written(*writer) =~= start + opened);
    match &element.value {
        Some(value) => {
            if complex {
                match put(writer, indent.as_slice()) {
                    Ok(_) => {},
                    Err(x) => {
                        return Err(x);
                    },
                }
                match put(writer, "    ".as_bytes()) {
                    Ok(_) => {},
                    Err(x) => {
                        return Err(x);
                    },
                }
                match put(writer, value.as_str().as_bytes()) {
                    Ok(_) => {},
                    Err(x) => {
                        return Err(x);
                    },
                }
                match put_line_feed(writer) {
                    Ok(_) => {},
                    Err(x) => {
                        return Err(x);
                    },
                }
                proof {
                    lemma_four_spaces();
                    assert(written(*writer) =~= start + opened + (indent@ + indent_unit() + utf8(
                        value@,
                    ) + seq![0x0Au8]));
                }
            } else {
                match put(writer, value.as_str().as_bytes()) {
                    Ok(_) => {},
                    Err(x) => {
                        return Err(x);
                    },
                }
            }
        },
        None => {},
    }
    assert(written(*writer) =~= start + (opened + value_bytes(e.value, complex, indent@)));
    assert(written(*writer) =~= start + head_bytes(e, indent@));
    Ok(())
}

/// Writes the end of an element; see [`tail_bytes`].
pub fn write_tail(writer: &mut EventWriter, element: &XmlElement, indent: &Vec<u8>) -> (r: Result<
    (),
    XmlError,
>)
    ensures
        r is Ok,
        written(*final(writer)) == written(*old(writer)) + tail_bytes(element@, indent@),
{
    let ghost start = written(*writer);
    let complex = element.children.len() > 0;
    proof {
        lemma_children(*element);
    }
    if complex {
        match put(writer, indent.as_slice()) {
            Ok(_) => {},
            Err(x) => {
                return Err(x);
            },
        }
    }
    match write_end(writer, element.name.as_str().as_bytes()) {
        Ok(_) => {},
        Err(x) => {
            return Err(own_error(x));
        },
    }
    if complex || indent.len() > 0 {
        match put_line_feed(writer) {
            Ok(_) => {},
            Err(x) => {
                return Err(x);
            },
        }
    }
    assert(written(*writer) =~= start + tail_bytes(element@, indent@));
    Ok(())
}

/// Writes one element with all below it at the indentation `indent`; see
/// [`element_bytes`].
pub fn write_element_at(writer: &mut EventWriter, element: &XmlElement, indent: &Vec<u8>) -> (r:
    Result<(), XmlError>)
    ensures
        r is Ok,
        written(*final(writer)) == written(*old(writer)) + element_bytes(element@, indent@),
    decreases element,
{
    let ghost start = written(*writer);
    let ghost e = element@;
    proof {
        lemma_children(*element);
    }
    match write_head(writer, element, indent) {
        Ok(_) => {},
        Err(x) => {
            return Err(x);
        },
    }
    let mut inner: Vec<u8> = Vec::new();
    let mut k: usize = 0;
    while k < indent.len()
        invariant
            k <= indent.len(),
            inner@ == indent@.take(k as int),
        decreases indent.len() - k,
    {
        inner.push(indent[k]);
        assert(inner@ =~= indent@.take(k + 1));
        k += 1;
    }
    inner.push(0x20);
    inner.push(0x20);
    inner.push(0x20);
    inner.push(0x20);
    assert(inner@ =~= indent@ + indent_unit());
    let ghost head = head_bytes(e, indent@);
    let mut j: usize = 0;
    assert(written(*writer) =~= start + (head + children_bytes(e.children, inner@, 0)));
    while j < element.children.len()
        invariant
            j <= element.children.len(),
            e == element@,
            e.children.len() == element.children@.len(),
            forall|m: int| 0 <= m < element.children@.len() ==> #[trigger] e.children[m]
                == element.children@[m]@,
            written(*writer) == start + (head + children_bytes(e.children, inner@, j as int)),
        decreases element.children.len() - j,
    {
        match write_element_at(writer, &element.children[j], &inner) {
            Ok(_) => {},
            Err(x) => {
                return Err(x);
            },
        }
        proof {
            assert(written(*writer) =~= start + (head + children_bytes(e.children, inner@, j + 1)));
        }
        j += 1;
    }
    match write_tail(writer, element, indent) {
        Ok(_) => {},
        Err(x) => {
            return Err(x);
        },
    }
    assert(written(*writer) =~= start + element_bytes(e, indent@));
    Ok(())
}

/// The bytes of the text of four spaces.
pub proof fn lemma_four_spaces()
    ensures
        "    ".spec_bytes() == indent_unit(),
{
    reveal_strlit("    ");
    let s = "    "@;
    assert(s =~= seq![' ', ' ', ' ', ' ']);
    vstd::utf8::is_ascii_chars_encode_utf8(s);
    assert("    ".spec_bytes() =~= indent_unit());
}

/// The bytes of the text of one line feed.
pub proof fn lemma_line_feed()
    ensures
        "\n".spec_bytes() == seq![0x0Au8],
{
    reveal_strlit("\n");
    let s = "\n"@;
    assert(s =~= seq!['\n']);
    vstd::utf8::is_ascii_chars_encode_utf8(s);
    assert("\n".spec_bytes() =~= seq![0x0Au8]);
}

/// `level` levels of indentation.
pub fn indent_of(level: usize) -> (indent: Vec<u8>)
    ensures
        indent@ == indent_bytes(level as nat),
{
    let mut indent: Vec<u8> = Vec::new();
    let mut i: usize = 0;
    while i < level
        invariant
            i <= level,
            indent@ == indent_bytes(i as nat),
        decreases level - i,
    {
        indent.push(0x20);
        indent.push(0x20);
        indent.push(0x20);
        indent.push(0x20);
        assert(indent@ =~= indent_bytes(i as nat) + indent_unit());
        i += 1;
    }
    indent
}

/// Writes one element with all below it at `indent_level` levels of
/// indentation, four spaces each; see [`element_bytes`].
pub fn write_element(writer: &mut EventWriter, element: &XmlElement, indent_level: usize) -> (r:
    Result<(), XmlError>)
    ensures
        r is Ok,
        written(*final(writer)) == written(*old(writer)) + element_bytes(
            element@,
            indent_bytes(indent_level as nat),
        ),
{
    let indent = indent_of(indent_level);
    write_element_at(writer, element, &indent)
}

/// The document of a tree: its root written without indentation; see
/// [`element_bytes`].
pub fn document_bytes(root: &XmlElement) -> (r: Result<Vec<u8>, XmlError>)
    ensures
        r is Ok,
        r->Ok_0@ == element_bytes(root@, Seq::empty()),
{
    let mut writer = new_writer();
    match write_element(&mut writer, root, 0) {
        Ok(_) => {
            let bytes = written_bytes(writer);
            assert(bytes@ =~= element_bytes(root@, Seq::empty()));
            Ok(bytes)
        },
        Err(e) => Err(e),
    }
}

} // verus!
