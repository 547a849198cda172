//! Reading `.modinfo` XML with quick-xml: repairing files that mismatch their
//! end tags, and finding the `<UpdateArt><Item>` name.
//!
//! The reader is quick-xml's, and the events it yields are a named result of
//! the input; the functions here are specified over those events. Writing an
//! event back is the few-line rule of quick-xml's `Writer` without
//! indentation, stated by [`written`].

use vstd::prelude::*;
use vstd::utf8::{decode_utf8, encode_utf8, valid_utf8};
use quick_xml::errors::Error::IllFormed;
use quick_xml::errors::IllFormedError::{MismatchedEndTag, MissingEndTag, UnmatchedEndTag};
use quick_xml::events::Event::{
    CData as QCData, Comment as QComment, Decl as QDecl, DocType as QDocType, Empty as QEmpty,
    End as QEnd, Eof as QEof, PI as QPI, Start as QStart, Text as QText,
};
use self::XmlEvent::{
    BadEndTag, CData, Comment, DocType, Empty, End, Eof, Error, Instruction, Start, Text,
};
use quick_xml::Reader;
use crate::text::{bytes_eq_ignore_ascii_case, bytes_eq_ignore_case, trim, trim_str, owned};

verus! {

#[verifier::external_type_specification]
#[verifier::external_body]
#[verifier::reject_recursive_types(R)]
pub struct ExXmlReader<R>(Reader<R>);

/// One result of asking the reader for its next event, as plain values.
#[derive(Debug)]
pub enum XmlEvent {
    /// The bytes between `<` and `>` of a start tag.
    Start(Vec<u8>),
    /// The name in an end tag.
    End(Vec<u8>),
    /// The bytes between `<` and `/>` of an empty element.
    Empty(Vec<u8>),
    /// Text as it stands in the input, still escaped.
    Text(Vec<u8>),
    CData(Vec<u8>),
    Comment(Vec<u8>),
    /// The bytes between `<?` and `?>` of an XML declaration or a
    /// processing instruction.
    Instruction(Vec<u8>),
    DocType(Vec<u8>),
    Eof,
    /// An end tag that does not close the open element (or closes none, or an
    /// element left open at the end); holds the name of the element it should close.
    BadEndTag(String),
    /// Any other error, by its message.
    Error(String),
}

pub enum XmlEventView {
    Start(Seq<u8>),
    End(Seq<u8>),
    Empty(Seq<u8>),
    Text(Seq<u8>),
    CData(Seq<u8>),
    Comment(Seq<u8>),
    Instruction(Seq<u8>),
    DocType(Seq<u8>),
    Eof,
    BadEndTag(Seq<char>),
    Error(Seq<char>),
}

impl View for XmlEvent {
    type V = XmlEventView;

    open spec fn view(&self) -> XmlEventView {
        match self {
            XmlEvent::Start(b) => XmlEventView::Start(b@),
            XmlEvent::End(b) => XmlEventView::End(b@),
            XmlEvent::Empty(b) => XmlEventView::Empty(b@),
            XmlEvent::Text(b) => XmlEventView::Text(b@),
            XmlEvent::CData(b) => XmlEventView::CData(b@),
            XmlEvent::Comment(b) => XmlEventView::Comment(b@),
            XmlEvent::Instruction(b) => XmlEventView::Instruction(b@),
            XmlEvent::DocType(b) => XmlEventView::DocType(b@),
            XmlEvent::Eof => XmlEventView::Eof,
            XmlEvent::BadEndTag(n) => XmlEventView::BadEndTag(n@),
            XmlEvent::Error(m) => XmlEventView::Error(m@),
        }
    }
}

/// The events, in order, that quick-xml's `Reader` over `input` yields before
/// its first `Eof`.
pub uninterp spec fn xml_events(input: Seq<u8>) -> Seq<XmlEventView>;

/// The events, in order, that `reader` will still yield before its first `Eof`.
pub uninterp spec fn xml_pending(reader: Reader<&[u8]>) -> Seq<XmlEventView>;

/// What quick-xml's `escape::unescape` gives for `text` (`None` when it fails).
pub uninterp spec fn xml_unescape(text: Seq<char>) -> Option<Seq<char>>;

/// What `String::from_utf8_lossy` gives for `bytes`.
pub uninterp spec fn utf8_lossy(bytes: Seq<u8>) -> Seq<char>;

/// quick-xml's `Reader::from_reader` over a byte slice: the new reader has
/// all the events of `input` still to yield.
#[verifier::external_body]
fn xml_reader<'a>(input: &'a [u8]) -> (r: Reader<&'a [u8]>)
    ensures
        xml_pending(r) == xml_events(input@),
{
    Reader::from_reader(input)
}

/// quick-xml's `Reader::read_event`: yields the first pending event and drops
/// it from the pending ones; once none is pending it yields `Eof` (the reader
/// stays at the end). The event is given as plain values.
#[verifier::external_body]
fn read_xml_event(reader: &mut Reader<&[u8]>) -> (ev: XmlEvent)
    ensures
        xml_pending(*old(reader)).len() > 0 ==> ev@ == xml_pending(*old(reader))[0]
            && xml_pending(*final(reader)) == xml_pending(*old(reader)).drop_first(),
        xml_pending(*old(reader)).len() == 0 ==> ev@ == XmlEventView::Eof
            && xml_pending(*final(reader)).len() == 0,
{
    match reader.read_event() {
        Ok(ev) => {
            let b = ev.to_vec();
            match ev {
                QStart(_) => Start(b), QEnd(_) => End(b), QEmpty(_) => Empty(b), QText(_) => Text(b),
                QCData(_) => CData(b), QComment(_) => Comment(b), QDecl(_) => Instruction(b),
                QPI(_) => Instruction(b), QDocType(_) => DocType(b), QEof => Eof,
            }
        }
        Err(IllFormed(MismatchedEndTag { expected, .. })) => BadEndTag(expected),
        Err(IllFormed(MissingEndTag(t))) => BadEndTag(t),
        Err(IllFormed(UnmatchedEndTag(t))) => BadEndTag(t),
        Err(e) => Error(e.to_string())
    }
}

/// quick-xml's `escape::unescape`: resolves the predefined entities and
/// character references of `text`; `None` where it reports an error. Text
/// without `&` comes back as it is.
#[verifier::external_body]
fn unescape_xml(text: &str) -> (r: Option<String>)
    ensures
        r is Some <==> xml_unescape(text@) is Some,
        r matches Some(s) ==> xml_unescape(text@) == Some(s@),
        r is None ==> exists|i: int| 0 <= i < text@.len() && text@[i] == '&',
        r matches Some(s) ==> ((forall|i: int| 0 <= i < text@.len() ==> text@[i] != '&') ==> s@
            == text@),
{
    quick_xml::escape::unescape(text).ok().map(|c| c.into_owned())
}

/// What quick-xml's `escape::escape` does to one character.
pub open spec fn escape_char(c: char) -> Seq<char> {
    if c == '<' {
        "&lt;"@
    } else if c == '>' {
        "&gt;"@
    } else if c == '&' {
        "&amp;"@
    } else if c == '\'' {
        "&apos;"@
    } else if c == '"' {
        "&quot;"@
    } else {
        seq![c]
    }
}

/// `text` with `<`, `>`, `&`, `'` and `"` replaced by their entities.
pub open spec fn xml_escape(text: Seq<char>) -> Seq<char>
    decreases text.len(),
{
    if text.len() == 0 {
        text
    } else {
        xml_escape(text.drop_last()) + escape_char(text.last())
    }
}

/// quick-xml's `escape::escape`: replaces `<`, `>`, `&`, `'` and `"` by
/// `&lt;`, `&gt;`, `&amp;`, `&apos;` and `&quot;`, and keeps every other character.
#[verifier::external_body]
fn escape_xml(text: &str) -> (r: String)
    ensures
        r@ == xml_escape(text@),
{
    quick_xml::escape::escape(text).into_owned()
}

/// `std::str::from_utf8`: the text of `bytes` when they are valid UTF-8.
#[verifier::external_body]
fn decode_utf8_text(bytes: &[u8]) -> (r: Option<String>)
    ensures
        r is Some <==> valid_utf8(bytes@),
        r matches Some(s) ==> s@ == decode_utf8(bytes@),
{
    std::str::from_utf8(bytes).ok().map(|s| s.to_owned())
}

/// `String::from_utf8_lossy`: the text of `bytes`, with each invalid sequence
/// replaced by U+FFFD; valid UTF-8 decodes as it is.
#[verifier::external_body]
fn decode_utf8_lossy(bytes: &[u8]) -> (r: String)
    ensures
        r@ == utf8_lossy(bytes@),
        valid_utf8(bytes@) ==> r@ == decode_utf8(bytes@),
{
    String::from_utf8_lossy(bytes).into_owned()
}

/// The text that `BytesText::unescape` gives for raw text content: decoded as
/// UTF-8, then unescaped; `None` when either step fails.
pub open spec fn unescaped_text(raw: Seq<u8>) -> Option<Seq<char>> {
    if valid_utf8(raw) {
        xml_unescape(decode_utf8(raw))
    } else {
        None
    }
}

/// Decodes and unescapes raw text content.
pub fn unescape_text(raw: &[u8]) -> (r: Option<String>)
    ensures
        r is Some <==> unescaped_text(raw@) is Some,
        r matches Some(s) ==> unescaped_text(raw@) == Some(s@),
{
    match decode_utf8_text(raw) {
        Some(text) => unescape_xml(text.as_str()),
        None => None,
    }
}

/// The bytes of `s`, one per character (meant for ASCII text).
pub open spec fn ascii_bytes(s: Seq<char>) -> Seq<u8> {
    Seq::new(s.len(), |i: int| s[i] as u8)
}

pub fn append_ascii(out: &mut Vec<u8>, s: &str)
    ensures
        final(out)@ == old(out)@ + ascii_bytes(s@),
{
    let n = s.unicode_len();
    let mut i: usize = 0;
    while i < n
        invariant
            n == s@.len(),
            i <= n,
            out@ == old(out)@ + ascii_bytes(s@.subrange(0, i as int)),
        decreases n - i,
    {
        let c = s.get_char(i);
        out.push(c as u8);
        assert(ascii_bytes(s@.subrange(0, i + 1)) =~= ascii_bytes(s@.subrange(0, i as int)).push(
            c as u8,
        ));
        i = i + 1;
    }
    assert(s@.subrange(0, n as int) =~= s@);
}

pub fn append_bytes(out: &mut Vec<u8>, b: &[u8])
    ensures
        final(out)@ == old(out)@ + b@,
{
    let n = b.len();
    let mut i: usize = 0;
    while i < n
        invariant
            n == b@.len(),
            i <= n,
            out@ == old(out)@ + b@.subrange(0, i as int),
        decreases n - i,
    {
        out.push(b[i]);
        assert(b@.subrange(0, i + 1) =~= b@.subrange(0, i as int).push(b@[i as int]));
        i = i + 1;
    }
    assert(b@.subrange(0, n as int) =~= b@);
}

/// The bytes quick-xml's `Writer` (without indentation) writes for an event.
pub open spec fn written(ev: XmlEventView) -> Seq<u8> {
    match ev {
        XmlEventView::Start(c) => ascii_bytes("<"@) + c + ascii_bytes(">"@),
        XmlEventView::End(n) => ascii_bytes("</"@) + n + ascii_bytes(">"@),
        XmlEventView::Empty(c) => ascii_bytes("<"@) + c + ascii_bytes("/>"@),
        XmlEventView::Text(t) => t,
        XmlEventView::CData(t) => ascii_bytes("<![CDATA["@) + t + ascii_bytes("]]>"@),
        XmlEventView::Comment(t) => ascii_bytes("<!--"@) + t + ascii_bytes("-->"@),
        XmlEventView::Instruction(c) => ascii_bytes("<?"@) + c + ascii_bytes("?>"@),
        XmlEventView::DocType(t) => ascii_bytes("<!DOCTYPE "@) + t + ascii_bytes(">"@),
        _ => Seq::empty(),
    }
}

fn wrapped(before: &str, inner: &Vec<u8>, after: &str) -> (r: Vec<u8>)
    ensures
        r@ == ascii_bytes(before@) + inner@ + ascii_bytes(after@),
{
    let mut out: Vec<u8> = Vec::new();
    append_ascii(&mut out, before);
    append_bytes(&mut out, inner.as_slice());
    append_ascii(&mut out, after);
    out
}

/// What cleaning up does with one event.
#[derive(Debug)]
pub enum CleanStep {
    /// Write these bytes and go on.
    Write(Vec<u8>),
    /// The input is at its end.
    Finish,
    /// Stop with this error.
    Fail(String),
}

pub enum CleanStepView {
    Write(Seq<u8>),
    Finish,
    Fail(Seq<char>),
}

impl View for CleanStep {
    type V = CleanStepView;

    open spec fn view(&self) -> CleanStepView {
        match self {
            CleanStep::Write(b) => CleanStepView::Write(b@),
            CleanStep::Finish => CleanStepView::Finish,
            CleanStep::Fail(m) => CleanStepView::Fail(m@),
        }
    }
}

/// Text as it is written back: unescaped (or, where that fails, decoded
/// lossily), then escaped again.
pub open spec fn cleaned_text(raw: Seq<u8>) -> Seq<u8> {
    let text = match unescaped_text(raw) {
        Some(t) => t,
        None => utf8_lossy(raw),
    };
    encode_utf8(xml_escape(text))
}

/// How cleaning up treats one event: text is re-escaped, an end tag that does
/// not match is replaced by the end tag that was expected, other errors stop.
pub open spec fn clean_step(ev: XmlEventView) -> CleanStepView {
    match ev {
        XmlEventView::Eof => CleanStepView::Finish,
        XmlEventView::Error(m) => CleanStepView::Fail(m),
        XmlEventView::BadEndTag(n) => CleanStepView::Write(written(XmlEventView::End(encode_utf8(n)))),
        XmlEventView::Text(raw) => CleanStepView::Write(cleaned_text(raw)),
        _ => CleanStepView::Write(written(ev)),
    }
}

/// The bytes cleaning up writes for `events` before it stops.
pub open spec fn cleaned_bytes(events: Seq<XmlEventView>) -> Seq<u8>
    decreases events.len(),
{
    if events.len() == 0 {
        Seq::empty()
    } else {
        match clean_step(events[0]) {
            CleanStepView::Write(b) => b + cleaned_bytes(events.drop_first()),
            _ => Seq::empty(),
        }
    }
}

/// The error cleaning up `events` stops with, if any.
pub open spec fn clean_error(events: Seq<XmlEventView>) -> Option<Seq<char>>
    decreases events.len(),
{
    if events.len() == 0 {
        None
    } else {
        match clean_step(events[0]) {
            CleanStepView::Write(_) => clean_error(events.drop_first()),
            CleanStepView::Finish => None,
            CleanStepView::Fail(m) => Some(m),
        }
    }
}

/// Decides what to do with one event when cleaning up XML.
pub fn clean_event(ev: &XmlEvent) -> (r: CleanStep)
    ensures
        r@ == clean_step(ev@),
{
    match ev {
        XmlEvent::Eof => CleanStep::Finish,
        XmlEvent::Error(m) => CleanStep::Fail(m.clone()),
        XmlEvent::BadEndTag(n) => {
            let mut name: Vec<u8> = Vec::new();
            append_bytes(&mut name, n.as_str().as_bytes());
            CleanStep::Write(wrapped("</", &name, ">"))
        },
        XmlEvent::Text(raw) => {
            let text = match unescape_text(raw.as_slice()) {
                Some(t) => t,
                None => decode_utf8_lossy(raw.as_slice()),
            };
            let escaped = escape_xml(text.as_str());
            let mut out: Vec<u8> = Vec::new();
            append_bytes(&mut out, escaped.as_str().as_bytes());
            CleanStep::Write(out)
        },
        XmlEvent::Start(c) => CleanStep::Write(wrapped("<", c, ">")),
        XmlEvent::End(n) => CleanStep::Write(wrapped("</", n, ">")),
        XmlEvent::Empty(c) => CleanStep::Write(wrapped("<", c, "/>")),
        XmlEvent::CData(t) => CleanStep::Write(wrapped("<![CDATA[", t, "]]>")),
        XmlEvent::Comment(t) => CleanStep::Write(wrapped("<!--", t, "-->")),
        XmlEvent::Instruction(c) => CleanStep::Write(wrapped("<?", c, "?>")),
        XmlEvent::DocType(t) => CleanStep::Write(wrapped("<!DOCTYPE ", t, ">")),
    }
}

/// Rewrites the XML in `input` to `output` so that a strict parser accepts it:
/// each end tag that does not match is replaced by the one that was expected,
/// and text that is not validly escaped is escaped.
pub fn sanitize_xml(input: &[u8], output: &mut Vec<u8>) -> (r: Result<(), String>)
    ensures
        final(output)@ == old(output)@ + cleaned_bytes(xml_events(input@)),
        match r {
            Ok(()) => clean_error(xml_events(input@)) is None,
            Err(e) => clean_error(xml_events(input@)) == Some(e@),
        },
{
    let mut reader = xml_reader(input);
    let ghost all = xml_events(input@);
    loop
        invariant
            all == xml_events(input@),
            output@ + cleaned_bytes(xml_pending(reader)) == old(output)@ + cleaned_bytes(all),
            clean_error(xml_pending(reader)) == clean_error(all),
        decreases xml_pending(reader).len(),
    {
        let ghost pending = xml_pending(reader);
        let ev = read_xml_event(&mut reader);
        match clean_event(&ev) {
            CleanStep::Write(bytes) => {
                proof {
                    assert(pending.len() > 0);
                }
                append_bytes(output, bytes.as_slice());
                proof {
                    assert(output@ + cleaned_bytes(xml_pending(reader)) =~= old(output)@ + cleaned_bytes(all));
                }
            },
            CleanStep::Finish => {
                proof {
                    assert(ev@ is Eof);
                    if pending.len() > 0 {
                        assert(clean_step(pending[0]) is Finish);
                    }
                    assert(cleaned_bytes(pending) =~= Seq::<u8>::empty());
                    assert(clean_error(pending) is None);
                    assert(output@ =~= output@ + cleaned_bytes(pending));
                }
                return Ok(());
            },
            CleanStep::Fail(m) => {
                proof {
                    assert(output@ =~= output@ + cleaned_bytes(pending));
                }
                return Err(m);
            },
        }
    }
}


/// The bytes XML counts as white space.
pub open spec fn is_xml_space(b: u8) -> bool {
    b == 32 || b == 13 || b == 10 || b == 9
}

/// The name of an element, given the bytes between `<` and `>` of its start
/// tag: everything up to the first white space (quick-xml's `BytesStart::name`).
pub open spec fn start_tag_name(content: Seq<u8>) -> Seq<u8>
    decreases content.len(),
{
    if content.len() == 0 || is_xml_space(content[0]) {
        Seq::empty()
    } else {
        seq![content[0]] + start_tag_name(content.drop_first())
    }
}

pub fn tag_name_of(content: &[u8]) -> (r: Vec<u8>)
    ensures
        r@ == start_tag_name(content@),
{
    let n = content.len();
    let mut out: Vec<u8> = Vec::new();
    let mut i: usize = 0;
    assert(content@.subrange(0, n as int) =~= content@);
    while i < n && !(content[i] == 32 || content[i] == 13 || content[i] == 10 || content[i] == 9)
        invariant
            n == content@.len(),
            i <= n,
            out@ == content@.subrange(0, i as int),
            start_tag_name(content@) == out@ + start_tag_name(content@.subrange(i as int, n as int)),
        decreases n - i,
    {
        let ghost rest = content@.subrange(i as int, n as int);
        assert(rest.drop_first() =~= content@.subrange(i + 1, n as int));
        out.push(content[i]);
        assert(out@ =~= content@.subrange(0, i + 1));
        assert(out@ + start_tag_name(content@.subrange(i + 1, n as int)) =~= content@.subrange(
            0,
            i as int,
        ) + start_tag_name(rest));
        i = i + 1;
    }
    assert(start_tag_name(content@.subrange(i as int, n as int)) =~= Seq::<u8>::empty());
    assert(out@ + Seq::<u8>::empty() =~= out@);
    out
}

/// What looking for the art name does with one event.
#[derive(Debug)]
pub enum ArtNameStep {
    /// Go on, inside (or not) an `UpdateArt` element and an `Item` element.
    Continue { in_update_art: bool, in_item: bool },
    /// Stop with this answer.
    Done(Option<String>),
}

pub enum ArtNameStepView {
    Continue { in_update_art: bool, in_item: bool },
    Done(Option<Seq<char>>),
}

impl View for ArtNameStep {
    type V = ArtNameStepView;

    open spec fn view(&self) -> ArtNameStepView {
        match self {
            ArtNameStep::Continue { in_update_art, in_item } => ArtNameStepView::Continue {
                in_update_art: *in_update_art,
                in_item: *in_item,
            },
            ArtNameStep::Done(None) => ArtNameStepView::Done(None),
            ArtNameStep::Done(Some(s)) => ArtNameStepView::Done(Some(s@)),
        }
    }
}

/// The unescaped text, or the empty text where unescaping fails.
pub open spec fn text_or_empty(raw: Seq<u8>) -> Seq<char> {
    match unescaped_text(raw) {
        Some(t) => t,
        None => Seq::empty(),
    }
}

/// Whether `t` ends with `.dep`, in any ASCII case.
pub open spec fn has_dep_suffix(t: Seq<char>) -> bool {
    t.len() >= 4 && crate::text::eq_ignore_case(t.subrange(t.len() - 4, t.len() as int), ".dep"@)
}

/// The art name an `Item` names: a `.dep` file name stands for the name before it.
pub open spec fn art_name_of_item(t: Seq<char>) -> Seq<char> {
    if has_dep_suffix(t) {
        t.subrange(0, t.len() - 4)
    } else {
        t
    }
}

/// One step of looking for the first non-blank text inside `<UpdateArt><Item>`
/// (tag names compared up to ASCII case).
pub open spec fn art_name_step(ev: XmlEventView, in_ua: bool, in_item: bool) -> ArtNameStepView {
    let same = ArtNameStepView::Continue { in_update_art: in_ua, in_item: in_item };
    match ev {
        XmlEventView::Start(c) => {
            let n = start_tag_name(c);
            if bytes_eq_ignore_case(n, "UpdateArt"@) {
                ArtNameStepView::Continue { in_update_art: true, in_item: in_item }
            } else if in_ua && bytes_eq_ignore_case(n, "Item"@) {
                ArtNameStepView::Continue { in_update_art: in_ua, in_item: true }
            } else {
                same
            }
        },
        XmlEventView::End(n) => {
            if bytes_eq_ignore_case(n, "UpdateArt"@) {
                ArtNameStepView::Continue { in_update_art: false, in_item: in_item }
            } else if bytes_eq_ignore_case(n, "Item"@) {
                ArtNameStepView::Continue { in_update_art: in_ua, in_item: false }
            } else {
                same
            }
        },
        XmlEventView::Text(raw) => {
            let t = trim(text_or_empty(raw));
            if in_item && t.len() > 0 {
                ArtNameStepView::Done(Some(art_name_of_item(t)))
            } else {
                same
            }
        },
        XmlEventView::Eof => ArtNameStepView::Done(None),
        XmlEventView::BadEndTag(_) => ArtNameStepView::Done(None),
        XmlEventView::Error(_) => ArtNameStepView::Done(None),
        _ => same,
    }
}

/// The answer of looking for the art name through `events`.
pub open spec fn art_name_scan(events: Seq<XmlEventView>, in_ua: bool, in_item: bool) -> Option<
    Seq<char>,
>
    decreases events.len(),
{
    if events.len() == 0 {
        None
    } else {
        match art_name_step(events[0], in_ua, in_item) {
            ArtNameStepView::Continue { in_update_art, in_item } => art_name_scan(
                events.drop_first(),
                in_update_art,
                in_item,
            ),
            ArtNameStepView::Done(r) => r,
        }
    }
}

/// The `UpdateArt` name of a `.modinfo` file's content: the XML is cleaned up
/// first (no name when that fails), then read for the first non-blank
/// `<UpdateArt><Item>` text.
pub open spec fn update_art_name(modinfo: Seq<u8>) -> Option<Seq<char>> {
    let events = xml_events(modinfo);
    if clean_error(events) is Some {
        None
    } else {
        art_name_scan(xml_events(cleaned_bytes(events)), false, false)
    }
}

/// Strips a `.dep` ending (any ASCII case) from an `Item` text.
pub fn art_name_from_item(t: &str) -> (r: String)
    ensures
        r@ == art_name_of_item(t@),
{
    let n = t.unicode_len();
    if n >= 4 && crate::text::eq_ignore_ascii_case(t.substring_char(n - 4, n), ".dep") {
        owned(t.substring_char(0, n - 4))
    } else {
        owned(t)
    }
}

/// Decides what to do with one event when looking for the art name.
pub fn art_name_event(ev: &XmlEvent, in_update_art: bool, in_item: bool) -> (r: ArtNameStep)
    ensures
        r@ == art_name_step(ev@, in_update_art, in_item),
{
    match ev {
        XmlEvent::Start(c) => {
            let n = tag_name_of(c.as_slice());
            if bytes_eq_ignore_ascii_case(n.as_slice(), "UpdateArt") {
                ArtNameStep::Continue { in_update_art: true, in_item }
            } else if in_update_art && bytes_eq_ignore_ascii_case(n.as_slice(), "Item") {
                ArtNameStep::Continue { in_update_art, in_item: true }
            } else {
                ArtNameStep::Continue { in_update_art, in_item }
            }
        },
        XmlEvent::End(n) => {
            if bytes_eq_ignore_ascii_case(n.as_slice(), "UpdateArt") {
                ArtNameStep::Continue { in_update_art: false, in_item }
            } else if bytes_eq_ignore_ascii_case(n.as_slice(), "Item") {
                ArtNameStep::Continue { in_update_art, in_item: false }
            } else {
                ArtNameStep::Continue { in_update_art, in_item }
            }
        },
        XmlEvent::Text(raw) => {
            let text = match unescape_text(raw.as_slice()) {
                Some(t) => t,
                None => String::new(),
            };
            let t = trim_str(text.as_str());
            if in_item && t.unicode_len() > 0 {
                ArtNameStep::Done(Some(art_name_from_item(t)))
            } else {
                ArtNameStep::Continue { in_update_art, in_item }
            }
        },
        XmlEvent::Eof => ArtNameStep::Done(None),
        XmlEvent::BadEndTag(_) => ArtNameStep::Done(None),
        XmlEvent::Error(_) => ArtNameStep::Done(None),
        _ => ArtNameStep::Continue { in_update_art, in_item },
    }
}

/// Finds the first `<UpdateArt><Item>` value in the content of a `.modinfo`
/// file; an `Item` that names a `.dep` file gives the name without `.dep`.
pub fn find_update_art_name(modinfo: &[u8]) -> (r: Option<String>)
    ensures
        match r {
            Some(s) => update_art_name(modinfo@) == Some(s@),
            None => update_art_name(modinfo@) is None,
        },
{
    let mut sanitized: Vec<u8> = Vec::new();
    if sanitize_xml(modinfo, &mut sanitized).is_err() {
        return None;
    }
    assert(sanitized@ =~= cleaned_bytes(xml_events(modinfo@)));
    let mut reader = xml_reader(sanitized.as_slice());
    let ghost all = xml_events(sanitized@);
    let mut in_update_art = false;
    let mut in_item = false;
    loop
        invariant
            all == xml_events(sanitized@),
            sanitized@ == cleaned_bytes(xml_events(modinfo@)),
            clean_error(xml_events(modinfo@)) is None,
            art_name_scan(all, false, false) == art_name_scan(
                xml_pending(reader),
                in_update_art,
                in_item,
            ),
        decreases xml_pending(reader).len(),
    {
        let ghost pending = xml_pending(reader);
        let ev = read_xml_event(&mut reader);
        match art_name_event(&ev, in_update_art, in_item) {
            ArtNameStep::Continue { in_update_art: a, in_item: b } => {
                proof {
                    assert(pending.len() > 0);
                }
                in_update_art = a;
                in_item = b;
            },
            ArtNameStep::Done(r) => {
                return r;
            },
        }
    }
}

// ---------------------------------------------------------------------------
// Properties

/// Text that cleaning up writes back holds no `<`, `>`, `"` or `'`: nothing
/// in it can be read as markup.
pub proof fn lemma_escaped_text_has_no_markup(t: Seq<char>)
    ensures
        forall|i: int|
            0 <= i < xml_escape(t).len() ==> {
                let c = #[trigger] xml_escape(t)[i];
                c != '<' && c != '>' && c != '"' && c != '\''
            },
    decreases t.len(),
{
    reveal_strlit("&lt;");
    reveal_strlit("&gt;");
    reveal_strlit("&amp;");
    reveal_strlit("&apos;");
    reveal_strlit("&quot;");
    if t.len() > 0 {
        lemma_escaped_text_has_no_markup(t.drop_last());
        let prev = xml_escape(t.drop_last());
        let tail = escape_char(t.last());
        assert(xml_escape(t) == prev + tail);
        assert forall|i: int| 0 <= i < xml_escape(t).len() implies {
            let c = #[trigger] xml_escape(t)[i];
            c != '<' && c != '>' && c != '"' && c != '\''
        } by {
            if i >= prev.len() {
                assert(xml_escape(t)[i] == tail[i - prev.len()]);
            } else {
                assert(xml_escape(t)[i] == prev[i]);
            }
        }
    }
}

/// An `Item` that names the `.dep` file (`.dep` in any ASCII case) gives the
/// same art name as one that names the module.
pub proof fn lemma_dep_file_names_module(module: Seq<char>, ending: Seq<char>)
    requires
        crate::text::eq_ignore_case(ending, ".dep"@),
        !has_dep_suffix(module),
    ensures
        art_name_of_item(module + ending) == module,
        art_name_of_item(module) == module,
{
    reveal_strlit(".dep");
    let t = module + ending;
    assert(t.subrange(t.len() - 4, t.len() as int) =~= ending);
    assert(t.subrange(0, t.len() - 4) =~= module);
}

/// The art name is read from the cleaned-up XML, not from the raw file:
/// two `.modinfo` contents that clean up without error to the same bytes name
/// the same art, whatever end tags or escapes had to be repaired in either
/// (an end tag in the wrong case does not hide the `UpdateArt` after it).
/// Content whose clean-up fails names no art.
pub proof fn lemma_art_name_reads_cleaned_xml(m1: Seq<u8>, m2: Seq<u8>)
    ensures
        (clean_error(xml_events(m1)) is None && clean_error(xml_events(m2)) is None
            && cleaned_bytes(xml_events(m1)) == cleaned_bytes(xml_events(m2))) ==> update_art_name(
            m1,
        ) == update_art_name(m2),
        clean_error(xml_events(m1)) is Some ==> update_art_name(m1) is None,
{
}

/// An `Item` text that is not valid UTF-8 or not validly escaped gives no
/// name: the search goes on as before, inside the same elements.
pub proof fn lemma_undecodable_item_text_is_skipped(raw: Seq<u8>, in_update_art: bool, in_item: bool)
    requires
        unescaped_text(raw) is None,
    ensures
        art_name_step(XmlEventView::Text(raw), in_update_art, in_item)
            == (ArtNameStepView::Continue { in_update_art, in_item }),
{
}

} // verus!
