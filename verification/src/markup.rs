//! Reading markup one token at a time.

use self::MarkupKind::{End, Eof, Error, Other, Start, Text};
use quick_xml::events::Event;
use vstd::prelude::*;

verus! {

/// The kinds of token the rewriting tells apart.
#[derive(Clone, Copy, Debug, PartialEq, Eq, Structural)]
pub enum MarkupKind {
    /// An opening tag `<name ...>`.
    Start,
    /// A closing tag `</name>`.
    End,
    /// Text up to the next `<`.
    Text,
    /// Any other token: an empty element, a comment, a declaration.
    Other,
    /// The end of the input.
    Eof,
    /// The input is no markup.
    Error,
}

/// One token of markup.
#[derive(Debug)]
pub struct MarkupEvent {
    pub kind: MarkupKind,
    /// The element name of a tag; empty for any other token.
    pub name: Vec<u8>,
    /// The number of bytes between the `<` and the `>` of an opening tag;
    /// the length of the name of a closing tag; 0 for any other token.
    pub len: usize,
    /// The reader's position once it has read the token, counted from where
    /// it began.
    pub consumed: usize,
}

/// The value of a `MarkupEvent`.
pub struct MarkupEventView {
    pub kind: MarkupKind,
    pub name: Seq<u8>,
    pub len: int,
    pub consumed: int,
}

impl View for MarkupEvent {
    type V = MarkupEventView;

    open spec fn view(&self) -> MarkupEventView {
        MarkupEventView {
            kind: self.kind,
            name: self.name@,
            len: self.len as int,
            consumed: self.consumed as int,
        }
    }
}

/// The first token of `input`, as the tokenizer reads it.
pub uninterp spec fn first_token(input: Seq<u8>) -> MarkupEventView;

/// Reads the token that starts at `position`.
///
/// Trusted: calls `quick_xml::Reader::read_event` on the rest of the buffer,
/// with the check of closing names switched off, and hands back the kind of
/// the event, the name and length it carries and the reader's position.
/// Nothing is claimed of them but that they depend on the bytes read alone.
#[verifier::external_body]
pub(crate) fn read_token(buffer: &[u8], position: usize) -> (event: MarkupEvent)
    requires
        position <= buffer.len(),
    ensures
        event@ == first_token(buffer@.skip(position as int)),
{
    let mut reader = quick_xml::Reader::from_reader(&buffer[position..]);
    reader.check_end_names(false);
    let (kind, name, len) = match reader.read_event() {
        Ok(Event::Start(e)) => (Start, e.name().0.to_vec(), e.len()),
        Ok(Event::End(e)) => (End, e.name().0.to_vec(), e.len()),
        Ok(Event::Text(_)) => (Text, Vec::new(), 0),
        Ok(Event::Eof) => (Eof, Vec::new(), 0),
        Ok(_) => (Other, Vec::new(), 0),
        Err(_) => (Error, Vec::new(), 0),
    };
    MarkupEvent { kind, name, len, consumed: reader.buffer_position() }
}

/// What the minifier makes of a page.
pub uninterp spec fn minified(html: Seq<char>) -> Seq<u8>;

/// Minifies a page.
///
/// Trusted: calls `minify::html::minify`, which filters the characters of
/// its argument one by one and depends on nothing else.
#[verifier::external_body]
pub(crate) fn minify_html(html: &str) -> (r: Vec<u8>)
    ensures
        r@ == minified(html@),
{
    minify::html::minify(html).into_bytes()
}

} // verus!
