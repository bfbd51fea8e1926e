//! Heading identifiers and the result of a run over the content files.

use crate::text::{append, decimal, decimal_of, to_vec, trim, trimmed};
use vstd::prelude::*;
use vstd::string::StringSliceAdditionalSpecFns;

pub mod content_variables;
pub mod contents_balance;
pub mod front_matter;
pub mod markdown;
pub mod pipeline;
pub mod post_list;
pub mod preliminary_analysis;
pub mod rewrite;
pub mod value_text;

verus! {

/// A digit `0` to `9`.
pub open spec fn is_ascii_digit(b: u8) -> bool {
    0x30 <= b && b <= 0x39
}

/// A letter `a` to `z`.
pub open spec fn is_ascii_lower(b: u8) -> bool {
    0x61 <= b && b <= 0x7a
}

/// A letter `A` to `Z`.
pub open spec fn is_ascii_upper(b: u8) -> bool {
    0x41 <= b && b <= 0x5a
}

/// The bytes an identifier is made of: lowercase letters, digits and `-`.
pub open spec fn is_id_byte(b: u8) -> bool {
    is_ascii_lower(b) || is_ascii_digit(b) || b == 0x2d
}

/// What one byte of a name contributes to the identifier: a letter or digit
/// gives itself in lowercase, a space or `_` gives `-`, anything else nothing.
pub open spec fn id_of_byte(b: u8) -> Seq<u8> {
    if is_ascii_digit(b) || is_ascii_lower(b) {
        seq![b]
    } else if is_ascii_upper(b) {
        seq![(b + 0x20) as u8]
    } else if b == 0x20 || b == 0x5f {
        seq![0x2du8]
    } else {
        Seq::empty()
    }
}

/// The contributions of all bytes of `s`, in order.
pub open spec fn id_of_bytes(s: Seq<u8>) -> Seq<u8>
    decreases s.len(),
{
    if s.len() == 0 {
        Seq::empty()
    } else {
        id_of_bytes(s.drop_last()) + id_of_byte(s.last())
    }
}

/// `s` without its first byte, if that is an ASCII digit.
pub open spec fn strip_digit(s: Seq<u8>) -> Seq<u8> {
    if s.len() > 0 && is_ascii_digit(s[0]) {
        s.skip(1)
    } else {
        s
    }
}

/// `s` without its first byte, if that is a `.`.
pub open spec fn strip_dot(s: Seq<u8>) -> Seq<u8> {
    if s.len() > 0 && s[0] == 0x2e {
        s.skip(1)
    } else {
        s
    }
}

/// The identifier of a heading: one leading digit is dropped, then one
/// leading `.`, the rest is trimmed and mapped byte by byte.
pub open spec fn id_from_name(name: Seq<u8>) -> Seq<u8> {
    id_of_bytes(trim(strip_dot(strip_digit(name))))
}

/// An identifier holds nothing but lowercase letters, digits and `-`.
pub proof fn lemma_id_bytes(s: Seq<u8>)
    ensures
        forall|i: int| 0 <= i < id_of_bytes(s).len() ==> is_id_byte(#[trigger] id_of_bytes(s)[i]),
    decreases s.len(),
{
    if s.len() > 0 {
        lemma_id_bytes(s.drop_last());
        let head = id_of_bytes(s.drop_last());
        let tail = id_of_byte(s.last());
        assert forall|i: int| 0 <= i < id_of_bytes(s).len() implies is_id_byte(
            #[trigger] id_of_bytes(s)[i],
        ) by {
            if i < head.len() {
                assert(id_of_bytes(s)[i] == head[i]);
            } else {
                assert(id_of_bytes(s)[i] == tail[i - head.len()]);
            }
        }
    }
}

/// Every identifier is made of lowercase ASCII letters, digits and `-` alone,
/// whatever the name.
pub proof fn lemma_id_alphabet(name: Seq<u8>)
    ensures
        forall|i: int|
            0 <= i < id_from_name(name).len() ==> is_id_byte(#[trigger] id_from_name(name)[i]),
{
    lemma_id_bytes(trim(strip_dot(strip_digit(name))));
}

/// A leading digit and a leading `.` are taken off once each: of a name that
/// starts with a digit and a `.`, exactly those two bytes are dropped, and a
/// second digit or `.` behind them is kept as part of the name.
pub proof fn lemma_id_strips_once(d: u8, rest: Seq<u8>)
    requires
        is_ascii_digit(d),
    ensures
        id_from_name(seq![d, 0x2eu8] + rest) == id_of_bytes(trim(rest)),
        id_from_name(seq![d] + rest) == id_of_bytes(trim(strip_dot(rest))),
        id_from_name(seq![0x2eu8] + rest) == id_of_bytes(trim(rest)),
{
    assert((seq![d, 0x2eu8] + rest).skip(1).skip(1) =~= rest);
    assert((seq![d] + rest).skip(1) =~= rest);
    assert((seq![0x2eu8] + rest).skip(1) =~= rest);
}

/// Derives the anchor identifier of a heading from its text.
pub fn get_id_from_name(name: &[u8]) -> (id: Vec<u8>)
    ensures
        id@ == id_from_name(name@),
        forall|i: int| 0 <= i < id@.len() ==> is_id_byte(#[trigger] id@[i]),
{
    let mut start: usize = 0;
    if start < name.len() && 0x30 <= name[start] && name[start] <= 0x39 {
        start += 1;
    }
    assert(name@.skip(start as int) =~= strip_digit(name@));
    if start < name.len() && name[start] == 0x2e {
        assert(name@.skip(start as int).skip(1) =~= name@.skip(start + 1));
        start += 1;
    }
    let rest = trimmed(vstd::slice::slice_subrange(name, start, name.len()));
    assert(name@.subrange(start as int, name.len() as int) =~= strip_dot(strip_digit(name@)));
    let mut id: Vec<u8> = Vec::new();
    let mut i: usize = 0;
    while i < rest.len()
        invariant
            i <= rest.len(),
            id@ == id_of_bytes(rest@.take(i as int)),
        decreases rest.len() - i,
    {
        let b = rest[i];
        assert(rest@.take(i + 1).drop_last() =~= rest@.take(i as int));
        if (0x30 <= b && b <= 0x39) || (0x61 <= b && b <= 0x7a) {
            id.push(b);
        } else if 0x41 <= b && b <= 0x5a {
            id.push(b + 0x20);
        } else if b == 0x20 || b == 0x5f {
            id.push(0x2d);
        }
        assert(id@ =~= id_of_bytes(rest@.take(i as int)) + id_of_byte(b));
        i += 1;
    }
    assert(rest@.take(rest.len() as int) =~= rest@);
    assert(id@ == id_from_name(name@));
    proof {
        lemma_id_alphabet(name@);
    }
    id
}

/// What the cache keeps of a content file.
#[derive(Debug)]
pub struct ContentCache {}

/// What went wrong, or what was found wanting, in one content file.
#[derive(Clone, Copy, Debug, PartialEq, Eq, Structural)]
pub enum ErrorKind {
    /// A `{{` has no `}}` behind it; the position is that of the `{{`.
    UnterminatedVariable,
    /// A `{{key}}` names a key that the variable store does not hold; the
    /// detail is the key, the position that of the `{{`.
    UnknownVariable,
    /// The front matter lacks a required field; the detail is its key.
    MissingField,
    /// A front-matter field has another type than required; the detail is
    /// its key.
    WrongFieldType,
    /// A front-matter value is no array, string, boolean or number and does
    /// not read as a timestamp either; the detail is the value.
    InvalidTimestamp,
    /// The path of a markdown file names no known section; the detail is the
    /// path.
    UnknownSection,
    /// No directory from the file up to the project holds a template; the
    /// detail is the path of the file.
    TemplateNotFound,
    /// A citation marker has no `](` between description and links; the
    /// position is that of the marker.
    MalformedCitation,
    /// A link of a citation is no URL; the detail is the link.
    InvalidUrl,
    /// The markup could not be tokenized; the position is the offset at
    /// which the tokenizer gave up.
    Markup,
    /// An element name is not valid UTF-8; the position is the offset behind
    /// its tag.
    InvalidEncoding,
    /// The text is not valid UTF-8.
    InvalidText,
    /// Templates kept including one another until the allowed number of
    /// insertions was used up.
    RewriteLimit,
    /// A content file does not lie below the directory it should lie below;
    /// the detail is its path.
    OutsideProject,
    /// A file could not be read; the detail is its path.
    Unreadable,
    /// An array value of the front matter does not end with `]`.
    UnterminatedArray,
    /// A string value of the front matter does not end with `"`.
    UnterminatedString,
    /// The last link of a citation does not point to the web archive.
    CitationWithoutArchive,
    /// A citation has no link at all.
    CitationWithoutLink,
}

/// An error or a warning: its kind, a byte offset where one is known (else
/// 0), and a detail such as a key or a path (else empty).
#[derive(Debug)]
pub struct ContentError {
    pub kind: ErrorKind,
    pub position: usize,
    pub detail: Vec<u8>,
}

/// The value of a `ContentError`.
pub struct ErrorView {
    pub kind: ErrorKind,
    pub position: int,
    pub detail: Seq<u8>,
}

impl View for ContentError {
    type V = ErrorView;

    open spec fn view(&self) -> ErrorView {
        ErrorView { kind: self.kind, position: self.position as int, detail: self.detail@ }
    }
}

impl ContentError {
    /// An error with a detail.
    pub fn new(kind: ErrorKind, position: usize, detail: &[u8]) -> (r: ContentError)
        ensures
            r@ == (ErrorView { kind, position: position as int, detail: detail@ }),
    {
        ContentError { kind, position, detail: crate::text::to_vec(detail) }
    }

    /// An error without a detail.
    pub fn at(kind: ErrorKind, position: usize) -> (r: ContentError)
        ensures
            r@ == (ErrorView { kind, position: position as int, detail: Seq::empty() }),
    {
        ContentError { kind, position, detail: Vec::new() }
    }
}

/// What an error of the given kind says.
pub open spec fn label(kind: ErrorKind) -> Seq<u8> {
    match kind {
        ErrorKind::UnterminatedVariable => "Unable to find end of variable".spec_bytes(),
        ErrorKind::UnknownVariable => "Unable to find variable with key".spec_bytes(),
        ErrorKind::MissingField => "Unable to find field with key".spec_bytes(),
        ErrorKind::WrongFieldType => "Field is not of the type required".spec_bytes(),
        ErrorKind::InvalidTimestamp => "Value is no array, string, boolean, number or time".spec_bytes(),
        ErrorKind::UnknownSection => "Unable to determine content type for path".spec_bytes(),
        ErrorKind::TemplateNotFound => "Template not found for file".spec_bytes(),
        ErrorKind::MalformedCitation => "Unable to find opening bracket for cite note".spec_bytes(),
        ErrorKind::InvalidUrl => "Link of cite note names no host".spec_bytes(),
        ErrorKind::Markup => "Unable to read markup".spec_bytes(),
        ErrorKind::InvalidEncoding => "Element name is not valid UTF-8".spec_bytes(),
        ErrorKind::InvalidText => "Text is not valid UTF-8".spec_bytes(),
        ErrorKind::RewriteLimit => "Templates include one another without end".spec_bytes(),
        ErrorKind::OutsideProject => "File lies outside the project".spec_bytes(),
        ErrorKind::Unreadable => "Unable to read file".spec_bytes(),
        ErrorKind::UnterminatedArray => "Array variable is not closed with ']' character".spec_bytes(),
        ErrorKind::UnterminatedString => "String variable is not closed with '\"' character".spec_bytes(),
        ErrorKind::CitationWithoutArchive => "Cite note do not have link for 'web.archive.org'".spec_bytes(),
        ErrorKind::CitationWithoutLink => "Cite note do not have any link".spec_bytes(),
    }
}

/// An error in words: what its kind says, its detail where it has one, and
/// its position.
pub open spec fn message_of(error: ErrorView) -> Seq<u8> {
    label(error.kind) + (if error.detail.len() > 0 {
        " '".spec_bytes() + error.detail + "'".spec_bytes()
    } else {
        Seq::empty()
    }) + ". In position ".spec_bytes() + decimal(error.position as nat) + ".".spec_bytes()
}

/// The words for an error of the given kind.
fn label_of(kind: ErrorKind) -> (r: &'static str)
    ensures
        r.spec_bytes() == label(kind),
{
    match kind {
        ErrorKind::UnterminatedVariable => "Unable to find end of variable",
        ErrorKind::UnknownVariable => "Unable to find variable with key",
        ErrorKind::MissingField => "Unable to find field with key",
        ErrorKind::WrongFieldType => "Field is not of the type required",
        ErrorKind::InvalidTimestamp => "Value is no array, string, boolean, number or time",
        ErrorKind::UnknownSection => "Unable to determine content type for path",
        ErrorKind::TemplateNotFound => "Template not found for file",
        ErrorKind::MalformedCitation => "Unable to find opening bracket for cite note",
        ErrorKind::InvalidUrl => "Link of cite note names no host",
        ErrorKind::Markup => "Unable to read markup",
        ErrorKind::InvalidEncoding => "Element name is not valid UTF-8",
        ErrorKind::InvalidText => "Text is not valid UTF-8",
        ErrorKind::RewriteLimit => "Templates include one another without end",
        ErrorKind::OutsideProject => "File lies outside the project",
        ErrorKind::Unreadable => "Unable to read file",
        ErrorKind::UnterminatedArray => "Array variable is not closed with ']' character",
        ErrorKind::UnterminatedString => "String variable is not closed with '\"' character",
        ErrorKind::CitationWithoutArchive => "Cite note do not have link for 'web.archive.org'",
        ErrorKind::CitationWithoutLink => "Cite note do not have any link",
    }
}

impl ContentError {
    /// The error in words.
    pub fn message(&self) -> (r: Vec<u8>)
        ensures
            r@ == message_of(self@),
    {
        let mut out = to_vec(label_of(self.kind).as_bytes());
        if self.detail.len() > 0 {
            append(&mut out, " '".as_bytes());
            append(&mut out, self.detail.as_slice());
            append(&mut out, "'".as_bytes());
        }
        append(&mut out, ". In position ".as_bytes());
        append(&mut out, decimal_of(self.position).as_slice());
        append(&mut out, ".".as_bytes());
        assert(out@ =~= message_of(self@));
        out
    }
}

/// The values of a sequence of errors.
pub open spec fn error_views(errors: Seq<ContentError>) -> Seq<ErrorView> {
    errors.map_values(|e: ContentError| e@)
}

/// The errors and warnings collected so far.
#[derive(Debug)]
pub struct ContentResult {
    errors: Vec<ContentError>,
    warnings: Vec<ContentError>,
}

/// The value of a `ContentResult`.
pub struct ResultView {
    pub errors: Seq<ErrorView>,
    pub warnings: Seq<ErrorView>,
}

impl View for ContentResult {
    type V = ResultView;

    closed spec fn view(&self) -> ResultView {
        ResultView { errors: error_views(self.errors@), warnings: error_views(self.warnings@) }
    }
}

impl ContentResult {
    /// The result that holds nothing.
    pub fn new() -> (r: Self)
        ensures
            r@.errors == Seq::<ErrorView>::empty(),
            r@.warnings == Seq::<ErrorView>::empty(),
    {
        let r = Self { errors: Vec::new(), warnings: Vec::new() };
        assert(error_views(r.errors@) =~= Seq::<ErrorView>::empty());
        assert(error_views(r.warnings@) =~= Seq::<ErrorView>::empty());
        r
    }

    /// Records an error.
    pub fn push_error(&mut self, error: ContentError)
        ensures
            final(self)@.errors == old(self)@.errors.push(error@),
            final(self)@.warnings == old(self)@.warnings,
    {
        self.errors.push(error);
        assert(error_views(self.errors@) =~= error_views(old(self).errors@).push(error@));
    }

    /// Records a warning.
    pub fn push_warning(&mut self, warning: ContentError)
        ensures
            final(self)@.warnings == old(self)@.warnings.push(warning@),
            final(self)@.errors == old(self)@.errors,
    {
        self.warnings.push(warning);
        assert(error_views(self.warnings@) =~= error_views(old(self).warnings@).push(warning@));
    }

    /// The errors, in the order in which they were recorded.
    pub fn errors(&self) -> (r: &[ContentError])
        ensures
            error_views(r@) == self@.errors,
    {
        self.errors.as_slice()
    }

    /// The warnings, in the order in which they were recorded.
    pub fn warnings(&self) -> (r: &[ContentError])
        ensures
            error_views(r@) == self@.warnings,
    {
        self.warnings.as_slice()
    }

    /// Moves the errors and warnings of `other` behind those of `self`.
    pub fn merge(&mut self, other: ContentResult)
        ensures
            final(self)@.errors == old(self)@.errors + other@.errors,
            final(self)@.warnings == old(self)@.warnings + other@.warnings,
    {
        let mut moved = other;
        self.errors.append(&mut moved.errors);
        self.warnings.append(&mut moved.warnings);
        assert(error_views(self.errors@) =~= error_views(old(self).errors@) + error_views(
            other.errors@,
        ));
        assert(error_views(self.warnings@) =~= error_views(old(self).warnings@) + error_views(
            other.warnings@,
        ));
    }
}

} // verus!
