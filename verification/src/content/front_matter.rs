//! The values of the front matter of a markdown file.

use crate::content::{is_ascii_digit, is_ascii_upper, ContentError, ContentResult, ErrorKind,
    ErrorView};
use crate::text::{as_text, bytes_eq, fields, find, find_byte, find_in, index_of,
    lemma_find_bounds, lemma_index_of, lemma_trim_shorter, ranges_of, replace_range, splice,
    split_fields, to_vec, trim, trimmed};
use chrono::{DateTime, Utc};
use vstd::prelude::*;
use vstd::utf8::{decode_utf8, valid_utf8};

verus! {

/// A value of the front matter.
#[derive(Debug)]
pub enum VariableValue {
    String(Vec<u8>),
    Bool(bool),
    /// A number, as it is written.
    Number(Vec<u8>),
    Array(Vec<VariableValue>),
    /// A point in time, in nanoseconds since 1970-01-01 00:00:00 UTC.
    Date(i64),
}

/// The value of a `VariableValue`.
pub enum ValueView {
    String(Seq<u8>),
    Bool(bool),
    Number(Seq<u8>),
    Array(Seq<ValueView>),
    Date(int),
}

impl View for VariableValue {
    type V = ValueView;

    open spec fn view(&self) -> ValueView
        decreases self,
    {
        match self {
            VariableValue::String(text) => ValueView::String(text@),
            VariableValue::Bool(b) => ValueView::Bool(*b),
            VariableValue::Number(text) => ValueView::Number(text@),
            VariableValue::Array(items) => ValueView::Array(
                Seq::new(
                    items.len() as nat,
                    |i: int|
                        if 0 <= i < items.len() {
                            items[i].view()
                        } else {
                            ValueView::Bool(false)
                        },
                ),
            ),
            VariableValue::Date(nanos) => ValueView::Date(*nanos as int),
        }
    }
}

/// The offset behind the digits that stand in `s` from `i` on.
pub open spec fn digits_end(s: Seq<u8>, i: int) -> int
    decreases s.len() - i,
{
    if 0 <= i < s.len() && is_ascii_digit(s[i]) {
        digits_end(s, i + 1)
    } else {
        i
    }
}

/// A sign, `+` or `-`.
pub open spec fn is_sign(b: u8) -> bool {
    b == 0x2b || b == 0x2d
}

/// `b` in lowercase.
pub open spec fn lower(b: u8) -> u8 {
    if is_ascii_upper(b) {
        (b + 0x20) as u8
    } else {
        b
    }
}

/// `s` in lowercase.
pub open spec fn lowered(s: Seq<u8>) -> Seq<u8> {
    s.map_values(|b: u8| lower(b))
}

/// Whether `s` is a decimal number: digits with at most one `.` among them,
/// at least one digit in all, and at the end an exponent or nothing.
pub open spec fn is_decimal(s: Seq<u8>) -> bool {
    let whole_end = digits_end(s, 0);
    let fraction = whole_end < s.len() && s[whole_end] == 0x2e;
    let mantissa_end = if fraction {
        digits_end(s, whole_end + 1)
    } else {
        whole_end
    };
    let digits = if fraction {
        mantissa_end - 1
    } else {
        mantissa_end
    };
    digits > 0 && (mantissa_end == s.len() || is_exponent(s.skip(mantissa_end)))
}

/// Whether `s` is an exponent: `e`, a sign or none, and digits.
pub open spec fn is_exponent(s: Seq<u8>) -> bool {
    let start = if s.len() > 1 && is_sign(s[1]) {
        2int
    } else {
        1int
    };
    s.len() > 0 && lower(s[0]) == 0x65 && digits_end(s, start) > start && digits_end(s, start)
        == s.len()
}

/// Whether `s` is a number: a sign or none, then a decimal number, `inf`,
/// `infinity` or `nan`; in the words, the case of the letters does not
/// count.
pub open spec fn is_number(s: Seq<u8>) -> bool {
    let body = if s.len() > 0 && is_sign(s[0]) {
        s.skip(1)
    } else {
        s
    };
    ||| is_decimal(body)
    ||| lowered(body) == seq![0x69u8, 0x6eu8, 0x66u8]
    ||| lowered(body) == seq![0x69u8, 0x6eu8, 0x66u8, 0x69u8, 0x6eu8, 0x69u8, 0x74u8, 0x79u8]
    ||| lowered(body) == seq![0x6eu8, 0x61u8, 0x6eu8]
}

/// Finds the end of a run of digits.
fn skip_digits(s: &[u8], i: usize) -> (r: usize)
    requires
        i <= s.len(),
    ensures
        r == digits_end(s@, i as int),
        i <= r <= s.len(),
{
    let mut r = i;
    while r < s.len() && 0x30 <= s[r] && s[r] <= 0x39
        invariant
            i <= r <= s.len(),
            digits_end(s@, i as int) == digits_end(s@, r as int),
        decreases s.len() - r,
    {
        r += 1;
    }
    r
}

/// Whether `s` is `word` but for the case of its letters.
fn is_word(s: &[u8], word: &[u8]) -> (r: bool)
    ensures
        r == (lowered(s@) == word@),
{
    if s.len() != word.len() {
        return false;
    }
    let mut i: usize = 0;
    while i < s.len()
        invariant
            i <= s.len(),
            s.len() == word.len(),
            forall|j: int| 0 <= j < i ==> lower(s@[j]) == word@[j],
        decreases s.len() - i,
    {
        let b = s[i];
        let low = if 0x41 <= b && b <= 0x5a {
            b + 0x20
        } else {
            b
        };
        if low != word[i] {
            assert(lowered(s@)[i as int] != word@[i as int]);
            return false;
        }
        i += 1;
    }
    assert(lowered(s@) =~= word@);
    true
}

/// Whether `s` reads as a number.
pub fn reads_as_number(s: &[u8]) -> (r: bool)
    ensures
        r == is_number(s@),
{
    let start: usize = if s.len() > 0 && (s[0] == 0x2b || s[0] == 0x2d) {
        1
    } else {
        0
    };
    let body = vstd::slice::slice_subrange(s, start, s.len());
    assert(body@ =~= if s@.len() > 0 && is_sign(s@[0]) {
        s@.skip(1)
    } else {
        s@
    });
    let inf: [u8; 3] = [0x69, 0x6e, 0x66];
    let infinity: [u8; 8] = [0x69, 0x6e, 0x66, 0x69, 0x6e, 0x69, 0x74, 0x79];
    let nan: [u8; 3] = [0x6e, 0x61, 0x6e];
    assert(inf@ =~= seq![0x69u8, 0x6eu8, 0x66u8]);
    assert(infinity@ =~= seq![0x69u8, 0x6eu8, 0x66u8, 0x69u8, 0x6eu8, 0x69u8, 0x74u8, 0x79u8]);
    assert(nan@ =~= seq![0x6eu8, 0x61u8, 0x6eu8]);
    if is_word(body, inf.as_slice()) || is_word(body, infinity.as_slice()) || is_word(
        body,
        nan.as_slice(),
    ) {
        return true;
    }
    let whole_end = skip_digits(body, 0);
    let fraction = whole_end < body.len() && body[whole_end] == 0x2e;
    let mantissa_end = if fraction {
        skip_digits(body, whole_end + 1)
    } else {
        whole_end
    };
    let digits = if fraction {
        mantissa_end - 1
    } else {
        mantissa_end
    };
    if digits == 0 {
        return false;
    }
    if mantissa_end == body.len() {
        return true;
    }
    let tail = vstd::slice::slice_subrange(body, mantissa_end, body.len());
    assert(tail@ =~= body@.skip(mantissa_end as int));
    if tail[0] != 0x65 && tail[0] != 0x45 {
        return false;
    }
    let from: usize = if tail.len() > 1 && (tail[1] == 0x2b || tail[1] == 0x2d) {
        2
    } else {
        1
    };
    let end = skip_digits(tail, from);
    end > from && end == tail.len()
}

/// The point in time that a text names, in nanoseconds since 1970-01-01
/// 00:00:00 UTC; none where the text names no time, or one that does not fit.
pub uninterp spec fn parsed_timestamp(text: Seq<char>) -> Option<int>;

/// Reads a point in time.
///
/// Trusted: parses the text with chrono's `FromStr` for `DateTime<Utc>`,
/// which takes a relaxed form of RFC 3339, and gives the time as
/// `timestamp_nanos_opt` does. None stands for a text that does not parse
/// and for a time outside the range of that count alike.
#[verifier::external_body]
fn parse_timestamp(text: &str) -> (r: Option<i64>)
    ensures
        r matches Some(nanos) ==> parsed_timestamp(text@) == Some(nanos as int),
        r is None ==> parsed_timestamp(text@) is None,
{
    text.parse::<DateTime<Utc>>().ok().and_then(|d| d.timestamp_nanos_opt())
}

/// The point in time that the bytes of a text name.
pub open spec fn timestamp_of(value: Seq<u8>) -> Option<int> {
    if valid_utf8(value) {
        parsed_timestamp(decode_utf8(value))
    } else {
        None
    }
}

/// What was read of a value: the value or the error, and the warnings that
/// came up on the way.
pub struct Parsed {
    pub value: Result<ValueView, ErrorView>,
    pub warnings: Seq<ErrorView>,
}

/// What was read of the items of an array.
pub struct ParsedItems {
    pub value: Result<Seq<ValueView>, ErrorView>,
    pub warnings: Seq<ErrorView>,
}

/// A warning or error about the value `text`.
pub open spec fn about(kind: ErrorKind, text: Seq<u8>) -> ErrorView {
    ErrorView { kind, position: 0, detail: text }
}

/// What stands between the first and the last byte of `value`.
pub open spec fn inner(value: Seq<u8>) -> Seq<u8> {
    if value.len() > 1 {
        value.subrange(1, value.len() - 1)
    } else {
        Seq::empty()
    }
}

/// `true`.
pub open spec fn word_true() -> Seq<u8> {
    seq![0x74u8, 0x72u8, 0x75u8, 0x65u8]
}

/// `false`.
pub open spec fn word_false() -> Seq<u8> {
    seq![0x66u8, 0x61u8, 0x6cu8, 0x73u8, 0x65u8]
}

/// The value that `text` stands for.
///
/// The text is trimmed. What starts with `[` is an array: what stands
/// between its first and its last byte is cut at every `,`, and each part is
/// a value. What starts with `"` is a string: what stands between its first
/// and its last byte, trimmed. `true` and `false` are booleans. What reads
/// as a number is one. Anything else is a point in time, or an error. An
/// array that does not end with `]`, or a string that does not end with `"`,
/// gives a warning.
pub open spec fn parse_value(text: Seq<u8>) -> Parsed
    decreases text.len(), 0nat,
    via parse_value_decreases
{
    let value = trim(text);
    if value.len() > 0 && value[0] == 0x5b {
        let items = parse_items(inner(value));
        match items.value {
            Err(error) => Parsed { value: Err(error), warnings: items.warnings },
            Ok(values) => Parsed {
                value: Ok(ValueView::Array(values)),
                warnings: if value.last() != 0x5d {
                    items.warnings.push(about(ErrorKind::UnterminatedArray, value))
                } else {
                    items.warnings
                },
            },
        }
    } else if value.len() > 0 && value[0] == 0x22 {
        Parsed {
            value: Ok(ValueView::String(trim(inner(value)))),
            warnings: if value.last() != 0x22 {
                seq![about(ErrorKind::UnterminatedString, value)]
            } else {
                Seq::empty()
            },
        }
    } else if value == word_true() {
        Parsed { value: Ok(ValueView::Bool(true)), warnings: Seq::empty() }
    } else if value == word_false() {
        Parsed { value: Ok(ValueView::Bool(false)), warnings: Seq::empty() }
    } else if is_number(value) {
        Parsed { value: Ok(ValueView::Number(value)), warnings: Seq::empty() }
    } else {
        match timestamp_of(value) {
            Some(nanos) => Parsed { value: Ok(ValueView::Date(nanos)), warnings: Seq::empty() },
            None => Parsed {
                value: Err(about(ErrorKind::InvalidTimestamp, value)),
                warnings: Seq::empty(),
            },
        }
    }
}

/// The values that the parts of `list` between its `,` stand for. The first
/// part that is an error is the error of the list.
pub open spec fn parse_items(list: Seq<u8>) -> ParsedItems
    decreases list.len(), 1nat,
    via parse_items_decreases
{
    let end = index_of(list, 0x2c);
    let first = parse_value(list.take(end));
    match first.value {
        Err(error) => ParsedItems { value: Err(error), warnings: first.warnings },
        Ok(value) => if end < list.len() {
            behind(seq![value], first.warnings, parse_items(list.skip(end + 1)))
        } else {
            ParsedItems { value: Ok(seq![value]), warnings: first.warnings }
        },
    }
}

/// The items `rest` behind the values and warnings that came before them.
pub open spec fn behind(
    values: Seq<ValueView>,
    warnings: Seq<ErrorView>,
    rest: ParsedItems,
) -> ParsedItems {
    ParsedItems {
        value: match rest.value {
            Ok(more) => Ok(values + more),
            Err(error) => Err(error),
        },
        warnings: warnings + rest.warnings,
    }
}

#[via_fn]
proof fn parse_value_decreases(text: Seq<u8>) {
    lemma_trim_shorter(text);
}

#[via_fn]
proof fn parse_items_decreases(list: Seq<u8>) {
    lemma_index_of(list, 0x2c);
}

/// The values of a sequence of front-matter values.
pub open spec fn value_views(items: Seq<VariableValue>) -> Seq<ValueView> {
    items.map_values(|item: VariableValue| item@)
}

/// Items behind nothing are the items.
pub proof fn lemma_behind_nothing(rest: ParsedItems)
    ensures
        behind(Seq::empty(), Seq::empty(), rest) == rest,
{
    assert(Seq::<ErrorView>::empty() + rest.warnings =~= rest.warnings);
    match rest.value {
        Ok(more) => {
            assert(Seq::<ValueView>::empty() + more =~= more);
        },
        Err(_) => {},
    }
}

/// Putting items behind others in two steps is putting them behind all.
pub proof fn lemma_behind_twice(
    values: Seq<ValueView>,
    warnings: Seq<ErrorView>,
    more_values: Seq<ValueView>,
    more_warnings: Seq<ErrorView>,
    rest: ParsedItems,
)
    ensures
        behind(values, warnings, behind(more_values, more_warnings, rest)) == behind(
            values + more_values,
            warnings + more_warnings,
            rest,
        ),
{
    assert(warnings + (more_warnings + rest.warnings) =~= (warnings + more_warnings)
        + rest.warnings);
    match rest.value {
        Ok(more) => {
            assert(values + (more_values + more) =~= (values + more_values) + more);
        },
        Err(_) => {},
    }
}

/// Reads the items of an array.
fn parse_array(list: &[u8], result: &mut ContentResult) -> (r: Result<
    Vec<VariableValue>,
    ContentError,
>)
    ensures
        final(result)@.warnings == old(result)@.warnings + parse_items(list@).warnings,
        final(result)@.errors == old(result)@.errors,
        match parse_items(list@).value {
            Ok(values) => r matches Ok(items) && value_views(items@) == values,
            Err(error) => r matches Err(e) && e@ == error,
        },
    decreases list.len(), 1nat,
{
    let mut items: Vec<VariableValue> = Vec::new();
    let mut start: usize = 0;
    let ghost goal = parse_items(list@);
    let ghost mut warnings = Seq::<ErrorView>::empty();
    proof {
        assert(list@.skip(0) =~= list@);
        lemma_behind_nothing(goal);
        assert(value_views(items@) =~= Seq::<ValueView>::empty());
        assert(old(result)@.warnings + warnings =~= old(result)@.warnings);
    }
    loop
        invariant
            start <= list.len(),
            goal == parse_items(list@),
            goal == behind(value_views(items@), warnings, parse_items(list@.skip(start as int))),
            result@.warnings == old(result)@.warnings + warnings,
            result@.errors == old(result)@.errors,
        decreases list.len() - start,
    {
        let rest = vstd::slice::slice_subrange(list, start, list.len());
        assert(rest@ =~= list@.skip(start as int));
        let end = find_byte(rest, 0x2c);
        let part = vstd::slice::slice_subrange(list, start, start + end);
        assert(part@ =~= rest@.take(end as int));
        let ghost first = parse_value(part@);
        let ghost before = items@;
        let value = match VariableValue::from_str(part, result) {
            Err(error) => {
                assert(result@.warnings =~= old(result)@.warnings + (warnings + first.warnings));
                return Err(error);
            },
            Ok(value) => value,
        };
        items.push(value);
        proof {
            assert(result@.warnings =~= old(result)@.warnings + (warnings + first.warnings));
            assert(value_views(items@) =~= value_views(before) + seq![value@]);
        }
        if end < rest.len() {
            proof {
                assert(rest@.skip(end + 1) =~= list@.skip(start + end + 1));
                lemma_behind_twice(
                    value_views(before),
                    warnings,
                    seq![value@],
                    first.warnings,
                    parse_items(list@.skip(start + end + 1)),
                );
                warnings = warnings + first.warnings;
            }
            start = start + end + 1;
        } else {
            return Ok(items);
        }
    }
}

impl VariableValue {
    /// Reads a value of the front matter and records the warnings it gives
    /// rise to.
    pub fn from_str(text: &[u8], result: &mut ContentResult) -> (r: Result<
        VariableValue,
        ContentError,
    >)
        ensures
            final(result)@.warnings == old(result)@.warnings + parse_value(text@).warnings,
            final(result)@.errors == old(result)@.errors,
            match parse_value(text@).value {
                Ok(value) => r matches Ok(v) && v@ == value,
                Err(error) => r matches Err(e) && e@ == error,
            },
        decreases text.len(), 0nat,
    {
        let value = trimmed(text);
        proof {
            lemma_trim_shorter(text@);
        }
        let ghost nothing = Seq::<ErrorView>::empty();
        assert(old(result)@.warnings + nothing =~= old(result)@.warnings);
        if value.len() > 0 && value[0] == 0x5b {
            let list = if value.len() > 1 {
                vstd::slice::slice_subrange(value, 1, value.len() - 1)
            } else {
                vstd::slice::slice_subrange(value, 0, 0)
            };
            assert(list@ =~= inner(value@));
            let items = match parse_array(list, result) {
                Err(error) => {
                    return Err(error);
                },
                Ok(items) => items,
            };
            if value[value.len() - 1] != 0x5d {
                result.push_warning(ContentError::new(ErrorKind::UnterminatedArray, 0, value));
                assert(result@.warnings =~= old(result)@.warnings + parse_items(
                    list@,
                ).warnings.push(about(ErrorKind::UnterminatedArray, value@)));
            }
            let array = VariableValue::Array(items);
            assert(array@->Array_0 =~= value_views(items@));
            Ok(array)
        } else if value.len() > 0 && value[0] == 0x22 {
            let text = if value.len() > 1 {
                vstd::slice::slice_subrange(value, 1, value.len() - 1)
            } else {
                vstd::slice::slice_subrange(value, 0, 0)
            };
            assert(text@ =~= inner(value@));
            if value[value.len() - 1] != 0x22 {
                result.push_warning(ContentError::new(ErrorKind::UnterminatedString, 0, value));
                assert(result@.warnings =~= old(result)@.warnings + seq![
                    about(ErrorKind::UnterminatedString, value@),
                ]);
            }
            Ok(VariableValue::String(to_vec(trimmed(text))))
        } else {
            let yes: [u8; 4] = [0x74, 0x72, 0x75, 0x65];
            let no: [u8; 5] = [0x66, 0x61, 0x6c, 0x73, 0x65];
            assert(yes@ =~= word_true());
            assert(no@ =~= word_false());
            if bytes_eq(value, yes.as_slice()) {
                Ok(VariableValue::Bool(true))
            } else if bytes_eq(value, no.as_slice()) {
                Ok(VariableValue::Bool(false))
            } else if reads_as_number(value) {
                Ok(VariableValue::Number(to_vec(value)))
            } else {
                match timestamp(value) {
                    Some(nanos) => Ok(VariableValue::Date(nanos)),
                    None => Err(ContentError::new(ErrorKind::InvalidTimestamp, 0, value)),
                }
            }
        }
    }
}

/// Reads the point in time that `value` names.
fn timestamp(value: &[u8]) -> (r: Option<i64>)
    ensures
        r matches Some(nanos) ==> timestamp_of(value@) == Some(nanos as int),
        r is None ==> timestamp_of(value@) is None,
{
    match as_text(value) {
        None => None,
        Some(text) => {
            proof {
                vstd::utf8::encode_utf8_decode_utf8(text@);
            }
            parse_timestamp(text)
        },
    }
}

/// `---`, which opens and closes the front matter.
pub open spec fn delimiter() -> Seq<u8> {
    seq![0x2du8, 0x2du8, 0x2du8]
}

/// What the lines of a front matter bind, in order, with the warnings that
/// came up, and the error that ended the reading, if one did.
pub struct FrontMatter {
    pub entries: Seq<(Seq<u8>, ValueView)>,
    pub warnings: Seq<ErrorView>,
    pub error: Option<ErrorView>,
}

/// The front matter that binds nothing.
pub open spec fn no_front_matter() -> FrontMatter {
    FrontMatter { entries: Seq::empty(), warnings: Seq::empty(), error: None }
}

/// What `lines` bind. A line `key: value` binds the key, trimmed, to the
/// value; a line without `:` binds nothing. The first value that is an error
/// ends the reading.
pub open spec fn read_lines(lines: Seq<Seq<u8>>) -> FrontMatter
    decreases lines.len(),
{
    if lines.len() == 0 {
        no_front_matter()
    } else {
        let head = read_lines(lines.drop_last());
        let line = lines.last();
        let colon = index_of(line, 0x3a);
        if head.error is Some || colon >= line.len() {
            head
        } else {
            let parsed = parse_value(line.skip(colon + 1));
            FrontMatter {
                entries: match parsed.value {
                    Ok(value) => head.entries.push((trim(line.take(colon)), value)),
                    Err(_) => head.entries,
                },
                warnings: head.warnings + parsed.warnings,
                error: match parsed.value {
                    Ok(_) => None,
                    Err(error) => Some(error),
                },
            }
        }
    }
}

/// A file parted into its front matter and the rest.
pub struct Extracted {
    pub content: Seq<u8>,
    pub front: FrontMatter,
}

/// The front matter of a file and the file without it.
///
/// The front matter is what stands between the first `---` and the next
/// one, line by line. A file without two `---` has none and stays as it is;
/// so does a file whose front matter is in error.
pub open spec fn extract(content: Seq<u8>) -> Extracted {
    match find(content, delimiter(), 0, content.len() as int) {
        None => Extracted { content, front: no_front_matter() },
        Some(start) => match find(content, delimiter(), start + 3, content.len() as int) {
            None => Extracted { content, front: no_front_matter() },
            Some(end) => {
                let front = read_lines(fields(content.subrange(start + 3, end), 0x0a, false));
                Extracted {
                    content: if front.error is None {
                        splice(content, start, end + 3, Seq::empty())
                    } else {
                        content
                    },
                    front,
                }
            },
        },
    }
}

/// The values of the entries of a front matter.
pub open spec fn entry_views(entries: Seq<(Vec<u8>, VariableValue)>) -> Seq<(Seq<u8>, ValueView)> {
    entries.map_values(|entry: (Vec<u8>, VariableValue)| (entry.0@, entry.1@))
}

/// Takes the front matter off a file and reads it. The warnings are
/// recorded.
pub fn extract_variables(file_content: &mut Vec<u8>, result: &mut ContentResult) -> (r: Result<
    Vec<(Vec<u8>, VariableValue)>,
    ContentError,
>)
    ensures
        final(file_content)@ == extract(old(file_content)@).content,
        final(result)@.warnings == old(result)@.warnings + extract(
            old(file_content)@,
        ).front.warnings,
        final(result)@.errors == old(result)@.errors,
        match extract(old(file_content)@).front.error {
            None => r matches Ok(entries) && entry_views(entries@) == extract(
                old(file_content)@,
            ).front.entries,
            Some(error) => r matches Err(e) && e@ == error,
        },
{
    let marks: [u8; 3] = [0x2d, 0x2d, 0x2d];
    assert(marks@ =~= delimiter());
    let mut entries: Vec<(Vec<u8>, VariableValue)> = Vec::new();
    assert(entry_views(entries@) =~= Seq::empty());
    assert(old(result)@.warnings + Seq::<ErrorView>::empty() =~= old(result)@.warnings);
    let size = file_content.len();
    let start = match find_in(file_content.as_slice(), marks.as_slice(), 0, size) {
        None => {
            return Ok(entries);
        },
        Some(start) => start,
    };
    proof {
        lemma_find_bounds(file_content@, delimiter(), 0, size as int);
    }
    let end = match find_in(file_content.as_slice(), marks.as_slice(), start + 3, size) {
        None => {
            return Ok(entries);
        },
        Some(end) => end,
    };
    proof {
        lemma_find_bounds(file_content@, delimiter(), start + 3, size as int);
    }
    let found = split_fields(file_content.as_slice(), start + 3, end, 0x0a, false);
    let ghost lines = ranges_of(file_content@, found@);
    let ghost mut warnings = Seq::<ErrorView>::empty();
    let mut i: usize = 0;
    assert(lines.take(0) =~= Seq::<Seq<u8>>::empty());
    while i < found.len()
        invariant
            i <= found.len(),
            *file_content == *old(file_content),
            lines == ranges_of(file_content@, found@),
            forall|k: int|
                0 <= k < found@.len() ==> (#[trigger] found@[k]).0 <= found@[k].1
                    <= file_content@.len(),
            read_lines(lines.take(i as int)) == (FrontMatter {
                entries: entry_views(entries@),
                warnings,
                error: None,
            }),
            result@.warnings == old(result)@.warnings + warnings,
            result@.errors == old(result)@.errors,
            lines == fields(old(file_content)@.subrange(start + 3, end as int), 0x0a, false),
            find(old(file_content)@, delimiter(), 0, size as int) == Some(start as int),
            find(old(file_content)@, delimiter(), start + 3, size as int) == Some(end as int),
            size == old(file_content)@.len(),
        decreases found.len() - i,
    {
        let (from, to) = found[i];
        let line = vstd::slice::slice_subrange(file_content.as_slice(), from, to);
        proof {
            assert(lines.take(i + 1).drop_last() =~= lines.take(i as int));
            assert(lines.take(i + 1).last() == line@);
            lemma_read_lines_error(lines, i + 1);
        }
        let colon = find_byte(line, 0x3a);
        if colon < line.len() {
            let key = to_vec(trimmed(vstd::slice::slice_subrange(line, 0, colon)));
            let text = vstd::slice::slice_subrange(line, colon + 1, line.len());
            assert(text@ =~= line@.skip(colon + 1));
            let ghost parsed = parse_value(text@);
            let ghost before = entries@;
            match VariableValue::from_str(text, result) {
                Err(error) => {
                    assert(result@.warnings =~= old(result)@.warnings + (warnings
                        + parsed.warnings));
                    return Err(error);
                },
                Ok(value) => {
                    entries.push((key, value));
                    proof {
                        assert(result@.warnings =~= old(result)@.warnings + (warnings
                            + parsed.warnings));
                        assert(entry_views(entries@) =~= entry_views(before).push(
                            (trim(line@.take(colon as int)), parsed.value->Ok_0),
                        ));
                        warnings = warnings + parsed.warnings;
                    }
                },
            }
        }
        i += 1;
    }
    assert(lines.take(i as int) =~= lines);
    let nothing: [u8; 0] = [];
    assert(nothing@ =~= Seq::<u8>::empty());
    replace_range(file_content, start, end + 3, nothing.as_slice());
    Ok(entries)
}

/// An error among the first lines is the error of all of them.
pub proof fn lemma_read_lines_error(lines: Seq<Seq<u8>>, n: int)
    requires
        0 <= n <= lines.len(),
    ensures
        read_lines(lines.take(n)).error is Some ==> read_lines(lines) == read_lines(lines.take(n)),
    decreases lines.len() - n,
{
    if n < lines.len() {
        assert(lines.take(n + 1).drop_last() =~= lines.take(n));
        lemma_read_lines_error(lines, n + 1);
    } else {
        assert(lines.take(n) =~= lines);
    }
}

/// The value that `entries` bind `key` to: that of the last entry with this
/// key.
pub open spec fn lookup(entries: Seq<(Seq<u8>, ValueView)>, key: Seq<u8>) -> Option<ValueView>
    decreases entries.len(),
{
    if entries.len() == 0 {
        None
    } else if entries.last().0 == key {
        Some(entries.last().1)
    } else {
        lookup(entries.drop_last(), key)
    }
}

/// The error for a field that the front matter lacks.
pub open spec fn missing(key: Seq<u8>) -> ErrorView {
    about(ErrorKind::MissingField, key)
}

/// The error for a field of another type than required.
pub open spec fn mistyped(key: Seq<u8>) -> ErrorView {
    about(ErrorKind::WrongFieldType, key)
}

/// The string that `key` is bound to.
pub open spec fn string_field(entries: Seq<(Seq<u8>, ValueView)>, key: Seq<u8>) -> Result<
    Seq<u8>,
    ErrorView,
> {
    match lookup(entries, key) {
        None => Err(missing(key)),
        Some(ValueView::String(text)) => Ok(text),
        Some(_) => Err(mistyped(key)),
    }
}

/// The boolean that `key` is bound to.
pub open spec fn bool_field(entries: Seq<(Seq<u8>, ValueView)>, key: Seq<u8>) -> Result<
    bool,
    ErrorView,
> {
    match lookup(entries, key) {
        None => Err(missing(key)),
        Some(ValueView::Bool(b)) => Ok(b),
        Some(_) => Err(mistyped(key)),
    }
}

/// The number that `key` is bound to, as it is written.
pub open spec fn number_field(entries: Seq<(Seq<u8>, ValueView)>, key: Seq<u8>) -> Result<
    Seq<u8>,
    ErrorView,
> {
    match lookup(entries, key) {
        None => Err(missing(key)),
        Some(ValueView::Number(text)) => Ok(text),
        Some(_) => Err(mistyped(key)),
    }
}

/// The point in time that `key` is bound to.
pub open spec fn date_field(entries: Seq<(Seq<u8>, ValueView)>, key: Seq<u8>) -> Result<
    int,
    ErrorView,
> {
    match lookup(entries, key) {
        None => Err(missing(key)),
        Some(ValueView::Date(nanos)) => Ok(nanos),
        Some(_) => Err(mistyped(key)),
    }
}

/// Whether every value is a string.
pub open spec fn all_strings(values: Seq<ValueView>) -> bool {
    forall|i: int| 0 <= i < values.len() ==> #[trigger] values[i] is String
}

/// The texts of a sequence of strings.
pub open spec fn texts(values: Seq<ValueView>) -> Seq<Seq<u8>> {
    values.map_values(|value: ValueView| value->String_0)
}

/// The array of strings that `key` is bound to.
pub open spec fn strings_field(entries: Seq<(Seq<u8>, ValueView)>, key: Seq<u8>) -> Result<
    Seq<Seq<u8>>,
    ErrorView,
> {
    match lookup(entries, key) {
        None => Err(missing(key)),
        Some(ValueView::Array(values)) => if all_strings(values) {
            Ok(texts(values))
        } else {
            Err(mistyped(key))
        },
        Some(_) => Err(mistyped(key)),
    }
}

/// The value that the front matter binds `key` to.
pub fn get_element<'a>(key: &[u8], md_variables: &'a Vec<(Vec<u8>, VariableValue)>) -> (r: Result<
    &'a VariableValue,
    ContentError,
>)
    ensures
        match lookup(entry_views(md_variables@), key@) {
            Some(value) => r matches Ok(v) && v@ == value,
            None => r matches Err(e) && e@ == missing(key@),
        },
{
    let mut i: usize = md_variables.len();
    let ghost entries = entry_views(md_variables@);
    assert(entries.take(i as int) =~= entries);
    while i > 0
        invariant
            i <= md_variables.len(),
            entries == entry_views(md_variables@),
            lookup(entries, key@) == lookup(entries.take(i as int), key@),
        decreases i,
    {
        let entry = &md_variables[i - 1];
        assert(entries.take(i as int).drop_last() =~= entries.take(i - 1));
        assert(entries.take(i as int).last() == (entry.0@, entry.1@));
        if bytes_eq(entry.0.as_slice(), key) {
            return Ok(&entry.1);
        }
        i -= 1;
    }
    Err(ContentError::new(ErrorKind::MissingField, 0, key))
}

/// The string that the front matter binds `key` to.
pub fn get_element_string(key: &[u8], md_variables: &Vec<(Vec<u8>, VariableValue)>) -> (r: Result<
    Vec<u8>,
    ContentError,
>)
    ensures
        match string_field(entry_views(md_variables@), key@) {
            Ok(text) => r matches Ok(t) && t@ == text,
            Err(error) => r matches Err(e) && e@ == error,
        },
{
    match get_element(key, md_variables) {
        Err(error) => Err(error),
        Ok(VariableValue::String(text)) => Ok(to_vec(text.as_slice())),
        Ok(_) => Err(ContentError::new(ErrorKind::WrongFieldType, 0, key)),
    }
}

/// The array of strings that the front matter binds `key` to.
pub fn get_element_string_vec(key: &[u8], md_variables: &Vec<(Vec<u8>, VariableValue)>) -> (r:
    Result<Vec<Vec<u8>>, ContentError>)
    ensures
        match strings_field(entry_views(md_variables@), key@) {
            Ok(all) => r matches Ok(t) && t@.map_values(|text: Vec<u8>| text@) == all,
            Err(error) => r matches Err(e) && e@ == error,
        },
{
    match get_element(key, md_variables) {
        Err(error) => Err(error),
        Ok(VariableValue::Array(array)) => {
            let ghost values = VariableValue::Array(*array)@->Array_0;
            let mut strings: Vec<Vec<u8>> = Vec::new();
            let mut i: usize = 0;
            while i < array.len()
                invariant
                    i <= array.len(),
                    values.len() == array.len(),
                    lookup(entry_views(md_variables@), key@) == Some(ValueView::Array(values)),
                    forall|k: int| 0 <= k < array.len() ==> values[k] == (#[trigger] array[k])@,
                    strings@.len() == i,
                    forall|k: int| 0 <= k < i ==> #[trigger] values[k] is String,
                    forall|k: int|
                        0 <= k < i ==> (#[trigger] strings@[k])@ == values[k]->String_0,
                decreases array.len() - i,
            {
                match &array[i] {
                    VariableValue::String(text) => {
                        strings.push(to_vec(text.as_slice()));
                    },
                    _ => {
                        assert(!(values[i as int] is String));
                        return Err(ContentError::new(ErrorKind::WrongFieldType, 0, key));
                    },
                }
                i += 1;
            }
            assert(strings@.map_values(|text: Vec<u8>| text@) =~= texts(values));
            Ok(strings)
        },
        Ok(_) => Err(ContentError::new(ErrorKind::WrongFieldType, 0, key)),
    }
}

/// The point in time that the front matter binds `key` to.
pub fn get_element_date(key: &[u8], md_variables: &Vec<(Vec<u8>, VariableValue)>) -> (r: Result<
    i64,
    ContentError,
>)
    ensures
        match date_field(entry_views(md_variables@), key@) {
            Ok(nanos) => r == Ok::<i64, ContentError>(nanos as i64) && nanos == nanos as i64,
            Err(error) => r matches Err(e) && e@ == error,
        },
{
    match get_element(key, md_variables) {
        Err(error) => Err(error),
        Ok(VariableValue::Date(nanos)) => Ok(*nanos),
        Ok(_) => Err(ContentError::new(ErrorKind::WrongFieldType, 0, key)),
    }
}

/// The boolean that the front matter binds `key` to.
pub fn get_element_bool(key: &[u8], md_variables: &Vec<(Vec<u8>, VariableValue)>) -> (r: Result<
    bool,
    ContentError,
>)
    ensures
        match bool_field(entry_views(md_variables@), key@) {
            Ok(b) => r == Ok::<bool, ContentError>(b),
            Err(error) => r matches Err(e) && e@ == error,
        },
{
    match get_element(key, md_variables) {
        Err(error) => Err(error),
        Ok(VariableValue::Bool(b)) => Ok(*b),
        Ok(_) => Err(ContentError::new(ErrorKind::WrongFieldType, 0, key)),
    }
}

/// The number that the front matter binds `key` to, as it is written.
pub fn get_element_number(key: &[u8], md_variables: &Vec<(Vec<u8>, VariableValue)>) -> (r: Result<
    Vec<u8>,
    ContentError,
>)
    ensures
        match number_field(entry_views(md_variables@), key@) {
            Ok(text) => r matches Ok(t) && t@ == text,
            Err(error) => r matches Err(e) && e@ == error,
        },
{
    match get_element(key, md_variables) {
        Err(error) => Err(error),
        Ok(VariableValue::Number(text)) => Ok(to_vec(text.as_slice())),
        Ok(_) => Err(ContentError::new(ErrorKind::WrongFieldType, 0, key)),
    }
}

} // verus!
