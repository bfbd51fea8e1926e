//! Writing the values of the front matter out, so that they read back as
//! what they were.

use crate::content::front_matter::{digits_end, inner, is_decimal, is_exponent, is_number,
    parsed_timestamp, timestamp_of,
    is_sign, lower, lowered, parse_items, parse_value, word_false, word_true, Parsed,
    ParsedItems, ValueView, VariableValue};
use crate::content::{is_ascii_digit, is_ascii_lower, is_ascii_upper, ErrorView};
use crate::text::{append, lemma_index_of_separator, lemma_trim_plain, to_vec,
    trim};
use chrono::DateTime;
use vstd::prelude::*;
use vstd::utf8::{decode_utf8, valid_utf8};

verus! {

/// A point in time as it is written out.
pub uninterp spec fn written_timestamp(nanos: int) -> Seq<u8>;

/// Writes a point in time out.
///
/// Trusted: makes the time with chrono's `DateTime::from_timestamp_nanos`
/// and writes it with `to_rfc3339`. What is written is text of the form
/// `1996-12-19T16:39:57.5+00:00`: it starts with the digits of the year, a
/// `-` follows them, and it ends with the digits of the offset, so that it
/// is no number; and chrono reads it back as the time it was written for.
#[verifier::external_body]
fn write_timestamp(nanos: i64) -> (r: Vec<u8>)
    ensures
        r@ == written_timestamp(nanos as int),
        valid_utf8(r@),
        parsed_timestamp(decode_utf8(r@)) == Some(nanos as int),
        r@.len() > 0 && is_ascii_digit(r@[0]) && is_ascii_digit(r@.last()),
        !is_number(r@),
{
    DateTime::from_timestamp_nanos(nanos).to_rfc3339().into_bytes()
}

/// The texts of `parts` in a row, with a `,` between every two of them.
pub open spec fn joined(parts: Seq<Seq<u8>>) -> Seq<u8>
    decreases parts.len(),
{
    if parts.len() == 0 {
        Seq::empty()
    } else if parts.len() == 1 {
        parts[0]
    } else {
        joined(parts.drop_last()) + seq![0x2cu8] + parts.last()
    }
}

/// A value as it is written: a string between `"`, a boolean as `true` or
/// `false`, a number as it stands, a time after RFC 3339, an array as its
/// items between `[` and `]` with a `,` between every two of them.
pub open spec fn written(value: ValueView) -> Seq<u8>
    decreases value,
{
    match value {
        ValueView::String(text) => seq![0x22u8] + text + seq![0x22u8],
        ValueView::Bool(b) => if b {
            word_true()
        } else {
            word_false()
        },
        ValueView::Number(text) => text,
        ValueView::Date(nanos) => written_timestamp(nanos),
        ValueView::Array(items) => seq![0x5bu8] + joined(written_items(items)) + seq![0x5du8],
    }
}

/// The items of an array as they are written, each by itself.
pub open spec fn written_items(items: Seq<ValueView>) -> Seq<Seq<u8>>
    decreases items,
{
    Seq::new(
        items.len(),
        |i: int|
            if 0 <= i < items.len() {
                written(items[i])
            } else {
                Seq::empty()
            },
    )
}

impl VariableValue {
    /// Writes the value out. A point in time reads back from what is
    /// written as itself, without a warning, and so does every value that
    /// `reads_back` holds of.
    pub fn to_text(&self) -> (r: Vec<u8>)
        ensures
            r@ == written(self@),
            self@ is Date || reads_back(self@) ==> parse_value(r@) == (Parsed {
                value: Ok(self@),
                warnings: Seq::empty(),
            }),
        decreases self,
    {
        match self {
            VariableValue::String(text) => {
                let mut out: Vec<u8> = Vec::new();
                out.push(0x22);
                append(&mut out, text.as_slice());
                out.push(0x22);
                assert(out@ =~= seq![0x22u8] + text@ + seq![0x22u8]);
                proof {
                    if reads_back(self@) {
                        lemma_value_reads_back(self@);
                    }
                }
                out
            },
            VariableValue::Bool(b) => {
                let yes: [u8; 4] = [0x74, 0x72, 0x75, 0x65];
                let no: [u8; 5] = [0x66, 0x61, 0x6c, 0x73, 0x65];
                assert(yes@ =~= word_true());
                assert(no@ =~= word_false());
                proof {
                    lemma_value_reads_back(self@);
                }
                if *b {
                    to_vec(yes.as_slice())
                } else {
                    to_vec(no.as_slice())
                }
            },
            VariableValue::Number(text) => {
                let out = to_vec(text.as_slice());
                assert(out@ == written(self@));
                proof {
                    if reads_back(self@) {
                        lemma_value_reads_back(self@);
                    }
                }
                out
            },
            VariableValue::Date(nanos) => {
                let out = write_timestamp(*nanos);
                assert(out@ == written(self@));
                proof {
                    lemma_trim_plain(out@);
                    assert(timestamp_of(out@) == Some(*nanos as int));
                    lemma_words_are_no_numbers();
                    assert(out@ != word_true() && out@ != word_false()) by {
                        assert(word_true()[0] == 0x74 && word_false()[0] == 0x66);
                    }
                }
                out
            },
            VariableValue::Array(items) => {
                let ghost values = self@->Array_0;
                let ghost parts = written_items(values);
                let mut out: Vec<u8> = Vec::new();
                out.push(0x5b);
                let mut i: usize = 0;
                assert(parts.take(0) =~= Seq::<Seq<u8>>::empty());
                assert(out@ =~= seq![0x5bu8] + joined(parts.take(0)));
                while i < items.len()
                    invariant
                        i <= items.len(),
                        *self == VariableValue::Array(*items),
                        values.len() == items.len(),
                        parts.len() == items.len(),
                        forall|k: int| 0 <= k < items.len() ==> values[k] == (#[trigger] items[k])@,
                        forall|k: int|
                            0 <= k < items.len() ==> #[trigger] parts[k] == written(values[k]),
                        out@ == seq![0x5bu8] + joined(parts.take(i as int)),
                    decreases items.len() - i,
                {
                    let ghost before = joined(parts.take(i as int));
                    if i > 0 {
                        out.push(0x2c);
                    }
                    proof {
                        vstd::std_specs::vec::axiom_vec_index_decreases(*items, i as int);
                        assert(decreases_to!(*self => self->Array_0));
                    }
                    let item = items[i].to_text();
                    append(&mut out, item.as_slice());
                    proof {
                        assert(parts.take(i + 1).drop_last() =~= parts.take(i as int));
                        assert(parts.take(i + 1).last() == parts[i as int]);
                        if i == 0 {
                            assert(before =~= Seq::<u8>::empty());
                            assert(parts.take(1)[0] == parts[0]);
                            assert(out@ =~= seq![0x5bu8] + joined(parts.take(1)));
                        } else {
                            assert(out@ =~= seq![0x5bu8] + (before + seq![0x2cu8]
                                + parts[i as int]));
                        }
                    }
                    i += 1;
                }
                assert(parts.take(i as int) =~= parts);
                out.push(0x5d);
                assert(out@ =~= seq![0x5bu8] + joined(parts) + seq![0x5du8]);
                assert(out@ == written(self@));
                proof {
                    if reads_back(self@) {
                        lemma_value_reads_back(self@);
                    }
                }
                out
            },
        }
    }
}

/// The digits that stand in `s` from `i` on are digits, and end within `s`.
pub proof fn lemma_digits(s: Seq<u8>, i: int)
    requires
        0 <= i <= s.len(),
    ensures
        i <= digits_end(s, i) <= s.len(),
        forall|j: int| i <= j < digits_end(s, i) ==> is_ascii_digit(#[trigger] s[j]),
    decreases s.len() - i,
{
    if i < s.len() && is_ascii_digit(s[i]) {
        lemma_digits(s, i + 1);
    }
}

/// The bytes a number is made of: digits, signs, `.` and letters.
pub open spec fn is_number_byte(b: u8) -> bool {
    is_ascii_digit(b) || is_sign(b) || b == 0x2e || is_ascii_upper(b) || is_ascii_lower(b)
}

/// A decimal number is not empty and made of digits, signs, `.` and letters.
proof fn lemma_decimal_bytes(s: Seq<u8>)
    requires
        is_decimal(s),
    ensures
        s.len() > 0,
        forall|j: int| 0 <= j < s.len() ==> is_number_byte(#[trigger] s[j]),
{
    lemma_digits(s, 0);
    let whole_end = digits_end(s, 0);
    let fraction = whole_end < s.len() && s[whole_end] == 0x2e;
    if fraction {
        lemma_digits(s, whole_end + 1);
    }
    let mantissa_end = if fraction {
        digits_end(s, whole_end + 1)
    } else {
        whole_end
    };
    if mantissa_end < s.len() {
        let tail = s.skip(mantissa_end);
        assert(is_exponent(tail));
        let start = if tail.len() > 1 && is_sign(tail[1]) {
            2int
        } else {
            1int
        };
        lemma_digits(tail, start);
        assert forall|j: int| mantissa_end <= j < s.len() implies is_number_byte(
            #[trigger] s[j],
        ) by {
            assert(s[j] == tail[j - mantissa_end]);
            if j - mantissa_end >= start {
                assert(is_ascii_digit(tail[j - mantissa_end]));
            }
        }
    }
}

/// A number is not empty and made of digits, signs, `.` and letters.
pub proof fn lemma_number_bytes(s: Seq<u8>)
    requires
        is_number(s),
    ensures
        s.len() > 0,
        forall|j: int| 0 <= j < s.len() ==> is_number_byte(#[trigger] s[j]),
{
    let signed = s.len() > 0 && is_sign(s[0]);
    let body = if signed {
        s.skip(1)
    } else {
        s
    };
    if is_decimal(body) {
        lemma_decimal_bytes(body);
    } else {
        let low = lowered(body);
        let inf = seq![0x69u8, 0x6eu8, 0x66u8];
        let infinity = seq![0x69u8, 0x6eu8, 0x66u8, 0x69u8, 0x6eu8, 0x69u8, 0x74u8, 0x79u8];
        let nan = seq![0x6eu8, 0x61u8, 0x6eu8];
        assert(low == inf || low == infinity || low == nan);
        assert(low.len() == body.len());
        assert(is_ascii_lower(inf[0]) && is_ascii_lower(inf[1]) && is_ascii_lower(inf[2]));
        assert(is_ascii_lower(nan[0]) && is_ascii_lower(nan[1]) && is_ascii_lower(nan[2]));
        assert(is_ascii_lower(infinity[0]) && is_ascii_lower(infinity[1]) && is_ascii_lower(
            infinity[2],
        ) && is_ascii_lower(infinity[3]) && is_ascii_lower(infinity[4]) && is_ascii_lower(
            infinity[5],
        ) && is_ascii_lower(infinity[6]) && is_ascii_lower(infinity[7]));
        assert forall|j: int| 0 <= j < body.len() implies is_number_byte(#[trigger] body[j]) by {
            assert(low[j] == lower(body[j]));
            assert(is_ascii_lower(low[j]));
        }
    }
    assert forall|j: int| 0 <= j < s.len() implies is_number_byte(#[trigger] s[j]) by {
        if signed && j > 0 {
            assert(s[j] == body[j - 1]);
        }
    }
}

/// A number reads back as itself.
pub proof fn lemma_number_reads_back(text: Seq<u8>)
    requires
        is_number(text),
    ensures
        parse_value(text) == (Parsed {
            value: Ok(ValueView::Number(text)),
            warnings: Seq::empty(),
        }),
{
    lemma_number_bytes(text);
    assert(is_number_byte(text[0]) && is_number_byte(text.last()));
    lemma_trim_plain(text);
    lemma_words_are_no_numbers();
}

/// `true` and `false` are no numbers.
proof fn lemma_words_are_no_numbers()
    ensures
        !is_number(word_true()),
        !is_number(word_false()),
{
    let yes = word_true();
    let no = word_false();
    assert(digits_end(yes, 0) == 0);
    assert(digits_end(no, 0) == 0);
    assert(lowered(yes).len() == 4);
    assert(lowered(no).len() == 5);
}

/// A string that is trimmed reads back as itself from between its `"`.
pub proof fn lemma_string_reads_back(text: Seq<u8>)
    requires
        trim(text) == text,
    ensures
        parse_value(written(ValueView::String(text))) == (Parsed {
            value: Ok(ValueView::String(text)),
            warnings: Seq::empty(),
        }),
{
    let all = seq![0x22u8] + text + seq![0x22u8];
    assert(all[0] == 0x22 && all.last() == 0x22);
    lemma_trim_plain(all);
    assert(inner(all) =~= text);
}

/// A boolean reads back as itself.
pub proof fn lemma_bool_reads_back(b: bool)
    ensures
        parse_value(written(ValueView::Bool(b))) == (Parsed {
            value: Ok(ValueView::Bool(b)),
            warnings: Seq::empty(),
        }),
{
    lemma_trim_plain(word_true());
    lemma_trim_plain(word_false());
}

/// A value that can stand in an array and read back: a boolean, a number,
/// or a string that is trimmed and holds no `,`.
pub open spec fn is_item(value: ValueView) -> bool {
    match value {
        ValueView::String(text) => trim(text) == text && forall|i: int|
            0 <= i < text.len() ==> text[i] != 0x2c,
        ValueView::Bool(_) => true,
        ValueView::Number(text) => is_number(text),
        _ => false,
    }
}

/// A value that reads back as itself from what it is written as, whatever
/// is known of how times are written: a boolean, a number, a string that is
/// trimmed, or an array that is not empty and holds items. Of a point in
/// time `to_text` says the same.
pub open spec fn reads_back(value: ValueView) -> bool {
    match value {
        ValueView::String(text) => trim(text) == text,
        ValueView::Bool(_) => true,
        ValueView::Number(text) => is_number(text),
        ValueView::Array(items) => items.len() > 0 && forall|i: int|
            0 <= i < items.len() ==> is_item(#[trigger] items[i]),
        ValueView::Date(_) => false,
    }
}

/// An item reads back as itself, and is written without a `,`.
pub proof fn lemma_item_reads_back(value: ValueView)
    requires
        is_item(value),
    ensures
        parse_value(written(value)) == (Parsed { value: Ok(value), warnings: Seq::empty() }),
        forall|i: int| 0 <= i < written(value).len() ==> written(value)[i] != 0x2c,
{
    match value {
        ValueView::String(text) => {
            lemma_string_reads_back(text);
            let all = seq![0x22u8] + text + seq![0x22u8];
            assert forall|i: int| 0 <= i < all.len() implies all[i] != 0x2c by {
                if 0 < i < all.len() - 1 {
                    assert(all[i] == text[i - 1]);
                }
            }
        },
        ValueView::Bool(b) => {
            lemma_bool_reads_back(b);
        },
        ValueView::Number(text) => {
            lemma_number_reads_back(text);
            lemma_number_bytes(text);
        },
        _ => {},
    }
}

/// Parts in a row are the first part, a `,`, and the other parts in a row.
pub proof fn lemma_joined_front(parts: Seq<Seq<u8>>)
    requires
        parts.len() >= 2,
    ensures
        joined(parts) == parts[0] + seq![0x2cu8] + joined(parts.skip(1)),
    decreases parts.len(),
{
    if parts.len() == 2 {
        assert(parts.drop_last().len() == 1);
        assert(parts.skip(1).len() == 1);
        assert(joined(parts.drop_last()) == parts[0]);
        assert(joined(parts.skip(1)) == parts[1]);
    } else {
        lemma_joined_front(parts.drop_last());
        assert(parts.drop_last().skip(1) =~= parts.skip(1).drop_last());
        assert(parts.skip(1).last() == parts.last());
        assert(parts.drop_last()[0] == parts[0]);
        assert(joined(parts) =~= parts[0] + seq![0x2cu8] + (joined(parts.skip(1).drop_last())
            + seq![0x2cu8] + parts.last()));
    }
}

/// Items that are written in a row read back as themselves.
pub proof fn lemma_items_read_back(items: Seq<ValueView>)
    requires
        items.len() > 0,
        forall|i: int| 0 <= i < items.len() ==> is_item(#[trigger] items[i]),
    ensures
        parse_items(joined(written_items(items))) == (ParsedItems {
            value: Ok(items),
            warnings: Seq::empty(),
        }),
    decreases items.len(),
{
    let parts = written_items(items);
    let list = joined(parts);
    let first = parts[0];
    assert(is_item(items[0]));
    lemma_item_reads_back(items[0]);
    assert(first == written(items[0]));
    if items.len() == 1 {
        assert(list == first);
        lemma_index_of_separator(first, 0x2c, Seq::empty());
        assert(list.take(list.len() as int) =~= list);
        assert(seq![items[0]] =~= items);
    } else {
        let rest = items.skip(1);
        lemma_joined_front(parts);
        assert(parts.skip(1) =~= written_items(rest));
        let tail = joined(written_items(rest));
        assert(list == first + seq![0x2cu8] + tail);
        lemma_index_of_separator(first, 0x2c, tail);
        assert(list.take(first.len() as int) =~= first);
        assert(list.skip(first.len() as int + 1) =~= tail);
        assert forall|i: int| 0 <= i < rest.len() implies is_item(#[trigger] rest[i]) by {
            assert(rest[i] == items[i + 1]);
        }
        lemma_items_read_back(rest);
        assert(seq![items[0]] + rest =~= items);
        assert(Seq::<ErrorView>::empty() + Seq::<ErrorView>::empty() =~= Seq::<
            ErrorView,
        >::empty());
    }
}

/// Reading what a value is written as gives the value back, without a
/// warning: for a boolean, a number, a trimmed string, and an array of such
/// values whose strings hold no `,`.
pub proof fn lemma_value_reads_back(value: ValueView)
    requires
        reads_back(value),
    ensures
        parse_value(written(value)) == (Parsed { value: Ok(value), warnings: Seq::empty() }),
{
    match value {
        ValueView::String(text) => {
            lemma_string_reads_back(text);
        },
        ValueView::Bool(b) => {
            lemma_bool_reads_back(b);
        },
        ValueView::Number(text) => {
            lemma_number_reads_back(text);
        },
        ValueView::Array(items) => {
            let list = joined(written_items(items));
            let all = seq![0x5bu8] + list + seq![0x5du8];
            assert(all[0] == 0x5b && all.last() == 0x5d);
            lemma_trim_plain(all);
            assert(inner(all) =~= list);
            lemma_items_read_back(items);
        },
        ValueView::Date(_) => {},
    }
}

} // verus!
