//! Searching and splicing byte strings.

use vstd::prelude::*;
use vstd::string::StringSliceAdditionalSpecFns;
use vstd::utf8::valid_utf8;

verus! {

/// `pat` occurs in `s` at offset `i`.
pub open spec fn matches_at(s: Seq<u8>, pat: Seq<u8>, i: int) -> bool {
    0 <= i && i + pat.len() <= s.len() && s.subrange(i, i + pat.len()) == pat
}

/// Offset of the first occurrence of `pat` that starts at or after `from`
/// and ends at or before `to`.
pub open spec fn find(s: Seq<u8>, pat: Seq<u8>, from: int, to: int) -> Option<int>
    decreases to - from + 1,
{
    if from + pat.len() > to {
        None
    } else if matches_at(s, pat, from) {
        Some(from)
    } else {
        find(s, pat, from + 1, to)
    }
}

/// `find` returns the least matching offset of the window, if there is one.
pub proof fn lemma_find_is_first(s: Seq<u8>, pat: Seq<u8>, from: int, to: int)
    requires
        0 <= from,
        to <= s.len(),
    ensures
        match find(s, pat, from, to) {
            Some(i) => from <= i && i + pat.len() <= to && matches_at(s, pat, i) && forall|j: int|
                from <= j < i ==> !matches_at(s, pat, j),
            None => forall|j: int| from <= j && j + pat.len() <= to ==> !matches_at(s, pat, j),
        },
    decreases to - from + 1,
{
    if from + pat.len() <= to && !matches_at(s, pat, from) {
        lemma_find_is_first(s, pat, from + 1, to);
    }
}

/// What `find` returns lies in the window.
pub proof fn lemma_find_bounds(s: Seq<u8>, pat: Seq<u8>, from: int, to: int)
    ensures
        find(s, pat, from, to) matches Some(i) ==> from <= i && i + pat.len() <= to && matches_at(
            s,
            pat,
            i,
        ),
    decreases to - from + 1,
{
    if from + pat.len() <= to && !matches_at(s, pat, from) {
        lemma_find_bounds(s, pat, from + 1, to);
    }
}

/// Whether `pat` occurs in `s` at offset `i`.
pub fn starts_with_at(s: &[u8], pat: &[u8], i: usize) -> (r: bool)
    ensures
        r == matches_at(s@, pat@, i as int),
{
    if pat.len() > s.len() || i > s.len() - pat.len() {
        return false;
    }
    let mut k: usize = 0;
    while k < pat.len()
        invariant
            k <= pat.len(),
            i + pat.len() <= s.len(),
            forall|j: int| 0 <= j < k ==> s@[i + j] == pat@[j],
        decreases pat.len() - k,
    {
        if s[i + k] != pat[k] {
            assert(s@.subrange(i as int, i + pat.len())[k as int] == s@[i + k]);
            return false;
        }
        k += 1;
    }
    assert(s@.subrange(i as int, i + pat.len()) =~= pat@);
    true
}

/// `s` with the bytes of `[start, end)` replaced by `with`.
pub open spec fn splice(s: Seq<u8>, start: int, end: int, with: Seq<u8>) -> Seq<u8> {
    s.subrange(0, start) + with + s.subrange(end, s.len() as int)
}

/// Appends `src` to `dst`.
pub fn append(dst: &mut Vec<u8>, src: &[u8])
    ensures
        final(dst)@ == old(dst)@ + src@,
{
    dst.extend_from_slice(src);
    assert(dst@ =~= old(dst)@ + src@);
}

/// Searches `s` for `pat` in the window `[from, to)`.
pub fn find_in(s: &[u8], pat: &[u8], from: usize, to: usize) -> (r: Option<usize>)
    requires
        to <= s.len(),
    ensures
        r matches Some(i) ==> find(s@, pat@, from as int, to as int) == Some(i as int),
        r is None ==> find(s@, pat@, from as int, to as int) is None,
{
    if pat.len() > to || from > to - pat.len() {
        return None;
    }
    if pat.len() == 0 {
        assert(s@.subrange(from as int, from as int) =~= pat@);
        return Some(from);
    }
    let last = to - pat.len();
    let mut i = from;
    while i <= last
        invariant
            from <= i <= last + 1,
            last + pat.len() == to,
            pat.len() > 0,
            to <= s.len(),
            find(s@, pat@, from as int, to as int) == find(s@, pat@, i as int, to as int),
        decreases last + 1 - i,
    {
        if starts_with_at(s, pat, i) {
            return Some(i);
        }
        i += 1;
    }
    None
}

/// Replaces the bytes of `[start, end)` in `buf` by `with`.
pub fn replace_range(buf: &mut Vec<u8>, start: usize, end: usize, with: &[u8])
    requires
        start <= end <= old(buf).len(),
    ensures
        final(buf)@ == splice(old(buf)@, start as int, end as int, with@),
{
    let mut out: Vec<u8> = Vec::new();
    append(&mut out, vstd::slice::slice_subrange(buf.as_slice(), 0, start));
    append(&mut out, with);
    append(&mut out, vstd::slice::slice_subrange(buf.as_slice(), end, buf.len()));
    *buf = out;
}

/// A one-byte white space character: tab, line feed, vertical tab, form
/// feed, carriage return or space.
pub open spec fn is_space_1(b: u8) -> bool {
    (0x09 <= b && b <= 0x0d) || b == 0x20
}

/// A two-byte white space character: U+0085 or U+00A0.
pub open spec fn is_space_2(b0: u8, b1: u8) -> bool {
    b0 == 0xc2 && (b1 == 0x85 || b1 == 0xa0)
}

/// A three-byte white space character: U+1680, U+2000 to U+200A, U+2028,
/// U+2029, U+202F, U+205F or U+3000.
pub open spec fn is_space_3(b0: u8, b1: u8, b2: u8) -> bool {
    ||| b0 == 0xe1 && b1 == 0x9a && b2 == 0x80
    ||| b0 == 0xe2 && b1 == 0x80 && ((0x80 <= b2 && b2 <= 0x8a) || b2 == 0xa8 || b2 == 0xa9 || b2
        == 0xaf)
    ||| b0 == 0xe2 && b1 == 0x81 && b2 == 0x9f
    ||| b0 == 0xe3 && b1 == 0x80 && b2 == 0x80
}

/// Length in bytes of the white space character that `s` starts with, 0 if
/// it starts with none.
pub open spec fn leading_space(s: Seq<u8>) -> int {
    if s.len() >= 1 && is_space_1(s[0]) {
        1
    } else if s.len() >= 2 && is_space_2(s[0], s[1]) {
        2
    } else if s.len() >= 3 && is_space_3(s[0], s[1], s[2]) {
        3
    } else {
        0
    }
}

/// Length in bytes of the white space character that `s` ends with, 0 if it
/// ends with none.
pub open spec fn trailing_space(s: Seq<u8>) -> int {
    let n = s.len() as int;
    if n >= 1 && is_space_1(s[n - 1]) {
        1
    } else if n >= 2 && is_space_2(s[n - 2], s[n - 1]) {
        2
    } else if n >= 3 && is_space_3(s[n - 3], s[n - 2], s[n - 1]) {
        3
    } else {
        0
    }
}

/// `s` without the white space characters it starts with.
pub open spec fn trim_start(s: Seq<u8>) -> Seq<u8>
    decreases s.len(),
{
    let n = leading_space(s);
    if 0 < n <= s.len() {
        trim_start(s.skip(n))
    } else {
        s
    }
}

/// `s` without the white space characters it ends with.
pub open spec fn trim_end(s: Seq<u8>) -> Seq<u8>
    decreases s.len(),
{
    let n = trailing_space(s);
    if 0 < n <= s.len() {
        trim_end(s.take(s.len() - n))
    } else {
        s
    }
}

/// `s` without leading and trailing white space.
pub open spec fn trim(s: Seq<u8>) -> Seq<u8> {
    trim_end(trim_start(s))
}

/// A byte that is no white space and no part of a white space character.
pub open spec fn is_plain(b: u8) -> bool {
    b < 0x80 && !is_space_1(b)
}

/// What starts and ends with a plain byte is trimmed already, and so is
/// the empty sequence.
pub proof fn lemma_trim_plain(s: Seq<u8>)
    requires
        s.len() > 0 ==> is_plain(s[0]) && is_plain(s.last()),
    ensures
        trim(s) == s,
{
    if s.len() > 0 {
        assert(leading_space(s) == 0);
        assert(trailing_space(s) == 0);
    }
}

/// Trimming takes bytes away and adds none.
pub proof fn lemma_trim_shorter(s: Seq<u8>)
    ensures
        trim_start(s).len() <= s.len(),
        trim_end(s).len() <= s.len(),
        trim(s).len() <= s.len(),
    decreases s.len(),
{
    let n = leading_space(s);
    if 0 < n <= s.len() {
        lemma_trim_shorter(s.skip(n));
    }
    let m = trailing_space(s);
    if 0 < m <= s.len() {
        lemma_trim_shorter(s.take(s.len() - m));
    }
    lemma_trim_end_shorter(trim_start(s));
}

/// Trimming at the end takes bytes away and adds none.
pub proof fn lemma_trim_end_shorter(s: Seq<u8>)
    ensures
        trim_end(s).len() <= s.len(),
    decreases s.len(),
{
    let m = trailing_space(s);
    if 0 < m <= s.len() {
        lemma_trim_end_shorter(s.take(s.len() - m));
    }
}

fn leading_space_at(s: &[u8], i: usize) -> (n: usize)
    requires
        i <= s.len(),
    ensures
        n == leading_space(s@.skip(i as int)),
        i + n <= s.len(),
{
    let rest = s.len() - i;
    if rest >= 1 && ((0x09 <= s[i] && s[i] <= 0x0d) || s[i] == 0x20) {
        1
    } else if rest >= 2 && s[i] == 0xc2 && (s[i + 1] == 0x85 || s[i + 1] == 0xa0) {
        2
    } else if rest >= 3 && is_space_triple(s[i], s[i + 1], s[i + 2]) {
        3
    } else {
        0
    }
}

fn is_space_triple(b0: u8, b1: u8, b2: u8) -> (r: bool)
    ensures
        r == is_space_3(b0, b1, b2),
{
    (b0 == 0xe1 && b1 == 0x9a && b2 == 0x80) || (b0 == 0xe2 && b1 == 0x80 && ((0x80 <= b2 && b2
        <= 0x8a) || b2 == 0xa8 || b2 == 0xa9 || b2 == 0xaf)) || (b0 == 0xe2 && b1 == 0x81 && b2
        == 0x9f) || (b0 == 0xe3 && b1 == 0x80 && b2 == 0x80)
}

fn trailing_space_at(s: &[u8], lo: usize, hi: usize) -> (n: usize)
    requires
        lo <= hi <= s.len(),
    ensures
        n == trailing_space(s@.subrange(lo as int, hi as int)),
        lo + n <= hi,
{
    let len = hi - lo;
    if len >= 1 && ((0x09 <= s[hi - 1] && s[hi - 1] <= 0x0d) || s[hi - 1] == 0x20) {
        1
    } else if len >= 2 && s[hi - 2] == 0xc2 && (s[hi - 1] == 0x85 || s[hi - 1] == 0xa0) {
        2
    } else if len >= 3 && is_space_triple(s[hi - 3], s[hi - 2], s[hi - 1]) {
        3
    } else {
        0
    }
}

/// The part of `s` that is left when leading and trailing white space is
/// taken off.
pub fn trimmed(s: &[u8]) -> (r: &[u8])
    ensures
        r@ == trim(s@),
{
    let mut lo: usize = 0;
    assert(s@.skip(0) =~= s@);
    loop
        invariant
            lo <= s.len(),
            trim_start(s@) == trim_start(s@.skip(lo as int)),
        ensures
            lo <= s.len(),
            trim_start(s@) == s@.skip(lo as int),
        decreases s.len() - lo,
    {
        let n = leading_space_at(s, lo);
        if n == 0 {
            break ;
        }
        assert(s@.skip(lo as int).skip(n as int) =~= s@.skip(lo + n));
        lo += n;
    }
    let mut hi: usize = s.len();
    assert(s@.skip(lo as int) =~= s@.subrange(lo as int, hi as int));
    loop
        invariant
            lo <= hi <= s.len(),
            trim(s@) == trim_end(s@.subrange(lo as int, hi as int)),
        ensures
            lo <= hi <= s.len(),
            trim(s@) == s@.subrange(lo as int, hi as int),
        decreases hi - lo,
    {
        let n = trailing_space_at(s, lo, hi);
        if n == 0 {
            break ;
        }
        assert(s@.subrange(lo as int, hi as int).take(hi - lo - n) =~= s@.subrange(
            lo as int,
            hi - n,
        ));
        hi -= n;
    }
    vstd::slice::slice_subrange(s, lo, hi)
}

/// Offset of the last byte of `s` that equals `b`, or -1 if there is none.
pub open spec fn last_index_of(s: Seq<u8>, b: u8) -> int
    decreases s.len(),
{
    if s.len() == 0 {
        -1
    } else if s.last() == b {
        s.len() - 1
    } else {
        last_index_of(s.drop_last(), b)
    }
}

/// Offset of the first byte of `s` that equals `b`, or the length of `s` if
/// there is none.
pub open spec fn index_of(s: Seq<u8>, b: u8) -> int
    decreases s.len(),
{
    if s.len() == 0 {
        0
    } else if s[0] == b {
        0
    } else {
        1 + index_of(s.skip(1), b)
    }
}

/// `index_of` is within the sequence or at its end, and no byte before it
/// equals `b`.
pub proof fn lemma_index_of(s: Seq<u8>, b: u8)
    ensures
        0 <= index_of(s, b) <= s.len(),
        index_of(s, b) < s.len() ==> s[index_of(s, b)] == b,
        forall|j: int| 0 <= j < index_of(s, b) ==> s[j] != b,
    decreases s.len(),
{
    if s.len() > 0 && s[0] != b {
        lemma_index_of(s.skip(1), b);
        assert forall|j: int| 0 <= j < index_of(s, b) implies s[j] != b by {
            if j > 0 {
                assert(s[j] == s.skip(1)[j - 1]);
            }
        }
    }
}

/// Where no byte of `head` equals `b`, the first `b` of `head`, `b` and
/// `tail` in a row is the one between them; and `head` alone holds none.
pub proof fn lemma_index_of_separator(head: Seq<u8>, b: u8, tail: Seq<u8>)
    requires
        forall|i: int| 0 <= i < head.len() ==> head[i] != b,
    ensures
        index_of(head + seq![b] + tail, b) == head.len(),
        index_of(head, b) == head.len(),
    decreases head.len(),
{
    let all = head + seq![b] + tail;
    if head.len() == 0 {
        assert(all[0] == b);
    } else {
        assert(all[0] == head[0]);
        assert(all.skip(1) =~= head.skip(1) + seq![b] + tail);
        assert forall|i: int| 0 <= i < head.skip(1).len() implies head.skip(1)[i] != b by {
            assert(head.skip(1)[i] == head[i + 1]);
        }
        lemma_index_of_separator(head.skip(1), b, tail);
    }
}

/// Finds the last byte of `s` that equals `b`.
pub fn rfind_byte(s: &[u8], b: u8) -> (r: Option<usize>)
    ensures
        r matches Some(i) ==> last_index_of(s@, b) == i && i < s.len(),
        r is None ==> last_index_of(s@, b) == -1,
{
    let mut i: usize = s.len();
    assert(s@.take(i as int) =~= s@);
    while i > 0
        invariant
            i <= s.len(),
            last_index_of(s@, b) == last_index_of(s@.take(i as int), b),
        decreases i,
    {
        if s[i - 1] == b {
            return Some(i - 1);
        }
        assert(s@.take(i as int).drop_last() =~= s@.take(i - 1));
        i -= 1;
    }
    None
}

/// Finds the first byte of `s` that equals `b`.
pub fn find_byte(s: &[u8], b: u8) -> (r: usize)
    ensures
        r == index_of(s@, b),
        r <= s.len(),
{
    let mut i: usize = 0;
    assert(s@.skip(0) =~= s@);
    while i < s.len()
        invariant
            i <= s.len(),
            index_of(s@, b) == i + index_of(s@.skip(i as int), b),
        decreases s.len() - i,
    {
        if s[i] == b {
            return i;
        }
        assert(s@.skip(i as int).skip(1) =~= s@.skip(i + 1));
        i += 1;
    }
    i
}

/// Whether two byte strings are equal.
pub fn bytes_eq(a: &[u8], b: &[u8]) -> (r: bool)
    ensures
        r == (a@ == b@),
{
    if a.len() != b.len() {
        return false;
    }
    let r = starts_with_at(a, b, 0);
    assert(a@.subrange(0, a@.len() as int) =~= a@);
    r
}

/// Reads bytes as text.
///
/// Trusted: calls `std::str::from_utf8`, which gives the text that the bytes
/// encode where they are valid UTF-8 and nothing where they are not.
#[verifier::external_body]
pub(crate) fn as_text(bytes: &[u8]) -> (r: Option<&str>)
    ensures
        r is Some <==> valid_utf8(bytes@),
        r matches Some(text) ==> text.spec_bytes() == bytes@,
{
    std::str::from_utf8(bytes).ok()
}

/// A copy of `s`.
pub fn to_vec(s: &[u8]) -> (r: Vec<u8>)
    ensures
        r@ == s@,
{
    vstd::slice::slice_to_vec(s)
}

/// The decimal digits of `n`.
pub open spec fn decimal(n: nat) -> Seq<u8>
    decreases n,
{
    if n < 10 {
        seq![(0x30 + n) as u8]
    } else {
        decimal(n / 10).push((0x30 + n % 10) as u8)
    }
}

/// Writes `n` in decimal digits.
pub fn decimal_of(n: usize) -> (r: Vec<u8>)
    ensures
        r@ == decimal(n as nat),
    decreases n,
{
    if n < 10 {
        let mut r: Vec<u8> = Vec::new();
        r.push(0x30 + n as u8);
        assert(r@ =~= decimal(n as nat));
        r
    } else {
        let mut r = decimal_of(n / 10);
        r.push(0x30 + (n % 10) as u8);
        r
    }
}

/// The fields of `s` between the bytes that equal `b`. With `trailing`, a
/// separator at the end is followed by one more, empty field, and the empty
/// sequence has one empty field; without, neither has.
pub open spec fn fields(s: Seq<u8>, b: u8, trailing: bool) -> Seq<Seq<u8>>
    decreases s.len(),
    via fields_decreases
{
    if s.len() == 0 {
        if trailing {
            seq![Seq::empty()]
        } else {
            Seq::empty()
        }
    } else if index_of(s, b) < s.len() {
        seq![s.take(index_of(s, b))] + fields(s.skip(index_of(s, b) + 1), b, trailing)
    } else {
        seq![s]
    }
}

#[via_fn]
proof fn fields_decreases(s: Seq<u8>, b: u8, trailing: bool) {
    lemma_index_of(s, b);
}

/// The parts of `s` that the ranges of `found` cut out.
pub open spec fn ranges_of(s: Seq<u8>, found: Seq<(usize, usize)>) -> Seq<Seq<u8>> {
    found.map_values(|range: (usize, usize)| s.subrange(range.0 as int, range.1 as int))
}

/// Splits `s[from..to]` into its fields, each given by its offsets in `s`.
pub fn split_fields(s: &[u8], from: usize, to: usize, b: u8, trailing: bool) -> (found: Vec<
    (usize, usize),
>)
    requires
        from <= to <= s.len(),
    ensures
        ranges_of(s@, found@) == fields(s@.subrange(from as int, to as int), b, trailing),
        forall|i: int|
            0 <= i < found@.len() ==> from <= (#[trigger] found@[i]).0 <= found@[i].1 <= to,
{
    let mut found: Vec<(usize, usize)> = Vec::new();
    let mut start: usize = from;
    let ghost all = fields(s@.subrange(from as int, to as int), b, trailing);
    assert(ranges_of(s@, found@) =~= Seq::<Seq<u8>>::empty());
    loop
        invariant_except_break
            ranges_of(s@, found@) + fields(s@.subrange(start as int, to as int), b, trailing)
                == all,
        invariant
            from <= start <= to <= s.len(),
            all == fields(s@.subrange(from as int, to as int), b, trailing),
            forall|i: int|
                0 <= i < found@.len() ==> from <= (#[trigger] found@[i]).0 <= found@[i].1 <= to,
        ensures
            ranges_of(s@, found@) == all,
            forall|i: int|
                0 <= i < found@.len() ==> from <= (#[trigger] found@[i]).0 <= found@[i].1 <= to,
        decreases to - start,
    {
        let ghost rest = s@.subrange(start as int, to as int);
        let ghost before = found@;
        if start == to {
            if trailing {
                found.push((start, start));
                assert(s@.subrange(start as int, start as int) =~= Seq::<u8>::empty());
                assert(rest =~= Seq::<u8>::empty());
                assert(ranges_of(s@, found@) =~= ranges_of(s@, before) + seq![
                    Seq::<u8>::empty(),
                ]);
            } else {
                assert(rest =~= Seq::<u8>::empty());
                assert(ranges_of(s@, before) + Seq::<Seq<u8>>::empty() =~= ranges_of(
                    s@,
                    before,
                ));
            }
            break ;
        }
        let piece = vstd::slice::slice_subrange(s, start, to);
        let end = find_byte(piece, b);
        if end < piece.len() {
            found.push((start, start + end));
            assert(rest.take(end as int) =~= s@.subrange(start as int, start + end));
            assert(rest.skip(end + 1) =~= s@.subrange(start + end + 1, to as int));
            assert(ranges_of(s@, found@) =~= ranges_of(s@, before) + seq![rest.take(end as int)]);
            assert(ranges_of(s@, found@) + fields(rest.skip(end + 1), b, trailing) =~= ranges_of(
                s@,
                before,
            ) + (seq![rest.take(end as int)] + fields(rest.skip(end + 1), b, trailing)));
            start = start + end + 1;
        } else {
            found.push((start, to));
            assert(ranges_of(s@, found@) =~= ranges_of(s@, before) + seq![rest]);
            break ;
        }
    }
    found
}

} // verus!
