//! What a markdown file yields: its front matter, its rendered text, the
//! notes of its citations, and the list of posts.

use crate::content::content_variables::ContentVariables;
use crate::content::front_matter::{about, bool_field, date_field, entry_views, get_element,
    get_element_bool, get_element_date, get_element_number, get_element_string,
    get_element_string_vec, lookup, number_field, string_field, strings_field, ValueView,
    VariableValue};
use crate::content::front_matter::{extract, extract_variables};
use crate::content::preliminary_analysis::{desktop_contents, generate_table_of_contents,
    mobile_contents, Content, ContentView};
use crate::content::{ContentError, ContentResult, ErrorKind, ErrorView};
use crate::context::Context;
use crate::path::strip_prefix;
use chrono::DateTime;
use crate::text::{append, as_text, decimal, decimal_of, fields, find, find_byte, find_in,
    index_of, lemma_find_bounds, lemma_index_of, matches_at, ranges_of, replace_range,
    splice, split_fields, starts_with_at, to_vec, trim, trimmed};
use vstd::prelude::*;
use vstd::string::StringSliceAdditionalSpecFns;
use vstd::utf8::{decode_utf8, valid_utf8};

verus! {

/// `[_cn `, which opens a citation.
pub open spec fn cite_marker() -> Seq<u8> {
    seq![0x5bu8, 0x5fu8, 0x63u8, 0x6eu8, 0x20u8]
}

/// `](`, which parts the description of a citation from its links.
pub open spec fn link_separator() -> Seq<u8> {
    seq![0x5du8, 0x28u8]
}

/// `www.`, which is left out of the label of a link.
pub open spec fn www() -> Seq<u8> {
    seq![0x77u8, 0x77u8, 0x77u8, 0x2eu8]
}

/// What the links to the web archive start with.
pub open spec fn archive_prefix() -> Seq<u8> {
    "https://web.archive.org/".spec_bytes()
}

/// The host that a URL names, as it is written out; none where the text is no
/// URL or the URL has no host.
pub uninterp spec fn url_host(link: Seq<char>) -> Option<Seq<u8>>;

/// Reads the host of a URL.
///
/// Trusted: calls `url::Url::parse` and, on the URL it gives, `host`, and
/// writes the host out as its `Display` does. None stands for a text that
/// does not parse and for a URL without a host alike.
#[verifier::external_body]
fn host_of_url(link: &str) -> (r: Option<Vec<u8>>)
    ensures
        r matches Some(host) ==> url_host(link@) == Some(host@),
        r is None ==> url_host(link@) is None,
{
    url::Url::parse(link).ok().and_then(|u| u.host().map(|h| h.to_string().into_bytes()))
}

/// `host` without the `www.` it starts with, however often that is repeated.
pub open spec fn without_www(host: Seq<u8>) -> Seq<u8>
    decreases host.len(),
{
    if matches_at(host, www(), 0) {
        without_www(host.skip(4))
    } else {
        host
    }
}

/// The label under which a link is shown: the host it names, without `www.`.
pub open spec fn host_label(link: Seq<u8>) -> Option<Seq<u8>> {
    if !valid_utf8(link) {
        None
    } else {
        match url_host(decode_utf8(link)) {
            Some(host) => Some(without_www(host)),
            None => None,
        }
    }
}

/// A link shown under `label`.
pub open spec fn anchor(link: Seq<u8>, label: Seq<u8>) -> Seq<u8> {
    "<a href=\"".spec_bytes() + link + "\">".spec_bytes() + label + "</a>".spec_bytes()
}

/// The error for a link that names no host.
pub open spec fn invalid_url(link: Seq<u8>, position: int) -> ErrorView {
    ErrorView { kind: ErrorKind::InvalidUrl, position, detail: link }
}

/// The links to the sources of a citation, each under the host it names.
/// The first link that names no host is an error.
pub open spec fn source_links(links: Seq<Seq<u8>>, position: int) -> Result<Seq<u8>, ErrorView>
    decreases links.len(),
{
    if links.len() == 0 {
        Ok(Seq::empty())
    } else {
        match source_links(links.drop_last(), position) {
            Err(error) => Err(error),
            Ok(head) => match host_label(links.last()) {
                None => Err(invalid_url(links.last(), position)),
                Some(label) => Ok(head + anchor(links.last(), label)),
            },
        }
    }
}

/// The note of a citation and the warnings it gives rise to.
pub struct Note {
    pub item: Seq<u8>,
    pub warnings: Seq<ErrorView>,
}

/// A warning or error of the given kind at `position`.
pub open spec fn remark(kind: ErrorKind, position: int) -> ErrorView {
    ErrorView { kind, position, detail: Seq::empty() }
}

/// The note with number `id` for the citation `payload`, found at `position`.
///
/// The payload is `description](link link ... archive-link`. The note holds
/// the description, where there is one, and a link to each source under the
/// host it names. A last link that points to the web archive is shown as the
/// archived copy; any other last link is a source like the others, and the
/// citation gives a warning. A citation without links gives a warning too. A
/// payload without `](` is an error, and so is a source link that names no
/// host.
pub open spec fn note(payload: Seq<u8>, id: nat, position: int) -> Result<Note, ErrorView> {
    match find(payload, link_separator(), 0, payload.len() as int) {
        None => Err(remark(ErrorKind::MalformedCitation, position)),
        Some(separator) => {
            let description = trim(payload.take(separator));
            let links = fields(payload.skip(separator + 2), 0x20, false);
            let head = "<li id=\"cite-note-".spec_bytes() + decimal(id) + "\">".spec_bytes() + (
            if description.len() > 0 {
                description + " - ".spec_bytes()
            } else {
                Seq::empty()
            });
            if links.len() == 0 {
                Ok(
                    Note {
                        item: head + "</li>".spec_bytes(),
                        warnings: seq![remark(ErrorKind::CitationWithoutLink, position)],
                    },
                )
            } else if matches_at(links.last(), archive_prefix(), 0) {
                match source_links(links.drop_last(), position) {
                    Err(error) => Err(error),
                    Ok(sources) => Ok(
                        Note {
                            item: head + sources + " - <a href=\"".spec_bytes() + links.last()
                                + "\">archive</a>".spec_bytes() + "</li>".spec_bytes(),
                            warnings: Seq::empty(),
                        },
                    ),
                }
            } else {
                match source_links(links, position) {
                    Err(error) => Err(error),
                    Ok(sources) => Ok(
                        Note {
                            item: head + sources + "</li>".spec_bytes(),
                            warnings: seq![remark(ErrorKind::CitationWithoutArchive, position)],
                        },
                    ),
                }
            }
        },
    }
}

/// What stands in the text in place of the citation with number `id`.
pub open spec fn reference(id: nat) -> Seq<u8> {
    "<a href=\"#cite-note-".spec_bytes() + decimal(id)
        + "\" class=\"cite-note\"><sup>[".spec_bytes() + decimal(id) + "]</sup></a>".spec_bytes()
}

/// Strips `www.` from the start of a host.
fn strip_www(host: &[u8]) -> (r: &[u8])
    ensures
        r@ == without_www(host@),
{
    let www: [u8; 4] = [0x77, 0x77, 0x77, 0x2e];
    assert(www@ =~= self::www());
    let mut start: usize = 0;
    assert(host@.skip(0) =~= host@);
    while starts_with_at(host, www.as_slice(), start)
        invariant
            start <= host.len(),
            www@ == self::www(),
            without_www(host@) == without_www(host@.skip(start as int)),
        decreases host.len() - start,
    {
        assert(host@.skip(start as int).subrange(0, 4) =~= host@.subrange(
            start as int,
            start + 4,
        ));
        assert(host@.skip(start as int).skip(4) =~= host@.skip(start + 4));
        start += 4;
    }
    assert(!matches_at(host@.skip(start as int), self::www(), 0)) by {
        if matches_at(host@.skip(start as int), self::www(), 0) {
            assert(host@.skip(start as int).subrange(0, 4) =~= host@.subrange(
                start as int,
                start + 4,
            ));
        }
    }
    let r = vstd::slice::slice_subrange(host, start, host.len());
    assert(r@ =~= host@.skip(start as int));
    r
}

/// The label of a link, if it names a host.
fn label_of(link: &[u8]) -> (r: Option<Vec<u8>>)
    ensures
        r matches Some(label) ==> host_label(link@) == Some(label@),
        r is None ==> host_label(link@) is None,
{
    match as_text(link) {
        None => None,
        Some(text) => {
            proof {
                vstd::utf8::encode_utf8_decode_utf8(text@);
            }
            match host_of_url(text) {
                None => None,
                Some(host) => Some(to_vec(strip_www(host.as_slice()))),
            }
        },
    }
}

/// Builds the links to the first `count` of the links that `found` cuts out
/// of `html`, each under the host it names.
fn links_to_sources(html: &[u8], found: &Vec<(usize, usize)>, count: usize, position: usize) -> (r:
    Result<Vec<u8>, ContentError>)
    requires
        count <= found.len(),
        forall|i: int|
            0 <= i < found@.len() ==> (#[trigger] found@[i]).0 <= found@[i].1 <= html@.len(),
    ensures
        match source_links(ranges_of(html@, found@).take(count as int), position as int) {
            Ok(listed) => r matches Ok(out) && out@ == listed,
            Err(error) => r matches Err(e) && e@ == error,
        },
{
    let ghost sources = ranges_of(html@, found@).take(count as int);
    let mut out: Vec<u8> = Vec::new();
    let mut i: usize = 0;
    assert(sources.take(0) =~= Seq::<Seq<u8>>::empty());
    while i < count
        invariant
            i <= count <= found.len(),
            sources == ranges_of(html@, found@).take(count as int),
            forall|i: int|
                0 <= i < found@.len() ==> (#[trigger] found@[i]).0 <= found@[i].1 <= html@.len(),
            source_links(sources.take(i as int), position as int) == Ok::<Seq<u8>, ErrorView>(
                out@,
            ),
        decreases count - i,
    {
        let (from, to) = found[i];
        let link = vstd::slice::slice_subrange(html, from, to);
        proof {
            assert(sources.take(i + 1).drop_last() =~= sources.take(i as int));
            assert(sources.take(i + 1).last() == link@);
            lemma_source_links_error(sources, i + 1, position as int);
        }
        let label = match label_of(link) {
            None => {
                return Err(ContentError::new(ErrorKind::InvalidUrl, position, link));
            },
            Some(label) => label,
        };
        let ghost done = out@;
        append(&mut out, "<a href=\"".as_bytes());
        append(&mut out, link);
        append(&mut out, "\">".as_bytes());
        append(&mut out, label.as_slice());
        append(&mut out, "</a>".as_bytes());
        assert(out@ =~= done + anchor(link@, label@));
        i += 1;
    }
    assert(sources.take(i as int) =~= sources);
    Ok(out)
}

/// Appends the note of one citation to the list of notes and records its
/// warnings. On an error nothing is appended or recorded.
pub fn generate_cite_note_link(
    cite_note_html: &mut Vec<u8>,
    html: &[u8],
    cite_note_id: usize,
    position: usize,
    result: &mut ContentResult,
) -> (r: Result<(), ContentError>)
    ensures
        final(result)@.errors == old(result)@.errors,
        match note(html@, cite_note_id as nat, position as int) {
            Ok(note) => r is Ok && final(cite_note_html)@ == old(cite_note_html)@ + note.item
                && final(result)@.warnings == old(result)@.warnings + note.warnings,
            Err(error) => r matches Err(e) && e@ == error && final(cite_note_html)@ == old(
                cite_note_html,
            )@ && final(result)@.warnings == old(result)@.warnings,
        },
{
    let separator_bytes: [u8; 2] = [0x5d, 0x28];
    assert(separator_bytes@ =~= link_separator());
    let separator = match find_in(html, separator_bytes.as_slice(), 0, html.len()) {
        None => {
            return Err(ContentError::at(ErrorKind::MalformedCitation, position));
        },
        Some(separator) => separator,
    };
    proof {
        lemma_find_bounds(html@, link_separator(), 0, html.len() as int);
    }
    let mut item = to_vec("<li id=\"cite-note-".as_bytes());
    append(&mut item, decimal_of(cite_note_id).as_slice());
    append(&mut item, "\">".as_bytes());
    match get_description_of_cite_note(html, separator) {
        Some(description) => {
            append(&mut item, description);
            append(&mut item, " - ".as_bytes());
        },
        None => {
            assert(item@ + Seq::<u8>::empty() =~= item@);
        },
    }
    let found = split_fields(html, separator + 2, html.len(), 0x20, false);
    assert(html@.subrange(separator + 2, html.len() as int) =~= html@.skip(separator + 2));
    let ghost links = ranges_of(html@, found@);
    if found.len() == 0 {
        append(&mut item, "</li>".as_bytes());
        append(cite_note_html, item.as_slice());
        result.push_warning(ContentError::at(ErrorKind::CitationWithoutLink, position));
        assert(old(result)@.warnings.push(remark(ErrorKind::CitationWithoutLink, position as int))
            =~= old(result)@.warnings + seq![
            remark(ErrorKind::CitationWithoutLink, position as int),
        ]);
        return Ok(());
    }
    let last_index = found.len() - 1;
    let (from, to) = found[last_index];
    let last = vstd::slice::slice_subrange(html, from, to);
    assert(links.last() == last@);
    let archived = starts_with_at(last, "https://web.archive.org/".as_bytes(), 0);
    let count = if archived {
        last_index
    } else {
        found.len()
    };
    let ghost sources = links.take(count as int);
    assert(links.take(last_index as int) =~= links.drop_last());
    assert(links.take(found.len() as int) =~= links);
    let listed = match links_to_sources(html, &found, count, position) {
        Err(error) => {
            return Err(error);
        },
        Ok(listed) => listed,
    };
    append(&mut item, listed.as_slice());
    if archived {
        append(&mut item, " - <a href=\"".as_bytes());
        append(&mut item, last);
        append(&mut item, "\">archive</a>".as_bytes());
        assert(old(result)@.warnings + Seq::<ErrorView>::empty() =~= old(result)@.warnings);
    } else {
        result.push_warning(ContentError::at(ErrorKind::CitationWithoutArchive, position));
        assert(old(result)@.warnings.push(
            remark(ErrorKind::CitationWithoutArchive, position as int),
        ) =~= old(result)@.warnings + seq![
            remark(ErrorKind::CitationWithoutArchive, position as int),
        ]);
    }
    append(&mut item, "</li>".as_bytes());
    append(cite_note_html, item.as_slice());
    Ok(())
}

/// An error among the first links is an error of all of them.
pub proof fn lemma_source_links_error(links: Seq<Seq<u8>>, n: int, position: int)
    requires
        0 <= n <= links.len(),
    ensures
        source_links(links.take(n), position) matches Err(error) ==> source_links(
            links,
            position,
        ) == Err::<Seq<u8>, ErrorView>(error),
    decreases links.len() - n,
{
    if n < links.len() {
        assert(links.take(n + 1).drop_last() =~= links.take(n));
        lemma_source_links_error(links, n + 1, position);
    } else {
        assert(links.take(n) =~= links);
    }
}

/// The description of a citation: what stands before the `](`, trimmed; none
/// where that is nothing but white space.
pub fn get_description_of_cite_note(html: &[u8], bracket_index: usize) -> (r: Option<&[u8]>)
    requires
        bracket_index <= html.len(),
    ensures
        r matches Some(description) ==> description@ == trim(html@.take(bracket_index as int))
            && description@.len() > 0,
        r is None ==> trim(html@.take(bracket_index as int)).len() == 0,
{
    let description = trimmed(vstd::slice::slice_subrange(html, 0, bracket_index));
    if description.len() == 0 {
        None
    } else {
        Some(description)
    }
}

/// What the citations of a page come to: the page with a reference in the
/// place of each citation, the notes, the warnings, the errors of the
/// citations that were passed over, and the error that stopped the pass, if
/// one did.
pub struct Citations {
    pub html: Seq<u8>,
    pub notes: Seq<u8>,
    pub warnings: Seq<ErrorView>,
    pub errors: Seq<ErrorView>,
    pub error: Option<ErrorView>,
}

/// Whether an error of a citation leaves the page standing: a link that
/// names no host does; the citation is passed over.
pub open spec fn is_passed_over(error: ErrorView) -> bool {
    error.kind == ErrorKind::InvalidUrl
}

/// The citations of `html` from `index` on, where `id` citations came before.
///
/// A citation runs from `[_cn ` to the next `)`; what lies between is its
/// payload. The citations are numbered in the order in which they stand,
/// from 1. A marker that no `)` follows is passed over. A citation with a
/// link that names no host is passed over as well: it stays in the text,
/// takes no number, and its error is kept. A citation without `](` stops the
/// pass.
pub open spec fn citations_from(
    html: Seq<u8>,
    index: int,
    id: nat,
    notes: Seq<u8>,
    warnings: Seq<ErrorView>,
    errors: Seq<ErrorView>,
) -> Citations
    decreases html.len() - index,
    via citations_from_decreases
{
    match find(html, cite_marker(), index, html.len() as int) {
        None => Citations { html, notes, warnings, errors, error: None },
        Some(at) => {
            let close = at + 5 + index_of(html.skip(at + 5), 0x29);
            if close >= html.len() {
                citations_from(html, at + 1, id, notes, warnings, errors)
            } else {
                match note(html.subrange(at + 5, close), id + 1, at) {
                    Err(error) => if is_passed_over(error) {
                        citations_from(html, at + 1, id, notes, warnings, errors.push(error))
                    } else {
                        Citations { html, notes, warnings, errors, error: Some(error) }
                    },
                    Ok(found) => citations_from(
                        splice(html, at, close + 1, reference(id + 1)),
                        at + reference(id + 1).len(),
                        id + 1,
                        notes + found.item,
                        warnings + found.warnings,
                        errors,
                    ),
                }
            }
        },
    }
}

#[via_fn]
proof fn citations_from_decreases(
    html: Seq<u8>,
    index: int,
    id: nat,
    notes: Seq<u8>,
    warnings: Seq<ErrorView>,
    errors: Seq<ErrorView>,
) {
    lemma_find_bounds(html, cite_marker(), index, html.len() as int);
    match find(html, cite_marker(), index, html.len() as int) {
        None => {},
        Some(at) => {
            lemma_index_of(html.skip(at + 5), 0x29);
        },
    }
}

/// The citations of all of `html`.
pub open spec fn citations(html: Seq<u8>) -> Citations {
    citations_from(html, 0, 0, Seq::empty(), Seq::empty(), Seq::empty())
}

/// What stands in place of the notes of a page without citations.
pub open spec fn no_references() -> Seq<u8> {
    "Unfortunatelly, there are no references in this article :(".spec_bytes()
}

/// The list of notes as shown: the notes, or a sentence where there are none.
pub open spec fn shown_notes(notes: Seq<u8>) -> Seq<u8> {
    if notes.len() == 0 {
        no_references()
    } else {
        notes
    }
}

/// Builds the markup that stands for the citation with number `id`.
fn reference_of(id: usize) -> (r: Vec<u8>)
    ensures
        r@ == reference(id as nat),
{
    let digits = decimal_of(id);
    let mut out = to_vec("<a href=\"#cite-note-".as_bytes());
    append(&mut out, digits.as_slice());
    append(&mut out, "\" class=\"cite-note\"><sup>[".as_bytes());
    append(&mut out, digits.as_slice());
    append(&mut out, "]</sup></a>".as_bytes());
    out
}

/// Puts a numbered reference in the place of every citation of `html` and
/// hands back the notes, which are empty where the page has no citation.
/// The warnings of the citations and the errors of those passed over are
/// recorded. A citation without `](` ends the pass with its error.
pub fn resolve_citations(html: &mut Vec<u8>, result: &mut ContentResult) -> (r: Result<
    Vec<u8>,
    ContentError,
>)
    ensures
        ({
            let all = citations(old(html)@);
            &&& final(html)@ == all.html
            &&& final(result)@.warnings == old(result)@.warnings + all.warnings
            &&& final(result)@.errors == old(result)@.errors + all.errors
            &&& all.error matches Some(error) ==> (r matches Err(e) && e@ == error)
            &&& all.error is None ==> (r matches Ok(notes) && notes@ == all.notes)
        }),
{
    let marker: [u8; 5] = [0x5b, 0x5f, 0x63, 0x6e, 0x20];
    assert(marker@ =~= cite_marker());
    let mut cite_note_html: Vec<u8> = Vec::new();
    let mut cite_note_id: usize = 0;
    let mut index: usize = 0;
    let ghost goal = citations(old(html)@);
    let ghost mut warnings = Seq::<ErrorView>::empty();
    let ghost mut errors = Seq::<ErrorView>::empty();
    assert(old(result)@.warnings + warnings =~= old(result)@.warnings);
    assert(old(result)@.errors + errors =~= old(result)@.errors);
    loop
        invariant
            marker@ == cite_marker(),
            cite_note_id <= index <= html.len(),
            result@.warnings == old(result)@.warnings + warnings,
            result@.errors == old(result)@.errors + errors,
            goal == citations(old(html)@),
            goal == citations_from(
                html@,
                index as int,
                cite_note_id as nat,
                cite_note_html@,
                warnings,
                errors,
            ),
        ensures
            goal.error is None,
            goal.html == html@,
            goal.notes == cite_note_html@,
            result@.warnings == old(result)@.warnings + goal.warnings,
            result@.errors == old(result)@.errors + goal.errors,
        decreases html.len() - index,
    {
        let at = match find_in(html.as_slice(), marker.as_slice(), index, html.len()) {
            None => {
                break ;
            },
            Some(at) => at,
        };
        proof {
            lemma_find_bounds(html@, cite_marker(), index as int, html.len() as int);
        }
        let rest = vstd::slice::slice_subrange(html.as_slice(), at + 5, html.len());
        assert(rest@ =~= html@.skip(at + 5));
        let close = at + 5 + find_byte(rest, 0x29);
        if close >= html.len() {
            index = at + 1;
        } else {
            let payload = vstd::slice::slice_subrange(html.as_slice(), at + 5, close);
            match generate_cite_note_link(
                &mut cite_note_html,
                payload,
                cite_note_id + 1,
                at,
                result,
            ) {
                Err(error) => {
                    match error.kind {
                        ErrorKind::InvalidUrl => {
                            proof {
                                assert(result@.errors.push(error@) =~= old(result)@.errors
                                    + errors.push(error@));
                                errors = errors.push(error@);
                            }
                            result.push_error(error);
                            index = at + 1;
                        },
                        _ => {
                            return Err(error);
                        },
                    }
                },
                Ok(()) => {
                    proof {
                        let found = note(payload@, (cite_note_id + 1) as nat, at as int)->Ok_0;
                        assert(result@.warnings =~= old(result)@.warnings + (warnings
                            + found.warnings));
                        warnings = warnings + found.warnings;
                    }
                    cite_note_id += 1;
                    let reference = reference_of(cite_note_id);
                    let ghost before = html@;
                    replace_range(html, at, close + 1, reference.as_slice());
                    assert(html.len() == at + reference.len() + (before.len() - (close + 1)));
                    index = at + reference.len();
                },
            }
        }
    }
    Ok(cite_note_html)
}

/// Puts a numbered reference in the place of every citation of `html` and
/// hands back the list of notes as it is shown. The warnings of the
/// citations and the errors of those passed over are recorded. A citation
/// without `](` ends the pass with its error.
pub fn generate_cite_notes(html: &mut Vec<u8>, result: &mut ContentResult) -> (r: Result<
    Vec<u8>,
    ContentError,
>)
    ensures
        ({
            let all = citations(old(html)@);
            &&& final(html)@ == all.html
            &&& final(result)@.warnings == old(result)@.warnings + all.warnings
            &&& final(result)@.errors == old(result)@.errors + all.errors
            &&& all.error matches Some(error) ==> (r matches Err(e) && e@ == error)
            &&& all.error is None ==> (r matches Ok(notes) && notes@ == shown_notes(all.notes))
        }),
{
    let mut notes = match resolve_citations(html, result) {
        Err(error) => {
            return Err(error);
        },
        Ok(notes) => notes,
    };
    if notes.len() == 0 {
        append(&mut notes, "Unfortunatelly, there are no references in this article :(".as_bytes());
    }
    Ok(notes)
}

/// What the front matter says of a blog post.
#[derive(Debug)]
pub struct BlogContent {
    pub link: Vec<u8>,
    pub title: Vec<u8>,
    pub description: Vec<u8>,
    pub tags: Vec<Vec<u8>>,
    /// When the post was published, in nanoseconds since 1970-01-01 00:00:00
    /// UTC.
    pub date: i64,
    pub draft: bool,
    pub technical: bool,
    /// How hard the post is to read: a number, as it is written.
    pub difficulty: Vec<u8>,
}

/// The value of a `BlogContent`.
pub struct BlogView {
    pub link: Seq<u8>,
    pub title: Seq<u8>,
    pub description: Seq<u8>,
    pub tags: Seq<Seq<u8>>,
    pub date: int,
    pub draft: bool,
    pub technical: bool,
    pub difficulty: Seq<u8>,
}

impl View for BlogContent {
    type V = BlogView;

    open spec fn view(&self) -> BlogView {
        BlogView {
            link: self.link@,
            title: self.title@,
            description: self.description@,
            tags: self.tags@.map_values(|tag: Vec<u8>| tag@),
            date: self.date as int,
            draft: self.draft,
            technical: self.technical,
            difficulty: self.difficulty@,
        }
    }
}

/// What the front matter says of an experiment: nothing.
#[derive(Debug)]
pub struct ExpContent {}

/// What a time looks like when written out after `pattern`.
pub uninterp spec fn formatted_time(nanos: int, pattern: Seq<char>) -> Seq<u8>;

/// The day of a date, as shown in a page.
pub open spec fn day_pattern() -> Seq<char> {
    "%e %B %Y"@
}

/// The day of a date, as shown in the list of posts.
pub open spec fn card_pattern() -> Seq<char> {
    "%e&nbsp;%B&nbsp;%Y"@
}

/// A date in full, as shown in a tooltip.
pub open spec fn full_pattern() -> Seq<char> {
    "%A, %e %B %Y %H:%M:%S UTC"@
}

/// Writes a time out.
///
/// Trusted: makes the time with chrono's `DateTime::from_timestamp_nanos`,
/// which takes every count, and writes it out in UTC with `format`. The
/// patterns are the three that the pages use; `format` takes each of them.
#[verifier::external_body]
fn format_time(nanos: i64, pattern: &str) -> (r: Vec<u8>)
    requires
        pattern@ == day_pattern() || pattern@ == card_pattern() || pattern@ == full_pattern(),
    ensures
        r@ == formatted_time(nanos as int, pattern@),
{
    DateTime::from_timestamp_nanos(nanos).format(pattern).to_string().into_bytes()
}

/// Writes out the day of a date for the list of posts.
pub fn format_day_for_card(nanos: i64) -> (r: Vec<u8>)
    ensures
        r@ == formatted_time(nanos as int, card_pattern()),
{
    format_time(nanos, "%e&nbsp;%B&nbsp;%Y")
}

/// Writes out a date in full.
pub fn format_full_date(nanos: i64) -> (r: Vec<u8>)
    ensures
        r@ == formatted_time(nanos as int, full_pattern()),
{
    format_time(nanos, "%A, %e %B %Y %H:%M:%S UTC")
}

/// A date as a page shows it: the day, and the full date in a tooltip.
pub open spec fn shown_date(nanos: int) -> Seq<u8> {
    formatted_time(nanos, day_pattern()) + "<div class=\"tooltip\">".spec_bytes() + formatted_time(
        nanos,
        full_pattern(),
    ) + "</div>".spec_bytes()
}

/// The text that stands for a value in a page; an array has none.
pub open spec fn shown(value: ValueView) -> Option<Seq<u8>> {
    match value {
        ValueView::String(text) => Some(text),
        ValueView::Bool(b) => Some(
            if b {
                "true".spec_bytes()
            } else {
                "false".spec_bytes()
            },
        ),
        ValueView::Number(text) => Some(text),
        ValueView::Date(nanos) => Some(shown_date(nanos)),
        ValueView::Array(_) => None,
    }
}

/// The variables with `md_` and `key` bound to the text of the field `key`,
/// where the front matter has that field and it is no array.
pub open spec fn with_field(
    variables: Map<Seq<u8>, Seq<u8>>,
    entries: Seq<(Seq<u8>, ValueView)>,
    key: Seq<u8>,
) -> Map<Seq<u8>, Seq<u8>> {
    match lookup(entries, key) {
        None => variables,
        Some(value) => match shown(value) {
            None => variables,
            Some(text) => variables.insert("md_".spec_bytes() + key, text),
        },
    }
}

/// The variables with the fields that every page may use: title,
/// description, date and background.
pub open spec fn with_fields(
    variables: Map<Seq<u8>, Seq<u8>>,
    entries: Seq<(Seq<u8>, ValueView)>,
) -> Map<Seq<u8>, Seq<u8>> {
    with_field(
        with_field(
            with_field(
                with_field(variables, entries, "title".spec_bytes()),
                entries,
                "description".spec_bytes(),
            ),
            entries,
            "date".spec_bytes(),
        ),
        entries,
        "background_url".spec_bytes(),
    )
}

/// Whether `part` occurs in `path`.
pub open spec fn contains(path: Seq<u8>, part: Seq<u8>) -> bool {
    find(path, part, 0, path.len() as int) is Some
}

/// What the front matter says of a blog post with the given link. Every
/// field is required; the first that is missing or of another type is the
/// error.
pub open spec fn blog_of(link: Seq<u8>, entries: Seq<(Seq<u8>, ValueView)>) -> Result<
    BlogView,
    ErrorView,
> {
    match string_field(entries, "title".spec_bytes()) {
        Err(error) => Err(error),
        Ok(title) => match string_field(entries, "description".spec_bytes()) {
            Err(error) => Err(error),
            Ok(description) => match strings_field(entries, "tags".spec_bytes()) {
                Err(error) => Err(error),
                Ok(tags) => match date_field(entries, "date".spec_bytes()) {
                    Err(error) => Err(error),
                    Ok(date) => match bool_field(entries, "draft".spec_bytes()) {
                        Err(error) => Err(error),
                        Ok(draft) => match bool_field(entries, "technical".spec_bytes()) {
                            Err(error) => Err(error),
                            Ok(technical) => match number_field(
                                entries,
                                "difficulty".spec_bytes(),
                            ) {
                                Err(error) => Err(error),
                                Ok(difficulty) => Ok(
                                    BlogView {
                                        link,
                                        title,
                                        description,
                                        tags,
                                        date,
                                        draft,
                                        technical,
                                        difficulty,
                                    },
                                ),
                            },
                        },
                    },
                },
            },
        },
    }
}

/// Reads the fields of a blog post from the front matter.
pub fn blog_content(link: Vec<u8>, md_variables: &Vec<(Vec<u8>, VariableValue)>) -> (r: Result<
    BlogContent,
    ContentError,
>)
    ensures
        match blog_of(link@, entry_views(md_variables@)) {
            Ok(blog) => r matches Ok(b) && b@ == blog,
            Err(error) => r matches Err(e) && e@ == error,
        },
{
    let title = match get_element_string("title".as_bytes(), md_variables) {
        Err(error) => {
            return Err(error);
        },
        Ok(title) => title,
    };
    let description = match get_element_string("description".as_bytes(), md_variables) {
        Err(error) => {
            return Err(error);
        },
        Ok(description) => description,
    };
    let tags = match get_element_string_vec("tags".as_bytes(), md_variables) {
        Err(error) => {
            return Err(error);
        },
        Ok(tags) => tags,
    };
    let date = match get_element_date("date".as_bytes(), md_variables) {
        Err(error) => {
            return Err(error);
        },
        Ok(date) => date,
    };
    let draft = match get_element_bool("draft".as_bytes(), md_variables) {
        Err(error) => {
            return Err(error);
        },
        Ok(draft) => draft,
    };
    let technical = match get_element_bool("technical".as_bytes(), md_variables) {
        Err(error) => {
            return Err(error);
        },
        Ok(technical) => technical,
    };
    let difficulty = match get_element_number("difficulty".as_bytes(), md_variables) {
        Err(error) => {
            return Err(error);
        },
        Ok(difficulty) => difficulty,
    };
    Ok(BlogContent { link, title, description, tags, date, draft, technical, difficulty })
}

/// Builds the text that shows a date in a page.
fn date_text(nanos: i64) -> (r: Vec<u8>)
    ensures
        r@ == shown_date(nanos as int),
{
    let mut out = format_time(nanos, "%e %B %Y");
    append(&mut out, "<div class=\"tooltip\">".as_bytes());
    append(&mut out, format_time(nanos, "%A, %e %B %Y %H:%M:%S UTC").as_slice());
    append(&mut out, "</div>".as_bytes());
    out
}

/// Binds `md_` and `key` to the text of the field `key`.
fn insert_field(
    variables: &mut ContentVariables,
    md_variables: &Vec<(Vec<u8>, VariableValue)>,
    key: &[u8],
)
    ensures
        final(variables)@ == with_field(old(variables)@, entry_views(md_variables@), key@),
{
    let value = match get_element(key, md_variables) {
        Err(_) => {
            return ;
        },
        Ok(value) => value,
    };
    let text = match value {
        VariableValue::String(text) => to_vec(text.as_slice()),
        VariableValue::Bool(b) => if *b {
            to_vec("true".as_bytes())
        } else {
            to_vec("false".as_bytes())
        },
        VariableValue::Number(text) => to_vec(text.as_slice()),
        VariableValue::Date(nanos) => date_text(*nanos),
        VariableValue::Array(_) => {
            return ;
        },
    };
    let mut name = to_vec("md_".as_bytes());
    append(&mut name, key);
    variables.insert(name, text);
}

/// What the front matter says of the file at `path`: the path names the
/// section, `blog/` or `exp/`, and the section says which fields are
/// required.
pub open spec fn content_of(
    path: Seq<u8>,
    link: Seq<u8>,
    entries: Seq<(Seq<u8>, ValueView)>,
) -> Result<ContentView, ErrorView> {
    if contains(path, "blog/".spec_bytes()) {
        match blog_of(link, entries) {
            Ok(blog) => Ok(ContentView::Blog(blog)),
            Err(error) => Err(error),
        }
    } else if contains(path, "exp/".spec_bytes()) {
        Ok(ContentView::Exp)
    } else {
        Err(about(ErrorKind::UnknownSection, path))
    }
}

/// Binds the fields of the front matter that every page may use and reads
/// what the section of the file requires.
pub fn process_variables(
    context: &Context,
    path: &[u8],
    variables: &mut ContentVariables,
    md_variables: Vec<(Vec<u8>, VariableValue)>,
) -> (r: Result<Content, ContentError>)
    requires
        strip_prefix(path@, context.args.content_directory()) is Some,
    ensures
        final(variables)@ == with_fields(old(variables)@, entry_views(md_variables@)),
        match content_of(path@, context.link(path@), entry_views(md_variables@)) {
            Ok(content) => r matches Ok(c) && c@ == content,
            Err(error) => r matches Err(e) && e@ == error,
        },
{
    insert_field(variables, &md_variables, "title".as_bytes());
    insert_field(variables, &md_variables, "description".as_bytes());
    insert_field(variables, &md_variables, "date".as_bytes());
    insert_field(variables, &md_variables, "background_url".as_bytes());
    if find_in(path, "blog/".as_bytes(), 0, path.len()).is_some() {
        match blog_content(context.get_file_link(path), &md_variables) {
            Ok(blog) => Ok(Content::Blog(blog)),
            Err(error) => Err(error),
        }
    } else if find_in(path, "exp/".as_bytes(), 0, path.len()).is_some() {
        Ok(Content::Exp(ExpContent {  }))
    } else {
        Err(ContentError::new(ErrorKind::UnknownSection, 0, path))
    }
}

/// The note that a draft carries; a finished post carries none.
pub open spec fn draft_info(draft: bool) -> Seq<u8> {
    if draft {
        "<p class=\"warning\">This article is still a draft, changes may occur and should not be taken seriously</p>".spec_bytes()
    } else {
        Seq::empty()
    }
}

/// The note that the page of a post carries while the post is a draft.
pub fn get_draft_info(content: &BlogContent) -> (r: Vec<u8>)
    ensures
        r@ == draft_info(content.draft),
{
    if content.draft {
        to_vec(
            "<p class=\"warning\">This article is still a draft, changes may occur and should not be taken seriously</p>".as_bytes(),
        )
    } else {
        Vec::new()
    }
}

/// The tags of a post as its page shows them.
pub open spec fn shown_tags(tags: Seq<Seq<u8>>) -> Seq<u8>
    decreases tags.len(),
{
    if tags.len() == 0 {
        Seq::empty()
    } else {
        shown_tags(tags.drop_last()) + "<a>#<strong>".spec_bytes() + tags.last()
            + "</strong></a>".spec_bytes()
    }
}

/// Builds the markup of the tags of a post.
fn tags_text(tags: &Vec<Vec<u8>>) -> (r: Vec<u8>)
    ensures
        r@ == shown_tags(tags@.map_values(|tag: Vec<u8>| tag@)),
{
    let ghost all = tags@.map_values(|tag: Vec<u8>| tag@);
    let mut out: Vec<u8> = Vec::new();
    let mut i: usize = 0;
    while i < tags.len()
        invariant
            i <= tags.len(),
            all == tags@.map_values(|tag: Vec<u8>| tag@),
            out@ == shown_tags(all.take(i as int)),
        decreases tags.len() - i,
    {
        assert(all.take(i + 1).drop_last() =~= all.take(i as int));
        append(&mut out, "<a>#<strong>".as_bytes());
        append(&mut out, tags[i].as_slice());
        append(&mut out, "</strong></a>".as_bytes());
        i += 1;
    }
    assert(all.take(i as int) =~= all);
    out
}

/// The markup that a markdown text is rendered to.
pub uninterp spec fn rendered_markdown(text: Seq<char>) -> Seq<u8>;

/// Renders markdown.
///
/// Trusted: parses the text with `pulldown_cmark::Parser::new` and writes
/// the events out with `pulldown_cmark::html::push_html`.
#[verifier::external_body]
fn render_markdown(text: &str) -> (r: Vec<u8>)
    ensures
        r@ == rendered_markdown(text@),
{
    let mut html = String::new();
    pulldown_cmark::html::push_html(&mut html, pulldown_cmark::Parser::new(text));
    html.into_bytes()
}

/// The number of words of a text.
pub uninterp spec fn counted_words(text: Seq<char>) -> nat;

/// Counts the words of a text.
///
/// Trusted: calls `words_count::count` and takes the number of words it
/// gives.
#[verifier::external_body]
fn count_words(text: &str) -> (r: usize)
    ensures
        r == counted_words(text@),
{
    words_count::count(text).words
}

/// What the analysis of a markdown file comes to: the variables, the
/// warnings, the errors that did not end it, and what the front matter says
/// of the file, or the error that ended the analysis.
pub struct Analysis {
    pub variables: Map<Seq<u8>, Seq<u8>>,
    pub warnings: Seq<ErrorView>,
    pub errors: Seq<ErrorView>,
    pub content: Result<ContentView, ErrorView>,
}

/// The variables of a page once its text is rendered: the text with its
/// citations resolved, the notes, and the two tables of contents, which
/// link the references where the page has any.
pub open spec fn with_page(variables: Map<Seq<u8>, Seq<u8>>, cited: Citations) -> Map<
    Seq<u8>,
    Seq<u8>,
> {
    variables.insert("md_content".spec_bytes(), cited.html).insert(
        "md_cite_notes".spec_bytes(),
        shown_notes(cited.notes),
    ).insert(
        "md_table_of_contents_desktop".spec_bytes(),
        desktop_contents(cited.html, true, cited.notes.len() > 0),
    ).insert(
        "md_table_of_contents_mobile".spec_bytes(),
        mobile_contents(cited.html, true, cited.notes.len() > 0),
    )
}

/// The analysis of the markdown file `file` at `path`, whose link is `link`.
///
/// The front matter is taken off and read, the rest is rendered, the
/// citations are resolved, and the variables of the page are bound. A blog
/// post has its words counted and its tags and draft note bound as well. An
/// error in the front matter, a text that is no UTF-8, a citation without
/// `](` or an error in the fields of the section ends the analysis.
pub open spec fn analyze_markdown(
    path: Seq<u8>,
    link: Seq<u8>,
    file: Seq<u8>,
    variables: Map<Seq<u8>, Seq<u8>>,
) -> Analysis {
    let extracted = extract(file);
    let front = extracted.front;
    if front.error is Some {
        Analysis {
            variables,
            warnings: front.warnings,
            errors: Seq::empty(),
            content: Err(front.error->0),
        }
    } else if !valid_utf8(extracted.content) {
        Analysis {
            variables,
            warnings: front.warnings,
            errors: Seq::empty(),
            content: Err(about(ErrorKind::InvalidText, Seq::empty())),
        }
    } else {
        let text = decode_utf8(extracted.content);
        let cited = citations(rendered_markdown(text));
        let warnings = front.warnings + cited.warnings;
        let errors = cited.errors;
        let fields = with_fields(variables, front.entries);
        if cited.error is Some {
            Analysis { variables, warnings, errors, content: Err(cited.error->0) }
        } else {
            match content_of(path, link, front.entries) {
                Err(error) => Analysis { variables: fields, warnings, errors, content: Err(error) },
                Ok(ContentView::Exp) => Analysis {
                    variables: with_page(fields, cited),
                    warnings,
                    errors,
                    content: Ok(ContentView::Exp),
                },
                Ok(ContentView::Blog(blog)) => Analysis {
                    variables: with_page(
                        fields.insert(
                            "md_word_count".spec_bytes(),
                            decimal(counted_words(text)),
                        ),
                        cited,
                    ).insert("md_tags".spec_bytes(), shown_tags(blog.tags)).insert(
                        "warning".spec_bytes(),
                        draft_info(blog.draft),
                    ),
                    warnings,
                    errors,
                    content: Ok(ContentView::Blog(blog)),
                },
            }
        }
    }
}

/// Analyses a markdown file: binds the variables of its page and reads what
/// its front matter says of it. The warnings are recorded, and so are the
/// errors of the citations that were passed over.
pub fn set_variables(
    context: &Context,
    path: &[u8],
    file_content: Vec<u8>,
    variables: &mut ContentVariables,
    result: &mut ContentResult,
) -> (r: Result<Content, ContentError>)
    requires
        strip_prefix(path@, context.args.content_directory()) is Some,
    ensures
        ({
            let analysis = analyze_markdown(
                path@,
                context.link(path@),
                file_content@,
                old(variables)@,
            );
            &&& final(variables)@ == analysis.variables
            &&& final(result)@.warnings == old(result)@.warnings + analysis.warnings
            &&& final(result)@.errors == old(result)@.errors + analysis.errors
            &&& match analysis.content {
                Ok(content) => r matches Ok(c) && c@ == content,
                Err(error) => r matches Err(e) && e@ == error,
            }
        }),
{
    let ghost file = file_content@;
    let mut rest = file_content;
    let md_variables = match extract_variables(&mut rest, result) {
        Err(error) => {
            assert(old(result)@.errors + Seq::<ErrorView>::empty() =~= old(result)@.errors);
            return Err(error);
        },
        Ok(md_variables) => md_variables,
    };
    let ghost front = extract(file).front;
    assert(old(result)@.errors + Seq::<ErrorView>::empty() =~= old(result)@.errors);
    let text = match as_text(rest.as_slice()) {
        None => {
            return Err(ContentError::at(ErrorKind::InvalidText, 0));
        },
        Some(text) => text,
    };
    proof {
        vstd::utf8::encode_utf8_decode_utf8(text@);
    }
    let mut html = render_markdown(text);
    let ghost cited = citations(html@);
    let mut cite_notes = match resolve_citations(&mut html, result) {
        Err(error) => {
            assert(result@.warnings =~= old(result)@.warnings + (front.warnings
                + cited.warnings));
            return Err(error);
        },
        Ok(cite_notes) => cite_notes,
    };
    assert(result@.warnings =~= old(result)@.warnings + (front.warnings + cited.warnings));
    let references = cite_notes.len() > 0;
    if !references {
        append(
            &mut cite_notes,
            "Unfortunatelly, there are no references in this article :(".as_bytes(),
        );
    }
    let table_of_contents = generate_table_of_contents(html.as_slice(), true, references);
    let content = match process_variables(context, path, variables, md_variables) {
        Err(error) => {
            return Err(error);
        },
        Ok(content) => content,
    };
    match &content {
        Content::Blog(_) => {
            variables.insert(
                to_vec("md_word_count".as_bytes()),
                decimal_of(count_words(text)),
            );
        },
        Content::Exp(_) => {},
    }
    variables.insert(to_vec("md_content".as_bytes()), html);
    variables.insert(to_vec("md_cite_notes".as_bytes()), cite_notes);
    variables.insert(to_vec("md_table_of_contents_desktop".as_bytes()), table_of_contents.0);
    variables.insert(to_vec("md_table_of_contents_mobile".as_bytes()), table_of_contents.1);
    match &content {
        Content::Blog(blog) => {
            variables.insert(to_vec("md_tags".as_bytes()), tags_text(&blog.tags));
            variables.insert(to_vec("warning".as_bytes()), get_draft_info(blog));
        },
        Content::Exp(_) => {},
    }
    Ok(content)
}

} // verus!
