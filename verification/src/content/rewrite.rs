//! The rewrite engine: it puts fragments in the place of the elements that
//! name them, fills in the variables, and gives every heading an anchor.

use crate::content::content_variables::{substitute, ContentVariables};
use crate::content::{get_id_from_name, id_from_name, is_ascii_digit, ContentError, ContentResult,
    ErrorKind, ErrorView};
use crate::context::Context;
use crate::markup::{minified, minify_html, read_token, first_token, MarkupEvent, MarkupEventView,
    MarkupKind};
use crate::text::{append, as_text, find_byte, index_of, lemma_index_of, matches_at, replace_range,
    splice, starts_with_at, to_vec};
use vstd::prelude::*;
use vstd::string::StringSliceAdditionalSpecFns;
use vstd::utf8::{decode_utf8, valid_utf8};

verus! {

/// Where the pass over a page stands.
pub struct RewriteState {
    /// The page as rewritten so far.
    pub buffer: Seq<u8>,
    /// The offset of the next token.
    pub scan: int,
    /// The offset behind the last opening tag, until a heading has used it.
    pub last_start: Option<int>,
    /// The offset behind the last heading that got its anchor.
    pub last_edited: int,
    pub variables: Map<Seq<u8>, Seq<u8>>,
    pub errors: Seq<ErrorView>,
}

/// What one token did to the pass.
pub enum Step {
    /// The token was passed over.
    Continue,
    /// The buffer was rewritten: the pass starts again at offset 0.
    Rewritten,
    /// The input has ended.
    Finished,
    /// The page cannot be rewritten.
    Failed(ErrorView),
}

/// The scanner's part of a `RewriteState`.
#[derive(Debug)]
pub struct Rewriter {
    pub buffer: Vec<u8>,
    pub scan: usize,
    pub last_start_position: Option<usize>,
    pub last_edited_position: usize,
}

/// What `step` hands back.
#[derive(Debug)]
pub enum StepOutcome {
    Continue,
    Rewritten,
    Finished,
    Failed(ContentError),
}

impl View for StepOutcome {
    type V = Step;

    open spec fn view(&self) -> Step {
        match self {
            StepOutcome::Continue => Step::Continue,
            StepOutcome::Rewritten => Step::Rewritten,
            StepOutcome::Finished => Step::Finished,
            StepOutcome::Failed(error) => Step::Failed(error@),
        }
    }
}

impl Rewriter {
    /// The state that the scanner, the variables and the errors make up.
    pub open spec fn state(
        &self,
        variables: Map<Seq<u8>, Seq<u8>>,
        errors: Seq<ErrorView>,
    ) -> RewriteState {
        RewriteState {
            buffer: self.buffer@,
            scan: self.scan as int,
            last_start: match self.last_start_position {
                Some(position) => Some(position as int),
                None => None,
            },
            last_edited: self.last_edited_position as int,
            variables,
            errors,
        }
    }
}

/// The name of a heading below the title: `h`, then a digit other than `1`.
pub open spec fn is_heading_name(name: Seq<u8>) -> bool {
    name.len() >= 2 && name[0] == 0x68 && is_ascii_digit(name[1]) && name[1] != 0x31
}

/// The markup that opens a heading with an anchor.
pub open spec fn heading_open(name: Seq<u8>, id: Seq<u8>) -> Seq<u8> {
    "<".spec_bytes() + name + " class=\"header-text\" id=\"".spec_bytes() + id
        + "\"><a href=\"#".spec_bytes() + id + "\"><span>#</span> ".spec_bytes()
}

/// Whether the offsets of a heading fit its tags: the opening tag `<hN>`
/// ends at `last_start`, the closing tag `</hN>` at `position`.
pub open spec fn heading_fits(buffer: Seq<u8>, len: int, position: int, last_start: int) -> bool {
    &&& 4 <= last_start
    &&& len + 2 <= last_start
    &&& last_start + 5 <= position <= buffer.len()
    &&& position + len <= buffer.len() + 2
    &&& buffer[last_start - 4] == 0x3c
    &&& buffer[last_start - 3] == 0x68
}

/// The identifier of the heading whose text stands between `last_start` and
/// the closing tag that ends at `position`.
pub open spec fn heading_id(buffer: Seq<u8>, position: int, last_start: int) -> Seq<u8> {
    id_from_name(buffer.subrange(last_start, position - 5))
}

/// The offset of the closing tag of a heading once it has its new opening.
pub open spec fn anchor_end(buffer: Seq<u8>, name: Seq<u8>, position: int, last_start: int) -> int {
    position - 9 + heading_open(name, heading_id(buffer, position, last_start)).len()
}

/// The buffer with the heading upgraded: the opening tag gives way to one
/// with a class, an identifier and a link to itself, and the link is closed
/// before the closing tag.
pub open spec fn upgraded(
    buffer: Seq<u8>,
    name: Seq<u8>,
    len: int,
    position: int,
    last_start: int,
) -> Seq<u8> {
    let opening = heading_open(name, heading_id(buffer, position, last_start));
    let at = anchor_end(buffer, name, position, last_start);
    splice(splice(buffer, last_start - len - 2, last_start, opening), at, at, "</a>".spec_bytes())
}

/// The state after the buffer has become `buffer`: the variables are
/// substituted over all of it, and the pass starts again.
pub open spec fn restarted(s: RewriteState, buffer: Seq<u8>, post_list: Seq<u8>) -> RewriteState {
    let pass = substitute(buffer, 0, buffer.len() as int, s.variables, post_list);
    RewriteState {
        buffer: pass.data,
        scan: 0,
        variables: pass.variables,
        errors: match pass.error {
            Some(error) => s.errors.push(error),
            None => s.errors,
        },
        ..s
    }
}

/// The error that stops the substitution over all of `buffer`, if one does.
pub open spec fn pass_error(
    variables: Map<Seq<u8>, Seq<u8>>,
    buffer: Seq<u8>,
    post_list: Seq<u8>,
) -> Option<ErrorView> {
    substitute(buffer, 0, buffer.len() as int, variables, post_list).error
}

/// What a rewrite of the buffer to `buffer` comes to: the pass starts again,
/// unless the substitution stops at a marker that is not closed or a key
/// that is not bound; that fails the page.
pub open spec fn rewritten(s: RewriteState, buffer: Seq<u8>, post_list: Seq<u8>) -> (
    RewriteState,
    Step,
) {
    (
        restarted(s, buffer, post_list),
        match pass_error(s.variables, buffer, post_list) {
            Some(error) => Step::Failed(error),
            None => Step::Rewritten,
        },
    )
}

/// An error of the given kind at `position`.
pub open spec fn failure(kind: ErrorKind, position: int) -> ErrorView {
    ErrorView { kind, position, detail: Seq::empty() }
}

/// The byte order mark.
pub open spec fn byte_order_mark() -> Seq<u8> {
    seq![0xefu8, 0xbbu8, 0xbfu8]
}

/// Whether a byte order mark stands at `scan` behind the start of the
/// buffer: there it is text, whatever the tokenizer makes of it.
pub open spec fn is_mark_in_text(buffer: Seq<u8>, scan: int) -> bool {
    scan > 0 && matches_at(buffer, byte_order_mark(), scan)
}

/// The end of the text that starts at `scan`: the offset of the next `<`
/// behind `scan`, or the end of the buffer.
pub open spec fn text_end(buffer: Seq<u8>, scan: int) -> int {
    scan + 1 + index_of(buffer.skip(scan + 1), 0x3c)
}

/// What the token `event`, read at `s.scan`, does to the pass.
///
/// Text ends before the next `<`, or with the input. A token that would not
/// move the pass forward within the buffer fails the page.
///
/// An opening tag whose name is that of a fragment gives way to the
/// fragment. A closing tag of a heading that directly follows an opening tag,
/// behind the last heading that was upgraded, upgrades the heading. Either
/// way the pass starts again. Any other token is passed over; an opening
/// tag leaves its end as the last start.
pub open spec fn step(
    s: RewriteState,
    event: MarkupEventView,
    templates: Map<Seq<u8>, Seq<u8>>,
    post_list: Seq<u8>,
) -> (RewriteState, Step) {
    let position = s.scan + event.consumed;
    let passed = RewriteState { scan: position, ..s };
    if is_mark_in_text(s.buffer, s.scan) {
        (RewriteState { scan: text_end(s.buffer, s.scan), ..s }, Step::Continue)
    } else if event.kind == MarkupKind::Eof {
        (s, Step::Finished)
    } else if event.kind == MarkupKind::Error || event.consumed < 0 || position
        > s.buffer.len() || s.scan < 0 || s.scan >= s.buffer.len() {
        (s, Step::Failed(failure(ErrorKind::Markup, s.scan)))
    } else if event.kind == MarkupKind::Text {
        (RewriteState { scan: text_end(s.buffer, s.scan), ..s }, Step::Continue)
    } else if event.consumed == 0 {
        (s, Step::Failed(failure(ErrorKind::Markup, s.scan)))
    } else if event.kind == MarkupKind::Other {
        (passed, Step::Continue)
    } else if !valid_utf8(event.name) {
        (s, Step::Failed(failure(ErrorKind::InvalidEncoding, position)))
    } else if event.kind == MarkupKind::Start {
        if templates.contains_key(event.name) {
            if event.len + 2 > event.consumed || event.len < 0 {
                (s, Step::Failed(failure(ErrorKind::Markup, s.scan)))
            } else {
                rewritten(
                    s,
                    splice(s.buffer, position - event.len - 2, position, templates[event.name]),
                    post_list,
                )
            }
        } else {
            (RewriteState { scan: position, last_start: Some(position), ..s }, Step::Continue)
        }
    } else if !is_heading_name(event.name) || s.last_start is None || position < s.last_edited
        + 1 {
        (passed, Step::Continue)
    } else if !heading_fits(s.buffer, event.len, position, s.last_start->0) {
        (RewriteState { scan: position, last_start: None, ..s }, Step::Continue)
    } else {
        rewritten(
            RewriteState {
                last_start: None,
                last_edited: anchor_end(s.buffer, event.name, position, s.last_start->0) + 9,
                ..s
            },
            upgraded(s.buffer, event.name, event.len, position, s.last_start->0),
            post_list,
        )
    }
}

/// The page that a pass ends with, and the error that ended it, if one did.
///
/// The pass reads token by token from `s.scan` on. It may rewrite the buffer
/// `fuel` times; where another rewrite is due after that, it gives up.
pub open spec fn rewrite(
    s: RewriteState,
    templates: Map<Seq<u8>, Seq<u8>>,
    post_list: Seq<u8>,
    fuel: nat,
) -> (RewriteState, Option<ErrorView>)
    decreases fuel, s.buffer.len() - s.scan,
    via rewrite_decreases
{
    let (next, outcome) = step(s, first_token(s.buffer.skip(s.scan)), templates, post_list);
    match outcome {
        Step::Finished => (next, None),
        Step::Failed(error) => (next, Some(error)),
        Step::Continue => rewrite(next, templates, post_list, fuel),
        Step::Rewritten => if fuel == 0 {
            (next, Some(failure(ErrorKind::RewriteLimit, 0)))
        } else {
            rewrite(next, templates, post_list, (fuel - 1) as nat)
        },
    }
}

#[via_fn]
proof fn rewrite_decreases(
    s: RewriteState,
    templates: Map<Seq<u8>, Seq<u8>>,
    post_list: Seq<u8>,
    fuel: nat,
) {
    lemma_step_advances(s, first_token(s.buffer.skip(s.scan)), templates, post_list);
}

/// A token that is passed over leaves the buffer as it is and moves the pass
/// forward within it.
pub proof fn lemma_step_advances(
    s: RewriteState,
    event: MarkupEventView,
    templates: Map<Seq<u8>, Seq<u8>>,
    post_list: Seq<u8>,
)
    ensures
        step(s, event, templates, post_list).1 is Continue ==> {
            let next = step(s, event, templates, post_list).0;
            &&& next.buffer == s.buffer
            &&& next.variables == s.variables
            &&& next.errors == s.errors
            &&& s.scan < next.scan <= s.buffer.len()
        },
{
    if 0 <= s.scan < s.buffer.len() {
        lemma_index_of(s.buffer.skip(s.scan + 1), 0x3c);
    }
}

/// The start of the last pass over a page that is finished: from there the
/// pass runs to the end of the page without a rewrite.
///
/// `start` is a state from which the pass reaches `s` by passing tokens
/// over. Where the pass from `s` ends without an error, a pass from the
/// state handed back, which stands at the start of the finished page and
/// may not rewrite at all, ends in the same state without an error. So no
/// opening tag of the finished page names a fragment, and no heading of it
/// is still due its anchor: either would ask for a rewrite.
pub proof fn lemma_last_pass(
    s: RewriteState,
    start: RewriteState,
    templates: Map<Seq<u8>, Seq<u8>>,
    post_list: Seq<u8>,
    fuel: nat,
) -> (last: RewriteState)
    requires
        start.scan == 0,
        start.buffer == s.buffer,
        rewrite(start, templates, post_list, 0) == rewrite(s, templates, post_list, 0),
        rewrite(s, templates, post_list, fuel).1 is None,
    ensures
        last.scan == 0,
        last.buffer == rewrite(s, templates, post_list, fuel).0.buffer,
        rewrite(last, templates, post_list, 0) == rewrite(s, templates, post_list, fuel),
    decreases fuel, s.buffer.len() - s.scan,
{
    let event = first_token(s.buffer.skip(s.scan));
    let (next, outcome) = step(s, event, templates, post_list);
    lemma_step_advances(s, event, templates, post_list);
    lemma_step_rewrites(s, event, templates, post_list);
    match outcome {
        Step::Finished => start,
        Step::Failed(_) => start,
        Step::Continue => lemma_last_pass(next, start, templates, post_list, fuel),
        Step::Rewritten => {
            if fuel == 0 {
                start
            } else {
                lemma_last_pass(next, next, templates, post_list, (fuel - 1) as nat)
            }
        },
    }
}

/// A token that does not rewrite the buffer leaves it as it is, and a
/// rewrite starts the pass again at the start of the buffer.
pub proof fn lemma_step_rewrites(
    s: RewriteState,
    event: MarkupEventView,
    templates: Map<Seq<u8>, Seq<u8>>,
    post_list: Seq<u8>,
)
    ensures
        step(s, event, templates, post_list).1 is Finished ==> step(
            s,
            event,
            templates,
            post_list,
        ).0 == s,
        step(s, event, templates, post_list).1 is Rewritten ==> step(
            s,
            event,
            templates,
            post_list,
        ).0.scan == 0,
{
}

/// A page that is rewritten without an error holds no opening tag that names
/// a fragment: a pass from its start that may not rewrite at all ends
/// without an error, in the state in which the page was finished.
pub proof fn lemma_page_is_fixed(
    template: Seq<u8>,
    variables: Map<Seq<u8>, Seq<u8>>,
    errors: Seq<ErrorView>,
    templates: Map<Seq<u8>, Seq<u8>>,
    post_list: Seq<u8>,
    fuel: nat,
) -> (last: RewriteState)
    requires
        page(template, variables, errors, templates, post_list, fuel).1 is None,
    ensures
        last.scan == 0,
        last.buffer == page(template, variables, errors, templates, post_list, fuel).0.buffer,
        rewrite(last, templates, post_list, 0) == page(
            template,
            variables,
            errors,
            templates,
            post_list,
            fuel,
        ),
{
    let first = initial(template, variables, errors, post_list);
    lemma_last_pass(first, first, templates, post_list, fuel)
}

/// The page as it is handed out: minified for production, else as it is.
/// A page that is no text cannot be minified.
pub open spec fn finished(buffer: Seq<u8>, production: bool) -> Result<Seq<u8>, ErrorView> {
    if !production {
        Ok(buffer)
    } else if valid_utf8(buffer) {
        Ok(minified(decode_utf8(buffer)))
    } else {
        Err(failure(ErrorKind::InvalidText, 0))
    }
}

/// The page that a template is rewritten to, and the error that failed it,
/// if one did: the variables are substituted once over all of the template,
/// and where that does not fail, the pass runs from its start.
pub open spec fn page(
    template: Seq<u8>,
    variables: Map<Seq<u8>, Seq<u8>>,
    errors: Seq<ErrorView>,
    templates: Map<Seq<u8>, Seq<u8>>,
    post_list: Seq<u8>,
    fuel: nat,
) -> (RewriteState, Option<ErrorView>) {
    let first = initial(template, variables, errors, post_list);
    match pass_error(variables, template, post_list) {
        Some(error) => (first, Some(error)),
        None => rewrite(first, templates, post_list, fuel),
    }
}

/// The state in which the pass over a template begins: the variables have
/// been substituted once over all of it.
pub open spec fn initial(
    template: Seq<u8>,
    variables: Map<Seq<u8>, Seq<u8>>,
    errors: Seq<ErrorView>,
    post_list: Seq<u8>,
) -> RewriteState {
    restarted(
        RewriteState {
            buffer: template,
            scan: 0,
            last_start: None,
            last_edited: 0,
            variables,
            errors,
        },
        template,
        post_list,
    )
}

/// Builds the markup that opens a heading with an anchor.
fn heading_opening(name: &[u8], id: &[u8]) -> (r: Vec<u8>)
    ensures
        r@ == heading_open(name@, id@),
{
    let mut out = to_vec("<".as_bytes());
    append(&mut out, name);
    append(&mut out, " class=\"header-text\" id=\"".as_bytes());
    append(&mut out, id);
    append(&mut out, "\"><a href=\"#".as_bytes());
    append(&mut out, id);
    append(&mut out, "\"><span>#</span> ".as_bytes());
    out
}

/// Whether `name` is the name of a heading below the title.
fn heading_name(name: &[u8]) -> (r: bool)
    ensures
        r == is_heading_name(name@),
{
    name.len() >= 2 && name[0] == 0x68 && 0x30 <= name[1] && name[1] <= 0x39 && name[1] != 0x31
}

/// Gives the heading that closes at `position` its anchor, where it is due
/// one. Says whether the buffer was rewritten.
pub fn upgrade_header(rewriter: &mut Rewriter, event: &MarkupEvent, position: usize) -> (r: bool)
    requires
        old(rewriter).scan <= old(rewriter).buffer.len(),
    ensures
        final(rewriter).scan == old(rewriter).scan,
        ({
            let before = *old(rewriter);
            let after = *final(rewriter);
            let due = is_heading_name(event.name@) && before.last_start_position is Some
                && position >= before.last_edited_position + 1;
            let last_start = before.last_start_position->0 as int;
            let fits = heading_fits(before.buffer@, event.len as int, position as int, last_start);
            &&& r == (due && fits)
            &&& r ==> after.buffer@ == upgraded(
                before.buffer@,
                event.name@,
                event.len as int,
                position as int,
                last_start,
            ) && after.last_edited_position == anchor_end(
                before.buffer@,
                event.name@,
                position as int,
                last_start,
            ) + 9
            &&& !r ==> after.buffer == before.buffer && after.last_edited_position
                == before.last_edited_position
            &&& due ==> after.last_start_position is None
            &&& !due ==> after.last_start_position == before.last_start_position
        }),
{
    if !heading_name(event.name.as_slice()) || position <= rewriter.last_edited_position {
        return false;
    }
    let last_start = match rewriter.last_start_position {
        None => {
            return false;
        },
        Some(last_start) => last_start,
    };
    rewriter.last_start_position = None;
    let len = event.len;
    let size = rewriter.buffer.len();
    if last_start < 4 || len > last_start - 2 || position > size || position < 5 || last_start
        > position - 5 || len > size || position - 2 > size - len {
        return false;
    }
    if rewriter.buffer[last_start - 4] != 0x3c || rewriter.buffer[last_start - 3] != 0x68 {
        return false;
    }
    let id = get_id_from_name(
        vstd::slice::slice_subrange(rewriter.buffer.as_slice(), last_start, position - 5),
    );
    let opening = heading_opening(event.name.as_slice(), id.as_slice());
    replace_range(&mut rewriter.buffer, last_start - len - 2, last_start, opening.as_slice());
    assert(rewriter.buffer.len() == size - (len + 2) + opening.len());
    let at = position - 9 + opening.len();
    replace_range(&mut rewriter.buffer, at, at, "</a>".as_bytes());
    assert(rewriter.buffer.len() == size - (len + 2) + opening.len() + 4) by {
        reveal_strlit("</a>");
        vstd::string::is_ascii_spec_bytes("</a>");
    }
    rewriter.last_edited_position = at + 9;
    true
}

/// Finds the end of the text that starts at `scan`.
fn end_of_text(buffer: &[u8], scan: usize) -> (r: usize)
    requires
        scan < buffer.len(),
    ensures
        r == text_end(buffer@, scan as int),
        scan < r <= buffer.len(),
{
    let rest = vstd::slice::slice_subrange(buffer, scan + 1, buffer.len());
    assert(rest@ =~= buffer@.skip(scan + 1));
    scan + 1 + find_byte(rest, 0x3c)
}

/// Runs the substitution pass over all of the buffer and starts the scan
/// again. The error that stops the pass is recorded and handed back.
fn restart(
    rewriter: &mut Rewriter,
    context: &Context,
    variables: &mut ContentVariables,
    result: &mut ContentResult,
) -> (r: Option<ContentError>)
    requires
        context.md_post_list@ is Some,
    ensures
        final(rewriter).state(final(variables)@, final(result)@.errors) == restarted(
            old(rewriter).state(old(variables)@, old(result)@.errors),
            old(rewriter).buffer@,
            context.md_post_list@->0,
        ),
        final(result)@.warnings == old(result)@.warnings,
        final(rewriter).scan <= final(rewriter).buffer.len(),
        match pass_error(old(variables)@, old(rewriter).buffer@, context.md_post_list@->0) {
            Some(error) => r matches Some(e) && e@ == error,
            None => r is None,
        },
{
    let len = rewriter.buffer.len();
    let error = variables.substitute_in(&mut rewriter.buffer, 0..len, context);
    rewriter.scan = 0;
    match &error {
        Some(found) => {
            result.push_error(ContentError::new(found.kind, found.position, found.detail.as_slice()));
        },
        None => {},
    }
    error
}

/// Lets one token act on the pass.
pub fn step_token(
    rewriter: &mut Rewriter,
    event: &MarkupEvent,
    context: &Context,
    variables: &mut ContentVariables,
    result: &mut ContentResult,
) -> (outcome: StepOutcome)
    requires
        old(rewriter).scan <= old(rewriter).buffer.len(),
        context.md_post_list@ is Some,
    ensures
        ({
            let taken = step(
                old(rewriter).state(old(variables)@, old(result)@.errors),
                event@,
                context.templates@,
                context.md_post_list@->0,
            );
            &&& final(rewriter).state(final(variables)@, final(result)@.errors) == taken.0
            &&& outcome@ == taken.1
        }),
        final(result)@.warnings == old(result)@.warnings,
        final(rewriter).scan <= final(rewriter).buffer.len(),
{
    let scan = rewriter.scan;
    let mark: [u8; 3] = [0xef, 0xbb, 0xbf];
    assert(mark@ =~= byte_order_mark());
    if scan > 0 && starts_with_at(rewriter.buffer.as_slice(), mark.as_slice(), scan) {
        rewriter.scan = end_of_text(rewriter.buffer.as_slice(), scan);
        return StepOutcome::Continue;
    }
    match event.kind {
        MarkupKind::Eof => {
            return StepOutcome::Finished;
        },
        _ => {},
    }
    let broken = match event.kind {
        MarkupKind::Error => true,
        _ => false,
    };
    let size = rewriter.buffer.len();
    if broken || event.consumed > size - scan || scan >= size {
        return StepOutcome::Failed(ContentError::at(ErrorKind::Markup, scan));
    }
    let position = scan + event.consumed;
    match event.kind {
        MarkupKind::Text => {
            rewriter.scan = end_of_text(rewriter.buffer.as_slice(), scan);
            return StepOutcome::Continue;
        },
        _ => {},
    }
    if event.consumed == 0 {
        return StepOutcome::Failed(ContentError::at(ErrorKind::Markup, scan));
    }
    match event.kind {
        MarkupKind::Other => {
            rewriter.scan = position;
            return StepOutcome::Continue;
        },
        _ => {},
    }
    if as_text(event.name.as_slice()).is_none() {
        return StepOutcome::Failed(ContentError::at(ErrorKind::InvalidEncoding, position));
    }
    match event.kind {
        MarkupKind::Start => {
            match context.templates.get(event.name.as_slice()) {
                Some(template) => {
                    if event.len > event.consumed || event.consumed - event.len < 2 {
                        return StepOutcome::Failed(ContentError::at(ErrorKind::Markup, scan));
                    }
                    replace_range(
                        &mut rewriter.buffer,
                        position - event.len - 2,
                        position,
                        template.data.as_slice(),
                    );
                    match restart(rewriter, context, variables, result) {
                        Some(error) => StepOutcome::Failed(error),
                        None => StepOutcome::Rewritten,
                    }
                },
                None => {
                    rewriter.scan = position;
                    rewriter.last_start_position = Some(position);
                    StepOutcome::Continue
                },
            }
        },
        _ => {
            if upgrade_header(rewriter, event, position) {
                match restart(rewriter, context, variables, result) {
                    Some(error) => StepOutcome::Failed(error),
                    None => StepOutcome::Rewritten,
                }
            } else {
                rewriter.scan = position;
                StepOutcome::Continue
            }
        },
    }
}

/// Hands the page out: minified for production, else as it is.
pub fn finish(buffer: Vec<u8>, production: bool) -> (r: Result<Vec<u8>, ContentError>)
    ensures
        r matches Ok(page) ==> finished(buffer@, production) == Ok::<Seq<u8>, ErrorView>(page@),
        r matches Err(error) ==> finished(buffer@, production) == Err::<Seq<u8>, ErrorView>(
            error@,
        ),
{
    if !production {
        return Ok(buffer);
    }
    match as_text(buffer.as_slice()) {
        Some(text) => {
            proof {
                vstd::utf8::encode_utf8_decode_utf8(text@);
            }
            Ok(minify_html(text))
        },
        None => Err(ContentError::at(ErrorKind::InvalidText, 0)),
    }
}

/// Rewrites a template into a page: fragments are put in, variables filled
/// in, headings given anchors, until the end of the input is reached. The
/// buffer may be rewritten `limit` times. A marker that is not closed, or
/// whose key is not bound, fails the page; the error is recorded as well.
pub fn create_html_file(
    context: &Context,
    template: Vec<u8>,
    variables: &mut ContentVariables,
    result: &mut ContentResult,
    production: bool,
    limit: usize,
) -> (r: Result<Vec<u8>, ContentError>)
    requires
        context.md_post_list@ is Some,
    ensures
        ({
            let run = page(
                template@,
                old(variables)@,
                old(result)@.errors,
                context.templates@,
                context.md_post_list@->0,
                limit as nat,
            );
            &&& final(variables)@ == run.0.variables
            &&& final(result)@.errors == run.0.errors
            &&& run.1 matches Some(error) ==> r matches Err(e) && e@ == error
            &&& run.1 is None ==> (r matches Ok(page) ==> finished(run.0.buffer, production)
                == Ok::<Seq<u8>, ErrorView>(page@)) && (r matches Err(e) ==> finished(
                run.0.buffer,
                production,
            ) == Err::<Seq<u8>, ErrorView>(e@))
        }),
        final(result)@.warnings == old(result)@.warnings,
{
    let mut rewriter = Rewriter {
        buffer: template,
        scan: 0,
        last_start_position: None,
        last_edited_position: 0,
    };
    match restart(&mut rewriter, context, variables, result) {
        Some(error) => {
            return Err(error);
        },
        None => {},
    }
    let mut fuel = limit;
    let ghost templates = context.templates@;
    let ghost post_list = context.md_post_list@->0;
    let ghost goal = page(
        template@,
        old(variables)@,
        old(result)@.errors,
        templates,
        post_list,
        limit as nat,
    );
    loop
        invariant
            context.md_post_list@ is Some,
            templates == context.templates@,
            post_list == context.md_post_list@->0,
            rewriter.scan <= rewriter.buffer.len(),
            result@.warnings == old(result)@.warnings,
            goal == page(
                template@,
                old(variables)@,
                old(result)@.errors,
                templates,
                post_list,
                limit as nat,
            ),
            rewrite(
                rewriter.state(variables@, result@.errors),
                templates,
                post_list,
                fuel as nat,
            ) == goal,
        ensures
            goal.1 is None,
            goal.0.buffer == rewriter.buffer@,
            goal.0.variables == variables@,
            goal.0.errors == result@.errors,
            result@.warnings == old(result)@.warnings,
        decreases fuel, rewriter.buffer.len() - rewriter.scan,
    {
        let event = read_token(rewriter.buffer.as_slice(), rewriter.scan);
        let ghost before = rewriter.state(variables@, result@.errors);
        let ghost taken = step(before, event@, templates, post_list);
        proof {
            lemma_step_advances(before, event@, templates, post_list);
            assert(rewrite(before, templates, post_list, fuel as nat) == goal);
        }
        match step_token(&mut rewriter, &event, context, variables, result) {
            StepOutcome::Finished => {
                assert(goal == (taken.0, None::<ErrorView>));
                break ;
            },
            StepOutcome::Failed(error) => {
                assert(goal == (taken.0, Some(error@)));
                return Err(error);
            },
            StepOutcome::Continue => {},
            StepOutcome::Rewritten => {
                if fuel == 0 {
                    assert(goal == (taken.0, Some(failure(ErrorKind::RewriteLimit, 0))));
                    return Err(ContentError::at(ErrorKind::RewriteLimit, 0));
                }
                fuel -= 1;
            },
        }
    }
    finish(rewriter.buffer, production)
}

} // verus!
