//! The variables of one content file, and their substitution into a buffer.

use crate::content::{ContentError, ContentResult, ErrorKind, ErrorView};
use crate::context::Context;
use crate::text::{bytes_eq, find, find_byte, find_in, index_of, lemma_find_bounds,
    matches_at, replace_range, splice, to_vec};
use std::ops::Range;
use vstd::prelude::*;
use vstd::string::StringSliceAdditionalSpecFns;

verus! {

/// The marker `{{` that opens a variable.
pub open spec fn open_marker() -> Seq<u8> {
    seq![0x7bu8, 0x7bu8]
}

/// The marker `}}` that closes a variable.
pub open spec fn close_marker() -> Seq<u8> {
    seq![0x7du8, 0x7du8]
}

/// The key that stands for the list of posts.
pub open spec fn post_list_key() -> Seq<u8> {
    "md_post_list".spec_bytes()
}

/// The map that a sequence of bindings stands for: of two bindings of one
/// key the later one counts.
pub open spec fn bindings(entries: Seq<(Vec<u8>, Vec<u8>)>) -> Map<Seq<u8>, Seq<u8>>
    decreases entries.len(),
{
    if entries.len() == 0 {
        Map::empty()
    } else {
        bindings(entries.drop_last()).insert(entries.last().0@, entries.last().1@)
    }
}

/// The variables of a content file: a map from key to value.
#[derive(Debug)]
pub struct ContentVariables {
    variables: Vec<(Vec<u8>, Vec<u8>)>,
}

impl View for ContentVariables {
    type V = Map<Seq<u8>, Seq<u8>>;

    closed spec fn view(&self) -> Map<Seq<u8>, Seq<u8>> {
        bindings(self.variables@)
    }
}

/// What a substitution pass leaves behind: the buffer, the variables, and the
/// error that stopped it, if one did.
pub struct Substitution {
    pub data: Seq<u8>,
    pub variables: Map<Seq<u8>, Seq<u8>>,
    pub error: Option<ErrorView>,
}

/// The end of the assignment that opens before `inner` and whose first `}}`
/// ends at `close`: for every `{{` inside the value one more `}}` belongs to
/// it. None where `data` runs out of `}}` before `end`.
pub open spec fn assignment_end(data: Seq<u8>, inner: int, close: int, end: int) -> Option<int>
    decreases end - close,
    via assignment_end_decreases
{
    match find(data, open_marker(), inner, close - 2) {
        None => Some(close),
        Some(nested) => match find(data, close_marker(), close, end) {
            None => None,
            Some(next) => assignment_end(data, nested + 2, next + 2, end),
        },
    }
}

#[via_fn]
proof fn assignment_end_decreases(data: Seq<u8>, inner: int, close: int, end: int) {
    lemma_find_bounds(data, close_marker(), close, end);
}

/// An assignment ends at or behind its first `}}` and within the range.
pub proof fn lemma_assignment_end(data: Seq<u8>, inner: int, close: int, end: int)
    requires
        close <= end,
    ensures
        assignment_end(data, inner, close, end) matches Some(last) ==> close <= last <= end,
    decreases end - close,
{
    lemma_find_bounds(data, close_marker(), close, end);
    match find(data, open_marker(), inner, close - 2) {
        None => {},
        Some(nested) => match find(data, close_marker(), close, end) {
            None => {},
            Some(next) => {
                lemma_assignment_end(data, nested + 2, next + 2, end);
            },
        },
    }
}

/// The error for a `{{` at `position` that is never closed.
pub open spec fn unterminated(position: int) -> ErrorView {
    ErrorView { kind: ErrorKind::UnterminatedVariable, position, detail: Seq::empty() }
}

/// The error for a `{{key}}` at `position` whose key is not bound.
pub open spec fn unknown(key: Seq<u8>, position: int) -> ErrorView {
    ErrorView { kind: ErrorKind::UnknownVariable, position, detail: key }
}

/// Substitution over the range `[start, end)` of `data`.
///
/// The first `{{` of the range and the first `}}` behind it enclose a key. A
/// key with a `:` is an assignment `{{key:value}}`: it binds the key to the
/// value and leaves the buffer. Any other key is replaced by what it stands
/// for: the list of posts for the reserved key, else its value in
/// `variables`. The pass goes on behind what it put in, so that a value is
/// not read again, and stops at the first `{{` that is not closed or whose
/// key is not bound.
pub open spec fn substitute(
    data: Seq<u8>,
    start: int,
    end: int,
    variables: Map<Seq<u8>, Seq<u8>>,
    post_list: Seq<u8>,
) -> Substitution
    decreases end - start,
    via substitute_decreases
{
    match find(data, open_marker(), start, end) {
        None => Substitution { data, variables, error: None },
        Some(open) => match find(data, close_marker(), open, end) {
            None => Substitution { data, variables, error: Some(unterminated(open)) },
            Some(first) => {
                let key = data.subrange(open + 2, first);
                let colon = open + 2 + index_of(key, 0x3a);
                if colon < first {
                    match assignment_end(data, colon + 1, first + 2, end) {
                        None => Substitution { data, variables, error: Some(unterminated(open)) },
                        Some(close) => substitute(
                            splice(data, open, close, Seq::empty()),
                            open,
                            end - (close - open),
                            variables.insert(
                                data.subrange(open + 2, colon),
                                data.subrange(colon + 1, close - 2),
                            ),
                            post_list,
                        ),
                    }
                } else if key == post_list_key() {
                    substitute(
                        splice(data, open, first + 2, post_list),
                        open + post_list.len(),
                        end + post_list.len() - (first + 2 - open),
                        variables,
                        post_list,
                    )
                } else if variables.contains_key(key) {
                    substitute(
                        splice(data, open, first + 2, variables[key]),
                        open + variables[key].len(),
                        end + variables[key].len() - (first + 2 - open),
                        variables,
                        post_list,
                    )
                } else {
                    Substitution { data, variables, error: Some(unknown(key, open)) }
                }
            },
        },
    }
}

#[via_fn]
proof fn substitute_decreases(
    data: Seq<u8>,
    start: int,
    end: int,
    variables: Map<Seq<u8>, Seq<u8>>,
    post_list: Seq<u8>,
) {
    lemma_find_bounds(data, open_marker(), start, end);
    match find(data, open_marker(), start, end) {
        None => {},
        Some(open) => {
            lemma_find_bounds(data, close_marker(), open, end);
            match find(data, close_marker(), open, end) {
                None => {},
                Some(first) => {
                    let key = data.subrange(open + 2, first);
                    let colon = open + 2 + index_of(key, 0x3a);
                    lemma_assignment_end(data, colon + 1, first + 2, end);
                },
            }
        },
    }
}

/// A pass over a buffer that holds no `{{` changes nothing: the buffer and the
/// variables are what they were, and there is no error.
pub proof fn lemma_substitute_without_markers(
    data: Seq<u8>,
    start: int,
    end: int,
    variables: Map<Seq<u8>, Seq<u8>>,
    post_list: Seq<u8>,
)
    requires
        forall|i: int| !matches_at(data, open_marker(), i),
    ensures
        substitute(data, start, end, variables, post_list) == (Substitution {
            data,
            variables,
            error: None,
        }),
{
    lemma_find_bounds(data, open_marker(), start, end);
}

/// Finds the end of an assignment whose first `}}` ends at `close`.
fn find_assignment_end(data: &[u8], inner0: usize, close0: usize, end: usize) -> (r: Option<
    usize,
>)
    requires
        2 <= close0 <= end <= data.len(),
    ensures
        r matches Some(last) ==> assignment_end(data@, inner0 as int, close0 as int, end as int)
            == Some(last as int) && close0 <= last <= end,
        r is None ==> assignment_end(data@, inner0 as int, close0 as int, end as int) is None,
{
    let open: [u8; 2] = [0x7b, 0x7b];
    let shut: [u8; 2] = [0x7d, 0x7d];
    assert(open@ =~= open_marker());
    assert(shut@ =~= close_marker());
    let mut inner = inner0;
    let mut close = close0;
    loop
        invariant
            2 <= close <= end <= data.len(),
            open@ == open_marker(),
            shut@ == close_marker(),
            assignment_end(data@, inner as int, close as int, end as int) == assignment_end(
                data@,
                inner0 as int,
                close0 as int,
                end as int,
            ),
            close0 <= close,
        decreases end - close,
    {
        let nested = match find_in(data, open.as_slice(), inner, close - 2) {
            None => {
                return Some(close);
            },
            Some(nested) => nested,
        };
        let next = match find_in(data, shut.as_slice(), close, end) {
            None => {
                return None;
            },
            Some(next) => next,
        };
        proof {
            lemma_find_bounds(data@, open_marker(), inner as int, close - 2);
            lemma_find_bounds(data@, close_marker(), close as int, end as int);
        }
        inner = nested + 2;
        close = next + 2;
    }
}

impl ContentVariables {
    /// The store that binds nothing.
    pub fn new() -> (r: Self)
        ensures
            r@ == Map::<Seq<u8>, Seq<u8>>::empty(),
    {
        Self { variables: Vec::new() }
    }

    /// Binds `key` to `value`, in place of what it was bound to.
    pub fn insert(&mut self, key: Vec<u8>, value: Vec<u8>)
        ensures
            final(self)@ == old(self)@.insert(key@, value@),
    {
        self.variables.push((key, value));
        assert(self.variables@.drop_last() =~= old(self).variables@);
    }

    /// What `key` is bound to, if it is bound.
    pub fn get(&self, key: &[u8]) -> (r: Option<&Vec<u8>>)
        ensures
            r matches Some(value) ==> self@.contains_key(key@) && value@ == self@[key@],
            r is None ==> !self@.contains_key(key@),
    {
        let mut i: usize = self.variables.len();
        assert(self.variables@.take(i as int) =~= self.variables@);
        while i > 0
            invariant
                i <= self.variables.len(),
                self@.contains_key(key@) == bindings(self.variables@.take(i as int)).contains_key(
                    key@,
                ),
                self@.contains_key(key@) ==> self@[key@] == bindings(
                    self.variables@.take(i as int),
                )[key@],
            decreases i,
        {
            let entry = &self.variables[i - 1];
            assert(self.variables@.take(i as int).drop_last() =~= self.variables@.take(i - 1));
            if bytes_eq(entry.0.as_slice(), key) {
                return Some(&entry.1);
            }
            i -= 1;
        }
        None
    }

    /// A copy of the variables.
    pub fn copy(&self) -> (r: Self)
        ensures
            r@ == self@,
    {
        let mut variables: Vec<(Vec<u8>, Vec<u8>)> = Vec::new();
        let mut i: usize = 0;
        while i < self.variables.len()
            invariant
                i <= self.variables.len(),
                bindings(variables@) == bindings(self.variables@.take(i as int)),
            decreases self.variables.len() - i,
        {
            let entry = &self.variables[i];
            let ghost before = variables@;
            variables.push((to_vec(entry.0.as_slice()), to_vec(entry.1.as_slice())));
            assert(variables@.drop_last() =~= before);
            assert(self.variables@.take(i + 1).drop_last() =~= self.variables@.take(i as int));
            i += 1;
        }
        assert(self.variables@.take(i as int) =~= self.variables@);
        Self { variables }
    }

    /// Runs the substitution pass over the range of `data`, binds what the
    /// pass assigns, and hands back the error that stopped it, if one did.
    pub fn substitute_in(&mut self, data: &mut Vec<u8>, range: Range<usize>, context: &Context) -> (r:
        Option<ContentError>)
        requires
            range.start <= range.end <= old(data).len(),
            context.md_post_list@ is Some,
        ensures
            ({
                let pass = substitute(
                    old(data)@,
                    range.start as int,
                    range.end as int,
                    old(self)@,
                    context.md_post_list@->0,
                );
                &&& final(data)@ == pass.data
                &&& final(self)@ == pass.variables
                &&& pass.error is None ==> r is None
                &&& pass.error matches Some(error) ==> (r matches Some(e) && e@ == error)
            }),
    {
        let open_bytes: [u8; 2] = [0x7b, 0x7b];
        let shut_bytes: [u8; 2] = [0x7d, 0x7d];
        assert(open_bytes@ =~= open_marker());
        assert(shut_bytes@ =~= close_marker());
        let post_list = context.md_post_list.get();
        let mut start = range.start;
        let mut end = range.end;
        loop
            invariant
                start <= end <= data.len(),
                open_bytes@ == open_marker(),
                shut_bytes@ == close_marker(),
                Some(post_list@) == context.md_post_list@,
                substitute(data@, start as int, end as int, self@, post_list@) == substitute(
                    old(data)@,
                    range.start as int,
                    range.end as int,
                    old(self)@,
                    post_list@,
                ),
            decreases end - start,
        {
            let open = match find_in(data.as_slice(), open_bytes.as_slice(), start, end) {
                None => {
                    return None;
                },
                Some(open) => open,
            };
            let first = match find_in(data.as_slice(), shut_bytes.as_slice(), open, end) {
                None => {
                    return Some(ContentError::at(ErrorKind::UnterminatedVariable, open));
                },
                Some(first) => first,
            };
            proof {
                lemma_find_bounds(data@, open_marker(), start as int, end as int);
                lemma_find_bounds(data@, close_marker(), open as int, end as int);
                let a = data@.subrange(open as int, open + 2);
                let b = data@.subrange(first as int, first + 2);
                assert(a[0] == 0x7b && a[1] == 0x7b);
                assert(b[0] == 0x7d && b[1] == 0x7d);
                assert(first >= open + 2);
            }
            let key = vstd::slice::slice_subrange(data.as_slice(), open + 2, first);
            let colon = open + 2 + find_byte(key, 0x3a);
            if colon < first {
                let close = match find_assignment_end(data.as_slice(), colon + 1, first + 2, end) {
                    None => {
                        return Some(ContentError::at(ErrorKind::UnterminatedVariable, open));
                    },
                    Some(close) => close,
                };
                let name = to_vec(vstd::slice::slice_subrange(data.as_slice(), open + 2, colon));
                let value = to_vec(
                    vstd::slice::slice_subrange(data.as_slice(), colon + 1, close - 2),
                );
                self.insert(name, value);
                let nothing: [u8; 0] = [];
                assert(nothing@ =~= Seq::<u8>::empty());
                replace_range(data, open, close, nothing.as_slice());
                end = end - (close - open);
                start = open;
            } else {
                let close = first + 2;
                let tail = data.len() - end;
                let ghost before = data@;
                if bytes_eq(key, "md_post_list".as_bytes()) {
                    replace_range(data, open, close, post_list);
                    assert(data.len() == open + post_list.len() + (before.len() - close));
                    start = open + post_list.len();
                } else {
                    match self.get(key) {
                        Some(value) => {
                            replace_range(data, open, close, value.as_slice());
                            assert(data.len() == open + value.len() + (before.len() - close));
                            start = open + value.len();
                        },
                        None => {
                            return Some(
                                ContentError::new(ErrorKind::UnknownVariable, open, key),
                            );
                        },
                    }
                }
                end = data.len() - tail;
            }
        }
    }

    /// Runs the substitution pass over the range of `data`, binds what the
    /// pass assigns, and records the error that stopped it, if one did.
    pub fn apply(
        &mut self,
        data: &mut Vec<u8>,
        range: Range<usize>,
        context: &Context,
        result: &mut ContentResult,
    )
        requires
            range.start <= range.end <= old(data).len(),
            context.md_post_list@ is Some,
        ensures
            ({
                let pass = substitute(
                    old(data)@,
                    range.start as int,
                    range.end as int,
                    old(self)@,
                    context.md_post_list@->0,
                );
                &&& final(data)@ == pass.data
                &&& final(self)@ == pass.variables
                &&& final(result)@.warnings == old(result)@.warnings
                &&& pass.error is None ==> final(result)@.errors == old(result)@.errors
                &&& pass.error matches Some(error) ==> final(result)@.errors == old(
                    result,
                )@.errors.push(error)
            }),
    {
        match self.substitute_in(data, range, context) {
            Some(error) => {
                result.push_error(error);
            },
            None => {},
        }
    }
}

} // verus!
