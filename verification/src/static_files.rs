//! The static files of a project: where each is copied to, and which are
//! minified on the way.

use crate::context::Context;
use crate::path::{extension, extension_of, join, join_path, strip_path_prefix, strip_prefix};
use crate::text::bytes_eq;
use vstd::prelude::*;
use vstd::string::StringSliceAdditionalSpecFns;

verus! {

/// Where the static file at `path` is copied to: below the output
/// directory where it lies below the project.
pub open spec fn output_of(output: Seq<u8>, project: Seq<u8>, path: Seq<u8>) -> Seq<u8> {
    join(output, strip_prefix(path, project)->0)
}

/// Where a static file is copied to; none where it lies outside the project.
pub fn static_output_path(context: &Context, path: &[u8]) -> (r: Option<Vec<u8>>)
    ensures
        strip_prefix(path@, context.args.project@) is Some ==> (r matches Some(to) && to@
            == output_of(context.args.output@, context.args.project@, path@)),
        strip_prefix(path@, context.args.project@) is None ==> r is None,
{
    match strip_path_prefix(path, context.args.project.as_slice()) {
        Some(rest) => Some(join_path(context.args.output.as_slice(), rest)),
        None => None,
    }
}

/// Whether the file at `path` is minified for production: a style sheet or
/// a script.
pub open spec fn is_minified(path: Seq<u8>) -> bool {
    extension(path) == Some("css".spec_bytes()) || extension(path) == Some("js".spec_bytes())
}

/// Whether a static file is minified for production.
pub fn needs_minifying(path: &[u8]) -> (r: bool)
    ensures
        r == is_minified(path@),
{
    match extension_of(path) {
        Some(found) => bytes_eq(found, "css".as_bytes()) || bytes_eq(found, "js".as_bytes()),
        None => false,
    }
}

} // verus!
