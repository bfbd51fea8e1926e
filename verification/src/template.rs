//! A template fragment: a name and the markup that stands for it.

use crate::path::{file_stem, file_stem_of};
use crate::text::to_vec;
use vstd::prelude::*;

verus! {

/// A named fragment of markup. Wherever an element of that name opens in a
/// page, the fragment takes the place of the opening tag.
#[derive(Debug)]
pub struct Template {
    pub name: Vec<u8>,
    pub data: Vec<u8>,
}

impl Template {
    /// The fragment held by a file: its name is the file's name without the
    /// extension, its data the file's contents.
    pub fn load(file_name: &[u8], contents: Vec<u8>) -> (r: Template)
        ensures
            r.name@ == file_stem(file_name@),
            r.data@ == contents@,
    {
        Template { name: to_vec(file_stem_of(file_name)), data: contents }
    }
}

} // verus!
