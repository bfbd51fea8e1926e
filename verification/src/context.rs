//! What every step of a run shares: the project's fragments, its
//! directories, and the list of posts once it is known.

use crate::path::{join, join_path, remove_extension, strip_path_prefix, strip_prefix,
    without_extension};
use crate::template_repository::TemplateRepository;
use vstd::prelude::*;
use vstd::string::StringSliceAdditionalSpecFns;

verus! {

/// The directories of a run.
#[derive(Debug)]
pub struct Args {
    /// The project directory.
    pub project: Vec<u8>,
    /// The directory the pages are written to.
    pub output: Vec<u8>,
}

impl Args {
    /// The directory of the project that holds the content files.
    pub open spec fn content_directory(&self) -> Seq<u8> {
        join(self.project@, "content".spec_bytes())
    }

    /// The path of the content directory.
    pub fn project_content(&self) -> (r: Vec<u8>)
        ensures
            r@ == self.content_directory(),
    {
        join_path(self.project.as_slice(), "content".as_bytes())
    }
}

/// A cell that is assigned once: it is empty until the list of posts has been
/// built from all content files, and holds that list from then on.
#[derive(Debug)]
pub struct PostListCell {
    value: Option<Vec<u8>>,
}

impl View for PostListCell {
    type V = Option<Seq<u8>>;

    closed spec fn view(&self) -> Option<Seq<u8>> {
        match self.value {
            Some(list) => Some(list@),
            None => None,
        }
    }
}

impl PostListCell {
    /// The empty cell.
    pub fn new() -> (r: PostListCell)
        ensures
            r@ is None,
    {
        PostListCell { value: None }
    }

    /// Whether the cell has been assigned.
    pub fn is_set(&self) -> (r: bool)
        ensures
            r == self@ is Some,
    {
        self.value.is_some()
    }

    /// Assigns the cell. A cell is assigned once.
    pub fn set(&mut self, list: Vec<u8>)
        requires
            old(self)@ is None,
        ensures
            final(self)@ == Some(list@),
    {
        self.value = Some(list);
    }

    /// What the cell holds. It can be read once it has been assigned.
    pub fn get(&self) -> (r: &[u8])
        requires
            self@ is Some,
        ensures
            Some(r@) == self@,
    {
        match &self.value {
            Some(list) => list.as_slice(),
            None => {
                let none: &[u8] = &[];
                none
            },
        }
    }
}

/// What every step of a run shares.
#[derive(Debug)]
pub struct Context {
    pub templates: TemplateRepository,
    pub args: Args,
    pub md_post_list: PostListCell,
}

impl Context {
    /// A context in which the list of posts is not yet known.
    pub fn new(templates: TemplateRepository, args: Args) -> (r: Context)
        ensures
            r.templates == templates,
            r.args == args,
            r.md_post_list@ is None,
    {
        Context { templates, args, md_post_list: PostListCell::new() }
    }

    /// The link of a content file: its path below the content directory,
    /// without the extension.
    pub open spec fn link(&self, path: Seq<u8>) -> Seq<u8> {
        without_extension(strip_prefix(path, self.args.content_directory())->0)
    }

    /// The link of the content file at `path`.
    pub fn get_file_link(&self, path: &[u8]) -> (r: Vec<u8>)
        requires
            strip_prefix(path@, self.args.content_directory()) is Some,
        ensures
            r@ == self.link(path@),
    {
        let directory = self.args.project_content();
        match strip_path_prefix(path, directory.as_slice()) {
            Some(rest) => remove_extension(rest),
            None => Vec::new(),
        }
    }
}

} // verus!
