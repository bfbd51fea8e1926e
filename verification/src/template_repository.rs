//! The fragments of a project, found by name.

use crate::template::Template;
use crate::text::bytes_eq;
use vstd::prelude::*;

verus! {

/// The map from name to data that a sequence of fragments stands for: of two
/// fragments with one name the later one counts.
pub open spec fn fragments(templates: Seq<Template>) -> Map<Seq<u8>, Seq<u8>>
    decreases templates.len(),
{
    if templates.len() == 0 {
        Map::empty()
    } else {
        fragments(templates.drop_last()).insert(templates.last().name@, templates.last().data@)
    }
}

/// The fragments of a project. Its value is the map from name to data.
#[derive(Debug)]
pub struct TemplateRepository {
    templates: Vec<Template>,
}

impl View for TemplateRepository {
    type V = Map<Seq<u8>, Seq<u8>>;

    closed spec fn view(&self) -> Map<Seq<u8>, Seq<u8>> {
        fragments(self.templates@)
    }
}

impl TemplateRepository {
    /// The repository of the fragments given, in the order in which they
    /// were read.
    pub fn load(templates: Vec<Template>) -> (r: Self)
        ensures
            r@ == fragments(templates@),
    {
        Self { templates }
    }

    /// The fragment of the given name, if there is one.
    pub fn get(&self, name: &[u8]) -> (r: Option<&Template>)
        ensures
            r matches Some(t) ==> self@.contains_key(name@) && t.name@ == name@ && t.data@
                == self@[name@],
            r is None ==> !self@.contains_key(name@),
    {
        let mut i: usize = self.templates.len();
        assert(self.templates@.take(i as int) =~= self.templates@);
        while i > 0
            invariant
                i <= self.templates.len(),
                self@.contains_key(name@) == fragments(self.templates@.take(i as int)).contains_key(
                    name@,
                ),
                self@.contains_key(name@) ==> self@[name@] == fragments(
                    self.templates@.take(i as int),
                )[name@],
            decreases i,
        {
            let t = &self.templates[i - 1];
            assert(self.templates@.take(i as int).drop_last() =~= self.templates@.take(i - 1));
            if bytes_eq(t.name.as_slice(), name) {
                return Some(t);
            }
            i -= 1;
        }
        None
    }
}

} // verus!
