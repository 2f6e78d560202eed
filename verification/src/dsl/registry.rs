use vstd::prelude::*;

use crate::assoc::{key_views, AssocMap};
use crate::util::string_of;

verus! {

/// The DSL extensions known by name.
pub struct DSLRegistry<E> {
    extensions: AssocMap<String, E>,
}

impl<E> DSLRegistry<E> {
    /// The extensions by name.
    pub closed spec fn extensions(&self) -> Map<Seq<char>, E> {
        self.extensions@
    }

    /// An empty registry.
    pub fn new() -> (r: Self)
        ensures
            r.extensions() == Map::<Seq<char>, E>::empty(),
    {
        Self { extensions: AssocMap::new() }
    }

    /// Registers `extension` under `name`, replacing one of that name.
    pub fn register(&mut self, name: String, extension: E)
        ensures
            final(self).extensions() == old(self).extensions().insert(name@, extension),
    {
        self.extensions.insert(name, extension);
    }

    /// The extension registered under `name`.
    pub fn get(&self, name: &str) -> (r: Option<&E>)
        ensures
            r matches Some(e) ==> self.extensions().contains_key(name@) && *e == self.extensions()[name@],
            r is None ==> !self.extensions().contains_key(name@),
    {
        self.extensions.get(&string_of(name))
    }

    /// The names of all extensions, each once, in the order they were first registered.
    pub fn list_extensions(&self) -> (r: Vec<String>)
        ensures
            key_views(r@).to_set() == self.extensions().dom(),
            key_views(r@).no_duplicates(),
    {
        self.extensions.keys()
    }

    /// Whether an extension is registered under `name`.
    pub fn has_extension(&self, name: &str) -> (r: bool)
        ensures
            r == self.extensions().contains_key(name@),
    {
        self.extensions.contains_key(&string_of(name))
    }

    /// Removes the extension registered under `name`; tells whether there was one.
    pub fn unregister(&mut self, name: &str) -> (r: bool)
        ensures
            r == old(self).extensions().contains_key(name@),
            final(self).extensions() == old(self).extensions().remove(name@),
    {
        self.extensions.remove(&string_of(name))
    }
}

} // verus!
