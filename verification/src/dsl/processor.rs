use vstd::prelude::*;

use crate::assoc::key_views;
use crate::ast::{ASTNode, Program};
use crate::dsl::extension::DSLExtension;
use crate::dsl::registry::DSLRegistry;
use crate::error::{EidosError, SourceLocation};
use crate::util::{append_str, string_of};

verus! {

/// The message for a DSL that has no extension.
pub open spec fn missing_dsl_message(name: Seq<char>) -> Seq<char> {
    "DSL拡張 '"@ + name + "' が見つかりません"@
}

/// The node an extension produced, placed at `location`; an error passes through.
pub fn relocate(result: Result<ASTNode, EidosError>, location: SourceLocation) -> (r: Result<ASTNode, EidosError>)
    ensures
        match result {
            Ok(n) => r matches Ok(m) && m.id == n.id && m.kind == n.kind && m.type_info == n.type_info && m.location == location,
            Err(e) => r == Err::<ASTNode, EidosError>(e),
        },
{
    match result {
        Ok(n) => Ok(ASTNode { id: n.id, kind: n.kind, location, type_info: n.type_info }),
        Err(e) => Err(e),
    }
}

/// Processes DSL blocks with the extensions of its registry.
pub struct DSLProcessor<E> {
    registry: DSLRegistry<E>,
}

impl<E: DSLExtension> DSLProcessor<E> {
    /// The registered extensions by name.
    pub closed spec fn extensions(&self) -> Map<Seq<char>, E> {
        self.registry.extensions()
    }

    /// A processor without extensions.
    pub fn new() -> (p: Self)
        ensures
            p.extensions() == Map::<Seq<char>, E>::empty(),
    {
        Self { registry: DSLRegistry::new() }
    }

    /// Processes a DSL block with the extension registered under `name`: the
    /// node it produces, placed at `location`, or its error; a DSL without
    /// extension is refused.
    pub fn process_dsl_block(&self, name: &str, content: &str, program: &Program, location: SourceLocation) -> (r: Result<ASTNode, EidosError>)
        ensures
            !self.extensions().contains_key(name@) ==> (r matches Err(EidosError::DSLError(m)) && m@ == missing_dsl_message(name@)),
            self.extensions().contains_key(name@) ==> (r matches Ok(n) ==> n.location == location),
    {
        match self.registry.get(name) {
            Some(extension) => {
                let produced = extension.process_block(content, program);
                relocate(produced, location)
            },
            None => {
                let mut m = string_of("DSL拡張 '");
                append_str(&mut m, name);
                append_str(&mut m, "' が見つかりません");
                Err(EidosError::DSLError(m))
            },
        }
    }

    /// Whether an extension is registered under `name`.
    pub fn is_dsl_available(&self, name: &str) -> (r: bool)
        ensures
            r == self.extensions().contains_key(name@),
    {
        self.registry.has_extension(name)
    }

    /// The names of all registered DSLs, each once.
    pub fn list_available_dsls(&self) -> (r: Vec<String>)
        ensures
            key_views(r@).to_set() == self.extensions().dom(),
            key_views(r@).no_duplicates(),
    {
        self.registry.list_extensions()
    }

    /// Registers `extension` under `name`, replacing one of that name.
    pub fn register_dsl(&mut self, name: String, extension: E)
        ensures
            final(self).extensions() == old(self).extensions().insert(name@, extension),
    {
        self.registry.register(name, extension);
    }
}

} // verus!
