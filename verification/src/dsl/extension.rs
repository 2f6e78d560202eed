use vstd::prelude::*;

use crate::ast::{ASTNode, Program};
use crate::error::EidosError;
use crate::types::Type;

verus! {

/// A DSL extension, implemented by the users of the library: it turns the
/// text of a DSL block into an AST node, and tells the types and built-in
/// names the DSL brings.
pub trait DSLExtension {
    /// The name of the DSL.
    fn name(&self) -> &str;

    /// A description of the DSL.
    fn description(&self) -> &str;

    /// The AST node for the content of a DSL block.
    fn process_block(&self, content: &str, program: &Program) -> Result<ASTNode, EidosError>;

    /// The types the DSL defines, with their names.
    fn register_types(&self) -> Vec<(String, Type)>;

    /// The built-in names the DSL defines.
    fn register_builtins(&self) -> Vec<String>;

    /// The custom directives the DSL supports; none unless the DSL says otherwise.
    fn supported_directives(&self) -> Vec<String> {
        Vec::new()
    }
}

} // verus!
