//! A JavaScript module as the usage analysis sees it.

use crate::identifier::ModuleIdentifier;
use vstd::prelude::*;

verus! {

/// What the analysis reads of a parsed JavaScript module: the marks that
/// tell top-level bindings from unresolved references.
#[derive(Debug)]
pub struct Ast {
    pub top_level_mark: u32,
    pub unresolved_mark: u32,
}

/// The pair of marks that an analysis of one module works with.
#[derive(Clone, Copy, Debug, PartialEq, Eq, Structural)]
pub struct MarkInfo {
    pub top_level_mark: u32,
    pub unresolved_mark: u32,
}

impl MarkInfo {
    /// The pair of the two marks.
    pub fn new(top_level_mark: u32, unresolved_mark: u32) -> (info: Self)
        ensures
            info == (MarkInfo { top_level_mark, unresolved_mark }),
    {
        MarkInfo { top_level_mark, unresolved_mark }
    }
}

/// A parsed JavaScript module together with its identifier.
pub struct JsModule<'a> {
    ast: &'a Ast,
    module_identifier: ModuleIdentifier,
}

impl<'a> JsModule<'a> {
    /// The module that was parsed into.
    pub closed spec fn ast_view(&self) -> Ast {
        *self.ast
    }

    /// The identifier of the module.
    pub closed spec fn identifier_view(&self) -> ModuleIdentifier {
        self.module_identifier
    }

    /// The module `module_identifier` with the syntax tree `ast`.
    pub fn new(ast: &'a Ast, module_identifier: ModuleIdentifier) -> (module: Self)
        ensures
            module.ast_view() == *ast,
            module.identifier_view() == module_identifier,
    {
        Self { ast, module_identifier }
    }

    /// The identifier of the module.
    pub fn module_identifier(&self) -> (module_identifier: ModuleIdentifier)
        ensures
            module_identifier == self.identifier_view(),
    {
        self.module_identifier
    }

    /// The marks with which an analysis of this module starts.
    pub fn mark_info(&self) -> (info: MarkInfo)
        ensures
            info.top_level_mark == self.ast_view().top_level_mark,
            info.unresolved_mark == self.ast_view().unresolved_mark,
    {
        MarkInfo::new(self.ast.top_level_mark, self.ast.unresolved_mark)
    }
}

} // verus!
