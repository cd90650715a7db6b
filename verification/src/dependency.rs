//! Kinds of dependency edges and the capabilities shared by every edge
//! payload.

use crate::identifier::DependencyId;
use vstd::prelude::*;

verus! {

/// How a dependency was written in the requesting module.
#[derive(Clone, Copy, Debug, PartialEq, Eq, Hash, Structural)]
pub enum DependencyType {
    Unknown,
    Entry,
    EsmImport,
    EsmExport,
    DynamicImport,
    CjsRequire,
    CssImport,
    CssCompose,
}

/// The module system a dependency belongs to.
#[derive(Clone, Copy, Debug, PartialEq, Eq, Hash, Structural)]
pub enum DependencyCategory {
    Unknown,
    Esm,
    CommonJS,
    CssImport,
    CssCompose,
}

/// Source range that a diagnostic about a dependency points at.
#[derive(Clone, Copy, Debug, PartialEq, Eq, Hash, Structural)]
pub struct ErrorSpan {
    pub start: u32,
    pub end: u32,
}

/// What every dependency offers: the id under which the module graph
/// knows it, and its kind.
pub trait Dependency {
    /// The id that the dependency bears.
    spec fn id_view(&self) -> Option<DependencyId>;

    /// The category that the dependency belongs to.
    spec fn category_view(&self) -> DependencyCategory;

    /// The type of the dependency.
    spec fn dependency_type_view(&self) -> DependencyType;

    fn id(&self) -> (id: Option<DependencyId>)
        ensures
            id == self.id_view(),
    ;

    fn set_id(&mut self, id: Option<DependencyId>)
        ensures
            final(self).id_view() == id,
            final(self).category_view() == old(self).category_view(),
            final(self).dependency_type_view() == old(self).dependency_type_view(),
    ;

    fn category(&self) -> (category: &DependencyCategory)
        ensures
            *category == self.category_view(),
    ;

    fn dependency_type(&self) -> (dependency_type: &DependencyType)
        ensures
            *dependency_type == self.dependency_type_view(),
    ;
}

/// A dependency on another module: it names the module by a request.
pub trait ModuleDependency: Dependency {
    /// The request as it is resolved.
    spec fn request_view(&self) -> Seq<char>;

    /// The request as the user wrote it.
    spec fn user_request_view(&self) -> Seq<char>;

    /// The source range of the request.
    spec fn span_view(&self) -> Option<ErrorSpan>;

    fn request(&self) -> (request: &str)
        ensures
            request@ == self.request_view(),
    ;

    fn user_request(&self) -> (request: &str)
        ensures
            request@ == self.user_request_view(),
    ;

    fn span(&self) -> (span: Option<&ErrorSpan>)
        ensures
            span == match self.span_view() {
                Some(s) => Some(&s),
                None => None,
            },
    ;

    fn set_request(&mut self, request: String)
        ensures
            final(self).request_view() == request@,
            final(self).id_view() == old(self).id_view(),
            final(self).category_view() == old(self).category_view(),
            final(self).dependency_type_view() == old(self).dependency_type_view(),
            final(self).span_view() == old(self).span_view(),
    ;
}

/// A runtime facility that generated code may ask for.
#[derive(Clone, Copy, Debug, PartialEq, Eq, Hash, Structural)]
pub enum RuntimeGlobals {
    /// The global object.
    Global,
}

impl RuntimeGlobals {
    /// The expression by which generated code reaches the facility.
    pub open spec fn name_view(self) -> Seq<char> {
        match self {
            RuntimeGlobals::Global => "__webpack_require__.g"@,
        }
    }

    /// The expression by which generated code reaches the facility.
    pub fn name(&self) -> (name: &'static str)
        ensures
            name@ == self.name_view(),
    {
        match self {
            RuntimeGlobals::Global => "__webpack_require__.g",
        }
    }
}

/// The replacement of a source range by a constant expression.
#[derive(Debug)]
pub struct ReplaceConstDependency {
    pub start: u32,
    pub end: u32,
    pub content: String,
    pub runtime_requirements: Option<RuntimeGlobals>,
}

impl ReplaceConstDependency {
    /// A replacement of the range from `start` to `end` by `content`.
    pub fn new(start: u32, end: u32, content: String, runtime_requirements: Option<RuntimeGlobals>) -> (dependency:
        Self)
        ensures
            dependency.start == start,
            dependency.end == end,
            dependency.content == content,
            dependency.runtime_requirements == runtime_requirements,
    {
        ReplaceConstDependency { start, end, content, runtime_requirements }
    }
}

/// What code generation may read and add to.
#[derive(Debug)]
pub struct CodeGeneratableContext {
    /// The runtime facilities asked for so far.
    pub runtime_requirements: Vec<RuntimeGlobals>,
}

/// What generating the code of one dependency yields.
#[derive(Debug)]
pub struct CodeGeneratableResult {
    /// The source ranges to replace.
    pub replacements: Vec<ReplaceConstDependency>,
}

impl Default for CodeGeneratableResult {
    /// A result that replaces nothing.
    fn default() -> (result: Self)
        ensures
            result.replacements@.len() == 0,
    {
        CodeGeneratableResult { replacements: Vec::new() }
    }
}

/// Why code could not be generated.
#[derive(Debug)]
pub struct CodeGenerationError {
    pub message: String,
}

/// A dependency for which code can be generated.
pub trait CodeGeneratable {
    /// Whether generating code for this dependency never fails and replaces
    /// nothing.
    spec fn generates_nothing(&self) -> bool;

    fn generate(&self, code_generatable_context: &mut CodeGeneratableContext) -> (result: Result<
        CodeGeneratableResult,
        CodeGenerationError,
    >)
        ensures
            self.generates_nothing() ==> (result matches Ok(r) && r.replacements@.len() == 0)
                && final(code_generatable_context).runtime_requirements@ == old(
                code_generatable_context,
            ).runtime_requirements@,
    ;
}

} // verus!
