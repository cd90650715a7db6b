//! The dependency that a CSS module has on the module it composes from.

use crate::dependency::{
    CodeGeneratable, CodeGeneratableContext, CodeGeneratableResult, CodeGenerationError, Dependency,
    DependencyCategory, DependencyType, ErrorSpan, ModuleDependency,
};
use crate::identifier::DependencyId;
use vstd::prelude::*;

verus! {

/// A `composes: ... from "request"` edge of a CSS module.
#[derive(Debug, Clone)]
pub struct CssComposeDependency {
    id: Option<DependencyId>,
    request: String,
    span: Option<ErrorSpan>,
}

impl CssComposeDependency {
    /// A dependency on `request` that the module graph has not seen yet.
    pub fn new(request: String, span: Option<ErrorSpan>) -> (dependency: Self)
        ensures
            dependency.id_view() == None::<DependencyId>,
            dependency.request_view() == request@,
            dependency.user_request_view() == request@,
            dependency.span_view() == span,
            dependency.category_view() == DependencyCategory::CssCompose,
            dependency.dependency_type_view() == DependencyType::CssCompose,
    {
        Self { id: None, request, span }
    }
}

impl Dependency for CssComposeDependency {
    closed spec fn id_view(&self) -> Option<DependencyId> {
        self.id
    }

    open spec fn category_view(&self) -> DependencyCategory {
        DependencyCategory::CssCompose
    }

    open spec fn dependency_type_view(&self) -> DependencyType {
        DependencyType::CssCompose
    }

    fn id(&self) -> (id: Option<DependencyId>) {
        self.id
    }

    fn set_id(&mut self, id: Option<DependencyId>)
        ensures
            final(self).request_view() == old(self).request_view(),
            final(self).user_request_view() == old(self).user_request_view(),
            final(self).span_view() == old(self).span_view(),
    {
        self.id = id;
    }

    fn category(&self) -> (category: &DependencyCategory) {
        &DependencyCategory::CssCompose
    }

    fn dependency_type(&self) -> (dependency_type: &DependencyType) {
        &DependencyType::CssCompose
    }
}

impl ModuleDependency for CssComposeDependency {
    closed spec fn request_view(&self) -> Seq<char> {
        self.request@
    }

    closed spec fn user_request_view(&self) -> Seq<char> {
        self.request@
    }

    closed spec fn span_view(&self) -> Option<ErrorSpan> {
        self.span
    }

    fn request(&self) -> (request: &str) {
        self.request.as_str()
    }

    fn user_request(&self) -> (request: &str) {
        self.request.as_str()
    }

    fn span(&self) -> (span: Option<&ErrorSpan>) {
        self.span.as_ref()
    }

    fn set_request(&mut self, request: String)
        ensures
            final(self).user_request_view() == request@,
    {
        self.request = request;
    }
}

impl CodeGeneratable for CssComposeDependency {
    open spec fn generates_nothing(&self) -> bool {
        true
    }

    fn generate(&self, _code_generatable_context: &mut CodeGeneratableContext) -> (result: Result<
        CodeGeneratableResult,
        CodeGenerationError,
    >) {
        Ok(CodeGeneratableResult::default())
    }
}

} // verus!
