//! Built modules and the dependencies a module declares.

use crate::text::{
    lemma_replace_all_by_itself, lemma_replace_all_without_occurrence, occurs_in, replace_all,
    replace_every,
};
use vstd::string::*;
use vstd::prelude::*;

verus! {

/// How a module exposes its exports to the runtime loader.
#[derive(Clone, Copy, Debug, PartialEq, Eq, Structural)]
pub enum ModuleType {
    ESM,
    CommonJS,
}

/// One built module: its id, where it was read from, and its lowered code.
#[derive(Clone, Debug, PartialEq, Eq)]
pub struct JsModule {
    pub id: String,
    pub filepath: String,
    pub code: String,
    pub module_type: ModuleType,
}

/// The mathematical content of a [`JsModule`].
pub struct JsModuleView {
    pub id: Seq<char>,
    pub filepath: Seq<char>,
    pub code: Seq<char>,
    pub module_type: ModuleType,
}

impl View for JsModule {
    type V = JsModuleView;

    open spec fn view(&self) -> JsModuleView {
        JsModuleView {
            id: self.id@,
            filepath: self.filepath@,
            code: self.code@,
            module_type: self.module_type,
        }
    }
}

/// The string literal that holds `text`: the text between double quotes.
pub open spec fn quoted(text: Seq<char>) -> Seq<char> {
    seq!['"'] + text + seq!['"']
}

impl JsModuleView {
    /// This module with the request `request` rewritten to the id `dep_id`:
    /// every occurrence of the literal of the request in the code becomes the
    /// literal of the id, and nothing else changes.
    pub open spec fn with_request_rewritten(self, request: Seq<char>, dep_id: Seq<char>) -> Self {
        JsModuleView { code: replace_all(self.code, quoted(request), quoted(dep_id)), ..self }
    }
}

/// A rewrite changes the code only: id, path and kind stay. Code in which the
/// literal of the request does not occur stays as it is, and so does any code
/// when the id is the request.
pub proof fn lemma_rewrite_changes_the_literal_only(
    module: JsModuleView,
    request: Seq<char>,
    dep_id: Seq<char>,
)
    ensures
        module.with_request_rewritten(request, dep_id).id == module.id,
        module.with_request_rewritten(request, dep_id).filepath == module.filepath,
        module.with_request_rewritten(request, dep_id).module_type == module.module_type,
        !occurs_in(module.code, quoted(request)) ==> module.with_request_rewritten(
            request,
            dep_id,
        ) == module,
        dep_id == request ==> module.with_request_rewritten(request, dep_id) == module,
{
    if !occurs_in(module.code, quoted(request)) {
        lemma_replace_all_without_occurrence(module.code, quoted(request), quoted(dep_id));
    }
    if dep_id == request {
        lemma_replace_all_by_itself(module.code, quoted(request));
    }
}

/// One binding of a named import: `imported as local`.
#[derive(Clone, Debug, PartialEq, Eq)]
pub struct NamedImport {
    pub local: String,
    pub import_name: String,
}

pub struct NamedImportView {
    pub local: Seq<char>,
    pub import_name: Seq<char>,
}

impl View for NamedImport {
    type V = NamedImportView;

    open spec fn view(&self) -> NamedImportView {
        NamedImportView { local: self.local@, import_name: self.import_name@ }
    }
}

/// The views of a list of named bindings, in order.
pub open spec fn named_import_views(names: Seq<NamedImport>) -> Seq<NamedImportView> {
    names.map_values(|n: NamedImport| n@)
}

/// What a dependency binds in the module that declares it.
#[derive(Clone, Debug, PartialEq, Eq)]
pub enum ImportType {
    Default(String),
    Namespace(String),
    Named(Vec<NamedImport>),
    SideEffect,
    Require,
}

pub enum ImportTypeView {
    Default(Seq<char>),
    Namespace(Seq<char>),
    Named(Seq<NamedImportView>),
    SideEffect,
    Require,
}

impl View for ImportType {
    type V = ImportTypeView;

    open spec fn view(&self) -> ImportTypeView {
        match self {
            ImportType::Default(local) => ImportTypeView::Default(local@),
            ImportType::Namespace(local) => ImportTypeView::Namespace(local@),
            ImportType::Named(names) => ImportTypeView::Named(named_import_views(names@)),
            ImportType::SideEffect => ImportTypeView::SideEffect,
            ImportType::Require => ImportTypeView::Require,
        }
    }
}

/// A request for another module, with what it binds.
#[derive(Clone, Debug, PartialEq, Eq)]
pub struct Dependency {
    pub request: String,
    pub import_type: ImportType,
}

pub struct DependencyView {
    pub request: Seq<char>,
    pub import_type: ImportTypeView,
}

impl View for Dependency {
    type V = DependencyView;

    open spec fn view(&self) -> DependencyView {
        DependencyView { request: self.request@, import_type: self.import_type@ }
    }
}

/// The views of a list of dependencies, in order.
pub open spec fn dependency_views(deps: Seq<Dependency>) -> Seq<DependencyView> {
    deps.map_values(|d: Dependency| d@)
}

/// The string literal that holds `text`.
fn quote(text: &str) -> (literal: String)
    ensures
        literal@ == quoted(text@),
{
    let mut literal = String::from_str("\"");
    proof {
        reveal_strlit("\"");
        assert("\""@ =~= seq!['"']);
    }
    literal.append(text);
    literal.append("\"");
    assert(literal@ =~= quoted(text@));
    literal
}

impl JsModule {
    /// Rewrites the request `request` in this module's code to the id `dep_id`
    /// of the module it resolved to: every occurrence of the string literal of
    /// the request becomes the string literal of the id. Text that holds the
    /// request inside another literal stays as it is.
    pub fn update_dep_src(&mut self, request: &str, dep_id: &str)
        ensures
            final(self)@ == old(self)@.with_request_rewritten(request@, dep_id@),
    {
        self.code = replace_every(
            self.code.as_str(),
            quote(request).as_str(),
            quote(dep_id).as_str(),
        );
    }
}

} // verus!
