//! The steps of building one module around the parser and the code
//! generator.
//!
//! A module is read and parsed, lowered, and turned back into code. Reading,
//! parsing and generating code are the caller's: the builder lowers what the
//! parser gave, and makes the module from the bytes that the code generator
//! gave.

use crate::ast::Module;
use crate::diagnostics::{
    BuildFailure, BuildFailureView, ErrorKind, EMIT_FAILED, PARSE_FAILED, UTF8_FAILED,
};
use crate::js_module::{dependency_views, Dependency, JsModule, JsModuleView, ModuleType};
use crate::text::string_from_utf8;
use crate::transforms::runtime_imports::{lower_error_message, lowered, runtime_imports};
use crate::utils::{create_module_id, module_id_of};
use vstd::prelude::*;
use vstd::utf8::{decode_utf8, valid_utf8};

verus! {

/// Builds the modules of the project rooted at `project_root`.
pub struct ModuleBuilder {
    project_root: String,
}

impl View for ModuleBuilder {
    type V = Seq<char>;

    /// The root of the project.
    closed spec fn view(&self) -> Seq<char> {
        self.project_root@
    }
}

/// The code that the bytes `emitted` of the code generator hold for the module
/// at `filepath`: the text that the bytes encode, where the generator gave
/// bytes and they are UTF-8.
pub open spec fn emitted_code(filepath: Seq<char>, emitted: Option<Seq<u8>>) -> Result<
    Seq<char>,
    BuildFailureView,
> {
    match emitted {
        None => Err(
            BuildFailureView { kind: ErrorKind::Emit, path: filepath, detail: EMIT_FAILED@ },
        ),
        Some(bytes) => if valid_utf8(bytes) {
            Ok(decode_utf8(bytes))
        } else {
            Err(BuildFailureView { kind: ErrorKind::Emit, path: filepath, detail: UTF8_FAILED@ })
        },
    }
}

/// The view of the bytes that a code generator gave.
pub open spec fn bytes_view(emitted: Option<Vec<u8>>) -> Option<Seq<u8>> {
    match emitted {
        Some(bytes) => Some(bytes@),
        None => None,
    }
}

/// Turns the bytes of the code generator into the code of the module at
/// `filepath`.
pub fn decode_emitted(filepath: &str, emitted: Option<Vec<u8>>) -> (r: Result<String, BuildFailure>)
    ensures
        match emitted_code(filepath@, bytes_view(emitted)) {
            Ok(code) => r is Ok && r->Ok_0@ == code,
            Err(failure) => r is Err && r->Err_0@ == failure,
        },
{
    match emitted {
        None => Err(BuildFailure::new(ErrorKind::Emit, filepath, EMIT_FAILED)),
        Some(bytes) => match string_from_utf8(bytes) {
            Some(code) => Ok(code),
            None => Err(BuildFailure::new(ErrorKind::Emit, filepath, UTF8_FAILED)),
        },
    }
}

impl ModuleBuilder {
    /// A builder for the project rooted at `project_root`.
    pub fn new(project_root: String) -> (builder: Self)
        ensures
            builder@ == project_root@,
    {
        Self { project_root }
    }

    /// Lowers what the parser gave for the file at `filepath`: `parsed` is the
    /// module, or nothing where the parser rejected the file. Fails where the
    /// file was rejected and where the module cannot be lowered.
    pub fn lower(&self, filepath: &str, parsed: Option<Module>) -> (r: Result<
        (Module, Vec<Dependency>, ModuleType),
        BuildFailure,
    >)
        ensures
            match parsed {
                None => r is Err && r->Err_0@ == (BuildFailureView {
                    kind: ErrorKind::Parse,
                    path: filepath@,
                    detail: PARSE_FAILED@,
                }),
                Some(module) => match lowered(module@) {
                    Ok(expected) => r is Ok && r->Ok_0.0@ == expected.module && dependency_views(
                        r->Ok_0.1@,
                    ) == expected.dependencies && r->Ok_0.2 == expected.module_type,
                    Err(error) => r is Err && r->Err_0@ == (BuildFailureView {
                        kind: ErrorKind::Lower,
                        path: filepath@,
                        detail: lower_error_message(error),
                    }),
                },
            },
    {
        match parsed {
            None => Err(BuildFailure::new(ErrorKind::Parse, filepath, PARSE_FAILED)),
            Some(module) => match runtime_imports(module) {
                Ok(result) => Ok(result),
                Err(error) => Err(
                    BuildFailure::new(ErrorKind::Lower, filepath, error.message().as_str()),
                ),
            },
        }
    }

    /// Makes the module read from `filepath` out of the bytes `emitted` that
    /// the code generator gave for its lowered form, and hands its
    /// dependencies on. Fails where the generator gave nothing and where the
    /// bytes are no UTF-8.
    pub fn build(
        &self,
        filepath: String,
        emitted: Option<Vec<u8>>,
        module_type: ModuleType,
        dependencies: Vec<Dependency>,
    ) -> (r: Result<(JsModule, Vec<Dependency>), BuildFailure>)
        ensures
            match emitted_code(filepath@, bytes_view(emitted)) {
                Ok(code) => r is Ok && r->Ok_0.0@ == (JsModuleView {
                    id: module_id_of(filepath@, self@),
                    filepath: filepath@,
                    code,
                    module_type,
                }) && r->Ok_0.1 == dependencies,
                Err(failure) => r is Err && r->Err_0@ == failure,
            },
    {
        let id = create_module_id(filepath.as_str(), self.project_root.as_str());
        match decode_emitted(filepath.as_str(), emitted) {
            Ok(code) => Ok((JsModule { id, filepath, code, module_type }, dependencies)),
            Err(failure) => Err(failure),
        }
    }
}

} // verus!
