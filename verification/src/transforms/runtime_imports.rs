//! Lowers import and export syntax to calls against the runtime loader.
//!
//! Every import becomes a binding of a `require(request, is_default)` call at
//! the top of the module, every export an assignment to a property of
//! `exports`, and each `require("request")` call of the source is left where
//! it is. The dependencies found on the way are returned in source order.

use crate::ast::{
    declarator_views, export_specifier_views, expr_views, import_specifier_views, item_views,
    name_view, prop_views, Decl, DeclView, Expr, ExprView, ExportSpecifier, ExportSpecifierView, ImportSpecifier,
    ImportSpecifierView, Module, ModuleItem, ModuleItemView, ModuleView, ObjectPatProp,
    ObjectPatPropView, Pat, PatView, Stmt, StmtView, VarDeclarator, VarDeclaratorView,
};
use crate::js_module::{
    dependency_views, named_import_views, Dependency, DependencyView, ImportType, ImportTypeView, ModuleType, NamedImport,
    NamedImportView,
};
use crate::text::same_text;
use crate::utils::{strip_char, strip_invalid_chars};
use vstd::prelude::*;
use vstd::string::*;

verus! {

/// Why a module cannot be lowered.
#[derive(Clone, Copy, Debug, PartialEq, Eq, Structural)]
pub enum LowerError {
    /// An export declares variables that are not initialised or not bound to
    /// plain names, or lists a namespace without a source.
    UnsupportedExport,
    /// A `require` call has one argument that is not a string literal.
    ComplexRequire,
}

/// What is reported of `error`.
pub open spec fn lower_error_message(error: LowerError) -> Seq<char> {
    match error {
        LowerError::UnsupportedExport => "unsupported export"@,
        LowerError::ComplexRequire => "complex require not supported"@,
    }
}

impl LowerError {
    /// What is reported of this error.
    pub fn message(&self) -> (message: String)
        ensures
            message@ == lower_error_message(*self),
    {
        match self {
            LowerError::UnsupportedExport => String::from_str("unsupported export"),
            LowerError::ComplexRequire => String::from_str("complex require not supported"),
        }
    }
}

// ---------------------------------------------------------------------------
// `require` call sites
// ---------------------------------------------------------------------------

/// Whether `callee` is the identifier `require`.
pub open spec fn is_require(callee: ExprView) -> bool {
    callee == ExprView::Ident("require"@)
}

/// The dependency recorded at the call `callee(args)` itself: one for a call of
/// `require` with exactly one argument that is a string literal.
pub open spec fn call_requires(callee: ExprView, args: Seq<ExprView>) -> Seq<DependencyView> {
    if is_require(callee) && args.len() == 1 && args[0] is Str {
        seq![DependencyView { request: args[0]->Str_0, import_type: ImportTypeView::Require }]
    } else {
        Seq::empty()
    }
}

/// Whether the call `callee(args)` is a `require` of something computed.
pub open spec fn call_complex(callee: ExprView, args: Seq<ExprView>) -> bool {
    is_require(callee) && args.len() == 1 && !(args[0] is Str)
}

/// The `require` dependencies of the calls in `e`: a call before its callee,
/// the callee before the arguments, everything in source order.
pub open spec fn expr_requires(e: ExprView) -> Seq<DependencyView>
    decreases e,
{
    match e {
        ExprView::Ident(_) | ExprView::Str(_) | ExprView::Bool(_) => Seq::empty(),
        ExprView::Call { callee, args } => call_requires(*callee, args) + expr_requires(*callee)
            + exprs_requires(args),
        ExprView::Member { obj, .. } => expr_requires(*obj),
        ExprView::Assign { left, right } => expr_requires(*left) + expr_requires(*right),
        ExprView::Sequence(exprs) => exprs_requires(exprs),
        ExprView::Other { parts, .. } => exprs_requires(parts),
    }
}

/// The `require` dependencies of the expressions of `es`, one after the other.
pub open spec fn exprs_requires(es: Seq<ExprView>) -> Seq<DependencyView>
    decreases es,
{
    if es.len() == 0 {
        Seq::empty()
    } else {
        exprs_requires(es.drop_last()) + expr_requires(es.last())
    }
}

/// Whether some call in `e` is a `require` of something computed.
pub open spec fn expr_complex(e: ExprView) -> bool
    decreases e,
{
    match e {
        ExprView::Ident(_) | ExprView::Str(_) | ExprView::Bool(_) => false,
        ExprView::Call { callee, args } => call_complex(*callee, args) || expr_complex(*callee)
            || exprs_complex(args),
        ExprView::Member { obj, .. } => expr_complex(*obj),
        ExprView::Assign { left, right } => expr_complex(*left) || expr_complex(*right),
        ExprView::Sequence(exprs) => exprs_complex(exprs),
        ExprView::Other { parts, .. } => exprs_complex(parts),
    }
}

/// Whether some call in an expression of `es` is a `require` of something
/// computed.
pub open spec fn exprs_complex(es: Seq<ExprView>) -> bool
    decreases es,
{
    if es.len() == 0 {
        false
    } else {
        exprs_complex(es.drop_last()) || expr_complex(es.last())
    }
}

/// The `require` dependencies of the calls in a statement.
pub open spec fn stmt_requires(s: StmtView) -> Seq<DependencyView> {
    match s {
        StmtView::Var { init, .. } => expr_requires(init),
        StmtView::Expr(expr) => expr_requires(expr),
        StmtView::Other { parts, .. } => exprs_requires(parts),
    }
}

/// Whether some call in a statement is a `require` of something computed.
pub open spec fn stmt_complex(s: StmtView) -> bool {
    match s {
        StmtView::Var { init, .. } => expr_complex(init),
        StmtView::Expr(expr) => expr_complex(expr),
        StmtView::Other { parts, .. } => exprs_complex(parts),
    }
}

// ---------------------------------------------------------------------------
// Imports
// ---------------------------------------------------------------------------

/// The local name of the last namespace specifier of `specs`, if any.
pub open spec fn import_namespace(specs: Seq<ImportSpecifierView>) -> Option<Seq<char>>
    decreases specs.len(),
{
    if specs.len() == 0 {
        None
    } else {
        match specs.last() {
            ImportSpecifierView::Namespace { local } => Some(local),
            _ => import_namespace(specs.drop_last()),
        }
    }
}

/// The local name of the last default specifier of `specs`, if any.
pub open spec fn import_default(specs: Seq<ImportSpecifierView>) -> Option<Seq<char>>
    decreases specs.len(),
{
    if specs.len() == 0 {
        None
    } else {
        match specs.last() {
            ImportSpecifierView::Default { local } => Some(local),
            _ => import_default(specs.drop_last()),
        }
    }
}

/// The named bindings of `specs`, in order.
pub open spec fn import_named(specs: Seq<ImportSpecifierView>) -> Seq<NamedImportView>
    decreases specs.len(),
{
    if specs.len() == 0 {
        Seq::empty()
    } else {
        match specs.last() {
            ImportSpecifierView::Named { local, imported } => import_named(
                specs.drop_last(),
            ).push(
                NamedImportView {
                    local,
                    import_name: match imported {
                        Some(name) => name,
                        None => local,
                    },
                },
            ),
            _ => import_named(specs.drop_last()),
        }
    }
}

/// The namespace dependency on `src`, if `local` names one.
pub open spec fn namespace_dependency(src: Seq<char>, local: Option<Seq<char>>) -> Seq<
    DependencyView,
> {
    match local {
        Some(local) => seq![
            DependencyView { request: src, import_type: ImportTypeView::Namespace(local) },
        ],
        None => Seq::empty(),
    }
}

/// The default dependency on `src`, if `local` names one.
pub open spec fn default_dependency(src: Seq<char>, local: Option<Seq<char>>) -> Seq<
    DependencyView,
> {
    match local {
        Some(local) => seq![
            DependencyView { request: src, import_type: ImportTypeView::Default(local) },
        ],
        None => Seq::empty(),
    }
}

/// The named dependency on `src`, if there are named bindings.
pub open spec fn named_dependency(src: Seq<char>, names: Seq<NamedImportView>) -> Seq<
    DependencyView,
> {
    if names.len() > 0 {
        seq![DependencyView { request: src, import_type: ImportTypeView::Named(names) }]
    } else {
        Seq::empty()
    }
}

/// The dependencies of `import specs from "src"`: a side effect for an import
/// without specifiers, else the namespace, the default and the named bindings,
/// in this order, each present only where the declaration has such a binding.
pub open spec fn import_dependencies(src: Seq<char>, specs: Seq<ImportSpecifierView>) -> Seq<
    DependencyView,
> {
    if specs.len() == 0 {
        seq![DependencyView { request: src, import_type: ImportTypeView::SideEffect }]
    } else {
        namespace_dependency(src, import_namespace(specs)) + default_dependency(
            src,
            import_default(specs),
        ) + named_dependency(src, import_named(specs))
    }
}

// ---------------------------------------------------------------------------
// Exports
// ---------------------------------------------------------------------------

/// The name under which `s` exports.
pub open spec fn exported_name(s: ExportSpecifierView) -> Seq<char> {
    match s {
        ExportSpecifierView::Named { orig, exported } => match exported {
            Some(name) => name,
            None => orig,
        },
        ExportSpecifierView::Namespace { name } => name,
    }
}

/// The namespace dependencies of a re-export from `src`, one for each
/// namespace specifier, in order.
pub open spec fn reexport_namespaces(src: Seq<char>, specs: Seq<ExportSpecifierView>) -> Seq<
    DependencyView,
>
    decreases specs.len(),
{
    if specs.len() == 0 {
        Seq::empty()
    } else {
        match specs.last() {
            ExportSpecifierView::Namespace { name } => reexport_namespaces(
                src,
                specs.drop_last(),
            ).push(DependencyView { request: src, import_type: ImportTypeView::Namespace(name) }),
            _ => reexport_namespaces(src, specs.drop_last()),
        }
    }
}

/// The named bindings that a re-export needs: each named specifier binds the
/// name it exports under to the name it takes from the source.
pub open spec fn reexport_named(specs: Seq<ExportSpecifierView>) -> Seq<NamedImportView>
    decreases specs.len(),
{
    if specs.len() == 0 {
        Seq::empty()
    } else {
        match specs.last() {
            ExportSpecifierView::Named { orig, .. } => reexport_named(specs.drop_last()).push(
                NamedImportView { local: exported_name(specs.last()), import_name: orig },
            ),
            _ => reexport_named(specs.drop_last()),
        }
    }
}

/// The dependencies of `export { specs } from "src"`.
pub open spec fn reexport_dependencies(src: Seq<char>, specs: Seq<ExportSpecifierView>) -> Seq<
    DependencyView,
> {
    reexport_namespaces(src, specs) + named_dependency(src, reexport_named(specs))
}

/// The name that `export * from "src"` binds the namespace of `src` to.
pub open spec fn export_all_name(src: Seq<char>) -> Seq<char> {
    src.map_values(|c: char| strip_char(c))
}

/// `exports.name = value`.
pub open spec fn export_assignment(name: Seq<char>, value: ExprView) -> ExprView {
    ExprView::Assign {
        left: Box::new(
            ExprView::Member { obj: Box::new(ExprView::Ident("exports"@)), prop: name },
        ),
        right: Box::new(value),
    }
}

/// The assignment that exports what `s` names. A re-export reads the binding
/// made for it, which has the exported name; a plain export reads the local
/// binding.
pub open spec fn specifier_assignment(s: ExportSpecifierView, reexport: bool) -> ExprView {
    match s {
        ExportSpecifierView::Named { orig, .. } => export_assignment(
            exported_name(s),
            ExprView::Ident(
                if reexport {
                    exported_name(s)
                } else {
                    orig
                },
            ),
        ),
        ExportSpecifierView::Namespace { name } => export_assignment(name, ExprView::Ident(name)),
    }
}

/// The assignments for the specifiers of an export list, in order.
pub open spec fn specifier_assignments(specs: Seq<ExportSpecifierView>, reexport: bool) -> Seq<
    ExprView,
> {
    specs.map_values(|s: ExportSpecifierView| specifier_assignment(s, reexport))
}

/// The assignment that exports the variable `d`.
pub open spec fn declarator_assignment(d: VarDeclaratorView) -> ExprView {
    export_assignment(d.name->0, d.init->0)
}

/// The assignments for the variables of an exported declaration, in order.
pub open spec fn declarator_assignments(decls: Seq<VarDeclaratorView>) -> Seq<ExprView> {
    decls.map_values(|d: VarDeclaratorView| declarator_assignment(d))
}

/// Whether `d` is a variable that can be exported: a plain name with an
/// initialiser.
pub open spec fn declarator_supported(d: VarDeclaratorView) -> bool {
    d.name is Some && d.init is Some
}

/// The `require` dependencies in the initialisers of `decls`, in order.
pub open spec fn declarators_requires(decls: Seq<VarDeclaratorView>) -> Seq<DependencyView>
    decreases decls.len(),
{
    if decls.len() == 0 {
        Seq::empty()
    } else {
        declarators_requires(decls.drop_last()) + (match decls.last().init {
            Some(init) => expr_requires(init),
            None => Seq::empty(),
        })
    }
}

/// Whether an initialiser of `decls` holds a `require` of something computed.
pub open spec fn declarators_complex(decls: Seq<VarDeclaratorView>) -> bool {
    exists|i: int|
        0 <= i < decls.len() && (#[trigger] decls[i]).init is Some && expr_complex(
            decls[i].init->0,
        )
}

/// Several exports of one declaration as one expression: the assignment
/// itself where there is one, else their sequence.
pub open spec fn combined(exprs: Seq<ExprView>) -> ExprView {
    if exprs.len() == 1 {
        exprs[0]
    } else {
        ExprView::Sequence(exprs)
    }
}

/// The statement `expr;` as a module item.
pub open spec fn expr_item(expr: ExprView) -> ModuleItemView {
    ModuleItemView::Stmt(StmtView::Expr(expr))
}

// ---------------------------------------------------------------------------
// Items
// ---------------------------------------------------------------------------

/// Whether `item` is an import or export declaration.
pub open spec fn is_module_decl(item: ModuleItemView) -> bool {
    !(item is Stmt)
}

/// Whether `item` is an export that cannot be lowered.
pub open spec fn item_unsupported(item: ModuleItemView) -> bool {
    match item {
        ModuleItemView::ExportDecl(DeclView::Var(decls)) => decls.len() == 0 || exists|i: int|
            0 <= i < decls.len() && !declarator_supported(#[trigger] decls[i]),
        ModuleItemView::ExportNamed { specifiers, src } => src is None && exists|i: int|
            0 <= i < specifiers.len() && (#[trigger] specifiers[i]) is Namespace,
        _ => false,
    }
}

/// Whether some call in `item` is a `require` of something computed.
pub open spec fn item_complex(item: ModuleItemView) -> bool {
    match item {
        ModuleItemView::ExportDefaultExpr(expr) => expr_complex(expr),
        ModuleItemView::ExportDecl(DeclView::Var(decls)) => declarators_complex(decls),
        ModuleItemView::ExportDecl(DeclView::Fn { function, .. }) => expr_complex(function),
        ModuleItemView::ExportDecl(DeclView::Other { parts, .. }) => exprs_complex(parts),
        ModuleItemView::Stmt(stmt) => stmt_complex(stmt),
        _ => false,
    }
}

/// The dependencies that `item` declares, in source order.
pub open spec fn item_dependencies(item: ModuleItemView) -> Seq<DependencyView> {
    match item {
        ModuleItemView::Import { src, specifiers } => import_dependencies(src, specifiers),
        ModuleItemView::ExportDefaultExpr(expr) => expr_requires(expr),
        ModuleItemView::ExportDecl(DeclView::Var(decls)) => declarators_requires(decls),
        ModuleItemView::ExportDecl(DeclView::Fn { function, .. }) => expr_requires(function),
        ModuleItemView::ExportDecl(DeclView::Other { parts, .. }) => exprs_requires(parts),
        ModuleItemView::ExportNamed { specifiers, src } => match src {
            Some(src) => reexport_dependencies(src, specifiers),
            None => Seq::empty(),
        },
        ModuleItemView::ExportAll { src } => seq![
            DependencyView {
                request: src,
                import_type: ImportTypeView::Namespace(export_all_name(src)),
            },
        ],
        ModuleItemView::Stmt(stmt) => stmt_requires(stmt),
    }
}

/// What stands in the lowered body in place of `item`: nothing for an import
/// or an empty export list, one statement of assignments for an export, the
/// declaration as a statement for an exported declaration of another kind,
/// the statement itself for a statement.
pub open spec fn item_lowered(item: ModuleItemView) -> Seq<ModuleItemView> {
    match item {
        ModuleItemView::Import { .. } => Seq::empty(),
        ModuleItemView::ExportDefaultExpr(expr) => seq![
            expr_item(export_assignment("default"@, expr)),
        ],
        ModuleItemView::ExportDecl(DeclView::Var(decls)) => seq![
            expr_item(combined(declarator_assignments(decls))),
        ],
        ModuleItemView::ExportDecl(DeclView::Fn { ident, function }) => seq![
            expr_item(export_assignment(ident, function)),
        ],
        ModuleItemView::ExportDecl(DeclView::Other { node, parts }) => seq![
            ModuleItemView::Stmt(StmtView::Other { node, parts }),
        ],
        ModuleItemView::ExportNamed { specifiers, src } => if specifiers.len() == 0 {
            Seq::empty()
        } else {
            seq![expr_item(combined(specifier_assignments(specifiers, src is Some)))]
        },
        ModuleItemView::ExportAll { src } => seq![
            expr_item(
                ExprView::Call {
                    callee: Box::new(ExprView::Ident("__exportAll__"@)),
                    args: seq![ExprView::Ident(export_all_name(src))],
                },
            ),
        ],
        ModuleItemView::Stmt(stmt) => seq![item],
    }
}

// ---------------------------------------------------------------------------
// Modules
// ---------------------------------------------------------------------------

/// The dependencies of the items of `body`, in source order.
pub open spec fn body_dependencies(body: Seq<ModuleItemView>) -> Seq<DependencyView>
    decreases body.len(),
{
    if body.len() == 0 {
        Seq::empty()
    } else {
        body_dependencies(body.drop_last()) + item_dependencies(body.last())
    }
}

/// The items of `body` with imports removed and exports rewritten in place.
pub open spec fn body_lowered(body: Seq<ModuleItemView>) -> Seq<ModuleItemView>
    decreases body.len(),
{
    if body.len() == 0 {
        Seq::empty()
    } else {
        body_lowered(body.drop_last()) + item_lowered(body.last())
    }
}

/// Whether `body` holds an export that cannot be lowered.
pub open spec fn body_unsupported(body: Seq<ModuleItemView>) -> bool {
    exists|i: int| 0 <= i < body.len() && item_unsupported(#[trigger] body[i])
}

/// Whether `body` holds a `require` of something computed.
pub open spec fn body_complex(body: Seq<ModuleItemView>) -> bool {
    exists|i: int| 0 <= i < body.len() && item_complex(#[trigger] body[i])
}

/// The kind of a module with this body: ESM as soon as it holds an import or
/// an export, CommonJS otherwise.
pub open spec fn module_kind(body: Seq<ModuleItemView>) -> ModuleType {
    if exists|i: int| 0 <= i < body.len() && is_module_decl(#[trigger] body[i]) {
        ModuleType::ESM
    } else {
        ModuleType::CommonJS
    }
}

/// Whether `dep` is bound at the top of the lowered module: every dependency
/// but a `require` call of the source.
pub open spec fn is_binding(dep: DependencyView) -> bool {
    !(dep.import_type is Require)
}

/// The property of an object pattern that binds `name`.
pub open spec fn named_prop(name: NamedImportView) -> ObjectPatPropView {
    if name.import_name == name.local {
        ObjectPatPropView::Assign(name.local)
    } else {
        ObjectPatPropView::KeyValue { key: name.import_name, value: name.local }
    }
}

/// The properties of the object pattern that binds `names`, in order.
pub open spec fn named_props(names: Seq<NamedImportView>) -> Seq<ObjectPatPropView> {
    names.map_values(|n: NamedImportView| named_prop(n))
}

/// The call `require(request, is_default)`.
pub open spec fn require_call(request: Seq<char>, is_default: bool) -> ExprView {
    ExprView::Call {
        callee: Box::new(ExprView::Ident("require"@)),
        args: seq![ExprView::Str(request), ExprView::Bool(is_default)],
    }
}

/// The statement that loads `dep` at run time and binds what it names:
/// `var local = require(request, false)` for a namespace,
/// `var { default: local } = require(request, true)` for a default,
/// `var { a, b: c } = require(request, false)` for named bindings, and the
/// bare call for a side effect.
pub open spec fn runtime_require(dep: DependencyView) -> ModuleItemView {
    match dep.import_type {
        ImportTypeView::Namespace(local) => ModuleItemView::Stmt(
            StmtView::Var { name: PatView::Ident(local), init: require_call(dep.request, false) },
        ),
        ImportTypeView::Named(names) => ModuleItemView::Stmt(
            StmtView::Var {
                name: PatView::Object(named_props(names)),
                init: require_call(dep.request, false),
            },
        ),
        ImportTypeView::Default(local) => ModuleItemView::Stmt(
            StmtView::Var {
                name: PatView::Object(
                    seq![ObjectPatPropView::KeyValue { key: "default"@, value: local }],
                ),
                init: require_call(dep.request, true),
            },
        ),
        _ => expr_item(require_call(dep.request, false)),
    }
}

/// The bindings of the dependencies `deps`, one for each that is bound, in
/// order.
pub open spec fn preamble(deps: Seq<DependencyView>) -> Seq<ModuleItemView>
    decreases deps.len(),
{
    if deps.len() == 0 {
        Seq::empty()
    } else if is_binding(deps.last()) {
        preamble(deps.drop_last()).push(runtime_require(deps.last()))
    } else {
        preamble(deps.drop_last())
    }
}

/// The `require` calls among `deps`, in order.
pub open spec fn require_sites(deps: Seq<DependencyView>) -> Seq<DependencyView>
    decreases deps.len(),
{
    if deps.len() == 0 {
        Seq::empty()
    } else if is_binding(deps.last()) {
        require_sites(deps.drop_last())
    } else {
        require_sites(deps.drop_last()).push(deps.last())
    }
}

/// The result of lowering a module: the lowered module, its dependencies in
/// source order, and its kind.
pub struct LoweredView {
    pub module: ModuleView,
    pub dependencies: Seq<DependencyView>,
    pub module_type: ModuleType,
}

/// What lowering the module `m` gives. The lowered body is the bindings of the
/// dependencies followed by the body with imports removed and exports
/// rewritten.
pub open spec fn lowered(m: ModuleView) -> Result<LoweredView, LowerError> {
    if body_unsupported(m.body) {
        Err(LowerError::UnsupportedExport)
    } else if body_complex(m.body) {
        Err(LowerError::ComplexRequire)
    } else {
        Ok(
            LoweredView {
                module: ModuleView {
                    body: preamble(body_dependencies(m.body)) + body_lowered(m.body),
                },
                dependencies: body_dependencies(m.body),
                module_type: module_kind(m.body),
            },
        )
    }
}

// ---------------------------------------------------------------------------
// The lowering
// ---------------------------------------------------------------------------

/// What the lowering has gathered so far while it walks a module.
pub struct RuntimeImportMapper {
    /// The dependencies found, in source order.
    pub dependencies: Vec<Dependency>,
    /// CommonJS until an import or export is seen.
    pub module_type: ModuleType,
    /// Whether a `require` of something computed was seen.
    pub complex_require: bool,
    /// Whether an export that cannot be lowered was seen.
    pub unsupported_export: bool,
}

pub struct RuntimeImportMapperView {
    pub dependencies: Seq<DependencyView>,
    pub module_type: ModuleType,
    pub complex_require: bool,
    pub unsupported_export: bool,
}

impl View for RuntimeImportMapper {
    type V = RuntimeImportMapperView;

    open spec fn view(&self) -> RuntimeImportMapperView {
        RuntimeImportMapperView {
            dependencies: dependency_views(self.dependencies@),
            module_type: self.module_type,
            complex_require: self.complex_require,
            unsupported_export: self.unsupported_export,
        }
    }
}

impl RuntimeImportMapperView {
    /// This state after a walk over syntax that holds the dependencies
    /// `found`, and a computed `require` if `complex`.
    pub open spec fn with_found(self, found: Seq<DependencyView>, complex: bool) -> Self {
        RuntimeImportMapperView {
            dependencies: self.dependencies + found,
            complex_require: self.complex_require || complex,
            ..self
        }
    }
}

impl RuntimeImportMapperView {
    /// This state after a walk over `item`.
    pub open spec fn after_item(self, item: ModuleItemView) -> Self {
        RuntimeImportMapperView {
            dependencies: self.dependencies + item_dependencies(item),
            module_type: if is_module_decl(item) {
                ModuleType::ESM
            } else {
                self.module_type
            },
            complex_require: self.complex_require || item_complex(item),
            unsupported_export: self.unsupported_export || item_unsupported(item),
        }
    }

    /// This state after a walk over the items of `body`.
    pub open spec fn after_body(self, body: Seq<ModuleItemView>) -> Self {
        RuntimeImportMapperView {
            dependencies: self.dependencies + body_dependencies(body),
            module_type: if module_kind(body) == ModuleType::ESM {
                ModuleType::ESM
            } else {
                self.module_type
            },
            complex_require: self.complex_require || body_complex(body),
            unsupported_export: self.unsupported_export || body_unsupported(body),
        }
    }
}

/// A walk over the first `n + 1` items of `body` is a walk over the first `n`
/// and then over the item at `n`.
proof fn lemma_after_body_step(state: RuntimeImportMapperView, body: Seq<ModuleItemView>, n: int)
    requires
        0 <= n < body.len(),
    ensures
        state.after_body(body.take(n + 1)) == state.after_body(body.take(n)).after_item(body[n]),
{
    let shorter = body.take(n);
    let longer = body.take(n + 1);
    assert(longer.drop_last() =~= shorter);
    assert(longer.last() == body[n]);
    assert(state.dependencies + (body_dependencies(shorter) + item_dependencies(body[n]))
        =~= (state.dependencies + body_dependencies(shorter)) + item_dependencies(body[n]));
    assert(body_complex(longer) == (body_complex(shorter) || item_complex(body[n]))) by {
        if body_complex(shorter) {
            let j = choose|j: int| 0 <= j < shorter.len() && item_complex(#[trigger] shorter[j]);
            assert(longer[j] == shorter[j]);
        }
        if item_complex(body[n]) {
            assert(longer[n] == body[n]);
        }
        if body_complex(longer) {
            let j = choose|j: int| 0 <= j < longer.len() && item_complex(#[trigger] longer[j]);
            if j < n {
                assert(shorter[j] == longer[j]);
            }
        }
    }
    assert(body_unsupported(longer) == (body_unsupported(shorter) || item_unsupported(body[n])))
        by {
        if body_unsupported(shorter) {
            let j = choose|j: int|
                0 <= j < shorter.len() && item_unsupported(#[trigger] shorter[j]);
            assert(longer[j] == shorter[j]);
        }
        if item_unsupported(body[n]) {
            assert(longer[n] == body[n]);
        }
        if body_unsupported(longer) {
            let j = choose|j: int| 0 <= j < longer.len() && item_unsupported(#[trigger] longer[j]);
            if j < n {
                assert(shorter[j] == longer[j]);
            }
        }
    }
    assert((module_kind(longer) == ModuleType::ESM) == (module_kind(shorter) == ModuleType::ESM
        || is_module_decl(body[n]))) by {
        if module_kind(shorter) == ModuleType::ESM {
            let j = choose|j: int| 0 <= j < shorter.len() && is_module_decl(#[trigger] shorter[j]);
            assert(longer[j] == shorter[j]);
        }
        if is_module_decl(body[n]) {
            assert(longer[n] == body[n]);
        }
        if module_kind(longer) == ModuleType::ESM {
            let j = choose|j: int| 0 <= j < longer.len() && is_module_decl(#[trigger] longer[j]);
            if j < n {
                assert(shorter[j] == longer[j]);
            }
        }
    }
}

impl RuntimeImportMapper {
    /// Records the dependency `dep`.
    fn record(&mut self, dep: Dependency)
        ensures
            final(self)@ == old(self)@.with_found(seq![dep@], false),
    {
        self.dependencies.push(dep);
        assert(dependency_views(self.dependencies@) =~= dependency_views(old(self).dependencies@)
            + seq![dep@]);
    }

    /// Looks at the call `callee(args)` itself: records the dependency of a
    /// `require` call on a string literal, and notes a `require` of anything
    /// else. The call stays as it is.
    pub fn fold_call_expr(&mut self, callee: &Expr, args: &Vec<Expr>)
        ensures
            final(self)@ == old(self)@.with_found(
                call_requires(callee@, expr_views(args@)),
                call_complex(callee@, expr_views(args@)),
            ),
    {
        let is_require_call = match callee {
            Expr::Ident(name) => same_text(name.as_str(), "require"),
            _ => false,
        };
        assert(is_require_call == is_require(callee@));
        if is_require_call && args.len() == 1 {
            assert(expr_views(args@)[0] == args@[0]@);
            match &args[0] {
                Expr::Str(request) => {
                    self.record(
                        Dependency { request: request.clone(), import_type: ImportType::Require },
                    );
                },
                _ => {
                    self.complex_require = true;
                    assert(self@.dependencies =~= old(self)@.dependencies + Seq::empty());
                },
            }
        } else {
            assert(self@.dependencies =~= old(self)@.dependencies + Seq::empty());
        }
    }

    /// Walks the expression `e` and looks at every call in it.
    pub fn fold_expr(&mut self, e: &Expr)
        ensures
            final(self)@ == old(self)@.with_found(expr_requires(e@), expr_complex(e@)),
        decreases e,
    {
        match e {
            Expr::Ident(_) | Expr::Str(_) | Expr::Bool(_) => {
                assert(self@.dependencies =~= old(self)@.dependencies + Seq::empty());
            },
            Expr::Call { callee, args } => {
                assert(e@ == ExprView::Call {
                    callee: Box::new(callee@),
                    args: expr_views(args@),
                });
                self.fold_call_expr(callee, args);
                self.fold_expr(callee);
                self.fold_exprs(args);
                assert(self@.dependencies =~= old(self)@.dependencies + expr_requires(e@));
            },
            Expr::Member { obj, .. } => {
                self.fold_expr(obj);
            },
            Expr::Assign { left, right } => {
                self.fold_expr(left);
                self.fold_expr(right);
                assert(self@.dependencies =~= old(self)@.dependencies + expr_requires(e@));
            },
            Expr::Sequence(exprs) => {
                assert(e@ == ExprView::Sequence(expr_views(exprs@)));
                self.fold_exprs(exprs);
            },
            Expr::Other { parts, .. } => {
                assert(e@->Other_parts == expr_views(parts@));
                self.fold_exprs(parts);
            },
        }
    }

    /// Walks the expressions of `es` in order.
    pub fn fold_exprs(&mut self, es: &Vec<Expr>)
        ensures
            final(self)@ == old(self)@.with_found(
                exprs_requires(expr_views(es@)),
                exprs_complex(expr_views(es@)),
            ),
        decreases es,
    {
        let ghost views = expr_views(es@);
        let mut i: usize = 0;
        assert(self@.dependencies =~= old(self)@.dependencies + Seq::empty());
        assert(views.take(0) =~= Seq::empty());
        while i < es.len()
            invariant
                i <= es.len(),
                views == expr_views(es@),
                self@ == old(self)@.with_found(
                    exprs_requires(views.take(i as int)),
                    exprs_complex(views.take(i as int)),
                ),
            decreases es.len() - i,
        {
            let ghost before = self@;
            self.fold_expr(&es[i]);
            proof {
                assert(views.take(i + 1).drop_last() =~= views.take(i as int));
                assert(views.take(i + 1).last() == es@[i as int]@);
                assert(self@.dependencies =~= old(self)@.dependencies + exprs_requires(
                    views.take(i + 1),
                ));
            }
            i += 1;
        }
        assert(views.take(es.len() as int) =~= views);
    }
}

/// The expression `exports.name = value`.
pub fn create_runtime_export(name: String, value: Expr) -> (assignment: Expr)
    ensures
        assignment@ == export_assignment(name@, value@),
{
    let exports = Expr::Ident(String::from_str("exports"));
    assert(exports@ == ExprView::Ident("exports"@));
    let member = Expr::Member { obj: Box::new(exports), prop: name };
    assert(member@ == ExprView::Member { obj: Box::new(ExprView::Ident("exports"@)), prop: name@ });
    Expr::Assign { left: Box::new(member), right: Box::new(value) }
}

/// The call `require(request, is_default)`.
fn create_require_call(request: &String, is_default: bool) -> (call: Expr)
    ensures
        call@ == require_call(request@, is_default),
{
    let mut args: Vec<Expr> = Vec::new();
    args.push(Expr::Str(request.clone()));
    args.push(Expr::Bool(is_default));
    assert(args@[0]@ == ExprView::Str(request@));
    assert(args@[1]@ == ExprView::Bool(is_default));
    assert(expr_views(args@) =~= seq![ExprView::Str(request@), ExprView::Bool(is_default)]);
    let callee = Expr::Ident(String::from_str("require"));
    assert(callee@ == ExprView::Ident("require"@));
    Expr::Call { callee: Box::new(callee), args }
}

/// The object pattern property that binds `name`: `{ local }` where the
/// imported name is the local one, `{ imported: local }` otherwise.
fn create_named_prop(name: &NamedImport) -> (prop: ObjectPatProp)
    ensures
        prop@ == named_prop(name@),
{
    if same_text(name.import_name.as_str(), name.local.as_str()) {
        ObjectPatProp::Assign(name.local.clone())
    } else {
        ObjectPatProp::KeyValue { key: name.import_name.clone(), value: name.local.clone() }
    }
}

impl RuntimeImportMapper {
    /// Builds the statement that loads `dependency` at run time and binds the
    /// names it imports.
    pub fn create_runtime_require(&self, dependency: &Dependency) -> (item: ModuleItem)
        ensures
            item@ == runtime_require(dependency@),
    {
        match &dependency.import_type {
            ImportType::Namespace(local) => {
                let init = create_require_call(&dependency.request, false);
                ModuleItem::Stmt(Stmt::Var { name: Pat::Ident(local.clone()), init })
            },
            ImportType::Named(locals) => {
                let ghost names = named_import_views(locals@);
                let mut props: Vec<ObjectPatProp> = Vec::new();
                let mut i: usize = 0;
                assert(prop_views(props@) =~= named_props(names.take(0)));
                while i < locals.len()
                    invariant
                        i <= locals.len(),
                        names == named_import_views(locals@),
                        prop_views(props@) == named_props(names.take(i as int)),
                    decreases locals.len() - i,
                {
                    let ghost before = props@;
                    props.push(create_named_prop(&locals[i]));
                    proof {
                        assert(names.take(i + 1) =~= names.take(i as int).push(names[i as int]));
                        assert(prop_views(props@) =~= prop_views(before).push(
                            named_prop(names[i as int]),
                        ));
                        assert(named_props(names.take(i + 1)) =~= named_props(
                            names.take(i as int),
                        ).push(named_prop(names[i as int])));
                    }
                    i += 1;
                }
                assert(names.take(locals.len() as int) =~= names);
                let init = create_require_call(&dependency.request, false);
                ModuleItem::Stmt(Stmt::Var { name: Pat::Object(props), init })
            },
            ImportType::Default(local) => {
                let mut props: Vec<ObjectPatProp> = Vec::new();
                props.push(
                    ObjectPatProp::KeyValue {
                        key: String::from_str("default"),
                        value: local.clone(),
                    },
                );
                assert(prop_views(props@) =~= seq![
                    ObjectPatPropView::KeyValue { key: "default"@, value: local@ },
                ]);
                let init = create_require_call(&dependency.request, true);
                ModuleItem::Stmt(Stmt::Var { name: Pat::Object(props), init })
            },
            ImportType::SideEffect | ImportType::Require => {
                ModuleItem::Stmt(Stmt::Expr(create_require_call(&dependency.request, false)))
            },
        }
    }

    /// Records what `import specifiers from "src"` depends on: a side effect
    /// where it has no specifiers, else its namespace, default and named
    /// bindings.
    pub fn fold_import_decl(&mut self, src: &String, specifiers: &Vec<ImportSpecifier>)
        ensures
            final(self)@ == old(self)@.with_found(
                import_dependencies(src@, import_specifier_views(specifiers@)),
                false,
            ),
    {
        let ghost specs = import_specifier_views(specifiers@);
        if specifiers.len() == 0 {
            // No specifiers means a side effect import
            self.record(
                Dependency { request: src.clone(), import_type: ImportType::SideEffect },
            );
            return ;
        }
        let mut namespace: Option<String> = None;
        let mut named: Vec<NamedImport> = Vec::new();
        let mut default: Option<String> = None;
        let mut i: usize = 0;
        assert(specs.take(0) =~= Seq::empty());
        while i < specifiers.len()
            invariant
                i <= specifiers.len(),
                specs == import_specifier_views(specifiers@),
                name_view(namespace) == import_namespace(specs.take(i as int)),
                name_view(default) == import_default(specs.take(i as int)),
                named_import_views(named@) == import_named(specs.take(i as int)),
            decreases specifiers.len() - i,
        {
            proof {
                assert(specs.take(i + 1).drop_last() =~= specs.take(i as int));
                assert(specs.take(i + 1).last() == specifiers@[i as int]@);
            }
            match &specifiers[i] {
                ImportSpecifier::Default { local } => {
                    default = Some(local.clone());
                },
                ImportSpecifier::Named { local, imported } => {
                    let import_name = match imported {
                        Some(name) => name.clone(),
                        None => local.clone(),
                    };
                    named.push(NamedImport { local: local.clone(), import_name });
                    assert(named_import_views(named@) =~= import_named(specs.take(i + 1)));
                },
                ImportSpecifier::Namespace { local } => {
                    namespace = Some(local.clone());
                },
            }
            i += 1;
        }
        assert(specs.take(specifiers.len() as int) =~= specs);
        let ghost start = self@;
        if let Some(namespace_local) = namespace {
            self.record(
                Dependency {
                    request: src.clone(),
                    import_type: ImportType::Namespace(namespace_local),
                },
            );
        }
        if let Some(default_local) = default {
            self.record(
                Dependency { request: src.clone(), import_type: ImportType::Default(default_local) },
            );
        }
        if named.len() > 0 {
            self.record(Dependency { request: src.clone(), import_type: ImportType::Named(named) });
        }
        assert(self@.dependencies =~= start.dependencies + import_dependencies(src@, specs));
    }
}

impl RuntimeImportMapper {
    /// Walks the statement `stmt` and looks at every call in it.
    pub fn fold_stmt(&mut self, stmt: &Stmt)
        ensures
            final(self)@ == old(self)@.with_found(stmt_requires(stmt@), stmt_complex(stmt@)),
    {
        match stmt {
            Stmt::Var { init, .. } => self.fold_expr(init),
            Stmt::Expr(expr) => self.fold_expr(expr),
            Stmt::Other { parts, .. } => self.fold_exprs(parts),
        }
    }

    /// Walks the variables of an exported declaration: looks at the calls in
    /// their initialisers, and notes a variable that cannot be exported.
    fn fold_declarators(&mut self, decls: &Vec<VarDeclarator>)
        ensures
            final(self)@ == old(self)@.after_item(
                ModuleItemView::ExportDecl(DeclView::Var(declarator_views(decls@))),
            ),
    {
        let ghost views = declarator_views(decls@);
        let ghost start = self@;
        let mut i: usize = 0;
        assert(views.take(0) =~= Seq::empty());
        assert(self@.dependencies =~= start.dependencies + Seq::empty());
        while i < decls.len()
            invariant
                i <= decls.len(),
                views == declarator_views(decls@),
                self@ == (RuntimeImportMapperView {
                    dependencies: start.dependencies + declarators_requires(views.take(i as int)),
                    complex_require: start.complex_require || declarators_complex(
                        views.take(i as int),
                    ),
                    unsupported_export: start.unsupported_export || exists|j: int|
                        0 <= j < i && !declarator_supported(#[trigger] views[j]),
                    ..start
                }),
            decreases decls.len() - i,
        {
            let ghost before = self@;
            let ghost shorter = views.take(i as int);
            let ghost longer = views.take(i + 1);
            let d = &decls[i];
            assert(views[i as int] == d@);
            if d.name.is_none() || d.init.is_none() {
                self.unsupported_export = true;
            }
            match &d.init {
                Some(init) => {
                    self.fold_expr(init);
                },
                None => {
                    assert(self@.dependencies =~= before.dependencies + Seq::empty());
                },
            }
            proof {
                assert(longer.drop_last() =~= shorter);
                assert(longer.last() == views[i as int]);
                assert(self@.dependencies =~= start.dependencies + declarators_requires(longer));
                let here = d@.init is Some && expr_complex(d@.init->0);
                assert(declarators_complex(longer) == (declarators_complex(shorter) || here)) by {
                    if declarators_complex(shorter) {
                        let j = choose|j: int|
                            0 <= j < shorter.len() && (#[trigger] shorter[j]).init is Some
                                && expr_complex(shorter[j].init->0);
                        assert(longer[j] == shorter[j]);
                    }
                    if here {
                        assert(longer[i as int] == d@);
                    }
                    if declarators_complex(longer) {
                        let j = choose|j: int|
                            0 <= j < longer.len() && (#[trigger] longer[j]).init is Some
                                && expr_complex(longer[j].init->0);
                        if j < i {
                            assert(shorter[j] == longer[j]);
                        }
                    }
                }
            }
            i += 1;
        }
        assert(views.take(decls.len() as int) =~= views);
        if decls.len() == 0 {
            self.unsupported_export = true;
        }
        self.module_type = ModuleType::ESM;
    }

    /// Records what `export { specifiers } from "src"` depends on.
    fn fold_reexport(&mut self, src: &String, specifiers: &Vec<ExportSpecifier>)
        ensures
            final(self)@ == old(self)@.with_found(
                reexport_dependencies(src@, export_specifier_views(specifiers@)),
                false,
            ),
    {
        let ghost specs = export_specifier_views(specifiers@);
        let ghost start = self@;
        let mut named: Vec<NamedImport> = Vec::new();
        let mut i: usize = 0;
        assert(specs.take(0) =~= Seq::empty());
        assert(self@.dependencies =~= start.dependencies + Seq::empty());
        while i < specifiers.len()
            invariant
                i <= specifiers.len(),
                specs == export_specifier_views(specifiers@),
                self@ == start.with_found(reexport_namespaces(src@, specs.take(i as int)), false),
                named_import_views(named@) == reexport_named(specs.take(i as int)),
            decreases specifiers.len() - i,
        {
            proof {
                assert(specs.take(i + 1).drop_last() =~= specs.take(i as int));
                assert(specs.take(i + 1).last() == specifiers@[i as int]@);
            }
            let ghost before = self@;
            match &specifiers[i] {
                ExportSpecifier::Named { orig, exported } => {
                    let local = match exported {
                        Some(name) => name.clone(),
                        None => orig.clone(),
                    };
                    named.push(NamedImport { local, import_name: orig.clone() });
                    assert(named_import_views(named@) =~= reexport_named(specs.take(i + 1)));
                },
                ExportSpecifier::Namespace { name } => {
                    self.record(
                        Dependency {
                            request: src.clone(),
                            import_type: ImportType::Namespace(name.clone()),
                        },
                    );
                    assert(self@.dependencies =~= start.dependencies + reexport_namespaces(
                        src@,
                        specs.take(i + 1),
                    ));
                },
            }
            i += 1;
        }
        assert(specs.take(specifiers.len() as int) =~= specs);
        if named.len() > 0 {
            self.record(Dependency { request: src.clone(), import_type: ImportType::Named(named) });
        }
        assert(self@.dependencies =~= start.dependencies + reexport_dependencies(src@, specs));
    }

    /// Walks one item of a module: records the dependencies it declares,
    /// notes what cannot be lowered, and marks the module as ESM where the
    /// item is an import or an export.
    pub fn fold_item(&mut self, item: &ModuleItem)
        ensures
            final(self)@ == old(self)@.after_item(item@),
    {
        match item {
            ModuleItem::Import { src, specifiers } => {
                self.fold_import_decl(src, specifiers);
                self.module_type = ModuleType::ESM;
            },
            ModuleItem::ExportDefaultExpr(expr) => {
                self.fold_expr(expr);
                self.module_type = ModuleType::ESM;
            },
            ModuleItem::ExportDecl(Decl::Var(decls)) => {
                self.fold_declarators(decls);
            },
            ModuleItem::ExportDecl(Decl::Fn { function, .. }) => {
                self.fold_expr(function);
                self.module_type = ModuleType::ESM;
            },
            ModuleItem::ExportDecl(Decl::Other { parts, .. }) => {
                self.fold_exprs(parts);
                self.module_type = ModuleType::ESM;
            },
            ModuleItem::ExportNamed { specifiers, src } => {
                match src {
                    Some(src) => {
                        self.fold_reexport(src, specifiers);
                    },
                    None => {
                        let ghost specs = export_specifier_views(specifiers@);
                        let mut i: usize = 0;
                        while i < specifiers.len()
                            invariant
                                i <= specifiers.len(),
                                specs == export_specifier_views(specifiers@),
                                self@ == (RuntimeImportMapperView {
                                    unsupported_export: old(self)@.unsupported_export
                                        || exists|j: int|
                                        0 <= j < i && (#[trigger] specs[j]) is Namespace,
                                    ..old(self)@
                                }),
                            decreases specifiers.len() - i,
                        {
                            assert(specs[i as int] == specifiers@[i as int]@);
                            match &specifiers[i] {
                                ExportSpecifier::Namespace { .. } => {
                                    self.unsupported_export = true;
                                },
                                _ => {},
                            }
                            i += 1;
                        }
                        assert(self@.dependencies =~= old(self)@.dependencies + Seq::empty());
                    },
                }
                self.module_type = ModuleType::ESM;
            },
            ModuleItem::ExportAll { src } => {
                let name = strip_invalid_chars(src.as_str());
                self.record(
                    Dependency { request: src.clone(), import_type: ImportType::Namespace(name) },
                );
                self.module_type = ModuleType::ESM;
            },
            ModuleItem::Stmt(stmt) => {
                self.fold_stmt(stmt);
            },
        }
    }
}

/// Several assignments as one expression: the assignment itself where there
/// is one, else their sequence.
fn combine(exprs: Vec<Expr>) -> (expr: Expr)
    ensures
        expr@ == combined(expr_views(exprs@)),
{
    let mut exprs = exprs;
    let ghost all = exprs@;
    if exprs.len() == 1 {
        match exprs.pop() {
            Some(only) => {
                assert(expr_views(all)[0] == only@);
                only
            },
            None => Expr::Sequence(exprs),
        }
    } else {
        Expr::Sequence(exprs)
    }
}

/// The statement `expr;` as a module item.
fn create_expr_item(expr: Expr) -> (item: ModuleItem)
    ensures
        item@ == expr_item(expr@),
{
    ModuleItem::Stmt(Stmt::Expr(expr))
}

/// The assignments that export the variables `decls`, in order.
fn create_declarator_exports(decls: Vec<VarDeclarator>) -> (assignments: Vec<Expr>)
    requires
        forall|j: int| 0 <= j < decls.len() ==> declarator_supported(#[trigger] decls[j]@),
    ensures
        expr_views(assignments@) == declarator_assignments(declarator_views(decls@)),
{
    let ghost all = declarator_views(decls@);
    let mut assignments: Vec<Expr> = Vec::new();
    assert(expr_views(assignments@) =~= declarator_assignments(all.take(0)));
    for d in it: decls
        invariant
            it.seq() == decls@,
            all == declarator_views(decls@),
            forall|j: int| 0 <= j < decls.len() ==> declarator_supported(#[trigger] decls[j]@),
            expr_views(assignments@) == declarator_assignments(all.take(it.index())),
    {
        let ghost before = assignments@;
        let ghost n = it.index();
        assert(d == decls@[n]);
        assert(declarator_supported(d@));
        assert(all[n] == d@);
        let ghost dv = d@;
        match (d.name, d.init) {
            (Some(name), Some(init)) => {
                assignments.push(create_runtime_export(name, init));
            },
            _ => {},
        }
        proof {
            assert(all.take(n + 1) =~= all.take(n).push(dv));
            assert(expr_views(assignments@) =~= expr_views(before).push(
                declarator_assignment(dv),
            ));
            assert(declarator_assignments(all.take(n + 1)) =~= declarator_assignments(
                all.take(n),
            ).push(declarator_assignment(dv)));
        }
    }
    assert(all.take(decls@.len() as int) =~= all);
    assignments
}

/// The assignments that export what `specifiers` name, in order.
fn create_specifier_exports(specifiers: &Vec<ExportSpecifier>, reexport: bool) -> (assignments:
    Vec<Expr>)
    ensures
        expr_views(assignments@) == specifier_assignments(
            export_specifier_views(specifiers@),
            reexport,
        ),
{
    let ghost specs = export_specifier_views(specifiers@);
    let mut assignments: Vec<Expr> = Vec::new();
    let mut i: usize = 0;
    assert(expr_views(assignments@) =~= specifier_assignments(specs.take(0), reexport));
    while i < specifiers.len()
        invariant
            i <= specifiers.len(),
            specs == export_specifier_views(specifiers@),
            expr_views(assignments@) == specifier_assignments(specs.take(i as int), reexport),
        decreases specifiers.len() - i,
    {
        let ghost before = assignments@;
        assert(specs[i as int] == specifiers@[i as int]@);
        let assignment = match &specifiers[i] {
            ExportSpecifier::Named { orig, exported } => {
                let name = match exported {
                    Some(name) => name.clone(),
                    None => orig.clone(),
                };
                let value = if reexport {
                    Expr::Ident(name.clone())
                } else {
                    Expr::Ident(orig.clone())
                };
                create_runtime_export(name, value)
            },
            ExportSpecifier::Namespace { name } => create_runtime_export(
                name.clone(),
                Expr::Ident(name.clone()),
            ),
        };
        assert(assignment@ == specifier_assignment(specs[i as int], reexport));
        assignments.push(assignment);
        proof {
            assert(specs.take(i + 1) =~= specs.take(i as int).push(specs[i as int]));
            assert(expr_views(assignments@) =~= expr_views(before).push(
                specifier_assignment(specs[i as int], reexport),
            ));
            assert(specifier_assignments(specs.take(i + 1), reexport) =~= specifier_assignments(
                specs.take(i as int),
                reexport,
            ).push(specifier_assignment(specs[i as int], reexport)));
        }
        i += 1;
    }
    assert(specs.take(specifiers.len() as int) =~= specs);
    assignments
}

/// Appends to `out` what stands in the lowered body in place of `item`.
pub fn lower_item(item: ModuleItem, out: &mut Vec<ModuleItem>)
    requires
        !item_unsupported(item@),
    ensures
        item_views(final(out)@) == item_views(old(out)@) + item_lowered(item@),
{
    let ghost before = out@;
    match item {
        ModuleItem::Import { .. } => {
            assert(item_views(before) =~= item_views(before) + Seq::empty());
        },
        ModuleItem::ExportDefaultExpr(expr) => {
            let assignment = create_runtime_export(String::from_str("default"), expr);
            out.push(create_expr_item(assignment));
            assert(item_views(out@) =~= item_views(before) + item_lowered(item@));
        },
        ModuleItem::ExportDecl(Decl::Var(decls)) => {
            let ghost views = declarator_views(decls@);
            assert forall|j: int| 0 <= j < decls.len() implies declarator_supported(
                #[trigger] decls[j]@,
            ) by {
                assert(views[j] == decls[j]@);
            }
            let assignments = create_declarator_exports(decls);
            out.push(create_expr_item(combine(assignments)));
            assert(item_views(out@) =~= item_views(before) + item_lowered(item@));
        },
        ModuleItem::ExportDecl(Decl::Fn { ident, function }) => {
            out.push(create_expr_item(create_runtime_export(ident, function)));
            assert(item_views(out@) =~= item_views(before) + item_lowered(item@));
        },
        ModuleItem::ExportDecl(Decl::Other { node, parts }) => {
            out.push(ModuleItem::Stmt(Stmt::Other { node, parts }));
            assert(item_views(out@) =~= item_views(before) + item_lowered(item@));
        },
        ModuleItem::ExportNamed { specifiers, src } => {
            if specifiers.len() > 0 {
                let assignments = create_specifier_exports(&specifiers, src.is_some());
                out.push(create_expr_item(combine(assignments)));
                assert(item_views(out@) =~= item_views(before) + item_lowered(item@));
            } else {
                assert(item_views(before) =~= item_views(before) + Seq::empty());
            }
        },
        ModuleItem::ExportAll { src } => {
            let name = strip_invalid_chars(src.as_str());
            let mut args: Vec<Expr> = Vec::new();
            args.push(Expr::Ident(name));
            assert(args@[0]@ == ExprView::Ident(export_all_name(src@)));
            assert(expr_views(args@) =~= seq![ExprView::Ident(export_all_name(src@))]);
            let callee = Expr::Ident(String::from_str("__exportAll__"));
            assert(callee@ == ExprView::Ident("__exportAll__"@));
            out.push(create_expr_item(Expr::Call { callee: Box::new(callee), args }));
            assert(item_views(out@) =~= item_views(before) + item_lowered(item@));
        },
        ModuleItem::Stmt(stmt) => {
            out.push(ModuleItem::Stmt(stmt));
            assert(item_views(out@) =~= item_views(before) + item_lowered(item@));
        },
    }
}

impl RuntimeImportMapper {
    /// A walk that has seen nothing yet.
    pub fn new() -> (mapper: Self)
        ensures
            mapper@ == (RuntimeImportMapperView {
                dependencies: Seq::empty(),
                module_type: ModuleType::CommonJS,
                complex_require: false,
                unsupported_export: false,
            }),
    {
        let mapper = RuntimeImportMapper {
            dependencies: Vec::new(),
            // Default to CJS until import/export is detected
            module_type: ModuleType::CommonJS,
            complex_require: false,
            unsupported_export: false,
        };
        assert(mapper@.dependencies =~= Seq::empty());
        mapper
    }

    /// The bindings of the dependencies recorded so far, in order.
    fn create_preamble(&self) -> (items: Vec<ModuleItem>)
        ensures
            item_views(items@) == preamble(self@.dependencies),
    {
        let ghost deps = self@.dependencies;
        let mut items: Vec<ModuleItem> = Vec::new();
        let mut i: usize = 0;
        assert(deps.take(0) =~= Seq::empty());
        assert(item_views(items@) =~= Seq::empty());
        while i < self.dependencies.len()
            invariant
                i <= self.dependencies.len(),
                deps == self@.dependencies,
                item_views(items@) == preamble(deps.take(i as int)),
            decreases self.dependencies.len() - i,
        {
            let ghost before = items@;
            let dep = &self.dependencies[i];
            proof {
                assert(deps.take(i + 1).drop_last() =~= deps.take(i as int));
                assert(deps.take(i + 1).last() == dep@);
            }
            match dep.import_type {
                ImportType::Require => {},
                _ => {
                    items.push(self.create_runtime_require(dep));
                    assert(item_views(items@) =~= item_views(before).push(runtime_require(dep@)));
                },
            }
            i += 1;
        }
        assert(deps.take(self.dependencies.len() as int) =~= deps);
        items
    }

    /// Lowers `module`: walks its items, then puts the bindings of the
    /// dependencies recorded before the body with imports removed and exports
    /// rewritten. Fails where the walk has noted something that cannot be
    /// lowered, an unsupported export before a computed `require`.
    pub fn fold_module(&mut self, module: Module) -> (r: Result<Module, LowerError>)
        ensures
            final(self)@ == old(self)@.after_body(module@.body),
            final(self)@.unsupported_export ==> r == Err::<Module, LowerError>(
                LowerError::UnsupportedExport,
            ),
            !final(self)@.unsupported_export && final(self)@.complex_require ==> r == Err::<
                Module,
                LowerError,
            >(LowerError::ComplexRequire),
            !final(self)@.unsupported_export && !final(self)@.complex_require ==> r is Ok
                && r->Ok_0@.body == preamble(final(self)@.dependencies) + body_lowered(
                module@.body,
            ),
    {
        let ghost body = module@.body;
        let ghost start = self@;
        let mut i: usize = 0;
        proof {
            assert(body.take(0) =~= Seq::empty());
            assert(start.dependencies + body_dependencies(body.take(0)) =~= start.dependencies);
        }
        while i < module.body.len()
            invariant
                i <= module.body.len(),
                body == item_views(module.body@),
                self@ == start.after_body(body.take(i as int)),
            decreases module.body.len() - i,
        {
            self.fold_item(&module.body[i]);
            proof {
                assert(body[i as int] == module.body@[i as int]@);
                lemma_after_body_step(start, body, i as int);
            }
            i += 1;
        }
        assert(body.take(module.body.len() as int) =~= body);
        if self.unsupported_export {
            return Err(LowerError::UnsupportedExport);
        }
        if self.complex_require {
            return Err(LowerError::ComplexRequire);
        }
        let mut rest: Vec<ModuleItem> = Vec::new();
        let items = module.body;
        assert(item_views(rest@) =~= body_lowered(body.take(0)));
        for item in it: items
            invariant
                it.seq() == items@,
                body == item_views(items@),
                !body_unsupported(body),
                item_views(rest@) == body_lowered(body.take(it.index())),
        {
            let ghost n = it.index();
            proof {
                assert(item == items@[n]);
                assert(body[n] == item@);
                assert(body.take(n + 1).drop_last() =~= body.take(n));
                assert(body.take(n + 1).last() == body[n]);
            }
            lower_item(item, &mut rest);
        }
        assert(body.take(items@.len() as int) =~= body);
        let mut lowered_body = self.create_preamble();
        let ghost bindings = lowered_body@;
        let ghost tail = rest@;
        lowered_body.append(&mut rest);
        assert(item_views(lowered_body@) =~= item_views(bindings) + item_views(tail));
        Ok(Module { body: lowered_body })
    }
}

/// Lowers the import and export syntax of `module` to calls against the
/// runtime loader, and finds what the module depends on.
///
/// On success returns the lowered module, which holds no import or export,
/// the dependencies in source order, and the kind of the module: ESM where the
/// source holds an import or an export, CommonJS otherwise. Fails on an export
/// that cannot be lowered and on a `require` of something computed.
pub fn runtime_imports(module: Module) -> (r: Result<
    (Module, Vec<Dependency>, ModuleType),
    LowerError,
>)
    ensures
        match lowered(module@) {
            Ok(expected) => r is Ok && r->Ok_0.0@ == expected.module && dependency_views(
                r->Ok_0.1@,
            ) == expected.dependencies && r->Ok_0.2 == expected.module_type,
            Err(error) => r == Err::<(Module, Vec<Dependency>, ModuleType), LowerError>(error),
        },
{
    let mut import_mapper = RuntimeImportMapper::new();
    let ghost body = module@.body;
    assert(Seq::<DependencyView>::empty() + body_dependencies(body) =~= body_dependencies(body));
    match import_mapper.fold_module(module) {
        Ok(transformed_module) => Ok(
            (transformed_module, import_mapper.dependencies, import_mapper.module_type),
        ),
        Err(error) => Err(error),
    }
}

} // verus!
