//! The module syntax that the lowering reads and builds.
//!
//! A module is a list of items. Import and export declarations are modelled in
//! full; of statements and expressions the model keeps the forms that the
//! lowering builds, and every call expression, so that `require` calls can be
//! found. Any other syntax is an `Other` node that carries the number under
//! which the caller keeps the syntax itself, and the expressions nested in it.

use vstd::prelude::*;

verus! {

/// An expression.
#[derive(Debug, PartialEq, Eq)]
pub enum Expr {
    /// A reference to a binding: `name`.
    Ident(String),
    /// A string literal.
    Str(String),
    /// `true` or `false`.
    Bool(bool),
    /// `callee(args...)`.
    Call { callee: Box<Expr>, args: Vec<Expr> },
    /// `obj.prop`.
    Member { obj: Box<Expr>, prop: String },
    /// `left = right`.
    Assign { left: Box<Expr>, right: Box<Expr> },
    /// `a, b, c`.
    Sequence(Vec<Expr>),
    /// Any other expression, with the expressions nested in it in source order.
    Other { node: usize, parts: Vec<Expr> },
}

pub enum ExprView {
    Ident(Seq<char>),
    Str(Seq<char>),
    Bool(bool),
    Call { callee: Box<ExprView>, args: Seq<ExprView> },
    Member { obj: Box<ExprView>, prop: Seq<char> },
    Assign { left: Box<ExprView>, right: Box<ExprView> },
    Sequence(Seq<ExprView>),
    Other { node: usize, parts: Seq<ExprView> },
}

/// The view of the expression at `i` in `es`, for `i` in range.
pub open spec fn expr_view_at(es: Seq<Expr>, i: int) -> ExprView
    recommends
        0 <= i < es.len(),
    decreases es, 0int,
    when 0 <= i < es.len()
{
    expr_view(es[i])
}

/// The views of a list of expressions, in order.
pub open spec fn expr_views(es: Seq<Expr>) -> Seq<ExprView>
    decreases es, 1int,
{
    Seq::new(es.len(), |i: int| expr_view_at(es, i))
}

/// The mathematical content of an expression.
pub open spec fn expr_view(e: Expr) -> ExprView
    decreases e, 0int,
{
    match e {
        Expr::Ident(name) => ExprView::Ident(name@),
        Expr::Str(value) => ExprView::Str(value@),
        Expr::Bool(value) => ExprView::Bool(value),
        Expr::Call { callee, args } => ExprView::Call {
            callee: Box::new(expr_view(*callee)),
            args: expr_views(args@),
        },
        Expr::Member { obj, prop } => ExprView::Member {
            obj: Box::new(expr_view(*obj)),
            prop: prop@,
        },
        Expr::Assign { left, right } => ExprView::Assign {
            left: Box::new(expr_view(*left)),
            right: Box::new(expr_view(*right)),
        },
        Expr::Sequence(exprs) => ExprView::Sequence(expr_views(exprs@)),
        Expr::Other { node, parts } => ExprView::Other { node, parts: expr_views(parts@) },
    }
}

impl View for Expr {
    type V = ExprView;

    open spec fn view(&self) -> ExprView {
        expr_view(*self)
    }
}

/// One property of an object pattern.
#[derive(Clone, Debug, PartialEq, Eq)]
pub enum ObjectPatProp {
    /// `{ name }`.
    Assign(String),
    /// `{ key: value }`.
    KeyValue { key: String, value: String },
}

pub enum ObjectPatPropView {
    Assign(Seq<char>),
    KeyValue { key: Seq<char>, value: Seq<char> },
}

impl View for ObjectPatProp {
    type V = ObjectPatPropView;

    open spec fn view(&self) -> ObjectPatPropView {
        match self {
            ObjectPatProp::Assign(name) => ObjectPatPropView::Assign(name@),
            ObjectPatProp::KeyValue { key, value } => ObjectPatPropView::KeyValue {
                key: key@,
                value: value@,
            },
        }
    }
}

/// The views of a list of properties, in order.
pub open spec fn prop_views(props: Seq<ObjectPatProp>) -> Seq<ObjectPatPropView> {
    props.map_values(|p: ObjectPatProp| p@)
}

/// The left side of a variable declaration.
#[derive(Clone, Debug, PartialEq, Eq)]
pub enum Pat {
    /// `name`.
    Ident(String),
    /// `{ props... }`.
    Object(Vec<ObjectPatProp>),
}

pub enum PatView {
    Ident(Seq<char>),
    Object(Seq<ObjectPatPropView>),
}

impl View for Pat {
    type V = PatView;

    open spec fn view(&self) -> PatView {
        match self {
            Pat::Ident(name) => PatView::Ident(name@),
            Pat::Object(props) => PatView::Object(prop_views(props@)),
        }
    }
}

/// A statement.
#[derive(Debug, PartialEq, Eq)]
pub enum Stmt {
    /// `var name = init;`.
    Var { name: Pat, init: Expr },
    /// `expr;`.
    Expr(Expr),
    /// Any other statement, with the expressions nested in it in source order.
    Other { node: usize, parts: Vec<Expr> },
}

pub enum StmtView {
    Var { name: PatView, init: ExprView },
    Expr(ExprView),
    Other { node: usize, parts: Seq<ExprView> },
}

impl View for Stmt {
    type V = StmtView;

    open spec fn view(&self) -> StmtView {
        match self {
            Stmt::Var { name, init } => StmtView::Var { name: name@, init: init@ },
            Stmt::Expr(expr) => StmtView::Expr(expr@),
            Stmt::Other { node, parts } => StmtView::Other {
                node: *node,
                parts: expr_views(parts@),
            },
        }
    }
}

/// The view of an optional name.
pub open spec fn name_view(name: Option<String>) -> Option<Seq<char>> {
    match name {
        Some(name) => Some(name@),
        None => None,
    }
}

/// One binding of an import declaration.
#[derive(Clone, Debug, PartialEq, Eq)]
pub enum ImportSpecifier {
    /// `import local from ...`.
    Default { local: String },
    /// `import { imported as local } from ...`; `imported` is absent where it
    /// is the same name as `local`.
    Named { local: String, imported: Option<String> },
    /// `import * as local from ...`.
    Namespace { local: String },
}

pub enum ImportSpecifierView {
    Default { local: Seq<char> },
    Named { local: Seq<char>, imported: Option<Seq<char>> },
    Namespace { local: Seq<char> },
}

impl View for ImportSpecifier {
    type V = ImportSpecifierView;

    open spec fn view(&self) -> ImportSpecifierView {
        match self {
            ImportSpecifier::Default { local } => ImportSpecifierView::Default { local: local@ },
            ImportSpecifier::Named { local, imported } => ImportSpecifierView::Named {
                local: local@,
                imported: name_view(*imported),
            },
            ImportSpecifier::Namespace { local } => ImportSpecifierView::Namespace {
                local: local@,
            },
        }
    }
}

/// The views of a list of import specifiers, in order.
pub open spec fn import_specifier_views(specs: Seq<ImportSpecifier>) -> Seq<ImportSpecifierView> {
    specs.map_values(|s: ImportSpecifier| s@)
}

/// One binding of an export list.
#[derive(Clone, Debug, PartialEq, Eq)]
pub enum ExportSpecifier {
    /// `export { orig as exported }`; `exported` is absent where it is the
    /// same name as `orig`.
    Named { orig: String, exported: Option<String> },
    /// `export * as name from ...`.
    Namespace { name: String },
}

pub enum ExportSpecifierView {
    Named { orig: Seq<char>, exported: Option<Seq<char>> },
    Namespace { name: Seq<char> },
}

impl View for ExportSpecifier {
    type V = ExportSpecifierView;

    open spec fn view(&self) -> ExportSpecifierView {
        match self {
            ExportSpecifier::Named { orig, exported } => ExportSpecifierView::Named {
                orig: orig@,
                exported: name_view(*exported),
            },
            ExportSpecifier::Namespace { name } => ExportSpecifierView::Namespace { name: name@ },
        }
    }
}

/// The views of a list of export specifiers, in order.
pub open spec fn export_specifier_views(specs: Seq<ExportSpecifier>) -> Seq<ExportSpecifierView> {
    specs.map_values(|s: ExportSpecifier| s@)
}

/// One variable of an exported declaration: `name = init`. The name is absent
/// where the declarator binds a pattern, the initialiser where it has none.
#[derive(Debug, PartialEq, Eq)]
pub struct VarDeclarator {
    pub name: Option<String>,
    pub init: Option<Expr>,
}

pub struct VarDeclaratorView {
    pub name: Option<Seq<char>>,
    pub init: Option<ExprView>,
}

impl View for VarDeclarator {
    type V = VarDeclaratorView;

    open spec fn view(&self) -> VarDeclaratorView {
        VarDeclaratorView {
            name: name_view(self.name),
            init: match self.init {
                Some(init) => Some(init@),
                None => None,
            },
        }
    }
}

/// The views of a list of declarators, in order.
pub open spec fn declarator_views(decls: Seq<VarDeclarator>) -> Seq<VarDeclaratorView> {
    decls.map_values(|d: VarDeclarator| d@)
}

/// An exported declaration.
#[derive(Debug, PartialEq, Eq)]
pub enum Decl {
    /// `export const a = 1, b = 2`.
    Var(Vec<VarDeclarator>),
    /// `export function ident(...) {...}`, with the function as an expression.
    Fn { ident: String, function: Expr },
    /// Any other declaration, which stays in the module without being
    /// exported, with the expressions nested in it in source order.
    Other { node: usize, parts: Vec<Expr> },
}

pub enum DeclView {
    Var(Seq<VarDeclaratorView>),
    Fn { ident: Seq<char>, function: ExprView },
    Other { node: usize, parts: Seq<ExprView> },
}

impl View for Decl {
    type V = DeclView;

    open spec fn view(&self) -> DeclView {
        match self {
            Decl::Var(decls) => DeclView::Var(declarator_views(decls@)),
            Decl::Fn { ident, function } => DeclView::Fn { ident: ident@, function: function@ },
            Decl::Other { node, parts } => DeclView::Other {
                node: *node,
                parts: expr_views(parts@),
            },
        }
    }
}

/// One item of a module's body.
#[derive(Debug, PartialEq, Eq)]
pub enum ModuleItem {
    /// `import specifiers from "src"`.
    Import { src: String, specifiers: Vec<ImportSpecifier> },
    /// `export default expr`.
    ExportDefaultExpr(Expr),
    /// `export` before a declaration.
    ExportDecl(Decl),
    /// `export { specifiers }`, with `from "src"` where `src` is present.
    ExportNamed { specifiers: Vec<ExportSpecifier>, src: Option<String> },
    /// `export * from "src"`.
    ExportAll { src: String },
    /// A statement.
    Stmt(Stmt),
}

pub enum ModuleItemView {
    Import { src: Seq<char>, specifiers: Seq<ImportSpecifierView> },
    ExportDefaultExpr(ExprView),
    ExportDecl(DeclView),
    ExportNamed { specifiers: Seq<ExportSpecifierView>, src: Option<Seq<char>> },
    ExportAll { src: Seq<char> },
    Stmt(StmtView),
}

impl View for ModuleItem {
    type V = ModuleItemView;

    open spec fn view(&self) -> ModuleItemView {
        match self {
            ModuleItem::Import { src, specifiers } => ModuleItemView::Import {
                src: src@,
                specifiers: import_specifier_views(specifiers@),
            },
            ModuleItem::ExportDefaultExpr(expr) => ModuleItemView::ExportDefaultExpr(expr@),
            ModuleItem::ExportDecl(decl) => ModuleItemView::ExportDecl(decl@),
            ModuleItem::ExportNamed { specifiers, src } => ModuleItemView::ExportNamed {
                specifiers: export_specifier_views(specifiers@),
                src: name_view(*src),
            },
            ModuleItem::ExportAll { src } => ModuleItemView::ExportAll { src: src@ },
            ModuleItem::Stmt(stmt) => ModuleItemView::Stmt(stmt@),
        }
    }
}

/// The views of a list of items, in order.
pub open spec fn item_views(items: Seq<ModuleItem>) -> Seq<ModuleItemView> {
    items.map_values(|item: ModuleItem| item@)
}

/// A parsed module.
#[derive(Debug, PartialEq, Eq)]
pub struct Module {
    pub body: Vec<ModuleItem>,
}

pub struct ModuleView {
    pub body: Seq<ModuleItemView>,
}

impl View for Module {
    type V = ModuleView;

    open spec fn view(&self) -> ModuleView {
        ModuleView { body: item_views(self.body@) }
    }
}

} // verus!
