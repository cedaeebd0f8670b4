//! What holds of every lowered module.

use crate::ast::{
    DeclView, ExportSpecifierView, ExprView, ModuleItemView, ModuleView, StmtView,
    VarDeclaratorView,
};
use crate::js_module::{DependencyView, ModuleType};
use crate::transforms::runtime_imports::{
    body_complex, body_dependencies, body_lowered, body_unsupported, call_complex, call_requires,
    combined, declarator_assignment, declarator_assignments, declarator_supported,
    declarators_complex, declarators_requires, export_all_name, export_assignment, expr_complex,
    expr_requires, exprs_complex, exprs_requires, is_binding, is_module_decl, is_require,
    item_complex, item_dependencies, item_lowered, item_unsupported, lowered, module_kind,
    preamble, reexport_namespaces, require_call, require_sites, runtime_require,
    specifier_assignment, specifier_assignments, LowerError, LoweredView,
};
use vstd::prelude::*;

verus! {

/// Whether every dependency of `deps` is a `require` call of the source.
pub open spec fn all_sites(deps: Seq<DependencyView>) -> bool {
    forall|k: int| 0 <= k < deps.len() ==> !is_binding(#[trigger] deps[k])
}

/// Whether every dependency of `deps` is bound at the top of the module.
pub open spec fn all_bound(deps: Seq<DependencyView>) -> bool {
    forall|k: int| 0 <= k < deps.len() ==> is_binding(#[trigger] deps[k])
}

/// Whether every item of `items` is a statement.
pub open spec fn all_statements(items: Seq<ModuleItemView>) -> bool {
    forall|k: int| 0 <= k < items.len() ==> (#[trigger] items[k]) is Stmt
}

/// The dependencies of `deps` that are bound at the top of the module, in
/// order.
pub open spec fn bound_dependencies(deps: Seq<DependencyView>) -> Seq<DependencyView>
    decreases deps.len(),
{
    if deps.len() == 0 {
        Seq::empty()
    } else if is_binding(deps.last()) {
        bound_dependencies(deps.drop_last()).push(deps.last())
    } else {
        bound_dependencies(deps.drop_last())
    }
}

// ---------------------------------------------------------------------------
// Lists of dependencies
// ---------------------------------------------------------------------------

proof fn lemma_only_sites(deps: Seq<DependencyView>)
    requires
        all_sites(deps),
    ensures
        require_sites(deps) == deps,
        preamble(deps) == Seq::<ModuleItemView>::empty(),
    decreases deps.len(),
{
    if deps.len() > 0 {
        lemma_only_sites(deps.drop_last());
        assert(deps.drop_last().push(deps.last()) =~= deps);
    }
}

proof fn lemma_only_bound(deps: Seq<DependencyView>)
    requires
        all_bound(deps),
    ensures
        require_sites(deps) == Seq::<DependencyView>::empty(),
    decreases deps.len(),
{
    if deps.len() > 0 {
        lemma_only_bound(deps.drop_last());
    }
}

proof fn lemma_require_sites_concat(a: Seq<DependencyView>, b: Seq<DependencyView>)
    ensures
        require_sites(a + b) == require_sites(a) + require_sites(b),
        all_sites(require_sites(a)),
    decreases b.len(), a.len(),
{
    if b.len() == 0 {
        assert(a + b =~= a);
        assert(require_sites(a) + require_sites(b) =~= require_sites(a));
        if a.len() > 0 {
            lemma_require_sites_concat(a.drop_last(), b);
            assert(a.drop_last() + b =~= a.drop_last());
        }
    } else {
        lemma_require_sites_concat(a, b.drop_last());
        assert((a + b).drop_last() =~= a + b.drop_last());
        assert((a + b).last() == b.last());
        assert(require_sites(a) + require_sites(b.drop_last()).push(b.last()) =~= (require_sites(a)
            + require_sites(b.drop_last())).push(b.last()));
    }
}

/// The bindings at the top of a lowered module are those of the bound
/// dependencies, one for each, in order.
pub proof fn lemma_preamble_of_bound(deps: Seq<DependencyView>)
    ensures
        preamble(deps) == bound_dependencies(deps).map_values(
            |d: DependencyView| runtime_require(d),
        ),
        bound_dependencies(deps).len() + require_sites(deps).len() == deps.len(),
        all_statements(preamble(deps)),
        all_bound(bound_dependencies(deps)),
    decreases deps.len(),
{
    if deps.len() == 0 {
        assert(preamble(deps) =~= bound_dependencies(deps).map_values(
            |d: DependencyView| runtime_require(d),
        ));
    } else {
        lemma_preamble_of_bound(deps.drop_last());
        assert(preamble(deps) =~= bound_dependencies(deps).map_values(
            |d: DependencyView| runtime_require(d),
        ));
    }
}

// ---------------------------------------------------------------------------
// `require` calls in expressions
// ---------------------------------------------------------------------------

proof fn lemma_all_sites_concat(a: Seq<DependencyView>, b: Seq<DependencyView>)
    requires
        all_sites(a),
        all_sites(b),
    ensures
        all_sites(a + b),
{
    assert forall|k: int| 0 <= k < (a + b).len() implies !is_binding(#[trigger] (a + b)[k]) by {
        if k < a.len() {
            assert((a + b)[k] == a[k]);
        } else {
            assert((a + b)[k] == b[k - a.len()]);
        }
    }
}

proof fn lemma_expr_requires_are_sites(e: ExprView)
    ensures
        all_sites(expr_requires(e)),
    decreases e,
{
    match e {
        ExprView::Ident(_) | ExprView::Str(_) | ExprView::Bool(_) => {},
        ExprView::Call { callee, args } => {
            lemma_expr_requires_are_sites(*callee);
            lemma_exprs_requires_are_sites(args);
            lemma_all_sites_concat(call_requires(*callee, args), expr_requires(*callee));
            lemma_all_sites_concat(
                call_requires(*callee, args) + expr_requires(*callee),
                exprs_requires(args),
            );
        },
        ExprView::Member { obj, .. } => {
            lemma_expr_requires_are_sites(*obj);
        },
        ExprView::Assign { left, right } => {
            lemma_expr_requires_are_sites(*left);
            lemma_expr_requires_are_sites(*right);
            lemma_all_sites_concat(expr_requires(*left), expr_requires(*right));
        },
        ExprView::Sequence(exprs) => {
            lemma_exprs_requires_are_sites(exprs);
        },
        ExprView::Other { parts, .. } => {
            lemma_exprs_requires_are_sites(parts);
        },
    }
}

proof fn lemma_exprs_requires_are_sites(es: Seq<ExprView>)
    ensures
        all_sites(exprs_requires(es)),
    decreases es,
{
    if es.len() > 0 {
        lemma_exprs_requires_are_sites(es.drop_last());
        lemma_expr_requires_are_sites(es.last());
        lemma_all_sites_concat(exprs_requires(es.drop_last()), expr_requires(es.last()));
    }
}

proof fn lemma_declarators_requires_are_sites(decls: Seq<VarDeclaratorView>)
    ensures
        all_sites(declarators_requires(decls)),
    decreases decls.len(),
{
    if decls.len() > 0 {
        lemma_declarators_requires_are_sites(decls.drop_last());
        let found = match decls.last().init {
            Some(init) => expr_requires(init),
            None => Seq::empty(),
        };
        if decls.last().init is Some {
            lemma_expr_requires_are_sites(decls.last().init->0);
        }
        lemma_all_sites_concat(declarators_requires(decls.drop_last()), found);
    }
}

/// An export assignment holds the `require` calls of the value it assigns.
proof fn lemma_export_assignment(name: Seq<char>, value: ExprView)
    ensures
        expr_requires(export_assignment(name, value)) == expr_requires(value),
        expr_complex(export_assignment(name, value)) == expr_complex(value),
{
    reveal_with_fuel(expr_requires, 3);
    reveal_with_fuel(expr_complex, 3);
    assert(Seq::<DependencyView>::empty() + expr_requires(value) =~= expr_requires(value));
}

proof fn lemma_declarator_assignments(decls: Seq<VarDeclaratorView>)
    requires
        forall|j: int| 0 <= j < decls.len() ==> declarator_supported(#[trigger] decls[j]),
    ensures
        exprs_requires(declarator_assignments(decls)) == declarators_requires(decls),
        exprs_complex(declarator_assignments(decls)) == declarators_complex(decls),
    decreases decls.len(),
{
    let assignments = declarator_assignments(decls);
    if decls.len() > 0 {
        let shorter = decls.drop_last();
        lemma_declarator_assignments(shorter);
        assert(assignments.drop_last() =~= declarator_assignments(shorter));
        assert(assignments.last() == declarator_assignment(decls.last()));
        assert(declarator_supported(decls[decls.len() - 1]));
        lemma_export_assignment(decls.last().name->0, decls.last().init->0);
        let here = expr_complex(decls.last().init->0);
        assert(declarators_complex(decls) == (declarators_complex(shorter) || here)) by {
            if declarators_complex(shorter) {
                let j = choose|j: int|
                    0 <= j < shorter.len() && (#[trigger] shorter[j]).init is Some && expr_complex(
                        shorter[j].init->0,
                    );
                assert(decls[j] == shorter[j]);
            }
            if here {
                assert(decls[decls.len() - 1].init is Some);
            }
            if declarators_complex(decls) {
                let j = choose|j: int|
                    0 <= j < decls.len() && (#[trigger] decls[j]).init is Some && expr_complex(
                        decls[j].init->0,
                    );
                if j < decls.len() - 1 {
                    assert(shorter[j] == decls[j]);
                }
            }
        }
    } else {
        assert(!declarators_complex(decls));
    }
}

proof fn lemma_specifier_assignments(specs: Seq<ExportSpecifierView>, reexport: bool)
    ensures
        exprs_requires(specifier_assignments(specs, reexport)) == Seq::<DependencyView>::empty(),
        !exprs_complex(specifier_assignments(specs, reexport)),
    decreases specs.len(),
{
    let assignments = specifier_assignments(specs, reexport);
    if specs.len() > 0 {
        lemma_specifier_assignments(specs.drop_last(), reexport);
        assert(assignments.drop_last() =~= specifier_assignments(specs.drop_last(), reexport));
        assert(assignments.last() == specifier_assignment(specs.last(), reexport));
        match specs.last() {
            ExportSpecifierView::Named { orig, exported } => {
                let name = match exported {
                    Some(name) => name,
                    None => orig,
                };
                lemma_export_assignment(name, ExprView::Ident(name));
                lemma_export_assignment(name, ExprView::Ident(orig));
            },
            ExportSpecifierView::Namespace { name } => {
                lemma_export_assignment(name, ExprView::Ident(name));
            },
        }
        assert(Seq::<DependencyView>::empty() + Seq::<DependencyView>::empty()
            =~= Seq::<DependencyView>::empty());
    }
}

/// A combined expression holds the `require` calls of its parts.
proof fn lemma_combined(exprs: Seq<ExprView>)
    ensures
        expr_requires(combined(exprs)) == exprs_requires(exprs),
        expr_complex(combined(exprs)) == exprs_complex(exprs),
{
    if exprs.len() == 1 {
        assert(exprs.drop_last() =~= Seq::<ExprView>::empty());
        reveal_with_fuel(exprs_requires, 2);
        reveal_with_fuel(exprs_complex, 2);
        assert(Seq::<DependencyView>::empty() + expr_requires(exprs[0]) =~= expr_requires(
            exprs[0],
        ));
    }
}

/// The call that loads a dependency is no `require` call of the source: it
/// has two arguments.
proof fn lemma_require_call(request: Seq<char>, is_default: bool)
    ensures
        expr_requires(require_call(request, is_default)) == Seq::<DependencyView>::empty(),
        !expr_complex(require_call(request, is_default)),
{
    let args = seq![ExprView::Str(request), ExprView::Bool(is_default)];
    reveal_with_fuel(expr_requires, 2);
    reveal_with_fuel(expr_complex, 2);
    reveal_with_fuel(exprs_requires, 3);
    reveal_with_fuel(exprs_complex, 3);
    assert(args.drop_last() =~= seq![ExprView::Str(request)]);
    assert(args.drop_last().drop_last() =~= Seq::<ExprView>::empty());
    assert(exprs_requires(args) =~= Seq::<DependencyView>::empty());
    assert(expr_requires(require_call(request, is_default)) =~= Seq::<DependencyView>::empty());
    assert(!exprs_complex(args.drop_last()));
    assert(!expr_complex(args.last()));
    assert(!exprs_complex(args));
    assert(!call_complex(ExprView::Ident("require"@), args));
}

// ---------------------------------------------------------------------------
// Items
// ---------------------------------------------------------------------------

proof fn lemma_binding_item(dep: DependencyView)
    ensures
        item_dependencies(runtime_require(dep)) == Seq::<DependencyView>::empty(),
        !item_complex(runtime_require(dep)),
        runtime_require(dep) is Stmt,
{
    lemma_require_call(dep.request, false);
    lemma_require_call(dep.request, true);
}

proof fn lemma_import_dependencies_bound(item: ModuleItemView)
    requires
        item is Import || item is ExportNamed || item is ExportAll,
    ensures
        all_bound(item_dependencies(item)),
{
    match item {
        ModuleItemView::ExportNamed { specifiers, src } => {
            if src is Some {
                lemma_reexport_namespaces_bound(src->0, specifiers);
            }
        },
        _ => {},
    }
}

proof fn lemma_reexport_namespaces_bound(src: Seq<char>, specs: Seq<ExportSpecifierView>)
    ensures
        all_bound(reexport_namespaces(src, specs)),
    decreases specs.len(),
{
    if specs.len() > 0 {
        lemma_reexport_namespaces_bound(src, specs.drop_last());
    }
}

/// What one item lowers to holds exactly the `require` calls of the item, and
/// nothing that cannot be lowered again.
proof fn lemma_lowered_item(item: ModuleItemView)
    requires
        !item_unsupported(item),
        !item_complex(item),
    ensures
        body_dependencies(item_lowered(item)) == require_sites(item_dependencies(item)),
        !body_complex(item_lowered(item)),
        all_statements(item_lowered(item)),
{
    reveal_with_fuel(body_dependencies, 2);
    let out = item_lowered(item);
    let deps = item_dependencies(item);
    if out.len() == 1 {
        assert(out.drop_last() =~= Seq::<ModuleItemView>::empty());
        assert(body_dependencies(out) =~= item_dependencies(out[0]));
    }
    match item {
        ModuleItemView::Import { .. } => {
            lemma_import_dependencies_bound(item);
            lemma_only_bound(deps);
        },
        ModuleItemView::ExportDefaultExpr(expr) => {
            lemma_export_assignment("default"@, expr);
            lemma_expr_requires_are_sites(expr);
            lemma_only_sites(deps);
        },
        ModuleItemView::ExportDecl(DeclView::Var(decls)) => {
            assert forall|j: int| 0 <= j < decls.len() implies declarator_supported(
                #[trigger] decls[j],
            ) by {}
            lemma_declarator_assignments(decls);
            lemma_combined(declarator_assignments(decls));
            lemma_declarators_requires_are_sites(decls);
            lemma_only_sites(deps);
        },
        ModuleItemView::ExportDecl(DeclView::Fn { ident, function }) => {
            lemma_export_assignment(ident, function);
            lemma_expr_requires_are_sites(function);
            lemma_only_sites(deps);
        },
        ModuleItemView::ExportDecl(DeclView::Other { parts, .. }) => {
            lemma_exprs_requires_are_sites(parts);
            lemma_only_sites(deps);
        },
        ModuleItemView::ExportNamed { specifiers, src } => {
            lemma_import_dependencies_bound(item);
            lemma_only_bound(deps);
            lemma_specifier_assignments(specifiers, src is Some);
            lemma_combined(specifier_assignments(specifiers, src is Some));
        },
        ModuleItemView::ExportAll { src } => {
            lemma_import_dependencies_bound(item);
            lemma_only_bound(deps);
            lemma_export_all_call(export_all_name(src));
        },
        ModuleItemView::Stmt(stmt) => {
            match stmt {
                StmtView::Var { init, .. } => lemma_expr_requires_are_sites(init),
                StmtView::Expr(expr) => lemma_expr_requires_are_sites(expr),
                StmtView::Other { parts, .. } => lemma_exprs_requires_are_sites(parts),
            }
            lemma_only_sites(deps);
        },
    }
}

/// The call that re-exports a namespace is no `require` call.
proof fn lemma_export_all_call(name: Seq<char>)
    ensures
        expr_requires(
            ExprView::Call {
                callee: Box::new(ExprView::Ident("__exportAll__"@)),
                args: seq![ExprView::Ident(name)],
            },
        ) == Seq::<DependencyView>::empty(),
        !expr_complex(
            ExprView::Call {
                callee: Box::new(ExprView::Ident("__exportAll__"@)),
                args: seq![ExprView::Ident(name)],
            },
        ),
{
    reveal_strlit("__exportAll__");
    reveal_strlit("require");
    let args = seq![ExprView::Ident(name)];
    assert("__exportAll__"@.len() != "require"@.len());
    assert(!is_require(ExprView::Ident("__exportAll__"@)));
    reveal_with_fuel(expr_requires, 2);
    reveal_with_fuel(expr_complex, 2);
    reveal_with_fuel(exprs_requires, 2);
    reveal_with_fuel(exprs_complex, 2);
    assert(args.drop_last() =~= Seq::<ExprView>::empty());
    assert(exprs_requires(args) =~= Seq::<DependencyView>::empty());
    assert(expr_requires(
        ExprView::Call { callee: Box::new(ExprView::Ident("__exportAll__"@)), args },
    ) =~= Seq::<DependencyView>::empty());
    assert(!exprs_complex(args.drop_last()));
    assert(!expr_complex(args.last()));
    assert(!exprs_complex(args));
}

// ---------------------------------------------------------------------------
// Bodies
// ---------------------------------------------------------------------------

proof fn lemma_body_concat(a: Seq<ModuleItemView>, b: Seq<ModuleItemView>)
    ensures
        body_dependencies(a + b) == body_dependencies(a) + body_dependencies(b),
        body_complex(a + b) == (body_complex(a) || body_complex(b)),
        all_statements(a) && all_statements(b) ==> all_statements(a + b),
    decreases b.len(),
{
    if b.len() == 0 {
        assert(a + b =~= a);
        assert(body_dependencies(a) + body_dependencies(b) =~= body_dependencies(a));
    } else {
        lemma_body_concat(a, b.drop_last());
        assert((a + b).drop_last() =~= a + b.drop_last());
        assert((a + b).last() == b.last());
        assert(body_dependencies(a) + (body_dependencies(b.drop_last()) + item_dependencies(
            b.last(),
        )) =~= (body_dependencies(a) + body_dependencies(b.drop_last())) + item_dependencies(
            b.last(),
        ));
    }
    assert(body_complex(a + b) == (body_complex(a) || body_complex(b))) by {
        if body_complex(a) {
            let j = choose|j: int| 0 <= j < a.len() && item_complex(#[trigger] a[j]);
            assert((a + b)[j] == a[j]);
        }
        if body_complex(b) {
            let j = choose|j: int| 0 <= j < b.len() && item_complex(#[trigger] b[j]);
            assert((a + b)[a.len() + j] == b[j]);
        }
        if body_complex(a + b) {
            let j = choose|j: int| 0 <= j < (a + b).len() && item_complex(#[trigger] (a + b)[j]);
            if j < a.len() {
                assert(a[j] == (a + b)[j]);
            } else {
                assert(b[j - a.len()] == (a + b)[j]);
            }
        }
    }
    if all_statements(a) && all_statements(b) {
        assert forall|k: int| 0 <= k < (a + b).len() implies (#[trigger] (a + b)[k]) is Stmt by {
            if k < a.len() {
                assert((a + b)[k] == a[k]);
            } else {
                assert((a + b)[k] == b[k - a.len()]);
            }
        }
    }
}

/// A body of statements lowers to itself.
proof fn lemma_statements(items: Seq<ModuleItemView>)
    requires
        all_statements(items),
    ensures
        body_lowered(items) == items,
        !body_unsupported(items),
        module_kind(items) == ModuleType::CommonJS,
    decreases items.len(),
{
    if items.len() > 0 {
        let shorter = items.drop_last();
        assert forall|k: int| 0 <= k < shorter.len() implies (#[trigger] shorter[k]) is Stmt by {
            assert(shorter[k] == items[k]);
        }
        lemma_statements(shorter);
        assert(items.last() is Stmt);
        assert(shorter + seq![items.last()] =~= items);
    }
}

proof fn lemma_preamble_body(deps: Seq<DependencyView>)
    ensures
        body_dependencies(preamble(deps)) == Seq::<DependencyView>::empty(),
        !body_complex(preamble(deps)),
        all_statements(preamble(deps)),
    decreases deps.len(),
{
    if deps.len() > 0 {
        lemma_preamble_body(deps.drop_last());
        if is_binding(deps.last()) {
            let shorter = preamble(deps.drop_last());
            let item = runtime_require(deps.last());
            lemma_binding_item(deps.last());
            assert(preamble(deps) =~= shorter + seq![item]);
            reveal_with_fuel(body_dependencies, 2);
            assert(seq![item].drop_last() =~= Seq::<ModuleItemView>::empty());
            assert(body_dependencies(seq![item]) =~= Seq::<DependencyView>::empty());
            assert(!body_complex(seq![item]));
            assert(all_statements(seq![item]));
            lemma_body_concat(shorter, seq![item]);
            assert(Seq::<DependencyView>::empty() + Seq::<DependencyView>::empty()
                =~= Seq::<DependencyView>::empty());
        }
    }
}

proof fn lemma_lowered_body(body: Seq<ModuleItemView>)
    requires
        !body_unsupported(body),
        !body_complex(body),
    ensures
        body_dependencies(body_lowered(body)) == require_sites(body_dependencies(body)),
        !body_complex(body_lowered(body)),
        all_statements(body_lowered(body)),
    decreases body.len(),
{
    if body.len() > 0 {
        let shorter = body.drop_last();
        assert forall|k: int| 0 <= k < shorter.len() implies !item_unsupported(
            #[trigger] shorter[k],
        ) && !item_complex(shorter[k]) by {
            assert(shorter[k] == body[k]);
        }
        lemma_lowered_body(shorter);
        assert(body.last() == body[body.len() - 1]);
        lemma_lowered_item(body.last());
        lemma_body_concat(body_lowered(shorter), item_lowered(body.last()));
        lemma_require_sites_concat(body_dependencies(shorter), item_dependencies(body.last()));
    }
}

// ---------------------------------------------------------------------------
// The laws
// ---------------------------------------------------------------------------

/// A lowered module holds no import and no export: each of its items is a
/// statement.
pub proof fn lemma_lowered_has_no_module_decl(m: ModuleView)
    requires
        lowered(m) is Ok,
    ensures
        forall|i: int|
            0 <= i < lowered(m)->Ok_0.module.body.len() ==> !is_module_decl(
                #[trigger] lowered(m)->Ok_0.module.body[i],
            ),
{
    let deps = body_dependencies(m.body);
    lemma_preamble_body(deps);
    lemma_lowered_body(m.body);
    lemma_body_concat(preamble(deps), body_lowered(m.body));
}

/// A module is ESM exactly when its source holds an import or an export.
pub proof fn lemma_kind_follows_module_decls(m: ModuleView)
    requires
        lowered(m) is Ok,
    ensures
        lowered(m)->Ok_0.module_type == ModuleType::ESM <==> exists|i: int|
            0 <= i < m.body.len() && is_module_decl(#[trigger] m.body[i]),
        lowered(m)->Ok_0.module_type == ModuleType::CommonJS <==> all_statements(m.body),
{
}

/// Every dependency has its place in the lowered module. The module starts
/// with one binding for each dependency that is no `require` call, in the
/// order of the dependencies, and each binding is the call that loads that
/// dependency. The `require` calls in the rest of the module are the
/// remaining dependencies, in order. So there are as many dependencies as
/// bindings and `require` calls of the source together.
pub proof fn lemma_dependencies_match_call_sites(m: ModuleView)
    requires
        lowered(m) is Ok,
    ensures
        ({
            let l = lowered(m)->Ok_0;
            let bound = bound_dependencies(l.dependencies);
            let sites = require_sites(l.dependencies);
            &&& bound.len() <= l.module.body.len()
            &&& forall|i: int|
                0 <= i < bound.len() ==> #[trigger] l.module.body[i] == runtime_require(bound[i])
            &&& body_dependencies(l.module.body.take(bound.len() as int)) == Seq::<
                DependencyView,
            >::empty()
            &&& body_dependencies(l.module.body.skip(bound.len() as int)) == sites
            &&& body_dependencies(l.module.body) == sites
            &&& bound.len() + sites.len() == l.dependencies.len()
        }),
{
    let l = lowered(m)->Ok_0;
    let deps = l.dependencies;
    let bound = bound_dependencies(deps);
    lemma_preamble_of_bound(deps);
    lemma_preamble_body(deps);
    lemma_lowered_body(m.body);
    lemma_body_concat(preamble(deps), body_lowered(m.body));
    assert(l.module.body.take(bound.len() as int) =~= preamble(deps));
    assert(l.module.body.skip(bound.len() as int) =~= body_lowered(m.body));
    assert(Seq::<DependencyView>::empty() + require_sites(deps) =~= require_sites(deps));
}

/// Lowering a lowered module changes nothing: the module stays as it is, no
/// binding is added, and the only dependencies found are the `require` calls
/// of the source, which stay in place.
pub proof fn lemma_lowering_is_idempotent(m: ModuleView)
    requires
        lowered(m) is Ok,
    ensures
        lowered(lowered(m)->Ok_0.module) == Ok::<LoweredView, LowerError>(
            LoweredView {
                module: lowered(m)->Ok_0.module,
                dependencies: require_sites(lowered(m)->Ok_0.dependencies),
                module_type: ModuleType::CommonJS,
            },
        ),
{
    let l = lowered(m)->Ok_0;
    let deps = l.dependencies;
    let again = l.module.body;
    lemma_preamble_body(deps);
    lemma_lowered_body(m.body);
    lemma_body_concat(preamble(deps), body_lowered(m.body));
    assert(Seq::<DependencyView>::empty() + require_sites(deps) =~= require_sites(deps));
    lemma_statements(again);
    lemma_require_sites_concat(deps, Seq::empty());
    lemma_only_sites(require_sites(deps));
    assert(Seq::<ModuleItemView>::empty() + again =~= again);
}

/// A module without imports and exports is lowered to itself, with nothing
/// put before its body, and is CommonJS.
pub proof fn lemma_plain_module_is_unchanged(m: ModuleView)
    requires
        lowered(m) is Ok,
        all_statements(m.body),
    ensures
        lowered(m)->Ok_0.module == m,
        lowered(m)->Ok_0.module_type == ModuleType::CommonJS,
        all_sites(lowered(m)->Ok_0.dependencies),
{
    let deps = body_dependencies(m.body);
    lemma_statements(m.body);
    lemma_lowered_body(m.body);
    lemma_require_sites_concat(deps, Seq::empty());
    assert(body_dependencies(body_lowered(m.body)) == deps);
    lemma_only_sites(deps);
    assert(Seq::<ModuleItemView>::empty() + m.body =~= m.body);
}

} // verus!
