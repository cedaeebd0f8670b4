use ducttape::ast::{
    Decl, ExportSpecifier, Expr, ImportSpecifier, Module, ModuleItem, ObjectPatProp, Pat, Stmt,
    VarDeclarator,
};
use ducttape::js_module::{Dependency, ImportType, ModuleType, NamedImport};
use ducttape::transforms::runtime_imports::{
    create_runtime_export, lower_item, runtime_imports, LowerError, RuntimeImportMapper,
};

fn ident(name: &str) -> Expr {
    Expr::Ident(name.to_string())
}

fn text(value: &str) -> Expr {
    Expr::Str(value.to_string())
}

fn number(node: usize) -> Expr {
    Expr::Other { node, parts: vec![] }
}

fn call(callee: Expr, args: Vec<Expr>) -> Expr {
    Expr::Call { callee: Box::new(callee), args }
}

fn member(obj: Expr, prop: &str) -> Expr {
    Expr::Member { obj: Box::new(obj), prop: prop.to_string() }
}

fn assign(left: Expr, right: Expr) -> Expr {
    Expr::Assign { left: Box::new(left), right: Box::new(right) }
}

fn exports(name: &str, value: Expr) -> Expr {
    assign(member(ident("exports"), name), value)
}

fn require(request: &str) -> Expr {
    call(ident("require"), vec![text(request)])
}

fn runtime_require(request: &str, is_default: bool) -> Expr {
    call(ident("require"), vec![text(request), Expr::Bool(is_default)])
}

fn statement(expr: Expr) -> ModuleItem {
    ModuleItem::Stmt(Stmt::Expr(expr))
}

fn console_log(args: Vec<Expr>) -> ModuleItem {
    statement(call(member(ident("console"), "log"), args))
}

fn binding(name: Pat, request: &str, is_default: bool) -> ModuleItem {
    ModuleItem::Stmt(Stmt::Var { name, init: runtime_require(request, is_default) })
}

fn import(src: &str, specifiers: Vec<ImportSpecifier>) -> ModuleItem {
    ModuleItem::Import { src: src.to_string(), specifiers }
}

fn default_specifier(local: &str) -> ImportSpecifier {
    ImportSpecifier::Default { local: local.to_string() }
}

fn named_specifier(local: &str, imported: Option<&str>) -> ImportSpecifier {
    ImportSpecifier::Named { local: local.to_string(), imported: imported.map(str::to_string) }
}

fn namespace_specifier(local: &str) -> ImportSpecifier {
    ImportSpecifier::Namespace { local: local.to_string() }
}

fn export_specifier(orig: &str, exported: Option<&str>) -> ExportSpecifier {
    ExportSpecifier::Named { orig: orig.to_string(), exported: exported.map(str::to_string) }
}

fn dependency(request: &str, import_type: ImportType) -> Dependency {
    Dependency { request: request.to_string(), import_type }
}

fn named(local: &str, import_name: &str) -> NamedImport {
    NamedImport { local: local.to_string(), import_name: import_name.to_string() }
}

fn key_value(key: &str, value: &str) -> ObjectPatProp {
    ObjectPatProp::KeyValue { key: key.to_string(), value: value.to_string() }
}

fn module(body: Vec<ModuleItem>) -> Module {
    Module { body }
}

fn lower(body: Vec<ModuleItem>) -> (Vec<ModuleItem>, Vec<Dependency>, ModuleType) {
    match runtime_imports(module(body)) {
        Ok((lowered, dependencies, module_type)) => (lowered.body, dependencies, module_type),
        Err(error) => panic!("the module is not lowered: {:?}", error),
    }
}

fn lower_error(body: Vec<ModuleItem>) -> LowerError {
    match runtime_imports(module(body)) {
        Ok(_) => panic!("the module is lowered"),
        Err(error) => error,
    }
}

#[test]
fn side_effect_import_becomes_a_bare_require() {
    let (body, dependencies, module_type) =
        lower(vec![import("./b", vec![]), console_log(vec![number(1)])]);
    assert_eq!(dependencies, vec![dependency("./b", ImportType::SideEffect)]);
    assert_eq!(
        body,
        vec![statement(runtime_require("./b", false)), console_log(vec![number(1)])]
    );
    assert_eq!(module_type, ModuleType::ESM);
}

#[test]
fn default_and_named_import_yield_two_dependencies_and_two_bindings() {
    let (body, dependencies, module_type) = lower(vec![
        import("./b", vec![default_specifier("D"), named_specifier("y", Some("x"))]),
        console_log(vec![ident("D"), ident("y")]),
    ]);
    assert_eq!(
        dependencies,
        vec![
            dependency("./b", ImportType::Default("D".to_string())),
            dependency("./b", ImportType::Named(vec![named("y", "x")])),
        ]
    );
    assert_eq!(
        body,
        vec![
            binding(Pat::Object(vec![key_value("default", "D")]), "./b", true),
            binding(Pat::Object(vec![key_value("x", "y")]), "./b", false),
            console_log(vec![ident("D"), ident("y")]),
        ]
    );
    assert_eq!(module_type, ModuleType::ESM);
}

#[test]
fn namespace_import_binds_the_whole_module() {
    let (body, dependencies, _) = lower(vec![import("./ns", vec![namespace_specifier("X")])]);
    assert_eq!(dependencies, vec![dependency("./ns", ImportType::Namespace("X".to_string()))]);
    assert_eq!(body, vec![binding(Pat::Ident("X".to_string()), "./ns", false)]);
}

#[test]
fn named_imports_use_shorthand_where_the_names_agree() {
    let (body, dependencies, _) = lower(vec![import(
        "./n",
        vec![named_specifier("a", None), named_specifier("c", Some("b")), named_specifier("d", Some("d"))],
    )]);
    assert_eq!(
        dependencies,
        vec![dependency(
            "./n",
            ImportType::Named(vec![named("a", "a"), named("c", "b"), named("d", "d")])
        )]
    );
    assert_eq!(
        body,
        vec![binding(
            Pat::Object(vec![
                ObjectPatProp::Assign("a".to_string()),
                key_value("b", "c"),
                ObjectPatProp::Assign("d".to_string()),
            ]),
            "./n",
            false
        )]
    );
}

#[test]
fn one_import_yields_namespace_then_default_then_named() {
    let (_, dependencies, _) = lower(vec![import(
        "./all",
        vec![named_specifier("a", None), default_specifier("D"), namespace_specifier("N")],
    )]);
    assert_eq!(
        dependencies,
        vec![
            dependency("./all", ImportType::Namespace("N".to_string())),
            dependency("./all", ImportType::Default("D".to_string())),
            dependency("./all", ImportType::Named(vec![named("a", "a")])),
        ]
    );
}

#[test]
fn require_call_is_recorded_and_left_in_place() {
    let source = || {
        vec![
            ModuleItem::Stmt(Stmt::Other { node: 0, parts: vec![require("./b")] }),
            console_log(vec![member(member(ident("b"), "default"), "z")]),
        ]
    };
    let (body, dependencies, module_type) = lower(source());
    assert_eq!(dependencies, vec![dependency("./b", ImportType::Require)]);
    assert_eq!(body, source());
    assert_eq!(module_type, ModuleType::CommonJS);
}

#[test]
fn require_calls_are_found_inside_other_calls_in_source_order() {
    let (_, dependencies, _) = lower(vec![
        console_log(vec![require("./first"), call(require("./second"), vec![require("./third")])]),
        ModuleItem::Stmt(Stmt::Var {
            name: Pat::Ident("x".to_string()),
            init: assign(ident("y"), Expr::Sequence(vec![require("./fourth")])),
        }),
    ]);
    let requests: Vec<String> = dependencies.iter().map(|d| d.request.clone()).collect();
    assert_eq!(requests, vec!["./first", "./second", "./third", "./fourth"]);
    assert!(dependencies.iter().all(|d| d.import_type == ImportType::Require));
}

#[test]
fn require_of_something_computed_fails() {
    assert_eq!(
        lower_error(vec![statement(call(ident("require"), vec![ident("name")]))]),
        LowerError::ComplexRequire
    );
    assert_eq!(
        lower_error(vec![console_log(vec![call(ident("require"), vec![Expr::Bool(true)])])]),
        LowerError::ComplexRequire
    );
    assert_eq!(LowerError::ComplexRequire.message(), "complex require not supported");
}

#[test]
fn require_with_another_number_of_arguments_is_no_dependency() {
    let source = || {
        vec![
            statement(call(ident("require"), vec![])),
            statement(call(ident("require"), vec![text("./a"), text("./b")])),
            statement(call(ident("required"), vec![text("./c")])),
            statement(call(member(ident("module"), "require"), vec![text("./d")])),
        ]
    };
    let (body, dependencies, module_type) = lower(source());
    assert_eq!(dependencies, vec![]);
    assert_eq!(body, source());
    assert_eq!(module_type, ModuleType::CommonJS);
}

#[test]
fn export_default_assigns_to_exports_default() {
    let (body, dependencies, module_type) =
        lower(vec![ModuleItem::ExportDefaultExpr(number(1))]);
    assert_eq!(body, vec![statement(exports("default", number(1)))]);
    assert_eq!(dependencies, vec![]);
    assert_eq!(module_type, ModuleType::ESM);
}

#[test]
fn export_const_assigns_each_variable() {
    let (body, _, _) = lower(vec![ModuleItem::ExportDecl(Decl::Var(vec![VarDeclarator {
        name: Some("x".to_string()),
        init: Some(number(2)),
    }]))]);
    assert_eq!(body, vec![statement(exports("x", number(2)))]);

    let (body, dependencies, _) = lower(vec![ModuleItem::ExportDecl(Decl::Var(vec![
        VarDeclarator { name: Some("x".to_string()), init: Some(require("./x")) },
        VarDeclarator { name: Some("y".to_string()), init: Some(number(3)) },
    ]))]);
    assert_eq!(
        body,
        vec![statement(Expr::Sequence(vec![exports("x", require("./x")), exports("y", number(3))]))]
    );
    assert_eq!(dependencies, vec![dependency("./x", ImportType::Require)]);
}

#[test]
fn export_function_assigns_the_function() {
    let function = || Expr::Other { node: 7, parts: vec![require("./inside")] };
    let (body, dependencies, module_type) = lower(vec![ModuleItem::ExportDecl(Decl::Fn {
        ident: "f".to_string(),
        function: function(),
    })]);
    assert_eq!(body, vec![statement(exports("f", function()))]);
    assert_eq!(dependencies, vec![dependency("./inside", ImportType::Require)]);
    assert_eq!(module_type, ModuleType::ESM);
}

#[test]
fn export_list_assigns_local_bindings_in_order() {
    let (body, dependencies, module_type) = lower(vec![ModuleItem::ExportNamed {
        specifiers: vec![export_specifier("a", None), export_specifier("b", Some("c"))],
        src: None,
    }]);
    assert_eq!(
        body,
        vec![statement(Expr::Sequence(vec![exports("a", ident("a")), exports("c", ident("b"))]))]
    );
    assert_eq!(dependencies, vec![]);
    assert_eq!(module_type, ModuleType::ESM);
}

#[test]
fn empty_export_list_leaves_nothing_but_marks_the_module() {
    let (body, dependencies, module_type) =
        lower(vec![ModuleItem::ExportNamed { specifiers: vec![], src: None }]);
    assert_eq!(body, vec![]);
    assert_eq!(dependencies, vec![]);
    assert_eq!(module_type, ModuleType::ESM);
}

#[test]
fn reexport_binds_then_exports() {
    let (body, dependencies, module_type) = lower(vec![ModuleItem::ExportNamed {
        specifiers: vec![export_specifier("x", None)],
        src: Some("./m".to_string()),
    }]);
    assert_eq!(dependencies, vec![dependency("./m", ImportType::Named(vec![named("x", "x")]))]);
    assert_eq!(
        body,
        vec![
            binding(Pat::Object(vec![ObjectPatProp::Assign("x".to_string())]), "./m", false),
            statement(exports("x", ident("x"))),
        ]
    );
    assert_eq!(module_type, ModuleType::ESM);
}

#[test]
fn renamed_reexport_binds_the_exported_name() {
    let (body, dependencies, _) = lower(vec![ModuleItem::ExportNamed {
        specifiers: vec![export_specifier("a", Some("b")), export_specifier("c", None)],
        src: Some("S".to_string()),
    }]);
    assert_eq!(
        dependencies,
        vec![dependency("S", ImportType::Named(vec![named("b", "a"), named("c", "c")]))]
    );
    assert_eq!(
        body,
        vec![
            binding(
                Pat::Object(vec![key_value("a", "b"), ObjectPatProp::Assign("c".to_string())]),
                "S",
                false
            ),
            statement(Expr::Sequence(vec![exports("b", ident("b")), exports("c", ident("c"))])),
        ]
    );
}

#[test]
fn namespace_reexport_binds_and_exports_the_namespace() {
    let (body, dependencies, _) = lower(vec![ModuleItem::ExportNamed {
        specifiers: vec![ExportSpecifier::Namespace { name: "N".to_string() }],
        src: Some("S".to_string()),
    }]);
    assert_eq!(dependencies, vec![dependency("S", ImportType::Namespace("N".to_string()))]);
    assert_eq!(
        body,
        vec![
            binding(Pat::Ident("N".to_string()), "S", false),
            statement(exports("N", ident("N"))),
        ]
    );
}

#[test]
fn export_all_binds_a_name_made_from_the_source() {
    let (body, dependencies, module_type) =
        lower(vec![ModuleItem::ExportAll { src: "./my-lib/x.js".to_string() }]);
    assert_eq!(
        dependencies,
        vec![dependency("./my-lib/x.js", ImportType::Namespace("__my_lib_x_js".to_string()))]
    );
    assert_eq!(
        body,
        vec![
            binding(Pat::Ident("__my_lib_x_js".to_string()), "./my-lib/x.js", false),
            statement(call(ident("__exportAll__"), vec![ident("__my_lib_x_js")])),
        ]
    );
    assert_eq!(module_type, ModuleType::ESM);
}

#[test]
fn exported_declaration_of_another_kind_stays_as_a_statement() {
    let (body, dependencies, module_type) = lower(vec![
        ModuleItem::ExportDecl(Decl::Other { node: 4, parts: vec![require("./base")] }),
        ModuleItem::ExportDecl(Decl::Other { node: 5, parts: vec![] }),
    ]);
    assert_eq!(
        body,
        vec![
            ModuleItem::Stmt(Stmt::Other { node: 4, parts: vec![require("./base")] }),
            ModuleItem::Stmt(Stmt::Other { node: 5, parts: vec![] }),
        ]
    );
    assert_eq!(dependencies, vec![dependency("./base", ImportType::Require)]);
    assert_eq!(module_type, ModuleType::ESM);
    assert_eq!(
        lower_error(vec![ModuleItem::ExportDecl(Decl::Other {
            node: 4,
            parts: vec![call(ident("require"), vec![ident("name")])],
        })]),
        LowerError::ComplexRequire
    );
}

#[test]
fn exports_that_cannot_be_lowered_fail() {
    assert_eq!(
        lower_error(vec![ModuleItem::ExportDecl(Decl::Var(vec![VarDeclarator {
            name: Some("x".to_string()),
            init: None,
        }]))]),
        LowerError::UnsupportedExport
    );
    assert_eq!(
        lower_error(vec![ModuleItem::ExportDecl(Decl::Var(vec![
            VarDeclarator { name: Some("x".to_string()), init: Some(number(1)) },
            VarDeclarator { name: None, init: Some(number(2)) },
        ]))]),
        LowerError::UnsupportedExport
    );
    assert_eq!(
        lower_error(vec![ModuleItem::ExportDecl(Decl::Var(vec![]))]),
        LowerError::UnsupportedExport
    );
    assert_eq!(
        lower_error(vec![ModuleItem::ExportNamed {
            specifiers: vec![ExportSpecifier::Namespace { name: "N".to_string() }],
            src: None,
        }]),
        LowerError::UnsupportedExport
    );
    assert_eq!(LowerError::UnsupportedExport.message(), "unsupported export");
}

#[test]
fn an_unsupported_export_is_reported_before_a_computed_require() {
    assert_eq!(
        lower_error(vec![
            statement(call(ident("require"), vec![ident("name")])),
            ModuleItem::ExportDecl(Decl::Var(vec![])),
        ]),
        LowerError::UnsupportedExport
    );
}

#[test]
fn kind_is_esm_exactly_with_an_import_or_export() {
    assert_eq!(lower(vec![]).2, ModuleType::CommonJS);
    assert_eq!(lower(vec![console_log(vec![])]).2, ModuleType::CommonJS);
    assert_eq!(lower(vec![console_log(vec![]), import("./a", vec![])]).2, ModuleType::ESM);
    assert_eq!(
        lower(vec![ModuleItem::ExportDefaultExpr(number(0)), console_log(vec![])]).2,
        ModuleType::ESM
    );
    assert_eq!(lower(vec![ModuleItem::ExportAll { src: "x".to_string() }]).2, ModuleType::ESM);
}

fn mixed_source() -> Vec<ModuleItem> {
    vec![
        console_log(vec![require("./zero")]),
        import("./one", vec![default_specifier("One")]),
        ModuleItem::ExportDecl(Decl::Var(vec![VarDeclarator {
            name: Some("two".to_string()),
            init: Some(require("./two")),
        }])),
        import("./three", vec![]),
        ModuleItem::ExportAll { src: "./four".to_string() },
        ModuleItem::Stmt(Stmt::Other { node: 5, parts: vec![require("./five")] }),
    ]
}

#[test]
fn bindings_come_first_in_source_order_then_the_body() {
    let (body, dependencies, _) = lower(mixed_source());
    assert_eq!(
        dependencies,
        vec![
            dependency("./zero", ImportType::Require),
            dependency("./one", ImportType::Default("One".to_string())),
            dependency("./two", ImportType::Require),
            dependency("./three", ImportType::SideEffect),
            dependency("./four", ImportType::Namespace("__four".to_string())),
            dependency("./five", ImportType::Require),
        ]
    );
    assert_eq!(
        body,
        vec![
            binding(Pat::Object(vec![key_value("default", "One")]), "./one", true),
            statement(runtime_require("./three", false)),
            binding(Pat::Ident("__four".to_string()), "./four", false),
            console_log(vec![require("./zero")]),
            statement(exports("two", require("./two"))),
            statement(call(ident("__exportAll__"), vec![ident("__four")])),
            ModuleItem::Stmt(Stmt::Other { node: 5, parts: vec![require("./five")] }),
        ]
    );
}

#[test]
fn lowered_module_holds_no_import_and_no_export() {
    let (body, _, _) = lower(mixed_source());
    assert!(body.iter().all(|item| matches!(item, ModuleItem::Stmt(_))));
}

#[test]
fn every_dependency_is_a_binding_or_a_require_call_of_the_body() {
    let (body, dependencies, _) = lower(mixed_source());
    let bound = dependencies.iter().filter(|d| d.import_type != ImportType::Require).count();
    let (again, sites, _) = lower(body);
    assert_eq!(bound, 3);
    assert_eq!(bound + sites.len(), dependencies.len());
    assert_eq!(again.len(), 7);
}

#[test]
fn lowering_twice_changes_nothing() {
    let (once, dependencies, _) = lower(mixed_source());
    let (expected, _, _) = lower(mixed_source());
    let (twice, again, module_type) = lower(once);
    assert_eq!(twice, expected);
    assert_eq!(
        again,
        dependencies
            .into_iter()
            .filter(|d| d.import_type == ImportType::Require)
            .collect::<Vec<Dependency>>()
    );
    assert_eq!(module_type, ModuleType::CommonJS);
}

#[test]
fn lowering_twice_adds_no_dependency_without_require_calls() {
    let source = || {
        vec![
            import("./a", vec![default_specifier("A"), named_specifier("b", None)]),
            ModuleItem::ExportDefaultExpr(ident("A")),
            ModuleItem::ExportAll { src: "./c".to_string() },
        ]
    };
    let (once, _, _) = lower(source());
    let (expected, _, _) = lower(source());
    let (twice, again, _) = lower(once);
    assert_eq!(twice, expected);
    assert_eq!(again, vec![]);
}

#[test]
fn module_without_imports_and_exports_is_unchanged() {
    let source = || {
        vec![
            ModuleItem::Stmt(Stmt::Var { name: Pat::Ident("a".to_string()), init: number(1) }),
            console_log(vec![ident("a"), require("./b")]),
            ModuleItem::Stmt(Stmt::Other { node: 3, parts: vec![] }),
        ]
    };
    let (body, dependencies, module_type) = lower(source());
    assert_eq!(body, source());
    assert_eq!(dependencies, vec![dependency("./b", ImportType::Require)]);
    assert_eq!(module_type, ModuleType::CommonJS);
}

#[test]
fn mapper_records_what_it_walks() {
    let mut mapper = RuntimeImportMapper::new();
    assert_eq!(mapper.module_type, ModuleType::CommonJS);
    mapper.fold_call_expr(&ident("require"), &vec![text("./a")]);
    mapper.fold_call_expr(&ident("other"), &vec![text("./b")]);
    mapper.fold_import_decl(&"./c".to_string(), &vec![]);
    mapper.fold_expr(&call(ident("f"), vec![require("./d")]));
    mapper.fold_stmt(&Stmt::Expr(require("./e")));
    mapper.fold_exprs(&vec![require("./f"), ident("g")]);
    assert!(!mapper.complex_require);
    mapper.fold_call_expr(&ident("require"), &vec![ident("h")]);
    assert!(mapper.complex_require);
    assert!(!mapper.unsupported_export);
    mapper.fold_item(&ModuleItem::ExportDecl(Decl::Other { node: 0, parts: vec![] }));
    assert!(!mapper.unsupported_export);
    assert_eq!(mapper.module_type, ModuleType::ESM);
    mapper.fold_item(&ModuleItem::ExportDecl(Decl::Var(vec![])));
    assert!(mapper.unsupported_export);
    assert_eq!(mapper.module_type, ModuleType::ESM);
    assert_eq!(
        mapper.dependencies,
        vec![
            dependency("./a", ImportType::Require),
            dependency("./c", ImportType::SideEffect),
            dependency("./d", ImportType::Require),
            dependency("./e", ImportType::Require),
            dependency("./f", ImportType::Require),
        ]
    );
}

#[test]
fn mapper_builds_the_runtime_require_of_each_kind() {
    let mapper = RuntimeImportMapper::new();
    assert_eq!(
        mapper.create_runtime_require(&dependency("r", ImportType::Require)),
        statement(runtime_require("r", false))
    );
    assert_eq!(
        mapper.create_runtime_require(&dependency("s", ImportType::SideEffect)),
        statement(runtime_require("s", false))
    );
    assert_eq!(
        mapper.create_runtime_require(&dependency("d", ImportType::Default("D".to_string()))),
        binding(Pat::Object(vec![key_value("default", "D")]), "d", true)
    );
}

#[test]
fn mapper_fails_on_what_it_noted() {
    let mut mapper = RuntimeImportMapper::new();
    mapper.fold_call_expr(&ident("require"), &vec![ident("h")]);
    assert_eq!(mapper.fold_module(module(vec![])), Err(LowerError::ComplexRequire));
    assert_eq!(
        mapper.fold_module(module(vec![ModuleItem::ExportDecl(Decl::Var(vec![]))])),
        Err(LowerError::UnsupportedExport)
    );
}

#[test]
fn runtime_export_assigns_to_a_property_of_exports() {
    assert_eq!(create_runtime_export("x".to_string(), number(1)), exports("x", number(1)));
}

#[test]
fn lower_item_appends_what_replaces_the_item() {
    let mut out = vec![console_log(vec![])];
    lower_item(import("./a", vec![]), &mut out);
    assert_eq!(out, vec![console_log(vec![])]);
    lower_item(ModuleItem::ExportDefaultExpr(ident("a")), &mut out);
    assert_eq!(out, vec![console_log(vec![]), statement(exports("default", ident("a")))]);
}
