use ducttape::ast::{Expr, ImportSpecifier, Module, ModuleItem, Stmt};
use ducttape::imports::collect_imports;

fn import(src: &str) -> ModuleItem {
    ModuleItem::Import {
        src: src.to_string(),
        specifiers: vec![ImportSpecifier::Default { local: "x".to_string() }],
    }
}

#[test]
fn collect_imports_lists_each_source_once() {
    let module = Module {
        body: vec![
            import("./b"),
            ModuleItem::Stmt(Stmt::Expr(Expr::Call {
                callee: Box::new(Expr::Ident("require".to_string())),
                args: vec![Expr::Str("./required".to_string())],
            })),
            import("./a"),
            ModuleItem::ExportAll { src: "./exported".to_string() },
            import("./b"),
            ModuleItem::Import { src: "./side".to_string(), specifiers: vec![] },
        ],
    };
    assert_eq!(collect_imports(&module), vec!["./b", "./a", "./side"]);
}

#[test]
fn collect_imports_of_a_module_without_imports_is_empty() {
    assert_eq!(collect_imports(&Module { body: vec![] }), Vec::<String>::new());
}
