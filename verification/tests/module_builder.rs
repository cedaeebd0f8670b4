use ducttape::ast::{Decl, Expr, ImportSpecifier, Module, ModuleItem, Pat, Stmt};
use ducttape::diagnostics::{BuildFailure, ErrorKind};
use ducttape::js_module::{Dependency, ImportType, JsModule, ModuleType};
use ducttape::module_builder::{decode_emitted, ModuleBuilder};

fn failure(kind: ErrorKind, path: &str, detail: &str) -> BuildFailure {
    BuildFailure { kind, path: path.to_string(), detail: detail.to_string() }
}

#[test]
fn lower_reports_a_rejected_file() {
    let builder = ModuleBuilder::new("/project".to_string());
    assert_eq!(
        builder.lower("/project/a.js", None),
        Err(failure(ErrorKind::Parse, "/project/a.js", "Error parsing module"))
    );
}

#[test]
fn lower_lowers_what_the_parser_gave() {
    let builder = ModuleBuilder::new("/project".to_string());
    let parsed = Module {
        body: vec![ModuleItem::Import {
            src: "./b".to_string(),
            specifiers: vec![ImportSpecifier::Namespace { local: "b".to_string() }],
        }],
    };
    let expected = Module {
        body: vec![ModuleItem::Stmt(Stmt::Var {
            name: Pat::Ident("b".to_string()),
            init: Expr::Call {
                callee: Box::new(Expr::Ident("require".to_string())),
                args: vec![Expr::Str("./b".to_string()), Expr::Bool(false)],
            },
        })],
    };
    assert_eq!(
        builder.lower("/project/a.js", Some(parsed)),
        Ok((
            expected,
            vec![Dependency {
                request: "./b".to_string(),
                import_type: ImportType::Namespace("b".to_string())
            }],
            ModuleType::ESM
        ))
    );
}

#[test]
fn lower_reports_what_cannot_be_lowered() {
    let builder = ModuleBuilder::new("/project".to_string());
    let complex = Module {
        body: vec![ModuleItem::Stmt(Stmt::Expr(Expr::Call {
            callee: Box::new(Expr::Ident("require".to_string())),
            args: vec![Expr::Ident("name".to_string())],
        }))],
    };
    assert_eq!(
        builder.lower("/project/a.js", Some(complex)),
        Err(failure(ErrorKind::Lower, "/project/a.js", "complex require not supported"))
    );
    let unsupported = Module { body: vec![ModuleItem::ExportDecl(Decl::Var(vec![]))] };
    assert_eq!(
        builder.lower("/project/a.js", Some(unsupported)),
        Err(failure(ErrorKind::Lower, "/project/a.js", "unsupported export"))
    );
}

#[test]
fn build_makes_the_module_from_the_emitted_bytes() {
    let builder = ModuleBuilder::new("/project".to_string());
    let dependencies =
        vec![Dependency { request: "./b".to_string(), import_type: ImportType::Require }];
    assert_eq!(
        builder.build(
            "/project/src/a.js".to_string(),
            Some("console.log(\"é\");\n".as_bytes().to_vec()),
            ModuleType::CommonJS,
            dependencies.clone()
        ),
        Ok((
            JsModule {
                id: "src/a.js".to_string(),
                filepath: "/project/src/a.js".to_string(),
                code: "console.log(\"é\");\n".to_string(),
                module_type: ModuleType::CommonJS,
            },
            dependencies
        ))
    );
}

#[test]
fn build_reports_missing_and_broken_code() {
    let builder = ModuleBuilder::new("/project".to_string());
    assert_eq!(
        builder.build("/project/a.js".to_string(), None, ModuleType::ESM, vec![]),
        Err(failure(ErrorKind::Emit, "/project/a.js", "Failed to emit buffer"))
    );
    assert_eq!(
        builder.build(
            "/project/a.js".to_string(),
            Some(vec![0x66, 0xff, 0x6f]),
            ModuleType::ESM,
            vec![]
        ),
        Err(failure(
            ErrorKind::Emit,
            "/project/a.js",
            "Failed to convert UTF-8 buffer to string buffer"
        ))
    );
}

#[test]
fn decode_emitted_decodes_utf8() {
    assert_eq!(decode_emitted("p", Some(vec![0xc3, 0xa9, 0x21])), Ok("é!".to_string()));
    assert_eq!(decode_emitted("p", Some(vec![])), Ok(String::new()));
    assert_eq!(
        decode_emitted("p", Some(vec![0xc3])),
        Err(failure(ErrorKind::Emit, "p", "Failed to convert UTF-8 buffer to string buffer"))
    );
}
