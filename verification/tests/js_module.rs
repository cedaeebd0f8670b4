use ducttape::js_module::{JsModule, ModuleType};

fn module(code: &str) -> JsModule {
    JsModule {
        id: "a.js".to_string(),
        filepath: "/project/a.js".to_string(),
        code: code.to_string(),
        module_type: ModuleType::ESM,
    }
}

#[test]
fn update_dep_src_rewrites_the_request() {
    let mut m = module("var { x } = require(\"./b\", false);\nconsole.log(x);\n");
    m.update_dep_src("./b", "src/b.js");
    assert_eq!(m.code, "var { x } = require(\"src/b.js\", false);\nconsole.log(x);\n");
    assert_eq!(m.id, "a.js");
    assert_eq!(m.filepath, "/project/a.js");
    assert_eq!(m.module_type, ModuleType::ESM);
}

#[test]
fn update_dep_src_rewrites_the_exact_literal_only() {
    let mut m = module("require(\"./b\"); require(\"./bar\");");
    m.update_dep_src("./b", "b.js");
    assert_eq!(m.code, "require(\"b.js\"); require(\"./bar\");");
}

#[test]
fn update_dep_src_leaves_the_request_inside_other_text() {
    let mut m = module("require(\"./bar\"); log(\"see ./b\"); ./b; './b'");
    let before = m.clone();
    m.update_dep_src("./b", "b.js");
    assert_eq!(m, before);
}

#[test]
fn update_dep_src_rewrites_every_occurrence() {
    let mut m = module("\"r\" \"r\" \"r\" \"r\" \"r\" \"r\" \"r\"");
    m.update_dep_src("r", "id");
    assert_eq!(m.code, "\"id\" \"id\" \"id\" \"id\" \"id\" \"id\" \"id\"");
}

#[test]
fn update_dep_src_without_an_occurrence_changes_nothing() {
    let mut m = module("console.log(1);");
    let before = m.clone();
    m.update_dep_src("./b", "b.js");
    assert_eq!(m, before);
}

#[test]
fn update_dep_src_to_the_request_itself_changes_nothing() {
    let mut m = module("require(\"./b\"); require(\"./b\");");
    let before = m.clone();
    m.update_dep_src("./b", "./b");
    assert_eq!(m, before);
}

#[test]
fn update_dep_src_rewrites_the_empty_request_literal() {
    let mut m = module("require(\"\");");
    m.update_dep_src("", "index.js");
    assert_eq!(m.code, "require(\"index.js\");");
}
