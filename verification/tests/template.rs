use ducttape::diagnostics::Diagnostics;
use ducttape::js_module::{JsModule, ModuleType};
use ducttape::module_graph::ModuleGraph;
use ducttape::template::{render_chunk, CHUNK_ENTRY, CHUNK_HEAD, CHUNK_LOADER};
use ducttape::{Compilation, Config};

fn module(id: &str, code: &str, module_type: ModuleType) -> JsModule {
    JsModule {
        id: id.to_string(),
        filepath: format!("/project/{}", id),
        code: code.to_string(),
        module_type,
    }
}

fn compilation(modules: Vec<JsModule>, edges: &[(&str, &str)]) -> Compilation {
    let mut graph = ModuleGraph::new();
    for m in modules {
        assert_eq!(graph.add_module(m), Ok(()));
    }
    for (from, to) in edges {
        graph.add_dependency(from, to);
    }
    Compilation {
        config: Config {
            project_root: "/project".to_string(),
            entrypoint: "/project/a.js".to_string(),
            output_dir: "/project/dist".to_string(),
        },
        diagnostics: Diagnostics::new(),
        graph,
    }
}

const LOADER: &str = "(function ductTape({ modules, entry }) {
  var cache = {};
  var interop = (e, isDefault, isCjs) => (isDefault && isCjs) ? { default: e } : e;
  var require = (name, isDefault) => {
    if (!Object.prototype.hasOwnProperty.call(cache, name)) {
      var exports = {};
      cache[name] = exports;
      modules[name][0](exports, require);
      cache[name] = modules[name][1] === 'CJS' ? exports.exports : exports;
    }
    return interop(cache[name], isDefault, modules[name][1] === 'CJS');
  };
  require(entry);
})({ modules, entry });
";

#[test]
fn chunk_holds_registry_entry_and_loader() {
    let c = compilation(
        vec![
            module("a.js", "require(\"b.js\", false);\nconsole.log(1);\n", ModuleType::ESM),
            module("b.js", "console.log(2);\n", ModuleType::CommonJS),
        ],
        &[("a.js", "b.js")],
    );
    let expected = format!(
        "var modules = {{\n{}{}\n}};\nvar entry = \"a.js\";\n{}",
        "\"a.js\": [function(exports, require) {require(\"b.js\", false);\nconsole.log(1);\n},'ESM'],",
        "\"b.js\": [function(module, require) {console.log(2);\n},'CJS'],",
        LOADER
    );
    assert_eq!(render_chunk(&"a.js".to_string(), &c), expected);
}

#[test]
fn chunk_pieces_are_the_text_around_registry_and_entry() {
    assert_eq!(CHUNK_HEAD, "var modules = ");
    assert_eq!(CHUNK_ENTRY, ";\nvar entry = \"");
    assert_eq!(CHUNK_LOADER, format!("\";\n{}", LOADER));
}

#[test]
fn loader_remembers_a_module_before_it_runs_it() {
    let remember = CHUNK_LOADER.find("cache[name] = exports;").unwrap();
    let run = CHUNK_LOADER.find("modules[name][0](exports, require);").unwrap();
    assert!(remember < run);
}

#[test]
fn chunk_leaves_out_what_the_entry_does_not_reach() {
    let c = compilation(
        vec![
            module("lonely.js", "0", ModuleType::ESM),
            module("b.js", "2", ModuleType::ESM),
            module("a.js", "1", ModuleType::ESM),
            module("c.js", "3", ModuleType::CommonJS),
        ],
        &[("a.js", "c.js"), ("c.js", "b.js"), ("lonely.js", "a.js")],
    );
    let expected = format!(
        "var modules = {{\n{}{}{}\n}};\nvar entry = \"a.js\";\n{}",
        "\"b.js\": [function(exports, require) {2},'ESM'],",
        "\"a.js\": [function(exports, require) {1},'ESM'],",
        "\"c.js\": [function(module, require) {3},'CJS'],",
        LOADER
    );
    assert_eq!(render_chunk(&"a.js".to_string(), &c), expected);
}

#[test]
fn chunk_of_a_cycle_holds_each_module_once() {
    let c = compilation(
        vec![module("a.js", "1", ModuleType::ESM), module("b.js", "2", ModuleType::ESM)],
        &[("a.js", "b.js"), ("b.js", "a.js")],
    );
    let chunk = render_chunk(&"b.js".to_string(), &c);
    assert_eq!(chunk.matches("\"a.js\": [function").count(), 1);
    assert_eq!(chunk.matches("\"b.js\": [function").count(), 1);
    assert!(chunk.contains("var entry = \"b.js\";"));
}
