use ducttape::diagnostics::{BuildFailure, ErrorKind};
use ducttape::js_module::{Dependency, ImportType, JsModule, ModuleType, NamedImport};
use ducttape::module_loader::{
    build_module, resolve_module, BuildModuleSuccess, LoadError, ModuleLoader, ResolveModule,
    ResolveModuleSuccess, ResultMsg, WorkMsg,
};
use ducttape::template::CHUNK_LOADER;
use ducttape::Config;

fn config(entrypoint: &str) -> Config {
    Config {
        project_root: "/project".to_string(),
        entrypoint: entrypoint.to_string(),
        output_dir: "/project/dist".to_string(),
    }
}

fn dependency(request: &str, import_type: ImportType) -> Dependency {
    Dependency { request: request.to_string(), import_type }
}

fn built(path: &str, code: &str, module_type: ModuleType, deps: Vec<Dependency>) -> ResultMsg {
    build_module(path.to_string(), Some(code.as_bytes().to_vec()), module_type, deps, 2)
}

fn resolved(parent: &str, request: &str, path: &str) -> ResultMsg {
    ResultMsg::ResolveModule(ResolveModuleSuccess {
        filepath: path.to_string(),
        parent_module_id: parent.to_string(),
        request: request.to_string(),
    })
}

fn resolve(parent: &str, source: &str, request: &str) -> WorkMsg {
    WorkMsg::ResolveModule(ResolveModule {
        source_filepath: source.to_string(),
        request: request.to_string(),
        parent_module_id: parent.to_string(),
    })
}

fn build(path: &str) -> WorkMsg {
    WorkMsg::BuildModule(path.to_string())
}

fn module(id: &str, code: &str, module_type: ModuleType) -> JsModule {
    JsModule {
        id: id.to_string(),
        filepath: format!("/project/{}", id),
        code: code.to_string(),
        module_type,
    }
}

fn chunk(registry: &[&str], entry: &str) -> Option<String> {
    Some(format!(
        "var modules = {{\n{}\n}};\nvar entry = \"{}{}",
        registry.concat(),
        entry,
        CHUNK_LOADER
    ))
}

#[test]
fn start_asks_for_the_entrypoint() {
    let (loader, first) = ModuleLoader::start(config("/project/a.js"));
    assert_eq!(first, build("/project/a.js"));
    assert!(loader.is_active());
    assert!(!loader.has_failed());
    assert!(!loader.has_exited());
    assert_eq!(loader.chunk(), None);
    assert_eq!(loader.compilation().graph.entrypoints(), &vec!["a.js".to_string()]);
    assert!(loader.compilation().graph.modules().is_empty());
}

#[test]
fn side_effect_import_loads_the_dependency() {
    let (mut loader, _) = ModuleLoader::start(config("/project/a.js"));
    assert_eq!(
        loader.handle(built(
            "/project/a.js",
            "require(\"./b\", false);\nconsole.log(1);\n",
            ModuleType::ESM,
            vec![dependency("./b", ImportType::SideEffect)]
        )),
        Ok(vec![resolve("a.js", "/project/a.js", "./b")])
    );
    assert_eq!(loader.chunk(), None);
    assert_eq!(
        loader.handle(resolved("a.js", "./b", "/project/b.js")),
        Ok(vec![build("/project/b.js")])
    );
    assert_eq!(loader.chunk(), None);
    assert_eq!(
        loader.handle(built("/project/b.js", "console.log(2);\n", ModuleType::CommonJS, vec![])),
        Ok(vec![WorkMsg::Exit])
    );
    assert!(!loader.is_active());
    assert_eq!(loader.handle(ResultMsg::Exited), Ok(vec![]));
    assert!(loader.has_exited());
    assert_eq!(
        loader.chunk(),
        chunk(
            &[
                "\"a.js\": [function(exports, require) {require(\"b.js\", false);\nconsole.log(1);\n},'ESM'],",
                "\"b.js\": [function(module, require) {console.log(2);\n},'CJS'],",
            ],
            "a.js"
        )
    );
    let c = loader.into_compilation();
    assert_eq!(c.graph.dependencies_of("a.js"), vec!["b.js"]);
    assert_eq!(
        c.diagnostics.lines(),
        vec!["Module a.js built in 2ms", "Module b.js built in 2ms"]
    );
}

#[test]
fn default_and_named_import_of_one_request_resolve_it_once() {
    let (mut loader, _) = ModuleLoader::start(config("/project/a.js"));
    assert_eq!(
        loader.handle(built(
            "/project/a.js",
            "var { default: D } = require(\"./b\", true);\nvar { x: y } = require(\"./b\", false);\nconsole.log(D, y);\n",
            ModuleType::ESM,
            vec![
                dependency("./b", ImportType::Default("D".to_string())),
                dependency(
                    "./b",
                    ImportType::Named(vec![NamedImport {
                        local: "y".to_string(),
                        import_name: "x".to_string()
                    }])
                ),
            ]
        )),
        Ok(vec![resolve("a.js", "/project/a.js", "./b")])
    );
    assert_eq!(
        loader.handle(resolved("a.js", "./b", "/project/b.js")),
        Ok(vec![build("/project/b.js")])
    );
    assert_eq!(
        loader.handle(built(
            "/project/b.js",
            "exports.default = 1;\nexports.x = 2;\n",
            ModuleType::ESM,
            vec![]
        )),
        Ok(vec![WorkMsg::Exit])
    );
    assert_eq!(
        loader.compilation().graph.modules(),
        &vec![
            module(
                "a.js",
                "var { default: D } = require(\"b.js\", true);\nvar { x: y } = require(\"b.js\", false);\nconsole.log(D, y);\n",
                ModuleType::ESM
            ),
            module("b.js", "exports.default = 1;\nexports.x = 2;\n", ModuleType::ESM),
        ]
    );
}

#[test]
fn commonjs_entry_with_esm_dependency_is_tagged_by_kind() {
    let (mut loader, _) = ModuleLoader::start(config("/project/a.js"));
    assert_eq!(
        loader.handle(built(
            "/project/a.js",
            "const b = require(\"./b\");\nconsole.log(b.default.z);\n",
            ModuleType::CommonJS,
            vec![dependency("./b", ImportType::Require)]
        )),
        Ok(vec![resolve("a.js", "/project/a.js", "./b")])
    );
    assert_eq!(
        loader.handle(resolved("a.js", "./b", "/project/b.js")),
        Ok(vec![build("/project/b.js")])
    );
    assert_eq!(
        loader.handle(built(
            "/project/b.js",
            "exports.default = {\n    z: 42\n};\n",
            ModuleType::ESM,
            vec![]
        )),
        Ok(vec![WorkMsg::Exit])
    );
    assert_eq!(
        loader.chunk(),
        chunk(
            &[
                "\"a.js\": [function(module, require) {const b = require(\"b.js\");\nconsole.log(b.default.z);\n},'CJS'],",
                "\"b.js\": [function(exports, require) {exports.default = {\n    z: 42\n};\n},'ESM'],",
            ],
            "a.js"
        )
    );
}

#[test]
fn diamond_builds_each_module_once() {
    let (mut loader, _) = ModuleLoader::start(config("/project/a.js"));
    let import = |request: &str| dependency(request, ImportType::SideEffect);
    assert_eq!(
        loader.handle(built("/project/a.js", "a", ModuleType::ESM, vec![import("./b"), import("./c")])),
        Ok(vec![resolve("a.js", "/project/a.js", "./b"), resolve("a.js", "/project/a.js", "./c")])
    );
    assert_eq!(
        loader.handle(resolved("a.js", "./c", "/project/c.js")),
        Ok(vec![build("/project/c.js")])
    );
    assert_eq!(
        loader.handle(resolved("a.js", "./b", "/project/b.js")),
        Ok(vec![build("/project/b.js")])
    );
    assert_eq!(
        loader.handle(built("/project/b.js", "b", ModuleType::ESM, vec![import("./d")])),
        Ok(vec![resolve("b.js", "/project/b.js", "./d")])
    );
    assert_eq!(
        loader.handle(built("/project/c.js", "c", ModuleType::ESM, vec![import("./d")])),
        Ok(vec![resolve("c.js", "/project/c.js", "./d")])
    );
    assert_eq!(
        loader.handle(resolved("c.js", "./d", "/project/d.js")),
        Ok(vec![build("/project/d.js")])
    );
    assert_eq!(loader.handle(resolved("b.js", "./d", "/project/d.js")), Ok(vec![]));
    assert_eq!(loader.chunk(), None);
    assert_eq!(
        loader.handle(built("/project/d.js", "exports.v = 1;\n", ModuleType::ESM, vec![])),
        Ok(vec![WorkMsg::Exit])
    );
    let text = loader.chunk().unwrap();
    assert_eq!(text.matches(": [function(").count(), 4);
    for id in ["a.js", "b.js", "c.js", "d.js"] {
        assert_eq!(text.matches(&format!("\"{}\": [function(", id)).count(), 1);
    }
    let graph = &loader.compilation().graph;
    let ids: Vec<&str> = graph.modules().iter().map(|m| m.id.as_str()).collect();
    assert_eq!(ids, vec!["a.js", "b.js", "c.js", "d.js"]);
    assert_eq!(graph.dependencies_of("a.js"), vec!["b.js", "c.js"]);
    assert_eq!(graph.dependencies_of("b.js"), vec!["d.js"]);
    assert_eq!(graph.dependencies_of("c.js"), vec!["d.js"]);
    let mut deps = graph.get_module_deps("a.js");
    deps.sort();
    assert_eq!(deps, vec!["b.js", "c.js", "d.js"]);
}

#[test]
fn cycle_ends_after_the_last_resolution() {
    let (mut loader, _) = ModuleLoader::start(config("/project/a.js"));
    let named = |request: &str, name: &str| {
        dependency(
            request,
            ImportType::Named(vec![NamedImport {
                local: name.to_string(),
                import_name: name.to_string(),
            }]),
        )
    };
    assert_eq!(
        loader.handle(built(
            "/project/a.js",
            "var { b } = require(\"./b\", false);\nexports.a = 1;\nconsole.log(b);\n",
            ModuleType::ESM,
            vec![named("./b", "b")]
        )),
        Ok(vec![resolve("a.js", "/project/a.js", "./b")])
    );
    assert_eq!(
        loader.handle(resolved("a.js", "./b", "/project/b.js")),
        Ok(vec![build("/project/b.js")])
    );
    assert_eq!(
        loader.handle(built(
            "/project/b.js",
            "var { a } = require(\"./a\", false);\nexports.b = 2;\nconsole.log(a);\n",
            ModuleType::ESM,
            vec![named("./a", "a")]
        )),
        Ok(vec![resolve("b.js", "/project/b.js", "./a")])
    );
    assert_eq!(
        loader.handle(resolved("b.js", "./a", "/project/a.js")),
        Ok(vec![WorkMsg::Exit])
    );
    assert_eq!(loader.handle(ResultMsg::Exited), Ok(vec![]));
    assert_eq!(
        loader.chunk(),
        chunk(
            &[
                "\"a.js\": [function(exports, require) {var { b } = require(\"b.js\", false);\nexports.a = 1;\nconsole.log(b);\n},'ESM'],",
                "\"b.js\": [function(exports, require) {var { a } = require(\"a.js\", false);\nexports.b = 2;\nconsole.log(a);\n},'ESM'],",
            ],
            "a.js"
        )
    );
    let graph = &loader.compilation().graph;
    assert_eq!(graph.get_module_deps("a.js"), vec!["b.js"]);
    assert_eq!(graph.get_module_deps("b.js"), vec!["a.js"]);
}

#[test]
fn reexport_loads_the_source_module() {
    let (mut loader, _) = ModuleLoader::start(config("/project/index.js"));
    assert_eq!(
        loader.handle(built(
            "/project/index.js",
            "var { x } = require(\"./m\", false);\nexports.x = x;\n",
            ModuleType::ESM,
            vec![dependency(
                "./m",
                ImportType::Named(vec![NamedImport {
                    local: "x".to_string(),
                    import_name: "x".to_string()
                }])
            )]
        )),
        Ok(vec![resolve("index.js", "/project/index.js", "./m")])
    );
    assert_eq!(
        loader.handle(resolved("index.js", "./m", "/project/m.js")),
        Ok(vec![build("/project/m.js")])
    );
    assert_eq!(
        loader.handle(built("/project/m.js", "exports.x = 7;\n", ModuleType::ESM, vec![])),
        Ok(vec![WorkMsg::Exit])
    );
    assert_eq!(
        loader.chunk(),
        chunk(
            &[
                "\"index.js\": [function(exports, require) {var { x } = require(\"m.js\", false);\nexports.x = x;\n},'ESM'],",
                "\"m.js\": [function(exports, require) {exports.x = 7;\n},'ESM'],",
            ],
            "index.js"
        )
    );
}

#[test]
fn entrypoint_without_dependencies_ends_at_once() {
    let (mut loader, _) = ModuleLoader::start(config("/project/a.js"));
    assert_eq!(
        loader.handle(built("/project/a.js", "1;", ModuleType::CommonJS, vec![])),
        Ok(vec![WorkMsg::Exit])
    );
    assert_eq!(
        loader.chunk(),
        chunk(&["\"a.js\": [function(module, require) {1;},'CJS'],"], "a.js")
    );
}

#[test]
fn module_outside_the_root_keeps_its_path_as_id() {
    let (mut loader, _) = ModuleLoader::start(config("/project/a.js"));
    assert_eq!(
        loader.handle(built(
            "/project/a.js",
            "require(\"lib\");",
            ModuleType::CommonJS,
            vec![dependency("lib", ImportType::Require)]
        )),
        Ok(vec![resolve("a.js", "/project/a.js", "lib")])
    );
    assert_eq!(
        loader.handle(resolved("a.js", "lib", "/shared/lib/index.js")),
        Ok(vec![build("/shared/lib/index.js")])
    );
    assert_eq!(
        loader.handle(built("/shared/lib/index.js", "2;", ModuleType::CommonJS, vec![])),
        Ok(vec![WorkMsg::Exit])
    );
    assert_eq!(
        loader.compilation().graph.modules()[0].code,
        "require(\"/shared/lib/index.js\");"
    );
    assert_eq!(loader.compilation().graph.dependencies_of("a.js"), vec!["/shared/lib/index.js"]);
}

#[test]
fn results_that_were_not_asked_for_are_refused() {
    let (mut loader, _) = ModuleLoader::start(config("/project/a.js"));
    assert_eq!(
        loader.handle(built("/project/other.js", "1;", ModuleType::ESM, vec![])),
        Err(LoadError::UnexpectedBuild)
    );
    assert_eq!(
        loader.handle(resolved("a.js", "./b", "/project/b.js")),
        Err(LoadError::UnexpectedResolve)
    );
    assert_eq!(loader.handle(ResultMsg::Exited), Err(LoadError::UnexpectedExit));
    assert!(loader.is_active());
    assert!(loader.compilation().graph.modules().is_empty());
    assert_eq!(
        loader.handle(built(
            "/project/a.js",
            "1;",
            ModuleType::ESM,
            vec![dependency("./b", ImportType::SideEffect)]
        )),
        Ok(vec![resolve("a.js", "/project/a.js", "./b")])
    );
    assert_eq!(
        loader.handle(built("/project/a.js", "1;", ModuleType::ESM, vec![])),
        Err(LoadError::UnexpectedBuild)
    );
    assert_eq!(
        loader.handle(resolved("a.js", "./c", "/project/c.js")),
        Err(LoadError::UnexpectedResolve)
    );
    assert_eq!(
        loader.handle(resolved("a.js", "./b", "/project/a.js")),
        Ok(vec![WorkMsg::Exit])
    );
    assert_eq!(
        loader.handle(resolved("a.js", "./b", "/project/a.js")),
        Err(LoadError::UnexpectedResolve)
    );
    assert_eq!(loader.handle(ResultMsg::Exited), Ok(vec![]));
    assert_eq!(loader.handle(ResultMsg::Exited), Err(LoadError::AlreadyExited));
    assert_eq!(
        loader.handle(built("/project/a.js", "1;", ModuleType::ESM, vec![])),
        Err(LoadError::AlreadyExited)
    );
}

#[test]
fn failure_ends_the_build_without_a_chunk() {
    let (mut loader, _) = ModuleLoader::start(config("/project/a.js"));
    assert_eq!(
        loader.handle(built(
            "/project/a.js",
            "1;",
            ModuleType::ESM,
            vec![dependency("./b", ImportType::SideEffect), dependency("./c", ImportType::SideEffect)]
        )),
        Ok(vec![resolve("a.js", "/project/a.js", "./b"), resolve("a.js", "/project/a.js", "./c")])
    );
    let failure = BuildFailure {
        kind: ErrorKind::Resolve,
        path: "/project/a.js".to_string(),
        detail: "Failed to resolve ./b".to_string(),
    };
    assert_eq!(loader.handle(ResultMsg::Failed(failure)), Ok(vec![WorkMsg::Exit]));
    assert!(loader.has_failed());
    assert_eq!(loader.chunk(), None);
    assert_eq!(loader.handle(resolved("a.js", "./c", "/project/c.js")), Ok(vec![]));
    assert_eq!(
        loader.handle(built("/project/zzz.js", "1;", ModuleType::ESM, vec![])),
        Ok(vec![])
    );
    let second = BuildFailure {
        kind: ErrorKind::Read,
        path: "/project/c.js".to_string(),
        detail: "Failed to read file".to_string(),
    };
    assert_eq!(loader.handle(ResultMsg::Failed(second)), Ok(vec![]));
    assert_eq!(loader.handle(ResultMsg::Exited), Ok(vec![]));
    assert_eq!(loader.chunk(), None);
    assert_eq!(loader.compilation().graph.dependencies_of("a.js"), Vec::<String>::new());
    assert_eq!(
        loader.compilation().diagnostics.lines(),
        vec![
            "Module a.js built in 2ms",
            "Resolve: /project/a.js: Failed to resolve ./b",
            "Read: /project/c.js: Failed to read file",
        ]
    );
}

#[test]
fn build_module_reports_code_that_is_no_text() {
    assert_eq!(
        build_module("/project/a.js".to_string(), None, ModuleType::ESM, vec![], 1),
        ResultMsg::Failed(BuildFailure {
            kind: ErrorKind::Emit,
            path: "/project/a.js".to_string(),
            detail: "Failed to emit buffer".to_string(),
        })
    );
    assert_eq!(
        build_module("/project/a.js".to_string(), Some(vec![0xff]), ModuleType::ESM, vec![], 1),
        ResultMsg::Failed(BuildFailure {
            kind: ErrorKind::Emit,
            path: "/project/a.js".to_string(),
            detail: "Failed to convert UTF-8 buffer to string buffer".to_string(),
        })
    );
    assert_eq!(
        build_module(
            "/project/a.js".to_string(),
            Some(vec![0x31, 0x3b]),
            ModuleType::CommonJS,
            vec![dependency("./b", ImportType::Require)],
            9
        ),
        ResultMsg::BuildModule(BuildModuleSuccess {
            filepath: "/project/a.js".to_string(),
            code: "1;".to_string(),
            module_type: ModuleType::CommonJS,
            dependencies: vec![dependency("./b", ImportType::Require)],
            duration: 9,
        })
    );
}

#[test]
fn resolve_module_reports_what_the_resolver_gave() {
    let work = || ResolveModule {
        source_filepath: "/project/src/a.js".to_string(),
        request: "./b".to_string(),
        parent_module_id: "src/a.js".to_string(),
    };
    assert_eq!(work().basedir(), "/project/src");
    assert_eq!(
        resolve_module(work(), Some("/project/src/b.ts".to_string())),
        resolved("src/a.js", "./b", "/project/src/b.ts")
    );
    assert_eq!(
        resolve_module(work(), None),
        ResultMsg::Failed(BuildFailure {
            kind: ErrorKind::Resolve,
            path: "/project/src/a.js".to_string(),
            detail: "Failed to resolve ./b".to_string(),
        })
    );
}

#[test]
fn request_literal_is_rewritten_wherever_it_stands() {
    let (mut loader, _) = ModuleLoader::start(config("/project/a.js"));
    assert_eq!(
        loader.handle(built(
            "/project/a.js",
            "r(\"./b\"); r(\"./bar\"); r(\"./b\"); r(\"./b\"); r(\"./b\"); r(\"./b\"); r(\"./b\"); ./b",
            ModuleType::CommonJS,
            vec![dependency("./b", ImportType::Require)]
        )),
        Ok(vec![resolve("a.js", "/project/a.js", "./b")])
    );
    assert_eq!(
        loader.handle(resolved("a.js", "./b", "/project/b.js")),
        Ok(vec![build("/project/b.js")])
    );
    assert_eq!(
        loader.compilation().graph.modules()[0].code,
        "r(\"b.js\"); r(\"./bar\"); r(\"b.js\"); r(\"b.js\"); r(\"b.js\"); r(\"b.js\"); r(\"b.js\"); ./b"
    );
}

#[test]
fn edges_of_a_module_follow_its_source_whatever_comes_first() {
    let (mut loader, _) = ModuleLoader::start(config("/project/a.js"));
    let import = |request: &str| dependency(request, ImportType::SideEffect);
    assert_eq!(
        loader.handle(built(
            "/project/a.js",
            "a",
            ModuleType::ESM,
            vec![import("./one"), import("./two"), import("./uno"), import("./three"), import("./two")]
        )),
        Ok(vec![
            resolve("a.js", "/project/a.js", "./one"),
            resolve("a.js", "/project/a.js", "./two"),
            resolve("a.js", "/project/a.js", "./uno"),
            resolve("a.js", "/project/a.js", "./three"),
        ])
    );
    assert_eq!(
        loader.handle(resolved("a.js", "./three", "/project/3.js")),
        Ok(vec![build("/project/3.js")])
    );
    assert_eq!(loader.compilation().graph.dependencies_of("a.js"), vec!["3.js"]);
    // two requests that lead to one module: the later one comes first
    assert_eq!(
        loader.handle(resolved("a.js", "./uno", "/project/./1.js")),
        Ok(vec![build("/project/./1.js")])
    );
    assert_eq!(loader.compilation().graph.dependencies_of("a.js"), vec!["1.js", "3.js"]);
    assert_eq!(
        loader.handle(resolved("a.js", "./two", "/project/2.js")),
        Ok(vec![build("/project/2.js")])
    );
    assert_eq!(loader.compilation().graph.dependencies_of("a.js"), vec!["2.js", "1.js", "3.js"]);
    assert_eq!(loader.handle(resolved("a.js", "./one", "/project/1.js")), Ok(vec![]));
    assert_eq!(loader.compilation().graph.dependencies_of("a.js"), vec!["1.js", "2.js", "3.js"]);
    assert_eq!(loader.handle(built("/project/3.js", "3", ModuleType::ESM, vec![])), Ok(vec![]));
    assert_eq!(loader.handle(built("/project/2.js", "2", ModuleType::ESM, vec![])), Ok(vec![]));
    assert_eq!(
        loader.handle(built("/project/./1.js", "1", ModuleType::ESM, vec![])),
        Ok(vec![WorkMsg::Exit])
    );
    let ids: Vec<&str> =
        loader.compilation().graph.modules().iter().map(|m| m.id.as_str()).collect();
    assert_eq!(ids, vec!["a.js", "3.js", "2.js", "1.js"]);
    assert_eq!(loader.compilation().graph.dependencies_of("a.js"), vec!["1.js", "2.js", "3.js"]);
}

#[test]
fn entry_spelled_with_a_dot_is_built_once() {
    let (mut loader, first) = ModuleLoader::start(config("/project/./a.js"));
    assert_eq!(first, build("/project/./a.js"));
    assert_eq!(
        loader.handle(built(
            "/project/./a.js",
            "a",
            ModuleType::ESM,
            vec![dependency("./b", ImportType::SideEffect)]
        )),
        Ok(vec![resolve("a.js", "/project/./a.js", "./b")])
    );
    assert_eq!(
        loader.handle(resolved("a.js", "./b", "/project/b.js")),
        Ok(vec![build("/project/b.js")])
    );
    assert_eq!(
        loader.handle(built(
            "/project/b.js",
            "b",
            ModuleType::ESM,
            vec![dependency("./a", ImportType::SideEffect)]
        )),
        Ok(vec![resolve("b.js", "/project/b.js", "./a")])
    );
    assert_eq!(
        loader.handle(resolved("b.js", "./a", "/project/a.js")),
        Ok(vec![WorkMsg::Exit])
    );
    let ids: Vec<&str> =
        loader.compilation().graph.modules().iter().map(|m| m.id.as_str()).collect();
    assert_eq!(ids, vec!["a.js", "b.js"]);
}

#[test]
fn finished_graph_mentions_built_modules_only() {
    let (mut loader, _) = ModuleLoader::start(config("/project/a.js"));
    let import = |request: &str| dependency(request, ImportType::SideEffect);
    assert_eq!(
        loader.handle(built("/project/a.js", "a", ModuleType::ESM, vec![import("./b"), import("lib")])),
        Ok(vec![resolve("a.js", "/project/a.js", "./b"), resolve("a.js", "/project/a.js", "lib")])
    );
    assert_eq!(
        loader.handle(resolved("a.js", "./b", "/project/b.js")),
        Ok(vec![build("/project/b.js")])
    );
    // while work is out, an edge may lead to a module that is not built yet
    assert_eq!(loader.compilation().graph.dependencies_of("a.js"), vec!["b.js"]);
    assert!(!loader.compilation().graph.has_module("b.js"));
    assert_eq!(
        loader.handle(resolved("a.js", "lib", "/shared/lib.js")),
        Ok(vec![build("/shared/lib.js")])
    );
    assert_eq!(
        loader.handle(built("/shared/lib.js", "l", ModuleType::CommonJS, vec![import("./b")])),
        Ok(vec![resolve("/shared/lib.js", "/shared/lib.js", "./b")])
    );
    assert_eq!(loader.handle(built("/project/b.js", "b", ModuleType::ESM, vec![])), Ok(vec![]));
    assert_eq!(
        loader.handle(resolved("/shared/lib.js", "./b", "/project/b.js")),
        Ok(vec![WorkMsg::Exit])
    );
    let graph = &loader.compilation().graph;
    for module in graph.modules() {
        for dep in graph.dependencies_of(&module.id) {
            assert!(graph.has_module(&dep));
        }
    }
    for entry in graph.entrypoints() {
        assert!(graph.has_module(entry));
    }
    let ids: Vec<&str> = graph.modules().iter().map(|m| m.id.as_str()).collect();
    assert_eq!(ids, vec!["a.js", "/shared/lib.js", "b.js"]);
    let text = loader.chunk().unwrap();
    for id in ids {
        assert_eq!(text.matches(&format!("\"{}\": [function(", id)).count(), 1);
    }
}
