use ducttape::js_module::{JsModule, ModuleType};
use ducttape::module_graph::{GraphError, ModuleGraph};

fn module(id: &str, code: &str) -> JsModule {
    JsModule {
        id: id.to_string(),
        filepath: format!("/project/{}", id),
        code: code.to_string(),
        module_type: ModuleType::ESM,
    }
}

fn graph(edges: &[(&str, &str)]) -> ModuleGraph {
    let mut g = ModuleGraph::new();
    for (from, to) in edges {
        g.add_dependency(from, to);
    }
    g
}

fn sorted(mut ids: Vec<String>) -> Vec<String> {
    ids.sort();
    ids
}

#[test]
fn new_graph_is_empty() {
    let g = ModuleGraph::new();
    assert!(g.modules().is_empty());
    assert!(g.entrypoints().is_empty());
    assert!(!g.has_module("a"));
    assert!(g.get_module("a").is_none());
    assert_eq!(g.get_module_deps("a"), Vec::<String>::new());
    assert_eq!(g.listing(), "");
}

#[test]
fn add_module_keeps_each_id_once() {
    let mut g = ModuleGraph::new();
    assert_eq!(g.add_module(module("a", "1")), Ok(()));
    assert_eq!(g.add_module(module("b", "2")), Ok(()));
    assert_eq!(g.add_module(module("a", "3")), Err(GraphError::DuplicateModule));
    assert!(g.has_module("a"));
    assert!(g.has_module("b"));
    assert!(!g.has_module("c"));
    assert_eq!(g.modules(), &vec![module("a", "1"), module("b", "2")]);
    assert_eq!(g.get_module("a"), Some(&module("a", "1")));
    assert_eq!(g.get_module("c"), None);
}

#[test]
fn add_dependency_keeps_first_seen_order_and_each_edge_once() {
    let g = graph(&[("a", "b"), ("a", "c"), ("b", "c"), ("a", "b"), ("a", "a")]);
    assert_eq!(g.dependencies_of("a"), vec!["b", "c", "a"]);
    assert_eq!(g.dependencies_of("b"), vec!["c"]);
    assert_eq!(g.dependencies_of("c"), Vec::<String>::new());
    assert!(g.has_dependency("a", "b"));
    assert!(!g.has_dependency("b", "a"));
}

#[test]
fn clear_dependencies_forgets_the_edges_only() {
    let mut g = graph(&[("a", "b"), ("a", "c")]);
    assert_eq!(g.add_module(module("a", "1")), Ok(()));
    g.add_entrypoint("a".to_string());
    g.clear_dependencies();
    assert_eq!(g.dependencies_of("a"), Vec::<String>::new());
    assert!(!g.has_dependency("a", "b"));
    assert!(g.has_module("a"));
    assert_eq!(g.entrypoints(), &vec!["a".to_string()]);
}

#[test]
fn add_entrypoint_keeps_each_entrypoint_once() {
    let mut g = ModuleGraph::new();
    g.add_entrypoint("a".to_string());
    g.add_entrypoint("b".to_string());
    g.add_entrypoint("a".to_string());
    assert_eq!(g.entrypoints(), &vec!["a".to_string(), "b".to_string()]);
}

#[test]
fn module_deps_are_transitive() {
    let g = graph(&[("a", "b"), ("b", "c"), ("c", "d"), ("x", "y")]);
    assert_eq!(sorted(g.get_module_deps("a")), vec!["b", "c", "d"]);
    assert_eq!(sorted(g.get_module_deps("c")), vec!["d"]);
    assert_eq!(sorted(g.get_module_deps("d")), Vec::<String>::new());
    assert_eq!(sorted(g.get_module_deps("x")), vec!["y"]);
    assert_eq!(sorted(g.get_module_deps("unknown")), Vec::<String>::new());
}

#[test]
fn module_deps_of_a_diamond_hold_each_module_once() {
    let g = graph(&[("a", "b"), ("a", "c"), ("b", "d"), ("c", "d")]);
    assert_eq!(sorted(g.get_module_deps("a")), vec!["b", "c", "d"]);
    assert_eq!(sorted(g.get_module_deps("b")), vec!["d"]);
}

#[test]
fn module_deps_end_on_a_cycle_and_leave_the_module_out() {
    let g = graph(&[("a", "b"), ("b", "a")]);
    assert_eq!(g.get_module_deps("a"), vec!["b"]);
    assert_eq!(g.get_module_deps("b"), vec!["a"]);
    let g = graph(&[("a", "a")]);
    assert_eq!(g.get_module_deps("a"), Vec::<String>::new());
    let g = graph(&[("a", "b"), ("b", "c"), ("c", "a"), ("c", "d")]);
    assert_eq!(sorted(g.get_module_deps("b")), vec!["a", "c", "d"]);
}

#[test]
fn update_dep_src_rewrites_one_module() {
    let mut g = ModuleGraph::new();
    assert_eq!(g.add_module(module("a", "require(\"./b\")")), Ok(()));
    assert_eq!(g.add_module(module("b", "require(\"./b\")")), Ok(()));
    assert!(g.update_dep_src("a", "./b", "b"));
    assert!(!g.update_dep_src("c", "./b", "b"));
    assert_eq!(g.modules(), &vec![module("a", "require(\"b\")"), module("b", "require(\"./b\")")]);
}

#[test]
fn listing_shows_id_and_code_of_each_module() {
    let mut g = ModuleGraph::new();
    assert_eq!(g.add_module(module("a", "one();")), Ok(()));
    assert_eq!(g.add_module(module("b", "two();")), Ok(()));
    assert_eq!(g.listing(), "a\none();\nb\ntwo();\n");
}
