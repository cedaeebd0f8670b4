use ducttape::{Compilation, Config};

fn config() -> Config {
    Config {
        project_root: "/project".to_string(),
        entrypoint: "/project/src/index.js".to_string(),
        output_dir: "/project/dist".to_string(),
    }
}

#[test]
fn config_derives_entry_id_and_output_file() {
    assert_eq!(config().entry_id(), "src/index.js");
    assert_eq!(config().output_filepath(), "/project/dist/main.js");
}

#[test]
fn config_banner_names_the_paths() {
    assert_eq!(
        config().banner(),
        "Entrypoint: '/project/src/index.js'\nOutput dir: '/project/dist'\nProject root: '/project'"
    );
}

#[test]
fn new_compilation_holds_only_the_entrypoint() {
    let c = Compilation::new(config());
    assert_eq!(c.config, config());
    assert_eq!(c.graph.entrypoints(), &vec!["src/index.js".to_string()]);
    assert!(c.graph.modules().is_empty());
    assert!(c.diagnostics.lines().is_empty());
    assert!(c.graph.get_module_deps("src/index.js").is_empty());
}
