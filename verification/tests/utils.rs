use ducttape::utils::{create_module_id, parent_dir, resolve_extensions, strip_invalid_chars};

#[test]
fn module_id_is_relative_to_the_root() {
    assert_eq!(create_module_id("/project/src/a.js", "/project"), "src/a.js");
    assert_eq!(create_module_id("/project/a.js", "/project/"), "a.js");
    assert_eq!(create_module_id("/a.js", "/"), "a.js");
}

#[test]
fn module_id_outside_the_root_is_the_path() {
    assert_eq!(create_module_id("/other/a.js", "/project"), "/other/a.js");
    assert_eq!(create_module_id("/projects/a.js", "/project"), "/projects/a.js");
    assert_eq!(create_module_id("/project", "/project"), "/project");
    assert_eq!(create_module_id("/project/", "/project"), "/project");
    assert_eq!(create_module_id("/a.js", ""), "/a.js");
    assert_eq!(create_module_id("project/a.js", "/project"), "project/a.js");
    assert_eq!(create_module_id("", "/project"), "");
    assert_eq!(create_module_id("/", "/project"), "/");
}

#[test]
fn spellings_of_one_file_get_one_module_id() {
    for path in [
        "/proj/src/a.js",
        "/proj/./src/a.js",
        "/proj//src/a.js",
        "//proj/src/./a.js",
        "/proj/src//a.js/",
    ] {
        assert_eq!(create_module_id(path, "/proj"), "src/a.js");
        assert_eq!(create_module_id(path, "/proj/"), "src/a.js");
        assert_eq!(create_module_id(path, "/./proj//"), "src/a.js");
        assert_eq!(create_module_id(path, "/other"), "/proj/src/a.js");
    }
    assert_eq!(create_module_id("./src/a.js", "."), "src/a.js");
    assert_eq!(create_module_id("src/./a.js", ""), "src/a.js");
}

#[test]
fn different_files_get_different_module_ids() {
    assert_eq!(create_module_id("/proj/src/a.js", "/proj"), "src/a.js");
    assert_eq!(create_module_id("/proj/src/b.js", "/proj"), "src/b.js");
    assert_eq!(create_module_id("/src/a.js", "/proj"), "/src/a.js");
    assert_eq!(create_module_id("/proj/.src/a.js", "/proj"), ".src/a.js");
    assert_eq!(create_module_id("/proj/../a.js", "/proj"), "../a.js");
}

#[test]
fn strip_invalid_chars_replaces_slash_dot_hyphen() {
    assert_eq!(strip_invalid_chars("./my-lib/index.js"), "__my_lib_index_js");
    assert_eq!(strip_invalid_chars("plain_name"), "plain_name");
    assert_eq!(strip_invalid_chars(""), "");
    assert_eq!(strip_invalid_chars("é-ü"), "é_ü");
}

#[test]
fn parent_dir_is_what_stands_before_the_last_slash() {
    assert_eq!(parent_dir("/project/src/a.js"), "/project/src");
    assert_eq!(parent_dir("/a.js"), "/");
    assert_eq!(parent_dir("a.js"), "");
    assert_eq!(parent_dir("src/a.js"), "src");
    assert_eq!(parent_dir(""), "");
    assert_eq!(parent_dir("/project/src/"), "/project/src");
}

#[test]
fn resolve_extensions_are_tried_in_order() {
    assert_eq!(resolve_extensions(), vec!["ts", "tsx", "js", "mjs", "json"]);
}
