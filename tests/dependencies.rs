use dep_bump::manifest::get_dependencies_from_toml;
use dep_bump::resolver::{argument, path_argument, dependency_newest_version, version_of_manifest};
use dep_bump::rewriter::rewrite;
use dep_bump::tokenizer::get_args_from_flat_dict;

fn pairs(items: &[(&str, &str)]) -> Vec<(String, String)> {
    items.iter().map(|(k, v)| (k.to_string(), v.to_string())).collect()
}

#[test]
fn tokenize_two_pairs_in_order() {
    assert_eq!(get_args_from_flat_dict("a=\"1\",b=\"2\""), pairs(&[("a", "1"), ("b", "2")]));
}

#[test]
fn tokenize_compact_inline_table() {
    let got = get_args_from_flat_dict("version=\"1.0\", path=\"../x\"}");
    assert_eq!(got, pairs(&[("version", "1.0"), ("path", "../x")]));
}

#[test]
fn tokenize_value_closes_at_repeated_first_character() {
    let got = get_args_from_flat_dict(" version = \"1.0\", path = \"../x\" }");
    assert_eq!(got, pairs(&[("version", "1.0\",")]));
}

#[test]
fn tokenize_quoted_keys_and_empty_body() {
    assert_eq!(get_args_from_flat_dict("\"a\" =\"x\""), pairs(&[("a", "x")]));
    assert_eq!(get_args_from_flat_dict(""), pairs(&[]));
    assert_eq!(get_args_from_flat_dict("a"), pairs(&[]));
}

#[test]
fn extraction_ignores_other_sections() {
    assert!(get_dependencies_from_toml("[package]\nkey = \"1.0\"\n").is_empty());
    assert!(get_dependencies_from_toml("key = \"1.0\"\n").is_empty());
}

#[test]
fn section_header_then_string_dependency() {
    let deps = get_dependencies_from_toml("[dependencies]\nserde = \"1.0\"");
    assert_eq!(deps.len(), 1);
    assert_eq!(deps[0].name, "serde");
    assert_eq!(deps[0].args, pairs(&[("version", "1.0")]));
    assert_eq!(deps[0].original_line, "serde = \"1.0\"");
    assert_eq!(deps[0].line, 1);
    assert_eq!(deps[0].column, 0);
}

#[test]
fn comment_is_stripped() {
    let with = get_dependencies_from_toml("[dependencies]\ndep = \"1.0\" # pinned");
    let without = get_dependencies_from_toml("[dependencies]\ndep = \"1.0\"");
    assert_eq!(with.len(), 1);
    assert_eq!(without.len(), 1);
    assert_eq!(with[0].name, without[0].name);
    assert_eq!(with[0].args, without[0].args);
    assert_eq!(with[0].original_line, without[0].original_line);
    assert_eq!(with[0].column, without[0].column);
}

#[test]
fn inline_table_dependency_and_section_names() {
    let text = "[package]\nname = \"x\"\n\n[target.linux.dependencies]\n  a = {version=\"0.1\", path=\"../a\"}\nb = 5\nc\n[dev-dependencies]\nd=\"2\"\n";
    let deps = get_dependencies_from_toml(text);
    assert_eq!(deps.len(), 2);
    assert_eq!(deps[0].name, "a");
    assert_eq!(deps[0].args, pairs(&[("version", "0.1"), ("path", "../a")]));
    assert_eq!(deps[0].line, 4);
    assert_eq!(deps[0].column, 2);
    assert_eq!(deps[1].name, "d");
    assert_eq!(deps[1].args, pairs(&[("version", "2")]));
    assert_eq!(deps[1].line, 8);
}

#[test]
fn unicode_white_space_is_trimmed() {
    let deps = get_dependencies_from_toml("[dependencies]\n\u{3000}foo\u{a0}= \"1.0\"\t");
    assert_eq!(deps.len(), 1);
    assert_eq!(deps[0].name, "foo");
    assert_eq!(deps[0].column, 1);
}

#[test]
fn empty_manifest_has_no_declarations() {
    assert!(get_dependencies_from_toml("").is_empty());
    assert!(get_dependencies_from_toml("\n\n# only a comment\n").is_empty());
}

#[test]
fn argument_lookup_takes_first_match() {
    let deps = get_dependencies_from_toml("[dependencies]\na = {path=\"x\",path=\"y\"}");
    assert_eq!(argument(&deps[0], "path"), Some("x".to_string()));
    assert_eq!(path_argument(&deps[0]), Some("x".to_string()));
    assert_eq!(argument(&deps[0], "version"), None);
}

#[test]
fn local_path_resolution() {
    let deps = get_dependencies_from_toml("[dependencies]\na = { path = \"../a\" }");
    assert_eq!(deps.len(), 1);
    let sibling = "[package]\nname = \"a\"\nversion = \"2.3.4\"\n";
    let found = dependency_newest_version(&deps[0], Some(sibling)).unwrap();
    assert_eq!(found, " \"2.3.4\"");
    assert_eq!(found.trim().trim_matches('"'), "2.3.4");
    let missing = dependency_newest_version(&deps[0], None).unwrap_err();
    assert_eq!(missing.dependency_name, "a");
}

#[test]
fn resolution_needs_path_and_version_line() {
    let no_path = get_dependencies_from_toml("[dependencies]\nb = \"1.0\"");
    let err = dependency_newest_version(&no_path[0], Some("version = \"9\"")).unwrap_err();
    assert_eq!(err.dependency_name, "b");
    let with_path = get_dependencies_from_toml("[dependencies]\na = { path = \"../a\" }");
    assert!(dependency_newest_version(&with_path[0], Some("[package]\nname = \"a\"\n")).is_err());
}

#[test]
fn version_line_of_a_manifest() {
    assert_eq!(version_of_manifest("name = \"a\"\n  version=\"1\"\nversion = \"2\""), Some("\"1\"".to_string()));
    assert_eq!(version_of_manifest("version\nx = 1"), None);
    assert_eq!(version_of_manifest("versions = a=b"), Some(" a=b".to_string()));
}

#[test]
fn rewrite_example() {
    let text = "[dependencies]\nfoo = \"1.0\"\n";
    let deps = get_dependencies_from_toml(text);
    let (out, changed) = rewrite(text, &deps, &vec![Some("1.2.0".to_string())]);
    assert_eq!(out, "[dependencies]\nfoo = \"1.2.0\"\n");
    assert!(changed);
    let (same, changed) = rewrite(text, &deps, &vec![Some("1.0".to_string())]);
    assert_eq!(same, text);
    assert!(!changed);
}

#[test]
fn rewrite_normalizes_resolved_version() {
    let text = "[dependencies]\nfoo = \"1.0\"";
    let deps = get_dependencies_from_toml(text);
    let (out, changed) = rewrite(text, &deps, &vec![Some(" \"1.2.0\"\n".to_string())]);
    assert_eq!(out, "[dependencies]\nfoo = \"1.2.0\"");
    assert!(changed);
    let (same, changed) = rewrite(text, &deps, &vec![Some(" \"1.0\" ".to_string())]);
    assert_eq!(same, text);
    assert!(!changed);
}

#[test]
fn rewrite_twice_changes_nothing_more() {
    let text = "[dependencies]\nfoo = \"1.0\" # pinned\nbar = {version=\"0.3\", path=\"../bar\"}\n";
    let resolved = vec![Some("1.1".to_string()), Some(" \"0.4\"".to_string())];
    let (once, changed) = rewrite(text, &get_dependencies_from_toml(text), &resolved);
    assert!(changed);
    assert_eq!(once, "[dependencies]\nfoo = \"1.1\" # pinned\nbar = {version=\"0.4\", path=\"../bar\"}\n");
    let (twice, changed_again) = rewrite(&once, &get_dependencies_from_toml(&once), &resolved);
    assert!(!changed_again);
    assert_eq!(twice, once);
}

#[test]
fn rewrite_keeps_other_text() {
    let text = "# top\n[package]\nversion = \"1.0\"\n\n[dependencies]   # deps\n   foo = \"1.0\"   # keep me\nbar = \"1.0\"\n[profile]\nx = \"1.0\"";
    let deps = get_dependencies_from_toml(text);
    assert_eq!(deps.len(), 2);
    let (out, changed) = rewrite(text, &deps, &vec![Some("2.0".to_string()), None]);
    assert!(changed);
    assert_eq!(out, "# top\n[package]\nversion = \"1.0\"\n\n[dependencies]   # deps\n   foo = \"2.0\"   # keep me\nbar = \"1.0\"\n[profile]\nx = \"1.0\"");
}

#[test]
fn rewrite_patches_the_declaring_line_only() {
    let text = "[dependencies]\nx = \"1.0\"\n[dev-dependencies]\nx = \"1.0\"\n";
    let deps = get_dependencies_from_toml(text);
    assert_eq!(deps.len(), 2);
    let (out, changed) = rewrite(text, &deps, &vec![None, Some("2.0".to_string())]);
    assert!(changed);
    assert_eq!(out, "[dependencies]\nx = \"1.0\"\n[dev-dependencies]\nx = \"2.0\"\n");
}

#[test]
fn rewrite_skips_declarations_without_version() {
    let text = "[dependencies]\na = { path = \"../a\" }\n";
    let deps = get_dependencies_from_toml(text);
    let (out, changed) = rewrite(text, &deps, &vec![Some("3.0".to_string())]);
    assert_eq!(out, text);
    assert!(!changed);
}

#[test]
fn rewrite_skips_stale_declarations() {
    let deps = get_dependencies_from_toml("[dependencies]\nfoo = \"1.0\"");
    let other = "[dependencies]\nbar = \"1.0\"";
    let (out, changed) = rewrite(other, &deps, &vec![Some("2.0".to_string())]);
    assert_eq!(out, other);
    assert!(!changed);
}

#[test]
fn rewrite_replaces_first_occurrence_in_line() {
    let text = "[dependencies]\nv1 = \"1\"";
    let resolved = vec![Some("2".to_string())];
    let (once, changed) = rewrite(text, &get_dependencies_from_toml(text), &resolved);
    assert!(changed);
    assert_eq!(once, "[dependencies]\nv2 = \"1\"");
    let (twice, changed) = rewrite(&once, &get_dependencies_from_toml(&once), &resolved);
    assert!(changed);
    assert_eq!(twice, "[dependencies]\nv2 = \"2\"");
}
