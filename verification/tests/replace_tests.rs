use dify_console::replace::{is_valid_rule_path, replace_yaml_content, ReplaceRule};

fn rule(path: &str, from: &str, to: &str) -> ReplaceRule {
    ReplaceRule { path: path.to_string(), from: from.to_string(), to: to.to_string() }
}

fn as_json(yaml: &str) -> serde_json::Value {
    serde_yaml::from_str(yaml).unwrap()
}

fn json(text: &str) -> serde_json::Value {
    serde_json::from_str(text).unwrap()
}

const DOC: &str = "app:\n  mode: workflow\n  name: test\nworkflow:\n  graph:\n    nodes:\n    - data:\n        model:\n          name: deepseek-chat\n          provider: langgenius/deepseek/deepseek\n    - data:\n        model:\n          name: other\n          provider: someone\n    - data:\n        title: no model\n";

#[test]
fn no_rules_returns_document_unchanged() {
    let out = replace_yaml_content("a:  1\n# keep me\n", &vec![]).unwrap();
    assert_eq!(out, "a:  1\n# keep me\n");
}

#[test]
fn provider_and_name_rules_rewrite_matching_nodes() {
    let rules = vec![
        rule("workflow.graph.nodes.data.model:provider", "langgenius/deepseek/deepseek", "openai"),
        rule("workflow.graph.nodes.data.model:name", "deepseek-chat", "gpt-4o"),
    ];
    let out = replace_yaml_content(DOC, &rules).unwrap();
    let expected = json(r#"{"app":{"mode":"workflow","name":"test"},"workflow":{"graph":{"nodes":[
        {"data":{"model":{"name":"gpt-4o","provider":"openai"}}},
        {"data":{"model":{"name":"other","provider":"someone"}}},
        {"data":{"title":"no model"}}]}}}"#);
    assert_eq!(as_json(&out), expected);
}

#[test]
fn wildcard_rewrites_every_value_and_keeps_types() {
    let rules = vec![rule("workflow.graph.nodes.data.model:provider", "*", "true")];
    let out = replace_yaml_content(DOC, &rules).unwrap();
    let v = as_json(&out);
    assert_eq!(v["workflow"]["graph"]["nodes"][0]["data"]["model"]["provider"], json("true"));
    assert_eq!(v["workflow"]["graph"]["nodes"][1]["data"]["model"]["provider"], json("true"));
    assert!(v["workflow"]["graph"]["nodes"][2]["data"].get("model").is_none());
}

#[test]
fn numbers_compare_by_their_text() {
    let doc = "settings:\n  limit: 10\n  other: '10'\n";
    let out = replace_yaml_content(doc, &vec![rule("settings:limit", "10", "20")]).unwrap();
    assert_eq!(as_json(&out), json(r#"{"settings":{"limit":20,"other":"10"}}"#));
    let out = replace_yaml_content(doc, &vec![rule("settings:other", "10", "x y")]).unwrap();
    assert_eq!(as_json(&out), json(r#"{"settings":{"limit":10,"other":"x y"}}"#));
}

#[test]
fn non_matching_or_missing_fields_stay() {
    let doc = "a:\n  b: keep\n";
    let out = replace_yaml_content(doc, &vec![rule("a:b", "other", "new")]).unwrap();
    assert_eq!(as_json(&out), json(r#"{"a":{"b":"keep"}}"#));
    let out = replace_yaml_content(doc, &vec![rule("a:c", "*", "new")]).unwrap();
    assert_eq!(as_json(&out), json(r#"{"a":{"b":"keep"}}"#));
    let out = replace_yaml_content(doc, &vec![rule("x.y:b", "*", "new")]).unwrap();
    assert_eq!(as_json(&out), json(r#"{"a":{"b":"keep"}}"#));
}

#[test]
fn empty_segment_part_targets_the_root() {
    let doc = "top: 1\n";
    let out = replace_yaml_content(doc, &vec![rule(":top", "1", "\"one\"")]).unwrap();
    assert_eq!(as_json(&out), json(r#"{"top":"one"}"#));
}

#[test]
fn malformed_rule_paths_are_passed_over() {
    assert!(!is_valid_rule_path("no-colon"));
    assert!(!is_valid_rule_path("a:b:c"));
    assert!(is_valid_rule_path("a.b:c"));
    assert!(is_valid_rule_path(":c"));
    let doc = "a:\n  b: keep\n";
    let out = replace_yaml_content(doc, &vec![rule("a.b", "*", "x"), rule("a:b", "keep", "done")]).unwrap();
    assert_eq!(as_json(&out), json(r#"{"a":{"b":"done"}}"#));
}

#[test]
fn bare_equals_operator_is_quoted() {
    let doc = "cond:\n  comparison_operator: contains\n";
    let out = replace_yaml_content(doc, &vec![rule("cond:comparison_operator", "contains", "=")]).unwrap();
    assert!(out.contains("comparison_operator: '='"));
    assert!(!out.contains("comparison_operator: =\n"));
}

#[test]
fn compound_values_compare_by_compact_json() {
    let doc = "a:\n  b: [1, 2]\n";
    let out = replace_yaml_content(doc, &vec![rule("a:b", "[1,2]", "none")]).unwrap();
    assert_eq!(as_json(&out), json(r#"{"a":{"b":"none"}}"#));
}

#[test]
fn unreadable_yaml_is_an_error() {
    let err = replace_yaml_content("a: [1, 2\n", &vec![rule("a:b", "*", "x")]).unwrap_err();
    assert!(err.starts_with("Failed to parse YAML to JSON value: "));
}

#[test]
fn rules_apply_one_after_another() {
    let doc = "a:\n  b: x\n";
    let first = rule("a:b", "x", "y");
    let then = rule("a:b", "y", "z");
    let joined = replace_yaml_content(doc, &vec![first, then]).unwrap();
    let step = replace_yaml_content(doc, &vec![rule("a:b", "x", "y")]).unwrap();
    let stepped = replace_yaml_content(&step, &vec![rule("a:b", "y", "z")]).unwrap();
    assert_eq!(as_json(&joined), json(r#"{"a":{"b":"z"}}"#));
    assert_eq!(as_json(&joined), as_json(&stepped));
    let reversed = replace_yaml_content(doc, &vec![rule("a:b", "y", "z"), rule("a:b", "x", "y")]).unwrap();
    assert_eq!(as_json(&reversed), json(r#"{"a":{"b":"y"}}"#));
}

#[test]
fn wildcard_rule_twice_is_wildcard_rule_once() {
    let rules = vec![rule("workflow.graph.nodes.data.model:name", "*", "gpt-4o")];
    let once = replace_yaml_content(DOC, &rules).unwrap();
    let twice = replace_yaml_content(&once, &rules).unwrap();
    assert_eq!(as_json(&once), as_json(&twice));
    let both = replace_yaml_content(
        DOC,
        &vec![
            rule("workflow.graph.nodes.data.model:name", "*", "gpt-4o"),
            rule("workflow.graph.nodes.data.model:name", "*", "gpt-4o"),
        ],
    )
    .unwrap();
    assert_eq!(as_json(&both), as_json(&once));
}

#[test]
fn array_at_path_end_is_matched_member_by_member() {
    let doc = "nodes:\n- title: a\n- title: b\n";
    let out = replace_yaml_content(doc, &vec![rule("nodes:title", "*", "z")]).unwrap();
    assert_eq!(as_json(&out), json(r#"{"nodes":[{"title":"z"},{"title":"z"}]}"#));
    let out = replace_yaml_content(doc, &vec![rule("nodes:title", "b", "c")]).unwrap();
    assert_eq!(as_json(&out), json(r#"{"nodes":[{"title":"a"},{"title":"c"}]}"#));
    let top = "- title: a\n- other: 1\n";
    let out = replace_yaml_content(top, &vec![rule(":title", "a", "x")]).unwrap();
    assert_eq!(as_json(&out), json(r#"[{"title":"x"},{"other":1}]"#));
}
