use dify_console::dsl::{
    export_path, get_mode_folder, is_dsl_extension, normalize_separators, parse_dsl_metadata,
    sanitize_filename, should_publish,
};

#[test]
fn mode_folders() {
    assert_eq!(get_mode_folder("workflow"), "workflows");
    assert_eq!(get_mode_folder("advanced-chat"), "chatflows");
    assert_eq!(get_mode_folder("chat"), "chat");
    assert_eq!(get_mode_folder("agent-chat"), "agent-chat");
    assert_eq!(get_mode_folder(""), "");
}

#[test]
fn metadata_from_app_block() {
    let yaml = "app:\n  description: ''\n  mode: advanced-chat\n  name: \"招标文件解析\"\nkind: app\nversion: 0.1.5\n";
    let (name, mode) = parse_dsl_metadata(yaml);
    assert_eq!(name.as_deref(), Some("招标文件解析"));
    assert_eq!(mode.as_deref(), Some("advanced-chat"));
}

#[test]
fn metadata_ignores_other_blocks_and_comments() {
    let yaml = "# comment\nworkflow:\n  name: not-this\n  mode: nor-this\napp:\n  # name: commented\n\n  name: 'real'\nother:\n  mode: later\n";
    let (name, mode) = parse_dsl_metadata(yaml);
    assert_eq!(name.as_deref(), Some("real"));
    assert_eq!(mode, None);
}

#[test]
fn metadata_last_declaration_wins_and_crlf() {
    let yaml = "app:\r\n  name: first\r\n  name: second\r\n  mode: workflow\r\n";
    let (name, mode) = parse_dsl_metadata(yaml);
    assert_eq!(name.as_deref(), Some("second"));
    assert_eq!(mode.as_deref(), Some("workflow"));
}

#[test]
fn metadata_of_empty_document() {
    assert_eq!(parse_dsl_metadata(""), (None, None));
    assert_eq!(parse_dsl_metadata("name: x\nmode: y\n"), (None, None));
}

#[test]
fn metadata_top_level_app_key_with_inline_value_opens_block() {
    let (name, _) = parse_dsl_metadata("app: {}\n  name: inline\n");
    assert_eq!(name.as_deref(), Some("inline"));
}

#[test]
fn sanitized_names() {
    assert_eq!(sanitize_filename("My App: v2!"), "My_App_v2");
    assert_eq!(sanitize_filename("  spaced   out  "), "spaced_out");
    assert_eq!(sanitize_filename("招标 文件/解析"), "招标_文件解析");
    assert_eq!(sanitize_filename("a-b_c"), "a-b_c");
}

#[test]
fn sanitized_name_never_empty() {
    assert_eq!(sanitize_filename(""), "unnamed_app");
    assert_eq!(sanitize_filename("!!!***"), "unnamed_app");
    assert_eq!(sanitize_filename("   "), "unnamed_app");
}

#[test]
fn export_paths() {
    assert_eq!(export_path("workflow", "My App"), "workflows/My_App.yml");
    assert_eq!(export_path("advanced-chat", "?"), "chatflows/unnamed_app.yml");
    assert_eq!(export_path("chat", "bot"), "chat/bot.yml");
}

#[test]
fn publish_only_workflows_and_chatflows() {
    assert!(should_publish("workflow"));
    assert!(should_publish("advanced-chat"));
    assert!(!should_publish("chat"));
    assert!(!should_publish("completion"));
    assert!(!should_publish("Workflow"));
}

#[test]
fn dsl_extensions() {
    assert!(is_dsl_extension(Some("yml")));
    assert!(is_dsl_extension(Some("yaml")));
    assert!(!is_dsl_extension(Some("YML")));
    assert!(!is_dsl_extension(Some("json")));
    assert!(!is_dsl_extension(None));
}

#[test]
fn separators_normalized() {
    assert_eq!(normalize_separators("workflows\\a.yml"), "workflows/a.yml");
    assert_eq!(normalize_separators("a\\b\\c"), "a/b/c");
    assert_eq!(normalize_separators("plain/path"), "plain/path");
}
