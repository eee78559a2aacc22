use dify_console::commands::export::{clear_mode_folder, export_safety_check, parse_modes};
use dify_console::commands::import::{
    finish_batch, plan_import, record_import, select_import_source, summarize_import,
    ImportSource, ImportTarget,
};
use dify_console::config::EnvConfig;
use dify_console::dify_api::ImportResult;
use dify_console::replace::ReplaceRule;
use dify_console::strmap::StrMap;

fn s(x: &str) -> String {
    x.to_string()
}

#[test]
fn modes_all_in_any_case() {
    let all = vec!["workflow", "advanced-chat", "chat", "agent-chat", "completion"];
    assert_eq!(parse_modes("all").unwrap(), all);
    assert_eq!(parse_modes("ALL").unwrap(), all);
    assert_eq!(parse_modes("aLl").unwrap(), all);
}

#[test]
fn modes_listed_and_trimmed() {
    assert_eq!(parse_modes("workflow,advanced-chat").unwrap(), vec!["workflow", "advanced-chat"]);
    assert_eq!(parse_modes(" chat , completion ").unwrap(), vec!["chat", "completion"]);
}

#[test]
fn unknown_modes_refused() {
    assert_eq!(
        parse_modes("foo,workflow,bar").unwrap_err(),
        "Invalid app modes: foo, bar. Available: workflow, advanced-chat, chat, agent-chat, completion"
    );
    assert_eq!(
        parse_modes("").unwrap_err(),
        "Invalid app modes: . Available: workflow, advanced-chat, chat, agent-chat, completion"
    );
    assert!(parse_modes("all,chat").is_err());
}

#[test]
fn safety_check() {
    assert_eq!(export_safety_check(3, Some("t")), Ok(true));
    assert_eq!(export_safety_check(3, None), Ok(true));
    assert_eq!(export_safety_check(0, None), Ok(false));
    assert_eq!(export_safety_check(0, Some("t")), Err(s("Safety check failed, aborted export.")));
}

#[test]
fn clearing_a_mode_folder() {
    let mut m: StrMap<String> = StrMap::new();
    m.insert(s("workflows/a.yml"), s("1"));
    m.insert(s("chatflows/b.yml"), s("2"));
    m.insert(s("chat/c.yml"), s("3"));
    clear_mode_folder(&mut m, "advanced-chat");
    assert!(m.get("chatflows/b.yml").is_none());
    assert_eq!(m.len(), 2);
    clear_mode_folder(&mut m, "chat");
    assert_eq!(m.len(), 1);
    assert_eq!(m.get("workflows/a.yml").map(|x| x.as_str()), Some("1"));
}

#[test]
fn import_sources() {
    assert_eq!(
        select_import_source(None, None).err(),
        Some(s("At least one of -f/--file or -d/--dir must be specified."))
    );
    assert_eq!(
        select_import_source(Some(s("f")), Some(s("d"))).err(),
        Some(s("Only one of -f/--file or -d/--dir can be specified."))
    );
    assert!(matches!(select_import_source(Some(s("f")), None), Ok(ImportSource::File(f)) if f == "f"));
    assert!(matches!(select_import_source(None, Some(s("d"))), Ok(ImportSource::Dir(d)) if d == "d"));
}

#[test]
fn import_planning_whitelist() {
    let mut apps: StrMap<String> = StrMap::new();
    apps.insert(s("workflows/a.yml"), s("id-a"));
    assert!(matches!(plan_import(&apps, "workflows/a.yml", true), ImportTarget::Existing(id) if id == "id-a"));
    assert!(matches!(plan_import(&apps, "workflows/b.yml", true), ImportTarget::Skip));
    assert!(matches!(plan_import(&apps, "workflows/b.yml", false), ImportTarget::New));
}

#[test]
fn recording_imports() {
    let mut apps: StrMap<String> = StrMap::new();
    apps.insert(s("a.yml"), s("id-a"));
    assert!(!record_import(&mut apps, "a.yml", Some("id-a"), "id-a"));
    assert!(record_import(&mut apps, "a.yml", Some("id-a"), "id-z"));
    assert_eq!(apps.get("a.yml").map(|x| x.as_str()), Some("id-z"));
    assert!(record_import(&mut apps, "b.yml", None, "id-b"));
    assert!(matches!(plan_import(&apps, "b.yml", true), ImportTarget::Existing(id) if id == "id-b"));
}

#[test]
fn import_summaries() {
    let yaml = "app:\n  name: From DSL\n  mode: workflow\n";
    let r = ImportResult { name: None, app_id: None, id: Some(s("id-1")), mode: None };
    let sum = summarize_import(&r, yaml);
    assert_eq!((sum.name.as_str(), sum.app_id.as_str(), sum.mode.as_str()), ("From DSL", "id-1", "workflow"));
    let r = ImportResult { name: Some(s("N")), app_id: Some(s("A")), id: Some(s("I")), mode: Some(s("chat")) };
    let sum = summarize_import(&r, yaml);
    assert_eq!((sum.name.as_str(), sum.app_id.as_str(), sum.mode.as_str()), ("N", "A", "chat"));
    let r = ImportResult { name: None, app_id: None, id: None, mode: None };
    let sum = summarize_import(&r, "");
    assert_eq!((sum.name.as_str(), sum.app_id.as_str(), sum.mode.as_str()), ("Unknown", "Unknown", "Unknown"));
}

#[test]
fn batch_endings() {
    assert_eq!(finish_batch(2, 2, false), (true, Ok(())));
    assert_eq!(finish_batch(2, 2, true), (false, Ok(())));
    assert_eq!(finish_batch(1, 2, true), (false, Err(s("Some files failed to import."))));
}

#[test]
fn env_config_rules() {
    let e = EnvConfig::empty();
    assert!(e.rules_to_apply().is_none());
    assert_eq!(e.apps.len(), 0);
    let e = EnvConfig { apps: StrMap::new(), replace_rules: Some(vec![]) };
    assert!(e.rules_to_apply().is_none());
    let r = ReplaceRule { path: s("a:b"), from: s("*"), to: s("x") };
    let e = EnvConfig { apps: StrMap::new(), replace_rules: Some(vec![r]) };
    assert_eq!(e.rules_to_apply().map(|v| v.len()), Some(1));
}
