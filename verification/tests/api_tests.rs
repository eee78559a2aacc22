use dify_console::dify_api::{
    app_has_tag, export_dsl_path, export_dsl_query, extract_dsl_content, find_tag_id,
    import_payload, login_payload, parse_login_cookies, AppInfo, AppListing, DifyClient,
};
use dify_console::json::JsonValue;

fn s(x: &str) -> String {
    x.to_string()
}

fn obj(es: Vec<(&str, JsonValue)>) -> JsonValue {
    JsonValue::Object(es.into_iter().map(|(k, v)| (k.to_string(), v)).collect())
}

fn jstr(x: &str) -> JsonValue {
    JsonValue::Str(x.to_string())
}

fn pairs(v: &[(String, String)]) -> Vec<(&str, &str)> {
    v.iter().map(|(a, b)| (a.as_str(), b.as_str())).collect()
}

#[test]
fn client_base_url_and_session() {
    let c = DifyClient::new("http://localhost:8080//");
    assert_eq!(c.base_url(), "http://localhost:8080");
    assert!(c.get_session().is_none());
    assert!(!c.has_session());
    assert!(c.session_headers().is_empty());
    assert_eq!(c.url_for("/console/api/apps"), "http://localhost:8080/console/api/apps");
    let c = DifyClient::with_session("https://d.example.com/", "a=1; b=2", "tok");
    assert_eq!(c.get_session(), Some((s("a=1; b=2"), s("tok"))));
    assert!(c.has_session());
    assert_eq!(pairs(&c.session_headers()), vec![("cookie", "a=1; b=2"), ("x-csrf-token", "tok")]);
}

#[test]
fn login_cookies_and_token() {
    let headers = vec![
        s("session_id=abc; Path=/; HttpOnly"),
        s(" csrf_token = xyz ; Path=/"),
        s("theme=dark"),
    ];
    let (cookies, token) = parse_login_cookies(&headers).unwrap();
    assert_eq!(cookies, "session_id=abc;  csrf_token = xyz ; theme=dark");
    assert_eq!(token, "xyz");
}

#[test]
fn login_takes_host_prefixed_token_and_last_one() {
    let headers = vec![s("__Host-csrf_token=first; Secure"), s("csrf_token=second")];
    assert_eq!(parse_login_cookies(&headers).unwrap().1, "second");
    let headers = vec![s("csrf_token=a=b"), s("__Host-csrf_token=only")];
    assert_eq!(parse_login_cookies(&headers).unwrap().1, "only");
}

#[test]
fn login_without_token_fails_and_keeps_client() {
    let mut c = DifyClient::new("http://h");
    let err = c.apply_login(&vec![s("session_id=abc")]).unwrap_err();
    assert_eq!(err, "Could not find 'csrf_token' or '__Host-csrf_token' in Set-Cookie headers");
    assert!(c.get_session().is_none());
    let ok = c.apply_login(&vec![s("session_id=abc"), s("csrf_token=t")]).unwrap();
    assert_eq!(ok, (s("session_id=abc; csrf_token=t"), s("t")));
    assert_eq!(c.get_session(), Some((s("session_id=abc; csrf_token=t"), s("t"))));
}

#[test]
fn login_body_encodes_password() {
    let body = login_payload("admin@example.com", "password");
    match body {
        JsonValue::Object(es) => {
            assert_eq!(es.len(), 2);
            assert_eq!(es[0].0, "email");
            assert!(matches!(&es[0].1, JsonValue::Str(x) if x == "admin@example.com"));
            assert_eq!(es[1].0, "password");
            assert!(matches!(&es[1].1, JsonValue::Str(x) if x == "cGFzc3dvcmQ="));
        }
        _ => panic!("not an object"),
    }
    match login_payload("e", "密") {
        JsonValue::Object(es) => assert!(matches!(&es[1].1, JsonValue::Str(x) if x == "5a+G")),
        _ => panic!("not an object"),
    }
}

#[test]
fn tag_ids_from_both_answer_shapes() {
    let tags = JsonValue::Array(vec![
        obj(vec![("name", jstr("other")), ("id", jstr("1"))]),
        obj(vec![("name", jstr("mine"))]),
        obj(vec![("name", jstr("mine")), ("id", jstr("2"))]),
        obj(vec![("name", jstr("mine")), ("id", jstr("3"))]),
    ]);
    assert_eq!(find_tag_id(&tags, "mine").as_deref(), Some("2"));
    assert_eq!(find_tag_id(&tags, "none"), None);
    let wrapped = obj(vec![("data", tags)]);
    assert_eq!(find_tag_id(&wrapped, "other").as_deref(), Some("1"));
    assert_eq!(find_tag_id(&obj(vec![("data", jstr("x"))]), "other"), None);
    assert_eq!(find_tag_id(&JsonValue::Null, "other"), None);
}

fn app(id: &str, mode: &str, tags: Option<JsonValue>) -> AppInfo {
    AppInfo { id: s(id), name: format!("App {}", id), mode: s(mode), tags }
}

#[test]
fn app_tags_match_by_name_string_or_id() {
    let by_name = app("1", "workflow", Some(JsonValue::Array(vec![obj(vec![("name", jstr("t"))])])));
    let by_string = app("2", "workflow", Some(JsonValue::Array(vec![jstr("t")])));
    let by_id = app("3", "workflow", Some(JsonValue::Array(vec![obj(vec![("name", jstr("x")), ("id", jstr("9"))])])));
    let none = app("4", "workflow", None);
    let not_array = app("5", "workflow", Some(jstr("t")));
    assert!(app_has_tag(&by_name, "t", &None));
    assert!(app_has_tag(&by_string, "t", &None));
    assert!(!app_has_tag(&by_id, "t", &None));
    assert!(app_has_tag(&by_id, "t", &Some(s("9"))));
    assert!(!app_has_tag(&none, "t", &Some(s("9"))));
    assert!(!app_has_tag(&not_array, "t", &None));
}

#[test]
fn listing_filters_and_pages() {
    let mut l = AppListing::new(vec![s("workflow"), s("advanced-chat")], Some(s("t")), Some(s("9")));
    assert_eq!(l.page(), 1);
    assert_eq!(
        pairs(&l.page_query(true)),
        vec![("page", "1"), ("limit", "50"), ("query", ""), ("tag_ids[0]", "9")]
    );
    assert_eq!(pairs(&l.page_query(false)).len(), 3);
    assert!(l.retry_without_tag_filter(true));
    assert!(!l.retry_without_tag_filter(false));
    let tagged = || Some(JsonValue::Array(vec![obj(vec![("id", jstr("9"))])]));
    let mut page: Vec<AppInfo> = Vec::new();
    for i in 0..50 {
        let mode = if i % 2 == 0 { "workflow" } else { "chat" };
        page.push(app(&i.to_string(), mode, tagged()));
    }
    page.push(app("untagged", "workflow", None));
    assert!(l.accept_page(page, true));
    assert_eq!(l.page(), 2);
    assert_eq!(pairs(&l.page_query(true))[0], ("page", "2"));
    assert!(!l.accept_page(vec![app("x", "advanced-chat", tagged())], true));
    assert_eq!(l.page(), 2);
    assert!(!l.accept_page(vec![], true));
    let apps = l.into_apps();
    assert_eq!(apps.len(), 26);
    assert_eq!(apps[0].id, "0");
    assert_eq!(apps[25].id, "x");
}

#[test]
fn listing_without_tag_keeps_every_requested_mode() {
    let mut l = AppListing::new(vec![s("chat")], None, None);
    assert!(!l.retry_without_tag_filter(true));
    assert!(!l.accept_page(vec![app("1", "chat", None), app("2", "workflow", None)], false));
    let apps = l.into_apps();
    assert_eq!(apps.len(), 1);
    assert_eq!(apps[0].id, "1");
}

#[test]
fn export_requests() {
    assert_eq!(export_dsl_path("abc-123"), "/console/api/apps/abc-123/export");
    assert_eq!(pairs(&export_dsl_query(false)), vec![("include_secret", "false")]);
    assert_eq!(pairs(&export_dsl_query(true)), vec![("include_secret", "true")]);
    let answer = obj(vec![("data", jstr("app:\n  name: x\n"))]);
    assert_eq!(extract_dsl_content(&answer).unwrap(), "app:\n  name: x\n");
    assert_eq!(
        extract_dsl_content(&obj(vec![("data", JsonValue::Null)])).unwrap_err(),
        "Missing 'data' field in export response"
    );
}

#[test]
fn import_bodies() {
    match import_payload("yaml", None) {
        JsonValue::Object(es) => {
            let keys: Vec<&str> = es.iter().map(|(k, _)| k.as_str()).collect();
            assert_eq!(keys, vec!["mode", "yaml_content"]);
            assert!(matches!(&es[0].1, JsonValue::Str(x) if x == "yaml-content"));
            assert!(matches!(&es[1].1, JsonValue::Str(x) if x == "yaml"));
        }
        _ => panic!("not an object"),
    }
    match import_payload("yaml", Some("id-1")) {
        JsonValue::Object(es) => {
            assert_eq!(es.len(), 3);
            assert_eq!(es[2].0, "app_id");
            assert!(matches!(&es[2].1, JsonValue::Str(x) if x == "id-1"));
        }
        _ => panic!("not an object"),
    }
}
