use vibe_kanban::redaction::{
    is_sensitive_env_key, redact_json, redact_secrets_in_env_objects, JsonValue,
};

fn s(v: &str) -> JsonValue {
    JsonValue::Str(v.to_string())
}

fn obj(entries: Vec<(&str, JsonValue)>) -> JsonValue {
    JsonValue::Object(entries.into_iter().map(|(k, v)| (k.to_string(), v)).collect())
}

fn pointer<'a>(value: &'a JsonValue, path: &[&str]) -> Option<&'a JsonValue> {
    let mut current = value;
    for key in path {
        match current {
            JsonValue::Object(entries) => {
                current = &entries.iter().find(|(k, _)| k == key)?.1;
            }
            _ => return None,
        }
    }
    Some(current)
}

fn as_str(value: Option<&JsonValue>) -> Option<&str> {
    match value {
        Some(JsonValue::Str(s)) => Some(s.as_str()),
        _ => None,
    }
}

#[test]
fn profiles_endpoint_redacts_sensitive_env_values() {
    let profiles = obj(vec![(
        "executors",
        obj(vec![(
            "CLAUDE_CODE",
            obj(vec![(
                "DEFAULT",
                obj(vec![(
                    "CLAUDE_CODE",
                    obj(vec![(
                        "env",
                        obj(vec![
                            ("ANTHROPIC_AUTH_TOKEN", s("sk-test")),
                            ("GITHUB_PAT", s("ghp_test")),
                            ("PLAIN_FLAG", s("1")),
                        ]),
                    )]),
                )]),
            )]),
        )]),
    )]);

    let json = redact_json(profiles);

    let base = ["executors", "CLAUDE_CODE", "DEFAULT", "CLAUDE_CODE", "env"];
    let at = |name: &str| {
        let mut path: Vec<&str> = base.to_vec();
        path.push(name);
        as_str(pointer(&json, &path)).map(str::to_string)
    };
    assert_eq!(at("ANTHROPIC_AUTH_TOKEN"), Some("<redacted>".to_string()));
    assert_eq!(at("GITHUB_PAT"), Some("<redacted>".to_string()));
    assert_eq!(at("PLAIN_FLAG"), Some("1".to_string()));
}

#[test]
fn sensitive_names_are_recognized() {
    assert!(is_sensitive_env_key("api_token"));
    assert!(is_sensitive_env_key(" db_password "));
    assert!(is_sensitive_env_key("MY_PASSWD"));
    assert!(is_sensitive_env_key("client_secret"));
    assert!(is_sensitive_env_key("GITHUB_PAT"));
    assert!(is_sensitive_env_key("openai_key"));
    assert!(is_sensitive_env_key("ACCESS_KEY_ID"));
    assert!(is_sensitive_env_key("PATH"));
    assert!(!is_sensitive_env_key("PLAIN_FLAG"));
    assert!(!is_sensitive_env_key("KEYBOARD"));
    assert!(!is_sensitive_env_key("HOME"));
}

#[test]
fn command_overrides_and_params_are_hidden() {
    let mut value = JsonValue::Array(vec![obj(vec![
        ("base_command_override", s("npx agent --token abc")),
        (
            "additional_params",
            JsonValue::Array(vec![s("--key=1"), JsonValue::Bool(true), obj(vec![("env", obj(vec![("SECRET", s("x"))]))])]),
        ),
        ("model", s("opus")),
        ("count", JsonValue::Num("3".to_string())),
    ])]);
    redact_secrets_in_env_objects(&mut value);
    let item = match &value {
        JsonValue::Array(items) => &items[0],
        _ => panic!("array expected"),
    };
    assert_eq!(as_str(pointer(item, &["base_command_override"])), Some("<redacted>"));
    assert_eq!(as_str(pointer(item, &["model"])), Some("opus"));
    match pointer(item, &["additional_params"]) {
        Some(JsonValue::Array(params)) => {
            assert_eq!(as_str(Some(&params[0])), Some("<redacted>"));
            assert!(matches!(params[1], JsonValue::Bool(true)));
            assert_eq!(as_str(pointer(&params[2], &["env", "SECRET"])), Some("<redacted>"));
        }
        _ => panic!("params expected"),
    }
    assert!(matches!(pointer(item, &["count"]), Some(JsonValue::Num(n)) if n == "3"));
}

#[test]
fn non_string_override_is_kept_and_string_params_hidden() {
    let value = obj(vec![
        ("base_command_override", JsonValue::Null),
        ("additional_params", s("--verbose")),
        ("env", s("not an object")),
    ]);
    let out = redact_json(value);
    assert!(matches!(pointer(&out, &["base_command_override"]), Some(JsonValue::Null)));
    assert_eq!(as_str(pointer(&out, &["additional_params"])), Some("<redacted>"));
    assert_eq!(as_str(pointer(&out, &["env"])), Some("not an object"));
}
