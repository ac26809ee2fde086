use ai_proxy::catalog::{
    parse_provider_model_id, parse_proxy_model_entry, parse_proxy_models_payload, pick_str,
};
use ai_proxy::json::Json;
use ai_proxy::types::ProxyModelInfo;

fn text(s: &str) -> Json {
    Json::Text(s.to_string())
}

fn object(fields: &[(&str, Json)]) -> Json {
    Json::Object(
        fields
            .iter()
            .map(|(k, v)| (k.to_string(), v.copy()))
            .collect(),
    )
}

fn info(provider: &str, model: &str, id: &str) -> ProxyModelInfo {
    ProxyModelInfo {
        provider: provider.to_string(),
        model: model.to_string(),
        id: id.to_string(),
    }
}

#[test]
fn parse_proxy_models_best_effort_and_deterministic() {
    let payload = object(&[(
        "data",
        Json::Array(vec![
            object(&[("id", text("openai/gpt-4o-mini"))]),
            object(&[
                ("id", text("anthropic-sonnet-4")),
                ("owned_by", text("anthropic")),
            ]),
            object(&[("id", text("gpt-4o-mini")), ("provider", text("openai"))]),
            object(&[("id", text("zeta-model"))]),
        ]),
    )]);

    let parsed = parse_proxy_models_payload(&payload);
    let pairs: Vec<(String, String)> = parsed
        .iter()
        .map(|m| (m.provider.clone(), m.model.clone()))
        .collect();

    assert_eq!(
        pairs,
        vec![
            ("anthropic".to_string(), "anthropic-sonnet-4".to_string()),
            ("openai".to_string(), "gpt-4o-mini".to_string()),
            ("unknown".to_string(), "zeta-model".to_string()),
        ]
    );
}

#[test]
fn entries_are_read_in_many_shapes() {
    assert_eq!(
        parse_proxy_model_entry(&text(" openai / gpt ")),
        Some(info("openai", "gpt", "openai/gpt"))
    );
    assert_eq!(
        parse_proxy_model_entry(&text("solo")),
        Some(info("unknown", "solo", "solo"))
    );
    assert_eq!(parse_proxy_model_entry(&text("  ")), None);
    assert_eq!(parse_proxy_model_entry(&Json::Unsigned(3)), None);
    assert_eq!(
        parse_proxy_model_entry(&object(&[("name", text("a/b")), ("modelID", text("c"))])),
        Some(info("a", "c", "a/c"))
    );
    assert_eq!(
        parse_proxy_model_entry(&object(&[
            ("id", text("a/b")),
            ("ownedBy", text("owner")),
        ])),
        Some(info("owner", "b", "owner/b"))
    );
    assert_eq!(
        parse_proxy_model_entry(&object(&[
            ("model", text("m")),
            ("provider", text("unknown")),
        ])),
        Some(info("unknown", "m", "m"))
    );
}

#[test]
fn entries_are_found_under_three_names() {
    let items = Json::Array(vec![text("b"), text("a"), Json::Null]);
    let expected = vec![info("unknown", "a", "a"), info("unknown", "b", "b")];
    assert_eq!(parse_proxy_models_payload(&items), expected);
    assert_eq!(
        parse_proxy_models_payload(&object(&[("models", items.copy())])),
        expected
    );
    assert_eq!(
        parse_proxy_models_payload(&object(&[
            ("models", items.copy()),
            ("data", Json::Array(vec![text("c")])),
        ])),
        vec![info("unknown", "c", "c")]
    );
    assert_eq!(parse_proxy_models_payload(&Json::Null), vec![]);
}

#[test]
fn a_model_is_listed_once_under_its_first_identifier() {
    let items = Json::Array(vec![
        text("unknown/x"),
        text("x"),
        object(&[("id", text("x"))]),
        text("p/x"),
    ]);
    assert_eq!(
        parse_proxy_models_payload(&items),
        vec![info("p", "x", "p/x"), info("unknown", "x", "unknown/x")]
    );
}

#[test]
fn the_first_filled_field_is_picked() {
    let value = object(&[
        ("a", text("  ")),
        ("b", Json::Unsigned(1)),
        ("c", text(" found ")),
        ("d", text("late")),
    ]);
    assert_eq!(
        pick_str(&value, &["missing", "a", "b", "c", "d"]),
        Some("found".to_string())
    );
    assert_eq!(pick_str(&value, &["a", "b"]), None);
    assert_eq!(pick_str(&text("x"), &["a"]), None);
}

#[test]
fn identifiers_split_into_provider_and_model() {
    assert_eq!(
        parse_provider_model_id(" p / m/n "),
        Some(("p".to_string(), "m/n".to_string()))
    );
    assert_eq!(parse_provider_model_id("p/"), None);
    assert_eq!(parse_provider_model_id("pm"), None);
}
