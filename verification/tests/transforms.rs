use ai_proxy::json::Json;
use ai_proxy::model_groups::ModelGroupRegistry;
use ai_proxy::transforms::{
    apply_transforms, can_transform, has_explicit_provider_model, parse_reasoning_suffix,
    parse_thinking_suffix, MAX_THINKING_BUDGET,
};
use ai_proxy::types::{ProxyModelGroup, ProxyModelGroupMember};

fn empty_registry() -> ModelGroupRegistry {
    ModelGroupRegistry::new(vec![])
}

fn registry_with_groups(groups: Vec<ProxyModelGroup>) -> ModelGroupRegistry {
    ModelGroupRegistry::new(groups)
}

fn member(model: &str, provider: &str, enabled: bool) -> ProxyModelGroupMember {
    ProxyModelGroupMember {
        model: model.to_string(),
        provider: provider.to_string(),
        enabled,
    }
}

fn text(s: &str) -> Json {
    Json::Text(s.to_string())
}

fn request(model: &str) -> Json {
    Json::Object(vec![("model".to_string(), text(model))])
}

fn field<'a>(v: &'a Json, key: &str) -> &'a Json {
    v.get(key).unwrap()
}

#[test]
fn thinking_suffix_parsed() {
    let (base, budget) = parse_thinking_suffix("anthropic-sonnet-4-thinking-16000").unwrap();
    assert_eq!(base, "anthropic-sonnet-4");
    assert_eq!(budget, 16000);
}

#[test]
fn thinking_suffix_capped() {
    let mut groups = empty_registry();
    let mut body = request("anthropic-sonnet-4-thinking-99999");
    let result = apply_transforms(&mut body, &mut groups);
    assert_eq!(result.model, "anthropic-sonnet-4");
    assert_eq!(
        field(field(&body, "thinking"), "budget_tokens").as_u64(),
        Some(MAX_THINKING_BUDGET)
    );
}

#[test]
fn thinking_sets_max_tokens() {
    let mut groups = empty_registry();
    let mut body = request("anthropic-sonnet-4-thinking-10000");
    let result = apply_transforms(&mut body, &mut groups);
    assert_eq!(result.model, "anthropic-sonnet-4");
    assert_eq!(field(&body, "max_tokens").as_u64(), Some(11024));
}

#[test]
fn thinking_preserves_higher_max_tokens() {
    let mut groups = empty_registry();
    let mut body = Json::Object(vec![
        ("model".to_string(), text("x-thinking-5000")),
        ("max_tokens".to_string(), Json::Unsigned(50000)),
    ]);
    apply_transforms(&mut body, &mut groups);
    assert_eq!(field(&body, "max_tokens").as_u64(), Some(50000));
}

#[test]
fn reasoning_suffix_parsed() {
    let (base, level) = parse_reasoning_suffix("gpt-5-reasoning-high").unwrap();
    assert_eq!(base, "gpt-5");
    assert_eq!(level, "high");
}

#[test]
fn reasoning_invalid_level_ignored() {
    assert!(parse_reasoning_suffix("gpt-5-reasoning-extreme").is_none());
}

#[test]
fn no_suffix_passthrough() {
    let mut groups = empty_registry();
    let mut body = request("anthropic-sonnet-4");
    let result = apply_transforms(&mut body, &mut groups);
    assert_eq!(result.model, "anthropic-sonnet-4");
    assert!(result.group_name.is_none());
}

#[test]
fn explicit_provider_model_is_authoritative() {
    let mut groups = registry_with_groups(vec![ProxyModelGroup {
        name: "openai/gpt-4o-mini".to_string(),
        models: vec![member("anthropic-haiku", "anthropic", true)],
        enabled: true,
        strategy: "round_robin".to_string(),
    }]);
    let mut body = request("openai/gpt-4o-mini");
    let result = apply_transforms(&mut body, &mut groups);
    assert_eq!(result.model, "openai/gpt-4o-mini");
    assert!(result.group_name.is_none());
    assert_eq!(field(&body, "model"), &text("openai/gpt-4o-mini"));
}

#[test]
fn group_resolution_sets_provider_model() {
    let mut groups = registry_with_groups(vec![ProxyModelGroup {
        name: "fast".to_string(),
        models: vec![member("gpt-4o-mini", "openai", true)],
        enabled: true,
        strategy: "round_robin".to_string(),
    }]);
    let mut body = request("fast");
    let result = apply_transforms(&mut body, &mut groups);
    assert_eq!(result.model, "openai/gpt-4o-mini");
    assert_eq!(result.group_name.as_deref(), Some("fast"));
    assert_eq!(field(&body, "model"), &text("openai/gpt-4o-mini"));
}

#[test]
fn plain_model_uses_first_provider_match() {
    let mut groups = registry_with_groups(vec![ProxyModelGroup {
        name: "dupe".to_string(),
        models: vec![
            member("gpt-4o-mini", "openai", true),
            member("gpt-4o-mini", "azure-openai", true),
        ],
        enabled: true,
        strategy: "round_robin".to_string(),
    }]);
    let mut body = request("gpt-4o-mini");
    let result = apply_transforms(&mut body, &mut groups);
    assert_eq!(result.model, "openai/gpt-4o-mini");
    assert!(result.group_name.is_none());
    assert_eq!(result.plain_model.as_deref(), Some("gpt-4o-mini"));
    assert_eq!(field(&body, "model"), &text("openai/gpt-4o-mini"));
}

#[test]
fn a_group_member_with_a_suffix_is_rewritten_too() {
    let mut groups = registry_with_groups(vec![ProxyModelGroup {
        name: "deep".to_string(),
        models: vec![member("m-thinking-2000", "p", true)],
        enabled: true,
        strategy: "round_robin".to_string(),
    }]);
    let mut body = request("deep");
    let result = apply_transforms(&mut body, &mut groups);
    assert_eq!(result.model, "p/m");
    assert_eq!(result.group_name.as_deref(), Some("deep"));
    assert_eq!(field(&body, "model"), &text("p/m"));
    assert_eq!(field(&body, "max_tokens").as_u64(), Some(3024));
    assert_eq!(result.body, body);
}

#[test]
fn a_tenth_of_a_large_budget_is_headroom() {
    let mut groups = empty_registry();
    let mut body = request("x-thinking-32000");
    apply_transforms(&mut body, &mut groups);
    assert_eq!(field(&body, "max_tokens").as_u64(), Some(35200));
    let mut other = request("x-thinking-10249");
    apply_transforms(&mut other, &mut groups);
    assert_eq!(field(&other, "max_tokens").as_u64(), Some(11273));
}

#[test]
fn reasoning_is_written_into_the_request() {
    let mut groups = empty_registry();
    let mut body = Json::Object(vec![
        ("model".to_string(), text("gpt-5-reasoning-low")),
        ("stream".to_string(), Json::Bool(true)),
    ]);
    let result = apply_transforms(&mut body, &mut groups);
    assert_eq!(result.model, "gpt-5");
    assert_eq!(field(&body, "model"), &text("gpt-5"));
    assert_eq!(field(field(&body, "reasoning"), "effort"), &text("low"));
    assert_eq!(field(&body, "stream"), &Json::Bool(true));
    assert!(body.get("max_tokens").is_none());
}

#[test]
fn thinking_goes_before_reasoning() {
    let mut groups = empty_registry();
    let mut body = request("gpt-5-reasoning-high-thinking-5000");
    let result = apply_transforms(&mut body, &mut groups);
    assert_eq!(result.model, "gpt-5");
    assert_eq!(field(&body, "model"), &text("gpt-5"));
    assert_eq!(
        field(field(&body, "thinking"), "budget_tokens").as_u64(),
        Some(5000)
    );
    assert_eq!(field(&body, "max_tokens").as_u64(), Some(6024));
    assert_eq!(
        field(&body, "reasoning"),
        &Json::Object(vec![("effort".to_string(), text("high"))])
    );
    assert_eq!(result.body, body);
    let mut other = request("gpt-5-thinking-1000-reasoning-high");
    let result = apply_transforms(&mut other, &mut groups);
    assert_eq!(result.model, "gpt-5-thinking-1000");
    assert!(other.get("thinking").is_none());
}

#[test]
fn suffixes_are_taken_at_their_last_occurrence() {
    assert_eq!(
        parse_thinking_suffix("a-thinking-1-thinking-2"),
        Some(("a-thinking-1".to_string(), 2))
    );
    assert_eq!(parse_thinking_suffix("a-thinking-"), None);
    assert_eq!(parse_thinking_suffix("a-thinking-18446744073709551616"), None);
    assert_eq!(
        parse_thinking_suffix("-thinking-+7"),
        Some((String::new(), 7))
    );
    assert_eq!(
        parse_reasoning_suffix("a-reasoning-low-reasoning-medium"),
        Some(("a-reasoning-low".to_string(), "medium".to_string()))
    );
}

#[test]
fn explicit_names_have_both_parts() {
    assert!(has_explicit_provider_model("openai/gpt"));
    assert!(!has_explicit_provider_model("openai/"));
    assert!(!has_explicit_provider_model(" /gpt"));
    assert!(!has_explicit_provider_model("gpt"));
}

#[test]
fn bodies_without_fields() {
    let nameless = ProxyModelGroup {
        name: String::new(),
        models: vec![member("m", "p", true)],
        enabled: true,
        strategy: "round_robin".to_string(),
    };
    let mut groups = registry_with_groups(vec![nameless]);
    assert!(!can_transform(&Json::Array(vec![]), &groups));
    assert!(can_transform(&Json::Null, &groups));
    assert!(can_transform(&Json::Array(vec![]), &empty_registry()));
    let mut body = Json::Null;
    let result = apply_transforms(&mut body, &mut groups);
    assert_eq!(result.model, "p/m");
    assert_eq!(body, request("p/m"));
    let mut list = Json::Array(vec![]);
    let result = apply_transforms(&mut list, &mut empty_registry());
    assert_eq!(result.model, "");
    assert_eq!(list, Json::Array(vec![]));
}
