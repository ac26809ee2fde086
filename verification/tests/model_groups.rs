use ai_proxy::model_groups::{
    member_provider_model, split_provider_model, ModelGroupRegistry, ResolvedModel,
};
use ai_proxy::types::{ProxyModelGroup, ProxyModelGroupMember};

fn member(model: &str, provider: &str, enabled: bool) -> ProxyModelGroupMember {
    ProxyModelGroupMember {
        model: model.to_string(),
        provider: provider.to_string(),
        enabled,
    }
}

fn test_group() -> ProxyModelGroup {
    ProxyModelGroup {
        name: "fast".to_string(),
        models: vec![
            member("anthropic-haiku", "anthropic", true),
            member("gpt-4o-mini", "openai", true),
            member("disabled-model", "openai", false),
        ],
        enabled: true,
        strategy: "round_robin".to_string(),
    }
}

fn duplicate_model_group() -> ProxyModelGroup {
    ProxyModelGroup {
        name: "dupe".to_string(),
        models: vec![
            member("gpt-4o-mini", "openai", true),
            member("gpt-4o-mini", "azure-openai", true),
        ],
        enabled: true,
        strategy: "round_robin".to_string(),
    }
}

#[test]
fn resolve_round_robin() {
    let mut registry = ModelGroupRegistry::new(vec![test_group()]);
    let r1 = registry.resolve("fast").unwrap();
    let r2 = registry.resolve("fast").unwrap();
    assert_ne!(r1.model, r2.model);
}

#[test]
fn resolve_skips_disabled_models() {
    let mut registry = ModelGroupRegistry::new(vec![test_group()]);
    for _ in 0..10 {
        let r = registry.resolve("fast").unwrap();
        assert_ne!(r.model, "disabled-model");
    }
}

#[test]
fn resolve_unknown_group_returns_none() {
    let mut registry = ModelGroupRegistry::new(vec![test_group()]);
    assert!(registry.resolve("nonexistent").is_none());
}

#[test]
fn resolve_disabled_group_returns_none() {
    let mut group = test_group();
    group.enabled = false;
    let mut registry = ModelGroupRegistry::new(vec![group]);
    assert!(registry.resolve("fast").is_none());
}

#[test]
fn failover_skips_tried() {
    let registry = ModelGroupRegistry::new(vec![test_group()]);
    let next = registry
        .failover("fast", &["anthropic/anthropic-haiku".to_string()])
        .unwrap();
    assert_eq!(next.model, "gpt-4o-mini");
}

#[test]
fn failover_returns_none_when_exhausted() {
    let registry = ModelGroupRegistry::new(vec![test_group()]);
    let result = registry.failover(
        "fast",
        &[
            "anthropic/anthropic-haiku".to_string(),
            "openai/gpt-4o-mini".to_string(),
        ],
    );
    assert!(result.is_none());
}

#[test]
fn failover_tracks_provider_model_pairs() {
    let registry = ModelGroupRegistry::new(vec![duplicate_model_group()]);
    let next = registry
        .failover("dupe", &["openai/gpt-4o-mini".to_string()])
        .unwrap();
    assert_eq!(next.provider, "azure-openai");
    assert_eq!(next.model, "gpt-4o-mini");
}

#[test]
fn failover_plain_model_skips_tried_provider_model_pair() {
    let registry = ModelGroupRegistry::new(vec![duplicate_model_group()]);
    let next = registry
        .failover_plain_model("gpt-4o-mini", &["openai/gpt-4o-mini".to_string()])
        .unwrap();
    assert_eq!(next.provider, "azure-openai");
    assert_eq!(next.model, "gpt-4o-mini");
}

#[test]
fn plain_model_defaults_to_first_provider_match() {
    let registry = ModelGroupRegistry::new(vec![duplicate_model_group()]);
    let resolved = registry.resolve_plain_model("gpt-4o-mini").unwrap();
    assert_eq!(resolved.provider, "openai");
    assert_eq!(resolved.model, "gpt-4o-mini");
}

#[test]
fn update_resets_cursors() {
    let mut registry = ModelGroupRegistry::new(vec![test_group()]);
    registry.resolve("fast");
    registry.resolve("fast");
    registry.update(vec![test_group()]);
    let r = registry.resolve("fast").unwrap();
    assert_eq!(r.model, "anthropic-haiku");
}

#[test]
fn group_names_filters_disabled() {
    let mut disabled = test_group();
    disabled.name = "slow".to_string();
    disabled.enabled = false;
    let registry = ModelGroupRegistry::new(vec![test_group(), disabled]);
    let names = registry.group_names();
    assert_eq!(names, vec!["fast"]);
}

#[test]
fn resolutions_go_round_in_order() {
    let mut registry = ModelGroupRegistry::new(vec![test_group(), duplicate_model_group()]);
    let mut seen: Vec<String> = Vec::new();
    for _ in 0..4 {
        assert!(registry.would_resolve("fast"));
        seen.push(registry.resolve("fast").unwrap().target());
    }
    assert_eq!(
        seen,
        vec![
            "anthropic/anthropic-haiku",
            "openai/gpt-4o-mini",
            "anthropic/anthropic-haiku",
            "openai/gpt-4o-mini",
        ]
    );
    assert_eq!(registry.resolve("dupe").unwrap().target(), "openai/gpt-4o-mini");
    assert!(!registry.would_resolve("nonexistent"));
}

#[test]
fn a_member_without_a_target_takes_its_turn() {
    let group = ProxyModelGroup {
        name: "odd".to_string(),
        models: vec![member("  ", "openai", true), member("m", "p", true)],
        enabled: true,
        strategy: "round_robin".to_string(),
    };
    let mut registry = ModelGroupRegistry::new(vec![group]);
    assert!(!registry.would_resolve("odd"));
    assert!(registry.resolve("odd").is_none());
    assert_eq!(registry.resolve("odd").unwrap().target(), "p/m");
    assert_eq!(registry.failover("odd", &[]).unwrap().target(), "p/m");
}

#[test]
fn a_group_without_enabled_members_resolves_to_nothing() {
    let mut group = test_group();
    for m in group.models.iter_mut() {
        m.enabled = false;
    }
    let mut registry = ModelGroupRegistry::new(vec![group]);
    assert!(registry.resolve("fast").is_none());
    assert!(registry.failover("fast", &[]).is_none());
    assert!(registry.resolve_plain_model("gpt-4o-mini").is_none());
}

#[test]
fn the_provider_in_the_model_name_goes_first() {
    let target = member_provider_model(&member(" azure / gpt-5 ", "openai", true));
    assert_eq!(target, Some(("azure".to_string(), "gpt-5".to_string())));
    let own = member_provider_model(&member("gpt-5", " openai ", true));
    assert_eq!(own, Some(("openai".to_string(), "gpt-5".to_string())));
    assert_eq!(member_provider_model(&member("gpt-5", " ", true)), None);
    assert_eq!(
        member_provider_model(&member("/gpt-5", "openai", true)),
        Some(("openai".to_string(), "/gpt-5".to_string()))
    );
}

#[test]
fn provider_and_model_are_split_at_the_first_slash() {
    assert_eq!(
        split_provider_model("a/b/c"),
        Some(("a".to_string(), "b/c".to_string()))
    );
    assert_eq!(split_provider_model("a/ "), None);
    assert_eq!(split_provider_model(" /b"), None);
    assert_eq!(split_provider_model("ab"), None);
}

#[test]
fn plain_names_have_no_slash_and_are_not_blank() {
    let registry = ModelGroupRegistry::new(vec![duplicate_model_group()]);
    assert!(registry.resolve_plain_model("openai/gpt-4o-mini").is_none());
    assert!(registry.resolve_plain_model("   ").is_none());
    assert_eq!(
        registry.resolve_plain_model("  gpt-4o-mini ").unwrap().group_name,
        "dupe"
    );
}

#[test]
fn target_joins_provider_and_model() {
    let resolved = ResolvedModel {
        group_name: "g".to_string(),
        model: "m".to_string(),
        provider: "p".to_string(),
    };
    assert_eq!(resolved.target(), "p/m");
}

#[test]
fn default_group_is_empty_and_disabled() {
    let group = ProxyModelGroup::default();
    assert_eq!(group.name, "");
    assert!(group.models.is_empty());
    assert!(!group.enabled);
    assert_eq!(group.strategy, "");
}
