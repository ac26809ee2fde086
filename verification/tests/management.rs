use ai_proxy::baseline::{
    fits_as_baseline, subtract_count_maps, subtract_usage_stats, usage_since,
};
use ai_proxy::json::Json;
use ai_proxy::management::{
    infer_provider_from_model, parse_management_auth_files_payload,
    parse_management_usage_payload, read_u64, usage_payload_fits,
};
use ai_proxy::maps::TextMap;
use ai_proxy::types::{UsageRequestSummary, UsageStats};

fn text(s: &str) -> Json {
    Json::Text(s.to_string())
}

fn object(fields: Vec<(&str, Json)>) -> Json {
    Json::Object(
        fields
            .into_iter()
            .map(|(k, v)| (k.to_string(), v))
            .collect(),
    )
}

fn detail(index: &str) -> Json {
    object(vec![("auth_index", text(index))])
}

fn rows_of(stats: &UsageStats) -> Vec<(String, String, String, u64)> {
    stats
        .by_request
        .iter()
        .map(|r| {
            (
                r.provider.clone(),
                r.model.clone(),
                r.account.clone(),
                r.requests,
            )
        })
        .collect()
}

fn row(provider: &str, model: &str, account: &str, requests: u64) -> UsageRequestSummary {
    UsageRequestSummary {
        provider: provider.to_string(),
        model: model.to_string(),
        account: account.to_string(),
        requests,
    }
}

fn counts(entries: &[(&str, u64)]) -> TextMap<u64> {
    let mut map = TextMap::new();
    for (k, n) in entries {
        map.insert(k.to_string(), *n);
    }
    map
}

fn report(models: Vec<(&str, Json)>, total: Json) -> Json {
    object(vec![(
        "usage",
        object(vec![
            ("total_requests", total),
            (
                "apis",
                object(vec![
                    ("key-1", object(vec![("models", object(models))])),
                    ("key-2", object(vec![])),
                    ("key-3", Json::Null),
                ]),
            ),
        ]),
    )])
}

#[test]
fn parse_management_auth_files_maps_auth_index_to_email() {
    let payload = object(vec![(
        "files",
        Json::Array(vec![
            object(vec![
                ("auth_index", text("abc123")),
                ("email", text("a@example.com")),
            ]),
            object(vec![
                ("auth_index", text("def456")),
                ("name", text("fallback-name")),
            ]),
        ]),
    )]);

    let map = parse_management_auth_files_payload(&payload);
    assert_eq!(map.get("abc123"), Some(&"a@example.com".to_string()));
    assert_eq!(map.get("def456"), Some(&"fallback-name".to_string()));
}

#[test]
fn parse_management_usage_aggregates_provider_model_account() {
    let usage_payload = object(vec![(
        "usage",
        object(vec![
            ("total_requests", Json::Unsigned(3)),
            (
                "apis",
                object(vec![(
                    "key-1",
                    object(vec![(
                        "models",
                        object(vec![
                            (
                                "openai/gpt-5-mini",
                                object(vec![
                                    ("total_requests", Json::Unsigned(2)),
                                    (
                                        "details",
                                        Json::Array(vec![detail("a1"), detail("a1")]),
                                    ),
                                ]),
                            ),
                            (
                                "anthropic-sonnet-4",
                                object(vec![
                                    ("total_requests", Json::Unsigned(1)),
                                    ("details", Json::Array(vec![detail("a2")])),
                                ]),
                            ),
                        ]),
                    )]),
                )]),
            ),
        ]),
    )]);

    let mut account_map = TextMap::new();
    account_map.insert("a1".to_string(), "openai@example.com".to_string());
    account_map.insert("a2".to_string(), "anthropic@example.com".to_string());

    let stats =
        parse_management_usage_payload(&usage_payload, &account_map, "anthropic").unwrap();
    assert_eq!(stats.total_requests, 3);
    assert_eq!(stats.per_provider.get("openai"), Some(&2));
    assert_eq!(stats.per_provider.get("anthropic"), Some(&1));
    assert_eq!(stats.per_model.get("gpt-5-mini"), Some(&2));
    assert_eq!(stats.per_model.get("anthropic-sonnet-4"), Some(&1));
    assert_eq!(stats.per_account.get("openai@example.com"), Some(&2));
    assert_eq!(stats.per_account.get("anthropic@example.com"), Some(&1));

    assert_eq!(
        rows_of(&stats),
        vec![
            (
                "anthropic".to_string(),
                "anthropic-sonnet-4".to_string(),
                "anthropic@example.com".to_string(),
                1,
            ),
            (
                "openai".to_string(),
                "gpt-5-mini".to_string(),
                "openai@example.com".to_string(),
                2,
            ),
        ]
    );
}

#[test]
fn later_files_replace_earlier_ones_and_indexes_stand_in() {
    let payload = object(vec![(
        "files",
        Json::Array(vec![
            object(vec![("auth_index", text("i")), ("id", text("first"))]),
            object(vec![("authIndex", text(" i ")), ("label", text("second"))]),
            object(vec![("auth_index", text("alone"))]),
            object(vec![("email", text("nobody"))]),
        ]),
    )]);
    let map = parse_management_auth_files_payload(&payload);
    assert_eq!(map.get("i"), Some(&"second".to_string()));
    assert_eq!(map.get("alone"), Some(&"alone".to_string()));
    assert_eq!(map.keys().len(), 2);
    assert!(parse_management_auth_files_payload(&Json::Null).is_empty());
}

#[test]
fn reports_without_details_count_the_reported_number() {
    let accounts = TextMap::new();
    let payload = report(
        vec![
            ("gpt-x", object(vec![("total_requests", text(" 7 "))])),
            (
                "gpt-y",
                object(vec![
                    ("total_requests", Json::Unsigned(4)),
                    ("details", Json::Array(vec![])),
                ]),
            ),
            ("none", object(vec![("total_requests", Json::Negative(-4))])),
            (
                "p/listed",
                object(vec![(
                    "details",
                    Json::Array(vec![detail("q"), Json::Null]),
                )]),
            ),
        ],
        Json::Unsigned(0),
    );
    assert!(usage_payload_fits(&payload, &accounts, "house"));
    let stats = parse_management_usage_payload(&payload, &accounts, "house").unwrap();
    assert_eq!(stats.total_requests, 13);
    assert_eq!(stats.per_model.get("gpt-x"), Some(&7));
    assert_eq!(stats.per_model.get("none"), None);
    assert_eq!(stats.per_provider.get("openai"), Some(&11));
    assert_eq!(stats.per_account.get("unknown"), Some(&12));
    assert_eq!(stats.per_account.get("auth:q"), Some(&1));
    assert_eq!(
        rows_of(&stats).iter().map(|r| r.3).sum::<u64>(),
        stats.total_requests
    );
}

#[test]
fn a_reported_total_goes_before_the_sum() {
    let accounts = TextMap::new();
    let payload = report(
        vec![("gpt-x", object(vec![("total_requests", Json::Unsigned(2))]))],
        Json::Unsigned(99),
    );
    let stats = parse_management_usage_payload(&payload, &accounts, "house").unwrap();
    assert_eq!(stats.total_requests, 99);
}

#[test]
fn a_report_without_apis_is_none() {
    let accounts = TextMap::new();
    for payload in [
        Json::Null,
        object(vec![("usage", Json::Null)]),
        object(vec![("usage", object(vec![("apis", Json::Array(vec![]))]))]),
    ] {
        assert!(usage_payload_fits(&payload, &accounts, "house"));
        assert!(parse_management_usage_payload(&payload, &accounts, "house").is_none());
    }
}

#[test]
fn too_many_requests_do_not_fit() {
    let accounts = TextMap::new();
    let huge = || object(vec![("total_requests", Json::Unsigned(u64::MAX))]);
    let one = object(vec![("total_requests", Json::Unsigned(1))]);
    assert!(usage_payload_fits(
        &report(vec![("a", huge())], Json::Null),
        &accounts,
        "house"
    ));
    assert!(!usage_payload_fits(
        &report(vec![("a", huge()), ("b", one)], Json::Null),
        &accounts,
        "house"
    ));
}

#[test]
fn counts_are_read_from_numbers_and_texts() {
    assert_eq!(read_u64(&Json::Unsigned(5)), Some(5));
    assert_eq!(read_u64(&text(" 12 ")), Some(12));
    assert_eq!(read_u64(&text("12x")), None);
    assert_eq!(read_u64(&Json::Negative(-1)), None);
    assert_eq!(read_u64(&Json::Bool(true)), None);
}

#[test]
fn providers_are_suggested_by_names() {
    for (model, provider) in [
        ("House-1", "house"),
        ("GPT-5", "openai"),
        ("o1-mini", "openai"),
        ("o3", "openai"),
        ("o4-mini", "openai"),
        ("oai-x", "openai"),
        ("Gemini-2", "gemini"),
        ("qwen3", "qwen"),
        ("kiro-1", "kiro"),
        ("mistral", "unknown"),
        ("acme/gpt-5", "acme"),
        ("/gpt-5", "unknown"),
    ] {
        assert_eq!(infer_provider_from_model(model, "house"), provider);
    }
}

#[test]
fn growth_is_what_came_on_top() {
    let current = counts(&[("a", 5), ("b", 2), ("c", 1)]);
    let base = counts(&[("a", 3), ("b", 2), ("d", 9), ("c", 4)]);
    let grown = subtract_count_maps(&current, &base);
    assert_eq!(grown.get("a"), Some(&2));
    assert_eq!(grown.keys(), vec!["a"]);
}

fn stats(total: u64, rows: Vec<UsageRequestSummary>) -> UsageStats {
    UsageStats {
        total_requests: total,
        per_model: counts(&[("m", total)]),
        per_provider: counts(&[("p", total)]),
        per_account: counts(&[("acc", total)]),
        by_request: rows,
    }
}

#[test]
fn usage_since_a_baseline() {
    let base = stats(3, vec![row("p", "m", "a", 1), row("p", "m", "a", 2)]);
    assert!(fits_as_baseline(&base));
    let current = stats(
        9,
        vec![
            row("z", "m", "a", 1),
            row("p", "m", "a", 5),
            row("p", "m", "b", 4),
        ],
    );
    let grown = subtract_usage_stats(current, &base);
    assert_eq!(grown.total_requests, 6);
    assert_eq!(grown.per_model.get("m"), Some(&6));
    assert_eq!(grown.per_provider.get("p"), Some(&6));
    assert_eq!(grown.per_account.get("acc"), Some(&6));
    let rows: Vec<(String, String, String, u64)> = rows_of(&grown);
    assert_eq!(
        rows,
        vec![
            ("p".to_string(), "m".to_string(), "a".to_string(), 2),
            ("p".to_string(), "m".to_string(), "b".to_string(), 4),
            ("z".to_string(), "m".to_string(), "a".to_string(), 1),
        ]
    );
}

#[test]
fn right_after_a_reset_everything_reads_zero() {
    let make = || stats(4, vec![row("p", "m", "a", 3), row("q", "m", "a", 1)]);
    let grown = usage_since(make(), Some(&make()));
    assert_eq!(grown.total_requests, 0);
    assert!(grown.per_model.is_empty());
    assert!(grown.per_provider.is_empty());
    assert!(grown.per_account.is_empty());
    assert!(grown.by_request.is_empty());
    let whole = usage_since(make(), None);
    assert_eq!(whole.total_requests, 4);
    assert_eq!(rows_of(&whole).len(), 2);
}

#[test]
fn a_baseline_that_cannot_be_summed_does_not_fit() {
    let base = stats(1, vec![row("p", "m", "a", u64::MAX), row("p", "m", "a", 1)]);
    assert!(!fits_as_baseline(&base));
    let apart = stats(1, vec![row("p", "m", "a", u64::MAX), row("p", "m", "b", 1)]);
    assert!(fits_as_baseline(&apart));
}

#[test]
fn default_usage_is_empty() {
    let none = UsageStats::default();
    assert_eq!(none.total_requests, 0);
    assert!(none.per_model.is_empty());
    let row = UsageRequestSummary::default();
    assert_eq!(row.provider, "");
    assert_eq!(row.requests, 0);
}
