use ai_proxy::gemini::{
    choose_token, client_creds, collect_gemini_quota_buckets, families, family_of,
    family_of_lowercase, gemini_buckets, gemini_report, parse_gemini_client_creds, pick_most_used,
    usage_query, ModelFamily, QuotaBucket, UsageQuery,
};
use ai_proxy::json::Json;
use ai_proxy::provider_usage::{
    anthropic_report, codex_report, copilot_report, report_without_usage, ApiReply, Measure,
    UsageWindow,
};

fn text(s: &str) -> Json {
    Json::Text(s.to_string())
}

fn object(fields: Vec<(&str, Json)>) -> Json {
    Json::Object(
        fields
            .into_iter()
            .map(|(k, v)| (k.to_string(), v))
            .collect(),
    )
}

fn fraction(f: f64) -> Json {
    Json::Fraction(serde_json::Number::from_f64(f).unwrap())
}

fn percent(w: &UsageWindow) -> (Option<&Json>, Option<&Json>) {
    match &w.measure {
        Measure::Percent { used, left } => (used.as_ref(), left.as_ref()),
        other => panic!("unexpected {other:?}"),
    }
}

fn utilization(w: &UsageWindow) -> Option<&Json> {
    match &w.measure {
        Measure::Utilization(used) => used.as_ref(),
        other => panic!("unexpected {other:?}"),
    }
}

#[test]
fn anthropic_windows() {
    let doc = object(vec![
        (
            "five_hour",
            object(vec![
                ("utilization", fraction(35.5)),
                ("resets_at", text("1970-01-01T00:01:40Z")),
            ]),
        ),
        (
            "seven_day",
            object(vec![
                ("utilization", Json::Unsigned(14)),
                ("resets_at", text("1970-01-01T00:00:01Z")),
            ]),
        ),
        ("plan_type", text("max")),
    ]);
    let report = anthropic_report("acc", "house", &ApiReply::Document(doc), 40);
    assert_eq!(report.account_id, "acc");
    assert_eq!(report.provider, "house");
    assert_eq!(utilization(&report.primary), Some(&fraction(35.5)));
    assert_eq!(report.primary.reset_seconds, Some(60));
    assert_eq!(utilization(&report.secondary), Some(&Json::Unsigned(14)));
    assert_eq!(report.secondary.reset_seconds, Some(0));
    assert_eq!(report.plan_type.as_deref(), Some("max"));
    assert_eq!(report.status, "loaded");
}

#[test]
fn replies_without_usage() {
    for (reply, status) in [
        (ApiReply::Unsent, "error"),
        (ApiReply::Garbled, "error"),
        (ApiReply::Refused(500), "error"),
        (ApiReply::Refused(401), "invalid_credentials"),
        (ApiReply::Refused(403), "invalid_credentials"),
    ] {
        let a = anthropic_report("acc", "house", &reply, 0);
        assert_eq!(a.status, status);
        assert_eq!(percent(&a.primary), (None, None));
        assert!(a.plan_type.is_none());
        assert_eq!(copilot_report("acc", &reply, 0).status, status);
        assert_eq!(gemini_buckets("acc", &reply).unwrap_err().status, status);
        let c = codex_report("acc", &reply);
        assert_eq!(c.status, "error");
        assert_eq!(c.provider, "codex");
    }
    let none = report_without_usage("a", "p", "invalid_credentials");
    assert_eq!(none.status, "invalid_credentials");
    assert_eq!(none.secondary.reset_seconds, None);
}

#[test]
fn codex_windows_stand_in_two_places() {
    let nested = object(vec![
        (
            "rate_limit",
            object(vec![(
                "primary_window",
                object(vec![
                    ("used_percent", Json::Unsigned(30)),
                    ("remaining_percent", Json::Unsigned(70)),
                    ("reset_after_seconds", Json::Negative(-3)),
                ]),
            )]),
        ),
        (
            "rate_limits",
            Json::Array(vec![
                object(vec![("window_type", text("other"))]),
                object(vec![
                    ("window_type", text("secondary")),
                    ("left_percent", Json::Unsigned(5)),
                    ("remaining_percent", Json::Unsigned(6)),
                    ("reset_after_seconds", Json::Unsigned(9)),
                ]),
                object(vec![
                    ("window_type", text("secondary")),
                    ("left_percent", Json::Unsigned(99)),
                ]),
                object(vec![
                    ("window_type", text("primary")),
                    ("used_percent", Json::Unsigned(1)),
                ]),
            ]),
        ),
        ("plan_type", text("plus")),
    ]);
    let report = codex_report("acc", &ApiReply::Document(nested));
    assert_eq!(
        percent(&report.primary),
        (Some(&Json::Unsigned(30)), Some(&Json::Unsigned(70)))
    );
    assert_eq!(report.primary.reset_seconds, Some(-3));
    assert_eq!(percent(&report.secondary), (None, Some(&Json::Unsigned(5))));
    assert_eq!(report.secondary.reset_seconds, Some(9));
    assert_eq!(report.plan_type.as_deref(), Some("plus"));
    let empty = codex_report("acc", &ApiReply::Document(Json::Null));
    assert_eq!(percent(&empty.primary), (None, None));
    assert_eq!(empty.status, "loaded");
}

#[test]
fn copilot_plans() {
    let paid = object(vec![
        ("copilot_plan", text("pro")),
        (
            "quota_snapshots",
            object(vec![(
                "chat",
                object(vec![("percent_remaining", Json::Unsigned(40))]),
            )]),
        ),
        ("quota_reset_date", text("1970-01-01T00:00:30Z")),
        ("limited_user_quotas", object(vec![])),
        ("monthly_quotas", object(vec![])),
    ]);
    let report = copilot_report("acc", &ApiReply::Document(paid), 10);
    assert!(matches!(
        report.primary.measure,
        Measure::RemainingPercent(None)
    ));
    assert!(matches!(
        report.secondary.measure,
        Measure::RemainingPercent(Some(Json::Unsigned(40)))
    ));
    assert_eq!(report.primary.reset_seconds, Some(20));
    assert_eq!(report.plan_type.as_deref(), Some("pro"));

    let free = object(vec![
        (
            "limited_user_quotas",
            object(vec![
                ("chat", Json::Unsigned(10)),
                ("completions", Json::Unsigned(7)),
            ]),
        ),
        (
            "monthly_quotas",
            object(vec![("chat", Json::Unsigned(50))]),
        ),
        ("limited_user_reset_date", text("1970-01-01T00:00:05Z")),
    ]);
    let report = copilot_report("acc", &ApiReply::Document(free), 0);
    assert!(matches!(
        report.primary.measure,
        Measure::RemainingOf {
            remaining: Some(Json::Unsigned(10)),
            total: Some(Json::Unsigned(50))
        }
    ));
    assert!(matches!(
        report.secondary.measure,
        Measure::RemainingOf {
            remaining: Some(Json::Unsigned(7)),
            total: None
        }
    ));
    assert_eq!(report.secondary.reset_seconds, Some(5));

    let neither = copilot_report("acc", &ApiReply::Document(object(vec![])), 0);
    assert_eq!(percent(&neither.primary), (None, None));
    assert_eq!(neither.primary.reset_seconds, None);
}

fn bucket(model: &str, remaining: Json, reset: Option<&str>) -> Json {
    let mut fields = vec![("modelId", text(model)), ("remainingFraction", remaining)];
    if let Some(r) = reset {
        fields.push(("resetTime", text(r)));
    }
    object(fields)
}

#[test]
fn gemini_buckets_are_found_at_any_depth() {
    let doc = object(vec![
        ("remainingFraction", fraction(0.5)),
        (
            "a",
            Json::Array(vec![
                bucket("gemini-pro", fraction(0.25), Some("1970-01-01T00:01:00Z")),
                object(vec![("b", bucket("gemini-flash", Json::Unsigned(1), None))]),
                object(vec![
                    ("model_id", text("old")),
                    ("reset_time", text("x")),
                    ("remainingFraction", Json::Unsigned(0)),
                ]),
                object(vec![("remainingFraction", text("not a number"))]),
            ]),
        ),
    ]);
    let mut found: Vec<QuotaBucket> = Vec::new();
    collect_gemini_quota_buckets(&doc, &mut found);
    let models: Vec<&str> = found.iter().map(|b| b.model_id.as_str()).collect();
    assert_eq!(models, vec!["unknown", "gemini-pro", "gemini-flash", "old"]);
    assert_eq!(found[1].remaining, fraction(0.25));
    assert_eq!(found[1].reset_time.as_deref(), Some("1970-01-01T00:01:00Z"));
    assert_eq!(found[3].reset_time.as_deref(), Some("x"));

    let buckets = gemini_buckets("acc", &ApiReply::Document(doc)).unwrap();
    let kinds = families(&buckets);
    assert_eq!(
        kinds,
        vec![
            ModelFamily::Other,
            ModelFamily::Pro,
            ModelFamily::Flash,
            ModelFamily::Other
        ]
    );
    let report = gemini_report("acc", &buckets, Some(1), None, 20);
    assert_eq!(report.provider, "gemini");
    assert_eq!(report.primary.reset_seconds, Some(40));
    assert!(matches!(
        report.primary.measure,
        Measure::RemainingFraction(Some(Json::Fraction(_)))
    ));
    assert_eq!(percent(&report.secondary), (None, None));
    assert_eq!(report.status, "loaded");
    assert_eq!(
        gemini_buckets("acc", &ApiReply::Document(Json::Null))
            .unwrap_err()
            .status,
        "error"
    );
}

#[test]
fn families_by_name() {
    assert_eq!(family_of("Gemini-2.5-PRO"), ModelFamily::Pro);
    assert_eq!(family_of("gemini-flash-pro"), ModelFamily::Pro);
    assert_eq!(family_of("GEMINI-Flash"), ModelFamily::Flash);
    assert_eq!(family_of("pro"), ModelFamily::Other);
    assert_eq!(family_of_lowercase("Gemini-pro"), ModelFamily::Other);
}

#[test]
fn the_first_of_the_most_used_is_picked() {
    let kinds = vec![
        ModelFamily::Pro,
        ModelFamily::Flash,
        ModelFamily::Pro,
        ModelFamily::Pro,
    ];
    let used = vec![3, 9, 7, 7];
    assert_eq!(pick_most_used(&kinds, &used, ModelFamily::Pro), Some(2));
    assert_eq!(pick_most_used(&kinds, &used, ModelFamily::Flash), Some(1));
    assert_eq!(pick_most_used(&kinds, &used, ModelFamily::Other), None);
}

#[test]
fn credentials_in_source_text() {
    let source = "const OAUTH_CLIENT_ID = 'the-id';\nconst OAUTH_CLIENT_SECRET=\"hush\";";
    assert_eq!(
        parse_gemini_client_creds(source),
        Some(("the-id".to_string(), "hush".to_string()))
    );
    assert_eq!(parse_gemini_client_creds("OAUTH_CLIENT_ID = 'x'"), None);
    assert_eq!(parse_gemini_client_creds("OAUTH_CLIENT_ID = ''"), None);
    assert_eq!(client_creds(None, Some("s".to_string())), None);
    assert_eq!(
        choose_token(Some("old".to_string()), Some("new".to_string())),
        Some("new".to_string())
    );
    assert_eq!(
        choose_token(Some("old".to_string()), None),
        Some("old".to_string())
    );
}

#[test]
fn accounts_are_asked_about_with_their_tokens() {
    let doc = object(vec![
        ("access_token", text("t")),
        ("refresh_token", text("r")),
    ]);
    let bare = object(vec![]);
    assert!(matches!(
        usage_query("house", "house", &doc),
        Some(UsageQuery::Anthropic { token }) if token == "t"
    ));
    assert!(matches!(
        usage_query("codex", "house", &doc),
        Some(UsageQuery::Codex { token }) if token == "t"
    ));
    assert!(matches!(
        usage_query("github-copilot", "house", &doc),
        Some(UsageQuery::Copilot { token }) if token == "t"
    ));
    assert!(matches!(
        usage_query("gemini", "house", &doc),
        Some(UsageQuery::Gemini { stored: Some(_), refresh: Some(_) })
    ));
    assert!(matches!(
        usage_query("gemini", "house", &bare),
        Some(UsageQuery::Gemini { stored: None, refresh: None })
    ));
    assert!(usage_query("house", "house", &bare).is_none());
    assert!(usage_query("codex", "house", &bare).is_none());
    assert!(usage_query("github-copilot", "house", &bare).is_none());
    assert!(usage_query("qwen", "house", &doc).is_none());
}
