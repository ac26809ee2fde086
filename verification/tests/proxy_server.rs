use ai_proxy::json::Json;
use ai_proxy::model_groups::ModelGroupRegistry;
use ai_proxy::ports::{
    auth_files_url, collect_backend_ports, collect_model_ports, missing_usage, models_url,
    read_reply, usage_url, PortScan, Reply,
};
use ai_proxy::proxy_server::{
    backend_url, begin_completion, begin_with, checked_status, forward_headers, get_status,
    get_usage_stats, infer_provider, inject_groups, inject_groups_now, new_shared_state,
    port_to_check, proxy_status_report, reset_usage, started_status, stop_proxy, store_handle,
    update_model_groups, BackendOutcome, CompletionRefusal, CompletionSession, Header, NextStep,
    ProxyServerHandle,
};
use ai_proxy::types::{ProxyModelGroup, ProxyModelGroupMember, ProxyStatus};
use ai_proxy::usage::UsageTracker;

fn text(s: &str) -> Json {
    Json::Text(s.to_string())
}

fn header(name: &str, value: &str) -> Header {
    Header {
        name: name.to_string(),
        value: value.as_bytes().to_vec(),
    }
}

fn group(name: &str, members: &[(&str, &str)]) -> ProxyModelGroup {
    ProxyModelGroup {
        name: name.to_string(),
        models: members
            .iter()
            .map(|(provider, model)| ProxyModelGroupMember {
                model: model.to_string(),
                provider: provider.to_string(),
                enabled: true,
            })
            .collect(),
        enabled: true,
        strategy: "round_robin".to_string(),
    }
}

fn find<'a>(headers: &'a [Header], name: &str) -> Option<&'a Header> {
    headers.iter().find(|h| h.name == name)
}

#[test]
fn infer_provider_known() {
    let name = "anthropic";
    assert_eq!(infer_provider("anthropic-sonnet-4", name), "anthropic");
    assert_eq!(infer_provider("gpt-4o", name), "openai");
    assert_eq!(infer_provider("o3-mini", name), "openai");
    assert_eq!(infer_provider("gemini-2.5-pro", name), "gemini");
    assert_eq!(infer_provider("openai/gpt-4o", name), "openai");
    assert_eq!(infer_provider("acme/anthropic-sonnet-4", name), "acme");
    assert_eq!(infer_provider("mistral-large", name), "unknown");
}

#[test]
fn infer_provider_edges() {
    assert_eq!(infer_provider(" /gpt-4o", "house"), "unknown");
    assert_eq!(infer_provider("o1", "house"), "openai");
    assert_eq!(infer_provider(" x /y", "house"), "x");
    assert_eq!(infer_provider("GPT-4", "house"), "unknown");
    assert_eq!(infer_provider("", "house"), "unknown");
}

#[test]
fn forward_headers_filters() {
    let hm = vec![
        header("content-type", "application/json"),
        header("authorization", "Bearer tok"),
        header("x-custom", "ignored"),
    ];

    let forwarded = forward_headers(&hm);
    assert!(find(&forwarded, "content-type").is_some());
    assert!(find(&forwarded, "authorization").is_some());
    assert!(find(&forwarded, "x-custom").is_none());
}

#[test]
fn forwarded_headers_keep_their_first_value() {
    let hm = vec![
        header("User-Agent", "first"),
        header("user-agent", "second"),
        header("accept", "a\tb"),
        header("x-api-key", "bad\nvalue"),
        header("x-api-key", "good"),
        header("anthropic-version", "2023"),
    ];
    let forwarded = forward_headers(&hm);
    let names: Vec<&str> = forwarded.iter().map(|h| h.name.as_str()).collect();
    assert_eq!(names, vec!["anthropic-version", "accept", "user-agent"]);
    assert_eq!(find(&forwarded, "user-agent").unwrap().value, b"first".to_vec());
    assert_eq!(find(&forwarded, "accept").unwrap().value, b"a\tb".to_vec());
}

#[test]
fn addresses() {
    assert_eq!(
        backend_url(8317, "/v1/messages"),
        "http://127.0.0.1:8317/v1/messages"
    );
    assert_eq!(models_url(1), "http://127.0.0.1:1/v1/models");
    assert_eq!(
        auth_files_url(20),
        "http://127.0.0.1:20/v0/management/auth-files"
    );
    assert_eq!(usage_url(20), "http://127.0.0.1:20/v0/management/usage");
}

fn begin(body: &str, groups: &mut ModelGroupRegistry, usage: &mut UsageTracker) -> CompletionSession {
    begin_completion(body.as_bytes(), groups, usage, "house").unwrap()
}

#[test]
fn a_group_fails_over_to_each_member_once() {
    let mut groups = ModelGroupRegistry::new(vec![group(
        "fast",
        &[("a", "m1"), ("b", "m2"), ("c", "m3"), ("d", "m4")],
    )]);
    let mut usage = UsageTracker::new();
    let mut session = begin(
        "{\"model\":\"fast\",\"stream\":true,\"n\":1}",
        &mut groups,
        &mut usage,
    );
    assert!(session.is_streaming());
    assert_eq!(
        session.payload(),
        b"{\"model\":\"a/m1\",\"n\":1,\"stream\":true}".to_vec()
    );
    assert!(matches!(
        session.answered(BackendOutcome::Status(429), &groups, &mut usage),
        NextStep::Retry
    ));
    assert_eq!(session.body().get("model"), Some(&text("b/m2")));
    assert!(matches!(
        session.answered(
            BackendOutcome::Unreachable("refused".to_string()),
            &groups,
            &mut usage
        ),
        NextStep::Retry
    ));
    assert_eq!(session.body().get("model"), Some(&text("c/m3")));
    assert!(matches!(
        session.answered(BackendOutcome::Status(503), &groups, &mut usage),
        NextStep::Relay
    ));
    assert_eq!(session.tried_targets(), &vec!["a/m1", "b/m2", "c/m3"]);
    let stats = usage.stats();
    assert_eq!(stats.total_requests, 3);
    assert_eq!(stats.per_model.get("b/m2"), Some(&1));
    assert_eq!(stats.per_provider.get("c"), Some(&1));
}

#[test]
fn a_plain_name_fails_over_to_the_other_provider() {
    let mut groups =
        ModelGroupRegistry::new(vec![group("dupe", &[("openai", "gpt"), ("azure", "gpt")])]);
    let mut usage = UsageTracker::new();
    let mut session = begin("{\"model\":\"gpt\"}", &mut groups, &mut usage);
    assert!(!session.is_streaming());
    assert!(matches!(
        session.answered(BackendOutcome::Status(500), &groups, &mut usage),
        NextStep::Retry
    ));
    assert_eq!(session.tried_targets(), &vec!["openai/gpt", "azure/gpt"]);
    match session.answered(
        BackendOutcome::Unreachable("timed out".to_string()),
        &groups,
        &mut usage,
    ) {
        NextStep::Fail(reason) => assert_eq!(reason, "Backend request failed: timed out"),
        other => panic!("unexpected {other:?}"),
    }
}

#[test]
fn explicit_and_unknown_models_are_sent_once() {
    let mut groups = ModelGroupRegistry::new(vec![group("fast", &[("a", "m1"), ("b", "m2")])]);
    let mut usage = UsageTracker::new();
    for body in ["{\"model\":\"a/m1\"}", "{\"model\":\"zzz\"}", "{}", "[1]"] {
        let mut session = begin(body, &mut groups, &mut usage);
        assert!(matches!(
            session.answered(BackendOutcome::Status(502), &groups, &mut usage),
            NextStep::Relay
        ));
    }
}

#[test]
fn other_statuses_are_relayed() {
    let mut groups = ModelGroupRegistry::new(vec![group("fast", &[("a", "m1"), ("b", "m2")])]);
    let mut usage = UsageTracker::new();
    for status in [200, 400, 404, 428, 430, 499, 600] {
        let mut session = begin("{\"model\":\"fast\"}", &mut groups, &mut usage);
        assert!(matches!(
            session.answered(BackendOutcome::Status(status), &groups, &mut usage),
            NextStep::Relay
        ));
        assert_eq!(session.tried_targets().len(), 1);
    }
}

#[test]
fn bad_bodies_are_refused() {
    let mut groups = ModelGroupRegistry::new(vec![group("", &[("a", "m1")])]);
    let mut usage = UsageTracker::new();
    match begin_completion(b"{", &mut groups, &mut usage, "house") {
        Err(CompletionRefusal::InvalidJson(reason)) => {
            assert!(reason.starts_with("Invalid JSON: EOF"))
        }
        other => panic!("unexpected {other:?}"),
    }
    assert!(matches!(
        begin_completion(b"3", &mut groups, &mut usage, "house"),
        Err(CompletionRefusal::NotAnObject)
    ));
    assert_eq!(usage.stats().total_requests, 0);
}

#[test]
fn numbers_pass_through_a_session_unchanged() {
    let mut groups = ModelGroupRegistry::new(vec![]);
    let mut usage = UsageTracker::new();
    let body = "{\"a\":-7,\"b\":0.1,\"c\":18446744073709551615,\"d\":[null,false],\"model\":\"m\"}";
    let session = begin(body, &mut groups, &mut usage);
    assert_eq!(session.payload(), body.as_bytes().to_vec());
    assert_eq!(session.body().get("a"), Some(&Json::Negative(-7)));
    assert_eq!(session.body().get("c"), Some(&Json::Unsigned(u64::MAX)));
}

#[test]
fn a_parsed_body_is_counted_by_provider() {
    let mut groups = ModelGroupRegistry::new(vec![]);
    let mut usage = UsageTracker::new();
    let body = Json::Object(vec![("model".to_string(), text("house-3"))]);
    let session = begin_with(body, &mut groups, &mut usage, "house");
    assert_eq!(session.tried_targets(), &vec!["house-3"]);
    assert_eq!(usage.stats().per_provider.get("house"), Some(&1));
}

#[test]
fn groups_stand_behind_the_models() {
    let mut list = Json::Object(vec![(
        "data".to_string(),
        Json::Array(vec![text("first")]),
    )]);
    inject_groups(&mut list, &vec!["fast".to_string()], 42);
    let data = list.get("data").unwrap().as_array().unwrap();
    assert_eq!(data.len(), 2);
    assert_eq!(data[0], text("first"));
    assert_eq!(data[1].get("id"), Some(&text("fast")));
    assert_eq!(data[1].get("object"), Some(&text("model")));
    assert_eq!(data[1].get("created"), Some(&Json::Unsigned(42)));
    assert_eq!(data[1].get("owned_by"), Some(&text("jean-proxy")));

    let mut other = text("not a list");
    inject_groups(&mut other, &vec!["fast".to_string()], 42);
    assert_eq!(other, text("not a list"));

    let groups = ModelGroupRegistry::new(vec![group("fast", &[])]);
    let mut now = Json::Object(vec![("data".to_string(), Json::Array(vec![]))]);
    inject_groups_now(&mut now, &groups);
    assert_eq!(now.get("data").unwrap().as_array().unwrap().len(), 1);
}

#[test]
fn the_proxy_reports_itself() {
    let report = proxy_status_report(8317, &vec!["a".to_string(), "b".to_string()], 5);
    assert_eq!(report.get("running"), Some(&Json::Bool(true)));
    assert_eq!(report.get("backend_port"), Some(&Json::Unsigned(8317)));
    assert_eq!(
        report.get("model_groups"),
        Some(&Json::Array(vec![text("a"), text("b")]))
    );
    assert_eq!(report.get("uptime_secs"), Some(&Json::Unsigned(5)));
}

#[test]
fn a_stored_proxy_runs_until_it_is_stopped() {
    let mut slot: Option<ProxyServerHandle> = None;
    assert!(!get_status(&slot).running);
    store_handle(&mut slot, 1, 2);
    let status = get_status(&slot);
    assert!(status.running);
    assert_eq!(status.proxy_port, Some(1));
    assert_eq!(status.backend_port, Some(2));
    assert_eq!(port_to_check(&status), Some(2));
    assert_eq!(
        stop_proxy(&mut slot),
        Some(ProxyServerHandle {
            port: 1,
            backend_port: 2
        })
    );
    assert_eq!(stop_proxy(&mut slot), None);
    assert!(get_status(&slot).proxy_port.is_none());
}

#[test]
fn an_unhealthy_backend_is_not_running() {
    let down = checked_status(started_status(1, 2), true, false);
    assert!(!down.running);
    assert_eq!(down.backend_port, None);
    assert_eq!(down.proxy_port, Some(1));
    let up = checked_status(started_status(1, 2), false, true);
    assert!(up.running);
    assert!(!up.backend_installed);
    let stopped = get_status(&None);
    assert_eq!(port_to_check(&stopped), None);
    assert!(!checked_status(stopped, true, false).running);
}

#[test]
fn shared_state_follows_the_commands() {
    let mut shared = Some(new_shared_state(vec![group("fast", &[("a", "m")])]));
    if let Some(state) = shared.as_mut() {
        state.usage.record("m", "p");
    }
    assert_eq!(get_usage_stats(&shared).unwrap().total_requests, 1);
    update_model_groups(&mut shared, vec![group("slow", &[])]);
    assert_eq!(shared.as_ref().unwrap().groups.group_names(), vec!["slow"]);
    assert_eq!(get_usage_stats(&shared).unwrap().total_requests, 1);
    reset_usage(&mut shared);
    assert_eq!(get_usage_stats(&shared).unwrap().total_requests, 0);
    let mut none = None;
    update_model_groups(&mut none, vec![]);
    reset_usage(&mut none);
    assert!(get_usage_stats(&none).is_none());
}

fn status(proxy: Option<u16>, backend: Option<u16>) -> ProxyStatus {
    ProxyStatus {
        running: true,
        proxy_port: proxy,
        backend_port: backend,
        backend_installed: true,
    }
}

#[test]
fn ports_are_asked_in_order_and_once() {
    assert_eq!(collect_backend_ports(&status(None, Some(9)), Some(3)), vec![3, 9]);
    assert_eq!(collect_backend_ports(&status(Some(1), Some(9)), Some(9)), vec![9]);
    assert_eq!(collect_backend_ports(&status(None, None), None), Vec::<u16>::new());
    assert_eq!(
        collect_model_ports(&status(Some(5), Some(9)), Some((9, 1))),
        vec![1, 5, 9]
    );
    assert_eq!(collect_model_ports(&status(Some(5), None), None), vec![5]);
}

#[test]
fn a_scan_ends_with_the_last_error() {
    let mut scan = PortScan::new(vec![1, 2]);
    assert_eq!(scan.give_up("Gone"), "Gone");
    assert_eq!(scan.next_port(), Some(1));
    scan.failed("one".to_string());
    assert_eq!(scan.next_port(), Some(2));
    scan.failed("two".to_string());
    assert_eq!(scan.next_port(), None);
    assert_eq!(scan.next_port(), None);
    assert_eq!(scan.give_up("Gone"), "Gone (two)");
}

#[test]
fn replies_are_read_or_explained() {
    let read = |reply: Reply| read_reply("u", reply);
    assert_eq!(read(Reply::Document(Json::Null)), Ok(Json::Null));
    assert_eq!(
        read(Reply::Unsent("down".to_string())),
        Err("u: down".to_string())
    );
    assert_eq!(
        read(Reply::Refused("404 Not Found".to_string())),
        Err("u: HTTP 404 Not Found".to_string())
    );
    assert_eq!(
        read(Reply::Garbled("eof".to_string())),
        Err("u: invalid JSON (eof)".to_string())
    );
    assert_eq!(missing_usage("u"), "u: missing usage payload");
}
