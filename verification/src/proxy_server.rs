//! The proxy between the user's tools and the backend.
//!
//! A completion request is rewritten and sent on. When a target is overloaded
//! or fails, the request goes to another one of the group, up to a fixed
//! number of attempts.

use vstd::prelude::*;

#[allow(unused_imports)]
use crate::clock::{clock_moment, clock_reads};
use crate::json::{encode, get_after_set, parse_bytes, Json, JsonView};
#[allow(unused_imports)]
use crate::json::{json_encoded, json_parsed, json_views};
#[allow(unused_imports)]
use crate::maps::count_of;
use crate::model_groups::{ModelGroupRegistry, ResolvedModel};
#[allow(unused_imports)]
use crate::model_groups::{
    failover_is_fresh_and_complete, opt_resolution, plain_failover_is_fresh, Registry, Resolution,
};
use crate::numbers::decimal;
#[allow(unused_imports)]
use crate::numbers::decimal_text;
use crate::text::{join2, join3, split_once, starts_with, text_eq, to_ascii_lowercase, trim};
#[allow(unused_imports)]
use crate::text::{
    ascii_lower, begins_with, finishes_with, opt_view, split_first, trimmed, views,
};
use crate::transforms::{apply_transforms, can_transform};
#[allow(unused_imports)]
use crate::transforms::{transformable, transformed};
use crate::types::{ProxyModelGroup, ProxyStatus, UsageStats};
use crate::usage::UsageTracker;
#[allow(unused_imports)]
use crate::usage::UsageCounts;

verus! {

// ---------------------------------------------------------------------------
// Addresses and providers
// ---------------------------------------------------------------------------

/// The address of a path on a local port.
pub open spec fn local_url(port: u16, path: Seq<char>) -> Seq<char> {
    "http://127.0.0.1:"@ + decimal_text(port as nat) + path
}

/// The address of a path on the backend.
pub fn backend_url(backend_port: u16, path: &str) -> (r: String)
    ensures
        r@ == local_url(backend_port, path@),
{
    let port = decimal(backend_port as u64);
    join3("http://127.0.0.1:", port.as_str(), path)
}

/// The provider that a requested model belongs to, as far as its name tells.
/// Anthropic's models are called after the name that it goes by.
pub open spec fn provider_of(model: Seq<char>, anthropic: Seq<char>) -> Seq<char> {
    let named = match split_first(model, "/"@) {
        Some((p, _)) => trimmed(p),
        None => Seq::empty(),
    };
    if named.len() > 0 {
        named
    } else if begins_with(model, anthropic) {
        anthropic
    } else if begins_with(model, "gpt"@) || begins_with(model, "o1"@) || begins_with(model, "o3"@) {
        "openai"@
    } else if begins_with(model, "gemini"@) {
        "gemini"@
    } else {
        "unknown"@
    }
}

/// The provider that a requested model belongs to, as far as its name tells.
pub fn infer_provider(model: &str, anthropic: &str) -> (r: String)
    ensures
        r@ == provider_of(model@, anthropic@),
{
    match split_once(model, "/") {
        Some((p, _)) => {
            let provider = trim(p.as_str());
            if !provider.as_str().is_empty() {
                return provider;
            }
        },
        None => {},
    }
    if starts_with(model, anthropic) {
        anthropic.to_owned()
    } else if starts_with(model, "gpt") || starts_with(model, "o1") || starts_with(model, "o3") {
        "openai".to_owned()
    } else if starts_with(model, "gemini") {
        "gemini".to_owned()
    } else {
        "unknown".to_owned()
    }
}

// ---------------------------------------------------------------------------
// Headers
// ---------------------------------------------------------------------------

/// A header: its name and its value.
#[derive(Debug)]
pub struct Header {
    pub name: String,
    pub value: Vec<u8>,
}

/// The names of the headers that are passed on.
pub open spec fn forwarded_names() -> Seq<Seq<char>> {
    seq![
        "content-type"@,
        "authorization"@,
        "anthropic-version"@,
        "x-api-key"@,
        "accept"@,
        "user-agent"@,
    ]
}

/// A byte that can stand in a header's value.
pub open spec fn header_byte(b: u8) -> bool {
    (b >= 32 && b != 127) || b == 9
}

/// The bytes can be a header's value.
pub open spec fn header_value(v: Seq<u8>) -> bool {
    forall|i: int| 0 <= i < v.len() ==> header_byte(#[trigger] v[i])
}

/// The value of the first header of that name. Names are compared without
/// regard to case.
pub open spec fn first_value(headers: Seq<Header>, name: Seq<char>) -> Option<Seq<u8>>
    decreases headers.len(),
{
    if headers.len() == 0 {
        None
    } else if ascii_lower(headers[0].name@) == name {
        Some(headers[0].value@)
    } else {
        first_value(headers.drop_first(), name)
    }
}

/// The headers as names and values.
pub open spec fn header_views(s: Seq<Header>) -> Seq<(Seq<char>, Seq<u8>)> {
    Seq::new(s.len(), |i: int| (s[i].name@, s[i].value@))
}

/// The first value of each of the names, in their order, where there is one
/// and it can be sent.
pub open spec fn forwarded(headers: Seq<Header>, names: Seq<Seq<char>>) -> Seq<
    (Seq<char>, Seq<u8>),
>
    decreases names.len(),
{
    if names.len() == 0 {
        Seq::empty()
    } else {
        let rest = forwarded(headers, names.drop_last());
        match first_value(headers, names.last()) {
            Some(v) => if header_value(v) {
                rest.push((names.last(), v))
            } else {
                rest
            },
            None => rest,
        }
    }
}

/// `reqwest::header::HeaderValue::from_bytes`: the bytes as a header's value,
/// unless one of them is a control character other than tab.
#[verifier::external_body]
fn checked_value(bytes: &[u8]) -> (r: Option<Vec<u8>>)
    ensures
        r is Some <==> header_value(bytes@),
        r matches Some(v) ==> v@ == bytes@,
{
    match reqwest::header::HeaderValue::from_bytes(bytes) {
        Ok(v) => Some(v.as_bytes().to_vec()),
        Err(_) => None,
    }
}

/// Adds the first value of that name, where there is one and it can be sent.
fn forward_one(headers: &Vec<Header>, name: &str, out: &mut Vec<Header>, Ghost(names): Ghost<
    Seq<Seq<char>>,
>)
    requires
        header_views(old(out)@) == forwarded(headers@, names),
    ensures
        header_views(final(out)@) == forwarded(headers@, names.push(name@)),
{
    let ghost before = out@;
    let ghost all = headers@;
    assert(names.push(name@).drop_last() =~= names);
    let mut i: usize = 0;
    assert(all.skip(0) =~= all);
    while i < headers.len()
        invariant
            i <= headers@.len(),
            all == headers@,
            out@ == before,
            names.push(name@).drop_last() == names,
            header_views(before) == forwarded(all, names),
            first_value(all, name@) == first_value(all.skip(i as int), name@),
        decreases headers@.len() - i,
    {
        assert(all.skip(i as int)[0] == all[i as int]);
        assert(all.skip(i as int).drop_first() =~= all.skip(i + 1));
        let lower = to_ascii_lowercase(headers[i].name.as_str());
        if text_eq(lower.as_str(), name) {
            match checked_value(headers[i].value.as_slice()) {
                Some(value) => {
                    out.push(Header { name: name.to_owned(), value });
                    assert(header_views(out@) =~= header_views(before).push((name@, value@)));
                },
                None => {},
            }
            return ;
        }
        i = i + 1;
    }
}

/// The headers of a request that are passed on to the backend.
pub fn forward_headers(source: &Vec<Header>) -> (r: Vec<Header>)
    ensures
        header_views(r@) == forwarded(source@, forwarded_names()),
{
    let mut out: Vec<Header> = Vec::new();
    let ghost n0 = Seq::<Seq<char>>::empty();
    assert(header_views(out@) =~= forwarded(source@, n0));
    forward_one(source, "content-type", &mut out, Ghost(n0));
    let ghost n1 = n0.push("content-type"@);
    forward_one(source, "authorization", &mut out, Ghost(n1));
    let ghost n2 = n1.push("authorization"@);
    forward_one(source, "anthropic-version", &mut out, Ghost(n2));
    let ghost n3 = n2.push("anthropic-version"@);
    forward_one(source, "x-api-key", &mut out, Ghost(n3));
    let ghost n4 = n3.push("x-api-key"@);
    forward_one(source, "accept", &mut out, Ghost(n4));
    let ghost n5 = n4.push("accept"@);
    forward_one(source, "user-agent", &mut out, Ghost(n5));
    assert(n5.push("user-agent"@) =~= forwarded_names());
    out
}

proof fn lemma_forwarded(headers: Seq<Header>, names: Seq<Seq<char>>, i: int)
    requires
        0 <= i < forwarded(headers, names).len(),
    ensures
        names.contains(forwarded(headers, names)[i].0),
        first_value(headers, forwarded(headers, names)[i].0) == Some(
            forwarded(headers, names)[i].1,
        ),
    decreases names.len(),
{
    let rest = forwarded(headers, names.drop_last());
    if i < rest.len() {
        lemma_forwarded(headers, names.drop_last(), i);
        let name = forwarded(headers, names)[i].0;
        let j = choose|j: int| 0 <= j < names.drop_last().len() && names.drop_last()[j] == name;
        assert(names[j] == name);
    } else {
        assert(names[names.len() - 1] == forwarded(headers, names)[i].0);
    }
}

/// Nothing is passed on but headers of the listed names, with their values.
pub proof fn only_listed_headers_pass(headers: Seq<Header>, i: int)
    requires
        0 <= i < forwarded(headers, forwarded_names()).len(),
    ensures
        forwarded_names().contains(forwarded(headers, forwarded_names())[i].0),
        first_value(headers, forwarded(headers, forwarded_names())[i].0) == Some(
            forwarded(headers, forwarded_names())[i].1,
        ),
{
    lemma_forwarded(headers, forwarded_names(), i);
}

// ---------------------------------------------------------------------------
// Completion requests
// ---------------------------------------------------------------------------

/// How often a completion request is sent at most.
pub const MAX_ATTEMPTS: u32 = 3;

/// A completion request under way.
#[derive(Debug)]
pub struct CompletionSession {
    body: Json,
    tried: Vec<String>,
    group_name: Option<String>,
    plain_model: Option<String>,
    attempt: u32,
    streaming: bool,
}

/// Why a completion request was not taken up.
#[derive(Debug)]
pub enum CompletionRefusal {
    /// The body is not JSON; the text for the client.
    InvalidJson(String),
    /// The body is neither an object nor null, and a group without a name
    /// would have to be written into it.
    NotAnObject,
}

/// What came back from the backend.
#[derive(Debug)]
pub enum BackendOutcome {
    /// A response with this status.
    Status(u16),
    /// No response; the error's text.
    Unreachable(String),
}

/// What to do next.
#[derive(Debug)]
pub enum NextStep {
    /// Send the request again, to the session's new target.
    Retry,
    /// Hand the response to the client.
    Relay,
    /// Answer that the backend could not be reached, with this text.
    Fail(String),
}

/// The mathematical content of a session.
pub struct Session {
    pub body: JsonView,
    pub tried: Seq<Seq<char>>,
    pub group: Option<Seq<char>>,
    pub plain: Option<Seq<char>>,
    pub attempt: nat,
    pub streaming: bool,
}

impl View for CompletionSession {
    type V = Session;

    closed spec fn view(&self) -> Session {
        Session {
            body: self.body@,
            tried: views(self.tried@),
            group: opt_view(self.group_name),
            plain: opt_view(self.plain_model),
            attempt: self.attempt as nat,
            streaming: self.streaming,
        }
    }
}

/// What came back, as values.
pub enum Outcome {
    Status(u16),
    Unreachable(Seq<char>),
}

impl View for BackendOutcome {
    type V = Outcome;

    open spec fn view(&self) -> Outcome {
        match *self {
            BackendOutcome::Status(s) => Outcome::Status(s),
            BackendOutcome::Unreachable(e) => Outcome::Unreachable(e@),
        }
    }
}

/// Another target is worth a try: the backend is overloaded, has failed, or
/// did not answer.
pub open spec fn retryable(o: Outcome) -> bool {
    match o {
        Outcome::Status(s) => s == 429 || 500 <= s < 600,
        Outcome::Unreachable(_) => true,
    }
}

/// The client asked for a stream.
pub open spec fn wants_stream(body: JsonView) -> bool {
    match body.get("stream"@) {
        Some(v) => v.boolean() == Some(true),
        None => false,
    }
}

impl Session {
    /// Each target once, as many as there have been attempts, and a request
    /// that can fail over has a body to write the next target into.
    pub open spec fn well_formed(self) -> bool {
        &&& self.attempt < MAX_ATTEMPTS
        &&& self.tried.len() == self.attempt + 1
        &&& self.tried.no_duplicates()
        &&& self.group is Some || self.plain is Some ==> self.body.settable()
    }

    /// The next target that has not been tried.
    pub open spec fn next_target(self, registry: Registry) -> Option<Resolution> {
        match self.group {
            Some(g) => registry.next(g, self.tried),
            None => match self.plain {
                Some(p) => registry.plain(p, self.tried),
                None => None,
            },
        }
    }

    /// The request is sent once more.
    pub open spec fn retries(self, o: Outcome, registry: Registry) -> bool {
        &&& retryable(o)
        &&& self.attempt + 1 < MAX_ATTEMPTS
        &&& self.next_target(registry) is Some
    }

    /// The session after turning to the next target.
    pub open spec fn turned_to(self, next: Resolution) -> Session {
        Session {
            body: self.body.set("model"@, JsonView::Text(next.target())),
            tried: self.tried.push(next.target()),
            attempt: self.attempt + 1,
            ..self
        }
    }
}

/// A request as it is first sent.
pub open spec fn started(body: JsonView, registry: Registry) -> Session {
    let t = transformed(body, registry);
    Session {
        body: t.body,
        tried: seq![t.model],
        group: t.group,
        plain: t.plain,
        attempt: 0,
        streaming: wants_stream(t.body),
    }
}

/// The counts after a request has been taken up.
pub open spec fn counted(
    usage: UsageCounts,
    body: JsonView,
    registry: Registry,
    anthropic: Seq<char>,
) -> UsageCounts {
    let t = transformed(body, registry);
    usage.recorded(t.model, provider_of(t.model, anthropic))
}

/// A session that has just started is well-formed.
proof fn lemma_started(body: JsonView, registry: Registry)
    requires
        transformable(body, registry),
    ensures
        started(body, registry).well_formed(),
{
    let t = transformed(body, registry);
    if t.group is Some || t.plain is Some {
        if !body.settable() {
            assert(crate::transforms::asked_model(body) =~= Seq::empty());
            reveal_strlit("/");
        }
    }
}

/// Takes up a parsed completion request: rewrites it and counts it.
pub fn begin_with(
    body: Json,
    groups: &mut ModelGroupRegistry,
    usage: &mut UsageTracker,
    anthropic: &str,
) -> (r: CompletionSession)
    requires
        transformable(body@, old(groups)@),
    ensures
        r@ == started(body@, old(groups)@),
        r@.well_formed(),
        final(groups)@ == transformed(body@, old(groups)@).registry,
        final(usage)@ == counted(old(usage)@, body@, old(groups)@, anthropic@),
        final(usage).start() == old(usage).start(),
{
    let ghost before = body@;
    let ghost registry = groups@;
    proof {
        lemma_started(before, registry);
    }
    let mut sent = body;
    let transform = apply_transforms(&mut sent, groups);
    let streaming = match sent.get("stream") {
        Some(v) => match v.as_bool() {
            Some(b) => b,
            None => false,
        },
        None => false,
    };
    let provider = infer_provider(transform.model.as_str(), anthropic);
    usage.record(transform.model.as_str(), provider.as_str());
    let mut tried: Vec<String> = Vec::new();
    tried.push(transform.model.clone());
    assert(views(tried@) =~= seq![transform.model@]);
    CompletionSession {
        body: sent,
        tried,
        group_name: transform.group_name,
        plain_model: transform.plain_model,
        attempt: 0,
        streaming,
    }
}

/// Takes up a completion request: reads the body, rewrites it and counts it.
pub fn begin_completion(
    body: &[u8],
    groups: &mut ModelGroupRegistry,
    usage: &mut UsageTracker,
    anthropic: &str,
) -> (r: Result<CompletionSession, CompletionRefusal>)
    ensures
        match json_parsed(body@) {
            Ok(v) => if transformable(v, old(groups)@) {
                &&& r matches Ok(s) && s@ == started(v, old(groups)@) && s@.well_formed()
                &&& final(groups)@ == transformed(v, old(groups)@).registry
                &&& final(usage)@ == counted(old(usage)@, v, old(groups)@, anthropic@)
                &&& final(usage).start() == old(usage).start()
            } else {
                &&& r is Err && r->Err_0 is NotAnObject
                &&& *final(groups) == *old(groups)
                &&& *final(usage) == *old(usage)
            },
            Err(e) => {
                &&& r matches Err(CompletionRefusal::InvalidJson(text)) && text@
                    == "Invalid JSON: "@ + e
                &&& *final(groups) == *old(groups)
                &&& *final(usage) == *old(usage)
            },
        },
{
    match parse_bytes(body) {
        Ok(v) => {
            if !can_transform(&v, groups) {
                return Err(CompletionRefusal::NotAnObject);
            }
            Ok(begin_with(v, groups, usage, anthropic))
        },
        Err(e) => Err(CompletionRefusal::InvalidJson(join2("Invalid JSON: ", e.as_str()))),
    }
}

impl CompletionSession {
    /// The body to send: the rewritten request with the present target.
    pub fn payload(&self) -> (r: Vec<u8>)
        ensures
            r@ == json_encoded(self@.body),
    {
        encode(&self.body)
    }

    /// The request to send.
    pub fn body(&self) -> (r: &Json)
        ensures
            r@ == self@.body,
    {
        &self.body
    }

    /// The client asked for a stream.
    pub fn is_streaming(&self) -> (r: bool)
        ensures
            r == self@.streaming,
    {
        self.streaming
    }

    /// The targets that have been tried, the present one last.
    pub fn tried_targets(&self) -> (r: &Vec<String>)
        ensures
            views(r@) == self@.tried,
    {
        &self.tried
    }

    /// The next target that has not been tried.
    fn next_target(&self, groups: &ModelGroupRegistry) -> (r: Option<ResolvedModel>)
        ensures
            opt_resolution(r) == self@.next_target(groups@),
    {
        match &self.group_name {
            Some(g) => groups.failover(g.as_str(), self.tried.as_slice()),
            None => match &self.plain_model {
                Some(p) => groups.failover_plain_model(p.as_str(), self.tried.as_slice()),
                None => None,
            },
        }
    }

    /// Decides what follows from what came back. A retry turns the session to
    /// its next target and counts it.
    pub fn answered(
        &mut self,
        outcome: BackendOutcome,
        groups: &ModelGroupRegistry,
        usage: &mut UsageTracker,
    ) -> (r: NextStep)
        requires
            old(self)@.well_formed(),
        ensures
            final(self)@.well_formed(),
            final(usage).start() == old(usage).start(),
            if old(self)@.retries(outcome@, groups@) {
                let next = old(self)@.next_target(groups@)->0;
                &&& r is Retry
                &&& final(self)@ == old(self)@.turned_to(next)
                &&& final(usage)@ == old(usage)@.recorded(next.target(), next.provider)
            } else {
                &&& final(self)@ == old(self)@
                &&& final(usage)@ == old(usage)@
                &&& match outcome {
                    BackendOutcome::Status(_) => r is Relay,
                    BackendOutcome::Unreachable(e) => r matches NextStep::Fail(text) && text@
                        == "Backend request failed: "@ + e@,
                }
            },
    {
        let again = match &outcome {
            BackendOutcome::Status(s) => *s == 429 || (500 <= *s && *s < 600),
            BackendOutcome::Unreachable(_) => true,
        };
        if again && self.attempt + 1 < MAX_ATTEMPTS {
            match self.next_target(groups) {
                Some(next) => {
                    let ghost before = self@;
                    let target = next.target();
                    proof {
                        lemma_fresh(before, groups@);
                        lemma_push_fresh(before.tried, target@);
                    }
                    self.body.set("model", Json::Text(target.clone()));
                    usage.record(target.as_str(), next.provider.as_str());
                    let ghost tried = self.tried@;
                    self.tried.push(target);
                    assert(views(self.tried@) =~= views(tried).push(target@));
                    self.attempt = self.attempt + 1;
                    return NextStep::Retry;
                },
                None => {},
            }
        }
        match outcome {
            BackendOutcome::Status(_) => NextStep::Relay,
            BackendOutcome::Unreachable(e) => NextStep::Fail(
                join2("Backend request failed: ", e.as_str()),
            ),
        }
    }
}

proof fn lemma_push_fresh(tried: Seq<Seq<char>>, target: Seq<char>)
    requires
        tried.no_duplicates(),
        !tried.contains(target),
    ensures
        tried.push(target).no_duplicates(),
{
}

/// The next target has not been tried.
proof fn lemma_fresh(s: Session, registry: Registry)
    ensures
        s.next_target(registry) matches Some(n) ==> !s.tried.contains(n.target()),
{
    match s.group {
        Some(g) => {
            failover_is_fresh_and_complete(registry, g, s.tried);
        },
        None => match s.plain {
            Some(p) => {
                plain_failover_is_fresh(registry, p, s.tried);
            },
            None => {},
        },
    }
}

/// A request is sent at most the fixed number of times, each time to another
/// target.
pub proof fn attempts_are_bounded_and_distinct(s: Session, o: Outcome, registry: Registry)
    requires
        s.well_formed(),
        s.retries(o, registry),
    ensures
        s.turned_to(s.next_target(registry)->0).well_formed(),
        s.turned_to(s.next_target(registry)->0).tried.len() <= MAX_ATTEMPTS,
        !s.tried.contains(s.next_target(registry)->0.target()),
{
    lemma_fresh(s, registry);
    lemma_push_fresh(s.tried, s.next_target(registry)->0.target());
}

/// A request for a model that is neither a group's name nor a plain name of
/// a group's member is sent once, whatever comes back.
pub proof fn ungrouped_requests_are_sent_once(s: Session, o: Outcome, registry: Registry)
    requires
        s.group is None,
        s.plain is None,
    ensures
        !s.retries(o, registry),
{
}

/// A response that is neither an overload nor a server error goes to the
/// client at once.
pub proof fn other_responses_are_relayed(s: Session, status: u16, registry: Registry)
    requires
        status != 429,
        !(500 <= status < 600),
    ensures
        !s.retries(Outcome::Status(status), registry),
{
}

/// On a retry nothing in the body changes but the model, which is the new
/// target.
pub proof fn retry_changes_the_model_alone(s: Session, next: Resolution, key: Seq<char>)
    requires
        s.body.settable(),
    ensures
        s.turned_to(next).body.get("model"@) == Some(JsonView::Text(next.target())),
        key != "model"@ ==> s.turned_to(next).body.get(key) == s.body.get(key),
{
    get_after_set(s.body, "model"@, JsonView::Text(next.target()), key);
}

// ---------------------------------------------------------------------------
// Model list
// ---------------------------------------------------------------------------

/// The entry of a group in the list of models.
pub open spec fn group_entry(name: Seq<char>, now: u64) -> JsonView {
    JsonView::Object(
        seq![
            ("created"@, JsonView::Unsigned(now)),
            ("id"@, JsonView::Text(name)),
            ("object"@, JsonView::Text("model"@)),
            ("owned_by"@, JsonView::Text("jean-proxy"@)),
        ],
    )
}

/// The entries of the groups.
pub open spec fn group_entries(names: Seq<Seq<char>>, now: u64) -> Seq<JsonView> {
    Seq::new(names.len(), |i: int| group_entry(names[i], now))
}

/// The list of models with the groups behind the models. A list of another
/// shape is left as it is.
pub open spec fn with_groups(list: JsonView, names: Seq<Seq<char>>, now: u64) -> JsonView {
    match crate::catalog::array_field(list, "data"@) {
        Some(items) => list.set("data"@, JsonView::Array(items + group_entries(names, now))),
        None => list,
    }
}

/// The entry of a group in the list of models.
fn make_group_entry(name: &str, now: u64) -> (r: Json)
    ensures
        r@ == group_entry(name@, now),
{
    let mut fields: Vec<(String, Json)> = Vec::new();
    fields.push(("created".to_owned(), Json::Unsigned(now)));
    fields.push(("id".to_owned(), Json::Text(name.to_owned())));
    fields.push(("object".to_owned(), Json::Text("model".to_owned())));
    fields.push(("owned_by".to_owned(), Json::Text("jean-proxy".to_owned())));
    proof {
        crate::json::lemma_object_view(fields);
        assert(crate::json::field_views(fields@) =~= seq![
            ("created"@, JsonView::Unsigned(now)),
            ("id"@, JsonView::Text(name@)),
            ("object"@, JsonView::Text("model"@)),
            ("owned_by"@, JsonView::Text("jean-proxy"@)),
        ]);
    }
    Json::Object(fields)
}

/// Puts the groups into the list of models, with the time `now`.
pub fn inject_groups(list: &mut Json, names: &Vec<String>, now: u64)
    ensures
        final(list)@ == with_groups(old(list)@, views(names@), now),
{
    let ghost before = list@;
    let mut items: Vec<Json> = Vec::new();
    match crate::catalog::field_array(list, "data") {
        Some(data) => {
            let ghost old_items = json_views(data@);
            let mut i: usize = 0;
            while i < data.len()
                invariant
                    i <= data@.len(),
                    old_items == json_views(data@),
                    json_views(items@) =~= old_items.take(i as int),
                decreases data@.len() - i,
            {
                let ghost so_far = items@;
                items.push(data[i].copy());
                assert(json_views(items@) =~= json_views(so_far).push(data@[i as int]@));
                i = i + 1;
            }
            assert(json_views(items@) =~= old_items);
        },
        None => {
            return ;
        },
    }
    let ghost old_items = json_views(items@);
    assert(crate::catalog::array_field(before, "data"@) == Some(old_items));
    let mut i: usize = 0;
    while i < names.len()
        invariant
            i <= names@.len(),
            json_views(items@) =~= old_items + group_entries(views(names@), now).take(i as int),
        decreases names@.len() - i,
    {
        let ghost so_far = items@;
        let entry = make_group_entry(names[i].as_str(), now);
        items.push(entry);
        assert(json_views(items@) =~= json_views(so_far).push(entry@));
        i = i + 1;
    }
    proof {
        assert(json_views(items@) =~= old_items + group_entries(views(names@), now));
        crate::json::lemma_array_view(items);
    }
    list.set("data", Json::Array(items));
}

/// Puts the enabled groups into the list of models, with the time that the
/// system clock has now.
pub fn inject_groups_now(list: &mut Json, groups: &ModelGroupRegistry)
    ensures
        exists|now: u64| #[trigger]
            clock_reads(now) && final(list)@ == with_groups(
                old(list)@,
                crate::model_groups::enabled_names(groups@.groups),
                now,
            ),
{
    let names = groups.group_names();
    let now: u64 = crate::clock::unix_now();
    inject_groups(list, &names, now);
}

// ---------------------------------------------------------------------------
// Status
// ---------------------------------------------------------------------------

/// Texts as a JSON array.
pub open spec fn text_array(names: Seq<Seq<char>>) -> JsonView {
    JsonView::Array(Seq::new(names.len(), |i: int| JsonView::Text(names[i])))
}

/// What the proxy reports of itself.
pub open spec fn status_report(port: u16, names: Seq<Seq<char>>, uptime: u64) -> JsonView {
    JsonView::Object(
        seq![
            ("backend_port"@, JsonView::Unsigned(port as u64)),
            ("model_groups"@, text_array(names)),
            ("running"@, JsonView::Bool(true)),
            ("uptime_secs"@, JsonView::Unsigned(uptime)),
        ],
    )
}

/// What the proxy reports of itself.
pub fn proxy_status_report(backend_port: u16, names: &Vec<String>, uptime_secs: u64) -> (r: Json)
    ensures
        r@ == status_report(backend_port, views(names@), uptime_secs),
{
    let mut list: Vec<Json> = Vec::new();
    let mut i: usize = 0;
    while i < names.len()
        invariant
            i <= names@.len(),
            list@.len() == i,
            forall|j: int|
                0 <= j < i ==> (#[trigger] list@[j])@ == JsonView::Text(names@[j]@),
        decreases names@.len() - i,
    {
        list.push(Json::Text(names[i].clone()));
        i = i + 1;
    }
    proof {
        crate::json::lemma_array_view(list);
        assert(Json::Array(list)@ == text_array(views(names@))) by {
            assert(json_views(list@) =~= Seq::new(
                views(names@).len(),
                |i: int| JsonView::Text(views(names@)[i]),
            ));
        }
    }
    let mut fields: Vec<(String, Json)> = Vec::new();
    fields.push(("backend_port".to_owned(), Json::Unsigned(backend_port as u64)));
    fields.push(("model_groups".to_owned(), Json::Array(list)));
    fields.push(("running".to_owned(), Json::Bool(true)));
    fields.push(("uptime_secs".to_owned(), Json::Unsigned(uptime_secs)));
    proof {
        crate::json::lemma_object_view(fields);
        assert(crate::json::field_views(fields@) =~= seq![
            ("backend_port"@, JsonView::Unsigned(backend_port as u64)),
            ("model_groups"@, text_array(views(names@))),
            ("running"@, JsonView::Bool(true)),
            ("uptime_secs"@, JsonView::Unsigned(uptime_secs)),
        ]);
    }
    Json::Object(fields)
}

/// A running proxy: the port it listens on and the backend's.
#[derive(Debug, Clone, Copy, PartialEq, Eq, Structural)]
pub struct ProxyServerHandle {
    pub port: u16,
    pub backend_port: u16,
}

/// Keeps the proxy's ports for status queries.
pub fn store_handle(slot: &mut Option<ProxyServerHandle>, handle_port: u16, backend_port: u16)
    ensures
        *final(slot) == Some(ProxyServerHandle { port: handle_port, backend_port }),
{
    *slot = Some(ProxyServerHandle { port: handle_port, backend_port });
}

/// Takes the running proxy out; what is returned is to be told to shut down.
pub fn stop_proxy(slot: &mut Option<ProxyServerHandle>) -> (r: Option<ProxyServerHandle>)
    ensures
        r == *old(slot),
        *final(slot) == None::<ProxyServerHandle>,
{
    slot.take()
}

/// The status of the proxy in the slot.
pub fn get_status(slot: &Option<ProxyServerHandle>) -> (r: ProxyStatus)
    ensures
        match *slot {
            Some(h) => r == running_status(h.port, h.backend_port),
            None => r == stopped_status(),
        },
{
    match slot {
        Some(h) => started_status(h.port, h.backend_port),
        None => ProxyStatus {
            running: false,
            proxy_port: None,
            backend_port: None,
            backend_installed: false,
        },
    }
}

/// The status of a running proxy.
pub open spec fn running_status(port: u16, backend_port: u16) -> ProxyStatus {
    ProxyStatus {
        running: true,
        proxy_port: Some(port),
        backend_port: Some(backend_port),
        backend_installed: true,
    }
}

/// The status without a proxy.
pub open spec fn stopped_status() -> ProxyStatus {
    ProxyStatus { running: false, proxy_port: None, backend_port: None, backend_installed: false }
}

/// The status of a proxy that has just started.
pub fn started_status(port: u16, backend_port: u16) -> (r: ProxyStatus)
    ensures
        r == running_status(port, backend_port),
{
    ProxyStatus {
        running: true,
        proxy_port: Some(port),
        backend_port: Some(backend_port),
        backend_installed: true,
    }
}

/// The backend port whose health decides the status.
pub fn port_to_check(status: &ProxyStatus) -> (r: Option<u16>)
    ensures
        r == if status.running {
            status.backend_port
        } else {
            None
        },
{
    if status.running {
        status.backend_port
    } else {
        None
    }
}

/// The status with what has been found out: whether the backend is installed,
/// and whether it is healthy where that was to be checked.
pub fn checked_status(status: ProxyStatus, installed: bool, healthy: bool) -> (r: ProxyStatus)
    ensures
        r.proxy_port == status.proxy_port,
        r.backend_installed == installed,
        if status.running && status.backend_port is Some && !healthy {
            !r.running && r.backend_port is None
        } else {
            r.running == status.running && r.backend_port == status.backend_port
        },
{
    let down = status.running && status.backend_port.is_some() && !healthy;
    ProxyStatus {
        running: status.running && !down,
        proxy_port: status.proxy_port,
        backend_port: if down {
            None
        } else {
            status.backend_port
        },
        backend_installed: installed,
    }
}

// ---------------------------------------------------------------------------
// Shared state
// ---------------------------------------------------------------------------

/// What a running proxy shares with the commands.
#[derive(Debug)]
pub struct SharedState {
    pub groups: ModelGroupRegistry,
    pub usage: UsageTracker,
}

/// The state of a proxy that has just started.
pub fn new_shared_state(groups: Vec<ProxyModelGroup>) -> (r: SharedState)
    ensures
        r.groups@ == crate::model_groups::fresh_registry(groups@),
        r.usage@ == crate::usage::no_usage(),
        clock_moment(r.usage.start()),
{
    SharedState { groups: ModelGroupRegistry::new(groups), usage: UsageTracker::new() }
}

/// Replaces the model groups of a proxy, if there is one.
pub fn update_model_groups(shared: &mut Option<SharedState>, groups: Vec<ProxyModelGroup>)
    ensures
        *old(shared) is None ==> *final(shared) is None,
        *old(shared) matches Some(before) ==> *final(shared) matches Some(after) && after.groups@
            == crate::model_groups::fresh_registry(groups@) && after.usage == before.usage,
{
    match shared.take() {
        Some(state) => {
            let mut registry = state.groups;
            registry.update(groups);
            *shared = Some(SharedState { groups: registry, usage: state.usage });
        },
        None => {},
    }
}

/// The usage counts of a proxy, if there is one.
pub fn get_usage_stats(shared: &Option<SharedState>) -> (r: Option<UsageStats>)
    ensures
        r is Some <==> *shared is Some,
        r matches Some(stats) ==> *shared matches Some(state) && stats.total_requests
            == state.usage@.total && stats.per_model@ == state.usage@.per_model
            && stats.per_provider@ == state.usage@.per_provider && stats.per_account@ == Map::<
            Seq<char>,
            u64,
        >::empty() && stats.by_request@.len() == 0,
{
    match shared {
        Some(state) => Some(state.usage.stats()),
        None => None,
    }
}

/// Sets the usage counts of a proxy back, if there is one.
pub fn reset_usage(shared: &mut Option<SharedState>)
    ensures
        *old(shared) is None ==> *final(shared) is None,
        *old(shared) matches Some(before) ==> *final(shared) matches Some(after) && after.groups
            == before.groups && after.usage@ == crate::usage::no_usage() && after.usage.start()
            == before.usage.start(),
{
    match shared.take() {
        Some(state) => {
            let mut usage = state.usage;
            usage.reset();
            *shared = Some(SharedState { groups: state.groups, usage });
        },
        None => {},
    }
}

// ---------------------------------------------------------------------------
// Laws
// ---------------------------------------------------------------------------

/// A request whose target is overloaded (status 429), fails (any status from
/// 500 to 599) or cannot be reached is sent again while it has been sent fewer
/// than three times and an untried target is left. It then asks for that
/// target, which counts as tried; nothing else in it changes.
pub proof fn failures_go_on_to_the_next_target(
    s: Session,
    status: u16,
    error: Seq<char>,
    registry: Registry,
    key: Seq<char>,
)
    requires
        s.well_formed(),
        s.attempt < 2,
        s.next_target(registry) is Some,
    ensures
        status == 429 || 500 <= status <= 599 ==> s.retries(Outcome::Status(status), registry),
        s.retries(Outcome::Unreachable(error), registry),
        ({
            let next = s.next_target(registry)->0;
            let target = next.provider + seq!['/'] + next.model;
            let after = s.turned_to(next);
            &&& after.body.get("model"@) == Some(JsonView::Text(target))
            &&& key != "model"@ ==> after.body.get(key) == s.body.get(key)
            &&& after.tried == s.tried.push(target)
            &&& after.attempt == s.attempt + 1
            &&& after.group == s.group
            &&& after.plain == s.plain
            &&& after.streaming == s.streaming
        }),
{
    let next = s.next_target(registry)->0;
    crate::model_groups::targets_name_provider_and_model(next);
    get_after_set(s.body, "model"@, JsonView::Text(next.target()), key);
}

/// The third failure is the client's, and so is any status but 429 and those
/// from 500 to 599; a request without an untried target is not sent again.
pub proof fn other_outcomes_end_the_request(s: Session, o: Outcome, registry: Registry)
    ensures
        s.attempt >= 2 ==> !s.retries(o, registry),
        s.next_target(registry) is None ==> !s.retries(o, registry),
        o matches Outcome::Status(status) && status != 429 && (status < 500 || status > 599)
            ==> !s.retries(o, registry),
{
}

/// A request for a group has a next target as long as one enabled member of the
/// group has not been tried.
pub proof fn groups_are_tried_to_the_end(
    s: Session,
    name: Seq<char>,
    registry: Registry,
    i: int,
    j: int,
)
    requires
        s.group == Some(name),
        crate::model_groups::stands_for_group(registry.groups, i, name),
        0 <= j < registry.groups[i].models@.len(),
        registry.groups[i].models@[j].enabled,
        crate::model_groups::member_target(registry.groups[i].models@[j]) matches Some((p, m))
            && !s.tried.contains(p + seq!['/'] + m),
    ensures
        s.next_target(registry) matches Some(n) && n.group == name && !s.tried.contains(
            n.provider + seq!['/'] + n.model,
        ),
{
    let k = crate::model_groups::failover_finds_the_first_untried_member(
        registry,
        i,
        name,
        s.tried,
    );
    if registry.next(name, s.tried) is None {
        assert(!registry.groups[i].models@[j].enabled);
    }
}

/// A request for a plain name has a next target as long as one enabled member
/// of an enabled group offers that model under an untried target.
pub proof fn plain_names_are_tried_to_the_end(
    s: Session,
    name: Seq<char>,
    registry: Registry,
    i: int,
    j: int,
)
    requires
        s.group is None,
        s.plain == Some(name),
        trimmed(name).len() > 0,
        !trimmed(name).contains('/'),
        crate::model_groups::untried_offer(registry.groups, i, j, trimmed(name), s.tried),
    ensures
        s.next_target(registry) matches Some(n) && n.model == trimmed(name) && !s.tried.contains(
            n.provider + seq!['/'] + n.model,
        ),
{
    let at = crate::model_groups::plain_names_find_the_first_offer(registry, name, s.tried);
    if registry.plain(name, s.tried) is None {
        assert(!crate::model_groups::untried_offer(registry.groups, i, j, trimmed(name), s.tried));
    }
}

/// A request is first sent as it was rewritten, to the model that it then asks
/// for; it is streamed exactly if its field `stream` is true; and it counts
/// once, for that model and that model's provider.
pub proof fn requests_start_with_their_target(
    body: JsonView,
    registry: Registry,
    usage: UsageCounts,
    anthropic: Seq<char>,
)
    requires
        transformable(body, registry),
    ensures
        ({
            let s = started(body, registry);
            let t = transformed(body, registry);
            let after = counted(usage, body, registry, anthropic);
            let provider = provider_of(t.model, anthropic);
            &&& s.body == t.body
            &&& crate::transforms::asked_model(s.body) == t.model
            &&& s.tried == seq![t.model]
            &&& s.attempt == 0
            &&& s.group == t.group
            &&& s.plain == t.plain
            &&& s.streaming <==> s.body.get("stream"@) == Some(JsonView::Bool(true))
            &&& usage.total < u64::MAX ==> after.total == usage.total + 1
            &&& count_of(usage.per_model, t.model) < u64::MAX ==> count_of(
                after.per_model,
                t.model,
            ) == count_of(usage.per_model, t.model) + 1
            &&& count_of(usage.per_provider, provider) < u64::MAX ==> count_of(
                after.per_provider,
                provider,
            ) == count_of(usage.per_provider, provider) + 1
            &&& forall|m: Seq<char>|
                m != t.model ==> #[trigger] count_of(after.per_model, m) == count_of(
                    usage.per_model,
                    m,
                )
            &&& forall|p: Seq<char>|
                p != provider ==> #[trigger] count_of(after.per_provider, p) == count_of(
                    usage.per_provider,
                    p,
                )
        }),
{
    crate::transforms::reported_model_is_asked_for(body, registry);
}

/// The provider of a model: what stands before the first slash, where that is
/// not blank; without a slash, or with nothing but blanks before it, Anthropic for a name that begins with Anthropic's, OpenAI
/// for one that begins with `gpt`, `o1` or `o3`, Gemini for one that begins
/// with `gemini`; else it is unknown.
pub proof fn models_belong_to_their_providers(
    p: Seq<char>,
    m: Seq<char>,
    model: Seq<char>,
    rest: Seq<char>,
    anthropic: Seq<char>,
)
    requires
        !p.contains('/'),
        forall|u: Seq<char>, v: Seq<char>|
            !u.contains('/') && model == #[trigger] (u + seq!['/'] + v) ==> trimmed(u).len() == 0,
    ensures
        trimmed(p).len() > 0 ==> provider_of(p + seq!['/'] + m, anthropic) == trimmed(p),
        model == anthropic + rest ==> provider_of(model, anthropic) == anthropic,
        !begins_with(model, anthropic) ==> {
            &&& model == "gpt"@ + rest ==> provider_of(model, anthropic) == "openai"@
            &&& model == "o1"@ + rest ==> provider_of(model, anthropic) == "openai"@
            &&& model == "o3"@ + rest ==> provider_of(model, anthropic) == "openai"@
            &&& model == "gemini"@ + rest ==> provider_of(model, anthropic) == "gemini"@
            &&& !begins_with(model, "gpt"@) && !begins_with(model, "o1"@) && !begins_with(
                model,
                "o3"@,
            ) && !begins_with(model, "gemini"@) ==> provider_of(model, anthropic) == "unknown"@
        },
{
    crate::text::splitting_at_a_slash(p, m);
    crate::text::slashes_are_split_at(model);
    crate::text::ends_are_found(model, anthropic, rest);
    crate::text::ends_are_found(model, "gpt"@, rest);
    crate::text::ends_are_found(model, "o1"@, rest);
    crate::text::ends_are_found(model, "o3"@, rest);
    crate::text::ends_are_found(model, "gemini"@, rest);
    reveal_strlit("gpt");
    reveal_strlit("o1");
    reveal_strlit("o3");
    reveal_strlit("gemini");
    if model == "gemini"@ + rest {
        assert(model[0] == 'g' && model[1] == 'e');
        if begins_with(model, "gpt"@) {
            assert(model.subrange(0, 3)[1] == 'p');
        }
        if begins_with(model, "o1"@) {
            assert(model.subrange(0, 2)[0] == 'o');
        }
        if begins_with(model, "o3"@) {
            assert(model.subrange(0, 2)[0] == 'o');
        }
    }
}

/// Of the headers of a request these six are passed on, each with the first of
/// its values where that can be sent, under whatever case its name was sent;
/// and no others.
pub proof fn six_headers_pass(headers: Seq<Header>, name: Seq<char>, value: Seq<u8>)
    ensures
        forwarded(headers, forwarded_names()).contains((name, value)) <==> {
            &&& {
                ||| name == "content-type"@
                ||| name == "authorization"@
                ||| name == "anthropic-version"@
                ||| name == "x-api-key"@
                ||| name == "accept"@
                ||| name == "user-agent"@
            }
            &&& first_value(headers, name) == Some(value)
            &&& forall|i: int|
                0 <= i < value.len() ==> (#[trigger] value[i] == 9 || 32 <= value[i] <= 126
                    || value[i] >= 128)
        },
{
    let names = forwarded_names();
    let out = forwarded(headers, names);
    let ok = forall|i: int|
        0 <= i < value.len() ==> (#[trigger] value[i] == 9 || 32 <= value[i] <= 126 || value[i]
            >= 128);
    assert(ok <==> header_value(value)) by {
        if ok {
            assert forall|i: int| 0 <= i < value.len() implies header_byte(#[trigger] value[i]) by {}
        }
        if header_value(value) {
            assert forall|i: int| 0 <= i < value.len() implies (#[trigger] value[i] == 9 || 32
                <= value[i] <= 126 || value[i] >= 128) by {
                assert(header_byte(value[i]));
            }
        }
    }
    assert(names[0] == "content-type"@ && names[1] == "authorization"@ && names[2]
        == "anthropic-version"@ && names[3] == "x-api-key"@ && names[4] == "accept"@ && names[5]
        == "user-agent"@);
    lemma_forwarded_all(headers, names, name, value);
}

proof fn lemma_forwarded_all(
    headers: Seq<Header>,
    names: Seq<Seq<char>>,
    name: Seq<char>,
    value: Seq<u8>,
)
    ensures
        forwarded(headers, names).contains((name, value)) <==> names.contains(name) && first_value(
            headers,
            name,
        ) == Some(value) && header_value(value),
    decreases names.len(),
{
    let out = forwarded(headers, names);
    if names.len() > 0 {
        let short = names.drop_last();
        let rest = forwarded(headers, short);
        lemma_forwarded_all(headers, short, name, value);
        assert(names.contains(name) <==> short.contains(name) || name == names.last()) by {
            if names.contains(name) {
                let k = choose|k: int| 0 <= k < names.len() && names[k] == name;
                if k < short.len() {
                    assert(short[k] == name);
                }
            }
            if short.contains(name) {
                let k = choose|k: int| 0 <= k < short.len() && short[k] == name;
                assert(names[k] == name);
            }
            assert(names[names.len() - 1] == names.last());
        }
        match first_value(headers, names.last()) {
            Some(v) => {
                if header_value(v) {
                    let e = (names.last(), v);
                    assert(out == rest.push(e));
                    assert(out[out.len() - 1] == e);
                    if rest.contains((name, value)) {
                        let k = choose|k: int| 0 <= k < rest.len() && rest[k] == (name, value);
                        assert(out[k] == (name, value));
                    }
                    if out.contains((name, value)) {
                        let k = choose|k: int| 0 <= k < out.len() && out[k] == (name, value);
                        if k < rest.len() {
                            assert(rest[k] == (name, value));
                        }
                    }
                }
            },
            None => {},
        }
    }
}

/// The value of a header is that of the first header of its name, in whatever
/// case that is written; without such a header there is none.
pub proof fn the_first_header_of_a_name_counts(headers: Seq<Header>, i: int, name: Seq<char>)
    ensures
        0 <= i < headers.len() && ascii_lower(headers[i].name@) == name && (forall|k: int|
            0 <= k < i ==> ascii_lower((#[trigger] headers[k]).name@) != name) ==> first_value(
            headers,
            name,
        ) == Some(headers[i].value@),
        (forall|k: int|
            0 <= k < headers.len() ==> ascii_lower((#[trigger] headers[k]).name@) != name)
            ==> first_value(headers, name) is None,
    decreases headers.len(),
{
    if headers.len() > 0 {
        let rest = headers.drop_first();
        the_first_header_of_a_name_counts(rest, i - 1, name);
        if 0 < i < headers.len() {
            assert(rest[i - 1] == headers[i]);
            if forall|k: int| 0 <= k < i ==> ascii_lower((#[trigger] headers[k]).name@) != name {
                assert(ascii_lower(headers[0].name@) != name);
                assert forall|k: int| 0 <= k < i - 1 implies ascii_lower((#[trigger] rest[k]).name@)
                    != name by {
                    assert(rest[k] == headers[k + 1]);
                }
            }
        }
        if forall|k: int|
            0 <= k < headers.len() ==> ascii_lower((#[trigger] headers[k]).name@) != name {
            assert(ascii_lower(headers[0].name@) != name);
            assert forall|k: int| 0 <= k < rest.len() implies ascii_lower(
                (#[trigger] rest[k]).name@,
            ) != name by {
                assert(rest[k] == headers[k + 1]);
            }
        }
    }
}

/// An address is on this machine, at the port, with the path behind it.
pub proof fn addresses_are_local(port: u16, path: Seq<char>)
    ensures
        local_url(port, path) == "http://127.0.0.1:"@ + decimal_text(port as nat) + path,
        finishes_with(local_url(port, path), path),
{
    crate::text::ends_are_found(
        path,
        path,
        "http://127.0.0.1:"@ + decimal_text(port as nat),
    );
}

/// The listed models stay where they are, and behind them comes one entry for
/// each group, in their order: an object whose `id` is the group's name, whose
/// `object` is `model`, whose `owned_by` is `jean-proxy` and whose `created` is
/// the time. Other fields of the list are kept, and so is a list of another
/// shape.
pub proof fn groups_are_listed_behind_the_models(
    list: JsonView,
    items: Seq<JsonView>,
    names: Seq<Seq<char>>,
    now: u64,
    key: Seq<char>,
)
    ensures
        list.get("data"@) == Some(JsonView::Array(items)) ==> {
            let all = with_groups(list, names, now);
            &&& all.get("data"@) matches Some(JsonView::Array(longer)) && {
                &&& longer.len() == items.len() + names.len()
                &&& forall|i: int| 0 <= i < items.len() ==> #[trigger] longer[i] == items[i]
                &&& forall|i: int|
                    0 <= i < names.len() ==> {
                        let e = #[trigger] longer[items.len() + i];
                        &&& e.get("id"@) == Some(JsonView::Text(names[i]))
                        &&& e.get("object"@) == Some(JsonView::Text("model"@))
                        &&& e.get("owned_by"@) == Some(JsonView::Text("jean-proxy"@))
                        &&& e.get("created"@) == Some(JsonView::Unsigned(now))
                    }
            }
            &&& key != "data"@ ==> all.get(key) == list.get(key)
        },
        list.get("data"@) is None || !(list.get("data"@)->0 is Array) ==> with_groups(
            list,
            names,
            now,
        ) == list,
{
    if list.get("data"@) == Some(JsonView::Array(items)) {
        let longer = items + group_entries(names, now);
        get_after_set(list, "data"@, JsonView::Array(longer), key);
        assert forall|i: int| 0 <= i < names.len() implies {
            let e = #[trigger] longer[items.len() + i];
            &&& e.get("id"@) == Some(JsonView::Text(names[i]))
            &&& e.get("object"@) == Some(JsonView::Text("model"@))
            &&& e.get("owned_by"@) == Some(JsonView::Text("jean-proxy"@))
            &&& e.get("created"@) == Some(JsonView::Unsigned(now))
        } by {
            assert(longer[items.len() + i] == group_entry(names[i], now));
            lemma_group_entry(names[i], now);
        }
    }
}

proof fn lemma_group_entry(name: Seq<char>, now: u64)
    ensures
        group_entry(name, now).get("id"@) == Some(JsonView::Text(name)),
        group_entry(name, now).get("object"@) == Some(JsonView::Text("model"@)),
        group_entry(name, now).get("owned_by"@) == Some(JsonView::Text("jean-proxy"@)),
        group_entry(name, now).get("created"@) == Some(JsonView::Unsigned(now)),
{
    reveal_strlit("id");
    reveal_strlit("object");
    reveal_strlit("owned_by");
    reveal_strlit("created");
    assert("id"@.len() == 2 && "object"@.len() == 6 && "owned_by"@.len() == 8 && "created"@.len()
        == 7);
    let f0 = group_entry(name, now)->Object_0;
    let f1 = f0.drop_first();
    let f2 = f1.drop_first();
    let f3 = f2.drop_first();
    assert(f0[0] == ("created"@, JsonView::Unsigned(now)));
    assert(f1[0] == ("id"@, JsonView::Text(name)));
    assert(f2[0] == ("object"@, JsonView::Text("model"@)));
    assert(f3[0] == ("owned_by"@, JsonView::Text("jean-proxy"@)));
    reveal_with_fuel(crate::json::lookup, 5);
}

/// The report of a running proxy names its port, its groups and its age.
pub proof fn the_report_says_what_runs(port: u16, names: Seq<Seq<char>>, uptime: u64)
    ensures
        ({
            let r = status_report(port, names, uptime);
            &&& r.get("running"@) == Some(JsonView::Bool(true))
            &&& r.get("backend_port"@) == Some(JsonView::Unsigned(port as u64))
            &&& r.get("uptime_secs"@) == Some(JsonView::Unsigned(uptime))
            &&& r.get("model_groups"@) matches Some(JsonView::Array(items)) && items.len()
                == names.len() && forall|i: int|
                0 <= i < names.len() ==> #[trigger] items[i] == JsonView::Text(names[i])
        }),
{
    reveal_strlit("running");
    reveal_strlit("backend_port");
    reveal_strlit("uptime_secs");
    reveal_strlit("model_groups");
    assert("running"@.len() == 7 && "backend_port"@.len() == 12 && "uptime_secs"@.len() == 11);
    assert("model_groups"@.len() == 12 && "model_groups"@[0] == 'm' && "backend_port"@[0] == 'b');
    let f0 = status_report(port, names, uptime)->Object_0;
    let f1 = f0.drop_first();
    let f2 = f1.drop_first();
    let f3 = f2.drop_first();
    assert(f0[0] == ("backend_port"@, JsonView::Unsigned(port as u64)));
    assert(f1[0] == ("model_groups"@, text_array(names)));
    assert(f2[0] == ("running"@, JsonView::Bool(true)));
    assert(f3[0] == ("uptime_secs"@, JsonView::Unsigned(uptime)));
    reveal_with_fuel(crate::json::lookup, 5);
}

/// A running proxy is reported with both its ports, a stopped one with none.
pub proof fn statuses_say_what_runs(port: u16, backend_port: u16)
    ensures
        ({
            let on = running_status(port, backend_port);
            &&& on.running && on.backend_installed
            &&& on.proxy_port == Some(port) && on.backend_port == Some(backend_port)
        }),
        ({
            let off = stopped_status();
            &&& !off.running && !off.backend_installed
            &&& off.proxy_port is None && off.backend_port is None
        }),
{
}

} // verus!
