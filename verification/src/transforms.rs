//! Rewriting of completion requests.
//!
//! A model group's name gives way to one of the group's models, and suffixes
//! of the model's name turn into request parameters:
//! `*-thinking-{budget}` into a `thinking` block, `*-reasoning-{level}` into a
//! `reasoning` block.

use vstd::prelude::*;

use crate::json::{get_after_set, Json, JsonView};
use crate::model_groups::{split_provider_model, ModelGroupRegistry};
#[allow(unused_imports)]
use crate::model_groups::{provider_model, Registry};
use crate::numbers::parse_u64;
#[allow(unused_imports)]
use crate::numbers::{decimal_round_trip, decimal_text, is_digit, lemma_decimal_text, u64_value};
use crate::text::{rsplit_once, text_eq};
#[allow(unused_imports)]
use crate::text::{has_substring, last_index, occurs_at, opt_pair_view, opt_view, split_last};

verus! {

/// The largest thinking budget.
pub const MAX_THINKING_BUDGET: u64 = 32_000;

/// The least that `max_tokens` exceeds a thinking budget by.
pub const MIN_TOKEN_HEADROOM: u64 = 1024;

/// A rewritten request.
#[derive(Debug)]
pub struct TransformResult {
    pub model: String,
    pub body: Json,
    /// The group that the model was picked from.
    pub group_name: Option<String>,
    /// The plain name that was resolved to a target.
    pub plain_model: Option<String>,
}

// ---------------------------------------------------------------------------
// Models
// ---------------------------------------------------------------------------

/// The model that a request asks for; empty where it names none.
pub open spec fn asked_model(body: JsonView) -> Seq<char> {
    match body.text_field("model"@) {
        Some(m) => m,
        None => Seq::empty(),
    }
}

/// The base name and the budget in `base-thinking-budget`.
pub open spec fn thinking_suffix(model: Seq<char>) -> Option<(Seq<char>, u64)> {
    match split_last(model, "-thinking-"@) {
        Some((base, rest)) => match u64_value(rest) {
            Some(budget) => Some((base, budget)),
            None => None,
        },
        None => None,
    }
}

/// An effort that can be asked for.
pub open spec fn reasoning_level(s: Seq<char>) -> bool {
    s == "low"@ || s == "medium"@ || s == "high"@
}

/// The base name and the effort in `base-reasoning-effort`.
pub open spec fn reasoning_suffix(model: Seq<char>) -> Option<(Seq<char>, Seq<char>)> {
    match split_last(model, "-reasoning-"@) {
        Some((base, level)) => if reasoning_level(level) {
            Some((base, level))
        } else {
            None
        },
        None => None,
    }
}

/// The budget within its limit.
pub open spec fn capped_budget(budget: u64) -> u64 {
    if budget <= MAX_THINKING_BUDGET {
        budget
    } else {
        MAX_THINKING_BUDGET
    }
}

/// The least `max_tokens` for a budget: a tenth more, and no less than the
/// fixed headroom more.
pub open spec fn least_max_tokens(budget: u64) -> u64 {
    (budget + if budget / 10 <= MIN_TOKEN_HEADROOM {
        MIN_TOKEN_HEADROOM
    } else {
        budget / 10
    }) as u64
}

/// The `thinking` block.
pub open spec fn thinking_view(budget: u64) -> JsonView {
    JsonView::Object(
        seq![
            ("budget_tokens"@, JsonView::Unsigned(budget)),
            ("type"@, JsonView::Text("enabled"@)),
        ],
    )
}

/// The `reasoning` block.
pub open spec fn reasoning_view(level: Seq<char>) -> JsonView {
    JsonView::Object(seq![("effort"@, JsonView::Text(level))])
}

/// The request with the thinking parameters in place.
pub open spec fn with_thinking(body: JsonView, base: Seq<char>, budget: u64) -> JsonView {
    let b = body.set("model"@, JsonView::Text(base)).set("thinking"@, thinking_view(budget));
    let current: u64 = match b.get("max_tokens"@) {
        Some(v) => match v.unsigned() {
            Some(n) => n,
            None => 0,
        },
        None => 0,
    };
    if current < least_max_tokens(budget) {
        b.set("max_tokens"@, JsonView::Unsigned(least_max_tokens(budget)))
    } else {
        b
    }
}

/// The request with the reasoning parameters in place.
pub open spec fn with_reasoning(body: JsonView, base: Seq<char>, level: Seq<char>) -> JsonView {
    body.set("model"@, JsonView::Text(base)).set("reasoning"@, reasoning_view(level))
}

/// A request on its way.
pub struct Routed {
    pub body: JsonView,
    pub model: Seq<char>,
    pub group: Option<Seq<char>>,
    pub plain: Option<Seq<char>>,
    pub registry: Registry,
}

/// The request with a group's name or a plain model name resolved. A name in
/// the form `provider/model` is taken as it stands.
pub open spec fn routed(body: JsonView, registry: Registry) -> Routed {
    let asked = asked_model(body);
    let after = registry.after_resolve(asked);
    if provider_model(asked) is Some {
        Routed { body, model: asked, group: None, plain: None, registry }
    } else if let Some(r) = registry.resolved(asked) {
        Routed {
            body: body.set("model"@, JsonView::Text(r.target())),
            model: r.target(),
            group: Some(asked),
            plain: None,
            registry: after,
        }
    } else if let Some(r) = after.plain(asked, Seq::empty()) {
        Routed {
            body: body.set("model"@, JsonView::Text(r.target())),
            model: r.target(),
            group: None,
            plain: Some(asked),
            registry: after,
        }
    } else {
        Routed { body, model: asked, group: None, plain: None, registry: after }
    }
}

/// The request with a thinking suffix turned into parameters.
pub open spec fn thought(r: Routed) -> Routed {
    match thinking_suffix(r.model) {
        Some((base, budget)) => Routed {
            body: with_thinking(r.body, base, capped_budget(budget)),
            model: base,
            ..r
        },
        None => r,
    }
}

/// The request with a reasoning suffix turned into parameters.
pub open spec fn reasoned(r: Routed) -> Routed {
    match reasoning_suffix(r.model) {
        Some((base, level)) => Routed {
            body: with_reasoning(r.body, base, level),
            model: base,
            ..r
        },
        None => r,
    }
}

/// The rewritten request: the target first, then the thinking suffix, then the
/// reasoning suffix of what is left.
pub open spec fn transformed(body: JsonView, registry: Registry) -> Routed {
    reasoned(thought(routed(body, registry)))
}

/// The request can be rewritten: it is an object or null, or nothing has to be
/// written into it.
pub open spec fn transformable(body: JsonView, registry: Registry) -> bool {
    body.settable() || registry.resolved(Seq::empty()) is None
}

// ---------------------------------------------------------------------------
// Lemmas
// ---------------------------------------------------------------------------

proof fn lemma_keys_differ()
    ensures
        "model"@ != "thinking"@,
        "model"@ != "max_tokens"@,
        "model"@ != "reasoning"@,
        "thinking"@ != "max_tokens"@,
        "thinking"@ != "reasoning"@,
        "max_tokens"@ != "reasoning"@,
{
    reveal_strlit("model");
    reveal_strlit("thinking");
    reveal_strlit("max_tokens");
    reveal_strlit("reasoning");
    assert("model"@.len() == 5);
    assert("thinking"@.len() == 8);
    assert("max_tokens"@.len() == 10);
    assert("reasoning"@.len() == 9);
}

proof fn lemma_no_suffix_in_nothing(s: Seq<char>)
    requires
        s.len() == 0,
    ensures
        thinking_suffix(s) is None,
        reasoning_suffix(s) is None,
        provider_model(s) is None,
        forall|r: Registry, tried: Seq<Seq<char>>| #[trigger] r.plain(s, tried) is None,
{
    reveal_strlit("-thinking-");
    reveal_strlit("-reasoning-");
    reveal_strlit("/");
}

/// What a settable request asks for after its model has been set.
proof fn lemma_asked_after_set(body: JsonView, model: Seq<char>)
    requires
        body.settable(),
    ensures
        asked_model(body.set("model"@, JsonView::Text(model))) == model,
{
    get_after_set(body, "model"@, JsonView::Text(model), "model"@);
}

/// What taking off a thinking suffix does to a request that asks for its model.
proof fn lemma_thought(r: Routed, key: Seq<char>)
    requires
        r.body.settable(),
        asked_model(r.body) == r.model,
    ensures
        thought(r).body.settable(),
        asked_model(thought(r).body) == thought(r).model,
        key != "model"@ && key != "thinking"@ && key != "max_tokens"@ ==> thought(r).body.get(key)
            == r.body.get(key),
        thinking_suffix(r.model) matches Some((_, budget)) ==> thought(r).body.get("thinking"@)
            == Some(thinking_view(capped_budget(budget))),
{
    lemma_keys_differ();
    match thinking_suffix(r.model) {
        Some((base, budget)) => {
            let b = capped_budget(budget);
            let b1 = r.body.set("model"@, JsonView::Text(base));
            let b2 = b1.set("thinking"@, thinking_view(b));
            let tokens = JsonView::Unsigned(least_max_tokens(b));
            lemma_asked_after_set(r.body, base);
            get_after_set(r.body, "model"@, JsonView::Text(base), key);
            get_after_set(b1, "thinking"@, thinking_view(b), "model"@);
            get_after_set(b1, "thinking"@, thinking_view(b), key);
            get_after_set(b2, "max_tokens"@, tokens, "model"@);
            get_after_set(b2, "max_tokens"@, tokens, "thinking"@);
            get_after_set(b2, "max_tokens"@, tokens, key);
        },
        None => {},
    }
}

/// What taking off a reasoning suffix does to a request that asks for its
/// model.
proof fn lemma_reasoned(r: Routed, key: Seq<char>)
    requires
        r.body.settable(),
        asked_model(r.body) == r.model,
    ensures
        asked_model(reasoned(r).body) == reasoned(r).model,
        key != "model"@ && key != "reasoning"@ ==> reasoned(r).body.get(key) == r.body.get(key),
        reasoning_suffix(r.model) matches Some((_, level)) ==> reasoned(r).body.get("reasoning"@)
            == Some(reasoning_view(level)),
{
    lemma_keys_differ();
    match reasoning_suffix(r.model) {
        Some((base, level)) => {
            let b1 = r.body.set("model"@, JsonView::Text(base));
            lemma_asked_after_set(r.body, base);
            get_after_set(r.body, "model"@, JsonView::Text(base), key);
            get_after_set(b1, "reasoning"@, reasoning_view(level), "model"@);
            get_after_set(b1, "reasoning"@, reasoning_view(level), key);
        },
        None => {},
    }
}

// ---------------------------------------------------------------------------
// Laws
// ---------------------------------------------------------------------------

/// A model asked for as `provider/model` is never replaced by a group's member
/// and moves no group on.
pub proof fn explicit_model_is_authoritative(body: JsonView, registry: Registry)
    requires
        provider_model(asked_model(body)) is Some,
    ensures
        routed(body, registry) == (Routed {
            body,
            model: asked_model(body),
            group: None,
            plain: None,
            registry,
        }),
{
}

/// A request without a known name and without a suffix passes unchanged.
pub proof fn plain_request_passes_through(body: JsonView, registry: Registry)
    requires
        provider_model(asked_model(body)) is Some || (registry.resolved(asked_model(body)) is None
            && registry.after_resolve(asked_model(body)).plain(asked_model(body), Seq::empty())
            is None),
        thinking_suffix(asked_model(body)) is None,
        reasoning_suffix(asked_model(body)) is None,
    ensures
        transformed(body, registry).body == body,
        transformed(body, registry).model == asked_model(body),
        transformed(body, registry).group is None,
        transformed(body, registry).plain is None,
{
}

/// The rewritten request asks for the model that is reported.
pub proof fn reported_model_is_asked_for(body: JsonView, registry: Registry)
    requires
        transformable(body, registry),
    ensures
        asked_model(transformed(body, registry).body) == transformed(body, registry).model,
{
    let r = routed(body, registry);
    if !body.settable() {
        lemma_no_suffix_in_nothing(asked_model(body));
        assert(asked_model(body) =~= Seq::empty());
    } else {
        lemma_asked_after_set(body, r.model);
        lemma_thought(r, "model"@);
        lemma_reasoned(thought(r), "model"@);
    }
}

/// A name with both suffixes, the thinking one last, sets both parameters and
/// loses both suffixes.
pub proof fn both_suffixes_apply(
    body: JsonView,
    registry: Registry,
    base: Seq<char>,
    budget: u64,
    plain: Seq<char>,
    level: Seq<char>,
)
    requires
        body.settable(),
        thinking_suffix(routed(body, registry).model) == Some((base, budget)),
        reasoning_suffix(base) == Some((plain, level)),
    ensures
        transformed(body, registry).model == plain,
        asked_model(transformed(body, registry).body) == plain,
        transformed(body, registry).body.get("thinking"@) == Some(
            thinking_view(capped_budget(budget)),
        ),
        transformed(body, registry).body.get("reasoning"@) == Some(reasoning_view(level)),
{
    let r = routed(body, registry);
    let t = thought(r);
    lemma_keys_differ();
    lemma_asked_after_set(body, r.model);
    lemma_thought(r, "thinking"@);
    lemma_reasoned(t, "thinking"@);
}

/// A thinking budget is within its limit, and `max_tokens` leaves the headroom
/// above it; a larger `max_tokens` is kept.
pub proof fn thinking_leaves_headroom(body: JsonView, base: Seq<char>, budget: u64)
    requires
        body.settable(),
    ensures
        capped_budget(budget) <= MAX_THINKING_BUDGET,
        with_thinking(body, base, capped_budget(budget)).get("max_tokens"@) matches Some(v)
            && v.unsigned() matches Some(n) && n >= capped_budget(budget) + MIN_TOKEN_HEADROOM
            && n >= capped_budget(budget) + capped_budget(budget) / 10,
        body.get("max_tokens"@) matches Some(v) && v.unsigned() matches Some(n) && n
            >= least_max_tokens(capped_budget(budget)) ==> with_thinking(
            body,
            base,
            capped_budget(budget),
        ).get("max_tokens"@) == body.get("max_tokens"@),
{
    lemma_keys_differ();
    let b = capped_budget(budget);
    let b1 = body.set("model"@, JsonView::Text(base));
    let thinking = thinking_view(b);
    get_after_set(body, "model"@, JsonView::Text(base), "max_tokens"@);
    get_after_set(b1, "thinking"@, thinking, "max_tokens"@);
    get_after_set(
        b1.set("thinking"@, thinking),
        "max_tokens"@,
        JsonView::Unsigned(least_max_tokens(b)),
        "max_tokens"@,
    );
}

/// No field is touched but `model`, `thinking`, `max_tokens` and `reasoning`.
pub proof fn other_fields_are_kept(body: JsonView, registry: Registry, key: Seq<char>)
    requires
        body.settable(),
        key != "model"@,
        key != "thinking"@,
        key != "max_tokens"@,
        key != "reasoning"@,
    ensures
        transformed(body, registry).body.get(key) == body.get(key),
{
    let r = routed(body, registry);
    get_after_set(body, "model"@, JsonView::Text(r.model), key);
    lemma_thought(r, key);
    lemma_reasoned(thought(r), key);
}

// ---------------------------------------------------------------------------
// Operations
// ---------------------------------------------------------------------------

/// The base name and the budget in `base-thinking-budget`.
pub fn parse_thinking_suffix(model: &str) -> (r: Option<(String, u64)>)
    ensures
        r matches Some((base, budget)) ==> thinking_suffix(model@) == Some((base@, budget)),
        r is None ==> thinking_suffix(model@) is None,
{
    match rsplit_once(model, "-thinking-") {
        Some((base, rest)) => match parse_u64(rest.as_str()) {
            Some(budget) => Some((base, budget)),
            None => None,
        },
        None => None,
    }
}

/// The base name and the effort in `base-reasoning-effort`.
pub fn parse_reasoning_suffix(model: &str) -> (r: Option<(String, String)>)
    ensures
        opt_pair_view(r) == reasoning_suffix(model@),
{
    match rsplit_once(model, "-reasoning-") {
        Some((base, level)) => {
            if text_eq(level.as_str(), "low") || text_eq(level.as_str(), "medium") || text_eq(
                level.as_str(),
                "high",
            ) {
                Some((base, level))
            } else {
                None
            }
        },
        None => None,
    }
}

/// The name has the form `provider/model`.
pub fn has_explicit_provider_model(model: &str) -> (r: bool)
    ensures
        r == (provider_model(model@) is Some),
{
    split_provider_model(model).is_some()
}

/// `apply_transforms` can be called.
pub fn can_transform(body: &Json, groups: &ModelGroupRegistry) -> (r: bool)
    ensures
        r == transformable(body@, groups@),
{
    assert(""@ =~= Seq::empty()) by {
        reveal_strlit("");
    }
    body.is_settable() || !groups.would_resolve("")
}

/// The `thinking` block.
fn thinking_block(budget: u64) -> (r: Json)
    ensures
        r@ == thinking_view(budget),
{
    let mut fields: Vec<(String, Json)> = Vec::new();
    fields.push(("budget_tokens".to_owned(), Json::Unsigned(budget)));
    fields.push(("type".to_owned(), Json::Text("enabled".to_owned())));
    proof {
        crate::json::lemma_object_view(fields);
        assert(crate::json::field_views(fields@) =~= seq![
            ("budget_tokens"@, JsonView::Unsigned(budget)),
            ("type"@, JsonView::Text("enabled"@)),
        ]);
    }
    Json::Object(fields)
}

/// Rewrites a request in order:
/// 1. a group's name or a plain model name is resolved to a target,
/// 2. a thinking suffix is taken off and turned into parameters,
/// 3. a reasoning suffix of what is left is taken off and turned into
///    parameters.
pub fn apply_transforms(body: &mut Json, groups: &mut ModelGroupRegistry) -> (r: TransformResult)
    requires
        transformable(old(body)@, old(groups)@),
    ensures
        ({
            let t = transformed(old(body)@, old(groups)@);
            &&& final(body)@ == t.body
            &&& final(groups)@ == t.registry
            &&& r.body@ == t.body
            &&& r.model@ == t.model
            &&& opt_view(r.group_name) == t.group
            &&& opt_view(r.plain_model) == t.plain
        }),
{
    let ghost before = body@;
    let ghost registry = groups@;
    let raw_model: String = match body.text_field("model") {
        Some(m) => m,
        None => String::new(),
    };
    proof {
        assert(raw_model@ =~= asked_model(before));
        if !before.settable() {
            lemma_no_suffix_in_nothing(raw_model@);
            assert(raw_model@ =~= Seq::empty());
        }
    }
    let mut model: String = raw_model.clone();
    let mut group_name: Option<String> = None;
    let mut plain_model: Option<String> = None;
    if !has_explicit_provider_model(raw_model.as_str()) {
        match groups.resolve(raw_model.as_str()) {
            Some(resolved) => {
                let target = resolved.target();
                body.set("model", Json::Text(target.clone()));
                model = target;
                group_name = Some(raw_model);
            },
            None => match groups.resolve_plain_model(raw_model.as_str()) {
                Some(resolved) => {
                    let target = resolved.target();
                    body.set("model", Json::Text(target.clone()));
                    model = target;
                    plain_model = Some(raw_model);
                },
                None => {},
            },
        }
    }
    let ghost now = routed(before, registry);
    assert(body@ == now.body);
    assert(model@ == now.model);
    match parse_thinking_suffix(model.as_str()) {
        Some((base, asked)) => {
            let budget: u64 = if asked <= MAX_THINKING_BUDGET {
                asked
            } else {
                MAX_THINKING_BUDGET
            };
            body.set("model", Json::Text(base.clone()));
            body.set("thinking", thinking_block(budget));
            let headroom: u64 = if budget / 10 <= MIN_TOKEN_HEADROOM {
                MIN_TOKEN_HEADROOM
            } else {
                budget / 10
            };
            let least: u64 = budget + headroom;
            let current: u64 = match body.get("max_tokens") {
                Some(v) => match v.as_u64() {
                    Some(n) => n,
                    None => 0,
                },
                None => 0,
            };
            if current < least {
                body.set("max_tokens", Json::Unsigned(least));
            }
            model = base;
        },
        None => {},
    }
    let ghost next = thought(now);
    assert(body@ == next.body);
    assert(model@ == next.model);
    match parse_reasoning_suffix(model.as_str()) {
        Some((base, level)) => {
            body.set("model", Json::Text(base.clone()));
            let mut fields: Vec<(String, Json)> = Vec::new();
            fields.push(("effort".to_owned(), Json::Text(level)));
            proof {
                crate::json::lemma_object_view(fields);
                assert(crate::json::field_views(fields@) =~= seq![
                    ("effort"@, JsonView::Text(level@)),
                ]);
            }
            body.set("reasoning", Json::Object(fields));
            model = base;
        },
        None => {},
    }
    TransformResult { model, body: body.copy(), group_name, plain_model }
}

// ---------------------------------------------------------------------------
// Laws on what a rewritten request holds
// ---------------------------------------------------------------------------

/// The model that a request asks for is the text of its field `model`.
pub proof fn the_model_field_is_asked_for(body: JsonView, m: Seq<char>)
    ensures
        body.get("model"@) == Some(JsonView::Text(m)) ==> asked_model(body) == m,
        body.get("model"@) is None || !(body.get("model"@)->0 is Text) ==> asked_model(body).len()
            == 0,
{
}

proof fn lemma_last_at(s: Seq<char>, pat: Seq<char>, from: int, at: int)
    requires
        0 <= at <= from,
        occurs_at(s, pat, at),
        forall|i: int| at < i <= from ==> !occurs_at(s, pat, i),
    ensures
        last_index(s, pat, from) == Some(at),
    decreases from - at,
{
    if at < from {
        assert(!occurs_at(s, pat, from));
        lemma_last_at(s, pat, from - 1, at);
    }
}

/// A pattern between two hyphens, with none inside, is found last where nothing
/// but hyphen-free text follows that does not go on as the pattern does.
proof fn lemma_last_between_hyphens(base: Seq<char>, pat: Seq<char>, rest: Seq<char>)
    requires
        pat.len() >= 3,
        pat[0] == '-',
        pat[pat.len() - 1] == '-',
        forall|k: int| 0 < k < pat.len() - 1 ==> #[trigger] pat[k] != '-',
        forall|k: int| 0 <= k < rest.len() ==> #[trigger] rest[k] != '-',
        rest.len() > 0 ==> rest[0] != pat[1],
    ensures
        split_last(base + pat + rest, pat) == Some((base, rest)),
{
    let s = base + pat + rest;
    let n = base.len() as int;
    let m = pat.len() as int;
    assert(s.subrange(n, n + m) =~= pat);
    assert forall|i: int| n < i <= s.len() - m implies !occurs_at(s, pat, i) by {
        if occurs_at(s, pat, i) {
            let here = s.subrange(i, i + m);
            assert(here[0] == s[i]);
            assert(here[1] == s[i + 1]);
            if i < n + m {
                assert(s[i] == pat[i - n]);
                assert(i - n == m - 1);
                assert(s[i + 1] == rest[0]);
            } else {
                assert(s[i] == rest[i - n - m]);
            }
        }
    }
    lemma_last_at(s, pat, s.len() - m, n);
    assert(s.take(n) =~= base);
    assert(s.skip(n + m) =~= rest);
}

/// A name that ends in `-thinking-` and a number has that number for its budget
/// and what stands before for its base.
pub proof fn thinking_suffixes_are_read(base: Seq<char>, n: u64)
    ensures
        thinking_suffix(base + "-thinking-"@ + decimal_text(n as nat)) == Some((base, n)),
{
    let num = decimal_text(n as nat);
    reveal_strlit("-thinking-");
    decimal_round_trip(n);
    lemma_decimal_text(n as nat);
    assert forall|k: int| 0 <= k < num.len() implies #[trigger] num[k] != '-' && num[k] != 't' by {
        assert(is_digit(num[k]));
    }
    lemma_last_between_hyphens(base, "-thinking-"@, num);
}

/// A name without `-thinking-` has no thinking suffix, nor has one with
/// anything but a number behind the last, however that is written; the same of `-reasoning-` and the
/// three levels.
pub proof fn other_names_have_no_suffix(s: Seq<char>, base: Seq<char>, rest: Seq<char>)
    ensures
        !has_substring(s, "-thinking-"@) ==> thinking_suffix(s) is None,
        !has_substring(s, "-reasoning-"@) ==> reasoning_suffix(s) is None,
        split_last(s, "-thinking-"@) == Some((base, rest)) && u64_value(rest) is None
            ==> thinking_suffix(s) is None,
        split_last(s, "-thinking-"@) == Some((base, rest)) && u64_value(rest) is Some
            ==> thinking_suffix(s) == Some((base, u64_value(rest)->0)),
        split_last(s, "-reasoning-"@) == Some((base, rest)) && rest != "low"@ && rest != "medium"@
            && rest != "high"@ ==> reasoning_suffix(s) is None,
{
    if !has_substring(s, "-thinking-"@) {
        lemma_absent(s, "-thinking-"@);
    }
    if !has_substring(s, "-reasoning-"@) {
        lemma_absent(s, "-reasoning-"@);
    }
}

proof fn lemma_absent(s: Seq<char>, pat: Seq<char>)
    requires
        !has_substring(s, pat),
    ensures
        split_last(s, pat) is None,
{
    crate::text::lemma_first_index(s, pat, 0);
    crate::text::lemma_last_index(s, pat, s.len() - pat.len());
}

/// A name that ends in `-reasoning-` and one of the three levels has that level
/// and what stands before for its base.
pub proof fn reasoning_suffixes_are_read(base: Seq<char>, level: Seq<char>)
    requires
        level == "low"@ || level == "medium"@ || level == "high"@,
    ensures
        reasoning_suffix(base + "-reasoning-"@ + level) == Some((base, level)),
{
    reveal_strlit("-reasoning-");
    reveal_strlit("low");
    reveal_strlit("medium");
    reveal_strlit("high");
    lemma_last_between_hyphens(base, "-reasoning-"@, level);
}

/// The value is an object with these two fields, a text and a number.
proof fn lemma_thinking_fields(budget: u64)
    ensures
        thinking_view(budget).get("type"@) == Some(JsonView::Text("enabled"@)),
        thinking_view(budget).get("budget_tokens"@) == Some(JsonView::Unsigned(budget)),
{
    reveal_strlit("type");
    reveal_strlit("budget_tokens");
    assert("type"@.len() == 4 && "budget_tokens"@.len() == 13);
    let f = seq![
        ("budget_tokens"@, JsonView::Unsigned(budget)),
        ("type"@, JsonView::Text("enabled"@)),
    ];
    assert(f.drop_first() =~= seq![("type"@, JsonView::Text("enabled"@))]);
    reveal_with_fuel(crate::json::lookup, 3);
}

/// A request whose model ends in `-thinking-` and a number is sent with
/// thinking enabled: its field `thinking` is an object of the type `enabled`
/// with the number for its budget, no more than 32000. Its `max_tokens` is at
/// least the budget and a tenth of it, and at least the budget and 1024; it is
/// what the client asked for where that is enough, and no more than that
/// otherwise.
pub proof fn thinking_is_enabled_with_its_budget(
    body: JsonView,
    registry: Registry,
    base: Seq<char>,
    n: u64,
)
    requires
        body.settable(),
        routed(body, registry).model == base + "-thinking-"@ + decimal_text(n as nat),
    ensures
        ({
            let sent = transformed(body, registry).body;
            let budget: int = if n <= 32000 {
                n as int
            } else {
                32000
            };
            let more: int = if budget / 10 > 1024 {
                budget / 10
            } else {
                1024
            };
            let asked: int = match body.get("max_tokens"@) {
                Some(JsonView::Unsigned(m)) => m as int,
                _ => 0,
            };
            &&& sent.nested("thinking"@, "type"@) == Some(JsonView::Text("enabled"@))
            &&& sent.nested("thinking"@, "budget_tokens"@) matches Some(JsonView::Unsigned(b)) && b
                == budget
            &&& sent.get("max_tokens"@) matches Some(JsonView::Unsigned(m)) && m == if asked
                >= budget + more {
                asked
            } else {
                budget + more
            }
        }),
        reasoning_suffix(base) is None ==> transformed(body, registry).model == base,
{
    let r = routed(body, registry);
    let t = thought(r);
    let b = capped_budget(n);
    lemma_keys_differ();
    thinking_suffixes_are_read(base, n);
    lemma_asked_after_set(body, r.model);
    get_after_set(body, "model"@, JsonView::Text(r.model), "max_tokens"@);
    lemma_thought(r, "thinking"@);
    lemma_reasoned(t, "thinking"@);
    lemma_reasoned(t, "max_tokens"@);
    lemma_thinking_fields(b);
    let b1 = r.body.set("model"@, JsonView::Text(base));
    get_after_set(r.body, "model"@, JsonView::Text(base), "max_tokens"@);
    get_after_set(b1, "thinking"@, thinking_view(b), "max_tokens"@);
    get_after_set(
        b1.set("thinking"@, thinking_view(b)),
        "max_tokens"@,
        JsonView::Unsigned(least_max_tokens(b)),
        "max_tokens"@,
    );
}

/// A request whose model ends in `-reasoning-` and a level is sent with that
/// level for the effort in its field `reasoning`, and asks for the base.
pub proof fn reasoning_is_set_to_its_level(
    body: JsonView,
    registry: Registry,
    base: Seq<char>,
    level: Seq<char>,
)
    requires
        body.settable(),
        level == "low"@ || level == "medium"@ || level == "high"@,
        thought(routed(body, registry)).model == base + "-reasoning-"@ + level,
    ensures
        transformed(body, registry).model == base,
        transformed(body, registry).body.get("model"@) == Some(JsonView::Text(base)),
        transformed(body, registry).body.nested("reasoning"@, "effort"@) == Some(
            JsonView::Text(level),
        ),
{
    let r = routed(body, registry);
    lemma_keys_differ();
    reasoning_suffixes_are_read(base, level);
    lemma_asked_after_set(body, r.model);
    lemma_thought(r, "reasoning"@);
    lemma_reasoned(thought(r), "model"@);
    let b1 = thought(r).body.set("model"@, JsonView::Text(base));
    get_after_set(thought(r).body, "model"@, JsonView::Text(base), "model"@);
    get_after_set(b1, "reasoning"@, reasoning_view(level), "model"@);
    assert(reasoning_view(level).get("effort"@) == Some(JsonView::Text(level)));
}

/// A name without either suffix is sent as it was resolved, and nothing is set
/// but the model.
pub proof fn names_without_suffix_set_nothing_else(
    body: JsonView,
    registry: Registry,
    key: Seq<char>,
)
    requires
        body.settable(),
        thinking_suffix(routed(body, registry).model) is None,
        reasoning_suffix(routed(body, registry).model) is None,
    ensures
        transformed(body, registry).model == routed(body, registry).model,
        key != "model"@ ==> transformed(body, registry).body.get(key) == body.get(key),
{
    let r = routed(body, registry);
    get_after_set(body, "model"@, JsonView::Text(r.model), key);
}

/// Where a request goes: a model asked for with its provider goes there; a
/// group's name goes to what the group resolves to, and is remembered as the
/// group; a plain name goes to the first member of that name, and is remembered
/// as plain; anything else goes where it says.
pub proof fn requests_go_to_their_targets(body: JsonView, registry: Registry)
    requires
        body.settable(),
    ensures
        ({
            let asked = asked_model(body);
            let r = routed(body, registry);
            let group = registry.resolved(asked);
            let plain = registry.after_resolve(asked).plain(asked, Seq::empty());
            &&& asked_model(r.body) == r.model
            &&& provider_model(asked) is Some ==> r.model == asked && r.group is None && r.plain
                is None && r.registry == registry
            &&& provider_model(asked) is None ==> r.registry == registry.after_resolve(asked)
            &&& provider_model(asked) is None && group is Some ==> r.model == group->0.provider
                + seq!['/'] + group->0.model && r.group == Some(asked) && r.plain is None
            &&& provider_model(asked) is None && group is None && plain is Some ==> r.model
                == plain->0.provider + seq!['/'] + plain->0.model && r.plain == Some(asked)
                && r.group is None
            &&& provider_model(asked) is None && group is None && plain is None ==> r.model == asked
                && r.group is None && r.plain is None
        }),
        transformed(body, registry).group == routed(body, registry).group,
        transformed(body, registry).plain == routed(body, registry).plain,
        transformed(body, registry).registry == routed(body, registry).registry,
{
    reveal_strlit("/");
    assert("/"@ =~= seq!['/']);
    lemma_asked_after_set(body, routed(body, registry).model);
}

/// Every object and null can be rewritten. Anything else can where nothing has to
/// be written into it: unless a group with an empty name is there to answer a
/// request without a model.
pub proof fn requests_can_be_rewritten(body: JsonView, registry: Registry)
    ensures
        body is Object || body is Null ==> transformable(body, registry),
        !(body is Object) && !(body is Null) ==> (transformable(body, registry)
            <==> registry.resolved(Seq::empty()) is None),
        (forall|i: int|
            0 <= i < registry.groups.len() ==> (#[trigger] registry.groups[i]).name@.len() > 0)
            && registry.well_formed() ==> transformable(body, registry),
{
    if registry.well_formed() && forall|i: int|
        0 <= i < registry.groups.len() ==> (#[trigger] registry.groups[i]).name@.len() > 0 {
        crate::model_groups::groups_take_their_enabled_members_in_turn(
            registry,
            0,
            Seq::empty(),
        );
    }
}

} // verus!
