//! Usage of Gemini accounts.

use vstd::prelude::*;

use crate::json::{Json, JsonView};
#[allow(unused_imports)]
use crate::json::{field_views, json_views, lemma_array_view, lemma_object_view};
use crate::provider_usage::{
    report_without_usage, ApiReply, Measure, UsageReport, UsageWindow,
};
#[allow(unused_imports)]
use crate::provider_usage::{
    empty_report, failure_status, no_window, reset_in, MeasureView, ReportView, WindowView,
};
use crate::text::{contains, text_eq};
#[allow(unused_imports)]
use crate::text::{has_substring, opt_pair_view, opt_view};
#[allow(unused_imports)]
use crate::timestamps::epoch_of;

verus! {

// ---------------------------------------------------------------------------
// Credentials
// ---------------------------------------------------------------------------

/// Where the client's identifier stands in the source of the Gemini tools.
pub const CLIENT_ID_PATTERN: &'static str = "OAUTH_CLIENT_ID\\s*=\\s*['\"]([^'\"]+)['\"]";

/// Where the client's secret stands in the source of the Gemini tools.
pub const CLIENT_SECRET_PATTERN: &'static str =
    "OAUTH_CLIENT_SECRET\\s*=\\s*['\"]([^'\"]+)['\"]";

/// What the first group of a regular expression captures in a text, by the
/// `regex` crate: `None` where the pattern is no expression, does not match,
/// or the group takes no part in the match.
pub uninterp spec fn captured(pattern: Seq<char>, text: Seq<char>) -> Option<Seq<char>>;

/// `regex::Regex::new` and `regex::Regex::captures`: what the first group of
/// the pattern captures in its leftmost match. It depends on the pattern and
/// the text alone, and is given a name.
#[verifier::external_body]
fn first_capture(pattern: &str, text: &str) -> (r: Option<String>)
    ensures
        opt_view(r) == captured(pattern@, text@),
{
    let found = regex::Regex::new(pattern).ok()?.captures(text)?.get(1)?;
    Some(found.as_str().to_owned())
}

/// Both or neither.
pub open spec fn both(a: Option<Seq<char>>, b: Option<Seq<char>>) -> Option<
    (Seq<char>, Seq<char>),
> {
    match (a, b) {
        (Some(x), Some(y)) => Some((x, y)),
        _ => None,
    }
}

/// The credentials, where both were found.
pub fn client_creds(id: Option<String>, secret: Option<String>) -> (r: Option<(String, String)>)
    ensures
        opt_pair_view(r) == both(opt_view(id), opt_view(secret)),
{
    match (id, secret) {
        (Some(i), Some(s)) => Some((i, s)),
        _ => None,
    }
}

/// The client's identifier and secret in the source of the Gemini tools.
pub fn parse_gemini_client_creds(text: &str) -> (r: Option<(String, String)>)
    ensures
        opt_pair_view(r) == both(
            captured(CLIENT_ID_PATTERN@, text@),
            captured(CLIENT_SECRET_PATTERN@, text@),
        ),
{
    client_creds(
        first_capture(CLIENT_ID_PATTERN, text),
        first_capture(CLIENT_SECRET_PATTERN, text),
    )
}

/// The token to use: the refreshed one where there is one.
pub fn choose_token(stored: Option<String>, refreshed: Option<String>) -> (r: Option<String>)
    ensures
        r == match refreshed {
            Some(t) => Some(t),
            None => stored,
        },
{
    match refreshed {
        Some(t) => Some(t),
        None => stored,
    }
}

// ---------------------------------------------------------------------------
// Quota buckets
// ---------------------------------------------------------------------------

/// What is left of a model's quota.
#[derive(Debug)]
pub struct QuotaBucket {
    pub model_id: String,
    /// The fraction left.
    pub remaining: Json,
    pub reset_time: Option<String>,
}

/// What is left of a model's quota.
pub struct Bucket {
    pub model: Seq<char>,
    pub remaining: JsonView,
    pub reset: Option<Seq<char>>,
}

impl View for QuotaBucket {
    type V = Bucket;

    open spec fn view(&self) -> Bucket {
        Bucket {
            model: self.model_id@,
            remaining: self.remaining@,
            reset: opt_view(self.reset_time),
        }
    }
}

/// The buckets, in their order.
pub open spec fn bucket_views(s: Seq<QuotaBucket>) -> Seq<Bucket> {
    Seq::new(s.len(), |i: int| s[i]@)
}

/// The text of the first of two fields that is there.
pub open spec fn either_text(v: JsonView, first: Seq<char>, second: Seq<char>) -> Option<
    Seq<char>,
> {
    match v.get(first) {
        Some(t) => t.text(),
        None => v.text_field(second),
    }
}

/// The bucket that an object itself is, if it states a remaining fraction.
pub open spec fn own_bucket(v: JsonView) -> Seq<Bucket> {
    match v.number_field("remainingFraction"@) {
        Some(remaining) => seq![
            Bucket {
                model: match either_text(v, "modelId"@, "model_id"@) {
                    Some(m) => m,
                    None => "unknown"@,
                },
                remaining,
                reset: either_text(v, "resetTime"@, "reset_time"@),
            },
        ],
        None => Seq::empty(),
    }
}

/// The buckets in a document, wherever they stand: an object before what it
/// holds.
pub open spec fn buckets_in(v: JsonView) -> Seq<Bucket>
    decreases v,
{
    match v {
        JsonView::Array(items) => buckets_in_items(items),
        JsonView::Object(fields) => own_bucket(v) + buckets_in_fields(fields),
        _ => Seq::empty(),
    }
}

/// The buckets in the items of an array.
pub open spec fn buckets_in_items(items: Seq<JsonView>) -> Seq<Bucket>
    decreases items,
{
    if items.len() == 0 {
        Seq::empty()
    } else {
        buckets_in_items(items.subrange(0, items.len() - 1)) + buckets_in(items[items.len() - 1])
    }
}

/// The buckets in the fields of an object.
pub open spec fn buckets_in_fields(fields: Seq<(Seq<char>, JsonView)>) -> Seq<Bucket>
    decreases fields,
{
    if fields.len() == 0 {
        Seq::empty()
    } else {
        buckets_in_fields(fields.subrange(0, fields.len() - 1)) + buckets_in(
            fields[fields.len() - 1].1,
        )
    }
}

/// The text of the first of two fields that is there.
fn read_either_text(v: &Json, first: &str, second: &str) -> (r: Option<String>)
    ensures
        opt_view(r) == either_text(v@, first@, second@),
{
    match v.get(first) {
        Some(t) => match t.as_text() {
            Some(s) => Some(s.clone()),
            None => None,
        },
        None => v.text_field(second),
    }
}

/// Adds the buckets in a document, wherever they stand.
pub fn collect_gemini_quota_buckets(value: &Json, out: &mut Vec<QuotaBucket>)
    ensures
        bucket_views(final(out)@) == bucket_views(old(out)@) + buckets_in(value@),
    decreases value,
{
    let ghost start = bucket_views(out@);
    match value {
        Json::Array(items) => {
            let ghost all = json_views(items@);
            proof {
                lemma_array_view(*items);
                assert(start + buckets_in_items(all.subrange(0, 0)) =~= start);
            }
            let mut i: usize = 0;
            while i < items.len()
                invariant
                    i <= items@.len(),
                    all == json_views(items@),
                    *value == Json::Array(*items),
                    bucket_views(out@) == start + buckets_in_items(all.subrange(0, i as int)),
                decreases items@.len() - i,
            {
                let item = &items[i];
                let ghost so_far = bucket_views(out@);
                assert(decreases_to!(*items => items[i as int]));
                assert(decreases_to!(*value => value->Array_0));
                collect_gemini_quota_buckets(item, out);
                proof {
                    let part = all.subrange(0, i + 1);
                    assert(part.subrange(0, part.len() - 1) =~= all.subrange(0, i as int));
                    assert(part[part.len() - 1] == item@);
                    assert(bucket_views(out@) =~= start + buckets_in_items(part));
                }
                i = i + 1;
            }
            assert(all.subrange(0, i as int) =~= all);
        },
        Json::Object(fields) => {
            let ghost all = field_views(fields@);
            proof {
                lemma_object_view(*fields);
            }
            match value.number_field("remainingFraction") {
                Some(remaining) => {
                    let model_id = match read_either_text(value, "modelId", "model_id") {
                        Some(m) => m,
                        None => "unknown".to_owned(),
                    };
                    let reset_time = read_either_text(value, "resetTime", "reset_time");
                    let ghost before = out@;
                    out.push(QuotaBucket { model_id, remaining, reset_time });
                    assert(bucket_views(out@) =~= bucket_views(before) + own_bucket(value@));
                },
                None => {
                    assert(bucket_views(out@) =~= start + own_bucket(value@));
                },
            }
            let ghost own = start + own_bucket(value@);
            assert(own + buckets_in_fields(all.subrange(0, 0)) =~= own);
            let mut i: usize = 0;
            while i < fields.len()
                invariant
                    i <= fields@.len(),
                    all == field_views(fields@),
                    *value == Json::Object(*fields),
                    bucket_views(out@) == own + buckets_in_fields(all.subrange(0, i as int)),
                decreases fields@.len() - i,
            {
                let item = &fields[i].1;
                assert(decreases_to!(fields[i as int] => fields[i as int].1));
                assert(decreases_to!(*fields => fields[i as int]));
                assert(decreases_to!(*value => value->Object_0));
                collect_gemini_quota_buckets(item, out);
                proof {
                    let part = all.subrange(0, i + 1);
                    assert(part.subrange(0, part.len() - 1) =~= all.subrange(0, i as int));
                    assert(part[part.len() - 1].1 == item@);
                    assert(bucket_views(out@) =~= own + buckets_in_fields(part));
                }
                i = i + 1;
            }
            assert(all.subrange(0, i as int) =~= all);
            assert(bucket_views(out@) =~= start + buckets_in(value@));
        },
        _ => {
            assert(start + buckets_in(value@) =~= start);
        },
    }
}

// ---------------------------------------------------------------------------
// Model families
// ---------------------------------------------------------------------------

/// The families whose quotas are shown.
#[derive(Debug, Clone, Copy, PartialEq, Eq, Structural)]
pub enum ModelFamily {
    Pro,
    Flash,
    Other,
}

/// What `str::to_lowercase` makes of a text.
pub uninterp spec fn lowercased(s: Seq<char>) -> Seq<char>;

/// `str::to_lowercase`: the text in small letters, by Unicode's rules. It
/// depends on the text alone, and is given a name.
#[verifier::external_body]
fn to_lowercase(s: &str) -> (r: String)
    ensures
        r@ == lowercased(s@),
{
    s.to_lowercase()
}

/// The family of a model's name in small letters.
pub open spec fn family_in(lower: Seq<char>) -> ModelFamily {
    if has_substring(lower, "gemini"@) && has_substring(lower, "pro"@) {
        ModelFamily::Pro
    } else if has_substring(lower, "gemini"@) && has_substring(lower, "flash"@) {
        ModelFamily::Flash
    } else {
        ModelFamily::Other
    }
}

/// The family of a model's name in small letters.
pub fn family_of_lowercase(lower: &str) -> (r: ModelFamily)
    ensures
        r == family_in(lower@),
{
    if contains(lower, "gemini") && contains(lower, "pro") {
        ModelFamily::Pro
    } else if contains(lower, "gemini") && contains(lower, "flash") {
        ModelFamily::Flash
    } else {
        ModelFamily::Other
    }
}

/// The family of a model.
pub fn family_of(model_id: &str) -> (r: ModelFamily)
    ensures
        r == family_in(lowercased(model_id@)),
{
    let lower = to_lowercase(model_id);
    family_of_lowercase(lower.as_str())
}

/// The families of the buckets.
pub fn families(buckets: &Vec<QuotaBucket>) -> (r: Vec<ModelFamily>)
    ensures
        r@.len() == buckets@.len(),
        forall|i: int|
            0 <= i < buckets@.len() ==> #[trigger] r@[i] == family_in(
                lowercased(buckets@[i].model_id@),
            ),
{
    let mut out: Vec<ModelFamily> = Vec::new();
    let mut i: usize = 0;
    while i < buckets.len()
        invariant
            i <= buckets@.len(),
            out@.len() == i,
            forall|j: int|
                0 <= j < i ==> #[trigger] out@[j] == family_in(lowercased(buckets@[j].model_id@)),
        decreases buckets@.len() - i,
    {
        out.push(family_of(buckets[i].model_id.as_str()));
        i = i + 1;
    }
    out
}

/// `pick` is the first of the most used buckets of a family, where `used` says
/// how much of each has been used.
pub open spec fn most_used(
    pick: Option<usize>,
    families: Seq<ModelFamily>,
    used: Seq<u64>,
    family: ModelFamily,
) -> bool {
    match pick {
        Some(p) => {
            &&& p < families.len()
            &&& families[p as int] == family
            &&& forall|i: int|
                0 <= i < families.len() && #[trigger] families[i] == family ==> used[i] <= used[p as int]
            &&& forall|i: int|
                0 <= i < p && #[trigger] families[i] == family ==> used[i] < used[p as int]
        },
        None => forall|i: int| 0 <= i < families.len() ==> #[trigger] families[i] != family,
    }
}

/// The first of the most used buckets of a family.
pub fn pick_most_used(families: &Vec<ModelFamily>, used: &Vec<u64>, family: ModelFamily) -> (r:
    Option<usize>)
    requires
        used@.len() == families@.len(),
    ensures
        most_used(r, families@, used@, family),
{
    let mut best: Option<usize> = None;
    let mut i: usize = 0;
    while i < families.len()
        invariant
            i <= families@.len(),
            used@.len() == families@.len(),
            most_used(best, families@.take(i as int), used@, family),
        decreases families@.len() - i,
    {
        let ghost part = families@.take(i as int);
        let ghost next = families@.take(i + 1);
        if families[i] == family {
            let better = match best {
                Some(b) => used[i] > used[b],
                None => true,
            };
            proof {
                assert forall|j: int| 0 <= j < i implies #[trigger] next[j] == part[j] by {}
            }
            if better {
                best = Some(i);
            }
        }
        assert(most_used(best, next, used@, family)) by {
            assert forall|j: int| 0 <= j < i implies #[trigger] next[j] == part[j] by {}
        }
        i = i + 1;
    }
    assert(families@.take(i as int) =~= families@);
    best
}

// ---------------------------------------------------------------------------
// Reports
// ---------------------------------------------------------------------------

/// The window that a picked bucket stands for.
pub open spec fn bucket_window(b: Option<Bucket>, now: int) -> WindowView {
    match b {
        Some(b) => WindowView {
            measure: MeasureView::RemainingFraction(Some(b.remaining)),
            reset: reset_in(b.reset, now),
        },
        None => no_window(),
    }
}

/// The bucket at a position.
pub open spec fn picked(buckets: Seq<Bucket>, pick: Option<usize>) -> Option<Bucket> {
    match pick {
        Some(p) => Some(buckets[p as int]),
        None => None,
    }
}

fn read_bucket_window(buckets: &Vec<QuotaBucket>, pick: Option<usize>, now: i64) -> (r:
    UsageWindow)
    requires
        pick matches Some(p) ==> p < buckets@.len(),
    ensures
        r@ == bucket_window(picked(bucket_views(buckets@), pick), now as int),
{
    match pick {
        Some(p) => UsageWindow {
            measure: Measure::RemainingFraction(Some(buckets[p].remaining.copy())),
            reset_seconds: crate::provider_usage::read_reset(&buckets[p].reset_time, now),
        },
        None => UsageWindow {
            measure: Measure::Percent { used: None, left: None },
            reset_seconds: None,
        },
    }
}

/// The report of a Gemini account: the most used bucket of the Pro models and
/// that of the Flash models.
pub fn gemini_report(
    account_id: &str,
    buckets: &Vec<QuotaBucket>,
    pro: Option<usize>,
    flash: Option<usize>,
    now: i64,
) -> (r: UsageReport)
    requires
        pro matches Some(p) ==> p < buckets@.len(),
        flash matches Some(p) ==> p < buckets@.len(),
    ensures
        r@ == (ReportView {
            account: account_id@,
            provider: "gemini"@,
            primary: bucket_window(picked(bucket_views(buckets@), pro), now as int),
            secondary: bucket_window(picked(bucket_views(buckets@), flash), now as int),
            plan: None,
            status: "loaded"@,
        }),
{
    UsageReport {
        account_id: account_id.to_owned(),
        provider: "gemini".to_owned(),
        primary: read_bucket_window(buckets, pro, now),
        secondary: read_bucket_window(buckets, flash, now),
        plan_type: None,
        status: "loaded".to_owned(),
    }
}

/// The buckets of a reply, or the report of an account whose quota could not
/// be had: a refusal says whether the credentials were at fault.
pub fn gemini_buckets(account_id: &str, reply: &ApiReply) -> (r: Result<
    Vec<QuotaBucket>,
    UsageReport,
>)
    ensures
        match *reply {
            ApiReply::Document(doc) => match r {
                Ok(buckets) => bucket_views(buckets@) == buckets_in(doc@) && buckets@.len() > 0,
                Err(report) => buckets_in(doc@).len() == 0 && report@ == empty_report(
                    account_id@,
                    "gemini"@,
                    "error"@,
                ),
            },
            _ => r matches Err(report) && report@ == empty_report(
                account_id@,
                "gemini"@,
                failure_status(*reply),
            ),
        },
{
    match reply {
        ApiReply::Document(doc) => {
            let mut buckets: Vec<QuotaBucket> = Vec::new();
            let ghost none = bucket_views(buckets@);
            collect_gemini_quota_buckets(doc, &mut buckets);
            assert(none + buckets_in(doc@) =~= buckets_in(doc@));
            if buckets.len() == 0 {
                assert(buckets_in(doc@).len() == bucket_views(buckets@).len());
                return Err(report_without_usage(account_id, "gemini", "error"));
            }
            Ok(buckets)
        },
        ApiReply::Refused(code) => Err(
            report_without_usage(
                account_id,
                "gemini",
                crate::provider_usage::status_of_refusal(*code),
            ),
        ),
        _ => Err(report_without_usage(account_id, "gemini", "error")),
    }
}

// ---------------------------------------------------------------------------
// Which accounts are asked about
// ---------------------------------------------------------------------------

/// A provider to be asked about an account.
#[derive(Debug)]
pub enum UsageQuery {
    Anthropic { token: String },
    Codex { token: String },
    Copilot { token: String },
    Gemini { stored: Option<String>, refresh: Option<String> },
}

/// A provider to be asked about an account.
pub enum Query {
    Anthropic(Seq<char>),
    Codex(Seq<char>),
    Copilot(Seq<char>),
    Gemini { stored: Option<Seq<char>>, refresh: Option<Seq<char>> },
}

impl View for UsageQuery {
    type V = Query;

    open spec fn view(&self) -> Query {
        match *self {
            UsageQuery::Anthropic { token } => Query::Anthropic(token@),
            UsageQuery::Codex { token } => Query::Codex(token@),
            UsageQuery::Copilot { token } => Query::Copilot(token@),
            UsageQuery::Gemini { stored, refresh } => Query::Gemini {
                stored: opt_view(stored),
                refresh: opt_view(refresh),
            },
        }
    }
}

/// How an account's usage is asked for: with its access token, which only
/// Gemini accounts can do without.
pub open spec fn usage_query_of(
    provider: Seq<char>,
    anthropic: Seq<char>,
    doc: JsonView,
) -> Option<Query> {
    let token = doc.text_field("access_token"@);
    if provider == anthropic {
        match token {
            Some(t) => Some(Query::Anthropic(t)),
            None => None,
        }
    } else if provider == "codex"@ {
        match token {
            Some(t) => Some(Query::Codex(t)),
            None => None,
        }
    } else if provider == "gemini"@ {
        Some(Query::Gemini { stored: token, refresh: doc.text_field("refresh_token"@) })
    } else if provider == "github-copilot"@ {
        match token {
            Some(t) => Some(Query::Copilot(t)),
            None => None,
        }
    } else {
        None
    }
}

/// How an account's usage is asked for, if it is.
pub fn usage_query(provider: &str, anthropic: &str, doc: &Json) -> (r: Option<UsageQuery>)
    ensures
        match r {
            Some(q) => usage_query_of(provider@, anthropic@, doc@) == Some(q@),
            None => usage_query_of(provider@, anthropic@, doc@) is None,
        },
{
    let token = doc.text_field("access_token");
    if text_eq(provider, anthropic) {
        match token {
            Some(t) => Some(UsageQuery::Anthropic { token: t }),
            None => None,
        }
    } else if text_eq(provider, "codex") {
        match token {
            Some(t) => Some(UsageQuery::Codex { token: t }),
            None => None,
        }
    } else if text_eq(provider, "gemini") {
        Some(UsageQuery::Gemini { stored: token, refresh: doc.text_field("refresh_token") })
    } else if text_eq(provider, "github-copilot") {
        match token {
            Some(t) => Some(UsageQuery::Copilot { token: t }),
            None => None,
        }
    } else {
        None
    }
}

// ---------------------------------------------------------------------------
// Laws
// ---------------------------------------------------------------------------

/// An object with a number in `remainingFraction` is a bucket: of the model in
/// `modelId`, else in `model_id`, else unknown, with that number left, until
/// the moment in `resetTime`, else in `reset_time`.
pub proof fn buckets_are_read_from_their_fields(v: JsonView, n: JsonView)
    requires
        v.get("remainingFraction"@) == Some(n),
    ensures
        n is Unsigned || n is Negative || n is Fraction ==> own_bucket(v).len() == 1 && {
            let b = own_bucket(v)[0];
            &&& b.remaining == n
            &&& v.get("modelId"@) matches Some(JsonView::Text(m)) ==> b.model == m
            &&& v.get("modelId"@) is None ==> (v.get("model_id"@) matches Some(JsonView::Text(m))
                ==> b.model == m)
            &&& v.get("modelId"@) is None && v.get("model_id"@) is None ==> b.model == "unknown"@
            &&& v.get("modelId"@) is Some && !(v.get("modelId"@)->0 is Text) ==> b.model
                == "unknown"@
            &&& v.get("modelId"@) is None && v.get("model_id"@) is Some && !(v.get("model_id"@)->0
                is Text) ==> b.model == "unknown"@
            &&& v.get("resetTime"@) is Some && !(v.get("resetTime"@)->0 is Text) ==> b.reset is None
            &&& v.get("resetTime"@) matches Some(JsonView::Text(t)) ==> b.reset == Some(t)
            &&& v.get("resetTime"@) is None ==> (v.get("reset_time"@) matches Some(
                JsonView::Text(t),
            ) ==> b.reset == Some(t))
            &&& v.get("resetTime"@) is None && v.get("reset_time"@) is None ==> b.reset is None
        },
        !(n is Unsigned || n is Negative || n is Fraction) ==> own_bucket(v).len() == 0,
{
}

/// What buckets a document holds: an object's own before those in its fields,
/// and those in a list one item after the other. Texts, numbers, truth values
/// and null hold none, and an object without a fraction is none itself.
pub proof fn buckets_are_found_at_every_depth(
    items: Seq<JsonView>,
    item: JsonView,
    fields: Seq<(Seq<char>, JsonView)>,
    key: Seq<char>,
    v: JsonView,
)
    ensures
        buckets_in(JsonView::Array(Seq::empty())) == Seq::<Bucket>::empty(),
        buckets_in(JsonView::Array(items.push(item))) == buckets_in(JsonView::Array(items))
            + buckets_in(item),
        buckets_in(JsonView::Object(fields)) == own_bucket(JsonView::Object(fields))
            + buckets_in_fields(fields),
        buckets_in_fields(Seq::empty()) == Seq::<Bucket>::empty(),
        buckets_in_fields(fields.push((key, item))) == buckets_in_fields(fields) + buckets_in(
            item,
        ),
        v.get("remainingFraction"@) is None ==> own_bucket(v) == Seq::<Bucket>::empty(),
        !(v is Array) && !(v is Object) ==> buckets_in(v) == Seq::<Bucket>::empty(),
{
    let longer = items.push(item);
    assert(longer.subrange(0, longer.len() - 1) =~= items);
    let more = fields.push((key, item));
    assert(more.subrange(0, more.len() - 1) =~= fields);
}

/// A name with `gemini` in it is of the Pro family where `pro` is in it too,
/// else of the Flash family where `flash` is; any other name is of neither.
pub proof fn families_go_by_the_name(a: Seq<char>, b: Seq<char>, s: Seq<char>)
    ensures
        has_substring(s, "gemini"@) && s == a + "pro"@ + b ==> family_in(s) == ModelFamily::Pro,
        has_substring(s, "gemini"@) && !has_substring(s, "pro"@) && s == a + "flash"@ + b
            ==> family_in(s) == ModelFamily::Flash,
        !has_substring(s, "gemini"@) ==> family_in(s) == ModelFamily::Other,
        !has_substring(s, "pro"@) && !has_substring(s, "flash"@) ==> family_in(s)
            == ModelFamily::Other,
{
    crate::text::substrings_are_found(s, "pro"@, a, b);
    crate::text::substrings_are_found(s, "flash"@, a, b);
}

/// The window of a bucket shows the fraction left and the time to its moment;
/// without a bucket nothing is known.
pub proof fn picked_buckets_are_shown(buckets: Seq<Bucket>, p: usize, now: int)
    requires
        p < buckets.len(),
    ensures
        ({
            let w = bucket_window(picked(buckets, Some(p)), now);
            let then = match buckets[p as int].reset {
                Some(t) => epoch_of(t),
                None => None,
            };
            &&& w.measure == MeasureView::RemainingFraction(Some(buckets[p as int].remaining))
            &&& crate::provider_usage::waits(w.reset, then, now)
        }),
        crate::provider_usage::shows(bucket_window(picked(buckets, None), now), None, None, None),
{
}

/// Of two found texts both are needed.
pub proof fn both_are_needed(a: Option<Seq<char>>, b: Option<Seq<char>>)
    ensures
        both(a, b) is Some <==> a is Some && b is Some,
        both(a, b) matches Some((x, y)) ==> a == Some(x) && b == Some(y),
{
}

/// Which accounts are asked about, and with what: those of Anthropic, Codex and
/// Copilot with their access token, where they have one; those of Gemini with
/// their access token and their refresh token, whichever there is; and no
/// others.
pub proof fn accounts_are_asked_about_with_their_tokens(
    provider: Seq<char>,
    anthropic: Seq<char>,
    doc: JsonView,
)
    ensures
        ({
            let q = usage_query_of(provider, anthropic, doc);
            let token = crate::provider_usage::text_at(doc, "access_token"@);
            let refresh = crate::provider_usage::text_at(doc, "refresh_token"@);
            &&& provider == anthropic ==> q == match token {
                Some(t) => Some(Query::Anthropic(t)),
                None => None,
            }
            &&& provider == "codex"@ && provider != anthropic ==> q == match token {
                Some(t) => Some(Query::Codex(t)),
                None => None,
            }
            &&& provider == "github-copilot"@ && provider != anthropic ==> q == match token {
                Some(t) => Some(Query::Copilot(t)),
                None => None,
            }
            &&& provider == "gemini"@ && provider != anthropic ==> q == Some(
                Query::Gemini { stored: token, refresh },
            )
            &&& provider != anthropic && provider != "codex"@ && provider != "github-copilot"@
                && provider != "gemini"@ ==> q is None
        }),
{
    reveal_strlit("codex");
    reveal_strlit("gemini");
    reveal_strlit("github-copilot");
    assert("codex"@.len() == 5 && "gemini"@.len() == 6 && "github-copilot"@.len() == 14);
}

/// Of the buckets of a family the one is picked of which the most has been
/// used, and of several such the first; none exactly if the family has no
/// bucket.
pub proof fn the_first_of_the_most_used_is_picked(
    pick: Option<usize>,
    families: Seq<ModelFamily>,
    used: Seq<u64>,
    family: ModelFamily,
    p: int,
)
    requires
        most_used(pick, families, used, family),
    ensures
        0 <= p < families.len() && families[p] == family && (forall|i: int|
            0 <= i < p && #[trigger] families[i] == family ==> used[i] < used[p]) && (forall|i: int|
            p < i < families.len() && #[trigger] families[i] == family ==> used[i] <= used[p])
            ==> (pick is Some && pick->0 == p),
        (forall|i: int| 0 <= i < families.len() ==> #[trigger] families[i] != family) ==> pick
            is None,
        0 <= p < families.len() && families[p] == family ==> pick is Some,
{
    if pick is Some {
        let q = pick->0 as int;
        assert(families[q] == family);
        if 0 <= p < families.len() {
            assert(families[p] == family || families[p] != family);
        }
    }
}

} // verus!
