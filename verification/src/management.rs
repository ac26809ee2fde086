//! What the backend's management endpoints report.

use vstd::prelude::*;

use crate::catalog::{field_array, parse_provider_model_id, pick_str};
#[allow(unused_imports)]
use crate::catalog::{
    array_field, key_texts, picked_text, says, silent, the_first_field_that_speaks_is_picked,
};
use crate::json::{Json, JsonView};
#[allow(unused_imports)]
use crate::json::{field_views, json_views};
use crate::ledger::Ledger;
#[allow(unused_imports)]
use crate::ledger::{
    account_sums, any_row, lemma_total_add, lemma_total_push, model_sums, provider_sums,
    row_sums, total_by,
};
use crate::maps::TextMap;
#[allow(unused_imports)]
use crate::maps::text_values;
#[allow(unused_imports)]
use crate::model_groups::provider_model;
use crate::numbers::parse_u64;
#[allow(unused_imports)]
use crate::numbers::u64_value;
use crate::text::{join2, starts_with, to_ascii_lowercase, trim};
#[allow(unused_imports)]
use crate::text::{ascii_lower, begins_with, opt_view, trimmed};
#[allow(unused_imports)]
use crate::types::usage_rows;
use crate::types::{UsageRow, UsageStats};

verus! {

// ---------------------------------------------------------------------------
// Models
// ---------------------------------------------------------------------------

/// The count in a value: an unsigned integer, or a text that spells one.
pub open spec fn count_in(v: JsonView) -> Option<u64> {
    match v {
        JsonView::Unsigned(n) => Some(n),
        JsonView::Text(s) => u64_value(trimmed(s)),
        _ => None,
    }
}

/// The count in the field `key`, zero where there is none.
pub open spec fn count_field(v: JsonView, key: Seq<char>) -> u64 {
    match v.get(key) {
        Some(c) => match count_in(c) {
            Some(n) => n,
            None => 0,
        },
        None => 0,
    }
}

/// The provider that a model's name suggests: the one written into it, else
/// the one whose models are called so. Anthropic's models are called after the
/// name that it goes by.
pub open spec fn suggested_provider(model: Seq<char>, anthropic: Seq<char>) -> Seq<char> {
    let lower = ascii_lower(model);
    match provider_model(model) {
        Some((provider, _)) => provider,
        None => if begins_with(lower, anthropic) {
            anthropic
        } else if begins_with(lower, "gpt"@) || begins_with(lower, "o1"@) || begins_with(
            lower,
            "o3"@,
        ) || begins_with(lower, "o4"@) || begins_with(lower, "oai"@) {
            "openai"@
        } else if begins_with(lower, "gemini"@) {
            "gemini"@
        } else if begins_with(lower, "qwen"@) {
            "qwen"@
        } else if begins_with(lower, "kiro"@) {
            "kiro"@
        } else {
            "unknown"@
        },
    }
}

/// The index by which the backend refers to an account.
pub open spec fn auth_index(v: JsonView) -> Option<Seq<char>> {
    picked_text(v, seq!["auth_index"@, "authIndex"@])
}

/// The name of the account of a file, for want of another its index.
pub open spec fn account_name(file: JsonView, index: Seq<char>) -> Seq<char> {
    match picked_text(file, seq!["email"@, "account"@, "label"@, "name"@, "id"@]) {
        Some(name) => name,
        None => index,
    }
}

/// The accounts' names by index. A later file goes before an earlier one.
pub open spec fn account_names(files: Seq<JsonView>) -> Map<Seq<char>, Seq<char>>
    decreases files.len(),
{
    if files.len() == 0 {
        Map::empty()
    } else {
        let names = account_names(files.drop_last());
        match auth_index(files.last()) {
            Some(index) => names.insert(index, account_name(files.last(), index)),
            None => names,
        }
    }
}

/// What names stand for: the accounts by index, and Anthropic's name.
pub struct Naming {
    pub accounts: Map<Seq<char>, Seq<char>>,
    pub anthropic: Seq<char>,
}

/// The names in effect.
pub open spec fn naming(accounts: Map<Seq<char>, String>, anthropic: Seq<char>) -> Naming {
    Naming { accounts: text_values(accounts), anthropic }
}

/// The account of a request.
pub open spec fn request_account(
    detail: JsonView,
    accounts: Map<Seq<char>, Seq<char>>,
) -> Seq<char> {
    match auth_index(detail) {
        Some(index) => if accounts.dom().contains(index) {
            accounts[index]
        } else {
            "auth:"@ + index
        },
        None => "unknown"@,
    }
}

/// The provider and the model of a listed model.
pub open spec fn listed_provider_model(raw: Seq<char>, anthropic: Seq<char>) -> (
    Seq<char>,
    Seq<char>,
) {
    match provider_model(raw) {
        Some(pair) => pair,
        None => (suggested_provider(raw, anthropic), raw),
    }
}

/// The requests to one model: one row for each that is listed, or one row for
/// the reported number where none is listed.
pub open spec fn model_rows(
    raw: Seq<char>,
    snapshot: JsonView,
    names: Naming,
) -> Seq<UsageRow> {
    let (provider, model) = listed_provider_model(raw, names.anthropic);
    let details = match array_field(snapshot, "details"@) {
        Some(d) => d,
        None => Seq::empty(),
    };
    let reported = count_field(snapshot, "total_requests"@);
    if details.len() > 0 {
        Seq::new(
            details.len(),
            |i: int|
                UsageRow {
                    provider,
                    model,
                    account: request_account(details[i], names.accounts),
                    requests: 1,
                },
        )
    } else if reported > 0 {
        seq![UsageRow { provider, model, account: "unknown"@, requests: reported as nat }]
    } else {
        Seq::empty()
    }
}

/// The requests to the models of an API.
pub open spec fn models_rows(
    models: Seq<(Seq<char>, JsonView)>,
    names: Naming,
) -> Seq<UsageRow>
    decreases models.len(),
{
    if models.len() == 0 {
        Seq::empty()
    } else {
        models_rows(models.drop_last(), names) + model_rows(
            models.last().0,
            models.last().1,
            names,
        )
    }
}

/// The fields of the object in the field `key`.
pub open spec fn object_field(v: JsonView, key: Seq<char>) -> Option<Seq<(Seq<char>, JsonView)>> {
    match v.get(key) {
        Some(o) => o.fields(),
        None => None,
    }
}

/// The models of an API; none where they are missing.
pub open spec fn api_models(api: JsonView) -> Seq<(Seq<char>, JsonView)> {
    match object_field(api, "models"@) {
        Some(fields) => fields,
        None => Seq::empty(),
    }
}

/// The requests to all APIs.
pub open spec fn apis_rows(
    apis: Seq<(Seq<char>, JsonView)>,
    names: Naming,
) -> Seq<UsageRow>
    decreases apis.len(),
{
    if apis.len() == 0 {
        Seq::empty()
    } else {
        apis_rows(apis.drop_last(), names) + models_rows(api_models(apis.last().1), names)
    }
}

/// The APIs of a usage report.
pub open spec fn reported_apis(payload: JsonView) -> Option<Seq<(Seq<char>, JsonView)>> {
    match payload.get("usage"@) {
        Some(usage) => object_field(usage, "apis"@),
        None => None,
    }
}

/// The requests of a usage report.
pub open spec fn reported_rows(
    payload: JsonView,
    names: Naming,
) -> Seq<UsageRow> {
    match reported_apis(payload) {
        Some(apis) => apis_rows(apis, names),
        None => Seq::empty(),
    }
}

/// The number of requests that a report gives in total, zero where it gives
/// none.
pub open spec fn reported_total(payload: JsonView) -> u64 {
    match payload.get("usage"@) {
        Some(usage) => count_field(usage, "total_requests"@),
        None => 0,
    }
}

/// The statistics sum up the rows, under the given total.
pub open spec fn sums_up(stats: UsageStats, rows: Seq<UsageRow>, total: nat) -> bool {
    &&& stats.total_requests == total
    &&& stats.per_model@ == model_sums(rows)
    &&& stats.per_provider@ == provider_sums(rows)
    &&& stats.per_account@ == account_sums(rows)
    &&& row_sums(usage_rows(stats.by_request@), rows)
}

/// The number of requests in total: the reported one, or else the sum.
pub open spec fn stated_total(payload: JsonView, rows: Seq<UsageRow>) -> nat {
    if reported_total(payload) > 0 {
        reported_total(payload) as nat
    } else {
        total_by(rows, any_row())
    }
}

// ---------------------------------------------------------------------------
// Reports
// ---------------------------------------------------------------------------

/// The count in a value.
pub fn read_u64(value: &Json) -> (r: Option<u64>)
    ensures
        r == count_in(value@),
{
    match value {
        Json::Unsigned(n) => Some(*n),
        Json::Text(s) => {
            let t = trim(s.as_str());
            parse_u64(t.as_str())
        },
        _ => None,
    }
}

/// The count in the field `key`, zero where there is none.
fn read_count(value: &Json, key: &str) -> (r: u64)
    ensures
        r == count_field(value@, key@),
{
    match value.get(key) {
        Some(c) => match read_u64(c) {
            Some(n) => n,
            None => 0,
        },
        None => 0,
    }
}

/// The provider that a model's name suggests.
pub fn infer_provider_from_model(model: &str, anthropic: &str) -> (r: String)
    ensures
        r@ == suggested_provider(model@, anthropic@),
{
    match parse_provider_model_id(model) {
        Some((provider, _)) => {
            return provider;
        },
        None => {},
    }
    let low = to_ascii_lowercase(model);
    let lower = low.as_str();
    if starts_with(lower, anthropic) {
        anthropic.to_owned()
    } else if starts_with(lower, "gpt") || starts_with(lower, "o1") || starts_with(lower, "o3")
        || starts_with(lower, "o4") || starts_with(lower, "oai") {
        "openai".to_owned()
    } else if starts_with(lower, "gemini") {
        "gemini".to_owned()
    } else if starts_with(lower, "qwen") {
        "qwen".to_owned()
    } else if starts_with(lower, "kiro") {
        "kiro".to_owned()
    } else {
        "unknown".to_owned()
    }
}

/// The index by which the backend refers to an account.
fn read_auth_index(value: &Json) -> (r: Option<String>)
    ensures
        opt_view(r) == auth_index(value@),
{
    let keys = ["auth_index", "authIndex"];
    assert(key_texts(keys@) =~= seq!["auth_index"@, "authIndex"@]);
    pick_str(value, &keys)
}

/// The accounts' names by the index the backend gives them.
pub fn parse_management_auth_files_payload(payload: &Json) -> (r: TextMap<String>)
    ensures
        text_values(r@) == account_names(
            match array_field(payload@, "files"@) {
                Some(files) => files,
                None => Seq::empty(),
            },
        ),
{
    let mut names: TextMap<String> = TextMap::new();
    assert(text_values(names@) =~= Map::empty());
    match field_array(payload, "files") {
        Some(files) => {
            let ghost all = json_views(files@);
            let mut i: usize = 0;
            assert(all.take(0) =~= Seq::empty());
            while i < files.len()
                invariant
                    i <= files@.len(),
                    all == json_views(files@),
                    text_values(names@) == account_names(all.take(i as int)),
                decreases files@.len() - i,
            {
                let file = &files[i];
                assert(all.take(i + 1).drop_last() =~= all.take(i as int));
                assert(all.take(i + 1).last() == file@);
                match read_auth_index(file) {
                    Some(index) => {
                        let keys = ["email", "account", "label", "name", "id"];
                        assert(key_texts(keys@) =~= seq![
                            "email"@,
                            "account"@,
                            "label"@,
                            "name"@,
                            "id"@,
                        ]);
                        let account = match pick_str(file, &keys) {
                            Some(name) => name,
                            None => index.clone(),
                        };
                        let ghost before = names@;
                        names.insert(index, account);
                        assert(text_values(names@) =~= text_values(before).insert(
                            index@,
                            account@,
                        ));
                    },
                    None => {},
                }
                i = i + 1;
            }
            assert(all.take(i as int) =~= all);
        },
        None => {},
    }
    names
}

/// The account of a request.
fn read_account(detail: &Json, accounts: &TextMap<String>) -> (r: String)
    ensures
        r@ == request_account(detail@, text_values(accounts@)),
{
    match read_auth_index(detail) {
        Some(index) => match accounts.get(index.as_str()) {
            Some(name) => name.clone(),
            None => join2("auth:", index.as_str()),
        },
        None => "unknown".to_owned(),
    }
}

/// The rows of a model keep to what is left up to the limit.
proof fn lemma_prefix_fits(done: Seq<UsageRow>, rows: Seq<UsageRow>, i: int)
    requires
        0 <= i < rows.len(),
        total_by(done + rows, any_row()) <= u64::MAX,
    ensures
        (done + rows.take(i)).push(rows[i]) == done + rows.take(i + 1),
        total_by(done + rows.take(i), any_row()) + rows[i].requests <= u64::MAX,
{
    let upto = rows.take(i + 1);
    assert((done + rows.take(i)).push(rows[i]) =~= done + upto);
    assert(done + rows =~= (done + upto) + rows.skip(i + 1));
    lemma_total_add(done + upto, rows.skip(i + 1), any_row());
    lemma_total_push(done + rows.take(i), rows[i], any_row());
}

/// Adds the requests to one model.
fn add_model(
    ledger: &mut Ledger,
    raw: &str,
    snapshot: &Json,
    accounts: &TextMap<String>,
    anthropic: &str,
    Ghost(done): Ghost<Seq<UsageRow>>,
)
    requires
        old(ledger).holds(done),
        total_by(
            done + model_rows(raw@, snapshot@, naming(accounts@, anthropic@)),
            any_row(),
        ) <= u64::MAX,
    ensures
        final(ledger).holds(done + model_rows(raw@, snapshot@, naming(accounts@, anthropic@))),
{
    let ghost names = naming(accounts@, anthropic@);
    let ghost rows = model_rows(raw@, snapshot@, names);
    let pair = match parse_provider_model_id(raw) {
        Some(pair) => pair,
        None => (infer_provider_from_model(raw, anthropic), raw.to_owned()),
    };
    let provider = pair.0;
    let model = pair.1;
    assert((provider@, model@) == listed_provider_model(raw@, anthropic@));
    match field_array(snapshot, "details") {
        Some(details) => {
            if details.len() > 0 {
                let ghost all = json_views(details@);
                let mut i: usize = 0;
                assert(done + rows.take(0) =~= done);
                while i < details.len()
                    invariant
                        i <= details@.len(),
                        all == json_views(details@),
                        names == naming(accounts@, anthropic@),
                        rows.len() == details@.len(),
                        forall|j: int|
                            0 <= j < rows.len() ==> #[trigger] rows[j] == (UsageRow {
                                provider: provider@,
                                model: model@,
                                account: request_account(all[j], names.accounts),
                                requests: 1,
                            }),
                        total_by(done + rows, any_row()) <= u64::MAX,
                        ledger.holds(done + rows.take(i as int)),
                    decreases details@.len() - i,
                {
                    let account = read_account(&details[i], accounts);
                    proof {
                        lemma_prefix_fits(done, rows, i as int);
                        assert(all[i as int] == details@[i as int]@);
                        assert(rows[i as int].requests == 1);
                    }
                    ledger.add_row(
                        provider.as_str(),
                        model.as_str(),
                        account.as_str(),
                        1,
                        Ghost(done + rows.take(i as int)),
                    );
                    i = i + 1;
                }
                assert(rows.take(i as int) =~= rows);
                return ;
            }
        },
        None => {},
    }
    let requests: u64 = read_count(snapshot, "total_requests");
    if requests == 0 {
        assert(done + rows =~= done);
        return ;
    }
    proof {
        lemma_prefix_fits(done, rows, 0);
        assert(done + rows.take(0) =~= done);
        assert(rows.take(1) =~= rows);
    }
    ledger.add_row(provider.as_str(), model.as_str(), "unknown", requests, Ghost(done));
}

/// Adds the requests to the models of one API.
fn add_models(
    ledger: &mut Ledger,
    models: &Vec<(String, Json)>,
    accounts: &TextMap<String>,
    anthropic: &str,
    Ghost(done): Ghost<Seq<UsageRow>>,
)
    requires
        old(ledger).holds(done),
        total_by(
            done + models_rows(field_views(models@), naming(accounts@, anthropic@)),
            any_row(),
        ) <= u64::MAX,
    ensures
        final(ledger).holds(done + models_rows(field_views(models@), naming(accounts@, anthropic@))),
{
    let ghost names = naming(accounts@, anthropic@);
    let ghost all = field_views(models@);
    let mut i: usize = 0;
    proof {
        assert(all.take(0) =~= Seq::empty());
        assert(done + models_rows(all.take(0), names) =~= done);
    }
    while i < models.len()
        invariant
            i <= models@.len(),
            all == field_views(models@),
            names == naming(accounts@, anthropic@),
            total_by(done + models_rows(all, names), any_row()) <= u64::MAX,
            ledger.holds(done + models_rows(all.take(i as int), names)),
        decreases models@.len() - i,
    {
        let ghost so_far = done + models_rows(all.take(i as int), names);
        let ghost next = model_rows(all[i as int].0, all[i as int].1, names);
        proof {
            assert(all.take(i + 1).drop_last() =~= all.take(i as int));
            assert(all.take(i + 1).last() == all[i as int]);
            assert(done + models_rows(all.take(i + 1), names) =~= so_far + next);
            lemma_models_rows_grow(all, names, i + 1);
            lemma_total_add(done, models_rows(all.take(i + 1), names), any_row());
            lemma_total_add(done, models_rows(all, names), any_row());
        }
        add_model(ledger, models[i].0.as_str(), &models[i].1, accounts, anthropic, Ghost(so_far));
        i = i + 1;
    }
    assert(all.take(i as int) =~= all);
}

proof fn lemma_models_rows_grow(
    all: Seq<(Seq<char>, JsonView)>,
    names: Naming,
    i: int,
)
    requires
        0 <= i <= all.len(),
    ensures
        total_by(models_rows(all.take(i), names), any_row()) <= total_by(
            models_rows(all, names),
            any_row(),
        ),
    decreases all.len() - i,
{
    if i == all.len() {
        assert(all.take(i) =~= all);
    } else {
        lemma_models_rows_grow(all, names, i + 1);
        assert(all.take(i + 1).drop_last() =~= all.take(i));
        lemma_total_add(
            models_rows(all.take(i), names),
            model_rows(all[i].0, all[i].1, names),
            any_row(),
        );
    }
}

proof fn lemma_apis_rows_grow(
    all: Seq<(Seq<char>, JsonView)>,
    names: Naming,
    i: int,
)
    requires
        0 <= i <= all.len(),
    ensures
        total_by(apis_rows(all.take(i), names), any_row()) <= total_by(
            apis_rows(all, names),
            any_row(),
        ),
    decreases all.len() - i,
{
    if i == all.len() {
        assert(all.take(i) =~= all);
    } else {
        lemma_apis_rows_grow(all, names, i + 1);
        assert(all.take(i + 1).drop_last() =~= all.take(i));
        lemma_total_add(
            apis_rows(all.take(i), names),
            models_rows(api_models(all[i].1), names),
            any_row(),
        );
    }
}

/// The fields of the object in the field `key`.
pub fn field_object<'a>(value: &'a Json, key: &str) -> (r: Option<&'a Vec<(String, Json)>>)
    ensures
        r matches Some(fields) ==> object_field(value@, key@) == Some(field_views(fields@)),
        r is None ==> object_field(value@, key@) is None,
{
    match value.get(key) {
        Some(v) => v.as_object(),
        None => None,
    }
}

/// The statistics of a usage report, or `None` where it lists no APIs.
pub fn parse_management_usage_payload(
    payload: &Json,
    account_by_index: &TextMap<String>,
    anthropic: &str,
) -> (r: Option<UsageStats>)
    requires
        total_by(reported_rows(payload@, naming(account_by_index@, anthropic@)), any_row()) <= u64::MAX,
    ensures
        r is Some <==> reported_apis(payload@) is Some,
        r matches Some(stats) ==> {
            let rows = reported_rows(payload@, naming(account_by_index@, anthropic@));
            sums_up(stats, rows, stated_total(payload@, rows))
        },
{
    let ghost names = naming(account_by_index@, anthropic@);
    match payload.get("usage") {
        Some(usage) => match field_object(usage, "apis") {
            Some(apis) => {
                let ghost all = field_views(apis@);
                let ghost rows = reported_rows(payload@, names);
                let mut ledger = Ledger::new();
                let mut i: usize = 0;
                assert(all.take(0) =~= Seq::empty());
                while i < apis.len()
                    invariant
                        i <= apis@.len(),
                        all == field_views(apis@),
                        names == naming(account_by_index@, anthropic@),
                        total_by(apis_rows(all, names), any_row()) <= u64::MAX,
                        ledger.holds(apis_rows(all.take(i as int), names)),
                    decreases apis@.len() - i,
                {
                    let ghost so_far = apis_rows(all.take(i as int), names);
                    proof {
                        assert(all.take(i + 1).drop_last() =~= all.take(i as int));
                        assert(all.take(i + 1).last() == all[i as int]);
                        lemma_apis_rows_grow(all, names, i + 1);
                    }
                    match field_object(&apis[i].1, "models") {
                        Some(models) => {
                            add_models(&mut ledger, models, account_by_index, anthropic, Ghost(so_far));
                        },
                        None => {
                            assert(so_far + models_rows(Seq::empty(), names) =~= so_far);
                        },
                    }
                    i = i + 1;
                }
                assert(all.take(i as int) =~= all);
                let reported: u64 = read_count(usage, "total_requests");
                let total: u64 = if reported > 0 {
                    reported
                } else {
                    ledger.total
                };
                Some(
                    UsageStats {
                        total_requests: total,
                        per_model: ledger.per_model,
                        per_provider: ledger.per_provider,
                        per_account: ledger.per_account,
                        by_request: ledger.by_request,
                    },
                )
            },
            None => None,
        },
        None => None,
    }
}

/// The requests to one model, in number.
fn count_model(raw: &str, snapshot: &Json, Ghost(names): Ghost<Naming>) -> (r: u64)
    ensures
        r == total_by(model_rows(raw@, snapshot@, names), any_row()),
{
    let ghost rows = model_rows(raw@, snapshot@, names);
    match field_array(snapshot, "details") {
        Some(details) => {
            let n: usize = details.len();
            if n > 0 {
                proof {
                    lemma_ones(rows);
                }
                return n as u64;
            }
        },
        None => {},
    }
    let requests: u64 = read_count(snapshot, "total_requests");
    proof {
        if requests > 0 {
            assert(rows.drop_last() =~= Seq::empty());
            assert(total_by(rows.drop_last(), any_row()) == 0);
            assert(rows.last().requests == requests);
        }
    }
    requests
}

/// As many requests as rows.
proof fn lemma_ones(rows: Seq<UsageRow>)
    requires
        forall|i: int| 0 <= i < rows.len() ==> (#[trigger] rows[i]).requests == 1,
    ensures
        total_by(rows, any_row()) == rows.len(),
    decreases rows.len(),
{
    if rows.len() > 0 {
        lemma_ones(rows.drop_last());
    }
}

/// The requests to the models of one API, in number, where it can be held.
fn count_models(
    models: &Vec<(String, Json)>,
    Ghost(names): Ghost<Naming>,
) -> (r: Option<u64>)
    ensures
        r matches Some(n) ==> n == total_by(models_rows(field_views(models@), names), any_row()),
        r is None ==> total_by(models_rows(field_views(models@), names), any_row()) > u64::MAX,
{
    let ghost all = field_views(models@);
    let mut sum: u64 = 0;
    let mut i: usize = 0;
    assert(all.take(0) =~= Seq::empty());
    while i < models.len()
        invariant
            i <= models@.len(),
            all == field_views(models@),
            sum == total_by(models_rows(all.take(i as int), names), any_row()),
        decreases models@.len() - i,
    {
        let n: u64 = count_model(models[i].0.as_str(), &models[i].1, Ghost(names));
        proof {
            assert(all.take(i + 1).drop_last() =~= all.take(i as int));
            assert(all.take(i + 1).last() == all[i as int]);
            lemma_total_add(
                models_rows(all.take(i as int), names),
                model_rows(all[i as int].0, all[i as int].1, names),
                any_row(),
            );
            lemma_models_rows_grow(all, names, i + 1);
        }
        match sum.checked_add(n) {
            Some(next) => {
                sum = next;
            },
            None => {
                return None;
            },
        }
        i = i + 1;
    }
    assert(all.take(i as int) =~= all);
    Some(sum)
}

/// The requests of a usage report can be counted.
pub fn usage_payload_fits(
    payload: &Json,
    account_by_index: &TextMap<String>,
    anthropic: &str,
) -> (r: bool)
    ensures
        r == (total_by(reported_rows(payload@, naming(account_by_index@, anthropic@)), any_row())
            <= u64::MAX),
{
    let ghost names = naming(account_by_index@, anthropic@);
    match payload.get("usage") {
        Some(usage) => match field_object(usage, "apis") {
            Some(apis) => {
                let ghost all = field_views(apis@);
                let mut sum: u64 = 0;
                let mut i: usize = 0;
                assert(all.take(0) =~= Seq::empty());
                while i < apis.len()
                    invariant
                        i <= apis@.len(),
                        all == field_views(apis@),
                        names == naming(account_by_index@, anthropic@),
                        reported_rows(payload@, names) == apis_rows(all, names),
                        sum == total_by(apis_rows(all.take(i as int), names), any_row()),
                    decreases apis@.len() - i,
                {
                    proof {
                        assert(all.take(i + 1).drop_last() =~= all.take(i as int));
                        assert(all.take(i + 1).last() == all[i as int]);
                        lemma_total_add(
                            apis_rows(all.take(i as int), names),
                            models_rows(api_models(all[i as int].1), names),
                            any_row(),
                        );
                        lemma_apis_rows_grow(all, names, i + 1);
                    }
                    match field_object(&apis[i].1, "models") {
                        Some(models) => match count_models(models, Ghost(names)) {
                            Some(n) => match sum.checked_add(n) {
                                Some(next) => {
                                    sum = next;
                                },
                                None => {
                                    return false;
                                },
                            },
                            None => {
                                return false;
                            },
                        },
                        None => {
                            assert(total_by(models_rows(Seq::empty(), names), any_row()) == 0);
                        },
                    }
                    i = i + 1;
                }
                assert(all.take(i as int) =~= all);
                true
            },
            None => true,
        },
        None => true,
    }
}

// ---------------------------------------------------------------------------
// Laws
// ---------------------------------------------------------------------------

/// A count is an integer from zero up, or a text that spells one, white space
/// around it aside; nothing else is.
pub proof fn counts_are_read(n: u64, s: Seq<char>, v: JsonView)
    ensures
        count_in(JsonView::Unsigned(n)) == Some(n),
        trimmed(s) == crate::numbers::decimal_text(n as nat) ==> count_in(JsonView::Text(s))
            == Some(n),
        u64_value(trimmed(s)) is None ==> count_in(JsonView::Text(s)) is None,
        !(v is Unsigned) && !(v is Text) ==> count_in(v) is None,
{
    crate::numbers::decimal_round_trip(n);
}

/// The provider of a model without one written into its name goes by how the
/// name begins, capitals aside: Anthropic's own name, `gpt`, `o1`, `o3`, `o4`
/// or `oai` for OpenAI, `gemini`, `qwen`, `kiro`; else it is unknown. One that
/// is written into the name goes before all that.
pub proof fn models_suggest_their_providers(
    p: Seq<char>,
    m: Seq<char>,
    model: Seq<char>,
    rest: Seq<char>,
    anthropic: Seq<char>,
)
    requires
        !p.contains('/'),
        forall|u: Seq<char>, v: Seq<char>|
            !u.contains('/') && model == #[trigger] (u + seq!['/'] + v) ==> trimmed(u).len() == 0
                || trimmed(v).len() == 0,
    ensures
        trimmed(p).len() > 0 && trimmed(m).len() > 0 ==> suggested_provider(
            p + seq!['/'] + m,
            anthropic,
        ) == trimmed(p),
        ({
            let lower = ascii_lower(model);
            let who = suggested_provider(model, anthropic);
            &&& lower == anthropic + rest ==> who == anthropic
            &&& !begins_with(lower, anthropic) ==> {
                &&& lower == "gpt"@ + rest || lower == "o1"@ + rest || lower == "o3"@ + rest
                    || lower == "o4"@ + rest || lower == "oai"@ + rest ==> who == "openai"@
                &&& lower == "gemini"@ + rest ==> who == "gemini"@
                &&& lower == "qwen"@ + rest ==> who == "qwen"@
                &&& lower == "kiro"@ + rest ==> who == "kiro"@
                &&& !begins_with(lower, "gpt"@) && !begins_with(lower, "o1"@) && !begins_with(
                    lower,
                    "o3"@,
                ) && !begins_with(lower, "o4"@) && !begins_with(lower, "oai"@) && !begins_with(
                    lower,
                    "gemini"@,
                ) && !begins_with(lower, "qwen"@) && !begins_with(lower, "kiro"@) ==> who
                    == "unknown"@
            }
        }),
{
    let lower = ascii_lower(model);
    crate::model_groups::names_are_read_at_the_first_slash(p, m);
    crate::text::slashes_are_split_at(model);
    crate::text::ends_are_found(lower, anthropic, rest);
    crate::text::ends_are_found(lower, "gpt"@, rest);
    crate::text::ends_are_found(lower, "o1"@, rest);
    crate::text::ends_are_found(lower, "o3"@, rest);
    crate::text::ends_are_found(lower, "o4"@, rest);
    crate::text::ends_are_found(lower, "oai"@, rest);
    crate::text::ends_are_found(lower, "gemini"@, rest);
    crate::text::ends_are_found(lower, "qwen"@, rest);
    crate::text::ends_are_found(lower, "kiro"@, rest);
    reveal_strlit("gpt");
    reveal_strlit("o1");
    reveal_strlit("o3");
    reveal_strlit("o4");
    reveal_strlit("oai");
    reveal_strlit("gemini");
    reveal_strlit("qwen");
    reveal_strlit("kiro");
    lemma_begins(lower, "gpt"@);
    lemma_begins(lower, "o1"@);
    lemma_begins(lower, "o3"@);
    lemma_begins(lower, "o4"@);
    lemma_begins(lower, "oai"@);
    lemma_begins(lower, "gemini"@);
    lemma_begins(lower, "qwen"@);
}

proof fn lemma_begins(s: Seq<char>, pat: Seq<char>)
    requires
        pat.len() >= 2,
    ensures
        begins_with(s, pat) ==> s.len() >= 2 && s[0] == pat[0] && s[1] == pat[1],
{
    if begins_with(s, pat) {
        assert(s.subrange(0, 0int + pat.len())[0] == s[0]);
        assert(s.subrange(0, 0int + pat.len())[1] == s[1]);
    }
}

/// The backend's index of an account stands in `auth_index`, else in
/// `authIndex`.
pub proof fn indices_are_read(v: JsonView, t: Seq<char>)
    ensures
        says(v, "auth_index"@, t) ==> auth_index(v) == Some(t),
        silent(v, "auth_index"@) && says(v, "authIndex"@, t) ==> auth_index(v) == Some(t),
        silent(v, "auth_index"@) && silent(v, "authIndex"@) ==> auth_index(v) is None,
{
    let keys = seq!["auth_index"@, "authIndex"@];
    the_first_field_that_speaks_is_picked(v, keys, 0, t);
    the_first_field_that_speaks_is_picked(v, keys, 1, t);
}

/// An account is called by its email address, else by `account`, `label`,
/// `name` or `id`, else by its index.
pub proof fn accounts_are_called_by_their_names(v: JsonView, index: Seq<char>, t: Seq<char>)
    ensures
        ({
            let n = account_name(v, index);
            let a = silent(v, "email"@);
            let b = a && silent(v, "account"@);
            let c = b && silent(v, "label"@);
            let d = c && silent(v, "name"@);
            &&& says(v, "email"@, t) ==> n == t
            &&& a && says(v, "account"@, t) ==> n == t
            &&& b && says(v, "label"@, t) ==> n == t
            &&& c && says(v, "name"@, t) ==> n == t
            &&& d && says(v, "id"@, t) ==> n == t
            &&& d && silent(v, "id"@) ==> n == index
        }),
{
    let keys = seq!["email"@, "account"@, "label"@, "name"@, "id"@];
    the_first_field_that_speaks_is_picked(v, keys, 0, t);
    the_first_field_that_speaks_is_picked(v, keys, 1, t);
    the_first_field_that_speaks_is_picked(v, keys, 2, t);
    the_first_field_that_speaks_is_picked(v, keys, 3, t);
    the_first_field_that_speaks_is_picked(v, keys, 4, t);
}

/// Each index is called by the last file that has it, and only indices that a
/// file has are called anything.
pub proof fn the_last_file_names_an_index(files: Seq<JsonView>, index: Seq<char>, i: int)
    ensures
        0 <= i < files.len() && auth_index(files[i]) == Some(index) && (forall|k: int|
            i < k < files.len() ==> auth_index(#[trigger] files[k]) != Some(index))
            ==> account_names(files).dom().contains(index) && account_names(files)[index]
            == account_name(files[i], index),
        (forall|k: int| 0 <= k < files.len() ==> auth_index(#[trigger] files[k]) != Some(index))
            ==> !account_names(files).dom().contains(index),
    decreases files.len(),
{
    if files.len() > 0 {
        let short = files.drop_last();
        the_last_file_names_an_index(short, index, i);
        assert forall|k: int| 0 <= k < short.len() implies #[trigger] short[k] == files[k] by {}
        assert(files.last() == files[files.len() - 1]);
        if 0 <= i && forall|k: int|
            i < k < files.len() ==> auth_index(#[trigger] files[k]) != Some(index) {
            assert forall|k: int| i < k < short.len() implies auth_index(#[trigger] short[k])
                != Some(index) by {
                assert(short[k] == files[k]);
            }
            if i < short.len() {
                assert(auth_index(files[files.len() - 1]) != Some(index));
            }
        }
        if forall|k: int| 0 <= k < files.len() ==> auth_index(#[trigger] files[k]) != Some(index) {
            assert forall|k: int| 0 <= k < short.len() implies auth_index(#[trigger] short[k])
                != Some(index) by {
                assert(short[k] == files[k]);
            }
        }
    }
}

/// A request is counted for the account of its index, by that account's name
/// where it has one, else by `auth:` and the index; without an index the
/// account is unknown.
pub proof fn requests_are_counted_for_their_account(
    detail: JsonView,
    index: Seq<char>,
    accounts: Map<Seq<char>, Seq<char>>,
)
    ensures
        auth_index(detail) == Some(index) && accounts.dom().contains(index) ==> request_account(
            detail,
            accounts,
        ) == accounts[index],
        auth_index(detail) == Some(index) && !accounts.dom().contains(index) ==> request_account(
            detail,
            accounts,
        ) == "auth:"@ + index,
        auth_index(detail) is None ==> request_account(detail, accounts) == "unknown"@,
{
}

/// A model that lists its requests under `details` has one row for each, of one
/// request; one that lists none has a single row with the number in
/// `total_requests`, of an unknown account, and none where that is zero. The
/// provider and the model are those in its name, else the suggested provider
/// and the whole name.
pub proof fn models_count_their_requests(
    raw: Seq<char>,
    snapshot: JsonView,
    names: Naming,
    details: Seq<JsonView>,
    n: u64,
)
    ensures
        ({
            let rows = model_rows(raw, snapshot, names);
            let listed = snapshot.get("details"@) == Some(JsonView::Array(details)) && details.len()
                > 0;
            let unlisted = snapshot.get("details"@) is None || !(snapshot.get("details"@)->0 is Array)
                || snapshot.get("details"@) == Some(JsonView::Array(Seq::empty()));
            let total = snapshot.get("total_requests"@);
            let of_model = |row: UsageRow|
                match provider_model(raw) {
                    Some((p, m)) => row.provider == p && row.model == m,
                    None => row.provider == suggested_provider(raw, names.anthropic) && row.model
                        == raw,
                };
            &&& forall|i: int| 0 <= i < rows.len() ==> of_model(#[trigger] rows[i])
            &&& listed ==> rows.len() == details.len() && forall|i: int|
                0 <= i < details.len() ==> (#[trigger] rows[i]).requests == 1 && rows[i].account
                    == request_account(details[i], names.accounts)
            &&& unlisted && n > 0 && total is Some && count_in(total->0) == Some(n) ==> rows.len()
                == 1 && rows[0].requests == n && rows[0].account == "unknown"@
            &&& unlisted && (total is None || count_in(total->0) is None || count_in(total->0)
                == Some(0u64)) ==> rows.len() == 0
        }),
{
}

/// All requests of all models of all APIs are counted: one model more adds its
/// rows behind the others, and so does one API more. An API without `models`
/// adds none.
pub proof fn every_model_of_every_api_is_counted(
    models: Seq<(Seq<char>, JsonView)>,
    raw: Seq<char>,
    snapshot: JsonView,
    apis: Seq<(Seq<char>, JsonView)>,
    key: Seq<char>,
    api: JsonView,
    names: Naming,
)
    ensures
        models_rows(Seq::empty(), names).len() == 0,
        models_rows(models.push((raw, snapshot)), names) == models_rows(models, names)
            + model_rows(raw, snapshot, names),
        apis_rows(Seq::empty(), names).len() == 0,
        api.get("models"@) == Some(JsonView::Object(models)) ==> apis_rows(
            apis.push((key, api)),
            names,
        ) == apis_rows(apis, names) + models_rows(models, names),
        api.get("models"@) is None || !(api.get("models"@)->0 is Object) ==> apis_rows(
            apis.push((key, api)),
            names,
        ) == apis_rows(apis, names),
{
    assert(models.push((raw, snapshot)).drop_last() =~= models);
    assert(apis.push((key, api)).drop_last() =~= apis);
    if api.get("models"@) is None || !(api.get("models"@)->0 is Object) {
        assert(models_rows(Seq::empty(), names) =~= Seq::<UsageRow>::empty());
        assert(apis_rows(apis, names) + Seq::<UsageRow>::empty() =~= apis_rows(apis, names));
    }
}

/// A report has its APIs under `usage` and there under `apis`; its total is the
/// number in `total_requests` under `usage`, or what the rows come to where
/// that is missing or zero.
pub proof fn reports_are_read(
    payload: JsonView,
    usage: JsonView,
    apis: Seq<(Seq<char>, JsonView)>,
    names: Naming,
    rows: Seq<UsageRow>,
    n: u64,
)
    ensures
        payload.get("usage"@) == Some(usage) && usage.get("apis"@) == Some(JsonView::Object(apis))
            ==> reported_apis(payload) == Some(apis) && reported_rows(payload, names) == apis_rows(
            apis,
            names,
        ),
        payload.get("usage"@) is None ==> reported_apis(payload) is None,
        payload.get("usage"@) == Some(usage) && (usage.get("apis"@) is None || !(usage.get(
            "apis"@,
        )->0 is Object)) ==> reported_apis(payload) is None,
        payload.get("usage"@) == Some(usage) && usage.get("total_requests"@) is Some && count_in(
            usage.get("total_requests"@)->0,
        ) == Some(n) && n > 0 ==> stated_total(payload, rows) == n,
        payload.get("usage"@) == Some(usage) && (usage.get("total_requests"@) is None || count_in(
            usage.get("total_requests"@)->0,
        ) is None || count_in(usage.get("total_requests"@)->0) == Some(0u64)) ==> stated_total(payload, rows) == total_by(
            rows,
            |r: UsageRow| true,
        ),
{
    crate::ledger::lemma_total_same(rows, |r: UsageRow| true, any_row());
}

/// Statistics that sum up some rows have the given total. Under the name of a
/// model, a provider or an account they count the requests of its rows, and
/// only names with requests are there; the rows of the statistics are what the
/// rows of each provider, model and account together come to.
pub proof fn statistics_count_their_rows(
    stats: UsageStats,
    rows: Seq<UsageRow>,
    total: nat,
    name: Seq<char>,
)
    requires
        sums_up(stats, rows, total),
        total_by(rows, |r: UsageRow| true) <= u64::MAX,
    ensures
        stats.total_requests == total,
        ({
            let n = total_by(rows, |r: UsageRow| r.model == name);
            &&& stats.per_model@.dom().contains(name) <==> n > 0
            &&& n > 0 ==> stats.per_model@[name] == n
        }),
        ({
            let n = total_by(rows, |r: UsageRow| r.provider == name);
            &&& stats.per_provider@.dom().contains(name) <==> n > 0
            &&& n > 0 ==> stats.per_provider@[name] == n
        }),
        ({
            let n = total_by(rows, |r: UsageRow| r.account == name);
            &&& stats.per_account@.dom().contains(name) <==> n > 0
            &&& n > 0 ==> stats.per_account@[name] == n
        }),
        row_sums(usage_rows(stats.by_request@), rows),
{
    crate::ledger::counts_are_those_of_the_rows(rows, name);
}

} // verus!
