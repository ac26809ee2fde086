//! The models that the proxy and its backend list.

use vstd::prelude::*;

use crate::json::{Json, JsonView};
#[allow(unused_imports)]
use crate::json::json_views;
use crate::model_groups::{split_provider_model};
#[allow(unused_imports)]
use crate::model_groups::{provider_model, target_text};
use crate::order::{row_le, stable_sort, Ranked};
use crate::text::{join3, text_eq, trim};
#[allow(unused_imports)]
use crate::text::{opt_pair_view, opt_view, trimmed};
use crate::types::{triple_at_most, ProxyModelInfo};

verus! {

// ---------------------------------------------------------------------------
// Models
// ---------------------------------------------------------------------------

/// The texts of a slice.
pub open spec fn key_texts(keys: Seq<&str>) -> Seq<Seq<char>> {
    Seq::new(keys.len(), |i: int| keys[i]@)
}

/// The text of the field `key`, without the white space around it, where
/// something is left.
pub open spec fn filled_text(v: JsonView, key: Seq<char>) -> Option<Seq<char>> {
    match v.text_field(key) {
        Some(s) => if trimmed(s).len() > 0 {
            Some(trimmed(s))
        } else {
            None
        },
        None => None,
    }
}

/// The text of the first of the fields that has one.
pub open spec fn picked_text(v: JsonView, keys: Seq<Seq<char>>) -> Option<Seq<char>>
    decreases keys.len(),
{
    if keys.len() == 0 {
        None
    } else if filled_text(v, keys[0]) is Some {
        filled_text(v, keys[0])
    } else {
        picked_text(v, keys.drop_first())
    }
}

/// A listed model.
pub struct ListedModel {
    pub provider: Seq<char>,
    pub model: Seq<char>,
    pub id: Seq<char>,
}

impl View for ProxyModelInfo {
    type V = ListedModel;

    open spec fn view(&self) -> ListedModel {
        ListedModel { provider: self.provider@, model: self.model@, id: self.id@ }
    }
}

/// The listed models, in their order.
pub open spec fn listed_views(s: Seq<ProxyModelInfo>) -> Seq<ListedModel> {
    Seq::new(s.len(), |i: int| s[i]@)
}

/// The model that a text stands for.
pub open spec fn listed_by_text(s: Seq<char>) -> Option<ListedModel> {
    let raw = trimmed(s);
    if raw.len() == 0 {
        None
    } else {
        match provider_model(raw) {
            Some((provider, model)) => Some(
                ListedModel { provider, model, id: target_text(provider, model) },
            ),
            None => Some(ListedModel { provider: "unknown"@, model: raw, id: raw }),
        }
    }
}

/// The identifier of a model: with its provider where that is known.
pub open spec fn listed_id(provider: Seq<char>, model: Seq<char>) -> Seq<char> {
    if provider == "unknown"@ {
        model
    } else {
        target_text(provider, model)
    }
}

/// The model that a value with fields stands for. The model is taken from its
/// own fields first, then from the identifier; so is the provider.
pub open spec fn listed_by_fields(v: JsonView) -> Option<ListedModel> {
    let id = picked_text(v, seq!["id"@, "model"@, "name"@]);
    let own_provider = picked_text(
        v,
        seq!["provider"@, "provider_id"@, "providerID"@, "owned_by"@, "ownedBy"@],
    );
    let own_model = picked_text(v, seq!["model"@, "model_id"@, "modelID"@]);
    let in_id = match id {
        Some(s) => provider_model(s),
        None => None,
    };
    let model = match own_model {
        Some(m) => Some(m),
        None => match in_id {
            Some((_, m)) => Some(m),
            None => id,
        },
    };
    let provider = match own_provider {
        Some(p) => p,
        None => match in_id {
            Some((p, _)) => p,
            None => "unknown"@,
        },
    };
    match model {
        Some(m) => Some(ListedModel { provider, model: m, id: listed_id(provider, m) }),
        None => None,
    }
}

/// The model that an entry stands for.
pub open spec fn listed_model(v: JsonView) -> Option<ListedModel> {
    match v.text() {
        Some(s) => listed_by_text(s),
        None => listed_by_fields(v),
    }
}

/// The models that the entries stand for, in order; entries that stand for
/// none are left out.
pub open spec fn listed_models(entries: Seq<JsonView>) -> Seq<ListedModel>
    decreases entries.len(),
{
    if entries.len() == 0 {
        Seq::empty()
    } else {
        match listed_model(entries.last()) {
            Some(m) => listed_models(entries.drop_last()).push(m),
            None => listed_models(entries.drop_last()),
        }
    }
}

/// The items of the array in the field `key`.
pub open spec fn array_field(v: JsonView, key: Seq<char>) -> Option<Seq<JsonView>> {
    match v.get(key) {
        Some(a) => a.items(),
        None => None,
    }
}

/// The entries of a list: under `data`, else under `models`, else the value's
/// own items.
pub open spec fn listed_entries(v: JsonView) -> Seq<JsonView> {
    match array_field(v, "data"@) {
        Some(items) => items,
        None => match array_field(v, "models"@) {
            Some(items) => items,
            None => match v.items() {
                Some(items) => items,
                None => Seq::empty(),
            },
        },
    }
}

/// The same model of the same provider.
pub open spec fn same_model(a: ListedModel, b: ListedModel) -> bool {
    a.provider == b.provider && a.model == b.model
}

/// `a` comes before `b` by provider and model.
pub open spec fn before(a: ListedModel, b: ListedModel) -> bool {
    !same_model(a, b) && row_le(seq![a.provider, a.model], seq![b.provider, b.model])
}

/// `out` lists each model of each provider in `all` once, by provider and
/// model, under the first of its identifiers.
pub open spec fn catalog_of(out: Seq<ListedModel>, all: Seq<ListedModel>) -> bool {
    &&& forall|i: int, j: int|
        #![trigger out[i], out[j]]
        0 <= i < j < out.len() ==> before(out[i], out[j])
    &&& forall|i: int| 0 <= i < out.len() ==> #[trigger] all.contains(out[i])
    &&& forall|j: int| 0 <= j < all.len() ==> #[trigger] covered(out, all[j])
}

/// One of `out` stands for `m`.
pub open spec fn covered(out: Seq<ListedModel>, m: ListedModel) -> bool {
    exists|i: int| 0 <= i < out.len() && stands_for(#[trigger] out[i], m)
}

/// `a` is the same model as `b`, under an identifier that does not come after.
pub open spec fn stands_for(a: ListedModel, b: ListedModel) -> bool {
    same_model(a, b) && crate::order::text_le(a.id, b.id)
}

/// Entries ranked by provider, model and identifier.
impl Ranked for ProxyModelInfo {
    open spec fn ranks_by(&self, other: &Self) -> bool {
        row_le(
            seq![self@.provider, self@.model, self@.id],
            seq![other@.provider, other@.model, other@.id],
        )
    }

    proof fn ranks_total(a: &Self, b: &Self) {
        crate::order::row_le_total(
            seq![a@.provider, a@.model, a@.id],
            seq![b@.provider, b@.model, b@.id],
        );
    }

    proof fn ranks_transitive(a: &Self, b: &Self, c: &Self) {
        crate::order::row_le_transitive(
            seq![a@.provider, a@.model, a@.id],
            seq![b@.provider, b@.model, b@.id],
            seq![c@.provider, c@.model, c@.id],
        );
    }

    fn at_most(&self, other: &Self) -> (r: bool) {
        triple_at_most(
            self.provider.as_str(),
            self.model.as_str(),
            self.id.as_str(),
            other.provider.as_str(),
            other.model.as_str(),
            other.id.as_str(),
        )
    }
}

// ---------------------------------------------------------------------------
// Lemmas
// ---------------------------------------------------------------------------

proof fn lemma_triples(a: ListedModel, b: ListedModel)
    requires
        row_le(seq![a.provider, a.model, a.id], seq![b.provider, b.model, b.id]),
    ensures
        row_le(seq![a.provider, a.model], seq![b.provider, b.model]),
        same_model(a, b) ==> stands_for(a, b),
{
    let x = seq![a.provider, a.model, a.id];
    let y = seq![b.provider, b.model, b.id];
    reveal_with_fuel(row_le, 4);
    assert(x.drop_first() =~= seq![a.model, a.id]);
    assert(y.drop_first() =~= seq![b.model, b.id]);
    assert(x.drop_first().drop_first() =~= seq![a.id]);
    assert(y.drop_first().drop_first() =~= seq![b.id]);
    assert(seq![a.provider, a.model].drop_first() =~= seq![a.model]);
    assert(seq![b.provider, b.model].drop_first() =~= seq![b.model]);
    assert(seq![a.model].drop_first() =~= Seq::empty());
    crate::order::text_le_total(a.id, b.id);
}

proof fn lemma_before_transitive(a: ListedModel, b: ListedModel, c: ListedModel)
    requires
        before(a, b),
        row_le(seq![b.provider, b.model], seq![c.provider, c.model]),
    ensures
        before(a, c),
{
    let x = seq![a.provider, a.model];
    let y = seq![b.provider, b.model];
    let z = seq![c.provider, c.model];
    crate::order::row_le_transitive(x, y, z);
    if same_model(a, c) {
        crate::order::row_le_total(x, y);
        assert(x[0] == y[0] && x[1] == y[1]);
    }
}

/// The list of models is unique: two lists of the same entries are equal.
pub proof fn catalog_is_unique(a: Seq<ListedModel>, b: Seq<ListedModel>, all: Seq<ListedModel>)
    requires
        catalog_of(a, all),
        catalog_of(b, all),
    ensures
        a == b,
{
    lemma_catalog_prefix(a, b, all, a.len() as int);
    lemma_catalog_prefix(b, a, all, b.len() as int);
    assert(a =~= b);
}

/// The first `n` entries of one list are those of the other.
proof fn lemma_catalog_prefix(
    a: Seq<ListedModel>,
    b: Seq<ListedModel>,
    all: Seq<ListedModel>,
    n: int,
)
    requires
        catalog_of(a, all),
        catalog_of(b, all),
        0 <= n <= a.len(),
    ensures
        n <= b.len(),
        forall|i: int| 0 <= i < n ==> a[i] == b[i],
    decreases n,
{
    if n > 0 {
        lemma_catalog_prefix(a, b, all, n - 1);
        let i = n - 1;
        let j = lemma_counterpart(a, b, all, i);
        if j < i {
            assert(before(a[j], a[i]));
            assert(false);
        }
        if j > i {
            let k = lemma_counterpart(b, a, all, i);
            assert(before(b[i], b[j]));
            if k < i {
                assert(before(b[k], b[i]));
            } else if k > i {
                assert(before(a[i], a[k]));
                lemma_before_asymmetric(b[i], b[j]);
            }
            assert(false);
        }
    }
}

proof fn lemma_before_asymmetric(a: ListedModel, b: ListedModel)
    requires
        before(a, b),
    ensures
        !before(b, a),
{
    crate::order::row_le_total(seq![a.provider, a.model], seq![b.provider, b.model]);
    if before(b, a) {
        assert(seq![a.provider, a.model][0] == seq![b.provider, b.model][0]);
        assert(seq![a.provider, a.model][1] == seq![b.provider, b.model][1]);
    }
}

/// Each entry of one list is an entry of the other.
proof fn lemma_counterpart(
    a: Seq<ListedModel>,
    b: Seq<ListedModel>,
    all: Seq<ListedModel>,
    i: int,
) -> (j: int)
    requires
        catalog_of(a, all),
        catalog_of(b, all),
        0 <= i < a.len(),
    ensures
        0 <= j < b.len(),
        b[j] == a[i],
{
    assert(all.contains(a[i]));
    let p = choose|p: int| 0 <= p < all.len() && all[p] == a[i];
    assert(covered(b, all[p]));
    let j = choose|j: int| 0 <= j < b.len() && stands_for(#[trigger] b[j], all[p]);
    assert(all.contains(b[j]));
    let q = choose|q: int| 0 <= q < all.len() && all[q] == b[j];
    assert(covered(a, all[q]));
    let k = choose|k: int| 0 <= k < a.len() && stands_for(#[trigger] a[k], all[q]);
    if k < i {
        assert(before(a[k], a[i]));
    }
    if i < k {
        assert(before(a[i], a[k]));
    }
    crate::order::text_le_total(a[i].id, b[j].id);
    j
}

// ---------------------------------------------------------------------------
// Operations
// ---------------------------------------------------------------------------

/// The text of the first of the fields that has one, without the white space
/// around it.
pub fn pick_str(value: &Json, keys: &[&str]) -> (r: Option<String>)
    ensures
        opt_view(r) == picked_text(value@, key_texts(keys@)),
{
    let ghost all = key_texts(keys@);
    let mut i: usize = 0;
    assert(all.skip(0) =~= all);
    while i < keys.len()
        invariant
            i <= keys@.len(),
            all == key_texts(keys@),
            picked_text(value@, all) == picked_text(value@, all.skip(i as int)),
        decreases keys@.len() - i,
    {
        assert(all.skip(i as int).drop_first() =~= all.skip(i + 1));
        assert(all.skip(i as int)[0] == keys@[i as int]@);
        match value.text_field(keys[i]) {
            Some(s) => {
                let t = trim(s.as_str());
                if !t.as_str().is_empty() {
                    return Some(t);
                }
            },
            None => {},
        }
        i = i + 1;
    }
    None
}

/// The provider and the model in `provider/model`.
pub fn parse_provider_model_id(raw: &str) -> (r: Option<(String, String)>)
    ensures
        opt_pair_view(r) == provider_model(raw@),
{
    split_provider_model(raw)
}

/// The model that an entry stands for.
pub fn parse_proxy_model_entry(entry: &Json) -> (r: Option<ProxyModelInfo>)
    ensures
        r matches Some(m) ==> listed_model(entry@) == Some(m@),
        r is None ==> listed_model(entry@) is None,
{
    match entry.as_text() {
        Some(s) => {
            let raw = trim(s.as_str());
            if raw.as_str().is_empty() {
                return None;
            }
            return match parse_provider_model_id(raw.as_str()) {
                Some((provider, model)) => Some(
                    ProxyModelInfo {
                        id: join3(provider.as_str(), "/", model.as_str()),
                        provider,
                        model,
                    },
                ),
                None => Some(
                    ProxyModelInfo { id: raw.clone(), provider: "unknown".to_owned(), model: raw },
                ),
            };
        },
        None => {},
    }
    let id_keys = ["id", "model", "name"];
    let provider_keys = ["provider", "provider_id", "providerID", "owned_by", "ownedBy"];
    let model_keys = ["model", "model_id", "modelID"];
    proof {
        assert(key_texts(id_keys@) =~= seq!["id"@, "model"@, "name"@]);
        assert(key_texts(provider_keys@) =~= seq![
            "provider"@,
            "provider_id"@,
            "providerID"@,
            "owned_by"@,
            "ownedBy"@,
        ]);
        assert(key_texts(model_keys@) =~= seq!["model"@, "model_id"@, "modelID"@]);
    }
    let id = pick_str(entry, &id_keys);
    let own_provider = pick_str(entry, &provider_keys);
    let own_model = pick_str(entry, &model_keys);
    let mut provider: Option<String> = None;
    let mut model: Option<String> = None;
    match id {
        Some(s) => match parse_provider_model_id(s.as_str()) {
            Some((p, m)) => {
                provider = Some(p);
                model = Some(m);
            },
            None => {
                model = Some(s);
            },
        },
        None => {},
    }
    if own_provider.is_some() {
        provider = own_provider;
    }
    if own_model.is_some() {
        model = own_model;
    }
    match model {
        Some(m) => {
            let p = match provider {
                Some(p) => p,
                None => "unknown".to_owned(),
            };
            let full = if text_eq(p.as_str(), "unknown") {
                m.clone()
            } else {
                join3(p.as_str(), "/", m.as_str())
            };
            Some(ProxyModelInfo { provider: p, model: m, id: full })
        },
        None => None,
    }
}

/// The models that the entries stand for, in order.
fn parse_entries(entries: &Vec<Json>) -> (r: Vec<ProxyModelInfo>)
    ensures
        listed_views(r@) == listed_models(json_views(entries@)),
{
    let ghost all = json_views(entries@);
    let mut out: Vec<ProxyModelInfo> = Vec::new();
    let mut i: usize = 0;
    assert(listed_views(out@) =~= listed_models(all.take(0)));
    while i < entries.len()
        invariant
            i <= entries@.len(),
            all == json_views(entries@),
            listed_views(out@) == listed_models(all.take(i as int)),
        decreases entries@.len() - i,
    {
        assert(all.take(i + 1).drop_last() =~= all.take(i as int));
        assert(all.take(i + 1).last() == entries@[i as int]@);
        match parse_proxy_model_entry(&entries[i]) {
            Some(m) => {
                let ghost so_far = out@;
                out.push(m);
                assert(listed_views(out@) =~= listed_views(so_far).push(m@));
            },
            None => {},
        }
        i = i + 1;
    }
    assert(all.take(i as int) =~= all);
    out
}

/// The models of a list, each model of each provider once, ordered by provider
/// and model.
pub fn parse_proxy_models_payload(payload: &Json) -> (r: Vec<ProxyModelInfo>)
    ensures
        catalog_of(listed_views(r@), listed_models(listed_entries(payload@))),
{
    let entries: Option<&Vec<Json>> = match field_array(payload, "data") {
        Some(items) => Some(items),
        None => match field_array(payload, "models") {
            Some(items) => Some(items),
            None => payload.as_array(),
        },
    };
    let found: Vec<ProxyModelInfo> = match entries {
        Some(items) => parse_entries(items),
        None => Vec::new(),
    };
    let ghost all = listed_models(listed_entries(payload@));
    assert(listed_views(found@) =~= all);
    let ghost unsorted = found@;
    let sorted = stable_sort(found);
    let ghost sv = listed_views(sorted@);
    let mut out: Vec<ProxyModelInfo> = Vec::new();
    let mut i: usize = 0;
    while i < sorted.len()
        invariant
            i <= sorted@.len(),
            sv == listed_views(sorted@),
            crate::order::ranked(sorted@),
            catalog_of(listed_views(out@), sv.take(i as int)),
            i > 0 ==> out@.len() > 0 && same_model(out@.last()@, sv[i - 1]),
        decreases sorted@.len() - i,
    {
        let item = &sorted[i];
        let n: usize = out.len();
        let repeated = n > 0 && text_eq(out[n - 1].provider.as_str(), item.provider.as_str())
            && text_eq(out[n - 1].model.as_str(), item.model.as_str());
        let ghost so_far = out@;
        if !repeated {
            out.push(
                ProxyModelInfo {
                    provider: item.provider.clone(),
                    model: item.model.clone(),
                    id: item.id.clone(),
                },
            );
        }
        proof {
            lemma_add_to_catalog(sorted@, i as int, listed_views(so_far));
            if repeated {
                assert(listed_views(so_far).last() == so_far.last()@);
            } else {
                assert(listed_views(out@) =~= listed_views(so_far).push(item@));
                assert(n > 0 ==> listed_views(so_far).last() == so_far.last()@);
            }
        }
        i = i + 1;
    }
    proof {
        assert(sv.take(i as int) =~= sv);
        lemma_same_entries(sorted@, unsorted, listed_views(out@));
        assert(listed_views(unsorted) =~= all);
    }
    out
}

proof fn lemma_add_to_catalog(sorted: Seq<ProxyModelInfo>, i: int, out: Seq<ListedModel>)
    requires
        0 <= i < sorted.len(),
        crate::order::ranked(sorted),
        catalog_of(out, listed_views(sorted).take(i)),
        i > 0 ==> out.len() > 0 && same_model(out.last(), listed_views(sorted)[i - 1]),
    ensures
        out.len() > 0 && same_model(out.last(), sorted[i]@) ==> catalog_of(
            out,
            listed_views(sorted).take(i + 1),
        ),
        !(out.len() > 0 && same_model(out.last(), sorted[i]@)) ==> catalog_of(
            out.push(sorted[i]@),
            listed_views(sorted).take(i + 1),
        ),
{
    let sv = listed_views(sorted);
    let old_all = sv.take(i);
    let new_all = sv.take(i + 1);
    let x = sv[i];
    assert forall|k: int| 0 <= k < out.len() implies #[trigger] new_all.contains(out[k]) by {
        assert(old_all.contains(out[k]));
        let j = choose|j: int| 0 <= j < old_all.len() && old_all[j] == out[k];
        assert(new_all[j] == out[k]);
    }
    assert forall|k: int| 0 <= k < out.len() implies row_le(
        seq![(#[trigger] out[k]).provider, out[k].model],
        seq![x.provider, x.model],
    ) && (same_model(out[k], x) ==> stands_for(out[k], x)) by {
        assert(old_all.contains(out[k]));
        let j = choose|j: int| 0 <= j < old_all.len() && old_all[j] == out[k];
        assert(sorted[j].ranks_by(&sorted[i]));
        lemma_triples(sv[j], x);
    }
    if out.len() > 0 && same_model(out.last(), x) {
        assert forall|j: int| 0 <= j < new_all.len() implies #[trigger] covered(
            out,
            new_all[j],
        ) by {
            if j < i {
                assert(covered(out, old_all[j]));
            } else {
                assert(stands_for(out[out.len() - 1], new_all[j]));
            }
        }
    } else {
        let next = out.push(x);
        assert(new_all[i] == x);
        assert forall|k: int| 0 <= k < next.len() implies #[trigger] new_all.contains(next[k]) by {
            if k < out.len() {
                assert(new_all.contains(out[k]));
            }
        }
        assert forall|a: int, b: int|
            #![trigger next[a], next[b]]
            0 <= a < b < next.len() implies before(next[a], next[b]) by {
            if b < out.len() {
                assert(before(out[a], out[b]));
            } else {
                let last = out.last();
                assert(row_le(
                    seq![out[out.len() - 1].provider, out[out.len() - 1].model],
                    seq![x.provider, x.model],
                ));
                if a < out.len() - 1 {
                    assert(before(out[a], out[out.len() - 1]));
                    lemma_before_transitive(out[a], last, x);
                }
            }
        }
        assert forall|j: int| 0 <= j < new_all.len() implies #[trigger] covered(
            next,
            new_all[j],
        ) by {
            if j < i {
                assert(covered(out, old_all[j]));
                let k = choose|k: int|
                    0 <= k < out.len() && stands_for(#[trigger] out[k], old_all[j]);
                assert(next[k] == out[k]);
            } else {
                crate::order::text_le_total(x.id, x.id);
                assert(stands_for(next[out.len() as int], new_all[j]));
            }
        }
    }
}

proof fn lemma_same_entries(
    sorted: Seq<ProxyModelInfo>,
    unsorted: Seq<ProxyModelInfo>,
    out: Seq<ListedModel>,
)
    requires
        crate::order::sorted_from(sorted, unsorted),
        catalog_of(out, listed_views(sorted)),
    ensures
        catalog_of(out, listed_views(unsorted)),
{
    let sv = listed_views(sorted);
    let uv = listed_views(unsorted);
    assert forall|k: int| 0 <= k < out.len() implies #[trigger] uv.contains(out[k]) by {
        assert(sv.contains(out[k]));
        let j = choose|j: int| 0 <= j < sv.len() && sv[j] == out[k];
        assert(sorted.contains(sorted[j]));
        crate::order::sorted_has_the_same_items(sorted, unsorted, sorted[j]);
        let p = choose|p: int| 0 <= p < unsorted.len() && unsorted[p] == sorted[j];
        assert(uv[p] == out[k]);
    }
    assert forall|j: int| 0 <= j < uv.len() implies #[trigger] covered(out, uv[j]) by {
        assert(unsorted.contains(unsorted[j]));
        crate::order::sorted_has_the_same_items(sorted, unsorted, unsorted[j]);
        let p = choose|p: int| 0 <= p < sorted.len() && sorted[p] == unsorted[j];
        assert(covered(out, sv[p]));
    }
}

/// The items of the array in the field `key`.
pub fn field_array<'a>(value: &'a Json, key: &str) -> (r: Option<&'a Vec<Json>>)
    ensures
        r matches Some(items) ==> array_field(value@, key@) == Some(json_views(items@)),
        r is None ==> array_field(value@, key@) is None,
{
    match value.get(key) {
        Some(v) => v.as_array(),
        None => None,
    }
}

// ---------------------------------------------------------------------------
// Laws
// ---------------------------------------------------------------------------

/// The field has a text that is not blank; it is taken without the white space
/// around it.
pub open spec fn says(v: JsonView, key: Seq<char>, t: Seq<char>) -> bool {
    v.get(key) matches Some(JsonView::Text(s)) && trimmed(s) == t && t.len() > 0
}

/// The field says nothing: it is missing, no text, or blank.
pub open spec fn silent(v: JsonView, key: Seq<char>) -> bool {
    v.get(key) matches Some(JsonView::Text(s)) ==> trimmed(s).len() == 0
}

/// Of some fields the first that says something is picked, and none exactly if
/// all of them are silent.
pub proof fn the_first_field_that_speaks_is_picked(
    v: JsonView,
    keys: Seq<Seq<char>>,
    i: int,
    t: Seq<char>,
)
    ensures
        0 <= i < keys.len() && says(v, keys[i], t) && (forall|k: int|
            0 <= k < i ==> silent(v, #[trigger] keys[k])) ==> picked_text(v, keys) == Some(t),
        (forall|k: int| 0 <= k < keys.len() ==> silent(v, #[trigger] keys[k])) ==> picked_text(
            v,
            keys,
        ) is None,
    decreases keys.len(),
{
    if keys.len() > 0 {
        let rest = keys.drop_first();
        the_first_field_that_speaks_is_picked(v, rest, i - 1, t);
        if 0 < i < keys.len() {
            assert(rest[i - 1] == keys[i]);
        }
        if forall|k: int| 0 <= k < i ==> silent(v, #[trigger] keys[k]) {
            assert forall|k: int| 0 <= k < i - 1 && k < rest.len() implies silent(
                v,
                #[trigger] rest[k],
            ) by {
                assert(rest[k] == keys[k + 1]);
            }
            if i > 0 {
                assert(silent(v, keys[0]));
            }
        }
        if forall|k: int| 0 <= k < keys.len() ==> silent(v, #[trigger] keys[k]) {
            assert(silent(v, keys[0]));
            assert forall|k: int| 0 <= k < rest.len() implies silent(v, #[trigger] rest[k]) by {
                assert(rest[k] == keys[k + 1]);
            }
        }
    }
}

/// A model listed by a text: `provider/model` names both, any other name is a
/// model of an unknown provider, and a blank one is none.
pub proof fn texts_list_models(s: Seq<char>, p: Seq<char>, m: Seq<char>)
    requires
        !p.contains('/'),
    ensures
        trimmed(s) == p + seq!['/'] + m && trimmed(p).len() > 0 && trimmed(m).len() > 0
            ==> listed_model(JsonView::Text(s)) == Some(
            ListedModel {
                provider: trimmed(p),
                model: trimmed(m),
                id: trimmed(p) + seq!['/'] + trimmed(m),
            },
        ),
        trimmed(s).len() > 0 && !trimmed(s).contains('/') ==> listed_model(JsonView::Text(s))
            == Some(ListedModel { provider: "unknown"@, model: trimmed(s), id: trimmed(s) }),
        trimmed(s) == p + seq!['/'] + m && (trimmed(p).len() == 0 || trimmed(m).len() == 0)
            ==> listed_model(JsonView::Text(s)) == Some(
            ListedModel { provider: "unknown"@, model: trimmed(s), id: trimmed(s) },
        ),
        trimmed(s).len() == 0 ==> listed_model(JsonView::Text(s)) is None,
{
    reveal_strlit("/");
    assert("/"@ =~= seq!['/']);
    crate::model_groups::names_are_read_at_the_first_slash(p, m);
    if !trimmed(s).contains('/') {
        crate::model_groups::names_are_read_at_the_first_slash(trimmed(s), m);
    }
}

/// The identifier of an entry is the first that speaks of `id`, `model` and
/// `name`.
pub proof fn identifiers_are_picked(v: JsonView, t: Seq<char>)
    ensures
        ({
            let id = picked_text(v, seq!["id"@, "model"@, "name"@]);
            &&& says(v, "id"@, t) ==> id == Some(t)
            &&& silent(v, "id"@) && says(v, "model"@, t) ==> id == Some(t)
            &&& silent(v, "id"@) && silent(v, "model"@) && says(v, "name"@, t) ==> id == Some(t)
            &&& silent(v, "id"@) && silent(v, "model"@) && silent(v, "name"@) ==> id is None
        }),
{
    let keys = seq!["id"@, "model"@, "name"@];
    the_first_field_that_speaks_is_picked(v, keys, 0, t);
    the_first_field_that_speaks_is_picked(v, keys, 1, t);
    the_first_field_that_speaks_is_picked(v, keys, 2, t);
}

/// An entry with fields names its provider by the first that speaks of
/// `provider`, `provider_id`, `providerID`, `owned_by` and `ownedBy`.
pub proof fn entries_name_their_provider(v: JsonView, t: Seq<char>)
    requires
        !(v is Text),
        listed_model(v) is Some,
    ensures
        ({
            let p = listed_model(v)->0.provider;
            let a = silent(v, "provider"@);
            let b = a && silent(v, "provider_id"@);
            let c = b && silent(v, "providerID"@);
            let d = c && silent(v, "owned_by"@);
            &&& says(v, "provider"@, t) ==> p == t
            &&& a && says(v, "provider_id"@, t) ==> p == t
            &&& b && says(v, "providerID"@, t) ==> p == t
            &&& c && says(v, "owned_by"@, t) ==> p == t
            &&& d && says(v, "ownedBy"@, t) ==> p == t
        }),
{
    let keys = seq!["provider"@, "provider_id"@, "providerID"@, "owned_by"@, "ownedBy"@];
    the_first_field_that_speaks_is_picked(v, keys, 0, t);
    the_first_field_that_speaks_is_picked(v, keys, 1, t);
    the_first_field_that_speaks_is_picked(v, keys, 2, t);
    the_first_field_that_speaks_is_picked(v, keys, 3, t);
    the_first_field_that_speaks_is_picked(v, keys, 4, t);
}

/// An entry names its model by the first that speaks of `model`, `model_id` and
/// `modelID`.
pub proof fn entries_name_their_model(v: JsonView, t: Seq<char>)
    requires
        !(v is Text),
    ensures
        ({
            let m = listed_model(v);
            let a = silent(v, "model"@);
            let b = a && silent(v, "model_id"@);
            &&& says(v, "model"@, t) ==> (m matches Some(l) && l.model == t)
            &&& a && says(v, "model_id"@, t) ==> (m matches Some(l) && l.model == t)
            &&& b && says(v, "modelID"@, t) ==> (m matches Some(l) && l.model == t)
        }),
{
    let keys = seq!["model"@, "model_id"@, "modelID"@];
    the_first_field_that_speaks_is_picked(v, keys, 0, t);
    the_first_field_that_speaks_is_picked(v, keys, 1, t);
    the_first_field_that_speaks_is_picked(v, keys, 2, t);
}

/// Where an entry names no model of its own, the one in its identifier counts:
/// `provider/model` names both, unless the entry names a provider itself; any
/// other identifier is the model, of an unknown provider unless one is named.
/// An entry without any of them lists nothing. Listed models are identified
/// with their provider unless that is unknown.
pub proof fn identifiers_stand_in(v: JsonView, id: Seq<char>, p: Seq<char>, m: Seq<char>)
    requires
        !(v is Text),
        !p.contains('/'),
        silent(v, "model"@),
        silent(v, "model_id"@),
        silent(v, "modelID"@),
    ensures
        ({
            let l = listed_model(v);
            let unnamed = silent(v, "provider"@) && silent(v, "provider_id"@) && silent(
                v,
                "providerID"@,
            ) && silent(v, "owned_by"@) && silent(v, "ownedBy"@);
            &&& says(v, "id"@, id) && id == p + seq!['/'] + m && trimmed(p).len() > 0 && trimmed(
                m,
            ).len() > 0 ==> (l matches Some(x) && x.model == trimmed(m) && (unnamed ==> x.provider
                == trimmed(p)))
            &&& says(v, "id"@, id) && !id.contains('/') ==> (l matches Some(x) && x.model == id
                && (unnamed ==> x.provider == "unknown"@))
            &&& silent(v, "id"@) && says(v, "name"@, id) && !id.contains('/') ==> (l matches Some(x)
                && x.model == id)
            &&& silent(v, "id"@) && silent(v, "name"@) ==> l is None
        }),
{
    identifiers_are_picked(v, id);
    the_first_field_that_speaks_is_picked(v, seq!["model"@, "model_id"@, "modelID"@], 0, id);
    the_first_field_that_speaks_is_picked(
        v,
        seq!["provider"@, "provider_id"@, "providerID"@, "owned_by"@, "ownedBy"@],
        0,
        id,
    );
    crate::model_groups::names_are_read_at_the_first_slash(p, m);
    if !id.contains('/') {
        crate::model_groups::names_are_read_at_the_first_slash(id, m);
    }
}

/// A listed model is identified as `provider/model`, or by its model alone
/// where the provider is unknown.
pub proof fn listed_models_are_identified(v: JsonView)
    requires
        !(v is Text),
        listed_model(v) is Some,
    ensures
        ({
            let l = listed_model(v)->0;
            &&& l.provider == "unknown"@ ==> l.id == l.model
            &&& l.provider != "unknown"@ ==> l.id == l.provider + seq!['/'] + l.model
        }),
{
    reveal_strlit("/");
    assert("/"@ =~= seq!['/']);
}

/// The entries of a list stand under `data`, else under `models`, else in the
/// value itself.
pub proof fn entries_are_found(v: JsonView, items: Seq<JsonView>)
    ensures
        v.get("data"@) == Some(JsonView::Array(items)) ==> listed_entries(v) == items,
        (v.get("data"@) is None || !(v.get("data"@)->0 is Array)) && v.get("models"@) == Some(
            JsonView::Array(items),
        ) ==> listed_entries(v) == items,
        v == JsonView::Array(items) ==> listed_entries(v) == items,
        (v.get("data"@) is None || !(v.get("data"@)->0 is Array)) && (v.get("models"@) is None || !(
        v.get("models"@)->0 is Array)) && !(v is Array) ==> listed_entries(v).len() == 0,
{
}

/// Every entry that stands for a model is listed, and nothing else is; the
/// models come in the order of their entries.
pub proof fn every_entry_is_listed(entries: Seq<JsonView>, more: JsonView)
    ensures
        listed_models(Seq::empty()).len() == 0,
        listed_model(more) matches Some(m) ==> listed_models(entries.push(more)) == listed_models(
            entries,
        ).push(m),
        listed_model(more) is None ==> listed_models(entries.push(more)) == listed_models(entries),
{
    assert(entries.push(more).drop_last() =~= entries);
}

/// The catalogue: no two of the models have the same provider and name, they
/// come by provider and then by name, each of them was listed, and each model
/// that was listed is there, under the identifier that comes first.
pub proof fn the_catalogue_lists_each_model_once(
    out: Seq<ListedModel>,
    all: Seq<ListedModel>,
    i: int,
    j: int,
    k: int,
)
    requires
        catalog_of(out, all),
    ensures
        0 <= i < j < out.len() ==> {
            &&& !(out[i].provider == out[j].provider && out[i].model == out[j].model)
            &&& crate::order::text_le(out[i].provider, out[j].provider)
            &&& out[i].provider == out[j].provider ==> crate::order::text_le(
                out[i].model,
                out[j].model,
            )
        },
        0 <= i < out.len() ==> exists|n: int| 0 <= n < all.len() && #[trigger] all[n] == out[i],
        0 <= k < all.len() ==> exists|n: int|
            0 <= n < out.len() && (#[trigger] out[n]).provider == all[k].provider && out[n].model
                == all[k].model && crate::order::text_le(out[n].id, all[k].id),
{
    if 0 <= i < j < out.len() {
        let a = out[i];
        let b = out[j];
        assert(before(a, b));
        let x = seq![a.provider, a.model];
        let y = seq![b.provider, b.model];
        assert(x.drop_first() =~= seq![a.model]);
        assert(y.drop_first() =~= seq![b.model]);
        assert(x[0] == a.provider && y[0] == b.provider);
        crate::order::text_le_total(a.provider, b.provider);
        crate::order::text_le_total(a.model, b.model);
        reveal_with_fuel(row_le, 3);
    }
    if 0 <= i < out.len() {
        assert(all.contains(out[i]));
    }
    if 0 <= k < all.len() {
        assert(covered(out, all[k]));
    }
}

/// Listed models stand by the name of their provider, those of one provider by
/// the name of the model, and those of one name by their identifier.
pub proof fn listed_models_stand_by_provider_and_model(a: ProxyModelInfo, b: ProxyModelInfo)
    ensures
        a@.provider != b@.provider ==> (a.ranks_by(&b) <==> crate::order::text_le(
            a@.provider,
            b@.provider,
        )),
        a@.provider == b@.provider && a@.model != b@.model ==> (a.ranks_by(&b)
            <==> crate::order::text_le(a@.model, b@.model)),
        a@.provider == b@.provider && a@.model == b@.model ==> (a.ranks_by(&b)
            <==> crate::order::text_le(a@.id, b@.id)),
{
    reveal_with_fuel(row_le, 4);
    let x = seq![a@.provider, a@.model, a@.id];
    let y = seq![b@.provider, b@.model, b@.id];
    assert(x.drop_first() =~= seq![a@.model, a@.id]);
    assert(y.drop_first() =~= seq![b@.model, b@.id]);
    assert(x.drop_first().drop_first() =~= seq![a@.id]);
    assert(y.drop_first().drop_first() =~= seq![b@.id]);
    assert(x.drop_first().drop_first().drop_first() =~= Seq::empty());
    crate::order::text_le_total(a@.id, a@.id);
}

/// What an entry with fields does not name itself is taken from its identifier,
/// the first that speaks of `id`, `model` and `name`: the provider and the model
/// where that is `provider/model`; otherwise the provider is unknown and the
/// identifier is the model.
pub proof fn identifiers_say_the_rest(v: JsonView, id: Seq<char>, p: Seq<char>, m: Seq<char>)
    requires
        !(v is Text),
        !p.contains('/'),
    ensures
        ({
            let l = listed_model(v);
            let named = picked_text(v, seq!["id"@, "model"@, "name"@]);
            let provider = picked_text(
                v,
                seq!["provider"@, "provider_id"@, "providerID"@, "owned_by"@, "ownedBy"@],
            );
            let model = picked_text(v, seq!["model"@, "model_id"@, "modelID"@]);
            let both = named == Some(id) && id == p + seq!['/'] + m && trimmed(p).len() > 0
                && trimmed(m).len() > 0;
            let plain = named == Some(id) && (!id.contains('/') || (id == p + seq!['/'] + m && (
            trimmed(p).len() == 0 || trimmed(m).len() == 0)));
            &&& model is None && named is None ==> l is None
            &&& model is Some || named is Some ==> l is Some
            &&& l is Some && provider is Some ==> l->0.provider == provider->0
            &&& l is Some && model is Some ==> l->0.model == model->0
            &&& both && provider is None ==> l->0.provider == trimmed(p)
            &&& both && model is None ==> l->0.model == trimmed(m)
            &&& plain && provider is None ==> l->0.provider == "unknown"@
            &&& plain && model is None ==> l->0.model == id
            &&& l is Some && named is None && provider is None ==> l->0.provider == "unknown"@
        }),
{
    crate::model_groups::names_are_read_at_the_first_slash(p, m);
    if !id.contains('/') {
        crate::model_groups::names_are_read_at_the_first_slash(id, m);
    }
}

} // verus!
