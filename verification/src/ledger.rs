//! Sums of usage rows by model, provider, account and by all three.

use vstd::prelude::*;

use crate::maps::{count_of, TextMap};
use crate::order::row_le;
use crate::text::text_eq;
use crate::types::{triple_at_most, UsageRequestSummary, UsageRow};
#[allow(unused_imports)]
use crate::types::usage_rows;

verus! {

// ---------------------------------------------------------------------------
// Models
// ---------------------------------------------------------------------------

/// The requests of the rows that `pred` holds of.
pub open spec fn total_by(rows: Seq<UsageRow>, pred: spec_fn(UsageRow) -> bool) -> nat
    decreases rows.len(),
{
    if rows.len() == 0 {
        0
    } else {
        total_by(rows.drop_last(), pred) + if pred(rows.last()) {
            rows.last().requests
        } else {
            0
        }
    }
}

pub open spec fn any_row() -> spec_fn(UsageRow) -> bool {
    |r: UsageRow| true
}

pub open spec fn of_model(model: Seq<char>) -> spec_fn(UsageRow) -> bool {
    |r: UsageRow| r.model == model
}

pub open spec fn of_provider(provider: Seq<char>) -> spec_fn(UsageRow) -> bool {
    |r: UsageRow| r.provider == provider
}

pub open spec fn of_account(account: Seq<char>) -> spec_fn(UsageRow) -> bool {
    |r: UsageRow| r.account == account
}

/// Rows of one provider, model and account.
pub open spec fn of_key(key: Seq<Seq<char>>) -> spec_fn(UsageRow) -> bool {
    |r: UsageRow| r.key() == key
}

/// The map that holds a count for each name with requests, and no other.
pub open spec fn sums(
    rows: Seq<UsageRow>,
    of: spec_fn(Seq<char>) -> spec_fn(UsageRow) -> bool,
) -> Map<Seq<char>, u64> {
    Map::new(
        |k: Seq<char>| total_by(rows, of(k)) > 0,
        |k: Seq<char>| total_by(rows, of(k)) as u64,
    )
}

pub open spec fn model_sums(rows: Seq<UsageRow>) -> Map<Seq<char>, u64> {
    sums(rows, |k: Seq<char>| of_model(k))
}

pub open spec fn provider_sums(rows: Seq<UsageRow>) -> Map<Seq<char>, u64> {
    sums(rows, |k: Seq<char>| of_provider(k))
}

pub open spec fn account_sums(rows: Seq<UsageRow>) -> Map<Seq<char>, u64> {
    sums(rows, |k: Seq<char>| of_account(k))
}

/// `a` comes before `b`.
pub open spec fn row_before(a: UsageRow, b: UsageRow) -> bool {
    a.key() != b.key() && row_le(a.key(), b.key())
}

/// One of the rows has that provider, model and account.
pub open spec fn has_key(rows: Seq<UsageRow>, key: Seq<Seq<char>>) -> bool {
    exists|i: int| 0 <= i < rows.len() && (#[trigger] rows[i]).key() == key
}

/// The rows stand in order, each provider, model and account once.
pub open spec fn ordered(rows: Seq<UsageRow>) -> bool {
    forall|i: int, j: int|
        #![trigger rows[i], rows[j]]
        0 <= i < j < rows.len() ==> row_before(rows[i], rows[j])
}

/// `out` holds one row for each provider, model and account with requests in
/// `rows`, in order, with the sum of those requests.
pub open spec fn row_sums(out: Seq<UsageRow>, rows: Seq<UsageRow>) -> bool {
    &&& ordered(out)
    &&& forall|i: int|
        0 <= i < out.len() ==> (#[trigger] out[i]).requests == total_by(rows, of_key(out[i].key()))
            && out[i].requests > 0
    &&& forall|key: Seq<Seq<char>>|
        total_by(rows, of_key(key)) > 0 ==> #[trigger] has_key(out, key)
    &&& total_by(out, any_row()) == total_by(rows, any_row())
}

// ---------------------------------------------------------------------------
// Lemmas
// ---------------------------------------------------------------------------

/// A part of the rows has no more requests than all of them.
pub proof fn lemma_total_bound(rows: Seq<UsageRow>, pred: spec_fn(UsageRow) -> bool)
    ensures
        total_by(rows, pred) <= total_by(rows, any_row()),
    decreases rows.len(),
{
    if rows.len() > 0 {
        lemma_total_bound(rows.drop_last(), pred);
    }
}

pub proof fn lemma_total_push(
    rows: Seq<UsageRow>,
    row: UsageRow,
    pred: spec_fn(UsageRow) -> bool,
)
    ensures
        total_by(rows.push(row), pred) == total_by(rows, pred) + if pred(row) {
            row.requests
        } else {
            0
        },
{
    assert(rows.push(row).drop_last() =~= rows);
}

pub proof fn lemma_total_add(
    a: Seq<UsageRow>,
    b: Seq<UsageRow>,
    pred: spec_fn(UsageRow) -> bool,
)
    ensures
        total_by(a + b, pred) == total_by(a, pred) + total_by(b, pred),
    decreases b.len(),
{
    if b.len() == 0 {
        assert(a + b =~= a);
    } else {
        assert((a + b).drop_last() =~= a + b.drop_last());
        lemma_total_add(a, b.drop_last(), pred);
    }
}

proof fn lemma_total_insert(rows: Seq<UsageRow>, p: int, row: UsageRow)
    requires
        0 <= p <= rows.len(),
    ensures
        total_by(rows.insert(p, row), any_row()) == total_by(rows, any_row()) + row.requests,
{
    let a = rows.take(p);
    let b = rows.skip(p);
    assert(rows =~= a + b);
    assert(rows.insert(p, row) =~= a.push(row) + b);
    lemma_total_add(a, b, any_row());
    lemma_total_add(a.push(row), b, any_row());
    lemma_total_push(a, row, any_row());
}

proof fn lemma_total_update(rows: Seq<UsageRow>, p: int, row: UsageRow)
    requires
        0 <= p < rows.len(),
    ensures
        total_by(rows.update(p, row), any_row()) + rows[p].requests == total_by(rows, any_row())
            + row.requests,
{
    let a = rows.take(p);
    let b = rows.skip(p + 1);
    assert(rows =~= a.push(rows[p]) + b);
    assert(rows.update(p, row) =~= a.push(row) + b);
    lemma_total_add(a.push(rows[p]), b, any_row());
    lemma_total_add(a.push(row), b, any_row());
    lemma_total_push(a, row, any_row());
    lemma_total_push(a, rows[p], any_row());
}

/// A row of requests raises exactly its own key's sum.
proof fn lemma_sums_push(
    rows: Seq<UsageRow>,
    row: UsageRow,
    of: spec_fn(Seq<char>) -> spec_fn(UsageRow) -> bool,
    own: Seq<char>,
)
    requires
        row.requests > 0,
        total_by(rows.push(row), any_row()) <= u64::MAX,
        forall|k: Seq<char>| (#[trigger] of(k))(row) <==> k == own,
    ensures
        sums(rows.push(row), of) == sums(rows, of).insert(
            own,
            (count_of(sums(rows, of), own) + row.requests) as u64,
        ),
        count_of(sums(rows, of), own) + row.requests <= u64::MAX,
{
    let next = sums(rows.push(row), of);
    let want = sums(rows, of).insert(own, (count_of(sums(rows, of), own) + row.requests) as u64);
    lemma_total_push(rows, row, any_row());
    lemma_total_bound(rows, of(own));
    assert(of(own)(row));
    assert(count_of(sums(rows, of), own) == total_by(rows, of(own)));
    assert forall|k: Seq<char>| #[trigger] next.dom().contains(k) <==> want.dom().contains(k) by {
        lemma_total_push(rows, row, of(k));
        assert(of(k)(row) <==> k == own);
    }
    assert forall|k: Seq<char>| #[trigger] next.dom().contains(k) implies next[k] == want[k] by {
        lemma_total_push(rows, row, of(k));
        assert(of(k)(row) <==> k == own);
    }
    assert(next =~= want);
}

proof fn lemma_before_transitive(a: UsageRow, b: UsageRow, c: UsageRow)
    requires
        row_before(a, b),
        row_before(b, c),
    ensures
        row_before(a, c),
{
    crate::order::row_le_transitive(a.key(), b.key(), c.key());
    if a.key() == c.key() {
        crate::order::row_le_total(a.key(), b.key());
    }
}

/// Raising the requests of the row that has the key.
proof fn lemma_rows_update(out: Seq<UsageRow>, rows: Seq<UsageRow>, row: UsageRow, p: int)
    requires
        row_sums(out, rows),
        row.requests > 0,
        0 <= p < out.len(),
        out[p].key() == row.key(),
    ensures
        row_sums(
            out.update(p, UsageRow { requests: out[p].requests + row.requests, ..out[p] }),
            rows.push(row),
        ),
{
    let raised = UsageRow { requests: out[p].requests + row.requests, ..out[p] };
    let next = out.update(p, raised);
    let all = rows.push(row);
    assert(raised.key() =~= out[p].key());
    assert forall|i: int, j: int|
        #![trigger next[i], next[j]]
        0 <= i < j < next.len() implies row_before(next[i], next[j]) by {
        assert(row_before(out[i], out[j]));
    }
    assert forall|i: int| 0 <= i < next.len() implies (#[trigger] next[i]).requests == total_by(
        all,
        of_key(next[i].key()),
    ) && next[i].requests > 0 by {
        lemma_total_push(rows, row, of_key(next[i].key()));
        assert(out[i].requests == total_by(rows, of_key(out[i].key())));
        if i < p {
            assert(row_before(out[i], out[p]));
        }
        if p < i {
            assert(row_before(out[p], out[i]));
        }
    }
    assert forall|key: Seq<Seq<char>>| total_by(all, of_key(key)) > 0 implies #[trigger] has_key(
        next,
        key,
    ) by {
        lemma_total_push(rows, row, of_key(key));
        if key == row.key() {
            assert(next[p].key() == key);
        } else {
            assert(has_key(out, key));
            let i = choose|i: int| 0 <= i < out.len() && (#[trigger] out[i]).key() == key;
            assert(next[i].key() == key);
        }
    }
    lemma_total_update(out, p, raised);
    lemma_total_push(rows, row, any_row());
}

/// Putting in a row with a new key.
proof fn lemma_rows_insert(out: Seq<UsageRow>, rows: Seq<UsageRow>, row: UsageRow, p: int)
    requires
        row_sums(out, rows),
        row.requests > 0,
        0 <= p <= out.len(),
        forall|i: int| 0 <= i < p ==> row_before(#[trigger] out[i], row),
        p < out.len() ==> row_before(row, out[p]),
    ensures
        row_sums(out.insert(p, row), rows.push(row)),
{
    let next = out.insert(p, row);
    let all = rows.push(row);
    assert forall|i: int| p <= i < out.len() implies row_before(row, #[trigger] out[i]) by {
        if i > p {
            assert(row_before(out[p], out[i]));
            lemma_before_transitive(row, out[p], out[i]);
        }
    }
    assert forall|i: int, j: int|
        #![trigger next[i], next[j]]
        0 <= i < j < next.len() implies row_before(next[i], next[j]) by {
        if j < p {
            assert(row_before(out[i], out[j]));
        } else if i > p {
            assert(row_before(out[i - 1], out[j - 1]));
        } else if i < p && j > p {
            assert(row_before(out[i], out[j - 1]));
        }
    }
    assert(!has_key(out, row.key()));
    assert(total_by(rows, of_key(row.key())) == 0);
    assert forall|i: int| 0 <= i < next.len() implies (#[trigger] next[i]).requests == total_by(
        all,
        of_key(next[i].key()),
    ) && next[i].requests > 0 by {
        lemma_total_push(rows, row, of_key(next[i].key()));
        if i < p {
            assert(out[i].requests == total_by(rows, of_key(out[i].key())));
        } else if i > p {
            assert(out[i - 1].requests == total_by(rows, of_key(out[i - 1].key())));
        }
    }
    assert forall|key: Seq<Seq<char>>| total_by(all, of_key(key)) > 0 implies #[trigger] has_key(
        next,
        key,
    ) by {
        lemma_total_push(rows, row, of_key(key));
        if key == row.key() {
            assert(next[p].key() == key);
        } else {
            assert(has_key(out, key));
            let i = choose|i: int| 0 <= i < out.len() && (#[trigger] out[i]).key() == key;
            if i < p {
                assert(next[i].key() == key);
            } else {
                assert(next[i + 1].key() == key);
            }
        }
    }
    lemma_total_insert(out, p, row);
    lemma_total_push(rows, row, any_row());
}

// ---------------------------------------------------------------------------
// Operations
// ---------------------------------------------------------------------------

/// The sums of a growing list of rows.
#[derive(Debug)]
pub struct Ledger {
    pub total: u64,
    pub per_model: TextMap<u64>,
    pub per_provider: TextMap<u64>,
    pub per_account: TextMap<u64>,
    pub by_request: Vec<UsageRequestSummary>,
}

impl Ledger {
    /// The ledger holds the sums of exactly these rows.
    pub open spec fn holds(&self, rows: Seq<UsageRow>) -> bool {
        &&& self.total == total_by(rows, any_row())
        &&& self.per_model@ == model_sums(rows)
        &&& self.per_provider@ == provider_sums(rows)
        &&& self.per_account@ == account_sums(rows)
        &&& row_sums(usage_rows(self.by_request@), rows)
    }

    /// A ledger without rows.
    pub fn new() -> (r: Self)
        ensures
            r.holds(Seq::empty()),
    {
        let r = Ledger {
            total: 0,
            per_model: TextMap::new(),
            per_provider: TextMap::new(),
            per_account: TextMap::new(),
            by_request: Vec::new(),
        };
        proof {
            let none = Seq::<UsageRow>::empty();
            assert(r.per_model@ =~= model_sums(none));
            assert(r.per_provider@ =~= provider_sums(none));
            assert(r.per_account@ =~= account_sums(none));
            assert(usage_rows(r.by_request@) =~= none);
        }
        r
    }

    /// Adds a row.
    pub(crate) fn add_row(
        &mut self,
        provider: &str,
        model: &str,
        account: &str,
        requests: u64,
        Ghost(rows): Ghost<Seq<UsageRow>>,
    )
        requires
            old(self).holds(rows),
            requests > 0,
            total_by(rows, any_row()) + requests <= u64::MAX,
        ensures
            final(self).holds(
                rows.push(
                    UsageRow {
                        provider: provider@,
                        model: model@,
                        account: account@,
                        requests: requests as nat,
                    },
                ),
            ),
    {
        let ghost row = UsageRow {
            provider: provider@,
            model: model@,
            account: account@,
            requests: requests as nat,
        };
        proof {
            lemma_total_push(rows, row, any_row());
            lemma_sums_push(rows, row, |k: Seq<char>| of_model(k), model@);
            lemma_sums_push(rows, row, |k: Seq<char>| of_provider(k), provider@);
            lemma_sums_push(rows, row, |k: Seq<char>| of_account(k), account@);
        }
        self.total = self.total + requests;
        self.per_model.tally(model, requests);
        self.per_provider.tally(provider, requests);
        self.per_account.tally(account, requests);
        let ghost out = usage_rows(self.by_request@);
        let mut p: usize = 0;
        while p < self.by_request.len() && !triple_at_most(
            provider,
            model,
            account,
            self.by_request[p].provider.as_str(),
            self.by_request[p].model.as_str(),
            self.by_request[p].account.as_str(),
        )
            invariant
                p <= self.by_request@.len(),
                out == usage_rows(self.by_request@),
                row.key() == seq![provider@, model@, account@],
                forall|i: int| 0 <= i < p ==> !row_le(row.key(), (#[trigger] out[i]).key()),
            decreases self.by_request@.len() - p,
        {
            assert(out[p as int].key() =~= seq![
                self.by_request@[p as int].provider@,
                self.by_request@[p as int].model@,
                self.by_request@[p as int].account@,
            ]);
            p = p + 1;
        }
        proof {
            assert forall|i: int| 0 <= i < p implies row_before(#[trigger] out[i], row) by {
                crate::order::row_le_total(row.key(), out[i].key());
            }
            if p < out.len() {
                assert(out[p as int].key() =~= seq![
                    self.by_request@[p as int].provider@,
                    self.by_request@[p as int].model@,
                    self.by_request@[p as int].account@,
                ]);
            }
        }
        let found = p < self.by_request.len() && text_eq(
            self.by_request[p].provider.as_str(),
            provider,
        ) && text_eq(self.by_request[p].model.as_str(), model) && text_eq(
            self.by_request[p].account.as_str(),
            account,
        );
        if found {
            proof {
                assert(out[p as int].key() =~= row.key());
                assert(out[p as int].requests == total_by(rows, of_key(out[p as int].key())));
                lemma_total_bound(rows, of_key(row.key()));
                lemma_rows_update(out, rows, row, p as int);
            }
            let raised = UsageRequestSummary {
                provider: self.by_request[p].provider.clone(),
                model: self.by_request[p].model.clone(),
                account: self.by_request[p].account.clone(),
                requests: self.by_request[p].requests + requests,
            };
            let ghost up = UsageRow { requests: out[p as int].requests + row.requests, ..out[p as int] };
            self.by_request.set(p, raised);
            assert(usage_rows(self.by_request@) =~= out.update(p as int, up));
        } else {
            proof {
                if p < out.len() {
                    assert(row_le(row.key(), out[p as int].key()));
                    if row.key() == out[p as int].key() {
                        assert(row.key()[0] == out[p as int].key()[0]);
                        assert(row.key()[1] == out[p as int].key()[1]);
                        assert(row.key()[2] == out[p as int].key()[2]);
                    }
                }
                lemma_rows_insert(out, rows, row, p as int);
            }
            self.by_request.insert(
                p,
                UsageRequestSummary {
                    provider: provider.to_owned(),
                    model: model.to_owned(),
                    account: account.to_owned(),
                    requests,
                },
            );
            assert(usage_rows(self.by_request@) =~= out.insert(p as int, row));
        }
    }
}

/// The requests counted under a name are those of its rows, and only names
/// with requests are listed.
pub proof fn counts_are_those_of_the_rows(rows: Seq<UsageRow>, name: Seq<char>)
    requires
        total_by(rows, |r: UsageRow| true) <= u64::MAX,
    ensures
        ({
            let n = total_by(rows, |r: UsageRow| r.model == name);
            &&& model_sums(rows).dom().contains(name) <==> n > 0
            &&& n > 0 ==> model_sums(rows)[name] == n
        }),
        ({
            let n = total_by(rows, |r: UsageRow| r.provider == name);
            &&& provider_sums(rows).dom().contains(name) <==> n > 0
            &&& n > 0 ==> provider_sums(rows)[name] == n
        }),
        ({
            let n = total_by(rows, |r: UsageRow| r.account == name);
            &&& account_sums(rows).dom().contains(name) <==> n > 0
            &&& n > 0 ==> account_sums(rows)[name] == n
        }),
{
    lemma_total_same(rows, |r: UsageRow| true, any_row());
    lemma_total_same(rows, |r: UsageRow| r.model == name, of_model(name));
    lemma_total_same(rows, |r: UsageRow| r.provider == name, of_provider(name));
    lemma_total_same(rows, |r: UsageRow| r.account == name, of_account(name));
    lemma_total_bound(rows, of_model(name));
    lemma_total_bound(rows, of_provider(name));
    lemma_total_bound(rows, of_account(name));
}

/// Predicates that agree count the same.
pub proof fn lemma_total_same(
    rows: Seq<UsageRow>,
    p: spec_fn(UsageRow) -> bool,
    q: spec_fn(UsageRow) -> bool,
)
    requires
        forall|r: UsageRow| p(r) <==> #[trigger] q(r),
    ensures
        total_by(rows, p) == total_by(rows, q),
    decreases rows.len(),
{
    if rows.len() > 0 {
        assert(p(rows.last()) <==> q(rows.last()));
        lemma_total_same(rows.drop_last(), p, q);
    }
}

/// Nothing is counted where there are no rows; and one row more counts its
/// requests where it is of the kind, and nothing where it is not.
pub proof fn rows_count_their_requests(
    rows: Seq<UsageRow>,
    row: UsageRow,
    pred: spec_fn(UsageRow) -> bool,
)
    ensures
        total_by(Seq::empty(), pred) == 0,
        pred(row) ==> total_by(rows.push(row), pred) == total_by(rows, pred) + row.requests,
        !pred(row) ==> total_by(rows.push(row), pred) == total_by(rows, pred),
{
    lemma_total_push(rows, row, pred);
}

/// The rows of a report stand in order, each provider, model and account once;
/// what stands there of one is what all its requests come to; and one that has
/// requests is there.
pub proof fn rows_are_summed_up(
    out: Seq<UsageRow>,
    rows: Seq<UsageRow>,
    provider: Seq<char>,
    model: Seq<char>,
    account: Seq<char>,
)
    requires
        row_sums(out, rows),
    ensures
        ({
            let own = |r: UsageRow|
                r.provider == provider && r.model == model && r.account == account;
            &&& forall|i: int|
                0 <= i < out.len() && own(#[trigger] out[i]) ==> out[i].requests == total_by(
                    rows,
                    own,
                )
            &&& total_by(rows, own) > 0 ==> exists|i: int| 0 <= i < out.len() && own(#[trigger] out[i])
        }),
        forall|i: int, j: int|
            #![trigger out[i], out[j]]
            0 <= i < j < out.len() ==> row_le(
                seq![out[i].provider, out[i].model, out[i].account],
                seq![out[j].provider, out[j].model, out[j].account],
            ) && !(out[i].provider == out[j].provider && out[i].model == out[j].model
                && out[i].account == out[j].account),
        forall|i: int| 0 <= i < out.len() ==> (#[trigger] out[i]).requests > 0,
{
    let own = |r: UsageRow| r.provider == provider && r.model == model && r.account == account;
    let key = seq![provider, model, account];
    assert forall|r: UsageRow| own(r) <==> #[trigger] of_key(key)(r) by {
        assert(r.key()[0] == r.provider && r.key()[1] == r.model && r.key()[2] == r.account);
        assert(key[0] == provider && key[1] == model && key[2] == account);
        if own(r) {
            assert(r.key() =~= key);
        }
    }
    lemma_total_same(rows, own, of_key(key));
    assert forall|i: int| 0 <= i < out.len() && own(#[trigger] out[i]) implies out[i].requests
        == total_by(rows, own) by {
        assert(of_key(key)(out[i]));
        assert(out[i].key() == key);
    }
    if total_by(rows, own) > 0 {
        assert(has_key(out, key));
        let i = choose|i: int| 0 <= i < out.len() && (#[trigger] out[i]).key() == key;
        assert(of_key(key)(out[i]));
        assert(own(out[i]));
    }
    assert forall|i: int, j: int|
        #![trigger out[i], out[j]]
        0 <= i < j < out.len() implies row_le(
        seq![out[i].provider, out[i].model, out[i].account],
        seq![out[j].provider, out[j].model, out[j].account],
    ) && !(out[i].provider == out[j].provider && out[i].model == out[j].model && out[i].account
        == out[j].account) by {
        assert(row_before(out[i], out[j]));
        if out[i].provider == out[j].provider && out[i].model == out[j].model && out[i].account
            == out[j].account {
            assert(out[i].key() =~= out[j].key());
        }
    }
}

} // verus!
