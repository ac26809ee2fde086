//! Usage since a reset.
//!
//! The backend's counters cannot be set back. A reset keeps a snapshot, and
//! what the snapshot holds is taken off later reports.

use vstd::prelude::*;

#[allow(unused_imports)]
use crate::ledger::{any_row, lemma_total_bound, of_key, row_sums, total_by};
use crate::maps::TextMap;
#[allow(unused_imports)]
use crate::maps::{count_of, distinct_keys, entries_map, keyed_at};
use crate::order::stable_sort;
#[allow(unused_imports)]
use crate::order::{row_le, sorted_from};
use crate::text::text_eq;
#[allow(unused_imports)]
use crate::types::usage_rows;
use crate::types::{UsageRequestSummary, UsageRow, UsageStats};

verus! {

// ---------------------------------------------------------------------------
// Models
// ---------------------------------------------------------------------------

/// What is left of `a` without `b`, nothing where `b` is more.
pub open spec fn less(a: nat, b: nat) -> nat {
    if a > b {
        (a - b) as nat
    } else {
        0
    }
}

/// The counts that have grown, by how much.
pub open spec fn growth(
    current: Map<Seq<char>, u64>,
    baseline: Map<Seq<char>, u64>,
) -> Map<Seq<char>, u64> {
    Map::new(
        |k: Seq<char>| count_of(current, k) > count_of(baseline, k),
        |k: Seq<char>| less(count_of(current, k), count_of(baseline, k)) as u64,
    )
}

/// The rows that have grown, by how much.
pub open spec fn row_growth(current: Seq<UsageRow>, baseline: Seq<UsageRow>) -> Seq<UsageRow>
    decreases current.len(),
{
    if current.len() == 0 {
        Seq::empty()
    } else {
        let row = current.last();
        let rest = row_growth(current.drop_last(), baseline);
        let left = less(row.requests, total_by(baseline, of_key(row.key())));
        if left > 0 {
            rest.push(UsageRow { requests: left, ..row })
        } else {
            rest
        }
    }
}

/// The requests of each provider, model and account can be summed.
pub open spec fn summable(rows: Seq<UsageRow>) -> bool {
    forall|i: int|
        0 <= i < rows.len() ==> total_by(rows, of_key((#[trigger] rows[i]).key())) <= u64::MAX
}

/// `stats` is what `current` has grown by since `baseline`, the rows ordered
/// by provider, model and account.
pub open spec fn grown(stats: UsageStats, current: UsageStats, baseline: UsageStats) -> bool {
    &&& stats.total_requests == less(
        current.total_requests as nat,
        baseline.total_requests as nat,
    )
    &&& stats.per_model@ == growth(current.per_model@, baseline.per_model@)
    &&& stats.per_provider@ == growth(current.per_provider@, baseline.per_provider@)
    &&& stats.per_account@ == growth(current.per_account@, baseline.per_account@)
    &&& exists|rows: Seq<UsageRequestSummary>|
        #![trigger usage_rows(rows)]
        usage_rows(rows) == row_growth(
            usage_rows(current.by_request@),
            usage_rows(baseline.by_request@),
        ) && sorted_from(stats.by_request@, rows)
}

// ---------------------------------------------------------------------------
// Laws
// ---------------------------------------------------------------------------

proof fn lemma_own_row(rows: Seq<UsageRow>, i: int)
    requires
        0 <= i < rows.len(),
    ensures
        rows[i].requests <= total_by(rows, of_key(rows[i].key())),
    decreases rows.len(),
{
    if i < rows.len() - 1 {
        assert(rows.drop_last()[i] == rows[i]);
        lemma_own_row(rows.drop_last(), i);
    }
}

proof fn lemma_no_row_growth(part: Seq<UsageRow>, rows: Seq<UsageRow>)
    requires
        forall|i: int| 0 <= i < part.len() ==> rows.contains(#[trigger] part[i]),
    ensures
        row_growth(part, rows) == Seq::<UsageRow>::empty(),
    decreases part.len(),
{
    if part.len() > 0 {
        assert forall|i: int| 0 <= i < part.drop_last().len() implies rows.contains(
            #[trigger] part.drop_last()[i],
        ) by {
            assert(part.drop_last()[i] == part[i]);
        }
        lemma_no_row_growth(part.drop_last(), rows);
        assert(rows.contains(part[part.len() - 1]));
        let i = choose|i: int| 0 <= i < rows.len() && rows[i] == part.last();
        lemma_own_row(rows, i);
    }
}

/// Right after a reset everything reads zero: a report has not grown since
/// itself.
pub proof fn reset_reads_zero(counts: Map<Seq<char>, u64>, rows: Seq<UsageRow>, total: nat)
    ensures
        growth(counts, counts) == Map::<Seq<char>, u64>::empty(),
        row_growth(rows, rows) == Seq::<UsageRow>::empty(),
        less(total, total) == 0,
{
    assert(growth(counts, counts) =~= Map::empty());
    assert forall|i: int| 0 <= i < rows.len() implies rows.contains(#[trigger] rows[i]) by {}
    lemma_no_row_growth(rows, rows);
}

/// The rows that a report is summed up in can serve as a baseline.
pub proof fn sums_are_summable(out: Seq<UsageRow>, rows: Seq<UsageRow>)
    requires
        row_sums(out, rows),
        total_by(rows, any_row()) <= u64::MAX,
    ensures
        summable(out),
{
    assert forall|i: int| 0 <= i < out.len() implies total_by(
        out,
        of_key((#[trigger] out[i]).key()),
    ) <= u64::MAX by {
        lemma_total_bound(out, of_key(out[i].key()));
    }
}

// ---------------------------------------------------------------------------
// Operations
// ---------------------------------------------------------------------------

/// The counts that have grown, by how much.
pub fn subtract_count_maps(current: &TextMap<u64>, baseline: &TextMap<u64>) -> (r: TextMap<u64>)
    ensures
        r@ == growth(current@, baseline@),
{
    let entries = current.entries();
    let ghost s = entries@;
    let mut out: TextMap<u64> = TextMap::new();
    let mut i: usize = 0;
    assert(growth(entries_map(s.take(0)), baseline@) =~= out@);
    while i < entries.len()
        invariant
            i <= entries@.len(),
            s == entries@,
            distinct_keys(s),
            out@ == growth(entries_map(s.take(i as int)), baseline@),
        decreases entries@.len() - i,
    {
        let base: u64 = match baseline.get(entries[i].0.as_str()) {
            Some(n) => *n,
            None => 0,
        };
        let value: u64 = entries[i].1;
        let ghost before = out@;
        let ghost key = s[i as int].0@;
        proof {
            lemma_entries_step(s, i as int);
        }
        let ghost had = entries_map(s.take(i as int));
        let ghost has = entries_map(s.take(i + 1));
        if value > base {
            out.insert(entries[i].0.clone(), value - base);
            assert(out@ =~= growth(has, baseline@));
        } else {
            assert(before =~= growth(has, baseline@));
        }
        i = i + 1;
    }
    assert(s.take(i as int) =~= s);
    out
}

proof fn lemma_entries_step(s: Seq<(String, u64)>, i: int)
    requires
        distinct_keys(s),
        0 <= i < s.len(),
    ensures
        !entries_map(s.take(i)).dom().contains(s[i].0@),
        entries_map(s.take(i + 1)) == entries_map(s.take(i)).insert(s[i].0@, s[i].1),
{
    let had = s.take(i);
    let has = s.take(i + 1);
    let key = s[i].0@;
    if entries_map(had).dom().contains(key) {
        let j = choose|j: int| keyed_at(had, key, j);
        assert(s[j].0@ != s[i].0@);
    }
    let want = entries_map(had).insert(key, s[i].1);
    assert forall|k: Seq<char>| #[trigger] entries_map(has).dom().contains(k)
        <==> want.dom().contains(k) by {
        if entries_map(has).dom().contains(k) && k != key {
            let j = choose|j: int| keyed_at(has, k, j);
            assert(keyed_at(had, k, j));
        }
        if entries_map(had).dom().contains(k) {
            let j = choose|j: int| keyed_at(had, k, j);
            assert(keyed_at(has, k, j));
        }
        if k == key {
            assert(keyed_at(has, k, i));
        }
    }
    assert forall|k: Seq<char>| #[trigger] entries_map(has).dom().contains(k) implies entries_map(
        has,
    )[k] == want[k] by {
        let j = choose|j: int| keyed_at(has, k, j);
        if k == key {
            if j != i {
                assert(s[j].0@ != s[i].0@);
            }
        } else {
            assert(keyed_at(had, k, j));
            let m = choose|m: int| keyed_at(had, k, m);
            if m < j {
                assert(s[m].0@ != s[j].0@);
            }
            if j < m {
                assert(s[j].0@ != s[m].0@);
            }
        }
    }
    assert(entries_map(has) =~= want);
}

/// The same provider, model and account.
fn same_key(a: &UsageRequestSummary, b: &UsageRequestSummary) -> (r: bool)
    ensures
        r == (a@.key() == b@.key()),
{
    let r = text_eq(a.provider.as_str(), b.provider.as_str()) && text_eq(
        a.model.as_str(),
        b.model.as_str(),
    ) && text_eq(a.account.as_str(), b.account.as_str());
    proof {
        if a@.key() == b@.key() {
            assert(a@.key()[0] == b@.key()[0]);
            assert(a@.key()[1] == b@.key()[1]);
            assert(a@.key()[2] == b@.key()[2]);
        }
    }
    r
}

/// The requests in `rows` of the row's provider, model and account, where
/// their number can be held.
fn sum_of_key(rows: &Vec<UsageRequestSummary>, row: &UsageRequestSummary) -> (r: Option<u64>)
    ensures
        r matches Some(n) ==> n == total_by(usage_rows(rows@), of_key(row@.key())),
        r is None ==> total_by(usage_rows(rows@), of_key(row@.key())) > u64::MAX,
{
    let ghost all = usage_rows(rows@);
    let ghost pred = of_key(row@.key());
    let mut sum: u64 = 0;
    let mut i: usize = 0;
    assert(all.take(0) =~= Seq::empty());
    while i < rows.len()
        invariant
            i <= rows@.len(),
            all == usage_rows(rows@),
            pred == of_key(row@.key()),
            sum == total_by(all.take(i as int), pred),
        decreases rows@.len() - i,
    {
        proof {
            assert(all.take(i + 1).drop_last() =~= all.take(i as int));
            assert(all.take(i + 1).last() == rows@[i as int]@);
            assert(all =~= all.take(i + 1) + all.skip(i + 1));
            crate::ledger::lemma_total_add(all.take(i + 1), all.skip(i + 1), pred);
        }
        if same_key(&rows[i], row) {
            match sum.checked_add(rows[i].requests) {
                Some(next) => {
                    sum = next;
                },
                None => {
                    return None;
                },
            }
        }
        i = i + 1;
    }
    assert(all.take(i as int) =~= all);
    Some(sum)
}

/// The statistics can serve as a baseline.
pub fn fits_as_baseline(stats: &UsageStats) -> (r: bool)
    ensures
        r == summable(usage_rows(stats.by_request@)),
{
    let ghost all = usage_rows(stats.by_request@);
    let mut i: usize = 0;
    while i < stats.by_request.len()
        invariant
            i <= stats.by_request@.len(),
            all == usage_rows(stats.by_request@),
            forall|j: int|
                0 <= j < i ==> total_by(all, of_key((#[trigger] all[j]).key())) <= u64::MAX,
        decreases stats.by_request@.len() - i,
    {
        assert(all[i as int] == stats.by_request@[i as int]@);
        if sum_of_key(&stats.by_request, &stats.by_request[i]).is_none() {
            assert(!summable(all));
            return false;
        }
        i = i + 1;
    }
    true
}

/// A key that no row has sums up to nothing.
proof fn lemma_absent_key(rows: Seq<UsageRow>, key: Seq<Seq<char>>)
    requires
        forall|i: int| 0 <= i < rows.len() ==> (#[trigger] rows[i]).key() != key,
    ensures
        total_by(rows, of_key(key)) == 0,
    decreases rows.len(),
{
    if rows.len() > 0 {
        assert(rows[rows.len() - 1].key() != key);
        assert forall|i: int| 0 <= i < rows.drop_last().len() implies (
        #[trigger] rows.drop_last()[i]).key() != key by {
            assert(rows.drop_last()[i] == rows[i]);
        }
        lemma_absent_key(rows.drop_last(), key);
    }
}

proof fn lemma_any_key_fits(rows: Seq<UsageRow>, key: Seq<Seq<char>>)
    requires
        summable(rows),
    ensures
        total_by(rows, of_key(key)) <= u64::MAX,
{
    if exists|i: int| 0 <= i < rows.len() && (#[trigger] rows[i]).key() == key {
        let i = choose|i: int| 0 <= i < rows.len() && (#[trigger] rows[i]).key() == key;
        assert(total_by(rows, of_key(rows[i].key())) <= u64::MAX);
    } else {
        lemma_absent_key(rows, key);
    }
}

/// What `current` has grown by since `baseline`.
pub fn subtract_usage_stats(current: UsageStats, baseline: &UsageStats) -> (r: UsageStats)
    requires
        summable(usage_rows(baseline.by_request@)),
    ensures
        grown(r, current, *baseline),
{
    let ghost base = usage_rows(baseline.by_request@);
    let ghost all = usage_rows(current.by_request@);
    let mut left: Vec<UsageRequestSummary> = Vec::new();
    let mut i: usize = 0;
    assert(usage_rows(left@) =~= row_growth(all.take(0), base));
    while i < current.by_request.len()
        invariant
            i <= current.by_request@.len(),
            base == usage_rows(baseline.by_request@),
            all == usage_rows(current.by_request@),
            summable(base),
            usage_rows(left@) == row_growth(all.take(i as int), base),
        decreases current.by_request@.len() - i,
    {
        let row = &current.by_request[i];
        proof {
            assert(all.take(i + 1).drop_last() =~= all.take(i as int));
            assert(all.take(i + 1).last() == row@);
            lemma_any_key_fits(base, row@.key());
        }
        let taken: u64 = match sum_of_key(&baseline.by_request, row) {
            Some(n) => n,
            None => 0,
        };
        if row.requests > taken {
            let ghost before = left@;
            left.push(
                UsageRequestSummary {
                    provider: row.provider.clone(),
                    model: row.model.clone(),
                    account: row.account.clone(),
                    requests: row.requests - taken,
                },
            );
            assert(usage_rows(left@) =~= usage_rows(before).push(
                UsageRow { requests: (row.requests - taken) as nat, ..row@ },
            ));
        }
        i = i + 1;
    }
    assert(all.take(i as int) =~= all);
    let total: u64 = if current.total_requests > baseline.total_requests {
        current.total_requests - baseline.total_requests
    } else {
        0
    };
    let ghost unsorted = left@;
    let r = UsageStats {
        total_requests: total,
        per_model: subtract_count_maps(&current.per_model, &baseline.per_model),
        per_provider: subtract_count_maps(&current.per_provider, &baseline.per_provider),
        per_account: subtract_count_maps(&current.per_account, &baseline.per_account),
        by_request: stable_sort(left),
    };
    assert(usage_rows(unsorted) == row_growth(all, base));
    r
}

/// The report, less the baseline where there is one.
pub fn usage_since(stats: UsageStats, baseline: Option<&UsageStats>) -> (r: UsageStats)
    requires
        baseline matches Some(base) ==> summable(usage_rows(base.by_request@)),
    ensures
        match baseline {
            Some(base) => grown(r, stats, *base),
            None => r == stats,
        },
{
    match baseline {
        Some(base) => subtract_usage_stats(stats, base),
        None => stats,
    }
}

// ---------------------------------------------------------------------------
// Laws
// ---------------------------------------------------------------------------

/// What a map counts under a key, a missing key counting as nothing.
pub open spec fn counted_under(m: Map<Seq<char>, u64>, k: Seq<char>) -> int {
    if m.dom().contains(k) {
        m[k] as int
    } else {
        0
    }
}

/// Under every key stands what the count has grown by, a missing key counting
/// as nothing on either side; a key is there exactly if its count has grown.
pub proof fn growth_is_the_difference(
    current: Map<Seq<char>, u64>,
    baseline: Map<Seq<char>, u64>,
    k: Seq<char>,
)
    ensures
        counted_under(current, k) > counted_under(baseline, k) ==> growth(
            current,
            baseline,
        ).dom().contains(k) && growth(current, baseline)[k] == counted_under(current, k)
            - counted_under(baseline, k),
        counted_under(current, k) <= counted_under(baseline, k) ==> !growth(
            current,
            baseline,
        ).dom().contains(k),
{
}

/// Since nothing was counted, everything has grown: each count above zero is
/// there as it is.
pub proof fn growth_from_nothing_is_everything(current: Map<Seq<char>, u64>, k: Seq<char>)
    ensures
        ({
            let all = growth(current, Map::empty());
            &&& all.dom().contains(k) <==> current.dom().contains(k) && current[k] > 0
            &&& all.dom().contains(k) ==> all[k] == current[k]
        }),
{
}

/// The requests that rows have for a provider, a model and an account.
pub open spec fn requests_of(
    rows: Seq<UsageRow>,
    provider: Seq<char>,
    model: Seq<char>,
    account: Seq<char>,
) -> nat {
    total_by(
        rows,
        |r: UsageRow| r.provider == provider && r.model == model && r.account == account,
    )
}

proof fn lemma_requests_of(rows: Seq<UsageRow>, row: UsageRow)
    ensures
        requests_of(rows, row.provider, row.model, row.account) == total_by(
            rows,
            of_key(row.key()),
        ),
{
    let own = |r: UsageRow|
        r.provider == row.provider && r.model == row.model && r.account == row.account;
    assert forall|r: UsageRow| own(r) <==> #[trigger] of_key(row.key())(r) by {
        assert(r.key()[0] == r.provider && r.key()[1] == r.model && r.key()[2] == r.account);
        assert(row.key()[0] == row.provider && row.key()[1] == row.model && row.key()[2]
            == row.account);
        if own(r) {
            assert(r.key() =~= row.key());
        }
    }
    crate::ledger::lemma_total_same(rows, own, of_key(row.key()));
}

/// A row that has grown is there with what it has grown by over all the
/// baseline has of its provider, model and account; and nothing else is there.
pub proof fn grown_rows_are_the_differences(
    current: Seq<UsageRow>,
    baseline: Seq<UsageRow>,
)
    ensures
        forall|i: int|
            0 <= i < current.len() ==> {
                let row = #[trigger] current[i];
                let base = requests_of(baseline, row.provider, row.model, row.account);
                row.requests > base ==> row_growth(current, baseline).contains(
                    UsageRow { requests: (row.requests - base) as nat, ..row },
                )
            },
        forall|j: int|
            0 <= j < row_growth(current, baseline).len() ==> exists|i: int|
                0 <= i < current.len() && is_difference(
                    #[trigger] row_growth(current, baseline)[j],
                    #[trigger] current[i],
                    baseline,
                ),
    decreases current.len(),
{
    let out = row_growth(current, baseline);
    if current.len() > 0 {
        let row = current.last();
        let short = current.drop_last();
        let rest = row_growth(short, baseline);
        let base = requests_of(baseline, row.provider, row.model, row.account);
        lemma_requests_of(baseline, row);
        grown_rows_are_the_differences(short, baseline);
        let grew = UsageRow { requests: (row.requests - base) as nat, ..row };
        if row.requests > base {
            assert(out == rest.push(grew));
            assert(out[out.len() - 1] == grew);
            assert(out.contains(grew));
        }
        assert forall|i: int| 0 <= i < current.len() implies {
            let row = #[trigger] current[i];
            let base = requests_of(baseline, row.provider, row.model, row.account);
            row.requests > base ==> out.contains(
                UsageRow { requests: (row.requests - base) as nat, ..row },
            )
        } by {
            if i < short.len() {
                assert(short[i] == current[i]);
                let r = current[i];
                let b = requests_of(baseline, r.provider, r.model, r.account);
                let d = UsageRow { requests: (r.requests - b) as nat, ..r };
                if r.requests > b {
                    let j = choose|j: int| 0 <= j < rest.len() && rest[j] == d;
                    assert(out[j] == d);
                }
            }
        }
        assert forall|j: int| 0 <= j < out.len() implies exists|i: int|
            0 <= i < current.len() && is_difference(
                #[trigger] out[j],
                #[trigger] current[i],
                baseline,
            ) by {
            if j < rest.len() {
                assert(out[j] == rest[j]);
                let i = choose|i: int|
                    0 <= i < short.len() && is_difference(rest[j], #[trigger] short[i], baseline);
                assert(current[i] == short[i]);
            } else {
                assert(is_difference(out[j], current[current.len() - 1], baseline));
            }
        }
    }
}

/// `d` is `row` with what it has grown by.
pub open spec fn is_difference(d: UsageRow, row: UsageRow, baseline: Seq<UsageRow>) -> bool {
    &&& d.provider == row.provider
    &&& d.model == row.model
    &&& d.account == row.account
    &&& d.requests > 0
    &&& d.requests == row.requests - requests_of(baseline, row.provider, row.model, row.account)
}

/// The statistics since a baseline have, of the total and of each model,
/// provider and account, what the statistics now have more than the baseline.
pub proof fn statistics_since_are_the_differences(
    stats: UsageStats,
    current: UsageStats,
    baseline: UsageStats,
    k: Seq<char>,
)
    requires
        grown(stats, current, baseline),
    ensures
        current.total_requests >= baseline.total_requests ==> stats.total_requests
            == current.total_requests - baseline.total_requests,
        current.total_requests < baseline.total_requests ==> stats.total_requests == 0,
        counted_under(stats.per_model@, k) == not_below_zero(
            counted_under(current.per_model@, k) - counted_under(baseline.per_model@, k),
        ),
        counted_under(stats.per_provider@, k) == not_below_zero(
            counted_under(current.per_provider@, k) - counted_under(baseline.per_provider@, k),
        ),
        counted_under(stats.per_account@, k) == not_below_zero(
            counted_under(current.per_account@, k) - counted_under(baseline.per_account@, k),
        ),
{
    growth_is_the_difference(current.per_model@, baseline.per_model@, k);
    growth_is_the_difference(current.per_provider@, baseline.per_provider@, k);
    growth_is_the_difference(current.per_account@, baseline.per_account@, k);
}

/// The number, or zero in place of a negative one.
pub open spec fn not_below_zero(n: int) -> int {
    if n < 0 {
        0
    } else {
        n
    }
}

/// The rows since a baseline are in order; each is what a row of now has grown by
/// over the baseline, and each row that has grown is there.
pub proof fn rows_since_are_the_differences(
    stats: UsageStats,
    current: UsageStats,
    baseline: UsageStats,
    i: int,
    j: int,
)
    requires
        grown(stats, current, baseline),
    ensures
        0 <= i < j < stats.by_request@.len() ==> row_le(
            seq![
                stats.by_request@[i].provider@,
                stats.by_request@[i].model@,
                stats.by_request@[i].account@,
            ],
            seq![
                stats.by_request@[j].provider@,
                stats.by_request@[j].model@,
                stats.by_request@[j].account@,
            ],
        ),
        0 <= i < stats.by_request@.len() ==> exists|k: int|
            0 <= k < current.by_request@.len() && is_difference(
                stats.by_request@[i]@,
                (#[trigger] current.by_request@[k])@,
                usage_rows(baseline.by_request@),
            ),
        0 <= j < current.by_request@.len() ==> {
            let row = current.by_request@[j];
            row.requests > requests_of(
                usage_rows(baseline.by_request@),
                row.provider@,
                row.model@,
                row.account@,
            ) ==> exists|k: int|
                0 <= k < stats.by_request@.len() && is_difference(
                    (#[trigger] stats.by_request@[k])@,
                    row@,
                    usage_rows(baseline.by_request@),
                )
        },
{
    let now = usage_rows(current.by_request@);
    let base = usage_rows(baseline.by_request@);
    let more = row_growth(now, base);
    let rows = choose|rows: Seq<UsageRequestSummary>|
        #![trigger usage_rows(rows)]
        usage_rows(rows) == more && sorted_from(stats.by_request@, rows);
    let out = stats.by_request@;
    assert(usage_rows(rows) == more && sorted_from(out, rows));
    grown_rows_are_the_differences(now, base);
    if 0 <= i < j < out.len() {
        crate::order::sorted_items_stand_in_order(out, rows, i, j);
    }
    if 0 <= i < out.len() {
        assert(out.contains(out[i]));
        crate::order::sorted_has_the_same_items(out, rows, out[i]);
        let p = choose|p: int| 0 <= p < rows.len() && rows[p] == out[i];
        assert(more[p] == usage_rows(rows)[p]);
        let k = choose|k: int|
            0 <= k < now.len() && is_difference(#[trigger] more[p], #[trigger] now[k], base);
        assert(now[k] == current.by_request@[k]@);
    }
    if 0 <= j < current.by_request@.len() {
        let row = now[j];
        let of = requests_of(base, row.provider, row.model, row.account);
        if row.requests > of {
            let d = UsageRow { requests: (row.requests - of) as nat, ..row };
            assert(more.contains(d));
            let p = choose|p: int| 0 <= p < more.len() && more[p] == d;
            assert(rows[p]@ == usage_rows(rows)[p]);
            assert(rows.contains(rows[p]));
            crate::order::sorted_has_the_same_items(out, rows, rows[p]);
            let k = choose|k: int| 0 <= k < out.len() && out[k] == rows[p];
            assert(is_difference(out[k]@, row, base));
        }
    }
}

} // verus!
