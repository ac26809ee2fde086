//! Request counts kept in memory.

use vstd::prelude::*;

use crate::clock::time_passed;
#[allow(unused_imports)]
use crate::clock::{clock_moment, time_since};
use crate::maps::{count_of, TextMap};
use crate::types::{UsageRequestSummary, UsageStats};

verus! {

/// Counts requests per model and per provider.
#[derive(Debug)]
pub struct UsageTracker {
    started_at: std::time::SystemTime,
    total_requests: u64,
    per_model: TextMap<u64>,
    per_provider: TextMap<u64>,
}

/// What a tracker has counted.
pub struct UsageCounts {
    pub total: nat,
    pub per_model: Map<Seq<char>, u64>,
    pub per_provider: Map<Seq<char>, u64>,
}

/// No requests counted.
pub open spec fn no_usage() -> UsageCounts {
    UsageCounts { total: 0, per_model: Map::empty(), per_provider: Map::empty() }
}

/// One more; a full counter starts over.
pub open spec fn one_more(n: nat) -> nat {
    if n == u64::MAX {
        0
    } else {
        n + 1
    }
}

/// The counts with one more under `key`.
pub open spec fn with_one_more(m: Map<Seq<char>, u64>, key: Seq<char>) -> Map<Seq<char>, u64> {
    m.insert(key, one_more(count_of(m, key)) as u64)
}

impl UsageCounts {
    /// The counts after one more request.
    pub open spec fn recorded(self, model: Seq<char>, provider: Seq<char>) -> UsageCounts {
        UsageCounts {
            total: one_more(self.total),
            per_model: with_one_more(self.per_model, model),
            per_provider: with_one_more(self.per_provider, provider),
        }
    }
}

impl View for UsageTracker {
    type V = UsageCounts;

    closed spec fn view(&self) -> UsageCounts {
        UsageCounts {
            total: self.total_requests as nat,
            per_model: self.per_model@,
            per_provider: self.per_provider@,
        }
    }
}

/// Counts one more under `key`.
fn count_one(counts: &mut TextMap<u64>, key: &str)
    ensures
        final(counts)@ == with_one_more(old(counts)@, key@),
{
    let now: u64 = match counts.get(key) {
        Some(n) => *n,
        None => 0,
    };
    counts.insert(key.to_owned(), now.wrapping_add(1));
}

impl UsageTracker {
    /// When the tracker was made.
    pub closed spec fn start(&self) -> std::time::SystemTime {
        self.started_at
    }

    /// A tracker that has counted nothing, made now.
    pub fn new() -> (r: Self)
        ensures
            r@ == no_usage(),
            clock_moment(r.start()),
    {
        UsageTracker {
            started_at: std::time::SystemTime::now(),
            total_requests: 0,
            per_model: TextMap::new(),
            per_provider: TextMap::new(),
        }
    }

    /// Counts a request to a model of a provider.
    pub fn record(&mut self, model: &str, provider: &str)
        ensures
            final(self)@ == old(self)@.recorded(model@, provider@),
            final(self).start() == old(self).start(),
    {
        self.total_requests = self.total_requests.wrapping_add(1);
        count_one(&mut self.per_model, model);
        count_one(&mut self.per_provider, provider);
    }

    /// The counts so far.
    pub fn stats(&self) -> (r: UsageStats)
        ensures
            r.total_requests == self@.total,
            r.per_model@ == self@.per_model,
            r.per_provider@ == self@.per_provider,
            r.per_account@ == Map::<Seq<char>, u64>::empty(),
            r.by_request@ == Seq::<UsageRequestSummary>::empty(),
    {
        UsageStats {
            total_requests: self.total_requests,
            per_model: self.per_model.copy(),
            per_provider: self.per_provider.copy(),
            per_account: TextMap::new(),
            by_request: Vec::new(),
        }
    }

    /// Sets every count back to nothing.
    pub fn reset(&mut self)
        ensures
            final(self)@ == no_usage(),
            final(self).start() == old(self).start(),
    {
        self.total_requests = 0;
        self.per_model = TextMap::new();
        self.per_provider = TextMap::new();
    }

    /// The time since the tracker was made, as the system clock has it. It is
    /// zero where the clock has been set back before that moment. Which duration
    /// that is rests with the clock.
    pub fn uptime(&self) -> (r: std::time::Duration)
        ensures
            time_since(self.start(), r),
    {
        time_passed(&self.started_at)
    }
}

impl Default for UsageTracker {
    fn default() -> (r: Self)
        ensures
            r@ == no_usage(),
            clock_moment(r.start()),
    {
        UsageTracker::new()
    }
}

// ---------------------------------------------------------------------------
// Laws
// ---------------------------------------------------------------------------

/// The counts after a row of requests, each a model and a provider.
pub open spec fn recorded_all(
    c: UsageCounts,
    requests: Seq<(Seq<char>, Seq<char>)>,
) -> UsageCounts
    decreases requests.len(),
{
    if requests.len() == 0 {
        c
    } else {
        let before = recorded_all(c, requests.drop_last());
        before.recorded(requests.last().0, requests.last().1)
    }
}

/// How many of the requests went to `model`.
pub open spec fn to_model(requests: Seq<(Seq<char>, Seq<char>)>, model: Seq<char>) -> nat
    decreases requests.len(),
{
    if requests.len() == 0 {
        0
    } else {
        to_model(requests.drop_last(), model) + if requests.last().0 == model {
            1nat
        } else {
            0
        }
    }
}

/// How many of the requests went to `provider`.
pub open spec fn to_provider(requests: Seq<(Seq<char>, Seq<char>)>, provider: Seq<char>) -> nat
    decreases requests.len(),
{
    if requests.len() == 0 {
        0
    } else {
        to_provider(requests.drop_last(), provider) + if requests.last().1 == provider {
            1nat
        } else {
            0
        }
    }
}

/// A tracker that starts empty counts exactly the requests recorded: in total,
/// for each model and for each provider.
pub proof fn counts_are_exact(
    requests: Seq<(Seq<char>, Seq<char>)>,
    model: Seq<char>,
    provider: Seq<char>,
)
    requires
        requests.len() <= u64::MAX,
    ensures
        recorded_all(no_usage(), requests).total == requests.len(),
        count_of(recorded_all(no_usage(), requests).per_model, model) == to_model(requests, model),
        count_of(recorded_all(no_usage(), requests).per_provider, provider) == to_provider(
            requests,
            provider,
        ),
        to_model(requests, model) <= requests.len(),
        to_provider(requests, provider) <= requests.len(),
    decreases requests.len(),
{
    if requests.len() > 0 {
        let rest = requests.drop_last();
        counts_are_exact(rest, model, provider);
        counts_are_exact(rest, requests.last().0, requests.last().1);
    }
}

/// A tracker that starts empty lists exactly the models and the providers that
/// had requests.
pub proof fn only_what_was_asked_is_listed(
    requests: Seq<(Seq<char>, Seq<char>)>,
    name: Seq<char>,
)
    ensures
        recorded_all(no_usage(), requests).per_model.dom().contains(name) <==> exists|i: int|
            0 <= i < requests.len() && (#[trigger] requests[i]).0 == name,
        recorded_all(no_usage(), requests).per_provider.dom().contains(name) <==> exists|i: int|
            0 <= i < requests.len() && (#[trigger] requests[i]).1 == name,
    decreases requests.len(),
{
    if requests.len() > 0 {
        let short = requests.drop_last();
        only_what_was_asked_is_listed(short, name);
        assert forall|i: int| 0 <= i < short.len() implies #[trigger] short[i] == requests[i] by {}
        if exists|i: int| 0 <= i < short.len() && (#[trigger] short[i]).0 == name {
            let i = choose|i: int| 0 <= i < short.len() && (#[trigger] short[i]).0 == name;
            assert(requests[i].0 == name);
        }
        if exists|i: int| 0 <= i < short.len() && (#[trigger] short[i]).1 == name {
            let i = choose|i: int| 0 <= i < short.len() && (#[trigger] short[i]).1 == name;
            assert(requests[i].1 == name);
        }
        if exists|i: int| 0 <= i < requests.len() && (#[trigger] requests[i]).0 == name {
            let i = choose|i: int| 0 <= i < requests.len() && (#[trigger] requests[i]).0 == name;
            if i < short.len() {
                assert(short[i].0 == name);
            }
        }
        if exists|i: int| 0 <= i < requests.len() && (#[trigger] requests[i]).1 == name {
            let i = choose|i: int| 0 <= i < requests.len() && (#[trigger] requests[i]).1 == name;
            if i < short.len() {
                assert(short[i].1 == name);
            }
        }
        let last = requests[requests.len() - 1];
        assert(last == requests.last());
    }
}

/// One more request raises the total and the counts of its model and its
/// provider by one, a full counter starts over at zero, and no other count
/// changes.
pub proof fn one_request_counts_once(
    c: UsageCounts,
    model: Seq<char>,
    provider: Seq<char>,
    other: Seq<char>,
)
    ensures
        ({
            let after = c.recorded(model, provider);
            let of_model = count_of(c.per_model, model);
            let of_provider = count_of(c.per_provider, provider);
            &&& c.total < u64::MAX ==> after.total == c.total + 1
            &&& c.total == u64::MAX ==> after.total == 0
            &&& of_model < u64::MAX ==> count_of(after.per_model, model) == of_model + 1
            &&& of_model == u64::MAX ==> count_of(after.per_model, model) == 0
            &&& of_provider < u64::MAX ==> count_of(after.per_provider, provider) == of_provider + 1
            &&& of_provider == u64::MAX ==> count_of(after.per_provider, provider) == 0
            &&& other != model ==> count_of(after.per_model, other) == count_of(c.per_model, other)
            &&& other != provider ==> count_of(after.per_provider, other) == count_of(
                c.per_provider,
                other,
            )
            &&& after.per_model.dom() == c.per_model.dom().insert(model)
            &&& after.per_provider.dom() == c.per_provider.dom().insert(provider)
        }),
{
}

} // verus!
