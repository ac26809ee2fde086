//! Model groups: virtual model names that stand for pools of real models.
//!
//! A request for a group goes to the group's enabled members in turn. When a
//! target fails, the registry names the next one that has not been tried.

use vstd::prelude::*;

use crate::maps::TextMap;
use crate::text::{contains, contains_text, join3, split_once, text_eq, trim};
#[allow(unused_imports)]
use crate::text::{has_substring, opt_pair_view, split_first, trimmed, views};
use crate::types::{ProxyModelGroup, ProxyModelGroupMember};

verus! {

/// A model picked from a group.
#[derive(Debug)]
pub struct ResolvedModel {
    pub group_name: String,
    pub model: String,
    pub provider: String,
}

/// The groups, and for each group name how often it has been resolved.
#[derive(Debug)]
pub struct ModelGroupRegistry {
    groups: Vec<ProxyModelGroup>,
    cursors: TextMap<usize>,
}

// ---------------------------------------------------------------------------
// Models
// ---------------------------------------------------------------------------

/// A model picked from a group.
pub struct Resolution {
    pub group: Seq<char>,
    pub provider: Seq<char>,
    pub model: Seq<char>,
}

impl View for ResolvedModel {
    type V = Resolution;

    open spec fn view(&self) -> Resolution {
        Resolution { group: self.group_name@, provider: self.provider@, model: self.model@ }
    }
}

/// The view of an optional pick.
pub open spec fn opt_resolution(r: Option<ResolvedModel>) -> Option<Resolution> {
    match r {
        Some(m) => Some(m@),
        None => None,
    }
}

/// The name under which a model of a provider is asked for.
pub open spec fn target_text(provider: Seq<char>, model: Seq<char>) -> Seq<char> {
    provider + "/"@ + model
}

impl Resolution {
    /// The name under which the picked model is asked for.
    pub open spec fn target(self) -> Seq<char> {
        target_text(self.provider, self.model)
    }
}

/// The provider and the model in `provider/model`, without white space around
/// them; `None` if one of them is missing.
pub open spec fn provider_model(s: Seq<char>) -> Option<(Seq<char>, Seq<char>)> {
    match split_first(s, "/"@) {
        Some((p, m)) => if trimmed(p).len() == 0 || trimmed(m).len() == 0 {
            None
        } else {
            Some((trimmed(p), trimmed(m)))
        },
        None => None,
    }
}

/// The provider and the model that a member stands for. A provider written
/// into the model's name goes before the member's own.
pub open spec fn member_target(m: ProxyModelGroupMember) -> Option<(Seq<char>, Seq<char>)> {
    let model = trimmed(m.model@);
    match provider_model(model) {
        Some(t) => Some(t),
        None => if trimmed(m.provider@).len() == 0 || model.len() == 0 {
            None
        } else {
            Some((trimmed(m.provider@), model))
        },
    }
}

/// The name under which a member is asked for.
pub open spec fn member_target_text(m: ProxyModelGroupMember) -> Option<Seq<char>> {
    match member_target(m) {
        Some((provider, model)) => Some(target_text(provider, model)),
        None => None,
    }
}

/// The member, as picked from `group`.
pub open spec fn resolution(group: Seq<char>, m: ProxyModelGroupMember) -> Option<Resolution> {
    match member_target(m) {
        Some((provider, model)) => Some(Resolution { group, provider, model }),
        None => None,
    }
}

/// The enabled members, in order.
pub open spec fn enabled_members(ms: Seq<ProxyModelGroupMember>) -> Seq<ProxyModelGroupMember>
    decreases ms.len(),
{
    if ms.len() == 0 {
        Seq::empty()
    } else if ms.last().enabled {
        enabled_members(ms.drop_last()).push(ms.last())
    } else {
        enabled_members(ms.drop_last())
    }
}

/// The first enabled group of that name.
pub open spec fn enabled_group(gs: Seq<ProxyModelGroup>, name: Seq<char>) -> Option<ProxyModelGroup>
    decreases gs.len(),
{
    if gs.len() == 0 {
        None
    } else if gs[0].enabled && gs[0].name@ == name {
        Some(gs[0])
    } else {
        enabled_group(gs.drop_first(), name)
    }
}

/// The names of the enabled groups, in order.
pub open spec fn enabled_names(gs: Seq<ProxyModelGroup>) -> Seq<Seq<char>>
    decreases gs.len(),
{
    if gs.len() == 0 {
        Seq::empty()
    } else if gs.last().enabled {
        enabled_names(gs.drop_last()).push(gs.last().name@)
    } else {
        enabled_names(gs.drop_last())
    }
}

/// The member can be asked for next: it is enabled, has a target that is not
/// among the tried ones, and is called `plain` where that is given.
pub open spec fn eligible(
    m: ProxyModelGroupMember,
    plain: Option<Seq<char>>,
    tried: Seq<Seq<char>>,
) -> bool {
    &&& m.enabled
    &&& member_target(m) matches Some((provider, model)) && {
        &&& plain matches Some(p) ==> model == p
        &&& !tried.contains(target_text(provider, model))
    }
}

/// The first member that can be asked for next, as picked from `group`.
pub open spec fn first_eligible(
    group: Seq<char>,
    ms: Seq<ProxyModelGroupMember>,
    plain: Option<Seq<char>>,
    tried: Seq<Seq<char>>,
) -> Option<Resolution>
    decreases ms.len(),
{
    if ms.len() == 0 {
        None
    } else if eligible(ms[0], plain, tried) {
        resolution(group, ms[0])
    } else {
        first_eligible(group, ms.drop_first(), plain, tried)
    }
}

/// The first member of an enabled group that can be asked for next.
pub open spec fn first_eligible_of_all(
    gs: Seq<ProxyModelGroup>,
    plain: Seq<char>,
    tried: Seq<Seq<char>>,
) -> Option<Resolution>
    decreases gs.len(),
{
    if gs.len() == 0 {
        None
    } else {
        let found = first_eligible(gs[0].name@, gs[0].models@, Some(plain), tried);
        if gs[0].enabled && found is Some {
            found
        } else {
            first_eligible_of_all(gs.drop_first(), plain, tried)
        }
    }
}

/// The cursor after one more pick.
pub open spec fn next_cursor(c: usize) -> usize {
    if c == usize::MAX {
        0
    } else {
        (c + 1) as usize
    }
}

/// The mathematical content of a registry.
pub struct Registry {
    pub groups: Seq<ProxyModelGroup>,
    pub cursors: Map<Seq<char>, usize>,
}

impl Registry {
    /// Every group has a cursor.
    pub open spec fn well_formed(self) -> bool {
        forall|i: int|
            0 <= i < self.groups.len() ==> self.cursors.dom().contains(
                #[trigger] self.groups[i].name@,
            )
    }

    /// The enabled members of the group that `name` stands for.
    pub open spec fn pool(self, name: Seq<char>) -> Seq<ProxyModelGroupMember> {
        match enabled_group(self.groups, name) {
            Some(g) => enabled_members(g.models@),
            None => Seq::empty(),
        }
    }

    /// Resolving `name` moves its cursor on.
    pub open spec fn picks(self, name: Seq<char>) -> bool {
        self.pool(name).len() > 0 && self.cursors.dom().contains(name)
    }

    /// What `name` resolves to now.
    pub open spec fn resolved(self, name: Seq<char>) -> Option<Resolution> {
        if self.picks(name) {
            let pool = self.pool(name);
            resolution(name, pool[self.cursors[name] as int % pool.len() as int])
        } else {
            None
        }
    }

    /// The registry after resolving `name`.
    pub open spec fn after_resolve(self, name: Seq<char>) -> Registry {
        if self.picks(name) {
            Registry {
                groups: self.groups,
                cursors: self.cursors.insert(name, next_cursor(self.cursors[name])),
            }
        } else {
            self
        }
    }

    /// What the plain model name stands for, the tried targets left out.
    pub open spec fn plain(self, name: Seq<char>, tried: Seq<Seq<char>>) -> Option<Resolution> {
        let plain = trimmed(name);
        if plain.len() == 0 || has_substring(plain, "/"@) {
            None
        } else {
            first_eligible_of_all(self.groups, plain, tried)
        }
    }

    /// The next target of the group, the tried ones left out.
    pub open spec fn next(self, group: Seq<char>, tried: Seq<Seq<char>>) -> Option<Resolution> {
        match enabled_group(self.groups, group) {
            Some(g) => first_eligible(g.name@, g.models@, None, tried),
            None => None,
        }
    }
}

/// Every group at its first member.
pub open spec fn fresh_registry(gs: Seq<ProxyModelGroup>) -> Registry {
    Registry {
        groups: gs,
        cursors: Map::new(
            |k: Seq<char>| exists|i: int| 0 <= i < gs.len() && (#[trigger] gs[i]).name@ == k,
            |k: Seq<char>| 0usize,
        ),
    }
}

impl View for ModelGroupRegistry {
    type V = Registry;

    closed spec fn view(&self) -> Registry {
        Registry { groups: self.groups@, cursors: self.cursors@ }
    }
}

// ---------------------------------------------------------------------------
// Lemmas
// ---------------------------------------------------------------------------

proof fn lemma_group_name(gs: Seq<ProxyModelGroup>, name: Seq<char>)
    ensures
        enabled_group(gs, name) matches Some(g) ==> {
            &&& g.name@ == name
            &&& g.enabled
            &&& exists|i: int| 0 <= i < gs.len() && #[trigger] gs[i] == g
        },
    decreases gs.len(),
{
    if gs.len() > 0 && !(gs[0].enabled && gs[0].name@ == name) {
        lemma_group_name(gs.drop_first(), name);
        if let Some(g) = enabled_group(gs.drop_first(), name) {
            let i = choose|i: int|
                0 <= i < gs.drop_first().len() && #[trigger] gs.drop_first()[i] == g;
            assert(gs[i + 1] == g);
        }
    }
}

proof fn lemma_enabled_members(ms: Seq<ProxyModelGroupMember>)
    ensures
        enabled_members(ms).len() <= ms.len(),
        forall|i: int|
            0 <= i < enabled_members(ms).len() ==> (#[trigger] enabled_members(ms)[i]).enabled
                && ms.contains(enabled_members(ms)[i]),
    decreases ms.len(),
{
    if ms.len() > 0 {
        let rest = ms.drop_last();
        lemma_enabled_members(rest);
        assert forall|i: int| 0 <= i < enabled_members(ms).len() implies (
        #[trigger] enabled_members(ms)[i]).enabled && ms.contains(enabled_members(ms)[i]) by {
            if i < enabled_members(rest).len() {
                assert(enabled_members(ms)[i] == enabled_members(rest)[i]);
                let j = choose|j: int|
                    0 <= j < rest.len() && rest[j] == enabled_members(rest)[i];
                assert(ms[j] == enabled_members(ms)[i]);
            } else {
                assert(ms[ms.len() - 1] == enabled_members(ms)[i]);
            }
        }
    }
}

proof fn lemma_first_eligible(
    group: Seq<char>,
    ms: Seq<ProxyModelGroupMember>,
    plain: Option<Seq<char>>,
    tried: Seq<Seq<char>>,
)
    ensures
        first_eligible(group, ms, plain, tried) is None <==> forall|i: int|
            0 <= i < ms.len() ==> !eligible(#[trigger] ms[i], plain, tried),
        first_eligible(group, ms, plain, tried) matches Some(r) ==> exists|i: int|
            0 <= i < ms.len() && eligible(#[trigger] ms[i], plain, tried) && resolution(
                group,
                ms[i],
            ) == Some(r),
    decreases ms.len(),
{
    if ms.len() > 0 {
        let rest = ms.drop_first();
        lemma_first_eligible(group, rest, plain, tried);
        if eligible(ms[0], plain, tried) {
            assert(resolution(group, ms[0]) is Some);
        } else {
            match first_eligible(group, rest, plain, tried) {
                Some(r) => {
                    let i = choose|i: int|
                        0 <= i < rest.len() && eligible(#[trigger] rest[i], plain, tried)
                            && resolution(group, rest[i]) == Some(r);
                    assert(ms[i + 1] == rest[i]);
                },
                None => {
                    assert forall|i: int| 0 <= i < ms.len() implies !eligible(
                        #[trigger] ms[i],
                        plain,
                        tried,
                    ) by {
                        if i > 0 {
                            assert(rest[i - 1] == ms[i]);
                        }
                    }
                },
            }
        }
    }
}

// ---------------------------------------------------------------------------
// Laws
// ---------------------------------------------------------------------------

/// Resolving keeps every group's cursor in place, and new registries have them.
pub proof fn cursors_are_kept(gs: Seq<ProxyModelGroup>, r: Registry, name: Seq<char>)
    ensures
        fresh_registry(gs).well_formed(),
        r.well_formed() ==> r.after_resolve(name).well_formed(),
{
}

/// A name resolves exactly if it is the name of an enabled group, the group
/// has an enabled member, and the member in turn names a provider and a model.
pub proof fn resolves_to_the_member_in_turn(r: Registry, name: Seq<char>)
    requires
        r.well_formed(),
    ensures
        r.pool(name).len() == 0 ==> r.resolved(name) is None && r.after_resolve(name) == r,
        r.pool(name).len() > 0 ==> {
            let turn = r.pool(name)[r.cursors[name] as int % r.pool(name).len() as int];
            &&& r.resolved(name) == resolution(name, turn)
            &&& r.resolved(name) is None <==> member_target(turn) is None
            &&& turn.enabled
        },
{
    lemma_group_name(r.groups, name);
    if let Some(g) = enabled_group(r.groups, name) {
        lemma_enabled_members(g.models@);
        let i = choose|i: int| 0 <= i < r.groups.len() && #[trigger] r.groups[i] == g;
        assert(r.cursors.dom().contains(r.groups[i].name@));
    }
}

/// The registry after resolving `name` `k` times.
pub open spec fn resolved_times(r: Registry, name: Seq<char>, k: nat) -> Registry
    decreases k,
{
    if k == 0 {
        r
    } else {
        resolved_times(r, name, (k - 1) as nat).after_resolve(name)
    }
}

/// Round robin: the `k`-th of successive resolutions picks the `k`-th enabled
/// member from the cursor on, starting over behind the last.
pub proof fn round_robin(r: Registry, name: Seq<char>, k: nat)
    requires
        r.picks(name),
        r.cursors[name] + k <= usize::MAX,
    ensures
        resolved_times(r, name, k).groups == r.groups,
        resolved_times(r, name, k).picks(name),
        resolved_times(r, name, k).cursors[name] == r.cursors[name] + k,
        resolved_times(r, name, k).resolved(name) == resolution(
            name,
            r.pool(name)[(r.cursors[name] + k) % r.pool(name).len() as int],
        ),
    decreases k,
{
    if k > 0 {
        round_robin(r, name, (k - 1) as nat);
    }
}

/// As many resolutions as there are enabled members pick each of them.
pub proof fn round_robin_reaches_all(start: int, n: int, member: int) -> (k: int)
    requires
        0 <= start,
        0 <= member < n,
    ensures
        0 <= k < n,
        (start + k) % n == member,
{
    let k = (member - start) % n;
    vstd::arithmetic::div_mod::lemma_mod_bound(member - start, n);
    vstd::arithmetic::div_mod::lemma_add_mod_noop_right(start, member - start, n);
    vstd::arithmetic::div_mod::lemma_small_mod(member as nat, n as nat);
    k
}

/// No two of that many successive resolutions pick the same place in the pool.
pub proof fn round_robin_does_not_repeat(start: int, n: int, j: int, k: int)
    requires
        0 <= start,
        0 <= j < k < n,
    ensures
        (start + j) % n != (start + k) % n,
{
    if (start + j) % n == (start + k) % n {
        vstd::arithmetic::div_mod::lemma_mod_equivalence(start + k, start + j, n);
        vstd::arithmetic::div_mod::lemma_small_mod((k - j) as nat, n as nat);
    }
}

/// Failover never names a tried target, names one of the group's enabled
/// members, and gives up only when every usable one has been tried.
pub proof fn failover_is_fresh_and_complete(r: Registry, group: Seq<char>, tried: Seq<Seq<char>>)
    ensures
        r.next(group, tried) matches Some(n) ==> !tried.contains(n.target()) && n.group == group,
        enabled_group(r.groups, group) matches Some(g) ==> (r.next(group, tried) is None <==> forall|
            i: int,
        |
            0 <= i < g.models@.len() && (#[trigger] g.models@[i]).enabled ==> (member_target_text(
                g.models@[i],
            ) matches Some(t) ==> tried.contains(t))),
{
    lemma_group_name(r.groups, group);
    if let Some(g) = enabled_group(r.groups, group) {
        lemma_first_eligible(g.name@, g.models@, None, tried);
        assert forall|i: int| 0 <= i < g.models@.len() implies eligible(
            #[trigger] g.models@[i],
            None,
            tried,
        ) == (g.models@[i].enabled && member_target_text(g.models@[i]) is Some && !tried.contains(
            member_target_text(g.models@[i])->0,
        )) by {}
    }
}

proof fn lemma_plain_is_fresh(gs: Seq<ProxyModelGroup>, plain: Seq<char>, tried: Seq<Seq<char>>)
    ensures
        first_eligible_of_all(gs, plain, tried) matches Some(n) ==> !tried.contains(n.target())
            && n.model == plain,
    decreases gs.len(),
{
    if gs.len() > 0 {
        lemma_first_eligible(gs[0].name@, gs[0].models@, Some(plain), tried);
        lemma_plain_is_fresh(gs.drop_first(), plain, tried);
    }
}

/// Failover of a plain model name never names a tried target, and keeps the
/// model's name.
pub proof fn plain_failover_is_fresh(r: Registry, name: Seq<char>, tried: Seq<Seq<char>>)
    ensures
        r.plain(name, tried) matches Some(n) ==> !tried.contains(n.target()) && n.model == trimmed(
            name,
        ),
{
    lemma_plain_is_fresh(r.groups, trimmed(name), tried);
}

// ---------------------------------------------------------------------------
// Operations
// ---------------------------------------------------------------------------

impl ResolvedModel {
    /// The name under which the model is asked for: `provider/model`.
    pub fn target(&self) -> (r: String)
        ensures
            r@ == self@.target(),
    {
        join3(self.provider.as_str(), "/", self.model.as_str())
    }
}

/// The provider and the model in `provider/model`.
pub fn split_provider_model(value: &str) -> (r: Option<(String, String)>)
    ensures
        opt_pair_view(r) == provider_model(value@),
{
    match split_once(value, "/") {
        Some((p, m)) => {
            let provider = trim(p.as_str());
            let model = trim(m.as_str());
            if provider.as_str().is_empty() || model.as_str().is_empty() {
                None
            } else {
                Some((provider, model))
            }
        },
        None => None,
    }
}

/// The provider and the model that a member stands for.
pub fn member_provider_model(member: &ProxyModelGroupMember) -> (r: Option<(String, String)>)
    ensures
        opt_pair_view(r) == member_target(*member),
{
    let model = trim(member.model.as_str());
    match split_provider_model(model.as_str()) {
        Some(t) => Some(t),
        None => {
            let provider = trim(member.provider.as_str());
            if provider.as_str().is_empty() || model.as_str().is_empty() {
                None
            } else {
                Some((provider, model))
            }
        },
    }
}

/// The member, as picked from the group.
pub fn resolved_model_from_member(group_name: &str, member: &ProxyModelGroupMember) -> (r: Option<
    ResolvedModel,
>)
    ensures
        opt_resolution(r) == resolution(group_name@, *member),
{
    match member_provider_model(member) {
        Some((provider, model)) => Some(
            ResolvedModel { group_name: group_name.to_owned(), model, provider },
        ),
        None => None,
    }
}

/// The first member that can be asked for next, as picked from the group.
fn pick_eligible(
    group: &ProxyModelGroup,
    plain: Option<&str>,
    tried: &[String],
) -> (r: Option<ResolvedModel>)
    ensures
        opt_resolution(r) == first_eligible(
            group.name@,
            group.models@,
            match plain {
                Some(p) => Some(p@),
                None => None,
            },
            views(tried@),
        ),
{
    let ghost p: Option<Seq<char>> = match plain {
        Some(p) => Some(p@),
        None => None,
    };
    let ghost ms = group.models@;
    let ghost t = views(tried@);
    let mut i: usize = 0;
    assert(ms.skip(0) =~= ms);
    while i < group.models.len()
        invariant
            i <= group.models@.len(),
            ms == group.models@,
            t == views(tried@),
            p == match plain {
                Some(p) => Some(p@),
                None => None,
            },
            first_eligible(group.name@, ms, p, t) == first_eligible(
                group.name@,
                ms.skip(i as int),
                p,
                t,
            ),
        decreases group.models@.len() - i,
    {
        let member = &group.models[i];
        assert(ms.skip(i as int)[0] == *member);
        assert(ms.skip(i as int).drop_first() =~= ms.skip(i + 1));
        if member.enabled {
            match member_provider_model(member) {
                Some((provider, model)) => {
                    let named = match plain {
                        Some(q) => text_eq(model.as_str(), q),
                        None => true,
                    };
                    if named {
                        let target = join3(provider.as_str(), "/", model.as_str());
                        if !contains_text(tried, target.as_str()) {
                            return Some(
                                ResolvedModel { group_name: group.name.clone(), model, provider },
                            );
                        }
                    }
                },
                None => {},
            }
        }
        i = i + 1;
    }
    None
}

impl ModelGroupRegistry {
    /// A registry of the groups, each at its first member.
    pub fn new(groups: Vec<ProxyModelGroup>) -> (r: Self)
        ensures
            r@ == fresh_registry(groups@),
            r@.well_formed(),
    {
        let mut cursors: TextMap<usize> = TextMap::new();
        let mut i: usize = 0;
        let ghost gs = groups@;
        while i < groups.len()
            invariant
                i <= groups@.len(),
                gs == groups@,
                cursors@ == fresh_registry(gs.take(i as int)).cursors,
            decreases groups@.len() - i,
        {
            cursors.insert(groups[i].name.clone(), 0);
            proof {
                let before = gs.take(i as int);
                let after = gs.take(i + 1);
                assert forall|k: Seq<char>| fresh_registry(after).cursors.dom().contains(k)
                    <==> #[trigger] cursors@.dom().contains(k) by {
                    if k == gs[i as int].name@ {
                        assert(after[i as int].name@ == k);
                    } else if fresh_registry(before).cursors.dom().contains(k) {
                        let j = choose|j: int|
                            0 <= j < before.len() && (#[trigger] before[j]).name@ == k;
                        assert(after[j].name@ == k);
                    } else if fresh_registry(after).cursors.dom().contains(k) {
                        let j = choose|j: int|
                            0 <= j < after.len() && (#[trigger] after[j]).name@ == k;
                        assert(before[j].name@ == k);
                    }
                }
                assert(cursors@ =~= fresh_registry(after).cursors);
            }
            i = i + 1;
        }
        assert(gs.take(gs.len() as int) =~= gs);
        ModelGroupRegistry { groups, cursors }
    }

    /// Where the first enabled group of that name stands.
    fn group_position(&self, name: &str) -> (r: Option<usize>)
        ensures
            r matches Some(i) ==> i < self.groups@.len() && enabled_group(self.groups@, name@)
                == Some(self.groups@[i as int]) && self.groups@[i as int].name@ == name@,
            r is None ==> enabled_group(self.groups@, name@) is None,
    {
        let ghost gs = self.groups@;
        let mut i: usize = 0;
        assert(gs.skip(0) =~= gs);
        while i < self.groups.len()
            invariant
                i <= self.groups@.len(),
                gs == self.groups@,
                enabled_group(gs, name@) == enabled_group(gs.skip(i as int), name@),
            decreases self.groups@.len() - i,
        {
            assert(gs.skip(i as int)[0] == gs[i as int]);
            assert(gs.skip(i as int).drop_first() =~= gs.skip(i + 1));
            if self.groups[i].enabled && text_eq(self.groups[i].name.as_str(), name) {
                return Some(i);
            }
            i = i + 1;
        }
        None
    }

    /// The group that `name` stands for and the member whose turn it is.
    fn turn(&self, name: &str) -> (r: Option<(usize, usize)>)
        ensures
            r is Some <==> self@.picks(name@),
            r matches Some((g, m)) ==> {
                &&& g < self.groups@.len()
                &&& self.groups@[g as int].name@ == name@
                &&& m < self.groups@[g as int].models@.len()
                &&& self.groups@[g as int].models@[m as int] == self@.pool(name@)[self@.cursors[name@] as int
                    % self@.pool(name@).len() as int]
            },
    {
        match self.group_position(name) {
            Some(g) => {
                let ghost ms = self.groups@[g as int].models@;
                let mut enabled: Vec<usize> = Vec::new();
                let mut i: usize = 0;
                while i < self.groups[g].models.len()
                    invariant
                        g < self.groups@.len(),
                        ms == self.groups@[g as int].models@,
                        i <= ms.len(),
                        enabled@.len() == enabled_members(ms.take(i as int)).len(),
                        forall|j: int|
                            0 <= j < enabled@.len() ==> (#[trigger] enabled@[j]) < i && ms[enabled@[j] as int]
                                == enabled_members(ms.take(i as int))[j],
                    decreases ms.len() - i,
                {
                    assert(ms.take(i + 1).drop_last() =~= ms.take(i as int));
                    assert(ms.take(i + 1).last() == ms[i as int]);
                    if self.groups[g].models[i].enabled {
                        enabled.push(i);
                    }
                    i = i + 1;
                }
                assert(ms.take(i as int) =~= ms);
                if enabled.len() == 0 {
                    return None;
                }
                match self.cursors.get(name) {
                    Some(c) => {
                        let idx: usize = *c % enabled.len();
                        Some((g, enabled[idx]))
                    },
                    None => None,
                }
            },
            None => None,
        }
    }

    /// Resolves a virtual model name to the next enabled member of its group.
    ///
    /// Returns `None` if no enabled group has the name, if the group has no
    /// enabled member, or if the member names no provider or no model.
    pub fn resolve(&mut self, model_name: &str) -> (r: Option<ResolvedModel>)
        ensures
            opt_resolution(r) == old(self)@.resolved(model_name@),
            final(self)@ == old(self)@.after_resolve(model_name@),
    {
        match self.turn(model_name) {
            Some((g, m)) => {
                let cursor: usize = match self.cursors.get(model_name) {
                    Some(c) => *c,
                    None => 0,
                };
                self.cursors.insert(model_name.to_owned(), cursor.wrapping_add(1));
                let group = &self.groups[g];
                resolved_model_from_member(group.name.as_str(), &group.models[m])
            },
            None => None,
        }
    }

    /// `model_name` resolves now.
    pub fn would_resolve(&self, model_name: &str) -> (r: bool)
        ensures
            r == (self@.resolved(model_name@) is Some),
    {
        match self.turn(model_name) {
            Some((g, m)) => member_provider_model(&self.groups[g].models[m]).is_some(),
            None => false,
        }
    }

    /// Resolves a plain model name to the first enabled member of that name.
    pub fn resolve_plain_model(&self, model_name: &str) -> (r: Option<ResolvedModel>)
        ensures
            opt_resolution(r) == self@.plain(model_name@, Seq::empty()),
    {
        let none: Vec<String> = Vec::new();
        assert(views(none@) =~= Seq::empty());
        self.failover_plain_model(model_name, none.as_slice())
    }

    /// The first member of the group whose target has not been tried.
    ///
    /// Returns `None` if every enabled member has been tried.
    pub fn failover(&self, group_name: &str, tried: &[String]) -> (r: Option<ResolvedModel>)
        ensures
            opt_resolution(r) == self@.next(group_name@, views(tried@)),
    {
        match self.group_position(group_name) {
            Some(g) => pick_eligible(&self.groups[g], None, tried),
            None => None,
        }
    }

    /// The first enabled member of that plain name whose target has not been
    /// tried.
    pub fn failover_plain_model(&self, model_name: &str, tried: &[String]) -> (r: Option<
        ResolvedModel,
    >)
        ensures
            opt_resolution(r) == self@.plain(model_name@, views(tried@)),
    {
        let plain = trim(model_name);
        if plain.as_str().is_empty() || contains(plain.as_str(), "/") {
            return None;
        }
        let ghost gs = self.groups@;
        let ghost t = views(tried@);
        let mut i: usize = 0;
        assert(gs.skip(0) =~= gs);
        while i < self.groups.len()
            invariant
                i <= self.groups@.len(),
                gs == self.groups@,
                t == views(tried@),
                self@.plain(model_name@, t) == first_eligible_of_all(gs.skip(i as int), plain@, t),
            decreases self.groups@.len() - i,
        {
            assert(gs.skip(i as int)[0] == gs[i as int]);
            assert(gs.skip(i as int).drop_first() =~= gs.skip(i + 1));
            if self.groups[i].enabled {
                let found = pick_eligible(&self.groups[i], Some(plain.as_str()), tried);
                if found.is_some() {
                    return found;
                }
            }
            i = i + 1;
        }
        None
    }

    /// Replaces all groups; each starts at its first member again.
    pub fn update(&mut self, groups: Vec<ProxyModelGroup>)
        ensures
            final(self)@ == fresh_registry(groups@),
            final(self)@.well_formed(),
    {
        *self = ModelGroupRegistry::new(groups);
    }

    /// The names of the enabled groups, in order.
    pub fn group_names(&self) -> (r: Vec<String>)
        ensures
            views(r@) == enabled_names(self@.groups),
    {
        let ghost gs = self.groups@;
        let mut out: Vec<String> = Vec::new();
        let mut i: usize = 0;
        assert(views(out@) =~= enabled_names(gs.take(0)));
        while i < self.groups.len()
            invariant
                i <= self.groups@.len(),
                gs == self.groups@,
                views(out@) == enabled_names(gs.take(i as int)),
            decreases self.groups@.len() - i,
        {
            assert(gs.take(i + 1).drop_last() =~= gs.take(i as int));
            assert(gs.take(i + 1).last() == gs[i as int]);
            if self.groups[i].enabled {
                let ghost before = out@;
                out.push(self.groups[i].name.clone());
                assert(views(out@) =~= views(before).push(gs[i as int].name@));
            }
            i = i + 1;
        }
        assert(gs.take(i as int) =~= gs);
        out
    }
}

// ---------------------------------------------------------------------------
// Laws on names and picks
// ---------------------------------------------------------------------------

/// A target is the provider, a slash and the model.
pub proof fn targets_name_provider_and_model(n: Resolution)
    ensures
        n.target() == n.provider + seq!['/'] + n.model,
{
    reveal_strlit("/");
    assert("/"@ =~= seq!['/']);
}

/// `provider/model` is read at the first slash, both parts without the white
/// space around them; without a slash, or with a blank part, it is not of that
/// form.
pub proof fn names_are_read_at_the_first_slash(p: Seq<char>, m: Seq<char>)
    requires
        !p.contains('/'),
    ensures
        trimmed(p).len() > 0 && trimmed(m).len() > 0 ==> provider_model(p + seq!['/'] + m) == Some(
            (trimmed(p), trimmed(m)),
        ),
        trimmed(p).len() == 0 || trimmed(m).len() == 0 ==> provider_model(p + seq!['/'] + m)
            is None,
        provider_model(p) is None,
{
    crate::text::splitting_at_a_slash(p, m);
}

/// A member stands for its provider and its model, without the white space
/// around them. A provider written into the model's name goes before the
/// member's own; one of which a part is blank is none, and the whole name is the
/// model's. A member without a model or without any provider stands for none.
pub proof fn members_stand_for_their_targets(
    member: ProxyModelGroupMember,
    p: Seq<char>,
    m: Seq<char>,
)
    requires
        !p.contains('/'),
    ensures
        !trimmed(member.model@).contains('/') && trimmed(member.model@).len() > 0 && trimmed(
            member.provider@,
        ).len() > 0 ==> member_target(member) == Some(
            (trimmed(member.provider@), trimmed(member.model@)),
        ),
        !trimmed(member.model@).contains('/') && (trimmed(member.model@).len() == 0 || trimmed(
            member.provider@,
        ).len() == 0) ==> member_target(member) is None,
        trimmed(member.model@) == p + seq!['/'] + m && trimmed(p).len() > 0 && trimmed(m).len() > 0
            ==> member_target(member) == Some((trimmed(p), trimmed(m))),
        trimmed(member.model@) == p + seq!['/'] + m && (trimmed(p).len() == 0 || trimmed(m).len()
            == 0) && trimmed(member.provider@).len() > 0 ==> member_target(member) == Some(
            (trimmed(member.provider@), trimmed(member.model@)),
        ),
        trimmed(member.model@) == p + seq!['/'] + m && (trimmed(p).len() == 0 || trimmed(m).len()
            == 0) && trimmed(member.provider@).len() == 0 ==> member_target(member) is None,
{
    names_are_read_at_the_first_slash(p, m);
    if !trimmed(member.model@).contains('/') {
        names_are_read_at_the_first_slash(trimmed(member.model@), m);
    }
}

/// The member is enabled and stands for that provider and model.
pub open spec fn offers(m: ProxyModelGroupMember, provider: Seq<char>, model: Seq<char>) -> bool {
    m.enabled && member_target(m) == Some((provider, model))
}

/// The member at place `j` of group `i` offers the model, and not under a
/// tried target.
pub open spec fn untried_offer(
    gs: Seq<ProxyModelGroup>,
    i: int,
    j: int,
    model: Seq<char>,
    tried: Seq<Seq<char>>,
) -> bool {
    &&& 0 <= i < gs.len()
    &&& gs[i].enabled
    &&& 0 <= j < gs[i].models@.len()
    &&& gs[i].models@[j].enabled
    &&& member_target(gs[i].models@[j]) matches Some((provider, m)) && m == model
        && !tried.contains(provider + seq!['/'] + m)
}

proof fn lemma_first_place(
    group: Seq<char>,
    ms: Seq<ProxyModelGroupMember>,
    plain: Option<Seq<char>>,
    tried: Seq<Seq<char>>,
) -> (j: int)
    ensures
        first_eligible(group, ms, plain, tried) is None ==> forall|k: int|
            0 <= k < ms.len() ==> !eligible(#[trigger] ms[k], plain, tried),
        first_eligible(group, ms, plain, tried) is Some ==> {
            &&& 0 <= j < ms.len()
            &&& eligible(ms[j], plain, tried)
            &&& first_eligible(group, ms, plain, tried) == resolution(group, ms[j])
            &&& forall|k: int| 0 <= k < j ==> !eligible(#[trigger] ms[k], plain, tried)
        },
    decreases ms.len(),
{
    if ms.len() == 0 {
        0
    } else if eligible(ms[0], plain, tried) {
        0
    } else {
        let rest = ms.drop_first();
        let j = lemma_first_place(group, rest, plain, tried);
        assert forall|k: int|
            0 <= k < ms.len() && (first_eligible(group, ms, plain, tried) is None || k < j
                + 1) implies !eligible(#[trigger] ms[k], plain, tried) by {
            if k > 0 {
                assert(rest[k - 1] == ms[k]);
            }
        }
        j + 1
    }
}

proof fn lemma_first_of_all(
    gs: Seq<ProxyModelGroup>,
    plain: Seq<char>,
    tried: Seq<Seq<char>>,
) -> (at: (int, int))
    ensures
        first_eligible_of_all(gs, plain, tried) is None ==> forall|i: int, j: int|
            !#[trigger] untried_offer(gs, i, j, plain, tried),
        first_eligible_of_all(gs, plain, tried) matches Some(n) ==> {
            &&& untried_offer(gs, at.0, at.1, plain, tried)
            &&& n.group == gs[at.0].name@
            &&& n.model == plain
            &&& member_target(gs[at.0].models@[at.1]) == Some((n.provider, plain))
            &&& forall|i: int, j: int|
                i < at.0 || (i == at.0 && j < at.1) ==> !#[trigger] untried_offer(
                    gs,
                    i,
                    j,
                    plain,
                    tried,
                )
        },
    decreases gs.len(),
{
    reveal_strlit("/");
    assert("/"@ =~= seq!['/']);
    if gs.len() == 0 {
        (0, 0)
    } else {
        let ms = gs[0].models@;
        let found = first_eligible(gs[0].name@, ms, Some(plain), tried);
        let j0 = lemma_first_place(gs[0].name@, ms, Some(plain), tried);
        assert forall|j: int| 0 <= j < ms.len() && gs[0].enabled implies (#[trigger] untried_offer(
            gs,
            0,
            j,
            plain,
            tried,
        ) <==> eligible(ms[j], Some(plain), tried)) by {}
        if gs[0].enabled && found is Some {
            (0, j0)
        } else {
            let rest = gs.drop_first();
            let at = lemma_first_of_all(rest, plain, tried);
            assert forall|i: int, j: int| #[trigger]
                untried_offer(gs, i, j, plain, tried) implies i > 0 && untried_offer(
                rest,
                i - 1,
                j,
                plain,
                tried,
            ) by {
                if i == 0 {
                    assert(eligible(ms[j], Some(plain), tried));
                }
            }
            if first_eligible_of_all(gs, plain, tried) is Some {
                assert(untried_offer(gs, at.0 + 1, at.1, plain, tried));
            }
            (at.0 + 1, at.1)
        }
    }
}

/// A plain model name stands for the first member that offers the model, in
/// the order of the groups and of their members, over all enabled groups and
/// enabled members and with the tried targets left out. It stands for none
/// exactly if there is no such member. The name is taken without the white
/// space around it; a blank name, or one with a slash, stands for none.
pub proof fn plain_names_find_the_first_offer(
    r: Registry,
    name: Seq<char>,
    tried: Seq<Seq<char>>,
) -> (at: (int, int))
    ensures
        trimmed(name).len() == 0 || trimmed(name).contains('/') ==> r.plain(name, tried) is None,
        trimmed(name).len() > 0 && !trimmed(name).contains('/') ==> {
            &&& r.plain(name, tried) is None <==> forall|i: int, j: int|
                !#[trigger] untried_offer(r.groups, i, j, trimmed(name), tried)
            &&& r.plain(name, tried) matches Some(n) ==> {
                &&& untried_offer(r.groups, at.0, at.1, trimmed(name), tried)
                &&& n.group == r.groups[at.0].name@
                &&& offers(r.groups[at.0].models@[at.1], n.provider, n.model)
                &&& n.model == trimmed(name)
                &&& forall|i: int, j: int|
                    i < at.0 || (i == at.0 && j < at.1) ==> !#[trigger] untried_offer(
                        r.groups,
                        i,
                        j,
                        trimmed(name),
                        tried,
                    )
            }
        },
{
    let plain = trimmed(name);
    if plain.contains('/') {
        let k = choose|k: int| 0 <= k < plain.len() && plain[k] == '/';
        reveal_strlit("/");
        assert("/"@ =~= seq!['/']);
        assert(plain =~= plain.take(k) + seq!['/'] + plain.skip(k + 1));
        crate::text::substrings_are_found(plain, "/"@, plain.take(k), plain.skip(k + 1));
        (0, 0)
    } else {
        crate::text::splitting_at_a_slash(plain, Seq::empty());
        lemma_first_of_all(r.groups, plain, tried)
    }
}

/// Group `i` is the one that a name stands for: the first enabled one of that
/// name.
pub open spec fn stands_for_group(gs: Seq<ProxyModelGroup>, i: int, name: Seq<char>) -> bool {
    &&& 0 <= i < gs.len()
    &&& gs[i].enabled
    &&& gs[i].name@ == name
    &&& forall|k: int| 0 <= k < i ==> !((#[trigger] gs[k]).enabled && gs[k].name@ == name)
}

proof fn lemma_enabled_group_at(gs: Seq<ProxyModelGroup>, i: int, name: Seq<char>)
    requires
        stands_for_group(gs, i, name),
    ensures
        enabled_group(gs, name) == Some(gs[i]),
    decreases gs.len(),
{
    if i > 0 {
        let rest = gs.drop_first();
        assert(!(gs[0].enabled && gs[0].name@ == name));
        assert forall|k: int| 0 <= k < i - 1 implies !((#[trigger] rest[k]).enabled
            && rest[k].name@ == name) by {
            assert(rest[k] == gs[k + 1]);
        }
        lemma_enabled_group_at(rest, i - 1, name);
    }
}

proof fn lemma_no_enabled_group(gs: Seq<ProxyModelGroup>, name: Seq<char>)
    requires
        forall|k: int| 0 <= k < gs.len() ==> !((#[trigger] gs[k]).enabled && gs[k].name@ == name),
    ensures
        enabled_group(gs, name) is None,
    decreases gs.len(),
{
    if gs.len() > 0 {
        let rest = gs.drop_first();
        assert(!(gs[0].enabled && gs[0].name@ == name));
        assert forall|k: int| 0 <= k < rest.len() implies !((#[trigger] rest[k]).enabled
            && rest[k].name@ == name) by {
            assert(rest[k] == gs[k + 1]);
        }
        lemma_no_enabled_group(rest, name);
    }
}

proof fn lemma_pool_is_filter(ms: Seq<ProxyModelGroupMember>)
    ensures
        enabled_members(ms) == ms.filter(|m: ProxyModelGroupMember| m.enabled),
    decreases ms.len(),
{
    reveal(Seq::filter);
    if ms.len() > 0 {
        lemma_pool_is_filter(ms.drop_last());
    }
}

/// A group's name resolves to the enabled member whose turn it is: its members
/// that are enabled, counted from the cursor and starting over behind the last.
/// The cursor then moves on by one, and no other does. A name of no enabled
/// group, or of one without enabled members, resolves to nothing and moves
/// nothing.
pub proof fn groups_take_their_enabled_members_in_turn(r: Registry, i: int, name: Seq<char>)
    requires
        r.well_formed(),
    ensures
        stands_for_group(r.groups, i, name) ==> {
            let pool = r.groups[i].models@.filter(|m: ProxyModelGroupMember| m.enabled);
            if pool.len() > 0 {
                &&& r.resolved(name) == match member_target(
                    pool[r.cursors[name] as int % pool.len() as int],
                ) {
                    Some((provider, model)) => Some(Resolution { group: name, provider, model }),
                    None => None,
                }
                &&& r.after_resolve(name).groups == r.groups
                &&& r.cursors[name] < usize::MAX ==> r.after_resolve(name).cursors
                    == r.cursors.insert(name, (r.cursors[name] + 1) as usize)
                &&& r.cursors[name] == usize::MAX ==> r.after_resolve(name).cursors
                    == r.cursors.insert(name, 0)
            } else {
                r.resolved(name) is None && r.after_resolve(name) == r
            }
        },
        (forall|k: int|
            0 <= k < r.groups.len() ==> !((#[trigger] r.groups[k]).enabled && r.groups[k].name@
                == name)) ==> r.resolved(name) is None && r.after_resolve(name) == r,
{
    if stands_for_group(r.groups, i, name) {
        lemma_enabled_group_at(r.groups, i, name);
        lemma_pool_is_filter(r.groups[i].models@);
        assert(r.cursors.dom().contains(r.groups[i].name@));
    }
    if forall|k: int|
        0 <= k < r.groups.len() ==> !((#[trigger] r.groups[k]).enabled && r.groups[k].name@ == name) {
        lemma_no_enabled_group(r.groups, name);
    }
}

/// In a new registry every group is at the first of its members.
pub proof fn new_groups_start_at_the_first_member(gs: Seq<ProxyModelGroup>, i: int)
    requires
        0 <= i < gs.len(),
    ensures
        fresh_registry(gs).groups == gs,
        fresh_registry(gs).cursors.dom().contains(gs[i].name@),
        fresh_registry(gs).cursors[gs[i].name@] == 0,
{
}

/// Failover goes to the first enabled member of the group, in order, whose
/// target has not been tried; and to none exactly if there is no such member.
pub proof fn failover_finds_the_first_untried_member(
    r: Registry,
    i: int,
    name: Seq<char>,
    tried: Seq<Seq<char>>,
) -> (j: int)
    ensures
        stands_for_group(r.groups, i, name) ==> {
            let ms = r.groups[i].models@;
            &&& r.next(name, tried) is None <==> forall|k: int|
                0 <= k < ms.len() && (#[trigger] ms[k]).enabled ==> (member_target(
                    ms[k],
                ) matches Some((p, m)) ==> tried.contains(p + seq!['/'] + m))
            &&& r.next(name, tried) matches Some(n) ==> {
                &&& 0 <= j < ms.len()
                &&& offers(ms[j], n.provider, n.model)
                &&& n.group == name
                &&& !tried.contains(n.provider + seq!['/'] + n.model)
                &&& forall|k: int|
                    0 <= k < j && (#[trigger] ms[k]).enabled ==> (member_target(
                        ms[k],
                    ) matches Some((p, m)) ==> tried.contains(p + seq!['/'] + m))
            }
        },
        (forall|k: int|
            0 <= k < r.groups.len() ==> !((#[trigger] r.groups[k]).enabled && r.groups[k].name@
                == name)) ==> r.next(name, tried) is None,
{
    reveal_strlit("/");
    assert("/"@ =~= seq!['/']);
    if forall|k: int|
        0 <= k < r.groups.len() ==> !((#[trigger] r.groups[k]).enabled && r.groups[k].name@ == name) {
        lemma_no_enabled_group(r.groups, name);
    }
    if stands_for_group(r.groups, i, name) {
        lemma_enabled_group_at(r.groups, i, name);
        let ms = r.groups[i].models@;
        assert forall|k: int| 0 <= k < ms.len() implies (eligible(#[trigger] ms[k], None, tried)
            <==> ms[k].enabled && !(member_target(ms[k]) matches Some((p, m)) ==> tried.contains(
            p + seq!['/'] + m,
        ))) by {}
        lemma_first_place(name, ms, None, tried)
    } else {
        0
    }
}

/// The names that are listed are those of the enabled groups, in their order.
pub proof fn enabled_groups_are_listed(gs: Seq<ProxyModelGroup>)
    ensures
        enabled_names(gs) == gs.filter(|g: ProxyModelGroup| g.enabled).map_values(
            |g: ProxyModelGroup| g.name@,
        ),
    decreases gs.len(),
{
    reveal(Seq::filter);
    let names = |g: ProxyModelGroup| g.name@;
    let on = |g: ProxyModelGroup| g.enabled;
    if gs.len() > 0 {
        enabled_groups_are_listed(gs.drop_last());
        let rest = gs.drop_last().filter(on);
        if gs.last().enabled {
            assert(rest.push(gs.last()).map_values(names) =~= rest.map_values(names).push(
                gs.last().name@,
            ));
        }
    } else {
        assert(gs.filter(on).map_values(names) =~= Seq::empty());
    }
}

} // verus!
