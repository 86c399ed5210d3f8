//! Subscriptions of a connection, each with its own context: which values a
//! client is sent, and the cached values it gets when it connects.
use vstd::prelude::*;
use crate::messages::{all_warnings, subscription_warnings, Subscription, SubscriptionPolicy};
use crate::model::{filter_by_mask, filter_delta_by, opt_delta_view, Delta, DeltaView};
use crate::path::{glob_match, split_dots, str_eq, strs_view, well_formed_path, PathPattern};
use crate::replay::{build_cached_delta, cached_candidates, cached_delta_is};
use crate::store::MemoryStore;

verus! {

broadcast use vstd::string::group_string_axioms;

/// Whether a subscription context accepts a context: `*` accepts every
/// context, `vessels.self` that context and every `vessels.urn:` context, any
/// other only itself.
pub open spec fn scope_matches(sub: Seq<char>, ctx: Seq<char>) -> bool {
    if sub == "*"@ {
        true
    } else if sub == "vessels.self"@ {
        ctx == "vessels.self"@ || (ctx.len() >= "vessels.urn:"@.len() && ctx.take("vessels.urn:"@.len() as int) == "vessels.urn:"@)
    } else {
        sub == ctx
    }
}

/// A subscription as a mathematical value.
pub ghost struct SubscriptionView {
    pub context: Seq<char>,
    pub pattern: Seq<char>,
    pub period: Option<u64>,
    pub min_period: Option<u64>,
    pub policy: SubscriptionPolicy,
}

/// Whether the subscription accepts the path in the context.
pub open spec fn sub_matches(s: SubscriptionView, ctx: Seq<char>, path: Seq<char>) -> bool {
    scope_matches(s.context, ctx) && glob_match(s.pattern, path)
}

/// One subscription: a context and a path pattern, with its rates.
#[derive(Debug)]
pub struct ClientSubscription {
    pub context: String,
    pub path: String,
    pub period: Option<u64>,
    pub min_period: Option<u64>,
    pub policy: SubscriptionPolicy,
    /// The compiled pattern of `path`.
    pub matcher: PathPattern,
}

impl View for ClientSubscription {
    type V = SubscriptionView;

    closed spec fn view(&self) -> SubscriptionView {
        SubscriptionView {
            context: self.context@,
            pattern: self.matcher@,
            period: self.period,
            min_period: self.min_period,
            policy: self.policy,
        }
    }
}

fn scope_matches_exec(sub: &str, ctx: &str) -> (r: bool)
    ensures
        r == scope_matches(sub@, ctx@),
{
    proof {
        reveal_strlit("*");
        reveal_strlit("vessels.self");
        reveal_strlit("vessels.urn:");
    }
    if str_eq(sub, "*") {
        return true;
    }
    if str_eq(sub, "vessels.self") {
        if str_eq(ctx, "vessels.self") {
            return true;
        }
        let prefix = "vessels.urn:";
        let n = prefix.unicode_len();
        if ctx.unicode_len() >= n {
            let head = ctx.substring_char(0, n);
            assert(head@ =~= ctx@.take(n as int));
            return str_eq(head, prefix);
        }
        return false;
    }
    str_eq(sub, ctx)
}

impl ClientSubscription {
    /// A subscription to a pattern in a context, instant and without rates.
    pub fn new(context: &str, path: &str) -> (r: Self)
        requires
            well_formed_path(path@),
        ensures
            r@ == (SubscriptionView {
                context: context@,
                pattern: path@,
                period: None,
                min_period: None,
                policy: SubscriptionPolicy::Instant,
            }),
            r.path@ == path@,
            r.period is None,
            r.min_period is None,
            r.policy == SubscriptionPolicy::Instant,
    {
        ClientSubscription {
            context: context.to_owned(),
            path: path.to_owned(),
            period: None,
            min_period: None,
            policy: SubscriptionPolicy::Instant,
            matcher: PathPattern::compile(path),
        }
    }

    /// A subscription from an entry of a subscribe request; the policy is
    /// instant when the entry names none.
    pub fn from_protocol(context: &str, sub: &Subscription) -> (r: Self)
        requires
            well_formed_path(sub.path@),
        ensures
            r@ == entry_view(context@, *sub),
            r.path@ == sub.path@,
            r.period == sub.period,
            r.min_period == sub.min_period,
            r.policy == (match sub.policy {
                Some(p) => p,
                None => SubscriptionPolicy::Instant,
            }),
    {
        let mut r = ClientSubscription::new(context, sub.path.as_str());
        r.period = sub.period;
        r.min_period = sub.min_period;
        r.policy = match sub.policy {
            Some(p) => p,
            None => SubscriptionPolicy::Instant,
        };
        r
    }

    /// A copy of this subscription.
    pub fn duplicate(&self) -> (r: Self)
        ensures
            r@ == self@,
            r.path@ == self.path@,
    {
        ClientSubscription {
            context: self.context.clone(),
            path: self.path.clone(),
            period: self.period,
            min_period: self.min_period,
            policy: self.policy,
            matcher: self.matcher.duplicate(),
        }
    }

    /// Whether the subscription accepts the path in the context.
    pub fn matches(&self, context: &str, path: &str) -> (r: bool)
        ensures
            r == sub_matches(self@, context@, path@),
    {
        self.matches_context(context) && self.matcher.matches(path)
    }

    /// Whether the subscription's context accepts the context.
    pub fn matches_context(&self, context: &str) -> (r: bool)
        ensures
            r == scope_matches(self@.context, context@),
    {
        scope_matches_exec(self.context.as_str(), context)
    }
}

/// The subscriptions of a connection.
#[derive(Debug)]
pub struct SubscriptionManager {
    self_urn: String,
    subscriptions: Vec<ClientSubscription>,
}

pub open spec fn subs_view(s: Seq<ClientSubscription>) -> Seq<SubscriptionView> {
    s.map_values(|c: ClientSubscription| c@)
}

/// Whether some subscription accepts the path in the context.
pub open spec fn any_sub_matches(subs: Seq<SubscriptionView>, ctx: Seq<char>, path: Seq<char>) -> bool {
    exists|i: int| 0 <= i < subs.len() && sub_matches(#[trigger] subs[i], ctx, path)
}

/// The context a delta is read in: its own, or `vessels.self` when it has none.
pub open spec fn delta_context(d: DeltaView) -> Seq<char> {
    match d.context {
        Some(c) => c,
        None => "vessels.self"@,
    }
}

/// The subscription an entry of a subscribe request makes in a context;
/// the policy is instant when the entry names none.
pub open spec fn entry_view(ctx: Seq<char>, sub: Subscription) -> SubscriptionView {
    SubscriptionView {
        context: ctx,
        pattern: sub.path@,
        period: sub.period,
        min_period: sub.min_period,
        policy: match sub.policy {
            Some(p) => p,
            None => SubscriptionPolicy::Instant,
        },
    }
}

/// Whether some entry of the request names this pattern string.
pub open spec fn named_in_request(subs: Seq<Subscription>, p: Seq<char>) -> bool {
    exists|j: int| 0 <= j < subs.len() && (#[trigger] subs[j]).path@ == p
}

/// Whether some subscription has this pattern string.
pub open spec fn has_sub(acc: Seq<SubscriptionView>, p: Seq<char>) -> bool {
    exists|k: int| 0 <= k < acc.len() && (#[trigger] acc[k]).pattern == p
}

/// The subscriptions after the entries of a request are added in order: an
/// entry whose pattern does not compile, or whose string is already there,
/// adds nothing.
pub open spec fn add_entries(acc: Seq<SubscriptionView>, ctx: Seq<char>, subs: Seq<Subscription>) -> Seq<SubscriptionView>
    decreases subs.len(),
{
    if subs.len() == 0 {
        acc
    } else {
        let a = add_entries(acc, ctx, subs.drop_last());
        let e = subs.last();
        if well_formed_path(e.path@) && !has_sub(a, e.path@) {
            a.push(entry_view(ctx, e))
        } else {
            a
        }
    }
}

/// The subscriptions after a subscribe request in `ctx`: those whose pattern
/// string the request names are replaced, the others stay in order, and the
/// request's entries follow.
pub open spec fn subscribe_request_spec(old: Seq<SubscriptionView>, ctx: Seq<char>, subs: Seq<Subscription>) -> Seq<SubscriptionView> {
    add_entries(old.filter(|v: SubscriptionView| !named_in_request(subs, v.pattern)), ctx, subs)
}

/// No two subscriptions share a pattern string.
pub open spec fn patterns_distinct(subs: Seq<SubscriptionView>) -> bool {
    forall|a: int, b: int| 0 <= a < b < subs.len() ==> subs[a].pattern != subs[b].pattern
}

proof fn lemma_filter_distinct(s: Seq<SubscriptionView>, keep: spec_fn(SubscriptionView) -> bool)
    requires
        patterns_distinct(s),
    ensures
        patterns_distinct(s.filter(keep)),
    decreases s.len(),
{
    reveal(Seq::filter);
    if s.len() > 0 {
        let d = s.drop_last();
        assert forall|a: int, b: int| 0 <= a < b < d.len() implies d[a].pattern != d[b].pattern by {
            assert(d[a] == s[a] && d[b] == s[b]);
        }
        lemma_filter_distinct(d, keep);
        let f = d.filter(keep);
        if keep(s.last()) {
            assert forall|a: int| 0 <= a < f.len() implies f[a].pattern != s.last().pattern by {
                assert(f.contains(f[a]));
                d.lemma_filter_contains_rev(keep, f[a]);
                let k = choose|k: int| 0 <= k < d.len() && d[k] == f[a];
                assert(s[k] == d[k]);
            }
            let g = f.push(s.last());
            assert forall|a: int, b: int| 0 <= a < b < g.len() implies g[a].pattern != g[b].pattern by {
                assert(g[a] == f[a]);
                if b < f.len() {
                    assert(g[b] == f[b]);
                }
            }
        }
    }
}

proof fn lemma_add_entries_distinct(acc: Seq<SubscriptionView>, ctx: Seq<char>, subs: Seq<Subscription>)
    requires
        patterns_distinct(acc),
    ensures
        patterns_distinct(add_entries(acc, ctx, subs)),
    decreases subs.len(),
{
    if subs.len() > 0 {
        lemma_add_entries_distinct(acc, ctx, subs.drop_last());
        let a = add_entries(acc, ctx, subs.drop_last());
        let e = subs.last();
        if well_formed_path(e.path@) && !has_sub(a, e.path@) {
            let g = a.push(entry_view(ctx, e));
            assert forall|x: int, y: int| 0 <= x < y < g.len() implies g[x].pattern != g[y].pattern by {
                assert(g[x] == a[x]);
                if y < a.len() {
                    assert(g[y] == a[y]);
                }
            }
        }
    }
}

/// A subscribe request leaves no two subscriptions with one pattern string,
/// when there were none before.
pub proof fn lemma_subscribe_request_distinct(old: Seq<SubscriptionView>, ctx: Seq<char>, subs: Seq<Subscription>)
    requires
        patterns_distinct(old),
    ensures
        patterns_distinct(subscribe_request_spec(old, ctx, subs)),
{
    lemma_filter_distinct(old, |v: SubscriptionView| !named_in_request(subs, v.pattern));
    lemma_add_entries_distinct(old.filter(|v: SubscriptionView| !named_in_request(subs, v.pattern)), ctx, subs);
}

proof fn lemma_add_entries_prefix(acc: Seq<SubscriptionView>, ctx: Seq<char>, subs: Seq<Subscription>)
    ensures
        add_entries(acc, ctx, subs).len() >= acc.len(),
        forall|k: int| 0 <= k < acc.len() ==> #[trigger] add_entries(acc, ctx, subs)[k] == acc[k],
        forall|k: int| acc.len() <= k < add_entries(acc, ctx, subs).len() ==> (#[trigger] add_entries(acc, ctx, subs)[k]).context == ctx,
    decreases subs.len(),
{
    if subs.len() > 0 {
        lemma_add_entries_prefix(acc, ctx, subs.drop_last());
    }
}

proof fn lemma_add_entries_covers(acc: Seq<SubscriptionView>, ctx: Seq<char>, subs: Seq<Subscription>, j: int)
    requires
        0 <= j < subs.len(),
        well_formed_path(subs[j].path@),
    ensures
        has_sub(add_entries(acc, ctx, subs), subs[j].path@),
    decreases subs.len(),
{
    let d = subs.drop_last();
    let a = add_entries(acc, ctx, d);
    lemma_add_entries_prefix(a, ctx, seq![subs.last()]);
    if j < subs.len() - 1 {
        assert(d[j] == subs[j]);
        lemma_add_entries_covers(acc, ctx, d, j);
        let k = choose|k: int| 0 <= k < a.len() && (#[trigger] a[k]).pattern == subs[j].path@;
        if well_formed_path(subs.last().path@) && !has_sub(a, subs.last().path@) {
            assert(add_entries(acc, ctx, subs)[k] == a[k]);
        }
    } else {
        if has_sub(a, subs[j].path@) {
            let k = choose|k: int| 0 <= k < a.len() && (#[trigger] a[k]).pattern == subs[j].path@;
            assert(add_entries(acc, ctx, subs)[k] == a[k]);
        } else {
            assert(add_entries(acc, ctx, subs)[a.len() as int].pattern == subs[j].path@);
        }
    }
}

/// A subscribe request never takes a match away: whatever the old
/// subscriptions accepted is still accepted, provided each subscription the
/// request replaces was already in the request's context.
pub proof fn lemma_subscribe_request_monotone(old: Seq<SubscriptionView>, ctx: Seq<char>, subs: Seq<Subscription>, c: Seq<char>, p: Seq<char>)
    requires
        forall|i: int| 0 <= i < old.len() ==> well_formed_path(#[trigger] old[i].pattern),
        forall|i: int| 0 <= i < old.len() && named_in_request(subs, (#[trigger] old[i]).pattern) ==> old[i].context == ctx,
        any_sub_matches(old, c, p),
    ensures
        any_sub_matches(subscribe_request_spec(old, ctx, subs), c, p),
{
    let keep = |v: SubscriptionView| !named_in_request(subs, v.pattern);
    let kept = old.filter(keep);
    let out = add_entries(kept, ctx, subs);
    let i = choose|i: int| 0 <= i < old.len() && sub_matches(#[trigger] old[i], c, p);
    let t = old[i];
    lemma_add_entries_prefix(kept, ctx, subs);
    if keep(t) {
        old.lemma_filter_contains(keep, i);
        let k = choose|k: int| 0 <= k < kept.len() && kept[k] == t;
        assert(out[k] == t);
        assert(sub_matches(out[k], c, p));
    } else {
        let j = choose|j: int| 0 <= j < subs.len() && (#[trigger] subs[j]).path@ == t.pattern;
        lemma_add_entries_covers(kept, ctx, subs, j);
        let k = choose|k: int| 0 <= k < out.len() && (#[trigger] out[k]).pattern == subs[j].path@;
        if k < kept.len() {
            #[allow(deprecated)]
            old.filter_lemma(keep);
            assert(keep(kept[k]));
            assert(out[k] == kept[k]);
            assert(named_in_request(subs, kept[k].pattern));
        }
        assert(out[k].context == ctx);
        assert(sub_matches(out[k], c, p));
    }
}

impl SubscriptionManager {
    /// A manager with no subscriptions.
    pub fn new(self_urn: &str) -> (r: Self)
        ensures
            r.subscriptions() == Seq::<SubscriptionView>::empty(),
            r.self_urn()@ == self_urn@,
            patterns_distinct(r.subscriptions()),
    {
        let r = SubscriptionManager { self_urn: self_urn.to_owned(), subscriptions: Vec::new() };
        assert(subs_view(r.subscriptions@) =~= Seq::empty());
        r
    }

    #[verifier::type_invariant]
    spec fn inv(self) -> bool {
        patterns_distinct(subs_view(self.subscriptions@))
    }

    /// The subscriptions, in order.
    pub closed spec fn subscriptions(&self) -> Seq<SubscriptionView> {
        subs_view(self.subscriptions@)
    }

    /// The own vessel of this manager.
    pub closed spec fn self_urn(&self) -> String {
        self.self_urn
    }

    /// Subscribes to every path of the own vessel, replacing a subscription
    /// to `*` if there is one.
    pub fn subscribe_self_all(&mut self)
        ensures
            patterns_distinct(final(self).subscriptions()),
            final(self).subscriptions() == old(self).subscriptions().filter(|v: SubscriptionView| v.pattern != "*"@).push(
                SubscriptionView {
                    context: "vessels.self"@,
                    pattern: "*"@,
                    period: None,
                    min_period: None,
                    policy: SubscriptionPolicy::Instant,
                },
            ),
            final(self).self_urn() == old(self).self_urn(),
    {
        proof {
            reveal_strlit("*");
            reveal_strlit("vessels.self");
            assert(split_dots("*"@) =~= seq!["*"@]) by {
                assert("*"@.drop_last() =~= Seq::<char>::empty());
                assert(crate::path::split_by(Seq::<char>::empty(), '.') == seq![Seq::<char>::empty()]);
                assert(Seq::<char>::empty().push('*') =~= "*"@);
            }
        }
        proof {
            use_type_invariant(&*self);
            lemma_filter_distinct(self.subscriptions(), |x: SubscriptionView| x.pattern != "*"@);
        }
        let mut v = self.without_pattern("*");
        let ghost before = v@;
        let ghost keep = |x: SubscriptionView| x.pattern != "*"@;
        proof {
            #[allow(deprecated)]
            self.subscriptions().filter_lemma(keep);
        }
        v.push(ClientSubscription::new("vessels.self", "*"));
        let ghost after = subs_view(v@);
        assert(after =~= subs_view(before).push(v@.last()@));
        assert forall|a: int, b: int| 0 <= a < b < after.len() implies after[a].pattern != after[b].pattern by {
            assert(after[a] == subs_view(before)[a]);
            if b < subs_view(before).len() {
                assert(after[b] == subs_view(before)[b]);
            } else {
                assert(keep(subs_view(before)[a]));
            }
        }
        self.subscriptions = v;
    }

    /// Drops every subscription.
    pub fn subscribe_none(&mut self)
        ensures
            patterns_distinct(final(self).subscriptions()),
            final(self).subscriptions() == Seq::<SubscriptionView>::empty(),
            final(self).self_urn() == old(self).self_urn(),
    {
        self.subscriptions = Vec::new();
        assert(subs_view(self.subscriptions@) =~= Seq::empty());
    }

    /// Replaces the subscriptions with one to every path of every context.
    pub fn subscribe_all(&mut self)
        ensures
            patterns_distinct(final(self).subscriptions()),
            final(self).subscriptions() == seq![
                SubscriptionView {
                    context: "*"@,
                    pattern: "*"@,
                    period: None,
                    min_period: None,
                    policy: SubscriptionPolicy::Instant,
                },
            ],
            final(self).self_urn() == old(self).self_urn(),
    {
        proof {
            reveal_strlit("*");
            assert(split_dots("*"@) =~= seq!["*"@]) by {
                assert("*"@.drop_last() =~= Seq::<char>::empty());
                assert(crate::path::split_by(Seq::<char>::empty(), '.') == seq![Seq::<char>::empty()]);
                assert(Seq::<char>::empty().push('*') =~= "*"@);
            }
        }
        let mut v: Vec<ClientSubscription> = Vec::new();
        v.push(ClientSubscription::new("*", "*"));
        assert(subs_view(v@) =~= seq![v@[0]@]);
        self.subscriptions = v;
    }

    /// The subscriptions whose pattern string is not `path`, in order.
    fn without_pattern(&self, path: &str) -> (r: Vec<ClientSubscription>)
        ensures
            subs_view(r@) == self.subscriptions().filter(|v: SubscriptionView| v.pattern != path@),
    {
        let ghost all = subs_view(self.subscriptions@);
        let ghost keep = |v: SubscriptionView| v.pattern != path@;
        let mut kept: Vec<ClientSubscription> = Vec::new();
        let mut i: usize = 0;
        while i < self.subscriptions.len()
            invariant
                all == subs_view(self.subscriptions@),
                keep == (|v: SubscriptionView| v.pattern != path@),
                i <= self.subscriptions@.len(),
                subs_view(kept@) == all.take(i as int).filter(keep),
            decreases self.subscriptions.len() - i,
        {
            let s = &self.subscriptions[i];
            assert(all.take(i as int + 1).drop_last() =~= all.take(i as int));
            assert(all[i as int] == s@);
            proof {
                reveal(Seq::filter);
            }
            if !str_eq(s.matcher.as_str(), path) {
                let ghost before = kept@;
                kept.push(s.duplicate());
                assert(subs_view(kept@) =~= subs_view(before).push(s@));
            }
            i = i + 1;
        }
        assert(all.take(all.len() as int) =~= all);
        kept
    }

    /// Subscribes in `context` to each entry of a request: the subscriptions
    /// whose pattern string the request names are replaced; an entry whose
    /// pattern does not compile is dropped, the others are added in order,
    /// once per pattern string. Returns the warnings the entries give.
    pub fn add_subscriptions(&mut self, context: &str, subs: &[Subscription]) -> (r: Vec<String>)
        ensures
            patterns_distinct(final(self).subscriptions()),
            final(self).subscriptions() == subscribe_request_spec(old(self).subscriptions(), context@, subs@),
            final(self).self_urn() == old(self).self_urn(),
            strs_view(r@) == all_warnings(subs@),
    {
        proof {
            use_type_invariant(&*self);
            lemma_subscribe_request_distinct(self.subscriptions(), context@, subs@);
        }
        let warnings = subscription_warnings(subs);
        let ghost all = subs_view(self.subscriptions@);
        let ghost keep = |v: SubscriptionView| !named_in_request(subs@, v.pattern);
        let mut kept: Vec<ClientSubscription> = Vec::new();
        let mut i: usize = 0;
        while i < self.subscriptions.len()
            invariant
                all == subs_view(self.subscriptions@),
                keep == (|v: SubscriptionView| !named_in_request(subs@, v.pattern)),
                i <= self.subscriptions@.len(),
                subs_view(kept@) == all.take(i as int).filter(keep),
            decreases self.subscriptions.len() - i,
        {
            let s = &self.subscriptions[i];
            let mut named = false;
            let mut j: usize = 0;
            while j < subs.len()
                invariant
                    j <= subs@.len(),
                    named <==> exists|k: int| 0 <= k < j && (#[trigger] subs@[k]).path@ == s@.pattern,
                decreases subs.len() - j,
            {
                if str_eq(subs[j].path.as_str(), s.matcher.as_str()) {
                    named = true;
                }
                j = j + 1;
            }
            assert(all.take(i as int + 1).drop_last() =~= all.take(i as int));
            assert(all[i as int] == s@);
            proof {
                reveal(Seq::filter);
            }
            if !named {
                let ghost before = kept@;
                kept.push(s.duplicate());
                assert(subs_view(kept@) =~= subs_view(before).push(s@));
            }
            i = i + 1;
        }
        assert(all.take(all.len() as int) =~= all);
        let ghost base = subs_view(kept@);
        let mut j: usize = 0;
        assert(subs@.take(0) =~= Seq::<Subscription>::empty());
        while j < subs.len()
            invariant
                j <= subs@.len(),
                subs_view(kept@) == add_entries(base, context@, subs@.take(j as int)),
            decreases subs.len() - j,
        {
            let sub = &subs[j];
            assert(subs@.take(j as int + 1).drop_last() =~= subs@.take(j as int));
            assert(subs@.take(j as int + 1).last() == *sub);
            let ghost acc = subs_view(kept@);
            if PathPattern::new(sub.path.as_str()).is_ok() {
                let mut present = false;
                let mut k: usize = 0;
                while k < kept.len()
                    invariant
                        k <= kept@.len(),
                        acc == subs_view(kept@),
                        present <==> exists|m: int| 0 <= m < k && (#[trigger] acc[m]).pattern == sub.path@,
                    decreases kept.len() - k,
                {
                    assert(acc[k as int] == kept@[k as int]@);
                    if str_eq(kept[k].matcher.as_str(), sub.path.as_str()) {
                        present = true;
                    }
                    k = k + 1;
                }
                if !present {
                    let ghost before = kept@;
                    kept.push(ClientSubscription::from_protocol(context, sub));
                    assert(subs_view(kept@) =~= subs_view(before).push(entry_view(context@, *sub)));
                }
            }
            j = j + 1;
        }
        assert(subs@.take(subs@.len() as int) =~= subs@);
        self.subscriptions = kept;
        warnings
    }

    /// Drops every subscription for the path `*`; otherwise the
    /// subscriptions with exactly this pattern string, whatever their context.
    pub fn remove_subscription(&mut self, context: &str, path: &str)
        ensures
            patterns_distinct(final(self).subscriptions()),
            final(self).self_urn() == old(self).self_urn(),
            final(self).subscriptions() == (if path@ == "*"@ {
                Seq::<SubscriptionView>::empty()
            } else {
                old(self).subscriptions().filter(|v: SubscriptionView| v.pattern != path@)
            }),
    {
        proof {
            reveal_strlit("*");
        }
        if str_eq(path, "*") {
            self.subscriptions = Vec::new();
            assert(subs_view(self.subscriptions@) =~= Seq::empty());
            return;
        }
        proof {
            use_type_invariant(&*self);
            lemma_filter_distinct(self.subscriptions(), |v: SubscriptionView| v.pattern != path@);
        }
        self.subscriptions = self.without_pattern(path);
    }

    /// Whether some subscription accepts the path in the context.
    pub fn matches(&self, context: &str, path: &str) -> (r: bool)
        ensures
            r == any_sub_matches(self.subscriptions(), context@, path@),
    {
        let ghost subs = self.subscriptions();
        let mut i: usize = 0;
        while i < self.subscriptions.len()
            invariant
                subs == subs_view(self.subscriptions@),
                i <= self.subscriptions@.len(),
                forall|j: int| 0 <= j < i ==> !sub_matches(#[trigger] subs[j], context@, path@),
            decreases self.subscriptions.len() - i,
        {
            if self.subscriptions[i].matches(context, path) {
                assert(sub_matches(subs[i as int], context@, path@));
                return true;
            }
            i = i + 1;
        }
        false
    }

    /// The values of a delta that some subscription accepts in the delta's
    /// context (`vessels.self` when it has none), or nothing when none is.
    pub fn filter_delta(&self, delta: &Delta) -> (r: Option<Delta>)
        ensures
            opt_delta_view(r) == filter_delta_by(
                delta@,
                |p: Seq<char>| any_sub_matches(self.subscriptions(), delta_context(delta@), p),
            ),
    {
        proof {
            reveal_strlit("vessels.self");
        }
        let ctx: &str = match &delta.context {
            Some(c) => c.as_str(),
            None => "vessels.self",
        };
        assert(ctx@ == delta_context(delta@));
        let ghost keep = |p: Seq<char>| any_sub_matches(self.subscriptions(), delta_context(delta@), p);
        let mut masks: Vec<Vec<bool>> = Vec::new();
        let mut u: usize = 0;
        while u < delta.updates.len()
            invariant
                keep == (|p: Seq<char>| any_sub_matches(self.subscriptions(), delta_context(delta@), p)),
                ctx@ == delta_context(delta@),
                u <= delta.updates@.len(),
                masks@.len() == u,
                forall|x: int| 0 <= x < u ==> (#[trigger] masks@[x])@.len() == delta.updates@[x].values@.len(),
                forall|x: int, i: int| 0 <= x < u && 0 <= i < masks@[x]@.len() ==> masks@[x]@[i] == keep(
                    #[trigger] delta.updates@[x].values@[i].path@,
                ),
            decreases delta.updates.len() - u,
        {
            let up = &delta.updates[u];
            let mut mask: Vec<bool> = Vec::new();
            let mut i: usize = 0;
            while i < up.values.len()
                invariant
                    keep == (|p: Seq<char>| any_sub_matches(self.subscriptions(), delta_context(delta@), p)),
                    ctx@ == delta_context(delta@),
                    i <= up.values@.len(),
                    mask@.len() == i,
                    forall|j: int| 0 <= j < i ==> mask@[j] == keep(#[trigger] up.values@[j].path@),
                decreases up.values.len() - i,
            {
                mask.push(self.matches(ctx, up.values[i].path.as_str()));
                i = i + 1;
            }
            masks.push(mask);
            u = u + 1;
        }
        filter_by_mask(delta, &masks, Ghost(keep))
    }

    /// The cached values a client is sent when it connects: see
    /// `cached_delta`, with the relative paths some subscription accepts in
    /// `vessels.self`. Nothing without subscriptions.
    pub fn get_initial_delta(&self, store: &MemoryStore) -> (r: Option<Delta>)
        ensures
            self.subscriptions().len() == 0 ==> r is None,
            self.subscriptions().len() > 0 ==> cached_delta_is(
                r,
                |p: Seq<char>| any_sub_matches(self.subscriptions(), "vessels.self"@, p),
                split_dots(store@.self_urn),
                store.leaf_seq(),
            ),
    {
        proof {
            reveal_strlit("vessels.self");
        }
        if self.subscriptions.len() == 0 {
            return None;
        }
        let ghost keep = |p: Seq<char>| any_sub_matches(self.subscriptions(), "vessels.self"@, p);
        let candidates = cached_candidates(store);
        let mut mask: Vec<bool> = Vec::new();
        let mut i: usize = 0;
        while i < candidates.len()
            invariant
                keep == (|p: Seq<char>| any_sub_matches(self.subscriptions(), "vessels.self"@, p)),
                i <= candidates@.len(),
                mask@.len() == i,
                forall|j: int| 0 <= j < i ==> #[trigger] mask@[j] == (candidates@[j] matches Some(x) && keep(x@)),
            decreases candidates.len() - i,
        {
            proof {
                reveal_strlit("vessels.self");
            }
            let wanted = match &candidates[i] {
                Some(x) => self.matches("vessels.self", x.as_str()),
                None => false,
            };
            mask.push(wanted);
            i = i + 1;
        }
        build_cached_delta(store, &candidates, &mask, Ghost(keep))
    }
}

} // verus!
