//! Per-client subscription state: the context filter, the throttled path
//! patterns, how subscribe and unsubscribe requests change them, and which
//! values of a delta a client is sent.
use vstd::prelude::*;
use crate::messages::{ClientMessage, SubscribeRequest, UnsubscribeRequest};
use crate::model::{filter_by_mask, filter_delta_by, opt_delta_view, Delta, DeltaView};
use crate::replay::{build_cached_delta, cached_candidates, cached_delta_is};
use crate::store::MemoryStore;
use crate::path::{
    find_char, first_of, glob_match, split_by, split_dots, split_text, str_eq, well_formed_path, PathPattern,
};

verus! {

broadcast use vstd::string::group_string_axioms;

// ---------------------------------------------------------------------------
// Connection parameters
// ---------------------------------------------------------------------------

/// The subscription a connection starts with.
#[derive(Debug, Clone, Copy, PartialEq, Eq, Default)]
pub enum SubscribeMode {
    /// Every path of the server's own vessel.
    #[default]
    Self_,
    /// Every path of every context.
    All,
    /// Nothing until the client subscribes.
    None_,
}

/// The lower-case form of a string, as `str::to_lowercase` gives it.
pub uninterp spec fn lowercase_of(s: Seq<char>) -> Seq<char>;

/// Relies on `str::to_lowercase`: the result depends on the characters alone.
#[verifier::external_body]
fn to_lowercase(s: &str) -> (r: String)
    ensures
        r@ == lowercase_of(s@),
{
    s.to_lowercase()
}

/// The mode a lower-case parameter value names: `all`, `none`, else self.
pub open spec fn mode_of(lower: Seq<char>) -> SubscribeMode {
    if lower == "all"@ {
        SubscribeMode::All
    } else if lower == "none"@ {
        SubscribeMode::None_
    } else {
        SubscribeMode::Self_
    }
}

/// The mode a lower-case parameter value names.
pub fn mode_from_lowercase(lower: &str) -> (r: SubscribeMode)
    ensures
        r == mode_of(lower@),
{
    proof {
        reveal_strlit("all");
        reveal_strlit("none");
    }
    if str_eq(lower, "all") {
        SubscribeMode::All
    } else if str_eq(lower, "none") {
        SubscribeMode::None_
    } else {
        SubscribeMode::Self_
    }
}

impl SubscribeMode {
    /// The mode a parameter value names, in any case.
    pub fn from_str(s: &str) -> (r: Self)
        ensures
            r == mode_of(lowercase_of(s@)),
    {
        let lower = to_lowercase(s);
        mode_from_lowercase(lower.as_str())
    }
}

/// The connection parameters of a stream.
#[derive(Debug, Clone, Copy, PartialEq, Eq)]
pub struct WsQueryParams {
    pub subscribe: SubscribeMode,
    pub send_cached_values: bool,
}

/// The parameters of a connection that names none.
pub open spec fn default_params() -> WsQueryParams {
    WsQueryParams { subscribe: SubscribeMode::Self_, send_cached_values: true }
}

impl Default for WsQueryParams {
    fn default() -> (r: Self)
        ensures
            r == default_params(),
    {
        WsQueryParams { subscribe: SubscribeMode::Self_, send_cached_values: true }
    }
}

/// The parameters after one `key=value` pair; pairs without `=` and unknown
/// keys change nothing.
pub open spec fn apply_param(p: WsQueryParams, pair: Seq<char>) -> WsQueryParams {
    let k = first_of(pair, '=');
    if k < pair.len() {
        let key = pair.take(k);
        let value = pair.subrange(k + 1, pair.len() as int);
        if key == "subscribe"@ {
            WsQueryParams { subscribe: mode_of(lowercase_of(value)), ..p }
        } else if key == "sendCachedValues"@ {
            WsQueryParams { send_cached_values: value != "false"@, ..p }
        } else {
            p
        }
    } else {
        p
    }
}

/// The parameters after a list of pairs, in order.
pub open spec fn apply_params(p: WsQueryParams, pairs: Seq<Seq<char>>) -> WsQueryParams
    decreases pairs.len(),
{
    if pairs.len() == 0 {
        p
    } else {
        apply_param(apply_params(p, pairs.drop_last()), pairs.last())
    }
}

/// The parameters a query string such as `subscribe=all&sendCachedValues=false` sets.
pub open spec fn parse_query(query: Seq<char>) -> WsQueryParams {
    apply_params(default_params(), split_by(query, '&'))
}

impl WsQueryParams {
    /// Reads the parameters of a query string.
    pub fn parse(query: &str) -> (r: Self)
        ensures
            r == parse_query(query@),
    {
        proof {
            reveal_strlit("subscribe");
            reveal_strlit("sendCachedValues");
            reveal_strlit("false");
        }
        let pairs = split_text(query, '&');
        let ghost ps = split_by(query@, '&');
        let mut params = WsQueryParams { subscribe: SubscribeMode::Self_, send_cached_values: true };
        let mut i: usize = 0;
        assert(ps.take(0) =~= Seq::<Seq<char>>::empty());
        while i < pairs.len()
            invariant
                crate::path::strs_view(pairs@) == ps,
                i <= pairs@.len(),
                params == apply_params(default_params(), ps.take(i as int)),
            decreases pairs.len() - i,
        {
            let pair = pairs[i].as_str();
            assert(ps[i as int] == pair@);
            assert(ps.take(i as int + 1).drop_last() =~= ps.take(i as int));
            let n = pair.unicode_len();
            let k = find_char(pair, '=');
            if k < n {
                let key = pair.substring_char(0, k);
                let value = pair.substring_char(k + 1, n);
                assert(key@ =~= pair@.take(k as int));
                if str_eq(key, "subscribe") {
                    params.subscribe = SubscribeMode::from_str(value);
                } else if str_eq(key, "sendCachedValues") {
                    params.send_cached_values = !str_eq(value, "false");
                }
            }
            i = i + 1;
        }
        assert(ps.take(pairs@.len() as int) =~= ps);
        params
    }
}

// ---------------------------------------------------------------------------
// Throttled patterns
// ---------------------------------------------------------------------------

/// The least period a subscription gets when it names none.
pub const DEFAULT_MIN_PERIOD_MS: u64 = 0;

/// A throttled pattern as a mathematical value.
pub ghost struct ThrottleView {
    pub pattern: Seq<char>,
    pub period_ms: u64,
    pub min_period_ms: u64,
    pub last_sent: Option<u64>,
}

/// Whether a pattern may send at `now`: it has no least period, has never
/// sent, or sent at least the least period ago.
pub open spec fn ready(t: ThrottleView, now: u64) -> bool {
    t.min_period_ms == 0 || match t.last_sent {
        None => true,
        Some(last) => now >= last && now - last >= t.min_period_ms,
    }
}

/// A path pattern with the time it last sent.
#[derive(Debug)]
pub struct ThrottledPattern {
    pattern: PathPattern,
    min_period_ms: u64,
    period_ms: u64,
    last_sent: Option<u64>,
}

impl View for ThrottledPattern {
    type V = ThrottleView;

    closed spec fn view(&self) -> ThrottleView {
        ThrottleView {
            pattern: self.pattern@,
            period_ms: self.period_ms,
            min_period_ms: self.min_period_ms,
            last_sent: self.last_sent,
        }
    }
}

impl ThrottledPattern {
    /// A pattern that has not sent yet.
    pub fn new(pattern: PathPattern, period_ms: u64, min_period_ms: u64) -> (r: Self)
        ensures
            r@ == (ThrottleView { pattern: pattern@, period_ms, min_period_ms, last_sent: None }),
    {
        ThrottledPattern { pattern, min_period_ms, period_ms, last_sent: None }
    }

    /// A pattern without throttling.
    pub fn instant(pattern: PathPattern) -> (r: Self)
        ensures
            r@ == (ThrottleView { pattern: pattern@, period_ms: 0, min_period_ms: 0, last_sent: None }),
    {
        Self::new(pattern, 0, 0)
    }

    /// The pattern string.
    pub fn as_str(&self) -> (r: &str)
        ensures
            r@ == self@.pattern,
    {
        self.pattern.as_str()
    }

    /// Whether the pattern accepts the path.
    pub fn matches(&self, path: &str) -> (r: bool)
        ensures
            r == glob_match(self@.pattern, path@),
    {
        self.pattern.matches(path)
    }

    /// Whether the pattern may send at `now_ms`.
    pub fn should_send(&self, now_ms: u64) -> (r: bool)
        ensures
            r == ready(self@, now_ms),
    {
        if self.min_period_ms == 0 {
            return true;
        }
        match self.last_sent {
            None => true,
            Some(last) => now_ms >= last && now_ms - last >= self.min_period_ms,
        }
    }

    /// Records a send at `now_ms`.
    pub fn mark_sent(&mut self, now_ms: u64)
        ensures
            final(self)@ == (ThrottleView { last_sent: Some(now_ms), ..old(self)@ }),
    {
        self.last_sent = Some(now_ms);
    }

    /// The least period between sends, in milliseconds.
    pub fn min_period_ms(&self) -> (r: u64)
        ensures
            r == self@.min_period_ms,
    {
        self.min_period_ms
    }

    /// The advisory period between sends, in milliseconds.
    pub fn period_ms(&self) -> (r: u64)
        ensures
            r == self@.period_ms,
    {
        self.period_ms
    }

    /// When the pattern last sent, in milliseconds.
    pub fn last_sent(&self) -> (r: Option<u64>)
        ensures
            r == self@.last_sent,
    {
        self.last_sent
    }

    /// A copy of this pattern, throttle state included.
    pub fn duplicate(&self) -> (r: Self)
        ensures
            r@ == self@,
    {
        ThrottledPattern {
            pattern: self.pattern.duplicate(),
            min_period_ms: self.min_period_ms,
            period_ms: self.period_ms,
            last_sent: self.last_sent,
        }
    }
}

// ---------------------------------------------------------------------------
// Client subscriptions
// ---------------------------------------------------------------------------

/// A client subscription as a mathematical value.
pub ghost struct SubView {
    pub context: Option<Seq<char>>,
    pub patterns: Seq<ThrottleView>,
}

pub open spec fn patterns_view(ps: Seq<ThrottledPattern>) -> Seq<ThrottleView> {
    ps.map_values(|t: ThrottledPattern| t@)
}

/// Whether a subscription's context accepts a delta's context: none accepts
/// nothing, `*` everything, `vessels.self` that context and every
/// `vessels.urn:` context; any other only itself.
pub open spec fn context_matches(ctx: Option<Seq<char>>, delta_ctx: Option<Seq<char>>) -> bool {
    match ctx {
        None => false,
        Some(c) => if c == "*"@ {
            true
        } else if c == "vessels.self"@ {
            match delta_ctx {
                Some(d) => d == "vessels.self"@ || (d.len() >= "vessels.urn:"@.len() && d.take(
                    "vessels.urn:"@.len() as int,
                ) == "vessels.urn:"@),
                None => false,
            }
        } else {
            delta_ctx == Some(c)
        },
    }
}

/// Whether some pattern accepts the path.
pub open spec fn any_matches(ps: Seq<ThrottleView>, path: Seq<char>) -> bool {
    exists|i: int| 0 <= i < ps.len() && glob_match(#[trigger] ps[i].pattern, path)
}

/// Whether pattern `i` accepts the path and may send at `now`.
pub open spec fn sends(ps: Seq<ThrottleView>, path: Seq<char>, now: u64, i: int) -> bool {
    0 <= i < ps.len() && glob_match(ps[i].pattern, path) && ready(ps[i], now)
}

/// Whether pattern `i` is the first that accepts the path and may send.
pub open spec fn is_first_sender(ps: Seq<ThrottleView>, path: Seq<char>, now: u64, i: int) -> bool {
    sends(ps, path, now, i) && forall|j: int| 0 <= j < i ==> !#[trigger] sends(ps, path, now, j)
}

/// Whether some pattern accepts the path and may send at `now`.
pub open spec fn wants(ps: Seq<ThrottleView>, path: Seq<char>, now: u64) -> bool {
    exists|i: int| #[trigger] sends(ps, path, now, i)
}

/// The delta a client with subscription `s` is sent at `now`: nothing when its
/// context does not match, else the values whose path some pattern accepts
/// and may send, with each update's source, timestamp and metadata.
pub open spec fn forwarded(s: SubView, d: DeltaView, now: u64) -> Option<DeltaView> {
    if context_matches(s.context, d.context) {
        filter_delta_by(d, |p: Seq<char>| wants(s.patterns, p, now))
    } else {
        None
    }
}

/// A client's subscription: a context filter and throttled path patterns.
#[derive(Debug)]
pub struct ClientSubscription {
    pub context: Option<String>,
    pub patterns: Vec<ThrottledPattern>,
}

impl View for ClientSubscription {
    type V = SubView;

    open spec fn view(&self) -> SubView {
        SubView { context: crate::model::opt_view(self.context), patterns: patterns_view(self.patterns@) }
    }
}

pub open spec fn opt_str_view(o: Option<&str>) -> Option<Seq<char>> {
    match o {
        Some(s) => Some(s@),
        None => None,
    }
}

/// The throttled patterns of a list of patterns, without throttling.
pub open spec fn instant_views(ps: Seq<PathPattern>) -> Seq<ThrottleView> {
    ps.map_values(|p: PathPattern| ThrottleView { pattern: p@, period_ms: 0, min_period_ms: 0, last_sent: None })
}

impl Default for ClientSubscription {
    fn default() -> (r: Self)
        ensures
            r@ == (SubView { context: None, patterns: Seq::empty() }),
    {
        let r = ClientSubscription { context: None, patterns: Vec::new() };
        assert(patterns_view(r.patterns@) =~= Seq::empty());
        r
    }
}

impl ClientSubscription {
    /// A subscription with the given throttled patterns.
    pub fn new_throttled(context: Option<String>, patterns: Vec<ThrottledPattern>) -> (r: Self)
        ensures
            r@ == (SubView { context: crate::model::opt_view(context), patterns: patterns_view(patterns@) }),
    {
        ClientSubscription { context, patterns }
    }

    /// A subscription with the given patterns, none throttled.
    pub fn new(context: Option<String>, patterns: Vec<PathPattern>) -> (r: Self)
        ensures
            r@ == (SubView { context: crate::model::opt_view(context), patterns: instant_views(patterns@) }),
    {
        let ghost src = patterns@;
        let mut rest = patterns;
        let mut out: Vec<ThrottledPattern> = Vec::new();
        while rest.len() > 0
            invariant
                rest@.len() <= src.len(),
                rest@ == src.subrange(src.len() - rest@.len(), src.len() as int),
                patterns_view(out@) == instant_views(src).take(src.len() - rest@.len()),
            decreases rest@.len(),
        {
            let ghost k = src.len() - rest@.len();
            let p = rest.remove(0);
            assert(p == src[k]);
            let ghost before = out@;
            out.push(ThrottledPattern::instant(p));
            assert(patterns_view(out@) =~= patterns_view(before).push(instant_views(src)[k]));
            assert(instant_views(src).take(k + 1) =~= instant_views(src).take(k).push(instant_views(src)[k]));
            assert(rest@ =~= src.subrange(src.len() - rest@.len(), src.len() as int));
        }
        assert(instant_views(src).take(src.len() as int) =~= instant_views(src));
        ClientSubscription { context, patterns: out }
    }

    /// Whether some pattern accepts the path.
    pub fn matches_path(&self, path: &str) -> (r: bool)
        ensures
            r == any_matches(self@.patterns, path@),
    {
        let mut i: usize = 0;
        while i < self.patterns.len()
            invariant
                i <= self.patterns@.len(),
                forall|j: int| 0 <= j < i ==> !glob_match(#[trigger] patterns_view(self.patterns@)[j].pattern, path@),
            decreases self.patterns.len() - i,
        {
            if self.patterns[i].matches(path) {
                assert(glob_match(patterns_view(self.patterns@)[i as int].pattern, path@));
                return true;
            }
            i = i + 1;
        }
        false
    }

    /// The first pattern that accepts the path and may send at `now_ms`.
    pub fn should_send_path(&self, path: &str, now_ms: u64) -> (r: Option<usize>)
        ensures
            match r {
                Some(i) => is_first_sender(self@.patterns, path@, now_ms, i as int),
                None => !wants(self@.patterns, path@, now_ms),
            },
    {
        let ghost ps = self@.patterns;
        let mut i: usize = 0;
        while i < self.patterns.len()
            invariant
                ps == self@.patterns,
                i <= self.patterns@.len(),
                forall|j: int| 0 <= j < i ==> !#[trigger] sends(ps, path@, now_ms, j),
            decreases self.patterns.len() - i,
        {
            if self.patterns[i].matches(path) && self.patterns[i].should_send(now_ms) {
                return Some(i);
            }
            i = i + 1;
        }
        None
    }

    /// Records a send at `now_ms` for pattern `index`; an index out of range
    /// changes nothing.
    pub fn mark_sent(&mut self, index: usize, now_ms: u64)
        ensures
            final(self)@ == (if index < old(self)@.patterns.len() {
                SubView {
                    patterns: old(self)@.patterns.update(
                        index as int,
                        ThrottleView { last_sent: Some(now_ms), ..old(self)@.patterns[index as int] },
                    ),
                    ..old(self)@
                }
            } else {
                old(self)@
            }),
    {
        if index < self.patterns.len() {
            let ghost before = self.patterns@;
            let mut p = self.patterns.remove(index);
            p.mark_sent(now_ms);
            self.patterns.insert(index, p);
            assert(patterns_view(self.patterns@) =~= patterns_view(before).update(
                index as int,
                ThrottleView { last_sent: Some(now_ms), ..patterns_view(before)[index as int] },
            ));
        }
    }

    /// The number of patterns.
    pub fn pattern_count(&self) -> (r: usize)
        ensures
            r == self@.patterns.len(),
    {
        self.patterns.len()
    }

    /// Whether the subscription's context accepts the delta's context.
    pub fn matches_context(&self, delta_context: Option<&str>) -> (r: bool)
        ensures
            r == context_matches(self@.context, opt_str_view(delta_context)),
    {
        proof {
            reveal_strlit("*");
            reveal_strlit("vessels.self");
            reveal_strlit("vessels.urn:");
        }
        match &self.context {
            None => false,
            Some(ctx) => {
                if str_eq(ctx.as_str(), "*") {
                    true
                } else if str_eq(ctx.as_str(), "vessels.self") {
                    match delta_context {
                        Some(d) => {
                            let prefix = "vessels.urn:";
                            let n = prefix.unicode_len();
                            if str_eq(d, "vessels.self") {
                                true
                            } else if d.unicode_len() >= n {
                                let head = d.substring_char(0, n);
                                assert(head@ =~= d@.take(n as int));
                                str_eq(head, prefix)
                            } else {
                                false
                            }
                        },
                        None => false,
                    }
                } else {
                    match delta_context {
                        Some(d) => str_eq(ctx.as_str(), d),
                        None => false,
                    }
                }
            },
        }
    }

    /// Whether the subscription has no context and no patterns.
    pub fn is_empty(&self) -> (r: bool)
        ensures
            r == (self@.context is None && self@.patterns.len() == 0),
    {
        self.context.is_none() && self.patterns.len() == 0
    }
}

/// The subscription a connection starts with in each mode: self and all take
/// every path without throttling, of the own vessel or of every context; none
/// takes nothing.
pub open spec fn default_sub(mode: SubscribeMode) -> SubView {
    let star = ThrottleView { pattern: "*"@, period_ms: 0, min_period_ms: 0, last_sent: None };
    match mode {
        SubscribeMode::Self_ => SubView { context: Some("vessels.self"@), patterns: seq![star] },
        SubscribeMode::All => SubView { context: Some("*"@), patterns: seq![star] },
        SubscribeMode::None_ => SubView { context: None, patterns: Seq::empty() },
    }
}

/// The subscription a connection starts with.
pub fn default_subscription_for_mode(mode: SubscribeMode) -> (r: ClientSubscription)
    ensures
        r@ == default_sub(mode),
{
    proof {
        reveal_strlit("*");
        reveal_strlit("vessels.self");
        assert(crate::path::split_dots("*"@) =~= seq!["*"@]) by {
            assert("*"@.drop_last() =~= Seq::<char>::empty());
            assert(crate::path::split_by(Seq::<char>::empty(), '.') == seq![Seq::<char>::empty()]);
            assert(Seq::<char>::empty().push('*') =~= "*"@);
        }
    }
    match mode {
        SubscribeMode::None_ => {
            let r = ClientSubscription { context: None, patterns: Vec::new() };
            assert(patterns_view(r.patterns@) =~= Seq::empty());
            r
        },
        _ => {
            let ctx = match mode {
                SubscribeMode::All => "*".to_owned(),
                _ => "vessels.self".to_owned(),
            };
            proof {
                assert(crate::path::split_dots("*"@)[0].len() > 0);
            }
            let p = PathPattern::compile("*");
            let mut ps: Vec<ThrottledPattern> = Vec::new();
            ps.push(ThrottledPattern::instant(p));
            let r = ClientSubscription { context: Some(ctx), patterns: ps };
            assert(patterns_view(r.patterns@) =~= seq![ThrottleView { pattern: "*"@, period_ms: 0, min_period_ms: 0, last_sent: None }]);
            r
        },
    }
}

// ---------------------------------------------------------------------------
// Subscribe and unsubscribe
// ---------------------------------------------------------------------------

/// One entry of a subscribe request: the path pattern and its rates.
pub ghost struct SubscribeItem {
    pub path: Seq<char>,
    pub period: Option<u64>,
    pub min_period: Option<u64>,
}

pub open spec fn subscribe_items(req: SubscribeRequest) -> Seq<SubscribeItem> {
    req.subscribe@.map_values(
        |x: crate::messages::Subscription| SubscribeItem { path: x.path@, period: x.period, min_period: x.min_period },
    )
}

pub open spec fn unsubscribe_paths(req: UnsubscribeRequest) -> Seq<Seq<char>> {
    req.unsubscribe@.map_values(|x: crate::messages::UnsubscribeSpec| x.path@)
}

/// Whether some entry of the request names this pattern string.
pub open spec fn named_in(items: Seq<SubscribeItem>, p: Seq<char>) -> bool {
    exists|j: int| 0 <= j < items.len() && (#[trigger] items[j]).path == p
}

/// Whether some pattern has this string.
pub open spec fn has_pattern(ps: Seq<ThrottleView>, p: Seq<char>) -> bool {
    exists|k: int| 0 <= k < ps.len() && (#[trigger] ps[k]).pattern == p
}

pub open spec fn or_zero(o: Option<u64>) -> u64 {
    match o {
        Some(v) => v,
        None => 0,
    }
}

/// The patterns after the entries of a subscribe request are added in order:
/// an entry whose pattern does not compile, or whose string is already there,
/// adds nothing; the others add a pattern that has not sent yet.
pub open spec fn add_items(acc: Seq<ThrottleView>, items: Seq<SubscribeItem>) -> Seq<ThrottleView>
    decreases items.len(),
{
    if items.len() == 0 {
        acc
    } else {
        let a = add_items(acc, items.drop_last());
        let it = items.last();
        if well_formed_path(it.path) && !has_pattern(a, it.path) {
            a.push(
                ThrottleView {
                    pattern: it.path,
                    period_ms: or_zero(it.period),
                    min_period_ms: or_zero(it.min_period),
                    last_sent: None,
                },
            )
        } else {
            a
        }
    }
}

/// The subscription after a subscribe request: the patterns the request does
/// not name stay, with their throttle state; the request's patterns follow,
/// fresh; the context becomes the request's.
pub open spec fn subscribe_spec(s: SubView, context: Seq<char>, items: Seq<SubscribeItem>) -> SubView {
    SubView {
        context: Some(context),
        patterns: add_items(s.patterns.filter(|t: ThrottleView| !named_in(items, t.pattern)), items),
    }
}

/// Whether an unsubscribe request removes a pattern: it names `*` or the pattern.
pub open spec fn removed_by(paths: Seq<Seq<char>>, p: Seq<char>) -> bool {
    exists|j: int| 0 <= j < paths.len() && ((#[trigger] paths[j]) == "*"@ || paths[j] == p)
}

/// The subscription after an unsubscribe request: the patterns it removes
/// go; the context becomes none for `*`, else the request's.
pub open spec fn unsubscribe_spec(s: SubView, context: Seq<char>, paths: Seq<Seq<char>>) -> SubView {
    SubView {
        context: if context == "*"@ {
            None
        } else {
            Some(context)
        },
        patterns: s.patterns.filter(|t: ThrottleView| !removed_by(paths, t.pattern)),
    }
}

/// The subscription after a subscribe request.
pub fn apply_subscribe(current: &ClientSubscription, req: &SubscribeRequest) -> (r: ClientSubscription)
    ensures
        r@ == subscribe_spec(current@, req.context@, subscribe_items(*req)),
{
    let ghost items = subscribe_items(*req);
    let ghost keep = |t: ThrottleView| !named_in(items, t.pattern);
    let ghost old_ps = current@.patterns;
    let mut patterns: Vec<ThrottledPattern> = Vec::new();
    let mut i: usize = 0;
    while i < current.patterns.len()
        invariant
            items == subscribe_items(*req),
            keep == (|t: ThrottleView| !named_in(items, t.pattern)),
            old_ps == current@.patterns,
            i <= old_ps.len(),
            patterns_view(patterns@) == old_ps.take(i as int).filter(keep),
        decreases current.patterns.len() - i,
    {
        let existing = &current.patterns[i];
        let mut named = false;
        let mut j: usize = 0;
        while j < req.subscribe.len()
            invariant
                items == subscribe_items(*req),
                j <= req.subscribe@.len(),
                named <==> exists|k: int| 0 <= k < j && (#[trigger] items[k]).path == existing@.pattern,
            decreases req.subscribe.len() - j,
        {
            assert(items[j as int].path == req.subscribe@[j as int].path@);
            if str_eq(req.subscribe[j].path.as_str(), existing.as_str()) {
                named = true;
            }
            j = j + 1;
        }
        assert(old_ps[i as int] == existing@);
        assert(old_ps.take(i as int + 1).drop_last() =~= old_ps.take(i as int));
        proof {
            reveal(Seq::filter);
        }
        if !named {
            let ghost before = patterns@;
            patterns.push(existing.duplicate());
            assert(patterns_view(patterns@) =~= patterns_view(before).push(existing@));
        }
        i = i + 1;
    }
    assert(old_ps.take(old_ps.len() as int) =~= old_ps);
    let ghost base = patterns_view(patterns@);
    let mut j: usize = 0;
    assert(items.take(0) =~= Seq::<SubscribeItem>::empty());
    while j < req.subscribe.len()
        invariant
            items == subscribe_items(*req),
            j <= req.subscribe@.len(),
            patterns_view(patterns@) == add_items(base, items.take(j as int)),
        decreases req.subscribe.len() - j,
    {
        let sub = &req.subscribe[j];
        assert(items[j as int] == SubscribeItem { path: sub.path@, period: sub.period, min_period: sub.min_period });
        assert(items.take(j as int + 1).drop_last() =~= items.take(j as int));
        let ghost acc = patterns_view(patterns@);
        match PathPattern::new(sub.path.as_str()) {
            Ok(pattern) => {
                let mut present = false;
                let mut k: usize = 0;
                while k < patterns.len()
                    invariant
                        k <= patterns@.len(),
                        acc == patterns_view(patterns@),
                        present <==> exists|m: int| 0 <= m < k && (#[trigger] acc[m]).pattern == sub.path@,
                    decreases patterns.len() - k,
                {
                    assert(acc[k as int] == patterns@[k as int]@);
                    if str_eq(patterns[k].as_str(), sub.path.as_str()) {
                        present = true;
                    }
                    k = k + 1;
                }
                if !present {
                    let period_ms = match sub.period {
                        Some(v) => v,
                        None => 0,
                    };
                    let min_period_ms = match sub.min_period {
                        Some(v) => v,
                        None => DEFAULT_MIN_PERIOD_MS,
                    };
                    let ghost before = patterns@;
                    patterns.push(ThrottledPattern::new(pattern, period_ms, min_period_ms));
                    assert(patterns_view(patterns@) =~= patterns_view(before).push(
                        ThrottleView { pattern: sub.path@, period_ms, min_period_ms, last_sent: None },
                    ));
                }
            },
            Err(_) => {},
        }
        j = j + 1;
    }
    assert(items.take(req.subscribe@.len() as int) =~= items);
    ClientSubscription { context: Some(req.context.clone()), patterns }
}

/// The subscription after an unsubscribe request.
pub fn apply_unsubscribe(current: &ClientSubscription, req: &UnsubscribeRequest) -> (r: ClientSubscription)
    ensures
        r@ == unsubscribe_spec(current@, req.context@, unsubscribe_paths(*req)),
{
    proof {
        reveal_strlit("*");
    }
    let ghost paths = unsubscribe_paths(*req);
    let ghost keep = |t: ThrottleView| !removed_by(paths, t.pattern);
    let ghost old_ps = current@.patterns;
    let mut patterns: Vec<ThrottledPattern> = Vec::new();
    let mut i: usize = 0;
    while i < current.patterns.len()
        invariant
            paths == unsubscribe_paths(*req),
            keep == (|t: ThrottleView| !removed_by(paths, t.pattern)),
            old_ps == current@.patterns,
            i <= old_ps.len(),
            patterns_view(patterns@) == old_ps.take(i as int).filter(keep),
        decreases current.patterns.len() - i,
    {
        let existing = &current.patterns[i];
        let mut removed = false;
        let mut j: usize = 0;
        while j < req.unsubscribe.len()
            invariant
                paths == unsubscribe_paths(*req),
                j <= req.unsubscribe@.len(),
                removed <==> exists|k: int| 0 <= k < j && ((#[trigger] paths[k]) == "*"@ || paths[k] == existing@.pattern),
            decreases req.unsubscribe.len() - j,
        {
            assert(paths[j as int] == req.unsubscribe@[j as int].path@);
            let u = req.unsubscribe[j].path.as_str();
            if str_eq(u, "*") || str_eq(u, existing.as_str()) {
                removed = true;
            }
            j = j + 1;
        }
        assert(old_ps[i as int] == existing@);
        assert(old_ps.take(i as int + 1).drop_last() =~= old_ps.take(i as int));
        proof {
            reveal(Seq::filter);
        }
        if !removed {
            let ghost before = patterns@;
            patterns.push(existing.duplicate());
            assert(patterns_view(patterns@) =~= patterns_view(before).push(existing@));
        }
        i = i + 1;
    }
    assert(old_ps.take(old_ps.len() as int) =~= old_ps);
    let context = if str_eq(req.context.as_str(), "*") {
        None
    } else {
        Some(req.context.clone())
    };
    ClientSubscription { context, patterns }
}

/// The subscription a client message leaves: a subscribe or unsubscribe
/// request gives the changed subscription; a PUT request changes nothing.
pub fn process_client_message(message: &ClientMessage, current: &ClientSubscription) -> (r: Option<ClientSubscription>)
    ensures
        match message {
            ClientMessage::Subscribe(req) => r matches Some(s) && s@ == subscribe_spec(
                current@,
                req.context@,
                subscribe_items(*req),
            ),
            ClientMessage::Unsubscribe(req) => r matches Some(s) && s@ == unsubscribe_spec(
                current@,
                req.context@,
                unsubscribe_paths(*req),
            ),
            ClientMessage::Put(_) => r is None,
        },
{
    match message {
        ClientMessage::Subscribe(req) => Some(apply_subscribe(current, req)),
        ClientMessage::Unsubscribe(req) => Some(apply_unsubscribe(current, req)),
        ClientMessage::Put(_) => None,
    }
}

// ---------------------------------------------------------------------------
// Choosing what a client is sent
// ---------------------------------------------------------------------------

/// Whether pattern `i` is the first sender of some value of the delta.
pub open spec fn first_sender_in(s: SubView, d: DeltaView, now: u64, i: int) -> bool {
    exists|u: int, v: int|
        0 <= u < d.updates.len() && 0 <= v < d.updates[u].values.len() && is_first_sender(
            s.patterns,
            #[trigger] d.updates[u].values[v].0,
            now,
            i,
        )
}

/// Whether pattern `i` is the first sender of a value of update `u` before value `v`.
pub open spec fn first_sender_before(s: SubView, d: DeltaView, now: u64, i: int, u: int, v: int) -> bool {
    (exists|x: int, w: int|
        0 <= x < u && 0 <= w < d.updates[x].values.len() && is_first_sender(
            s.patterns,
            #[trigger] d.updates[x].values[w].0,
            now,
            i,
        )) || (exists|w: int| 0 <= w < v && is_first_sender(s.patterns, #[trigger] d.updates[u].values[w].0, now, i))
}

/// The patterns that a delta would be sent through at `now`: none when the
/// context does not match, else for each value the first pattern that accepts
/// its path and may send. Each index appears once.
pub fn should_send_delta_throttled(subscription: &ClientSubscription, delta: &Delta, now_ms: u64) -> (r: Vec<usize>)
    ensures
        forall|a: int, b: int| 0 <= a < b < r@.len() ==> r@[a] != r@[b],
        forall|i: usize|
            (i as int) < subscription@.patterns.len() ==> (#[trigger] r@.contains(i) <==> (context_matches(
                subscription@.context,
                delta@.context,
            ) && first_sender_in(subscription@, delta@, now_ms, i as int))),
        forall|a: int| 0 <= a < r@.len() ==> r@[a] < subscription@.patterns.len(),
{
    let ghost sv = subscription@;
    let ghost dv = delta@;
    let mut matched: Vec<usize> = Vec::new();
    let ctx = match &delta.context {
        Some(c) => Some(c.as_str()),
        None => None,
    };
    if !subscription.matches_context(ctx) {
        return matched;
    }
    let mut u: usize = 0;
    while u < delta.updates.len()
        invariant
            sv == subscription@,
            dv == delta@,
            context_matches(sv.context, dv.context),
            u <= delta.updates@.len(),
            forall|a: int, b: int| 0 <= a < b < matched@.len() ==> matched@[a] != matched@[b],
            forall|a: int| 0 <= a < matched@.len() ==> matched@[a] < sv.patterns.len(),
            forall|i: usize|
                (i as int) < sv.patterns.len() ==> (#[trigger] matched@.contains(i) <==> first_sender_before(sv, dv, now_ms, i as int, u as int, 0)),
        decreases delta.updates.len() - u,
    {
        let up = &delta.updates[u];
        let mut v: usize = 0;
        while v < up.values.len()
            invariant
                sv == subscription@,
                dv == delta@,
                u < delta.updates@.len(),
                up == delta.updates@[u as int],
                v <= up.values@.len(),
                forall|a: int, b: int| 0 <= a < b < matched@.len() ==> matched@[a] != matched@[b],
                forall|a: int| 0 <= a < matched@.len() ==> matched@[a] < sv.patterns.len(),
                forall|i: usize|
                    (i as int) < sv.patterns.len() ==> (#[trigger] matched@.contains(i) <==> first_sender_before(sv, dv, now_ms, i as int, u as int, v as int)),
            decreases up.values.len() - v,
        {
            let ghost path = dv.updates[u as int].values[v as int].0;
            assert(path == up.values@[v as int].path@);
            let ghost before = matched@;
            let res = subscription.should_send_path(up.values[v].path.as_str(), now_ms);
            match res {
                Some(idx) => {
                    let mut seen = false;
                    let mut k: usize = 0;
                    while k < matched.len()
                        invariant
                            k <= matched@.len(),
                            seen <==> exists|m: int| 0 <= m < k && matched@[m] == idx,
                        decreases matched.len() - k,
                    {
                        if matched[k] == idx {
                            seen = true;
                        }
                        k = k + 1;
                    }
                    if !seen {
                        matched.push(idx);
                        assert forall|a: int, b: int| 0 <= a < b < matched@.len() implies matched@[a] != matched@[b] by {
                            if b == matched@.len() - 1 {
                                assert(matched@[a] == before[a]);
                            } else {
                                assert(matched@[a] == before[a] && matched@[b] == before[b]);
                            }
                        }
                    }
                },
                None => {},
            }
            proof {
                assert forall|i: usize| (i as int) < sv.patterns.len() implies (#[trigger] matched@.contains(i) <==> first_sender_before(sv, dv, now_ms, i as int, u as int, v as int + 1)) by {
                    let here = is_first_sender(sv.patterns, path, now_ms, i as int);
                    match res {
                        Some(idx) => {
                            if here {
                                if (i as int) < idx as int {
                                    assert(!sends(sv.patterns, path, now_ms, i as int));
                                } else if (i as int) > idx as int {
                                    assert(!sends(sv.patterns, path, now_ms, idx as int));
                                }
                            }
                            assert(here <==> i == idx);
                            if matched@.contains(i) && i != idx {
                                let a = choose|a: int| 0 <= a < matched@.len() && matched@[a] == i;
                                if a < before.len() {
                                    assert(before[a] == i);
                                    assert(before.contains(i));
                                }
                            }
                            if before.contains(i) {
                                let a = choose|a: int| 0 <= a < before.len() && before[a] == i;
                                assert(matched@[a] == i);
                            }
                            if i == idx {
                                if !before.contains(idx) {
                                    assert(matched@[matched@.len() - 1] == idx);
                                }
                            }
                        },
                        None => {
                            assert(!sends(sv.patterns, path, now_ms, i as int));
                            assert(!here);
                        },
                    }
                    if first_sender_before(sv, dv, now_ms, i as int, u as int, v as int + 1) && !first_sender_before(sv, dv, now_ms, i as int, u as int, v as int) {
                        let w = choose|w: int| 0 <= w < v + 1 && is_first_sender(sv.patterns, #[trigger] dv.updates[u as int].values[w].0, now_ms, i as int);
                        assert(w == v);
                    }
                    if here {
                        assert(is_first_sender(sv.patterns, dv.updates[u as int].values[v as int].0, now_ms, i as int));
                    }
                }
            }
            v = v + 1;
        }
        proof {
            assert forall|i: usize| (i as int) < sv.patterns.len() implies (#[trigger] matched@.contains(i) <==> first_sender_before(sv, dv, now_ms, i as int, u as int + 1, 0)) by {
                if first_sender_before(sv, dv, now_ms, i as int, u as int, up.values@.len() as int) {
                    if exists|w: int| 0 <= w < up.values@.len() && is_first_sender(sv.patterns, #[trigger] dv.updates[u as int].values[w].0, now_ms, i as int) {
                        let w = choose|w: int| 0 <= w < up.values@.len() && is_first_sender(sv.patterns, #[trigger] dv.updates[u as int].values[w].0, now_ms, i as int);
                        assert(dv.updates[u as int].values.len() == up.values@.len());
                        assert(0 <= u < u + 1 && 0 <= w < dv.updates[u as int].values.len());
                    }
                }
                if first_sender_before(sv, dv, now_ms, i as int, u as int + 1, 0) {
                    let (x, w) = choose|x: int, w: int| 0 <= x < u + 1 && 0 <= w < dv.updates[x].values.len() && is_first_sender(sv.patterns, #[trigger] dv.updates[x].values[w].0, now_ms, i as int);
                    if x == u {
                        assert(dv.updates[u as int].values.len() == up.values@.len());
                    }
                }
            }
        }
        u = u + 1;
    }
    proof {
        assert forall|i: usize| (i as int) < sv.patterns.len() implies (#[trigger] matched@.contains(i) <==> first_sender_in(sv, dv, now_ms, i as int)) by {
            if first_sender_in(sv, dv, now_ms, i as int) {
                let (x, w) = choose|x: int, w: int| 0 <= x < dv.updates.len() && 0 <= w < dv.updates[x].values.len() && is_first_sender(sv.patterns, #[trigger] dv.updates[x].values[w].0, now_ms, i as int);
                assert(first_sender_before(sv, dv, now_ms, i as int, u as int, 0));
            }
        }
    }
    matched
}

impl ClientSubscription {
    /// The delta this client is sent at `now_ms`, if any: see `forwarded`.
    pub fn select_delta(&self, delta: &Delta, now_ms: u64) -> (r: Option<Delta>)
        ensures
            opt_delta_view(r) == forwarded(self@, delta@, now_ms),
    {
        let ctx = match &delta.context {
            Some(c) => Some(c.as_str()),
            None => None,
        };
        if !self.matches_context(ctx) {
            return None;
        }
        let ghost keep = |p: Seq<char>| wants(self@.patterns, p, now_ms);
        let mut masks: Vec<Vec<bool>> = Vec::new();
        let mut u: usize = 0;
        while u < delta.updates.len()
            invariant
                keep == (|p: Seq<char>| wants(self@.patterns, p, now_ms)),
                u <= delta.updates@.len(),
                masks@.len() == u,
                forall|x: int| 0 <= x < u ==> (#[trigger] masks@[x])@.len() == delta.updates@[x].values@.len(),
                forall|x: int, i: int| 0 <= x < u && 0 <= i < masks@[x]@.len() ==> masks@[x]@[i] == keep(
                    #[trigger] delta.updates@[x].values@[i].path@,
                ),
            decreases delta.updates.len() - u,
        {
            let up = &delta.updates[u];
            let mut mask: Vec<bool> = Vec::new();
            let mut i: usize = 0;
            while i < up.values.len()
                invariant
                    keep == (|p: Seq<char>| wants(self@.patterns, p, now_ms)),
                    i <= up.values@.len(),
                    mask@.len() == i,
                    forall|j: int| 0 <= j < i ==> mask@[j] == keep(#[trigger] up.values@[j].path@),
                decreases up.values.len() - i,
            {
                let wanted = self.should_send_path(up.values[i].path.as_str(), now_ms).is_some();
                mask.push(wanted);
                i = i + 1;
            }
            masks.push(mask);
            u = u + 1;
        }
        filter_by_mask(delta, &masks, Ghost(keep))
    }

    /// The cached values this client is sent when it connects: see
    /// `cached_delta`, with the relative paths that some pattern accepts,
    /// when the context accepts `vessels.self`.
    pub fn initial_delta(&self, store: &MemoryStore) -> (r: Option<Delta>)
        ensures
            cached_delta_is(
                r,
                |p: Seq<char>| context_matches(self@.context, Some("vessels.self"@)) && any_matches(self@.patterns, p),
                split_dots(store@.self_urn),
                store.leaf_seq(),
            ),
    {
        proof {
            reveal_strlit("vessels.self");
        }
        let ghost keep = |p: Seq<char>| context_matches(self@.context, Some("vessels.self"@)) && any_matches(self@.patterns, p);
        let in_context = self.matches_context(Some("vessels.self"));
        let candidates = cached_candidates(store);
        let mut mask: Vec<bool> = Vec::new();
        let mut i: usize = 0;
        while i < candidates.len()
            invariant
                keep == (|p: Seq<char>| context_matches(self@.context, Some("vessels.self"@)) && any_matches(self@.patterns, p)),
                in_context == context_matches(self@.context, Some("vessels.self"@)),
                i <= candidates@.len(),
                mask@.len() == i,
                forall|j: int| 0 <= j < i ==> #[trigger] mask@[j] == (candidates@[j] matches Some(x) && keep(x@)),
            decreases candidates.len() - i,
        {
            let wanted = match &candidates[i] {
                Some(x) => in_context && self.matches_path(x.as_str()),
                None => false,
            };
            mask.push(wanted);
            i = i + 1;
        }
        build_cached_delta(store, &candidates, &mask, Ghost(keep))
    }

    /// Records a send at `now_ms` for every pattern in `indices`.
    pub fn mark_all_sent(&mut self, indices: &Vec<usize>, now_ms: u64)
        ensures
            final(self)@.context == old(self)@.context,
            final(self)@.patterns.len() == old(self)@.patterns.len(),
            forall|i: usize|
                (i as int) < old(self)@.patterns.len() ==> #[trigger] final(self)@.patterns[i as int] == (if indices@.contains(i) {
                    ThrottleView { last_sent: Some(now_ms), ..old(self)@.patterns[i as int] }
                } else {
                    old(self)@.patterns[i as int]
                }),
    {
        let ghost start = self@;
        let mut k: usize = 0;
        while k < indices.len()
            invariant
                k <= indices@.len(),
                self@.context == start.context,
                self@.patterns.len() == start.patterns.len(),
                forall|i: usize|
                    (i as int) < start.patterns.len() ==> #[trigger] self@.patterns[i as int] == (if indices@.take(k as int).contains(i) {
                        ThrottleView { last_sent: Some(now_ms), ..start.patterns[i as int] }
                    } else {
                        start.patterns[i as int]
                    }),
            decreases indices.len() - k,
        {
            let ghost pre = indices@.take(k as int);
            let ghost next = indices@.take(k as int + 1);
            assert(next =~= pre.push(indices@[k as int]));
            assert forall|i: usize| #[trigger] next.contains(i) <==> (pre.contains(i) || indices@[k as int] == i) by {
                if next.contains(i) {
                    let a = choose|a: int| 0 <= a < next.len() && next[a] == i;
                    if a < pre.len() {
                        assert(pre[a] == i);
                    }
                }
                if pre.contains(i) {
                    let a = choose|a: int| 0 <= a < pre.len() && pre[a] == i;
                    assert(next[a] == i);
                }
                if indices@[k as int] == i {
                    assert(next[k as int] == i);
                }
            }
            self.mark_sent(indices[k], now_ms);
            k = k + 1;
        }
        assert(indices@.take(indices@.len() as int) =~= indices@);
    }
}

// ---------------------------------------------------------------------------
// Laws
// ---------------------------------------------------------------------------

proof fn lemma_add_items_prefix(acc: Seq<ThrottleView>, items: Seq<SubscribeItem>)
    ensures
        add_items(acc, items).len() >= acc.len(),
        forall|k: int| 0 <= k < acc.len() ==> #[trigger] add_items(acc, items)[k] == acc[k],
        forall|k: int| acc.len() <= k < add_items(acc, items).len() ==> (#[trigger] add_items(acc, items)[k]).last_sent is None,
    decreases items.len(),
{
    if items.len() > 0 {
        lemma_add_items_prefix(acc, items.drop_last());
    }
}

proof fn lemma_add_items_covers(acc: Seq<ThrottleView>, items: Seq<SubscribeItem>, j: int)
    requires
        0 <= j < items.len(),
        well_formed_path(items[j].path),
    ensures
        exists|k: int| 0 <= k < add_items(acc, items).len() && (#[trigger] add_items(acc, items)[k]).pattern == items[j].path,
    decreases items.len(),
{
    let d = items.drop_last();
    let a = add_items(acc, d);
    if j < items.len() - 1 {
        assert(d[j] == items[j]);
        lemma_add_items_covers(acc, d, j);
        let k = choose|k: int| 0 <= k < a.len() && (#[trigger] a[k]).pattern == items[j].path;
        if well_formed_path(items.last().path) && !has_pattern(a, items.last().path) {
            assert(add_items(acc, items)[k] == a[k]);
        }
    } else {
        if has_pattern(a, items[j].path) {
            let k = choose|k: int| 0 <= k < a.len() && (#[trigger] a[k]).pattern == items[j].path;
            assert(add_items(acc, items)[k] == a[k]);
        } else {
            assert(add_items(acc, items)[a.len() as int].pattern == items[j].path);
        }
    }
}

/// Subscribing never takes a value away: every path that some pattern of the
/// old subscription accepted and could send at `now` is still accepted by a
/// pattern that can send. (Patterns that the request names start afresh.)
pub proof fn lemma_subscribe_monotone(s: SubView, context: Seq<char>, items: Seq<SubscribeItem>, path: Seq<char>, now: u64)
    requires
        forall|i: int| 0 <= i < s.patterns.len() ==> well_formed_path(#[trigger] s.patterns[i].pattern),
        wants(s.patterns, path, now),
    ensures
        wants(subscribe_spec(s, context, items).patterns, path, now),
{
    let keep = |t: ThrottleView| !named_in(items, t.pattern);
    let kept = s.patterns.filter(keep);
    let out = add_items(kept, items);
    let i = choose|i: int| #[trigger] sends(s.patterns, path, now, i);
    let t = s.patterns[i];
    lemma_add_items_prefix(kept, items);
    if keep(t) {
        s.patterns.lemma_filter_contains(keep, i);
        let k = choose|k: int| 0 <= k < kept.len() && kept[k] == t;
        assert(out[k] == t);
        assert(sends(out, path, now, k));
    } else {
        let j = choose|j: int| 0 <= j < items.len() && (#[trigger] items[j]).path == t.pattern;
        lemma_add_items_covers(kept, items, j);
        let k = choose|k: int| 0 <= k < out.len() && (#[trigger] out[k]).pattern == items[j].path;
        if k < kept.len() {
            #[allow(deprecated)]
            s.patterns.filter_lemma(keep);
            assert(keep(kept[k]));
            assert(out[k] == kept[k]);
            assert(named_in(items, kept[k].pattern));
        }
        assert(sends(out, path, now, k));
    }
}

proof fn lemma_filter_updates_grows(
    ups: Seq<crate::model::UpdateFullView>,
    k1: spec_fn(Seq<char>) -> bool,
    k2: spec_fn(Seq<char>) -> bool,
)
    requires
        forall|p: Seq<char>| #[trigger] k1(p) ==> k2(p),
        crate::model::filter_updates(ups, k1).len() > 0,
    ensures
        crate::model::filter_updates(ups, k2).len() > 0,
    decreases ups.len(),
{
    let u = ups.last();
    let p1 = |pv: (Seq<char>, serde_json::Value)| k1(pv.0);
    let p2 = |pv: (Seq<char>, serde_json::Value)| k2(pv.0);
    let vs1 = u.values.filter(p1);
    if vs1.len() > 0 {
        assert(vs1.contains(vs1[0]));
        u.values.lemma_filter_contains_rev(p1, vs1[0]);
        let i = choose|i: int| 0 <= i < u.values.len() && u.values[i] == vs1[0];
        u.values.lemma_filter_contains(p2, i);
        assert(u.values.filter(p2).len() > 0);
    } else {
        lemma_filter_updates_grows(ups.drop_last(), k1, k2);
    }
}

/// Subscribing in the same context never takes a delta away: a delta that
/// the old subscription forwarded at `now` is forwarded by the new one too.
pub proof fn lemma_subscribe_forwards_no_less(s: SubView, context: Seq<char>, items: Seq<SubscribeItem>, d: DeltaView, now: u64)
    requires
        forall|i: int| 0 <= i < s.patterns.len() ==> well_formed_path(#[trigger] s.patterns[i].pattern),
        s.context == Some(context),
        forwarded(s, d, now) is Some,
    ensures
        forwarded(subscribe_spec(s, context, items), d, now) is Some,
{
    let n = subscribe_spec(s, context, items);
    let k1 = |p: Seq<char>| wants(s.patterns, p, now);
    let k2 = |p: Seq<char>| wants(n.patterns, p, now);
    assert forall|p: Seq<char>| #[trigger] k1(p) implies k2(p) by {
        lemma_subscribe_monotone(s, context, items, p, now);
    }
    lemma_filter_updates_grows(d.updates, k1, k2);
}

/// A pattern with a least period `m > 0` that last sent at `t0` is the
/// sender of a value of a delta at `now` only when `now >= t0 + m`: two sends
/// through one pattern are at least `m` apart.
pub proof fn lemma_throttle_interval(s: SubView, d: DeltaView, now: u64, i: int, t0: u64)
    requires
        first_sender_in(s, d, now, i),
        s.patterns[i].min_period_ms > 0,
        s.patterns[i].last_sent == Some(t0),
    ensures
        now >= t0 + s.patterns[i].min_period_ms,
{
}

/// A pattern with a least period `m > 0` that sent at `t0` is not ready at
/// any time before `t0 + m`: a send through it that is marked blocks every
/// later value it accepts until the period has passed.
pub proof fn lemma_throttle_blocks(t: ThrottleView, t0: u64, now: u64)
    requires
        t.min_period_ms > 0,
        t.last_sent == Some(t0),
        now < t0 + t.min_period_ms,
    ensures
        !ready(t, now),
{
}

/// After unsubscribing `*` from context `*`, the client is sent nothing,
/// whatever the delta and the time, until it subscribes again.
pub proof fn lemma_unsubscribe_all(s: SubView, d: DeltaView, now: u64)
    ensures
        unsubscribe_spec(s, "*"@, seq!["*"@]).context is None,
        unsubscribe_spec(s, "*"@, seq!["*"@]).patterns.len() == 0,
        forwarded(unsubscribe_spec(s, "*"@, seq!["*"@]), d, now) is None,
{
    let paths = seq!["*"@];
    let keep = |t: ThrottleView| !removed_by(paths, t.pattern);
    #[allow(deprecated)]
    s.patterns.filter_lemma(keep);
    if s.patterns.filter(keep).len() > 0 {
        assert(keep(s.patterns.filter(keep)[0]));
        assert(removed_by(paths, s.patterns.filter(keep)[0].pattern)) by {
            assert(paths[0] == "*"@);
        }
    }
}

} // verus!
