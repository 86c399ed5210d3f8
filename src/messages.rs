//! Protocol messages exchanged with clients, and the discovery document.
use vstd::prelude::*;
use crate::clock::{current_timestamp, timestamp_text};
use crate::model::{copy_opt, opt_view, Delta};

verus! {

broadcast use vstd::string::group_string_axioms;

/// The Signal K version this server speaks.
pub const SIGNALK_VERSION: &'static str = "1.7.0";

/// A request to subscribe to paths of a context.
#[derive(Debug, Clone)]
pub struct SubscribeRequest {
    pub context: String,
    pub subscribe: Vec<Subscription>,
}

/// One path pattern of a subscribe request, with its rates.
#[derive(Debug, Clone)]
pub struct Subscription {
    pub path: String,
    /// Advisory period between updates, in milliseconds.
    pub period: Option<u64>,
    pub format: Option<SubscriptionFormat>,
    pub policy: Option<SubscriptionPolicy>,
    /// The least time between two updates, in milliseconds.
    pub min_period: Option<u64>,
}

/// The format a subscription asks for.
#[derive(Debug, Clone, Copy, PartialEq, Eq, Structural)]
pub enum SubscriptionFormat {
    Delta,
    Full,
}

/// When a subscription wants updates.
#[derive(Debug, Clone, Copy, PartialEq, Eq, Structural)]
pub enum SubscriptionPolicy {
    Instant,
    Ideal,
    Fixed,
}

/// A request to drop subscriptions.
#[derive(Debug, Clone)]
pub struct UnsubscribeRequest {
    pub context: String,
    pub unsubscribe: Vec<UnsubscribeSpec>,
}

/// One path of an unsubscribe request.
#[derive(Debug, Clone)]
pub struct UnsubscribeSpec {
    pub path: String,
}

/// A request to set a value.
#[derive(Debug, Clone)]
pub struct PutRequest {
    pub context: Option<String>,
    pub request_id: String,
    pub put: PutSpec,
}

/// The path and value a PUT request sets.
#[derive(Debug, Clone)]
pub struct PutSpec {
    pub path: String,
    pub value: serde_json::Value,
    pub source: Option<String>,
}

/// The answer to a PUT request.
#[derive(Debug, Clone, PartialEq)]
pub struct PutResponse {
    pub request_id: String,
    pub state: PutState,
    pub status_code: u16,
    pub message: Option<String>,
}

/// How far a PUT request got.
#[derive(Debug, Clone, Copy, PartialEq, Eq, Structural)]
pub enum PutState {
    Completed,
    Pending,
    Failed,
}

/// The status code of a PUT request that this server does not carry out.
pub const PUT_NOT_IMPLEMENTED: u16 = 501;

/// The message a server sends first on every connection.
#[derive(Debug, Clone, PartialEq)]
pub struct HelloMessage {
    pub name: String,
    pub version: String,
    pub self_urn: String,
    pub roles: Vec<String>,
    pub timestamp: String,
}

impl HelloMessage {
    /// A hello with role `main`, stamped with the given time.
    pub fn with_timestamp(name: &str, version: &str, self_urn: &str, timestamp: String) -> (r: Self)
        ensures
            r.name@ == name@,
            r.version@ == version@,
            r.self_urn@ == self_urn@,
            r.roles@.len() == 1,
            r.roles@[0]@ == "main"@,
            r.timestamp@ == timestamp@,
    {
        let mut roles: Vec<String> = Vec::new();
        roles.push("main".to_owned());
        proof {
            reveal_strlit("main");
        }
        HelloMessage {
            name: name.to_owned(),
            version: version.to_owned(),
            self_urn: self_urn.to_owned(),
            roles,
            timestamp,
        }
    }

    /// A hello with role `main`, stamped with the current time as ISO 8601 UTC text.
    pub fn new(name: &str, version: &str, self_urn: &str) -> (r: Self)
        ensures
            r.name@ == name@,
            r.version@ == version@,
            r.self_urn@ == self_urn@,
            r.roles@.len() == 1,
            r.roles@[0]@ == "main"@,
            exists|secs: u64, millis: u32| millis < 1000 && r.timestamp@ == timestamp_text(secs, millis),
    {
        Self::with_timestamp(name, version, self_urn, current_timestamp())
    }
}

/// What a server sends a client.
#[derive(Debug, Clone)]
pub enum ServerMessage {
    Hello(HelloMessage),
    Delta(Delta),
    PutResponse(PutResponse),
}

/// What a client sends a server.
#[derive(Debug, Clone)]
pub enum ClientMessage {
    Subscribe(SubscribeRequest),
    Unsubscribe(UnsubscribeRequest),
    Put(PutRequest),
}

/// The hello message for a new connection.
pub fn create_hello_message(name: &str, version: &str, self_urn: &str) -> (r: ServerMessage)
    ensures
        r matches ServerMessage::Hello(h) && h.name@ == name@ && h.version@ == version@ && h.self_urn@ == self_urn@
            && h.roles@.len() == 1 && h.roles@[0]@ == "main"@
            && exists|secs: u64, millis: u32| millis < 1000 && h.timestamp@ == timestamp_text(secs, millis),
{
    ServerMessage::Hello(HelloMessage::new(name, version, self_urn))
}

/// The policy names used in warnings.
pub open spec fn policy_name(p: SubscriptionPolicy) -> Seq<char> {
    match p {
        SubscriptionPolicy::Instant => "Instant"@,
        SubscriptionPolicy::Ideal => "Ideal"@,
        SubscriptionPolicy::Fixed => "Fixed"@,
    }
}

/// The warnings one entry of a subscribe request gives: a least period with a
/// policy other than instant, or a period without a least period and with a
/// policy other than fixed. The numbers win over the policy.
pub open spec fn entry_warnings(sub: Subscription) -> Seq<Seq<char>> {
    let first = match (sub.min_period, sub.policy) {
        (Some(m), Some(p)) => if m > 0 && p != SubscriptionPolicy::Instant {
            seq!["minPeriod assumes policy 'instant', ignoring policy "@ + policy_name(p)]
        } else {
            Seq::empty()
        },
        _ => Seq::empty(),
    };
    let second = match (sub.period, sub.policy) {
        (Some(q), Some(p)) => if q > 0 && sub.min_period is None && p != SubscriptionPolicy::Fixed {
            seq!["period assumes policy 'fixed', ignoring policy "@ + policy_name(p)]
        } else {
            Seq::empty()
        },
        _ => Seq::empty(),
    };
    first + second
}

/// The warnings of all entries, in order.
pub open spec fn all_warnings(subs: Seq<Subscription>) -> Seq<Seq<char>>
    decreases subs.len(),
{
    if subs.len() == 0 {
        Seq::empty()
    } else {
        all_warnings(subs.drop_last()) + entry_warnings(subs.last())
    }
}

fn policy_name_exec(p: SubscriptionPolicy) -> (r: &'static str)
    ensures
        r@ == policy_name(p),
{
    proof {
        reveal_strlit("Instant");
        reveal_strlit("Ideal");
        reveal_strlit("Fixed");
    }
    match p {
        SubscriptionPolicy::Instant => "Instant",
        SubscriptionPolicy::Ideal => "Ideal",
        SubscriptionPolicy::Fixed => "Fixed",
    }
}

/// The warnings of the entries of a subscribe request (see `entry_warnings`).
pub fn subscription_warnings(subs: &[Subscription]) -> (r: Vec<String>)
    ensures
        crate::path::strs_view(r@) == all_warnings(subs@),
{
    let mut warnings: Vec<String> = Vec::new();
    let mut i: usize = 0;
    assert(subs@.take(0) =~= Seq::<Subscription>::empty());
    while i < subs.len()
        invariant
            i <= subs@.len(),
            crate::path::strs_view(warnings@) == all_warnings(subs@.take(i as int)),
        decreases subs.len() - i,
    {
        proof {
            reveal_strlit("minPeriod assumes policy 'instant', ignoring policy ");
            reveal_strlit("period assumes policy 'fixed', ignoring policy ");
        }
        let sub = &subs[i];
        assert(subs@.take(i as int + 1).drop_last() =~= subs@.take(i as int));
        assert(subs@.take(i as int + 1).last() == *sub);
        let ghost before_w = crate::path::strs_view(warnings@);
        if let Some(m) = sub.min_period {
            if m > 0 {
                if let Some(p) = sub.policy {
                    if p != SubscriptionPolicy::Instant {
                        let mut w = String::from_str("minPeriod assumes policy 'instant', ignoring policy ");
                        w.append(policy_name_exec(p));
                        warnings.push(w);
                    }
                }
            }
        }
        if let Some(q) = sub.period {
            if q > 0 && sub.min_period.is_none() {
                if let Some(p) = sub.policy {
                    if p != SubscriptionPolicy::Fixed {
                        let mut w = String::from_str("period assumes policy 'fixed', ignoring policy ");
                        w.append(policy_name_exec(p));
                        warnings.push(w);
                    }
                }
            }
        }
        assert(crate::path::strs_view(warnings@) =~= before_w + entry_warnings(*sub));
        i = i + 1;
    }
    assert(subs@.take(subs@.len() as int) =~= subs@);
    warnings
}

/// The answer to any PUT request: this server does not carry them out.
pub fn put_not_implemented(req: &PutRequest) -> (r: PutResponse)
    ensures
        r.request_id@ == req.request_id@,
        r.state == PutState::Failed,
        r.status_code == PUT_NOT_IMPLEMENTED,
        r.message is Some,
{
    PutResponse {
        request_id: req.request_id.clone(),
        state: PutState::Failed,
        status_code: PUT_NOT_IMPLEMENTED,
        message: Some("PUT not implemented".to_owned()),
    }
}

// ---------------------------------------------------------------------------
// Discovery
// ---------------------------------------------------------------------------

/// The discovery document served at `/signalk`.
#[derive(Debug, Clone)]
pub struct DiscoveryResponse {
    pub endpoints: DiscoveryEndpoints,
}

/// The API versions a server offers.
#[derive(Debug, Clone)]
pub struct DiscoveryEndpoints {
    pub v1: DiscoveryV1,
}

/// The version 1 endpoints.
#[derive(Debug, Clone)]
pub struct DiscoveryV1 {
    pub version: String,
    pub signalk_http: String,
    pub signalk_ws: String,
}

/// The decimal digit for `d`.
pub open spec fn digit_char(d: nat) -> char {
    if d == 0 { '0' } else if d == 1 { '1' } else if d == 2 { '2' } else if d == 3 { '3' }
    else if d == 4 { '4' } else if d == 5 { '5' } else if d == 6 { '6' } else if d == 7 { '7' }
    else if d == 8 { '8' } else { '9' }
}

/// The decimal writing of `n`, without leading zeros.
pub open spec fn decimal(n: nat) -> Seq<char>
    decreases n,
{
    if n < 10 {
        seq![digit_char(n)]
    } else {
        decimal(n / 10).push(digit_char(n % 10))
    }
}

/// The one-character string of the digit `d`.
fn digit_str(d: u64) -> (r: &'static str)
    requires
        d < 10,
    ensures
        r@ == seq![digit_char(d as nat)],
{
    proof {
        reveal_strlit("0");
        reveal_strlit("1");
        reveal_strlit("2");
        reveal_strlit("3");
        reveal_strlit("4");
        reveal_strlit("5");
        reveal_strlit("6");
        reveal_strlit("7");
        reveal_strlit("8");
        reveal_strlit("9");
    }
    if d == 0 { "0" } else if d == 1 { "1" } else if d == 2 { "2" } else if d == 3 { "3" }
    else if d == 4 { "4" } else if d == 5 { "5" } else if d == 6 { "6" } else if d == 7 { "7" }
    else if d == 8 { "8" } else { "9" }
}

/// Writes `n` in decimal.
pub fn decimal_string(n: u64) -> (r: String)
    ensures
        r@ == decimal(n as nat),
    decreases n,
{
    if n < 10 {
        String::from_str(digit_str(n))
    } else {
        let mut s = decimal_string(n / 10);
        s.append(digit_str(n % 10));
        s
    }
}

/// The URL of an endpoint: scheme, host, port and path.
pub open spec fn endpoint_url(scheme: Seq<char>, host: Seq<char>, port: u16, path: Seq<char>) -> Seq<char> {
    scheme + "://"@ + host + ":"@ + decimal(port as nat) + path
}

fn build_url(scheme: &str, host: &str, port: u16, path: &str) -> (r: String)
    ensures
        r@ == endpoint_url(scheme@, host@, port, path@),
{
    let mut s = String::from_str(scheme);
    s.append("://");
    s.append(host);
    s.append(":");
    let p = decimal_string(port as u64);
    s.append(p.as_str());
    s.append(path);
    s
}

impl DiscoveryResponse {
    /// The discovery document for a server reachable at `host:port`.
    pub fn new(host: &str, port: u16) -> (r: Self)
        ensures
            r.endpoints.v1.version@ == "1.7.0"@,
            r.endpoints.v1.signalk_http@ == endpoint_url("http"@, host@, port, "/signalk/v1/api"@),
            r.endpoints.v1.signalk_ws@ == endpoint_url("ws"@, host@, port, "/signalk/v1/stream"@),
    {
        proof {
            reveal_strlit("1.7.0");
        }
        DiscoveryResponse {
            endpoints: DiscoveryEndpoints {
                v1: DiscoveryV1 {
                    version: SIGNALK_VERSION.to_owned(),
                    signalk_http: build_url("http", host, port, "/signalk/v1/api"),
                    signalk_ws: build_url("ws", host, port, "/signalk/v1/stream"),
                },
            },
        }
    }
}

// ---------------------------------------------------------------------------
// Quick message classification
// ---------------------------------------------------------------------------

/// Whether `needle` occurs in `hay` at `i`.
pub open spec fn occurs_at(hay: Seq<char>, needle: Seq<char>, i: int) -> bool {
    0 <= i && i + needle.len() <= hay.len() && hay.subrange(i, i + needle.len()) == needle
}

/// Whether `needle` occurs anywhere in `hay`.
pub open spec fn contains_text(hay: Seq<char>, needle: Seq<char>) -> bool {
    exists|i: int| occurs_at(hay, needle, i)
}

/// Whether `needle` occurs in `hay`.
pub fn text_contains(hay: &str, needle: &str) -> (r: bool)
    ensures
        r == contains_text(hay@, needle@),
{
    let n = hay.unicode_len();
    let m = needle.unicode_len();
    if m > n {
        assert forall|i: int| !occurs_at(hay@, needle@, i) by {}
        return false;
    }
    let mut i: usize = 0;
    while i <= n - m
        invariant
            n == hay@.len(),
            m == needle@.len(),
            m <= n,
            i <= n - m + 1,
            forall|k: int| 0 <= k < i ==> !occurs_at(hay@, needle@, k),
        decreases n - m + 1 - i,
    {
        let mut j: usize = 0;
        let mut same = true;
        while j < m && same
            invariant
                n == hay@.len(),
                m == needle@.len(),
                i + m <= n,
                j <= m,
                same ==> forall|t: int| 0 <= t < j ==> hay@[i + t] == needle@[t],
                !same ==> hay@[i + j - 1] != needle@[j - 1] && j >= 1,
            decreases m - j + (if same { 1int } else { 0int }),
        {
            if hay.get_char(i + j) != needle.get_char(j) {
                same = false;
            }
            j = j + 1;
        }
        if same {
            assert(hay@.subrange(i as int, i + m) =~= needle@);
            assert(occurs_at(hay@, needle@, i as int));
            return true;
        }
        assert(hay@.subrange(i as int, i + m)[j - 1] != needle@[j - 1]);
        i = i + 1;
    }
    assert forall|k: int| !occurs_at(hay@, needle@, k) by {
        if 0 <= k < i {
        }
    }
    false
}

/// Whether the text looks like a subscribe request: it holds `"subscribe"`.
pub fn is_subscribe_message(text: &str) -> (r: bool)
    ensures
        r == contains_text(text@, "\"subscribe\""@),
{
    text_contains(text, "\"subscribe\"")
}

/// Whether the text looks like an unsubscribe request: it holds `"unsubscribe"`.
pub fn is_unsubscribe_message(text: &str) -> (r: bool)
    ensures
        r == contains_text(text@, "\"unsubscribe\""@),
{
    text_contains(text, "\"unsubscribe\"")
}

/// Whether the text looks like a PUT request: it holds `"put"` and `"requestId"`.
pub fn is_put_message(text: &str) -> (r: bool)
    ensures
        r == (contains_text(text@, "\"put\""@) && contains_text(text@, "\"requestId\""@)),
{
    text_contains(text, "\"put\"") && text_contains(text, "\"requestId\"")
}

} // verus!
