//! The life of one client connection: it opens with a hello, then inbound
//! messages change its subscription or are answered, deltas are chosen for
//! it, and it closes. The transport performs what this module decides.
use vstd::prelude::*;
use crate::client::{
    default_subscription_for_mode, forwarded, process_client_message, should_send_delta_throttled,
    subscribe_items, subscribe_spec, unsubscribe_paths, unsubscribe_spec, ClientSubscription, SubView,
    WsQueryParams, default_sub,
};
use crate::messages::{all_warnings, subscription_warnings, put_not_implemented, ClientMessage, HelloMessage, PutResponse, PutState, PUT_NOT_IMPLEMENTED};
use crate::model::{opt_delta_view, Delta};
use crate::path::{split_dots, strs_view};
use crate::replay::cached_delta_is;
use crate::store::MemoryStore;
use crate::client::{any_matches, context_matches};

verus! {

/// Where a session is in its life.
#[derive(Debug, Clone, Copy, PartialEq, Eq, Structural)]
pub enum SessionState {
    Opening,
    Open,
    Closed,
}

/// What handling a client message gives back: the answer to a PUT request,
/// and the warnings a subscribe request's rates give.
#[derive(Debug)]
pub struct MessageOutcome {
    pub put_response: Option<PutResponse>,
    pub warnings: Vec<String>,
}

/// One client connection's state.
#[derive(Debug)]
pub struct CoreSession {
    state: SessionState,
    subscription: ClientSubscription,
    send_cached_values: bool,
}

/// A session as a mathematical value.
pub ghost struct SessionView {
    pub state: SessionState,
    pub subscription: SubView,
    pub send_cached_values: bool,
}

impl View for CoreSession {
    type V = SessionView;

    closed spec fn view(&self) -> SessionView {
        SessionView { state: self.state, subscription: self.subscription@, send_cached_values: self.send_cached_values }
    }
}

impl CoreSession {
    /// A session about to open, with the subscription its parameters ask for.
    pub fn new(params: WsQueryParams) -> (r: Self)
        ensures
            r@ == (SessionView {
                state: SessionState::Opening,
                subscription: default_sub(params.subscribe),
                send_cached_values: params.send_cached_values,
            }),
    {
        CoreSession {
            state: SessionState::Opening,
            subscription: default_subscription_for_mode(params.subscribe),
            send_cached_values: params.send_cached_values,
        }
    }

    /// Where the session is.
    pub fn state(&self) -> (r: SessionState)
        ensures
            r == self@.state,
    {
        self.state
    }

    /// The session's subscription.
    pub fn subscription(&self) -> (r: &ClientSubscription)
        ensures
            r@ == self@.subscription,
    {
        &self.subscription
    }

    /// Opens the session: the hello to send first, stamped with `timestamp`,
    /// then the cached values when they were asked for and the subscription
    /// is not empty.
    pub fn open(&mut self, name: &str, version: &str, timestamp: String, store: &MemoryStore) -> (r: (HelloMessage, Option<Delta>))
        requires
            old(self)@.state == SessionState::Opening,
        ensures
            final(self)@ == (SessionView { state: SessionState::Open, ..old(self)@ }),
            r.0.name@ == name@,
            r.0.version@ == version@,
            r.0.self_urn@ == store@.self_urn,
            r.0.roles@.len() == 1 && r.0.roles@[0]@ == "main"@,
            r.0.timestamp@ == timestamp@,
            !old(self)@.send_cached_values || (old(self)@.subscription.context is None
                && old(self)@.subscription.patterns.len() == 0) ==> r.1 is None,
            old(self)@.send_cached_values && !(old(self)@.subscription.context is None
                && old(self)@.subscription.patterns.len() == 0) ==> cached_delta_is(
                r.1,
                |p: Seq<char>| context_matches(old(self)@.subscription.context, Some("vessels.self"@))
                    && any_matches(old(self)@.subscription.patterns, p),
                split_dots(store@.self_urn),
                store.leaf_seq(),
            ),
    {
        self.state = SessionState::Open;
        let hello = HelloMessage::with_timestamp(name, version, store.self_urn(), timestamp);
        let cached = if self.send_cached_values && !self.subscription.is_empty() {
            self.subscription.initial_delta(store)
        } else {
            None
        };
        (hello, cached)
    }

    /// Handles a message from the client: subscribe and unsubscribe requests
    /// change the subscription (a subscribe request's inconsistent rates give
    /// warnings), a PUT request is answered as not carried out.
    /// A message that could not be read (`None`) is ignored. The session stays open.
    pub fn handle_message(&mut self, message: Option<&ClientMessage>) -> (r: MessageOutcome)
        requires
            old(self)@.state == SessionState::Open,
        ensures
            final(self)@.state == SessionState::Open,
            final(self)@.send_cached_values == old(self)@.send_cached_values,
            match message {
                Some(ClientMessage::Subscribe(req)) => {
                    &&& r.put_response is None
                    &&& strs_view(r.warnings@) == all_warnings(req.subscribe@)
                    &&& final(self)@.subscription == subscribe_spec(
                        old(self)@.subscription,
                        req.context@,
                        subscribe_items(*req),
                    )
                },
                Some(ClientMessage::Unsubscribe(req)) => {
                    &&& r.put_response is None
                    &&& r.warnings@.len() == 0
                    &&& final(self)@.subscription == unsubscribe_spec(
                        old(self)@.subscription,
                        req.context@,
                        unsubscribe_paths(*req),
                    )
                },
                Some(ClientMessage::Put(req)) => {
                    &&& final(self)@.subscription == old(self)@.subscription
                    &&& r.warnings@.len() == 0
                    &&& r.put_response matches Some(p)
                    &&& r.put_response->Some_0.request_id@ == req.request_id@
                    &&& r.put_response->Some_0.state == PutState::Failed
                    &&& r.put_response->Some_0.status_code == PUT_NOT_IMPLEMENTED
                },
                None => r.put_response is None && r.warnings@.len() == 0 && final(self)@ == old(self)@,
            },
    {
        match message {
            None => MessageOutcome { put_response: None, warnings: Vec::new() },
            Some(m) => {
                let warnings = match m {
                    ClientMessage::Subscribe(req) => subscription_warnings(req.subscribe.as_slice()),
                    _ => Vec::new(),
                };
                match process_client_message(m, &self.subscription) {
                    Some(s) => {
                        self.subscription = s;
                        MessageOutcome { put_response: None, warnings }
                    },
                    None => match m {
                        ClientMessage::Put(req) => MessageOutcome { put_response: Some(put_not_implemented(req)), warnings },
                        _ => MessageOutcome { put_response: None, warnings },
                    },
                }
            },
        }
    }

    /// The delta to send this client at `now_ms`, and the patterns it goes
    /// through; nothing unless the session is open.
    pub fn outbound(&self, delta: &Delta, now_ms: u64) -> (r: Option<(Delta, Vec<usize>)>)
        ensures
            self@.state != SessionState::Open ==> r is None,
            self@.state == SessionState::Open ==> opt_delta_view(
                match r {
                    Some(x) => Some(x.0),
                    None => None,
                },
            ) == forwarded(self@.subscription, delta@, now_ms),
            r is Some ==> forall|i: usize|
                (i as int) < self@.subscription.patterns.len() ==> (#[trigger] r->Some_0.1@.contains(i) <==> (
                crate::client::context_matches(self@.subscription.context, delta@.context)
                    && crate::client::first_sender_in(self@.subscription, delta@, now_ms, i as int))),
    {
        if self.state != SessionState::Open {
            return None;
        }
        match self.subscription.select_delta(delta, now_ms) {
            Some(d) => Some((d, should_send_delta_throttled(&self.subscription, delta, now_ms))),
            None => None,
        }
    }

    /// Records that a delta went out at `now_ms` through these patterns: only
    /// a successful send moves their throttle clocks.
    pub fn delivered(&mut self, indices: &Vec<usize>, now_ms: u64)
        ensures
            final(self)@.state == old(self)@.state,
            final(self)@.send_cached_values == old(self)@.send_cached_values,
            final(self)@.subscription.context == old(self)@.subscription.context,
            final(self)@.subscription.patterns.len() == old(self)@.subscription.patterns.len(),
            forall|i: usize|
                (i as int) < old(self)@.subscription.patterns.len() ==> #[trigger] final(self)@.subscription.patterns[i as int] == (if indices@.contains(i) {
                    crate::client::ThrottleView { last_sent: Some(now_ms), ..old(self)@.subscription.patterns[i as int] }
                } else {
                    old(self)@.subscription.patterns[i as int]
                }),
    {
        self.subscription.mark_all_sent(indices, now_ms);
    }

    /// Closes the session and drops its subscription.
    pub fn close(&mut self)
        ensures
            final(self)@.state == SessionState::Closed,
            final(self)@.subscription == (SubView { context: None, patterns: Seq::empty() }),
    {
        self.state = SessionState::Closed;
        self.subscription = ClientSubscription::default();
    }
}

} // verus!
