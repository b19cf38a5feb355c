//! The client role: one participant reached through a single proxy node. Its
//! handlers take events as plain values and record what is to be done in an
//! outbox of effects, which the event loop around it performs.

use vstd::prelude::*;
use crate::ack_manager::{AckManager, PendingView, UnacknowledgedMessage};
use crate::fingerprint::{bytes_fingerprint, fingerprint_bytes, fingerprint_message, message_fingerprint};
use crate::id::{PeerId, PublicId, XorName};
use crate::message_accumulator::{delivers_now, MessageAccumulator, ACCUMULATOR_EXPIRY_DURATION_SECS};
use crate::messages::{
    Authority, ContentView, MessageContent, RoutingMessage, RoutingMessageView, SignedMessage,
    SignedMessageView,
};
use crate::signed_message_filter::{
    live, outgoing_key, OutgoingKey, SignedMessageFilter, INCOMING_EXPIRY_DURATION_SECS, OUTGOING_EXPIRY_DURATION_SECS,
};
use crate::user_message::{complete, joined, part_count_for, part_payload, to_parts, UserMessageCache, MAX_PART_LEN,
    USER_MSG_CACHE_EXPIRY_DURATION_SECS};

verus! {

/// Smallest viable group: the cap on how often one message may be seen, and
/// on the number of routes tried for one message.
pub const MIN_GROUP_SIZE: usize = 8;

/// How long to wait for an acknowledgement before trying the next route, in seconds.
pub const ACK_TIMEOUT_SECS: u64 = 20;

/// The policy a client runs with.
#[derive(Clone, Copy, Debug, PartialEq, Eq, Structural)]
pub struct ClientConfig {
    /// The cap on how often one message may be seen within the incoming
    /// window, and on the number of routes tried for one message.
    pub min_group_size: usize,
    /// How long to wait for an acknowledgement, in seconds.
    pub ack_timeout_secs: u64,
    /// How long the duplicate filter remembers incoming messages, in seconds.
    pub incoming_expiry_secs: u64,
    /// How long the duplicate filter remembers outgoing messages, in seconds.
    pub outgoing_expiry_secs: u64,
    /// How long a partially agreed message is remembered, in seconds.
    pub accumulator_expiry_secs: u64,
    /// How long an incomplete set of parts is remembered, in seconds.
    pub user_msg_cache_expiry_secs: u64,
}

/// What the state machine does after an event.
#[derive(Clone, Copy, Debug, PartialEq, Eq, Structural)]
pub enum Transition {
    Stay,
    Terminate,
}

/// Why a message was dropped or could not be sent.
#[derive(Clone, Copy, Debug, PartialEq, Eq, Structural)]
pub enum RoutingError {
    /// A message came from a peer that is not our proxy.
    UnknownConnection(PeerId),
    /// A hop or message signature did not verify.
    FailedSignature,
    /// A message was seen too often.
    FilterCheckFailed,
    /// The source names a proxy other than ours.
    ProxyConnectionNotFound,
    /// The source is not a client authority.
    InvalidSource,
    /// A user message needs more parts than a `u32` counts.
    TooManyParts,
}

/// Errors reported to the application.
#[derive(Clone, Copy, Debug, PartialEq, Eq, Structural)]
pub enum InterfaceError {
    /// The action is not available in the client role.
    InvalidState,
}

/// Counters of what the client did.
#[derive(Clone, Copy, Debug, PartialEq, Eq, Structural)]
pub struct Stats {
    /// Messages handed to a route, first attempts and retries.
    pub routes: u64,
    /// Messages given up on after every route was tried.
    pub unacked: u64,
    /// User messages sent or received whole.
    pub user_messages: u64,
}

/// Notifications for the application.
pub enum Event {
    Connected,
    Terminate,
    /// A user message arrived whole; `payload` is its encoded form.
    UserMessage { payload: Vec<u8>, src: Authority, dst: Authority },
}

pub enum EventView {
    Connected,
    Terminate,
    UserMessage { payload: Seq<u8>, src: Authority, dst: Authority },
}

impl View for Event {
    type V = EventView;

    open spec fn view(&self) -> EventView {
        match self {
            Event::Connected => EventView::Connected,
            Event::Terminate => EventView::Terminate,
            Event::UserMessage { payload, src, dst } => EventView::UserMessage { payload: payload@, src: *src, dst: *dst },
        }
    }
}

/// Work for the event loop around the client.
pub enum Effect {
    /// Sign `msg` with our key, wrap it in a hop message for `route` and send
    /// it to `peer` with `priority`.
    Send { peer: PeerId, msg: SignedMessage, route: u8, priority: u8 },
    /// Hand `event` to the application.
    Raise(Event),
    /// Deliver `Action::Timeout(token)` after `secs` seconds.
    ScheduleTimeout { token: u64, secs: u64 },
}

pub enum EffectView {
    Send { peer: PeerId, msg: SignedMessageView, route: u8, priority: u8 },
    Raise(EventView),
    ScheduleTimeout { token: u64, secs: u64 },
}

impl View for Effect {
    type V = EffectView;

    open spec fn view(&self) -> EffectView {
        match self {
            Effect::Send { peer, msg, route, priority } => EffectView::Send {
                peer: *peer,
                msg: msg@,
                route: *route,
                priority: *priority,
            },
            Effect::Raise(e) => EffectView::Raise(e@),
            Effect::ScheduleTimeout { token, secs } => EffectView::ScheduleTimeout { token: *token, secs: *secs },
        }
    }
}

/// Requests from the application.
pub enum Action {
    /// Send an encoded request to `dst`.
    ClientSendRequest { content: Vec<u8>, dst: Authority, priority: u8 },
    /// Send a message as a node: not available to a client.
    NodeSendMessage,
    /// Ask for the close group of a name: a client knows none.
    CloseGroup { name: XorName },
    /// Ask for our name.
    Name,
    /// Ask for the quorum size.
    QuorumSize,
    /// The timer with this token fired.
    Timeout(u64),
    /// Stop.
    Terminate,
}

/// The answer to an action, where it asks for one.
#[derive(Clone, Copy, Debug, PartialEq, Eq, Structural)]
pub enum ActionReply {
    NoReply,
    /// The request was accepted for sending.
    Sent,
    /// The action was refused.
    Refused(InterfaceError),
    NoCloseGroup,
    Name(XorName),
    QuorumSize(usize),
}

/// A message from the transport, decoded by the event loop.
pub enum Incoming {
    /// A hop message, with whether its hop signature verified against our
    /// proxy's key and whether the inner signed message verified.
    Hop { msg: SignedMessage, hop_signature_valid: bool, integrity_valid: bool },
    /// Any other kind of message.
    Other,
    /// Bytes that did not decode.
    Malformed,
}

/// A transport event, decoded by the event loop.
pub enum TransportEvent {
    /// The connection to a peer was lost.
    LostPeer(PeerId),
    /// A peer sent a message.
    NewMessage(PeerId, Incoming),
    /// Any other transport event.
    Other,
}

/// The priority a message is sent with.
pub open spec fn content_priority(c: ContentView) -> u8 {
    match c {
        ContentView::Ack { priority, .. } => priority,
        ContentView::UserMessagePart { priority, .. } => priority,
        ContentView::Other { .. } => 0,
    }
}

fn priority_of(c: &MessageContent) -> (r: u8)
    ensures
        r == content_priority(c@),
{
    match c {
        MessageContent::Ack { priority, .. } => *priority,
        MessageContent::UserMessagePart { priority, .. } => *priority,
        MessageContent::Other { .. } => 0,
    }
}

/// The route after `route`; the last route is kept once reached.
pub open spec fn next_route(route: u8) -> u8 {
    if route < u8::MAX {
        (route + 1) as u8
    } else {
        u8::MAX
    }
}

/// Whether a timeout of a message last sent on `route` gives up on it: the
/// next route would reach `min_group_size`.
pub open spec fn gives_up(route: u8, min_group_size: usize) -> bool {
    next_route(route) as int >= min_group_size as int
}

/// A participant in the client role.
pub struct Client {
    ack_mgr: AckManager,
    our_peer_id: PeerId,
    public_id: PublicId,
    msg_accumulator: MessageAccumulator,
    proxy_peer_id: PeerId,
    proxy_public_id: PublicId,
    signed_msg_filter: SignedMessageFilter,
    stats: Stats,
    next_timer_token: u64,
    user_msg_cache: UserMessageCache,
    effects: Vec<Effect>,
    min_group_size: usize,
    ack_timeout_secs: u64,
}

impl Client {
    pub closed spec fn spec_ack_mgr(&self) -> AckManager {
        self.ack_mgr
    }

    pub closed spec fn spec_accumulator(&self) -> MessageAccumulator {
        self.msg_accumulator
    }

    pub closed spec fn spec_filter(&self) -> SignedMessageFilter {
        self.signed_msg_filter
    }

    pub closed spec fn spec_cache(&self) -> UserMessageCache {
        self.user_msg_cache
    }

    pub closed spec fn spec_stats(&self) -> Stats {
        self.stats
    }

    pub closed spec fn spec_next_token(&self) -> u64 {
        self.next_timer_token
    }

    pub closed spec fn spec_min_group_size(&self) -> usize {
        self.min_group_size
    }

    pub closed spec fn spec_ack_timeout(&self) -> u64 {
        self.ack_timeout_secs
    }

    pub closed spec fn spec_public_id(&self) -> PublicId {
        self.public_id
    }

    pub closed spec fn spec_our_peer_id(&self) -> PeerId {
        self.our_peer_id
    }

    pub closed spec fn spec_proxy_peer_id(&self) -> PeerId {
        self.proxy_peer_id
    }

    pub closed spec fn spec_proxy_public_id(&self) -> PublicId {
        self.proxy_public_id
    }

    /// The effects recorded and not yet taken, oldest first.
    pub closed spec fn effects(&self) -> Seq<EffectView> {
        self.effects@.map_values(|e: Effect| e@)
    }

    /// Whether `dst` names this client.
    pub open spec fn spec_is_recipient(&self, dst: Authority) -> bool {
        match dst {
            Authority::Client { client_key, .. } => client_key == self.spec_public_id().signing_key,
            _ => false,
        }
    }

    /// Whether a message with source `src` can be sent through our proxy.
    pub open spec fn routes_via_proxy(&self, src: Authority) -> bool {
        match src {
            Authority::Client { proxy_node_name, .. } => proxy_node_name == self.spec_proxy_public_id().name,
            _ => false,
        }
    }

    /// A message that leaves through our proxy and awaits an acknowledgement.
    pub open spec fn trackable(&self, m: RoutingMessageView) -> bool {
        &&& self.routes_via_proxy(m.src)
        &&& !self.spec_is_recipient(m.dst)
        &&& !(m.content is Ack)
    }

    /// The client's invariant: its parts are well formed, and each pending
    /// message is keyed by its fingerprint, can be resent, and has a timer
    /// token of its own that was handed out already.
    pub open spec fn wf(&self) -> bool {
        &&& self.spec_ack_mgr().wf()
        &&& self.spec_accumulator().wf()
        &&& self.spec_filter().wf()
        &&& self.spec_cache().wf()
        &&& forall|a: u64|
            #[trigger] self.spec_ack_mgr().pending().contains_key(a) ==> {
                let p = self.spec_ack_mgr().pending()[a];
                &&& message_fingerprint(p.msg) == a
                &&& self.trackable(p.msg)
                &&& p.timer_token < self.spec_next_token()
            }
        &&& forall|a: u64, b: u64|
            #[trigger] self.spec_ack_mgr().pending().contains_key(a) && #[trigger] self.spec_ack_mgr().pending().contains_key(b)
                && a != b ==> self.spec_ack_mgr().pending()[a].timer_token != self.spec_ack_mgr().pending()[b].timer_token
    }

    /// Takes the recorded effects, oldest first.
    pub fn take_effects(&mut self) -> (r: Vec<Effect>)
        ensures
            r@.map_values(|e: Effect| e@) == old(self).effects(),
            final(self).effects() == Seq::<EffectView>::empty(),
            final(self).spec_ack_mgr() == old(self).spec_ack_mgr(),
            final(self).spec_accumulator() == old(self).spec_accumulator(),
            final(self).spec_filter() == old(self).spec_filter(),
            final(self).spec_cache() == old(self).spec_cache(),
            final(self).spec_stats() == old(self).spec_stats(),
            final(self).spec_next_token() == old(self).spec_next_token(),
            final(self).spec_public_id() == old(self).spec_public_id(),
            final(self).spec_our_peer_id() == old(self).spec_our_peer_id(),
            final(self).spec_proxy_peer_id() == old(self).spec_proxy_peer_id(),
            final(self).spec_proxy_public_id() == old(self).spec_proxy_public_id(),
            final(self).spec_min_group_size() == old(self).spec_min_group_size(),
            final(self).spec_ack_timeout() == old(self).spec_ack_timeout(),
    {
        let mut r: Vec<Effect> = Vec::new();
        std::mem::swap(&mut self.effects, &mut r);
        assert(self.effects@.map_values(|e: Effect| e@) =~= Seq::<EffectView>::empty());
        r
    }

    fn push_effect(&mut self, e: Effect)
        ensures
            final(self).effects() == old(self).effects().push(e@),
            final(self).ack_mgr == old(self).ack_mgr,
            final(self).msg_accumulator == old(self).msg_accumulator,
            final(self).signed_msg_filter == old(self).signed_msg_filter,
            final(self).user_msg_cache == old(self).user_msg_cache,
            final(self).stats == old(self).stats,
            final(self).next_timer_token == old(self).next_timer_token,
            final(self).public_id == old(self).public_id,
            final(self).our_peer_id == old(self).our_peer_id,
            final(self).proxy_peer_id == old(self).proxy_peer_id,
            final(self).proxy_public_id == old(self).proxy_public_id,
            final(self).min_group_size == old(self).min_group_size,
            final(self).ack_timeout_secs == old(self).ack_timeout_secs,
    {
        let ghost v = e@;
        self.effects.push(e);
        assert(self.effects@.map_values(|e: Effect| e@) =~= old(self).effects@.map_values(|e: Effect| e@).push(v));
    }

    /// A client connected through the proxy `proxy_peer_id`, whose identity
    /// is `proxy_public_id`, with the default policy: groups of
    /// `MIN_GROUP_SIZE`, acknowledgements awaited `ACK_TIMEOUT_SECS` seconds,
    /// and each cache's default expiry. Records that the application is told
    /// it is connected.
    pub fn from_bootstrapping(
        our_peer_id: PeerId,
        public_id: PublicId,
        proxy_peer_id: PeerId,
        proxy_public_id: PublicId,
        quorum_size: usize,
    ) -> (r: Self)
        ensures
            r.wf(),
            r.effects() == seq![EffectView::Raise(EventView::Connected)],
            r.spec_ack_mgr().pending() == Map::<u64, PendingView>::empty(),
            r.spec_accumulator().spec_quorum_size() == quorum_size,
            r.spec_min_group_size() == MIN_GROUP_SIZE,
            r.spec_ack_timeout() == ACK_TIMEOUT_SECS,
            r.spec_filter().incoming_expiry() == INCOMING_EXPIRY_DURATION_SECS,
            r.spec_filter().outgoing_expiry() == OUTGOING_EXPIRY_DURATION_SECS,
            r.spec_accumulator().expiry() == ACCUMULATOR_EXPIRY_DURATION_SECS,
            r.spec_cache().expiry() == USER_MSG_CACHE_EXPIRY_DURATION_SECS,
            r.spec_public_id() == public_id,
            r.spec_our_peer_id() == our_peer_id,
            r.spec_proxy_peer_id() == proxy_peer_id,
            r.spec_proxy_public_id() == proxy_public_id,
            r.spec_stats() == (Stats { routes: 0, unacked: 0, user_messages: 0 }),
            r.spec_next_token() == 0,
            forall|m: SignedMessageView, t: u64| r.spec_filter().incoming_count(m, t) == 0,
            forall|k: OutgoingKey, t: u64| !r.spec_filter().was_sent(k, t),
            forall|m: RoutingMessageView, t: u64|
                r.spec_accumulator().signers(m, t) == Set::<PublicId>::empty() && !r.spec_accumulator().delivered(m, t),
            forall|h: u64, c: u32, t: u64| r.spec_cache().parts(h, c, t) == Map::<u32, Seq<u8>>::empty(),
    {
        let config = ClientConfig {
            min_group_size: MIN_GROUP_SIZE,
            ack_timeout_secs: ACK_TIMEOUT_SECS,
            incoming_expiry_secs: INCOMING_EXPIRY_DURATION_SECS,
            outgoing_expiry_secs: OUTGOING_EXPIRY_DURATION_SECS,
            accumulator_expiry_secs: ACCUMULATOR_EXPIRY_DURATION_SECS,
            user_msg_cache_expiry_secs: USER_MSG_CACHE_EXPIRY_DURATION_SECS,
        };
        Self::from_bootstrapping_with_config(our_peer_id, public_id, proxy_peer_id, proxy_public_id, quorum_size, config)
    }

    /// A client connected through the proxy `proxy_peer_id`, whose identity
    /// is `proxy_public_id`, running with `config`. The group size must be a
    /// route number. A duplicate-filter window of zero remembers nothing. Records that the application is told it is
    /// connected.
    pub fn from_bootstrapping_with_config(
        our_peer_id: PeerId,
        public_id: PublicId,
        proxy_peer_id: PeerId,
        proxy_public_id: PublicId,
        quorum_size: usize,
        config: ClientConfig,
    ) -> (r: Self)
        requires
            config.min_group_size <= u8::MAX,
        ensures
            r.wf(),
            r.effects() == seq![EffectView::Raise(EventView::Connected)],
            r.spec_ack_mgr().pending() == Map::<u64, PendingView>::empty(),
            r.spec_accumulator().spec_quorum_size() == quorum_size,
            r.spec_min_group_size() == config.min_group_size,
            r.spec_ack_timeout() == config.ack_timeout_secs,
            r.spec_filter().incoming_expiry() == config.incoming_expiry_secs,
            r.spec_filter().outgoing_expiry() == config.outgoing_expiry_secs,
            r.spec_accumulator().expiry() == config.accumulator_expiry_secs,
            r.spec_cache().expiry() == config.user_msg_cache_expiry_secs,
            r.spec_public_id() == public_id,
            r.spec_our_peer_id() == our_peer_id,
            r.spec_proxy_peer_id() == proxy_peer_id,
            r.spec_proxy_public_id() == proxy_public_id,
            r.spec_stats() == (Stats { routes: 0, unacked: 0, user_messages: 0 }),
            r.spec_next_token() == 0,
            forall|m: SignedMessageView, t: u64| r.spec_filter().incoming_count(m, t) == 0,
            forall|k: OutgoingKey, t: u64| !r.spec_filter().was_sent(k, t),
            forall|m: RoutingMessageView, t: u64|
                r.spec_accumulator().signers(m, t) == Set::<PublicId>::empty() && !r.spec_accumulator().delivered(m, t),
            forall|h: u64, c: u32, t: u64| r.spec_cache().parts(h, c, t) == Map::<u32, Seq<u8>>::empty(),
    {
        let mut client = Client {
            ack_mgr: AckManager::new(),
            our_peer_id,
            public_id,
            msg_accumulator: MessageAccumulator::with_quorum_size(quorum_size, config.accumulator_expiry_secs),
            proxy_peer_id,
            proxy_public_id,
            signed_msg_filter: SignedMessageFilter::with_expiry_durations(
                config.incoming_expiry_secs,
                config.outgoing_expiry_secs,
            ),
            stats: Stats { routes: 0, unacked: 0, user_messages: 0 },
            next_timer_token: 0,
            user_msg_cache: UserMessageCache::with_expiry_duration(config.user_msg_cache_expiry_secs),
            effects: Vec::new(),
            min_group_size: config.min_group_size,
            ack_timeout_secs: config.ack_timeout_secs,
        };
        assert(client.effects() =~= Seq::<EffectView>::empty());
        client.push_effect(Event::Connected.into_effect());
        assert(client.effects() =~= seq![EffectView::Raise(EventView::Connected)]);
        client
    }

    /// Whether `dst` names this client.
    pub fn is_recipient(&self, dst: &Authority) -> (r: bool)
        ensures
            r == self.spec_is_recipient(*dst),
    {
        match dst {
            Authority::Client { client_key, .. } => *client_key == self.public_id.signing_key,
            _ => false,
        }
    }

    /// Handles the loss of a transport peer: losing our proxy terminates the
    /// client and tells the application; any other loss changes nothing.
    pub fn handle_lost_peer(&mut self, peer_id: PeerId) -> (r: Transition)
        requires
            old(self).wf(),
        ensures
            final(self).wf(),
            r == (if peer_id != old(self).spec_our_peer_id() && peer_id == old(self).spec_proxy_peer_id() {
                Transition::Terminate
            } else {
                Transition::Stay
            }),
            final(self).effects() == if r == Transition::Terminate {
                old(self).effects().push(EffectView::Raise(EventView::Terminate))
            } else {
                old(self).effects()
            },
            final(self).same_identity(old(self)),
            final(self).spec_filter() == old(self).spec_filter(),
            final(self).spec_ack_mgr() == old(self).spec_ack_mgr(),
            final(self).spec_stats() == old(self).spec_stats(),
    {
        if peer_id == self.our_peer_id {
            return Transition::Stay;
        }
        if self.proxy_peer_id == peer_id {
            self.push_effect(Event::Terminate.into_effect());
            Transition::Terminate
        } else {
            Transition::Stay
        }
    }
}

impl Client {
    /// The signed form of a message this client sends; its signature is
    /// added where the message is encoded for the transport.
    pub open spec fn outgoing_signed(&self, m: RoutingMessageView) -> SignedMessageView {
        SignedMessageView { routing_message: m, public_id: self.spec_public_id(), signature: Seq::empty() }
    }

    /// Whether the parts of the client that a send leaves alone are unchanged.
    pub open spec fn same_identity(&self, other: &Client) -> bool {
        &&& forall|m: SignedMessageView, t: u64|
            #[trigger] self.spec_filter().incoming_count(m, t) == other.spec_filter().incoming_count(m, t)
        &&& self.spec_public_id() == other.spec_public_id()
        &&& self.spec_our_peer_id() == other.spec_our_peer_id()
        &&& self.spec_proxy_peer_id() == other.spec_proxy_peer_id()
        &&& self.spec_proxy_public_id() == other.spec_proxy_public_id()
        &&& self.spec_accumulator() == other.spec_accumulator()
        &&& self.spec_cache() == other.spec_cache()
        &&& self.spec_min_group_size() == other.spec_min_group_size()
        &&& self.spec_ack_timeout() == other.spec_ack_timeout()
    }

    /// What sending `m` via `route` at `now` did, with result `r`, `prev`
    /// being the client before: the route counter grew; a message for
    /// ourselves is resolved locally; a source that does not name our proxy
    /// is refused; otherwise a message other than an acknowledgement is
    /// tracked under its fingerprint with a fresh timer (while tokens last),
    /// and the message is handed to the transport unless the outgoing filter
    /// holds it for our proxy and that route.
    pub open spec fn sent_via_route(&self, prev: &Client, m: RoutingMessageView, route: u8, now: u64, r: Result<(), RoutingError>) -> bool {
        &&& (self.spec_stats() == (Stats {
            routes: if prev.spec_stats().routes < u64::MAX {
                (prev.spec_stats().routes + 1) as u64
            } else {
                u64::MAX
            },
            ..prev.spec_stats()
        }))
        &&& (prev.spec_is_recipient(m.dst) ==> {
            &&& r is Ok
            &&& self.spec_ack_mgr() == prev.spec_ack_mgr()
            &&& self.spec_filter() == prev.spec_filter()
            &&& self.effects() == prev.effects()
            &&& self.spec_next_token() == prev.spec_next_token()
        })
        &&& (!prev.spec_is_recipient(m.dst) && !prev.routes_via_proxy(m.src) ==> {
            &&& r == Err::<(), RoutingError>(
                if m.src is Client {
                    RoutingError::ProxyConnectionNotFound
                } else {
                    RoutingError::InvalidSource
                },
            )
            &&& self.spec_ack_mgr() == prev.spec_ack_mgr()
            &&& self.spec_filter() == prev.spec_filter()
            &&& self.effects() == prev.effects()
            &&& self.spec_next_token() == prev.spec_next_token()
        })
        &&& (!prev.spec_is_recipient(m.dst) && prev.routes_via_proxy(m.src) ==> {
            let armed = !(m.content is Ack) && prev.spec_next_token() < u64::MAX;
            let key = outgoing_key(prev.outgoing_signed(m), prev.spec_proxy_peer_id(), route);
            let scheduled = if armed {
                prev.effects().push(
                    EffectView::ScheduleTimeout { token: prev.spec_next_token(), secs: prev.spec_ack_timeout() },
                )
            } else {
                prev.effects()
            };
            &&& r is Ok
            &&& self.spec_ack_mgr().pending() == if armed {
                prev.spec_ack_mgr().pending().insert(
                    message_fingerprint(m),
                    PendingView { msg: m, route, timer_token: prev.spec_next_token() },
                )
            } else {
                prev.spec_ack_mgr().pending()
            }
            &&& self.spec_next_token() == if armed {
                (prev.spec_next_token() + 1) as u64
            } else {
                prev.spec_next_token()
            }
            &&& prev.spec_filter().outgoing_expiry() > 0 ==> self.spec_filter().was_sent(key, now)
            &&& self.effects() == if prev.spec_filter().was_sent(key, now) {
                scheduled
            } else {
                scheduled.push(
                    EffectView::Send {
                        peer: prev.spec_proxy_peer_id(),
                        msg: prev.outgoing_signed(m),
                        route,
                        priority: content_priority(m.content),
                    },
                )
            }
        })
    }

    /// Tracks `msg`, sent via `route`, under its fingerprint with a fresh
    /// timer token, and schedules its timeout.
    fn arm_ack(&mut self, msg: &RoutingMessage, route: u8)
        requires
            old(self).wf(),
            old(self).trackable(msg@),
            old(self).spec_next_token() < u64::MAX,
        ensures
            final(self).wf(),
            final(self).same_identity(old(self)),
            final(self).spec_stats() == old(self).spec_stats(),
            final(self).spec_filter() == old(self).spec_filter(),
            final(self).spec_ack_mgr().pending() == old(self).spec_ack_mgr().pending().insert(
                message_fingerprint(msg@),
                PendingView { msg: msg@, route, timer_token: old(self).spec_next_token() },
            ),
            final(self).spec_next_token() == old(self).spec_next_token() + 1,
            final(self).effects() == old(self).effects().push(
                EffectView::ScheduleTimeout { token: old(self).spec_next_token(), secs: old(self).spec_ack_timeout() },
            ),
    {
        let token = self.next_timer_token;
        let ack = fingerprint_message(msg);
        let ghost old_pending = self.ack_mgr.pending();
        let _ = self.ack_mgr.add_to_pending(
            ack,
            UnacknowledgedMessage { routing_msg: msg.clone(), route, timer_token: token },
        );
        self.next_timer_token = token + 1;
        self.push_effect(Effect::ScheduleTimeout { token, secs: self.ack_timeout_secs });
        let ghost p = self.ack_mgr.pending();
        assert forall|a: u64, b: u64|
            #[trigger] p.contains_key(a) && #[trigger] p.contains_key(b) && a != b implies p[a].timer_token
            != p[b].timer_token by {
            if a != ack && b != ack {
                assert(old_pending.contains_key(a) && old_pending.contains_key(b));
            } else if a == ack {
                assert(old_pending.contains_key(b));
            } else {
                assert(old_pending.contains_key(a));
            }
        }
        assert forall|a: u64| #[trigger] p.contains_key(a) implies message_fingerprint(p[a].msg) == a
            && self.trackable(p[a].msg) && p[a].timer_token < self.next_timer_token by {
            if a != ack {
                assert(old_pending.contains_key(a));
            }
        }
    }

    /// Hands `signed` to the transport via our proxy and `route`, unless the
    /// outgoing filter has seen it for that peer and route.
    fn send_unless_sent(&mut self, signed: SignedMessage, route: u8, priority: u8, now: u64)
        requires
            old(self).wf(),
        ensures
            final(self).wf(),
            final(self).same_identity(old(self)),
            final(self).spec_stats() == old(self).spec_stats(),
            final(self).spec_ack_mgr() == old(self).spec_ack_mgr(),
            final(self).spec_next_token() == old(self).spec_next_token(),
            old(self).spec_filter().outgoing_expiry() > 0 ==> final(self).spec_filter().was_sent(
                outgoing_key(signed@, old(self).spec_proxy_peer_id(), route),
                now,
            ),
            final(self).spec_filter().outgoing_expiry() == old(self).spec_filter().outgoing_expiry(),
            final(self).spec_filter().incoming_expiry() == old(self).spec_filter().incoming_expiry(),
            final(self).effects() == if old(self).spec_filter().was_sent(
                outgoing_key(signed@, old(self).spec_proxy_peer_id(), route),
                now,
            ) {
                old(self).effects()
            } else {
                old(self).effects().push(
                    EffectView::Send { peer: old(self).spec_proxy_peer_id(), msg: signed@, route, priority },
                )
            },
    {
        let peer = self.proxy_peer_id;
        let sent = self.signed_msg_filter.filter_outgoing(&signed, &peer, route, now);
        assert(self.signed_msg_filter.outgoing_expiry() > 0 ==> live(now, now, self.signed_msg_filter.outgoing_expiry()));
        assert(self.signed_msg_filter.outgoing_expiry() > 0 ==> self.signed_msg_filter.was_sent(
            outgoing_key(signed@, peer, route),
            now,
        ));
        if !sent {
            self.push_effect(Effect::Send { peer, msg: signed, route, priority });
        }
    }

    /// Sends `routing_msg` via `route` through our proxy.
    ///
    /// A message for ourselves is resolved locally. Otherwise the source must
    /// be a client authority that names our proxy. A message that is not an
    /// acknowledgement is armed under its fingerprint with a fresh timer
    /// token (while tokens last), and a timeout is scheduled. The message is
    /// handed to the transport unless the same message went to the proxy via
    /// the same route within the outgoing expiry window.
    pub fn send_routing_message_via_route(&mut self, routing_msg: RoutingMessage, route: u8, now: u64) -> (r: Result<
        (),
        RoutingError,
    >)
        requires
            old(self).wf(),
        ensures
            final(self).wf(),
            final(self).same_identity(old(self)),
            final(self).sent_via_route(old(self), routing_msg@, route, now, r),
    {
        self.stats.routes = self.stats.routes.saturating_add(1);
        if self.is_recipient(&routing_msg.dst) {
            return Ok(());
        }
        match &routing_msg.src {
            Authority::Client { proxy_node_name, .. } => {
                if *proxy_node_name != self.proxy_public_id.name {
                    return Err(RoutingError::ProxyConnectionNotFound);
                }
            },
            _ => {
                return Err(RoutingError::InvalidSource);
            },
        }
        let priority = priority_of(&routing_msg.content);
        let is_ack = match &routing_msg.content {
            MessageContent::Ack { .. } => true,
            _ => false,
        };
        let ghost m = routing_msg@;
        let signed = SignedMessage { routing_message: routing_msg, public_id: self.public_id, signature: Vec::new() };
        assert(signed@ == self.outgoing_signed(m));
        if !is_ack && self.next_timer_token < u64::MAX {
            self.arm_ack(&signed.routing_message, route);
        }
        self.send_unless_sent(signed, route, priority, now);
        Ok(())
    }

    /// What handling the expiry of the timer `token` at `now` did, `prev`
    /// being the client before: when the timer belongs to a pending message,
    /// that message is given up on (counted in the statistics) once its last
    /// route was the last one, and otherwise sent again via the next route
    /// under a fresh timer; any other timer changes nothing.
    pub open spec fn handled_timeout(&self, prev: &Client, token: u64, now: u64) -> bool {
        let p = prev.spec_ack_mgr().pending();
        if exists|a: u64| #[trigger] p.contains_key(a) && p[a].timer_token == token {
            let a = choose|a: u64| #[trigger] p.contains_key(a) && p[a].timer_token == token;
            let armed = prev.spec_next_token() < u64::MAX;
            if gives_up(p[a].route, prev.spec_min_group_size()) {
                &&& self.spec_ack_mgr().pending() == p.remove(a)
                &&& self.spec_stats().unacked == if prev.spec_stats().unacked < u64::MAX {
                    (prev.spec_stats().unacked + 1) as u64
                } else {
                    u64::MAX
                }
                &&& self.spec_stats().routes == prev.spec_stats().routes
                &&& self.spec_stats().user_messages == prev.spec_stats().user_messages
                &&& self.effects() == prev.effects()
                &&& self.spec_filter() == prev.spec_filter()
                &&& self.spec_next_token() == prev.spec_next_token()
            } else {
                let key = outgoing_key(prev.outgoing_signed(p[a].msg), prev.spec_proxy_peer_id(), next_route(p[a].route));
                let scheduled = if armed {
                    prev.effects().push(
                        EffectView::ScheduleTimeout { token: prev.spec_next_token(), secs: prev.spec_ack_timeout() },
                    )
                } else {
                    prev.effects()
                };
                &&& self.spec_ack_mgr().pending() == if armed {
                    p.insert(
                        a,
                        PendingView {
                            msg: p[a].msg,
                            route: next_route(p[a].route),
                            timer_token: prev.spec_next_token(),
                        },
                    )
                } else {
                    p.remove(a)
                }
                &&& self.spec_stats().unacked == prev.spec_stats().unacked
                &&& self.effects() == if prev.spec_filter().was_sent(key, now) {
                    scheduled
                } else {
                    scheduled.push(
                        EffectView::Send {
                            peer: prev.spec_proxy_peer_id(),
                            msg: prev.outgoing_signed(p[a].msg),
                            route: next_route(p[a].route),
                            priority: content_priority(p[a].msg.content),
                        },
                    )
                }
            }
        } else {
            &&& self.spec_ack_mgr().pending() == p
            &&& self.spec_stats() == prev.spec_stats()
            &&& self.effects() == prev.effects()
            &&& self.spec_filter() == prev.spec_filter()
            &&& self.spec_next_token() == prev.spec_next_token()
        }
    }

    /// Handles the expiry of the timer `token`. When it belongs to a pending
    /// message, that message is either given up on (its last route was the
    /// last one; counted in the statistics) or sent again via the next route.
    pub fn resend_unacknowledged_timed_out_msgs(&mut self, token: u64, now: u64)
        requires
            old(self).wf(),
        ensures
            final(self).wf(),
            final(self).same_identity(old(self)),
            final(self).handled_timeout(old(self), token, now),
    {
        let ghost p = self.ack_mgr.pending();
        let ghost next = self.next_timer_token;
        match self.ack_mgr.find_timed_out(token) {
            None => {
            },
            Some((unacked_msg, ack)) => {
                let ghost a = choose|a: u64| #[trigger] p.contains_key(a) && p[a].timer_token == token;
                assert(p.contains_key(ack) && p[ack].timer_token == token);
                assert(a == ack);
                let ghost mid = self.ack_mgr.pending();
                assert forall|b: u64| #[trigger] mid.contains_key(b) implies message_fingerprint(mid[b].msg) == b
                    && self.trackable(mid[b].msg) && mid[b].timer_token < self.next_timer_token by {
                    assert(p.contains_key(b));
                }
                assert forall|b: u64, c: u64|
                    #[trigger] mid.contains_key(b) && #[trigger] mid.contains_key(c) && b != c implies mid[b].timer_token
                    != mid[c].timer_token by {
                    assert(p.contains_key(b) && p.contains_key(c));
                }
                if unacked_msg.route as usize >= self.min_group_size {
                    self.stats.unacked = self.stats.unacked.saturating_add(1);
                } else {
                    assert(unacked_msg.routing_msg@ == p[a].msg);
                    assert(self.trackable(p[a].msg));
                    assert(message_fingerprint(p[a].msg) == a);
                    let _ = self.send_routing_message_via_route(unacked_msg.routing_msg, unacked_msg.route, now);
                    assert(mid.insert(a, PendingView {
                        msg: p[a].msg,
                        route: next_route(p[a].route),
                        timer_token: next,
                    }) =~= p.insert(a, PendingView {
                        msg: p[a].msg,
                        route: next_route(p[a].route),
                        timer_token: next,
                    }));
                }
            },
        }
    }
}

/// The acknowledgement of `m`, sent back from its destination to its source.
pub open spec fn ack_message(m: RoutingMessageView) -> RoutingMessageView {
    RoutingMessageView {
        src: m.dst,
        dst: m.src,
        content: ContentView::Ack { ack: message_fingerprint(m), priority: 0 },
    }
}

/// Whether the accumulator hands `m`, vouched for by `signer`, out now.
pub open spec fn accumulates(acc: MessageAccumulator, m: RoutingMessageView, signer: PublicId, now: u64) -> bool {
    !m.src.spec_is_group() || delivers_now(
        acc.signers(m, now),
        acc.delivered(m, now),
        signer,
        acc.spec_quorum_size() as nat,
    )
}

impl Client {
    /// Acknowledges `routing_msg` to its source via `route`, unless it is an
    /// acknowledgement itself.
    fn send_ack(&mut self, routing_msg: &RoutingMessage, route: u8, now: u64) -> (r: Result<(), RoutingError>)
        requires
            old(self).wf(),
        ensures
            final(self).wf(),
            final(self).same_identity(old(self)),
            routing_msg@.content is Ack ==> *final(self) == *old(self),
            !(routing_msg@.content is Ack) ==> final(self).sent_via_route(
                old(self),
                ack_message(routing_msg@),
                route,
                now,
                r,
            ),
    {
        if let MessageContent::Ack { .. } = &routing_msg.content {
            return Ok(());
        }
        let ack = fingerprint_message(routing_msg);
        let response = RoutingMessage {
            src: routing_msg.dst,
            dst: routing_msg.src,
            content: MessageContent::Ack { ack, priority: 0 },
        };
        self.send_routing_message_via_route(response, route, now)
    }

    /// What dispatching the accumulated message `m` at `now` did, `prev`
    /// being the client before: an acknowledgement resolves its pending
    /// message; a part is stored, and the application receives the user
    /// message it completes; anything else changes nothing.
    pub open spec fn dispatched(&self, prev: &Client, m: RoutingMessageView, now: u64) -> bool {
        match m.content {
            ContentView::Ack { ack, .. } => {
                &&& self.spec_ack_mgr().pending() == prev.spec_ack_mgr().pending().remove(ack)
                &&& self.effects() == prev.effects()
                &&& self.spec_cache() == prev.spec_cache()
                &&& self.spec_stats() == prev.spec_stats()
            },
            ContentView::UserMessagePart { hash, part_count, part_index, payload, .. } => {
                let parts = prev.spec_cache().parts(hash, part_count, now).insert(part_index, payload);
                let done = part_index < part_count && complete(parts, part_count);
                &&& self.spec_cache().expiry() == prev.spec_cache().expiry()
                &&& part_index >= part_count ==> self.spec_cache() == prev.spec_cache()
                &&& part_index < part_count ==> forall|t: u64|
                    #![trigger self.spec_cache().parts(hash, part_count, t)]
                    self.spec_cache().parts(hash, part_count, t) == if !done && live(now, t, prev.spec_cache().expiry()) {
                        parts
                    } else {
                        Map::<u32, Seq<u8>>::empty()
                    }
                &&& forall|h: u64, c: u32, t: u64|
                    #![trigger self.spec_cache().parts(h, c, t)]
                    (h, c) != (hash, part_count) && t >= now ==> self.spec_cache().parts(h, c, t) == prev.spec_cache().parts(h, c, t)
                &&& self.spec_ack_mgr() == prev.spec_ack_mgr()
                &&& self.effects() == if done {
                    prev.effects().push(
                        EffectView::Raise(
                            EventView::UserMessage {
                                payload: joined(parts, part_count as nat),
                                src: m.src,
                                dst: m.dst,
                            },
                        ),
                    )
                } else {
                    prev.effects()
                }
                &&& self.spec_stats() == if done {
                    Stats {
                        user_messages: if prev.spec_stats().user_messages < u64::MAX {
                            (prev.spec_stats().user_messages + 1) as u64
                        } else {
                            u64::MAX
                        },
                        ..prev.spec_stats()
                    }
                } else {
                    prev.spec_stats()
                }
            },
            ContentView::Other { .. } => {
                &&& self.spec_ack_mgr() == prev.spec_ack_mgr()
                &&& self.effects() == prev.effects()
                &&& self.spec_cache() == prev.spec_cache()
                &&& self.spec_stats() == prev.spec_stats()
            },
        }
    }

    /// Handles a message that accumulated: an acknowledgement resolves its
    /// pending message; a user message part is stored, and when it completes
    /// its message the application receives it; anything else is dropped.
    pub fn dispatch_routing_message(&mut self, routing_msg: RoutingMessage, now: u64) -> (r: Transition)
        requires
            old(self).wf(),
        ensures
            final(self).wf(),
            r == Transition::Stay,
            final(self).spec_public_id() == old(self).spec_public_id(),
            final(self).spec_our_peer_id() == old(self).spec_our_peer_id(),
            final(self).spec_proxy_peer_id() == old(self).spec_proxy_peer_id(),
            final(self).spec_proxy_public_id() == old(self).spec_proxy_public_id(),
            final(self).spec_accumulator() == old(self).spec_accumulator(),
            final(self).spec_filter() == old(self).spec_filter(),
            final(self).spec_next_token() == old(self).spec_next_token(),
            final(self).dispatched(old(self), routing_msg@, now),
    {
        let RoutingMessage { src, dst, content } = routing_msg;
        match content {
            MessageContent::Ack { ack, .. } => {
                self.handle_ack_response(ack);
            },
            MessageContent::UserMessagePart { hash, part_count, part_index, payload, .. } => {
                if let Some(msg) = self.user_msg_cache.add(hash, part_count, part_index, payload, now) {
                    self.stats.user_messages = self.stats.user_messages.saturating_add(1);
                    self.push_effect(Event::UserMessage { payload: msg, src, dst }.into_effect());
                }
            },
            MessageContent::Other { .. } => {
            },
        }
        Transition::Stay
    }

    /// Handles an acknowledgement: the message it names is no longer pending.
    pub fn handle_ack_response(&mut self, ack: u64) -> (r: Transition)
        requires
            old(self).wf(),
        ensures
            final(self).wf(),
            r == Transition::Stay,
            final(self).same_identity(old(self)),
            final(self).spec_filter() == old(self).spec_filter(),
            final(self).spec_stats() == old(self).spec_stats(),
            final(self).spec_next_token() == old(self).spec_next_token(),
            final(self).effects() == old(self).effects(),
            final(self).spec_ack_mgr().pending() == old(self).spec_ack_mgr().pending().remove(ack),
    {
        let ghost p = self.ack_mgr.pending();
        self.ack_mgr.receive(ack);
        assert forall|b: u64| #[trigger] self.ack_mgr.pending().contains_key(b) implies p.contains_key(b) by {
        }
        Transition::Stay
    }

    /// What handling the routing message `m` vouched for by `signer` at
    /// `now` did, `prev` being the client before: the accumulator records the
    /// copy; once the message accumulates, a group-sourced message other than
    /// an acknowledgement is acknowledged via route 0, and then the message is
    /// dispatched; otherwise nothing else changes.
    pub open spec fn routed(&self, prev: &Client, m: RoutingMessageView, signer: PublicId, now: u64) -> bool {
        &&& self.spec_accumulator().added(&prev.spec_accumulator(), m, signer, now)
        &&& forall|k: OutgoingKey, t: u64|
            #![trigger self.spec_filter().was_sent(k, t)]
            !accumulates(prev.spec_accumulator(), m, signer, now) ==> self.spec_filter().was_sent(k, t)
                == prev.spec_filter().was_sent(k, t)
        &&& !accumulates(prev.spec_accumulator(), m, signer, now) ==> {
            &&& self.spec_ack_mgr() == prev.spec_ack_mgr()
            &&& self.effects() == prev.effects()
            &&& self.spec_cache() == prev.spec_cache()
            &&& self.spec_stats() == prev.spec_stats()
            &&& self.spec_next_token() == prev.spec_next_token()
        }
        &&& accumulates(prev.spec_accumulator(), m, signer, now) ==> if m.src.spec_is_group() && !(
        m.content is Ack) {
            exists|mid: Client, e: Result<(), RoutingError>|
                #[trigger] mid.sent_via_route(prev, ack_message(m), 0, now, e) && mid.spec_cache()
                    == prev.spec_cache() && self.dispatched(&mid, m, now)
        } else {
            self.dispatched(prev, m, now)
        }
    }

    /// Whether `self` is `prev` after `filter_incoming` recorded `msg` at
    /// `now`: only the incoming filter changed.
    pub open spec fn recorded_incoming(&self, prev: &Client, msg: SignedMessageView, now: u64) -> bool {
        let count = prev.spec_filter().incoming_count(msg, now);
        &&& self.wf()
        &&& self.spec_ack_mgr() == prev.spec_ack_mgr()
        &&& self.spec_accumulator() == prev.spec_accumulator()
        &&& self.spec_cache() == prev.spec_cache()
        &&& self.spec_stats() == prev.spec_stats()
        &&& self.spec_next_token() == prev.spec_next_token()
        &&& self.effects() == prev.effects()
        &&& self.spec_public_id() == prev.spec_public_id()
        &&& self.spec_our_peer_id() == prev.spec_our_peer_id()
        &&& self.spec_proxy_peer_id() == prev.spec_proxy_peer_id()
        &&& self.spec_proxy_public_id() == prev.spec_proxy_public_id()
        &&& self.spec_min_group_size() == prev.spec_min_group_size()
        &&& self.spec_ack_timeout() == prev.spec_ack_timeout()
        &&& self.spec_filter().incoming_expiry() == prev.spec_filter().incoming_expiry()
        &&& self.spec_filter().outgoing_expiry() == prev.spec_filter().outgoing_expiry()
        &&& prev.spec_filter().incoming_expiry() > 0 ==> self.spec_filter().incoming_count(msg, now) == if count < usize::MAX { count + 1 } else { usize::MAX as nat }
        &&& forall|k: OutgoingKey, t: u64|
            #![trigger self.spec_filter().was_sent(k, t)]
            self.spec_filter().was_sent(k, t) == prev.spec_filter().was_sent(k, t)
    }

    /// What handling a hop message carrying `msg` from `peer_id` at `now`
    /// did, given whether its signatures verified, `prev` being the client
    /// before: one not from our proxy or not verified changes nothing; else
    /// the copy is counted, and when it was seen at most `min_group_size`
    /// times and is addressed to us it is routed.
    pub open spec fn hop_handled(
        &self,
        prev: &Client,
        msg: SignedMessageView,
        peer_id: PeerId,
        hop_signature_valid: bool,
        integrity_valid: bool,
        now: u64,
    ) -> bool {
        let count = prev.spec_filter().incoming_count(msg, now);
        let seen = if count < usize::MAX { count + 1 } else { usize::MAX as nat };
        if peer_id != prev.spec_proxy_peer_id() || !hop_signature_valid || !integrity_valid {
            *self == *prev
        } else if seen > prev.spec_min_group_size() || !prev.spec_is_recipient(msg.routing_message.dst) {
            self.recorded_incoming(prev, msg, now)
        } else {
            exists|pre: Client|
                #[trigger] pre.recorded_incoming(prev, msg, now) && self.routed(&pre, msg.routing_message, msg.public_id, now)
        }
    }

    /// Handles a routing message addressed to us, vouched for by `public_id`:
    /// it is accumulated, and once it accumulates it is acknowledged (when
    /// its source is a group) and dispatched.
    pub fn handle_routing_message(&mut self, routing_msg: &RoutingMessage, public_id: &PublicId, now: u64) -> (r:
        Transition)
        requires
            old(self).wf(),
        ensures
            final(self).wf(),
            r == Transition::Stay,
            final(self).spec_public_id() == old(self).spec_public_id(),
            final(self).spec_proxy_peer_id() == old(self).spec_proxy_peer_id(),
            final(self).spec_proxy_public_id() == old(self).spec_proxy_public_id(),
            forall|m: SignedMessageView, t: u64|
                #[trigger] final(self).spec_filter().incoming_count(m, t) == old(self).spec_filter().incoming_count(m, t),
            !accumulates(old(self).spec_accumulator(), routing_msg@, *public_id, now) ==> {
                &&& final(self).spec_ack_mgr() == old(self).spec_ack_mgr()
                &&& final(self).effects() == old(self).effects()
                &&& final(self).spec_cache() == old(self).spec_cache()
                &&& final(self).spec_filter() == old(self).spec_filter()
            },
            !routing_msg.src.spec_is_group() ==> final(self).dispatched(old(self), routing_msg@, now),
            final(self).routed(old(self), routing_msg@, *public_id, now),
            accumulates(old(self).spec_accumulator(), routing_msg@, *public_id, now) ==> match routing_msg@.content {
                ContentView::Ack { ack, .. } => final(self).spec_ack_mgr().pending() == old(
                    self,
                ).spec_ack_mgr().pending().remove(ack),
                _ => final(self).spec_ack_mgr().pending() == old(self).spec_ack_mgr().pending(),
            },
    {
        let ghost prev = *self;
        match self.msg_accumulator.add(routing_msg, public_id, now) {
            Some(msg) => {
                if msg.src.is_group() {
                    let e = self.send_ack(&msg, 0, now);
                    let ghost mid = *self;
                    let t = self.dispatch_routing_message(msg, now);
                    proof {
                        if !(routing_msg@.content is Ack) {
                            assert(mid.sent_via_route(&prev, ack_message(routing_msg@), 0, now, e));
                            assert(mid.spec_cache() == prev.spec_cache());
                        }
                    }
                    t
                } else {
                    self.dispatch_routing_message(msg, now)
                }
            },
            None => Transition::Stay,
        }
    }

    /// Handles a hop message from `peer_id`, given whether its hop signature
    /// and its inner message verified. It must come from our proxy and verify;
    /// a message seen more than `min_group_size` times within the incoming
    /// window is refused; one not addressed to us is dropped quietly.
    pub fn handle_hop_message(
        &mut self,
        signed_msg: &SignedMessage,
        peer_id: PeerId,
        hop_signature_valid: bool,
        integrity_valid: bool,
        now: u64,
    ) -> (r: Result<Transition, RoutingError>)
        requires
            old(self).wf(),
        ensures
            final(self).wf(),
            final(self).spec_public_id() == old(self).spec_public_id(),
            final(self).spec_proxy_peer_id() == old(self).spec_proxy_peer_id(),
            final(self).spec_proxy_public_id() == old(self).spec_proxy_public_id(),
            ({
                let count = old(self).spec_filter().incoming_count(signed_msg@, now);
                let seen = if count < usize::MAX { count + 1 } else { usize::MAX as nat };
                if peer_id != old(self).spec_proxy_peer_id() {
                    &&& r == Err::<Transition, RoutingError>(RoutingError::UnknownConnection(peer_id))
                    &&& *final(self) == *old(self)
                } else if !hop_signature_valid || !integrity_valid {
                    &&& r == Err::<Transition, RoutingError>(RoutingError::FailedSignature)
                    &&& *final(self) == *old(self)
                } else {
                    &&& old(self).spec_filter().incoming_expiry() > 0 ==> final(self).spec_filter().incoming_count(
                        signed_msg@,
                        now,
                    ) == seen
                    &&& seen > old(self).spec_min_group_size() ==> r == Err::<Transition, RoutingError>(RoutingError::FilterCheckFailed)
                    &&& seen <= old(self).spec_min_group_size() ==> r == Ok::<Transition, RoutingError>(Transition::Stay)
                    &&& (seen > old(self).spec_min_group_size() || !old(self).spec_is_recipient(signed_msg@.routing_message.dst)) ==> {
                        &&& final(self).spec_ack_mgr() == old(self).spec_ack_mgr()
                        &&& final(self).effects() == old(self).effects()
                        &&& final(self).spec_accumulator() == old(self).spec_accumulator()
                        &&& final(self).spec_cache() == old(self).spec_cache()
                    }
                }
            }),
            final(self).hop_handled(old(self), signed_msg@, peer_id, hop_signature_valid, integrity_valid, now),
    {
        if self.proxy_peer_id != peer_id {
            return Err(RoutingError::UnknownConnection(peer_id));
        }
        if !hop_signature_valid || !integrity_valid {
            return Err(RoutingError::FailedSignature);
        }
        let seen = self.signed_msg_filter.filter_incoming(signed_msg, now);
        assert(self.signed_msg_filter.incoming_expiry() > 0 ==> live(now, now, self.signed_msg_filter.incoming_expiry()));
        if seen > self.min_group_size {
            return Err(RoutingError::FilterCheckFailed);
        }
        let ghost pre = *self;
        assert(pre.recorded_incoming(old(self), signed_msg@, now));
        if !self.is_recipient(&signed_msg.routing_message.dst) {
            return Ok(Transition::Stay);
        }
        let t = self.handle_routing_message(&signed_msg.routing_message, &signed_msg.public_id, now);
        assert(self.routed(&pre, signed_msg@.routing_message, signed_msg@.public_id, now));
        Ok(t)
    }
}

proof fn lemma_same_identity_trans(a: &Client, b: &Client, c: &Client)
    requires
        a.same_identity(b),
        b.same_identity(c),
    ensures
        a.same_identity(c),
{
    assert forall|m: SignedMessageView, t: u64|
        #[trigger] a.spec_filter().incoming_count(m, t) == c.spec_filter().incoming_count(m, t) by {
        assert(a.spec_filter().incoming_count(m, t) == b.spec_filter().incoming_count(m, t));
        assert(b.spec_filter().incoming_count(m, t) == c.spec_filter().incoming_count(m, t));
    }
}

/// The routing message that carries part `i` of the encoded user message
/// `payload`, as `to_parts` splits it.
pub open spec fn part_message(src: Authority, dst: Authority, payload: Seq<u8>, priority: u8, i: nat) -> RoutingMessageView {
    RoutingMessageView {
        src,
        dst,
        content: ContentView::UserMessagePart {
            hash: bytes_fingerprint(payload),
            part_count: part_count_for(payload.len(), MAX_PART_LEN as nat) as u32,
            part_index: i as u32,
            priority,
            payload: part_payload(payload, MAX_PART_LEN as nat, i),
        },
    }
}

/// Whether `states` runs from `prev`, with its user-message counter raised,
/// through one send via route 0 of each part of `payload` in order, each
/// accepted.
pub open spec fn user_send_chain(
    states: Seq<Client>,
    prev: Client,
    src: Authority,
    dst: Authority,
    payload: Seq<u8>,
    priority: u8,
    now: u64,
) -> bool {
    let n = part_count_for(payload.len(), MAX_PART_LEN as nat);
    &&& states.len() == n + 1
    &&& states[0].spec_ack_mgr() == prev.spec_ack_mgr()
    &&& states[0].effects() == prev.effects()
    &&& states[0].spec_filter() == prev.spec_filter()
    &&& states[0].spec_next_token() == prev.spec_next_token()
    &&& states[0].spec_stats() == (Stats {
        user_messages: if prev.spec_stats().user_messages < u64::MAX {
            (prev.spec_stats().user_messages + 1) as u64
        } else {
            u64::MAX
        },
        ..prev.spec_stats()
    })
    &&& states[0].same_identity(&prev)
    &&& forall|i: int|
        0 <= i < n ==> #[trigger] states[i + 1].sent_via_route(
            &states[i],
            part_message(src, dst, payload, priority, i as nat),
            0,
            now,
            Ok(()),
        )
}

/// Whether `states` runs from `prev` through the handling of the expiry of
/// each timer in `tokens`, in order, where `tokens` holds exactly the timer
/// tokens of the messages pending in `prev`.
pub open spec fn timeout_chain(tokens: Seq<u64>, states: Seq<Client>, prev: Client, now: u64) -> bool {
    &&& states.len() == tokens.len() + 1
    &&& states[0] == prev
    &&& forall|t: u64|
        tokens.contains(t) <==> exists|a: u64|
            #[trigger] prev.spec_ack_mgr().pending().contains_key(a) && prev.spec_ack_mgr().pending()[a].timer_token == t
    &&& forall|i: int| 0 <= i < tokens.len() ==> #[trigger] states[i + 1].handled_timeout(&states[i], tokens[i], now)
}

/// Whether a user message of `len` bytes needs more parts than a `u32` counts.
pub open spec fn too_many_parts(len: nat) -> bool {
    crate::user_message::part_count_for(len, MAX_PART_LEN as nat) > u32::MAX
}

impl Client {
    /// Sends an encoded user message from `src` to `dst`, split into parts,
    /// each via the first route.
    pub fn send_user_message(&mut self, src: Authority, dst: Authority, payload: Vec<u8>, priority: u8, now: u64) -> (r:
        Result<(), RoutingError>)
        requires
            old(self).wf(),
        ensures
            final(self).wf(),
            final(self).same_identity(old(self)),
            too_many_parts(payload@.len()) ==> r == Err::<(), RoutingError>(RoutingError::TooManyParts),
            !too_many_parts(payload@.len()) && !old(self).spec_is_recipient(dst) && !old(self).routes_via_proxy(src)
                ==> r == Err::<(), RoutingError>(
                if src is Client {
                    RoutingError::ProxyConnectionNotFound
                } else {
                    RoutingError::InvalidSource
                },
            ),
            !too_many_parts(payload@.len()) && (old(self).spec_is_recipient(dst) || old(self).routes_via_proxy(src))
                ==> r is Ok && exists|states: Seq<Client>|
                #[trigger] user_send_chain(states, *old(self), src, dst, payload@, priority, now) && states.last()
                    == *final(self),
            r is Err ==> {
                &&& final(self).effects() == old(self).effects()
                &&& final(self).spec_ack_mgr() == old(self).spec_ack_mgr()
                &&& final(self).spec_filter() == old(self).spec_filter()
                &&& final(self).spec_next_token() == old(self).spec_next_token()
            },
            final(self).spec_stats().user_messages == if old(self).spec_stats().user_messages < u64::MAX {
                (old(self).spec_stats().user_messages + 1) as u64
            } else {
                u64::MAX
            },
    {
        self.stats.user_messages = self.stats.user_messages.saturating_add(1);
        let hash = fingerprint_bytes(&payload);
        let parts = match to_parts(hash, &payload, priority, MAX_PART_LEN) {
            Some(parts) => parts,
            None => {
                return Err(RoutingError::TooManyParts);
            },
        };
        let ghost start = *self;
        assert(start.same_identity(old(self)));
        let ghost all = parts@;
        let mut rest = parts;
        let ghost n = rest@.len();
        assert(n >= 1);
        let ghost mut first = true;
        let ghost mut states: Seq<Client> = seq![start];
        let ghost valid = start.spec_is_recipient(dst) || start.routes_via_proxy(src);
        while rest.len() > 0
            invariant
                self.wf(),
                self.same_identity(&start),
                start.same_identity(old(self)),
                start.wf(),
                first ==> rest@.len() == n,
                n >= 1,
                !too_many_parts(payload@.len()),
                !(start.spec_is_recipient(dst) || start.routes_via_proxy(src)) ==> first,
                self.spec_stats().user_messages == start.spec_stats().user_messages,
                n == part_count_for(payload@.len(), MAX_PART_LEN as nat),
                all.len() == n,
                rest@.len() <= n,
                rest@ == all.subrange(n - rest@.len(), n as int),
                forall|j: int| #![trigger all[j]] 0 <= j < n ==> all[j]@ == part_message(src, dst, payload@, priority, j as nat).content,
                valid == (start.spec_is_recipient(dst) || start.routes_via_proxy(src)),
                first ==> {
                    &&& self.effects() == old(self).effects()
                    &&& self.spec_ack_mgr() == old(self).spec_ack_mgr()
                    &&& self.spec_filter() == old(self).spec_filter()
                    &&& self.spec_next_token() == old(self).spec_next_token()
                },
                valid ==> states.len() == n - rest@.len() + 1,
                valid ==> states[0] == start,
                valid ==> states.last() == *self,
                valid ==> forall|i: int|
                    0 <= i < n - rest@.len() ==> #[trigger] states[i + 1].sent_via_route(
                        &states[i],
                        part_message(src, dst, payload@, priority, i as nat),
                        0,
                        now,
                        Ok(()),
                    ),
                start.spec_stats().user_messages == if old(self).spec_stats().user_messages < u64::MAX {
                    (old(self).spec_stats().user_messages + 1) as u64
                } else {
                    u64::MAX
                },
            decreases rest@.len(),
        {
            let ghost k = n - rest@.len();
            assert(rest@[0] == all[k]);
            let part = rest.remove(0);
            assert(rest@ =~= all.subrange(n - rest@.len(), n as int));
            let msg = RoutingMessage { src, dst, content: part };
            assert(msg@ == part_message(src, dst, payload@, priority, k as nat));
            let ghost before = *self;
            match self.send_routing_message_via_route(msg, 0, now) {
                Ok(()) => {
                },
                Err(e) => {
                    proof {
                        lemma_same_identity_trans(&*self, &before, &start);
                        lemma_same_identity_trans(&*self, &start, &*old(self));
                    }
                    return Err(e);
                },
            }
            proof {
                lemma_same_identity_trans(&*self, &before, &start);
                first = false;
                if valid {
                    let prev_states = states;
                    states = states.push(*self);
                    assert forall|i: int|
                        0 <= i < n - rest@.len() implies #[trigger] states[i + 1].sent_via_route(
                            &states[i],
                            part_message(src, dst, payload@, priority, i as nat),
                            0,
                            now,
                            Ok(()),
                        ) by {
                        if i < k {
                            assert(states[i + 1] == prev_states[i + 1]);
                            assert(states[i] == prev_states[i]);
                        } else {
                            assert(states[i] == before);
                        }
                    }
                }
            }
        }
        assert(user_send_chain(states, *old(self), src, dst, payload@, priority, now) || !valid);
        proof {
            lemma_same_identity_trans(&*self, &start, &*old(self));
        }
        assert(!first);
        Ok(())
    }

    /// Handles the expiry of the timer `token`.
    pub fn handle_timeout(&mut self, token: u64, now: u64)
        requires
            old(self).wf(),
        ensures
            final(self).wf(),
            final(self).same_identity(old(self)),
            final(self).handled_timeout(old(self), token, now),
    {
        self.resend_unacknowledged_timed_out_msgs(token, now);
    }

    /// Handles an action of the application and returns what to do next and
    /// the answer the action asks for.
    pub fn handle_action(&mut self, action: Action, now: u64) -> (r: (Transition, ActionReply))
        requires
            old(self).wf(),
        ensures
            final(self).wf(),
            final(self).spec_public_id() == old(self).spec_public_id(),
            final(self).spec_proxy_peer_id() == old(self).spec_proxy_peer_id(),
            r == match action {
                Action::ClientSendRequest { .. } => (Transition::Stay, ActionReply::Sent),
                Action::NodeSendMessage => (Transition::Stay, ActionReply::Refused(InterfaceError::InvalidState)),
                Action::CloseGroup { .. } => (Transition::Stay, ActionReply::NoCloseGroup),
                Action::Name => (Transition::Stay, ActionReply::Name(old(self).spec_public_id().name)),
                Action::QuorumSize => (
                    Transition::Stay,
                    ActionReply::QuorumSize(old(self).spec_accumulator().spec_quorum_size()),
                ),
                Action::Timeout(_) => (Transition::Stay, ActionReply::NoReply),
                Action::Terminate => (Transition::Terminate, ActionReply::NoReply),
            },
            match action {
                Action::Timeout(token) => final(self).handled_timeout(old(self), token, now),
                Action::ClientSendRequest { content, dst, priority } => (too_many_parts(content@.len()) ==> {
                    &&& final(self).effects() == old(self).effects()
                    &&& final(self).spec_ack_mgr() == old(self).spec_ack_mgr()
                    &&& final(self).spec_filter() == old(self).spec_filter()
                    &&& final(self).spec_next_token() == old(self).spec_next_token()
                }) && (!too_many_parts(content@.len()) ==> exists|
                    states: Seq<Client>,
                |
                    #[trigger] user_send_chain(
                        states,
                        *old(self),
                        Authority::Client {
                            client_key: old(self).spec_public_id().signing_key,
                            proxy_node_name: old(self).spec_proxy_public_id().name,
                            peer_id: old(self).spec_our_peer_id(),
                        },
                        dst,
                        content@,
                        priority,
                        now,
                    ) && states.last() == *final(self)),
                _ => true,
            },
            (action is Name || action is QuorumSize || action is NodeSendMessage || action is CloseGroup
                || action is Terminate) ==> *final(self) == *old(self),
    {
        match action {
            Action::ClientSendRequest { content, dst, priority } => {
                let src = Authority::Client {
                    client_key: self.public_id.signing_key,
                    proxy_node_name: self.proxy_public_id.name,
                    peer_id: self.our_peer_id,
                };
                let _ = self.send_user_message(src, dst, content, priority, now);
                (Transition::Stay, ActionReply::Sent)
            },
            Action::NodeSendMessage => (Transition::Stay, ActionReply::Refused(InterfaceError::InvalidState)),
            Action::CloseGroup { .. } => (Transition::Stay, ActionReply::NoCloseGroup),
            Action::Name => (Transition::Stay, ActionReply::Name(self.public_id.name)),
            Action::QuorumSize => (Transition::Stay, ActionReply::QuorumSize(self.msg_accumulator.quorum_size())),
            Action::Timeout(token) => {
                self.handle_timeout(token, now);
                (Transition::Stay, ActionReply::NoReply)
            },
            Action::Terminate => (Transition::Terminate, ActionReply::NoReply),
        }
    }

    /// Handles a decoded message from the transport peer `peer_id`. Messages
    /// that fail a check are dropped; the client stays in any case.
    pub fn handle_new_message(&mut self, peer_id: PeerId, incoming: Incoming, now: u64) -> (r: Transition)
        requires
            old(self).wf(),
        ensures
            final(self).wf(),
            r == Transition::Stay,
            final(self).spec_public_id() == old(self).spec_public_id(),
            final(self).spec_proxy_peer_id() == old(self).spec_proxy_peer_id(),
            match incoming {
                Incoming::Hop { msg, hop_signature_valid, integrity_valid } => final(self).hop_handled(
                    old(self),
                    msg@,
                    peer_id,
                    hop_signature_valid,
                    integrity_valid,
                    now,
                ),
                _ => *final(self) == *old(self),
            },
    {
        match incoming {
            Incoming::Hop { msg, hop_signature_valid, integrity_valid } => {
                match self.handle_hop_message(&msg, peer_id, hop_signature_valid, integrity_valid, now) {
                    Ok(transition) => transition,
                    Err(_) => Transition::Stay,
                }
            },
            Incoming::Other => Transition::Stay,
            Incoming::Malformed => Transition::Stay,
        }
    }

    /// Handles a transport event: a lost peer or a new message; any other
    /// event changes nothing.
    pub fn handle_crust_event(&mut self, event: TransportEvent, now: u64) -> (r: Transition)
        requires
            old(self).wf(),
        ensures
            final(self).wf(),
            final(self).spec_public_id() == old(self).spec_public_id(),
            final(self).spec_proxy_peer_id() == old(self).spec_proxy_peer_id(),
            match event {
                TransportEvent::LostPeer(peer_id) => {
                    &&& r == if peer_id != old(self).spec_our_peer_id() && peer_id == old(self).spec_proxy_peer_id() {
                        Transition::Terminate
                    } else {
                        Transition::Stay
                    }
                    &&& final(self).effects() == if r == Transition::Terminate {
                        old(self).effects().push(EffectView::Raise(EventView::Terminate))
                    } else {
                        old(self).effects()
                    }
                },
                TransportEvent::NewMessage(peer_id, incoming) => {
                    &&& r == Transition::Stay
                    &&& match incoming {
                        Incoming::Hop { msg, hop_signature_valid, integrity_valid } => final(self).hop_handled(
                            old(self),
                            msg@,
                            peer_id,
                            hop_signature_valid,
                            integrity_valid,
                            now,
                        ),
                        _ => *final(self) == *old(self),
                    }
                },
                TransportEvent::Other => r == Transition::Stay && *final(self) == *old(self),
            },
    {
        match event {
            TransportEvent::LostPeer(peer_id) => self.handle_lost_peer(peer_id),
            TransportEvent::NewMessage(peer_id, incoming) => self.handle_new_message(peer_id, incoming, now),
            TransportEvent::Other => Transition::Stay,
        }
    }

    /// Sends every pending message again, as if each timer fired; returns
    /// whether there was any.
    pub fn resend_unacknowledged(&mut self, now: u64) -> (r: bool)
        requires
            old(self).wf(),
        ensures
            final(self).wf(),
            final(self).same_identity(old(self)),
            r == !old(self).spec_ack_mgr().pending().is_empty(),
            exists|tokens: Seq<u64>, states: Seq<Client>|
                #[trigger] timeout_chain(tokens, states, *old(self), now) && states.last() == *final(self),
    {
        let timer_tokens = self.ack_mgr.timer_tokens();
        let ghost start = *self;
        let ghost mut states: Seq<Client> = seq![start];
        let mut i: usize = 0;
        while i < timer_tokens.len()
            invariant
                self.wf(),
                self.same_identity(&start),
                start == *old(self),
                start.wf(),
                i <= timer_tokens@.len(),
                forall|t: u64| timer_tokens@.contains(t) <==> exists|a: u64|
                    #[trigger] start.spec_ack_mgr().pending().contains_key(a) && start.spec_ack_mgr().pending()[a].timer_token == t,
                states.len() == i + 1,
                states[0] == start,
                states.last() == *self,
                forall|j: int| 0 <= j < i ==> #[trigger] states[j + 1].handled_timeout(&states[j], timer_tokens@[j], now),
            decreases timer_tokens@.len() - i,
        {
            let ghost before = *self;
            self.resend_unacknowledged_timed_out_msgs(timer_tokens[i], now);
            proof {
                lemma_same_identity_trans(&*self, &before, &start);
                let prev_states = states;
                states = states.push(*self);
                assert forall|j: int| 0 <= j < i + 1 implies #[trigger] states[j + 1].handled_timeout(
                    &states[j],
                    timer_tokens@[j],
                    now,
                ) by {
                    if j < i {
                        assert(states[j + 1] == prev_states[j + 1]);
                        assert(states[j] == prev_states[j]);
                    } else {
                        assert(states[j] == before);
                    }
                }
            }
            i = i + 1;
        }
        assert(timeout_chain(timer_tokens@, states, *old(self), now));
        let ghost p = start.spec_ack_mgr().pending();
        if timer_tokens.len() == 0 {
            assert forall|a: u64| !p.contains_key(a) by {
                if p.contains_key(a) {
                    assert(timer_tokens@.contains(p[a].timer_token));
                }
            }
            assert(p =~= Map::<u64, PendingView>::empty());
        } else {
            assert(timer_tokens@.contains(timer_tokens@[0]));
            let ghost a = choose|a: u64| #[trigger] p.contains_key(a) && p[a].timer_token == timer_tokens@[0];
            assert(p.dom().contains(a));
        }
        timer_tokens.len() > 0
    }

    /// Whether any message awaits an acknowledgement.
    pub fn has_unacknowledged(&self) -> (r: bool)
        requires
            self.wf(),
        ensures
            r == !self.spec_ack_mgr().pending().is_empty(),
    {
        self.ack_mgr.has_pending()
    }

    /// The number of distinct signers a group-sourced message needs.
    pub fn quorum_size(&self) -> (r: usize)
        ensures
            r == self.spec_accumulator().spec_quorum_size(),
    {
        self.msg_accumulator.quorum_size()
    }

    /// Our name.
    pub fn name(&self) -> (r: XorName)
        ensures
            r == self.spec_public_id().name,
    {
        self.public_id.name
    }

    /// Our proxy's identity, against whose key hop signatures are checked.
    pub fn proxy_public_id(&self) -> (r: PublicId)
        ensures
            r == self.spec_proxy_public_id(),
    {
        self.proxy_public_id
    }

    /// The counters so far.
    pub fn stats(&self) -> (r: Stats)
        ensures
            r == self.spec_stats(),
    {
        self.stats
    }
}

/// A message is first sent via route 0, and each timeout that does not give it
/// up sends it again via the next route. So for a message last sent via
/// `route` below `min_group_size`, its timeout gives it up exactly when
/// `route` is the last route, and otherwise sends it via `route + 1`: the
/// routes tried are 0, 1, ..., `min_group_size - 1`, each once.
pub proof fn lemma_retry_routes(route: u8, min_group_size: usize)
    requires
        (route as int) < min_group_size,
        min_group_size <= u8::MAX as int,
    ensures
        gives_up(route, min_group_size) <==> route as int == min_group_size - 1,
        !gives_up(route, min_group_size) ==> next_route(route) as int == route as int + 1,
{
}

proof fn lemma_timeout_picks(c: Client, a: u64)
    requires
        c.wf(),
        c.spec_ack_mgr().pending().contains_key(a),
    ensures
        ({
            let p = c.spec_ack_mgr().pending();
            let token = p[a].timer_token;
            &&& exists|b: u64| #[trigger] p.contains_key(b) && p[b].timer_token == token
            &&& (choose|b: u64| #[trigger] p.contains_key(b) && p[b].timer_token == token) == a
        }),
{
    let p = c.spec_ack_mgr().pending();
    let token = p[a].timer_token;
    assert(p.contains_key(a) && p[a].timer_token == token);
    let b = choose|b: u64| #[trigger] p.contains_key(b) && p[b].timer_token == token;
    assert(p.contains_key(b) && p.contains_key(a));
}

proof fn lemma_retry_prefix(states: Seq<Client>, times: Seq<u64>, a: u64, k: int)
    requires
        states.len() == times.len() + 1,
        0 <= k <= times.len(),
        times.len() <= states[0].spec_min_group_size(),
        1 <= states[0].spec_min_group_size() <= u8::MAX,
        forall|i: int| 0 <= i <= times.len() ==> (#[trigger] states[i]).wf(),
        forall|i: int| 0 <= i <= times.len() ==> (#[trigger] states[i]).spec_min_group_size() == states[0].spec_min_group_size(),
        forall|i: int| 0 <= i < times.len() ==> (#[trigger] states[i]).spec_next_token() < u64::MAX,
        states[0].spec_ack_mgr().pending().contains_key(a),
        states[0].spec_ack_mgr().pending()[a].route == 0,
        forall|i: int|
            0 <= i < times.len() ==> #[trigger] states[i + 1].handled_timeout(
                &states[i],
                states[i].spec_ack_mgr().pending()[a].timer_token,
                times[i],
            ),
    ensures
        k < states[0].spec_min_group_size() ==> {
            &&& states[k].spec_ack_mgr().pending().contains_key(a)
            &&& states[k].spec_ack_mgr().pending()[a].route == k
            &&& states[k].spec_ack_mgr().pending()[a].msg == states[0].spec_ack_mgr().pending()[a].msg
        },
        k == states[0].spec_min_group_size() ==> !states[k].spec_ack_mgr().pending().contains_key(a),
    decreases k,
{
    if k > 0 {
        let j = k - 1;
        lemma_retry_prefix(states, times, a, j);
        let c = states[j];
        assert(c.wf());
        lemma_timeout_picks(c, a);
        assert(states[j + 1].handled_timeout(&states[j], states[j].spec_ack_mgr().pending()[a].timer_token, times[j]));
        assert(c.spec_next_token() < u64::MAX);
        assert(c.spec_min_group_size() == states[0].spec_min_group_size());
    }
}

/// A message first sent via route 0 whose timer keeps firing, with no
/// acknowledgement in between, is pending after its `i`-th timeout with
/// route `i`, for each `i` below `min_group_size`; the `min_group_size`-th
/// timeout gives it up. So it is sent via routes 0, 1, ..., each once.
pub proof fn lemma_retry_chain(states: Seq<Client>, times: Seq<u64>, a: u64)
    requires
        states.len() == times.len() + 1,
        times.len() <= states[0].spec_min_group_size(),
        1 <= states[0].spec_min_group_size() <= u8::MAX,
        forall|i: int| 0 <= i <= times.len() ==> (#[trigger] states[i]).wf(),
        forall|i: int| 0 <= i <= times.len() ==> (#[trigger] states[i]).spec_min_group_size() == states[0].spec_min_group_size(),
        forall|i: int| 0 <= i < times.len() ==> (#[trigger] states[i]).spec_next_token() < u64::MAX,
        states[0].spec_ack_mgr().pending().contains_key(a),
        states[0].spec_ack_mgr().pending()[a].route == 0,
        forall|i: int|
            0 <= i < times.len() ==> #[trigger] states[i + 1].handled_timeout(
                &states[i],
                states[i].spec_ack_mgr().pending()[a].timer_token,
                times[i],
            ),
    ensures
        forall|i: int|
            0 <= i <= times.len() && i < states[0].spec_min_group_size() ==> {
                &&& (#[trigger] states[i]).spec_ack_mgr().pending().contains_key(a)
                &&& states[i].spec_ack_mgr().pending()[a].route == i
                &&& states[i].spec_ack_mgr().pending()[a].msg == states[0].spec_ack_mgr().pending()[a].msg
            },
        times.len() == states[0].spec_min_group_size() ==> !states[times.len() as int].spec_ack_mgr().pending().contains_key(
            a,
        ),
{
    assert forall|i: int| 0 <= i <= times.len() && i < states[0].spec_min_group_size() implies {
        &&& (#[trigger] states[i]).spec_ack_mgr().pending().contains_key(a)
        &&& states[i].spec_ack_mgr().pending()[a].route == i
        &&& states[i].spec_ack_mgr().pending()[a].msg == states[0].spec_ack_mgr().pending()[a].msg
    } by {
        lemma_retry_prefix(states, times, a, i);
    }
    lemma_retry_prefix(states, times, a, times.len() as int);
}

/// Once the acknowledgement `ack` of a pending message is handled, no pending
/// message holds that message's timer token, so its next timeout finds
/// nothing and no further route is tried.
pub proof fn lemma_ack_stops_retries(c: Client, ack: u64)
    requires
        c.wf(),
        c.spec_ack_mgr().pending().contains_key(ack),
    ensures
        forall|b: u64|
            #[trigger] c.spec_ack_mgr().pending().remove(ack).contains_key(b) ==> c.spec_ack_mgr().pending().remove(
                ack,
            )[b].timer_token != c.spec_ack_mgr().pending()[ack].timer_token,
{
    let p = c.spec_ack_mgr().pending();
    assert forall|b: u64| #[trigger] p.remove(ack).contains_key(b) implies p.remove(ack)[b].timer_token
        != p[ack].timer_token by {
        assert(p.contains_key(b) && b != ack);
    }
}

impl Event {
    fn into_effect(self) -> (r: Effect)
        ensures
            r@ == EffectView::Raise(self@),
    {
        Effect::Raise(self)
    }
}

} // verus!
