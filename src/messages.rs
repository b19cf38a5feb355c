//! Authorities and the routing message envelope, with their mathematical views.

use vstd::prelude::*;
use crate::id::{PeerId, PublicId, PublicKey, XorName};

verus! {

/// Source or destination of a routing message: one client, or a group of nodes
/// close to a name.
#[derive(Clone, Copy, Debug, PartialEq, Eq, Structural)]
pub enum Authority {
    /// The group of nodes managing the client with the given name.
    ClientManager(XorName),
    /// The group of nodes managing the data item with the given name.
    NaeManager(XorName),
    /// The group of nodes managing the node with the given name.
    NodeManager(XorName),
    /// A single node.
    ManagedNode(XorName),
    /// A single client, reached through its proxy node.
    Client { client_key: PublicKey, proxy_node_name: XorName, peer_id: PeerId },
}

impl Authority {
    pub open spec fn spec_is_group(self) -> bool {
        match self {
            Authority::ClientManager(_) | Authority::NaeManager(_) | Authority::NodeManager(_) => true,
            _ => false,
        }
    }

    /// Whether this authority is a group of nodes rather than one peer.
    pub fn is_group(&self) -> (r: bool)
        ensures
            r == self.spec_is_group(),
    {
        match self {
            Authority::ClientManager(_) | Authority::NaeManager(_) | Authority::NodeManager(_) => true,
            _ => false,
        }
    }
}

/// What a routing message carries.
pub enum MessageContent {
    /// Acknowledgement of the message whose fingerprint is `ack`.
    Ack { ack: u64, priority: u8 },
    /// One part of a user message split for transport.
    UserMessagePart { hash: u64, part_count: u32, part_index: u32, priority: u8, payload: Vec<u8> },
    /// A domain request or response carried opaquely.
    Other { kind: u8, body: Vec<u8> },
}

pub enum ContentView {
    Ack { ack: u64, priority: u8 },
    UserMessagePart { hash: u64, part_count: u32, part_index: u32, priority: u8, payload: Seq<u8> },
    Other { kind: u8, body: Seq<u8> },
}

impl View for MessageContent {
    type V = ContentView;

    open spec fn view(&self) -> ContentView {
        match self {
            MessageContent::Ack { ack, priority } => ContentView::Ack { ack: *ack, priority: *priority },
            MessageContent::UserMessagePart { hash, part_count, part_index, priority, payload } =>
                ContentView::UserMessagePart {
                hash: *hash,
                part_count: *part_count,
                part_index: *part_index,
                priority: *priority,
                payload: payload@,
            },
            MessageContent::Other { kind, body } => ContentView::Other { kind: *kind, body: body@ },
        }
    }
}

/// Copies a byte vector, keeping its contents.
pub fn copy_bytes(b: &Vec<u8>) -> (r: Vec<u8>)
    ensures
        r@ == b@,
{
    let mut r: Vec<u8> = Vec::with_capacity(b.len());
    let mut i: usize = 0;
    while i < b.len()
        invariant
            i <= b.len(),
            r@ == b@.subrange(0, i as int),
        decreases b.len() - i,
    {
        r.push(b[i]);
        i = i + 1;
        assert(r@ =~= b@.subrange(0, i as int));
    }
    assert(r@ =~= b@);
    r
}

/// Whether two byte vectors hold the same bytes.
pub fn bytes_equal(a: &Vec<u8>, b: &Vec<u8>) -> (r: bool)
    ensures
        r == (a@ == b@),
{
    if a.len() != b.len() {
        return false;
    }
    let mut i: usize = 0;
    while i < a.len()
        invariant
            i <= a.len(),
            a.len() == b.len(),
            a@.subrange(0, i as int) == b@.subrange(0, i as int),
        decreases a.len() - i,
    {
        if a[i] != b[i] {
            assert(a@[i as int] != b@[i as int]);
            return false;
        }
        assert(a@.subrange(0, i + 1) =~= a@.subrange(0, i as int).push(a@[i as int]));
        assert(b@.subrange(0, i + 1) =~= b@.subrange(0, i as int).push(b@[i as int]));
        i = i + 1;
    }
    assert(a@ =~= a@.subrange(0, i as int));
    assert(b@ =~= b@.subrange(0, i as int));
    true
}

impl Clone for MessageContent {
    fn clone(&self) -> (r: Self)
        ensures
            r@ == self@,
    {
        match self {
            MessageContent::Ack { ack, priority } => MessageContent::Ack { ack: *ack, priority: *priority },
            MessageContent::UserMessagePart { hash, part_count, part_index, priority, payload } =>
                MessageContent::UserMessagePart {
                hash: *hash,
                part_count: *part_count,
                part_index: *part_index,
                priority: *priority,
                payload: copy_bytes(payload),
            },
            MessageContent::Other { kind, body } => MessageContent::Other {
                kind: *kind,
                body: copy_bytes(body),
            },
        }
    }
}

impl MessageContent {
    /// Whether two contents are the same value.
    pub fn same_as(&self, other: &MessageContent) -> (r: bool)
        ensures
            r == (self@ == other@),
    {
        match (self, other) {
            (MessageContent::Ack { ack: a1, priority: r1 }, MessageContent::Ack { ack: a2, priority: r2 }) =>
                *a1 == *a2 && *r1 == *r2,
            (
                MessageContent::UserMessagePart {
                    hash: h1,
                    part_count: c1,
                    part_index: i1,
                    priority: p1,
                    payload: b1,
                },
                MessageContent::UserMessagePart {
                    hash: h2,
                    part_count: c2,
                    part_index: i2,
                    priority: p2,
                    payload: b2,
                },
            ) => *h1 == *h2 && *c1 == *c2 && *i1 == *i2 && *p1 == *p2 && bytes_equal(b1, b2),
            (MessageContent::Other { kind: k1, body: b1 }, MessageContent::Other { kind: k2, body: b2 }) =>
                *k1 == *k2 && bytes_equal(b1, b2),
            _ => false,
        }
    }
}

/// A message between two authorities.
pub struct RoutingMessage {
    pub src: Authority,
    pub dst: Authority,
    pub content: MessageContent,
}

pub struct RoutingMessageView {
    pub src: Authority,
    pub dst: Authority,
    pub content: ContentView,
}

impl View for RoutingMessage {
    type V = RoutingMessageView;

    open spec fn view(&self) -> RoutingMessageView {
        RoutingMessageView { src: self.src, dst: self.dst, content: self.content@ }
    }
}

impl Clone for RoutingMessage {
    fn clone(&self) -> (r: Self)
        ensures
            r@ == self@,
    {
        RoutingMessage { src: self.src, dst: self.dst, content: self.content.clone() }
    }
}

impl RoutingMessage {
    /// Whether two routing messages are the same value.
    pub fn same_as(&self, other: &RoutingMessage) -> (r: bool)
        ensures
            r == (self@ == other@),
    {
        self.src == other.src && self.dst == other.dst && self.content.same_as(&other.content)
    }
}

/// A routing message together with its signer's identity and signature.
pub struct SignedMessage {
    pub routing_message: RoutingMessage,
    pub public_id: PublicId,
    pub signature: Vec<u8>,
}

pub struct SignedMessageView {
    pub routing_message: RoutingMessageView,
    pub public_id: PublicId,
    pub signature: Seq<u8>,
}

impl View for SignedMessage {
    type V = SignedMessageView;

    open spec fn view(&self) -> SignedMessageView {
        SignedMessageView {
            routing_message: self.routing_message@,
            public_id: self.public_id,
            signature: self.signature@,
        }
    }
}

impl Clone for SignedMessage {
    fn clone(&self) -> (r: Self)
        ensures
            r@ == self@,
    {
        SignedMessage {
            routing_message: self.routing_message.clone(),
            public_id: self.public_id,
            signature: copy_bytes(&self.signature),
        }
    }
}

impl SignedMessage {
    /// Whether two signed messages are the same value.
    pub fn same_as(&self, other: &SignedMessage) -> (r: bool)
        ensures
            r == (self@ == other@),
    {
        self.routing_message.same_as(&other.routing_message) && self.public_id == other.public_id
            && bytes_equal(&self.signature, &other.signature)
    }
}

} // verus!
