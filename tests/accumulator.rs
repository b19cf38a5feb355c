use routing::id::{PeerId, PublicId, PublicKey, XorName};
use routing::message_accumulator::MessageAccumulator;
use routing::messages::{Authority, MessageContent, RoutingMessage};

fn name(n: u64) -> XorName {
    XorName { w0: n, w1: 1, w2: 2, w3: 3 }
}

fn signer(n: u64) -> PublicId {
    PublicId { signing_key: PublicKey { w0: n, w1: n, w2: n, w3: n }, name: name(n) }
}

fn group_message() -> RoutingMessage {
    RoutingMessage {
        src: Authority::NaeManager(name(50)),
        dst: Authority::ManagedNode(name(60)),
        content: MessageContent::Other { kind: 1, body: vec![10, 20] },
    }
}

#[test]
fn quorum_reached_once() {
    let mut acc = MessageAccumulator::new(3);
    let m = group_message();
    assert!(acc.add(&m, &signer(1), 0).is_none());
    assert!(acc.add(&m, &signer(2), 0).is_none());
    let out = acc.add(&m, &signer(3), 0).expect("quorum reached");
    assert!(out.same_as(&m));
    assert!(acc.add(&m, &signer(4), 0).is_none());
    assert!(acc.add(&m, &signer(5), 0).is_none());
}

#[test]
fn repeated_signer_counts_once() {
    let mut acc = MessageAccumulator::new(2);
    let m = group_message();
    assert!(acc.add(&m, &signer(1), 0).is_none());
    assert!(acc.add(&m, &signer(1), 1).is_none());
    assert!(acc.add(&m, &signer(1), 2).is_none());
    assert!(acc.add(&m, &signer(2), 3).is_some());
}

#[test]
fn single_peer_source_accumulates_at_once() {
    let mut acc = MessageAccumulator::new(5);
    let m = RoutingMessage {
        src: Authority::Client {
            client_key: PublicKey { w0: 1, w1: 2, w2: 3, w3: 4 },
            proxy_node_name: name(7),
            peer_id: PeerId { id: 3 },
        },
        dst: Authority::ClientManager(name(8)),
        content: MessageContent::Ack { ack: 77, priority: 0 },
    };
    assert!(acc.add(&m, &signer(1), 0).is_some());
    assert!(acc.add(&m, &signer(1), 0).is_some());
    let single_node = RoutingMessage {
        src: Authority::ManagedNode(name(9)),
        dst: Authority::ClientManager(name(8)),
        content: MessageContent::Ack { ack: 78, priority: 0 },
    };
    assert!(acc.add(&single_node, &signer(2), 0).is_some());
}

#[test]
fn partial_agreement_expires() {
    let mut acc = MessageAccumulator::with_quorum_size(2, 60);
    let m = group_message();
    assert!(acc.add(&m, &signer(1), 0).is_none());
    // the first copy is forgotten by now
    assert!(acc.add(&m, &signer(2), 60).is_none());
    assert!(acc.add(&m, &signer(3), 61).is_some());
    assert_eq!(acc.quorum_size(), 2);
}
