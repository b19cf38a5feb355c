use routing::id::{PeerId, PublicId, PublicKey, XorName};
use routing::messages::{Authority, MessageContent, RoutingMessage, SignedMessage};
use routing::signed_message_filter::SignedMessageFilter;

fn name(n: u64) -> XorName {
    XorName { w0: n, w1: 0, w2: 0, w3: 0 }
}

fn signed(body: Vec<u8>) -> SignedMessage {
    SignedMessage {
        routing_message: RoutingMessage {
            src: Authority::ClientManager(name(1)),
            dst: Authority::NaeManager(name(2)),
            content: MessageContent::Other { kind: 3, body },
        },
        public_id: PublicId { signing_key: PublicKey { w0: 9, w1: 9, w2: 9, w3: 9 }, name: name(9) },
        signature: vec![1, 2, 3],
    }
}

#[test]
fn incoming_counts_up_within_window() {
    let mut filter = SignedMessageFilter::new();
    let m = signed(vec![1, 2]);
    for k in 1..=5usize {
        assert_eq!(filter.filter_incoming(&m, 100 + k as u64), k);
    }
}

#[test]
fn incoming_resets_after_expiry() {
    let mut filter = SignedMessageFilter::new();
    let m = signed(vec![1]);
    assert_eq!(filter.filter_incoming(&m, 0), 1);
    assert_eq!(filter.filter_incoming(&m, 1199), 2);
    // twenty minutes after the last sighting the message is forgotten
    assert_eq!(filter.filter_incoming(&m, 1199 + 1200), 1);
    assert_eq!(filter.filter_incoming(&m, 1199 + 1201), 2);
}

#[test]
fn incoming_distinguishes_messages() {
    let mut filter = SignedMessageFilter::new();
    assert_eq!(filter.filter_incoming(&signed(vec![1]), 0), 1);
    assert_eq!(filter.filter_incoming(&signed(vec![2]), 0), 1);
    assert_eq!(filter.filter_incoming(&signed(vec![1]), 0), 2);
    let mut other_signature = signed(vec![1]);
    other_signature.signature = vec![7];
    assert_eq!(filter.filter_incoming(&other_signature, 0), 1);
}

#[test]
fn outgoing_repeat_and_other_route() {
    let mut filter = SignedMessageFilter::new();
    let m = signed(vec![5]);
    let peer = PeerId { id: 4 };
    assert!(!filter.filter_outgoing(&m, &peer, 0, 10));
    assert!(filter.filter_outgoing(&m, &peer, 0, 11));
    assert!(!filter.filter_outgoing(&m, &peer, 1, 12));
    assert!(!filter.filter_outgoing(&m, &PeerId { id: 5 }, 0, 12));
    // ten minutes after the last record the key is forgotten
    assert!(!filter.filter_outgoing(&m, &peer, 0, 11 + 600));
}

#[test]
fn clear_forgets_everything() {
    let mut filter = SignedMessageFilter::new();
    let m = signed(vec![5]);
    let peer = PeerId { id: 4 };
    assert_eq!(filter.filter_incoming(&m, 0), 1);
    assert!(!filter.filter_outgoing(&m, &peer, 0, 0));
    filter.clear();
    assert_eq!(filter.filter_incoming(&m, 0), 1);
    assert!(!filter.filter_outgoing(&m, &peer, 0, 0));
}
