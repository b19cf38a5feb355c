use routing::client::{Action, ActionReply, Client, ClientConfig, Effect, Event, Incoming, InterfaceError, RoutingError, Transition, TransportEvent,
    ACK_TIMEOUT_SECS, MIN_GROUP_SIZE};
use routing::fingerprint::fingerprint_message;
use routing::id::{PeerId, PublicId, PublicKey, XorName};
use routing::messages::{Authority, MessageContent, RoutingMessage, SignedMessage};

fn name(n: u64) -> XorName {
    XorName { w0: n, w1: 11, w2: 12, w3: 13 }
}

fn identity(n: u64) -> PublicId {
    PublicId { signing_key: PublicKey { w0: n, w1: n + 1, w2: n + 2, w3: n + 3 }, name: name(n) }
}

const OUR_PEER: PeerId = PeerId { id: 1 };
const PROXY_PEER: PeerId = PeerId { id: 2 };

fn new_client(quorum: usize) -> Client {
    let mut client = Client::from_bootstrapping(OUR_PEER, identity(100), PROXY_PEER, identity(200), quorum);
    let effects = client.take_effects();
    assert_eq!(effects.len(), 1);
    assert!(matches!(effects[0], Effect::Raise(Event::Connected)));
    client
}

fn our_authority() -> Authority {
    let id = identity(100);
    Authority::Client { client_key: id.signing_key, proxy_node_name: identity(200).name, peer_id: OUR_PEER }
}

fn sends(effects: &[Effect]) -> Vec<(u8, RoutingMessage)> {
    effects
        .iter()
        .filter_map(|e| match e {
            Effect::Send { peer, msg, route, .. } => {
                assert_eq!(*peer, PROXY_PEER);
                Some((*route, msg.routing_message.clone()))
            }
            _ => None,
        })
        .collect()
}

fn timeouts(effects: &[Effect]) -> Vec<u64> {
    effects
        .iter()
        .filter_map(|e| match e {
            Effect::ScheduleTimeout { token, secs } => {
                assert_eq!(*secs, ACK_TIMEOUT_SECS);
                Some(*token)
            }
            _ => None,
        })
        .collect()
}

fn send_request(client: &mut Client, payload: Vec<u8>, now: u64) -> (RoutingMessage, u64) {
    let reply = client.handle_action(
        Action::ClientSendRequest { content: payload, dst: Authority::NaeManager(name(300)), priority: 1 },
        now,
    );
    assert_eq!(reply, (Transition::Stay, ActionReply::Sent));
    let effects = client.take_effects();
    let sent = sends(&effects);
    let tokens = timeouts(&effects);
    assert_eq!(sent.len(), 1);
    assert_eq!(sent[0].0, 0);
    assert_eq!(tokens.len(), 1);
    (sent[0].1.clone(), tokens[0])
}

fn from_group(src: Authority, content: MessageContent, signer: u64) -> SignedMessage {
    SignedMessage {
        routing_message: RoutingMessage { src, dst: our_authority(), content },
        public_id: identity(signer),
        signature: vec![signer as u8],
    }
}

fn hop(msg: SignedMessage) -> Incoming {
    Incoming::Hop { msg, hop_signature_valid: true, integrity_valid: true }
}

#[test]
fn retries_each_route_then_gives_up() {
    let mut client = new_client(1);
    let (first, mut token) = send_request(&mut client, vec![1, 2, 3], 0);
    let mut routes = vec![0u8];
    for attempt in 1..MIN_GROUP_SIZE {
        let reply = client.handle_action(Action::Timeout(token), attempt as u64 * 20);
        assert_eq!(reply, (Transition::Stay, ActionReply::NoReply));
        let effects = client.take_effects();
        let sent = sends(&effects);
        assert_eq!(sent.len(), 1);
        assert!(sent[0].1.same_as(&first));
        routes.push(sent[0].0);
        token = timeouts(&effects)[0];
    }
    assert_eq!(routes, (0..MIN_GROUP_SIZE as u8).collect::<Vec<u8>>());
    assert!(client.has_unacknowledged());
    client.handle_action(Action::Timeout(token), 1000);
    assert!(client.take_effects().is_empty());
    assert!(!client.has_unacknowledged());
    assert_eq!(client.stats().unacked, 1);
}

#[test]
fn ack_stops_retries() {
    let mut client = new_client(1);
    let (first, token0) = send_request(&mut client, vec![4, 5], 0);
    client.handle_action(Action::Timeout(token0), 20);
    let effects = client.take_effects();
    assert_eq!(sends(&effects)[0].0, 1);
    let token1 = timeouts(&effects)[0];
    client.handle_action(Action::Timeout(token1), 40);
    let effects = client.take_effects();
    assert_eq!(sends(&effects)[0].0, 2);
    let token2 = timeouts(&effects)[0];

    let ack = fingerprint_message(&first);
    let ack_msg = from_group(
        Authority::ClientManager(name(100)),
        MessageContent::Ack { ack, priority: 0 },
        7,
    );
    assert_eq!(client.handle_new_message(PROXY_PEER, hop(ack_msg), 50), Transition::Stay);
    assert!(!client.has_unacknowledged());
    client.take_effects();
    client.handle_action(Action::Timeout(token2), 60);
    assert!(client.take_effects().is_empty());
    assert!(!client.resend_unacknowledged(70));
}

#[test]
fn response_delivered_once_after_quorum() {
    let mut client = new_client(3);
    let _ = send_request(&mut client, vec![9], 0);
    let part = MessageContent::UserMessagePart { hash: 5, part_count: 1, part_index: 0, priority: 0, payload: vec![42, 43] };
    let group = Authority::NaeManager(name(300));
    let copy = |signer: u64| {
        from_group(group, match &part {
            MessageContent::UserMessagePart { hash, part_count, part_index, priority, payload } => MessageContent::UserMessagePart {
                hash: *hash,
                part_count: *part_count,
                part_index: *part_index,
                priority: *priority,
                payload: payload.clone(),
            },
            _ => unreachable!(),
        }, signer)
    };
    let mut events = 0;
    for signer in [11u64, 12] {
        assert_eq!(client.handle_new_message(PROXY_PEER, hop(copy(signer)), 1), Transition::Stay);
        assert!(client.take_effects().is_empty());
    }
    // the same copy relayed twice is suppressed by the accumulator
    assert_eq!(client.handle_new_message(PROXY_PEER, hop(copy(12)), 1), Transition::Stay);
    assert!(client.take_effects().is_empty());
    client.handle_new_message(PROXY_PEER, hop(copy(13)), 2);
    let effects = client.take_effects();
    let mut acks = 0;
    for e in &effects {
        match e {
            Effect::Raise(Event::UserMessage { payload, src, .. }) => {
                assert_eq!(payload, &vec![42, 43]);
                assert_eq!(*src, group);
                events += 1;
            }
            Effect::Send { msg, route, .. } => {
                assert_eq!(*route, 0);
                assert_eq!(msg.routing_message.dst, group);
                assert!(matches!(msg.routing_message.content, MessageContent::Ack { .. }));
                acks += 1;
            }
            _ => {}
        }
    }
    assert_eq!((events, acks), (1, 1));
    // further copies, and the reply transmitted again, change nothing
    client.handle_new_message(PROXY_PEER, hop(copy(14)), 3);
    client.handle_new_message(PROXY_PEER, hop(copy(13)), 3);
    assert!(client.take_effects().is_empty());
    assert_eq!(client.stats().user_messages, 2);
}

#[test]
fn hop_checks() {
    let mut client = new_client(1);
    let msg = || from_group(Authority::ManagedNode(name(5)), MessageContent::Other { kind: 0, body: vec![] }, 3);
    assert_eq!(
        client.handle_hop_message(&msg(), PeerId { id: 77 }, true, true, 0),
        Err(RoutingError::UnknownConnection(PeerId { id: 77 }))
    );
    assert_eq!(client.handle_hop_message(&msg(), PROXY_PEER, false, true, 0), Err(RoutingError::FailedSignature));
    assert_eq!(client.handle_hop_message(&msg(), PROXY_PEER, true, false, 0), Err(RoutingError::FailedSignature));
    for _ in 0..MIN_GROUP_SIZE {
        assert_eq!(client.handle_hop_message(&msg(), PROXY_PEER, true, true, 0), Ok(Transition::Stay));
    }
    assert_eq!(client.handle_hop_message(&msg(), PROXY_PEER, true, true, 0), Err(RoutingError::FilterCheckFailed));
    let mut not_ours = msg();
    not_ours.routing_message.dst = Authority::ManagedNode(name(1));
    assert_eq!(client.handle_hop_message(&not_ours, PROXY_PEER, true, true, 0), Ok(Transition::Stay));
    assert_eq!(client.handle_new_message(PROXY_PEER, Incoming::Malformed, 0), Transition::Stay);
    assert_eq!(client.handle_new_message(PROXY_PEER, Incoming::Other, 0), Transition::Stay);
    assert!(client.take_effects().is_empty());
}

#[test]
fn send_errors() {
    let mut client = new_client(1);
    let msg = RoutingMessage {
        src: Authority::ManagedNode(name(1)),
        dst: Authority::NaeManager(name(2)),
        content: MessageContent::Other { kind: 0, body: vec![] },
    };
    assert_eq!(client.send_routing_message_via_route(msg, 0, 0), Err(RoutingError::InvalidSource));
    let wrong_proxy = RoutingMessage {
        src: Authority::Client { client_key: identity(100).signing_key, proxy_node_name: name(999), peer_id: OUR_PEER },
        dst: Authority::NaeManager(name(2)),
        content: MessageContent::Other { kind: 0, body: vec![] },
    };
    assert_eq!(client.send_routing_message_via_route(wrong_proxy, 0, 0), Err(RoutingError::ProxyConnectionNotFound));
    let to_us = RoutingMessage {
        src: Authority::ManagedNode(name(1)),
        dst: our_authority(),
        content: MessageContent::Other { kind: 0, body: vec![] },
    };
    assert_eq!(client.send_routing_message_via_route(to_us, 0, 0), Ok(()));
    assert!(client.take_effects().is_empty());
    assert!(!client.has_unacknowledged());
    assert_eq!(client.stats().routes, 3);
}

#[test]
fn same_send_twice_goes_out_once() {
    let mut client = new_client(1);
    let msg = || RoutingMessage {
        src: our_authority(),
        dst: Authority::NaeManager(name(2)),
        content: MessageContent::Other { kind: 4, body: vec![1] },
    };
    assert_eq!(client.send_routing_message_via_route(msg(), 0, 0), Ok(()));
    assert_eq!(sends(&client.take_effects()).len(), 1);
    assert_eq!(client.send_routing_message_via_route(msg(), 0, 1), Ok(()));
    assert_eq!(sends(&client.take_effects()).len(), 0);
    assert_eq!(client.send_routing_message_via_route(msg(), 1, 2), Ok(()));
    assert_eq!(sends(&client.take_effects()).len(), 1);
}

#[test]
fn actions_answer() {
    let mut client = new_client(4);
    assert_eq!(client.handle_action(Action::Name, 0), (Transition::Stay, ActionReply::Name(name(100))));
    assert_eq!(client.handle_action(Action::QuorumSize, 0), (Transition::Stay, ActionReply::QuorumSize(4)));
    assert_eq!(
        client.handle_action(Action::NodeSendMessage, 0),
        (Transition::Stay, ActionReply::Refused(InterfaceError::InvalidState))
    );
    assert_eq!(
        client.handle_action(Action::CloseGroup { name: name(3) }, 0),
        (Transition::Stay, ActionReply::NoCloseGroup)
    );
    assert_eq!(client.handle_action(Action::Terminate, 0), (Transition::Terminate, ActionReply::NoReply));
    assert_eq!(client.quorum_size(), 4);
    assert_eq!(client.name(), name(100));
    assert_eq!(client.proxy_public_id(), identity(200));
}

#[test]
fn losing_proxy_terminates() {
    let mut client = new_client(1);
    assert_eq!(client.handle_lost_peer(PeerId { id: 50 }), Transition::Stay);
    assert_eq!(client.handle_lost_peer(OUR_PEER), Transition::Stay);
    assert!(client.take_effects().is_empty());
    assert_eq!(client.handle_lost_peer(PROXY_PEER), Transition::Terminate);
    let effects = client.take_effects();
    assert_eq!(effects.len(), 1);
    assert!(matches!(effects[0], Effect::Raise(Event::Terminate)));
}

#[test]
fn large_request_is_split() {
    let mut client = new_client(1);
    let payload = vec![7u8; 20480 * 2 + 1];
    client.handle_action(
        Action::ClientSendRequest { content: payload, dst: Authority::NaeManager(name(300)), priority: 0 },
        0,
    );
    let effects = client.take_effects();
    let sent = sends(&effects);
    assert_eq!(sent.len(), 3);
    for (i, (_, m)) in sent.iter().enumerate() {
        match &m.content {
            MessageContent::UserMessagePart { part_count, part_index, .. } => {
                assert_eq!((*part_count, *part_index as usize), (3, i));
            }
            _ => panic!("not a part"),
        }
    }
    assert_eq!(timeouts(&effects).len(), 3);
}

#[test]
fn transport_events() {
    let mut client = new_client(1);
    assert_eq!(client.handle_crust_event(TransportEvent::Other, 0), Transition::Stay);
    assert_eq!(client.handle_crust_event(TransportEvent::NewMessage(PROXY_PEER, Incoming::Malformed), 0), Transition::Stay);
    assert_eq!(client.handle_crust_event(TransportEvent::LostPeer(PeerId { id: 9 }), 0), Transition::Stay);
    assert!(client.take_effects().is_empty());
    assert_eq!(client.handle_crust_event(TransportEvent::LostPeer(PROXY_PEER), 0), Transition::Terminate);
    assert_eq!(client.take_effects().len(), 1);
}

#[test]
fn configured_policy_is_used() {
    let config = ClientConfig {
        min_group_size: 3,
        ack_timeout_secs: 5,
        incoming_expiry_secs: 100,
        outgoing_expiry_secs: 50,
        accumulator_expiry_secs: 100,
        user_msg_cache_expiry_secs: 100,
    };
    let mut client = Client::from_bootstrapping_with_config(OUR_PEER, identity(100), PROXY_PEER, identity(200), 1, config);
    client.take_effects();
    let reply = client.handle_action(
        Action::ClientSendRequest { content: vec![1], dst: Authority::NaeManager(name(300)), priority: 0 },
        0,
    );
    assert_eq!(reply, (Transition::Stay, ActionReply::Sent));
    let effects = client.take_effects();
    let mut token = match effects.iter().find(|e| matches!(e, Effect::ScheduleTimeout { .. })) {
        Some(Effect::ScheduleTimeout { token, secs }) => {
            assert_eq!(*secs, 5);
            *token
        }
        _ => panic!("no timeout scheduled"),
    };
    let mut routes = vec![];
    for _ in 0..2 {
        client.handle_action(Action::Timeout(token), 1);
        let effects = client.take_effects();
        for e in &effects {
            match e {
                Effect::Send { route, .. } => routes.push(*route),
                Effect::ScheduleTimeout { token: t, .. } => token = *t,
                _ => {}
            }
        }
    }
    assert_eq!(routes, vec![1, 2]);
    client.handle_action(Action::Timeout(token), 2);
    assert!(client.take_effects().is_empty());
    assert!(!client.has_unacknowledged());
    // a message is refused once seen more than three times
    let msg = || from_group(Authority::ManagedNode(name(5)), MessageContent::Other { kind: 0, body: vec![] }, 3);
    for _ in 0..3 {
        assert_eq!(client.handle_hop_message(&msg(), PROXY_PEER, true, true, 0), Ok(Transition::Stay));
    }
    assert_eq!(client.handle_hop_message(&msg(), PROXY_PEER, true, true, 0), Err(RoutingError::FilterCheckFailed));
}

#[test]
fn client_reassembles_parts_in_index_order() {
    let mut client = new_client(1);
    let src = Authority::ManagedNode(name(400));
    let part = |index: u32, payload: Vec<u8>| {
        from_group(src, MessageContent::UserMessagePart { hash: 77, part_count: 3, part_index: index, priority: 0, payload }, 9)
    };
    client.handle_new_message(PROXY_PEER, hop(part(0, vec![1])), 0);
    client.handle_new_message(PROXY_PEER, hop(part(2, vec![3])), 0);
    // a repeated index neither completes the message nor duplicates its payload
    let mut again = part(2, vec![3]);
    again.signature = vec![10];
    client.handle_new_message(PROXY_PEER, hop(again), 0);
    assert!(client.take_effects().is_empty());
    client.handle_new_message(PROXY_PEER, hop(part(1, vec![2])), 0);
    let effects = client.take_effects();
    assert_eq!(effects.len(), 1);
    match &effects[0] {
        Effect::Raise(Event::UserMessage { payload, .. }) => assert_eq!(payload, &vec![1, 2, 3]),
        _ => panic!("expected the reassembled message"),
    }
}

#[test]
fn zero_windows_remember_nothing() {
    let config = ClientConfig {
        min_group_size: 8,
        ack_timeout_secs: 20,
        incoming_expiry_secs: 0,
        outgoing_expiry_secs: 0,
        accumulator_expiry_secs: 100,
        user_msg_cache_expiry_secs: 100,
    };
    let mut client = Client::from_bootstrapping_with_config(OUR_PEER, identity(100), PROXY_PEER, identity(200), 1, config);
    client.take_effects();
    let msg = || RoutingMessage {
        src: our_authority(),
        dst: Authority::NaeManager(name(2)),
        content: MessageContent::Ack { ack: 5, priority: 0 },
    };
    assert_eq!(client.send_routing_message_via_route(msg(), 0, 0), Ok(()));
    assert_eq!(client.send_routing_message_via_route(msg(), 0, 0), Ok(()));
    assert_eq!(sends(&client.take_effects()).len(), 2);
    let incoming = || from_group(Authority::ManagedNode(name(5)), MessageContent::Other { kind: 0, body: vec![] }, 3);
    for _ in 0..20 {
        assert_eq!(client.handle_hop_message(&incoming(), PROXY_PEER, true, true, 0), Ok(Transition::Stay));
    }
}

#[test]
fn failed_send_records_nothing() {
    let mut client = new_client(1);
    let src = Authority::ManagedNode(name(1));
    assert_eq!(
        client.send_user_message(src, Authority::NaeManager(name(2)), vec![1, 2, 3], 0, 0),
        Err(RoutingError::InvalidSource)
    );
    assert!(client.take_effects().is_empty());
    assert!(!client.has_unacknowledged());
}
