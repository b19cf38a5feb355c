//! A 64-bit FNV-1a style fingerprint of byte strings and routing messages,
//! used for acknowledgement tokens and to name split user messages.

use vstd::prelude::*;
use crate::id::{PublicKey, XorName};
use crate::messages::{Authority, ContentView, MessageContent, RoutingMessage, RoutingMessageView};

verus! {

pub const FNV_OFFSET_BASIS: u64 = 14695981039346656037;

pub const FNV_PRIME: u64 = 1099511628211;

/// One mixing step: xor in `x`, then multiply by the prime modulo 2^64.
pub open spec fn mix(h: u64, x: u64) -> u64 {
    (((h ^ x) as nat * FNV_PRIME as nat) % 0x1_0000_0000_0000_0000) as u64
}

/// Mixes the words of `s` into `h`, in order.
pub open spec fn mix_words(h: u64, s: Seq<u64>) -> u64
    decreases s.len(),
{
    if s.len() == 0 {
        h
    } else {
        mix(mix_words(h, s.drop_last()), s.last())
    }
}

/// Mixes the bytes of `s` into `h`, in order.
pub open spec fn mix_bytes(h: u64, s: Seq<u8>) -> u64
    decreases s.len(),
{
    if s.len() == 0 {
        h
    } else {
        mix(mix_bytes(h, s.drop_last()), s.last() as u64)
    }
}

pub open spec fn name_words(n: XorName) -> Seq<u64> {
    seq![n.w0, n.w1, n.w2, n.w3]
}

pub open spec fn key_words(k: PublicKey) -> Seq<u64> {
    seq![k.w0, k.w1, k.w2, k.w3]
}

/// The words that stand for an authority: a tag, then its fields.
pub open spec fn authority_words(a: Authority) -> Seq<u64> {
    match a {
        Authority::ClientManager(n) => seq![0u64] + name_words(n),
        Authority::NaeManager(n) => seq![1u64] + name_words(n),
        Authority::NodeManager(n) => seq![2u64] + name_words(n),
        Authority::ManagedNode(n) => seq![3u64] + name_words(n),
        Authority::Client { client_key, proxy_node_name, peer_id } => seq![4u64] + key_words(client_key)
            + name_words(proxy_node_name) + seq![peer_id.id],
    }
}

/// The words that stand for a content, before its bytes: a tag, its fixed
/// fields and the number of bytes.
pub open spec fn content_words(c: ContentView) -> Seq<u64> {
    match c {
        ContentView::Ack { ack, priority } => seq![0u64, ack, priority as u64, 0u64],
        ContentView::UserMessagePart { hash, part_count, part_index, priority, payload } => seq![
            1u64,
            hash,
            part_count as u64,
            part_index as u64,
            priority as u64,
            payload.len() as u64,
        ],
        ContentView::Other { kind, body } => seq![2u64, kind as u64, body.len() as u64],
    }
}

/// The bytes a content carries.
pub open spec fn content_bytes(c: ContentView) -> Seq<u8> {
    match c {
        ContentView::Ack { .. } => Seq::empty(),
        ContentView::UserMessagePart { payload, .. } => payload,
        ContentView::Other { body, .. } => body,
    }
}

/// Fingerprint of a byte string.
pub open spec fn bytes_fingerprint(s: Seq<u8>) -> u64 {
    mix_bytes(FNV_OFFSET_BASIS, s)
}

/// Fingerprint of a routing message: its source, destination and content.
pub open spec fn message_fingerprint(m: RoutingMessageView) -> u64 {
    mix_bytes(
        mix_words(
            FNV_OFFSET_BASIS,
            authority_words(m.src) + authority_words(m.dst) + content_words(m.content),
        ),
        content_bytes(m.content),
    )
}

fn mix_step(h: u64, x: u64) -> (r: u64)
    ensures
        r == mix(h, x),
{
    (h ^ x).wrapping_mul(FNV_PRIME)
}

fn mix_word_vec(h: u64, words: &Vec<u64>) -> (r: u64)
    ensures
        r == mix_words(h, words@),
{
    let mut acc = h;
    let mut i: usize = 0;
    while i < words.len()
        invariant
            i <= words@.len(),
            acc == mix_words(h, words@.subrange(0, i as int)),
        decreases words@.len() - i,
    {
        assert(words@.subrange(0, i + 1).drop_last() =~= words@.subrange(0, i as int));
        acc = mix_step(acc, words[i]);
        i = i + 1;
    }
    assert(words@.subrange(0, i as int) =~= words@);
    acc
}

fn mix_byte_vec(h: u64, bytes: &Vec<u8>) -> (r: u64)
    ensures
        r == mix_bytes(h, bytes@),
{
    let mut acc = h;
    let mut i: usize = 0;
    while i < bytes.len()
        invariant
            i <= bytes@.len(),
            acc == mix_bytes(h, bytes@.subrange(0, i as int)),
        decreases bytes@.len() - i,
    {
        assert(bytes@.subrange(0, i + 1).drop_last() =~= bytes@.subrange(0, i as int));
        acc = mix_step(acc, bytes[i] as u64);
        i = i + 1;
    }
    assert(bytes@.subrange(0, i as int) =~= bytes@);
    acc
}

/// Fingerprint of a byte string.
pub fn fingerprint_bytes(bytes: &Vec<u8>) -> (r: u64)
    ensures
        r == bytes_fingerprint(bytes@),
{
    mix_byte_vec(FNV_OFFSET_BASIS, bytes)
}

fn push_authority(words: &mut Vec<u64>, a: &Authority)
    ensures
        final(words)@ == old(words)@ + authority_words(*a),
{
    let ghost start = words@;
    match a {
        Authority::ClientManager(n) => {
            words.push(0);
            push_name(words, n);
        },
        Authority::NaeManager(n) => {
            words.push(1);
            push_name(words, n);
        },
        Authority::NodeManager(n) => {
            words.push(2);
            push_name(words, n);
        },
        Authority::ManagedNode(n) => {
            words.push(3);
            push_name(words, n);
        },
        Authority::Client { client_key, proxy_node_name, peer_id } => {
            words.push(4);
            words.push(client_key.w0);
            words.push(client_key.w1);
            words.push(client_key.w2);
            words.push(client_key.w3);
            push_name(words, proxy_node_name);
            words.push(peer_id.id);
        },
    }
    assert(words@ =~= start + authority_words(*a));
}

fn push_name(words: &mut Vec<u64>, n: &XorName)
    ensures
        final(words)@ == old(words)@ + name_words(*n),
{
    let ghost start = words@;
    words.push(n.w0);
    words.push(n.w1);
    words.push(n.w2);
    words.push(n.w3);
    assert(words@ =~= start + name_words(*n));
}

/// Fingerprint of a routing message; this is its acknowledgement token.
pub fn fingerprint_message(m: &RoutingMessage) -> (r: u64)
    ensures
        r == message_fingerprint(m@),
{
    let mut words: Vec<u64> = Vec::new();
    push_authority(&mut words, &m.src);
    push_authority(&mut words, &m.dst);
    let ghost head = words@;
    let r = match &m.content {
        MessageContent::Ack { ack, priority } => {
            words.push(0);
            words.push(*ack);
            words.push(*priority as u64);
            words.push(0);
            assert(words@ =~= head + content_words(m.content@));
            mix_word_vec(FNV_OFFSET_BASIS, &words)
        },
        MessageContent::UserMessagePart { hash, part_count, part_index, priority, payload } => {
            words.push(1);
            words.push(*hash);
            words.push(*part_count as u64);
            words.push(*part_index as u64);
            words.push(*priority as u64);
            words.push(payload.len() as u64);
            assert(words@ =~= head + content_words(m.content@));
            mix_byte_vec(mix_word_vec(FNV_OFFSET_BASIS, &words), payload)
        },
        MessageContent::Other { kind, body } => {
            words.push(2);
            words.push(*kind as u64);
            words.push(body.len() as u64);
            assert(words@ =~= head + content_words(m.content@));
            mix_byte_vec(mix_word_vec(FNV_OFFSET_BASIS, &words), body)
        },
    };
    assert(mix_bytes(mix_words(FNV_OFFSET_BASIS, words@), Seq::<u8>::empty()) == mix_words(FNV_OFFSET_BASIS, words@));
    r
}

} // verus!
