use routing::fingerprint::fingerprint_bytes;
use routing::messages::MessageContent;
use routing::user_message::{to_parts, UserMessageCache};

#[test]
fn parts_reassemble_in_index_order() {
    let mut cache = UserMessageCache::with_expiry_duration(120);
    assert!(cache.add(7, 3, 0, vec![1, 2], 0).is_none());
    assert!(cache.add(7, 3, 2, vec![5, 6], 1).is_none());
    assert_eq!(cache.add(7, 3, 1, vec![3, 4], 2), Some(vec![1, 2, 3, 4, 5, 6]));
    // the completed set is gone
    assert!(cache.add(7, 3, 1, vec![3, 4], 3).is_none());
}

#[test]
fn repeated_part_does_not_complete_or_duplicate() {
    let mut cache = UserMessageCache::with_expiry_duration(120);
    assert!(cache.add(9, 3, 1, vec![3], 0).is_none());
    assert!(cache.add(9, 3, 1, vec![3], 0).is_none());
    assert!(cache.add(9, 3, 0, vec![1], 0).is_none());
    assert_eq!(cache.add(9, 3, 2, vec![5], 0), Some(vec![1, 3, 5]));
}

#[test]
fn out_of_range_index_is_ignored() {
    let mut cache = UserMessageCache::with_expiry_duration(120);
    assert!(cache.add(1, 1, 1, vec![9], 0).is_none());
    assert_eq!(cache.add(1, 1, 0, vec![8], 0), Some(vec![8]));
}

#[test]
fn incomplete_set_expires() {
    let mut cache = UserMessageCache::with_expiry_duration(120);
    assert!(cache.add(4, 2, 0, vec![1], 0).is_none());
    assert!(cache.add(4, 2, 1, vec![2], 120).is_none());
    assert_eq!(cache.add(4, 2, 0, vec![1], 121), Some(vec![1, 2]));
}

#[test]
fn split_then_join_round_trip() {
    let payload: Vec<u8> = (0..10u8).collect();
    let hash = fingerprint_bytes(&payload);
    let parts = to_parts(hash, &payload, 2, 4).expect("few parts");
    assert_eq!(parts.len(), 3);
    let mut cache = UserMessageCache::with_expiry_duration(120);
    let mut result = None;
    for i in [2usize, 0, 1] {
        match &parts[i] {
            MessageContent::UserMessagePart { hash: h, part_count, part_index, priority, payload: p } => {
                assert_eq!(*h, hash);
                assert_eq!(*part_count, 3);
                assert_eq!(*part_index as usize, i);
                assert_eq!(*priority, 2);
                result = cache.add(*h, *part_count, *part_index, p.clone(), 0);
            }
            _ => panic!("not a part"),
        }
    }
    assert_eq!(result, Some(payload));
}

#[test]
fn empty_payload_is_one_part() {
    let parts = to_parts(0, &vec![], 0, 4).expect("one part");
    assert_eq!(parts.len(), 1);
}

#[test]
fn fingerprint_of_bytes() {
    // FNV-1a, 64 bit
    assert_eq!(fingerprint_bytes(&vec![]), 0xcbf29ce484222325);
    assert_eq!(fingerprint_bytes(&b"a".to_vec()), 0xaf63dc4c8601ec8c);
    assert_ne!(fingerprint_bytes(&vec![1, 2]), fingerprint_bytes(&vec![2, 1]));
}
