use routing::data::{Data, DataIdentifier, ImmutableData, PlainData, StructuredData};
use routing::id::XorName;

// SHA-256 of the empty byte string.
fn empty_hash_name() -> XorName {
    XorName {
        w0: 0xe3b0c44298fc1c14,
        w1: 0x9afbf4c8996fb924,
        w2: 0x27ae41e4649b934c,
        w3: 0xa495991b7852b855,
    }
}

fn some_name(seed: u64) -> XorName {
    XorName { w0: seed, w1: seed ^ 0x55, w2: !seed, w3: seed.rotate_left(7) }
}

#[test]
fn data_name() {
    // name() resolves correctly for StructuredData
    let structured_data = StructuredData::new(some_name(0x1234), 0, 0, vec![]);
    assert_eq!(structured_data.name(), Data::Structured(StructuredData::new(some_name(0x1234), 0, 0, vec![])).name());
    assert_eq!(
        DataIdentifier::Structured(structured_data.name(), structured_data.get_type_tag()),
        structured_data.identifier()
    );

    // name() resolves correctly for ImmutableData
    let value = "immutable data value".to_owned().into_bytes();
    let immutable_data = ImmutableData::new(some_name(99), value.clone());
    assert_eq!(immutable_data.name(), Data::Immutable(ImmutableData::new(some_name(99), value)).name());
    assert_eq!(immutable_data.identifier(), DataIdentifier::Immutable(immutable_data.name()));

    // name() resolves correctly for PlainData
    let name = empty_hash_name();
    let plain_data = PlainData::new(name, vec![]);
    assert_eq!(plain_data.name(), Data::Plain(PlainData::new(name, vec![])).name());
    assert_eq!(plain_data.identifier(), DataIdentifier::Plain(plain_data.name()));
}

#[test]
fn data_payload_size() {
    // payload_size() resolves correctly for StructuredData
    let structured_data = StructuredData::new(some_name(7), 0, 0, vec![]);
    assert_eq!(structured_data.payload_size(), Data::Structured(structured_data).payload_size());

    // payload_size() resolves correctly for ImmutableData
    let value = "immutable data value".to_owned().into_bytes();
    let immutable_data = ImmutableData::new(some_name(8), value.clone());
    assert_eq!(immutable_data.payload_size(), Data::Immutable(ImmutableData::new(some_name(8), value)).payload_size());

    // payload_size() resolves correctly for PlainData
    let name = empty_hash_name();
    let plain_data = PlainData::new(name, vec![]);
    assert_eq!(plain_data.payload_size(), Data::Plain(plain_data).payload_size());
}

#[test]
fn data_request_name() {
    let name = empty_hash_name();

    // name() resolves correctly for StructuredData
    let tag = 0;
    assert_eq!(name, DataIdentifier::Structured(name, tag).name());

    // name() resolves correctly for ImmutableData
    assert_eq!(name, DataIdentifier::Immutable(name).name());

    // name() resolves correctly for PlainData
    assert_eq!(name, DataIdentifier::Plain(name).name());
}

#[test]
fn payload_size_counts_payload_bytes_only() {
    let d = Data::Structured(StructuredData::new(some_name(1), 42, 3, vec![1, 2, 3, 4, 5]));
    assert_eq!(d.payload_size(), 5);
    assert_eq!(d.identifier(), DataIdentifier::Structured(some_name(1), 42));
    let i = Data::Immutable(ImmutableData::new(some_name(2), "immutable data value".to_owned().into_bytes()));
    assert_eq!(i.payload_size(), 20);
}

#[test]
fn xor_closeness() {
    let target = XorName { w0: 0b1000, w1: 0, w2: 0, w3: 0 };
    let near = XorName { w0: 0b1001, w1: 0, w2: 0, w3: 0 };
    let far = XorName { w0: 0b0000, w1: 0, w2: 0, w3: 0 };
    assert!(target.closer(&near, &far));
    assert!(!target.closer(&far, &near));
    assert!(!target.closer(&near, &near));
    let low_word = XorName { w0: 0b1000, w1: 0, w2: 0, w3: 5 };
    assert!(target.closer(&low_word, &near));
}
