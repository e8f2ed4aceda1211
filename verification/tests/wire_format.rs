use ddc_api::proto::era::Era;
use ddc_api::proto::inspection::{InspectionPathStatus, LeaseRequest};
use ddc_api::string_map::StringMap;

#[test]
fn unknown_fields_are_skipped() {
    // Field 5 as a varint, field 6 as bytes, field 7 as fixed64, then the id.
    let bytes = [0x28, 0x01, 0x32, 0x02, 0xaa, 0xbb, 0x39, 0, 0, 0, 0, 0, 0, 0, 0, 0x08, 0x09];
    assert_eq!(Era::decode(&bytes).unwrap().id, 9);
}

#[test]
fn unknown_groups_are_skipped() {
    // Group 5 holding a varint and a nested group 6, then the id.
    let bytes = [0x2b, 0x08, 0x07, 0x33, 0x34, 0x2c, 0x08, 0x09];
    assert_eq!(Era::decode(&bytes).unwrap().id, 9);
}

#[test]
fn broken_groups_are_refused() {
    // An end key for another group.
    assert!(Era::decode(&[0x2b, 0x34]).is_err());
    // A group that never ends.
    assert!(Era::decode(&[0x2b, 0x08, 0x07]).is_err());
    // A stray end key.
    assert!(Era::decode(&[0x2c]).is_err());
    // The id field sent as a group.
    assert!(Era::decode(&[0x0b, 0x0c]).is_err());
}

#[test]
fn groups_nest_a_hundred_deep() {
    let nested = |depth: usize| {
        let mut b = vec![0x13u8; depth];
        b.extend(std::iter::repeat(0x14u8).take(depth));
        b
    };
    assert_eq!(Era::decode(&nested(100)).unwrap().id, 0);
    assert!(Era::decode(&nested(101)).is_err());
}

#[test]
fn last_value_of_a_field_wins() {
    let bytes = [0x08, 0x01, 0x08, 0x02];
    assert_eq!(Era::decode(&bytes).unwrap().id, 2);
    let mut req = LeaseRequest::default();
    req.era_id = 3;
    let mut twice = req.encode_to_vec();
    req.era_id = 4;
    twice.extend(req.encode_to_vec());
    assert_eq!(LeaseRequest::decode(&twice).unwrap().era_id, 4);
}

#[test]
fn truncated_and_overlong_input_is_refused() {
    assert!(Era::decode(&[0x08]).is_err());
    assert!(Era::decode(&[0x08, 0x80]).is_err());
    assert!(Era::decode(&[0x32, 0x05, 0x01]).is_err());
    // A varint of eleven bytes.
    assert!(Era::decode(&[0x08, 0xff, 0xff, 0xff, 0xff, 0xff, 0xff, 0xff, 0xff, 0xff, 0xff, 0x01]).is_err());
    // Field number zero.
    assert!(Era::decode(&[0x00, 0x01]).is_err());
}

#[test]
fn maps_keep_keys_in_order() {
    let mut m: StringMap<u32> = StringMap::new();
    m.insert("b".into(), 2);
    m.insert("a".into(), 1);
    m.insert("c".into(), 3);
    m.insert("b".into(), 20);
    let keys: Vec<&str> = m.entries().iter().map(|(k, _)| k.as_str()).collect();
    assert_eq!(keys, vec!["a", "b", "c"]);
    assert_eq!(m.get("b"), Some(&20));
    assert_eq!(m.get("d"), None);
    assert_eq!(m.len(), 3);
    let mut n: StringMap<u32> = StringMap::new();
    n.insert("ab".into(), 0);
    n.insert("a".into(), 0);
    n.insert("é".into(), 0);
    n.insert("z".into(), 0);
    let keys: Vec<&str> = n.entries().iter().map(|(k, _)| k.as_str()).collect();
    assert_eq!(keys, vec!["a", "ab", "z", "é"]);
}

#[test]
fn map_fields_encode_in_key_order() {
    let status = |first: (&str, u32), second: (&str, u32)| {
        let mut submissions = StringMap::new();
        submissions.insert(first.0.into(), first.1);
        submissions.insert(second.0.into(), second.1);
        InspectionPathStatus {
            status: 0,
            result_hash: String::new(),
            exception: vec![],
            submissions,
            inspectors: vec![],
            remaining_inspectors: vec![],
        }
        .encode_to_vec()
    };
    assert_eq!(status(("0xccdd", 1), ("0xaabb", 2)), status(("0xaabb", 2), ("0xccdd", 1)));
}
