use runepool_replicator::codec::{decode_interval, encode_interval, encode_key};
use runepool_replicator::Interval;

fn iv(start: u64, end: u64, count: u64, units: u64) -> Interval {
    Interval::new(start, end, count, units)
}

#[test]
fn encodes_canonical_json_object() {
    let v = encode_interval(&iv(0, 3600, 10, 100));
    assert_eq!(
        String::from_utf8(v).unwrap(),
        "{\"start_time\":0,\"end_time\":3600,\"count\":10,\"units\":100}"
    );
}

#[test]
fn encodes_identifier_when_present() {
    let mut record = iv(5, 6, 7, 8);
    record.id = Some(42);
    let v = encode_interval(&record);
    assert_eq!(
        String::from_utf8(v).unwrap(),
        "{\"start_time\":5,\"end_time\":6,\"count\":7,\"units\":8,\"id\":42}"
    );
}

#[test]
fn round_trips_through_decode() {
    let original = iv(1648771200, 1648774800, 12345, 987654321);
    let encoded = encode_interval(&original);
    let decoded = decode_interval(&encoded).expect("canonical encoding must decode");
    assert_eq!(decoded, original);
}

#[test]
fn round_trips_with_identifier() {
    let mut original = iv(7, 9, 1, 2);
    original.id = Some(u64::MAX);
    let encoded = encode_interval(&original);
    assert_eq!(decode_interval(&encoded), Some(original));
}

#[test]
fn round_trips_extreme_values() {
    let original = iv(0, u64::MAX, u64::MAX, 0);
    let encoded = encode_interval(&original);
    assert_eq!(decode_interval(&encoded), Some(original));
}

#[test]
fn rejects_malformed_bytes() {
    assert_eq!(decode_interval(&b"".to_vec()), None);
    assert_eq!(decode_interval(&b"{}".to_vec()), None);
    assert_eq!(decode_interval(&b"not json at all".to_vec()), None);
    // a leading zero is not canonical
    assert_eq!(
        decode_interval(&b"{\"start_time\":01,\"end_time\":2,\"count\":3,\"units\":4}".to_vec()),
        None
    );
    // trailing bytes after the close are refused
    assert_eq!(
        decode_interval(&b"{\"start_time\":1,\"end_time\":2,\"count\":3,\"units\":4} ".to_vec()),
        None
    );
    // a count larger than u64 is refused
    assert_eq!(
        decode_interval(
            &b"{\"start_time\":1,\"end_time\":2,\"count\":99999999999999999999,\"units\":4}"
                .to_vec()
        ),
        None
    );
}

#[test]
fn composite_key_is_start_colon_end() {
    assert_eq!(String::from_utf8(encode_key(0, 3600)).unwrap(), "0:3600");
    assert_eq!(
        String::from_utf8(encode_key(1648771200, 1648774800)).unwrap(),
        "1648771200:1648774800"
    );
}
