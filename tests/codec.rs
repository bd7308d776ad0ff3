use mikrotik_exporter::codec::{decode_length, prefix_size};
use mikrotik_exporter::encode_length;

#[test]
fn connection_test_encode_length_small() {
    assert_eq!(encode_length(0), vec![0]);
    assert_eq!(encode_length(1), vec![1]);
    assert_eq!(encode_length(127), vec![127]);
}

#[test]
fn connection_test_encode_length_medium() {
    assert_eq!(encode_length(128), vec![0x80, 0x80]);
    assert_eq!(encode_length(256), vec![0x81, 0x00]);
    assert_eq!(encode_length(0x3FFF), vec![0xBF, 0xFF]);
}

#[test]
fn connection_test_encode_length_large() {
    assert_eq!(encode_length(0x4000), vec![0xC0, 0x40, 0x00]);
    assert_eq!(encode_length(0x1F_FFFF), vec![0xDF, 0xFF, 0xFF]);
}

#[test]
fn protocol_test_encode_length_small() {
    assert_eq!(encode_length(0), vec![0]);
    assert_eq!(encode_length(1), vec![1]);
    assert_eq!(encode_length(127), vec![127]);
}

#[test]
fn protocol_test_encode_length_medium() {
    assert_eq!(encode_length(128), vec![0x80, 0x80]);
    assert_eq!(encode_length(256), vec![0x81, 0x00]);
    assert_eq!(encode_length(0x3FFF), vec![0xBF, 0xFF]);
}

#[test]
fn protocol_test_encode_length_large() {
    assert_eq!(encode_length(0x4000), vec![0xC0, 0x40, 0x00]);
    assert_eq!(encode_length(0x1F_FFFF), vec![0xDF, 0xFF, 0xFF]);
}

#[test]
fn test_encode_length() {
    assert_eq!(encode_length(0x7F), vec![0x7F]);
    assert_eq!(encode_length(0x80), vec![0x80, 0x80]);
    assert_eq!(encode_length(0x4000 - 1), vec![0xBF, 0xFF]);
    assert_eq!(encode_length(0x4000), vec![0xC0, 0x40, 0x00]);
}

#[test]
fn length_round_trip_on_range_edges() {
    let lengths: [usize; 11] = [
        0, 1, 0x7F, 0x80, 0x3FFF, 0x4000, 0x1F_FFFF, 0x0020_0000, 0x0FFF_FFFF, 0x1000_0000,
        0xFFFF_FFFF,
    ];
    for len in lengths {
        let bytes = encode_length(len);
        assert_eq!(decode_length(&bytes), Some((len as u64, bytes.len())));
        assert_eq!(prefix_size(bytes[0]), bytes.len());
    }
}

#[test]
fn length_byte_count_follows_range_table() {
    assert_eq!(encode_length(0x7F).len(), 1);
    assert_eq!(encode_length(0x80).len(), 2);
    assert_eq!(encode_length(0x3FFF).len(), 2);
    assert_eq!(encode_length(0x4000).len(), 3);
    assert_eq!(encode_length(0x1F_FFFF).len(), 3);
    assert_eq!(encode_length(0x20_0000).len(), 4);
    assert_eq!(encode_length(0x0FFF_FFFF).len(), 4);
    assert_eq!(encode_length(0x1000_0000).len(), 5);
    assert_eq!(encode_length(0xFFFF_FFFF), vec![0xF0, 0xFF, 0xFF, 0xFF, 0xFF]);
}

#[test]
fn decode_waits_for_a_complete_prefix() {
    assert_eq!(decode_length(&[]), None);
    assert_eq!(decode_length(&[0xC0, 0x40]), None);
    assert_eq!(decode_length(&[0x05, 0x99]), Some((5, 1)));
}
