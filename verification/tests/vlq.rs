use ghakuf::formats::{Format, Tag, VLQBuilder, VLQ};

#[test]
fn binary_0() {
    let mut builder = VLQBuilder::new();
    builder.push(0x00);
    let tester = builder.build();
    assert_eq!(tester.val(), 0);
    assert_eq!(tester.len(), 1);
    assert_eq!(tester.binary(), [0]);
}

#[test]
fn binary_ff7f7f() {
    let mut builder = VLQBuilder::new();
    builder.push(0xff);
    builder.push(0x7f);
    builder.push(0x7f);
    let tester = builder.build();
    assert_eq!(tester.val(), 0b1111111_1111111);
    assert_eq!(tester.len(), 2);
    assert_eq!(tester.binary(), [0xff, 0x7f]);
}

#[test]
fn binary_98327() {
    let mut builder = VLQBuilder::new();
    builder.push(134);
    builder.push(0b10000000);
    builder.push(23);
    let tester = builder.build();
    assert_eq!(tester.val(), 98327);
    assert_eq!(tester.len(), 3);
    assert_eq!(tester.binary(), [134, 0b10000000, 23]);
}

#[test]
fn binary_ffffffff7f() {
    let mut builder = VLQBuilder::new();
    builder.push(0xff);
    builder.push(0xff);
    builder.push(0xff);
    builder.push(0xff);
    builder.push(0xff);
    let tester = builder.build();
    assert!(tester.val() < 0b10000000_0000000_0000000_0000000);
    assert_eq!(tester.len(), 4);
    assert_eq!(tester.binary(), [0xff, 0xff, 0xff, 0x7f]);
}

// Feeding the canonical encoding of a value back into the builder yields
// the value and its encoded length, across every encoded size.
#[test]
fn vlq_round_trip_values() {
    let values: [u32; 9] = [
        0,
        1,
        127,
        128,
        0x3fff,
        0x4000,
        0x1f_ffff,
        0x20_0000,
        0x0fff_ffff,
    ];
    for &v in values.iter() {
        let vlq = VLQ::new(v);
        let encoded = vlq.binary();
        assert_eq!(encoded.len(), vlq.len());
        let mut builder = VLQBuilder::new();
        for &byte in encoded.iter() {
            builder.push(byte);
        }
        assert!(builder.closed());
        let decoded = builder.build();
        assert_eq!(decoded.val(), v);
        assert_eq!(decoded.len(), vlq.len());
    }
}

// No multi-byte sequence for values below 128, and zero still encodes as
// one zero byte.
#[test]
fn vlq_canonical_small_values() {
    for v in 0..128u32 {
        let vlq = VLQ::new(v);
        assert_eq!(vlq.binary().len(), 1);
        assert_eq!(vlq.len(), 1);
    }
    assert_eq!(VLQ::new(0).binary(), [0x00]);
    assert_eq!(VLQ::new(0).len(), 1);
    assert_eq!(VLQ::new(192).binary(), [0x81, 0x40]);
    assert_eq!(VLQ::new(192).len(), 2);
}

#[test]
fn format_values() {
    assert_eq!(Format::new(0), Format::F0);
    assert_eq!(Format::new(1), Format::F1);
    assert_eq!(Format::new(2), Format::F2);
    assert_eq!(Format::new(0x7788), Format::Unknown);
    assert_eq!(Format::F0.binary(), [0x00, 0x00]);
    assert_eq!(Format::F1.binary(), [0x00, 0x01]);
    assert_eq!(Format::F2.binary(), [0x00, 0x02]);
    assert_eq!(Format::Unknown.binary(), [0xff, 0xff]);
}

#[test]
fn tag_values() {
    assert_eq!(Tag::Header.binary(), *b"MThd");
    assert_eq!(Tag::Track.binary(), *b"MTrk");
}
