use udcn2_common::NdnError;
use udcn2_common::{TlvDecoder, TlvEncoder, TlvType};

const ALL_TYPES: [(TlvType, u32); 15] = [
    (TlvType::Interest, 0x05),
    (TlvType::Data, 0x06),
    (TlvType::Name, 0x07),
    (TlvType::GenericNameComponent, 0x08),
    (TlvType::Nonce, 0x0a),
    (TlvType::InterestLifetime, 0x0c),
    (TlvType::MustBeFresh, 0x12),
    (TlvType::ForwardingHint, 0x1e),
    (TlvType::MetaInfo, 0x14),
    (TlvType::Content, 0x15),
    (TlvType::SignatureInfo, 0x16),
    (TlvType::SignatureValue, 0x17),
    (TlvType::CanBePrefix, 0x21),
    (TlvType::HopLimit, 0x22),
    (TlvType::ApplicationParameters, 0x24),
];

#[test]
fn type_numbers_roundtrip() {
    for (t, code) in ALL_TYPES {
        assert_eq!(t.to_u32(), code);
        assert_eq!(TlvType::from_u32(code), Ok(t));
    }
}

#[test]
fn unknown_type_number_is_refused() {
    assert_eq!(
        TlvType::from_u32(0x09),
        Err(NdnError::UnsupportedTlvType { tlv_type: 0x09 })
    );
    assert_eq!(
        TlvType::from_u32(0),
        Err(NdnError::UnsupportedTlvType { tlv_type: 0 })
    );
}

fn encode(v: u64) -> Vec<u8> {
    let mut buffer = [0u8; 9];
    let mut encoder = TlvEncoder::new(&mut buffer);
    encoder.encode_varint(v).unwrap();
    let n = encoder.position();
    buffer[..n].to_vec()
}

#[test]
fn varint_widths() {
    assert_eq!(encode(0), vec![0x00]);
    assert_eq!(encode(252), vec![0xfc]);
    assert_eq!(encode(253), vec![0xfd, 0x00, 0xfd]);
    assert_eq!(encode(0xffff), vec![0xfd, 0xff, 0xff]);
    assert_eq!(encode(0x10000), vec![0xfe, 0x00, 0x01, 0x00, 0x00]);
    assert_eq!(encode(0xffff_ffff), vec![0xfe, 0xff, 0xff, 0xff, 0xff]);
    assert_eq!(
        encode(0x1_0000_0000),
        vec![0xff, 0x00, 0x00, 0x00, 0x01, 0x00, 0x00, 0x00, 0x00]
    );
    assert_eq!(
        encode(u64::MAX),
        vec![0xff, 0xff, 0xff, 0xff, 0xff, 0xff, 0xff, 0xff, 0xff]
    );
}

#[test]
fn varint_roundtrip_each_width() {
    for v in [0u64, 252, 253, 300, 0xffff, 0x10000, 70000, 0xffff_ffff, 0x1_0000_0000, u64::MAX] {
        let bytes = encode(v);
        let mut decoder = TlvDecoder::new(&bytes);
        assert_eq!(decoder.decode_varint(), Ok(v));
        assert_eq!(decoder.position(), bytes.len());
        assert_eq!(decoder.remaining(), 0);
    }
}

#[test]
fn varint_decoding_accepts_longer_forms() {
    let bytes = [0xfd, 0x00, 0x05];
    let mut decoder = TlvDecoder::new(&bytes);
    assert_eq!(decoder.decode_varint(), Ok(5));
}

#[test]
fn encoder_reports_partial_write() {
    let mut buffer = [0u8; 2];
    let mut encoder = TlvEncoder::new(&mut buffer);
    assert_eq!(encoder.remaining(), 2);
    // The marker byte fits, the two bytes of the number do not.
    assert_eq!(
        encoder.encode_varint(300),
        Err(NdnError::BufferTooSmall { need: 2, have: 1 })
    );
    assert_eq!(encoder.position(), 1);
    assert_eq!(encoder.remaining(), 1);
    assert_eq!(buffer, [0xfd, 0x00]);
}

#[test]
fn encoder_full_buffer() {
    let mut buffer = [0u8; 0];
    let mut encoder = TlvEncoder::new(&mut buffer);
    assert_eq!(
        encoder.encode_varint(1),
        Err(NdnError::BufferTooSmall { need: 1, have: 0 })
    );
    assert_eq!(encoder.position(), 0);
}

#[test]
fn tlv_value_too_large_for_buffer() {
    let mut buffer = [0u8; 5];
    let mut encoder = TlvEncoder::new(&mut buffer);
    assert_eq!(
        encoder.encode_tlv(TlvType::Content, b"abcd"),
        Err(NdnError::BufferTooSmall { need: 4, have: 3 })
    );
    assert_eq!(encoder.position(), 2);
}

#[test]
fn tlv_with_content_is_a_tlv() {
    let mut buffer = [0u8; 8];
    let mut encoder = TlvEncoder::new(&mut buffer);
    encoder.encode_tlv_with_content(TlvType::Nonce, &[1, 2]).unwrap();
    assert_eq!(encoder.position(), 4);
    assert_eq!(&buffer[..4], &[0x0a, 0x02, 0x01, 0x02]);
}

#[test]
fn decode_errors() {
    let mut decoder = TlvDecoder::new(&[]);
    assert_eq!(
        decoder.decode_varint(),
        Err(NdnError::InvalidTlv { message: "Unexpected end of buffer" })
    );
    assert_eq!(decoder.position(), 0);

    let bytes = [0xfe, 0x01, 0x02];
    let mut decoder = TlvDecoder::new(&bytes);
    assert_eq!(
        decoder.decode_varint(),
        Err(NdnError::InvalidTlv { message: "Incomplete varint" })
    );
    // The marker byte has been consumed.
    assert_eq!(decoder.position(), 1);

    let bytes = [0x09, 0x00];
    let mut decoder = TlvDecoder::new(&bytes);
    assert_eq!(
        decoder.decode_tlv(),
        Err(NdnError::UnsupportedTlvType { tlv_type: 9 })
    );
    assert_eq!(decoder.position(), 1);

    let bytes = [0x15, 0x03, 0x01];
    let mut decoder = TlvDecoder::new(&bytes);
    assert_eq!(
        decoder.decode_tlv(),
        Err(NdnError::InvalidTlv { message: "TLV length exceeds buffer" })
    );
    assert_eq!(decoder.position(), 2);
}

#[test]
fn type_number_beyond_32_bits_is_refused() {
    // 0x1_0000_0005 is no TLV type, though its low 32 bits are Interest's.
    let bytes = [0xff, 0x00, 0x00, 0x00, 0x01, 0x00, 0x00, 0x00, 0x05, 0x00];
    let mut decoder = TlvDecoder::new(&bytes);
    assert_eq!(
        decoder.peek_tlv_type(),
        Err(NdnError::InvalidTlv { message: "TLV type number out of range" })
    );
    assert_eq!(
        decoder.decode_tlv(),
        Err(NdnError::InvalidTlv { message: "TLV type number out of range" })
    );
    assert_eq!(decoder.position(), 9);
}

#[test]
fn huge_length_is_refused() {
    let bytes = [0x15, 0xff, 0x00, 0x00, 0x00, 0x01, 0x00, 0x00, 0x00, 0x01, 0xaa];
    let mut decoder = TlvDecoder::new(&bytes);
    assert_eq!(
        decoder.decode_tlv(),
        Err(NdnError::InvalidTlv { message: "TLV length exceeds buffer" })
    );
    assert_eq!(decoder.position(), 10);
}

#[test]
fn peek_does_not_move() {
    let bytes = [0x15, 0x01, 0xaa, 0x16, 0x00];
    let mut decoder = TlvDecoder::new(&bytes);
    assert!(decoder.has_next());
    assert_eq!(decoder.peek_tlv_type(), Ok(TlvType::Content));
    assert_eq!(decoder.position(), 0);
    let (t, v) = decoder.decode_tlv().unwrap();
    assert_eq!((t, v), (TlvType::Content, &[0xaa][..]));
    assert_eq!(decoder.peek_tlv_type(), Ok(TlvType::SignatureInfo));
    let (t, v) = decoder.decode_tlv().unwrap();
    assert_eq!(t, TlvType::SignatureInfo);
    assert!(v.is_empty());
    assert!(!decoder.has_next());
    assert_eq!(
        decoder.peek_tlv_type(),
        Err(NdnError::InvalidTlv { message: "Unexpected end of buffer" })
    );
}

#[test]
fn sequential_tlvs_roundtrip() {
    let mut buffer = [0u8; 600];
    let big = vec![7u8; 300];
    let end = {
        let mut encoder = TlvEncoder::new(&mut buffer);
        encoder.encode_tlv(TlvType::Content, &big).unwrap();
        encoder.encode_tlv(TlvType::HopLimit, &[3]).unwrap();
        encoder.position()
    };
    assert_eq!(end, 1 + 3 + 300 + 3);
    let mut decoder = TlvDecoder::new(&buffer[..end]);
    let (t, v) = decoder.decode_tlv().unwrap();
    assert_eq!(t, TlvType::Content);
    assert_eq!(v, &big[..]);
    let (t, v) = decoder.decode_tlv().unwrap();
    assert_eq!(t, TlvType::HopLimit);
    assert_eq!(v, &[3]);
}
