use udcn2_common::ndn::{Data, Interest, MetaInfo, Name, NameComponent, Signature};
use udcn2_common::producer::answer_interest;
use udcn2_common::NdnError;
use udcn2_common::NdnPacket;
use udcn2_common::{TlvDecoder, TlvEncoder, TlvType};

#[test]
fn test_error_creation() {
    let error = NdnError::invalid_tlv("test message");
    assert_eq!(error, NdnError::InvalidTlv { message: "test message" });

    let error = NdnError::buffer_too_small(100, 50);
    assert_eq!(error, NdnError::BufferTooSmall { need: 100, have: 50 });
}

#[test]
fn test_ndn_packet_creation() {
    let name = Name::new("/test/packet");
    let interest = Interest::new(name.clone());
    let data = Data::new(name.clone(), b"test data".to_vec());

    let interest_packet = NdnPacket::Interest(interest);
    let data_packet = NdnPacket::Data(data);

    assert!(interest_packet.is_interest());
    assert!(!interest_packet.is_data());
    assert!(data_packet.is_data());
    assert!(!data_packet.is_interest());
    assert_eq!(interest_packet.name(), &name);
    assert_eq!(data_packet.name(), &name);
}

#[test]
fn test_name_creation() {
    let name = Name::new("/test/name");
    assert_eq!(name.len(), 2);
    assert_eq!(name.to_string(), "/test/name");

    let empty_name = Name::empty();
    assert!(empty_name.is_empty());
    assert_eq!(empty_name.to_string(), "/");
}

#[test]
fn test_name_prefix() {
    let name1 = Name::new("/test");
    let name2 = Name::new("/test/name");

    assert!(name1.is_prefix_of(&name2));
    assert!(!name2.is_prefix_of(&name1));
}

#[test]
fn test_interest_creation() {
    let name = Name::new("/test/interest");
    let mut interest = Interest::new(name.clone());

    assert_eq!(interest.name(), &name);
    assert!(!interest.can_be_prefix());
    assert!(!interest.must_be_fresh());

    interest
        .set_can_be_prefix(true)
        .set_must_be_fresh(true)
        .set_nonce(12345)
        .set_interest_lifetime(4000);

    assert!(interest.can_be_prefix());
    assert!(interest.must_be_fresh());
    assert_eq!(interest.nonce(), Some(12345));
    assert_eq!(interest.interest_lifetime(), Some(4000));
}

#[test]
fn test_data_creation() {
    let name = Name::new("/test/data");
    let content = b"Hello, NDN!".to_vec();
    let data = Data::new(name.clone(), content.clone());

    assert_eq!(data.name(), &name);
    assert_eq!(data.content(), &content);
}

#[test]
fn test_varint_encoding() {
    let mut buffer = [0u8; 16];
    let position = {
        let mut encoder = TlvEncoder::new(&mut buffer);

        // Test small numbers
        encoder.encode_varint(100).unwrap();
        encoder.encode_varint(300).unwrap();
        encoder.encode_varint(70000).unwrap();

        encoder.position()
    };

    let mut decoder = TlvDecoder::new(&buffer[..position]);
    assert_eq!(decoder.decode_varint().unwrap(), 100);
    assert_eq!(decoder.decode_varint().unwrap(), 300);
    assert_eq!(decoder.decode_varint().unwrap(), 70000);
}

#[test]
fn test_tlv_encoding() {
    let mut buffer = [0u8; 32];
    let position = {
        let mut encoder = TlvEncoder::new(&mut buffer);

        let content = b"test content";
        encoder.encode_tlv(TlvType::Content, content).unwrap();

        encoder.position()
    };

    let mut decoder = TlvDecoder::new(&buffer[..position]);
    let (tlv_type, value) = decoder.decode_tlv().unwrap();

    assert_eq!(tlv_type, TlvType::Content);
    assert_eq!(value, b"test content");
}

// ---------------------------------------------------------------------------
// Names
// ---------------------------------------------------------------------------

#[test]
fn name_new_drops_empty_parts() {
    let name = Name::new("a//b/");
    assert_eq!(name.len(), 2);
    assert_eq!(name.get(0).unwrap().value(), b"a");
    assert_eq!(name.get(1).unwrap().value(), b"b");
    assert!(name.get(2).is_none());
    assert_eq!(Name::new("/a/b"), name);
    assert!(Name::new("///").is_empty());
}

#[test]
fn name_append_and_components() {
    let mut name = Name::empty();
    name.append(b"x").append(b"yz");
    assert_eq!(name.len(), 2);
    assert_eq!(name.components()[1], NameComponent::new(b"yz"));
    assert_eq!(name.to_string(), "/x/yz");
    let base = Name::new("/x");
    assert!(base.is_prefix_of(&name));
    assert!(name.is_prefix_of(&name));
    assert!(Name::empty().is_prefix_of(&name));
    assert!(!Name::new("/y").is_prefix_of(&name));
}

#[test]
fn component_text_is_hex_when_not_utf8() {
    let component = NameComponent::new(&[0xff, 0x01, 0xab]);
    assert_eq!(component.to_string(), "ff01ab");
    let mut name = Name::new("/a");
    name.append(&[0xc3, 0x28]);
    assert_eq!(name.to_string(), "/a/c328");
    assert_eq!(NameComponent::new("é".as_bytes()).to_string(), "é");
}

#[test]
fn name_encoding_bytes() {
    let mut buffer = [0u8; 16];
    let mut encoder = TlvEncoder::new(&mut buffer);
    Name::new("/a/bc").encode_tlv(&mut encoder).unwrap();
    let n = encoder.position();
    assert_eq!(n, 9);
    assert_eq!(&buffer[..n], &[0x07, 0x07, 0x08, 0x01, b'a', 0x08, 0x02, b'b', b'c']);
}

#[test]
fn empty_name_encoding_bytes() {
    let mut buffer = [0u8; 4];
    let mut encoder = TlvEncoder::new(&mut buffer);
    Name::empty().encode_tlv(&mut encoder).unwrap();
    assert_eq!(encoder.position(), 2);
    assert_eq!(&buffer[..2], &[0x07, 0x00]);
}

#[test]
fn name_roundtrip() {
    let mut name = Name::new("/test/roundtrip");
    name.append(&[0x00, 0xff, 0x10]);
    let mut buffer = [0u8; 64];
    let end = {
        let mut encoder = TlvEncoder::new(&mut buffer);
        name.encode_tlv(&mut encoder).unwrap();
        encoder.position()
    };
    let mut decoder = TlvDecoder::new(&buffer[..end]);
    let decoded = Name::decode_tlv(&mut decoder).unwrap();
    assert_eq!(decoded, name);
    assert_eq!(decoder.position(), end);
    assert!(!decoder.has_next());
}

#[test]
fn name_too_long_for_scratch() {
    let long = vec![b'x'; 1030];
    let mut name = Name::empty();
    name.append(&long);
    let mut buffer = vec![0u8; 2048];
    let mut encoder = TlvEncoder::new(&mut buffer);
    // The component block is 1 + 3 + 1030 bytes: after the 4 bytes of type and
    // length, 1020 bytes of the 1024-byte scratch are left for the value.
    assert_eq!(
        name.encode_tlv(&mut encoder),
        Err(NdnError::BufferTooSmall { need: 1030, have: 1020 })
    );
    assert_eq!(encoder.position(), 0);
}

#[test]
fn name_decode_rejects_other_types() {
    let bytes = [0x08, 0x01, b'a'];
    let mut decoder = TlvDecoder::new(&bytes);
    assert_eq!(
        Name::decode_tlv(&mut decoder),
        Err(NdnError::InvalidPacket { message: "Expected Name TLV" })
    );
    assert_eq!(decoder.position(), 3);

    let bytes = [0x07, 0x03, 0x07, 0x01, b'a'];
    let mut decoder = TlvDecoder::new(&bytes);
    assert_eq!(
        Name::decode_tlv(&mut decoder),
        Err(NdnError::InvalidPacket { message: "Expected GenericNameComponent TLV" })
    );
}

// ---------------------------------------------------------------------------
// Packets
// ---------------------------------------------------------------------------

#[test]
fn interest_encoding_bytes() {
    let mut interest = Interest::new(Name::new("/a"));
    interest
        .set_can_be_prefix(true)
        .set_nonce(0x01020304)
        .set_hop_limit(7);
    let mut buffer = [0u8; 64];
    let mut encoder = TlvEncoder::new(&mut buffer);
    interest.encode_tlv(&mut encoder).unwrap();
    let n = encoder.position();
    let expected = [
        0x05, 0x10, // Interest
        0x07, 0x03, 0x08, 0x01, b'a', // Name
        0x21, 0x00, // CanBePrefix
        0x0a, 0x04, 0x01, 0x02, 0x03, 0x04, // Nonce
        0x22, 0x01, 0x07, // HopLimit
    ];
    assert_eq!(&buffer[..n], &expected);
}

#[test]
fn interest_with_all_fields() {
    let mut interest = Interest::new(Name::empty());
    interest
        .set_must_be_fresh(true)
        .set_interest_lifetime(4000)
        .set_hop_limit(1);
    assert_eq!(interest.hop_limit(), Some(1));
    let mut buffer = [0u8; 32];
    let mut encoder = TlvEncoder::new(&mut buffer);
    interest.encode_tlv(&mut encoder).unwrap();
    let n = encoder.position();
    let expected = [
        0x05, 0x0d, 0x07, 0x00, 0x12, 0x00, 0x0c, 0x04, 0x00, 0x00, 0x0f, 0xa0, 0x22, 0x01, 0x01,
    ];
    assert_eq!(&buffer[..n], &expected);
}

#[test]
fn interest_encoding_too_small_buffer() {
    let interest = Interest::new(Name::new("/a"));
    let mut buffer = [0u8; 3];
    let mut encoder = TlvEncoder::new(&mut buffer);
    // Type and length go in; the 5 bytes of the Name block do not.
    assert_eq!(
        interest.encode_tlv(&mut encoder),
        Err(NdnError::BufferTooSmall { need: 5, have: 1 })
    );
    assert_eq!(encoder.position(), 2);
}

#[test]
fn data_encoding_bytes() {
    let mut data = Data::new(Name::new("/d"), b"hi".to_vec());
    let mut meta = MetaInfo::new();
    meta.set_content_type(0).set_freshness_period(1000);
    assert_eq!(meta.freshness_period(), Some(1000));
    assert_eq!(meta.content_type(), Some(0));
    data.set_meta_info(meta)
        .set_signature(Signature::new(vec![0x1b, 0x01, 0x00], vec![0xaa]));
    assert!(data.meta_info().is_some());
    assert_eq!(data.signature().unwrap().signature_value(), &[0xaa]);
    assert_eq!(data.signature().unwrap().signature_info(), &[0x1b, 0x01, 0x00]);
    let mut buffer = [0u8; 64];
    let mut encoder = TlvEncoder::new(&mut buffer);
    data.encode_tlv(&mut encoder).unwrap();
    let n = encoder.position();
    let expected = [
        0x06, 0x13, // Data
        0x07, 0x03, 0x08, 0x01, b'd', // Name
        0x14, 0x00, // MetaInfo, always empty
        0x15, 0x02, b'h', b'i', // Content
        0x16, 0x03, 0x1b, 0x01, 0x00, // SignatureInfo
        0x17, 0x01, 0xaa, // SignatureValue
    ];
    assert_eq!(&buffer[..n], &expected);
}

#[test]
fn data_without_content_has_no_content_block() {
    let mut data = Data::new(Name::new("/d"), b"x".to_vec());
    data.set_content(Vec::new());
    assert!(data.content().is_empty());
    let mut buffer = [0u8; 16];
    let mut encoder = TlvEncoder::new(&mut buffer);
    data.encode_tlv(&mut encoder).unwrap();
    let n = encoder.position();
    assert_eq!(&buffer[..n], &[0x06, 0x05, 0x07, 0x03, 0x08, 0x01, b'd']);
}

#[test]
fn meta_info_and_signature_blocks() {
    let mut buffer = [0u8; 16];
    let mut encoder = TlvEncoder::new(&mut buffer);
    MetaInfo::default().encode_tlv(&mut encoder).unwrap();
    Signature::new(vec![1], vec![2, 3]).encode_tlv(&mut encoder).unwrap();
    let n = encoder.position();
    assert_eq!(&buffer[..n], &[0x14, 0x00, 0x16, 0x01, 0x01, 0x17, 0x02, 0x02, 0x03]);
}

#[test]
fn packet_text() {
    let interest = NdnPacket::Interest(Interest::new(Name::new("/a/b")));
    let data = NdnPacket::Data(Data::new(Name::empty(), Vec::new()));
    assert_eq!(interest.to_string(), "Interest(/a/b)");
    assert_eq!(data.to_string(), "Data(/)");
}

#[test]
fn producer_answers_with_name_text() {
    let interest = Interest::new(Name::new("/test/data"));
    let data = answer_interest(&interest);
    assert_eq!(data.name(), &Name::new("/test/data"));
    assert_eq!(data.content(), b"Data for /test/data");
    assert!(data.meta_info().is_none());
    assert!(data.signature().is_none());
}

#[test]
fn name_text_roundtrip() {
    let mut name = Name::new("/héllo/wörld");
    name.append(b"x-1");
    let text = name.to_string();
    assert_eq!(text, "/héllo/wörld/x-1");
    assert_eq!(Name::new(&text), name);
    assert_eq!(Name::new(&Name::empty().to_string()), Name::empty());
}
