use snap_net::bstring::BoundedString;
use snap_net::chat::{Chat, Identifier};
use snap_net::serial::{decode_from_slice, encode_to_vec, DecodeError, Decoder, Encode, Encoder};
use snap_net::varint::v32;

fn varint_bytes(v: u32) -> Vec<u8> {
    encode_to_vec(&v32::new(v)).unwrap()
}

#[test]
fn varint_round_trip_across_sizes() {
    let values = [
        0u32, 1, 127, 128, 255, 300, 16383, 16384, 25565, 2097151, 2097152, 268435455,
        268435456, 2147483647, 4294967295,
    ];
    for v in values {
        let bytes = varint_bytes(v);
        assert_eq!(bytes.len(), v32::byte_size(v));
        let (back, n) = decode_from_slice::<v32>(&bytes).unwrap();
        assert_eq!(back.value(), v);
        assert_eq!(n, bytes.len());
        let (again, m) = v32::read_from_slice(&bytes);
        assert_eq!(again.value(), v);
        assert_eq!(m, bytes.len());
    }
}

#[test]
fn varint_known_encodings() {
    assert_eq!(varint_bytes(0), vec![0x00]);
    assert_eq!(varint_bytes(127), vec![0x7f]);
    assert_eq!(varint_bytes(128), vec![0x80, 0x01]);
    assert_eq!(varint_bytes(300), vec![0xac, 0x02]);
    assert_eq!(varint_bytes(754), vec![0xf2, 0x05]);
    assert_eq!(varint_bytes(25565), vec![0xdd, 0xc7, 0x01]);
    assert_eq!(varint_bytes(4294967295), vec![0xff, 0xff, 0xff, 0xff, 0x0f]);
}

#[test]
fn varint_byte_size_thresholds() {
    assert_eq!(v32::byte_size(0x7f), 1);
    assert_eq!(v32::byte_size(0x80), 2);
    assert_eq!(v32::byte_size(0x3fff), 2);
    assert_eq!(v32::byte_size(0x4000), 3);
    assert_eq!(v32::byte_size(0x1fffff), 3);
    assert_eq!(v32::byte_size(0x200000), 4);
    assert_eq!(v32::byte_size(0xfffffff), 4);
    assert_eq!(v32::byte_size(0x10000000), 5);
}

#[test]
fn varint_six_continuation_bytes_fail() {
    let bytes = [0x80u8, 0x80, 0x80, 0x80, 0x80, 0x80];
    let r = decode_from_slice::<v32>(&bytes);
    assert!(matches!(r, Err(DecodeError::InvalidData)));
}

#[test]
fn varint_truncated_needs_more_bytes() {
    let bytes = [0x80u8, 0x80];
    let r = decode_from_slice::<v32>(&bytes);
    assert!(matches!(r, Err(DecodeError::NotEnoughBytes)));
}

#[test]
fn varint_integer_conversions() {
    let a = v32::from(5u32);
    assert_eq!(u32::from(a), 5);
    let b = v32::from(-1i32);
    assert_eq!(u32::from(b), 0xffff_ffff);
    assert_eq!(i32::from(b), -1);
    assert_eq!(varint_bytes(u32::from(b)), vec![0xff, 0xff, 0xff, 0xff, 0x0f]);
}

#[test]
fn primitives_are_big_endian() {
    assert_eq!(encode_to_vec(&0x1234u16).unwrap(), vec![0x12, 0x34]);
    assert_eq!(encode_to_vec(&0x12345678u32).unwrap(), vec![0x12, 0x34, 0x56, 0x78]);
    assert_eq!(encode_to_vec(&42i64).unwrap(), vec![0, 0, 0, 0, 0, 0, 0, 42]);
    assert_eq!(encode_to_vec(&-1i16).unwrap(), vec![0xff, 0xff]);
    assert_eq!(encode_to_vec(&true).unwrap(), vec![1]);
    assert_eq!(encode_to_vec(&false).unwrap(), vec![0]);
    let (v, n) = decode_from_slice::<u64>(&[1, 2, 3, 4, 5, 6, 7, 8, 9]).unwrap();
    assert_eq!(v, 0x0102030405060708);
    assert_eq!(n, 8);
    let (v, _) = decode_from_slice::<i32>(&[0xff, 0xff, 0xff, 0xfe]).unwrap();
    assert_eq!(v, -2);
    let (v, _) = decode_from_slice::<bool>(&[7]).unwrap();
    assert!(v);
    let (v, _) = decode_from_slice::<i8>(&[0x80]).unwrap();
    assert_eq!(v, -128);
    assert!(matches!(decode_from_slice::<u32>(&[1, 2, 3]), Err(DecodeError::NotEnoughBytes)));
}

#[test]
fn decoder_tracks_remaining_bytes() {
    let bytes = [1u8, 2, 3];
    let mut d = Decoder::new(&bytes);
    assert_eq!(d.remaining(), 3);
    assert_eq!(d.next_byte().unwrap(), 1);
    assert_eq!(d.remaining(), 2);
    assert_eq!(d.read_bytes(2).unwrap(), vec![2, 3]);
    assert_eq!(d.remaining(), 0);
    assert!(matches!(d.next_byte(), Err(DecodeError::NotEnoughBytes)));
}

#[test]
fn encoder_collects_bytes() {
    let mut e = Encoder::new();
    7u8.encode(&mut e).unwrap();
    e.extend(&[8, 9]);
    assert_eq!(e.into_bytes(), vec![7, 8, 9]);
}

#[test]
fn bounded_string_round_trip() {
    for text in ["", "a", "tester", "héllo wörld", "日本語テキスト", "🎮🎮"] {
        let s = BoundedString::<16>::new(text.to_string()).unwrap();
        let bytes = encode_to_vec(&s).unwrap();
        assert_eq!(bytes[0] as usize, text.len());
        let (back, n) = decode_from_slice::<BoundedString<16>>(&bytes).unwrap();
        assert_eq!(back.as_str(), text);
        assert_eq!(n, bytes.len());
    }
}

#[test]
fn bounded_string_rejects_one_over_the_bound() {
    assert!(BoundedString::<16>::new("a".repeat(16)).is_some());
    assert!(BoundedString::<16>::new("a".repeat(17)).is_none());
    assert!(BoundedString::<4>::new("ééééé".to_string()).is_none());
    assert!(BoundedString::<4>::new("éééé".to_string()).is_some());
}

#[test]
fn bounded_string_decode_rejects_bad_input() {
    // invalid UTF-8
    let bytes = [2u8, 0xc3, 0x28];
    assert!(matches!(decode_from_slice::<BoundedString<16>>(&bytes), Err(DecodeError::InvalidData)));
    // over the bound
    let mut over = vec![5u8];
    over.extend_from_slice(b"abcde");
    assert!(matches!(decode_from_slice::<BoundedString<4>>(&over), Err(DecodeError::InvalidData)));
    // body shorter than announced
    let short = [5u8, b'a', b'b'];
    assert!(matches!(decode_from_slice::<BoundedString<16>>(&short), Err(DecodeError::NotEnoughBytes)));
}

#[test]
fn chat_round_trip() {
    let c = Chat::new("{\"text\":\"bye\"}".to_string()).unwrap();
    let bytes = encode_to_vec(&c).unwrap();
    let (back, _) = decode_from_slice::<Chat>(&bytes).unwrap();
    assert_eq!(back.value.as_str(), "{\"text\":\"bye\"}");
    assert!(Chat::new("x".repeat(262145)).is_none());
}

#[test]
fn identifier_defaults_namespace() {
    let id = Identifier::new("stone").unwrap();
    assert_eq!(id.into_string(), "minecraft:stone");
    let id = Identifier::new("mymod:block/ore_1.v-2").unwrap();
    assert_eq!(id.into_string(), "mymod:block/ore_1.v-2");
    let id = Identifier::new("a:b:c").unwrap();
    assert_eq!(id.into_string(), "a:b");
}

#[test]
fn identifier_rejects_invalid_characters() {
    assert!(Identifier::new("Stone").is_none());
    assert!(Identifier::new("minecraft:stone block").is_none());
    assert!(Identifier::new("ns!:path").is_none());
}

#[test]
fn failed_decode_leaves_the_cursor() {
    let bytes = [7u8, 1];
    let mut d = Decoder::new(&bytes);
    assert_eq!(d.next_byte().unwrap(), 7);
    assert!(matches!(<u16 as snap_net::serial::Decode>::decode(&mut d), Err(DecodeError::NotEnoughBytes)));
    assert_eq!(d.offset(), 1);
    let text = [3u8, b'a'];
    let mut d = Decoder::new(&text);
    assert!(matches!(<BoundedString<8> as snap_net::serial::Decode>::decode(&mut d), Err(DecodeError::NotEnoughBytes)));
    assert_eq!(d.offset(), 0);
    let long = [0x80u8, 0x80, 0x80, 0x80, 0x80, 0x80];
    let mut d = Decoder::new(&long);
    assert!(matches!(<v32 as snap_net::serial::Decode>::decode(&mut d), Err(DecodeError::InvalidData)));
    assert_eq!(d.offset(), 0);
}
