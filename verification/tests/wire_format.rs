use chdb_rust::error::Error;
use chdb_rust::rowbinary::cursor::Cursor;
use chdb_rust::rowbinary::de::Deserializer;
use chdb_rust::rowbinary::ser::Serializer;
use chdb_rust::rowbinary::value::TextPolicy;

fn written(write: fn(&mut Serializer)) -> Vec<u8> {
    let mut serializer = Serializer::new();
    write(&mut serializer);
    serializer.into_bytes()
}

fn length_bytes(length: u64) -> Vec<u8> {
    let mut serializer = Serializer::new();
    serializer.serialize_length(length);
    serializer.into_bytes()
}

#[test]
fn cursor_peek_does_not_move() {
    let data = [1u8, 2, 3];
    let cursor = Cursor::new(&data);
    assert_eq!(cursor.remaining(), 3);
    assert_eq!(cursor.peek(2).unwrap(), &[1u8, 2][..]);
    assert_eq!(cursor.remaining(), 3);
    assert!(matches!(cursor.peek(4), Err(Error::NotEnoughData)));
}

#[test]
fn cursor_take_moves_forward() {
    let data = [1u8, 2, 3];
    let mut cursor = Cursor::new(&data);
    assert_eq!(cursor.take(2).unwrap(), &[1u8, 2][..]);
    assert_eq!(cursor.remaining(), 1);
    assert!(matches!(cursor.take(2), Err(Error::NotEnoughData)));
    assert_eq!(cursor.remaining(), 1);
    assert_eq!(cursor.take(1).unwrap(), &[3u8][..]);
    assert_eq!(cursor.remaining(), 0);
    assert_eq!(cursor.take(0).unwrap(), &[0u8; 0][..]);
}

#[test]
fn unsigned_numbers_are_little_endian() {
    assert_eq!(written(|s| s.serialize_u8(0xab)), vec![0xab]);
    assert_eq!(written(|s| s.serialize_u16(0x1234)), vec![0x34, 0x12]);
    assert_eq!(written(|s| s.serialize_u32(0x1234_5678)), vec![0x78, 0x56, 0x34, 0x12]);
    assert_eq!(
        written(|s| s.serialize_u64(0x0102_0304_0506_0708)),
        vec![0x08, 0x07, 0x06, 0x05, 0x04, 0x03, 0x02, 0x01]
    );
    assert_eq!(written(|s| s.serialize_u64(u64::MAX)), vec![0xff; 8]);
}

#[test]
fn signed_numbers_are_twos_complement() {
    assert_eq!(written(|s| s.serialize_i8(-1)), vec![0xff]);
    assert_eq!(written(|s| s.serialize_i8(i8::MIN)), vec![0x80]);
    assert_eq!(written(|s| s.serialize_i8(5)), vec![0x05]);
    assert_eq!(written(|s| s.serialize_i16(-2)), vec![0xfe, 0xff]);
    assert_eq!(written(|s| s.serialize_i32(i32::MIN)), vec![0x00, 0x00, 0x00, 0x80]);
    assert_eq!(written(|s| s.serialize_i64(-1)), vec![0xff; 8]);
    assert_eq!(
        written(|s| s.serialize_i64(i64::MIN)),
        vec![0x00, 0x00, 0x00, 0x00, 0x00, 0x00, 0x00, 0x80]
    );
    assert_eq!(
        written(|s| s.serialize_i64(i64::MAX)),
        vec![0xff, 0xff, 0xff, 0xff, 0xff, 0xff, 0xff, 0x7f]
    );
}

#[test]
fn floats_travel_as_their_bits() {
    assert_eq!(
        written(|s| s.serialize_f32(1.0f32.to_bits())),
        vec![0x00, 0x00, 0x80, 0x3f]
    );
    assert_eq!(
        written(|s| s.serialize_f64(1.5f64.to_bits())),
        vec![0x00, 0x00, 0x00, 0x00, 0x00, 0x00, 0xf8, 0x3f]
    );
    let mut de = Deserializer::new(&[0x00, 0x00, 0x80, 0x3f]);
    assert_eq!(f32::from_bits(de.deserialize_f32().unwrap()), 1.0f32);
    let mut de = Deserializer::new(&[0x00, 0x00, 0x00, 0x00, 0x00, 0x00, 0xf8, 0x3f]);
    assert_eq!(f64::from_bits(de.deserialize_f64().unwrap()), 1.5f64);
}

#[test]
fn numbers_read_back() {
    let mut de = Deserializer::new(&[0xab]);
    assert_eq!(de.deserialize_u8().unwrap(), 0xab);
    let mut de = Deserializer::new(&[0x34, 0x12]);
    assert_eq!(de.deserialize_u16().unwrap(), 0x1234);
    let mut de = Deserializer::new(&[0x78, 0x56, 0x34, 0x12]);
    assert_eq!(de.deserialize_u32().unwrap(), 0x1234_5678);
    let mut de = Deserializer::new(&[0x08, 0x07, 0x06, 0x05, 0x04, 0x03, 0x02, 0x01]);
    assert_eq!(de.deserialize_u64().unwrap(), 0x0102_0304_0506_0708);
    let mut de = Deserializer::new(&[0xff]);
    assert_eq!(de.deserialize_i8().unwrap(), -1);
    let mut de = Deserializer::new(&[0x80]);
    assert_eq!(de.deserialize_i8().unwrap(), i8::MIN);
    let mut de = Deserializer::new(&[0xfe, 0xff]);
    assert_eq!(de.deserialize_i16().unwrap(), -2);
    let mut de = Deserializer::new(&[0x00, 0x00, 0x00, 0x80]);
    assert_eq!(de.deserialize_i32().unwrap(), i32::MIN);
    let mut de = Deserializer::new(&[0x00, 0x00, 0x00, 0x00, 0x00, 0x00, 0x00, 0x80]);
    assert_eq!(de.deserialize_i64().unwrap(), i64::MIN);
    let mut de = Deserializer::new(&[0xff; 8]);
    assert_eq!(de.deserialize_i64().unwrap(), -1);
}

#[test]
fn numbers_need_all_their_bytes() {
    let mut de = Deserializer::new(&[0x01, 0x02, 0x03]);
    assert!(matches!(de.deserialize_u32(), Err(Error::NotEnoughData)));
    assert_eq!(de.remaining(), 3);
    assert!(matches!(de.deserialize_i64(), Err(Error::NotEnoughData)));
    assert_eq!(de.deserialize_u16().unwrap(), 0x0201);
    assert!(matches!(de.deserialize_i16(), Err(Error::NotEnoughData)));
    assert_eq!(de.deserialize_u8().unwrap(), 3);
    assert!(matches!(de.deserialize_u8(), Err(Error::NotEnoughData)));
    assert!(matches!(de.deserialize_bool(), Err(Error::NotEnoughData)));
}

#[test]
fn bool_is_one_byte() {
    assert_eq!(written(|s| s.serialize_bool(true)), vec![1]);
    assert_eq!(written(|s| s.serialize_bool(false)), vec![0]);
}

#[test]
fn bool_decode_takes_any_nonzero_byte_as_true() {
    let mut de = Deserializer::new(&[0, 1, 2, 0xff]);
    assert_eq!(de.deserialize_bool().unwrap(), false);
    assert_eq!(de.deserialize_bool().unwrap(), true);
    assert_eq!(de.deserialize_bool().unwrap(), true);
    assert_eq!(de.deserialize_bool().unwrap(), true);
    assert_eq!(de.remaining(), 0);
}

#[test]
fn length_prefix_is_seven_bits_per_byte() {
    assert_eq!(length_bytes(0), vec![0x00]);
    assert_eq!(length_bytes(1), vec![0x01]);
    assert_eq!(length_bytes(127), vec![0x7f]);
    assert_eq!(length_bytes(128), vec![0x80, 0x01]);
    assert_eq!(length_bytes(255), vec![0xff, 0x01]);
    assert_eq!(length_bytes(300), vec![0xac, 0x02]);
    assert_eq!(length_bytes(624485), vec![0xe5, 0x8e, 0x26]);
    assert_eq!(length_bytes(16384), vec![0x80, 0x80, 0x01]);
    let mut largest = vec![0xff; 9];
    largest.push(0x01);
    assert_eq!(length_bytes(u64::MAX), largest);
}

#[test]
fn length_prefix_reads_back() {
    for length in [0u64, 1, 127, 128, 255, 300, 16383, 16384, 624485, 1 << 35, u64::MAX - 1, u64::MAX] {
        let mut bytes = length_bytes(length);
        let own = bytes.len();
        bytes.push(0xee);
        let mut de = Deserializer::new(&bytes);
        assert_eq!(de.deserialize_length().unwrap(), length);
        assert_eq!(de.remaining(), bytes.len() - own);
    }
}

#[test]
fn length_prefix_that_is_not_the_shortest_is_read() {
    let mut de = Deserializer::new(&[0x80, 0x00, 0x07]);
    assert_eq!(de.deserialize_length().unwrap(), 0);
    assert_eq!(de.remaining(), 1);
}

#[test]
fn length_prefix_cut_short() {
    let mut de = Deserializer::new(&[]);
    assert!(matches!(de.deserialize_length(), Err(Error::NotEnoughData)));
    let mut de = Deserializer::new(&[0x80]);
    assert!(matches!(de.deserialize_length(), Err(Error::NotEnoughData)));
    assert_eq!(de.remaining(), 0);
    let mut de = Deserializer::new(&[0xff; 9]);
    assert!(matches!(de.deserialize_length(), Err(Error::NotEnoughData)));
}

#[test]
fn length_prefix_beyond_64_bits() {
    let mut bytes = vec![0xff; 9];
    bytes.push(0x02);
    let mut de = Deserializer::new(&bytes);
    assert!(matches!(de.deserialize_length(), Err(Error::InvalidTagEncoding(2))));
    let bytes = vec![0xff; 11];
    let mut de = Deserializer::new(&bytes);
    assert!(matches!(de.deserialize_length(), Err(Error::InvalidTagEncoding(255))));
    assert_eq!(de.remaining(), 1);
}

#[test]
fn string_is_length_then_payload() {
    assert_eq!(written(|s| s.serialize_str("test")), vec![0x04, 0x74, 0x65, 0x73, 0x74]);
    assert_eq!(written(|s| s.serialize_str("")), vec![0x00]);
    assert_eq!(written(|s| s.serialize_str("é")), vec![0x02, 0xc3, 0xa9]);
    assert_eq!(written(|s| s.serialize_bytes(&[0xff, 0x00])), vec![0x02, 0xff, 0x00]);
    let long = "a".repeat(200);
    let mut serializer = Serializer::new();
    serializer.serialize_str(&long);
    let bytes = serializer.into_bytes();
    assert_eq!(bytes.len(), 202);
    assert_eq!(&bytes[..2], &[0xc8, 0x01]);
}

#[test]
fn string_decode_consumes_prefix_and_payload_only() {
    let long = "b".repeat(300);
    let mut serializer = Serializer::new();
    serializer.serialize_str(&long);
    serializer.serialize_u8(0x55);
    let bytes = serializer.into_bytes();
    assert_eq!(bytes.len(), 2 + 300 + 1);
    let mut de = Deserializer::new(&bytes);
    assert_eq!(de.deserialize_text(TextPolicy::Strict).unwrap(), long);
    assert_eq!(de.remaining(), 1);
    assert_eq!(de.deserialize_u8().unwrap(), 0x55);
}

#[test]
fn string_policies() {
    let good = [0x02, 0xc3, 0xa9];
    let bad = [0x03, 0x61, 0xff, 0x62];
    let mut de = Deserializer::new(&good);
    assert_eq!(de.deserialize_text(TextPolicy::Strict).unwrap(), "é");
    let mut de = Deserializer::new(&good);
    assert_eq!(de.deserialize_text(TextPolicy::Lossy).unwrap(), "é");
    let mut de = Deserializer::new(&good);
    assert_eq!(de.deserialize_bytes().unwrap(), &[0xc3u8, 0xa9][..]);

    let mut de = Deserializer::new(&bad);
    assert!(matches!(
        de.deserialize_text(TextPolicy::Strict),
        Err(Error::InvalidUtf8Sequence(_))
    ));
    assert_eq!(de.remaining(), 0);
    let mut de = Deserializer::new(&bad);
    assert_eq!(de.deserialize_text(TextPolicy::Lossy).unwrap(), "a\u{fffd}b");
    let mut de = Deserializer::new(&bad);
    assert_eq!(de.deserialize_bytes().unwrap(), &[0x61u8, 0xff, 0x62][..]);
}

#[test]
fn string_longer_than_what_is_left() {
    let mut de = Deserializer::new(&[0x05, 0x61, 0x62]);
    assert!(matches!(de.deserialize_bytes(), Err(Error::NotEnoughData)));
    assert_eq!(de.remaining(), 2);
    let mut de = Deserializer::new(&[0x05, 0x61, 0x62]);
    assert!(matches!(
        de.deserialize_text(TextPolicy::Lossy),
        Err(Error::NotEnoughData)
    ));
    let mut huge = vec![0xff; 9];
    huge.push(0x01);
    let mut de = Deserializer::new(&huge);
    assert!(matches!(
        de.deserialize_text(TextPolicy::Strict),
        Err(Error::NotEnoughData)
    ));
}

#[test]
fn nullable_flag() {
    assert_eq!(written(|s| s.serialize_none()), vec![1]);
    assert_eq!(written(|s| s.serialize_some()), vec![0]);
    let mut de = Deserializer::new(&[0, 1, 2]);
    assert_eq!(de.deserialize_option().unwrap(), true);
    assert_eq!(de.deserialize_option().unwrap(), false);
    assert!(matches!(de.deserialize_option(), Err(Error::InvalidTagEncoding(2))));
    assert!(matches!(de.deserialize_option(), Err(Error::NotEnoughData)));
}

#[test]
fn sequence_needs_its_length_upfront() {
    let mut serializer = Serializer::new();
    serializer.serialize_u8(7);
    assert!(matches!(
        serializer.serialize_seq(None),
        Err(Error::SequenceMustHaveLength)
    ));
    assert!(serializer.serialize_seq(Some(3)).is_ok());
    assert!(serializer.serialize_seq(Some(200)).is_ok());
    assert_eq!(serializer.into_bytes(), vec![7, 3, 0xc8, 0x01]);
}

#[test]
fn discriminator_width_follows_the_number_of_variants() {
    let mut serializer = Serializer::new();
    assert!(serializer.serialize_variant(2, 1).is_ok());
    assert!(serializer.serialize_variant(256, 255).is_ok());
    assert!(serializer.serialize_variant(257, 256).is_ok());
    assert!(serializer.serialize_variant(300, 299).is_ok());
    assert!(serializer.serialize_variant(70_000, 65_536).is_ok());
    assert_eq!(
        serializer.into_bytes(),
        vec![0x01, 0xff, 0x00, 0x01, 0x2b, 0x01, 0x00, 0x00, 0x01, 0x00]
    );
}

#[test]
fn discriminator_out_of_bound() {
    let mut serializer = Serializer::new();
    assert!(matches!(
        serializer.serialize_variant(2, 2),
        Err(Error::VariantDiscriminatorIsOutOfBound(2))
    ));
    assert!(matches!(
        serializer.serialize_variant(0, 0),
        Err(Error::VariantDiscriminatorIsOutOfBound(0))
    ));
    assert_eq!(serializer.into_bytes(), Vec::<u8>::new());

    let mut de = Deserializer::new(&[0x00, 0x01, 0x02, 0x2c, 0x01]);
    assert_eq!(de.deserialize_variant(2).unwrap(), 0);
    assert_eq!(de.deserialize_variant(2).unwrap(), 1);
    assert!(matches!(
        de.deserialize_variant(2),
        Err(Error::VariantDiscriminatorIsOutOfBound(2))
    ));
    assert!(matches!(
        de.deserialize_variant(300),
        Err(Error::VariantDiscriminatorIsOutOfBound(300))
    ));
    assert!(matches!(de.deserialize_variant(1), Err(Error::NotEnoughData)));
}

#[test]
fn untyped_decode_is_refused() {
    let mut de = Deserializer::new(&[1, 2, 3]);
    assert!(matches!(
        de.deserialize_any(),
        Err(Error::DeserializeAnyNotSupported)
    ));
    assert_eq!(de.remaining(), 3);
}
