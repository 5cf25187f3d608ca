use qrcode2::bits::{
    Bits, RectMicroStrategy, encode_auto, encode_auto_micro, encode_auto_rect_micro,
    find_min_version,
};
use qrcode2::{EcLevel, Error, MicroVersion, NormalVersion, QrResult, RectMicroVersion, Version};

#[test]
fn push_number() {
    let mut bits = Bits::new(Version::Normal(NormalVersion::V1));

    bits.push_number(3, 0b010);
    bits.push_number(3, 0b110);
    bits.push_number(3, 0b101);
    bits.push_number(7, 0b001_1010);
    bits.push_number(4, 0b1100);
    bits.push_number(12, 0b1011_0110_1101);
    bits.push_number(10, 0b01_1001_0001);
    bits.push_number(15, 0b111_0010_1110_0011);

    let bytes = bits.into_bytes();

    assert_eq!(
        bytes,
        [
            0b0101_1010,
            0b1001_1010,
            0b1100_1011,
            0b0110_1101,
            0b0110_0100,
            0b0111_1001,
            0b0111_0001,
            0b1000_0000,
        ]
    );
}

#[test]
fn iso_18004_2006_example() {
    let mut bits = Bits::new(Version::Normal(NormalVersion::V1));
    assert_eq!(bits.push_alphanumeric_data(b"AC-42"), Ok(()));
    assert_eq!(
        bits.into_bytes(),
        [
            0b0010_0000,
            0b0010_1001,
            0b1100_1110,
            0b1110_0111,
            0b0010_0001,
            0b0000_0000
        ]
    );
}

#[test]
fn alphanumeric_micro_qr_unsupported() {
    let mut bits = Bits::new(Version::Micro(MicroVersion::M1));
    assert_eq!(
        bits.push_alphanumeric_data(b"A"),
        Err(Error::UnsupportedCharacterSet)
    );
}

#[test]
fn alphanumeric_data_too_long() {
    let mut bits = Bits::new(Version::Micro(MicroVersion::M2));
    assert_eq!(
        bits.push_alphanumeric_data(b"ABCDEFGH"),
        Err(Error::DataTooLong)
    );
}

#[test]
fn find_min_version_works() {
    assert_eq!(
        find_min_version(60, EcLevel::L),
        Version::Normal(NormalVersion::V1)
    );
    assert_eq!(
        find_min_version(200, EcLevel::L),
        Version::Normal(NormalVersion::V2)
    );
    assert_eq!(
        find_min_version(200, EcLevel::H),
        Version::Normal(NormalVersion::V3)
    );
    assert_eq!(
        find_min_version(20000, EcLevel::L),
        Version::Normal(NormalVersion::V37)
    );
    assert_eq!(
        find_min_version(640, EcLevel::L),
        Version::Normal(NormalVersion::V4)
    );
    assert_eq!(
        find_min_version(641, EcLevel::L),
        Version::Normal(NormalVersion::V5)
    );
    assert_eq!(
        find_min_version(999_999, EcLevel::H),
        Version::Normal(NormalVersion::V40)
    );
}

#[test]
fn auto_alpha_q() {
    let bits = encode_auto(b"HELLO WORLD", EcLevel::Q).unwrap();
    assert_eq!(bits.version(), Version::Normal(NormalVersion::V1));
}

#[test]
fn alpha_h() {
    let bits = encode_auto(b"HELLO WORLD", EcLevel::H).unwrap();
    assert_eq!(bits.version(), Version::Normal(NormalVersion::V2));
}

#[test]
fn auto_mixed() {
    let bits = encode_auto(b"This is a mixed data test. 1234567890", EcLevel::H).unwrap();
    assert_eq!(bits.version(), Version::Normal(NormalVersion::V4));
}

#[test]
fn alpha_l() {
    let bits = encode_auto_micro(b"HELLO WORLD", EcLevel::L).unwrap();
    assert_eq!(bits.version(), Version::Micro(MicroVersion::M3));
}

#[test]
fn alpha_q() {
    let bits = encode_auto_micro(b"HELLO WORLD", EcLevel::Q).unwrap();
    assert_eq!(bits.version(), Version::Micro(MicroVersion::M4));
}

#[test]
fn mixed() {
    let bits = encode_auto_micro(b"Mixed. 1234567890", EcLevel::M).unwrap();
    assert_eq!(bits.version(), Version::Micro(MicroVersion::M4));
}

#[test]
fn alpha_m_width() {
    let bits =
        encode_auto_rect_micro(b"HELLO WORLD", EcLevel::M, RectMicroStrategy::Width).unwrap();
    assert_eq!(bits.version(), Version::RectMicro(RectMicroVersion::R13x27));
}

#[test]
fn alpha_m_height() {
    let bits =
        encode_auto_rect_micro(b"HELLO WORLD", EcLevel::M, RectMicroStrategy::Height).unwrap();
    assert_eq!(bits.version(), Version::RectMicro(RectMicroVersion::R7x59));
}

#[test]
fn alpha_m_area() {
    let bits =
        encode_auto_rect_micro(b"HELLO WORLD", EcLevel::M, RectMicroStrategy::Area).unwrap();
    assert_eq!(bits.version(), Version::RectMicro(RectMicroVersion::R13x27));
}

#[test]
fn alpha_h_width() {
    let bits =
        encode_auto_rect_micro(b"HELLO WORLD", EcLevel::H, RectMicroStrategy::Width).unwrap();
    assert_eq!(bits.version(), Version::RectMicro(RectMicroVersion::R11x43));
}

#[test]
fn alpha_h_height() {
    let bits =
        encode_auto_rect_micro(b"HELLO WORLD", EcLevel::H, RectMicroStrategy::Height).unwrap();
    assert_eq!(bits.version(), Version::RectMicro(RectMicroVersion::R7x77));
}

#[test]
fn alpha_h_area() {
    let bits =
        encode_auto_rect_micro(b"HELLO WORLD", EcLevel::H, RectMicroStrategy::Area).unwrap();
    assert_eq!(bits.version(), Version::RectMicro(RectMicroVersion::R11x43));
}

#[test]
fn mixed_width() {
    let bits = encode_auto_rect_micro(
        b"This is a mixed data test. 1234567890",
        EcLevel::H,
        RectMicroStrategy::Width,
    )
    .unwrap();
    assert_eq!(bits.version(), Version::RectMicro(RectMicroVersion::R17x77));
}

#[test]
fn mixed_height() {
    let bits = encode_auto_rect_micro(
        b"This is a mixed data test. 1234567890",
        EcLevel::H,
        RectMicroStrategy::Height,
    )
    .unwrap();
    assert_eq!(
        bits.version(),
        Version::RectMicro(RectMicroVersion::R11x139)
    );
}

#[test]
fn mixed_area() {
    let bits = encode_auto_rect_micro(
        b"This is a mixed data test. 1234567890",
        EcLevel::H,
        RectMicroStrategy::Area,
    )
    .unwrap();
    assert_eq!(bits.version(), Version::RectMicro(RectMicroVersion::R13x99));
}

#[test]
fn test() {
    let mut bits = Bits::new(Version::Normal(NormalVersion::V1));
    assert_eq!(
        bits.push_byte_data(b"\x12\x34\x56\x78\x9A\xBC\xDE\xF0"),
        Ok(())
    );
    assert_eq!(
        bits.into_bytes(),
        [
            0b0100_0000,
            0b1000_0001,
            0b0010_0011,
            0b0100_0101,
            0b0110_0111,
            0b1000_1001,
            0b1010_1011,
            0b1100_1101,
            0b1110_1111,
            0b0000_0000,
        ]
    );
}

#[test]
fn test_micro_qr_unsupported() {
    let mut bits = Bits::new(Version::Micro(MicroVersion::M2));
    assert_eq!(
        bits.push_byte_data(b"?"),
        Err(Error::UnsupportedCharacterSet)
    );
}

#[test]
fn test_data_too_long() {
    let mut bits = Bits::new(Version::Micro(MicroVersion::M3));
    assert_eq!(
        bits.push_byte_data(b"0123456701234567"),
        Err(Error::DataTooLong)
    );
}

#[test]
fn test_9() {
    let mut bits = Bits::new(Version::Normal(NormalVersion::V1));
    assert_eq!(bits.push_eci_designator(9), Ok(()));
    assert_eq!(bits.into_bytes(), [0b0111_0000, 0b1001_0000]);
}

#[test]
fn test_899() {
    let mut bits = Bits::new(Version::Normal(NormalVersion::V1));
    assert_eq!(bits.push_eci_designator(899), Ok(()));
    assert_eq!(bits.into_bytes(), [0b0111_1000, 0b0011_1000, 0b0011_0000]);
}

#[test]
fn test_999_999() {
    let mut bits = Bits::new(Version::Normal(NormalVersion::V1));
    assert_eq!(bits.push_eci_designator(999_999), Ok(()));
    assert_eq!(
        bits.into_bytes(),
        [0b0111_1100, 0b1111_0100, 0b0010_0011, 0b1111_0000]
    );
}

#[test]
fn test_invalid_designator() {
    let mut bits = Bits::new(Version::Normal(NormalVersion::V1));
    assert_eq!(
        bits.push_eci_designator(1_000_000),
        Err(Error::InvalidEciDesignator)
    );
}

#[test]
fn test_unsupported_character_set() {
    let mut bits = Bits::new(Version::Micro(MicroVersion::M4));
    assert_eq!(
        bits.push_eci_designator(9),
        Err(Error::UnsupportedCharacterSet)
    );
}

fn encode(data: &[u8], version: Version, ec_level: EcLevel) -> QrResult<Vec<u8>> {
    let mut bits = Bits::new(version);
    bits.push_optimal_data(data)?;
    bits.push_terminator(ec_level)?;
    Ok(bits.into_bytes())
}

#[test]
fn alphanumeric() {
    let res = encode(
        b"HELLO WORLD",
        Version::Normal(NormalVersion::V1),
        EcLevel::Q,
    );
    assert_eq!(
        res,
        Ok(vec![
            0b0010_0000,
            0b0101_1011,
            0b0000_1011,
            0b0111_1000,
            0b1101_0001,
            0b0111_0010,
            0b1101_1100,
            0b0100_1101,
            0b0100_0011,
            0b0100_0000,
            0b1110_1100,
            0b0001_0001,
            0b1110_1100,
        ])
    );
}

#[test]
fn auto_mode_switch() {
    let res = encode(b"123A", Version::Micro(MicroVersion::M2), EcLevel::L);
    assert_eq!(
        res,
        Ok(vec![
            0b0001_1000,
            0b1111_0111,
            0b0010_0101,
            0b0000_0000,
            0b1110_1100
        ])
    );
}

#[test]
fn encode_too_long() {
    let res = encode(b">>>>>>>>", Version::Normal(NormalVersion::V1), EcLevel::H);
    assert_eq!(res, Err(Error::DataTooLong));
}

#[test]
fn micro_m3_alphanumeric_with_digit_run() {
    assert!(
        encode(
            b"9BA3935DM3TBE4",
            Version::Micro(MicroVersion::M3),
            EcLevel::L
        )
        .is_ok()
    );
    assert_eq!(
        encode(
            b"9BA3935DM3TBE45",
            Version::Micro(MicroVersion::M3),
            EcLevel::L
        ),
        Err(Error::DataTooLong)
    );
}

#[test]
fn iso_18004_example() {
    let mut bits = Bits::new(Version::Normal(NormalVersion::V1));
    assert_eq!(bits.push_kanji_data(b"\x93\x5F\xE4\xAA"), Ok(()));
    assert_eq!(
        bits.into_bytes(),
        [
            0b1000_0000,
            0b0010_0110,
            0b1100_1111,
            0b1110_1010,
            0b1010_1000
        ]
    );
}

#[test]
fn kanji_micro_qr_unsupported() {
    let mut bits = Bits::new(Version::Micro(MicroVersion::M2));
    assert_eq!(
        bits.push_kanji_data(b"?"),
        Err(Error::UnsupportedCharacterSet)
    );
}

#[test]
fn kanji_data_too_long() {
    let mut bits = Bits::new(Version::Micro(MicroVersion::M3));
    assert_eq!(
        bits.push_kanji_data(b"\x93_\x93_\x93_\x93_\x93_\x93_\x93_\x93_"),
        Err(Error::DataTooLong)
    );
}

#[test]
fn test_iso_18004_2006_example_1() {
    let mut bits = Bits::new(Version::Normal(NormalVersion::V1));
    assert_eq!(bits.push_numeric_data(b"01234567"), Ok(()));
    assert_eq!(
        bits.into_bytes(),
        [
            0b0001_0000,
            0b0010_0000,
            0b0000_1100,
            0b0101_0110,
            0b0110_0001,
            0b1000_0000
        ]
    );
}

#[test]
fn test_iso_18004_2000_example_2() {
    let mut bits = Bits::new(Version::Normal(NormalVersion::V1));
    assert_eq!(bits.push_numeric_data(b"0123456789012345"), Ok(()));
    assert_eq!(
        bits.into_bytes(),
        [
            0b0001_0000,
            0b0100_0000,
            0b0000_1100,
            0b0101_0110,
            0b0110_1010,
            0b0110_1110,
            0b0001_0100,
            0b1110_1010,
            0b0101_0000,
        ]
    );
}

#[test]
fn test_iso_18004_2006_example_2() {
    let mut bits = Bits::new(Version::Micro(MicroVersion::M3));
    assert_eq!(bits.push_numeric_data(b"0123456789012345"), Ok(()));
    assert_eq!(
        bits.into_bytes(),
        [
            0b0010_0000,
            0b0000_0110,
            0b0010_1011,
            0b0011_0101,
            0b0011_0111,
            0b0000_1010,
            0b0111_0101,
            0b0010_1000,
        ]
    );
}

#[test]
fn test_data_too_long_error() {
    let mut bits = Bits::new(Version::Micro(MicroVersion::M1));
    assert_eq!(bits.push_numeric_data(b"12345678"), Err(Error::DataTooLong));
}

#[test]
fn hello_world() {
    let mut bits = Bits::new(Version::Normal(NormalVersion::V1));
    assert_eq!(bits.push_alphanumeric_data(b"HELLO WORLD"), Ok(()));
    assert_eq!(bits.push_terminator(EcLevel::Q), Ok(()));
    assert_eq!(
        bits.into_bytes(),
        [
            0b0010_0000,
            0b0101_1011,
            0b0000_1011,
            0b0111_1000,
            0b1101_0001,
            0b0111_0010,
            0b1101_1100,
            0b0100_1101,
            0b0100_0011,
            0b0100_0000,
            0b1110_1100,
            0b0001_0001,
            0b1110_1100,
        ]
    );
}

#[test]
fn terminator_too_long() {
    let mut bits = Bits::new(Version::Micro(MicroVersion::M1));
    assert_eq!(bits.push_numeric_data(b"9999999"), Ok(()));
    assert_eq!(bits.push_terminator(EcLevel::L), Err(Error::DataTooLong));
}

#[test]
fn no_terminator() {
    let mut bits = Bits::new(Version::Micro(MicroVersion::M1));
    assert_eq!(bits.push_numeric_data(b"99999"), Ok(()));
    assert_eq!(bits.push_terminator(EcLevel::L), Ok(()));
    assert_eq!(bits.into_bytes(), [0b1011_1111, 0b0011_1110, 0b0011_0000]);
}

#[test]
fn no_padding() {
    let mut bits = Bits::new(Version::Micro(MicroVersion::M1));
    assert_eq!(bits.push_numeric_data(b"9999"), Ok(()));
    assert_eq!(bits.push_terminator(EcLevel::L), Ok(()));
    assert_eq!(bits.into_bytes(), [0b1001_1111, 0b0011_1100, 0b1000_0000]);
}

#[test]
fn micro_version_1_half_byte_padding() {
    let mut bits = Bits::new(Version::Micro(MicroVersion::M1));
    assert_eq!(bits.push_numeric_data(b"999"), Ok(()));
    assert_eq!(bits.push_terminator(EcLevel::L), Ok(()));
    assert_eq!(bits.into_bytes(), [0b0111_1111, 0b0011_1000, 0b0000_0000]);
}

#[test]
fn micro_version_1_full_byte_padding() {
    let mut bits = Bits::new(Version::Micro(MicroVersion::M1));
    assert_eq!(bits.push_numeric_data(b""), Ok(()));
    assert_eq!(bits.push_terminator(EcLevel::L), Ok(()));
    assert_eq!(bits.into_bytes(), [0b0000_0000, 0b1110_1100, 0]);
}
