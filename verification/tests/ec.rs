use qrcode2::ec::{construct_codewords, create_error_correction_code, interleave, max_allowed_errors};
use qrcode2::{EcLevel, MicroVersion, NormalVersion, RectMicroVersion, Version};

#[test]
fn test_poly_mod_1() {
    let res = create_error_correction_code(b" [\x0Bx\xD1r\xDCMC@\xEC\x11\xEC\x11\xEC\x11", 10);
    assert_eq!(res, b"\xC4#'w\xEB\xD7\xE7\xE2]\x17");
}

#[test]
fn test_poly_mod_2() {
    let res = create_error_correction_code(b" [\x0Bx\xD1r\xDCMC@\xEC\x11\xEC", 13);
    assert_eq!(res, b"\xA8H\x16R\xD96\x9C\x00.\x0F\xB4z\x10");
}

#[test]
fn test_poly_mod_3() {
    let res = create_error_correction_code(b"CUF\x86W&U\xC2w2\x06\x12\x06g&", 18);
    assert_eq!(res, b"\xD5\xC7\x0B-s\xF7\xF1\xDF\xE5\xF8\x9Au\x9AoV\xA1o'");
}

#[test]
fn test_interleave() {
    let res = interleave(&[b"1234".to_vec(), b"5678".to_vec(), b"abcdef".to_vec(), b"ghijkl".to_vec()]);
    assert_eq!(res, b"15ag26bh37ci48djekfl");
}

#[test]
fn test_low_versions() {
    assert_eq!(
        max_allowed_errors(Version::Normal(NormalVersion::V1), EcLevel::L).unwrap(),
        2
    );
    assert_eq!(
        max_allowed_errors(Version::Normal(NormalVersion::V1), EcLevel::M).unwrap(),
        4
    );
    assert_eq!(
        max_allowed_errors(Version::Normal(NormalVersion::V1), EcLevel::Q).unwrap(),
        6
    );
    assert_eq!(
        max_allowed_errors(Version::Normal(NormalVersion::V1), EcLevel::H).unwrap(),
        8
    );

    assert_eq!(
        max_allowed_errors(Version::Normal(NormalVersion::V2), EcLevel::L).unwrap(),
        4
    );
    assert_eq!(
        max_allowed_errors(Version::Normal(NormalVersion::V2), EcLevel::M).unwrap(),
        8
    );
    assert_eq!(
        max_allowed_errors(Version::Normal(NormalVersion::V2), EcLevel::Q).unwrap(),
        11
    );
    assert_eq!(
        max_allowed_errors(Version::Normal(NormalVersion::V2), EcLevel::H).unwrap(),
        14
    );

    assert_eq!(
        max_allowed_errors(Version::Normal(NormalVersion::V3), EcLevel::L).unwrap(),
        7
    );
    assert_eq!(
        max_allowed_errors(Version::Normal(NormalVersion::V3), EcLevel::M).unwrap(),
        13
    );
    assert_eq!(
        max_allowed_errors(Version::Normal(NormalVersion::V3), EcLevel::Q).unwrap(),
        18
    );
    assert_eq!(
        max_allowed_errors(Version::Normal(NormalVersion::V3), EcLevel::H).unwrap(),
        22
    );

    assert_eq!(
        max_allowed_errors(Version::Normal(NormalVersion::V4), EcLevel::L).unwrap(),
        10
    );
    assert_eq!(
        max_allowed_errors(Version::Normal(NormalVersion::V4), EcLevel::M).unwrap(),
        18
    );
    assert_eq!(
        max_allowed_errors(Version::Normal(NormalVersion::V4), EcLevel::Q).unwrap(),
        26
    );
    assert_eq!(
        max_allowed_errors(Version::Normal(NormalVersion::V4), EcLevel::H).unwrap(),
        32
    );

    assert_eq!(
        max_allowed_errors(Version::Micro(MicroVersion::M1), EcLevel::L).unwrap(),
        0
    );

    assert_eq!(
        max_allowed_errors(Version::Micro(MicroVersion::M2), EcLevel::L).unwrap(),
        1
    );
    assert_eq!(
        max_allowed_errors(Version::Micro(MicroVersion::M2), EcLevel::M).unwrap(),
        2
    );

    assert_eq!(
        max_allowed_errors(Version::Micro(MicroVersion::M3), EcLevel::L).unwrap(),
        2
    );
    assert_eq!(
        max_allowed_errors(Version::Micro(MicroVersion::M3), EcLevel::M).unwrap(),
        4
    );

    assert_eq!(
        max_allowed_errors(Version::Micro(MicroVersion::M4), EcLevel::L).unwrap(),
        3
    );
    assert_eq!(
        max_allowed_errors(Version::Micro(MicroVersion::M4), EcLevel::M).unwrap(),
        5
    );
    assert_eq!(
        max_allowed_errors(Version::Micro(MicroVersion::M4), EcLevel::Q).unwrap(),
        7
    );

    assert_eq!(
        max_allowed_errors(Version::RectMicro(RectMicroVersion::R7x43), EcLevel::M).unwrap(),
        3
    );
    assert_eq!(
        max_allowed_errors(Version::RectMicro(RectMicroVersion::R7x43), EcLevel::H).unwrap(),
        5
    );

    assert_eq!(
        max_allowed_errors(Version::RectMicro(RectMicroVersion::R7x59), EcLevel::M).unwrap(),
        4
    );
    assert_eq!(
        max_allowed_errors(Version::RectMicro(RectMicroVersion::R7x59), EcLevel::H).unwrap(),
        7
    );

    assert_eq!(
        max_allowed_errors(Version::RectMicro(RectMicroVersion::R7x77), EcLevel::M).unwrap(),
        6
    );
    assert_eq!(
        max_allowed_errors(Version::RectMicro(RectMicroVersion::R7x77), EcLevel::H).unwrap(),
        11
    );

    assert_eq!(
        max_allowed_errors(Version::RectMicro(RectMicroVersion::R7x99), EcLevel::M).unwrap(),
        8
    );
    assert_eq!(
        max_allowed_errors(Version::RectMicro(RectMicroVersion::R7x99), EcLevel::H).unwrap(),
        15
    );
}

#[test]
fn test_high_versions() {
    assert_eq!(
        max_allowed_errors(Version::Normal(NormalVersion::V40), EcLevel::L).unwrap(),
        375
    );
    assert_eq!(
        max_allowed_errors(Version::Normal(NormalVersion::V40), EcLevel::M).unwrap(),
        686
    );
    assert_eq!(
        max_allowed_errors(Version::Normal(NormalVersion::V40), EcLevel::Q).unwrap(),
        1020
    );
    assert_eq!(
        max_allowed_errors(Version::Normal(NormalVersion::V40), EcLevel::H).unwrap(),
        1215
    );

    assert_eq!(
        max_allowed_errors(Version::RectMicro(RectMicroVersion::R17x139), EcLevel::M).unwrap(),
        40
    );
    assert_eq!(
        max_allowed_errors(Version::RectMicro(RectMicroVersion::R17x139), EcLevel::H).unwrap(),
        78
    );
}

#[test]
fn construct_codewords_single_block() {
    let data = [
        0x10, 0x20, 0x0C, 0x56, 0x61, 0x80, 0xEC, 0x11, 0xEC, 0x11, 0xEC, 0x11, 0xEC, 0x11, 0xEC,
        0x11,
    ];
    let (d, e) =
        construct_codewords(&data, Version::Normal(NormalVersion::V1), EcLevel::M).unwrap();
    assert_eq!(d, data.to_vec());
    assert_eq!(e, create_error_correction_code(&data, 10));
    assert_eq!(
        e,
        vec![0xA5, 0x24, 0xD4, 0xC1, 0xED, 0x36, 0xC7, 0x87, 0x2C, 0x55]
    );
}

#[test]
fn construct_codewords_interleaves_blocks() {
    // Version 5-Q: 2 blocks of 15 data bytes, then 2 of 16; 18 EC bytes each.
    let data: Vec<u8> = (0..62).collect();
    let (d, e) =
        construct_codewords(&data, Version::Normal(NormalVersion::V5), EcLevel::Q).unwrap();
    let blocks: Vec<&[u8]> = vec![&data[0..15], &data[15..30], &data[30..46], &data[46..62]];
    let mut expected_data = Vec::new();
    for i in 0..16 {
        for b in &blocks {
            if i < b.len() {
                expected_data.push(b[i]);
            }
        }
    }
    assert_eq!(d, expected_data);
    let codes: Vec<Vec<u8>> = blocks
        .iter()
        .map(|b| create_error_correction_code(b, 18))
        .collect();
    let mut expected_ec = Vec::new();
    for i in 0..18 {
        for c in &codes {
            expected_ec.push(c[i]);
        }
    }
    assert_eq!(e, expected_ec);
}

#[test]
fn construct_codewords_unsupported_level() {
    assert_eq!(
        construct_codewords(&[0, 0, 0], Version::Micro(MicroVersion::M1), EcLevel::M),
        Err(qrcode2::Error::InvalidVersion)
    );
}

#[test]
fn error_correction_of_zeros_is_zero() {
    for n in [7, 10, 30] {
        assert_eq!(create_error_correction_code(&[0; 19], n), vec![0; n]);
    }
}
