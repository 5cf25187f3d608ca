use std::cmp::Ordering;

use qrcode2::types::Mode;
use qrcode2::{EcLevel, Error, MicroVersion, NormalVersion, RectMicroVersion, Version};

#[test]
fn ec_level() {
    assert_eq!(EcLevel::L as u8, 0);
    assert_eq!(EcLevel::M as u8, 1);
    assert_eq!(EcLevel::Q as u8, 2);
    assert_eq!(EcLevel::H as u8, 3);
}

#[test]
fn default_works() {
    assert_eq!(EcLevel::default(), EcLevel::M);
}

#[test]
fn test_default() {
    assert_eq!(EcLevel::default(), EcLevel::M);
}

#[test]
fn mode_order() {
    assert_eq!(
        Mode::Numeric.partial_cmp(&Mode::Numeric).unwrap(),
        Ordering::Equal
    );
    assert_eq!(
        Mode::Alphanumeric.partial_cmp(&Mode::Alphanumeric).unwrap(),
        Ordering::Equal
    );
    assert_eq!(
        Mode::Byte.partial_cmp(&Mode::Byte).unwrap(),
        Ordering::Equal
    );
    assert_eq!(
        Mode::Kanji.partial_cmp(&Mode::Kanji).unwrap(),
        Ordering::Equal
    );

    assert!(Mode::Numeric < Mode::Alphanumeric);
    assert!(Mode::Numeric < Mode::Byte);
    assert!(Mode::Alphanumeric < Mode::Byte);
    assert!(Mode::Kanji < Mode::Byte);

    assert!(Mode::Alphanumeric > Mode::Numeric);
    assert!(Mode::Byte > Mode::Numeric);
    assert!(Mode::Byte > Mode::Alphanumeric);
    assert!(Mode::Byte > Mode::Kanji);

    assert!(Mode::Numeric.partial_cmp(&Mode::Kanji).is_none());
    assert!(Mode::Alphanumeric.partial_cmp(&Mode::Kanji).is_none());
    assert!(Mode::Kanji.partial_cmp(&Mode::Numeric).is_none());
    assert!(Mode::Kanji.partial_cmp(&Mode::Alphanumeric).is_none());
}

#[test]
fn max() {
    assert_eq!(Mode::Byte.max(Mode::Kanji), Mode::Byte);
    assert_eq!(Mode::Numeric.max(Mode::Alphanumeric), Mode::Alphanumeric);
    assert_eq!(
        Mode::Alphanumeric.max(Mode::Alphanumeric),
        Mode::Alphanumeric
    );
    assert_eq!(Mode::Numeric.max(Mode::Kanji), Mode::Byte);
    assert_eq!(Mode::Kanji.max(Mode::Numeric), Mode::Byte);
    assert_eq!(Mode::Alphanumeric.max(Mode::Numeric), Mode::Alphanumeric);
    assert_eq!(Mode::Kanji.max(Mode::Kanji), Mode::Kanji);
}

#[test]
fn width() {
    assert_eq!(Version::Normal(NormalVersion::V1).width(), 21);
    assert_eq!(Version::Normal(NormalVersion::V40).width(), 177);
    assert_eq!(Version::Micro(MicroVersion::M1).width(), 11);
    assert_eq!(Version::Micro(MicroVersion::M4).width(), 17);
    assert_eq!(Version::RectMicro(RectMicroVersion::R7x43).width(), 43);
    assert_eq!(Version::RectMicro(RectMicroVersion::R11x27).width(), 27);
    assert_eq!(Version::RectMicro(RectMicroVersion::R17x139).width(), 139);
}

#[test]
fn height() {
    assert_eq!(Version::Normal(NormalVersion::V1).height(), 21);
    assert_eq!(Version::Normal(NormalVersion::V40).height(), 177);
    assert_eq!(Version::Micro(MicroVersion::M1).height(), 11);
    assert_eq!(Version::Micro(MicroVersion::M4).height(), 17);
    assert_eq!(Version::RectMicro(RectMicroVersion::R7x43).height(), 7);
    assert_eq!(Version::RectMicro(RectMicroVersion::R11x27).height(), 11);
    assert_eq!(Version::RectMicro(RectMicroVersion::R17x139).height(), 17);
}

#[test]
fn mode_bits_count() {
    assert_eq!(Version::Normal(NormalVersion::V1).mode_bits_count(), 4);
    for version in MicroVersion::ALL {
        assert_eq!(
            Version::Micro(version).mode_bits_count(),
            (u8::from(version) - 1).into()
        );
    }
    assert_eq!(
        Version::RectMicro(RectMicroVersion::R7x43).mode_bits_count(),
        3
    );
}

#[test]
fn is_normal() {
    let all_versions = [
        NormalVersion::V1,
        NormalVersion::V2,
        NormalVersion::V3,
        NormalVersion::V4,
        NormalVersion::V5,
        NormalVersion::V6,
        NormalVersion::V7,
        NormalVersion::V8,
        NormalVersion::V9,
        NormalVersion::V10,
        NormalVersion::V11,
        NormalVersion::V12,
        NormalVersion::V13,
        NormalVersion::V14,
        NormalVersion::V15,
        NormalVersion::V16,
        NormalVersion::V17,
        NormalVersion::V18,
        NormalVersion::V19,
        NormalVersion::V20,
        NormalVersion::V21,
        NormalVersion::V22,
        NormalVersion::V23,
        NormalVersion::V24,
        NormalVersion::V25,
        NormalVersion::V26,
        NormalVersion::V27,
        NormalVersion::V28,
        NormalVersion::V29,
        NormalVersion::V30,
        NormalVersion::V31,
        NormalVersion::V32,
        NormalVersion::V33,
        NormalVersion::V34,
        NormalVersion::V35,
        NormalVersion::V36,
        NormalVersion::V37,
        NormalVersion::V38,
        NormalVersion::V39,
        NormalVersion::V40,
    ];
    for version in all_versions {
        assert!(Version::Normal(version).is_normal());
    }

    assert!(!Version::Micro(MicroVersion::M1).is_normal());
    assert!(!Version::RectMicro(RectMicroVersion::R7x43).is_normal());
}

#[test]
fn is_micro() {
    for version in MicroVersion::ALL {
        assert!(Version::Micro(version).is_micro());
    }

    assert!(!Version::Normal(NormalVersion::V1).is_micro());
    assert!(!Version::RectMicro(RectMicroVersion::R7x43).is_micro());
}

#[test]
fn is_rect_micro() {
    for version in RectMicroVersion::ALL {
        assert!(Version::RectMicro(version).is_rect_micro());
    }

    assert!(!Version::Normal(NormalVersion::V1).is_rect_micro());
    assert!(!Version::Micro(MicroVersion::M1).is_rect_micro());
}

#[test]
fn from_micro_version_to_u8() {
    assert_eq!(u8::from(MicroVersion::M1), 1);
    assert_eq!(u8::from(MicroVersion::M2), 2);
    assert_eq!(u8::from(MicroVersion::M3), 3);
    assert_eq!(u8::from(MicroVersion::M4), 4);
}

#[test]
fn try_from_u8_to_micro_version() {
    assert_eq!(MicroVersion::try_from(1).unwrap(), MicroVersion::M1);
    assert_eq!(MicroVersion::try_from(2).unwrap(), MicroVersion::M2);
    assert_eq!(MicroVersion::try_from(3).unwrap(), MicroVersion::M3);
    assert_eq!(MicroVersion::try_from(4).unwrap(), MicroVersion::M4);
}

#[test]
fn try_from_u8_to_micro_version_with_invalid_version() {
    assert_eq!(
        MicroVersion::try_from(0).unwrap_err(),
        Error::InvalidVersion
    );
    assert_eq!(
        MicroVersion::try_from(5).unwrap_err(),
        Error::InvalidVersion
    );
    assert_eq!(
        MicroVersion::try_from(u8::MAX).unwrap_err(),
        Error::InvalidVersion
    );
}

#[test]
fn from_rect_micro_version_to_u8_tuple() {
    assert_eq!(<(u8, u8)>::from(RectMicroVersion::R7x43), (7, 43));
    assert_eq!(<(u8, u8)>::from(RectMicroVersion::R7x59), (7, 59));
    assert_eq!(<(u8, u8)>::from(RectMicroVersion::R7x77), (7, 77));
    assert_eq!(<(u8, u8)>::from(RectMicroVersion::R7x99), (7, 99));
    assert_eq!(<(u8, u8)>::from(RectMicroVersion::R7x139), (7, 139));
    assert_eq!(<(u8, u8)>::from(RectMicroVersion::R9x43), (9, 43));
    assert_eq!(<(u8, u8)>::from(RectMicroVersion::R9x59), (9, 59));
    assert_eq!(<(u8, u8)>::from(RectMicroVersion::R9x77), (9, 77));
    assert_eq!(<(u8, u8)>::from(RectMicroVersion::R9x99), (9, 99));
    assert_eq!(<(u8, u8)>::from(RectMicroVersion::R9x139), (9, 139));
    assert_eq!(<(u8, u8)>::from(RectMicroVersion::R11x27), (11, 27));
    assert_eq!(<(u8, u8)>::from(RectMicroVersion::R11x43), (11, 43));
    assert_eq!(<(u8, u8)>::from(RectMicroVersion::R11x59), (11, 59));
    assert_eq!(<(u8, u8)>::from(RectMicroVersion::R11x77), (11, 77));
    assert_eq!(<(u8, u8)>::from(RectMicroVersion::R11x99), (11, 99));
    assert_eq!(<(u8, u8)>::from(RectMicroVersion::R11x139), (11, 139));
    assert_eq!(<(u8, u8)>::from(RectMicroVersion::R13x27), (13, 27));
    assert_eq!(<(u8, u8)>::from(RectMicroVersion::R13x43), (13, 43));
    assert_eq!(<(u8, u8)>::from(RectMicroVersion::R13x59), (13, 59));
    assert_eq!(<(u8, u8)>::from(RectMicroVersion::R13x77), (13, 77));
    assert_eq!(<(u8, u8)>::from(RectMicroVersion::R13x99), (13, 99));
    assert_eq!(<(u8, u8)>::from(RectMicroVersion::R13x139), (13, 139));
    assert_eq!(<(u8, u8)>::from(RectMicroVersion::R15x43), (15, 43));
    assert_eq!(<(u8, u8)>::from(RectMicroVersion::R15x59), (15, 59));
    assert_eq!(<(u8, u8)>::from(RectMicroVersion::R15x77), (15, 77));
    assert_eq!(<(u8, u8)>::from(RectMicroVersion::R15x99), (15, 99));
    assert_eq!(<(u8, u8)>::from(RectMicroVersion::R15x139), (15, 139));
    assert_eq!(<(u8, u8)>::from(RectMicroVersion::R17x43), (17, 43));
    assert_eq!(<(u8, u8)>::from(RectMicroVersion::R17x59), (17, 59));
    assert_eq!(<(u8, u8)>::from(RectMicroVersion::R17x77), (17, 77));
    assert_eq!(<(u8, u8)>::from(RectMicroVersion::R17x99), (17, 99));
    assert_eq!(<(u8, u8)>::from(RectMicroVersion::R17x139), (17, 139));
}

#[test]
fn try_from_u8_tuple_to_rect_micro_version_with_invalid_version() {
    assert_eq!(
        RectMicroVersion::try_from((0, 0)).unwrap_err(),
        Error::InvalidVersion
    );
    assert_eq!(
        RectMicroVersion::try_from((7, 42)).unwrap_err(),
        Error::InvalidVersion
    );
}

#[test]
fn try_from_u8_tuple_to_rect_micro_version() {
    assert_eq!(
        RectMicroVersion::try_from((7, 43)).unwrap(),
        RectMicroVersion::R7x43
    );
    assert_eq!(
        RectMicroVersion::try_from((7, 59)).unwrap(),
        RectMicroVersion::R7x59
    );
    assert_eq!(
        RectMicroVersion::try_from((7, 77)).unwrap(),
        RectMicroVersion::R7x77
    );
    assert_eq!(
        RectMicroVersion::try_from((7, 99)).unwrap(),
        RectMicroVersion::R7x99
    );
    assert_eq!(
        RectMicroVersion::try_from((7, 139)).unwrap(),
        RectMicroVersion::R7x139
    );
    assert_eq!(
        RectMicroVersion::try_from((9, 43)).unwrap(),
        RectMicroVersion::R9x43
    );
    assert_eq!(
        RectMicroVersion::try_from((9, 59)).unwrap(),
        RectMicroVersion::R9x59
    );
    assert_eq!(
        RectMicroVersion::try_from((9, 77)).unwrap(),
        RectMicroVersion::R9x77
    );
    assert_eq!(
        RectMicroVersion::try_from((9, 99)).unwrap(),
        RectMicroVersion::R9x99
    );
    assert_eq!(
        RectMicroVersion::try_from((9, 139)).unwrap(),
        RectMicroVersion::R9x139
    );
    assert_eq!(
        RectMicroVersion::try_from((11, 27)).unwrap(),
        RectMicroVersion::R11x27
    );
    assert_eq!(
        RectMicroVersion::try_from((11, 43)).unwrap(),
        RectMicroVersion::R11x43
    );
    assert_eq!(
        RectMicroVersion::try_from((11, 59)).unwrap(),
        RectMicroVersion::R11x59
    );
    assert_eq!(
        RectMicroVersion::try_from((11, 77)).unwrap(),
        RectMicroVersion::R11x77
    );
    assert_eq!(
        RectMicroVersion::try_from((11, 99)).unwrap(),
        RectMicroVersion::R11x99
    );
    assert_eq!(
        RectMicroVersion::try_from((11, 139)).unwrap(),
        RectMicroVersion::R11x139
    );
    assert_eq!(
        RectMicroVersion::try_from((13, 27)).unwrap(),
        RectMicroVersion::R13x27
    );
    assert_eq!(
        RectMicroVersion::try_from((13, 43)).unwrap(),
        RectMicroVersion::R13x43
    );
    assert_eq!(
        RectMicroVersion::try_from((13, 59)).unwrap(),
        RectMicroVersion::R13x59
    );
    assert_eq!(
        RectMicroVersion::try_from((13, 77)).unwrap(),
        RectMicroVersion::R13x77
    );
    assert_eq!(
        RectMicroVersion::try_from((13, 99)).unwrap(),
        RectMicroVersion::R13x99
    );
    assert_eq!(
        RectMicroVersion::try_from((13, 139)).unwrap(),
        RectMicroVersion::R13x139
    );
    assert_eq!(
        RectMicroVersion::try_from((15, 43)).unwrap(),
        RectMicroVersion::R15x43
    );
    assert_eq!(
        RectMicroVersion::try_from((15, 59)).unwrap(),
        RectMicroVersion::R15x59
    );
    assert_eq!(
        RectMicroVersion::try_from((15, 77)).unwrap(),
        RectMicroVersion::R15x77
    );
    assert_eq!(
        RectMicroVersion::try_from((15, 99)).unwrap(),
        RectMicroVersion::R15x99
    );
    assert_eq!(
        RectMicroVersion::try_from((15, 139)).unwrap(),
        RectMicroVersion::R15x139
    );
    assert_eq!(
        RectMicroVersion::try_from((17, 43)).unwrap(),
        RectMicroVersion::R17x43
    );
    assert_eq!(
        RectMicroVersion::try_from((17, 59)).unwrap(),
        RectMicroVersion::R17x59
    );
    assert_eq!(
        RectMicroVersion::try_from((17, 77)).unwrap(),
        RectMicroVersion::R17x77
    );
    assert_eq!(
        RectMicroVersion::try_from((17, 99)).unwrap(),
        RectMicroVersion::R17x99
    );
    assert_eq!(
        RectMicroVersion::try_from((17, 139)).unwrap(),
        RectMicroVersion::R17x139
    );
}
