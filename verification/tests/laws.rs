use qrcode2::bits::{Bits, RectMicroStrategy, encode_auto_rect_micro};
use qrcode2::canvas::{Canvas, MaskPattern, is_functional};
use qrcode2::cast::Truncate;
use qrcode2::types::Mode;
use qrcode2::ec::max_allowed_errors;
use qrcode2::{Color, EcLevel, Error, MicroVersion, NormalVersion, RectMicroVersion, Version};

#[test]
fn masking_twice_is_masking_once() {
    let version = Version::Normal(NormalVersion::V1);
    let mut once = Canvas::new(version, EcLevel::M);
    once.put(3, 3, Color::Dark);
    once.apply_mask(MaskPattern::Diamonds);
    let mut twice = Canvas::new(version, EcLevel::M);
    twice.put(3, 3, Color::Dark);
    twice.apply_mask(MaskPattern::Diamonds);
    twice.apply_mask(MaskPattern::Checkerboard);
    // The masked modules stay as they are; only the format information,
    // which names the pattern, is drawn again (on row 8 and column 8).
    let mut differing = 0;
    for x in 0_i16..21 {
        for y in 0_i16..21 {
            if once.get(x, y) != twice.get(x, y) {
                differing += 1;
                assert!(x == 8 || y == 8, "({x}, {y})");
            }
        }
    }
    assert!(differing > 0);
}

#[test]
fn masking_same_pattern_twice_changes_nothing() {
    let version = Version::Micro(MicroVersion::M3);
    let mut once = Canvas::new(version, EcLevel::L);
    once.put(-1, -1, Color::Dark);
    once.apply_mask(MaskPattern::Meadow);
    let mut twice = Canvas::new(version, EcLevel::L);
    twice.put(-1, -1, Color::Dark);
    twice.apply_mask(MaskPattern::Meadow);
    twice.apply_mask(MaskPattern::Meadow);
    assert_eq!(once.to_debug_str(), twice.to_debug_str());
}

#[test]
fn inverting_twice_gives_the_color_back() {
    for c in [Color::Dark, Color::Light] {
        assert_eq!(!!c, c);
        assert_ne!(!c, c);
    }
}

#[test]
fn error_messages() {
    assert_eq!(Error::DataTooLong.message(), "data too long");
    assert_eq!(Error::InvalidVersion.message(), "invalid version");
    assert_eq!(
        Error::UnsupportedCharacterSet.message(),
        "unsupported character set"
    );
    assert_eq!(Error::InvalidEciDesignator.message(), "invalid ECI designator");
    assert_eq!(Error::InvalidCharacter.message(), "invalid character");
}

#[test]
fn truncation_keeps_low_byte() {
    assert_eq!(0x1234_u16.truncate_as_u8(), 0x34);
    assert_eq!(0x00ff_u16.truncate_as_u8(), 0xff);
    assert_eq!(0x0100_u16.truncate_as_u8(), 0);
}

#[test]
fn kanji_odd_length_is_invalid() {
    let mut bits = Bits::new(Version::Normal(NormalVersion::V1));
    assert_eq!(
        bits.push_kanji_data(&[0x93, 0x5f, 0xe4]),
        Err(Error::InvalidCharacter)
    );
}

#[test]
fn max_allowed_errors_of_missing_level() {
    assert_eq!(
        max_allowed_errors(Version::Micro(MicroVersion::M1), EcLevel::H),
        Err(Error::InvalidVersion)
    );
    assert_eq!(
        max_allowed_errors(Version::Micro(MicroVersion::M4), EcLevel::H),
        Err(Error::InvalidVersion)
    );
}

#[test]
fn pushing_zero_bits_pushes_nothing() {
    let mut bits = Bits::new(Version::Normal(NormalVersion::V1));
    assert_eq!(bits.push_number_checked(0, 0), Ok(()));
    assert_eq!(bits.len(), 0);
    assert_eq!(bits.push_number_checked(8, 0xAB), Ok(()));
    assert_eq!(bits.push_number_checked(0, 0), Ok(()));
    assert_eq!(bits.len(), 8);
    assert_eq!(bits.into_bytes(), vec![0xAB]);
}

#[test]
fn fetch_rejects_default_entry_for_every_version() {
    let table = [[0_usize, 5, 6, 7]];
    assert_eq!(
        Version::Normal(NormalVersion::V1).fetch(EcLevel::L, &table),
        Err(Error::InvalidVersion)
    );
    assert_eq!(Version::Normal(NormalVersion::V1).fetch(EcLevel::M, &table), Ok(5));
}

#[test]
fn auto_micro_picks_smallest_version_that_encodes() {
    // M1 holds only digits: one letter needs M2.
    let bits = qrcode2::bits::encode_auto_micro(b"A", EcLevel::L).unwrap();
    assert_eq!(bits.version(), Version::Micro(MicroVersion::M2));
    let bits = qrcode2::bits::encode_auto_micro(b"1", EcLevel::L).unwrap();
    assert_eq!(bits.version(), Version::Micro(MicroVersion::M1));
}

#[test]
fn is_functional_accepts_every_coordinate() {
    let version = Version::Normal(NormalVersion::V7);
    let width = i16::from(version.width());
    // Far negative coordinates wrap to far negative ones: the top-left test
    // holds for them.
    assert!(is_functional(version, width, i16::MIN, i16::MIN));
    assert!(!is_functional(version, width, i16::MAX, i16::MAX));
    assert!(is_functional(version, width, -1, 0));
}

fn first_normal_version_that_encodes(data: &[u8], ec_level: EcLevel) -> Option<Version> {
    for v in NormalVersion::ALL {
        let version = Version::Normal(v);
        let mut bits = Bits::new(version);
        if bits.push_optimal_data(data).is_ok() && bits.push_terminator(ec_level).is_ok() {
            return Some(version);
        }
    }
    None
}

#[test]
fn auto_normal_picks_smallest_fitting_version() {
    let long: Vec<u8> = (0..200u8).map(|i| b'A' + i % 26).collect();
    let samples: [&[u8]; 4] = [b"01234567", b"HELLO WORLD", b"Hello, world!", &long];
    for data in samples {
        for ec in [EcLevel::L, EcLevel::M, EcLevel::Q, EcLevel::H] {
            let bits = qrcode2::bits::encode_auto(data, ec).unwrap();
            assert_eq!(Some(bits.version()), first_normal_version_that_encodes(data, ec));
        }
    }
}

#[test]
fn rect_micro_size_round_trip() {
    for r in qrcode2::RectMicroVersion::ALL {
        let size: (u8, u8) = r.into();
        assert_eq!(qrcode2::RectMicroVersion::try_from(size), Ok(r));
    }
}

#[test]
fn length_bits_grow_with_version() {
    for mode in [Mode::Numeric, Mode::Alphanumeric, Mode::Byte, Mode::Kanji] {
        let mut last = 0;
        for v in NormalVersion::ALL {
            let n = mode.length_bits_count(Version::Normal(v));
            assert!(n >= last);
            last = n;
        }
    }
}

#[test]
fn auto_rect_micro_picks_least_key() {
    let samples: [&[u8]; 3] = [b"0123456", b"HELLO WORLD", b"Hello, world! 0123456789"];
    for data in samples {
        for ec in [EcLevel::M, EcLevel::H] {
            let fitting: Vec<RectMicroVersion> = RectMicroVersion::ALL
                .into_iter()
                .filter(|r| {
                    let mut bits = Bits::new(Version::RectMicro(*r));
                    bits.push_optimal_data(data).is_ok() && bits.push_terminator(ec).is_ok()
                })
                .collect();
            for strategy in [
                RectMicroStrategy::Width,
                RectMicroStrategy::Height,
                RectMicroStrategy::Area,
            ] {
                let key = |r: &RectMicroVersion| {
                    let (h, w) = (r.height() as u32, r.width() as u32);
                    let k = match strategy {
                        RectMicroStrategy::Width => w,
                        RectMicroStrategy::Height => h,
                        RectMicroStrategy::Area => h * w,
                    };
                    (k, h, w)
                };
                let best = fitting.iter().min_by_key(|r| key(r)).copied();
                let got = encode_auto_rect_micro(data, ec, strategy).map(|b| b.version());
                assert_eq!(got.ok(), best.map(Version::RectMicro));
            }
        }
    }
}
