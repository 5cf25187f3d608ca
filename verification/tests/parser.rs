use qrcode2::optimize::{Parser, Segment};
use qrcode2::types::Mode;

fn parse(data: &[u8]) -> Vec<Segment> {
    Parser::new(data).collect_segments()
}

#[test]
fn test_parse_1() {
    let segs = parse(b"01049123451234591597033130128%10ABC123");
    assert_eq!(
        segs,
        &[
            Segment {
                mode: Mode::Numeric,
                begin: 0,
                end: 29
            },
            Segment {
                mode: Mode::Alphanumeric,
                begin: 29,
                end: 30
            },
            Segment {
                mode: Mode::Numeric,
                begin: 30,
                end: 32
            },
            Segment {
                mode: Mode::Alphanumeric,
                begin: 32,
                end: 35
            },
            Segment {
                mode: Mode::Numeric,
                begin: 35,
                end: 38
            },
        ]
    );
}

#[test]
fn test_parse_shift_jis_example_1() {
    // "あ、AｱÅ"
    let segs = parse(b"\x82\xA0\x81\x41\x41\xB1\x81\xF0");
    assert_eq!(
        segs,
        &[
            Segment {
                mode: Mode::Kanji,
                begin: 0,
                end: 4
            },
            Segment {
                mode: Mode::Alphanumeric,
                begin: 4,
                end: 5
            },
            Segment {
                mode: Mode::Byte,
                begin: 5,
                end: 6
            },
            Segment {
                mode: Mode::Kanji,
                begin: 6,
                end: 8
            },
        ]
    );
}

#[test]
fn test_parse_utf_8() {
    // Mojibake?
    let segs = parse(b"\xE3\x81\x82\xE3\x80\x81A\xEF\xBD\xB1\xE2\x84\xAB");
    assert_eq!(
        segs,
        &[
            Segment {
                mode: Mode::Kanji,
                begin: 0,
                end: 4
            },
            Segment {
                mode: Mode::Byte,
                begin: 4,
                end: 5
            },
            Segment {
                mode: Mode::Kanji,
                begin: 5,
                end: 7
            },
            Segment {
                mode: Mode::Byte,
                begin: 7,
                end: 10
            },
            Segment {
                mode: Mode::Kanji,
                begin: 10,
                end: 12
            },
            Segment {
                mode: Mode::Byte,
                begin: 12,
                end: 13
            },
        ]
    );
}

#[test]
fn test_not_kanji_1() {
    let segs = parse(b"\x81\x30");
    assert_eq!(
        segs,
        &[
            Segment {
                mode: Mode::Byte,
                begin: 0,
                end: 1
            },
            Segment {
                mode: Mode::Numeric,
                begin: 1,
                end: 2
            },
        ]
    );
}

#[test]
fn test_not_kanji_2() {
    // Note that it's implementation detail that the byte seq is split into two.
    // Perhaps adjust the test to check for this.
    let segs = parse(b"\xEB\xC0");
    assert_eq!(
        segs,
        &[
            Segment {
                mode: Mode::Byte,
                begin: 0,
                end: 1
            },
            Segment {
                mode: Mode::Byte,
                begin: 1,
                end: 2
            },
        ]
    );
}

#[test]
fn test_not_kanji_3() {
    let segs = parse(b"\x81\x7F");
    assert_eq!(
        segs,
        &[
            Segment {
                mode: Mode::Byte,
                begin: 0,
                end: 1
            },
            Segment {
                mode: Mode::Byte,
                begin: 1,
                end: 2
            },
        ]
    );
}

#[test]
fn test_not_kanji_4() {
    let segs = parse(b"\x81\x40\x81");
    assert_eq!(
        segs,
        &[
            Segment {
                mode: Mode::Kanji,
                begin: 0,
                end: 2
            },
            Segment {
                mode: Mode::Byte,
                begin: 2,
                end: 3
            },
        ]
    );
}
