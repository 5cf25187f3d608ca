use qrcode2::optimize::{Optimizer, Parser, Segment, optimize, total_encoded_len};
use qrcode2::types::Mode;
use qrcode2::{MicroVersion, NormalVersion, RectMicroVersion, Version};

fn optimization_result(given: &[Segment], expected: &[Segment], version: Version) {
    let prev_len = total_encoded_len(given, version);
    let opt_segs = Optimizer::new(given.to_vec(), version).collect_segments();
    let new_len = total_encoded_len(&opt_segs, version);
    if given != opt_segs {
        assert!(prev_len > new_len, "{prev_len} > {new_len}");
    }
    assert!(
        opt_segs == expected,
        "Optimization gave something better: {new_len} < {} ({opt_segs:?})",
        total_encoded_len(expected, version)
    );
}

#[test]
fn example_1() {
    optimization_result(
        &[
            Segment {
                mode: Mode::Alphanumeric,
                begin: 0,
                end: 3,
            },
            Segment {
                mode: Mode::Numeric,
                begin: 3,
                end: 6,
            },
            Segment {
                mode: Mode::Byte,
                begin: 6,
                end: 10,
            },
        ],
        &[
            Segment {
                mode: Mode::Alphanumeric,
                begin: 0,
                end: 6,
            },
            Segment {
                mode: Mode::Byte,
                begin: 6,
                end: 10,
            },
        ],
        Version::Normal(NormalVersion::V1),
    );
}

#[test]
fn example_2() {
    optimization_result(
        &[
            Segment {
                mode: Mode::Numeric,
                begin: 0,
                end: 29,
            },
            Segment {
                mode: Mode::Alphanumeric,
                begin: 29,
                end: 30,
            },
            Segment {
                mode: Mode::Numeric,
                begin: 30,
                end: 32,
            },
            Segment {
                mode: Mode::Alphanumeric,
                begin: 32,
                end: 35,
            },
            Segment {
                mode: Mode::Numeric,
                begin: 35,
                end: 38,
            },
        ],
        &[
            Segment {
                mode: Mode::Numeric,
                begin: 0,
                end: 29,
            },
            Segment {
                mode: Mode::Alphanumeric,
                begin: 29,
                end: 38,
            },
        ],
        Version::Normal(NormalVersion::V9),
    );
}

#[test]
fn example_3() {
    optimization_result(
        &[
            Segment {
                mode: Mode::Kanji,
                begin: 0,
                end: 4,
            },
            Segment {
                mode: Mode::Alphanumeric,
                begin: 4,
                end: 5,
            },
            Segment {
                mode: Mode::Byte,
                begin: 5,
                end: 6,
            },
            Segment {
                mode: Mode::Kanji,
                begin: 6,
                end: 8,
            },
        ],
        &[Segment {
            mode: Mode::Byte,
            begin: 0,
            end: 8,
        }],
        Version::Normal(NormalVersion::V1),
    );
}

#[test]
fn example_4() {
    optimization_result(
        &[
            Segment {
                mode: Mode::Kanji,
                begin: 0,
                end: 10,
            },
            Segment {
                mode: Mode::Byte,
                begin: 10,
                end: 11,
            },
        ],
        &[
            Segment {
                mode: Mode::Kanji,
                begin: 0,
                end: 10,
            },
            Segment {
                mode: Mode::Byte,
                begin: 10,
                end: 11,
            },
        ],
        Version::Normal(NormalVersion::V1),
    );
}

#[test]
fn example_5() {
    optimization_result(
        &[
            Segment {
                mode: Mode::Kanji,
                begin: 0,
                end: 10,
            },
            Segment {
                mode: Mode::Byte,
                begin: 10,
                end: 11,
            },
        ],
        &[
            Segment {
                mode: Mode::Kanji,
                begin: 0,
                end: 10,
            },
            Segment {
                mode: Mode::Byte,
                begin: 10,
                end: 11,
            },
        ],
        Version::RectMicro(RectMicroVersion::R17x139),
    );
}

#[test]
fn annex_j_guideline_1a() {
    optimization_result(
        &[
            Segment {
                mode: Mode::Numeric,
                begin: 0,
                end: 3,
            },
            Segment {
                mode: Mode::Alphanumeric,
                begin: 3,
                end: 4,
            },
        ],
        &[
            Segment {
                mode: Mode::Numeric,
                begin: 0,
                end: 3,
            },
            Segment {
                mode: Mode::Alphanumeric,
                begin: 3,
                end: 4,
            },
        ],
        Version::Micro(MicroVersion::M2),
    );
}

#[test]
fn annex_j_guideline_1b() {
    optimization_result(
        &[
            Segment {
                mode: Mode::Numeric,
                begin: 0,
                end: 2,
            },
            Segment {
                mode: Mode::Alphanumeric,
                begin: 2,
                end: 4,
            },
        ],
        &[Segment {
            mode: Mode::Alphanumeric,
            begin: 0,
            end: 4,
        }],
        Version::Micro(MicroVersion::M2),
    );
}

#[test]
fn annex_j_guideline_1c() {
    optimization_result(
        &[
            Segment {
                mode: Mode::Numeric,
                begin: 0,
                end: 3,
            },
            Segment {
                mode: Mode::Alphanumeric,
                begin: 3,
                end: 4,
            },
        ],
        &[Segment {
            mode: Mode::Alphanumeric,
            begin: 0,
            end: 4,
        }],
        Version::Micro(MicroVersion::M3),
    );
}

// Regression: the greedy optimizer can split a mixed numeric/alphanumeric
// payload into segments whose combined header overhead exceeds the symbol
// capacity, even though a single alphanumeric segment fits. The optimal
// segmentation must keep it as one segment. "9BA3935DM3TBE4" is 14
// QR-alphanumeric characters: greedy yields 89 bits (> M3-L's 84), one
// segment yields 83.
#[test]
fn single_mode_baseline_micro_qr() {
    let data = b"9BA3935DM3TBE4";
    let version = Version::Micro(MicroVersion::M3);

    // Greedy alone overruns the M3-L 84-bit capacity.
    let greedy = Optimizer::new(Parser::new(data).collect_segments(), version).collect_segments();
    assert!(total_encoded_len(&greedy, version) > 84);

    // The optimal segmentation collapses to a single alphanumeric segment.
    let opt = optimize(data, version);
    assert_eq!(
        opt,
        [Segment {
            mode: Mode::Alphanumeric,
            begin: 0,
            end: 14,
        }]
    );
    assert!(total_encoded_len(&opt, version) <= 84);
}

/// Independent reference: the minimum encoded length over *every* way to
/// partition the parsed runs into contiguous single-mode segments, found by
/// exhaustive enumeration (each segment uses the lowest common mode of its
/// runs). Exponential in the run count, so only for small test inputs.
fn brute_force_min(segments: &[Segment], version: Version) -> usize {
    let runs = segments.len();
    if runs == 0 {
        return 0;
    }
    let mut best = usize::MAX;
    // Bit `i` set => a segment boundary after run `i` (run `runs - 1`
    // always ends a segment).
    for mask in 0..(1u32 << (runs - 1)) {
        let mut total = 0;
        let mut start = 0;
        for i in 0..runs {
            let boundary = i == runs - 1 || (mask >> i) & 1 == 1;
            if boundary {
                let mut mode = segments[start].mode;
                for run in &segments[start..=i] {
                    mode = mode.max(run.mode);
                }
                total += Segment {
                    mode,
                    begin: segments[start].begin,
                    end: segments[i].end,
                }
                .encoded_len(version);
                start = i + 1;
            }
        }
        best = best.min(total);
    }
    best
}

// The DP must equal the exhaustive optimum, and (since greedy and the
// single-mode encoding are both candidate segmentations) never exceed
// either of them.
#[test]
fn dp_is_optimal() {
    const INPUTS: &[&[u8]] = &[
        b"9BA3935DM3TBE4",
        b"A1B2C3D4E5F6G7",
        b"HELLO123WORLD456",
        b"1234ABCD5678EF",
        b"AB000000000000000000CD",
        b"a1B2c3d4",
        b"foo BAR 123 baz 456",
    ];
    for &data in INPUTS {
        for version in [Version::Normal(NormalVersion::V1), Version::Micro(MicroVersion::M3), Version::Micro(MicroVersion::M4)] {
            let parsed = Parser::new(data).collect_segments();
            let opt = optimize(data, version);
            let opt_len = total_encoded_len(&opt, version);

            assert_eq!(
                opt_len,
                brute_force_min(&parsed, version),
                "{:?} {version:?}: DP != exhaustive optimum",
                core::str::from_utf8(data).unwrap()
            );

            let greedy = Optimizer::new(parsed.clone(), version).collect_segments();
            assert!(opt_len <= total_encoded_len(&greedy, version));

            let single_mode = parsed.iter().map(|s| s.mode).reduce(Mode::max).unwrap();
            let single = Segment {
                mode: single_mode,
                begin: parsed[0].begin,
                end: parsed[parsed.len() - 1].end,
            };
            assert!(opt_len <= single.encoded_len(version));
        }
    }
}

// The DP strictly improves on greedy (scattered short digit runs) and on
// the single-mode encoding (a long numeric run worth isolating), each
// in a case where the other is already optimal — confirming it is not
// just one of them.
#[test]
fn dp_beats_greedy_and_single_mode() {
    // Greedy over-splits and overruns; the optimum is one alphanumeric
    // segment.
    let data = b"9BA3935DM3TBE4";
    let version = Version::Micro(MicroVersion::M3);
    let parsed = Parser::new(data).collect_segments();
    let greedy = Optimizer::new(parsed.clone(), version).collect_segments();
    assert!(
        total_encoded_len(&optimize(data, version), version)
            < total_encoded_len(&greedy, version)
    );

    // A long numeric run: the single alphanumeric segment is far from
    // optimal.
    let data = b"AB000000000000000000CD";
    let version = Version::Normal(NormalVersion::V1);
    let parsed = Parser::new(data).collect_segments();
    let single_mode = parsed.iter().map(|s| s.mode).reduce(Mode::max).unwrap();
    let single = Segment {
        mode: single_mode,
        begin: 0,
        end: data.len(),
    };
    assert!(total_encoded_len(&optimize(data, version), version) < single.encoded_len(version));
}
