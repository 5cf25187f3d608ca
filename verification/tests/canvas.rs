use qrcode2::canvas::{Canvas, MaskPattern, Module, is_functional};
use qrcode2::{Color, EcLevel, MicroVersion, NormalVersion, RectMicroVersion, Version};

#[test]
fn is_functional_qr_1() {
    let version = Version::Normal(NormalVersion::V1);
    assert!(is_functional(version, i16::from(version.width()), 0, 0));
    assert!(is_functional(version, i16::from(version.width()), 10, 6));
    assert!(!is_functional(version, i16::from(version.width()), 10, 5));
    assert!(!is_functional(version, i16::from(version.width()), 14, 14));
    assert!(is_functional(version, i16::from(version.width()), 6, 11));
    assert!(!is_functional(version, i16::from(version.width()), 4, 11));
    assert!(is_functional(version, i16::from(version.width()), 4, 13));
    assert!(is_functional(version, i16::from(version.width()), 17, 7));
    assert!(!is_functional(version, i16::from(version.width()), 17, 17));
}

#[test]
fn is_functional_qr_3() {
    let version = Version::Normal(NormalVersion::V3);
    assert!(is_functional(version, i16::from(version.width()), 0, 0));
    assert!(!is_functional(version, i16::from(version.width()), 25, 24));
    assert!(is_functional(version, i16::from(version.width()), 24, 24));
    assert!(!is_functional(version, i16::from(version.width()), 9, 25));
    assert!(!is_functional(version, i16::from(version.width()), 20, 0));
    assert!(is_functional(version, i16::from(version.width()), 21, 0));
}

#[test]
fn is_functional_qr_7() {
    let version = Version::Normal(NormalVersion::V7);
    assert!(is_functional(version, i16::from(version.width()), 21, 4));
    assert!(is_functional(version, i16::from(version.width()), 7, 21));
    assert!(is_functional(version, i16::from(version.width()), 22, 22));
    assert!(is_functional(version, i16::from(version.width()), 8, 8));
    assert!(!is_functional(version, i16::from(version.width()), 19, 5));
    assert!(!is_functional(version, i16::from(version.width()), 36, 3));
    assert!(!is_functional(version, i16::from(version.width()), 4, 36));
    assert!(is_functional(version, i16::from(version.width()), 38, 38));
}

#[test]
fn is_functional_micro() {
    let version = Version::Micro(MicroVersion::M1);
    assert!(is_functional(version, i16::from(version.width()), 8, 0));
    assert!(is_functional(version, i16::from(version.width()), 10, 0));
    assert!(!is_functional(version, i16::from(version.width()), 10, 1));
    assert!(is_functional(version, i16::from(version.width()), 8, 8));
    assert!(is_functional(version, i16::from(version.width()), 0, 9));
    assert!(!is_functional(version, i16::from(version.width()), 1, 9));
}

#[test]
fn index() {
    let mut c = Canvas::new(Version::Normal(NormalVersion::V1), EcLevel::L);

    assert_eq!(c.get(0, 4), Module::Empty);
    assert_eq!(c.get(-1, -7), Module::Empty);
    assert_eq!(c.get(21 - 1, 21 - 7), Module::Empty);

    c.put(0, 0, Color::Dark);
    c.put(-1, -7, Color::Light);
    assert_eq!(c.get(0, 0), Module::Masked(Color::Dark));
    assert_eq!(c.get(21 - 1, -7), Module::Masked(Color::Light));
    assert_eq!(c.get(-1, 21 - 7), Module::Masked(Color::Light));
}

#[test]
fn debug_str() {
    let mut c = Canvas::new(Version::Normal(NormalVersion::V1), EcLevel::L);

    for i in 3_i16..20 {
        for j in 3_i16..20 {
            *c.get_mut(i, j) = match ((i * 3) ^ j) % 5 {
                0 => Module::Empty,
                1 => Module::Masked(Color::Light),
                2 => Module::Masked(Color::Dark),
                3 => Module::Unmasked(Color::Light),
                4 => Module::Unmasked(Color::Dark),
                _ => unreachable!(),
            };
        }
    }

    assert_eq!(
        c.to_debug_str(),
        "\n?????????????????????\
        \n?????????????????????\
        \n?????????????????????\
        \n?????####****....---?\
        \n???--.##-..##?..#??.?\
        \n???#*?-.*?#.-*#?-*.??\
        \n?????*?*?****-*-*---?\
        \n???*.-.-.-?-?#?#?#*#?\
        \n???.*#.*.*#.*#*#.*#*?\
        \n?????.#-#--??.?.#---?\
        \n???-.?*.-#?-.?#*-#?.?\
        \n???##*??*..##*--*..??\
        \n?????-???--??---?---?\
        \n???*.#.*.#**.#*#.#*#?\
        \n???##.-##..##..?#..??\
        \n???.-?*.-?#.-?#*-?#*?\
        \n????-.#?-.**#?-.#?-.?\
        \n???**?-**??--**?-**??\
        \n???#?*?#?*#.*-.-*-.-?\
        \n???..-...--??###?###?\
        \n?????????????????????"
    );
}

#[test]
fn test_draw_format_info_patterns_qr() {
    let mut c = Canvas::new(Version::Normal(NormalVersion::V1), EcLevel::L);
    c.draw_format_info_patterns(MaskPattern::LargeCheckerboard);
    assert_eq!(
        c.to_debug_str(),
        "\n????????#????????????\
        \n????????#????????????\
        \n????????#????????????\
        \n????????#????????????\
        \n????????.????????????\
        \n????????#????????????\
        \n?????????????????????\
        \n????????.????????????\
        \n##..##?..????..#.####\
        \n?????????????????????\
        \n?????????????????????\
        \n?????????????????????\
        \n?????????????????????\
        \n????????#????????????\
        \n????????.????????????\
        \n????????#????????????\
        \n????????#????????????\
        \n????????.????????????\
        \n????????.????????????\
        \n????????#????????????\
        \n????????#????????????"
    );
}

#[test]
fn test_draw_format_info_patterns_micro_qr() {
    let mut c = Canvas::new(Version::Micro(MicroVersion::M2), EcLevel::L);
    c.draw_format_info_patterns(MaskPattern::LargeCheckerboard);
    assert_eq!(
        c.to_debug_str(),
        "\n?????????????\
        \n????????#????\
        \n????????.????\
        \n????????.????\
        \n????????#????\
        \n????????#????\
        \n????????.????\
        \n????????.????\
        \n?#.#....#????\
        \n?????????????\
        \n?????????????\
        \n?????????????\
        \n?????????????"
    );
}

#[test]
fn test_penalty_score_light_sides() {
    const HORIZONTAL_SIDE: [Color; 17] = [
        Color::Dark,
        Color::Light,
        Color::Light,
        Color::Dark,
        Color::Dark,
        Color::Dark,
        Color::Light,
        Color::Light,
        Color::Dark,
        Color::Light,
        Color::Dark,
        Color::Light,
        Color::Light,
        Color::Dark,
        Color::Light,
        Color::Light,
        Color::Light,
    ];
    const VERTICAL_SIDE: [Color; 17] = [
        Color::Dark,
        Color::Dark,
        Color::Dark,
        Color::Light,
        Color::Light,
        Color::Dark,
        Color::Dark,
        Color::Light,
        Color::Dark,
        Color::Light,
        Color::Dark,
        Color::Light,
        Color::Dark,
        Color::Light,
        Color::Light,
        Color::Dark,
        Color::Light,
    ];

    let mut c = Canvas::new(Version::Micro(MicroVersion::M4), EcLevel::Q);
    for i in 0_i16..17 {
        c.put(i, -1, HORIZONTAL_SIDE[i as usize]);
        c.put(-1, i, VERTICAL_SIDE[i as usize]);
    }

    assert_eq!(c.compute_light_side_penalty_score(), 168);
}

fn light_canvas() -> Canvas {
    let mut c = Canvas::new(Version::Normal(NormalVersion::V1), EcLevel::L);
    for x in 0_i16..21 {
        for y in 0_i16..21 {
            c.put(x, y, Color::Light);
        }
    }
    c
}

#[test]
fn penalty_scores_of_uniform_canvas() {
    let c = light_canvas();
    // Each line is one run of 21 equal modules: 21 - 2 points per line.
    assert_eq!(c.compute_adjacent_penalty_score(true), 19 * 21);
    assert_eq!(c.compute_adjacent_penalty_score(false), 19 * 21);
    // Every 2×2 block is uniform.
    assert_eq!(c.compute_block_penalty_score(), 3 * 20 * 20);
    // No dark module at all.
    assert_eq!(c.compute_balance_penalty_score(), 100);
}

#[test]
fn adjacent_penalty_counts_empty_modules_as_one_run() {
    // An empty canvas never closes its first run of empty modules.
    let c = Canvas::new(Version::Normal(NormalVersion::V1), EcLevel::L);
    assert_eq!(c.compute_adjacent_penalty_score(true), 0);
    assert_eq!(c.compute_adjacent_penalty_score(false), 0);
}

#[test]
fn finder_and_balance_penalty_scores() {
    let mut c = light_canvas();
    let pattern = [
        Color::Dark,
        Color::Light,
        Color::Dark,
        Color::Dark,
        Color::Dark,
        Color::Light,
        Color::Dark,
    ];
    for y in 0_i16..10 {
        for x in 0_i16..7 {
            c.put(x, y, pattern[x as usize]);
        }
    }
    // One finder-like pattern per row, ten rows: 400 points, less 360.
    assert_eq!(c.compute_finder_penalty_score(true), 40);
    // 50 dark modules of 441: 50 × 200 / 441 = 22.
    assert_eq!(c.compute_balance_penalty_score(), 78);
}

#[test]
fn corner_finder_pattern_rmqr() {
    let version = Version::RectMicro(RectMicroVersion::R7x43);
    let mut c = Canvas::new(version, EcLevel::M);
    c.draw_corner_finder_pattern();
    assert_eq!(c.get(0, -1), Module::Masked(Color::Dark));
    assert_eq!(c.get(1, -1), Module::Masked(Color::Dark));
    assert_eq!(c.get(2, -1), Module::Masked(Color::Dark));
    assert_eq!(c.get(-1, 0), Module::Masked(Color::Dark));
    assert_eq!(c.get(-1, 1), Module::Masked(Color::Dark));
    assert_eq!(c.get(-2, 0), Module::Masked(Color::Dark));
    assert_eq!(c.get(-2, 1), Module::Masked(Color::Light));
    // Only 7 modules high: no second row at the bottom left.
    assert_eq!(c.get(0, -2), Module::Empty);
    assert_eq!(c.get(1, -2), Module::Empty);
}

#[test]
fn corner_finder_pattern_tall_rmqr() {
    let version = Version::RectMicro(RectMicroVersion::R13x27);
    let mut c = Canvas::new(version, EcLevel::M);
    c.draw_corner_finder_pattern();
    assert_eq!(c.get(0, -2), Module::Masked(Color::Dark));
    assert_eq!(c.get(1, -2), Module::Masked(Color::Light));
}

#[test]
fn corner_finder_pattern_only_on_rmqr() {
    let mut c = Canvas::new(Version::Micro(MicroVersion::M1), EcLevel::L);
    let before = c.to_debug_str();
    c.draw_corner_finder_pattern();
    assert_eq!(c.to_debug_str(), before);
}

#[test]
fn draw_codewords_skips_filled_modules() {
    let mut c = Canvas::new(Version::Micro(MicroVersion::M1), EcLevel::L);
    c.put(1, 0, Color::Dark);
    let coords: Vec<(i16, i16)> = (0..11).map(|x| (x, 0)).collect();
    let mut pos = 0;
    // Half codeword: only the bits 1, 0, 1, 0 of 0b1010_xxxx are drawn.
    c.draw_codewords(&[0b1010_1111], true, &coords, &mut pos);
    assert_eq!(pos, 5);
    let s = c.to_debug_str();
    assert_eq!(&s[..13], "\n*#-*-??????\n");

    // The next codewords continue where the last one stopped.
    c.draw_codewords(&[0b0000_0001], false, &coords, &mut pos);
    assert_eq!(pos, 11);
    let s = c.to_debug_str();
    assert_eq!(&s[..13], "\n*#-*-------\n");
}

#[test]
fn draw_codewords_stops_when_coordinates_run_out() {
    let mut c = Canvas::new(Version::Micro(MicroVersion::M1), EcLevel::L);
    let coords: Vec<(i16, i16)> = vec![(0, 1), (1, 1), (2, 1)];
    let mut pos = 0;
    c.draw_codewords(&[0xFF, 0xFF], false, &coords, &mut pos);
    assert_eq!(pos, 3);
    assert_eq!(c.get(2, 1), Module::Unmasked(Color::Dark));
    assert_eq!(c.get(3, 1), Module::Empty);
}

#[test]
fn apply_best_mask_single_candidate() {
    let version = Version::RectMicro(RectMicroVersion::R7x43);
    let c = Canvas::new(version, EcLevel::M);
    let best = c.apply_best_mask();
    let mut expected = Canvas::new(version, EcLevel::M);
    expected.apply_mask(MaskPattern::LargeCheckerboard);
    assert_eq!(best.to_debug_str(), expected.to_debug_str());
}

#[test]
fn apply_best_mask_lowest_penalty_micro() {
    let version = Version::Micro(MicroVersion::M2);
    let c = Canvas::new(version, EcLevel::L);
    let best = c.apply_best_mask();
    let candidates = [
        MaskPattern::HorizontalLines,
        MaskPattern::LargeCheckerboard,
        MaskPattern::Diamonds,
        MaskPattern::Meadow,
    ];
    let mut lowest = u16::MAX;
    let mut chosen = String::new();
    for p in candidates {
        let mut m = Canvas::new(version, EcLevel::L);
        m.apply_mask(p);
        let score = m.compute_total_penalty_scores();
        if score < lowest {
            lowest = score;
            chosen = m.to_debug_str();
        }
    }
    assert_eq!(best.compute_total_penalty_scores(), lowest);
    assert_eq!(best.to_debug_str(), chosen);
}

#[test]
fn get_mut_writes_back() {
    let mut c = Canvas::new(Version::Normal(NormalVersion::V1), EcLevel::L);
    *c.get_mut(-1, 3) = Module::Unmasked(Color::Dark);
    assert_eq!(c.get(20, 3), Module::Unmasked(Color::Dark));
    assert_eq!(c.get(3, 20), Module::Empty);
}
