use qrcode2::Color;
use qrcode2::render::Renderer;
use qrcode2::render::braille::BraillePixel;
use qrcode2::render::pic::Color as PicColor;
use qrcode2::render::unicode::Dense1x2;

#[test]
fn render_to_string() {
    let colors = &[Color::Dark, Color::Light, Color::Light, Color::Dark];
    let image: String = Renderer::<char>::new(colors, 2, 2, 1).build();
    assert_eq!(
        &image,
        "    \n \u{2588}  \n  \u{2588} \n    "
    );

    let image2 = Renderer::new(colors, 2, 2, 1)
        .light_color("A")
        .dark_color("!B!")
        .module_dimensions(2, 2)
        .build();

    assert_eq!(
        &image2,
        "AAAAAAAA\nAAAAAAAA\nAA!B!!B!AAAA\nAA!B!!B!AAAA\nAAAA!B!!B!AA\nAAAA!B!!B!AA\nAAAAAAAA\nAAAAAAAA"
    );
}

#[test]
fn render_to_utf8_string() {
    let colors = &[Color::Dark, Color::Light, Color::Light, Color::Dark];
    let image: String = Renderer::<Dense1x2>::new(colors, 2, 2, 1).build();

    assert_eq!(&image, " ▄  \n  ▀ ");

    let image2 = Renderer::<Dense1x2>::new(colors, 2, 2, 1)
        .module_dimensions(2, 2)
        .build();

    assert_eq!(
        &image2,
        "        \n  ██    \n    ██  \n        "
    );
}

#[test]
fn test_render_to_utf8_string() {
    let colors = &[Color::Dark, Color::Light, Color::Light, Color::Dark];
    let image: String = Renderer::<BraillePixel>::new(colors, 2, 2, 1).build();

    assert_eq!(&image, "⠐⠄");

    let image2 = Renderer::<BraillePixel>::new(colors, 2, 2, 1)
        .module_dimensions(2, 2)
        .build();

    assert_eq!(&image2, "⠀⣤⠀⠀\n⠀⠀⠛⠀");
}

#[test]
fn render_without_quiet_zone() {
    let colors = &[Color::Dark, Color::Light, Color::Light, Color::Dark];
    let image: String = Renderer::<char>::new(colors, 2, 2, 1)
        .has_quiet_zone(false)
        .build();
    assert_eq!(&image, "\u{2588} \n \u{2588}");
}

#[test]
fn render_inverted_dense() {
    let colors = &[Color::Dark, Color::Light, Color::Light, Color::Dark];
    let image: String = Renderer::<Dense1x2>::new(colors, 2, 2, 0)
        .dark_color(Dense1x2::Light)
        .light_color(Dense1x2::Dark)
        .build();
    assert_eq!(&image, "▄▀");
}

#[test]
fn render_braille_odd_height_and_width() {
    // A 3×5 image: the dots beyond the image stay clear.
    let colors = &[Color::Dark; 15];
    let image: String = Renderer::<BraillePixel>::new(colors, 3, 5, 0).build();
    assert_eq!(&image, "⣿⡇\n⠉⠁");
}

#[test]
fn render_dense_odd_height() {
    let colors = &[Color::Dark, Color::Light, Color::Dark];
    let image: String = Renderer::<Dense1x2>::new(colors, 1, 3, 0).build();
    assert_eq!(&image, "▀\n▀");
}

#[test]
fn render_to_pic() {
    let colors = &[Color::Dark, Color::Light, Color::Light, Color::Dark];
    let image: String = Renderer::<PicColor>::new(colors, 2, 2, 1).build();
    assert_eq!(
        &image,
        "maxpswid=32;maxpsht=32;movewid=0;moveht=1;boxwid=1;boxht=1\n\
         define p { box wid $3 ht $4 fill 1 thickness 0.1 with .nw at $1,-$2 }\n\
         box wid maxpswid ht maxpsht with .nw at 0,0\n\
         p(8,8,8,8)\n\
         p(16,16,8,8)"
    );
}

#[test]
fn render_to_pic_without_dark_modules() {
    let colors = &[Color::Light];
    let image: String = Renderer::<PicColor>::new(colors, 1, 1, 0)
        .module_dimensions(125, 1)
        .build();
    assert_eq!(
        &image,
        "maxpswid=125;maxpsht=1;movewid=0;moveht=1;boxwid=1;boxht=1\n\
         define p { box wid $3 ht $4 fill 1 thickness 0.1 with .nw at $1,-$2 }\n\
         box wid maxpswid ht maxpsht with .nw at 0,0"
    );
}

#[test]
fn min_dimensions_picks_smallest_module_size() {
    let colors = &[Color::Dark, Color::Light, Color::Light, Color::Dark];
    // 4 modules with the quiet zone: modules of 3 pixels cover 10 pixels.
    let image: String = Renderer::<char>::new(colors, 2, 2, 1)
        .min_dimensions(10, 10)
        .build();
    let lines: Vec<&str> = image.split('\n').collect();
    assert_eq!(lines.len(), 12);
    assert!(lines.iter().all(|l| l.chars().count() == 12));
    assert_eq!(lines[3], "   \u{2588}\u{2588}\u{2588}      ");
}

#[test]
fn max_dimensions_picks_largest_module_size() {
    let colors = &[Color::Dark, Color::Light, Color::Light, Color::Dark];
    // 4 modules with the quiet zone: modules of 2 pixels fit in 10 pixels.
    let image: String = Renderer::<char>::new(colors, 2, 2, 1)
        .max_dimensions(10, 9)
        .build();
    let lines: Vec<&str> = image.split('\n').collect();
    assert_eq!(lines.len(), 8);
    assert!(lines.iter().all(|l| l.chars().count() == 8));
    // Too small a limit still gives modules of one pixel.
    let small: String = Renderer::<char>::new(colors, 2, 2, 1)
        .max_dimensions(1, 1)
        .build();
    assert_eq!(small.split('\n').count(), 4);
}
