use csscolorparser::ParseColorError;
use qrcode2::render::Renderer;
use qrcode2::render::svg::Color;

#[test]
fn svg_test_color_new() {
    assert!(Color::new("brown").is_ok());

    assert!(Color::new("#a52a2a").is_ok());
    assert!(Color::new("a52a2a").is_ok());
    assert!(Color::new("#a52a2a7f").is_ok());
    assert!(Color::new("a52a2a7f").is_ok());
    assert!(Color::new("#111").is_ok());
    assert!(Color::new("111").is_ok());
    assert!(Color::new("#1118").is_ok());
    assert!(Color::new("1118").is_ok());
    assert_eq!(Color::new("#g").unwrap_err(), ParseColorError::InvalidHex);

    assert!(Color::new("rgb(165 42 42)").is_ok());
    assert!(Color::new("rgb(165, 42, 42)").is_ok());
    assert!(Color::new("rgb(165 42 42 / 49.8%)").is_ok());
    assert!(Color::new("rgb(165, 42, 42, 49.8%)").is_ok());
    assert!(Color::new("rgba(165 42 42 / 49.8%)").is_ok());
    assert!(Color::new("rgba(165, 42, 42, 49.8%)").is_ok());
    assert_eq!(
        Color::new("rgb(0)").unwrap_err(),
        ParseColorError::InvalidRgb
    );
    assert_eq!(
        Color::new("rgba(0)").unwrap_err(),
        ParseColorError::InvalidRgb
    );

    assert!(Color::new("hsl(248 39% 39.2%)").is_ok());
    assert!(Color::new("hsl(248, 39%, 39.2%)").is_ok());
    assert!(Color::new("hsl(248 39% 39.2% / 49.8%)").is_ok());
    assert!(Color::new("hsl(248, 39%, 39.2%, 49.8%)").is_ok());
    assert!(Color::new("hsla(248 39% 39.2% / 49.8%)").is_ok());
    assert!(Color::new("hsla(248, 39%, 39.2%, 49.8%)").is_ok());
    assert_eq!(
        Color::new("hsl(0)").unwrap_err(),
        ParseColorError::InvalidHsl
    );
    assert_eq!(
        Color::new("hsla(0)").unwrap_err(),
        ParseColorError::InvalidHsl
    );

    assert!(Color::new("hwb(50.6 0% 0%)").is_ok());
    assert!(Color::new("hwb(50.6 0% 0% / 49.8%)").is_ok());
    assert_eq!(
        Color::new("hwb(0)").unwrap_err(),
        ParseColorError::InvalidHwb
    );

    assert!(Color::new("oklab(50.4% -0.0906 0.0069)").is_ok());
    assert!(Color::new("oklab(50.4% -0.0906 0.0069 / 0.5)").is_ok());
    assert_eq!(
        Color::new("oklab(0)").unwrap_err(),
        ParseColorError::InvalidOklab
    );

    assert!(Color::new("oklch(59.41% 0.16 301.29)").is_ok());
    assert!(Color::new("oklch(59.41% 0.16 301.29 / 49.8%)").is_ok());
    assert_eq!(
        Color::new("oklch(0)").unwrap_err(),
        ParseColorError::InvalidOklch
    );

    assert_eq!(
        Color::new("fn(0)").unwrap_err(),
        ParseColorError::InvalidFunction
    );

    assert_eq!(
        Color::new("a").unwrap_err(),
        ParseColorError::InvalidUnknown
    );
}

#[test]
fn render_to_svg() {
    let colors = &[
        qrcode2::Color::Dark,
        qrcode2::Color::Light,
        qrcode2::Color::Light,
        qrcode2::Color::Dark,
    ];
    let image: String = Renderer::<Color>::new(colors, 2, 2, 1).build();
    assert_eq!(
        &image,
        "<?xml version=\"1.0\" encoding=\"UTF-8\" standalone=\"yes\"?>\
         <svg xmlns=\"http://www.w3.org/2000/svg\" version=\"1.1\" width=\"32\" height=\"32\" \
         viewBox=\"0 0 32 32\" shape-rendering=\"crispEdges\">\
         <path d=\"M0 0h32v32H0z\" fill=\"#fff\"/>\
         <path fill=\"#000\" d=\"M8 8h8v8h-8zM16 16h8v8h-8z\"/></svg>"
    );
}

#[test]
fn render_to_svg_with_colors() {
    let colors = &[qrcode2::Color::Dark];
    let image: String = Renderer::<Color>::new(colors, 1, 1, 0)
        .dark_color(Color::new("brown").unwrap())
        .light_color(Color::new("#a52a2a7f").unwrap())
        .module_dimensions(3, 2)
        .build();
    assert_eq!(
        &image,
        "<?xml version=\"1.0\" encoding=\"UTF-8\" standalone=\"yes\"?>\
         <svg xmlns=\"http://www.w3.org/2000/svg\" version=\"1.1\" width=\"3\" height=\"2\" \
         viewBox=\"0 0 3 2\" shape-rendering=\"crispEdges\">\
         <path d=\"M0 0h3v2H0z\" fill=\"#a52a2a7f\"/>\
         <path fill=\"brown\" d=\"M0 0h3v2h-3z\"/></svg>"
    );
}
