use halftonery::color::{convert_cmyk_to_rgb, convert_rgb_to_cmyk, Rgb, COVERAGE_ONE};

#[test]
fn rgb_cmyk_conversion_white() {
    let rgb = Rgb {
        r: 255,
        g: 255,
        b: 255,
    };

    let cmyk = convert_rgb_to_cmyk(&rgb);

    assert_eq!(0, cmyk.c);
    assert_eq!(0, cmyk.y);
    assert_eq!(0, cmyk.m);
    assert_eq!(0, cmyk.k);
}

#[test]
fn rgb_cmyk_conversion_black() {
    let rgb = Rgb { r: 0, g: 0, b: 0 };

    let cmyk = convert_rgb_to_cmyk(&rgb);

    assert_eq!(0, cmyk.c);
    assert_eq!(0, cmyk.m);
    assert_eq!(0, cmyk.y);
    assert_eq!(COVERAGE_ONE, cmyk.k);
}

#[test]
fn rgb_cmyk_conversion_red() {
    let rgb = Rgb { r: 255, g: 0, b: 0 };

    let cmyk = convert_rgb_to_cmyk(&rgb);

    assert_eq!(0, cmyk.c);
    assert_eq!(COVERAGE_ONE, cmyk.m);
    assert_eq!(COVERAGE_ONE, cmyk.y);
    assert_eq!(0, cmyk.k);
}

#[test]
fn rgb_cmyk_conversion_green() {
    let rgb = Rgb { r: 0, g: 255, b: 0 };

    let cmyk = convert_rgb_to_cmyk(&rgb);

    assert_eq!(COVERAGE_ONE, cmyk.c);
    assert_eq!(0, cmyk.m);
    assert_eq!(COVERAGE_ONE, cmyk.y);
    assert_eq!(0, cmyk.k);
}

#[test]
fn rgb_cmyk_conversion_blue() {
    let rgb = Rgb { r: 0, g: 0, b: 255 };

    let cmyk = convert_rgb_to_cmyk(&rgb);

    assert_eq!(COVERAGE_ONE, cmyk.c);
    assert_eq!(COVERAGE_ONE, cmyk.m);
    assert_eq!(0, cmyk.y);
    assert_eq!(0, cmyk.k);
}

#[test]
fn rgb_cmyk_conversion_yellow() {
    let rgb = Rgb {
        r: 255,
        g: 255,
        b: 0,
    };

    let cmyk = convert_rgb_to_cmyk(&rgb);

    assert_eq!(0, cmyk.c);
    assert_eq!(0, cmyk.m);
    assert_eq!(COVERAGE_ONE, cmyk.y);
    assert_eq!(0, cmyk.k);
}

#[test]
fn rgb_cmyk_conversion_cyan() {
    let rgb = Rgb {
        r: 0,
        g: 255,
        b: 255,
    };

    let cmyk = convert_rgb_to_cmyk(&rgb);

    assert_eq!(COVERAGE_ONE, cmyk.c);
    assert_eq!(0, cmyk.m);
    assert_eq!(0, cmyk.y);
    assert_eq!(0, cmyk.k);
}

#[test]
fn rgb_cmyk_conversion_magenta() {
    let rgb = Rgb {
        r: 255,
        g: 0,
        b: 255,
    };

    let cmyk = convert_rgb_to_cmyk(&rgb);

    assert_eq!(0, cmyk.c);
    assert_eq!(COVERAGE_ONE, cmyk.m);
    assert_eq!(0, cmyk.y);
    assert_eq!(0, cmyk.k);
}

#[test]
fn rgb_cmyk_conversion_exact_values() {
    let cmyk = convert_rgb_to_cmyk(&Rgb { r: 100, g: 50, b: 0 });
    // max = 100; k = (255 - 100) * 255; m = (100 - 50) * 65025 / 100, truncated.
    assert_eq!(0, cmyk.c);
    assert_eq!(32512, cmyk.m);
    assert_eq!(COVERAGE_ONE, cmyk.y);
    assert_eq!(39525, cmyk.k);
}

#[test]
fn round_trip_pure_colors_exact() {
    let pure = [
        Rgb { r: 0, g: 0, b: 0 },
        Rgb { r: 255, g: 255, b: 255 },
        Rgb { r: 255, g: 0, b: 0 },
        Rgb { r: 0, g: 255, b: 0 },
        Rgb { r: 0, g: 0, b: 255 },
        Rgb { r: 255, g: 255, b: 0 },
        Rgb { r: 0, g: 255, b: 255 },
        Rgb { r: 255, g: 0, b: 255 },
    ];
    for p in pure {
        let back = convert_cmyk_to_rgb(&convert_rgb_to_cmyk(&p));
        assert_eq!(p, back);
    }
}

#[test]
fn round_trip_arbitrary_color_within_tolerance() {
    let samples = [
        Rgb { r: 123, g: 45, b: 67 },
        Rgb { r: 1, g: 254, b: 128 },
        Rgb { r: 200, g: 200, b: 199 },
        Rgb { r: 17, g: 3, b: 250 },
    ];
    for p in samples {
        let back = convert_cmyk_to_rgb(&convert_rgb_to_cmyk(&p));
        assert!((back.r as i32 - p.r as i32).abs() <= 1);
        assert!((back.g as i32 - p.g as i32).abs() <= 1);
        assert!((back.b as i32 - p.b as i32).abs() <= 1);
    }
}
