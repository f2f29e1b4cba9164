use halftonery::canvas::Canvas;
use halftonery::color::{Rgb, COVERAGE_ONE};
use halftonery::compositor::paint_layer;
use halftonery::config::{BlendMode, Config, HalftoneError};
use halftonery::lattice::{generate, Dot};
use halftonery::pipeline::halftone;
use halftonery::plane::{separate, Plane};
use halftonery::sampler::intensity_at;

fn uniform_plane(width: usize, height: usize, v: u32) -> Plane {
    Plane {
        width,
        height,
        data: vec![v; width * height],
    }
}

#[test]
fn uniform_plane_interior_intensity() {
    let p = uniform_plane(8, 8, 30000);
    let (v, degenerate) = intensity_at(&p, 4, 4, 4);
    assert_eq!(30000, v);
    assert!(!degenerate);
}

#[test]
fn uniform_plane_corner_intensity() {
    // A corner window is clipped to a quarter of its size, but the average
    // over the remaining samples is still the uniform value.
    let p = uniform_plane(8, 8, 30000);
    let (v, degenerate) = intensity_at(&p, 0, 0, 4);
    assert_eq!(30000, v);
    assert!(!degenerate);
}

#[test]
fn intensity_exact_average() {
    // 4x4 plane holding 0, 1000, ..., 15000: the full-plane window averages
    // to 120000 / 16.
    let data: Vec<u32> = (0..16u32).map(|k| k * 1000).collect();
    let p = Plane {
        width: 4,
        height: 4,
        data,
    };
    let (v, degenerate) = intensity_at(&p, 2, 2, 4);
    assert_eq!(7500, v);
    assert!(!degenerate);
}

#[test]
fn degenerate_window_samples_as_zero() {
    // Spacing 1 gives a window of zero width: no sample is counted, the
    // intensity resolves to 0 and the degenerate flag is raised.
    let p = uniform_plane(8, 8, 40000);
    let (v, degenerate) = intensity_at(&p, 3, 3, 1);
    assert_eq!(0, v);
    assert!(degenerate);
}

#[test]
fn zero_angle_terminates_on_grid() {
    // The axis-aligned screen is the non-termination hazard of the lattice
    // walk: generation must finish and must put its dots exactly `spacing`
    // apart on both axes.
    let p = uniform_plane(16, 16, COVERAGE_ONE);
    let dl = generate(0, 4, &p).unwrap();
    assert_eq!(12, dl.dots.len());
    for d in dl.dots.iter() {
        assert_eq!(0, d.x % 4);
        assert_eq!(0, d.y % 4);
        assert_eq!(COVERAGE_ONE, d.intensity);
    }
    assert!(!dl.sampling_degenerate);
}

#[test]
fn zero_angle_various_spacings_terminate() {
    let p = uniform_plane(33, 17, 12345);
    for spacing in [1u32, 2, 3, 5, 7, 16, 40, 200] {
        let dl = generate(0, spacing, &p).unwrap();
        for d in dl.dots.iter() {
            assert_eq!(0, d.x % spacing);
            assert_eq!(0, d.y % spacing);
        }
    }
}

#[test]
fn dot_count_tracks_area_over_spacing_squared() {
    // W * H / S^2 = 64 * 64 / 64 = 64 dots expected, within +-50%.
    let p = uniform_plane(64, 64, 30000);
    for angle in [0u32, 15, 45, 75] {
        let dl = generate(angle, 8, &p).unwrap();
        let n = dl.dots.len();
        assert!(
            32 <= n && n <= 96,
            "angle {}: {} dots outside the expected band",
            angle,
            n
        );
    }
}

#[test]
fn angled_lattice_structure() {
    // At 45 degrees with spacing 8 the step magnitudes truncate to (5, 5):
    // every dot is (5l + 5t, 5l - 5t), so both coordinates are multiples of
    // 5 and their sum is a multiple of 10.
    let p = uniform_plane(64, 64, 30000);
    let dl = generate(45, 8, &p).unwrap();
    assert!(!dl.dots.is_empty());
    for d in dl.dots.iter() {
        assert_eq!(0, d.x % 5);
        assert_eq!(0, d.y % 5);
        assert_eq!(0, (d.x + d.y) % 10);
    }
}

#[test]
fn unit_spacing_flags_degenerate_sampling() {
    // Spacing 1 makes every sampling window empty: all dots sample as 0 and
    // the dot list carries the sampling warning.
    let p = uniform_plane(4, 4, 50000);
    let dl = generate(0, 1, &p).unwrap();
    assert!(!dl.dots.is_empty());
    assert!(dl.sampling_degenerate);
    for d in dl.dots.iter() {
        assert_eq!(0, d.intensity);
    }
}

#[test]
fn degenerate_angles_fail_fast() {
    let p = uniform_plane(16, 16, 30000);
    assert_eq!(
        HalftoneError::GeometryDegenerate,
        generate(180, 8, &p).unwrap_err()
    );
    assert_eq!(
        HalftoneError::GeometryDegenerate,
        generate(270, 8, &p).unwrap_err()
    );
}

#[test]
fn zero_intensity_layer_leaves_canvas_untouched() {
    let background = Rgb {
        r: 200,
        g: 100,
        b: 50,
    };
    let mut canvas = Canvas::new(8, 8, background);
    let dots = vec![
        Dot {
            x: 3,
            y: 3,
            intensity: 0,
        },
        Dot {
            x: 2,
            y: 5,
            intensity: 0,
        },
        Dot {
            x: 7,
            y: 0,
            intensity: 0,
        },
    ];
    let ink = Rgb {
        r: 0,
        g: 255,
        b: 255,
    };
    paint_layer(&mut canvas, &dots, ink, 8, 1, 2, BlendMode::Alpha, 150);
    for y in 0..8 {
        for x in 0..8 {
            assert_eq!(background, canvas.get_pixel(x, y));
        }
    }
}

#[test]
fn opaque_circle_paint_exact() {
    let white = Rgb {
        r: 255,
        g: 255,
        b: 255,
    };
    let cyan = Rgb {
        r: 0,
        g: 255,
        b: 255,
    };
    let mut canvas = Canvas::new(9, 9, white);
    let dots = vec![Dot {
        x: 4,
        y: 4,
        intensity: COVERAGE_ONE,
    }];
    // Radius = round(1/2 * 8 * 1.0) = 4.
    paint_layer(&mut canvas, &dots, cyan, 8, 1, 2, BlendMode::Opaque, 150);
    assert_eq!(cyan, canvas.get_pixel(4, 4));
    assert_eq!(cyan, canvas.get_pixel(4, 0));
    assert_eq!(cyan, canvas.get_pixel(0, 4));
    // The corner is at squared distance 32 > 16 from the center.
    assert_eq!(white, canvas.get_pixel(0, 0));
    assert_eq!(white, canvas.get_pixel(8, 8));
}

#[test]
fn alpha_circle_blend_exact() {
    let white = Rgb {
        r: 255,
        g: 255,
        b: 255,
    };
    let cyan = Rgb {
        r: 0,
        g: 255,
        b: 255,
    };
    let mut canvas = Canvas::new(9, 9, white);
    let dots = vec![Dot {
        x: 4,
        y: 4,
        intensity: COVERAGE_ONE,
    }];
    paint_layer(&mut canvas, &dots, cyan, 8, 1, 2, BlendMode::Alpha, 150);
    // r = (0 * 150 + 255 * 105) / 255 = 105; g and b stay at 255.
    assert_eq!(
        Rgb {
            r: 105,
            g: 255,
            b: 255
        },
        canvas.get_pixel(4, 4)
    );
    assert_eq!(white, canvas.get_pixel(0, 0));
}

#[test]
fn solid_red_image_separates_and_renders_from_magenta_yellow_only() {
    // A uniform 2x2 solid red image separates into c = 0, m = 1, y = 1,
    // k = 0 everywhere; with spacing 4, the cyan and black layers emit no
    // ink, so the full render equals a render of the magenta and yellow
    // layers alone.
    let red = Rgb { r: 255, g: 0, b: 0 };
    let pixels = vec![red; 4];
    let planes = separate(&pixels, 2, 2);
    for i in 0..4 {
        assert_eq!(0, planes.c.data[i]);
        assert_eq!(COVERAGE_ONE, planes.m.data[i]);
        assert_eq!(COVERAGE_ONE, planes.y.data[i]);
        assert_eq!(0, planes.k.data[i]);
    }

    let cfg = Config {
        spacing: 4,
        ..Config::default()
    };
    let cyan_dots = generate(cfg.angle_cyan, cfg.spacing, &planes.c).unwrap();
    let black_dots = generate(cfg.angle_black, cfg.spacing, &planes.k).unwrap();
    assert!(cyan_dots.dots.iter().all(|d| d.intensity == 0));
    assert!(black_dots.dots.iter().all(|d| d.intensity == 0));

    let full = halftone(&pixels, 2, 2, &cfg).unwrap();
    assert!(!full.sampling_degenerate);

    let mut my_only = Canvas::new(2, 2, cfg.background);
    let magenta_dots = generate(cfg.angle_magenta, cfg.spacing, &planes.m).unwrap();
    let yellow_dots = generate(cfg.angle_yellow, cfg.spacing, &planes.y).unwrap();
    let magenta_ink = Rgb {
        r: 255,
        g: 0,
        b: 255,
    };
    let yellow_ink = Rgb {
        r: 255,
        g: 255,
        b: 0,
    };
    paint_layer(
        &mut my_only,
        &magenta_dots.dots,
        magenta_ink,
        cfg.spacing,
        cfg.radius_num,
        cfg.radius_den,
        cfg.blend,
        cfg.opacity,
    );
    paint_layer(
        &mut my_only,
        &yellow_dots.dots,
        yellow_ink,
        cfg.spacing,
        cfg.radius_num,
        cfg.radius_den,
        cfg.blend,
        cfg.opacity,
    );
    for y in 0..2 {
        for x in 0..2 {
            assert_eq!(my_only.get_pixel(x, y), full.canvas.get_pixel(x, y));
        }
    }
}

#[test]
fn invalid_input_rejected_before_processing() {
    let red = Rgb { r: 255, g: 0, b: 0 };
    let pixels = vec![red; 16];

    let zero_spacing = Config {
        spacing: 0,
        ..Config::default()
    };
    assert_eq!(
        HalftoneError::InvalidInput,
        halftone(&pixels, 4, 4, &zero_spacing).unwrap_err()
    );

    let tiny_spacing = Config {
        spacing: 3,
        ..Config::default()
    };
    assert_eq!(
        HalftoneError::InvalidInput,
        halftone(&pixels, 4, 4, &tiny_spacing).unwrap_err()
    );

    let huge_spacing = Config {
        spacing: 201,
        ..Config::default()
    };
    assert_eq!(
        HalftoneError::InvalidInput,
        halftone(&pixels, 4, 4, &huge_spacing).unwrap_err()
    );

    let empty: Vec<Rgb> = Vec::new();
    assert_eq!(
        HalftoneError::InvalidInput,
        halftone(&empty, 0, 4, &Config::default()).unwrap_err()
    );
}

#[test]
fn degenerate_screen_fails_whole_render() {
    let red = Rgb { r: 255, g: 0, b: 0 };
    let pixels = vec![red; 256];
    let cfg = Config {
        angle_cyan: 180,
        ..Config::default()
    };
    assert_eq!(
        HalftoneError::GeometryDegenerate,
        halftone(&pixels, 16, 16, &cfg).unwrap_err()
    );
}

#[test]
fn end_to_end_render_larger_image() {
    // A mixed image renders through the whole pipeline with the default
    // configuration and keeps the canvas dimensions.
    let mut pixels = Vec::new();
    for y in 0..32u32 {
        for x in 0..32u32 {
            pixels.push(Rgb {
                r: (x * 8) as u8,
                g: (y * 8) as u8,
                b: 128,
            });
        }
    }
    let rendering = halftone(&pixels, 32, 32, &Config::default()).unwrap();
    assert_eq!(32, rendering.canvas.width);
    assert_eq!(32, rendering.canvas.height);
    assert!(!rendering.sampling_degenerate);
}
