use yutani::palette::{
    nearest, palette_from_entries, parse_color_cap, parse_toml, rgb_from_value, swatch, Allowed,
    ColorCap, GlowOverrides, Number, Palette, Rgb, SchemeError, Swatch, Value, folded, hold, read_scheme, Range,
};

fn to_bytes(c: Option<Rgb>) -> [u8; 3] {
    let c = c.expect("the scheme sets this colour");
    [c.r, c.g, c.b]
}

fn float(f: f64) -> Option<Number> {
    Some(Number::Float(f.to_bits()))
}

#[test]
fn empty_input_equals_defaults() {
    assert_eq!(parse_toml(""), Palette::defaults());
}

#[test]
fn comments_and_blank_lines_skipped() {
    let p = parse_toml("# comment\n\n   \n# another\n");
    assert_eq!(p, Palette::defaults());
}

#[test]
fn parses_singletons() {
    let src = "background = 0xfbfaf7\nforeground = 0x2d2519\ncursor = 0x1a00cc\nselection = 0x3366d9\n";
    let p = parse_toml(src);
    assert_eq!(to_bytes(p.background), [0xfb, 0xfa, 0xf7]);
    assert_eq!(to_bytes(p.foreground), [0x2d, 0x25, 0x19]);
    assert_eq!(to_bytes(p.cursor), [0x1a, 0x00, 0xcc]);
    assert_eq!(to_bytes(p.selection), [0x33, 0x66, 0xd9]);
}

#[test]
fn parses_ansi_pair() {
    let p = parse_toml("red = [0xab0000, 0xff5555]\n");
    assert_eq!(to_bytes(p.ansi[1]), [0xab, 0x00, 0x00]);
    assert_eq!(to_bytes(p.ansi[9]), [0xff, 0x55, 0x55]);
    assert_eq!(p.ansi[2], Palette::defaults().ansi[2]);
}

#[test]
fn short_hex_is_high_bytes_not_css_shorthand() {
    let p = parse_toml("background = 0xff\nforeground = 0xf00\n");
    assert_eq!(to_bytes(p.background), [0x00, 0x00, 0xff]);
    assert_eq!(to_bytes(p.foreground), [0x00, 0x0f, 0x00]);
}

#[test]
fn out_of_range_color_rejected() {
    let p = parse_toml("background = 0x1000000\n");
    assert_eq!(p.background, Palette::defaults().background);
    let p = parse_toml("background = -1\n");
    assert_eq!(p.background, Palette::defaults().background);
}

#[test]
fn decimal_integer_color_accepted() {
    let p = parse_toml("background = 16777215\n");
    assert_eq!(to_bytes(p.background), [0xff, 0xff, 0xff]);
}

#[test]
fn bad_values_dont_poison_good_ones() {
    let src = "background = 0xfbfaf7\nbogus_key = 0x000000\nforeground = \"nothex\"\ncursor = 0x1a00cc\n";
    let p = parse_toml(src);
    assert_eq!(to_bytes(p.background), [0xfb, 0xfa, 0xf7]);
    assert_eq!(to_bytes(p.cursor), [0x1a, 0x00, 0xcc]);
    assert_eq!(p.foreground, Palette::defaults().foreground);
}

#[test]
fn invalid_toml_falls_back_to_defaults() {
    let p = parse_toml("background = 0x111111\nnonsense\n");
    assert_eq!(p, Palette::defaults());
}

#[test]
fn pair_wrong_arity_rejected() {
    let p = parse_toml("red = [0xab0000]\n");
    assert_eq!(p.ansi[1], Palette::defaults().ansi[1]);
    assert_eq!(p.ansi[9], Palette::defaults().ansi[9]);
}

#[test]
fn pair_with_one_bad_colour_changes_neither() {
    let p = parse_toml("red = [0xab0000, 0x1000000]\n");
    assert_eq!(p, Palette::defaults());
    let p = parse_toml("red = [\"x\", 0xab0000]\n");
    assert_eq!(p, Palette::defaults());
}

#[test]
fn trailing_comment_after_value() {
    let p = parse_toml("background = 0x123456 # nice color\n");
    assert_eq!(to_bytes(p.background), [0x12, 0x34, 0x56]);
}

#[test]
fn xterm_256_uses_palette_for_low_colors() {
    let mut p = Palette::defaults();
    let (one, nine) = (Rgb { r: 1, g: 2, b: 3 }, Rgb { r: 4, g: 5, b: 6 });
    p.ansi[1] = Some(one);
    p.ansi[9] = Some(nine);
    assert_eq!(p.xterm_256(1), Some(one));
    assert_eq!(p.xterm_256(9), Some(nine));
}

#[test]
fn xterm_256_cube_and_gray() {
    let p = Palette::defaults();
    assert_eq!(to_bytes(p.xterm_256(196)), [0xff, 0x00, 0x00]);
    let g = to_bytes(p.xterm_256(244));
    assert_eq!(g[0], g[1]);
    assert_eq!(g[1], g[2]);
    assert_eq!(g, [0x80, 0x80, 0x80]);
}

#[test]
fn ansi_indexing() {
    let mut p = Palette::defaults();
    for (i, slot) in p.ansi.iter_mut().enumerate() {
        *slot = Some(Rgb { r: i as u8, g: 0, b: 0 });
    }
    assert_eq!(p.ansi(0, false), p.ansi[0]);
    assert_eq!(p.ansi(7, false), p.ansi[7]);
    assert_eq!(p.ansi(0, true), p.ansi[8]);
    assert_eq!(p.ansi(7, true), p.ansi[15]);
}

#[test]
fn uppercase_hex_digits_accepted() {
    let p = parse_toml("background = 0xABCDEF\n");
    assert_eq!(to_bytes(p.background), [0xab, 0xcd, 0xef]);
}

#[test]
fn underscore_separated_hex_accepted() {
    let p = parse_toml("background = 0xab_cd_ef\n");
    assert_eq!(to_bytes(p.background), [0xab, 0xcd, 0xef]);
}

#[test]
fn multiple_ansi_hues_in_one_file() {
    let src = "\
black   = [0x000000, 0x808080]
red     = [0xaa0000, 0xff5555]
green   = [0x00aa00, 0x55ff55]
yellow  = [0xaa5500, 0xffff55]
blue    = [0x0000aa, 0x5555ff]
magenta = [0xaa00aa, 0xff55ff]
cyan    = [0x00aaaa, 0x55ffff]
white   = [0xaaaaaa, 0xffffff]
";
    let p = parse_toml(src);
    assert_eq!(to_bytes(p.ansi[0]), [0x00, 0x00, 0x00]);
    assert_eq!(to_bytes(p.ansi[7]), [0xaa, 0xaa, 0xaa]);
    assert_eq!(to_bytes(p.ansi[8]), [0x80, 0x80, 0x80]);
    assert_eq!(to_bytes(p.ansi[15]), [0xff, 0xff, 0xff]);
    assert_eq!(to_bytes(p.ansi[4]), [0x00, 0x00, 0xaa]);
    assert_eq!(to_bytes(p.ansi[12]), [0x55, 0x55, 0xff]);
}

#[test]
fn whitespace_tolerance() {
    let src = "background   =  0x111111\nred =  [ 0xaa0000 , 0xff5555 ]\n";
    let p = parse_toml(src);
    assert_eq!(to_bytes(p.background), [0x11, 0x11, 0x11]);
    assert_eq!(to_bytes(p.ansi[1]), [0xaa, 0x00, 0x00]);
    assert_eq!(to_bytes(p.ansi[9]), [0xff, 0x55, 0x55]);
}

#[test]
fn parse_is_idempotent() {
    let src = "\
background = 0xfbfaf7
foreground = 0x2d2519
red = [0xab0000, 0xff5555]
blue = [0x0000ab, 0x5555ff]
";
    assert_eq!(parse_toml(src), parse_toml(src));
}

#[test]
fn selection_fg_defaults_to_none() {
    assert_eq!(Palette::defaults().selection_fg, None);
    assert_eq!(parse_toml("background = 0x111111\n").selection_fg, None);
}

#[test]
fn parses_selection_fg() {
    let p = parse_toml("selection_fg = 0xffeeaa\n");
    assert_eq!(to_bytes(p.selection_fg), [0xff, 0xee, 0xaa]);
    let p = parse_toml("selection_foreground = 0x010203\n");
    assert_eq!(to_bytes(p.selection_fg), [0x01, 0x02, 0x03]);
}

#[test]
fn default_cap_is_truecolor() {
    assert_eq!(Palette::defaults().max_colors, ColorCap::Truecolor);
}

#[test]
fn parse_max_colors_string_values() {
    let cases = [
        ("mono", ColorCap::Mono),
        ("monochrome", ColorCap::Mono),
        ("8", ColorCap::Ansi8),
        ("16", ColorCap::Ansi16),
        ("256", ColorCap::Xterm256),
        ("truecolor", ColorCap::Truecolor),
        ("16m", ColorCap::Truecolor),
    ];
    for (literal, want) in cases {
        let p = parse_toml(&format!("max_colors = \"{}\"\n", literal));
        assert_eq!(p.max_colors, want, "literal '{}'", literal);
    }
}

#[test]
fn parse_max_colors_integer_values() {
    let cases = [
        (8, ColorCap::Ansi8),
        (16, ColorCap::Ansi16),
        (256, ColorCap::Xterm256),
        (16_777_216, ColorCap::Truecolor),
    ];
    for (literal, want) in cases {
        let p = parse_toml(&format!("max_colors = {}\n", literal));
        assert_eq!(p.max_colors, want, "literal {}", literal);
    }
}

#[test]
fn parse_max_colors_unknown_keeps_default() {
    let p = parse_toml("max_colors = 42\n");
    assert_eq!(p.max_colors, ColorCap::Truecolor);
    let p = parse_toml("max_colors = \"lots\"\n");
    assert_eq!(p.max_colors, ColorCap::Truecolor);
}

#[test]
fn defaults_glow_overrides_are_all_none() {
    assert_eq!(Palette::defaults().glow, GlowOverrides::default());
    assert_eq!(GlowOverrides::default().threshold, None);
}

#[test]
fn empty_toml_leaves_glow_overrides_none() {
    let p = parse_toml("# only comments\nbackground = 0x000000\n");
    assert_eq!(p.glow, GlowOverrides::default());
}

#[test]
fn parses_glow_bool_overrides() {
    let src = "\
glow_match_brightness = true
glow_match_bright_ansi = false
glow_match_foreground = true
glow_scanlines = true
glow_scanlines_content = false
glow_scanlines_skip_primary_bg = true
";
    let p = parse_toml(src);
    assert_eq!(p.glow.match_brightness, Some(true));
    assert_eq!(p.glow.match_bright_ansi, Some(false));
    assert_eq!(p.glow.match_foreground, Some(true));
    assert_eq!(p.glow.scanlines, Some(true));
    assert_eq!(p.glow.scanlines_content, Some(false));
    assert_eq!(p.glow.scanlines_skip_primary_bg, Some(true));
}

#[test]
fn parses_glow_numeric_overrides_in_range() {
    let src = "\
glow_threshold = 0.7
glow_intensity = 1.5
glow_softness = 0.4
glow_hue_tolerance_deg = 30
glow_fg_tolerance = 0.5
glow_iterations = 4
glow_scanline_strength = 0.6
glow_scanline_period = 5
glow_scanlines_content_strength = 0.3
glow_scanlines_content_attenuation = 0.8
";
    let p = parse_toml(src);
    assert_eq!(p.glow.threshold, float(0.7));
    assert_eq!(p.glow.intensity, float(1.5));
    assert_eq!(p.glow.softness, float(0.4));
    assert_eq!(p.glow.hue_tolerance_deg, Some(Number::Integer(30)));
    assert_eq!(p.glow.fg_tolerance, float(0.5));
    assert_eq!(p.glow.iterations, Some(4));
    assert_eq!(p.glow.scanline_strength, float(0.6));
    assert_eq!(p.glow.scanline_period, Some(Number::Integer(5)));
    assert_eq!(p.glow.scanlines_content_strength, float(0.3));
    assert_eq!(p.glow.scanlines_content_attenuation, float(0.8));
}

#[test]
fn parses_glow_scanline_color_overrides() {
    let p = parse_toml("glow_scanline_color_bright = 0xff00ff\nglow_scanline_color_dark = 0x112233\n");
    assert_eq!(to_bytes(p.glow.scanline_color_bright), [0xff, 0x00, 0xff]);
    assert_eq!(to_bytes(p.glow.scanline_color_dark), [0x11, 0x22, 0x33]);
}

#[test]
fn rgb_from_value_accepts_black_and_white_boundaries() {
    let black = rgb_from_value(&Value::Integer(0x000000)).expect("0x000000 in range");
    assert_eq!(to_bytes(Some(black)), [0x00, 0x00, 0x00]);
    let white = rgb_from_value(&Value::Integer(0xFF_FFFF)).expect("0xFFFFFF in range");
    assert_eq!(to_bytes(Some(white)), [0xff, 0xff, 0xff]);
}

#[test]
fn rgb_from_value_rejects_just_past_white() {
    let r = rgb_from_value(&Value::Integer(0x1_000000));
    assert_eq!(r, Err(SchemeError::OutOfRange));
}

#[test]
fn rgb_from_value_rejects_negative() {
    let r = rgb_from_value(&Value::Integer(-1));
    assert!(r.is_err(), "-1 should be rejected, got {:?}", r);
}

#[test]
fn rgb_from_value_rejects_non_integer_types() {
    assert_eq!(rgb_from_value(&Value::Text("0xffffff".into())), Err(SchemeError::WrongType));
    assert!(rgb_from_value(&Value::Float(1.0f64.to_bits())).is_err());
    assert!(rgb_from_value(&Value::Boolean(true)).is_err());
}

#[test]
fn glow_numeric_overrides_accept_float_and_integer_alike() {
    let pf = parse_toml("glow_threshold = 0.0\n");
    assert_eq!(pf.glow.threshold, float(0.0));
    let pi = parse_toml("glow_threshold = 1\n");
    assert_eq!(pi.glow.threshold, Some(Number::Integer(1)));
}

#[test]
fn invalid_glow_values_dont_poison_good_ones() {
    let src = "\
glow_threshold = \"notanumber\"
glow_intensity = 1.25
glow_match_brightness = \"maybe\"
glow_match_foreground = true
glow_scanline_color_bright = \"nothex\"
glow_scanline_period = 4
";
    let p = parse_toml(src);
    assert_eq!(p.glow.threshold, None);
    assert_eq!(p.glow.intensity, float(1.25));
    assert_eq!(p.glow.match_brightness, None);
    assert_eq!(p.glow.match_foreground, Some(true));
    assert_eq!(p.glow.scanline_color_bright, None);
    assert_eq!(p.glow.scanline_period, Some(Number::Integer(4)));
}

#[test]
fn every_refusal_has_its_reason() {
    let mut p = Palette::defaults();
    let before = p.clone();
    assert_eq!(p.apply("bogus", &Value::Integer(1)), Err(SchemeError::UnknownKey));
    assert_eq!(p.apply("cursor", &Value::Other), Err(SchemeError::WrongType));
    assert_eq!(
        p.apply("red", &Value::Array(vec![Some(1)])),
        Err(SchemeError::WrongLength)
    );
    assert_eq!(p.apply("cursor", &Value::Integer(1 << 24)), Err(SchemeError::OutOfRange));
    assert_eq!(p, before);
}

#[test]
fn entries_are_applied_in_order() {
    let entries = vec![
        ("background".to_string(), Value::Integer(1)),
        ("background".to_string(), Value::Integer(2)),
    ];
    assert_eq!(to_bytes(palette_from_entries(&entries).background), [0, 0, 2]);
}

#[test]
fn swatches_of_the_cube() {
    assert_eq!(swatch(15), Swatch::Ansi(15));
    assert_eq!(swatch(16), Swatch::Fixed(Rgb { r: 0, g: 0, b: 0 }));
    assert_eq!(swatch(231), Swatch::Fixed(Rgb { r: 255, g: 255, b: 255 }));
    assert_eq!(swatch(255), Swatch::Fixed(Rgb { r: 238, g: 238, b: 238 }));
}

#[test]
fn first_of_the_nearest_wins() {
    assert_eq!(nearest(&vec![5, 3, 3, 9]), 1);
    assert_eq!(nearest(&vec![7]), 0);
}

#[test]
fn caps_allow_their_colours() {
    assert_eq!(ColorCap::Mono.allowed(), Allowed::TwoTone);
    assert_eq!(ColorCap::Ansi8.allowed(), Allowed::Ansi(8));
    assert_eq!(ColorCap::Ansi16.allowed(), Allowed::Ansi(16));
    assert_eq!(ColorCap::Xterm256.allowed(), Allowed::Xterm);
    assert_eq!(ColorCap::Truecolor.allowed(), Allowed::All);
    assert_eq!(parse_color_cap(&Value::Text("mono".into())), Ok(ColorCap::Mono));
    assert_eq!(parse_color_cap(&Value::Boolean(true)), Err(SchemeError::WrongType));
}

#[test]
fn glow_threshold_clamps_high() {
    let p = parse_toml("glow_threshold = 2.0\n");
    assert_eq!(p.glow.threshold, float(1.0));
}

#[test]
fn glow_softness_clamps_low() {
    let p = parse_toml("glow_softness = -0.2\n");
    assert_eq!(p.glow.softness, float(0.0));
}

#[test]
fn glow_scanline_period_clamps_to_one() {
    let p = parse_toml("glow_scanline_period = 0.5\n");
    assert_eq!(p.glow.scanline_period, float(1.0));
}

#[test]
fn glow_intensity_clamps_low() {
    let p = parse_toml("glow_intensity = -1.0\n");
    assert_eq!(p.glow.intensity, float(0.0));
}

#[test]
fn glow_hue_tolerance_clamps_high() {
    let p = parse_toml("glow_hue_tolerance_deg = 500\n");
    assert_eq!(p.glow.hue_tolerance_deg, float(180.0));
}

#[test]
fn glow_fg_tolerance_clamps_to_sqrt3() {
    let p = parse_toml("glow_fg_tolerance = 5.0\n");
    match p.glow.fg_tolerance {
        Some(Number::Float(bits)) => {
            let got = f64::from_bits(bits) as f32;
            assert!((got - 3.0_f32.sqrt()).abs() < 1e-6, "got {}", got);
            assert_eq!(got, 3.0_f32.sqrt());
        }
        other => panic!("fg_tolerance override: {other:?}"),
    }
}

#[test]
fn numbers_are_held_to_their_range() {
    let ranges = [
        (Range::Unit, 0.0, Some(1.0)),
        (Range::HalfTurn, 0.0, Some(180.0)),
        (Range::ColorDistance, 0.0, Some(3.0_f32.sqrt() as f64)),
        (Range::FromZero, 0.0, None),
        (Range::FromOne, 1.0, None),
    ];
    let numbers = [
        -1e300, -2.0, -0.2, 0.0, 1e-300, 0.5, 0.999, 1.0, 1.001, 1.7, 1.8, 2.0, 179.5, 180.5, 1e300,
        f64::INFINITY, f64::NEG_INFINITY,
    ];
    for (range, least, most) in ranges {
        for n in numbers {
            let mut want: f64 = if n < least { least } else { n };
            if let Some(most) = most {
                want = if want > most { most } else { want };
            }
            let got = hold(Number::Float(n.to_bits()), range);
            assert_eq!(got, Number::Float(want.to_bits()), "{n} in {range:?}");
            assert_eq!(hold(got, range), got);
        }
        for i in [-7i64, 0, 1, 2, 180, 181] {
            let below = (i as f64) < least;
            let above = most.is_some_and(|m| i as f64 > m);
            let want = if below {
                Number::Float(least.to_bits())
            } else if above {
                Number::Float(most.unwrap().to_bits())
            } else {
                Number::Integer(i)
            };
            assert_eq!(hold(Number::Integer(i), range), want, "{i} in {range:?}");
        }
    }
    let nan = Number::Float(f64::NAN.to_bits());
    assert_eq!(hold(nan, Range::Unit), nan);
    assert_eq!(hold(nan, Range::FromOne), Number::Float(1.0f64.to_bits()));
}

#[test]
fn refused_keys_are_reported() {
    let (p, refused) =
        read_scheme("background = 0x112233\nred = 7\nnonsense = 1\nforeground = 0x1000000\n");
    assert_eq!(to_bytes(p.background), [0x11, 0x22, 0x33]);
    let mut refused = refused.expect("it is TOML");
    refused.sort_by(|a, b| a.0.cmp(&b.0));
    assert_eq!(
        refused,
        vec![
            ("foreground".to_string(), SchemeError::OutOfRange),
            ("nonsense".to_string(), SchemeError::UnknownKey),
            ("red".to_string(), SchemeError::WrongType),
        ]
    );
    assert!(read_scheme("not = = toml").1.is_none());
    assert_eq!(read_scheme("cursor = 1\n").1, Some(vec![]));
}

#[test]
fn bright_colours_fold_onto_normal_ones() {
    assert_eq!((folded(3, 8), folded(11, 8), folded(11, 16)), (3, 3, 11));
}
