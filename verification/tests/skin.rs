use rustamp::skin::{
    hex_text, optional_hex_text, parse_hex_color, parse_optional_hex_color, Color, Skin,
    SpectrumColors,
};

#[test]
fn default_skin_is_winamp() {
    assert_eq!(Skin::default(), Skin::winamp());
}

#[test]
fn preset_name_matches_builtin_and_not_custom() {
    assert_eq!(Skin::amber().preset_name(), Some("amber"));
    let mut custom = Skin::amber();
    custom.accent = Color::white();
    assert_eq!(custom.preset_name(), None);
}

#[test]
fn every_preset_names_itself() {
    for (name, skin) in Skin::presets() {
        assert_eq!(skin.preset_name(), Some(name));
    }
}

#[test]
fn winamp_uses_default_spectrum_and_toolkit_colors() {
    let s = Skin::winamp();
    assert_eq!(s.spectrum, SpectrumColors::default());
    assert_eq!(s.accent, Color::from_rgb(0, 255, 128));
    assert_eq!(s.text_dim, Color::light_gray());
    assert_eq!(s.error, Color::red());
    assert_eq!(Color::light_gray(), Color { r: 220, g: 220, b: 220, a: 255 });
    assert!(s.dark);
    assert_eq!(s.background, None);
}

#[test]
fn paper_is_the_light_preset() {
    let p = Skin::paper();
    assert!(!p.dark);
    assert_eq!(p.text_dim, Color::dark_gray());
    assert_eq!(Skin::presets().len(), 9);
    assert_eq!(Skin::presets()[8].0, "paper");
}

#[test]
fn colors_print_as_hex() {
    assert_eq!(hex_text(Skin::winamp().accent), "#00ff80");
    assert_eq!(hex_text(Color::from_rgb(8, 12, 8)), "#080c08");
    // Not opaque: the eight-digit form of the un-premultiplied channels.
    assert_eq!(hex_text(Color { r: 0, g: 0, b: 0, a: 0 }), "#00000000");
    assert_eq!(hex_text(Color { r: 128, g: 0, b: 0, a: 128 }), "#ff000080");
    // Optional colors always use the eight-digit form.
    assert_eq!(optional_hex_text(Some(Color::red())).as_deref(), Some("#ff0000ff"));
    assert_eq!(optional_hex_text(None), None);
}

#[test]
fn hex_colors_parse() {
    assert_eq!(parse_hex_color("#ff0000"), Ok(Color::red()));
    assert_eq!(parse_hex_color("#00FF80"), Ok(Skin::winamp().accent));
    assert_eq!(parse_hex_color("#f00"), Ok(Color::red()));
    assert_eq!(parse_hex_color("#ff0000ff"), Ok(Color::red()));
    assert_eq!(parse_optional_hex_color(None), Ok(None));
    assert_eq!(parse_optional_hex_color(Some("#ffffff")), Ok(Some(Color::white())));
}

#[test]
fn invalid_hex_text_is_refused() {
    let e = parse_hex_color("red").unwrap_err();
    assert_eq!(e.text, "red");
    assert!(parse_hex_color("ff0000").is_err());
    assert!(parse_hex_color("#ff00").is_ok()); // four digits: #rgba
    assert!(parse_hex_color("#ff000").is_err());
    assert!(parse_hex_color("#gg0000").is_err());
    assert_eq!(parse_optional_hex_color(Some("blue")).unwrap_err().text, "blue");
}

#[test]
fn every_preset_color_reads_back() {
    for (_, skin) in Skin::presets() {
        let s = skin.spectrum;
        for c in [skin.accent, skin.text_dim, skin.error, s.background, s.unlit, s.low, s.mid, s.high, s.peak] {
            assert_eq!(parse_hex_color(&hex_text(c)), Ok(c));
        }
    }
}
