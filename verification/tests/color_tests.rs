use piet_interp::color::{Color, Hue, Lightness};

#[test]
fn classifies_all_eighteen_palette_colors() {
    let cases: [((u8, u8, u8), Hue, Lightness, &str); 18] = [
        ((255, 192, 192), Hue::Red, Lightness::Light, "LightRed"),
        ((255, 0, 0), Hue::Red, Lightness::Normal, "Red"),
        ((192, 0, 0), Hue::Red, Lightness::Dark, "DarkRed"),
        ((255, 255, 192), Hue::Yellow, Lightness::Light, "LightYellow"),
        ((255, 255, 0), Hue::Yellow, Lightness::Normal, "Yellow"),
        ((192, 192, 0), Hue::Yellow, Lightness::Dark, "DarkYellow"),
        ((192, 255, 192), Hue::Green, Lightness::Light, "LightGreen"),
        ((0, 255, 0), Hue::Green, Lightness::Normal, "Green"),
        ((0, 192, 0), Hue::Green, Lightness::Dark, "DarkGreen"),
        ((192, 255, 255), Hue::Cyan, Lightness::Light, "LightCyan"),
        ((0, 255, 255), Hue::Cyan, Lightness::Normal, "Cyan"),
        ((0, 192, 192), Hue::Cyan, Lightness::Dark, "DarkCyan"),
        ((192, 192, 255), Hue::Blue, Lightness::Light, "LightBlue"),
        ((0, 0, 255), Hue::Blue, Lightness::Normal, "Blue"),
        ((0, 0, 192), Hue::Blue, Lightness::Dark, "DarkBlue"),
        ((255, 192, 255), Hue::Magenta, Lightness::Light, "LightMagenta"),
        ((255, 0, 255), Hue::Magenta, Lightness::Normal, "Magenta"),
        ((192, 0, 192), Hue::Magenta, Lightness::Dark, "DarkMagenta"),
    ];
    for (px, hue, lightness, name) in cases {
        let c = Color::from_px(&px).unwrap();
        assert_eq!(c.hue, hue);
        assert_eq!(c.lightness, lightness);
        assert_eq!(c.rgb_color, px);
        assert_eq!(c.mnemonic, name);
    }
}

#[test]
fn rejects_colors_outside_the_palette() {
    assert!(Color::from_px(&(10, 20, 30)).is_err());
    assert!(Color::from_px(&(254, 0, 0)).is_err());
    let msg = Color::from_px(&(10, 20, 30)).unwrap_err();
    assert_eq!(msg, "invalid color: (10, 20, 30)");
}

#[test]
fn rejects_the_two_sentinel_colors() {
    assert!(Color::from_px(&(0, 0, 0)).is_err());
    assert!(Color::from_px(&(255, 255, 255)).is_err());
}
