use simpleterm::color::{Color, Palette};

#[test]
fn emerald_brightness() {
    assert_eq!(Palette::Emerald.color().brightness(), 1_848_776_689_575);
}

#[test]
fn light_purple_brighter_than_dark_purple() {
    assert!(Palette::LightPurple.color().brighter_than(Palette::DarkPurple.color()));
    assert!(!Palette::DarkPurple.color().brighter_than(Palette::LightPurple.color()));
}

#[test]
fn bright_beats_dark_and_not_itself() {
    let bright = Color { red: 230, green: 220, blue: 210, alpha: 255 };
    let dark = Color { red: 20, green: 30, blue: 40, alpha: 255 };
    assert!(bright.brighter_than(dark));
    assert!(!bright.brighter_than(bright));
    assert!(!dark.brighter_than(dark));
}

#[test]
fn transparent_color_has_no_brightness() {
    let clear = Color { red: 255, green: 255, blue: 255, alpha: 0 };
    assert_eq!(clear.brightness(), 0);
    assert!(!clear.brighter_than(Color { red: 0, green: 0, blue: 0, alpha: 255 }));
}

#[test]
fn palette_channels() {
    assert_eq!(Palette::Crimson.color(), Color { red: 219, green: 20, blue: 61, alpha: 255 });
    assert_eq!(Palette::OffWhite.color(), Color { red: 250, green: 245, blue: 240, alpha: 255 });
    assert_eq!(Palette::cycle(0), Palette::Emerald);
    assert_eq!(Palette::cycle(3), Palette::LightPurple);
    assert_eq!(Palette::cycle(7), Palette::Crimson);
}
