use simpleterm::color::{Color, Palette};
use simpleterm::layout::{
    back_scanline_color, front_scanline_color, max_characters, place_art, scanline_count,
};

fn art() -> Vec<String> {
    vec!["abcd".to_string(), "ef".to_string()]
}

#[test]
fn place_art_centers_block() {
    assert_eq!(place_art(800, 600, &art(), 10), (77_320, 59_540));
}

#[test]
fn place_art_doubling_width_moves_half() {
    let (x1, y1) = place_art(800, 600, &art(), 10);
    let (x2, y2) = place_art(1600, 600, &art(), 10);
    assert_eq!(x2 - x1, 200 * 800 / 2);
    assert_eq!(y1, y2);
}

#[test]
fn place_art_empty_block() {
    assert_eq!(place_art(800, 600, &Vec::new(), 10), (80_000, 60_000));
}

#[test]
fn max_characters_of_window() {
    assert_eq!(max_characters(800, 32), 53);
    assert_eq!(max_characters(420, 32), 28);
    assert_eq!(max_characters(0, 0), 0);
    assert_eq!(max_characters(10, 0), usize::MAX);
    assert_eq!(max_characters(5, 32), 0);
}

#[test]
fn scanlines() {
    assert_eq!(scanline_count(600), 190);
    assert_eq!(scanline_count(20), 0);
    let bg = Palette::DarkGrey.color();
    let fg = Palette::Gold.color();
    assert_eq!(back_scanline_color(bg, fg), Color { red: 0, green: 0, blue: 0, alpha: 128 });
    let light = Color { red: 240, green: 100, blue: 100, alpha: 255 };
    assert_eq!(back_scanline_color(light, bg), Color { red: 255, green: 138, blue: 138, alpha: 102 });
    assert_eq!(front_scanline_color(bg), Color { red: 41, green: 41, blue: 41, alpha: 102 });
}
