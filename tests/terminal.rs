use simpleterm::color::Palette;
use simpleterm::terminal::{Await, Phase, Terminal};

fn term() -> Terminal {
    Terminal::new("test", Palette::DarkGrey.color(), Palette::Gold.color(), "font.ttf", 32)
}

#[test]
fn new_terminal_is_idle() {
    let t = term();
    assert_eq!(t.phase, Phase::Idle);
    assert!(t.is_active());
    assert_eq!(t.art_font, "LeagueMono-Regular.ttf");
    assert_eq!(t.art_font_size, 10);
    assert!(t.scanlines);
    assert!(t.message.is_empty());
}

#[test]
fn ask_flow() {
    let mut t = term();
    assert!(!t.begin_message("hello world\nsecond line", 320, Await::Input));
    assert_eq!(t.phase, Phase::Typing);
    assert_eq!(t.message, vec!["hello world", "second line"]);
    assert_eq!(t.typed_frame(3), vec!["hel[]"]);
    assert_eq!(t.typed_frame(11), vec!["hello world", "[]"]);
    assert_eq!(t.typed_frame(13), vec!["hello world", "se[]"]);
    assert_eq!(t.typed_frame(22), vec!["hello world", "second line"]);
    assert!(!t.typing_done(21));
    assert!(t.typing_done(22));
    t.finish_typing();
    assert_eq!(t.phase, Phase::AwaitingInput);
    t.enter_text("ab");
    t.enter_text("c");
    t.backspace();
    assert_eq!(t.input_line(true), "ab[]");
    assert_eq!(t.input_line(false), "ab");
    assert_eq!(t.input, "");
    assert_eq!(t.press_return(), Some("ab".to_string()));
    assert_eq!(t.phase, Phase::Idle);
    assert_eq!(t.input, "ab");
    assert_eq!(t.draft, "");
}

#[test]
fn unaccepted_typing_leaves_input() {
    let mut t = term();
    t.begin_message("first?", 800, Await::Input);
    t.finish_typing();
    t.enter_text("yes");
    assert_eq!(t.press_return(), Some("yes".to_string()));
    t.begin_message("second?", 800, Await::Input);
    t.finish_typing();
    assert_eq!(t.input, "");
    t.enter_text("partial");
    t.backspace();
    assert_eq!(t.draft, "partia");
    t.close();
    assert_eq!(t.input, "");
    assert_eq!(t.press_return(), None);
}

#[test]
fn message_wraps_to_window() {
    let mut t = term();
    t.begin_message("hello world", 80, Await::Timer);
    assert_eq!(t.message, vec!["hello", "world"]);
}

#[test]
fn empty_input_is_not_accepted() {
    let mut t = term();
    t.begin_message("name?", 800, Await::Input);
    t.finish_typing();
    assert_eq!(t.press_return(), None);
    assert_eq!(t.phase, Phase::AwaitingInput);
}

#[test]
fn tell_flow() {
    let mut t = term();
    t.begin_message("hi", 800, Await::Enter);
    t.finish_typing();
    assert_eq!(t.phase, Phase::AwaitingContinue);
    assert_eq!(t.input, "Press Follow to Continue");
    t.enter_text("x");
    assert_eq!(t.input, "Press Follow to Continue");
    assert_eq!(t.press_return(), None);
    assert_eq!(t.phase, Phase::Idle);
}

#[test]
fn art_and_fonts() {
    let mut t = term();
    assert!(t.begin_art("<('-'<)\n(>'-')>"));
    assert!(t.art_mode);
    assert_eq!(t.message, vec!["<('-'<)", "(>'-')>"]);
    assert!(!t.check_timer(0, 100, 200));
    assert!(t.check_timer(0, 201, 200));
    assert_eq!(t.phase, Phase::Idle);
    assert!(!t.begin_art("x"));
    assert!(t.set_art_font("mono.ttf", 12));
    assert!(!t.set_font("other.ttf", 20));
    assert!(t.begin_message("back to text", 800, Await::Timer));
    assert!(!t.art_mode);
    assert_eq!(t.font, "other.ttf");
}

#[test]
fn closed_terminal_ignores_requests() {
    let mut t = term();
    t.close();
    assert!(!t.is_active());
    assert!(!t.begin_message("hi", 800, Await::Enter));
    assert!(!t.begin_art("x"));
    assert!(!t.set_font("a.ttf", 3));
    assert_eq!(t.font, "font.ttf");
    assert_eq!(t.phase, Phase::Closed);
}

#[test]
fn set_colors_changes_both() {
    let mut t = term();
    t.set_colors(Palette::OffWhite.color(), Palette::Crimson.color());
    assert_eq!(t.bg_color, Palette::OffWhite.color());
    assert_eq!(t.fg_color, Palette::Crimson.color());
}
