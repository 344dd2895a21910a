use vstd::prelude::*;
use crate::color::Color;
use crate::flash::elapsed;
use crate::layout::{max_characters, max_characters_of};
use crate::text::{pieces, reflow, reflow_lines, split_lines};

verus! {

/// What the terminal is doing.
#[derive(Debug, Clone, Copy, PartialEq, Eq, Structural)]
pub enum Phase {
    /// Nothing is shown or awaited.
    Idle,
    /// A message is being typed out, one character at a time.
    Typing,
    /// A message is shown until Enter is pressed.
    AwaitingContinue,
    /// A message is shown while a line of input is typed.
    AwaitingInput,
    /// A message is shown until its time is up.
    AwaitingTimer,
    /// Ascii art is shown until its time is up.
    ArtDisplay,
    /// The window was closed; the terminal does nothing more.
    Closed,
}

/// What a message waits for once it is typed out.
#[derive(Debug, Clone, Copy, PartialEq, Eq, Structural)]
pub enum Await {
    /// The Enter key.
    Enter,
    /// A line of input, ended by Enter.
    Input,
    /// The end of a given time.
    Timer,
}

/// The phase in which a message waits for `a`.
pub open spec fn waiting_phase(a: Await) -> Phase {
    match a {
        Await::Enter => Phase::AwaitingContinue,
        Await::Input => Phase::AwaitingInput,
        Await::Timer => Phase::AwaitingTimer,
    }
}

/// The number of columns that a message is laid out in: as many characters
/// as fit in the window's width, and at least one.
pub open spec fn message_columns(width: nat, font_size: nat) -> nat {
    if max_characters_of(width, font_size) == 0 {
        1
    } else {
        max_characters_of(width, font_size)
    }
}

/// The prompt that blinks while the terminal waits for Enter.
pub open spec fn continue_prompt() -> Seq<char> {
    seq!['P', 'r', 'e', 's', 's', ' ', 'F', 'o', 'l', 'l', 'o', 'w', ' ', 't', 'o', ' ', 'C',
        'o', 'n', 't', 'i', 'n', 'u', 'e']
}

/// The cursor drawn after typed text.
pub open spec fn cursor() -> Seq<char> {
    seq!['[', ']']
}

/// The name of the font that art is drawn in until another is chosen.
pub open spec fn default_art_font() -> Seq<char> {
    seq!['L', 'e', 'a', 'g', 'u', 'e', 'M', 'o', 'n', 'o', '-', 'R', 'e', 'g', 'u', 'l', 'a',
        'r', '.', 't', 't', 'f']
}

/// How many characters the lines of `msg` hold together.
pub open spec fn total_chars(msg: Seq<Seq<char>>) -> nat
    decreases msg.len(),
{
    if msg.len() == 0 {
        0
    } else {
        msg[0].len() + total_chars(msg.drop_first())
    }
}

/// The lines of `msg` as they stand once `k` of their characters are typed:
/// the lines typed in full, then the line being typed, cut after its typed
/// characters and followed by the cursor.
pub open spec fn typed_lines(msg: Seq<Seq<char>>, k: nat) -> Seq<Seq<char>>
    decreases msg.len(),
{
    if msg.len() == 0 {
        Seq::empty()
    } else if k >= msg[0].len() {
        seq![msg[0]] + typed_lines(msg.drop_first(), (k - msg[0].len()) as nat)
    } else {
        seq![msg[0].take(k as int) + cursor()]
    }
}

/// The state of a terminal: its colors, fonts, the message on it, the input
/// typed so far and what it is doing. The window and the glyphs that draw it
/// belong to the caller, which feeds events in and draws what this state
/// holds.
pub struct Terminal {
    /// The window's title.
    pub title: String,
    /// The background color.
    pub bg_color: Color,
    /// The foreground color of text, art and the border.
    pub fg_color: Color,
    /// Whether scanlines are drawn over the terminal.
    pub scanlines: bool,
    /// The font file of normal text.
    pub font: String,
    /// The font file of art.
    pub art_font: String,
    /// The font size of normal text.
    pub font_size: u32,
    /// The font size of art.
    pub art_font_size: u32,
    /// Whether the art font, rather than the text font, is loaded.
    pub art_mode: bool,
    /// What the terminal is doing.
    pub phase: Phase,
    /// The phase that follows once the message is typed out.
    pub after_typing: Phase,
    /// The lines on display.
    pub message: Vec<String>,
    /// The last line of input accepted with Enter in this message, or the
    /// prompt shown while Enter is awaited.
    pub input: String,
    /// The line of input being typed, not yet accepted.
    pub draft: String,
}

impl Terminal {
    /// A terminal with the given title, colors and text font, showing nothing.
    /// Art uses the font `LeagueMono-Regular.ttf` at size 10 and scanlines are
    /// on.
    pub fn new(title: &str, bg: Color, fg: Color, font: &str, font_size: u32) -> (t: Terminal)
        ensures
            t.title@ == title@,
            t.bg_color == bg,
            t.fg_color == fg,
            t.scanlines,
            t.font@ == font@,
            t.art_font@ == default_art_font(),
            t.font_size == font_size,
            t.art_font_size == 10,
            !t.art_mode,
            t.phase == Phase::Idle,
            t.after_typing == Phase::Idle,
            t.message@.len() == 0,
            t.input@.len() == 0,
            t.draft@.len() == 0,
    {
        proof {
            reveal_strlit("LeagueMono-Regular.ttf");
        }
        let art_font = String::from_str("LeagueMono-Regular.ttf");
        assert(art_font@ =~= default_art_font());
        Terminal {
            title: String::from_str(title),
            bg_color: bg,
            fg_color: fg,
            scanlines: true,
            font: String::from_str(font),
            art_font,
            font_size,
            art_font_size: 10,
            art_mode: false,
            phase: Phase::Idle,
            after_typing: Phase::Idle,
            message: Vec::new(),
            input: String::new(),
            draft: String::new(),
        }
    }

    /// Whether the window is still open.
    pub fn is_active(&self) -> (r: bool)
        ensures
            r == (self.phase != Phase::Closed),
    {
        self.phase != Phase::Closed
    }

    /// Records that the window was closed.
    pub fn close(&mut self)
        ensures
            *final(self) == (Terminal { phase: Phase::Closed, ..*old(self) }),
    {
        self.phase = Phase::Closed;
    }

    /// Chooses the font and size of normal text. Returns whether the caller
    /// must load the new font now, which is when text is the loaded kind. A
    /// closed terminal is left as it is.
    pub fn set_font(&mut self, font: &str, size: u32) -> (reload: bool)
        ensures
            old(self).phase == Phase::Closed ==> *final(self) == *old(self) && !reload,
            old(self).phase != Phase::Closed ==> {
                &&& final(self).font@ == font@
                &&& *final(self) == (Terminal {
                    font: final(self).font,
                    font_size: size,
                    ..*old(self)
                })
                &&& reload == !old(self).art_mode
            },
    {
        if self.phase == Phase::Closed {
            return false;
        }
        self.font = String::from_str(font);
        self.font_size = size;
        !self.art_mode
    }

    /// Chooses the font and size of art; a monospace font at a small size
    /// suits it best. Returns whether the caller must load the new font now,
    /// which is when art is the loaded kind. A closed terminal is left as it is.
    pub fn set_art_font(&mut self, font: &str, size: u32) -> (reload: bool)
        ensures
            old(self).phase == Phase::Closed ==> *final(self) == *old(self) && !reload,
            old(self).phase != Phase::Closed ==> {
                &&& final(self).art_font@ == font@
                &&& *final(self) == (Terminal {
                    art_font: final(self).art_font,
                    art_font_size: size,
                    ..*old(self)
                })
                &&& reload == old(self).art_mode
            },
    {
        if self.phase == Phase::Closed {
            return false;
        }
        self.art_font = String::from_str(font);
        self.art_font_size = size;
        self.art_mode
    }

    /// Sets the background and foreground colors, which the next frame uses.
    pub fn set_colors(&mut self, bgc: Color, fgc: Color)
        ensures
            *final(self) == (Terminal { bg_color: bgc, fg_color: fgc, ..*old(self) }),
    {
        self.bg_color = bgc;
        self.fg_color = fgc;
    }

    /// Puts a new message on the terminal in a window `width` pixels wide:
    /// its lines, split at line breaks and laid out to the window's width,
    /// are typed out next, and then the terminal waits for `then`. The input
    /// and the line being typed are cleared. Returns whether the caller must load the text font,
    /// which is when art was on display. A closed terminal is left as it is.
    pub fn begin_message(&mut self, message: &str, width: u32, then: Await) -> (reload: bool)
        ensures
            old(self).phase == Phase::Closed ==> *final(self) == *old(self) && !reload,
            old(self).phase != Phase::Closed ==> {
                &&& reload == old(self).art_mode
                &&& *final(self) == (Terminal {
                    art_mode: false,
                    message: final(self).message,
                    input: final(self).input,
                    draft: final(self).draft,
                    phase: Phase::Typing,
                    after_typing: waiting_phase(then),
                    ..*old(self)
                })
                &&& final(self).message.deep_view() == reflow_lines(
                    pieces(message@),
                    message_columns(width as nat, old(self).font_size as nat),
                )
                &&& final(self).input@.len() == 0
                &&& final(self).draft@.len() == 0
            },
    {
        if self.phase == Phase::Closed {
            return false;
        }
        let reload = self.art_mode;
        self.art_mode = false;
        let fitting = max_characters(width, self.font_size);
        let columns: usize = if fitting == 0 {
            1
        } else {
            fitting
        };
        let paragraphs = split_lines(message);
        self.message = match reflow(&paragraphs, columns) {
            Ok(lines) => lines,
            Err(_) => Vec::new(),
        };
        self.input = String::new();
        self.draft = String::new();
        self.phase = Phase::Typing;
        self.after_typing = match then {
            Await::Enter => Phase::AwaitingContinue,
            Await::Input => Phase::AwaitingInput,
            Await::Timer => Phase::AwaitingTimer,
        };
        reload
    }

    /// Whether `typed` characters cover the whole message.
    pub fn typing_done(&self, typed: usize) -> (r: bool)
        ensures
            r == (typed >= total_chars(self.message.deep_view())),
    {
        let ghost msg = self.message.deep_view();
        let mut left: usize = typed;
        let mut i: usize = 0;
        assert(msg.skip(0) =~= msg);
        while i < self.message.len()
            invariant
                msg == self.message.deep_view(),
                i <= self.message.len(),
                (typed >= total_chars(msg)) == (left >= total_chars(msg.skip(i as int))),
            decreases self.message.len() - i,
        {
            let len = self.message[i].as_str().unicode_len();
            proof {
                assert(msg.skip(i as int)[0] == msg[i as int]);
                assert(msg.skip(i as int).drop_first() =~= msg.skip(i + 1));
            }
            if left < len {
                return false;
            }
            left = left - len;
            i = i + 1;
        }
        assert(msg.skip(i as int) =~= Seq::<Seq<char>>::empty());
        true
    }

    /// The lines on display once `typed` characters of the message are typed
    /// out.
    pub fn typed_frame(&self, typed: usize) -> (r: Vec<String>)
        ensures
            r.deep_view() == typed_lines(self.message.deep_view(), typed as nat),
    {
        let ghost msg = self.message.deep_view();
        let mut out: Vec<String> = Vec::new();
        let mut left: usize = typed;
        let mut i: usize = 0;
        proof {
            assert(msg.skip(0) =~= msg);
            assert(out.deep_view() + typed_lines(msg, typed as nat) =~= typed_lines(msg, typed as nat));
        }
        while i < self.message.len()
            invariant
                msg == self.message.deep_view(),
                i <= self.message.len(),
                out.deep_view() + typed_lines(msg.skip(i as int), left as nat) == typed_lines(
                    msg,
                    typed as nat,
                ),
            decreases self.message.len() - i,
        {
            let line = self.message[i].as_str();
            let len = line.unicode_len();
            let ghost before = out.deep_view();
            proof {
                assert(msg.skip(i as int)[0] == line@);
                assert(msg.skip(i as int).drop_first() =~= msg.skip(i + 1));
            }
            if left < len {
                proof {
                    reveal_strlit("[]");
                }
                let mut partial = String::from_str(line.substring_char(0, left));
                partial.append("[]");
                out.push(partial);
                assert(partial@ =~= line@.take(left as int) + cursor());
                assert(out.deep_view() =~= before + seq![line@.take(left as int) + cursor()]);
                return out;
            }
            out.push(self.message[i].clone());
            assert(out.deep_view() =~= before + seq![line@]);
            left = left - len;
            i = i + 1;
        }
        assert(msg.skip(i as int) =~= Seq::<Seq<char>>::empty());
        assert(out.deep_view() + Seq::<Seq<char>>::empty() =~= out.deep_view());
        out
    }

    /// Ends the typing of a message: the terminal goes on to wait for what
    /// the message asked for, and while it waits for Enter the input line
    /// holds the prompt to press it. Outside typing nothing changes.
    pub fn finish_typing(&mut self)
        ensures
            old(self).phase != Phase::Typing ==> *final(self) == *old(self),
            old(self).phase == Phase::Typing ==> {
                &&& *final(self) == (Terminal {
                    phase: old(self).after_typing,
                    input: final(self).input,
                    ..*old(self)
                })
                &&& old(self).after_typing == Phase::AwaitingContinue ==> final(self).input@
                    == continue_prompt()
                &&& old(self).after_typing != Phase::AwaitingContinue ==> final(self).input
                    == old(self).input
            },
    {
        if self.phase != Phase::Typing {
            return ;
        }
        self.phase = self.after_typing;
        if self.after_typing == Phase::AwaitingContinue {
            proof {
                reveal_strlit("Press Follow to Continue");
            }
            self.input = String::from_str("Press Follow to Continue");
            assert(self.input@ =~= continue_prompt());
        }
    }

    /// Puts ascii art on the terminal, one line per piece between its line
    /// breaks, with empty input lines; it stays until its time is up.
    /// Returns whether the caller must load the art font, which is when text
    /// was on display. A closed terminal is left as it is.
    pub fn begin_art(&mut self, art: &str) -> (reload: bool)
        ensures
            old(self).phase == Phase::Closed ==> *final(self) == *old(self) && !reload,
            old(self).phase != Phase::Closed ==> {
                &&& reload == !old(self).art_mode
                &&& *final(self) == (Terminal {
                    art_mode: true,
                    message: final(self).message,
                    input: final(self).input,
                    draft: final(self).draft,
                    phase: Phase::ArtDisplay,
                    ..*old(self)
                })
                &&& final(self).message.deep_view() == pieces(art@)
                &&& final(self).input@.len() == 0
                &&& final(self).draft@.len() == 0
            },
    {
        if self.phase == Phase::Closed {
            return false;
        }
        let reload = !self.art_mode;
        self.art_mode = true;
        self.message = split_lines(art);
        self.input = String::new();
        self.draft = String::new();
        self.phase = Phase::ArtDisplay;
        reload
    }

    /// Adds typed `text` to the line being typed while input is awaited. The
    /// accepted input stays as it is.
    pub fn enter_text(&mut self, text: &str)
        ensures
            old(self).phase == Phase::AwaitingInput ==> {
                &&& final(self).draft@ == old(self).draft@ + text@
                &&& *final(self) == (Terminal { draft: final(self).draft, ..*old(self) })
            },
            old(self).phase != Phase::AwaitingInput ==> *final(self) == *old(self),
    {
        if self.phase == Phase::AwaitingInput {
            self.draft.append(text);
        }
    }

    /// Removes the last character of the line being typed while input is
    /// awaited. The accepted input stays as it is.
    pub fn backspace(&mut self)
        ensures
            old(self).phase == Phase::AwaitingInput && old(self).draft@.len() > 0 ==> {
                &&& final(self).draft@ == old(self).draft@.drop_last()
                &&& *final(self) == (Terminal { draft: final(self).draft, ..*old(self) })
            },
            !(old(self).phase == Phase::AwaitingInput && old(self).draft@.len() > 0)
                ==> *final(self) == *old(self),
    {
        if self.phase == Phase::AwaitingInput {
            let len = self.draft.as_str().unicode_len();
            if len > 0 {
                let shorter = String::from_str(self.draft.as_str().substring_char(0, len - 1));
                self.draft = shorter;
            }
        }
    }

    /// Handles the Enter key. While input is awaited and the line being
    /// typed is not empty, that line is accepted: it becomes the input, the
    /// line being typed is cleared, the terminal goes idle and the accepted
    /// line is returned. While Enter is awaited the terminal goes idle.
    /// Otherwise nothing changes.
    pub fn press_return(&mut self) -> (accepted: Option<String>)
        ensures
            old(self).phase == Phase::AwaitingInput && old(self).draft@.len() > 0 ==> {
                &&& accepted matches Some(s) && s@ == old(self).draft@
                &&& final(self).input@ == old(self).draft@
                &&& final(self).draft@.len() == 0
                &&& *final(self) == (Terminal {
                    phase: Phase::Idle,
                    input: final(self).input,
                    draft: final(self).draft,
                    ..*old(self)
                })
            },
            old(self).phase == Phase::AwaitingContinue ==> {
                &&& accepted is None
                &&& *final(self) == (Terminal { phase: Phase::Idle, ..*old(self) })
            },
            !(old(self).phase == Phase::AwaitingInput && old(self).draft@.len() > 0)
                && old(self).phase != Phase::AwaitingContinue ==> {
                &&& accepted is None
                &&& *final(self) == *old(self)
            },
    {
        if self.phase == Phase::AwaitingContinue {
            self.phase = Phase::Idle;
            return None;
        }
        if self.phase == Phase::AwaitingInput && self.draft.as_str().unicode_len() > 0 {
            self.phase = Phase::Idle;
            self.input = self.draft.clone();
            self.draft = String::new();
            return Some(self.input.clone());
        }
        None
    }

    /// The line being typed as drawn: followed by the cursor when
    /// `cursor_on`.
    pub fn input_line(&self, cursor_on: bool) -> (r: String)
        ensures
            cursor_on ==> r@ == self.draft@ + cursor(),
            !cursor_on ==> r@ == self.draft@,
    {
        let mut line = self.draft.clone();
        if cursor_on {
            proof {
                reveal_strlit("[]");
            }
            line.append("[]");
            assert(line@ =~= self.draft@ + cursor());
        }
        line
    }

    /// Ends a timed display once more than `timer` milliseconds have passed
    /// from `start` to `now`: the terminal goes idle and the result is true.
    /// Otherwise, and outside a timed display, nothing changes.
    pub fn check_timer(&mut self, start: u64, now: u64, timer: u64) -> (done: bool)
        ensures
            done == ((old(self).phase == Phase::AwaitingTimer || old(self).phase
                == Phase::ArtDisplay) && elapsed(now, start) > timer),
            done ==> *final(self) == (Terminal { phase: Phase::Idle, ..*old(self) }),
            !done ==> *final(self) == *old(self),
    {
        if self.phase != Phase::AwaitingTimer && self.phase != Phase::ArtDisplay {
            return false;
        }
        let passed: u64 = if now >= start {
            now - start
        } else {
            0
        };
        if passed > timer {
            self.phase = Phase::Idle;
            true
        } else {
            false
        }
    }
}

} // verus!
