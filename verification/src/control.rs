//! Working a running linear-tui the way a person does: the commands an
//! agent sends it (`linear-tui tui screen / press / type / run / open /
//! quit`), and the editor a description is written in.

use vstd::prelude::*;
use crate::resolve::{joined, push_joined, texts};
use crate::callback::{find_char, index_of, lemma_index_of};
use crate::resolve::{parse_u32, u32_value};
use crate::text::{chars_of, push_str, same_text, split_whitespace, string_of, words_of};

verus! {

/// What an agent asks the running linear-tui to do.
#[derive(Debug, Clone, PartialEq, Eq)]
pub enum Command {
    /// Report the screen.
    Screen,
    /// Quit.
    Quit,
    /// Press keys, in key notation.
    Press { keys: String },
    /// Type text into the field in focus; `-` stands for what comes on
    /// standard input.
    Type { text: String },
    /// Run the command of the palette with this title.
    Run { title: String },
    /// Open an issue by its identifier.
    Open { issue: String },
}

/// A command as the words that spell it.
pub enum Spelled {
    Screen,
    Quit,
    Press(Seq<char>),
    Type(Seq<char>),
    Run(Seq<char>),
    Open(Seq<char>),
}

pub open spec fn spelled_as(command: Command) -> Spelled {
    match command {
        Command::Screen => Spelled::Screen,
        Command::Quit => Spelled::Quit,
        Command::Press { keys } => Spelled::Press(keys@),
        Command::Type { text } => Spelled::Type(text@),
        Command::Run { title } => Spelled::Run(title@),
        Command::Open { issue } => Spelled::Open(issue@),
    }
}

/// The command the words spell: a verb, and for `press` and `run` the rest
/// of the words joined by spaces, for `type` and `open` exactly one more.
pub open spec fn spelled(words: Seq<Seq<char>>) -> Option<Spelled> {
    if words.len() == 1 && words[0] == "screen"@ {
        Some(Spelled::Screen)
    } else if words.len() == 1 && words[0] == "quit"@ {
        Some(Spelled::Quit)
    } else if words.len() >= 2 && words[0] == "press"@ {
        Some(Spelled::Press(joined(words.skip(1), " "@)))
    } else if words.len() == 2 && words[0] == "type"@ {
        Some(Spelled::Type(words[1]))
    } else if words.len() >= 2 && words[0] == "run"@ {
        Some(Spelled::Run(joined(words.skip(1), " "@)))
    } else if words.len() == 2 && words[0] == "open"@ {
        Some(Spelled::Open(words[1]))
    } else {
        None
    }
}

/// How the commands are spelled.
pub const USAGE: &'static str = "linear-tui tui <screen|press <keys>|type <text>|run <title>|open <ID>|quit> [--json] [--workspace <path>]";

fn rest_joined(words: &[String]) -> (s: String)
    requires
        words@.len() >= 1,
    ensures
        s@ == joined(texts(words@).skip(1), " "@),
{
    let mut rest: Vec<String> = Vec::new();
    let mut i: usize = 1;
    while i < words.len()
        invariant
            1 <= i <= words@.len(),
            texts(rest@) == texts(words@).subrange(1, i as int),
        decreases words@.len() - i,
    {
        let ghost before = texts(rest@);
        let w = words[i].clone();
        rest.push(w);
        assert(texts(rest@) =~= before.push(words@[i as int]@));
        assert(texts(rest@) =~= texts(words@).subrange(1, i + 1));
        i = i + 1;
    }
    assert(texts(words@).subrange(1, words@.len() as int) =~= texts(words@).skip(1));
    let mut s = String::new();
    push_joined(&mut s, &rest, " ");
    s
}

/// The command the words after `tui` spell; anything else is answered with
/// how the commands are spelled.
pub fn command(positional: &[String]) -> (r: Result<Command, String>)
    ensures
        match r {
            Ok(c) => spelled(texts(positional@)) == Some(spelled_as(c)),
            Err(e) => spelled(texts(positional@)) is None && e@ == "Usage: "@ + USAGE@,
        },
{
    let ghost words = texts(positional@);
    let n = positional.len();
    if n >= 1 {
        assert(words[0] == positional@[0]@);
        let verb = positional[0].as_str();
        if n == 1 && crate::text::same_text(verb, "screen") {
            return Ok(Command::Screen);
        }
        if n == 1 && crate::text::same_text(verb, "quit") {
            return Ok(Command::Quit);
        }
        if n >= 2 {
            assert(words[1] == positional@[1]@);
            if crate::text::same_text(verb, "press") {
                return Ok(Command::Press { keys: rest_joined(positional) });
            }
            if n == 2 && crate::text::same_text(verb, "type") {
                return Ok(Command::Type { text: positional[1].clone() });
            }
            if crate::text::same_text(verb, "run") {
                return Ok(Command::Run { title: rest_joined(positional) });
            }
            if n == 2 && crate::text::same_text(verb, "open") {
                return Ok(Command::Open { issue: positional[1].clone() });
            }
        }
    }
    let mut e = String::new();
    push_str(&mut e, "Usage: ");
    push_str(&mut e, USAGE);
    Err(e)
}

/// The words of a setting, if it has any.
pub open spec fn spoken(setting: Option<Seq<char>>) -> Option<Seq<Seq<char>>> {
    match setting {
        Some(text) => if words_of(text).len() > 0 {
            Some(words_of(text))
        } else {
            None
        },
        None => None,
    }
}

/// The editor to run and its arguments: `$VISUAL`, then `$EDITOR`, then
/// `vi`. A value may carry arguments (`code --wait`); an empty one is
/// skipped.
pub open spec fn editor_words(visual: Option<Seq<char>>, editor: Option<Seq<char>>) -> Seq<Seq<char>> {
    match spoken(visual) {
        Some(words) => words,
        None => match spoken(editor) {
            Some(words) => words,
            None => seq!["vi"@],
        },
    }
}

/// The editor to run and its arguments, from the values of `$VISUAL` and
/// `$EDITOR`.
pub fn editor_command(visual: Option<&str>, editor: Option<&str>) -> (command: Vec<String>)
    ensures
        texts(command@) == editor_words(
            match visual {
                Some(v) => Some(v@),
                None => None,
            },
            match editor {
                Some(e) => Some(e@),
                None => None,
            },
        ),
{
    match visual {
        Some(v) => {
            let words = split_whitespace(v);
            assert(texts(words@) =~= words@.map_values(|w: String| w@));
            if words.len() > 0 {
                return words;
            }
        },
        None => {},
    }
    match editor {
        Some(e) => {
            let words = split_whitespace(e);
            assert(texts(words@) =~= words@.map_values(|w: String| w@));
            if words.len() > 0 {
                return words;
            }
        },
        None => {},
    }
    let mut vi = String::new();
    push_str(&mut vi, "vi");
    let mut command: Vec<String> = Vec::new();
    command.push(vi);
    assert(texts(command@) =~= seq!["vi"@]);
    command
}

/// How a launch runs the TUI.
#[derive(Debug, Clone, Copy, PartialEq, Eq, Structural)]
pub enum Mode {
    /// In this terminal.
    Terminal,
    /// With no terminal, for agents alone: they read and drive it through
    /// the control channel.
    Headless { width: u16, height: u16 },
}

/// The width of the screen a headless instance draws, unless told otherwise.
pub const HEADLESS_WIDTH: u16 = 120;

/// The height of the screen a headless instance draws, unless told otherwise.
pub const HEADLESS_HEIGHT: u16 = 40;

/// How `--headless` and its options are used.
pub const HEADLESS_USAGE: &'static str = "Usage: linear-tui --headless [--size <width>x<height>]";

/// A screen dimension as `str::parse::<u16>` reads it.
pub open spec fn u16_value(s: Seq<char>) -> Option<u16> {
    match u32_value(s) {
        Some(n) => if n <= u16::MAX {
            Some(n as u16)
        } else {
            None
        },
        None => None,
    }
}

/// `<width>x<height>`, split at the first `x`.
pub open spec fn size_value(s: Seq<char>) -> Option<(u16, u16)> {
    match index_of(s, 'x', 0) {
        Some(p) => match (u16_value(s.take(p)), u16_value(s.skip(p + 1))) {
            (Some(w), Some(h)) => Some((w, h)),
            _ => None,
        },
        None => None,
    }
}

/// The size the options after `--headless` ask for: the default with none,
/// the one `--size` gives, or none at all when they are anything else.
pub open spec fn headless_size(args: Seq<Seq<char>>) -> Option<(u16, u16)> {
    if args.len() == 0 {
        Some((HEADLESS_WIDTH, HEADLESS_HEIGHT))
    } else if args.len() == 2 && args[0] == "--size"@ {
        size_value(args[1])
    } else {
        None
    }
}

fn parse_u16(s: &str) -> (r: Option<u16>)
    ensures
        r == u16_value(s@),
{
    match parse_u32(s) {
        Some(n) => if n <= 65535 {
            Some(n as u16)
        } else {
            None
        },
        None => None,
    }
}

/// `--headless [--size <W>x<H>]`: the mode the options after `--headless`
/// ask for, or the usage when they are not understood.
pub fn headless_mode(args: &[String]) -> (r: Result<Mode, String>)
    ensures
        match r {
            Ok(mode) => match headless_size(args@.map_values(|a: String| a@)) {
                Some((w, h)) => mode == (Mode::Headless { width: w, height: h }),
                None => false,
            },
            Err(e) => headless_size(args@.map_values(|a: String| a@)) is None && e@ == HEADLESS_USAGE@,
        },
{
    let ghost words = args@.map_values(|a: String| a@);
    if args.len() == 0 {
        return Ok(Mode::Headless { width: HEADLESS_WIDTH, height: HEADLESS_HEIGHT });
    }
    if args.len() == 2 && same_text(args[0].as_str(), "--size") {
        assert(words[0] == args@[0]@);
        assert(words[1] == args@[1]@);
        let v = chars_of(args[1].as_str());
        proof {
            lemma_index_of(v@, 'x', 0);
        }
        if let Some(p) = find_char(&v, 'x', 0) {
            let w = string_of(&v.as_slice()[0..p]);
            let h = string_of(&v.as_slice()[p + 1..v.len()]);
            assert(w@ =~= v@.take(p as int));
            assert(h@ =~= v@.skip(p + 1));
            match (parse_u16(w.as_str()), parse_u16(h.as_str())) {
                (Some(width), Some(height)) => {
                    return Ok(Mode::Headless { width, height });
                },
                _ => {},
            }
        }
    }
    Err(HEADLESS_USAGE.to_string())
}

/// `s` without the line breaks at its end.
pub open spec fn without_trailing_newlines(s: Seq<char>) -> Seq<char>
    decreases s.len(),
{
    if s.len() > 0 && s.last() == '\n' {
        without_trailing_newlines(s.drop_last())
    } else {
        s
    }
}

/// What the editor saved, as the text to use: the file without the line
/// breaks editors leave at its end.
pub fn saved_text(saved: &str) -> (text: &str)
    ensures
        text@ == without_trailing_newlines(saved@),
{
    let v = chars_of(saved);
    let mut j: usize = v.len();
    assert(v@.subrange(0, j as int) =~= v@);
    while j > 0 && v[j - 1] == '\n'
        invariant
            j <= v@.len(),
            v@ == saved@,
            without_trailing_newlines(saved@) == without_trailing_newlines(v@.subrange(0, j as int)),
        decreases j,
    {
        assert(v@.subrange(0, j as int).drop_last() =~= v@.subrange(0, j - 1));
        j = j - 1;
    }
    proof {
        if j > 0 {
            assert(v@.subrange(0, j as int).last() == v@[j - 1]);
        }
    }
    saved.substring_char(0, j)
}

}
