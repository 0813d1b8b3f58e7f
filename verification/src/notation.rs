//! Key notation: how an agent — or a script, or a test — writes the keys it
//! presses (`linear-tui tui press`).
//!
//! Whitespace separates tokens. A token is either a key in angle brackets —
//! `<Enter>`, `<Esc>`, `<Tab>`, `<S-Tab>`, `<C-k>`, `<A-Enter>`, `<F5>` — or
//! plain characters, each pressed in turn: `gm` is `g` then `m`, the same as
//! `g m`. `<Space>` and `<lt>` stand for a space and `<`. Text with spaces in
//! it is typed rather than pressed (`linear-tui tui type`).

use vstd::prelude::*;
use crate::callback::{find_char, index_of, lemma_index_of};
use crate::resolve::{parse_u32, u32_value};
use crate::text::{chars_of, lower_char, ascii_lower, push_str, same_text, split_whitespace, words_of};

verus! {

/// A key of the keyboard.
#[derive(Debug, Clone, Copy, PartialEq, Eq, Structural)]
pub enum KeyCode {
    Char(char),
    Enter,
    Esc,
    Tab,
    BackTab,
    Backspace,
    Delete,
    Up,
    Down,
    Left,
    Right,
    Home,
    End,
    PageUp,
    PageDown,
    F(u8),
}

/// The modifiers held with a key.
#[derive(Debug, Clone, Copy, PartialEq, Eq, Structural)]
pub struct Modifiers {
    pub control: bool,
    pub alt: bool,
    pub shift: bool,
}

/// A key as a terminal reports it: the key, and the modifiers held.
#[derive(Debug, Clone, Copy, PartialEq, Eq, Structural)]
pub struct Key {
    pub code: KeyCode,
    pub modifiers: Modifiers,
}

pub open spec fn no_modifiers() -> Modifiers {
    Modifiers { control: false, alt: false, shift: false }
}

/// A typed character, reported the way a terminal does: capitals carry Shift.
pub open spec fn char_key_spec(c: char) -> Key {
    Key {
        code: KeyCode::Char(c),
        modifiers: Modifiers { control: false, alt: false, shift: 'A' <= c && c <= 'Z' },
    }
}

pub fn char_key(c: char) -> (key: Key)
    ensures
        key == char_key_spec(c),
{
    Key {
        code: KeyCode::Char(c),
        modifiers: Modifiers { control: false, alt: false, shift: 'A' <= c && c <= 'Z' },
    }
}

/// The modifier prefixes of a key name, `C-`, `A-` or `M-`, and `S-`, each
/// followed by more of the name, read off the front: the modifiers, and
/// what is left.
pub open spec fn strip_modifiers(rest: Seq<char>, mods: Modifiers) -> (Modifiers, Seq<char>)
    decreases rest.len(),
{
    match index_of(rest, '-', 0) {
        Some(p) => if 0 <= p && p + 1 < rest.len() {
            let prefix = rest.take(p);
            let tail = rest.skip(p + 1);
            if prefix == "C"@ {
                strip_modifiers(tail, Modifiers { control: true, ..mods })
            } else if prefix == "A"@ || prefix == "M"@ {
                strip_modifiers(tail, Modifiers { alt: true, ..mods })
            } else if prefix == "S"@ {
                strip_modifiers(tail, Modifiers { shift: true, ..mods })
            } else {
                (mods, rest)
            }
        } else {
            (mods, rest)
        },
        None => (mods, rest),
    }
}

/// The key a name stands for, in lowercase, among those with a name.
pub open spec fn key_named(lower: Seq<char>) -> Option<KeyCode> {
    if lower == "enter"@ || lower == "cr"@ {
        Some(KeyCode::Enter)
    } else if lower == "esc"@ {
        Some(KeyCode::Esc)
    } else if lower == "backtab"@ {
        Some(KeyCode::BackTab)
    } else if lower == "space"@ {
        Some(KeyCode::Char(' '))
    } else if lower == "lt"@ {
        Some(KeyCode::Char('<'))
    } else if lower == "bs"@ || lower == "backspace"@ {
        Some(KeyCode::Backspace)
    } else if lower == "del"@ || lower == "delete"@ {
        Some(KeyCode::Delete)
    } else if lower == "up"@ {
        Some(KeyCode::Up)
    } else if lower == "down"@ {
        Some(KeyCode::Down)
    } else if lower == "left"@ {
        Some(KeyCode::Left)
    } else if lower == "right"@ {
        Some(KeyCode::Right)
    } else if lower == "home"@ {
        Some(KeyCode::Home)
    } else if lower == "end"@ {
        Some(KeyCode::End)
    } else if lower == "pageup"@ || lower == "pgup"@ {
        Some(KeyCode::PageUp)
    } else if lower == "pagedown"@ || lower == "pgdn"@ {
        Some(KeyCode::PageDown)
    } else {
        None
    }
}

/// What `str::parse::<u8>` reads.
pub open spec fn u8_value(s: Seq<char>) -> Option<u8> {
    match u32_value(s) {
        Some(n) => if n <= 255 {
            Some(n as u8)
        } else {
            None
        },
        None => None,
    }
}

/// The key `<name>` stands for, or `None` for a name that is not a key.
pub open spec fn named_key(name: Seq<char>) -> Option<Key> {
    let (mods, rest) = strip_modifiers(name, no_modifiers());
    let lower = rest.map_values(|c: char| ascii_lower(c));
    if lower == "tab"@ {
        if mods.shift {
            Some(Key { code: KeyCode::BackTab, modifiers: Modifiers { shift: false, ..mods } })
        } else {
            Some(Key { code: KeyCode::Tab, modifiers: mods })
        }
    } else {
        match key_named(lower) {
            Some(code) => Some(Key { code, modifiers: mods }),
            None => if lower.len() > 1 && lower[0] == 'f' {
                match u8_value(lower.skip(1)) {
                    Some(n) => Some(Key { code: KeyCode::F(n), modifiers: mods }),
                    None => None,
                }
            } else if rest.len() == 1 {
                Some(Key { code: KeyCode::Char(rest[0]), modifiers: mods })
            } else {
                None
            },
        }
    }
}

/// Whether a token names one key, in angle brackets.
pub open spec fn bracketed(token: Seq<char>) -> bool {
    token.len() >= 2 && token[0] == '<' && token.last() == '>'
}

/// The keys the tokens press, or the first name that is not a key.
pub open spec fn tokens_keys(tokens: Seq<Seq<char>>) -> Result<Seq<Key>, Seq<char>>
    decreases tokens.len(),
{
    if tokens.len() == 0 {
        Ok(Seq::empty())
    } else {
        let token = tokens[0];
        let first: Result<Seq<Key>, Seq<char>> = if bracketed(token) {
            let name = token.subrange(1, token.len() - 1);
            match named_key(name) {
                Some(key) => Ok(seq![key]),
                None => Err(name),
            }
        } else {
            Ok(token.map_values(|c: char| char_key_spec(c)))
        };
        match first {
            Err(name) => Err(name),
            Ok(keys) => match tokens_keys(tokens.drop_first()) {
                Ok(more) => Ok(keys + more),
                Err(name) => Err(name),
            },
        }
    }
}

fn strip(name: &str) -> (r: (Modifiers, &str))
    ensures
        (r.0, r.1@) == strip_modifiers(name@, no_modifiers()),
{
    let mut mods = Modifiers { control: false, alt: false, shift: false };
    let mut rest = name;
    loop
        invariant
            strip_modifiers(name@, no_modifiers()) == strip_modifiers(rest@, mods),
        decreases rest@.len(),
    {
        let v = chars_of(rest);
        proof {
            lemma_index_of(v@, '-', 0);
        }
        let p = match find_char(&v, '-', 0) {
            Some(p) => p,
            None => return (mods, rest),
        };
        assert(p < v@.len());
        if v.len() - p <= 1 {
            return (mods, rest);
        }
        let prefix = rest.substring_char(0, p);
        let tail = rest.substring_char(p + 1, v.len());
        proof {
            assert(prefix@ =~= rest@.take(p as int));
            assert(tail@ =~= rest@.skip(p + 1));
        }
        if same_text(prefix, "C") {
            mods = Modifiers { control: true, ..mods };
        } else if same_text(prefix, "A") || same_text(prefix, "M") {
            mods = Modifiers { alt: true, ..mods };
        } else if same_text(prefix, "S") {
            mods = Modifiers { shift: true, ..mods };
        } else {
            return (mods, rest);
        }
        rest = tail;
    }
}

fn code_named(lower: &str) -> (code: Option<KeyCode>)
    ensures
        code == key_named(lower@),
{
    if same_text(lower, "enter") || same_text(lower, "cr") {
        Some(KeyCode::Enter)
    } else if same_text(lower, "esc") {
        Some(KeyCode::Esc)
    } else if same_text(lower, "backtab") {
        Some(KeyCode::BackTab)
    } else if same_text(lower, "space") {
        Some(KeyCode::Char(' '))
    } else if same_text(lower, "lt") {
        Some(KeyCode::Char('<'))
    } else if same_text(lower, "bs") || same_text(lower, "backspace") {
        Some(KeyCode::Backspace)
    } else if same_text(lower, "del") || same_text(lower, "delete") {
        Some(KeyCode::Delete)
    } else if same_text(lower, "up") {
        Some(KeyCode::Up)
    } else if same_text(lower, "down") {
        Some(KeyCode::Down)
    } else if same_text(lower, "left") {
        Some(KeyCode::Left)
    } else if same_text(lower, "right") {
        Some(KeyCode::Right)
    } else if same_text(lower, "home") {
        Some(KeyCode::Home)
    } else if same_text(lower, "end") {
        Some(KeyCode::End)
    } else if same_text(lower, "pageup") || same_text(lower, "pgup") {
        Some(KeyCode::PageUp)
    } else if same_text(lower, "pagedown") || same_text(lower, "pgdn") {
        Some(KeyCode::PageDown)
    } else {
        None
    }
}

fn lowercase_ascii(s: &str) -> (l: String)
    ensures
        l@ == s@.map_values(|c: char| ascii_lower(c)),
{
    let v = chars_of(s);
    let mut l = String::new();
    let mut i: usize = 0;
    while i < v.len()
        invariant
            v@ == s@,
            i <= v@.len(),
            l@ == s@.take(i as int).map_values(|c: char| ascii_lower(c)),
        decreases v@.len() - i,
    {
        crate::text::push_char(&mut l, lower_char(v[i]));
        assert(s@.take(i + 1).map_values(|c: char| ascii_lower(c)) =~= s@.take(i as int).map_values(
            |c: char| ascii_lower(c),
        ).push(ascii_lower(v@[i as int])));
        i = i + 1;
    }
    assert(s@.take(v@.len() as int) =~= s@);
    l
}

/// The key `<name>` stands for.
fn named(name: &str) -> (key: Option<Key>)
    ensures
        key == named_key(name@),
{
    let (mods, rest) = strip(name);
    let lower = lowercase_ascii(rest);
    if same_text(lower.as_str(), "tab") {
        if mods.shift {
            return Some(Key { code: KeyCode::BackTab, modifiers: Modifiers { shift: false, ..mods } });
        }
        return Some(Key { code: KeyCode::Tab, modifiers: mods });
    }
    match code_named(lower.as_str()) {
        Some(code) => return Some(Key { code, modifiers: mods }),
        None => {},
    }
    let lv = chars_of(lower.as_str());
    if lv.len() > 1 && lv[0] == 'f' {
        let digits = lower.as_str().substring_char(1, lv.len());
        assert(digits@ =~= lower@.skip(1));
        return match parse_u32(digits) {
            Some(n) => if n <= 255 {
                Some(Key { code: KeyCode::F(n as u8), modifiers: mods })
            } else {
                None
            },
            None => None,
        };
    }
    let rv = chars_of(rest);
    if rv.len() == 1 {
        Some(Key { code: KeyCode::Char(rv[0]), modifiers: mods })
    } else {
        None
    }
}

/// Parse a key sequence; a name in angle brackets that is not a key is an
/// error that quotes it.
pub fn parse(keys: &str) -> (r: Result<Vec<Key>, String>)
    ensures
        match r {
            Ok(v) => tokens_keys(words_of(keys@)) == Ok::<Seq<Key>, Seq<char>>(v@),
            Err(e) => exists|name: Seq<char>|
                tokens_keys(words_of(keys@)) == Err::<Seq<Key>, Seq<char>>(name) && e@ == "unknown key <"@
                    + name + ">"@,
        },
{
    let tokens = split_whitespace(keys);
    let ghost all = words_of(keys@);
    let mut events: Vec<Key> = Vec::new();
    let mut k: usize = 0;
    assert(all.skip(0) =~= all);
    while k < tokens.len()
        invariant
            all == words_of(keys@),
            tokens@.map_values(|w: String| w@) == all,
            k <= tokens@.len(),
            tokens_keys(all) == match tokens_keys(all.skip(k as int)) {
                Ok(more) => Ok(events@ + more),
                Err(name) => Err(name),
            },
        decreases tokens@.len() - k,
    {
        let token = tokens[k].as_str();
        let ghost rest = all.skip(k as int);
        assert(rest[0] == token@);
        assert(rest.drop_first() =~= all.skip(k + 1));
        let v = chars_of(token);
        let n = v.len();
        if n >= 2 && v[0] == '<' && v[n - 1] == '>' {
            let name = token.substring_char(1, n - 1);
            match named(name) {
                Some(key) => {
                    let ghost before = events@;
                    events.push(key);
                    proof {
                        match tokens_keys(all.skip(k + 1)) {
                            Ok(more) => {
                                assert(before + (seq![key] + more) =~= events@ + more);
                            },
                            Err(_) => {},
                        }
                    }
                },
                None => {
                    let mut e = String::new();
                    push_str(&mut e, "unknown key <");
                    push_str(&mut e, name);
                    push_str(&mut e, ">");
                    return Err(e);
                },
            }
        } else {
            let ghost before = events@;
            let mut i: usize = 0;
            while i < n
                invariant
                    n == v@.len(),
                    v@ == token@,
                    i <= n,
                    events@ == before + token@.take(i as int).map_values(|c: char| char_key_spec(c)),
                decreases n - i,
            {
                events.push(char_key(v[i]));
                assert(token@.take(i + 1).map_values(|c: char| char_key_spec(c)) =~= token@.take(
                    i as int,
                ).map_values(|c: char| char_key_spec(c)).push(char_key_spec(v@[i as int])));
                i = i + 1;
            }
            proof {
                assert(token@.take(n as int) =~= token@);
                match tokens_keys(all.skip(k + 1)) {
                    Ok(more) => {
                        assert(before + (token@.map_values(|c: char| char_key_spec(c)) + more) =~= events@
                            + more);
                    },
                    Err(_) => {},
                }
            }
        }
        k = k + 1;
    }
    assert(all.skip(k as int) =~= Seq::<Seq<char>>::empty());
    assert(events@ + Seq::<Key>::empty() =~= events@);
    Ok(events)
}


/// A key with no modifier held.
pub open spec fn bare(code: KeyCode) -> Key {
    Key { code, modifiers: no_modifiers() }
}

proof fn lemma_lowered_name(name: Seq<char>, word: Seq<char>)
    requires
        crate::text::same_ignoring_ascii_case(name, word),
        forall|i: int| 0 <= i < word.len() ==> 'a' <= #[trigger] word[i] <= 'z',
    ensures
        name.map_values(|c: char| ascii_lower(c)) == word,
{
    assert forall|i: int| 0 <= i < word.len() implies name.map_values(|c: char| ascii_lower(c))[i] == word[i] by {
        assert(ascii_lower(name[i]) == ascii_lower(word[i]));
    }
    assert(name.map_values(|c: char| ascii_lower(c)) =~= word);
}

/// A name with no modifier prefix, spelled as `word` in any ASCII case,
/// presses the key `word` names.
proof fn lemma_named_word(name: Seq<char>, word: Seq<char>, code: KeyCode)
    requires
        forall|i: int| 0 <= i < name.len() ==> name[i] != '-',
        crate::text::same_ignoring_ascii_case(name, word),
        forall|i: int| 0 <= i < word.len() ==> 'a' <= #[trigger] word[i] <= 'z',
        word != "tab"@,
        key_named(word) == Some(code),
    ensures
        named_key(name) == Some(bare(code)),
{
    lemma_index_of(name, '-', 0);
    assert(strip_modifiers(name, no_modifiers()) == (no_modifiers(), name));
    lemma_lowered_name(name, word);
}

proof fn lemma_key_words()
    ensures
        "up"@.len() == 2,
        "up"@[0] == 'u',
        "up"@[1] == 'p',
        "down"@.len() == 4,
        "down"@[0] == 'd',
        "down"@[1] == 'o',
        "down"@[2] == 'w',
        "down"@[3] == 'n',
        "left"@.len() == 4,
        "left"@[0] == 'l',
        "left"@[1] == 'e',
        "left"@[2] == 'f',
        "left"@[3] == 't',
        "right"@.len() == 5,
        "right"@[0] == 'r',
        "right"@[1] == 'i',
        "right"@[2] == 'g',
        "right"@[3] == 'h',
        "right"@[4] == 't',
        "home"@.len() == 4,
        "home"@[0] == 'h',
        "home"@[1] == 'o',
        "home"@[2] == 'm',
        "home"@[3] == 'e',
        "end"@.len() == 3,
        "end"@[0] == 'e',
        "end"@[1] == 'n',
        "end"@[2] == 'd',
        "pageup"@.len() == 6,
        "pageup"@[0] == 'p',
        "pageup"@[1] == 'a',
        "pageup"@[2] == 'g',
        "pageup"@[3] == 'e',
        "pageup"@[4] == 'u',
        "pageup"@[5] == 'p',
        "pgup"@.len() == 4,
        "pgup"@[0] == 'p',
        "pgup"@[1] == 'g',
        "pgup"@[2] == 'u',
        "pgup"@[3] == 'p',
        "pagedown"@.len() == 8,
        "pagedown"@[0] == 'p',
        "pagedown"@[1] == 'a',
        "pagedown"@[2] == 'g',
        "pagedown"@[3] == 'e',
        "pagedown"@[4] == 'd',
        "pagedown"@[5] == 'o',
        "pagedown"@[6] == 'w',
        "pagedown"@[7] == 'n',
        "pgdn"@.len() == 4,
        "pgdn"@[0] == 'p',
        "pgdn"@[1] == 'g',
        "pgdn"@[2] == 'd',
        "pgdn"@[3] == 'n',
        "enter"@.len() == 5,
        "enter"@[0] == 'e',
        "enter"@[1] == 'n',
        "enter"@[2] == 't',
        "enter"@[3] == 'e',
        "enter"@[4] == 'r',
        "cr"@.len() == 2,
        "cr"@[0] == 'c',
        "cr"@[1] == 'r',
        "esc"@.len() == 3,
        "esc"@[0] == 'e',
        "esc"@[1] == 's',
        "esc"@[2] == 'c',
        "backtab"@.len() == 7,
        "backtab"@[0] == 'b',
        "backtab"@[1] == 'a',
        "backtab"@[2] == 'c',
        "backtab"@[3] == 'k',
        "backtab"@[4] == 't',
        "backtab"@[5] == 'a',
        "backtab"@[6] == 'b',
        "space"@.len() == 5,
        "space"@[0] == 's',
        "space"@[1] == 'p',
        "space"@[2] == 'a',
        "space"@[3] == 'c',
        "space"@[4] == 'e',
        "lt"@.len() == 2,
        "lt"@[0] == 'l',
        "lt"@[1] == 't',
        "bs"@.len() == 2,
        "bs"@[0] == 'b',
        "bs"@[1] == 's',
        "backspace"@.len() == 9,
        "backspace"@[0] == 'b',
        "backspace"@[1] == 'a',
        "backspace"@[2] == 'c',
        "backspace"@[3] == 'k',
        "backspace"@[4] == 's',
        "backspace"@[5] == 'p',
        "backspace"@[6] == 'a',
        "backspace"@[7] == 'c',
        "backspace"@[8] == 'e',
        "del"@.len() == 3,
        "del"@[0] == 'd',
        "del"@[1] == 'e',
        "del"@[2] == 'l',
        "delete"@.len() == 6,
        "delete"@[0] == 'd',
        "delete"@[1] == 'e',
        "delete"@[2] == 'l',
        "delete"@[3] == 'e',
        "delete"@[4] == 't',
        "delete"@[5] == 'e',
        "tab"@.len() == 3,
        "tab"@[0] == 't',
        "tab"@[1] == 'a',
        "tab"@[2] == 'b',
{
    reveal_strlit("up");
    reveal_strlit("down");
    reveal_strlit("left");
    reveal_strlit("right");
    reveal_strlit("home");
    reveal_strlit("end");
    reveal_strlit("pageup");
    reveal_strlit("pgup");
    reveal_strlit("pagedown");
    reveal_strlit("pgdn");
    reveal_strlit("enter");
    reveal_strlit("cr");
    reveal_strlit("esc");
    reveal_strlit("backtab");
    reveal_strlit("space");
    reveal_strlit("lt");
    reveal_strlit("bs");
    reveal_strlit("backspace");
    reveal_strlit("del");
    reveal_strlit("delete");
    reveal_strlit("tab");
}

proof fn lemma_arrow_names()
    ensures
        key_named("up"@) == Some(KeyCode::Up),
        forall|i: int| 0 <= i < "up"@.len() ==> 'a' <= #[trigger] "up"@[i] <= 'z',
        "up"@ != "tab"@,
        key_named("down"@) == Some(KeyCode::Down),
        forall|i: int| 0 <= i < "down"@.len() ==> 'a' <= #[trigger] "down"@[i] <= 'z',
        "down"@ != "tab"@,
        key_named("left"@) == Some(KeyCode::Left),
        forall|i: int| 0 <= i < "left"@.len() ==> 'a' <= #[trigger] "left"@[i] <= 'z',
        "left"@ != "tab"@,
        key_named("right"@) == Some(KeyCode::Right),
        forall|i: int| 0 <= i < "right"@.len() ==> 'a' <= #[trigger] "right"@[i] <= 'z',
        "right"@ != "tab"@,
        key_named("home"@) == Some(KeyCode::Home),
        forall|i: int| 0 <= i < "home"@.len() ==> 'a' <= #[trigger] "home"@[i] <= 'z',
        "home"@ != "tab"@,
        key_named("end"@) == Some(KeyCode::End),
        forall|i: int| 0 <= i < "end"@.len() ==> 'a' <= #[trigger] "end"@[i] <= 'z',
        "end"@ != "tab"@,
{
    lemma_key_words();
}

proof fn lemma_page_names()
    ensures
        key_named("pageup"@) == Some(KeyCode::PageUp),
        forall|i: int| 0 <= i < "pageup"@.len() ==> 'a' <= #[trigger] "pageup"@[i] <= 'z',
        "pageup"@ != "tab"@,
        key_named("pgup"@) == Some(KeyCode::PageUp),
        forall|i: int| 0 <= i < "pgup"@.len() ==> 'a' <= #[trigger] "pgup"@[i] <= 'z',
        "pgup"@ != "tab"@,
        key_named("pagedown"@) == Some(KeyCode::PageDown),
        forall|i: int| 0 <= i < "pagedown"@.len() ==> 'a' <= #[trigger] "pagedown"@[i] <= 'z',
        "pagedown"@ != "tab"@,
        key_named("pgdn"@) == Some(KeyCode::PageDown),
        forall|i: int| 0 <= i < "pgdn"@.len() ==> 'a' <= #[trigger] "pgdn"@[i] <= 'z',
        "pgdn"@ != "tab"@,
{
    lemma_key_words();
}

proof fn lemma_entry_names()
    ensures
        key_named("enter"@) == Some(KeyCode::Enter),
        forall|i: int| 0 <= i < "enter"@.len() ==> 'a' <= #[trigger] "enter"@[i] <= 'z',
        "enter"@ != "tab"@,
        key_named("cr"@) == Some(KeyCode::Enter),
        forall|i: int| 0 <= i < "cr"@.len() ==> 'a' <= #[trigger] "cr"@[i] <= 'z',
        "cr"@ != "tab"@,
        key_named("esc"@) == Some(KeyCode::Esc),
        forall|i: int| 0 <= i < "esc"@.len() ==> 'a' <= #[trigger] "esc"@[i] <= 'z',
        "esc"@ != "tab"@,
        key_named("backtab"@) == Some(KeyCode::BackTab),
        forall|i: int| 0 <= i < "backtab"@.len() ==> 'a' <= #[trigger] "backtab"@[i] <= 'z',
        "backtab"@ != "tab"@,
        key_named("space"@) == Some(KeyCode::Char(' ')),
        forall|i: int| 0 <= i < "space"@.len() ==> 'a' <= #[trigger] "space"@[i] <= 'z',
        "space"@ != "tab"@,
        key_named("lt"@) == Some(KeyCode::Char('<')),
        forall|i: int| 0 <= i < "lt"@.len() ==> 'a' <= #[trigger] "lt"@[i] <= 'z',
        "lt"@ != "tab"@,
{
    lemma_key_words();
}

proof fn lemma_erasing_names()
    ensures
        key_named("bs"@) == Some(KeyCode::Backspace),
        forall|i: int| 0 <= i < "bs"@.len() ==> 'a' <= #[trigger] "bs"@[i] <= 'z',
        "bs"@ != "tab"@,
        key_named("backspace"@) == Some(KeyCode::Backspace),
        forall|i: int| 0 <= i < "backspace"@.len() ==> 'a' <= #[trigger] "backspace"@[i] <= 'z',
        "backspace"@ != "tab"@,
        key_named("del"@) == Some(KeyCode::Delete),
        forall|i: int| 0 <= i < "del"@.len() ==> 'a' <= #[trigger] "del"@[i] <= 'z',
        "del"@ != "tab"@,
        key_named("delete"@) == Some(KeyCode::Delete),
        forall|i: int| 0 <= i < "delete"@.len() ==> 'a' <= #[trigger] "delete"@[i] <= 'z',
        "delete"@ != "tab"@,
{
    lemma_key_words();
}

/// Each key with a name is pressed by writing that name in angle brackets,
/// in any mix of ASCII case: `<Up>` is the up arrow, `<Down>` the down
/// arrow, and so on, with no modifier held.
pub proof fn lemma_names_press_their_keys(name: Seq<char>)
    requires
        forall|i: int| 0 <= i < name.len() ==> name[i] != '-',
    ensures
        crate::text::same_ignoring_ascii_case(name, "up"@) ==> named_key(name) == Some(bare(KeyCode::Up)),
        crate::text::same_ignoring_ascii_case(name, "down"@) ==> named_key(name) == Some(bare(KeyCode::Down)),
        crate::text::same_ignoring_ascii_case(name, "left"@) ==> named_key(name) == Some(bare(KeyCode::Left)),
        crate::text::same_ignoring_ascii_case(name, "right"@) ==> named_key(name) == Some(bare(KeyCode::Right)),
        crate::text::same_ignoring_ascii_case(name, "home"@) ==> named_key(name) == Some(bare(KeyCode::Home)),
        crate::text::same_ignoring_ascii_case(name, "end"@) ==> named_key(name) == Some(bare(KeyCode::End)),
        crate::text::same_ignoring_ascii_case(name, "pageup"@) ==> named_key(name) == Some(bare(KeyCode::PageUp)),
        crate::text::same_ignoring_ascii_case(name, "pgup"@) ==> named_key(name) == Some(bare(KeyCode::PageUp)),
        crate::text::same_ignoring_ascii_case(name, "pagedown"@) ==> named_key(name) == Some(bare(KeyCode::PageDown)),
        crate::text::same_ignoring_ascii_case(name, "pgdn"@) ==> named_key(name) == Some(bare(KeyCode::PageDown)),
        crate::text::same_ignoring_ascii_case(name, "enter"@) ==> named_key(name) == Some(bare(KeyCode::Enter)),
        crate::text::same_ignoring_ascii_case(name, "cr"@) ==> named_key(name) == Some(bare(KeyCode::Enter)),
        crate::text::same_ignoring_ascii_case(name, "esc"@) ==> named_key(name) == Some(bare(KeyCode::Esc)),
        crate::text::same_ignoring_ascii_case(name, "backtab"@) ==> named_key(name) == Some(bare(KeyCode::BackTab)),
        crate::text::same_ignoring_ascii_case(name, "space"@) ==> named_key(name) == Some(bare(KeyCode::Char(' '))),
        crate::text::same_ignoring_ascii_case(name, "lt"@) ==> named_key(name) == Some(bare(KeyCode::Char('<'))),
        crate::text::same_ignoring_ascii_case(name, "bs"@) ==> named_key(name) == Some(bare(KeyCode::Backspace)),
        crate::text::same_ignoring_ascii_case(name, "backspace"@) ==> named_key(name) == Some(bare(KeyCode::Backspace)),
        crate::text::same_ignoring_ascii_case(name, "del"@) ==> named_key(name) == Some(bare(KeyCode::Delete)),
        crate::text::same_ignoring_ascii_case(name, "delete"@) ==> named_key(name) == Some(bare(KeyCode::Delete)),
        crate::text::same_ignoring_ascii_case(name, "tab"@) ==> named_key(name) == Some(bare(KeyCode::Tab)),
{
    lemma_arrow_names();
    lemma_page_names();
    lemma_entry_names();
    lemma_erasing_names();
    if crate::text::same_ignoring_ascii_case(name, "up"@) {
        lemma_named_word(name, "up"@, KeyCode::Up);
    }
    if crate::text::same_ignoring_ascii_case(name, "down"@) {
        lemma_named_word(name, "down"@, KeyCode::Down);
    }
    if crate::text::same_ignoring_ascii_case(name, "left"@) {
        lemma_named_word(name, "left"@, KeyCode::Left);
    }
    if crate::text::same_ignoring_ascii_case(name, "right"@) {
        lemma_named_word(name, "right"@, KeyCode::Right);
    }
    if crate::text::same_ignoring_ascii_case(name, "home"@) {
        lemma_named_word(name, "home"@, KeyCode::Home);
    }
    if crate::text::same_ignoring_ascii_case(name, "end"@) {
        lemma_named_word(name, "end"@, KeyCode::End);
    }
    if crate::text::same_ignoring_ascii_case(name, "pageup"@) {
        lemma_named_word(name, "pageup"@, KeyCode::PageUp);
    }
    if crate::text::same_ignoring_ascii_case(name, "pgup"@) {
        lemma_named_word(name, "pgup"@, KeyCode::PageUp);
    }
    if crate::text::same_ignoring_ascii_case(name, "pagedown"@) {
        lemma_named_word(name, "pagedown"@, KeyCode::PageDown);
    }
    if crate::text::same_ignoring_ascii_case(name, "pgdn"@) {
        lemma_named_word(name, "pgdn"@, KeyCode::PageDown);
    }
    if crate::text::same_ignoring_ascii_case(name, "enter"@) {
        lemma_named_word(name, "enter"@, KeyCode::Enter);
    }
    if crate::text::same_ignoring_ascii_case(name, "cr"@) {
        lemma_named_word(name, "cr"@, KeyCode::Enter);
    }
    if crate::text::same_ignoring_ascii_case(name, "esc"@) {
        lemma_named_word(name, "esc"@, KeyCode::Esc);
    }
    if crate::text::same_ignoring_ascii_case(name, "backtab"@) {
        lemma_named_word(name, "backtab"@, KeyCode::BackTab);
    }
    if crate::text::same_ignoring_ascii_case(name, "space"@) {
        lemma_named_word(name, "space"@, KeyCode::Char(' '));
    }
    if crate::text::same_ignoring_ascii_case(name, "lt"@) {
        lemma_named_word(name, "lt"@, KeyCode::Char('<'));
    }
    if crate::text::same_ignoring_ascii_case(name, "bs"@) {
        lemma_named_word(name, "bs"@, KeyCode::Backspace);
    }
    if crate::text::same_ignoring_ascii_case(name, "backspace"@) {
        lemma_named_word(name, "backspace"@, KeyCode::Backspace);
    }
    if crate::text::same_ignoring_ascii_case(name, "del"@) {
        lemma_named_word(name, "del"@, KeyCode::Delete);
    }
    if crate::text::same_ignoring_ascii_case(name, "delete"@) {
        lemma_named_word(name, "delete"@, KeyCode::Delete);
    }
    if crate::text::same_ignoring_ascii_case(name, "tab"@) {
        reveal_strlit("tab");
        lemma_index_of(name, '-', 0);
        assert(strip_modifiers(name, no_modifiers()) == (no_modifiers(), name));
        lemma_lowered_name(name, "tab"@);
    }
}

proof fn lemma_no_prefix(rest: Seq<char>, mods: Modifiers)
    requires
        forall|i: int| 0 <= i < rest.len() ==> rest[i] != '-',
    ensures
        strip_modifiers(rest, mods) == (mods, rest),
{
    lemma_index_of(rest, '-', 0);
}

proof fn lemma_one_prefix(letter: Seq<char>, rest: Seq<char>, mods: Modifiers)
    requires
        letter.len() == 1,
        letter[0] != '-',
        rest.len() > 0,
        forall|i: int| 0 <= i < rest.len() ==> rest[i] != '-',
    ensures
        strip_modifiers(letter + "-"@ + rest, mods) == if letter == "C"@ {
            (Modifiers { control: true, ..mods }, rest)
        } else if letter == "A"@ || letter == "M"@ {
            (Modifiers { alt: true, ..mods }, rest)
        } else if letter == "S"@ {
            (Modifiers { shift: true, ..mods }, rest)
        } else {
            (mods, letter + "-"@ + rest)
        },
{
    reveal_strlit("-");
    let s = letter + "-"@ + rest;
    lemma_index_of(s, '-', 0);
    assert(s[1] == '-');
    assert(index_of(s, '-', 0) == Some(1int));
    assert(s.take(1) =~= letter);
    assert(s.skip(2) =~= rest);
    lemma_no_prefix(rest, Modifiers { control: true, ..mods });
    lemma_no_prefix(rest, Modifiers { alt: true, ..mods });
    lemma_no_prefix(rest, Modifiers { shift: true, ..mods });
}

/// `C-` before a key's name holds Control with it, `A-` or `M-` Alt, and
/// `S-` Shift, which turns Tab into BackTab: the key is the one the name
/// alone presses.
pub proof fn lemma_prefixes_hold_modifiers(rest: Seq<char>)
    requires
        rest.len() > 0,
        forall|i: int| 0 <= i < rest.len() ==> rest[i] != '-',
    ensures
        named_key("C-"@ + rest) == match named_key(rest) {
            Some(k) => Some(Key { code: k.code, modifiers: Modifiers { control: true, ..k.modifiers } }),
            None => None,
        },
        named_key("A-"@ + rest) == match named_key(rest) {
            Some(k) => Some(Key { code: k.code, modifiers: Modifiers { alt: true, ..k.modifiers } }),
            None => None,
        },
        named_key("M-"@ + rest) == match named_key(rest) {
            Some(k) => Some(Key { code: k.code, modifiers: Modifiers { alt: true, ..k.modifiers } }),
            None => None,
        },
        !crate::text::same_ignoring_ascii_case(rest, "tab"@) ==> named_key("S-"@ + rest) == match named_key(rest) {
            Some(k) => Some(Key { code: k.code, modifiers: Modifiers { shift: true, ..k.modifiers } }),
            None => None,
        },
        crate::text::same_ignoring_ascii_case(rest, "tab"@) ==> named_key("S-"@ + rest) == Some(bare(KeyCode::BackTab)),
{
    reveal_strlit("C-");
    reveal_strlit("A-");
    reveal_strlit("M-");
    reveal_strlit("S-");
    reveal_strlit("C");
    reveal_strlit("A");
    reveal_strlit("M");
    reveal_strlit("S");
    reveal_strlit("-");
    reveal_strlit("tab");
    lemma_no_prefix(rest, no_modifiers());
    assert("C-"@ + rest =~= "C"@ + "-"@ + rest);
    assert("A-"@ + rest =~= "A"@ + "-"@ + rest);
    assert("M-"@ + rest =~= "M"@ + "-"@ + rest);
    assert("S-"@ + rest =~= "S"@ + "-"@ + rest);
    lemma_one_prefix("C"@, rest, no_modifiers());
    lemma_one_prefix("A"@, rest, no_modifiers());
    lemma_one_prefix("M"@, rest, no_modifiers());
    lemma_one_prefix("S"@, rest, no_modifiers());
    let lower = rest.map_values(|c: char| ascii_lower(c));
    if crate::text::same_ignoring_ascii_case(rest, "tab"@) {
        lemma_lowered_name(rest, "tab"@);
    } else {
        if lower == "tab"@ {
            assert(crate::text::same_ignoring_ascii_case(rest, "tab"@)) by {
                assert forall|i: int| 0 <= i < rest.len() implies #[trigger] ascii_lower(rest[i]) == ascii_lower("tab"@[i]) by {
                    assert(lower[i] == ascii_lower(rest[i]));
                }
            }
        }
    }
}

} // verus!
