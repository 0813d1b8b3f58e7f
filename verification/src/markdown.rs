//! Markdown to terminal lines, for issue descriptions and comments.
//!
//! Linear stores both as Markdown and renders them richly: bold, inline code,
//! nested lists, headings, quotes, fenced code. Printing the raw source leaves
//! `**` and backticks all over a Japanese paragraph, which is most of why a
//! description used to be hard to read.
//!
//! The renderer wraps text itself, because a wrapped line has to keep its
//! indentation — the continuation of a bullet, or of a comment inside its
//! gutter, must stay under its first line. It also means the caller knows the
//! exact rendered height, so scrolling clamps to the real content.

use vstd::prelude::*;
use crate::callback::{find_char, index_of, lemma_index_of};
use crate::look::{Color, Role};
use crate::text::{alphanumeric, chars_of, is_alphanumeric, is_whitespace, push_char, push_str, same_text, whitespace};

verus! {

/// How a run of text is drawn: its colours, and its emphasis.
#[derive(Debug, Clone, Copy, PartialEq, Eq, Structural)]
pub struct Style {
    pub fg: Option<Color>,
    pub bg: Option<Color>,
    pub bold: bool,
    pub italic: bool,
    pub crossed_out: bool,
    pub underlined: bool,
}

pub open spec fn plain_style() -> Style {
    Style { fg: None, bg: None, bold: false, italic: false, crossed_out: false, underlined: false }
}

/// A style in a colour of the theme.
pub open spec fn colored(role: Role) -> Style {
    Style { fg: Some(Color::Themed(role)), ..plain_style() }
}

pub fn plain() -> (s: Style)
    ensures
        s == plain_style(),
{
    Style { fg: None, bg: None, bold: false, italic: false, crossed_out: false, underlined: false }
}

pub fn in_color(role: Role) -> (s: Style)
    ensures
        s == colored(role),
{
    Style { fg: Some(Color::Themed(role)), ..plain() }
}

/// A run of text and how it is drawn.
#[derive(Debug, Clone, PartialEq, Eq)]
pub struct Span {
    pub content: String,
    pub style: Style,
}

/// A run as text and style.
pub type Run = (Seq<char>, Style);

/// `base` with the emphasis in force added.
pub open spec fn emphasized(base: Style, bold: bool, italic: bool, strike: bool) -> Style {
    Style {
        bold: base.bold || bold,
        italic: base.italic || italic,
        crossed_out: base.crossed_out || strike,
        ..base
    }
}

fn emphasize(base: Style, bold: bool, italic: bool, strike: bool) -> (s: Style)
    ensures
        s == emphasized(base, bold, italic, strike),
{
    Style {
        bold: base.bold || bold,
        italic: base.italic || italic,
        crossed_out: base.crossed_out || strike,
        ..base
    }
}

/// How inline code is drawn.
pub open spec fn code_style() -> Style {
    Style {
        fg: Some(Color::Themed(Role::Secondary)),
        bg: Some(Color::Themed(Role::CodeBackground)),
        ..plain_style()
    }
}

/// How a link's text is drawn, in the emphasis around it.
pub open spec fn link_style(around: Style) -> Style {
    Style { fg: Some(Color::Themed(Role::Accent)), underlined: true, ..around }
}

/// Whether a character, if there is one, is a letter or a digit.
pub open spec fn is_word(c: Option<char>) -> bool {
    match c {
        Some(c) => alphanumeric(c),
        None => false,
    }
}

/// `[label](url)` or `![label](url)` at `at`: the label, and how many
/// characters the whole construct spans.
pub open spec fn link_at(chars: Seq<char>, at: int) -> Option<(Seq<char>, int)> {
    let start = if 0 <= at < chars.len() && chars[at] == '!' {
        1int
    } else {
        0int
    };
    let open = at + start;
    if !(0 <= open < chars.len()) || chars[open] != '[' {
        None
    } else {
        match index_of(chars, ']', open + 1) {
            None => None,
            Some(close) => if close + 1 >= chars.len() || chars[close + 1] != '(' {
                None
            } else {
                match index_of(chars, ')', close + 2) {
                    None => None,
                    Some(end) => Some((chars.subrange(open + 1, close), end + 1 - at)),
                }
            },
        }
    }
}

/// An image as the text shows it: a placeholder that keeps its label.
pub open spec fn image_text(label: Seq<char>) -> Seq<char> {
    "[image"@ + (if label.len() == 0 {
        Seq::empty()
    } else {
        ": "@ + label
    }) + "]"@
}

/// Where the scan of a line of Markdown stands: the runs made so far, the
/// text waiting for its run, the emphasis in force, and the next character.
#[verifier::ext_equal]
pub struct Scan {
    pub runs: Seq<Run>,
    pub pending: Seq<char>,
    pub bold: bool,
    pub italic: bool,
    pub strike: bool,
    pub at: int,
}

/// The runs so far, with the waiting text made a run of its own.
pub open spec fn flushed(base: Style, s: Scan) -> Seq<Run> {
    if s.pending.len() > 0 {
        s.runs.push((s.pending, emphasized(base, s.bold, s.italic, s.strike)))
    } else {
        s.runs
    }
}

/// The scan one construct on: inline code is atomic; a link keeps its text
/// and an image becomes a placeholder; `**`/`__` toggle bold and `~~`
/// strikethrough; `*` toggles italic where it closes or a closing `*`
/// follows (so "5 * 3" stays arithmetic), and `_` only at a word boundary
/// (so snake_case survives); anything else is text.
pub open spec fn scan_step(chars: Seq<char>, base: Style, s: Scan) -> Scan {
    let at = s.at;
    let c = chars[at];
    let next = if at + 1 < chars.len() {
        Some(chars[at + 1])
    } else {
        None
    };
    let prev = if at == 0 {
        None
    } else {
        Some(chars[at - 1])
    };
    let here = emphasized(base, s.bold, s.italic, s.strike);
    if c == '`' && index_of(chars, '`', at + 1) is Some {
        let end = index_of(chars, '`', at + 1)->0;
        Scan {
            runs: flushed(base, s).push((chars.subrange(at + 1, end), code_style())),
            pending: Seq::empty(),
            at: end + 1,
            ..s
        }
    } else if (c == '[' || (c == '!' && next == Some('['))) && link_at(chars, at) is Some {
        let (label, consumed) = link_at(chars, at)->0;
        Scan {
            runs: flushed(base, s).push(
                if c == '!' {
                    (image_text(label), colored(Role::Muted))
                } else {
                    (label, link_style(here))
                },
            ),
            pending: Seq::empty(),
            at: at + consumed,
            ..s
        }
    } else if (c == '*' && next == Some('*')) || (c == '_' && next == Some('_') && !is_word(prev)) {
        Scan { runs: flushed(base, s), pending: Seq::empty(), bold: !s.bold, at: at + 2, ..s }
    } else if c == '~' && next == Some('~') {
        Scan { runs: flushed(base, s), pending: Seq::empty(), strike: !s.strike, at: at + 2, ..s }
    } else if (c == '*' && (s.italic || (index_of(chars, '*', at + 1) is Some && next is Some
        && !whitespace(next->0)))) || (c == '_' && (if s.italic {
        !is_word(next)
    } else {
        !is_word(prev) && next is Some && !whitespace(next->0)
    })) {
        Scan { runs: flushed(base, s), pending: Seq::empty(), italic: !s.italic, at: at + 1, ..s }
    } else {
        Scan { pending: s.pending.push(c), at: at + 1, ..s }
    }
}

pub proof fn lemma_scan_advances(chars: Seq<char>, base: Style, s: Scan)
    requires
        0 <= s.at < chars.len(),
    ensures
        s.at < scan_step(chars, base, s).at <= chars.len(),
{
    lemma_index_of(chars, '`', s.at + 1);
    let at = s.at;
    let start = if chars[at] == '!' {
        1int
    } else {
        0int
    };
    let open = at + start;
    if 0 <= open < chars.len() {
        lemma_index_of(chars, ']', open + 1);
        match index_of(chars, ']', open + 1) {
            Some(close) => {
                lemma_index_of(chars, ')', close + 2);
            },
            None => {},
        }
    }
}

/// The runs the rest of the line makes from `s` on.
pub open spec fn scan_rest(chars: Seq<char>, base: Style, s: Scan) -> Seq<Run>
    decreases chars.len() - s.at,
{
    if s.at < 0 || s.at >= chars.len() {
        flushed(base, s)
    } else {
        proof {
            lemma_scan_advances(chars, base, s);
        }
        scan_rest(chars, base, scan_step(chars, base, s))
    }
}

/// The styled runs a line of Markdown makes, in `base` style.
pub open spec fn inline_runs(text: Seq<char>, base: Style) -> Seq<Run> {
    scan_rest(
        text,
        base,
        Scan { runs: Seq::empty(), pending: Seq::empty(), bold: false, italic: false, strike: false, at: 0 },
    )
}

/// The views of runs.
pub open spec fn runs_of(v: Seq<(String, Style)>) -> Seq<Run> {
    v.map_values(|r: (String, Style)| (r.0@, r.1))
}

fn text_of(chars: &Vec<char>, from: usize, to: usize) -> (s: String)
    requires
        from <= to <= chars@.len(),
    ensures
        s@ == chars@.subrange(from as int, to as int),
{
    let mut s = String::new();
    let mut i = from;
    while i < to
        invariant
            from <= i <= to <= chars@.len(),
            s@ == chars@.subrange(from as int, i as int),
        decreases to - i,
    {
        push_char(&mut s, chars[i]);
        assert(chars@.subrange(from as int, i + 1) =~= chars@.subrange(from as int, i as int).push(chars@[i as int]));
        i = i + 1;
    }
    s
}

fn word_char(c: Option<char>) -> (b: bool)
    ensures
        b == is_word(c),
{
    match c {
        Some(c) => is_alphanumeric(c),
        None => false,
    }
}

/// `[label](url)` at `at`: the label, and how many characters it spans.
fn link_here(chars: &Vec<char>, at: usize) -> (r: Option<(String, usize)>)
    requires
        at < chars@.len(),
    ensures
        match r {
            Some((label, consumed)) => link_at(chars@, at as int) == Some((label@, consumed as int)),
            None => link_at(chars@, at as int) is None,
        },
{
    let n = chars.len();
    let start: usize = if chars[at] == '!' {
        1
    } else {
        0
    };
    let open = at + start;
    if open >= n || chars[open] != '[' {
        return None;
    }
    proof {
        lemma_index_of(chars@, ']', open + 1);
    }
    let close = match find_char(chars, ']', open + 1) {
        Some(c) => c,
        None => return None,
    };
    if close + 1 >= n || chars[close + 1] != '(' {
        return None;
    }
    proof {
        lemma_index_of(chars@, ')', close + 2);
    }
    let end = match find_char(chars, ')', close + 2) {
        Some(e) => e,
        None => return None,
    };
    let label = text_of(chars, open + 1, close);
    Some((label, end + 1 - at))
}

/// The scan as the program holds it.
pub open spec fn scan_of(
    out: Seq<(String, Style)>,
    buf: Seq<char>,
    bold: bool,
    italic: bool,
    strike: bool,
    at: usize,
) -> Scan {
    Scan { runs: runs_of(out), pending: buf, bold, italic, strike, at: at as int }
}

/// Makes the waiting text a run of its own, if there is any.
fn flush(out: &mut Vec<(String, Style)>, buf: &mut String, here: Style)
    ensures
        runs_of(final(out)@) == (if old(buf)@.len() > 0 {
            runs_of(old(out)@).push((old(buf)@, here))
        } else {
            runs_of(old(out)@)
        }),
        final(buf)@.len() == 0,
{
    if !buf.as_str().is_empty() {
        let ghost before = runs_of(out@);
        let ghost text = buf@;
        let mut taken = String::new();
        std::mem::swap(&mut taken, buf);
        out.push((taken, here));
        assert(runs_of(out@) =~= before.push((text, here)));
    }
}

/// The run a link or an image makes.
fn link_run(label: String, image: bool, here: Style) -> (run: (String, Style))
    ensures
        (run.0@, run.1) == (if image {
            (image_text(label@), colored(Role::Muted))
        } else {
            (label@, link_style(here))
        }),
{
    if image {
        let mut shown = String::new();
        push_str(&mut shown, "[image");
        if !label.as_str().is_empty() {
            push_str(&mut shown, ": ");
            push_str(&mut shown, label.as_str());
        }
        push_str(&mut shown, "]");
        assert(shown@ =~= image_text(label@));
        (shown, in_color(Role::Muted))
    } else {
        (label, Style { fg: Some(Color::Themed(Role::Accent)), underlined: true, ..here })
    }
}

/// One construct of the line: what [`scan_step`] says.
#[verifier::rlimit(40)]
fn scan_once(
    chars: &Vec<char>,
    base: Style,
    out: &mut Vec<(String, Style)>,
    buf: &mut String,
    bold: &mut bool,
    italic: &mut bool,
    strike: &mut bool,
    i: &mut usize,
)
    requires
        *old(i) < chars@.len(),
    ensures
        scan_of(final(out)@, final(buf)@, *final(bold), *final(italic), *final(strike), *final(i))
            == scan_step(chars@, base, scan_of(old(out)@, old(buf)@, *old(bold), *old(italic), *old(strike), *old(i))),
        *old(i) < *final(i) <= chars@.len(),
{
    let ghost s = scan_of(out@, buf@, *bold, *italic, *strike, *i);
    let ghost after = scan_step(chars@, base, s);
    let n = chars.len();
    let at = *i;
    proof {
        lemma_scan_advances(chars@, base, s);
        lemma_index_of(chars@, '`', at + 1);
        lemma_index_of(chars@, '*', at + 1);
    }
    let c = chars[at];
    let next = if at + 1 < n {
        Some(chars[at + 1])
    } else {
        None
    };
    let prev = if at == 0 {
        None
    } else {
        Some(chars[at - 1])
    };
    let here = emphasize(base, *bold, *italic, *strike);
    let tick = if c == '`' {
        find_char(chars, '`', at + 1)
    } else {
        None
    };
    if tick.is_some() {
        let end = match tick {
            Some(e) => e,
            None => at,
        };
        flush(out, buf, here);
        let code = text_of(chars, at + 1, end);
        let ghost before = runs_of(out@);
        out.push((code, Style { fg: Some(Color::Themed(Role::Secondary)), bg: Some(Color::Themed(Role::CodeBackground)), ..plain() }));
        assert(runs_of(out@) =~= before.push((chars@.subrange(at + 1, end as int), code_style())));
        *i = end + 1;
        assert(scan_of(out@, buf@, *bold, *italic, *strike, *i) =~= after);
        return;
    }
    let link = if c == '[' || (c == '!' && next == Some('[')) {
        link_here(chars, at)
    } else {
        None
    };
    if link.is_some() {
        let (label, consumed) = match link {
            Some(l) => l,
            None => (String::new(), 1),
        };
        flush(out, buf, here);
        let run = link_run(label, c == '!', here);
        let ghost before = runs_of(out@);
        let ghost view = (run.0@, run.1);
        out.push(run);
        assert(runs_of(out@) =~= before.push(view));
        *i = at + consumed;
        assert(scan_of(out@, buf@, *bold, *italic, *strike, *i) =~= after);
        return;
    }
    if (c == '*' && next == Some('*')) || (c == '_' && next == Some('_') && !word_char(prev)) {
        flush(out, buf, here);
        *bold = !*bold;
        *i = at + 2;
        assert(scan_of(out@, buf@, *bold, *italic, *strike, *i) =~= after);
        return;
    }
    if c == '~' && next == Some('~') {
        flush(out, buf, here);
        *strike = !*strike;
        *i = at + 2;
        assert(scan_of(out@, buf@, *bold, *italic, *strike, *i) =~= after);
        return;
    }
    let star_ahead = c == '*' && find_char(chars, '*', at + 1).is_some();
    let next_solid = match next {
        Some(x) => !is_whitespace(x),
        None => false,
    };
    let toggles = (c == '*' && (*italic || (star_ahead && next_solid))) || (c == '_' && (if *italic {
        !word_char(next)
    } else {
        !word_char(prev) && next_solid
    }));
    if toggles {
        flush(out, buf, here);
        *italic = !*italic;
        *i = at + 1;
        assert(scan_of(out@, buf@, *bold, *italic, *strike, *i) =~= after);
        return;
    }
    push_char(buf, c);
    *i = at + 1;
    assert(scan_of(out@, buf@, *bold, *italic, *strike, *i) =~= after);
}

/// Split one line of Markdown into styled runs: bold, italic,
/// strikethrough, inline code, links, and images.
pub fn inline(text: &str, base: Style) -> (runs: Vec<(String, Style)>)
    ensures
        runs_of(runs@) == inline_runs(text@, base),
{
    let chars = chars_of(text);
    let n = chars.len();
    let mut out: Vec<(String, Style)> = Vec::new();
    let mut buf = String::new();
    let mut bold = false;
    let mut italic = false;
    let mut strike = false;
    let mut i: usize = 0;
    assert(runs_of(out@) =~= Seq::<Run>::empty());
    assert(scan_of(out@, buf@, bold, italic, strike, i) =~= Scan {
        runs: Seq::empty(),
        pending: Seq::empty(),
        bold: false,
        italic: false,
        strike: false,
        at: 0,
    });
    while i < n
        invariant
            n == chars@.len(),
            chars@ == text@,
            i <= n,
            inline_runs(text@, base) == scan_rest(chars@, base, scan_of(out@, buf@, bold, italic, strike, i)),
        decreases n - i,
    {
        scan_once(&chars, base, &mut out, &mut buf, &mut bold, &mut italic, &mut strike, &mut i);
    }
    let here = emphasize(base, bold, italic, strike);
    flush(&mut out, &mut buf, here);
    out
}


/// How many terminal cells `unicode-width` gives a character, or `None`
/// for a control character.
pub uninterp spec fn char_cells(c: char) -> Option<usize>;

/// How many terminal cells `unicode-width` gives a text.
pub uninterp spec fn text_cells(s: Seq<char>) -> usize;

/// The cells of a character, with `unicode-width`'s `UnicodeWidthChar::width`:
/// printable ASCII is one cell, and the other ASCII and C1 controls are
/// control characters.
#[verifier::external_body]
pub(crate) fn char_width(c: char) -> (w: Option<usize>)
    ensures
        w == char_cells(c),
        (c as u32) < 0x7f ==> w == (if (c as u32) >= 0x20 {
            Some(1usize)
        } else {
            None
        }),
        0x7f <= (c as u32) < 0xa0 ==> w is None,
{
    unicode_width::UnicodeWidthChar::width(c)
}

/// The cells of a text, with `unicode-width`'s `UnicodeWidthStr::width`.
#[verifier::external_body]
pub(crate) fn str_width(s: &str) -> (w: usize)
    ensures
        w == text_cells(s@),
{
    unicode_width::UnicodeWidthStr::width(s)
}

/// The cells a character takes where it is drawn: a control character none.
pub open spec fn cells_of(c: char) -> nat {
    match char_cells(c) {
        Some(w) => w as nat,
        None => 0,
    }
}

/// `a + b`, held at `usize::MAX`: no line is that wide.
pub open spec fn sat_add(a: nat, b: nat) -> nat {
    if a + b > usize::MAX {
        usize::MAX as nat
    } else {
        a + b
    }
}

/// Breaking text into pieces of at most `width` cells, by character: the
/// pieces so far and the cells the last one uses.
pub open spec fn hard_pieces(chars: Seq<char>, width: nat, k: nat) -> (Seq<Seq<char>>, nat)
    decreases k,
{
    if k == 0 {
        (seq![Seq::empty()], 0)
    } else {
        let (pieces, used) = hard_pieces(chars, width, (k - 1) as nat);
        let c = chars[k - 1];
        let w = cells_of(c);
        if used + w > width {
            (pieces.push(seq![c]), w)
        } else {
            (pieces.update(pieces.len() - 1, pieces.last().push(c)), used + w)
        }
    }
}

proof fn lemma_hard_pieces(chars: Seq<char>, width: nat, k: nat)
    ensures
        hard_pieces(chars, width, k).0.len() >= 1,
        hard_pieces(chars, width, k).1 <= if width >= usize::MAX {
            width
        } else {
            usize::MAX as nat
        },
    decreases k,
{
    if k > 0 {
        lemma_hard_pieces(chars, width, (k - 1) as nat);
    }
}

/// A string broken into pieces of at most `width` cells (at least one), by
/// character; a character wider than that has a piece of its own.
pub open spec fn hard_wrapped(text: Seq<char>, width: nat) -> Seq<Seq<char>> {
    hard_pieces(text, if width >= 1 {
        width
    } else {
        1
    }, text.len()).0
}

pub open spec fn texts_of(v: Seq<String>) -> Seq<Seq<char>> {
    v.map_values(|s: String| s@)
}

/// Break a string into pieces of at most `width` cells, by character.
fn hard_wrap(text: &str, width: usize) -> (pieces: Vec<String>)
    ensures
        texts_of(pieces@) == hard_wrapped(text@, width as nat),
{
    let width = if width >= 1 {
        width
    } else {
        1
    };
    let chars = chars_of(text);
    let mut out: Vec<String> = Vec::new();
    out.push(String::new());
    let mut used: usize = 0;
    let mut i: usize = 0;
    assert(texts_of(out@) =~= seq![Seq::<char>::empty()]);
    while i < chars.len()
        invariant
            chars@ == text@,
            width >= 1,
            i <= chars@.len(),
            out@.len() >= 1,
            (texts_of(out@), used as nat) == hard_pieces(text@, width as nat, i as nat),
        decreases chars@.len() - i,
    {
        let c = chars[i];
        let w = match char_width(c) {
            Some(w) => w,
            None => 0,
        };
        let ghost before = texts_of(out@);
        if w > width || used > width - w {
            let mut piece = String::new();
            push_char(&mut piece, c);
            out.push(piece);
            used = w;
            assert(texts_of(out@) =~= before.push(seq![c]));
        } else {
            let last = out.len() - 1;
            let mut piece = String::new();
            std::mem::swap(&mut piece, &mut out[last]);
            push_char(&mut piece, c);
            let ghost grown = piece@;
            let mut slot = piece;
            std::mem::swap(&mut slot, &mut out[last]);
            assert(texts_of(out@) =~= before.update(before.len() - 1, before.last().push(c)));
            used = used + w;
        }
        i = i + 1;
    }
    out
}

/// Characters a line may not begin with under Japanese line-breaking rules:
/// closing punctuation, and the small kana that close a sound.
pub open spec fn no_line_start(token: Seq<char>) -> bool {
    token == "\u{3002}"@ || token == "\u{3001}"@ || token == "\u{ff0c}"@ || token == "\u{ff0e}"@
        || token == "\u{ff09}"@ || token == "\u{300d}"@ || token == "\u{300f}"@ || token
        == "\u{3011}"@ || token == "\u{3015}"@ || token == "\u{ff01}"@ || token == "\u{ff1f}"@
        || token == "\u{30fc}"@ || token == "\u{3063}"@ || token == "\u{30c3}"@ || token
        == "\u{ff1a}"@ || token == "\u{ff1b}"@
}

/// Characters a line may not end with: opening brackets and quotes.
pub open spec fn no_line_end(token: Seq<char>) -> bool {
    token == "\u{300c}"@ || token == "\u{300e}"@ || token == "\u{ff08}"@ || token == "\u{3010}"@
        || token == "\u{3014}"@ || token == "("@ || token == "["@
}

fn may_not_start(token: &str) -> (b: bool)
    ensures
        b == no_line_start(token@),
{
    same_text(token, "\u{3002}") || same_text(token, "\u{3001}") || same_text(token, "\u{ff0c}")
        || same_text(token, "\u{ff0e}") || same_text(token, "\u{ff09}") || same_text(
        token,
        "\u{300d}",
    ) || same_text(token, "\u{300f}") || same_text(token, "\u{3011}") || same_text(
        token,
        "\u{3015}",
    ) || same_text(token, "\u{ff01}") || same_text(token, "\u{ff1f}") || same_text(
        token,
        "\u{30fc}",
    ) || same_text(token, "\u{3063}") || same_text(token, "\u{30c3}") || same_text(
        token,
        "\u{ff1a}",
    ) || same_text(token, "\u{ff1b}")
}

fn may_not_end(token: &str) -> (b: bool)
    ensures
        b == no_line_end(token@),
{
    same_text(token, "\u{300c}") || same_text(token, "\u{300e}") || same_text(token, "\u{ff08}")
        || same_text(token, "\u{3010}") || same_text(token, "\u{3014}") || same_text(token, "(")
        || same_text(token, "[")
}


/// The tokens of one styled run so far, and the word being read.
pub open spec fn run_tokens(text: Seq<char>, style: Style, k: nat) -> (Seq<Run>, Seq<char>)
    decreases k,
{
    if k == 0 {
        (Seq::empty(), Seq::empty())
    } else {
        let (tokens, word) = run_tokens(text, style, (k - 1) as nat);
        let c = text[k - 1];
        if whitespace(c) || cells_of(c) > 1 {
            let with_word = if word.len() > 0 {
                tokens.push((word, style))
            } else {
                tokens
            };
            (
                with_word.push(
                    (
                        if whitespace(c) {
                            " "@
                        } else {
                            seq![c]
                        },
                        style,
                    ),
                ),
                Seq::empty(),
            )
        } else {
            (tokens, word.push(c))
        }
    }
}

/// The tokens of a styled run: each white space is one space, each wide
/// (CJK) character is a token of its own — Japanese has no spaces to break
/// at — and the rest runs together into words.
pub open spec fn tokens_of_run(text: Seq<char>, style: Style) -> Seq<Run> {
    let (tokens, word) = run_tokens(text, style, text.len());
    if word.len() > 0 {
        tokens.push((word, style))
    } else {
        tokens
    }
}

/// The tokens of the first `k` runs.
pub open spec fn tokens_of(runs: Seq<Run>, k: nat) -> Seq<Run>
    decreases k,
{
    if k == 0 {
        Seq::empty()
    } else {
        tokens_of(runs, (k - 1) as nat) + tokens_of_run(runs[k - 1].0, runs[k - 1].1)
    }
}

fn tokenize_run(text: &String, style: Style, out: &mut Vec<(String, Style)>)
    ensures
        runs_of(final(out)@) == runs_of(old(out)@) + tokens_of_run(text@, style),
{
    let chars = chars_of(text.as_str());
    let ghost start = runs_of(out@);
    let mut word = String::new();
    let mut i: usize = 0;
    assert(start + Seq::<Run>::empty() =~= start);
    while i < chars.len()
        invariant
            chars@ == text@,
            i <= chars@.len(),
            runs_of(out@) == start + run_tokens(text@, style, i as nat).0,
            word@ == run_tokens(text@, style, i as nat).1,
        decreases chars@.len() - i,
    {
        let c = chars[i];
        let ws = is_whitespace(c);
        let wide = match char_width(c) {
            Some(w) => w > 1,
            None => false,
        };
        if ws || wide {
            if !word.as_str().is_empty() {
                let ghost before = runs_of(out@);
                let ghost w = word@;
                let mut taken = String::new();
                std::mem::swap(&mut taken, &mut word);
                out.push((taken, style));
                assert(runs_of(out@) =~= before.push((w, style)));
            }
            let mut token = String::new();
            if ws {
                push_str(&mut token, " ");
            } else {
                push_char(&mut token, c);
            }
            let ghost before = runs_of(out@);
            let ghost tv = token@;
            out.push((token, style));
            assert(runs_of(out@) =~= before.push((tv, style)));
            proof {
                if !ws {
                    reveal_strlit(" ");
                    assert(tv =~= seq![c]);
                }
            }
        } else {
            push_char(&mut word, c);
        }
        i = i + 1;
    }
    if !word.as_str().is_empty() {
        let ghost before = runs_of(out@);
        let ghost w = word@;
        out.push((word, style));
        assert(runs_of(out@) =~= before.push((w, style)));
    }
}

/// The views of spans.
pub open spec fn spans_of(v: Seq<Span>) -> Seq<Run> {
    v.map_values(|s: Span| (s.content@, s.style))
}

/// The views of lines of spans.
pub open spec fn lines_of_spans(v: Seq<Vec<Span>>) -> Seq<Seq<Run>> {
    v.map_values(|l: Vec<Span>| spans_of(l@))
}

/// The cells a line of spans takes, the first `k`.
pub open spec fn spans_cells(spans: Seq<Run>, k: nat) -> nat
    decreases k,
{
    if k == 0 {
        0
    } else {
        sat_add(spans_cells(spans, (k - 1) as nat), text_cells(spans[k - 1].0) as nat)
    }
}

/// Where the wrapping stands: the lines done, the line being filled and how
/// many spans at its head are its prefix, the cells a line holds, and the
/// cells used.
#[verifier::ext_equal]
pub struct Wrapping {
    pub lines: Seq<Seq<Run>>,
    pub line: Seq<Run>,
    pub prefix: nat,
    pub avail: nat,
    pub used: nat,
}

/// Carrying opening brackets down from the end of a line, while something
/// else stays behind: the line left, and what is carried, last first.
pub open spec fn carry_openers(line: Seq<Run>, prefix: nat, carried: Seq<Run>) -> (Seq<Run>, Seq<Run>)
    decreases line.len(),
{
    if line.len() > prefix + 1 && no_line_end(line.last().0) {
        carry_openers(line.drop_last(), prefix, carried.push(line.last()))
    } else {
        (line, carried)
    }
}

/// A new line before `token`: a closing mark never starts a line, so the
/// character before it comes down too, and a line never ends with an
/// opening bracket, so those come down with what they open. Only ever
/// carry while something else stays behind, so a line cannot empty out.
pub open spec fn break_before(st: Wrapping, token: Seq<char>, cont: Seq<Run>, cont_avail: nat) -> Wrapping {
    let first = if no_line_start(token) && st.line.len() > st.prefix + 1 {
        (st.line.drop_last(), seq![st.line.last()])
    } else {
        (st.line, Seq::empty())
    };
    let (kept, carried) = carry_openers(first.0, st.prefix, first.1);
    let down = carried.reverse();
    Wrapping {
        lines: st.lines.push(kept),
        line: cont + down,
        prefix: cont.len(),
        avail: cont_avail,
        used: spans_cells(down, down.len()),
    }
}

/// Placing the first `k` pieces of a token too wide for any line, each on
/// the line it fits.
pub open spec fn place_pieces(
    st: Wrapping,
    pieces: Seq<Seq<char>>,
    style: Style,
    cont: Seq<Run>,
    cont_avail: nat,
    k: nat,
) -> Wrapping
    decreases k,
{
    if k == 0 {
        st
    } else {
        let s1 = place_pieces(st, pieces, style, cont, cont_avail, (k - 1) as nat);
        let piece = pieces[k - 1];
        let pw = text_cells(piece) as nat;
        let s2 = if sat_add(s1.used, pw) > s1.avail && s1.used > 0 {
            Wrapping { lines: s1.lines.push(s1.line), line: cont, prefix: cont.len(), avail: cont_avail, used: 0 }
        } else {
            s1
        };
        Wrapping { line: s2.line.push((piece, style)), used: sat_add(s2.used, pw), ..s2 }
    }
}

/// Greedy wrapping, one token on: a space never starts a continuation
/// line; a token that does not fit starts a new line (carrying what the
/// line-breaking rules carry); a token wider than a whole line is split by
/// character.
pub open spec fn wrap_step(st: Wrapping, token: Run, cont: Seq<Run>, cont_avail: nat) -> Wrapping {
    let (t, style) = token;
    let w = text_cells(t) as nat;
    if t == " "@ && st.used == 0 && st.lines.len() > 0 {
        st
    } else {
        let broke = sat_add(st.used, w) > st.avail && st.used > 0;
        let s1 = if broke {
            break_before(st, t, cont, cont_avail)
        } else {
            st
        };
        if broke && t == " "@ {
            s1
        } else if w > s1.avail {
            let pieces = hard_wrapped(t, s1.avail);
            place_pieces(s1, pieces, style, cont, cont_avail, pieces.len())
        } else {
            Wrapping { line: s1.line.push(token), used: sat_add(s1.used, w), ..s1 }
        }
    }
}

/// The wrapping after the first `k` tokens.
pub open spec fn wrap_upto(init: Wrapping, tokens: Seq<Run>, cont: Seq<Run>, cont_avail: nat, k: nat) -> Wrapping
    decreases k,
{
    if k == 0 {
        init
    } else {
        wrap_step(wrap_upto(init, tokens, cont, cont_avail, (k - 1) as nat), tokens[k - 1], cont, cont_avail)
    }
}

/// The cells left on a line behind a prefix of `prefix_cells`: at least one.
pub open spec fn room(width: nat, prefix_cells: nat) -> nat {
    if width > prefix_cells && width - prefix_cells >= 1 {
        (width - prefix_cells) as nat
    } else {
        1
    }
}

/// The lines styled runs wrap into at `width` cells, the first behind
/// `first`, the others behind `cont`.
pub open spec fn wrapped(runs: Seq<Run>, width: nat, first: Seq<Run>, cont: Seq<Run>) -> Seq<Seq<Run>> {
    let tokens = tokens_of(runs, runs.len());
    let init = Wrapping {
        lines: Seq::empty(),
        line: first,
        prefix: first.len(),
        avail: room(width, spans_cells(first, first.len())),
        used: 0,
    };
    let last = wrap_upto(init, tokens, cont, room(width, spans_cells(cont, cont.len())), tokens.len());
    last.lines.push(last.line)
}


pub open spec fn wrapping_of(lines: Seq<Vec<Span>>, line: Seq<Span>, prefix: usize, avail: usize, used: usize) -> Wrapping {
    Wrapping { lines: lines_of_spans(lines), line: spans_of(line), prefix: prefix as nat, avail: avail as nat, used: used as nat }
}

pub(crate) fn span_cells(spans: &Vec<Span>) -> (n: usize)
    ensures
        n == spans_cells(spans_of(spans@), spans@.len()),
{
    let mut n: usize = 0;
    let mut i: usize = 0;
    while i < spans.len()
        invariant
            i <= spans@.len(),
            n == spans_cells(spans_of(spans@), i as nat),
        decreases spans@.len() - i,
    {
        let w = str_width(spans[i].content.as_str());
        n = n.saturating_add(w);
        i = i + 1;
    }
    n
}

fn clone_spans(spans: &Vec<Span>) -> (copy: Vec<Span>)
    ensures
        spans_of(copy@) == spans_of(spans@),
{
    let mut copy: Vec<Span> = Vec::new();
    let mut i: usize = 0;
    while i < spans.len()
        invariant
            i <= spans@.len(),
            spans_of(copy@) == spans_of(spans@).take(i as int),
        decreases spans@.len() - i,
    {
        let ghost before = spans_of(copy@);
        copy.push(Span { content: spans[i].content.clone(), style: spans[i].style });
        assert(spans_of(copy@) =~= before.push((spans@[i as int].content@, spans@[i as int].style)));
        assert(spans_of(spans@).take(i + 1) =~= spans_of(spans@).take(i as int).push(
            (spans@[i as int].content@, spans@[i as int].style),
        ));
        i = i + 1;
    }
    assert(spans_of(spans@).take(spans@.len() as int) =~= spans_of(spans@));
    copy
}

/// Starts a new line before `token`, carrying down what may not stay.
fn break_line(
    lines: &mut Vec<Vec<Span>>,
    line: &mut Vec<Span>,
    prefix: &mut usize,
    avail: &mut usize,
    used: &mut usize,
    token: &str,
    cont: &Vec<Span>,
    cont_avail: usize,
)
    ensures
        wrapping_of(final(lines)@, final(line)@, *final(prefix), *final(avail), *final(used))
            == break_before(
            wrapping_of(old(lines)@, old(line)@, *old(prefix), *old(avail), *old(used)),
            token@,
            spans_of(cont@),
            cont_avail as nat,
        ),
{
    let ghost st = wrapping_of(lines@, line@, *prefix, *avail, *used);
    let p = *prefix;
    let mut carried: Vec<Span> = Vec::new();
    if may_not_start(token) && line.len() > p && line.len() - p > 1 {
        let ghost whole = spans_of(line@);
        match line.pop() {
            Some(last) => carried.push(last),
            None => {},
        }
        assert(spans_of(line@) =~= whole.drop_last());
        assert(spans_of(carried@) =~= seq![whole.last()]);
    } else {
        assert(spans_of(carried@) =~= Seq::<Run>::empty());
    }
    let ghost first_line = spans_of(line@);
    let ghost first_carried = spans_of(carried@);
    while line.len() > p && line.len() - p > 1 && may_not_end(line[line.len() - 1].content.as_str())
        invariant
            carry_openers(first_line, p as nat, first_carried) == carry_openers(
                spans_of(line@),
                p as nat,
                spans_of(carried@),
            ),
        decreases line@.len(),
    {
        let ghost whole = spans_of(line@);
        let ghost had = spans_of(carried@);
        assert(whole.last() == (line@[line@.len() - 1].content@, line@[line@.len() - 1].style));
        match line.pop() {
            Some(last) => carried.push(last),
            None => {},
        }
        assert(spans_of(line@) =~= whole.drop_last());
        assert(spans_of(carried@) =~= had.push(whole.last()));
    }
    let ghost kept = spans_of(line@);
    assert(carry_openers(spans_of(line@), p as nat, spans_of(carried@)) == (kept, spans_of(carried@)));
    let mut down: Vec<Span> = Vec::new();
    let mut k: usize = carried.len();
    while k > 0
        invariant
            k <= carried@.len(),
            spans_of(down@) == spans_of(carried@).subrange(k as int, carried@.len() as int).reverse(),
        decreases k,
    {
        let ghost before = spans_of(down@);
        down.push(Span { content: carried[k - 1].content.clone(), style: carried[k - 1].style });
        assert(spans_of(down@) =~= before.push((carried@[k - 1].content@, carried@[k - 1].style)));
        assert(spans_of(carried@).subrange(k - 1, carried@.len() as int).reverse() =~= spans_of(
            carried@,
        ).subrange(k as int, carried@.len() as int).reverse().push(spans_of(carried@)[k - 1]));
        k = k - 1;
    }
    assert(spans_of(carried@).subrange(0, carried@.len() as int) =~= spans_of(carried@));
    let mut fresh = clone_spans(cont);
    std::mem::swap(&mut fresh, line);
    let ghost done = lines_of_spans(lines@);
    lines.push(fresh);
    assert(lines_of_spans(lines@) =~= done.push(kept));
    let ghost head = spans_of(line@);
    let mut i: usize = 0;
    while i < down.len()
        invariant
            i <= down@.len(),
            spans_of(line@) == head + spans_of(down@).take(i as int),
        decreases down@.len() - i,
    {
        let ghost before = spans_of(line@);
        line.push(Span { content: down[i].content.clone(), style: down[i].style });
        assert(spans_of(line@) =~= before.push((down@[i as int].content@, down@[i as int].style)));
        assert(spans_of(down@).take(i + 1) =~= spans_of(down@).take(i as int).push(spans_of(down@)[i as int]));
        i = i + 1;
    }
    assert(spans_of(down@).take(down@.len() as int) =~= spans_of(down@));
    *used = span_cells(&down);
    *prefix = cont.len();
    *avail = cont_avail;
    assert(spans_of(cont@).len() == cont@.len());
    assert(wrapping_of(lines@, line@, *prefix, *avail, *used) =~= break_before(st, token@, spans_of(cont@), cont_avail as nat));
}


/// Places the pieces of a token too wide for any line.
fn place(
    lines: &mut Vec<Vec<Span>>,
    line: &mut Vec<Span>,
    prefix: &mut usize,
    avail: &mut usize,
    used: &mut usize,
    pieces: &Vec<String>,
    style: Style,
    cont: &Vec<Span>,
    cont_avail: usize,
)
    ensures
        wrapping_of(final(lines)@, final(line)@, *final(prefix), *final(avail), *final(used))
            == place_pieces(
            wrapping_of(old(lines)@, old(line)@, *old(prefix), *old(avail), *old(used)),
            texts_of(pieces@),
            style,
            spans_of(cont@),
            cont_avail as nat,
            pieces@.len(),
        ),
{
    let ghost st = wrapping_of(lines@, line@, *prefix, *avail, *used);
    let mut k: usize = 0;
    while k < pieces.len()
        invariant
            k <= pieces@.len(),
            wrapping_of(lines@, line@, *prefix, *avail, *used) == place_pieces(
                st,
                texts_of(pieces@),
                style,
                spans_of(cont@),
                cont_avail as nat,
                k as nat,
            ),
        decreases pieces@.len() - k,
    {
        let piece = &pieces[k];
        let pw = str_width(piece.as_str());
        assert(texts_of(pieces@)[k as int] == piece@);
        if used.saturating_add(pw) > *avail && *used > 0 {
            let mut fresh = clone_spans(cont);
            std::mem::swap(&mut fresh, line);
            let ghost done = lines_of_spans(lines@);
            let ghost full = spans_of(fresh@);
            lines.push(fresh);
            assert(lines_of_spans(lines@) =~= done.push(full));
            *prefix = cont.len();
            *avail = cont_avail;
            *used = 0;
        }
        let ghost before = spans_of(line@);
        line.push(Span { content: piece.clone(), style });
        assert(spans_of(line@) =~= before.push((piece@, style)));
        *used = used.saturating_add(pw);
        k = k + 1;
    }
}

/// Places one token: what [`wrap_step`] says.
fn wrap_token(
    lines: &mut Vec<Vec<Span>>,
    line: &mut Vec<Span>,
    prefix: &mut usize,
    avail: &mut usize,
    used: &mut usize,
    token: (String, Style),
    cont: &Vec<Span>,
    cont_avail: usize,
)
    ensures
        wrapping_of(final(lines)@, final(line)@, *final(prefix), *final(avail), *final(used))
            == wrap_step(
            wrapping_of(old(lines)@, old(line)@, *old(prefix), *old(avail), *old(used)),
            (token.0@, token.1),
            spans_of(cont@),
            cont_avail as nat,
        ),
{
    let (text, style) = token;
    let w = str_width(text.as_str());
    proof {
        reveal_strlit(" ");
    }
    let space = same_text(text.as_str(), " ");
    if space && *used == 0 && lines.len() > 0 {
        assert(lines_of_spans(lines@).len() == lines@.len());
        return;
    }
    let broke = used.saturating_add(w) > *avail && *used > 0;
    if broke {
        break_line(lines, line, prefix, avail, used, text.as_str(), cont, cont_avail);
        if space {
            return;
        }
    }
    if w > *avail {
        let pieces = hard_wrap(text.as_str(), *avail);
        place(lines, line, prefix, avail, used, &pieces, style, cont, cont_avail);
        return;
    }
    let ghost before = spans_of(line@);
    let ghost tv = text@;
    line.push(Span { content: text, style });
    assert(spans_of(line@) =~= before.push((tv, style)));
    *used = used.saturating_add(w);
}

/// Greedy word wrap over styled runs, at `width` cells: the first line
/// behind `first_prefix`, the others behind `cont_prefix`.
///
/// A run of Latin letters is kept whole where it fits; each wide (CJK)
/// character is its own break opportunity, since Japanese has no spaces to
/// break at. A token wider than a whole line is split by character. Cell
/// counts are held at `usize::MAX`.
pub fn wrap(segments: Vec<(String, Style)>, width: usize, first_prefix: Vec<Span>, cont_prefix: Vec<Span>) -> (lines: Vec<Vec<Span>>)
    ensures
        lines_of_spans(lines@) == wrapped(runs_of(segments@), width as nat, spans_of(first_prefix@), spans_of(cont_prefix@)),
{
    let ghost runs = runs_of(segments@);
    let first_w = span_cells(&first_prefix);
    let cont_w = span_cells(&cont_prefix);
    let mut tokens: Vec<(String, Style)> = Vec::new();
    let mut k: usize = 0;
    assert(runs_of(tokens@) =~= Seq::<Run>::empty());
    while k < segments.len()
        invariant
            runs == runs_of(segments@),
            k <= segments@.len(),
            runs_of(tokens@) == tokens_of(runs, k as nat),
        decreases segments@.len() - k,
    {
        tokenize_run(&segments[k].0, segments[k].1, &mut tokens);
        assert(runs[k as int] == (segments@[k as int].0@, segments@[k as int].1));
        k = k + 1;
    }
    let mut lines: Vec<Vec<Span>> = Vec::new();
    let mut prefix = first_prefix.len();
    let mut line = first_prefix;
    let mut avail: usize = if width > first_w && width - first_w >= 1 {
        width - first_w
    } else {
        1
    };
    let mut used: usize = 0;
    let cont_avail: usize = if width > cont_w && width - cont_w >= 1 {
        width - cont_w
    } else {
        1
    };
    let ghost init = wrapping_of(lines@, line@, prefix, avail, used);
    let ghost all = runs_of(tokens@);
    assert(lines_of_spans(lines@) =~= Seq::<Seq<Run>>::empty());
    let mut t: usize = 0;
    let n = tokens.len();
    let mut rest = tokens;
    // Tokens are taken from the front in order; `rest` holds the ones left,
    // last first.
    let mut reversed: Vec<(String, Style)> = Vec::new();
    while rest.len() > 0
        invariant
            runs_of(rest@) + runs_of(reversed@).reverse() == all,
        decreases rest@.len(),
    {
        let ghost before_rest = runs_of(rest@);
        let ghost before_rev = runs_of(reversed@);
        match rest.pop() {
            Some(tok) => reversed.push(tok),
            None => {},
        }
        assert(runs_of(rest@) =~= before_rest.drop_last());
        assert(runs_of(reversed@) =~= before_rev.push(before_rest.last()));
        assert(runs_of(reversed@).reverse() =~= seq![before_rest.last()] + before_rev.reverse());
        assert(runs_of(rest@) + runs_of(reversed@).reverse() =~= before_rest + before_rev.reverse());
    }
    assert(runs_of(reversed@).reverse() =~= all);
    while t < n
        invariant
            n == all.len(),
            t <= n,
            reversed@.len() == n - t,
            forall|x: int| 0 <= x < n - t ==> (#[trigger] reversed@[x]).0@ == all[n - 1 - x].0 && reversed@[x].1 == all[n - 1 - x].1,
            wrapping_of(lines@, line@, prefix, avail, used) == wrap_upto(
                init,
                all,
                spans_of(cont_prefix@),
                cont_avail as nat,
                t as nat,
            ),
        decreases n - t,
    {
        let token = match reversed.pop() {
            Some(tok) => tok,
            None => (String::new(), plain()),
        };
        assert(token.0@ == all[t as int].0 && token.1 == all[t as int].1);
        wrap_token(&mut lines, &mut line, &mut prefix, &mut avail, &mut used, token, &cont_prefix, cont_avail);
        t = t + 1;
    }
    let ghost done = lines_of_spans(lines@);
    let ghost last = spans_of(line@);
    lines.push(line);
    assert(lines_of_spans(lines@) =~= done.push(last));
    lines
}


/// A line as `str::lines` yields it: without one carriage return at its end.
pub open spec fn without_cr(line: Seq<char>) -> Seq<char> {
    if line.len() > 0 && line.last() == '\r' {
        line.drop_last()
    } else {
        line
    }
}

/// The lines of `s`, as `str::lines` yields them: split at each newline, a
/// carriage return before it dropped, and no empty line after a final
/// newline.
pub open spec fn lines_of(s: Seq<char>) -> Seq<Seq<char>> {
    let parts = crate::callback::pieces(s, '\n');
    let whole = if parts.len() > 0 && parts.last().len() == 0 {
        parts.drop_last()
    } else {
        parts
    };
    whole.map_values(|l: Seq<char>| without_cr(l))
}

pub(crate) fn split_lines(s: &str) -> (lines: Vec<String>)
    ensures
        texts_of(lines@) == lines_of(s@),
{
    let parts = crate::callback::split_pieces(s, '\n');
    let ghost all = crate::callback::views_of(parts@);
    let mut n = parts.len();
    assert(all.len() == parts@.len());
    if n > 0 && parts[n - 1].unicode_len() == 0 {
        assert(all.last() == parts@[n - 1]@);
        n = n - 1;
    }
    let ghost whole = all.take(n as int);
    assert(whole =~= (if all.len() > 0 && all.last().len() == 0 {
        all.drop_last()
    } else {
        all
    }));
    let mut lines: Vec<String> = Vec::new();
    let mut i: usize = 0;
    while i < n
        invariant
            n <= parts@.len(),
            all == crate::callback::views_of(parts@),
            whole == all.take(n as int),
            i <= n,
            texts_of(lines@) == whole.take(i as int).map_values(|l: Seq<char>| without_cr(l)),
        decreases n - i,
    {
        let part = parts[i];
        let chars = chars_of(part);
        let end = if chars.len() > 0 && chars[chars.len() - 1] == '\r' {
            chars.len() - 1
        } else {
            chars.len()
        };
        let line = part.substring_char(0, end);
        let mut owned = String::new();
        push_str(&mut owned, line);
        assert(all[i as int] == part@);
        assert(owned@ =~= without_cr(part@));
        let ghost before = texts_of(lines@);
        lines.push(owned);
        assert(texts_of(lines@) =~= before.push(without_cr(part@)));
        assert(whole.take(i + 1).map_values(|l: Seq<char>| without_cr(l)) =~= whole.take(i as int).map_values(
            |l: Seq<char>| without_cr(l),
        ).push(without_cr(whole[i as int])));
        i = i + 1;
    }
    assert(whole.take(n as int) =~= whole);
    lines
}

/// How many `#` a line starts with.
pub open spec fn hashes(line: Seq<char>) -> nat
    decreases line.len(),
{
    if line.len() > 0 && line[0] == '#' {
        1 + hashes(line.drop_first())
    } else {
        0
    }
}

/// The level of a heading: one to six `#`, then a space.
pub open spec fn heading_level(line: Seq<char>) -> Option<nat> {
    let n = hashes(line);
    if 1 <= n <= 6 && n < line.len() && line[n as int] == ' ' {
        Some(n)
    } else {
        None
    }
}

proof fn lemma_hashes(line: Seq<char>, k: int)
    requires
        0 <= k <= line.len(),
        forall|i: int| 0 <= i < k ==> line[i] == '#',
    ensures
        hashes(line) == k + hashes(line.skip(k)),
    decreases k,
{
    if k > 0 {
        assert(line.drop_first().skip(k - 1) =~= line.skip(k));
        lemma_hashes(line.drop_first(), k - 1);
    } else {
        assert(line.skip(0) =~= line);
    }
}

fn level_of(chars: &Vec<char>) -> (level: Option<usize>)
    ensures
        match level {
            Some(n) => heading_level(chars@) == Some(n as nat),
            None => heading_level(chars@) is None,
        },
{
    let mut n: usize = 0;
    while n < chars.len() && chars[n] == '#'
        invariant
            n <= chars@.len(),
            forall|i: int| 0 <= i < n ==> chars@[i] == '#',
        decreases chars@.len() - n,
    {
        n = n + 1;
    }
    proof {
        lemma_hashes(chars@, n as int);
        if n < chars@.len() {
            assert(chars@.skip(n as int)[0] == chars@[n as int]);
        }
    }
    if 1 <= n && n <= 6 && n < chars.len() && chars[n] == ' ' {
        Some(n)
    } else {
        None
    }
}

/// A list item's marker as drawn, its style, and where its text starts.
pub type Marker = (Seq<char>, Style, int);

/// How many ASCII digits a line starts with.
pub open spec fn leading_digits(line: Seq<char>) -> nat
    decreases line.len(),
{
    if line.len() > 0 && crate::text::is_digit_spec(line[0]) {
        1 + leading_digits(line.drop_first())
    } else {
        0
    }
}

/// The list marker a line starts with, if it is a list item: a task box,
/// open or done; a bullet (`-`, `*`, `+`); or up to three digits and a `.`
/// or `)`, drawn with a `.`.
pub open spec fn list_marker(line: Seq<char>) -> Option<Marker> {
    let bullet = colored(Role::Secondary);
    if "- [ ] "@.is_prefix_of(line) || "* [ ] "@.is_prefix_of(line) {
        Some(("\u{2610} "@, bullet, 6))
    } else if "- [x] "@.is_prefix_of(line) || "* [x] "@.is_prefix_of(line) || "- [X] "@.is_prefix_of(line)
        || "* [X] "@.is_prefix_of(line) {
        Some(("\u{2611} "@, colored(Role::Success), 6))
    } else if "- "@.is_prefix_of(line) || "* "@.is_prefix_of(line) || "+ "@.is_prefix_of(line) {
        Some(("\u{2022} "@, bullet, 2))
    } else {
        let d = leading_digits(line);
        if 0 < d <= 3 && (". "@.is_prefix_of(line.skip(d as int)) || ") "@.is_prefix_of(line.skip(d as int))) {
            Some((line.take(d as int) + ". "@, bullet, d + 2int))
        } else {
            None
        }
    }
}

fn prefixed(chars: &Vec<char>, from: usize, prefix: &str) -> (b: bool)
    requires
        from <= chars@.len(),
    ensures
        b == prefix@.is_prefix_of(chars@.skip(from as int)),
{
    let p = chars_of(prefix);
    if p.len() > chars.len() - from {
        return false;
    }
    let mut i: usize = 0;
    while i < p.len()
        invariant
            p@ == prefix@,
            from + p@.len() <= chars@.len(),
            chars@.len() <= usize::MAX,
            i <= p@.len(),
            forall|j: int| 0 <= j < i ==> p@[j] == chars@[from + j],
        decreases p@.len() - i,
    {
        if p[i] != chars[from + i] {
            assert(chars@.skip(from as int)[i as int] == chars@[from + i]);
            return false;
        }
        i = i + 1;
    }
    assert forall|j: int| 0 <= j < p@.len() implies p@[j] == chars@.skip(from as int)[j] by {
        assert(chars@.skip(from as int)[j] == chars@[from + j]);
    }
    true
}

proof fn lemma_leading_digits(line: Seq<char>, k: int)
    requires
        0 <= k <= line.len(),
        forall|i: int| 0 <= i < k ==> crate::text::is_digit_spec(line[i]),
    ensures
        leading_digits(line) == k + leading_digits(line.skip(k)),
    decreases k,
{
    if k > 0 {
        assert(line.drop_first().skip(k - 1) =~= line.skip(k));
        lemma_leading_digits(line.drop_first(), k - 1);
    } else {
        assert(line.skip(0) =~= line);
    }
}

fn marker_of(chars: &Vec<char>) -> (m: Option<(String, Style, usize)>)
    ensures
        match m {
            Some((text, style, skip)) => list_marker(chars@) == Some((text@, style, skip as int)) && skip
                <= chars@.len(),
            None => list_marker(chars@) is None,
        },
{
    proof {
        reveal_strlit("- [ ] ");
        reveal_strlit("* [ ] ");
        reveal_strlit("- [x] ");
        reveal_strlit("* [x] ");
        reveal_strlit("- [X] ");
        reveal_strlit("* [X] ");
        reveal_strlit("- ");
        reveal_strlit("* ");
        reveal_strlit("+ ");
        reveal_strlit(". ");
        reveal_strlit(") ");
    }
    let bullet = in_color(Role::Secondary);
    proof {
        assert(chars@.skip(0) =~= chars@);
    }
    let mut text = String::new();
    if prefixed(chars, 0, "- [ ] ") || prefixed(chars, 0, "* [ ] ") {
        push_str(&mut text, "\u{2610} ");
        return Some((text, bullet, 6));
    }
    if prefixed(chars, 0, "- [x] ") || prefixed(chars, 0, "* [x] ") || prefixed(chars, 0, "- [X] ")
        || prefixed(chars, 0, "* [X] ") {
        push_str(&mut text, "\u{2611} ");
        return Some((text, in_color(Role::Success), 6));
    }
    if prefixed(chars, 0, "- ") || prefixed(chars, 0, "* ") || prefixed(chars, 0, "+ ") {
        push_str(&mut text, "\u{2022} ");
        return Some((text, bullet, 2));
    }
    let mut d: usize = 0;
    while d < chars.len() && crate::text::is_digit(chars[d])
        invariant
            d <= chars@.len(),
            forall|i: int| 0 <= i < d ==> crate::text::is_digit_spec(chars@[i]),
        decreases chars@.len() - d,
    {
        d = d + 1;
    }
    proof {
        lemma_leading_digits(chars@, d as int);
        if d < chars@.len() {
            assert(chars@.skip(d as int)[0] == chars@[d as int]);
        }
    }
    if 0 < d && d <= 3 && (prefixed(chars, d, ". ") || prefixed(chars, d, ") ")) {
        let digits = text_of(chars, 0, d);
        push_str(&mut text, digits.as_str());
        push_str(&mut text, ". ");
        assert(chars@.subrange(0, d as int) =~= chars@.take(d as int));
        return Some((text, bullet, d + 2));
    }
    None
}


/// `n` spaces.
pub open spec fn spaces(n: nat) -> Seq<char> {
    Seq::new(n, |i: int| ' ')
}

/// A horizontal rule `n` cells long.
pub open spec fn rule(n: nat) -> Seq<char> {
    Seq::new(n, |i: int| '\u{2500}')
}

/// `a - b`, or nothing when `b` is more.
pub open spec fn sat_sub(a: nat, b: nat) -> nat {
    if a > b {
        (a - b) as nat
    } else {
        0
    }
}

/// `s` without the backticks at its start.
pub open spec fn drop_ticks(s: Seq<char>) -> Seq<char>
    decreases s.len(),
{
    if s.len() > 0 && s[0] == '`' {
        drop_ticks(s.drop_first())
    } else {
        s
    }
}

/// The lines of the rendering so far, whether a fenced block is open, and
/// how many blank lines ran before this one.
#[verifier::ext_equal]
pub struct Rendering {
    pub out: Seq<Seq<Run>>,
    pub in_code: bool,
    pub blank_run: nat,
}

/// Lines added behind the gutter.
pub open spec fn behind(out: Seq<Seq<Run>>, gutter: Seq<Run>, lines: Seq<Seq<Run>>) -> Seq<Seq<Run>> {
    out + lines.map_values(|l: Seq<Run>| gutter + l)
}

pub open spec fn styled_both(fg: Role, bg: Role) -> Style {
    Style { fg: Some(Color::Themed(fg)), bg: Some(Color::Themed(bg)), ..plain_style() }
}

/// A line of a fenced block: a margin, the text, and padding to the width,
/// all on the code background.
pub open spec fn code_line(chunk: Seq<char>, width: nat) -> Seq<Run> {
    let style = styled_both(Role::TextDim, Role::CodeBackground);
    seq![(" "@, style), (chunk, style), (spaces(sat_sub(width, text_cells(chunk) as nat + 1)), style)]
}

/// How a heading of `level` is drawn.
pub open spec fn heading_style(level: nat) -> Style {
    Style {
        fg: Some(Color::Themed(if level <= 2 {
            Role::Accent
        } else {
            Role::Text
        })),
        bold: true,
        ..plain_style()
    }
}

/// The lines a source line that is neither a fence, inside a fenced block,
/// nor blank is drawn as, before the gutter.
pub open spec fn render_step_lines(trimmed: Seq<char>, raw: Seq<char>, width: nat) -> Seq<Seq<Run>> {
    let indent = text_cells(raw.take(raw.len() - trimmed.len())) as nat;
    if trimmed == "---"@ || trimmed == "***"@ || trimmed == "___"@ {
        seq![seq![(rule(width), colored(Role::Border))]]
    } else if heading_level(trimmed) is Some {
        let level = heading_level(trimmed)->0;
        wrapped(
            inline_runs(crate::text::trimmed(trimmed.skip(level as int)), heading_style(level)),
            width,
            Seq::empty(),
            Seq::empty(),
        )
    } else if trimmed[0] == '>' {
        let bar = seq![("\u{258e} "@, colored(Role::Muted))];
        wrapped(
            inline_runs(
                crate::text::trim_front(trimmed.skip(1)),
                Style { italic: true, ..colored(Role::TextDim) },
            ),
            width,
            bar,
            bar,
        )
    } else if list_marker(trimmed) is Some {
        let (marker, style, skip) = list_marker(trimmed)->0;
        let pad = spaces(if indent < 12 {
            indent
        } else {
            12
        });
        wrapped(
            inline_runs(trimmed.skip(skip), colored(Role::Text)),
            width,
            seq![(pad, plain_style()), (marker, style)],
            seq![(pad + spaces(text_cells(marker) as nat), plain_style())],
        )
    } else {
        wrapped(inline_runs(trimmed, colored(Role::Text)), width, Seq::empty(), Seq::empty())
    }
}

/// One source line rendered: fences open and close a block shown
/// verbatim; blank lines collapse to one; then a rule, a heading, a quote,
/// a list item (its continuation lines under its text), or a paragraph
/// line, each wrapped to `width`.
pub open spec fn render_step(st: Rendering, raw: Seq<char>, width: nat, gutter: Seq<Run>) -> Rendering {
    let trimmed = crate::text::trim_front(raw);
    if "```"@.is_prefix_of(trimmed) {
        let in_code = !st.in_code;
        let lang = crate::text::trimmed(drop_ticks(trimmed));
        Rendering {
            out: if in_code && lang.len() > 0 {
                st.out.push(gutter + seq![(" "@ + lang + " "@, styled_both(Role::Muted, Role::CodeBackground))])
            } else {
                st.out
            },
            in_code,
            blank_run: st.blank_run,
        }
    } else if st.in_code {
        let chunks = hard_wrapped(raw, sat_sub(width, 2));
        Rendering { out: behind(st.out, gutter, chunks.map_values(|c: Seq<char>| code_line(c, width))), ..st }
    } else if trimmed.len() == 0 {
        let run = sat_add(st.blank_run, 1);
        Rendering {
            out: if run == 1 && st.out.len() > 0 {
                st.out.push(gutter)
            } else {
                st.out
            },
            in_code: st.in_code,
            blank_run: run,
        }
    } else {
        Rendering { out: behind(st.out, gutter, render_step_lines(trimmed, raw, width)), in_code: st.in_code, blank_run: 0 }
    }
}

/// The rendering after the first `k` lines.
pub open spec fn render_upto(lines: Seq<Seq<char>>, width: nat, gutter: Seq<Run>, k: nat) -> Rendering
    decreases k,
{
    if k == 0 {
        Rendering { out: Seq::empty(), in_code: false, blank_run: 0 }
    } else {
        render_step(render_upto(lines, width, gutter, (k - 1) as nat), lines[k - 1], width, gutter)
    }
}

/// `out` without the lines at its end that hold nothing but the gutter.
pub open spec fn trim_blank_tail(out: Seq<Seq<Run>>, gutter_len: nat) -> Seq<Seq<Run>>
    decreases out.len(),
{
    if out.len() > 0 && out.last().len() == gutter_len {
        trim_blank_tail(out.drop_last(), gutter_len)
    } else {
        out
    }
}

/// The lines `source` renders into at `width` cells, `gutter` before
/// each; the gutter counts against the width, and at least eight cells
/// are left for the text.
pub open spec fn rendered(source: Seq<char>, width: nat, gutter: Seq<Run>) -> Seq<Seq<Run>> {
    let inner = sat_sub(width, spans_cells(gutter, gutter.len()));
    let w = if inner > 8 {
        inner
    } else {
        8
    };
    let lines = lines_of(source);
    trim_blank_tail(render_upto(lines, w, gutter, lines.len()).out, gutter.len())
}

/// `spans` after a copy of the gutter.
fn with_gutter(gutter: &Vec<Span>, spans: Vec<Span>) -> (line: Vec<Span>)
    ensures
        spans_of(line@) == spans_of(gutter@) + spans_of(spans@),
{
    let mut line = clone_spans(gutter);
    let ghost head = spans_of(line@);
    let mut rest = spans;
    let mut reversed: Vec<Span> = Vec::new();
    while rest.len() > 0
        invariant
            spans_of(rest@) + spans_of(reversed@).reverse() == spans_of(spans@),
        decreases rest@.len(),
    {
        let ghost before_rest = spans_of(rest@);
        let ghost before_rev = spans_of(reversed@);
        match rest.pop() {
            Some(span) => reversed.push(span),
            None => {},
        }
        assert(spans_of(rest@) =~= before_rest.drop_last());
        assert(spans_of(reversed@) =~= before_rev.push(before_rest.last()));
        assert(spans_of(reversed@).reverse() =~= seq![before_rest.last()] + before_rev.reverse());
        assert(spans_of(rest@) + spans_of(reversed@).reverse() =~= before_rest + before_rev.reverse());
    }
    assert(spans_of(reversed@).reverse() =~= spans_of(spans@));
    let n = reversed.len();
    let mut k: usize = 0;
    while k < n
        invariant
            n == spans@.len(),
            k <= n,
            reversed@.len() == n - k,
            forall|x: int| 0 <= x < n - k ==> (#[trigger] spans_of(reversed@)[x]) == spans_of(spans@)[n - 1 - x],
            spans_of(line@) == head + spans_of(spans@).take(k as int),
        decreases n - k,
    {
        let ghost before = spans_of(line@);
        let ghost before_rev = spans_of(reversed@);
        let ghost last = spans_of(reversed@)[(n - k - 1) as int];
        match reversed.pop() {
            Some(span) => line.push(span),
            None => {},
        }
        assert(spans_of(reversed@) =~= before_rev.drop_last());
        assert(spans_of(line@) =~= before.push(last));
        assert(spans_of(spans@).take(k + 1) =~= spans_of(spans@).take(k as int).push(spans_of(spans@)[k as int]));
        k = k + 1;
    }
    assert(spans_of(spans@).take(n as int) =~= spans_of(spans@));
    line
}

/// Adds `lines` to `out`, each behind the gutter.
fn push_behind(out: &mut Vec<Vec<Span>>, gutter: &Vec<Span>, lines: Vec<Vec<Span>>)
    ensures
        lines_of_spans(final(out)@) == behind(lines_of_spans(old(out)@), spans_of(gutter@), lines_of_spans(lines@)),
{
    let ghost start = lines_of_spans(out@);
    let ghost all = lines_of_spans(lines@);
    let ghost g = spans_of(gutter@);
    let mut rest = lines;
    let mut reversed: Vec<Vec<Span>> = Vec::new();
    while rest.len() > 0
        invariant
            lines_of_spans(rest@) + lines_of_spans(reversed@).reverse() == all,
        decreases rest@.len(),
    {
        let ghost before_rest = lines_of_spans(rest@);
        let ghost before_rev = lines_of_spans(reversed@);
        match rest.pop() {
            Some(l) => reversed.push(l),
            None => {},
        }
        assert(lines_of_spans(rest@) =~= before_rest.drop_last());
        assert(lines_of_spans(reversed@) =~= before_rev.push(before_rest.last()));
        assert(lines_of_spans(reversed@).reverse() =~= seq![before_rest.last()] + before_rev.reverse());
        assert(lines_of_spans(rest@) + lines_of_spans(reversed@).reverse() =~= before_rest + before_rev.reverse());
    }
    assert(lines_of_spans(reversed@).reverse() =~= all);
    let n = reversed.len();
    let mut k: usize = 0;
    assert(start + all.take(0).map_values(|l: Seq<Run>| g + l) =~= start);
    while k < n
        invariant
            n == all.len(),
            k <= n,
            g == spans_of(gutter@),
            reversed@.len() == n - k,
            forall|x: int| 0 <= x < n - k ==> (#[trigger] lines_of_spans(reversed@)[x]) == all[n - 1 - x],
            lines_of_spans(out@) == start + all.take(k as int).map_values(|l: Seq<Run>| g + l),
        decreases n - k,
    {
        let ghost before = lines_of_spans(out@);
        let ghost next = lines_of_spans(reversed@)[(n - k - 1) as int];
        let ghost before_rev = lines_of_spans(reversed@);
        let spans = match reversed.pop() {
            Some(l) => l,
            None => Vec::new(),
        };
        assert(lines_of_spans(reversed@) =~= before_rev.drop_last());
        assert(spans_of(spans@) == next);
        let line = with_gutter(gutter, spans);
        out.push(line);
        assert(lines_of_spans(out@) =~= before.push(g + next));
        assert(all.take(k + 1).map_values(|l: Seq<Run>| g + l) =~= all.take(k as int).map_values(
            |l: Seq<Run>| g + l,
        ).push(g + all[k as int]));
        k = k + 1;
    }
    assert(all.take(n as int) =~= all);
}


pub(crate) fn repeated(c: char, n: usize) -> (s: String)
    ensures
        s@ == Seq::new(n as nat, |i: int| c),
{
    let mut s = String::new();
    let mut i: usize = 0;
    while i < n
        invariant
            i <= n,
            s@ == Seq::new(i as nat, |j: int| c),
        decreases n - i,
    {
        push_char(&mut s, c);
        assert(s@ =~= Seq::new((i + 1) as nat, |j: int| c));
        i = i + 1;
    }
    s
}

fn without_ticks(s: &str) -> (t: &str)
    ensures
        t@ == drop_ticks(s@),
{
    let v = chars_of(s);
    let mut i: usize = 0;
    assert(v@.subrange(0, v@.len() as int) =~= v@);
    while i < v.len() && v[i] == '`'
        invariant
            v@ == s@,
            i <= v@.len(),
            drop_ticks(v@) == drop_ticks(v@.subrange(i as int, v@.len() as int)),
        decreases v@.len() - i,
    {
        assert(v@.subrange(i as int, v@.len() as int).drop_first() =~= v@.subrange(i + 1, v@.len() as int));
        i = i + 1;
    }
    s.substring_char(i, v.len())
}

fn span(text: String, style: Style) -> (s: Span)
    ensures
        s.content@ == text@,
        s.style == style,
{
    Span { content: text, style }
}

fn owned(text: &str) -> (s: String)
    ensures
        s@ == text@,
{
    let mut s = String::new();
    push_str(&mut s, text);
    s
}

/// The lines a block of text that is not fenced code renders into, before
/// the gutter.
#[verifier::rlimit(40)]
fn text_block(trimmed: &str, indent: usize, width: usize) -> (lines: Vec<Vec<Span>>)
    requires
        trimmed@.len() > 0,
    ensures
        lines_of_spans(lines@) == ({
            let t = trimmed@;
            if t == "---"@ || t == "***"@ || t == "___"@ {
                seq![seq![(rule(width as nat), colored(Role::Border))]]
            } else if heading_level(t) is Some {
                let level = heading_level(t)->0;
                wrapped(
                    inline_runs(crate::text::trimmed(t.skip(level as int)), heading_style(level)),
                    width as nat,
                    Seq::empty(),
                    Seq::empty(),
                )
            } else if t[0] == '>' {
                let bar = seq![("\u{258e} "@, colored(Role::Muted))];
                wrapped(
                    inline_runs(crate::text::trim_front(t.skip(1)), Style { italic: true, ..colored(Role::TextDim) }),
                    width as nat,
                    bar,
                    bar,
                )
            } else if list_marker(t) is Some {
                let (marker, style, skip) = list_marker(t)->0;
                let pad = spaces(if indent < 12 {
                    indent as nat
                } else {
                    12
                });
                wrapped(
                    inline_runs(t.skip(skip), colored(Role::Text)),
                    width as nat,
                    seq![(pad, plain_style()), (marker, style)],
                    seq![(pad + spaces(text_cells(marker) as nat), plain_style())],
                )
            } else {
                wrapped(inline_runs(t, colored(Role::Text)), width as nat, Seq::empty(), Seq::empty())
            }
        }),
{
    let chars = chars_of(trimmed);
    if same_text(trimmed, "---") || same_text(trimmed, "***") || same_text(trimmed, "___") {
        let line = vec![span(repeated('\u{2500}', width), in_color(Role::Border))];
        assert(spans_of(line@) =~= seq![(rule(width as nat), colored(Role::Border))]);
        let ghost lv = spans_of(line@);
        let lines = vec![line];
        assert(lines_of_spans(lines@) =~= seq![lv]);
        return lines;
    }
    match level_of(&chars) {
        Some(level) => {
            let rest = trimmed.substring_char(level, chars.len());
            assert(rest@ =~= trimmed@.skip(level as int));
            let style = Style {
                fg: Some(Color::Themed(if level <= 2 {
                    Role::Accent
                } else {
                    Role::Text
                })),
                bold: true,
                ..plain()
            };
            let runs = inline(crate::text::trim(rest), style);
            let none: Vec<Span> = Vec::new();
            let also: Vec<Span> = Vec::new();
            assert(spans_of(none@) =~= Seq::<Run>::empty());
            return wrap(runs, width, none, also);
        },
        None => {},
    }
    if chars[0] == '>' {
        let rest = trimmed.substring_char(1, chars.len());
        assert(rest@ =~= trimmed@.skip(1));
        let bar = vec![span(owned("\u{258e} "), in_color(Role::Muted))];
        let bar2 = vec![span(owned("\u{258e} "), in_color(Role::Muted))];
        assert(spans_of(bar@) =~= seq![("\u{258e} "@, colored(Role::Muted))]);
        assert(spans_of(bar2@) =~= seq![("\u{258e} "@, colored(Role::Muted))]);
        let style = Style { italic: true, ..in_color(Role::TextDim) };
        let runs = inline(crate::text::trim_start(rest), style);
        return wrap(runs, width, bar, bar2);
    }
    match marker_of(&chars) {
        Some((marker, style, skip)) => {
            let rest = trimmed.substring_char(skip, chars.len());
            assert(rest@ =~= trimmed@.skip(skip as int));
            let pad_n: usize = if indent < 12 {
                indent
            } else {
                12
            };
            let pad = repeated(' ', pad_n);
            let marker_w = str_width(marker.as_str());
            let mut cont_text = repeated(' ', pad_n);
            let tail = repeated(' ', marker_w);
            push_str(&mut cont_text, tail.as_str());
            assert(spaces(pad_n as nat) == Seq::new(pad_n as nat, |i: int| ' '));
            let ghost pv = pad@;
            let ghost mv = marker@;
            let ghost cv = cont_text@;
            let first = vec![span(pad, plain()), span(marker, style)];
            let cont = vec![span(cont_text, plain())];
            assert(spans_of(first@) =~= seq![(pv, plain_style()), (mv, style)]);
            assert(spans_of(cont@) =~= seq![(cv, plain_style())]);
            let runs = inline(rest, in_color(Role::Text));
            return wrap(runs, width, first, cont);
        },
        None => {},
    }
    let runs = inline(trimmed, in_color(Role::Text));
    let none: Vec<Span> = Vec::new();
    let also: Vec<Span> = Vec::new();
    assert(spans_of(none@) =~= Seq::<Run>::empty());
    wrap(runs, width, none, also)
}

pub open spec fn rendering_of(out: Seq<Vec<Span>>, in_code: bool, blank_run: usize) -> Rendering {
    Rendering { out: lines_of_spans(out), in_code, blank_run: blank_run as nat }
}

/// One source line: what [`render_step`] says.
#[verifier::rlimit(40)]
fn render_line(
    out: &mut Vec<Vec<Span>>,
    in_code: &mut bool,
    blank_run: &mut usize,
    raw: &str,
    width: usize,
    gutter: &Vec<Span>,
)
    ensures
        rendering_of(final(out)@, *final(in_code), *final(blank_run)) == render_step(
            rendering_of(old(out)@, *old(in_code), *old(blank_run)),
            raw@,
            width as nat,
            spans_of(gutter@),
        ),
{
    let ghost st = rendering_of(out@, *in_code, *blank_run);
    let ghost g = spans_of(gutter@);
    let trimmed = crate::text::trim_start(raw);
    let rv = chars_of(raw);
    let tv = chars_of(trimmed);
    proof {
        crate::text::lemma_trim_front_len(raw@);
    }
    let lead = raw.substring_char(0, rv.len() - tv.len());
    let indent = str_width(lead);
    proof {
        reveal_strlit("```");
        assert(lead@ =~= raw@.take(raw@.len() - trimmed@.len()));
        assert(tv@.skip(0) =~= tv@);
    }
    if prefixed(&tv, 0, "```") {
        *in_code = !*in_code;
        let lang = crate::text::trim(without_ticks(trimmed));
        let lv = chars_of(lang);
        if *in_code && lv.len() > 0 {
            let mut label = String::new();
            push_str(&mut label, " ");
            push_str(&mut label, lang);
            push_str(&mut label, " ");
            let ghost labelv = label@;
            let line = vec![span(label, Style { fg: Some(Color::Themed(Role::Muted)), bg: Some(Color::Themed(Role::CodeBackground)), ..plain() })];
            assert(spans_of(line@) =~= seq![(labelv, styled_both(Role::Muted, Role::CodeBackground))]);
            let full = with_gutter(gutter, line);
            let ghost before = lines_of_spans(out@);
            let ghost fv = spans_of(full@);
            out.push(full);
            assert(lines_of_spans(out@) =~= before.push(fv));
        }
        assert(rendering_of(out@, *in_code, *blank_run) =~= render_step(st, raw@, width as nat, g));
        return;
    }
    if *in_code {
        let inner: usize = if width > 2 {
            width - 2
        } else {
            0
        };
        let chunks = hard_wrap(raw, inner);
        let mut lines: Vec<Vec<Span>> = Vec::new();
        let mut k: usize = 0;
        let ghost cs = texts_of(chunks@);
        while k < chunks.len()
            invariant
                cs == texts_of(chunks@),
                k <= chunks@.len(),
                lines_of_spans(lines@) == cs.take(k as int).map_values(|c: Seq<char>| code_line(c, width as nat)),
            decreases chunks@.len() - k,
        {
            let chunk = &chunks[k];
            let cw = str_width(chunk.as_str());
            let pad_n: usize = if cw < width && width - cw > 1 {
                width - (cw + 1)
            } else {
                0
            };
            let style = Style { fg: Some(Color::Themed(Role::TextDim)), bg: Some(Color::Themed(Role::CodeBackground)), ..plain() };
            let pad = repeated(' ', pad_n);
            let ghost cv = chunk@;
            let ghost pv = pad@;
            let line = vec![span(owned(" "), style), span(chunk.clone(), style), span(pad, style)];
            assert(cs[k as int] == cv);
            assert(spans_of(line@) =~= code_line(cv, width as nat));
            let ghost before = lines_of_spans(lines@);
            let ghost lv = spans_of(line@);
            lines.push(line);
            assert(lines_of_spans(lines@) =~= before.push(lv));
            assert(cs.take(k + 1).map_values(|c: Seq<char>| code_line(c, width as nat)) =~= cs.take(k as int).map_values(
                |c: Seq<char>| code_line(c, width as nat),
            ).push(code_line(cs[k as int], width as nat)));
            k = k + 1;
        }
        assert(cs.take(chunks@.len() as int) =~= cs);
        push_behind(out, gutter, lines);
        assert(rendering_of(out@, *in_code, *blank_run) =~= render_step(st, raw@, width as nat, g));
        return;
    }
    if tv.len() == 0 {
        *blank_run = blank_run.saturating_add(1);
        if *blank_run == 1 && out.len() > 0 {
            let line = clone_spans(gutter);
            let ghost before = lines_of_spans(out@);
            out.push(line);
            assert(lines_of_spans(out@) =~= before.push(g));
        }
        assert(rendering_of(out@, *in_code, *blank_run) =~= render_step(st, raw@, width as nat, g));
        return;
    }
    *blank_run = 0;
    let lines = text_block(trimmed, indent, width);
    push_behind(out, gutter, lines);
    assert(rendering_of(out@, *in_code, *blank_run) =~= render_step(st, raw@, width as nat, g));
}

/// Render `source` into lines no wider than `width` cells.
///
/// `gutter` is put before every line — the comment thread draws its left
/// rule with it — and counts against `width`.
pub fn render(source: &str, width: u16, gutter: &Vec<Span>) -> (lines: Vec<Vec<Span>>)
    ensures
        lines_of_spans(lines@) == rendered(source@, width as nat, spans_of(gutter@)),
{
    let gutter_w = span_cells(gutter);
    let inner: usize = if (width as usize) > gutter_w {
        width as usize - gutter_w
    } else {
        0
    };
    let w: usize = if inner > 8 {
        inner
    } else {
        8
    };
    let lines = split_lines(source);
    let ghost all = lines_of(source@);
    let mut out: Vec<Vec<Span>> = Vec::new();
    let mut in_code = false;
    let mut blank_run: usize = 0;
    let mut k: usize = 0;
    assert(lines_of_spans(out@) =~= Seq::<Seq<Run>>::empty());
    while k < lines.len()
        invariant
            all == lines_of(source@),
            texts_of(lines@) == all,
            k <= lines@.len(),
            rendering_of(out@, in_code, blank_run) == render_upto(all, w as nat, spans_of(gutter@), k as nat),
        decreases lines@.len() - k,
    {
        assert(all[k as int] == lines@[k as int]@);
        render_line(&mut out, &mut in_code, &mut blank_run, lines[k].as_str(), w, gutter);
        k = k + 1;
    }
    let g = gutter.len();
    assert(spans_of(gutter@).len() == g);
    while out.len() > 0 && out[out.len() - 1].len() == g
        invariant
            spans_of(gutter@).len() == g,
            trim_blank_tail(lines_of_spans(out@), g as nat) == rendered(source@, width as nat, spans_of(gutter@)),
        decreases out@.len(),
    {
        let ghost before = lines_of_spans(out@);
        assert(before.last() == spans_of(out@[out@.len() - 1]@));
        out.pop();
        assert(lines_of_spans(out@) =~= before.drop_last());
    }
    out
}

/// Whether every line of `out` starts with `gutter`.
pub open spec fn all_behind(out: Seq<Seq<Run>>, gutter: Seq<Run>) -> bool {
    forall|i: int| 0 <= i < out.len() ==> gutter.is_prefix_of(#[trigger] out[i])
}

proof fn lemma_prefix_of_concat(gutter: Seq<Run>, rest: Seq<Run>)
    ensures
        gutter.is_prefix_of(gutter + rest),
{
    assert((gutter + rest).subrange(0, gutter.len() as int) =~= gutter);
}

proof fn lemma_push_behind(out: Seq<Seq<Run>>, gutter: Seq<Run>, line: Seq<Run>)
    requires
        all_behind(out, gutter),
        gutter.is_prefix_of(line),
    ensures
        all_behind(out.push(line), gutter),
{
    assert forall|i: int| 0 <= i < out.push(line).len() implies gutter.is_prefix_of(#[trigger] out.push(line)[i]) by {
        if i < out.len() {
            assert(out.push(line)[i] == out[i]);
        }
    }
}

proof fn lemma_behind(out: Seq<Seq<Run>>, gutter: Seq<Run>, lines: Seq<Seq<Run>>)
    requires
        all_behind(out, gutter),
    ensures
        all_behind(behind(out, gutter, lines), gutter),
{
    let all = behind(out, gutter, lines);
    assert forall|i: int| 0 <= i < all.len() implies gutter.is_prefix_of(#[trigger] all[i]) by {
        if i < out.len() {
            assert(all[i] == out[i]);
        } else {
            assert(all[i] == gutter + lines[i - out.len()]);
            lemma_prefix_of_concat(gutter, lines[i - out.len()]);
        }
    }
}

proof fn lemma_step_behind(st: Rendering, raw: Seq<char>, width: nat, gutter: Seq<Run>)
    requires
        all_behind(st.out, gutter),
    ensures
        all_behind(render_step(st, raw, width, gutter).out, gutter),
{
    let trimmed = crate::text::trim_front(raw);
    if "```"@.is_prefix_of(trimmed) {
        let lang = crate::text::trimmed(drop_ticks(trimmed));
        let tag = seq![(" "@ + lang + " "@, styled_both(Role::Muted, Role::CodeBackground))];
        lemma_prefix_of_concat(gutter, tag);
        lemma_push_behind(st.out, gutter, gutter + tag);
    } else if st.in_code {
        let chunks = hard_wrapped(raw, sat_sub(width, 2));
        lemma_behind(st.out, gutter, chunks.map_values(|c: Seq<char>| code_line(c, width)));
    } else if trimmed.len() == 0 {
        lemma_prefix_of_concat(gutter, Seq::empty());
        assert(gutter + Seq::<Run>::empty() =~= gutter);
        lemma_push_behind(st.out, gutter, gutter);
    } else {
        lemma_behind(st.out, gutter, render_step_lines(trimmed, raw, width));
    }
}

proof fn lemma_upto_behind(lines: Seq<Seq<char>>, width: nat, gutter: Seq<Run>, k: nat)
    requires
        k <= lines.len(),
    ensures
        all_behind(render_upto(lines, width, gutter, k).out, gutter),
    decreases k,
{
    if k > 0 {
        lemma_upto_behind(lines, width, gutter, (k - 1) as nat);
        lemma_step_behind(render_upto(lines, width, gutter, (k - 1) as nat), lines[k - 1], width, gutter);
    }
}

proof fn lemma_trim_blank_tail(out: Seq<Seq<Run>>, n: nat)
    ensures
        trim_blank_tail(out, n).len() <= out.len(),
        forall|i: int| 0 <= i < trim_blank_tail(out, n).len() ==> #[trigger] trim_blank_tail(out, n)[i] == out[i],
    decreases out.len(),
{
    if out.len() > 0 && out.last().len() == n {
        lemma_trim_blank_tail(out.drop_last(), n);
    }
}

/// The gutter is put before every line the rendering gives.
pub proof fn lemma_every_line_behind_the_gutter(source: Seq<char>, width: nat, gutter: Seq<Run>)
    ensures
        all_behind(rendered(source, width, gutter), gutter),
{
    let inner = sat_sub(width, spans_cells(gutter, gutter.len()));
    let w = if inner > 8 {
        inner
    } else {
        8
    };
    let lines = lines_of(source);
    let out = render_upto(lines, w, gutter, lines.len()).out;
    lemma_upto_behind(lines, w, gutter, lines.len());
    lemma_trim_blank_tail(out, gutter.len());
    let r = rendered(source, width, gutter);
    assert forall|i: int| 0 <= i < r.len() implies gutter.is_prefix_of(#[trigger] r[i]) by {
        assert(r[i] == out[i]);
    }
}

proof fn lemma_trimmed_tail_ends_in_text(out: Seq<Seq<Run>>, n: nat)
    ensures
        trim_blank_tail(out, n).len() > 0 ==> trim_blank_tail(out, n).last().len() != n,
    decreases out.len(),
{
    if out.len() > 0 && out.last().len() == n {
        lemma_trimmed_tail_ends_in_text(out.drop_last(), n);
    }
}

/// A rendering never ends with a line holding nothing but the gutter: blank
/// lines at the end of the source cost no rows.
pub proof fn lemma_no_blank_line_at_the_end(source: Seq<char>, width: nat, gutter: Seq<Run>)
    ensures
        rendered(source, width, gutter).len() > 0 ==> rendered(source, width, gutter).last().len() != gutter.len(),
{
    let inner = sat_sub(width, spans_cells(gutter, gutter.len()));
    let w = if inner > 8 {
        inner
    } else {
        8
    };
    let lines = lines_of(source);
    lemma_trimmed_tail_ends_in_text(render_upto(lines, w, gutter, lines.len()).out, gutter.len());
}

/// The cells of the characters of `s`, each as `cells_of` counts it.
pub open spec fn chars_cells(s: Seq<char>) -> nat
    decreases s.len(),
{
    if s.len() == 0 {
        0
    } else {
        chars_cells(s.drop_last()) + cells_of(s.last())
    }
}

/// Pieces put back together, in order.
pub open spec fn joined_pieces(pieces: Seq<Seq<char>>) -> Seq<char>
    decreases pieces.len(),
{
    if pieces.len() == 0 {
        Seq::empty()
    } else {
        joined_pieces(pieces.drop_last()) + pieces.last()
    }
}

proof fn lemma_hard_pieces_keep_the_text(chars: Seq<char>, width: nat, k: nat)
    requires
        k <= chars.len(),
    ensures
        joined_pieces(hard_pieces(chars, width, k).0) == chars.take(k as int),
        chars_cells(hard_pieces(chars, width, k).0.last()) == hard_pieces(chars, width, k).1,
        forall|i: int| 0 <= i < hard_pieces(chars, width, k).0.len() ==> chars_cells(
            #[trigger] hard_pieces(chars, width, k).0[i],
        ) <= width || hard_pieces(chars, width, k).0[i].len() == 1,
    decreases k,
{
    lemma_hard_pieces(chars, width, k);
    if k == 0 {
        let p = hard_pieces(chars, width, 0).0;
        assert(p.drop_last() =~= Seq::<Seq<char>>::empty());
        assert(joined_pieces(Seq::<Seq<char>>::empty()) == Seq::<char>::empty());
        assert(joined_pieces(p) =~= Seq::<char>::empty());
        assert(chars.take(0) =~= Seq::<char>::empty());
        assert(p.last() =~= Seq::<char>::empty());
    } else {
        lemma_hard_pieces_keep_the_text(chars, width, (k - 1) as nat);
        lemma_hard_pieces(chars, width, (k - 1) as nat);
        let (pieces, used) = hard_pieces(chars, width, (k - 1) as nat);
        let c = chars[k - 1];
        let w = cells_of(c);
        assert(chars.take(k as int) =~= chars.take(k - 1).push(c));
        if used + w > width {
            let next = pieces.push(seq![c]);
            assert(next.drop_last() =~= pieces);
            assert(seq![c].drop_last() =~= Seq::<char>::empty());
            assert(chars_cells(Seq::<char>::empty()) == 0);
            assert(chars_cells(seq![c]) == w);
            assert(joined_pieces(next) =~= joined_pieces(pieces) + seq![c]);
            assert forall|i: int| 0 <= i < next.len() implies chars_cells(#[trigger] next[i]) <= width
                || next[i].len() == 1 by {
                if i < pieces.len() {
                    assert(next[i] == pieces[i]);
                }
            }
        } else {
            let n = pieces.len() - 1;
            let grown = pieces.last().push(c);
            let next = pieces.update(n, grown);
            assert(next.drop_last() =~= pieces.drop_last());
            assert(pieces =~= pieces.drop_last().push(pieces.last()));
            assert(joined_pieces(pieces) == joined_pieces(pieces.drop_last()) + pieces.last());
            assert(joined_pieces(next) =~= joined_pieces(pieces) + seq![c]);
            assert(grown.drop_last() =~= pieces.last());
            assert forall|i: int| 0 <= i < next.len() implies chars_cells(#[trigger] next[i]) <= width
                || next[i].len() == 1 by {
                if i < n {
                    assert(next[i] == pieces[i]);
                }
            }
        }
    }
}

/// Hard wrapping keeps the text: its pieces put back together are the text,
/// and each holds at most `width` cells (at least one), unless it is a
/// single character wider than that.
pub proof fn lemma_hard_wrap_keeps_the_text(text: Seq<char>, width: nat)
    ensures
        joined_pieces(hard_wrapped(text, width)) == text,
        forall|i: int| 0 <= i < hard_wrapped(text, width).len() ==> chars_cells(#[trigger] hard_wrapped(text, width)[i])
            <= (if width >= 1 { width } else { 1 }) || hard_wrapped(text, width)[i].len() == 1,
{
    let w = if width >= 1 {
        width
    } else {
        1
    };
    lemma_hard_pieces_keep_the_text(text, w, text.len());
    assert(text.take(text.len() as int) =~= text);
}

/// One to six `#` and a space open a heading of that level, whatever text
/// follows; seven or more `#` open none.
pub proof fn lemma_hashes_and_a_space_open_a_heading(k: nat, text: Seq<char>)
    ensures
        1 <= k <= 6 ==> heading_level(Seq::new(k, |i: int| '#') + " "@ + text) == Some(k),
        k > 6 ==> heading_level(Seq::new(k, |i: int| '#') + " "@ + text) is None,
{
    reveal_strlit(" ");
    let line = Seq::new(k, |i: int| '#') + " "@ + text;
    assert forall|i: int| 0 <= i < k implies line[i] == '#' by {}
    lemma_hashes(line, k as int);
    assert(line.skip(k as int)[0] == ' ');
    assert(hashes(line.skip(k as int)) == 0);
    assert(line[k as int] == ' ');
}

}
