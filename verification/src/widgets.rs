//! Small pieces the views are drawn from: text cut to a width, a status
//! mark, a person, a label chip, a date and how long ago it was.

use vstd::prelude::*;
use crate::context::{ago, ago_text};
use crate::entity::{Label, StateType, User, WorkflowState};
use crate::grouping::assignee_name;
use crate::look::{hex_color, hex_color_spec, state_color, state_color_spec, state_glyph, state_glyph_spec, Color, Role};
use crate::markdown::{cells_of, char_width, plain_style, str_width, text_cells, Run, Span, Style};
use crate::text::{chars_of, decimal, digit_value, digit_value_spec, is_digit, is_digit_spec, push_char, push_decimal, push_str};

verus! {

/// A style with a foreground colour and nothing else.
pub open spec fn fg(color: Color) -> Style {
    Style { fg: Some(color), ..plain_style() }
}

/// A style in a colour of the theme.
pub open spec fn themed(role: Role) -> Style {
    fg(Color::Themed(role))
}

pub fn fg_style(color: Color) -> (s: Style)
    ensures
        s == fg(color),
{
    Style { fg: Some(color), bg: None, bold: false, italic: false, crossed_out: false, underlined: false }
}

pub fn themed_style(role: Role) -> (s: Style)
    ensures
        s == themed(role),
{
    fg_style(Color::Themed(role))
}

/// The characters of `s` from `i` on that fit in `limit` cells, in order,
/// stopping at the first that does not.
pub open spec fn fitting(s: Seq<char>, i: int, limit: nat) -> Seq<char>
    decreases s.len() - i,
{
    if i < 0 || i >= s.len() || cells_of(s[i]) > limit {
        Seq::empty()
    } else {
        seq![s[i]] + fitting(s, i + 1, (limit - cells_of(s[i])) as nat)
    }
}

/// `s` cut to `max` cells: as it is when it fits; else the characters that
/// fit in one cell less, then `…`.
pub open spec fn truncated(s: Seq<char>, max: nat) -> Seq<char> {
    if text_cells(s) <= max {
        s
    } else if max == 0 {
        Seq::empty()
    } else {
        fitting(s, 0, (max - 1) as nat) + "\u{2026}"@
    }
}

/// Cut `s` to `max` cells, ending in `…` where it was cut.
pub fn truncate(s: &str, max: usize) -> (t: String)
    ensures
        t@ == truncated(s@, max as nat),
{
    if str_width(s) <= max {
        let mut t = String::new();
        push_str(&mut t, s);
        return t;
    }
    let mut t = String::new();
    if max == 0 {
        return t;
    }
    let cs = chars_of(s);
    let mut room: usize = max - 1;
    let mut i: usize = 0;
    while i < cs.len()
        invariant
            cs@ == s@,
            i <= cs@.len(),
            room <= max - 1,
            fitting(s@, 0, (max - 1) as nat) == t@ + fitting(s@, i as int, room as nat),
        ensures
            fitting(s@, 0, (max - 1) as nat) == t@ + fitting(s@, i as int, room as nat),
            fitting(s@, i as int, room as nat) =~= Seq::<char>::empty(),
        decreases cs@.len() - i,
    {
        let w = match char_width(cs[i]) {
            Some(w) => w,
            None => 0,
        };
        if w > room {
            assert(cells_of(s@[i as int]) == w);
            break;
        }
        let ghost before = t@;
        push_char(&mut t, cs[i]);
        proof {
            assert(fitting(s@, i as int, room as nat) == seq![s@[i as int]] + fitting(
                s@,
                i + 1,
                (room - w) as nat,
            ));
            assert(t@ + fitting(s@, i + 1, (room - w) as nat) =~= before + (seq![s@[i as int]] + fitting(
                s@,
                i + 1,
                (room - w) as nat,
            )));
        }
        room = room - w;
        i = i + 1;
    }
    proof {
        assert(t@ + Seq::<char>::empty() =~= t@);
    }
    push_str(&mut t, "\u{2026}");
    t
}

/// The category of a state, `Unknown` where there is none.
pub open spec fn kind_of(state: Option<WorkflowState>) -> StateType {
    match state {
        Some(s) => match s.state_type {
            Some(t) => t,
            None => StateType::Unknown,
        },
        None => StateType::Unknown,
    }
}

/// The colour a state is drawn in: the one Linear gave it, if it reads as
/// one, else its category's; muted where there is no state.
pub open spec fn state_color_of(state: Option<WorkflowState>) -> Color {
    match state {
        Some(s) => match s.color {
            Some(hex) => match hex_color_spec(hex@) {
                Some((r, g, b)) => Color::Rgb(r, g, b),
                None => state_color_spec(kind_of(state)),
            },
            None => state_color_spec(kind_of(state)),
        },
        None => Color::Themed(Role::Muted),
    }
}

/// The status mark beside an issue: its category's glyph in its colour.
pub open spec fn state_mark(state: Option<WorkflowState>) -> Run {
    (state_glyph_spec(kind_of(state)), fg(state_color_of(state)))
}

pub fn state_kind(state: &Option<WorkflowState>) -> (t: StateType)
    ensures
        t == kind_of(*state),
{
    match state {
        Some(s) => match s.state_type {
            Some(t) => t,
            None => StateType::Unknown,
        },
        None => StateType::Unknown,
    }
}

pub fn state_color_for(state: &Option<WorkflowState>) -> (c: Color)
    ensures
        c == state_color_of(*state),
{
    match state {
        Some(s) => match &s.color {
            Some(hex) => match hex_color(hex.as_str()) {
                Some((r, g, b)) => Color::Rgb(r, g, b),
                None => state_color(state_kind(state)),
            },
            None => state_color(state_kind(state)),
        },
        None => Color::Themed(Role::Muted),
    }
}

/// The status mark of a state.
pub fn state_mark_span(state: &Option<WorkflowState>) -> (s: Span)
    ensures
        (s.content@, s.style) == state_mark(*state),
{
    let mut g = String::new();
    push_str(&mut g, state_glyph(state_kind(state)));
    Span { content: g, style: fg_style(state_color_for(state)) }
}

/// A person as the views show one: the initial of the name they go by, in
/// the accent colour, then the name; `Unassigned`, muted, for nobody.
pub open spec fn person(user: Option<User>) -> Seq<Run> {
    match user {
        Some(u) => {
            let name = assignee_name(u);
            seq![
                (if name.len() > 0 { seq![name[0]] } else { Seq::empty() }, Style { bold: true, ..themed(Role::Accent) }),
                (" "@ + name, themed(Role::Text)),
            ]
        },
        None => seq![("Unassigned"@, themed(Role::Muted))],
    }
}

pub fn person_spans(user: &Option<User>) -> (spans: Vec<Span>)
    ensures
        crate::markdown::spans_of(spans@) == person(*user),
{
    let mut spans: Vec<Span> = Vec::new();
    match user {
        Some(u) => {
            let name = crate::show::user_name(u);
            let cs = chars_of(name);
            let mut initial = String::new();
            if cs.len() > 0 {
                push_char(&mut initial, cs[0]);
            }
            proof {
                if cs@.len() > 0 {
                    assert(initial@ =~= seq![name@[0]]);
                } else {
                    assert(initial@ =~= Seq::<char>::empty());
                }
            }
            let mut rest = String::new();
            push_str(&mut rest, " ");
            push_str(&mut rest, name);
            let accent = Style { fg: Some(Color::Themed(Role::Accent)), bg: None, bold: true, italic: false, crossed_out: false, underlined: false };
            spans.push(Span { content: initial, style: accent });
            spans.push(Span { content: rest, style: themed_style(Role::Text) });
        },
        None => {
            let mut t = String::new();
            push_str(&mut t, "Unassigned");
            spans.push(Span { content: t, style: themed_style(Role::Muted) });
        },
    }
    assert(crate::markdown::spans_of(spans@) =~= person(*user));
    spans
}

/// The colour of a label: the one Linear gave it, if it reads as one, else
/// the theme's secondary colour.
pub open spec fn label_color(label: Label) -> Color {
    match label.color {
        Some(hex) => match hex_color_spec(hex@) {
            Some((r, g, b)) => Color::Rgb(r, g, b),
            None => Color::Themed(Role::Secondary),
        },
        None => Color::Themed(Role::Secondary),
    }
}

/// A label as a chip: a dot in its colour, then its name between spaces.
pub open spec fn label_chip(label: Label) -> Seq<Run> {
    seq![("\u{25cf}"@, fg(label_color(label))), (" "@ + label.name@ + " "@, themed(Role::TextDim))]
}

pub fn label_chip_spans(label: &Label) -> (spans: Vec<Span>)
    ensures
        crate::markdown::spans_of(spans@) == label_chip(*label),
{
    let color = match &label.color {
        Some(hex) => match hex_color(hex.as_str()) {
            Some((r, g, b)) => Color::Rgb(r, g, b),
            None => Color::Themed(Role::Secondary),
        },
        None => Color::Themed(Role::Secondary),
    };
    let mut dot = String::new();
    push_str(&mut dot, "\u{25cf}");
    let mut name = String::new();
    push_str(&mut name, " ");
    push_str(&mut name, label.name.as_str());
    push_str(&mut name, " ");
    let mut spans: Vec<Span> = Vec::new();
    spans.push(Span { content: dot, style: fg_style(color) });
    spans.push(Span { content: name, style: themed_style(Role::TextDim) });
    assert(crate::markdown::spans_of(spans@) =~= label_chip(*label));
    spans
}

/// How long ago a moment was, before `now`; nothing where there is no
/// moment or it does not read as one.
pub open spec fn relative(at: Option<String>, now: nat) -> Seq<char> {
    match at {
        Some(t) => match ago_text(t@, now) {
            Some(a) => a,
            None => Seq::empty(),
        },
        None => Seq::empty(),
    }
}

pub fn relative_time(at: &Option<String>, now: u64) -> (s: String)
    ensures
        s@ == relative(*at, now as nat),
{
    match at {
        Some(t) => match ago(t.as_str(), now) {
            Some(a) => a,
            None => String::new(),
        },
        None => String::new(),
    }
}

/// Whether `t` starts with a calendar date, `YYYY-MM-DD`, of a month that
/// exists.
pub open spec fn dated(t: Seq<char>) -> bool {
    &&& t.len() >= 10
    &&& is_digit_spec(t[0]) && is_digit_spec(t[1]) && is_digit_spec(t[2]) && is_digit_spec(t[3])
    &&& t[4] == '-' && t[7] == '-'
    &&& is_digit_spec(t[5]) && is_digit_spec(t[6]) && is_digit_spec(t[8]) && is_digit_spec(t[9])
    &&& 1 <= month_of(t) <= 12
}

pub open spec fn month_of(t: Seq<char>) -> int {
    digit_value_spec(t[5]) * 10 + digit_value_spec(t[6])
}

pub open spec fn day_of(t: Seq<char>) -> nat {
    (digit_value_spec(t[8]) * 10 + digit_value_spec(t[9])) as nat
}

/// The short name of month `m`.
pub open spec fn month_name(m: int) -> Seq<char> {
    if m == 1 { "Jan"@ } else if m == 2 { "Feb"@ } else if m == 3 { "Mar"@ } else if m == 4 { "Apr"@ }
    else if m == 5 { "May"@ } else if m == 6 { "Jun"@ } else if m == 7 { "Jul"@ } else if m == 8 { "Aug"@ }
    else if m == 9 { "Sep"@ } else if m == 10 { "Oct"@ } else if m == 11 { "Nov"@ } else { "Dec"@ }
}

/// A moment as a short date, `Mar 5`; nothing where there is no moment or
/// it does not start with a date.
pub open spec fn short_date_of(at: Option<String>) -> Seq<char> {
    match at {
        Some(t) => if dated(t@) {
            month_name(month_of(t@)) + " "@ + decimal(day_of(t@))
        } else {
            Seq::empty()
        },
        None => Seq::empty(),
    }
}

/// A moment as a date with its year, `Mar 5, 2026`; nothing where there is
/// no moment or it does not start with a date.
pub open spec fn long_date_of(at: Option<String>) -> Seq<char> {
    match at {
        Some(t) => if dated(t@) {
            month_name(month_of(t@)) + " "@ + decimal(day_of(t@)) + ", "@ + t@.take(4)
        } else {
            Seq::empty()
        },
        None => Seq::empty(),
    }
}

fn month_text(m: u8) -> (s: &'static str)
    requires
        1 <= m <= 12,
    ensures
        s@ == month_name(m as int),
{
    if m == 1 { "Jan" } else if m == 2 { "Feb" } else if m == 3 { "Mar" } else if m == 4 { "Apr" }
    else if m == 5 { "May" } else if m == 6 { "Jun" } else if m == 7 { "Jul" } else if m == 8 { "Aug" }
    else if m == 9 { "Sep" } else if m == 10 { "Oct" } else if m == 11 { "Nov" } else { "Dec" }
}

/// The short date, and with `year` the long one.
fn date_words(at: &Option<String>, year: bool) -> (s: String)
    ensures
        s@ == if year { long_date_of(*at) } else { short_date_of(*at) },
{
    let mut s = String::new();
    if let Some(t) = at {
        let c = chars_of(t.as_str());
        if c.len() >= 10 && is_digit(c[0]) && is_digit(c[1]) && is_digit(c[2]) && is_digit(c[3]) && c[4] == '-'
            && c[7] == '-' && is_digit(c[5]) && is_digit(c[6]) && is_digit(c[8]) && is_digit(c[9]) {
            let m = digit_value(c[5]) * 10 + digit_value(c[6]);
            if 1 <= m && m <= 12 {
                let d = digit_value(c[8]) * 10 + digit_value(c[9]);
                push_str(&mut s, month_text(m));
                push_str(&mut s, " ");
                push_decimal(&mut s, d as u64);
                if year {
                    push_str(&mut s, ", ");
                    push_char(&mut s, c[0]);
                    push_char(&mut s, c[1]);
                    push_char(&mut s, c[2]);
                    push_char(&mut s, c[3]);
                    assert(t@.take(4) =~= seq![c@[0], c@[1], c@[2], c@[3]]);
                }
            }
        }
    }
    s
}

/// A moment as a short date, `Mar 5`.
pub fn short_date(at: &Option<String>) -> (s: String)
    ensures
        s@ == short_date_of(*at),
{
    date_words(at, false)
}

/// A moment as a date with its year, `Mar 5, 2026`.
pub fn format_date(at: &Option<String>) -> (s: String)
    ensures
        s@ == long_date_of(*at),
{
    date_words(at, true)
}

/// The dot of a label's chip, in the label's colour.
pub fn label_dot(label: &Label) -> (s: Span)
    ensures
        (s.content@, s.style) == label_chip(*label)[0],
{
    let color = match &label.color {
        Some(hex) => match hex_color(hex.as_str()) {
            Some((r, g, b)) => Color::Rgb(r, g, b),
            None => Color::Themed(Role::Secondary),
        },
        None => Color::Themed(Role::Secondary),
    };
    let mut dot = String::new();
    push_str(&mut dot, "\u{25cf}");
    Span { content: dot, style: fg_style(color) }
}

/// The initial a person is shown by, for a row too narrow for the name.
pub fn avatar(user: &User) -> (s: Span)
    ensures
        (s.content@, s.style) == person(Some(*user))[0],
{
    let name = crate::show::user_name(user);
    let cs = chars_of(name);
    let mut initial = String::new();
    if cs.len() > 0 {
        push_char(&mut initial, cs[0]);
    }
    proof {
        if cs@.len() > 0 {
            assert(initial@ =~= seq![name@[0]]);
        } else {
            assert(initial@ =~= Seq::<char>::empty());
        }
    }
    Span {
        content: initial,
        style: Style { fg: Some(Color::Themed(Role::Accent)), bg: None, bold: true, italic: false, crossed_out: false, underlined: false },
    }
}

} // verus!
