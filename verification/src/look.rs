//! How Linear's values look in a terminal: the glyphs and colours the list,
//! the sidebar, and the detail view draw them with. A colour is either one
//! Linear gave, a fixed terminal colour, or a role the theme fills in.

use vstd::prelude::*;
use vstd::utf8::encode_utf8;
use crate::callback::hex_pair;
use crate::entity::{Priority, StateType};

verus! {

/// A colour slot of the theme.
#[derive(Debug, Clone, Copy, PartialEq, Eq, Structural)]
pub enum Role {
    Text,
    TextDim,
    Muted,
    Accent,
    Secondary,
    Success,
    Warning,
    /// The background of the row under the cursor.
    Selection,
    Border,
    /// The background of a group header.
    Surface,
    CodeBackground,
    PriUrgent,
    PriHigh,
    PriMedium,
    PriLow,
}

/// A colour to draw with.
#[derive(Debug, Clone, Copy, PartialEq, Eq, Structural)]
pub enum Color {
    Rgb(u8, u8, u8),
    Yellow,
    Green,
    DarkGray,
    White,
    Magenta,
    Themed(Role),
}

/// `hex` without one leading `#`.
pub open spec fn without_hash(hex: Seq<char>) -> Seq<char> {
    if hex.len() > 0 && hex[0] == '#' {
        hex.drop_first()
    } else {
        hex
    }
}

/// The colour a Linear `#rrggbb` string names: six bytes, read in pairs as
/// `u8::from_str_radix(.., 16)` reads them.
pub open spec fn hex_color_spec(hex: Seq<char>) -> Option<(u8, u8, u8)> {
    let b = encode_utf8(without_hash(hex));
    if b.len() != 6 {
        None
    } else {
        match (hex_pair(b[0], b[1]), hex_pair(b[2], b[3]), hex_pair(b[4], b[5])) {
            (Some(r), Some(g), Some(bl)) => Some((r, g, bl)),
            _ => None,
        }
    }
}

fn hex_pair_at(b: &[u8], i: usize) -> (r: Option<u8>)
    requires
        i + 1 < b@.len(),
    ensures
        r == hex_pair(b@[i as int], b@[i + 1]),
{
    let hi = hex_value_exec(b[i]);
    let lo = hex_value_exec(b[i + 1]);
    match (hi, lo) {
        (Some(x), Some(y)) => Some(x * 16 + y),
        _ => if b[i] == 43 {
            lo
        } else {
            None
        },
    }
}

fn hex_value_exec(b: u8) -> (r: Option<u8>)
    ensures
        r == crate::callback::hex_value(b),
{
    if 48 <= b && b <= 57 {
        Some(b - 48)
    } else if 65 <= b && b <= 70 {
        Some(b - 55)
    } else if 97 <= b && b <= 102 {
        Some(b - 87)
    } else {
        None
    }
}

/// Parse a Linear `#rrggbb` colour.
pub fn hex_color(hex: &str) -> (c: Option<(u8, u8, u8)>)
    ensures
        c == hex_color_spec(hex@),
{
    let chars = crate::text::chars_of(hex);
    let rest = if chars.len() > 0 && chars[0] == '#' {
        hex.substring_char(1, chars.len())
    } else {
        hex
    };
    proof {
        if chars@.len() > 0 && chars@[0] == '#' {
            assert(hex@.subrange(1, chars@.len() as int) =~= hex@.drop_first());
        }
    }
    let b = rest.as_bytes();
    if b.len() != 6 {
        return None;
    }
    match (hex_pair_at(b, 0), hex_pair_at(b, 2), hex_pair_at(b, 4)) {
        (Some(r), Some(g), Some(bl)) => Some((r, g, bl)),
        _ => None,
    }
}

/// The glyph a priority is drawn with: a small bar chart that grows with
/// urgency, and urgent as an exclamation.
pub open spec fn priority_glyph_spec(p: Priority) -> Seq<char> {
    match p {
        Priority::Urgent => "!"@,
        Priority::High => "\u{2587}"@,
        Priority::Medium => "\u{2585}"@,
        Priority::Low => "\u{2583}"@,
        Priority::Unset => "\u{00b7}"@,
    }
}

pub fn priority_glyph(p: Priority) -> (g: &'static str)
    ensures
        g@ == priority_glyph_spec(p),
{
    match p {
        Priority::Urgent => "!",
        Priority::High => "\u{2587}",
        Priority::Medium => "\u{2585}",
        Priority::Low => "\u{2583}",
        Priority::Unset => "\u{00b7}",
    }
}

/// The colour a priority is drawn in.
pub open spec fn priority_color_spec(p: Priority) -> Color {
    match p {
        Priority::Urgent => Color::Themed(Role::PriUrgent),
        Priority::High => Color::Themed(Role::PriHigh),
        Priority::Medium => Color::Themed(Role::PriMedium),
        Priority::Low => Color::Themed(Role::PriLow),
        Priority::Unset => Color::Themed(Role::Muted),
    }
}

pub fn priority_color(p: Priority) -> (c: Color)
    ensures
        c == priority_color_spec(p),
{
    match p {
        Priority::Urgent => Color::Themed(Role::PriUrgent),
        Priority::High => Color::Themed(Role::PriHigh),
        Priority::Medium => Color::Themed(Role::PriMedium),
        Priority::Low => Color::Themed(Role::PriLow),
        Priority::Unset => Color::Themed(Role::Muted),
    }
}

/// The status glyph Linear draws beside an issue: a progress circle that
/// fills as the issue moves through the workflow.
pub open spec fn state_glyph_spec(t: StateType) -> Seq<char> {
    match t {
        StateType::Triage => "\u{25c8}"@,
        StateType::Backlog => "\u{25cc}"@,
        StateType::Unstarted => "\u{25cb}"@,
        StateType::Started => "\u{25d0}"@,
        StateType::Completed => "\u{25cf}"@,
        StateType::Cancelled | StateType::Duplicate => "\u{2298}"@,
        StateType::Unknown => "\u{25cb}"@,
    }
}

pub fn state_glyph(t: StateType) -> (g: &'static str)
    ensures
        g@ == state_glyph_spec(t),
{
    match t {
        StateType::Triage => "\u{25c8}",
        StateType::Backlog => "\u{25cc}",
        StateType::Unstarted => "\u{25cb}",
        StateType::Started => "\u{25d0}",
        StateType::Completed => "\u{25cf}",
        StateType::Cancelled | StateType::Duplicate => "\u{2298}",
        StateType::Unknown => "\u{25cb}",
    }
}

/// The colour for a state Linear gave none.
pub open spec fn state_color_spec(t: StateType) -> Color {
    match t {
        StateType::Started => Color::Yellow,
        StateType::Completed => Color::Green,
        StateType::Cancelled | StateType::Duplicate => Color::DarkGray,
        StateType::Backlog => Color::DarkGray,
        StateType::Unstarted => Color::White,
        StateType::Triage => Color::Magenta,
        StateType::Unknown => Color::White,
    }
}

pub fn state_color(t: StateType) -> (c: Color)
    ensures
        c == state_color_spec(t),
{
    match t {
        StateType::Started => Color::Yellow,
        StateType::Completed => Color::Green,
        StateType::Cancelled | StateType::Duplicate => Color::DarkGray,
        StateType::Backlog => Color::DarkGray,
        StateType::Unstarted => Color::White,
        StateType::Triage => Color::Magenta,
        StateType::Unknown => Color::White,
    }
}

}
