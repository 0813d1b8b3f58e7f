//! Lines of the issue detail view that are not Markdown: the rule that heads
//! each section of the main column, and the headings and rows of the
//! properties panel.

use vstd::prelude::*;
use crate::look::{Color, Role};
use crate::markdown::{plain_style, repeated, rule, sat_add, sat_sub, spans_cells, spans_of, str_width, text_cells, Run, Span, Style};
use crate::text::push_str;

verus! {

pub open spec fn styled(fg: Role, bold: bool) -> Style {
    Style { fg: Some(Color::Themed(fg)), bold, ..plain_style() }
}

/// A section heading across the column: the title in bold, what follows it
/// muted, then a rule to the edge of `width`.
pub open spec fn section_rule_spans(title: Seq<char>, trailing: Seq<char>, width: nat) -> Seq<Run> {
    let head = title + " "@;
    let tail = if trailing.len() == 0 { Seq::empty() } else { " "@ + trailing };
    let room = sat_sub(width, sat_add(text_cells(head) as nat, text_cells(tail) as nat));
    seq![
        (head, styled(Role::Text, true)),
        (tail, styled(Role::Muted, false)),
        (" "@, plain_style()),
        (rule(sat_sub(room, 1)), styled(Role::Border, false)),
    ]
}

fn style_of(fg: Role, bold: bool) -> (s: Style)
    ensures
        s == styled(fg, bold),
{
    Style { fg: Some(Color::Themed(fg)), bg: None, bold, italic: false, crossed_out: false, underlined: false }
}

/// The heading of a section of the main column, `width` cells wide.
pub fn section_rule(title: &str, trailing: &str, width: u16) -> (line: Vec<Span>)
    ensures
        spans_of(line@) == section_rule_spans(title@, trailing@, width as nat),
{
    let mut head = String::new();
    push_str(&mut head, title);
    push_str(&mut head, " ");
    let mut tail = String::new();
    if !trailing.is_empty() {
        push_str(&mut tail, " ");
        push_str(&mut tail, trailing);
    } else {
        proof {
            assert(trailing@.len() == 0);
        }
    }
    let hw = str_width(head.as_str());
    let tw = str_width(tail.as_str());
    let both: usize = if hw <= usize::MAX - tw { hw + tw } else { usize::MAX };
    let room: usize = if (width as usize) > both { width as usize - both } else { 0 };
    let dashes: usize = if room > 1 { room - 1 } else { 0 };
    let mut line: Vec<Span> = Vec::new();
    line.push(Span { content: head, style: style_of(Role::Text, true) });
    line.push(Span { content: tail, style: style_of(Role::Muted, false) });
    line.push(Span { content: " ".to_string(), style: crate::markdown::plain() });
    line.push(Span { content: repeated('\u{2500}', dashes), style: style_of(Role::Border, false) });
    proof {
        assert(Seq::new(dashes as nat, |i: int| '\u{2500}') =~= rule(dashes as nat));
    }
    assert(spans_of(line@) =~= section_rule_spans(title@, trailing@, width as nat));
    line
}

/// A heading of the properties panel: the text, muted and bold.
pub open spec fn heading_spans(text: Seq<char>) -> Seq<Run> {
    seq![(" "@ + text, styled(Role::Muted, true))]
}

/// A heading of the properties panel.
pub fn heading(text: &str) -> (line: Vec<Span>)
    ensures
        spans_of(line@) == heading_spans(text@),
{
    let mut s = String::new();
    push_str(&mut s, " ");
    push_str(&mut s, text);
    let mut line: Vec<Span> = Vec::new();
    line.push(Span { content: s, style: style_of(Role::Muted, true) });
    assert(spans_of(line@) =~= heading_spans(text@));
    line
}

/// A property row: its label, muted and padded to nine characters, then
/// the value.
pub open spec fn prop_spans(label: Seq<char>, value: Seq<Run>) -> Seq<Run> {
    seq![(" "@ + label + Seq::new(sat_sub(9, label.len()), |i: int| ' '), styled(Role::Muted, false))] + value
}

/// A property row of the panel.
pub fn prop(label: &str, value: Vec<Span>) -> (line: Vec<Span>)
    ensures
        spans_of(line@) == prop_spans(label@, spans_of(value@)),
{
    let n = crate::text::chars_of(label).len();
    let mut s = String::new();
    push_str(&mut s, " ");
    push_str(&mut s, label);
    let pad: usize = if n < 9 { 9 - n } else { 0 };
    let spaces = repeated(' ', pad);
    push_str(&mut s, spaces.as_str());
    let mut line: Vec<Span> = Vec::new();
    line.push(Span { content: s, style: style_of(Role::Muted, false) });
    let mut rest = value;
    let ghost v = spans_of(rest@);
    line.append(&mut rest);
    assert(spans_of(line@) =~= prop_spans(label@, v));
    line
}

} // verus!
