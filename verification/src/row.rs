//! An issue row of a list, and which of its columns it has room for.
//! Columns drop out from the right as the pane narrows, in roughly the order
//! Linear hides them: labels first, then project, estimate, date — the title
//! and the assignee go last.

use vstd::prelude::*;
use crate::entity::{Issue, Label};
use crate::look::{hex_color, priority_color, priority_color_spec, priority_glyph, priority_glyph_spec, Color, Role};
use crate::markdown::{
    plain, plain_style, repeated, sat_add, sat_sub, span_cells, spaces, spans_cells, spans_of, str_width, text_cells, Run,
    Span, Style,
};
use crate::panel::project_color;
use crate::text::{chars_of, decimal, push_decimal, push_str};
use crate::widgets::{
    fg, fg_style, label_chip, person, person_spans, short_date, short_date_of, state_mark, state_mark_span, themed,
    themed_style, truncate, truncated,
};

verus! {

/// Optional columns an issue row may carry, when there is room.
#[derive(Debug, Clone, Copy, PartialEq, Eq, Structural)]
pub struct Columns {
    pub project: bool,
    pub assignee: bool,
}

/// The columns a row is drawn with.
#[derive(Debug, Clone, Copy, PartialEq, Eq, Structural)]
pub struct Visible {
    pub labels: bool,
    pub project: bool,
    pub estimate: bool,
    pub date: bool,
    pub assignee: bool,
}

/// The columns a row `width` cells wide has room for, of those the list
/// offers.
pub open spec fn visible_at(width: nat, columns: Columns) -> Visible {
    Visible {
        labels: width >= 110,
        project: width >= 90 && columns.project,
        estimate: width >= 80,
        date: width >= 64,
        assignee: width >= 44 && columns.assignee,
    }
}

/// The columns a row `width` cells wide is drawn with.
pub fn visible_columns(width: usize, columns: Columns) -> (visible: Visible)
    ensures
        visible == visible_at(width as nat, columns),
{
    Visible {
        labels: width >= 110,
        project: width >= 90 && columns.project,
        estimate: width >= 80,
        date: width >= 64,
        assignee: width >= 44 && columns.assignee,
    }
}

/// Widening a row never hides a column, and the columns go in their order
/// as it narrows: labels before the project, the project before the
/// estimate, the estimate before the date, the date before the assignee.
pub proof fn lemma_columns_drop_out_in_order(narrow: nat, wide: nat, columns: Columns)
    requires
        narrow <= wide,
    ensures
        visible_at(narrow, columns).labels ==> visible_at(wide, columns).labels,
        visible_at(narrow, columns).project ==> visible_at(wide, columns).project,
        visible_at(narrow, columns).estimate ==> visible_at(wide, columns).estimate,
        visible_at(narrow, columns).date ==> visible_at(wide, columns).date,
        visible_at(narrow, columns).assignee ==> visible_at(wide, columns).assignee,
        visible_at(narrow, columns).labels ==> visible_at(narrow, columns).estimate,
        visible_at(narrow, columns).project ==> visible_at(narrow, columns).estimate,
        visible_at(narrow, columns).estimate ==> visible_at(narrow, columns).date,
        visible_at(narrow, columns).date && columns.assignee ==> visible_at(narrow, columns).assignee,
{
}

/// A style on the group header's background.
pub open spec fn on_surface(fg: Option<Color>, bold: bool) -> Style {
    Style {
        fg,
        bg: Some(Color::Themed(Role::Surface)),
        bold,
        italic: false,
        crossed_out: false,
        underlined: false,
    }
}

/// A group header's spans before its padding: the fold chevron, the group's
/// glyph in its colour, its label in bold, and how many rows it holds.
pub open spec fn group_head(label: Seq<char>, color: Color, glyph: Seq<char>, count: nat, collapsed: bool) -> Seq<Run> {
    seq![
        (" "@ + (if collapsed { "\u{25b8}"@ } else { "\u{25be}"@ }) + " "@, on_surface(Some(Color::Themed(Role::Muted)), false)),
        (glyph + " "@, on_surface(Some(color), false)),
        (label, on_surface(Some(Color::Themed(Role::Text)), true)),
        ("  "@ + decimal(count), on_surface(Some(Color::Themed(Role::Muted)), false)),
    ]
}

/// A group header across a row `width` cells wide: the head, then blanks to
/// the end of the row, all on the header's background.
pub open spec fn group_line_spans(label: Seq<char>, color: Color, glyph: Seq<char>, count: nat, collapsed: bool, width: nat) -> Seq<Run> {
    let head = group_head(label, color, glyph, count, collapsed);
    head.push((spaces(sat_sub(width, spans_cells(head, head.len()))), on_surface(None, false)))
}

fn surface(fg: Option<Color>, bold: bool) -> (s: Style)
    ensures
        s == on_surface(fg, bold),
{
    Style { fg, bg: Some(Color::Themed(Role::Surface)), bold, italic: false, crossed_out: false, underlined: false }
}

/// The header of a group of rows, `width` cells wide.
pub fn group_line(label: &str, color: Color, glyph: &str, count: usize, collapsed: bool, width: usize) -> (line: Vec<Span>)
    ensures
        spans_of(line@) == group_line_spans(label@, color, glyph@, count as nat, collapsed, width as nat),
{
    let mut chevron = String::new();
    push_str(&mut chevron, " ");
    if collapsed {
        push_str(&mut chevron, "\u{25b8}");
    } else {
        push_str(&mut chevron, "\u{25be}");
    }
    push_str(&mut chevron, " ");
    let mut mark = String::new();
    push_str(&mut mark, glyph);
    push_str(&mut mark, " ");
    let mut tally = String::new();
    push_str(&mut tally, "  ");
    push_decimal(&mut tally, count as u64);
    let mut line: Vec<Span> = Vec::new();
    line.push(Span { content: chevron, style: surface(Some(Color::Themed(Role::Muted)), false) });
    line.push(Span { content: mark, style: surface(Some(color), false) });
    line.push(Span { content: label.to_string(), style: surface(Some(Color::Themed(Role::Text)), true) });
    line.push(Span { content: tally, style: surface(Some(Color::Themed(Role::Muted)), false) });
    let ghost head = group_head(label@, color, glyph@, count as nat, collapsed);
    assert(spans_of(line@) =~= head);
    let used = span_cells(&line);
    let pad: usize = if width > used { width - used } else { 0 };
    line.push(Span { content: repeated(' ', pad), style: surface(None, false) });
    proof {
        assert(Seq::new(pad as nat, |i: int| ' ') =~= spaces(pad as nat));
    }
    assert(spans_of(line@) =~= group_line_spans(label@, color, glyph@, count as nat, collapsed, width as nat));
    line
}

/// What sets one row apart from the others.
#[derive(Debug, Clone, Copy, PartialEq, Eq, Structural)]
pub struct RowState {
    /// How deep a sub-issue nests under its parent.
    pub depth: u8,
    pub selected: bool,
}

/// `s` right-aligned in `n` characters.
pub open spec fn pad_left(s: Seq<char>, n: nat) -> Seq<char> {
    spaces(sat_sub(n, s.len())) + s
}

/// `s` cut to `w` cells, then filled with blanks to `w` cells.
pub open spec fn fitted(s: Seq<char>, w: nat) -> Seq<char> {
    truncated(s, w) + spaces(sat_sub(w, text_cells(truncated(s, w)) as nat))
}

/// A label as a row shows it: its chip, the name cut to fourteen cells.
pub open spec fn row_chip(label: Label) -> Seq<Run> {
    seq![label_chip(label)[0], (" "@ + truncated(label.name@, 14) + " "@, themed(Role::TextDim))]
}

/// The labels' part of a row: the first two chips, then how many more.
pub open spec fn row_labels(labels: Seq<Label>) -> Seq<Run> {
    (if labels.len() > 0 { row_chip(labels[0]) } else { Seq::empty() }) + (if labels.len() > 1 {
        row_chip(labels[1])
    } else {
        Seq::empty()
    }) + (if labels.len() > 2 {
        seq![("+"@ + decimal((labels.len() - 2) as nat) + " "@, themed(Role::Muted))]
    } else {
        Seq::empty()
    })
}

pub open spec fn right_labels(issue: Issue, vis: Visible) -> Seq<Run> {
    match issue.labels {
        Some(ls) => if vis.labels { row_labels(ls@) } else { Seq::empty() },
        None => Seq::empty(),
    }
}

pub open spec fn right_project(issue: Issue, vis: Visible) -> Seq<Run> {
    match issue.project {
        Some(p) => if vis.project {
            seq![("\u{25a3} "@, fg(project_color(p.color))), (truncated(p.name@, 18) + " "@, themed(Role::TextDim))]
        } else {
            Seq::empty()
        },
        None => Seq::empty(),
    }
}

pub open spec fn right_estimate(issue: Issue, vis: Visible) -> Seq<Run> {
    if vis.estimate {
        seq![(pad_left(match issue.estimate { Some(e) => e@, None => Seq::empty() }, 2) + " "@, themed(Role::Muted))]
    } else {
        Seq::empty()
    }
}

pub open spec fn right_assignee(issue: Issue, vis: Visible) -> Seq<Run> {
    if vis.assignee {
        (match issue.assignee {
            Some(u) => seq![person(Some(u))[0]],
            None => seq![("\u{25cc} "@, themed(Role::Muted))],
        }) + seq![(" "@, plain_style())]
    } else {
        Seq::empty()
    }
}

pub open spec fn right_date(issue: Issue, vis: Visible) -> Seq<Run> {
    if vis.date {
        seq![(pad_left(short_date_of(issue.created_at), 6) + " "@, themed(Role::Muted))]
    } else {
        Seq::empty()
    }
}

/// The right-hand cluster of a row: labels, project, estimate, assignee
/// and date, each where the row has room for it.
pub open spec fn row_right(issue: Issue, vis: Visible) -> Seq<Run> {
    right_labels(issue, vis) + right_project(issue, vis) + right_estimate(issue, vis) + right_assignee(issue, vis)
        + right_date(issue, vis)
}

/// The left of a row: the cursor's bar, the nesting hook of a sub-issue,
/// priority, identifier and status.
pub open spec fn row_left(issue: Issue, row: RowState, id_width: nat) -> Seq<Run> {
    seq![
        if row.selected { ("\u{258c}"@, themed(Role::Accent)) } else { (" "@, plain_style()) },
        if row.depth > 0 {
            (spaces(2 * (row.depth - 1) as nat) + "\u{2570} "@, themed(Role::Border))
        } else {
            (Seq::empty(), plain_style())
        },
        (priority_glyph_spec(issue.priority), fg(priority_color_spec(issue.priority))),
        ("  "@, plain_style()),
        (fitted(issue.identifier@, id_width), themed(Role::Muted)),
        ("  "@, plain_style()),
        state_mark(issue.state),
        (" "@, plain_style()),
    ]
}

/// The pointer to the parent of a sub-issue shown away from it.
pub open spec fn parent_hint(issue: Issue, row: RowState) -> Seq<char> {
    match issue.parent {
        Some(p) => if row.depth == 0 { " \u{2190} "@ + p.identifier@ } else { Seq::empty() },
        None => Seq::empty(),
    }
}

/// Every span on the cursor's background.
pub open spec fn on_selection(spans: Seq<Run>) -> Seq<Run> {
    spans.map_values(|r: Run| (r.0, Style { bg: Some(Color::Themed(Role::Selection)), ..r.1 }))
}

/// A row put together: the left, the title, the parent pointer, blanks,
/// the right; all on the cursor's background when it is the cursor's row.
pub open spec fn assembled(left: Seq<Run>, title: Seq<char>, hint: Seq<char>, pad: nat, right: Seq<Run>, selected: bool) -> Seq<Run> {
    let spans = left + seq![
        (title, if selected { Style { bold: true, ..themed(Role::Text) } } else { themed(Role::Text) }),
        (hint, themed(Role::Muted)),
        (spaces(pad), plain_style()),
    ] + right;
    if selected { on_selection(spans) } else { spans }
}

/// The title's room: what the left, the right and one blank leave.
pub open spec fn title_room(lw: nat, rw: nat, width: nat) -> nat {
    sat_sub(width, sat_add(sat_add(lw, rw), 1))
}

/// One issue row, `width` cells wide: the left, the title with whatever
/// room is left, the parent pointer, blanks, then the right-hand cluster.
pub open spec fn issue_line_spans(issue: Issue, row: RowState, id_width: nat, width: nat, columns: Columns) -> Seq<Run> {
    let left = row_left(issue, row, id_width);
    let right = row_right(issue, visible_at(width, columns));
    let lw = spans_cells(left, left.len());
    let rw = spans_cells(right, right.len());
    let hint = parent_hint(issue, row);
    let room = title_room(lw, rw, width);
    let title = truncated(issue.title@, sat_sub(room, text_cells(hint) as nat));
    let shown_hint = truncated(hint, sat_sub(room, text_cells(title) as nat));
    let pad = sat_sub(width, sat_add(sat_add(sat_add(lw, text_cells(title) as nat), text_cells(shown_hint) as nat), rw));
    assembled(left, title, shown_hint, pad, right, row.selected)
}

fn text_span(text: &str, style: Style) -> (s: Span)
    ensures
        s.content@ == text@,
        s.style == style,
{
    let mut t = String::new();
    push_str(&mut t, text);
    Span { content: t, style }
}

/// `s` right-aligned in `n` characters.
fn pad_left_text(s: &str, n: usize) -> (t: String)
    ensures
        t@ == pad_left(s@, n as nat),
{
    let len = chars_of(s).len();
    let blanks: usize = if n > len { n - len } else { 0 };
    let mut t = repeated(' ', blanks);
    push_str(&mut t, s);
    assert(Seq::new(blanks as nat, |i: int| ' ') =~= spaces(sat_sub(n as nat, s@.len())));
    t
}

/// `s` cut to `w` cells and filled with blanks to `w` cells.
pub fn fit(s: &str, w: usize) -> (t: String)
    ensures
        t@ == fitted(s@, w as nat),
{
    let mut t = truncate(s, w);
    let used = str_width(t.as_str());
    let blanks: usize = if w > used { w - used } else { 0 };
    let pad = repeated(' ', blanks);
    push_str(&mut t, pad.as_str());
    assert(Seq::new(blanks as nat, |i: int| ' ') =~= spaces(sat_sub(w as nat, used as nat)));
    t
}

fn append_span(line: &mut Vec<Span>, s: Span)
    ensures
        spans_of(final(line)@) == spans_of(old(line)@).push((s.content@, s.style)),
{
    line.push(s);
    assert(spans_of(line@) =~= spans_of(old(line)@).push((s.content@, s.style)));
}

fn row_chip_spans(line: &mut Vec<Span>, label: &Label)
    ensures
        spans_of(final(line)@) == spans_of(old(line)@) + row_chip(*label),
{
    let ghost start = spans_of(line@);
    append_span(line, crate::widgets::label_dot(label));
    let mut name = String::new();
    push_str(&mut name, " ");
    let cut = truncate(label.name.as_str(), 14);
    push_str(&mut name, cut.as_str());
    push_str(&mut name, " ");
    append_span(line, Span { content: name, style: themed_style(Role::TextDim) });
    assert(spans_of(line@) =~= start + row_chip(*label));
}

fn labels_part(line: &mut Vec<Span>, issue: &Issue, vis: Visible)
    ensures
        spans_of(final(line)@) == spans_of(old(line)@) + right_labels(*issue, vis),
{
    let ghost s0 = spans_of(line@);
    if let Some(ls) = &issue.labels {
        if vis.labels {
            if ls.len() > 0 {
                row_chip_spans(line, &ls[0]);
            }
            let ghost s1 = spans_of(line@);
            if ls.len() > 1 {
                row_chip_spans(line, &ls[1]);
            }
            let ghost s2 = spans_of(line@);
            if ls.len() > 2 {
                let mut more = String::new();
                push_str(&mut more, "+");
                push_decimal(&mut more, (ls.len() - 2) as u64);
                push_str(&mut more, " ");
                append_span(line, Span { content: more, style: themed_style(Role::Muted) });
            }
            assert(spans_of(line@) =~= s0 + row_labels(ls@));
        }
    }
    assert(spans_of(line@) =~= s0 + right_labels(*issue, vis));
}

fn project_part(line: &mut Vec<Span>, issue: &Issue, vis: Visible)
    ensures
        spans_of(final(line)@) == spans_of(old(line)@) + right_project(*issue, vis),
{
    let ghost s0 = spans_of(line@);
    if let Some(p) = &issue.project {
        if vis.project {
            let color = match &p.color {
                Some(hex) => match hex_color(hex.as_str()) {
                    Some((r, g, b)) => Color::Rgb(r, g, b),
                    None => Color::Themed(Role::Secondary),
                },
                None => Color::Themed(Role::Secondary),
            };
            append_span(line, text_span("\u{25a3} ", fg_style(color)));
            let mut name = truncate(p.name.as_str(), 18);
            push_str(&mut name, " ");
            append_span(line, Span { content: name, style: themed_style(Role::TextDim) });
        }
    }
    assert(spans_of(line@) =~= s0 + right_project(*issue, vis));
}

fn estimate_part(line: &mut Vec<Span>, issue: &Issue, vis: Visible)
    ensures
        spans_of(final(line)@) == spans_of(old(line)@) + right_estimate(*issue, vis),
{
    let ghost s0 = spans_of(line@);
    if vis.estimate {
        let mut est = match &issue.estimate {
            Some(e) => pad_left_text(e.as_str(), 2),
            None => {
                let t = pad_left_text("", 2);
                proof {
                    reveal_strlit("");
                }
                t
            },
        };
        push_str(&mut est, " ");
        append_span(line, Span { content: est, style: themed_style(Role::Muted) });
    }
    assert(spans_of(line@) =~= s0 + right_estimate(*issue, vis));
}

fn assignee_part(line: &mut Vec<Span>, issue: &Issue, vis: Visible)
    ensures
        spans_of(final(line)@) == spans_of(old(line)@) + right_assignee(*issue, vis),
{
    let ghost s0 = spans_of(line@);
    if vis.assignee {
        match &issue.assignee {
            Some(u) => append_span(line, crate::widgets::avatar(u)),
            None => append_span(line, text_span("\u{25cc} ", themed_style(Role::Muted))),
        }
        append_span(line, text_span(" ", plain()));
    }
    assert(spans_of(line@) =~= s0 + right_assignee(*issue, vis));
}

fn date_part(line: &mut Vec<Span>, issue: &Issue, vis: Visible)
    ensures
        spans_of(final(line)@) == spans_of(old(line)@) + right_date(*issue, vis),
{
    let ghost s0 = spans_of(line@);
    if vis.date {
        let day = short_date(&issue.created_at);
        let mut d = pad_left_text(day.as_str(), 6);
        push_str(&mut d, " ");
        append_span(line, Span { content: d, style: themed_style(Role::Muted) });
    }
    assert(spans_of(line@) =~= s0 + right_date(*issue, vis));
}

fn right_spans(issue: &Issue, vis: Visible) -> (line: Vec<Span>)
    ensures
        spans_of(line@) == row_right(*issue, vis),
{
    let mut line: Vec<Span> = Vec::new();
    assert(spans_of(line@) =~= Seq::<Run>::empty());
    labels_part(&mut line, issue, vis);
    project_part(&mut line, issue, vis);
    estimate_part(&mut line, issue, vis);
    assignee_part(&mut line, issue, vis);
    date_part(&mut line, issue, vis);
    assert(spans_of(line@) =~= row_right(*issue, vis));
    line
}

fn left_spans(issue: &Issue, row: RowState, id_width: usize) -> (line: Vec<Span>)
    ensures
        spans_of(line@) == row_left(*issue, row, id_width as nat),
{
    let mut line: Vec<Span> = Vec::new();
    if row.selected {
        append_span(&mut line, text_span("\u{258c}", themed_style(Role::Accent)));
    } else {
        append_span(&mut line, text_span(" ", plain()));
    }
    if row.depth > 0 {
        let mut hook = repeated(' ', 2 * (row.depth - 1) as usize);
        push_str(&mut hook, "\u{2570} ");
        assert(Seq::new((2 * (row.depth - 1) as usize) as nat, |i: int| ' ') =~= spaces(2 * (row.depth - 1) as nat));
        append_span(&mut line, Span { content: hook, style: themed_style(Role::Border) });
    } else {
        append_span(&mut line, Span { content: String::new(), style: plain() });
    }
    append_span(&mut line, text_span(priority_glyph(issue.priority), fg_style(priority_color(issue.priority))));
    append_span(&mut line, text_span("  ", plain()));
    append_span(&mut line, Span { content: fit(issue.identifier.as_str(), id_width), style: themed_style(Role::Muted) });
    append_span(&mut line, text_span("  ", plain()));
    append_span(&mut line, state_mark_span(&issue.state));
    append_span(&mut line, text_span(" ", plain()));
    assert(spans_of(line@) =~= row_left(*issue, row, id_width as nat));
    line
}

/// Every span on the cursor's background.
fn select_all(spans: &Vec<Span>) -> (out: Vec<Span>)
    ensures
        spans_of(out@) == on_selection(spans_of(spans@)),
{
    let mut out: Vec<Span> = Vec::new();
    let mut k: usize = 0;
    while k < spans.len()
        invariant
            k <= spans@.len(),
            spans_of(out@) == on_selection(spans_of(spans@)).take(k as int),
        decreases spans@.len() - k,
    {
        let s = &spans[k];
        let style = Style { bg: Some(Color::Themed(Role::Selection)), ..s.style };
        let ghost before = spans_of(out@);
        out.push(Span { content: s.content.clone(), style });
        assert(spans_of(out@) =~= before.push((spans@[k as int].content@, style)));
        assert(on_selection(spans_of(spans@)).take(k + 1) =~= on_selection(spans_of(spans@)).take(k as int).push(
            (spans@[k as int].content@, style),
        ));
        k = k + 1;
    }
    assert(on_selection(spans_of(spans@)).take(spans@.len() as int) =~= on_selection(spans_of(spans@)));
    out
}

/// One issue row, `width` cells wide. Columns drop out from the right as
/// the pane narrows; the title gets whatever room is left.
#[verifier::rlimit(40)]
pub fn issue_line(issue: &Issue, row: RowState, id_width: usize, width: usize, columns: Columns) -> (line: Vec<Span>)
    ensures
        spans_of(line@) == issue_line_spans(*issue, row, id_width as nat, width as nat, columns),
{
    let vis = visible_columns(width, columns);
    let right = right_spans(issue, vis);
    let left = left_spans(issue, row, id_width);
    let lw = span_cells(&left);
    let rw = span_cells(&right);
    let hint = parent_hint_text(issue, row);
    let room = room_of(lw, rw, width);
    let hw = str_width(hint.as_str());
    let title = truncate(issue.title.as_str(), if room > hw { room - hw } else { 0 });
    let tw = str_width(title.as_str());
    let shown = truncate(hint.as_str(), if room > tw { room - tw } else { 0 });
    let sw = str_width(shown.as_str());
    let blanks = blanks_of(lw, tw, sw, rw, width);
    proof {
        let l = row_left(*issue, row, id_width as nat);
        let r = row_right(*issue, visible_at(width as nat, columns));
        assert(spans_of(left@) == l);
        assert(spans_of(right@) == r);
        assert(lw as nat == spans_cells(l, l.len()));
        assert(rw as nat == spans_cells(r, r.len()));
    }
    assemble(left, title, shown, blanks, right, row.selected)
}

fn parent_hint_text(issue: &Issue, row: RowState) -> (hint: String)
    ensures
        hint@ == parent_hint(*issue, row),
{
    let mut hint = String::new();
    if let Some(p) = &issue.parent {
        if row.depth == 0 {
            push_str(&mut hint, " \u{2190} ");
            push_str(&mut hint, p.identifier.as_str());
        }
    }
    assert(hint@ =~= parent_hint(*issue, row));
    hint
}

fn room_of(lw: usize, rw: usize, width: usize) -> (room: usize)
    ensures
        room as nat == title_room(lw as nat, rw as nat, width as nat),
{
    let lr: usize = if lw <= usize::MAX - rw { lw + rw } else { usize::MAX };
    let lr1: usize = if lr < usize::MAX { lr + 1 } else { usize::MAX };
    if width > lr1 { width - lr1 } else { 0 }
}

fn blanks_of(lw: usize, tw: usize, sw: usize, rw: usize, width: usize) -> (blanks: usize)
    ensures
        blanks as nat == sat_sub(width as nat, sat_add(sat_add(sat_add(lw as nat, tw as nat), sw as nat), rw as nat)),
{
    let a: usize = if lw <= usize::MAX - tw { lw + tw } else { usize::MAX };
    let b: usize = if a <= usize::MAX - sw { a + sw } else { usize::MAX };
    let c: usize = if b <= usize::MAX - rw { b + rw } else { usize::MAX };
    if width > c { width - c } else { 0 }
}

fn assemble(left: Vec<Span>, title: String, hint: String, blanks: usize, right: Vec<Span>, selected: bool) -> (line: Vec<Span>)
    ensures
        spans_of(line@) == assembled(spans_of(left@), title@, hint@, blanks as nat, spans_of(right@), selected),
{
    let title_style = if selected {
        Style { fg: Some(Color::Themed(Role::Text)), bg: None, bold: true, italic: false, crossed_out: false, underlined: false }
    } else {
        themed_style(Role::Text)
    };
    let ghost l = spans_of(left@);
    let ghost r = spans_of(right@);
    let ghost t = title@;
    let ghost h = hint@;
    let mut line = left;
    append_span(&mut line, Span { content: title, style: title_style });
    append_span(&mut line, Span { content: hint, style: themed_style(Role::Muted) });
    let pad = repeated(' ', blanks);
    assert(Seq::new(blanks as nat, |i: int| ' ') =~= spaces(blanks as nat));
    append_span(&mut line, Span { content: pad, style: plain() });
    let ghost head = l + seq![
        (t, if selected { Style { bold: true, ..themed(Role::Text) } } else { themed(Role::Text) }),
        (h, themed(Role::Muted)),
        (spaces(blanks as nat), plain_style()),
    ];
    assert(spans_of(line@) =~= head);
    let mut right = right;
    let ghost before = line@;
    let ghost rv = right@;
    assert(spans_of(rv) == r);
    line.append(&mut right);
    assert(line@ =~= before + rv);
    assert(spans_of(line@) =~= spans_of(before) + spans_of(rv));
    assert(spans_of(line@) =~= head + r);
    if selected {
        select_all(&line)
    } else {
        line
    }
}

} // verus!
