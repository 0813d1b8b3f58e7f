//! The properties panel of the issue detail view: status, priority,
//! assignee, cycle, estimate and due date; the labels, flowing onto as many
//! rows as the panel needs; the project and its milestone; who filed the
//! issue and when; when it was last updated, its identifier, and its branch.

use vstd::prelude::*;
use crate::detail::{heading, heading_spans, prop, prop_spans};
use crate::entity::{cycle_label, priority_label, Issue, Label};
use crate::look::{hex_color, hex_color_spec, priority_color, priority_color_spec, priority_glyph, priority_glyph_spec, Color, Role};
use crate::markdown::{lines_of_spans, plain, plain_style, sat_add, sat_sub, span_cells, spans_cells, spans_of, Run, Span, Style};
use crate::text::push_str;
use crate::widgets::{
    fg, format_date, long_date_of, short_date, short_date_of, fg_style, label_chip, label_chip_spans, person, person_spans, relative, relative_time,
    state_color_for, state_color_of, state_mark, state_mark_span, themed, themed_style, truncate, truncated,
};

verus! {

/// A line of one span.
pub open spec fn one(text: Seq<char>, style: Style) -> Seq<Seq<Run>> {
    seq![seq![(text, style)]]
}

/// An empty line.
pub open spec fn blank() -> Seq<Seq<Run>> {
    seq![Seq::empty()]
}

/// The state's name, `No status` where there is none.
pub open spec fn state_name(issue: Issue) -> Seq<char> {
    match issue.state {
        Some(s) => s.name@,
        None => "No status"@,
    }
}

/// What the priority is called: as Linear labels it, else by its level.
pub open spec fn priority_text(issue: Issue) -> Seq<char> {
    match issue.priority_label {
        Some(l) => l@,
        None => priority_label(issue.priority),
    }
}

/// Status, priority and assignee, under the panel's first heading.
pub open spec fn top_lines(issue: Issue) -> Seq<Seq<Run>> {
    blank() + seq![
        heading_spans("Properties"@),
        seq![(" "@, plain_style()), state_mark(issue.state), (" "@ + state_name(issue), fg(state_color_of(issue.state)))],
        seq![
            (" "@, plain_style()),
            (priority_glyph_spec(issue.priority), fg(priority_color_spec(issue.priority))),
            (" "@ + priority_text(issue), themed(Role::Text)),
        ],
        seq![(" "@, plain_style())] + person(issue.assignee),
    ]
}

/// The cycle, the estimate and the due date, each where there is one.
pub open spec fn detail_lines(issue: Issue) -> Seq<Seq<Run>> {
    (match issue.cycle {
        Some(c) => seq![seq![(" \u{25d4} "@, themed(Role::Accent)), (cycle_label(c), themed(Role::Text))]],
        None => Seq::empty(),
    }) + (match issue.estimate {
        Some(e) => seq![seq![(" \u{25c7} "@, themed(Role::Muted)), (e@ + " pts"@, themed(Role::Text))]],
        None => Seq::empty(),
    }) + (match issue.due_date {
        Some(d) => seq![seq![(" \u{2691} "@, themed(Role::Warning)), ("Due "@ + short_date_of(Some(d)), themed(Role::Text))]],
        None => Seq::empty(),
    })
}

/// Label chips flowing onto rows: the rows filled, the row being filled,
/// and the cells it uses.
pub struct Flow {
    pub rows: Seq<Seq<Run>>,
    pub row: Seq<Run>,
    pub used: nat,
}

/// The chips of the first `k` labels flowed onto rows `width` cells wide:
/// a chip that does not fit starts a new row, unless the row holds none.
pub open spec fn flow(labels: Seq<Label>, width: nat, k: nat) -> Flow
    decreases k,
{
    if k == 0 {
        Flow { rows: Seq::empty(), row: seq![(" "@, plain_style())], used: 1 }
    } else {
        let f = flow(labels, width, (k - 1) as nat);
        let chip = label_chip(labels[k - 1]);
        let cw = spans_cells(chip, chip.len());
        if sat_add(f.used, cw) > width && f.used > 1 {
            Flow { rows: f.rows.push(f.row), row: seq![(" "@, plain_style())] + chip, used: sat_add(1, cw) }
        } else {
            Flow { rows: f.rows, row: f.row + chip, used: sat_add(f.used, cw) }
        }
    }
}

/// The labels' rows, or a muted `No labels`.
pub open spec fn label_lines(issue: Issue, width: nat) -> Seq<Seq<Run>> {
    blank() + seq![heading_spans("Labels"@)] + match issue.labels {
        Some(ls) => if ls@.len() > 0 {
            let f = flow(ls@, width, ls@.len());
            f.rows.push(f.row)
        } else {
            one(" No labels"@, themed(Role::Muted))
        },
        None => one(" No labels"@, themed(Role::Muted)),
    }
}

/// The colour of a project: the one Linear gave it, if it reads as one,
/// else the theme's secondary colour.
pub open spec fn project_color(color: Option<String>) -> Color {
    match color {
        Some(hex) => match hex_color_spec(hex@) {
            Some((r, g, b)) => Color::Rgb(r, g, b),
            None => Color::Themed(Role::Secondary),
        },
        None => Color::Themed(Role::Secondary),
    }
}

/// The project and its milestone, or a muted `No project`.
pub open spec fn project_lines(issue: Issue, width: nat) -> Seq<Seq<Run>> {
    blank() + seq![heading_spans("Project"@)] + match issue.project {
        Some(p) => seq![seq![
            (" \u{25a3} "@, fg(project_color(p.color))),
            (truncated(p.name@, sat_sub(width, 4)), themed(Role::Text)),
        ]] + match issue.project_milestone {
            Some(m) => seq![seq![
                ("   \u{25c6} "@, themed(Role::Muted)),
                (truncated(m.name@, sat_sub(width, 6)), themed(Role::TextDim)),
            ]],
            None => Seq::empty(),
        },
        None => one(" No project"@, themed(Role::Muted)),
    }
}

/// Who filed the issue, and when.
pub open spec fn creator_lines(issue: Issue, now: nat) -> Seq<Seq<Run>> {
    blank() + seq![
        heading_spans("Created by"@),
        seq![(" "@, plain_style())] + match issue.creator {
            Some(u) => person(Some(u)),
            None => seq![("Unknown"@, themed(Role::Muted))],
        },
        seq![(
            " "@ + long_date_of(issue.created_at) + " \u{00b7} "@ + relative(issue.created_at, now),
            themed(Role::Muted),
        )],
    ]
}

/// When the issue was last updated, its identifier, and its branch.
pub open spec fn closing_lines(issue: Issue, width: nat, now: nat) -> Seq<Seq<Run>> {
    blank() + seq![
        prop_spans("Updated"@, seq![(relative(issue.updated_at, now), themed(Role::TextDim))]),
        prop_spans("ID"@, seq![(issue.identifier@, themed(Role::TextDim))]),
    ] + match issue.branch_name {
        Some(b) => blank() + seq![heading_spans("Branch"@)] + one(
            " "@ + truncated(b@, sat_sub(width, 2)),
            themed(Role::Secondary),
        ),
        None => Seq::empty(),
    }
}

/// The panel, `width` cells wide, at `now` (seconds since the epoch).
pub open spec fn panel_spec(issue: Issue, width: nat, now: nat) -> Seq<Seq<Run>> {
    top_lines(issue) + detail_lines(issue) + label_lines(issue, width) + project_lines(issue, width) + creator_lines(
        issue,
        now,
    ) + closing_lines(issue, width, now)
}

fn put(out: &mut Vec<Vec<Span>>, line: Vec<Span>)
    ensures
        lines_of_spans(final(out)@) == lines_of_spans(old(out)@) + seq![spans_of(line@)],
{
    let ghost l = spans_of(line@);
    out.push(line);
    assert(lines_of_spans(out@) =~= lines_of_spans(old(out)@) + seq![l]);
}

fn span_of(text: &str, style: Style) -> (s: Span)
    ensures
        s.content@ == text@,
        s.style == style,
{
    let mut t = String::new();
    push_str(&mut t, text);
    Span { content: t, style }
}

fn line_of(text: &str, style: Style) -> (line: Vec<Span>)
    ensures
        spans_of(line@) == seq![(text@, style)],
{
    let mut line: Vec<Span> = Vec::new();
    line.push(span_of(text, style));
    assert(spans_of(line@) =~= seq![(text@, style)]);
    line
}

fn empty_line() -> (line: Vec<Span>)
    ensures
        spans_of(line@) == Seq::<Run>::empty(),
{
    let line: Vec<Span> = Vec::new();
    assert(spans_of(line@) =~= Seq::<Run>::empty());
    line
}

/// `first` followed by `rest`.
fn joined(first: Vec<Span>, rest: Vec<Span>) -> (line: Vec<Span>)
    ensures
        spans_of(line@) == spans_of(first@) + spans_of(rest@),
{
    let mut line = first;
    let mut rest = rest;
    let ghost a = spans_of(line@);
    let ghost b = spans_of(rest@);
    line.append(&mut rest);
    assert(spans_of(line@) =~= a + b);
    line
}

fn top_part(out: &mut Vec<Vec<Span>>, issue: &Issue)
    ensures
        lines_of_spans(final(out)@) == lines_of_spans(old(out)@) + top_lines(*issue),
{
    let ghost start = lines_of_spans(out@);
    put(out, empty_line());
    put(out, heading("Properties"));
    let mut name = String::new();
    push_str(&mut name, " ");
    match &issue.state {
        Some(s) => push_str(&mut name, s.name.as_str()),
        None => push_str(&mut name, "No status"),
    }
    let mut state: Vec<Span> = Vec::new();
    state.push(span_of(" ", plain()));
    state.push(state_mark_span(&issue.state));
    state.push(Span { content: name, style: fg_style(state_color_for(&issue.state)) });
    assert(spans_of(state@) =~= seq![
        (" "@, plain_style()),
        state_mark(issue.state),
        (" "@ + state_name(*issue), fg(state_color_of(issue.state))),
    ]);
    put(out, state);
    let mut prio = String::new();
    push_str(&mut prio, " ");
    match &issue.priority_label {
        Some(l) => push_str(&mut prio, l.as_str()),
        None => push_str(&mut prio, issue.priority.label()),
    }
    let mut priority: Vec<Span> = Vec::new();
    priority.push(span_of(" ", plain()));
    priority.push(span_of(priority_glyph(issue.priority), fg_style(priority_color(issue.priority))));
    priority.push(Span { content: prio, style: themed_style(Role::Text) });
    assert(spans_of(priority@) =~= seq![
        (" "@, plain_style()),
        (priority_glyph_spec(issue.priority), fg(priority_color_spec(issue.priority))),
        (" "@ + priority_text(*issue), themed(Role::Text)),
    ]);
    put(out, priority);
    put(out, joined(line_of(" ", plain()), person_spans(&issue.assignee)));
    assert(lines_of_spans(out@) =~= start + top_lines(*issue));
}

fn detail_part(out: &mut Vec<Vec<Span>>, issue: &Issue)
    ensures
        lines_of_spans(final(out)@) == lines_of_spans(old(out)@) + detail_lines(*issue),
{
    let ghost start = lines_of_spans(out@);
    if let Some(c) = &issue.cycle {
        let mut line: Vec<Span> = Vec::new();
        line.push(span_of(" \u{25d4} ", themed_style(Role::Accent)));
        line.push(Span { content: c.label(), style: themed_style(Role::Text) });
        assert(spans_of(line@) =~= seq![(" \u{25d4} "@, themed(Role::Accent)), (cycle_label(*c), themed(Role::Text))]);
        put(out, line);
    }
    let ghost mid1 = lines_of_spans(out@);
    if let Some(e) = &issue.estimate {
        let mut t = String::new();
        push_str(&mut t, e.as_str());
        push_str(&mut t, " pts");
        let mut line: Vec<Span> = Vec::new();
        line.push(span_of(" \u{25c7} ", themed_style(Role::Muted)));
        line.push(Span { content: t, style: themed_style(Role::Text) });
        assert(spans_of(line@) =~= seq![(" \u{25c7} "@, themed(Role::Muted)), (e@ + " pts"@, themed(Role::Text))]);
        put(out, line);
    }
    let ghost mid2 = lines_of_spans(out@);
    if let Some(d) = &issue.due_date {
        let mut t = String::new();
        push_str(&mut t, "Due ");
        let day = short_date(&issue.due_date);
        push_str(&mut t, day.as_str());
        let mut line: Vec<Span> = Vec::new();
        line.push(span_of(" \u{2691} ", themed_style(Role::Warning)));
        line.push(Span { content: t, style: themed_style(Role::Text) });
        assert(spans_of(line@) =~= seq![(" \u{2691} "@, themed(Role::Warning)), ("Due "@ + short_date_of(Some(*d)), themed(Role::Text))]);
        put(out, line);
    }
    assert(lines_of_spans(out@) =~= start + detail_lines(*issue));
}

/// The label chips flowed onto rows `width` cells wide.
fn flow_chips(labels: &Vec<Label>, width: usize) -> (rows: Vec<Vec<Span>>)
    ensures
        lines_of_spans(rows@) == flow(labels@, width as nat, labels@.len()).rows.push(
            flow(labels@, width as nat, labels@.len()).row,
        ),
{
    let mut rows: Vec<Vec<Span>> = Vec::new();
    let mut row = line_of(" ", plain());
    let mut used: usize = 1;
    let mut k: usize = 0;
    while k < labels.len()
        invariant
            k <= labels@.len(),
            lines_of_spans(rows@) == flow(labels@, width as nat, k as nat).rows,
            spans_of(row@) == flow(labels@, width as nat, k as nat).row,
            used as nat == flow(labels@, width as nat, k as nat).used,
        decreases labels@.len() - k,
    {
        let chip = label_chip_spans(&labels[k]);
        let cw = span_cells(&chip);
        let total: usize = if used <= usize::MAX - cw { used + cw } else { usize::MAX };
        if total > width && used > 1 {
            let done = row;
            put(&mut rows, done);
            row = joined(line_of(" ", plain()), chip);
            used = if cw < usize::MAX { 1 + cw } else { usize::MAX };
        } else {
            row = joined(row, chip);
            used = total;
        }
        k = k + 1;
    }
    let last = row;
    put(&mut rows, last);
    rows
}

fn label_part(out: &mut Vec<Vec<Span>>, issue: &Issue, width: usize)
    ensures
        lines_of_spans(final(out)@) == lines_of_spans(old(out)@) + label_lines(*issue, width as nat),
{
    let ghost start = lines_of_spans(out@);
    put(out, empty_line());
    put(out, heading("Labels"));
    let ghost mid = lines_of_spans(out@);
    let mut none = true;
    if let Some(ls) = &issue.labels {
        if ls.len() > 0 {
            none = false;
            let mut rows = flow_chips(ls, width);
            let ghost r = lines_of_spans(rows@);
            out.append(&mut rows);
            assert(lines_of_spans(out@) =~= mid + r);
        }
    }
    if none {
        put(out, line_of(" No labels", themed_style(Role::Muted)));
    }
    assert(lines_of_spans(out@) =~= start + label_lines(*issue, width as nat));
}

fn project_part(out: &mut Vec<Vec<Span>>, issue: &Issue, width: usize)
    ensures
        lines_of_spans(final(out)@) == lines_of_spans(old(out)@) + project_lines(*issue, width as nat),
{
    let ghost start = lines_of_spans(out@);
    put(out, empty_line());
    put(out, heading("Project"));
    let ghost mid = lines_of_spans(out@);
    match &issue.project {
        Some(p) => {
            let color = match &p.color {
                Some(hex) => match hex_color(hex.as_str()) {
                    Some((r, g, b)) => Color::Rgb(r, g, b),
                    None => Color::Themed(Role::Secondary),
                },
                None => Color::Themed(Role::Secondary),
            };
            let room: usize = if width > 4 { width - 4 } else { 0 };
            let mut line: Vec<Span> = Vec::new();
            line.push(span_of(" \u{25a3} ", fg_style(color)));
            line.push(Span { content: truncate(p.name.as_str(), room), style: themed_style(Role::Text) });
            assert(spans_of(line@) =~= seq![
                (" \u{25a3} "@, fg(project_color(p.color))),
                (truncated(p.name@, sat_sub(width as nat, 4)), themed(Role::Text)),
            ]);
            put(out, line);
            if let Some(m) = &issue.project_milestone {
                let room: usize = if width > 6 { width - 6 } else { 0 };
                let mut line: Vec<Span> = Vec::new();
                line.push(span_of("   \u{25c6} ", themed_style(Role::Muted)));
                line.push(Span { content: truncate(m.name.as_str(), room), style: themed_style(Role::TextDim) });
                assert(spans_of(line@) =~= seq![
                    ("   \u{25c6} "@, themed(Role::Muted)),
                    (truncated(m.name@, sat_sub(width as nat, 6)), themed(Role::TextDim)),
                ]);
                put(out, line);
            }
        },
        None => put(out, line_of(" No project", themed_style(Role::Muted))),
    }
    assert(lines_of_spans(out@) =~= start + project_lines(*issue, width as nat));
}

fn creator_part(out: &mut Vec<Vec<Span>>, issue: &Issue, now: u64)
    ensures
        lines_of_spans(final(out)@) == lines_of_spans(old(out)@) + creator_lines(*issue, now as nat),
{
    let ghost start = lines_of_spans(out@);
    put(out, empty_line());
    put(out, heading("Created by"));
    let who = match &issue.creator {
        Some(_) => person_spans(&issue.creator),
        None => line_of("Unknown", themed_style(Role::Muted)),
    };
    let whole = joined(line_of(" ", plain()), who);
    assert(spans_of(whole@) =~= seq![(" "@, plain_style())] + match issue.creator {
        Some(u) => person(Some(u)),
        None => seq![("Unknown"@, themed(Role::Muted))],
    });
    put(out, whole);
    let mut t = String::new();
    push_str(&mut t, " ");
    let day = format_date(&issue.created_at);
    push_str(&mut t, day.as_str());
    push_str(&mut t, " \u{00b7} ");
    let ago = relative_time(&issue.created_at, now);
    push_str(&mut t, ago.as_str());
    assert(t@ =~= " "@ + long_date_of(issue.created_at) + " \u{00b7} "@ + relative(issue.created_at, now as nat));
    let mut line: Vec<Span> = Vec::new();
    line.push(Span { content: t, style: themed_style(Role::Muted) });
    assert(spans_of(line@) =~= seq![(" "@ + long_date_of(issue.created_at) + " \u{00b7} "@ + relative(issue.created_at, now as nat), themed(Role::Muted))]);
    put(out, line);
    assert(lines_of_spans(out@) =~= start + creator_lines(*issue, now as nat));
}

fn closing_part(out: &mut Vec<Vec<Span>>, issue: &Issue, width: usize, now: u64)
    ensures
        lines_of_spans(final(out)@) == lines_of_spans(old(out)@) + closing_lines(*issue, width as nat, now as nat),
{
    let ghost start = lines_of_spans(out@);
    put(out, empty_line());
    let mut updated: Vec<Span> = Vec::new();
    updated.push(Span { content: relative_time(&issue.updated_at, now), style: themed_style(Role::TextDim) });
    let ghost u = spans_of(updated@);
    put(out, prop("Updated", updated));
    let mut id: Vec<Span> = Vec::new();
    id.push(span_of(issue.identifier.as_str(), themed_style(Role::TextDim)));
    let ghost i = spans_of(id@);
    put(out, prop("ID", id));
    assert(u =~= seq![(relative(issue.updated_at, now as nat), themed(Role::TextDim))]);
    assert(i =~= seq![(issue.identifier@, themed(Role::TextDim))]);
    let ghost mid = lines_of_spans(out@);
    assert(mid =~= start + blank() + seq![
        prop_spans("Updated"@, seq![(relative(issue.updated_at, now as nat), themed(Role::TextDim))]),
        prop_spans("ID"@, seq![(issue.identifier@, themed(Role::TextDim))]),
    ]);
    if let Some(b) = &issue.branch_name {
        put(out, empty_line());
        put(out, heading("Branch"));
        let room: usize = if width > 2 { width - 2 } else { 0 };
        let mut t = String::new();
        push_str(&mut t, " ");
        let cut = truncate(b.as_str(), room);
        push_str(&mut t, cut.as_str());
        let mut line: Vec<Span> = Vec::new();
        line.push(Span { content: t, style: themed_style(Role::Secondary) });
        assert(spans_of(line@) =~= seq![(" "@ + truncated(b@, sat_sub(width as nat, 2)), themed(Role::Secondary))]);
        put(out, line);
    }
    assert(lines_of_spans(out@) =~= start + closing_lines(*issue, width as nat, now as nat));
}

/// The properties panel of an issue, `width` cells wide, at `now` (seconds
/// since the epoch).
pub fn panel_lines(issue: &Issue, width: u16, now: u64) -> (lines: Vec<Vec<Span>>)
    ensures
        lines_of_spans(lines@) == panel_spec(*issue, width as nat, now as nat),
{
    let w = width as usize;
    let mut out: Vec<Vec<Span>> = Vec::new();
    assert(lines_of_spans(out@) =~= Seq::<Seq<Run>>::empty());
    top_part(&mut out, issue);
    detail_part(&mut out, issue);
    label_part(&mut out, issue, w);
    project_part(&mut out, issue, w);
    creator_part(&mut out, issue, now);
    closing_part(&mut out, issue, w, now);
    assert(lines_of_spans(out@) =~= panel_spec(*issue, width as nat, now as nat));
    out
}

} // verus!
