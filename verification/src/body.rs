//! The main column of the issue detail view: the title, the parent it is a
//! sub-issue of, the properties folded in on a narrow terminal, the
//! description, the sub-issues, and the comment threads as cards. Markdown
//! is rendered through the [`Memo`], and the body holds where in the memo
//! each rendering sits rather than copies of its lines.

use vstd::prelude::*;
use crate::detail::{section_rule, section_rule_spans};
use crate::entity::{Comment, Issue, IssueRef, StateType};
use crate::grouping::assignee_name;
use crate::look::{priority_color, priority_color_spec, priority_glyph, priority_glyph_spec, Color, Role};
use crate::markdown::{
    lines_of_spans, plain, plain_style, repeated, runs_of, sat_sub, span_cells, spaces, spans_cells, spans_of, wrap,
    wrapped, Run, Span, Style,
};
use crate::memo::{card_line, close_card_line, copy_spans, drawn, Memo};
use crate::show::{below, is_stray, is_written_order, push_below, starts_thread, stray, written_order, written_order_of};
use crate::text::{push_decimal, push_str};
use crate::widgets::{fg, person, relative, relative_time, state_mark, state_mark_span, themed, themed_style, truncate, truncated};

verus! {

/// One piece of the body: a line built for this frame, or the lines a
/// rendering holds in the memo, by its place there.
pub enum Piece {
    Line(Vec<Span>),
    Memo(usize),
}

/// The body of the detail view as one frame lays it out.
pub struct Body {
    pub pieces: Vec<Piece>,
}

/// The lines a piece stands for, with the memo as it is.
pub open spec fn piece_lines(p: Piece, memo: Memo) -> Seq<Seq<Run>> {
    match p {
        Piece::Line(l) => seq![spans_of(l@)],
        Piece::Memo(e) => memo.held(e as int),
    }
}

/// The lines the first `k` pieces stand for.
pub open spec fn body_view(pieces: Seq<Piece>, memo: Memo, k: nat) -> Seq<Seq<Run>>
    decreases k,
{
    if k == 0 {
        Seq::empty()
    } else {
        body_view(pieces, memo, (k - 1) as nat) + piece_lines(pieces[k - 1], memo)
    }
}

/// Whether every rendering the pieces refer to lies before `n`.
pub open spec fn refers_below(pieces: Seq<Piece>, n: nat) -> bool {
    forall|i: int| 0 <= i < pieces.len() ==> match #[trigger] pieces[i] {
        Piece::Memo(e) => e < n,
        Piece::Line(_) => true,
    }
}

/// Two memos that hold the same renderings below `n` give the same lines.
proof fn lemma_view_stable(pieces: Seq<Piece>, a: Memo, b: Memo, n: nat, k: nat)
    requires
        k <= pieces.len(),
        refers_below(pieces, n),
        forall|i: int| 0 <= i < n ==> #[trigger] a.held(i) == b.held(i),
    ensures
        body_view(pieces, a, k) == body_view(pieces, b, k),
    decreases k,
{
    if k > 0 {
        lemma_view_stable(pieces, a, b, n, (k - 1) as nat);
        match pieces[k - 1] {
            Piece::Memo(e) => {
                assert(a.held(e as int) == b.held(e as int));
            },
            Piece::Line(_) => {},
        }
    }
}

/// The invariant a body keeps while it is filled: its lines are `lines`,
/// with the memo as it is, and it refers only to renderings already made.
pub open spec fn holds(body: Body, memo: Memo, lines: Seq<Seq<Run>>) -> bool {
    &&& memo.wf()
    &&& refers_below(body.pieces@, memo.position())
    &&& memo.position() <= memo.count()
    &&& body_view(body.pieces@, memo, body.pieces@.len()) == lines
}

impl Body {
    pub fn new() -> (body: Body)
        ensures
            body.pieces@.len() == 0,
    {
        Body { pieces: Vec::new() }
    }

    /// Add a line built for this frame.
    pub fn push(&mut self, line: Vec<Span>, Ghost(memo): Ghost<Memo>, Ghost(lines): Ghost<Seq<Seq<Run>>>)
        requires
            holds(*old(self), memo, lines),
        ensures
            holds(*final(self), memo, lines.push(spans_of(line@))),
    {
        let ghost l = spans_of(line@);
        let ghost before = self.pieces@;
        self.pieces.push(Piece::Line(line));
        proof {
            lemma_view_prefix(self.pieces@, memo, before.len());
            assert(self.pieces@.take(before.len() as int) =~= before);
            assert(body_view(self.pieces@, memo, before.len()) == lines);
            assert(piece_lines(self.pieces@[before.len() as int], memo) == seq![l]);
            assert(body_view(self.pieces@, memo, self.pieces@.len()) == lines.push(l));
            assert forall|i: int| 0 <= i < self.pieces@.len() implies match #[trigger] self.pieces@[i] {
                Piece::Memo(e) => e < memo.position(),
                Piece::Line(_) => true,
            } by {
                if i < before.len() {
                    assert(self.pieces@[i] == before[i]);
                }
            }
        }
    }
}

proof fn lemma_view_prefix(pieces: Seq<Piece>, memo: Memo, k: nat)
    requires
        k <= pieces.len(),
    ensures
        body_view(pieces, memo, k) == body_view(pieces.take(k as int), memo, k),
    decreases k,
{
    if k > 0 {
        lemma_view_prefix(pieces, memo, (k - 1) as nat);
        lemma_view_prefix(pieces.take(k as int), memo, (k - 1) as nat);
        assert(pieces.take(k as int).take((k - 1) as int) =~= pieces.take((k - 1) as int));
    }
}

impl Body {
    /// Render Markdown through the memo and add its lines.
    pub fn push_render(
        &mut self,
        memo: &mut Memo,
        source: &str,
        width: u16,
        gutter: &Vec<Span>,
        card: bool,
        Ghost(lines): Ghost<Seq<Seq<Run>>>,
    )
        requires
            holds(*old(self), *old(memo), lines),
            old(memo).position() < usize::MAX,
        ensures
            holds(*final(self), *final(memo), lines + drawn(source@, width as nat, spans_of(gutter@), card)),
            final(memo).position() == old(memo).position() + 1,
    {
        let ghost before = self.pieces@;
        let ghost m0 = *memo;
        let entry = memo.render(source, width, gutter, card);
        proof {
            lemma_view_stable(before, m0, *memo, m0.position(), before.len());
        }
        self.pieces.push(Piece::Memo(entry));
        proof {
            let d = drawn(source@, width as nat, spans_of(gutter@), card);
            lemma_view_prefix(self.pieces@, *memo, before.len());
            assert(self.pieces@.take(before.len() as int) =~= before);
            assert(piece_lines(self.pieces@[before.len() as int], *memo) == d);
            assert(body_view(self.pieces@, *memo, self.pieces@.len()) == lines + d);
            assert forall|i: int| 0 <= i < self.pieces@.len() implies match #[trigger] self.pieces@[i] {
                Piece::Memo(e) => e < memo.position(),
                Piece::Line(_) => true,
            } by {
                if i < before.len() {
                    assert(self.pieces@[i] == before[i]);
                }
            }
        }
    }

    /// Add each of `lines`, built for this frame.
    pub fn extend(&mut self, new: Vec<Vec<Span>>, Ghost(memo): Ghost<Memo>, Ghost(lines): Ghost<Seq<Seq<Run>>>)
        requires
            holds(*old(self), memo, lines),
        ensures
            holds(*final(self), memo, lines + lines_of_spans(new@)),
    {
        let mut new = new;
        let ghost all = lines_of_spans(new@);
        let n = new.len();
        let mut rest: Vec<Vec<Span>> = Vec::new();
        // Taken from the back, then put in order.
        while new.len() > 0
            invariant
                new@.len() + rest@.len() == n,
                lines_of_spans(new@) + lines_of_spans(rest@).reverse() == all,
            decreases new@.len(),
        {
            let ghost a = lines_of_spans(new@);
            let ghost b = lines_of_spans(rest@);
            let l = new.pop().unwrap();
            rest.push(l);
            assert(lines_of_spans(new@) + lines_of_spans(rest@).reverse() =~= all) by {
                assert(lines_of_spans(new@) =~= a.drop_last());
                assert(lines_of_spans(rest@) =~= b.push(a.last()));
                assert(b.push(a.last()).reverse() =~= seq![a.last()] + b.reverse());
            }
        }
        assert(lines_of_spans(rest@).reverse() =~= all);
        let ghost done = lines;
        while rest.len() > 0
            invariant
                holds(*self, memo, done),
                done + lines_of_spans(rest@).reverse() == lines + all,
            decreases rest@.len(),
        {
            let ghost b = lines_of_spans(rest@);
            let l = rest.pop().unwrap();
            let ghost ls = spans_of(l@);
            self.push(l, Ghost(memo), Ghost(done));
            proof {
                assert(b =~= lines_of_spans(rest@).push(ls));
                assert(b.reverse() =~= seq![ls] + lines_of_spans(rest@).reverse());
                done = done.push(ls);
                assert(done + lines_of_spans(rest@).reverse() =~= lines + all);
            }
        }
        assert(done =~= lines + all);
    }
}

/// A line of one span.
pub open spec fn line1(text: Seq<char>, style: Style) -> Seq<Seq<Run>> {
    seq![seq![(text, style)]]
}

pub open spec fn blank() -> Seq<Seq<Run>> {
    seq![Seq::empty()]
}

pub open spec fn bold(role: Role) -> Style {
    Style { bold: true, ..themed(role) }
}

/// The line naming the issue an issue is a sub-issue of: its status, its
/// identifier, and as much of its title as fits.
pub open spec fn parent_line(p: IssueRef, width: nat) -> Seq<Run> {
    let head = seq![
        ("Sub-issue of "@, themed(Role::Muted)),
        state_mark(p.state),
        (" "@ + p.identifier@ + " "@, themed(Role::Muted)),
    ];
    head.push((truncated(p.title@, sat_sub(width, spans_cells(head, 3))), themed(Role::TextDim)))
}

pub open spec fn sep() -> Run {
    ("  \u{00b7}  "@, themed(Role::Muted))
}

/// The run of properties the compact block wraps: project, cycle,
/// estimate, due date, then who filed the issue and when.
pub open spec fn compact_runs(issue: Issue, now: nat) -> Seq<Run> {
    let dim = themed(Role::TextDim);
    (match issue.project {
        Some(p) => seq![("\u{25a3} "@ + p.name@ + "   "@, dim)],
        None => Seq::empty(),
    }) + (match issue.cycle {
        Some(c) => seq![("\u{25d4} "@ + crate::entity::cycle_label(c) + "   "@, dim)],
        None => Seq::empty(),
    }) + (match issue.estimate {
        Some(e) => seq![("\u{25c7} "@ + e@ + " pts   "@, dim)],
        None => Seq::empty(),
    }) + (match issue.due_date {
        Some(d) => seq![("\u{2691} Due "@ + crate::widgets::short_date_of(Some(d)) + "   "@, dim)],
        None => Seq::empty(),
    }) + seq![(
        "Created by "@ + (match issue.creator {
            Some(u) => assignee_name(u),
            None => "unknown"@,
        }) + " "@ + relative(issue.created_at, now),
        themed(Role::Muted),
    )]
}

/// Every label's chip, in a row.
pub open spec fn chips(labels: Seq<crate::entity::Label>, k: nat) -> Seq<Run>
    decreases k,
{
    if k == 0 {
        Seq::empty()
    } else {
        chips(labels, (k - 1) as nat) + crate::widgets::label_chip(labels[k - 1])
    }
}

/// The panel's essentials as a few dense lines, for a terminal too narrow
/// to give the panel its own column.
pub open spec fn compact_lines(issue: Issue, width: nat, now: nat) -> Seq<Seq<Run>> {
    let first = seq![
        state_mark(issue.state),
        (" "@ + crate::panel::state_name(issue), fg(crate::widgets::state_color_of(issue.state))),
        sep(),
        (priority_glyph_spec(issue.priority), fg(priority_color_spec(issue.priority))),
        (" "@ + crate::entity::priority_label(issue.priority), themed(Role::Text)),
        sep(),
    ] + person(issue.assignee);
    seq![first] + wrapped(compact_runs(issue, now), width, Seq::empty(), Seq::empty()) + match issue.labels {
        Some(ls) => if ls@.len() > 0 { seq![chips(ls@, ls@.len())] } else { Seq::empty() },
        None => Seq::empty(),
    }
}

/// Whether a description has anything to show.
pub open spec fn has_text(d: Option<String>) -> bool {
    match d {
        Some(t) => crate::text::trimmed(t@).len() > 0,
        None => false,
    }
}

/// The description rendered, or a muted invitation to add one.
pub open spec fn description_lines(issue: Issue, width: nat) -> Seq<Seq<Run>> {
    if has_text(issue.description) {
        drawn(issue.description->0@, width, Seq::empty(), false)
    } else {
        line1("Add description\u{2026}"@, Style { italic: true, ..themed(Role::Muted) })
    }
}

/// How many of the first `k` sub-issues are done.
pub open spec fn done_count(children: Seq<IssueRef>, k: nat) -> nat
    decreases k,
{
    if k == 0 {
        0
    } else {
        done_count(children, (k - 1) as nat) + if crate::widgets::kind_of(children[k - 1].state) == StateType::Completed
            && children[k - 1].state is Some && children[k - 1].state->0.state_type is Some {
            1nat
        } else {
            0nat
        }
    }
}

/// `s` padded with blanks to `n` characters.
pub open spec fn pad_right(s: Seq<char>, n: nat) -> Seq<char> {
    s + spaces(sat_sub(n, s.len()))
}

/// A sub-issue's line: its status, identifier, and as much of its title as
/// fits.
pub open spec fn child_line(c: IssueRef, width: nat) -> Seq<Run> {
    let head = seq![(" "@, plain_style()), state_mark(c.state), (" "@ + pad_right(c.identifier@, 9) + " "@, themed(Role::Muted))];
    head.push((truncated(c.title@, sat_sub(width, spans_cells(head, 3))), themed(Role::Text)))
}

pub open spec fn child_lines(children: Seq<IssueRef>, width: nat, k: nat) -> Seq<Seq<Run>>
    decreases k,
{
    if k == 0 {
        Seq::empty()
    } else {
        child_lines(children, width, (k - 1) as nat).push(child_line(children[k - 1], width))
    }
}

/// The sub-issues under their heading, with how many are done.
pub open spec fn children_lines(issue: Issue, width: nat) -> Seq<Seq<Run>> {
    match issue.children {
        Some(cs) => if cs@.len() > 0 {
            blank() + seq![section_rule_spans(
                "Sub-issues"@,
                crate::text::decimal(done_count(cs@, cs@.len())) + "/"@ + crate::text::decimal(cs@.len()),
                width,
            )] + child_lines(cs@, width, cs@.len()) + blank()
        } else {
            Seq::empty()
        },
        None => Seq::empty(),
    }
}

/// The gutter a comment's body is drawn behind inside its card.
pub open spec fn card_gutter(reply: bool) -> Seq<Run> {
    seq![("\u{2502} "@, themed(Role::Border)), (if reply { "  "@ } else { Seq::empty() }, plain_style())]
}

/// A comment's header inside its card: who wrote it, when, and whether it
/// was edited.
pub open spec fn comment_header(c: Comment, reply: bool, now: nat) -> Seq<Run> {
    card_gutter(reply) + (match c.user {
        Some(u) => seq![person(Some(u))[0], (" "@ + assignee_name(u), bold(Role::Text))],
        None => seq![("Unknown"@, bold(Role::TextDim))],
    }) + seq![("  "@ + relative(c.created_at, now), themed(Role::Muted))] + if c.edited_at is Some {
        seq![(" (edited)"@, themed(Role::Muted))]
    } else {
        Seq::empty()
    }
}

pub open spec fn card_edge(left: Seq<char>, right: Seq<char>, width: nat) -> Seq<Run> {
    seq![(left, themed(Role::Border)), (Seq::new(sat_sub(width, 2), |i: int| '\u{2500}'), themed(Role::Border)), (right, themed(Role::Border))]
}

/// The entries of a card after the first `k`: a divider between each two,
/// each entry's header and its body.
pub open spec fn card_entries(cs: Seq<Comment>, e: Seq<(usize, bool)>, width: u16, now: nat, k: nat) -> Seq<Seq<Run>>
    decreases k,
{
    if k == 0 {
        Seq::empty()
    } else {
        let (i, reply) = e[k - 1];
        card_entries(cs, e, width, now, (k - 1) as nat) + (if k > 1 {
            seq![card_line(
                seq![("\u{2502} "@, themed(Role::Border)), (Seq::new(sat_sub(width as nat, 4), |j: int| '\u{2508}'), themed(Role::Border))],
                width as nat,
            )]
        } else {
            Seq::empty()
        }) + seq![card_line(comment_header(cs[i as int], reply, now), width as nat)] + drawn(
            cs[i as int].body@,
            width as nat,
            card_gutter(reply),
            true,
        )
    }
}

/// A thread as a card: its first comment and every reply below it.
pub open spec fn card(cs: Seq<Comment>, e: Seq<(usize, bool)>, width: u16, now: nat) -> Seq<Seq<Run>> {
    seq![card_edge("\u{256d}"@, "\u{256e}"@, width as nat)] + card_entries(cs, e, width, now, e.len()) + seq![card_edge(
        "\u{2570}"@,
        "\u{256f}"@,
        width as nat,
    )]
}

/// The comments that start a card: those that answer none, or one that
/// was not fetched.
pub open spec fn starts_card(cs: Seq<Comment>, i: int) -> bool {
    cs[i].parent is None || stray(cs, i)
}

/// The cards of the threads begun among the first `k` comments in written
/// order, each followed by a blank line.
pub open spec fn cards_upto(cs: Seq<Comment>, o: Seq<usize>, width: u16, now: nat, k: nat) -> Seq<Seq<Run>>
    decreases k,
{
    if k == 0 {
        Seq::empty()
    } else {
        let r = o[k - 1] as int;
        cards_upto(cs, o, width, now, (k - 1) as nat) + if starts_card(cs, r) {
            card(cs, seq![(o[k - 1], false)] + below(cs, o, r, o.len(), cs.len()), width, now) + blank()
        } else {
            Seq::empty()
        }
    }
}

/// The activity: the comments as cards under their heading, or that they
/// are loading.
pub open spec fn activity_lines(issue: Issue, width: u16, now: nat) -> Seq<Seq<Run>> {
    match issue.comments {
        None => seq![section_rule_spans("Activity"@, Seq::empty(), width as nat)] + line1(
            "Loading comments\u{2026}"@,
            themed(Role::Muted),
        ),
        Some(cs) => seq![section_rule_spans(
            "Activity"@,
            crate::text::decimal(cs@.len()) + " comments"@,
            width as nat,
        )] + blank() + cards_upto(cs@, written_order(cs@), width, now, cs@.len()) + line1(
            "  m  Leave a comment\u{2026}"@,
            themed(Role::Muted),
        ),
    }
}

/// The title, wrapped, and the issue it is a sub-issue of.
pub open spec fn title_lines(issue: Issue, width: nat) -> Seq<Seq<Run>> {
    wrapped(seq![(issue.title@, bold(Role::Text))], width, Seq::empty(), Seq::empty()) + match issue.parent {
        Some(p) => seq![parent_line(p, width)],
        None => Seq::empty(),
    }
}

/// The main column of the detail view, `width` cells wide.
pub open spec fn body_spec(issue: Issue, width: u16, inline_props: bool, now: nat) -> Seq<Seq<Run>> {
    let w = width as nat;
    blank() + title_lines(issue, w) + blank() + (if inline_props { compact_lines(issue, w, now) + blank() } else { Seq::empty() })
        + description_lines(issue, w) + blank() + children_lines(issue, w) + blank() + activity_lines(issue, width, now)
        + blank()
}

fn line_of(text: &str, style: Style) -> (line: Vec<Span>)
    ensures
        spans_of(line@) == seq![(text@, style)],
{
    let mut t = String::new();
    push_str(&mut t, text);
    let mut line: Vec<Span> = Vec::new();
    line.push(Span { content: t, style });
    assert(spans_of(line@) =~= seq![(text@, style)]);
    line
}

fn empty_line() -> (line: Vec<Span>)
    ensures
        spans_of(line@) == Seq::<Run>::empty(),
{
    let line: Vec<Span> = Vec::new();
    assert(spans_of(line@) =~= Seq::<Run>::empty());
    line
}

fn bold_style(role: Role) -> (s: Style)
    ensures
        s == bold(role),
{
    Style { fg: Some(Color::Themed(role)), bg: None, bold: true, italic: false, crossed_out: false, underlined: false }
}

fn blank_part(body: &mut Body, Ghost(memo): Ghost<Memo>, Ghost(cur): Ghost<Seq<Seq<Run>>>)
    requires
        holds(*old(body), memo, cur),
    ensures
        holds(*final(body), memo, cur + blank()),
{
    let e = empty_line();
    body.push(e, Ghost(memo), Ghost(cur));
    assert(cur.push(Seq::<Run>::empty()) =~= cur + blank());
}

fn title_part(body: &mut Body, issue: &Issue, width: u16, Ghost(memo): Ghost<Memo>, Ghost(cur): Ghost<Seq<Seq<Run>>>)
    requires
        holds(*old(body), memo, cur),
    ensures
        holds(*final(body), memo, cur + title_lines(*issue, width as nat)),
{
    let mut segs: Vec<(String, Style)> = Vec::new();
    segs.push((issue.title.clone(), bold_style(Role::Text)));
    assert(runs_of(segs@) =~= seq![(issue.title@, bold(Role::Text))]);
    let lines = wrap(segs, width as usize, empty_line(), empty_line());
    let ghost wl = lines_of_spans(lines@);
    body.extend(lines, Ghost(memo), Ghost(cur));
    let ghost mid = cur + wl;
    if let Some(p) = &issue.parent {
        let mut line: Vec<Span> = Vec::new();
        let mut lead = String::new();
        push_str(&mut lead, "Sub-issue of ");
        line.push(Span { content: lead, style: themed_style(Role::Muted) });
        line.push(state_mark_span(&p.state));
        let mut id = String::new();
        push_str(&mut id, " ");
        push_str(&mut id, p.identifier.as_str());
        push_str(&mut id, " ");
        line.push(Span { content: id, style: themed_style(Role::Muted) });
        let used = span_cells(&line);
        let room: usize = if (width as usize) > used { width as usize - used } else { 0 };
        let ghost head = spans_of(line@);
        assert(head =~= seq![
            ("Sub-issue of "@, themed(Role::Muted)),
            state_mark(p.state),
            (" "@ + p.identifier@ + " "@, themed(Role::Muted)),
        ]);
        line.push(Span { content: truncate(p.title.as_str(), room), style: themed_style(Role::TextDim) });
        assert(spans_of(line@) =~= head.push((truncated(p.title@, sat_sub(width as nat, spans_cells(head, 3))), themed(Role::TextDim))));
        assert(spans_of(line@) =~= parent_line(*p, width as nat));
        body.push(line, Ghost(memo), Ghost(mid));
    }
    assert(body_view(body.pieces@, memo, body.pieces@.len()) =~= cur + title_lines(*issue, width as nat));
}

fn push_run(runs: &mut Vec<(String, Style)>, text: String, style: Style)
    ensures
        runs_of(final(runs)@) == runs_of(old(runs)@).push((text@, style)),
{
    let ghost t = text@;
    runs.push((text, style));
    assert(runs_of(runs@) =~= runs_of(old(runs)@).push((t, style)));
}

fn compact_runs_of(issue: &Issue, now: u64) -> (runs: Vec<(String, Style)>)
    ensures
        runs_of(runs@) == compact_runs(*issue, now as nat),
{
    let dim = themed_style(Role::TextDim);
    let mut runs: Vec<(String, Style)> = Vec::new();
    let ghost r0 = runs_of(runs@);
    if let Some(p) = &issue.project {
        let mut t = String::new();
        push_str(&mut t, "\u{25a3} ");
        push_str(&mut t, p.name.as_str());
        push_str(&mut t, "   ");
        push_run(&mut runs, t, dim);
    }
    let ghost r1 = runs_of(runs@);
    if let Some(c) = &issue.cycle {
        let mut t = String::new();
        push_str(&mut t, "\u{25d4} ");
        let l = c.label();
        push_str(&mut t, l.as_str());
        push_str(&mut t, "   ");
        push_run(&mut runs, t, dim);
    }
    let ghost r2 = runs_of(runs@);
    if let Some(e) = &issue.estimate {
        let mut t = String::new();
        push_str(&mut t, "\u{25c7} ");
        push_str(&mut t, e.as_str());
        push_str(&mut t, " pts   ");
        push_run(&mut runs, t, dim);
    }
    let ghost r3 = runs_of(runs@);
    if let Some(d) = &issue.due_date {
        let mut t = String::new();
        push_str(&mut t, "\u{2691} Due ");
        let day = crate::widgets::short_date(&issue.due_date);
        push_str(&mut t, day.as_str());
        push_str(&mut t, "   ");
        push_run(&mut runs, t, dim);
    }
    let ghost r4 = runs_of(runs@);
    let mut t = String::new();
    push_str(&mut t, "Created by ");
    match &issue.creator {
        Some(u) => push_str(&mut t, crate::show::user_name(u)),
        None => push_str(&mut t, "unknown"),
    }
    push_str(&mut t, " ");
    let ago = relative_time(&issue.created_at, now);
    push_str(&mut t, ago.as_str());
    push_run(&mut runs, t, themed_style(Role::Muted));
    assert(runs_of(runs@) =~= compact_runs(*issue, now as nat));
    runs
}

fn chips_line(labels: &Vec<crate::entity::Label>) -> (line: Vec<Span>)
    ensures
        spans_of(line@) == chips(labels@, labels@.len()),
{
    let mut line: Vec<Span> = Vec::new();
    let mut k: usize = 0;
    while k < labels.len()
        invariant
            k <= labels@.len(),
            spans_of(line@) == chips(labels@, k as nat),
        decreases labels@.len() - k,
    {
        let mut chip = crate::widgets::label_chip_spans(&labels[k]);
        let ghost a = spans_of(line@);
        let ghost b = spans_of(chip@);
        line.append(&mut chip);
        assert(spans_of(line@) =~= a + b);
        k = k + 1;
    }
    line
}

fn sep_span() -> (s: Span)
    ensures
        (s.content@, s.style) == sep(),
{
    let mut t = String::new();
    push_str(&mut t, "  \u{00b7}  ");
    Span { content: t, style: themed_style(Role::Muted) }
}

fn compact_part(body: &mut Body, issue: &Issue, width: u16, now: u64, Ghost(memo): Ghost<Memo>, Ghost(cur): Ghost<Seq<Seq<Run>>>)
    requires
        holds(*old(body), memo, cur),
    ensures
        holds(*final(body), memo, cur + compact_lines(*issue, width as nat, now as nat)),
{
    let mut first: Vec<Span> = Vec::new();
    first.push(state_mark_span(&issue.state));
    let mut name = String::new();
    push_str(&mut name, " ");
    match &issue.state {
        Some(s) => push_str(&mut name, s.name.as_str()),
        None => push_str(&mut name, "No status"),
    }
    first.push(Span { content: name, style: crate::widgets::fg_style(crate::widgets::state_color_for(&issue.state)) });
    first.push(sep_span());
    let mut glyph = String::new();
    push_str(&mut glyph, priority_glyph(issue.priority));
    first.push(Span { content: glyph, style: crate::widgets::fg_style(priority_color(issue.priority)) });
    let mut level = String::new();
    push_str(&mut level, " ");
    push_str(&mut level, issue.priority.label());
    first.push(Span { content: level, style: themed_style(Role::Text) });
    first.push(sep_span());
    let ghost head = spans_of(first@);
    assert(head =~= seq![
        state_mark(issue.state),
        (" "@ + crate::panel::state_name(*issue), fg(crate::widgets::state_color_of(issue.state))),
        sep(),
        (priority_glyph_spec(issue.priority), fg(priority_color_spec(issue.priority))),
        (" "@ + crate::entity::priority_label(issue.priority), themed(Role::Text)),
        sep(),
    ]);
    let mut who = crate::widgets::person_spans(&issue.assignee);
    let ghost w = spans_of(who@);
    first.append(&mut who);
    assert(spans_of(first@) =~= head + w);
    let ghost l0 = spans_of(first@);
    body.push(first, Ghost(memo), Ghost(cur));
    let ghost c1 = cur.push(l0);
    let lines = wrap(compact_runs_of(issue, now), width as usize, empty_line(), empty_line());
    let ghost wl = lines_of_spans(lines@);
    body.extend(lines, Ghost(memo), Ghost(c1));
    let ghost c2 = c1 + wl;
    assert(wl == wrapped(compact_runs(*issue, now as nat), width as nat, Seq::empty(), Seq::empty()));
    if let Some(ls) = &issue.labels {
        if ls.len() > 0 {
            let l = chips_line(ls);
            body.push(l, Ghost(memo), Ghost(c2));
            assert(c2.push(chips(ls@, ls@.len())) =~= c2 + seq![chips(ls@, ls@.len())]);
        } else {
            assert(c2 =~= c2 + Seq::<Seq<Run>>::empty());
        }
    } else {
        assert(c2 =~= c2 + Seq::<Seq<Run>>::empty());
    }
    assert(body_view(body.pieces@, memo, body.pieces@.len()) =~= cur + compact_lines(*issue, width as nat, now as nat));
}

fn description_part(body: &mut Body, memo: &mut Memo, issue: &Issue, width: u16, Ghost(cur): Ghost<Seq<Seq<Run>>>)
    requires
        holds(*old(body), *old(memo), cur),
        old(memo).position() < usize::MAX,
    ensures
        holds(*final(body), *final(memo), cur + description_lines(*issue, width as nat)),
        final(memo).position() <= old(memo).position() + 1,
{
    let mut shown = false;
    if let Some(d) = &issue.description {
        if crate::text::trim(d.as_str()).unicode_len() > 0 {
            shown = true;
            let gutter = empty_line();
            body.push_render(memo, d.as_str(), width, &gutter, false, Ghost(cur));
            assert(spans_of(gutter@) =~= Seq::<Run>::empty());
        }
    }
    assert(shown == has_text(issue.description));
    if !shown {
        let mut t = String::new();
        push_str(&mut t, "Add description\u{2026}");
        let mut line: Vec<Span> = Vec::new();
        line.push(Span {
            content: t,
            style: Style { fg: Some(Color::Themed(Role::Muted)), bg: None, bold: false, italic: true, crossed_out: false, underlined: false },
        });
        assert(spans_of(line@) =~= seq![("Add description\u{2026}"@, Style { italic: true, ..themed(Role::Muted) })]);
        body.push(line, Ghost(*memo), Ghost(cur));
        assert(cur.push(seq![("Add description\u{2026}"@, Style { italic: true, ..themed(Role::Muted) })])
            =~= cur + description_lines(*issue, width as nat));
    }
}

fn child_line_of(c: &IssueRef, width: u16) -> (line: Vec<Span>)
    ensures
        spans_of(line@) == child_line(*c, width as nat),
{
    let mut line: Vec<Span> = Vec::new();
    let mut lead = String::new();
    push_str(&mut lead, " ");
    line.push(Span { content: lead, style: plain() });
    line.push(state_mark_span(&c.state));
    let mut id = String::new();
    push_str(&mut id, " ");
    push_str(&mut id, c.identifier.as_str());
    let n = c.identifier.as_str().unicode_len();
    let pad: usize = if n < 9 { 9 - n } else { 0 };
    let blanks = repeated(' ', pad);
    push_str(&mut id, blanks.as_str());
    push_str(&mut id, " ");
    assert(id@ =~= " "@ + pad_right(c.identifier@, 9) + " "@);
    line.push(Span { content: id, style: themed_style(Role::Muted) });
    let used = span_cells(&line);
    let room: usize = if (width as usize) > used { width as usize - used } else { 0 };
    let ghost head = spans_of(line@);
    assert(head =~= seq![(" "@, plain_style()), state_mark(c.state), (" "@ + pad_right(c.identifier@, 9) + " "@, themed(Role::Muted))]);
    line.push(Span { content: truncate(c.title.as_str(), room), style: themed_style(Role::Text) });
    assert(spans_of(line@) =~= child_line(*c, width as nat));
    line
}

fn done_of(children: &Vec<IssueRef>) -> (n: u64)
    ensures
        n == done_count(children@, children@.len()),
{
    let mut done: u64 = 0;
    let mut k: usize = 0;
    while k < children.len()
        invariant
            k <= children@.len(),
            done == done_count(children@, k as nat),
            done <= k,
        decreases children@.len() - k,
    {
        if matches!(crate::widgets::state_kind(&children[k].state), StateType::Completed) {
            done = done + 1;
        }
        k = k + 1;
    }
    done
}

fn children_part(body: &mut Body, issue: &Issue, width: u16, Ghost(memo): Ghost<Memo>, Ghost(cur): Ghost<Seq<Seq<Run>>>)
    requires
        holds(*old(body), memo, cur),
    ensures
        holds(*final(body), memo, cur + children_lines(*issue, width as nat)),
{
    if let Some(cs) = &issue.children {
        if cs.len() > 0 {
            blank_part(body, Ghost(memo), Ghost(cur));
            let ghost c1 = cur + blank();
            let done = done_of(cs);
            let mut trailing = String::new();
            push_decimal(&mut trailing, done);
            push_str(&mut trailing, "/");
            push_decimal(&mut trailing, cs.len() as u64);
            let rule = section_rule("Sub-issues", trailing.as_str(), width);
            let ghost r = spans_of(rule@);
            body.push(rule, Ghost(memo), Ghost(c1));
            let ghost c2 = c1.push(r);
            let mut lines: Vec<Vec<Span>> = Vec::new();
            let mut k: usize = 0;
            while k < cs.len()
                invariant
                    k <= cs@.len(),
                    lines_of_spans(lines@) == child_lines(cs@, width as nat, k as nat),
                decreases cs@.len() - k,
            {
                let l = child_line_of(&cs[k], width);
                let ghost before = lines_of_spans(lines@);
                lines.push(l);
                assert(lines_of_spans(lines@) =~= before.push(child_line(cs@[k as int], width as nat)));
                k = k + 1;
            }
            let ghost cl = lines_of_spans(lines@);
            body.extend(lines, Ghost(memo), Ghost(c2));
            blank_part(body, Ghost(memo), Ghost(c2 + cl));
            assert(c2 + cl + blank() =~= cur + children_lines(*issue, width as nat));
        } else {
            assert(cur =~= cur + children_lines(*issue, width as nat));
        }
    } else {
        assert(cur =~= cur + children_lines(*issue, width as nat));
    }
}

/// How many renderings the cards of the threads begun among the first `k`
/// comments in written order ask of the memo.
pub open spec fn card_renders(cs: Seq<Comment>, o: Seq<usize>, k: nat) -> nat
    decreases k,
{
    if k == 0 {
        0
    } else {
        card_renders(cs, o, (k - 1) as nat) + if starts_card(cs, o[k - 1] as int) {
            1 + below(cs, o, o[k - 1] as int, o.len(), cs.len()).len()
        } else {
            0
        }
    }
}

/// How many renderings the body asks of the memo: the description, and
/// each comment as often as a card shows it.
pub open spec fn renders(issue: Issue) -> nat {
    1 + match issue.comments {
        Some(cs) => card_renders(cs@, written_order(cs@), cs@.len()),
        None => 0,
    }
}

proof fn lemma_renders_grow(cs: Seq<Comment>, o: Seq<usize>, a: nat, b: nat)
    requires
        a <= b,
    ensures
        card_renders(cs, o, a) <= card_renders(cs, o, b),
    decreases b,
{
    if a < b {
        lemma_renders_grow(cs, o, a, (b - 1) as nat);
    }
}

fn edge_line(left: &str, right: &str, width: u16) -> (line: Vec<Span>)
    ensures
        spans_of(line@) == card_edge(left@, right@, width as nat),
{
    let mut line: Vec<Span> = Vec::new();
    let mut l = String::new();
    push_str(&mut l, left);
    line.push(Span { content: l, style: themed_style(Role::Border) });
    let n: usize = if width >= 2 { width as usize - 2 } else { 0 };
    line.push(Span { content: repeated('\u{2500}', n), style: themed_style(Role::Border) });
    let mut r = String::new();
    push_str(&mut r, right);
    line.push(Span { content: r, style: themed_style(Role::Border) });
    assert(spans_of(line@) =~= card_edge(left@, right@, width as nat));
    line
}

fn gutter_spans(reply: bool) -> (line: Vec<Span>)
    ensures
        spans_of(line@) == card_gutter(reply),
{
    let mut line: Vec<Span> = Vec::new();
    let mut bar = String::new();
    push_str(&mut bar, "\u{2502} ");
    line.push(Span { content: bar, style: themed_style(Role::Border) });
    let mut pad = String::new();
    if reply {
        push_str(&mut pad, "  ");
    }
    line.push(Span { content: pad, style: plain() });
    assert(spans_of(line@) =~= card_gutter(reply));
    line
}

fn header_spans(c: &Comment, reply: bool, now: u64) -> (line: Vec<Span>)
    ensures
        spans_of(line@) == comment_header(*c, reply, now as nat),
{
    let mut line = gutter_spans(reply);
    let ghost g = spans_of(line@);
    match &c.user {
        Some(u) => {
            line.push(crate::widgets::avatar(u));
            let mut t = String::new();
            push_str(&mut t, " ");
            push_str(&mut t, crate::show::user_name(u));
            line.push(Span { content: t, style: bold_style(Role::Text) });
        },
        None => {
            let mut t = String::new();
            push_str(&mut t, "Unknown");
            line.push(Span { content: t, style: bold_style(Role::TextDim) });
        },
    }
    let ghost who = spans_of(line@);
    assert(who =~= g + match c.user {
        Some(u) => seq![person(Some(u))[0], (" "@ + assignee_name(u), bold(Role::Text))],
        None => seq![("Unknown"@, bold(Role::TextDim))],
    });
    let mut when = String::new();
    push_str(&mut when, "  ");
    let ago = relative_time(&c.created_at, now);
    push_str(&mut when, ago.as_str());
    line.push(Span { content: when, style: themed_style(Role::Muted) });
    if c.edited_at.is_some() {
        let mut e = String::new();
        push_str(&mut e, " (edited)");
        line.push(Span { content: e, style: themed_style(Role::Muted) });
    }
    assert(spans_of(line@) =~= comment_header(*c, reply, now as nat));
    line
}

fn divider_line(width: u16) -> (line: Vec<Span>)
    ensures
        spans_of(line@) == card_line(
            seq![("\u{2502} "@, themed(Role::Border)), (Seq::new(sat_sub(width as nat, 4), |j: int| '\u{2508}'), themed(Role::Border))],
            width as nat,
        ),
{
    let mut d: Vec<Span> = Vec::new();
    let mut a = String::new();
    push_str(&mut a, "\u{2502} ");
    d.push(Span { content: a, style: themed_style(Role::Border) });
    let n: usize = if width >= 4 { width as usize - 4 } else { 0 };
    d.push(Span { content: repeated('\u{2508}', n), style: themed_style(Role::Border) });
    assert(spans_of(d@) =~= seq![("\u{2502} "@, themed(Role::Border)), (Seq::new(sat_sub(width as nat, 4), |j: int| '\u{2508}'), themed(Role::Border))]);
    close_card_line(&mut d, width as usize);
    d
}

fn card_part(
    body: &mut Body,
    memo: &mut Memo,
    cs: &Vec<Comment>,
    entries: &Vec<(usize, bool)>,
    width: u16,
    now: u64,
    Ghost(cur): Ghost<Seq<Seq<Run>>>,
)
    requires
        holds(*old(body), *old(memo), cur),
        crate::show::within(entries@, cs@.len()),
        old(memo).position() + entries@.len() < usize::MAX,
    ensures
        holds(*final(body), *final(memo), cur + card(cs@, entries@, width, now as nat)),
        final(memo).position() == old(memo).position() + entries@.len(),
{
    let top = edge_line("\u{256d}", "\u{256e}", width);
    let ghost t = spans_of(top@);
    body.push(top, Ghost(*memo), Ghost(cur));
    let ghost c1 = cur.push(t);
    let ghost p0 = memo.position();
    let mut k: usize = 0;
    while k < entries.len()
        invariant
            k <= entries@.len(),
            crate::show::within(entries@, cs@.len()),
            holds(*body, *memo, c1 + card_entries(cs@, entries@, width, now as nat, k as nat)),
            memo.position() == p0 + k,
            p0 + entries@.len() < usize::MAX,
        decreases entries@.len() - k,
    {
        let ghost before = c1 + card_entries(cs@, entries@, width, now as nat, k as nat);
        let (i, reply) = entries[k];
        assert(i < cs@.len()) by {
            assert(entries@[k as int].0 < cs@.len());
        }
        let ghost mut acc = before;
        if k > 0 {
            let d = divider_line(width);
            let ghost dl = spans_of(d@);
            body.push(d, Ghost(*memo), Ghost(acc));
            proof {
                acc = acc.push(dl);
            }
        }
        let mut h = header_spans(&cs[i], reply, now);
        close_card_line(&mut h, width as usize);
        let ghost hl = spans_of(h@);
        body.push(h, Ghost(*memo), Ghost(acc));
        proof {
            acc = acc.push(hl);
        }
        let g = gutter_spans(reply);
        body.push_render(memo, cs[i].body.as_str(), width, &g, true, Ghost(acc));
        proof {
            let e = cs@[i as int];
            assert(hl == card_line(comment_header(e, reply, now as nat), width as nat));
            assert(acc + drawn(e.body@, width as nat, card_gutter(reply), true)
                =~= c1 + card_entries(cs@, entries@, width, now as nat, (k + 1) as nat));
        }
        k = k + 1;
    }
    let bottom = edge_line("\u{2570}", "\u{256f}", width);
    let ghost b = spans_of(bottom@);
    let ghost mid = c1 + card_entries(cs@, entries@, width, now as nat, entries@.len());
    body.push(bottom, Ghost(*memo), Ghost(mid));
    assert(mid.push(b) =~= cur + card(cs@, entries@, width, now as nat));
}

fn activity_part(body: &mut Body, memo: &mut Memo, issue: &Issue, width: u16, now: u64, Ghost(cur): Ghost<Seq<Seq<Run>>>)
    requires
        holds(*old(body), *old(memo), cur),
        old(memo).position() + match issue.comments {
            Some(cs) => card_renders(cs@, written_order(cs@), cs@.len()),
            None => 0,
        } < usize::MAX,
    ensures
        holds(*final(body), *final(memo), cur + activity_lines(*issue, width, now as nat)),
        final(memo).position() == old(memo).position() + match issue.comments {
            Some(cs) => card_renders(cs@, written_order(cs@), cs@.len()),
            None => 0,
        },
{
    match &issue.comments {
        None => {
            let rule = section_rule("Activity", "", width);
            proof {
                reveal_strlit("");
            }
            let ghost r = spans_of(rule@);
            body.push(rule, Ghost(*memo), Ghost(cur));
            let l = line_of("Loading comments\u{2026}", themed_style(Role::Muted));
            let ghost ll = spans_of(l@);
            body.push(l, Ghost(*memo), Ghost(cur.push(r)));
            assert(cur.push(r).push(ll) =~= cur + activity_lines(*issue, width, now as nat));
        },
        Some(cs) => {
            let mut trailing = String::new();
            push_decimal(&mut trailing, cs.len() as u64);
            push_str(&mut trailing, " comments");
            let rule = section_rule("Activity", trailing.as_str(), width);
            let ghost r = spans_of(rule@);
            body.push(rule, Ghost(*memo), Ghost(cur));
            blank_part(body, Ghost(*memo), Ghost(cur.push(r)));
            let ghost c0 = cur.push(r) + blank();
            let order = written_order_of(cs.as_slice());
            proof {
                crate::show::lemma_written_order_unique(cs@, order@);
            }
            let ghost p0 = memo.position();
            let n = order.len();
            let mut k: usize = 0;
            while k < n
                invariant
                    n == order@.len(),
                    n == cs@.len(),
                    is_written_order(cs@, order@),
                    k <= n,
                    holds(*body, *memo, c0 + cards_upto(cs@, order@, width, now as nat, k as nat)),
                    memo.position() == p0 + card_renders(cs@, order@, k as nat),
                    p0 + card_renders(cs@, order@, n as nat) < usize::MAX,
                decreases n - k,
            {
                let r = order[k];
                let ghost before = c0 + cards_upto(cs@, order@, width, now as nat, k as nat);
                proof {
                    lemma_renders_grow(cs@, order@, (k + 1) as nat, n as nat);
                }
                if starts_thread(cs.as_slice(), r) || is_stray(cs.as_slice(), r) {
                    let mut entries: Vec<(usize, bool)> = Vec::new();
                    entries.push((r, false));
                    push_below(cs.as_slice(), &order, r, cs.len(), &mut entries);
                    proof {
                        crate::show::lemma_below_places(cs@, order@, r as int, n as nat, cs@.len());
                        assert forall|j: int| 0 <= j < entries@.len() implies #[trigger] entries@[j].0 < cs@.len() by {
                            if j > 0 {
                                assert(entries@[j] == below(cs@, order@, r as int, n as nat, cs@.len())[j - 1]);
                            }
                        }
                    }
                    let ghost e = entries@;
                    card_part(body, memo, cs, &entries, width, now, Ghost(before));
                    let ghost cd = card(cs@, e, width, now as nat);
                    blank_part(body, Ghost(*memo), Ghost(before + cd));
                    assert(before + cd + blank() =~= c0 + cards_upto(cs@, order@, width, now as nat, (k + 1) as nat));
                } else {
                    assert(before =~= c0 + cards_upto(cs@, order@, width, now as nat, (k + 1) as nat));
                }
                k = k + 1;
            }
            let ghost done = c0 + cards_upto(cs@, order@, width, now as nat, n as nat);
            let l = line_of("  m  Leave a comment\u{2026}", themed_style(Role::Muted));
            let ghost ll = spans_of(l@);
            body.push(l, Ghost(*memo), Ghost(done));
            assert(done.push(ll) =~= cur + activity_lines(*issue, width, now as nat));
        },
    }
}

/// Lay out the main column of the detail view `width` cells wide, with
/// the properties folded in when `inline_props` is set. Markdown is
/// rendered through `memo`, which keeps what the last frame rendered.
#[verifier::rlimit(50)]
pub fn body_lines(issue: &Issue, width: u16, inline_props: bool, memo: &mut Memo, now: u64) -> (body: Body)
    requires
        old(memo).wf(),
        old(memo).position() + renders(*issue) < usize::MAX,
    ensures
        final(memo).wf(),
        final(memo).position() <= old(memo).position() + renders(*issue),
        holds(body, *final(memo), body_spec(*issue, width, inline_props, now as nat)),
{
    proof {
        crate::memo::lemma_position_within(*memo);
    }
    let mut body = Body::new();
    let ghost mut cur: Seq<Seq<Run>> = Seq::empty();
    assert(holds(body, *memo, cur));
    blank_part(&mut body, Ghost(*memo), Ghost(cur));
    proof {
        cur = cur + blank();
    }
    title_part(&mut body, issue, width, Ghost(*memo), Ghost(cur));
    proof {
        cur = cur + title_lines(*issue, width as nat);
    }
    blank_part(&mut body, Ghost(*memo), Ghost(cur));
    proof {
        cur = cur + blank();
    }
    let ghost folded = if inline_props { compact_lines(*issue, width as nat, now as nat) + blank() } else { Seq::empty() };
    if inline_props {
        compact_part(&mut body, issue, width, now, Ghost(*memo), Ghost(cur));
        blank_part(&mut body, Ghost(*memo), Ghost(cur + compact_lines(*issue, width as nat, now as nat)));
        assert(cur + compact_lines(*issue, width as nat, now as nat) + blank() =~= cur + folded);
    } else {
        assert(cur =~= cur + folded);
    }
    proof {
        cur = cur + folded;
    }
    assert(holds(body, *memo, cur));
    description_part(&mut body, memo, issue, width, Ghost(cur));
    proof {
        cur = cur + description_lines(*issue, width as nat);
    }
    blank_part(&mut body, Ghost(*memo), Ghost(cur));
    proof {
        cur = cur + blank();
    }
    children_part(&mut body, issue, width, Ghost(*memo), Ghost(cur));
    proof {
        cur = cur + children_lines(*issue, width as nat);
    }
    blank_part(&mut body, Ghost(*memo), Ghost(cur));
    proof {
        cur = cur + blank();
    }
    activity_part(&mut body, memo, issue, width, now, Ghost(cur));
    proof {
        cur = cur + activity_lines(*issue, width, now as nat);
    }
    blank_part(&mut body, Ghost(*memo), Ghost(cur));
    proof {
        cur = cur + blank();
        assert(cur =~= body_spec(*issue, width, inline_props, now as nat));
    }
    body
}

/// The lines of `all` from `skip` on, at most `take` of them.
pub open spec fn clip(all: Seq<Seq<Run>>, skip: nat, take: nat) -> Seq<Seq<Run>> {
    let start = if skip < all.len() { skip } else { all.len() };
    let end = if start + take < all.len() { start + take } else { all.len() };
    all.subrange(start as int, end as int)
}

impl Body {
    /// The `take` lines starting at line `skip`, the memo's renderings in
    /// their places.
    pub fn window(&self, memo: &Memo, skip: usize, take: usize) -> (out: Vec<Vec<Span>>)
        requires
            refers_below(self.pieces@, memo.count()),
        ensures
            lines_of_spans(out@) == clip(body_view(self.pieces@, *memo, self.pieces@.len()), skip as nat, take as nat),
    {
        let mut all: Vec<Vec<Span>> = Vec::new();
        let mut p: usize = 0;
        while p < self.pieces.len()
            invariant
                p <= self.pieces@.len(),
                refers_below(self.pieces@, memo.count()),
                lines_of_spans(all@) == body_view(self.pieces@, *memo, p as nat),
            decreases self.pieces@.len() - p,
        {
            let ghost before = lines_of_spans(all@);
            match &self.pieces[p] {
                Piece::Line(l) => {
                    all.push(copy_spans(l));
                    assert(lines_of_spans(all@) =~= before + seq![spans_of(l@)]);
                },
                Piece::Memo(e) => {
                    assert(*e < memo.count()) by {
                        assert(match self.pieces@[p as int] {
                            Piece::Memo(e) => e < memo.count(),
                            Piece::Line(_) => true,
                        });
                    }
                    let ls = memo.lines(*e);
                    let mut j: usize = 0;
                    while j < ls.len()
                        invariant
                            j <= ls@.len(),
                            lines_of_spans(all@) == before + lines_of_spans(ls@).take(j as int),
                        decreases ls@.len() - j,
                    {
                        let ghost mid = lines_of_spans(all@);
                        all.push(copy_spans(&ls[j]));
                        assert(lines_of_spans(ls@).take(j + 1) =~= lines_of_spans(ls@).take(j as int).push(spans_of(ls@[j as int]@)));
                        assert(lines_of_spans(all@) =~= mid.push(spans_of(ls@[j as int]@)));
                        j = j + 1;
                    }
                    assert(lines_of_spans(ls@).take(ls@.len() as int) =~= lines_of_spans(ls@));
                },
            }
            p = p + 1;
        }
        let n = all.len();
        let start: usize = if skip < n { skip } else { n };
        let end: usize = if take < n - start { start + take } else { n };
        let mut out: Vec<Vec<Span>> = Vec::new();
        let mut i: usize = start;
        while i < end
            invariant
                start <= i <= end,
                end <= n,
                n == all@.len(),
                lines_of_spans(out@) == lines_of_spans(all@).subrange(start as int, i as int),
            decreases end - i,
        {
            let ghost mid = lines_of_spans(out@);
            out.push(copy_spans(&all[i]));
            assert(lines_of_spans(all@)[i as int] == spans_of(all@[i as int]@));
            assert(lines_of_spans(out@) =~= mid.push(spans_of(all@[i as int]@)));
            assert(lines_of_spans(out@) =~= lines_of_spans(all@).subrange(start as int, i + 1));
            i = i + 1;
        }
        out
    }
}

} // verus!
