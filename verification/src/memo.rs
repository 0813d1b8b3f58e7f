//! Rendered Markdown kept from one frame to the next.
//!
//! The detail view renders the same sources in the same order on every frame
//! — the description, then each comment — and re-parsing and re-wrapping them
//! on each tick is most of what a long thread costs to draw. Each call is
//! matched against the call made at the same position on the last frame, and
//! its lines are reused only when everything they were rendered from is
//! equal. Nothing needs invalidating: any change to what would be drawn is a
//! miss, and re-renders that one entry.

use vstd::prelude::*;
use crate::look::Role;
use crate::markdown::{
    colored, in_color, lines_of_spans, plain, plain_style, render, rendered, repeated, sat_add, sat_sub,
    span_cells, spaces, spans_cells, spans_of, Run, Span,
};
use crate::text::same_text;

verus! {

/// A line inside a comment card, closed with the card's right edge `width`
/// cells from its start.
pub open spec fn card_line(line: Seq<Run>, width: nat) -> Seq<Run> {
    line + seq![
        (spaces(sat_sub(width, sat_add(spans_cells(line, line.len()), 1))), plain_style()),
        ("\u{2502}"@, colored(Role::Border)),
    ]
}

/// What rendering `source` draws: the Markdown as `render` lays it out, or,
/// inside a comment card `width` wide, laid out two cells narrower and each
/// line closed with the card's edge.
pub open spec fn drawn(source: Seq<char>, width: nat, gutter: Seq<Run>, card: bool) -> Seq<Seq<Run>> {
    if card {
        let lines = rendered(source, sat_sub(width, 2), gutter);
        Seq::new(lines.len(), |i: int| card_line(lines[i], width))
    } else {
        rendered(source, width, gutter)
    }
}

/// One rendering kept: what it was rendered from, and its lines.
struct MemoEntry {
    source: String,
    width: u16,
    gutter: Vec<Span>,
    card: bool,
    lines: Vec<Vec<Span>>,
}

impl MemoEntry {
    spec fn holds(&self) -> bool {
        lines_of_spans(self.lines@) == drawn(self.source@, self.width as nat, spans_of(self.gutter@), self.card)
    }
}

/// The renderings of the last frame, in the order they were asked for.
pub struct Memo {
    entries: Vec<MemoEntry>,
    next: usize,
}

impl Memo {
    /// Every entry holds what its inputs render to, and the frame has not
    /// run past the entries.
    pub closed spec fn wf(&self) -> bool {
        &&& self.next <= self.entries@.len()
        &&& forall|i: int| 0 <= i < self.entries@.len() ==> #[trigger] self.entries@[i].holds()
    }

    /// The position the next call of this frame is matched at.
    pub closed spec fn position(&self) -> nat {
        self.next as nat
    }

    /// How many renderings are kept.
    pub closed spec fn count(&self) -> nat {
        self.entries@.len()
    }

    /// The lines kept at position `i`.
    pub closed spec fn held(&self, i: int) -> Seq<Seq<Run>> {
        lines_of_spans(self.entries@[i].lines@)
    }

    /// A memo holding nothing.
    pub fn new() -> (memo: Self)
        ensures
            memo.wf(),
            memo.count() == 0,
            memo.position() == 0,
    {
        Memo { entries: Vec::new(), next: 0 }
    }

    /// Start a frame: calls are matched in order from the first entry again.
    pub fn begin(&mut self)
        requires
            old(self).wf(),
        ensures
            final(self).wf(),
            final(self).position() == 0,
            final(self).count() == old(self).count(),
            forall|i: int| 0 <= i < old(self).count() ==> #[trigger] final(self).held(i) == old(self).held(i),
    {
        self.next = 0;
    }

    /// End a frame, dropping whatever the frame did not render.
    pub fn finish(&mut self)
        requires
            old(self).wf(),
        ensures
            final(self).wf(),
            final(self).count() == old(self).position(),
            final(self).position() == old(self).position(),
            forall|i: int| 0 <= i < final(self).count() ==> #[trigger] final(self).held(i) == old(self).held(i),
    {
        self.entries.truncate(self.next);
    }

    /// Render `source` as `render` would — closed with the right edge of a
    /// comment card `width` wide when `card` is set — reusing the last
    /// frame's lines for an identical call. Returns the position holding
    /// them, for `lines`. What is held there is exactly what rendering
    /// afresh gives, whether it was reused or not.
    pub fn render(&mut self, source: &str, width: u16, gutter: &Vec<Span>, card: bool) -> (index: usize)
        requires
            old(self).wf(),
            old(self).position() < usize::MAX,
        ensures
            final(self).wf(),
            index == old(self).position(),
            final(self).position() == index + 1,
            final(self).count() == if index < old(self).count() { old(self).count() } else { old(self).count() + 1 },
            final(self).held(index as int) == drawn(source@, width as nat, spans_of(gutter@), card),
            forall|i: int|
                0 <= i < old(self).count() && i != index ==> #[trigger] final(self).held(i) == old(self).held(i),
    {
        let index = self.next;
        self.next = index + 1;
        let hit = if index < self.entries.len() {
            let e = &self.entries[index];
            e.width == width && e.card == card && same_text(e.source.as_str(), source) && same_spans(
                &e.gutter,
                gutter,
            )
        } else {
            false
        };
        if hit {
            proof {
                assert(self.entries@[index as int].holds());
            }
        } else {
            let lines = draw(source, width, gutter, card);
            let entry = MemoEntry {
                source: source.to_string(),
                width,
                gutter: copy_spans(gutter),
                card,
                lines,
            };
            if index < self.entries.len() {
                self.entries.set(index, entry);
            } else {
                self.entries.push(entry);
            }
        }
        index
    }

    /// The lines kept at position `entry`.
    pub fn lines(&self, entry: usize) -> (lines: &Vec<Vec<Span>>)
        requires
            entry < self.count(),
        ensures
            lines_of_spans(lines@) == self.held(entry as int),
    {
        &self.entries[entry].lines
    }
}

/// A well-formed memo has not run past its renderings.
pub proof fn lemma_position_within(memo: Memo)
    requires
        memo.wf(),
    ensures
        memo.position() <= memo.count(),
{
}

/// Whether two runs of spans say the same thing in the same styles.
fn same_spans(a: &Vec<Span>, b: &Vec<Span>) -> (r: bool)
    ensures
        r == (spans_of(a@) == spans_of(b@)),
{
    if a.len() != b.len() {
        proof {
            assert(spans_of(a@).len() != spans_of(b@).len());
        }
        return false;
    }
    let mut i: usize = 0;
    while i < a.len()
        invariant
            a@.len() == b@.len(),
            i <= a@.len(),
            forall|k: int| 0 <= k < i ==> #[trigger] spans_of(a@)[k] == spans_of(b@)[k],
        decreases a@.len() - i,
    {
        if !same_text(a[i].content.as_str(), b[i].content.as_str()) || a[i].style != b[i].style {
            proof {
                assert(spans_of(a@)[i as int] != spans_of(b@)[i as int]);
            }
            return false;
        }
        i = i + 1;
    }
    assert(spans_of(a@) =~= spans_of(b@));
    true
}

pub(crate) fn copy_spans(spans: &Vec<Span>) -> (out: Vec<Span>)
    ensures
        spans_of(out@) == spans_of(spans@),
{
    let mut out: Vec<Span> = Vec::new();
    let mut i: usize = 0;
    while i < spans.len()
        invariant
            i <= spans@.len(),
            out@.len() == i,
            forall|k: int| 0 <= k < i ==> #[trigger] out@[k].content@ == spans@[k].content@ && out@[k].style == spans@[k].style,
        decreases spans@.len() - i,
    {
        out.push(Span { content: spans[i].content.clone(), style: spans[i].style });
        i = i + 1;
    }
    assert(spans_of(out@) =~= spans_of(spans@));
    out
}

/// Close `line` with the right edge of a card `width` wide.
pub(crate) fn close_card_line(line: &mut Vec<Span>, width: usize)
    ensures
        spans_of(final(line)@) == card_line(spans_of(old(line)@), width as nat),
{
    let used = span_cells(line);
    let inner: usize = if used < usize::MAX { used + 1 } else { usize::MAX };
    let pad: usize = if width > inner { width - inner } else { 0 };
    line.push(Span { content: repeated(' ', pad), style: plain() });
    line.push(Span { content: "\u{2502}".to_string(), style: in_color(Role::Border) });
    proof {
        assert(Seq::new(pad as nat, |i: int| ' ') =~= spaces(pad as nat));
    }
    assert(spans_of(line@) =~= card_line(spans_of(old(line)@), width as nat));
}

/// Render `source` for the detail view, inside a comment card when `card` is
/// set.
fn draw(source: &str, width: u16, gutter: &Vec<Span>, card: bool) -> (lines: Vec<Vec<Span>>)
    ensures
        lines_of_spans(lines@) == drawn(source@, width as nat, spans_of(gutter@), card),
{
    if !card {
        return render(source, width, gutter);
    }
    let inner: u16 = if width > 2 { width - 2 } else { 0 };
    let rendered_lines = render(source, inner, gutter);
    let ghost ls = lines_of_spans(rendered_lines@);
    let mut out: Vec<Vec<Span>> = Vec::new();
    let mut i: usize = 0;
    while i < rendered_lines.len()
        invariant
            i <= rendered_lines@.len(),
            ls == lines_of_spans(rendered_lines@),
            out@.len() == i,
            forall|k: int| 0 <= k < i ==> #[trigger] spans_of(out@[k]@) == card_line(ls[k], width as nat),
        decreases rendered_lines@.len() - i,
    {
        let mut line = copy_spans(&rendered_lines[i]);
        assert(spans_of(rendered_lines@[i as int]@) == ls[i as int]);
        close_card_line(&mut line, width as usize);
        out.push(line);
        i = i + 1;
    }
    assert(lines_of_spans(out@) =~= drawn(source@, width as nat, spans_of(gutter@), card));
    out
}

impl Default for Memo {
    fn default() -> (memo: Self)
        ensures
            memo.wf(),
            memo.count() == 0,
            memo.position() == 0,
    {
        Memo::new()
    }
}

} // verus!
