//! What one frame of a Views page shows: personal views above shared ones,
//! each scope under a caption, each view with its description and owner,
//! scrolled to keep the cursor in view; or, when there are none, why.

use vstd::prelude::*;
use crate::entity::CustomView;
use crate::grouping::assignee_name;
use crate::look::{hex_color, hex_color_spec, Color, Role};
use crate::markdown::{lines_of_spans, plain, plain_style, repeated, sat_add, sat_sub, span_cells, spaces, spans_cells, spans_of, str_width, text_cells, Run, Span, Style};
use crate::row::on_selection;
use crate::text::push_str;
use crate::widgets::{fg, fg_style, themed, themed_style, truncate, truncated};

verus! {

/// Which views a Views page lists.
#[derive(Debug, Clone, Copy, PartialEq, Eq, Structural)]
pub enum ViewKind {
    Issues,
    Projects,
}

/// The frame of a Views page: its lines, the view each line opens (none
/// for a caption or a blank), the first row in view, and the message shown
/// instead of rows when there are none.
pub struct ViewsFrame {
    pub lines: Vec<Vec<Span>>,
    pub targets: Vec<Option<usize>>,
    pub offset: usize,
    pub message: Option<String>,
}

/// Why a Views page is empty.
pub open spec fn no_views_message(loaded: bool, kind: ViewKind) -> Seq<char> {
    if !loaded {
        "Loading views\u{2026}"@
    } else if kind == ViewKind::Issues {
        "No issue views here \u{2014} Shift+Tab shows project views"@
    } else {
        "No project views here \u{2014} Shift+Tab shows issue views"@
    }
}

/// A style on the caption's background.
pub open spec fn on_surface(s: Style) -> Style {
    Style { bg: Some(Color::Themed(Role::Surface)), ..s }
}

/// The caption over a scope: its title in bold, a note on who sees it,
/// blanks to the edge, all on the caption's background.
pub open spec fn caption(shared: bool, scope: Seq<char>, team_page: bool, width: nat) -> Seq<Run> {
    let title = if shared { scope } else { "Personal views"@ };
    let note = if !shared {
        "Only visible to you"@
    } else if team_page {
        "Shared with the team"@
    } else {
        "Shared with everyone"@
    };
    let head = seq![
        (" "@ + title, on_surface(Style { bold: true, ..themed(Role::Text) })),
        (" \u{00b7} "@ + note, on_surface(themed(Role::Muted))),
    ];
    head.push((spaces(sat_sub(width, spans_cells(head, 2))), on_surface(plain_style())))
}

/// The colour of a view: the one Linear gave it, if it reads as one, else
/// the accent colour.
pub open spec fn view_color(color: Option<String>) -> Color {
    match color {
        Some(hex) => match hex_color_spec(hex@) {
            Some((r, g, b)) => Color::Rgb(r, g, b),
            None => Color::Themed(Role::Accent),
        },
        None => Color::Themed(Role::Accent),
    }
}

/// What a view's owner goes by, nothing where none is known.
pub open spec fn owner_name(view: CustomView) -> Seq<char> {
    match view.owner {
        Some(u) => assignee_name(u),
        None => Seq::empty(),
    }
}

/// One view's line: the cursor's bar, its icon in its colour, its name,
/// its description with the room left, and its owner at the right edge.
pub open spec fn view_line(view: CustomView, kind: ViewKind, selected: bool, width: nat) -> Seq<Run> {
    let icon = if kind == ViewKind::Issues { "\u{2261}"@ } else { "\u{25a3}"@ };
    let right = truncated(owner_name(view), 18) + " "@;
    let rw = text_cells(right) as nat;
    let name = truncated(view.name@, sat_sub(width, sat_add(rw, 6)));
    let room = sat_sub(width, sat_add(sat_add(sat_add(6, text_cells(name) as nat), rw), 3));
    let desc = match view.description {
        Some(d) => if d@.len() > 0 { "  "@ + truncated(d@, room) } else { Seq::empty() },
        None => Seq::empty(),
    };
    let used = sat_add(sat_add(sat_add(4, text_cells(name) as nat), text_cells(desc) as nat), rw);
    let spans = seq![
        if selected { ("\u{258c}"@, themed(Role::Accent)) } else { (" "@, plain_style()) },
        (" "@ + icon + " "@, fg(view_color(view.color))),
        (name, Style { bold: selected, ..themed(Role::Text) }),
        (desc, themed(Role::Muted)),
        (spaces(sat_sub(width, used)), plain_style()),
        (right, themed(Role::TextDim)),
    ];
    if selected { on_selection(spans) } else { spans }
}

/// The rows of the first `k` views: a caption where the scope changes (a
/// blank before every caption but the first), then the view's line.
pub open spec fn view_rows(
    views: Seq<CustomView>,
    kind: ViewKind,
    scope: Seq<char>,
    team_page: bool,
    selected: nat,
    width: nat,
    k: nat,
) -> Seq<(Seq<Run>, Option<nat>)>
    decreases k,
{
    if k == 0 {
        Seq::empty()
    } else {
        let p = (k - 1) as nat;
        let before = view_rows(views, kind, scope, team_page, selected, width, p);
        let v = views[p as int];
        let head = if p == 0 || views[p - 1].shared != v.shared {
            (if p > 0 { seq![(Seq::<Run>::empty(), None::<nat>)] } else { Seq::empty() }) + seq![(
                caption(v.shared, scope, team_page, width),
                None::<nat>,
            )]
        } else {
            Seq::empty()
        };
        before + head + seq![(view_line(v, kind, p == selected, width), Some(p))]
    }
}

/// The first of `rows` that opens view `selected`, the top when none does.
pub open spec fn target_row(rows: Seq<(Seq<Run>, Option<nat>)>, selected: nat, k: int) -> nat
    decreases rows.len() - k,
{
    if k < 0 || k >= rows.len() {
        0
    } else if rows[k].1 == Some(selected) {
        k as nat
    } else {
        target_row(rows, selected, k + 1)
    }
}

/// The first row in view: moved to keep the cursor's row visible (with the
/// row above it when scrolling up), then kept inside the rows.
pub open spec fn views_offset(len: nat, sel: nat, offset: nat, height: nat) -> nat {
    let moved = if sel < offset {
        sat_sub(sel, 1)
    } else if height > 0 && sel >= offset + height {
        (sel + 1 - height) as nat
    } else {
        offset
    };
    let most = sat_sub(len, height);
    if moved < most { moved } else { most }
}

fn surface_style(s: Style) -> (t: Style)
    ensures
        t == on_surface(s),
{
    Style { bg: Some(Color::Themed(Role::Surface)), ..s }
}

fn caption_line(shared: bool, scope: &str, team_page: bool, width: usize) -> (line: Vec<Span>)
    ensures
        spans_of(line@) == caption(shared, scope@, team_page, width as nat),
{
    let mut title = String::new();
    push_str(&mut title, " ");
    if shared {
        push_str(&mut title, scope);
    } else {
        push_str(&mut title, "Personal views");
    }
    let mut note = String::new();
    push_str(&mut note, " \u{00b7} ");
    if !shared {
        push_str(&mut note, "Only visible to you");
    } else if team_page {
        push_str(&mut note, "Shared with the team");
    } else {
        push_str(&mut note, "Shared with everyone");
    }
    let bold = Style { fg: Some(Color::Themed(Role::Text)), bg: None, bold: true, italic: false, crossed_out: false, underlined: false };
    let mut line: Vec<Span> = Vec::new();
    line.push(Span { content: title, style: surface_style(bold) });
    line.push(Span { content: note, style: surface_style(themed_style(Role::Muted)) });
    let used = span_cells(&line);
    let blanks: usize = if width > used { width - used } else { 0 };
    let ghost head = spans_of(line@);
    proof {
        let t = if shared { scope@ } else { "Personal views"@ };
        let n = if !shared {
            "Only visible to you"@
        } else if team_page {
            "Shared with the team"@
        } else {
            "Shared with everyone"@
        };
        assert(head =~= seq![
            (" "@ + t, on_surface(Style { bold: true, ..themed(Role::Text) })),
            (" \u{00b7} "@ + n, on_surface(themed(Role::Muted))),
        ]);
    }
    line.push(Span { content: repeated(' ', blanks), style: surface_style(plain()) });
    assert(Seq::new(blanks as nat, |i: int| ' ') =~= spaces(blanks as nat));
    assert(spans_of(line@) =~= head.push((spaces(blanks as nat), on_surface(plain_style()))));
    assert(spans_of(line@) =~= caption(shared, scope@, team_page, width as nat));
    line
}

fn selected_all(spans: Vec<Span>) -> (out: Vec<Span>)
    ensures
        spans_of(out@) == on_selection(spans_of(spans@)),
{
    let mut out: Vec<Span> = Vec::new();
    let mut k: usize = 0;
    while k < spans.len()
        invariant
            k <= spans@.len(),
            spans_of(out@) == on_selection(spans_of(spans@)).take(k as int),
        decreases spans@.len() - k,
    {
        let s = &spans[k];
        let style = Style { bg: Some(Color::Themed(Role::Selection)), ..s.style };
        let ghost before = spans_of(out@);
        out.push(Span { content: s.content.clone(), style });
        assert(spans_of(out@) =~= before.push((spans@[k as int].content@, style)));
        assert(on_selection(spans_of(spans@)).take(k + 1) =~= on_selection(spans_of(spans@)).take(k as int).push(
            (spans@[k as int].content@, style),
        ));
        k = k + 1;
    }
    assert(on_selection(spans_of(spans@)).take(spans@.len() as int) =~= on_selection(spans_of(spans@)));
    out
}

#[verifier::rlimit(40)]
fn view_line_spans(view: &CustomView, kind: ViewKind, selected: bool, width: usize) -> (line: Vec<Span>)
    ensures
        spans_of(line@) == view_line(*view, kind, selected, width as nat),
{
    let mut right = match &view.owner {
        Some(u) => truncate(crate::show::user_name(u), 18),
        None => {
            let t = truncate("", 18);
            proof {
                reveal_strlit("");
                assert(""@ =~= Seq::<char>::empty());
            }
            t
        },
    };
    assert(right@ == truncated(owner_name(*view), 18));
    push_str(&mut right, " ");
    let rw = str_width(right.as_str());
    let rw6: usize = if rw <= usize::MAX - 6 { rw + 6 } else { usize::MAX };
    let name = truncate(view.name.as_str(), if width > rw6 { width - rw6 } else { 0 });
    let nw = str_width(name.as_str());
    let a: usize = if nw <= usize::MAX - 6 { nw + 6 } else { usize::MAX };
    let b: usize = if a <= usize::MAX - rw { a + rw } else { usize::MAX };
    let c: usize = if b <= usize::MAX - 3 { b + 3 } else { usize::MAX };
    let room: usize = if width > c { width - c } else { 0 };
    let mut desc = String::new();
    if let Some(d) = &view.description {
        if !d.as_str().is_empty() {
            push_str(&mut desc, "  ");
            let cut = truncate(d.as_str(), room);
            push_str(&mut desc, cut.as_str());
        } else {
            proof {
                assert(d@.len() == 0);
            }
        }
    }
    let dw = str_width(desc.as_str());
    let u1: usize = if nw <= usize::MAX - 4 { nw + 4 } else { usize::MAX };
    let u2: usize = if u1 <= usize::MAX - dw { u1 + dw } else { usize::MAX };
    let used: usize = if u2 <= usize::MAX - rw { u2 + rw } else { usize::MAX };
    let blanks: usize = if width > used { width - used } else { 0 };
    let color = match &view.color {
        Some(hex) => match hex_color(hex.as_str()) {
            Some((r, g, bl)) => Color::Rgb(r, g, bl),
            None => Color::Themed(Role::Accent),
        },
        None => Color::Themed(Role::Accent),
    };
    let mut icon = String::new();
    push_str(&mut icon, " ");
    push_str(&mut icon, if kind == ViewKind::Issues { "\u{2261}" } else { "\u{25a3}" });
    push_str(&mut icon, " ");
    let mut mark = String::new();
    push_str(&mut mark, if selected { "\u{258c}" } else { " " });
    let mut line: Vec<Span> = Vec::new();
    line.push(Span { content: mark, style: if selected { themed_style(Role::Accent) } else { plain() } });
    line.push(Span { content: icon, style: fg_style(color) });
    line.push(Span {
        content: name,
        style: Style { fg: Some(Color::Themed(Role::Text)), bg: None, bold: selected, italic: false, crossed_out: false, underlined: false },
    });
    line.push(Span { content: desc, style: themed_style(Role::Muted) });
    line.push(Span { content: repeated(' ', blanks), style: plain() });
    line.push(Span { content: right, style: themed_style(Role::TextDim) });
    assert(Seq::new(blanks as nat, |i: int| ' ') =~= spaces(blanks as nat));
    let ghost plainly = spans_of(line@);
    proof {
        let owner = owner_name(*view);
        assert(right@ == truncated(owner, 18) + " "@);
        assert(plainly =~= seq![
            if selected { ("\u{258c}"@, themed(Role::Accent)) } else { (" "@, plain_style()) },
            (" "@ + (if kind == ViewKind::Issues { "\u{2261}"@ } else { "\u{25a3}"@ }) + " "@, fg(view_color(view.color))),
            (spans_of(line@)[2].0, Style { bold: selected, ..themed(Role::Text) }),
            (spans_of(line@)[3].0, themed(Role::Muted)),
            (spaces(blanks as nat), plain_style()),
            (truncated(owner, 18) + " "@, themed(Role::TextDim)),
        ]);
    }
    if selected {
        selected_all(line)
    } else {
        line
    }
}

/// One frame of a Views page `width` cells wide and `height` rows tall:
/// `views` in the order listed, the cursor on the view at `selected`, and
/// the page scrolled to `offset` on the last frame. `scope` titles the
/// shared views: the team's name on a team's page, else the workspace.
#[verifier::rlimit(60)]
pub fn view_list_frame(
    views: &[CustomView],
    loaded: bool,
    kind: ViewKind,
    scope: &str,
    team_page: bool,
    selected: usize,
    offset: usize,
    height: usize,
    width: usize,
) -> (f: ViewsFrame)
    ensures
        views@.len() == 0 ==> f.lines@.len() == 0 && f.targets@.len() == 0 && f.offset == offset && f.message is Some
            && f.message->0@ == no_views_message(loaded, kind),
        views@.len() > 0 ==> {
            let rows = view_rows(views@, kind, scope@, team_page, selected as nat, width as nat, views@.len());
            let top = views_offset(rows.len(), target_row(rows, selected as nat, 0), offset as nat, height as nat);
            let n = if sat_sub(rows.len(), top) < height { sat_sub(rows.len(), top) } else { height as nat };
            &&& f.message is None
            &&& f.offset as nat == top
            &&& lines_of_spans(f.lines@) == Seq::new(n, |i: int| rows[top + i].0)
            &&& f.targets@.len() == n
            &&& forall|i: int| 0 <= i < n ==> match #[trigger] f.targets@[i] {
                Some(t) => rows[top + i].1 == Some(t as nat),
                None => rows[top + i].1 is None,
            }
        },
{
    if views.len() == 0 {
        let mut m = String::new();
        if !loaded {
            push_str(&mut m, "Loading views\u{2026}");
        } else if kind == ViewKind::Issues {
            push_str(&mut m, "No issue views here \u{2014} Shift+Tab shows project views");
        } else {
            push_str(&mut m, "No project views here \u{2014} Shift+Tab shows issue views");
        }
        return ViewsFrame { lines: Vec::new(), targets: Vec::new(), offset, message: Some(m) };
    }
    let ghost rs = view_rows(views@, kind, scope@, team_page, selected as nat, width as nat, views@.len());
    let mut lines: Vec<Vec<Span>> = Vec::new();
    let mut targets: Vec<Option<usize>> = Vec::new();
    let mut p: usize = 0;
    while p < views.len()
        invariant
            p <= views@.len(),
            lines@.len() == targets@.len(),
            lines_of_spans(lines@) == view_rows(views@, kind, scope@, team_page, selected as nat, width as nat, p as nat).map_values(
                |r: (Seq<Run>, Option<nat>)| r.0,
            ),
            forall|i: int| 0 <= i < targets@.len() ==> match #[trigger] targets@[i] {
                Some(t) => view_rows(views@, kind, scope@, team_page, selected as nat, width as nat, p as nat)[i].1
                    == Some(t as nat),
                None => view_rows(views@, kind, scope@, team_page, selected as nat, width as nat, p as nat)[i].1 is None,
            },
            lines@.len() == view_rows(views@, kind, scope@, team_page, selected as nat, width as nat, p as nat).len(),
        decreases views@.len() - p,
    {
        let ghost before = view_rows(views@, kind, scope@, team_page, selected as nat, width as nat, p as nat);
        let ghost old_targets = targets@;
        let ghost old_lines = lines_of_spans(lines@);
        let v = &views[p];
        let fresh = p == 0 || views[p - 1].shared != v.shared;
        let ghost hd: Seq<(Seq<Run>, Option<nat>)> = if fresh {
            (if p > 0 { seq![(Seq::<Run>::empty(), None::<nat>)] } else { Seq::empty() }) + seq![(
                caption(v.shared, scope@, team_page, width as nat),
                None::<nat>,
            )]
        } else {
            Seq::empty()
        };
        if fresh {
            if p > 0 {
                let e: Vec<Span> = Vec::new();
                assert(spans_of(e@) =~= Seq::<Run>::empty());
                lines.push(e);
                targets.push(None);
            }
            lines.push(caption_line(v.shared, scope, team_page, width));
            targets.push(None);
        }
        assert(lines_of_spans(lines@) =~= old_lines + hd.map_values(|r: (Seq<Run>, Option<nat>)| r.0));
        let ghost mid_lines = lines_of_spans(lines@);
        let vl = view_line_spans(v, kind, p == selected, width);
        let ghost vls = spans_of(vl@);
        lines.push(vl);
        targets.push(Some(p));
        proof {
            let after = view_rows(views@, kind, scope@, team_page, selected as nat, width as nat, (p + 1) as nat);
            assert(after == before + hd + seq![(vls, Some(p as nat))]);
            assert(lines_of_spans(lines@) =~= mid_lines.push(vls));
            assert(after.map_values(|r: (Seq<Run>, Option<nat>)| r.0) =~= before.map_values(
                |r: (Seq<Run>, Option<nat>)| r.0,
            ) + hd.map_values(|r: (Seq<Run>, Option<nat>)| r.0) + seq![vls]);
            assert(lines_of_spans(lines@) =~= after.map_values(|r: (Seq<Run>, Option<nat>)| r.0));
            assert forall|i: int| 0 <= i < targets@.len() implies match #[trigger] targets@[i] {
                Some(t) => after[i].1 == Some(t as nat),
                None => after[i].1 is None,
            } by {
                if i < old_targets.len() {
                    assert(targets@[i] == old_targets[i]);
                    assert(after[i] == before[i]);
                } else if i < old_targets.len() + hd.len() {
                    assert(after[i] == hd[i - before.len()]);
                }
            }
        }
        p = p + 1;
    }
    let len = lines.len();
    assert(rs.len() == len);
    let sel = find_target(&targets, selected, Ghost(rs));
    let moved: usize = if sel < offset {
        if sel > 0 { sel - 1 } else { 0 }
    } else if height > 0 && sel - offset >= height {
        sel + 1 - height
    } else {
        offset
    };
    let most: usize = if len > height { len - height } else { 0 };
    let top: usize = if moved < most { moved } else { most };
    let left: usize = len - top;
    let n: usize = if left < height { left } else { height };
    let ghost want = Seq::new(n as nat, |i: int| rs[top + i].0);
    let mut out: Vec<Vec<Span>> = Vec::new();
    let mut shown_targets: Vec<Option<usize>> = Vec::new();
    let mut i: usize = 0;
    while i < n
        invariant
            i <= n,
            top + n <= len,
            len == lines@.len(),
            len == targets@.len(),
            len == rs.len(),
            lines_of_spans(lines@) == rs.map_values(|r: (Seq<Run>, Option<nat>)| r.0),
            forall|j: int| 0 <= j < targets@.len() ==> match #[trigger] targets@[j] {
                Some(t) => rs[j].1 == Some(t as nat),
                None => rs[j].1 is None,
            },
            want == Seq::new(n as nat, |i: int| rs[top + i].0),
            out@.len() == i,
            shown_targets@.len() == i,
            lines_of_spans(out@) == want.take(i as int),
            forall|j: int| 0 <= j < i ==> shown_targets@[j] == targets@[top + j],
        decreases n - i,
    {
        let line = clone_line(&lines[top + i]);
        let ghost prev = lines_of_spans(out@);
        out.push(line);
        assert(lines_of_spans(lines@)[top + i] == rs[top + i].0);
        assert(lines_of_spans(out@) =~= prev.push(want[i as int]));
        assert(want.take(i + 1) =~= want.take(i as int).push(want[i as int]));
        shown_targets.push(targets[top + i]);
        i = i + 1;
    }
    assert(want.take(n as int) =~= want);
    assert forall|j: int| 0 <= j < n implies match #[trigger] shown_targets@[j] {
        Some(t) => rs[top + j].1 == Some(t as nat),
        None => rs[top + j].1 is None,
    } by {
        assert(shown_targets@[j] == targets@[top + j]);
    }
    ViewsFrame { lines: out, targets: shown_targets, offset: top, message: None }
}

/// The first row that opens view `selected`, the top when none does.
fn find_target(targets: &Vec<Option<usize>>, selected: usize, rows: Ghost<Seq<(Seq<Run>, Option<nat>)>>) -> (r: usize)
    requires
        targets@.len() == rows@.len(),
        forall|i: int| 0 <= i < targets@.len() ==> match #[trigger] targets@[i] {
            Some(t) => rows@[i].1 == Some(t as nat),
            None => rows@[i].1 is None,
        },
    ensures
        r as nat == target_row(rows@, selected as nat, 0),
        r < targets@.len() || r == 0,
{
    let mut k: usize = 0;
    while k < targets.len()
        invariant
            k <= targets@.len(),
            targets@.len() == rows@.len(),
            forall|i: int| 0 <= i < targets@.len() ==> match #[trigger] targets@[i] {
                Some(t) => rows@[i].1 == Some(t as nat),
                None => rows@[i].1 is None,
            },
            target_row(rows@, selected as nat, 0) == target_row(rows@, selected as nat, k as int),
        decreases targets@.len() - k,
    {
        let hit = match targets[k] {
            Some(t) => t == selected,
            None => false,
        };
        if hit {
            return k;
        }
        assert(rows@[k as int].1 != Some(selected as nat));
        k = k + 1;
    }
    0
}

/// A copy of a line.
fn clone_line(line: &Vec<Span>) -> (out: Vec<Span>)
    ensures
        spans_of(out@) == spans_of(line@),
{
    let mut out: Vec<Span> = Vec::new();
    let mut k: usize = 0;
    while k < line.len()
        invariant
            k <= line@.len(),
            spans_of(out@) == spans_of(line@).take(k as int),
        decreases line@.len() - k,
    {
        let s = &line[k];
        let ghost before = spans_of(out@);
        out.push(Span { content: s.content.clone(), style: s.style });
        assert(spans_of(out@) =~= before.push(spans_of(line@)[k as int]));
        assert(spans_of(line@).take(k + 1) =~= spans_of(line@).take(k as int).push(spans_of(line@)[k as int]));
        k = k + 1;
    }
    assert(spans_of(line@).take(line@.len() as int) =~= spans_of(line@));
    out
}

} // verus!
