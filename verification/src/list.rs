//! What one frame of an issue list shows: the rows in view, scrolled so the
//! cursor stays visible — with its group's header when it is the group's
//! first issue — or, for an empty list, the message that says why.

use vstd::prelude::*;
use crate::entity::{Issue, Preset};
use crate::grouping::GroupBy;
use crate::look::Color;
use crate::markdown::{lines_of_spans, sat_sub, spans_of, str_width, text_cells, Run, Span};
use crate::row::{group_line, group_line_spans, issue_line, issue_line_spans, Columns, RowState};
use crate::text::push_str;

verus! {

/// One row of a grouped list: a group's header, or an issue (by its place
/// in the list's issues) nested `depth` deep.
#[derive(Debug, Clone, PartialEq, Eq)]
pub enum ListRow {
    Group { label: String, color: Color, glyph: String, count: usize, collapsed: bool },
    Issue { ordinal: usize, depth: u8 },
}

/// The frame of an issue list: the lines drawn, the place of the first row
/// in view, how many issues the cursor can reach, and the message an empty
/// list shows instead of rows.
pub struct ListFrame {
    pub lines: Vec<Vec<Span>>,
    pub offset: usize,
    pub count: usize,
    pub message: Option<String>,
}

/// Why a list is empty: still loading, filtered to nothing, a preset that
/// hides issues, or none at all.
pub open spec fn empty_message(loading: bool, spinner: Seq<char>, filtered: bool, preset: Preset) -> Seq<char> {
    if loading {
        spinner + " Loading issues\u{2026}"@
    } else if filtered {
        "No issues match the current filter"@
    } else if preset != Preset::All {
        "No "@ + (if preset == Preset::Active { "active"@ } else { "backlog"@ })
            + " issues \u{2014} Shift+Tab or g e shows all issues"@
    } else {
        "No issues"@
    }
}

/// The first row at or after `k` that is the issue at `ordinal`.
pub open spec fn row_of(rows: Seq<ListRow>, ordinal: usize, k: int) -> Option<int>
    decreases rows.len() - k,
{
    if k < 0 || k >= rows.len() {
        None
    } else if rows[k] == (ListRow::Issue { ordinal, depth: rows[k]->depth }) && rows[k] is Issue {
        Some(k)
    } else {
        row_of(rows, ordinal, k + 1)
    }
}

/// The first row in view: moved just far enough to show the cursor's row
/// — and the group header right above it — then kept inside the list.
pub open spec fn scrolled(rows: Seq<ListRow>, sel: Option<int>, offset: nat, height: nat) -> nat {
    let moved = match sel {
        Some(s) => {
            let top = if s > 0 && rows[s - 1] is Group { s - 1 } else { s };
            if top < offset {
                top as nat
            } else if height > 0 && s >= offset + height {
                (s + 1 - height) as nat
            } else {
                offset
            }
        },
        None => offset,
    };
    let most = sat_sub(rows.len(), height);
    if moved < most { moved } else { most }
}

/// The widest identifier among the first `k` issues, in cells.
pub open spec fn widest_id(issues: Seq<Issue>, k: nat) -> nat
    decreases k,
{
    if k == 0 {
        0
    } else {
        let w = text_cells(issues[k - 1].identifier@) as nat;
        let rest = widest_id(issues, (k - 1) as nat);
        if w > rest { w } else { rest }
    }
}

/// The identifier column's width: the widest identifier, six when there
/// are none, never more than ten.
pub open spec fn id_column(issues: Seq<Issue>) -> nat {
    let w = if issues.len() == 0 { 6 } else { widest_id(issues, issues.len()) };
    if w < 10 { w } else { 10 }
}

/// The optional columns a list offers: no project column inside a project
/// or grouped by project, no assignee column grouped by assignee.
pub open spec fn list_columns(in_project: bool, by: GroupBy) -> Columns {
    Columns { project: !in_project && by != GroupBy::Project, assignee: by != GroupBy::Assignee }
}

/// How row `r` is drawn.
pub open spec fn row_spans(rows: Seq<ListRow>, issues: Seq<Issue>, r: int, sel: Option<int>, width: nat, columns: Columns) -> Seq<Run> {
    match rows[r] {
        ListRow::Group { label, color, glyph, count, collapsed } => group_line_spans(
            label@,
            color,
            glyph@,
            count as nat,
            collapsed,
            width,
        ),
        ListRow::Issue { ordinal, depth } => if ordinal < issues.len() {
            issue_line_spans(
                issues[ordinal as int],
                RowState { depth, selected: sel == Some(r) },
                id_column(issues),
                width,
                columns,
            )
        } else {
            Seq::empty()
        },
    }
}

/// The lines of the rows in view, from `from` on, `n` of them.
pub open spec fn window(rows: Seq<ListRow>, issues: Seq<Issue>, from: nat, n: nat, sel: Option<int>, width: nat, columns: Columns) -> Seq<Seq<Run>> {
    Seq::new(n, |i: int| row_spans(rows, issues, from + i, sel, width, columns))
}

/// How many rows a frame `height` tall shows from `offset` on.
pub open spec fn shown(len: nat, offset: nat, height: nat) -> nat {
    let left = sat_sub(len, offset);
    if left < height { left } else { height }
}

fn first_row(rows: &[ListRow], ordinal: usize) -> (r: Option<usize>)
    ensures
        match r {
            Some(i) => row_of(rows@, ordinal, 0) == Some(i as int) && i < rows@.len(),
            None => row_of(rows@, ordinal, 0) is None,
        },
{
    let mut k: usize = 0;
    while k < rows.len()
        invariant
            k <= rows@.len(),
            row_of(rows@, ordinal, 0) == row_of(rows@, ordinal, k as int),
        decreases rows@.len() - k,
    {
        match &rows[k] {
            ListRow::Issue { ordinal: o, depth } => {
                if *o == ordinal {
                    return Some(k);
                }
            },
            ListRow::Group { .. } => {},
        }
        k = k + 1;
    }
    None
}

fn scroll(rows: &[ListRow], sel: Option<usize>, offset: usize, height: usize) -> (o: usize)
    requires
        match sel {
            Some(s) => s < rows@.len(),
            None => true,
        },
    ensures
        o as nat == scrolled(
            rows@,
            match sel {
                Some(s) => Some(s as int),
                None => None,
            },
            offset as nat,
            height as nat,
        ),
{
    let mut moved = offset;
    if let Some(s) = sel {
        let top = if s > 0 && matches!(rows[s - 1], ListRow::Group { .. }) { s - 1 } else { s };
        if top < offset {
            moved = top;
        } else if height > 0 && s >= offset && s - offset >= height {
            moved = s + 1 - height;
        }
    }
    let most: usize = if rows.len() > height { rows.len() - height } else { 0 };
    if moved < most { moved } else { most }
}

fn id_width(issues: &[Issue]) -> (w: usize)
    ensures
        w as nat == id_column(issues@),
{
    if issues.len() == 0 {
        return 6;
    }
    let mut widest: usize = 0;
    let mut k: usize = 0;
    while k < issues.len()
        invariant
            k <= issues@.len(),
            widest as nat == widest_id(issues@, k as nat),
        decreases issues@.len() - k,
    {
        let w = str_width(issues[k].identifier.as_str());
        if w > widest {
            widest = w;
        }
        k = k + 1;
    }
    if widest < 10 { widest } else { 10 }
}

fn draw_row(rows: &[ListRow], issues: &[Issue], r: usize, sel: Option<usize>, width: usize, columns: Columns, idw: usize) -> (line: Vec<Span>)
    requires
        r < rows@.len(),
        idw as nat == id_column(issues@),
    ensures
        spans_of(line@) == row_spans(
            rows@,
            issues@,
            r as int,
            match sel {
                Some(s) => Some(s as int),
                None => None,
            },
            width as nat,
            columns,
        ),
{
    match &rows[r] {
        ListRow::Group { label, color, glyph, count, collapsed } => group_line(
            label.as_str(),
            *color,
            glyph.as_str(),
            *count,
            *collapsed,
            width,
        ),
        ListRow::Issue { ordinal, depth } => {
            if *ordinal < issues.len() {
                let selected = match sel {
                    Some(s) => s == r,
                    None => false,
                };
                issue_line(&issues[*ordinal], RowState { depth: *depth, selected }, idw, width, columns)
            } else {
                let line: Vec<Span> = Vec::new();
                assert(spans_of(line@) =~= Seq::<Run>::empty());
                line
            }
        },
    }
}

/// One frame of an issue list `width` cells wide and `height` rows tall,
/// with the cursor on the issue at `selected` and the list scrolled to
/// `offset` on the last frame. An empty list shows why instead.
pub fn issue_list_frame(
    rows: &[ListRow],
    issues: &[Issue],
    selected: usize,
    offset: usize,
    height: usize,
    width: usize,
    in_project: bool,
    by: GroupBy,
    loading: bool,
    spinner: &str,
    filtered: bool,
    preset: Preset,
) -> (f: ListFrame)
    ensures
        f.count == issues@.len(),
        rows@.len() == 0 ==> f.lines@.len() == 0 && f.offset == offset && f.message is Some && f.message->0@
            == empty_message(loading, spinner@, filtered, preset),
        rows@.len() > 0 ==> {
            let sel = row_of(rows@, selected, 0);
            &&& f.message is None
            &&& f.offset as nat == scrolled(rows@, sel, offset as nat, height as nat)
            &&& lines_of_spans(f.lines@) == window(
                rows@,
                issues@,
                f.offset as nat,
                shown(rows@.len(), f.offset as nat, height as nat),
                sel,
                width as nat,
                list_columns(in_project, by),
            )
        },
{
    if rows.len() == 0 {
        let mut m = String::new();
        if loading {
            push_str(&mut m, spinner);
            push_str(&mut m, " Loading issues\u{2026}");
        } else if filtered {
            push_str(&mut m, "No issues match the current filter");
        } else if preset != Preset::All {
            push_str(&mut m, "No ");
            push_str(&mut m, if preset == Preset::Active { "active" } else { "backlog" });
            push_str(&mut m, " issues \u{2014} Shift+Tab or g e shows all issues");
        } else {
            push_str(&mut m, "No issues");
        }
        return ListFrame { lines: Vec::new(), offset, count: issues.len(), message: Some(m) };
    }
    let sel = first_row(rows, selected);
    let top = scroll(rows, sel, offset, height);
    let idw = id_width(issues);
    let columns = Columns { project: !in_project && by != GroupBy::Project, assignee: by != GroupBy::Assignee };
    let len = rows.len();
    let left: usize = len - top;
    let n: usize = if left < height { left } else { height };
    let ghost gsel = match sel {
        Some(s) => Some(s as int),
        None => None::<int>,
    };
    let ghost want = window(rows@, issues@, top as nat, n as nat, gsel, width as nat, columns);
    let mut lines: Vec<Vec<Span>> = Vec::new();
    let mut i: usize = 0;
    while i < n
        invariant
            i <= n,
            top + n <= len,
            len == rows@.len(),
            idw as nat == id_column(issues@),
            want == window(rows@, issues@, top as nat, n as nat, gsel, width as nat, columns),
            gsel == match sel {
                Some(s) => Some(s as int),
                None => None::<int>,
            },
            lines_of_spans(lines@) == want.take(i as int),
        decreases n - i,
    {
        let line = draw_row(rows, issues, top + i, sel, width, columns, idw);
        let ghost prev = lines_of_spans(lines@);
        lines.push(line);
        assert(lines_of_spans(lines@) =~= prev.push(want[i as int]));
        assert(want.take(i + 1) =~= want.take(i as int).push(want[i as int]));
        i = i + 1;
    }
    assert(want.take(n as int) =~= want);
    ListFrame { lines, offset: top, count: issues.len(), message: None }
}

} // verus!
