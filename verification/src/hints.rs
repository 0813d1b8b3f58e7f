//! The hints the status bar shows for where a key is pressed: each hint is
//! attached to a binding and shows in some of its contexts; the bar lists a
//! context's hints by rank, lowest first, ties in the order of the table.

use vstd::prelude::*;

verus! {

/// Where a key is pressed.
#[derive(Debug, Clone, Copy, PartialEq, Eq, Structural)]
pub enum Ctx {
    IssueList,
    IssueDetail,
    ProjectList,
    ProjectDetail,
    CycleList,
    CycleDetail,
    ViewList,
    /// The navigation sidebar has focus.
    Sidebar,
    /// A `g` is pending; the next key finishes the chord.
    GoTo,
    Search,
    Comment,
    IssueTitle,
    IssueDescription,
    IssuePriority,
}

/// A status-bar hint: the keys, what they do, and where on the bar it sits.
#[derive(Debug, Clone, Copy, PartialEq, Eq)]
pub struct Hint {
    /// Position on the status bar, lowest first; ties keep table order.
    pub rank: u8,
    pub keys: &'static str,
    pub what: &'static str,
}

/// How many hints the binding table carries.
pub const HINT_ROWS: usize = 32;

/// The hint on row `k` of the binding table, in table order.
pub open spec fn table_hint(k: usize) -> Hint {
    match k {
        0 => Hint { rank: 75, keys: "j/k", what: "move" },
        1 => Hint { rank: 10, keys: "Enter", what: "open" },
        2 => Hint { rank: 76, keys: "Enter", what: "open" },
        3 => Hint { rank: 1, keys: "Esc", what: "back" },
        4 => Hint { rank: 2, keys: "J/K", what: "next/prev" },
        5 => Hint { rank: 80, keys: "Tab", what: "sidebar" },
        6 => Hint { rank: 80, keys: "Tab", what: "content" },
        7 => Hint { rank: 85, keys: "^B", what: "hide" },
        8 => Hint { rank: 77, keys: "h/l", what: "fold" },
        9 => Hint { rank: 0, keys: "a", what: "active" },
        10 => Hint { rank: 0, keys: "b", what: "backlog" },
        11 => Hint { rank: 0, keys: "e", what: "all issues" },
        12 => Hint { rank: 0, keys: "m", what: "my issues" },
        13 => Hint { rank: 0, keys: "v", what: "views" },
        14 => Hint { rank: 0, keys: "p", what: "projects" },
        15 => Hint { rank: 0, keys: "c", what: "cycles" },
        16 => Hint { rank: 0, keys: "g", what: "top" },
        17 => Hint { rank: 50, keys: "S-Tab", what: "preset" },
        18 => Hint { rank: 50, keys: "S-Tab", what: "issues/projects" },
        19 => Hint { rank: 60, keys: "D", what: "group" },
        20 => Hint { rank: 70, keys: "z", what: "fold" },
        21 => Hint { rank: 30, keys: "c", what: "new" },
        22 => Hint { rank: 20, keys: "s/p/a", what: "status/priority/assignee" },
        23 => Hint { rank: 21, keys: "m", what: "comment" },
        24 => Hint { rank: 23, keys: "y", what: "copy ID" },
        25 => Hint { rank: 22, keys: "o", what: "open" },
        26 => Hint { rank: 40, keys: "/", what: "filter" },
        27 => Hint { rank: 1, keys: "Enter", what: "keep" },
        28 => Hint { rank: 2, keys: "Esc", what: "clear" },
        29 => Hint { rank: 3, keys: "Ctrl+G", what: "search all of Linear" },
        30 => Hint { rank: 90, keys: "^R", what: "refresh" },
        31 => Hint { rank: 99, keys: "?", what: "help" },
        _ => Hint { rank: 0, keys: "", what: "" },
    }
}

/// Whether the hint on row `k` shows in context `c`.
pub open spec fn table_on(k: usize, c: Ctx) -> bool {
    match k {
        0 => c == Ctx::Sidebar || c == Ctx::ViewList || c == Ctx::ProjectList || c == Ctx::CycleList,
        1 => c == Ctx::IssueList || c == Ctx::ProjectList || c == Ctx::ProjectDetail || c == Ctx::CycleList || c == Ctx::CycleDetail || c == Ctx::ViewList,
        2 => c == Ctx::Sidebar,
        3 => c == Ctx::IssueDetail,
        4 => c == Ctx::IssueDetail,
        5 => c == Ctx::IssueList || c == Ctx::ProjectList || c == Ctx::ProjectDetail || c == Ctx::CycleList || c == Ctx::CycleDetail || c == Ctx::ViewList,
        6 => c == Ctx::Sidebar,
        7 => c == Ctx::Sidebar,
        8 => c == Ctx::Sidebar,
        9 => c == Ctx::GoTo,
        10 => c == Ctx::GoTo,
        11 => c == Ctx::GoTo,
        12 => c == Ctx::GoTo,
        13 => c == Ctx::GoTo,
        14 => c == Ctx::GoTo,
        15 => c == Ctx::GoTo,
        16 => c == Ctx::GoTo,
        17 => c == Ctx::IssueList || c == Ctx::ProjectDetail || c == Ctx::CycleDetail,
        18 => c == Ctx::ViewList,
        19 => c == Ctx::IssueList || c == Ctx::ProjectDetail || c == Ctx::CycleDetail,
        20 => c == Ctx::IssueList || c == Ctx::ProjectDetail || c == Ctx::CycleDetail,
        21 => c == Ctx::IssueList || c == Ctx::ProjectDetail || c == Ctx::CycleDetail,
        22 => c == Ctx::IssueList || c == Ctx::IssueDetail || c == Ctx::ProjectDetail || c == Ctx::CycleDetail,
        23 => c == Ctx::IssueDetail,
        24 => c == Ctx::IssueDetail,
        25 => c == Ctx::IssueDetail,
        26 => c == Ctx::IssueList || c == Ctx::ProjectDetail || c == Ctx::CycleDetail,
        27 => c == Ctx::Search,
        28 => c == Ctx::Search,
        29 => c == Ctx::Search,
        30 => c == Ctx::ViewList || c == Ctx::ProjectList || c == Ctx::CycleList,
        31 => c == Ctx::IssueList || c == Ctx::IssueDetail || c == Ctx::ProjectList || c == Ctx::ProjectDetail || c == Ctx::CycleList || c == Ctx::CycleDetail || c == Ctx::ViewList || c == Ctx::Sidebar,
        _ => false,
    }
}

/// The hints of rank `r` among the first `k` rows that show in `c`, in
/// table order.
pub open spec fn with_rank(c: Ctx, r: int, k: nat) -> Seq<Hint>
    decreases k,
{
    if k == 0 {
        Seq::empty()
    } else {
        with_rank(c, r, (k - 1) as nat) + if table_hint((k - 1) as usize).rank == r && table_on((k - 1) as usize, c) {
            seq![table_hint((k - 1) as usize)]
        } else {
            Seq::empty()
        }
    }
}

/// The hints of ranks below `r` that show in `c`: by rank, then table order.
pub open spec fn ranked_upto(c: Ctx, r: nat) -> Seq<Hint>
    decreases r,
{
    if r == 0 {
        Seq::empty()
    } else {
        ranked_upto(c, (r - 1) as nat) + with_rank(c, r - 1, HINT_ROWS as nat)
    }
}

fn hint_at(k: usize) -> (h: Hint)
    ensures
        h == table_hint(k),
{
    match k {
        0 => Hint { rank: 75, keys: "j/k", what: "move" },
        1 => Hint { rank: 10, keys: "Enter", what: "open" },
        2 => Hint { rank: 76, keys: "Enter", what: "open" },
        3 => Hint { rank: 1, keys: "Esc", what: "back" },
        4 => Hint { rank: 2, keys: "J/K", what: "next/prev" },
        5 => Hint { rank: 80, keys: "Tab", what: "sidebar" },
        6 => Hint { rank: 80, keys: "Tab", what: "content" },
        7 => Hint { rank: 85, keys: "^B", what: "hide" },
        8 => Hint { rank: 77, keys: "h/l", what: "fold" },
        9 => Hint { rank: 0, keys: "a", what: "active" },
        10 => Hint { rank: 0, keys: "b", what: "backlog" },
        11 => Hint { rank: 0, keys: "e", what: "all issues" },
        12 => Hint { rank: 0, keys: "m", what: "my issues" },
        13 => Hint { rank: 0, keys: "v", what: "views" },
        14 => Hint { rank: 0, keys: "p", what: "projects" },
        15 => Hint { rank: 0, keys: "c", what: "cycles" },
        16 => Hint { rank: 0, keys: "g", what: "top" },
        17 => Hint { rank: 50, keys: "S-Tab", what: "preset" },
        18 => Hint { rank: 50, keys: "S-Tab", what: "issues/projects" },
        19 => Hint { rank: 60, keys: "D", what: "group" },
        20 => Hint { rank: 70, keys: "z", what: "fold" },
        21 => Hint { rank: 30, keys: "c", what: "new" },
        22 => Hint { rank: 20, keys: "s/p/a", what: "status/priority/assignee" },
        23 => Hint { rank: 21, keys: "m", what: "comment" },
        24 => Hint { rank: 23, keys: "y", what: "copy ID" },
        25 => Hint { rank: 22, keys: "o", what: "open" },
        26 => Hint { rank: 40, keys: "/", what: "filter" },
        27 => Hint { rank: 1, keys: "Enter", what: "keep" },
        28 => Hint { rank: 2, keys: "Esc", what: "clear" },
        29 => Hint { rank: 3, keys: "Ctrl+G", what: "search all of Linear" },
        30 => Hint { rank: 90, keys: "^R", what: "refresh" },
        31 => Hint { rank: 99, keys: "?", what: "help" },
        _ => Hint { rank: 0, keys: "", what: "" },
    }
}

fn shows_on(k: usize, c: Ctx) -> (b: bool)
    ensures
        b == table_on(k, c),
{
    match k {
        0 => matches!(c, Ctx::Sidebar | Ctx::ViewList | Ctx::ProjectList | Ctx::CycleList),
        1 => matches!(c, Ctx::IssueList | Ctx::ProjectList | Ctx::ProjectDetail | Ctx::CycleList | Ctx::CycleDetail | Ctx::ViewList),
        2 => matches!(c, Ctx::Sidebar),
        3 => matches!(c, Ctx::IssueDetail),
        4 => matches!(c, Ctx::IssueDetail),
        5 => matches!(c, Ctx::IssueList | Ctx::ProjectList | Ctx::ProjectDetail | Ctx::CycleList | Ctx::CycleDetail | Ctx::ViewList),
        6 => matches!(c, Ctx::Sidebar),
        7 => matches!(c, Ctx::Sidebar),
        8 => matches!(c, Ctx::Sidebar),
        9 => matches!(c, Ctx::GoTo),
        10 => matches!(c, Ctx::GoTo),
        11 => matches!(c, Ctx::GoTo),
        12 => matches!(c, Ctx::GoTo),
        13 => matches!(c, Ctx::GoTo),
        14 => matches!(c, Ctx::GoTo),
        15 => matches!(c, Ctx::GoTo),
        16 => matches!(c, Ctx::GoTo),
        17 => matches!(c, Ctx::IssueList | Ctx::ProjectDetail | Ctx::CycleDetail),
        18 => matches!(c, Ctx::ViewList),
        19 => matches!(c, Ctx::IssueList | Ctx::ProjectDetail | Ctx::CycleDetail),
        20 => matches!(c, Ctx::IssueList | Ctx::ProjectDetail | Ctx::CycleDetail),
        21 => matches!(c, Ctx::IssueList | Ctx::ProjectDetail | Ctx::CycleDetail),
        22 => matches!(c, Ctx::IssueList | Ctx::IssueDetail | Ctx::ProjectDetail | Ctx::CycleDetail),
        23 => matches!(c, Ctx::IssueDetail),
        24 => matches!(c, Ctx::IssueDetail),
        25 => matches!(c, Ctx::IssueDetail),
        26 => matches!(c, Ctx::IssueList | Ctx::ProjectDetail | Ctx::CycleDetail),
        27 => matches!(c, Ctx::Search),
        28 => matches!(c, Ctx::Search),
        29 => matches!(c, Ctx::Search),
        30 => matches!(c, Ctx::ViewList | Ctx::ProjectList | Ctx::CycleList),
        31 => matches!(c, Ctx::IssueList | Ctx::IssueDetail | Ctx::ProjectList | Ctx::ProjectDetail | Ctx::CycleList | Ctx::CycleDetail | Ctx::ViewList | Ctx::Sidebar),
        _ => false,
    }
}

/// The status-bar hints for a context, in display order: by rank, ties in
/// table order.
pub fn hints(c: Ctx) -> (out: Vec<Hint>)
    ensures
        out@ == ranked_upto(c, 256),
{
    let mut out: Vec<Hint> = Vec::new();
    let mut r: u16 = 0;
    while r < 256
        invariant
            r <= 256,
            out@ == ranked_upto(c, r as nat),
        decreases 256 - r,
    {
        let ghost before = out@;
        let mut k: usize = 0;
        while k < HINT_ROWS
            invariant
                k <= HINT_ROWS,
                r < 256,
                out@ == before + with_rank(c, r as int, k as nat),
            decreases HINT_ROWS - k,
        {
            let h = hint_at(k);
            if h.rank as u16 == r && shows_on(k, c) {
                out.push(h);
            }
            k = k + 1;
        }
        r = r + 1;
    }
    out
}

} // verus!
