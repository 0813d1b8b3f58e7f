//! `linear-tui context`: what linear-tui is showing in this repository, in
//! Markdown, for an agent to resolve "this issue" or "the top three in this
//! list".

use vstd::prelude::*;
use crate::entity::Preset;
use crate::resolve::{joined, push_joined, texts};
use crate::markdown::{lines_of, split_lines};
use crate::snapshot::{Destination, ListSettings, OrganizationRef, Row, Screen, Section, Source, ViewSnapshot};
use crate::callback::{lossy, pieces, utf8_lossy};
use crate::identifier::{first_identifier, identifier_in_branch};
use crate::text::{decimal, push_decimal, push_str, trim, trimmed};
use crate::timestamp::{parse_timestamp, timestamp_value};

verus! {

pub open spec fn section_name(section: Section) -> Seq<char> {
    match section {
        Section::Issues => "Issues"@,
        Section::Cycles => "Cycles"@,
        Section::Projects => "Projects"@,
        Section::Views => "Views"@,
    }
}

/// Where in the sidebar, in words.
pub open spec fn destination_text(dest: Destination) -> Seq<char> {
    match dest {
        Destination::MyIssues => "My Issues"@,
        Destination::Views => "Views"@,
        Destination::View { name, .. } => "View \u{201c}"@ + name@ + "\u{201d}"@,
        Destination::Team { team, section } => team.name@ + " \u{203a} "@ + section_name(section),
        Destination::Favorite { title, .. } => "Favorite \u{201c}"@ + title@ + "\u{201d}"@,
    }
}

fn destination_label(dest: &Destination) -> (s: String)
    ensures
        s@ == destination_text(*dest),
{
    let mut s = String::new();
    match dest {
        Destination::MyIssues => push_str(&mut s, "My Issues"),
        Destination::Views => push_str(&mut s, "Views"),
        Destination::View { name, .. } => {
            push_str(&mut s, "View \u{201c}");
            push_str(&mut s, name.as_str());
            push_str(&mut s, "\u{201d}");
        },
        Destination::Team { team, section } => {
            push_str(&mut s, team.name.as_str());
            push_str(&mut s, " \u{203a} ");
            push_str(
                &mut s,
                match section {
                    Section::Issues => "Issues",
                    Section::Cycles => "Cycles",
                    Section::Projects => "Projects",
                    Section::Views => "Views",
                },
            );
        },
        Destination::Favorite { title, .. } => {
            push_str(&mut s, "Favorite \u{201c}");
            push_str(&mut s, title.as_str());
            push_str(&mut s, "\u{201d}");
        },
    }
    s
}

/// How long ago a moment `elapsed` seconds back was, in words.
pub open spec fn elapsed_text(elapsed: nat) -> Seq<char> {
    if elapsed < 60 {
        "just now"@
    } else if elapsed < 3600 {
        decimal(elapsed / 60) + if elapsed / 60 == 1 {
            " minute ago"@
        } else {
            " minutes ago"@
        }
    } else if elapsed < 86400 {
        decimal(elapsed / 3600) + if elapsed / 3600 == 1 {
            " hour ago"@
        } else {
            " hours ago"@
        }
    } else {
        decimal(elapsed / 86400) + if elapsed / 86400 == 1 {
            " day ago"@
        } else {
            " days ago"@
        }
    }
}

/// How long before `now` the record written at `at` was, if `at` reads as
/// a timestamp. A moment after `now` reads as just now.
pub open spec fn ago_text(at: Seq<char>, now: nat) -> Option<Seq<char>> {
    match timestamp_value(at) {
        Some(then) => Some(elapsed_text(if now >= then {
            (now - then) as nat
        } else {
            0
        })),
        None => None,
    }
}

fn push_count(out: &mut String, n: u64, one: &str, many: &str)
    ensures
        final(out)@ == old(out)@ + decimal(n as nat) + if n == 1 {
            one@
        } else {
            many@
        },
{
    push_decimal(out, n);
    if n == 1 {
        push_str(out, one);
    } else {
        push_str(out, many);
    }
}

/// How long before `now` (seconds since the epoch) the moment written `at`
/// was: `2 minutes ago`, `just now`.
pub fn ago(at: &str, now: u64) -> (s: Option<String>)
    ensures
        match s {
            Some(s) => ago_text(at@, now as nat) == Some(s@),
            None => ago_text(at@, now as nat) is None,
        },
{
    let then = match parse_timestamp(at) {
        Some(t) => t,
        None => return None,
    };
    let elapsed = if now >= then {
        now - then
    } else {
        0
    };
    let mut s = String::new();
    if elapsed < 60 {
        push_str(&mut s, "just now");
    } else if elapsed < 3600 {
        push_count(&mut s, elapsed / 60, " minute ago", " minutes ago");
    } else if elapsed < 86400 {
        push_count(&mut s, elapsed / 3600, " hour ago", " hours ago");
    } else {
        push_count(&mut s, elapsed / 86400, " day ago", " days ago");
    }
    Some(s)
}

/// The details a row shows after its title, those it has.
pub open spec fn row_details(row: Row) -> Seq<Seq<char>> {
    (match row.state {
        Some(s) => seq![s@],
        None => Seq::empty(),
    }) + (match row.assignee {
        Some(a) => seq![a@],
        None => Seq::empty(),
    }) + (match row.priority {
        Some(p) => seq![p@],
        None => Seq::empty(),
    })
}

/// A row as a numbered line: `2. ENG-42 Checkout fails — Todo · High`, and
/// a mark on the one under the cursor.
pub open spec fn row_text(index: nat, row: Row, selected: bool) -> Seq<char> {
    decimal(index + 1) + ". "@ + (match row.identifier {
        Some(id) => id@ + " "@,
        None => Seq::empty(),
    }) + row.title@ + (if row_details(row).len() > 0 {
        " \u{2014} "@ + joined(row_details(row), " \u{00b7} "@)
    } else {
        Seq::empty()
    }) + (if selected {
        "  \u{2190} cursor"@
    } else {
        Seq::empty()
    })
}

fn row_line(index: usize, row: &Row, selected: bool) -> (line: String)
    requires
        index < usize::MAX,
    ensures
        line@ == row_text(index as nat, *row, selected),
{
    let mut line = String::new();
    push_decimal(&mut line, (index + 1) as u64);
    push_str(&mut line, ". ");
    match &row.identifier {
        Some(id) => {
            push_str(&mut line, id.as_str());
            push_str(&mut line, " ");
        },
        None => {},
    }
    push_str(&mut line, row.title.as_str());
    let mut details: Vec<String> = Vec::new();
    match &row.state {
        Some(s) => details.push(s.clone()),
        None => {},
    }
    match &row.assignee {
        Some(a) => details.push(a.clone()),
        None => {},
    }
    match &row.priority {
        Some(p) => details.push(p.clone()),
        None => {},
    }
    assert(texts(details@) =~= row_details(*row));
    if details.len() > 0 {
        push_str(&mut line, " \u{2014} ");
        push_joined(&mut line, &details, " \u{00b7} ");
    }
    if selected {
        push_str(&mut line, "  \u{2190} cursor");
    }
    line
}

/// Which issue list is on screen, if one is.
pub open spec fn list_source(s: ViewSnapshot) -> Option<Source> {
    if s.screen == Screen::ProjectDetail {
        Some(Source::Project)
    } else if s.screen == Screen::CycleDetail {
        Some(Source::Cycle)
    } else if s.screen == Screen::IssueDetail && s.project is Some {
        Some(Source::Project)
    } else if s.screen == Screen::IssueDetail && s.cycle is Some {
        Some(Source::Cycle)
    } else {
        match s.destination {
            Destination::MyIssues => Some(Source::My),
            Destination::View { .. } => Some(Source::View),
            Destination::Team { section: Section::Issues, .. } => Some(Source::Team),
            _ => None,
        }
    }
}

/// The first settings recorded for `source`.
pub open spec fn settings_for(lists: Seq<ListSettings>, source: Source) -> Option<ListSettings>
    decreases lists.len(),
{
    if lists.len() == 0 {
        None
    } else if lists[0].source == source {
        Some(lists[0])
    } else {
        settings_for(lists.drop_first(), source)
    }
}

/// How the list on screen is sliced, if it is an issue list: its preset —
/// a team list opens on Active, every other list on All — and its filters.
pub open spec fn list_settings_text(s: ViewSnapshot) -> Option<Seq<char>> {
    match list_source(s) {
        None => None,
        Some(source) => {
            let settings = settings_for(s.lists@, source);
            let preset = match settings {
                Some(l) => match l.preset {
                    Preset::Backlog => "Backlog"@,
                    Preset::All => "All issues"@,
                    Preset::Active => "Active"@,
                },
                None => if source == Source::Team {
                    "Active"@
                } else {
                    "All issues"@
                },
            };
            let status = match settings {
                Some(l) => match l.status {
                    Some(st) => seq!["Status: "@ + st@],
                    None => Seq::empty(),
                },
                None => Seq::empty(),
            };
            let priority = match settings {
                Some(l) => match l.priority {
                    Some(p) => seq!["Priority: "@ + p@],
                    None => Seq::empty(),
                },
                None => Seq::empty(),
            };
            Some(joined(seq!["Preset: "@ + preset] + status + priority, " \u{00b7} "@))
        },
    }
}

fn source_of(s: &ViewSnapshot) -> (source: Option<Source>)
    ensures
        source == list_source(*s),
{
    if s.screen == Screen::ProjectDetail {
        Some(Source::Project)
    } else if s.screen == Screen::CycleDetail {
        Some(Source::Cycle)
    } else if s.screen == Screen::IssueDetail && s.project.is_some() {
        Some(Source::Project)
    } else if s.screen == Screen::IssueDetail && s.cycle.is_some() {
        Some(Source::Cycle)
    } else {
        match &s.destination {
            Destination::MyIssues => Some(Source::My),
            Destination::View { .. } => Some(Source::View),
            Destination::Team { section: Section::Issues, .. } => Some(Source::Team),
            _ => None,
        }
    }
}

fn find_settings(lists: &Vec<ListSettings>, source: Source) -> (found: Option<&ListSettings>)
    ensures
        match found {
            Some(l) => settings_for(lists@, source) == Some(*l),
            None => settings_for(lists@, source) is None,
        },
{
    let mut i: usize = 0;
    assert(lists@.skip(0) =~= lists@);
    while i < lists.len()
        invariant
            i <= lists@.len(),
            settings_for(lists@, source) == settings_for(lists@.skip(i as int), source),
        decreases lists@.len() - i,
    {
        assert(lists@.skip(i as int)[0] == lists@[i as int]);
        assert(lists@.skip(i as int).drop_first() =~= lists@.skip(i + 1));
        if lists[i].source == source {
            return Some(&lists[i]);
        }
        i = i + 1;
    }
    assert(lists@.skip(i as int).len() == 0);
    None
}

fn list_settings(s: &ViewSnapshot) -> (text: Option<String>)
    ensures
        match text {
            Some(t) => list_settings_text(*s) == Some(t@),
            None => list_settings_text(*s) is None,
        },
{
    let source = match source_of(s) {
        Some(source) => source,
        None => return None,
    };
    let settings = find_settings(&s.lists, source);
    let mut first = String::new();
    push_str(&mut first, "Preset: ");
    push_str(
        &mut first,
        match settings {
            Some(l) => match l.preset {
                Preset::Backlog => "Backlog",
                Preset::All => "All issues",
                Preset::Active => "Active",
            },
            None => if source == Source::Team {
                "Active"
            } else {
                "All issues"
            },
        },
    );
    let mut parts: Vec<String> = Vec::new();
    parts.push(first);
    match settings {
        Some(l) => {
            match &l.status {
                Some(st) => {
                    let mut part = String::new();
                    push_str(&mut part, "Status: ");
                    push_str(&mut part, st.as_str());
                    parts.push(part);
                },
                None => {},
            }
            match &l.priority {
                Some(p) => {
                    let mut part = String::new();
                    push_str(&mut part, "Priority: ");
                    push_str(&mut part, p.as_str());
                    parts.push(part);
                },
                None => {},
            }
        },
        None => {},
    }
    let mut text = String::new();
    push_joined(&mut text, &parts, " \u{00b7} ");
    proof {
        assert(texts(parts@) =~= {
            let settings = settings_for(s.lists@, source);
            let preset = match settings {
                Some(l) => match l.preset {
                    Preset::Backlog => "Backlog"@,
                    Preset::All => "All issues"@,
                    Preset::Active => "Active"@,
                },
                None => if source == Source::Team {
                    "Active"@
                } else {
                    "All issues"@
                },
            };
            let status = match settings {
                Some(l) => match l.status {
                    Some(st) => seq!["Status: "@ + st@],
                    None => Seq::empty(),
                },
                None => Seq::empty(),
            };
            let priority = match settings {
                Some(l) => match l.priority {
                    Some(p) => seq!["Priority: "@ + p@],
                    None => Seq::empty(),
                },
                None => Seq::empty(),
            };
            seq!["Preset: "@ + preset] + status + priority
        });
    }
    Some(text)
}

/// The title of the favorite on screen, if the page is one.
pub open spec fn favorite_title(dest: Destination) -> Option<Seq<char>> {
    match dest {
        Destination::Favorite { title, .. } => Some(title@),
        _ => None,
    }
}

/// Where the user is, step by step: the sidebar entry, the project or cycle
/// page (unless the favorite on screen is that page), and the open issue.
pub open spec fn showing_path(s: ViewSnapshot) -> Seq<Seq<char>> {
    let favorite = favorite_title(s.destination);
    seq![destination_text(s.destination)] + (match s.project {
        Some(p) => if Some(p.name@) != favorite {
            seq!["project \u{201c}"@ + p.name@ + "\u{201d}"@]
        } else {
            Seq::empty()
        },
        None => Seq::empty(),
    }) + (match s.cycle {
        Some(c) => if Some(c.name@) != favorite {
            seq![c.name@]
        } else {
            Seq::empty()
        },
        None => Seq::empty(),
    }) + (match s.issue {
        Some(i) => seq![i.identifier@],
        None => Seq::empty(),
    })
}

/// The line that says where the user is.
pub open spec fn showing_text(s: ViewSnapshot) -> Seq<char> {
    "- Showing: "@ + joined(showing_path(s), " \u{203a} "@) + "\n"@
}

/// The lines that name the Linear workspace and the search on screen, those
/// there are.
pub open spec fn scope_text(s: ViewSnapshot) -> Seq<char> {
    (match s.organization {
        Some(org) => "- Linear workspace: "@ + org.name@ + " ("@ + org.url_key@ + ")\n"@,
        None => Seq::empty(),
    }) + (match s.search {
        Some(term) => "- Search results for: "@ + term@ + "\n"@,
        None => Seq::empty(),
    })
}

/// The line that says when the view was recorded, and whether the instance
/// is still open.
pub open spec fn updated_text(s: ViewSnapshot, running: bool, now: nat) -> Seq<char> {
    "- Updated: "@ + (match ago_text(s.updated_at@, now) {
        Some(a) => a,
        None => s.updated_at@,
    }) + " ("@ + s.updated_at@ + "); linear-tui is "@ + (if running {
        "open (pid "@ + decimal(s.pid as nat) + ")"@
    } else {
        "**closed \u{2014} this is the last view before it quit, and may be stale**"@
    }) + "\n"@
}

/// The lines that say what the view is and when it was recorded.
pub open spec fn summary_text(s: ViewSnapshot, running: bool, now: nat) -> Seq<char> {
    showing_text(s) + scope_text(s) + updated_text(s, running, now)
}

/// The open issue, and how to read it in full.
pub open spec fn open_issue_text(s: ViewSnapshot) -> Seq<char> {
    match s.issue {
        Some(i) => "\n## Open issue\n\n"@ + i.identifier@ + " "@ + i.title@ + " \u{2014} `linear-tui issue show "@
            + i.identifier@ + "` for its description and comments.\n"@,
        None => Seq::empty(),
    }
}

/// The rows from the first, numbered, each on a line.
pub open spec fn rows_text(rows: Seq<Row>, selected: Option<usize>, k: nat) -> Seq<char>
    decreases k,
{
    if k == 0 {
        Seq::empty()
    } else {
        rows_text(rows, selected, (k - 1) as nat) + row_text(
            (k - 1) as nat,
            rows[k - 1],
            selected == Some((k - 1) as usize),
        ) + "\n"@
    }
}

/// The list on screen, if it has rows: a heading that says how many of how
/// many are shown, how it is sliced, and the rows.
pub open spec fn list_text(s: ViewSnapshot) -> Seq<char> {
    if s.rows@.len() == 0 {
        Seq::empty()
    } else {
        "\n## "@ + (if s.issue is Some {
            "The list it was opened from"@
        } else {
            "List"@
        }) + " ("@ + (if s.rows_total > s.rows@.len() {
            "first "@ + decimal(s.rows@.len()) + " of "@ + decimal(s.rows_total as nat)
        } else {
            decimal(s.rows_total as nat)
        }) + ")\n\n"@ + (match list_settings_text(s) {
            Some(l) => l + "\n\n"@,
            None => Seq::empty(),
        }) + rows_text(s.rows@, s.selected_row, s.rows@.len())
    }
}

/// The line that names the issue the worktree is for, if it is for one.
pub open spec fn worktree_text(worktree_issue: Option<Seq<char>>) -> Seq<char> {
    match worktree_issue {
        Some(issue) => "This worktree is for **"@ + issue + "** \u{2014} `linear-tui issue show "@ + issue
            + "` for the issue itself.\n\n"@,
        None => Seq::empty(),
    }
}

/// How to act on what is listed.
pub open spec fn footer_text() -> Seq<char> {
    "\nAct on these with `linear-tui issue show|comment|status <ID>` and `linear-tui issue create --team <key> --title <text>`.\n"@
}

/// What is said of the view recorded, or that none is.
pub open spec fn view_text(found: Option<(ViewSnapshot, bool)>, now: nat) -> Seq<char> {
    match found {
        None => "No linear-tui view is recorded for this repository.\n"@,
        Some((s, running)) => summary_text(s, running, now) + open_issue_text(s) + list_text(s)
            + footer_text(),
    }
}

/// The whole report: the worktree's issue, if there is one, then the view,
/// if one is recorded.
pub open spec fn render_text(found: Option<(ViewSnapshot, bool)>, worktree_issue: Option<Seq<char>>, now: nat) -> Seq<char> {
    "# linear-tui context\n\n"@ + worktree_text(worktree_issue) + view_text(found, now)
}

fn same_name(a: &String, b: Option<&String>) -> (r: bool)
    ensures
        r == (match b {
            Some(b) => a@ == b@,
            None => false,
        }),
{
    match b {
        Some(b) => *a == *b,
        None => false,
    }
}

fn showing(s: &ViewSnapshot) -> (text: String)
    ensures
        text@ == showing_text(*s),
{
    let mut path: Vec<String> = Vec::new();
    path.push(destination_label(&s.destination));
    let favorite = match &s.destination {
        Destination::Favorite { title, .. } => Some(title),
        _ => None,
    };
    match &s.project {
        Some(p) => if !same_name(&p.name, favorite) {
            let mut step = String::new();
            push_str(&mut step, "project \u{201c}");
            push_str(&mut step, p.name.as_str());
            push_str(&mut step, "\u{201d}");
            path.push(step);
        },
        None => {},
    }
    match &s.cycle {
        Some(c) => if !same_name(&c.name, favorite) {
            path.push(c.name.clone());
        },
        None => {},
    }
    match &s.issue {
        Some(i) => path.push(i.identifier.clone()),
        None => {},
    }
    assert(texts(path@) =~= showing_path(*s));
    let mut out = String::new();
    push_str(&mut out, "- Showing: ");
    push_joined(&mut out, &path, " \u{203a} ");
    push_str(&mut out, "\n");
    out
}

fn scope(s: &ViewSnapshot) -> (text: String)
    ensures
        text@ == scope_text(*s),
{
    let mut out = String::new();
    match &s.organization {
        Some(org) => {
            push_str(&mut out, "- Linear workspace: ");
            push_str(&mut out, org.name.as_str());
            push_str(&mut out, " (");
            push_str(&mut out, org.url_key.as_str());
            push_str(&mut out, ")\n");
        },
        None => {},
    }
    let ghost first = out@;
    match &s.search {
        Some(term) => {
            push_str(&mut out, "- Search results for: ");
            push_str(&mut out, term.as_str());
            push_str(&mut out, "\n");
        },
        None => {},
    }
    out
}

fn updated(s: &ViewSnapshot, running: bool, now: u64) -> (text: String)
    ensures
        text@ == updated_text(*s, running, now as nat),
{
    let mut out = String::new();
    push_str(&mut out, "- Updated: ");
    match ago(s.updated_at.as_str(), now) {
        Some(a) => push_str(&mut out, a.as_str()),
        None => push_str(&mut out, s.updated_at.as_str()),
    }
    push_str(&mut out, " (");
    push_str(&mut out, s.updated_at.as_str());
    push_str(&mut out, "); linear-tui is ");
    if running {
        push_str(&mut out, "open (pid ");
        push_decimal(&mut out, s.pid as u64);
        push_str(&mut out, ")");
    } else {
        push_str(&mut out, "**closed \u{2014} this is the last view before it quit, and may be stale**");
    }
    push_str(&mut out, "\n");
    out
}

fn open_issue(s: &ViewSnapshot) -> (text: String)
    ensures
        text@ == open_issue_text(*s),
{
    let mut out = String::new();
    match &s.issue {
        Some(i) => {
            push_str(&mut out, "\n## Open issue\n\n");
            push_str(&mut out, i.identifier.as_str());
            push_str(&mut out, " ");
            push_str(&mut out, i.title.as_str());
            push_str(&mut out, " \u{2014} `linear-tui issue show ");
            push_str(&mut out, i.identifier.as_str());
            push_str(&mut out, "` for its description and comments.\n");
        },
        None => {},
    }
    out
}

fn list_part(s: &ViewSnapshot) -> (text: String)
    ensures
        text@ == list_text(*s),
{
    let mut out = String::new();
    let n = s.rows.len();
    if n == 0 {
        return out;
    }
    push_str(&mut out, "\n## ");
    if s.issue.is_some() {
        push_str(&mut out, "The list it was opened from");
    } else {
        push_str(&mut out, "List");
    }
    push_str(&mut out, " (");
    if s.rows_total > n {
        push_str(&mut out, "first ");
        push_decimal(&mut out, n as u64);
        push_str(&mut out, " of ");
        push_decimal(&mut out, s.rows_total as u64);
    } else {
        push_decimal(&mut out, s.rows_total as u64);
    }
    push_str(&mut out, ")\n\n");
    match list_settings(s) {
        Some(l) => {
            push_str(&mut out, l.as_str());
            push_str(&mut out, "\n\n");
        },
        None => {},
    }
    let ghost head = out@;
    let mut i: usize = 0;
    while i < n
        invariant
            n == s.rows@.len(),
            i <= n,
            out@ == head + rows_text(s.rows@, s.selected_row, i as nat),
        decreases n - i,
    {
        let selected = match s.selected_row {
            Some(k) => k == i,
            None => false,
        };
        let line = row_line(i, &s.rows[i], selected);
        push_str(&mut out, line.as_str());
        push_str(&mut out, "\n");
        proof {
            assert(selected == (s.selected_row == Some(i)));
            assert(out@ =~= head + rows_text(s.rows@, s.selected_row, (i + 1) as nat));
        }
        i = i + 1;
    }
    out
}

fn worktree_line(worktree_issue: Option<&str>) -> (text: String)
    ensures
        text@ == worktree_text(
            match worktree_issue {
                Some(w) => Some(w@),
                None => None,
            },
        ),
{
    let mut out = String::new();
    match worktree_issue {
        Some(issue) => {
            push_str(&mut out, "This worktree is for **");
            push_str(&mut out, issue);
            push_str(&mut out, "** \u{2014} `linear-tui issue show ");
            push_str(&mut out, issue);
            push_str(&mut out, "` for the issue itself.\n\n");
        },
        None => {},
    }
    out
}

fn view_part(found: Option<&(ViewSnapshot, bool)>, now: u64) -> (text: String)
    ensures
        text@ == view_text(
            match found {
                Some(f) => Some(*f),
                None => None,
            },
            now as nat,
        ),
{
    let mut out = String::new();
    match found {
        None => {
            push_str(&mut out, "No linear-tui view is recorded for this repository.\n");
        },
        Some(pair) => {
            let s = &pair.0;
            let a = showing(s);
            let b = scope(s);
            let c = updated(s, pair.1, now);
            let d = open_issue(s);
            let e = list_part(s);
            push_str(&mut out, a.as_str());
            push_str(&mut out, b.as_str());
            push_str(&mut out, c.as_str());
            push_str(&mut out, d.as_str());
            push_str(&mut out, e.as_str());
            push_str(
                &mut out,
                "\nAct on these with `linear-tui issue show|comment|status <ID>` and `linear-tui issue create --team <key> --title <text>`.\n",
            );
            assert(out@ =~= summary_text(*s, pair.1, now as nat) + open_issue_text(*s) + list_text(*s) + footer_text());
        },
    }
    out
}

/// The report `linear-tui context` prints: the issue the worktree is for,
/// if it is for one, then what the instance here shows — or that nothing is
/// recorded — and how to act on it. `now` is seconds since the epoch.
pub fn render(found: Option<&(ViewSnapshot, bool)>, worktree_issue: Option<&str>, now: u64) -> (out: String)
    ensures
        out@ == render_text(
            match found {
                Some(f) => Some(*f),
                None => None,
            },
            match worktree_issue {
                Some(w) => Some(w@),
                None => None,
            },
            now as nat,
        ),
{
    let mut out = String::new();
    push_str(&mut out, "# linear-tui context\n\n");
    let head = worktree_line(worktree_issue);
    push_str(&mut out, head.as_str());
    let view = view_part(found, now);
    push_str(&mut out, view.as_str());
    out
}

/// A warning when the view on screen is of another Linear workspace than
/// `acting`, the one the issue commands act in: its ids would not be found
/// there.
pub open spec fn other_workspace_text(shown: Option<OrganizationRef>, acting: Option<OrganizationRef>) -> Option<Seq<char>> {
    match (shown, acting) {
        (Some(s), Some(a)) => if s.id@ != a.id@ {
            Some(
                "**This view is of "@ + s.name@ + " ("@ + s.url_key@ + "), but `linear-tui issue \u{2026}` acts in "@
                    + a.name@ + " ("@ + a.url_key@ + ").** `linear-tui auth switch "@ + s.url_key@
                    + "` first to act on what is shown."@,
            )
        } else {
            None
        },
        _ => None,
    }
}

/// The warning to print when the view is of another workspace than the one
/// `linear-tui issue …` acts in.
pub fn other_workspace(shown: Option<&OrganizationRef>, acting: Option<&OrganizationRef>) -> (warning: Option<String>)
    ensures
        match warning {
            Some(w) => other_workspace_text(
                match shown {
                    Some(s) => Some(*s),
                    None => None,
                },
                match acting {
                    Some(a) => Some(*a),
                    None => None,
                },
            ) == Some(w@),
            None => other_workspace_text(
                match shown {
                    Some(s) => Some(*s),
                    None => None,
                },
                match acting {
                    Some(a) => Some(*a),
                    None => None,
                },
            ) is None,
        },
{
    let (s, a) = match (shown, acting) {
        (Some(s), Some(a)) => (s, a),
        _ => {
            return None;
        },
    };
    if s.id == a.id {
        return None;
    }
    let mut w = String::new();
    push_str(&mut w, "**This view is of ");
    push_str(&mut w, s.name.as_str());
    push_str(&mut w, " (");
    push_str(&mut w, s.url_key.as_str());
    push_str(&mut w, "), but `linear-tui issue \u{2026}` acts in ");
    push_str(&mut w, a.name.as_str());
    push_str(&mut w, " (");
    push_str(&mut w, a.url_key.as_str());
    push_str(&mut w, ").** `linear-tui auth switch ");
    push_str(&mut w, s.url_key.as_str());
    push_str(&mut w, "` first to act on what is shown.");
    assert(w@ =~= other_workspace_text(Some(*s), Some(*a))->0);
    Some(w)
}

/// Whether `git rev-parse --git-dir --git-common-dir` answered for a linked
/// worktree: its two lines name different directories. The main checkout
/// is not tied to one issue, whatever its branch is called.
pub open spec fn linked_worktree(dirs: Seq<char>) -> bool {
    let lines = lines_of(dirs);
    lines.len() >= 2 && lines[0] != lines[1]
}

/// Whether git's answer, as it printed it, names a linked worktree.
pub fn is_linked_worktree(stdout: &[u8]) -> (b: bool)
    ensures
        b == linked_worktree(trimmed(utf8_lossy(stdout@))),
{
    let text = lossy(stdout);
    let dirs = trim(text.as_str());
    let lines = split_lines(dirs);
    if lines.len() < 2 {
        return false;
    }
    assert(lines@[0]@ == lines_of(dirs@)[0]);
    assert(lines@[1]@ == lines_of(dirs@)[1]);
    !(lines[0] == lines[1])
}

/// The issue the branch git named is for, from what `git branch
/// --show-current` printed.
pub fn branch_issue(stdout: &[u8]) -> (r: Option<String>)
    ensures
        match r {
            Some(id) => first_identifier(pieces(trimmed(utf8_lossy(stdout@)), '/')) == Some(id@),
            None => first_identifier(pieces(trimmed(utf8_lossy(stdout@)), '/')) is None,
        },
{
    let text = lossy(stdout);
    identifier_in_branch(trim(text.as_str()))
}

}
