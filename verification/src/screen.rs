//! The screen as an agent reads it (`linear-tui tui screen`): the frame as
//! text, and what the frame alone does not say — where focus is, what is
//! open over it, what the keys here do, and which commands the palette runs.
//!
//! An agent works the TUI the way a person does: it reads this, presses a
//! key or runs a command, and reads it again.

use vstd::prelude::*;
use crate::resolve::{joined, push_joined, texts};
use crate::snapshot::{Screen, Section};
use crate::text::{ascii_lower, chars_of, decimal, lower_char, push_char, push_decimal, push_str};

verus! {

/// What is on the screen of a running linear-tui.
#[derive(Debug, Clone, PartialEq, Eq)]
pub struct ScreenReport {
    /// Where the user is, in words: `Engineering › Issues › ENG-42`.
    pub showing: String,
    /// The frame, one line per terminal row, trailing blanks trimmed.
    pub lines: Vec<String>,
    pub width: u16,
    pub height: u16,
    /// Where keys go: a screen (`issue_list`, `issue_detail`, …), the
    /// `sidebar`, a text field, or a `g` chord waiting for its second key.
    pub focus: String,
    /// What is open over the screen: a picker, the palette, the help, an
    /// error.
    pub overlay: Option<String>,
    /// The issue under the cursor, or open: `ENG-42 Checkout fails`.
    pub issue: Option<String>,
    /// The status line's message.
    pub status: Option<String>,
    /// The error popup's text; any key dismisses it.
    pub error: Option<String>,
    /// Whether Linear has not answered everything asked yet.
    pub loading: bool,
    /// Notes written for the agent and not yet sent.
    pub notes: usize,
    /// The keys the status bar offers here.
    pub keys: Vec<KeyHint>,
    /// The palette commands that apply here, by title (`linear-tui tui run`).
    pub commands: Vec<CommandEntry>,
    /// What linear-tui did not do because nobody is at the desktop: pages
    /// it would have opened in a browser, hand-offs to herdr.
    pub held: Vec<String>,
}

/// A key the status bar offers.
#[derive(Debug, Clone, PartialEq, Eq)]
pub struct KeyHint {
    pub keys: String,
    pub does: String,
}

/// A palette command that applies here.
#[derive(Debug, Clone, PartialEq, Eq)]
pub struct CommandEntry {
    pub title: String,
    /// The keys that run it too, when it has some.
    pub keys: Option<String>,
}

/// A line `- Label: value`, if there is a value.
pub open spec fn field_line(label: Seq<char>, value: Option<String>) -> Seq<char> {
    match value {
        Some(v) => "- "@ + label + ": "@ + v@ + "\n"@,
        None => Seq::empty(),
    }
}

/// `text` on one line: each newline a space.
pub open spec fn one_line(text: Seq<char>) -> Seq<char> {
    text.map_values(|c: char| if c == '\n' {
        ' '
    } else {
        c
    })
}

/// The facts about the screen, a line each.
pub open spec fn facts_text(r: ScreenReport) -> Seq<char> {
    "- Showing: "@ + r.showing@ + "\n"@ + "- Focus: "@ + r.focus@ + "\n"@ + field_line("Open"@, r.overlay)
        + field_line("Issue"@, r.issue) + field_line("Status"@, r.status) + (match r.error {
        Some(e) => "- Error: "@ + one_line(e@) + "\n"@,
        None => Seq::empty(),
    }) + (if r.loading {
        "- Loading: Linear has not answered everything yet\n"@
    } else {
        Seq::empty()
    }) + (if r.notes > 0 {
        "- Notes: "@ + decimal(r.notes as nat) + " waiting to be sent\n"@
    } else {
        Seq::empty()
    })
}

/// A line `- Held: …` for each thing held back, the first `k`.
pub open spec fn held_text(held: Seq<String>, k: nat) -> Seq<char>
    decreases k,
{
    if k == 0 {
        Seq::empty()
    } else {
        held_text(held, (k - 1) as nat) + "- Held: "@ + held[k - 1]@ + "\n"@
    }
}

/// The frame, fenced.
pub open spec fn frame_text(lines: Seq<String>) -> Seq<char> {
    "\n```text\n"@ + joined(texts(lines), "\n"@) + "\n```\n"@
}

/// A key hint as the report writes it: the keys in backticks, then what
/// they do.
pub open spec fn hint_text(h: KeyHint) -> Seq<char> {
    "`"@ + h.keys@ + "` "@ + h.does@
}

/// The keys offered here, on one line, if there are any.
pub open spec fn keys_text(keys: Seq<KeyHint>) -> Seq<char> {
    if keys.len() == 0 {
        Seq::empty()
    } else {
        "\nKeys here: "@ + joined(keys.map_values(|h: KeyHint| hint_text(h)), " \u{00b7} "@) + "\n"@
    }
}

/// A command as a list item: its title, and its keys if it has some.
pub open spec fn command_text(c: CommandEntry) -> Seq<char> {
    match c.keys {
        Some(k) => "- "@ + c.title@ + " (`"@ + k@ + "`)\n"@,
        None => "- "@ + c.title@ + "\n"@,
    }
}

/// The first `k` commands, a line each.
pub open spec fn command_lines(commands: Seq<CommandEntry>, k: nat) -> Seq<char>
    decreases k,
{
    if k == 0 {
        Seq::empty()
    } else {
        command_lines(commands, (k - 1) as nat) + command_text(commands[k - 1])
    }
}

/// The commands that apply here, under a heading, if there are any.
pub open spec fn commands_text(commands: Seq<CommandEntry>) -> Seq<char> {
    if commands.len() == 0 {
        Seq::empty()
    } else {
        "\n## Commands here\n\n"@ + command_lines(commands, commands.len())
    }
}

/// How to act on the screen.
pub open spec fn screen_footer() -> Seq<char> {
    "\nPress keys with `linear-tui tui press <keys>`, type with `linear-tui tui type <text>`, run a command with `linear-tui tui run <title>`.\n"@
}

/// The report as Markdown.
pub open spec fn markdown_text(r: ScreenReport) -> Seq<char> {
    "# linear-tui screen\n\n"@ + facts_text(r) + held_text(r.held@, r.held@.len()) + frame_text(r.lines@)
        + keys_text(r.keys@) + commands_text(r.commands@) + screen_footer()
}

fn push_field(out: &mut String, label: &str, value: &Option<String>)
    ensures
        final(out)@ == old(out)@ + field_line(label@, *value),
{
    match value {
        Some(v) => {
            push_str(out, "- ");
            push_str(out, label);
            push_str(out, ": ");
            push_str(out, v.as_str());
            push_str(out, "\n");
        },
        None => {},
    }
}

fn push_one_line(out: &mut String, text: &str)
    ensures
        final(out)@ == old(out)@ + one_line(text@),
{
    let v = chars_of(text);
    let ghost start = out@;
    let mut i: usize = 0;
    while i < v.len()
        invariant
            v@ == text@,
            i <= v@.len(),
            out@ == start + one_line(text@.take(i as int)),
        decreases v@.len() - i,
    {
        let c = if v[i] == '\n' {
            ' '
        } else {
            v[i]
        };
        push_char(out, c);
        assert(one_line(text@.take(i + 1)) =~= one_line(text@.take(i as int)).push(c));
        i = i + 1;
    }
    assert(text@.take(v@.len() as int) =~= text@);
}

impl ScreenReport {
    fn facts(&self) -> (s: String)
        ensures
            s@ == facts_text(*self),
    {
        let mut out = String::new();
        push_str(&mut out, "- Showing: ");
        push_str(&mut out, self.showing.as_str());
        push_str(&mut out, "\n- Focus: ");
        push_str(&mut out, self.focus.as_str());
        push_str(&mut out, "\n");
        proof {
            reveal_strlit("\n- Focus: ");
            reveal_strlit("- Focus: ");
            reveal_strlit("\n");
            assert("\n- Focus: "@ =~= "\n"@ + "- Focus: "@);
        }
        push_field(&mut out, "Open", &self.overlay);
        push_field(&mut out, "Issue", &self.issue);
        push_field(&mut out, "Status", &self.status);
        match &self.error {
            Some(e) => {
                push_str(&mut out, "- Error: ");
                push_one_line(&mut out, e.as_str());
                push_str(&mut out, "\n");
            },
            None => {},
        }
        if self.loading {
            push_str(&mut out, "- Loading: Linear has not answered everything yet\n");
        }
        if self.notes > 0 {
            push_str(&mut out, "- Notes: ");
            push_decimal(&mut out, self.notes as u64);
            push_str(&mut out, " waiting to be sent\n");
        }
        out
    }

    fn held_lines(&self) -> (s: String)
        ensures
            s@ == held_text(self.held@, self.held@.len()),
    {
        let mut out = String::new();
        let mut i: usize = 0;
        while i < self.held.len()
            invariant
                i <= self.held@.len(),
                out@ == held_text(self.held@, i as nat),
            decreases self.held@.len() - i,
        {
            push_str(&mut out, "- Held: ");
            push_str(&mut out, self.held[i].as_str());
            push_str(&mut out, "\n");
            i = i + 1;
        }
        out
    }

    fn frame(&self) -> (s: String)
        ensures
            s@ == frame_text(self.lines@),
    {
        let mut out = String::new();
        push_str(&mut out, "\n```text\n");
        push_joined(&mut out, &self.lines, "\n");
        push_str(&mut out, "\n```\n");
        out
    }

    fn key_line(&self) -> (s: String)
        ensures
            s@ == keys_text(self.keys@),
    {
        let mut out = String::new();
        if self.keys.len() == 0 {
            return out;
        }
        let mut hints: Vec<String> = Vec::new();
        let mut i: usize = 0;
        while i < self.keys.len()
            invariant
                i <= self.keys@.len(),
                texts(hints@) == self.keys@.take(i as int).map_values(|h: KeyHint| hint_text(h)),
            decreases self.keys@.len() - i,
        {
            let mut hint = String::new();
            push_str(&mut hint, "`");
            push_str(&mut hint, self.keys[i].keys.as_str());
            push_str(&mut hint, "` ");
            push_str(&mut hint, self.keys[i].does.as_str());
            let ghost before = texts(hints@);
            hints.push(hint);
            assert(texts(hints@) =~= before.push(hint_text(self.keys@[i as int])));
            assert(self.keys@.take(i + 1).map_values(|h: KeyHint| hint_text(h)) =~= self.keys@.take(
                i as int,
            ).map_values(|h: KeyHint| hint_text(h)).push(hint_text(self.keys@[i as int])));
            i = i + 1;
        }
        assert(self.keys@.take(self.keys@.len() as int) =~= self.keys@);
        push_str(&mut out, "\nKeys here: ");
        push_joined(&mut out, &hints, " \u{00b7} ");
        push_str(&mut out, "\n");
        out
    }

    fn command_list(&self) -> (s: String)
        ensures
            s@ == commands_text(self.commands@),
    {
        let mut out = String::new();
        if self.commands.len() == 0 {
            return out;
        }
        push_str(&mut out, "\n## Commands here\n\n");
        let ghost head = out@;
        let mut i: usize = 0;
        while i < self.commands.len()
            invariant
                i <= self.commands@.len(),
                out@ == head + command_lines(self.commands@, i as nat),
            decreases self.commands@.len() - i,
        {
            let command = &self.commands[i];
            push_str(&mut out, "- ");
            push_str(&mut out, command.title.as_str());
            match &command.keys {
                Some(keys) => {
                    push_str(&mut out, " (`");
                    push_str(&mut out, keys.as_str());
                    push_str(&mut out, "`)\n");
                },
                None => push_str(&mut out, "\n"),
            }
            assert(out@ =~= head + command_lines(self.commands@, (i + 1) as nat));
            i = i + 1;
        }
        out
    }

    /// The report as Markdown, for an agent's context.
    pub fn markdown(&self) -> (text: String)
        ensures
            text@ == markdown_text(*self),
    {
        let mut out = String::new();
        push_str(&mut out, "# linear-tui screen\n\n");
        let facts = self.facts();
        push_str(&mut out, facts.as_str());
        let held = self.held_lines();
        push_str(&mut out, held.as_str());
        let frame = self.frame();
        push_str(&mut out, frame.as_str());
        let keys = self.key_line();
        push_str(&mut out, keys.as_str());
        let commands = self.command_list();
        push_str(&mut out, commands.as_str());
        push_str(
            &mut out,
            "\nPress keys with `linear-tui tui press <keys>`, type with `linear-tui tui type <text>`, run a command with `linear-tui tui run <title>`.\n",
        );
        out
    }
}

/// The first `k` characters of `name` with each ASCII capital after the
/// first character turned into `_` and its small letter.
pub open spec fn snake_upto(name: Seq<char>, k: nat) -> Seq<char>
    decreases k,
{
    if k == 0 {
        Seq::empty()
    } else {
        let c = name[k - 1];
        snake_upto(name, (k - 1) as nat) + if 'A' <= c && c <= 'Z' {
            (if k > 1 { seq!['_'] } else { Seq::empty() }).push(ascii_lower(c))
        } else {
            seq![c]
        }
    }
}

/// A name in snake case: `IssueList` as `issue_list`.
pub fn snake(name: &str) -> (out: String)
    ensures
        out@ == snake_upto(name@, name@.len()),
{
    let v = chars_of(name);
    let mut out = String::new();
    let mut i: usize = 0;
    while i < v.len()
        invariant
            v@ == name@,
            i <= v@.len(),
            out@ == snake_upto(name@, i as nat),
        decreases v@.len() - i,
    {
        let c = v[i];
        let ghost before = out@;
        if 'A' <= c && c <= 'Z' {
            if i > 0 {
                push_char(&mut out, '_');
            }
            push_char(&mut out, lower_char(c));
        } else {
            push_char(&mut out, c);
        }
        assert(out@ =~= snake_upto(name@, (i + 1) as nat));
        i = i + 1;
    }
    out
}

/// Where in the sidebar the user is, with what the client knows to call it:
/// a view or a team is `None` before its name has loaded.
#[derive(Debug, Clone, PartialEq, Eq)]
pub enum Spot {
    MyIssues,
    Views,
    View(Option<String>),
    Team(Option<String>, Section),
    Favorite,
}

/// Where the user is: the sidebar entry, the page on screen (and, under an
/// open issue, the page it was opened from), and what those pages are of.
#[derive(Debug, Clone, PartialEq, Eq)]
pub struct Place {
    pub spot: Spot,
    pub screen: Screen,
    /// The page an open issue returns to.
    pub detail_return: Screen,
    /// The project page's project, by name.
    pub project: Option<String>,
    /// The cycle page's cycle, by what it is called.
    pub cycle: Option<String>,
    /// The open issue, by identifier.
    pub issue: Option<String>,
}

pub open spec fn section_word(section: Section) -> Seq<char> {
    match section {
        Section::Issues => "Issues"@,
        Section::Cycles => "Cycles"@,
        Section::Projects => "Projects"@,
        Section::Views => "Views"@,
    }
}

/// A team, by name, or `Team` before its name has loaded.
pub open spec fn team_name(name: Option<String>) -> Seq<char> {
    match name {
        Some(n) => n@,
        None => "Team"@,
    }
}

/// The sidebar entry, in words.
pub open spec fn spot_text(spot: Spot) -> Seq<char> {
    match spot {
        Spot::MyIssues => "My Issues"@,
        Spot::Views => "Views"@,
        Spot::View(Some(name)) => "view \u{201c}"@ + name@ + "\u{201d}"@,
        Spot::View(None) => "View"@,
        Spot::Team(name, section) => team_name(name) + " \u{203a} "@ + section_word(section),
        Spot::Favorite => "Favorites"@,
    }
}

/// The parts of where the user is: the sidebar entry, then the project or
/// cycle the page (or the issue open over it) is of, then the open issue.
pub open spec fn place_parts(place: Place) -> Seq<Seq<char>> {
    let behind = if place.screen == Screen::IssueDetail { place.detail_return } else { place.screen };
    let first = seq![spot_text(place.spot)];
    let with_project = match place.project {
        Some(p) => if behind == Screen::ProjectDetail { first.push(p@) } else { first },
        None => first,
    };
    let with_cycle = match place.cycle {
        Some(c) => if behind == Screen::CycleDetail { with_project.push(c@) } else { with_project },
        None => with_project,
    };
    match place.issue {
        Some(i) => if place.screen == Screen::IssueDetail { with_cycle.push(i@) } else { with_cycle },
        None => with_cycle,
    }
}

fn spot_label(spot: &Spot) -> (s: String)
    ensures
        s@ == spot_text(*spot),
{
    let mut s = String::new();
    match spot {
        Spot::MyIssues => push_str(&mut s, "My Issues"),
        Spot::Views => push_str(&mut s, "Views"),
        Spot::View(Some(name)) => {
            push_str(&mut s, "view \u{201c}");
            push_str(&mut s, name.as_str());
            push_str(&mut s, "\u{201d}");
        },
        Spot::View(None) => push_str(&mut s, "View"),
        Spot::Team(name, section) => {
            match name {
                Some(n) => push_str(&mut s, n.as_str()),
                None => push_str(&mut s, "Team"),
            }
            push_str(&mut s, " \u{203a} ");
            let word = match section {
                Section::Issues => "Issues",
                Section::Cycles => "Cycles",
                Section::Projects => "Projects",
                Section::Views => "Views",
            };
            push_str(&mut s, word);
        },
        Spot::Favorite => push_str(&mut s, "Favorites"),
    }
    assert(s@ =~= spot_text(*spot));
    s
}

/// Where the user is, in words: `Engineering › Issues › ENG-42`.
pub fn view_label(place: &Place) -> (label: String)
    ensures
        label@ == joined(place_parts(*place), " \u{203a} "@),
{
    let mut parts: Vec<String> = Vec::new();
    parts.push(spot_label(&place.spot));
    let behind = if place.screen == Screen::IssueDetail { place.detail_return } else { place.screen };
    if behind == Screen::ProjectDetail {
        if let Some(p) = &place.project {
            parts.push(p.clone());
        }
    }
    if behind == Screen::CycleDetail {
        if let Some(c) = &place.cycle {
            parts.push(c.clone());
        }
    }
    if place.screen == Screen::IssueDetail {
        if let Some(i) = &place.issue {
            parts.push(i.clone());
        }
    }
    assert(texts(parts@) =~= place_parts(*place));
    let mut label = String::new();
    push_joined(&mut label, &parts, " \u{203a} ");
    label
}

}
