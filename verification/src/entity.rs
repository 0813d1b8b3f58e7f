//! What the client is about: Linear's issues, teams, projects, and cycles,
//! and the notes it keeps beside them for a coding agent.
//!
//! Identifiers are Linear's opaque ids, held as text. Where Linear sends a
//! fractional number the logic orders by, the value here is the integer it is
//! ordered by; a workflow state's position is kept in thousandths.

use vstd::prelude::*;

verus! {

pub type IssueId = String;
pub type TeamId = String;
pub type UserId = String;
pub type WorkflowStateId = String;
pub type ProjectId = String;
pub type CycleId = String;
pub type LabelId = String;
pub type CommentId = String;
pub type MilestoneId = String;
pub type CustomViewId = String;

/// A reference to another object by its id alone.
#[derive(Debug, Clone, PartialEq, Eq)]
pub struct Ref {
    pub id: String,
}

/// Priority levels from the Linear API (0=None, 1=Urgent, 2=High, 3=Medium, 4=Low).
#[derive(Debug, Clone, Copy, PartialEq, Eq, Structural, Default)]
pub enum Priority {
    #[default]
    Unset,
    Urgent,
    High,
    Medium,
    Low,
}

/// Linear's number for a priority.
pub open spec fn priority_number(p: Priority) -> int {
    match p {
        Priority::Unset => 0,
        Priority::Urgent => 1,
        Priority::High => 2,
        Priority::Medium => 3,
        Priority::Low => 4,
    }
}

/// The priority a position in the priority menu stands for.
pub open spec fn priority_at(index: int) -> Priority {
    if index == 1 {
        Priority::Urgent
    } else if index == 2 {
        Priority::High
    } else if index == 3 {
        Priority::Medium
    } else if index == 4 {
        Priority::Low
    } else {
        Priority::Unset
    }
}

/// How a priority is named.
pub open spec fn priority_label(p: Priority) -> Seq<char> {
    match p {
        Priority::Unset => "None"@,
        Priority::Urgent => "Urgent"@,
        Priority::High => "High"@,
        Priority::Medium => "Medium"@,
        Priority::Low => "Low"@,
    }
}

impl Priority {
    /// Every level, in the order the priority menu lists them. Position in
    /// this list is what [`Self::as_index`] and [`Self::from_index`] map.
    pub fn all() -> (levels: [Priority; 5])
        ensures
            forall|i: int| 0 <= i < 5 ==> levels@[i] == priority_at(i),
    {
        [Priority::Unset, Priority::Urgent, Priority::High, Priority::Medium, Priority::Low]
    }

    pub fn label(&self) -> (s: &'static str)
        ensures
            s@ == priority_label(*self),
    {
        match self {
            Priority::Unset => "None",
            Priority::Urgent => "Urgent",
            Priority::High => "High",
            Priority::Medium => "Medium",
            Priority::Low => "Low",
        }
    }

    pub fn as_u8(self) -> (n: u8)
        ensures
            n == priority_number(self),
    {
        match self {
            Priority::Unset => 0,
            Priority::Urgent => 1,
            Priority::High => 2,
            Priority::Medium => 3,
            Priority::Low => 4,
        }
    }

    /// Index of this priority in the priority popup list (inverse of `from_index`).
    pub fn as_index(self) -> (i: usize)
        ensures
            i == priority_number(self),
            Self::from_index_spec(i as int) == self,
    {
        self.as_u8() as usize
    }

    pub open spec fn from_index_spec(index: int) -> Priority {
        priority_at(index)
    }

    pub fn from_index(index: usize) -> (p: Self)
        ensures
            p == priority_at(index as int),
            index <= 4 ==> priority_number(p) == index,
    {
        match index {
            1 => Priority::Urgent,
            2 => Priority::High,
            3 => Priority::Medium,
            4 => Priority::Low,
            _ => Priority::Unset,
        }
    }

    /// The level Linear's number names; any other number is no priority.
    pub fn from_number(n: u8) -> (p: Self)
        ensures
            p == priority_at(n as int),
    {
        Self::from_index(n as usize)
    }

    /// The level `delta` steps along the priority menu, wrapping round at
    /// either end, as the new-issue form's priority field cycles.
    pub fn cycled(self, delta: isize) -> (p: Self)
        ensures
            p == priority_at((priority_number(self) + delta) % 5),
    {
        let at: i128 = (self.as_index() as i128) + (delta as i128);
        let wrapped: i128 = ((at % 5) + 5) % 5;
        proof {
            assert(wrapped == (priority_number(self) + delta) % 5) by (nonlinear_arith)
                requires
                    at == priority_number(self) + delta,
                    wrapped == ((at % 5) + 5) % 5,
            {
            }
        }
        Self::from_index(wrapped as usize)
    }
}

/// Cycling the priority menu comes back where it started: five steps go
/// round once, and a step back undoes a step on.
pub proof fn lemma_cycling_comes_back(p: Priority, delta: int)
    ensures
        priority_at((priority_number(p) + 5) % 5) == p,
        priority_at((priority_number(priority_at((priority_number(p) + delta) % 5)) - delta) % 5) == p,
{
    assert(0 <= (priority_number(p) + delta) % 5 < 5);
    let q = priority_at((priority_number(p) + delta) % 5);
    assert(priority_number(q) == (priority_number(p) + delta) % 5);
    assert(((priority_number(p) + delta) % 5 - delta) % 5 == priority_number(p)) by (nonlinear_arith)
        requires
            0 <= priority_number(p) < 5,
    {
    }
}

/// Workflow state type categories from the Linear API. The set is Linear's
/// to extend, so a name this client does not know reads as `Unknown`.
#[derive(Debug, Clone, Copy, PartialEq, Eq, Structural)]
pub enum StateType {
    Triage,
    Backlog,
    Unstarted,
    Started,
    Completed,
    Cancelled,
    Duplicate,
    Unknown,
}

/// The category Linear's name for it stands for.
pub open spec fn state_type_named(name: Seq<char>) -> StateType {
    if name == "triage"@ {
        StateType::Triage
    } else if name == "backlog"@ {
        StateType::Backlog
    } else if name == "unstarted"@ {
        StateType::Unstarted
    } else if name == "started"@ {
        StateType::Started
    } else if name == "completed"@ {
        StateType::Completed
    } else if name == "canceled"@ || name == "cancelled"@ {
        StateType::Cancelled
    } else if name == "duplicate"@ {
        StateType::Duplicate
    } else {
        StateType::Unknown
    }
}

/// The name Linear gives a category.
pub open spec fn state_type_name(t: StateType) -> Seq<char> {
    match t {
        StateType::Triage => "triage"@,
        StateType::Backlog => "backlog"@,
        StateType::Unstarted => "unstarted"@,
        StateType::Started => "started"@,
        StateType::Completed => "completed"@,
        StateType::Cancelled => "canceled"@,
        StateType::Duplicate => "duplicate"@,
        StateType::Unknown => "unknown"@,
    }
}

/// Where a category sorts: triage first, then the workflow from the work
/// under way to what is done.
pub open spec fn state_rank(t: StateType) -> int {
    match t {
        StateType::Triage => 0,
        StateType::Started => 1,
        StateType::Unstarted => 2,
        StateType::Backlog => 3,
        StateType::Completed => 4,
        StateType::Cancelled | StateType::Duplicate => 5,
        StateType::Unknown => 6,
    }
}

impl StateType {
    /// The category a name from Linear stands for.
    pub fn from_name(name: &str) -> (t: Self)
        ensures
            t == state_type_named(name@),
    {
        if crate::text::same_text(name, "triage") {
            StateType::Triage
        } else if crate::text::same_text(name, "backlog") {
            StateType::Backlog
        } else if crate::text::same_text(name, "unstarted") {
            StateType::Unstarted
        } else if crate::text::same_text(name, "started") {
            StateType::Started
        } else if crate::text::same_text(name, "completed") {
            StateType::Completed
        } else if crate::text::same_text(name, "canceled") || crate::text::same_text(
            name,
            "cancelled",
        ) {
            StateType::Cancelled
        } else if crate::text::same_text(name, "duplicate") {
            StateType::Duplicate
        } else {
            StateType::Unknown
        }
    }

    /// The name Linear gives the category.
    pub fn as_str(self) -> (s: &'static str)
        ensures
            s@ == state_type_name(self),
    {
        match self {
            StateType::Triage => "triage",
            StateType::Backlog => "backlog",
            StateType::Unstarted => "unstarted",
            StateType::Started => "started",
            StateType::Completed => "completed",
            StateType::Cancelled => "canceled",
            StateType::Duplicate => "duplicate",
            StateType::Unknown => "unknown",
        }
    }

    /// Order Linear groups states in. Drives the order of grouped sections.
    pub fn rank(&self) -> (r: u8)
        ensures
            r == state_rank(*self),
    {
        match self {
            StateType::Triage => 0,
            StateType::Started => 1,
            StateType::Unstarted => 2,
            StateType::Backlog => 3,
            StateType::Completed => 4,
            StateType::Cancelled | StateType::Duplicate => 5,
            StateType::Unknown => 6,
        }
    }

    /// Whether the state counts as "active" work: started and unstarted.
    pub fn is_active(&self) -> (b: bool)
        ensures
            b == (*self == StateType::Started || *self == StateType::Unstarted),
    {
        match self {
            StateType::Started | StateType::Unstarted => true,
            _ => false,
        }
    }

    /// Whether the state belongs to Linear's Backlog view (backlog + triage).
    pub fn is_backlog(&self) -> (b: bool)
        ensures
            b == (*self == StateType::Backlog || *self == StateType::Triage),
    {
        match self {
            StateType::Backlog | StateType::Triage => true,
            _ => false,
        }
    }
}

#[derive(Debug, Clone, PartialEq, Eq)]
pub struct User {
    pub id: UserId,
    pub name: String,
    pub email: Option<String>,
    pub display_name: Option<String>,
}

#[derive(Debug, Clone, PartialEq, Eq)]
pub struct Team {
    pub id: TeamId,
    pub name: String,
    pub key: String,
    pub color: Option<String>,
    /// Whether the team runs cycles at all.
    pub cycles_enabled: bool,
}

#[derive(Debug, Clone, PartialEq, Eq)]
pub struct Viewer {
    pub id: UserId,
    pub name: String,
    pub display_name: Option<String>,
}

#[derive(Debug, Clone, PartialEq, Eq)]
pub struct WorkflowState {
    pub id: WorkflowStateId,
    pub name: String,
    pub color: Option<String>,
    pub state_type: Option<StateType>,
    /// Where the state sits in the team's workflow, in thousandths.
    pub position: Option<i64>,
}

#[derive(Debug, Clone, PartialEq, Eq)]
pub struct Milestone {
    pub id: MilestoneId,
    pub name: String,
}

#[derive(Debug, Clone, PartialEq, Eq)]
pub struct Label {
    pub id: LabelId,
    pub name: String,
    pub color: Option<String>,
}

#[derive(Debug, Clone, PartialEq, Eq)]
pub struct Comment {
    pub id: CommentId,
    pub body: String,
    pub created_at: Option<String>,
    pub edited_at: Option<String>,
    pub user: Option<User>,
    /// Set on a reply: the comment it answers.
    pub parent: Option<Ref>,
}

#[derive(Debug, Clone, PartialEq, Eq)]
pub struct Project {
    pub id: ProjectId,
    pub name: String,
    pub state: Option<String>,
    pub color: Option<String>,
    pub health: Option<String>,
    pub description: Option<String>,
    pub start_date: Option<String>,
    pub target_date: Option<String>,
    pub lead: Option<User>,
    pub url: Option<String>,
}

/// A saved view: a named issue filter the workspace shares.
#[derive(Debug, Clone, PartialEq, Eq)]
pub struct CustomView {
    pub id: String,
    pub name: String,
    pub description: Option<String>,
    pub color: Option<String>,
    /// Whether others see it: the team's, or the workspace's.
    pub shared: bool,
    /// Who made it.
    pub owner: Option<User>,
}

#[derive(Debug, Clone, PartialEq, Eq)]
pub struct Cycle {
    pub id: CycleId,
    pub name: Option<String>,
    pub number: Option<u64>,
    pub starts_at: Option<String>,
    pub ends_at: Option<String>,
}

/// What a cycle is called: its name, or `Cycle 12` for an unnamed one.
pub open spec fn cycle_label(c: Cycle) -> Seq<char> {
    match c.name {
        Some(name) => name@,
        None => "Cycle "@ + crate::text::decimal(
            match c.number {
                Some(n) => n as nat,
                None => 0,
            },
        ),
    }
}

impl Cycle {
    /// What a cycle is called: its name, or `Cycle 12` for an unnamed one.
    pub fn label(&self) -> (s: String)
        ensures
            s@ == cycle_label(*self),
    {
        match &self.name {
            Some(name) => name.clone(),
            None => {
                let mut s = String::new();
                crate::text::push_str(&mut s, "Cycle ");
                let n = match self.number {
                    Some(n) => n,
                    None => 0,
                };
                crate::text::push_decimal(&mut s, n);
                s
            },
        }
    }
}

/// A shallow reference to another issue: enough to name it and colour its
/// status.
#[derive(Debug, Clone, PartialEq, Eq)]
pub struct IssueRef {
    pub id: IssueId,
    pub identifier: String,
    pub title: String,
    pub state: Option<WorkflowState>,
}

#[derive(Debug, Clone, PartialEq, Eq)]
pub struct Issue {
    pub id: IssueId,
    pub identifier: String,
    pub title: String,
    pub priority: Priority,
    pub priority_label: Option<String>,
    pub state: Option<WorkflowState>,
    pub assignee: Option<User>,
    pub labels: Option<Vec<Label>>,
    pub description: Option<String>,
    pub created_at: Option<String>,
    pub updated_at: Option<String>,
    pub comments: Option<Vec<Comment>>,
    pub project: Option<Project>,
    pub project_milestone: Option<Milestone>,
    pub cycle: Option<Cycle>,
    /// Who filed the issue.
    pub creator: Option<User>,
    /// The estimate in points, written as the number reads (`3`, `0.5`).
    pub estimate: Option<String>,
    pub due_date: Option<String>,
    /// Parent issue, so sub-issues can nest under it in a list.
    pub parent: Option<IssueRef>,
    /// Sub-issues, fetched only for the detail view.
    pub children: Option<Vec<IssueRef>>,
    /// Permalink to the issue on linear.app.
    pub url: Option<String>,
    /// Branch name Linear suggests for this issue.
    pub branch_name: Option<String>,
    /// The team the issue belongs to.
    pub team: Option<Ref>,
}

/// What an issue list is narrowed to, besides its preset and search text.
#[derive(Debug, Clone, Default, PartialEq, Eq)]
pub struct IssueFilter {
    /// A workflow state, by name.
    pub status: Option<String>,
    pub priority: Option<Priority>,
}

impl IssueFilter {
    /// Whether it narrows anything.
    pub fn is_active(&self) -> (b: bool)
        ensures
            b == (self.status is Some || self.priority is Some),
    {
        self.status.is_some() || self.priority.is_some()
    }

    pub fn clear(&mut self)
        ensures
            final(self).status is None,
            final(self).priority is None,
    {
        self.status = None;
        self.priority = None;
    }
}

/// The issue a note is about.
#[derive(Debug, Clone, PartialEq, Eq)]
pub struct Subject {
    pub identifier: String,
    pub title: String,
}

/// One note, and what it is about.
#[derive(Debug, Clone, PartialEq, Eq)]
pub struct Note {
    /// The issue it is about, or `None` for the view as a whole.
    pub about: Option<Subject>,
    pub body: String,
}

/// The notes written and not yet sent, oldest first.
#[derive(Debug, Clone, Default, PartialEq, Eq)]
pub struct Notes(Vec<Note>);

impl View for Notes {
    type V = Seq<Note>;

    closed spec fn view(&self) -> Seq<Note> {
        self.0@
    }
}

impl Notes {
    pub fn new() -> (notes: Self)
        ensures
            notes@ == Seq::<Note>::empty(),
    {
        Notes(Vec::new())
    }

    /// How many notes wait to be sent.
    pub fn len(&self) -> (n: usize)
        ensures
            n == self@.len(),
    {
        self.0.len()
    }

    /// Whether there are none.
    pub fn is_empty(&self) -> (b: bool)
        ensures
            b == (self@.len() == 0),
    {
        self.0.len() == 0
    }

    /// The notes, oldest first.
    pub fn iter(&self) -> (notes: &[Note])
        ensures
            notes@ == self@,
    {
        self.0.as_slice()
    }

    pub fn push(&mut self, note: Note)
        ensures
            final(self)@ == old(self)@.push(note),
    {
        self.0.push(note);
    }

    pub fn clear(&mut self)
        ensures
            final(self)@ == Seq::<Note>::empty(),
    {
        self.0.clear();
    }
}

/// The notes after each of `ns` is pushed in turn onto `start`.
pub open spec fn after_pushes(start: Seq<Note>, ns: Seq<Note>) -> Seq<Note>
    decreases ns.len(),
{
    if ns.len() == 0 {
        start
    } else {
        after_pushes(start, ns.drop_last()).push(ns.last())
    }
}

/// Notes pushed one by one onto none are all there, in the order pushed:
/// after `k` pushes there are `k`, and none only when none was pushed.
pub proof fn lemma_pushed_notes_are_kept(ns: Seq<Note>)
    ensures
        after_pushes(Seq::empty(), ns) == ns,
        after_pushes(Seq::empty(), ns).len() == ns.len(),
        (after_pushes(Seq::empty(), ns).len() == 0) <==> ns.len() == 0,
    decreases ns.len(),
{
    if ns.len() > 0 {
        lemma_pushed_notes_are_kept(ns.drop_last());
        assert(ns.drop_last().push(ns.last()) =~= ns);
    }
}

/// Linear's three standing slices of a team's issues.
#[derive(Debug, Clone, Copy, PartialEq, Eq, Structural, Default)]
pub enum Preset {
    #[default]
    Active,
    Backlog,
    All,
}

/// The category of an issue's state, if it has one.
pub open spec fn issue_state_type(issue: Issue) -> Option<StateType> {
    match issue.state {
        Some(state) => state.state_type,
        None => None,
    }
}

/// Whether `preset` holds `issue`: Active keeps work under way, and an
/// issue whose category is unknown or missing, so nothing new to this
/// client vanishes from the default view; Backlog keeps backlog and triage;
/// All keeps everything.
pub open spec fn preset_admits(preset: Preset, issue: Issue) -> bool {
    match preset {
        Preset::All => true,
        Preset::Active => match issue_state_type(issue) {
            Some(t) => t == StateType::Started || t == StateType::Unstarted || t
                == StateType::Unknown,
            None => true,
        },
        Preset::Backlog => match issue_state_type(issue) {
            Some(t) => t == StateType::Backlog || t == StateType::Triage,
            None => false,
        },
    }
}

/// How a server-side filter on state categories reads: the categories it
/// keeps (`In`) or leaves out (`NotIn`), by Linear's names for them.
#[derive(Debug, Clone, PartialEq, Eq)]
pub enum CategoryClause {
    In(Vec<&'static str>),
    NotIn(Vec<&'static str>),
}

/// A clause as whether it keeps the named categories, and their names.
pub open spec fn clause_view(clause: CategoryClause) -> (bool, Seq<Seq<char>>) {
    match clause {
        CategoryClause::In(names) => (true, names@.map_values(|n: &'static str| n@)),
        CategoryClause::NotIn(names) => (false, names@.map_values(|n: &'static str| n@)),
    }
}

/// The server-side clause for each slice: Active is "none of the inactive
/// categories", Backlog is backlog and triage, All has none.
pub open spec fn preset_clause(preset: Preset) -> Option<(bool, Seq<Seq<char>>)> {
    match preset {
        Preset::All => None,
        Preset::Active => Some(
            (false, seq!["backlog"@, "triage"@, "completed"@, "canceled"@, "duplicate"@]),
        ),
        Preset::Backlog => Some((true, seq!["backlog"@, "triage"@])),
    }
}

impl Preset {
    pub fn all() -> (presets: [Preset; 3])
        ensures
            presets@ == seq![Preset::Active, Preset::Backlog, Preset::All],
    {
        let presets = [Preset::Active, Preset::Backlog, Preset::All];
        assert(presets@ =~= seq![Preset::Active, Preset::Backlog, Preset::All]);
        presets
    }

    pub fn label(&self) -> (s: &'static str)
        ensures
            s@ == match *self {
                Preset::Active => "Active"@,
                Preset::Backlog => "Backlog"@,
                Preset::All => "All issues"@,
            },
    {
        match self {
            Preset::Active => "Active",
            Preset::Backlog => "Backlog",
            Preset::All => "All issues",
        }
    }

    /// The `state` clause that selects this slice on the server, or `None`
    /// for no restriction. Active is written as "none of the inactive
    /// categories", so an issue in a category Linear adds later still comes
    /// back — the same fallback [`Self::admits`] makes on the client.
    pub fn state_filter(&self) -> (clause: Option<CategoryClause>)
        ensures
            match clause {
                Some(c) => preset_clause(*self) == Some(clause_view(c)),
                None => preset_clause(*self) is None,
            },
    {
        match self {
            Preset::All => None,
            Preset::Active => {
                let names = vec!["backlog", "triage", "completed", "canceled", "duplicate"];
                assert(names@.map_values(|n: &'static str| n@) =~= seq![
                    "backlog"@,
                    "triage"@,
                    "completed"@,
                    "canceled"@,
                    "duplicate"@,
                ]);
                Some(CategoryClause::NotIn(names))
            },
            Preset::Backlog => {
                let names = vec!["backlog", "triage"];
                assert(names@.map_values(|n: &'static str| n@) =~= seq!["backlog"@, "triage"@]);
                Some(CategoryClause::In(names))
            },
        }
    }

    /// Whether an issue belongs in this slice.
    pub fn admits(&self, issue: &Issue) -> (b: bool)
        ensures
            b == preset_admits(*self, *issue),
    {
        let state_type = match &issue.state {
            Some(s) => s.state_type,
            None => None,
        };
        match self {
            Preset::All => true,
            Preset::Active => match state_type {
                Some(t) => t.is_active() || t == StateType::Unknown,
                None => true,
            },
            Preset::Backlog => match state_type {
                Some(t) => t.is_backlog(),
                None => false,
            },
        }
    }
}


/// Whether a server-side clause, as [`clause_view`] reads it, keeps the
/// issues of the category Linear names `name`: no clause keeps everything.
pub open spec fn clause_keeps(clause: Option<(bool, Seq<Seq<char>>)>, name: Seq<char>) -> bool {
    match clause {
        None => true,
        Some((keeps, names)) => names.contains(name) == keeps,
    }
}

/// The slice the server sends and the slice the client keeps are the same:
/// for every preset and every category Linear names, the server's clause
/// keeps an issue of that category exactly when [`Preset::admits`] does —
/// a category new to this client included. (Linear spells the cancelled
/// category `canceled`; the British spelling, which this client also reads,
/// is not in the server's list.)
pub proof fn lemma_server_clause_agrees_with_admits(preset: Preset, issue: Issue, name: Seq<char>)
    requires
        issue.state matches Some(state) && state.state_type == Some(state_type_named(name)),
        name != "cancelled"@,
    ensures
        clause_keeps(preset_clause(preset), name) == preset_admits(preset, issue),
{
    reveal_strlit("triage");
    reveal_strlit("backlog");
    reveal_strlit("unstarted");
    reveal_strlit("started");
    reveal_strlit("completed");
    reveal_strlit("canceled");
    reveal_strlit("cancelled");
    reveal_strlit("duplicate");
    let list = seq!["backlog"@, "triage"@, "completed"@, "canceled"@, "duplicate"@];
    let short = seq!["backlog"@, "triage"@];
    let in_list = name == "backlog"@ || name == "triage"@ || name == "completed"@ || name
        == "canceled"@ || name == "duplicate"@;
    let in_short = name == "backlog"@ || name == "triage"@;
    assert(list.contains(name) == in_list) by {
        if in_list {
            if name == "backlog"@ {
                assert(list[0] == name);
            } else if name == "triage"@ {
                assert(list[1] == name);
            } else if name == "completed"@ {
                assert(list[2] == name);
            } else if name == "canceled"@ {
                assert(list[3] == name);
            } else {
                assert(list[4] == name);
            }
        } else {
            assert forall|k: int| 0 <= k < list.len() implies list[k] != name by {
                assert(k == 0 || k == 1 || k == 2 || k == 3 || k == 4);
            }
        }
    }
    assert(short.contains(name) == in_short) by {
        if in_short {
            if name == "backlog"@ {
                assert(short[0] == name);
            } else {
                assert(short[1] == name);
            }
        } else {
            assert forall|k: int| 0 <= k < short.len() implies short[k] != name by {
                assert(k == 0 || k == 1);
            }
        }
    }
    // The names differ in their first letters, or, for the three that
    // start with `c`, in their second letter or their length.
    assert("triage"@[0] == 't' && "backlog"@[0] == 'b' && "unstarted"@[0] == 'u' && "started"@[0]
        == 's' && "duplicate"@[0] == 'd');
    assert("completed"@[1] == 'o' && "canceled"@[1] == 'a' && "cancelled"@[1] == 'a');
    assert("canceled"@.len() == 8 && "cancelled"@.len() == 9 && "completed"@[0] == 'c'
        && "canceled"@[0] == 'c' && "cancelled"@[0] == 'c');
}

}
