//! The record of what an instance shows, as it writes it for agents to read:
//! where the user is, how the list on screen is sliced, and its rows.
//! Everything is named by Linear id, so a record still means the same page
//! after the sidebar reorders. The shapes here are a file format: they do
//! not change when a screen of the TUI is renamed.

use vstd::prelude::*;
use crate::entity::{cycle_label, priority_label, CustomView, Cycle, Issue, Preset, Priority, Project, Team, User};
use crate::grouping::assignee_name;
use crate::show::{some_text, state_name, user_text};
use crate::grouping::GroupBy;

verus! {

/// The version of the record this client writes and reads.
pub const VERSION: u32 = 1;

/// The Linear workspace a view is of.
#[derive(Debug, Clone, PartialEq, Eq)]
pub struct OrganizationRef {
    pub id: String,
    pub name: String,
    pub url_key: String,
}

#[derive(Debug, Clone, PartialEq, Eq)]
pub struct TeamRef {
    pub id: String,
    pub key: String,
    pub name: String,
}

/// A project or cycle, by id and by what it is called.
#[derive(Debug, Clone, PartialEq, Eq)]
pub struct NamedRef {
    pub id: String,
    pub name: String,
}

#[derive(Debug, Clone, PartialEq, Eq)]
pub struct IssueRef {
    pub id: String,
    pub identifier: String,
    pub title: String,
}

/// The part of a team's page on screen.
#[derive(Debug, Clone, Copy, PartialEq, Eq, Structural)]
pub enum Section {
    Issues,
    Cycles,
    Projects,
    Views,
}

/// Where in the sidebar the user is.
#[derive(Debug, Clone, PartialEq, Eq)]
pub enum Destination {
    MyIssues,
    Views,
    View { id: String, name: String },
    Team { team: TeamRef, section: Section },
    Favorite { id: String, title: String },
}

/// The page on screen.
#[derive(Debug, Clone, Copy, PartialEq, Eq, Structural)]
pub enum Screen {
    IssueList,
    IssueDetail,
    ProjectList,
    ProjectDetail,
    CycleList,
    CycleDetail,
    ViewList,
}

/// Which issue list: each keeps its own preset, filters and cursor.
#[derive(Debug, Clone, Copy, PartialEq, Eq, Structural)]
pub enum Source {
    Team,
    My,
    View,
    Project,
    Cycle,
}

/// How one issue list is sliced, and the issue under its cursor.
#[derive(Debug, Clone, PartialEq, Eq)]
pub struct ListSettings {
    pub source: Source,
    pub preset: Preset,
    /// A workflow state, by name.
    pub status: Option<String>,
    /// A priority, by label.
    pub priority: Option<String>,
    pub selected: Option<IssueRef>,
}

#[derive(Debug, Clone, Copy, PartialEq, Eq, Structural)]
pub enum RowKind {
    Issue,
    Project,
    Cycle,
    View,
}

/// One row of the list on screen, as a reader needs it.
#[derive(Debug, Clone, PartialEq, Eq)]
pub struct Row {
    pub kind: RowKind,
    pub id: String,
    pub identifier: Option<String>,
    pub title: String,
    pub state: Option<String>,
    pub assignee: Option<String>,
    pub priority: Option<String>,
    pub url: Option<String>,
}

/// What an instance showed when it last recorded its view.
#[derive(Debug, Clone, PartialEq)]
pub struct ViewSnapshot {
    pub version: u32,
    /// The repository it runs in, as a path.
    pub workspace: String,
    /// The directory it was started in, as a path.
    pub cwd: String,
    pub pid: u32,
    /// When it was recorded, `YYYY-MM-DDThh:mm:ssZ`.
    pub updated_at: String,
    /// When the instance quit, if it quit normally.
    pub closed_at: Option<String>,
    pub herdr_pane: Option<String>,
    pub organization: Option<OrganizationRef>,
    pub team: Option<TeamRef>,
    pub destination: Destination,
    pub screen: Screen,
    /// The project page on screen or behind the issue on screen.
    pub project: Option<NamedRef>,
    /// The cycle page on screen or behind the issue on screen.
    pub cycle: Option<NamedRef>,
    /// The issue on screen.
    pub issue: Option<IssueRef>,
    /// The term of a workspace-wide search on screen.
    pub search: Option<String>,
    pub group_by: GroupBy,
    pub lists: Vec<ListSettings>,
    /// The first rows of the list on screen.
    pub rows: Vec<Row>,
    /// How many rows the list has, recorded or not.
    pub rows_total: usize,
    pub selected_row: Option<usize>,
}

impl ViewSnapshot {
    /// The row under the cursor, if it was recorded.
    pub fn selected(&self) -> (row: Option<&Row>)
        ensures
            row == (match self.selected_row {
                Some(i) => if i < self.rows@.len() {
                    Some(&self.rows@[i as int])
                } else {
                    None
                },
                None => None,
            }),
    {
        match self.selected_row {
            Some(i) => if i < self.rows.len() {
                Some(&self.rows[i])
            } else {
                None
            },
            None => None,
        }
    }
}

/// Which instance: the repository it runs in (every worktree of one
/// repository shares it) and its process.
#[derive(Debug, Clone, PartialEq, Eq, Hash)]
pub struct InstanceId {
    /// The repository, as a path.
    pub workspace: String,
    pub pid: u32,
}

/// An instance as its record on disk and the operating system describe it.
#[derive(Debug, Clone, PartialEq)]
pub struct Instance {
    pub id: InstanceId,
    /// What it showed when it last recorded its view.
    pub view: ViewSnapshot,
    /// Whether its process is still there. A reused process id reads as
    /// running; the record's age says how far to trust it.
    pub running: bool,
}

impl Instance {
    /// Whether it quit normally. One that did not and whose process is gone
    /// was ended by a crash or a closed terminal.
    pub fn closed(&self) -> (b: bool)
        ensures
            b == self.view.closed_at is Some,
    {
        self.view.closed_at.is_some()
    }
}

fn copy_text(o: &Option<String>) -> (r: Option<String>)
    ensures
        some_text(r) == some_text(*o),
{
    match o {
        Some(v) => Some(v.clone()),
        None => None,
    }
}

fn name_of(u: &User) -> (r: String)
    ensures
        r@ == assignee_name(*u),
{
    match &u.display_name {
        Some(d) => d.clone(),
        None => u.name.clone(),
    }
}

/// A team as the record names it.
pub fn team_ref(team: &Team) -> (r: TeamRef)
    ensures
        r.id@ == team.id@,
        r.key@ == team.key@,
        r.name@ == team.name@,
{
    TeamRef { id: team.id.clone(), key: team.key.clone(), name: team.name.clone() }
}

/// An issue as the record names it.
pub fn issue_ref(issue: &Issue) -> (r: IssueRef)
    ensures
        r.id@ == issue.id@,
        r.identifier@ == issue.identifier@,
        r.title@ == issue.title@,
{
    IssueRef { id: issue.id.clone(), identifier: issue.identifier.clone(), title: issue.title.clone() }
}

/// An issue as a row: its identifier, title, state, assignee, priority
/// (where it has one) and link.
pub fn issue_row(issue: &Issue) -> (r: Row)
    ensures
        r.kind == RowKind::Issue,
        r.id@ == issue.id@,
        some_text(r.identifier) == Some(issue.identifier@),
        r.title@ == issue.title@,
        some_text(r.state) == state_name(issue.state),
        some_text(r.assignee) == user_text(issue.assignee),
        some_text(r.priority) == if issue.priority != Priority::Unset {
            Some(priority_label(issue.priority))
        } else {
            None
        },
        some_text(r.url) == some_text(issue.url),
{
    let state = match &issue.state {
        Some(s) => Some(s.name.clone()),
        None => None,
    };
    let assignee = match &issue.assignee {
        Some(u) => Some(name_of(u)),
        None => None,
    };
    let priority = if issue.priority != Priority::Unset {
        Some(issue.priority.label().to_string())
    } else {
        None
    };
    Row {
        kind: RowKind::Issue,
        id: issue.id.clone(),
        identifier: Some(issue.identifier.clone()),
        title: issue.title.clone(),
        state,
        assignee,
        priority,
        url: copy_text(&issue.url),
    }
}

/// A project as a row: its name, state, lead and link.
pub fn project_row(project: &Project) -> (r: Row)
    ensures
        r.kind == RowKind::Project,
        r.id@ == project.id@,
        r.identifier is None,
        r.title@ == project.name@,
        some_text(r.state) == some_text(project.state),
        some_text(r.assignee) == user_text(project.lead),
        r.priority is None,
        some_text(r.url) == some_text(project.url),
{
    let lead = match &project.lead {
        Some(u) => Some(name_of(u)),
        None => None,
    };
    Row {
        kind: RowKind::Project,
        id: project.id.clone(),
        identifier: None,
        title: project.name.clone(),
        state: copy_text(&project.state),
        assignee: lead,
        priority: None,
        url: copy_text(&project.url),
    }
}

/// A cycle as a row: what it is called, and nothing more.
pub fn cycle_row(cycle: &Cycle) -> (r: Row)
    ensures
        r.kind == RowKind::Cycle,
        r.id@ == cycle.id@,
        r.identifier is None,
        r.title@ == cycle_label(*cycle),
        r.state is None,
        r.assignee is None,
        r.priority is None,
        r.url is None,
{
    Row {
        kind: RowKind::Cycle,
        id: cycle.id.clone(),
        identifier: None,
        title: cycle.label(),
        state: None,
        assignee: None,
        priority: None,
        url: None,
    }
}

/// A saved view as a row: its name, and nothing more.
pub fn view_row(view: &CustomView) -> (r: Row)
    ensures
        r.kind == RowKind::View,
        r.id@ == view.id@,
        r.identifier is None,
        r.title@ == view.name@,
        r.state is None,
        r.assignee is None,
        r.priority is None,
        r.url is None,
{
    Row {
        kind: RowKind::View,
        id: view.id.clone(),
        identifier: None,
        title: view.name.clone(),
        state: None,
        assignee: None,
        priority: None,
        url: None,
    }
}

}
