//! What the UI asks of the network, and what comes back: the UI queues a
//! [`Request`], the main loop runs it, and the answer is delivered back. The
//! UI never waits on the network, so input and animation stay responsive.

use vstd::prelude::*;
use std::collections::VecDeque;
use crate::entity::{Preset, Priority};

verus! {

#[derive(Debug, Clone, PartialEq)]
pub enum Request {
    Teams,
    Viewer,
    TeamContext { team_id: String },
    Issues {
        team_id: String,
        after: Option<String>,
        /// Which slice to fetch. Linear filters by workflow category on the
        /// server, so Active means every active issue, not the active ones
        /// among the latest page.
        preset: Preset,
    },
    MyIssues { user_id: String, after: Option<String> },
    /// Workspace-wide full-text search, scoped to the current team.
    Search { term: String, team_id: Option<String> },
    /// Issues across the workspace matching what is typed into the command
    /// palette. `seq` tells a stale answer from the one for the latest query.
    PaletteSearch { term: String, seq: u64 },
    /// The saved views the user can open.
    CustomViews,
    /// The user's Favorites, for the sidebar.
    Favorites,
    /// One saved view's issues, as Linear evaluates the view's filter.
    ViewIssues { view_id: String, after: Option<String> },
    /// One saved project view's projects.
    ViewProjects { view_id: String, after: Option<String> },
    Projects { team_id: String, after: Option<String> },
    Cycles { team_id: String, after: Option<String> },
    IssueDetail { issue_id: String },
    ProjectIssues { project_id: String, after: Option<String> },
    CycleIssues { cycle_id: String, after: Option<String> },
    UpdateStatus { issue_id: String, state_id: String },
    UpdatePriority { issue_id: String, priority: Priority },
    UpdateAssignee { issue_id: String, assignee_id: Option<String> },
    CreateComment { issue_id: String, body: String },
    CreateIssue {
        team_id: String,
        title: String,
        description: Option<String>,
        priority: Priority,
    },
    /// Hand a URL to the desktop's default browser.
    OpenUrl(String),
}

/// Whether two optional texts are both absent or hold the same text.
pub open spec fn same_text_opt(a: Option<String>, b: Option<String>) -> bool {
    match (a, b) {
        (Some(x), Some(y)) => x@ == y@,
        (None, None) => true,
        _ => false,
    }
}

/// Whether two requests ask for the same thing: the same kind, and the same
/// text and values in every field.
pub open spec fn same_request(a: Request, b: Request) -> bool {
    match (a, b) {
        (Request::Teams, Request::Teams) => true,
        (Request::Viewer, Request::Viewer) => true,
        (Request::TeamContext { team_id: a_team_id }, Request::TeamContext { team_id: b_team_id }) => a_team_id@ == b_team_id@,
        (Request::Issues { team_id: a_team_id, after: a_after, preset: a_preset }, Request::Issues { team_id: b_team_id, after: b_after, preset: b_preset }) => a_team_id@ == b_team_id@ && same_text_opt(a_after, b_after) && a_preset == b_preset,
        (Request::MyIssues { user_id: a_user_id, after: a_after }, Request::MyIssues { user_id: b_user_id, after: b_after }) => a_user_id@ == b_user_id@ && same_text_opt(a_after, b_after),
        (Request::Search { term: a_term, team_id: a_team_id }, Request::Search { term: b_term, team_id: b_team_id }) => a_term@ == b_term@ && same_text_opt(a_team_id, b_team_id),
        (Request::PaletteSearch { term: a_term, seq: a_seq }, Request::PaletteSearch { term: b_term, seq: b_seq }) => a_term@ == b_term@ && a_seq == b_seq,
        (Request::CustomViews, Request::CustomViews) => true,
        (Request::Favorites, Request::Favorites) => true,
        (Request::ViewIssues { view_id: a_view_id, after: a_after }, Request::ViewIssues { view_id: b_view_id, after: b_after }) => a_view_id@ == b_view_id@ && same_text_opt(a_after, b_after),
        (Request::ViewProjects { view_id: a_view_id, after: a_after }, Request::ViewProjects { view_id: b_view_id, after: b_after }) => a_view_id@ == b_view_id@ && same_text_opt(a_after, b_after),
        (Request::Projects { team_id: a_team_id, after: a_after }, Request::Projects { team_id: b_team_id, after: b_after }) => a_team_id@ == b_team_id@ && same_text_opt(a_after, b_after),
        (Request::Cycles { team_id: a_team_id, after: a_after }, Request::Cycles { team_id: b_team_id, after: b_after }) => a_team_id@ == b_team_id@ && same_text_opt(a_after, b_after),
        (Request::IssueDetail { issue_id: a_issue_id }, Request::IssueDetail { issue_id: b_issue_id }) => a_issue_id@ == b_issue_id@,
        (Request::ProjectIssues { project_id: a_project_id, after: a_after }, Request::ProjectIssues { project_id: b_project_id, after: b_after }) => a_project_id@ == b_project_id@ && same_text_opt(a_after, b_after),
        (Request::CycleIssues { cycle_id: a_cycle_id, after: a_after }, Request::CycleIssues { cycle_id: b_cycle_id, after: b_after }) => a_cycle_id@ == b_cycle_id@ && same_text_opt(a_after, b_after),
        (Request::UpdateStatus { issue_id: a_issue_id, state_id: a_state_id }, Request::UpdateStatus { issue_id: b_issue_id, state_id: b_state_id }) => a_issue_id@ == b_issue_id@ && a_state_id@ == b_state_id@,
        (Request::UpdatePriority { issue_id: a_issue_id, priority: a_priority }, Request::UpdatePriority { issue_id: b_issue_id, priority: b_priority }) => a_issue_id@ == b_issue_id@ && a_priority == b_priority,
        (Request::UpdateAssignee { issue_id: a_issue_id, assignee_id: a_assignee_id }, Request::UpdateAssignee { issue_id: b_issue_id, assignee_id: b_assignee_id }) => a_issue_id@ == b_issue_id@ && same_text_opt(a_assignee_id, b_assignee_id),
        (Request::CreateComment { issue_id: a_issue_id, body: a_body }, Request::CreateComment { issue_id: b_issue_id, body: b_body }) => a_issue_id@ == b_issue_id@ && a_body@ == b_body@,
        (Request::CreateIssue { team_id: a_team_id, title: a_title, description: a_description, priority: a_priority }, Request::CreateIssue { team_id: b_team_id, title: b_title, description: b_description, priority: b_priority }) => a_team_id@ == b_team_id@ && a_title@ == b_title@ && same_text_opt(a_description, b_description) && a_priority == b_priority,
        (Request::OpenUrl(a), Request::OpenUrl(b)) => a@ == b@,
        _ => false,
    }
}

fn same_opt(a: &Option<String>, b: &Option<String>) -> (r: bool)
    ensures
        r == same_text_opt(*a, *b),
{
    match (a, b) {
        (Some(x), Some(y)) => *x == *y,
        (None, None) => true,
        _ => false,
    }
}

/// Whether two requests ask for the same thing.
pub fn same(a: &Request, b: &Request) -> (r: bool)
    ensures
        r == same_request(*a, *b),
{
    match (a, b) {
        (Request::Teams, Request::Teams) => true,
        (Request::Viewer, Request::Viewer) => true,
        (Request::TeamContext { team_id: a_team_id }, Request::TeamContext { team_id: b_team_id }) => *a_team_id == *b_team_id,
        (Request::Issues { team_id: a_team_id, after: a_after, preset: a_preset }, Request::Issues { team_id: b_team_id, after: b_after, preset: b_preset }) => *a_team_id == *b_team_id && same_opt(a_after, b_after) && *a_preset == *b_preset,
        (Request::MyIssues { user_id: a_user_id, after: a_after }, Request::MyIssues { user_id: b_user_id, after: b_after }) => *a_user_id == *b_user_id && same_opt(a_after, b_after),
        (Request::Search { term: a_term, team_id: a_team_id }, Request::Search { term: b_term, team_id: b_team_id }) => *a_term == *b_term && same_opt(a_team_id, b_team_id),
        (Request::PaletteSearch { term: a_term, seq: a_seq }, Request::PaletteSearch { term: b_term, seq: b_seq }) => *a_term == *b_term && *a_seq == *b_seq,
        (Request::CustomViews, Request::CustomViews) => true,
        (Request::Favorites, Request::Favorites) => true,
        (Request::ViewIssues { view_id: a_view_id, after: a_after }, Request::ViewIssues { view_id: b_view_id, after: b_after }) => *a_view_id == *b_view_id && same_opt(a_after, b_after),
        (Request::ViewProjects { view_id: a_view_id, after: a_after }, Request::ViewProjects { view_id: b_view_id, after: b_after }) => *a_view_id == *b_view_id && same_opt(a_after, b_after),
        (Request::Projects { team_id: a_team_id, after: a_after }, Request::Projects { team_id: b_team_id, after: b_after }) => *a_team_id == *b_team_id && same_opt(a_after, b_after),
        (Request::Cycles { team_id: a_team_id, after: a_after }, Request::Cycles { team_id: b_team_id, after: b_after }) => *a_team_id == *b_team_id && same_opt(a_after, b_after),
        (Request::IssueDetail { issue_id: a_issue_id }, Request::IssueDetail { issue_id: b_issue_id }) => *a_issue_id == *b_issue_id,
        (Request::ProjectIssues { project_id: a_project_id, after: a_after }, Request::ProjectIssues { project_id: b_project_id, after: b_after }) => *a_project_id == *b_project_id && same_opt(a_after, b_after),
        (Request::CycleIssues { cycle_id: a_cycle_id, after: a_after }, Request::CycleIssues { cycle_id: b_cycle_id, after: b_after }) => *a_cycle_id == *b_cycle_id && same_opt(a_after, b_after),
        (Request::UpdateStatus { issue_id: a_issue_id, state_id: a_state_id }, Request::UpdateStatus { issue_id: b_issue_id, state_id: b_state_id }) => *a_issue_id == *b_issue_id && *a_state_id == *b_state_id,
        (Request::UpdatePriority { issue_id: a_issue_id, priority: a_priority }, Request::UpdatePriority { issue_id: b_issue_id, priority: b_priority }) => *a_issue_id == *b_issue_id && *a_priority == *b_priority,
        (Request::UpdateAssignee { issue_id: a_issue_id, assignee_id: a_assignee_id }, Request::UpdateAssignee { issue_id: b_issue_id, assignee_id: b_assignee_id }) => *a_issue_id == *b_issue_id && same_opt(a_assignee_id, b_assignee_id),
        (Request::CreateComment { issue_id: a_issue_id, body: a_body }, Request::CreateComment { issue_id: b_issue_id, body: b_body }) => *a_issue_id == *b_issue_id && *a_body == *b_body,
        (Request::CreateIssue { team_id: a_team_id, title: a_title, description: a_description, priority: a_priority }, Request::CreateIssue { team_id: b_team_id, title: b_title, description: b_description, priority: b_priority }) => *a_team_id == *b_team_id && *a_title == *b_title && same_opt(a_description, b_description) && *a_priority == *b_priority,
        (Request::OpenUrl(a), Request::OpenUrl(b)) => *a == *b,
        _ => false,
    }
}

/// Where a cursor-paginated list stands.
#[derive(Debug, Clone, Default, PartialEq, Eq)]
pub struct PageInfo {
    pub has_next_page: bool,
    pub end_cursor: Option<String>,
}

/// One page of a cursor-paginated list.
#[derive(Debug)]
pub struct Page<T> {
    pub items: Vec<T>,
    pub page_info: PageInfo,
    /// True when this page extends the existing list rather than replacing it.
    pub append: bool,
}

impl<T> Page<T> {
    pub fn new(items: Vec<T>, page_info: PageInfo, append: bool) -> (page: Self)
        ensures
            page.items == items,
            page.page_info == page_info,
            page.append == append,
    {
        Page { items, page_info, append }
    }
}

/// The cursor of a next-page fetch.
pub open spec fn cursor_of(request: Request) -> Option<String> {
    match request {
        Request::Issues { after, .. } => after,
        Request::MyIssues { after, .. } => after,
        Request::ViewIssues { after, .. } => after,
        Request::ViewProjects { after, .. } => after,
        Request::Projects { after, .. } => after,
        Request::Cycles { after, .. } => after,
        Request::ProjectIssues { after, .. } => after,
        Request::CycleIssues { after, .. } => after,
        _ => None,
    }
}

/// The issue an optimistic change already patched locally.
pub open spec fn patched_of(request: Request) -> Option<String> {
    match request {
        Request::UpdateStatus { issue_id, .. } => Some(issue_id),
        Request::UpdatePriority { issue_id, .. } => Some(issue_id),
        Request::UpdateAssignee { issue_id, .. } => Some(issue_id),
        _ => None,
    }
}

/// What failed, as the error popup phrases it.
pub open spec fn failure_text(request: Request) -> Seq<char> {
    match request {
        Request::Teams => "Failed to load teams"@,
        Request::Viewer => "Failed to identify current user"@,
        Request::TeamContext { .. } => "Failed to load team context"@,
        Request::Issues { .. } => "Failed to load issues"@,
        Request::MyIssues { .. } => "Failed to load my issues"@,
        Request::Search { .. } => "Search failed"@,
        Request::PaletteSearch { .. } => "Search failed"@,
        Request::CustomViews => "Failed to load views"@,
        Request::Favorites => "Failed to load favorites"@,
        Request::ViewIssues { .. } => "Failed to load view issues"@,
        Request::ViewProjects { .. } => "Failed to load view projects"@,
        Request::Projects { .. } => "Failed to load projects"@,
        Request::Cycles { .. } => "Failed to load cycles"@,
        Request::IssueDetail { .. } => "Failed to load detail"@,
        Request::ProjectIssues { .. } => "Failed to load project issues"@,
        Request::CycleIssues { .. } => "Failed to load cycle issues"@,
        Request::UpdateStatus { .. } => "Failed to update status"@,
        Request::UpdatePriority { .. } => "Failed to update priority"@,
        Request::UpdateAssignee { .. } => "Failed to update assignee"@,
        Request::CreateComment { .. } => "Failed to post comment"@,
        Request::CreateIssue { .. } => "Failed to create issue"@,
        Request::OpenUrl(_) => "Failed to open browser"@,
    }
}

impl Request {
    /// The page cursor this request continues from, if it is a next-page fetch.
    pub fn cursor(&self) -> (c: Option<&str>)
        ensures
            match c {
                Some(c) => cursor_of(*self) matches Some(after) && after@ == c@,
                None => cursor_of(*self) is None,
            },
    {
        let after = match self {
            Request::Issues { after, .. } => after,
            Request::MyIssues { after, .. } => after,
            Request::ViewIssues { after, .. } => after,
            Request::ViewProjects { after, .. } => after,
            Request::Projects { after, .. } => after,
            Request::Cycles { after, .. } => after,
            Request::ProjectIssues { after, .. } => after,
            Request::CycleIssues { after, .. } => after,
            _ => return None,
        };
        match after {
            Some(a) => Some(a.as_str()),
            None => None,
        }
    }

    /// The issue an optimistic mutation already patched locally, whose copy
    /// must be re-read from the server if the mutation fails.
    pub fn patched_issue(&self) -> (id: Option<&String>)
        ensures
            match id {
                Some(id) => patched_of(*self) == Some(*id),
                None => patched_of(*self) is None,
            },
    {
        match self {
            Request::UpdateStatus { issue_id, .. } => Some(issue_id),
            Request::UpdatePriority { issue_id, .. } => Some(issue_id),
            Request::UpdateAssignee { issue_id, .. } => Some(issue_id),
            _ => None,
        }
    }

    /// What failed, as the error popup phrases it.
    pub fn failure(&self) -> (s: &'static str)
        ensures
            s@ == failure_text(*self),
    {
        match self {
            Request::Teams => "Failed to load teams",
            Request::Viewer => "Failed to identify current user",
            Request::TeamContext { .. } => "Failed to load team context",
            Request::Issues { .. } => "Failed to load issues",
            Request::MyIssues { .. } => "Failed to load my issues",
            Request::Search { .. } => "Search failed",
            Request::PaletteSearch { .. } => "Search failed",
            Request::CustomViews => "Failed to load views",
            Request::Favorites => "Failed to load favorites",
            Request::ViewIssues { .. } => "Failed to load view issues",
            Request::ViewProjects { .. } => "Failed to load view projects",
            Request::Projects { .. } => "Failed to load projects",
            Request::Cycles { .. } => "Failed to load cycles",
            Request::IssueDetail { .. } => "Failed to load detail",
            Request::ProjectIssues { .. } => "Failed to load project issues",
            Request::CycleIssues { .. } => "Failed to load cycle issues",
            Request::UpdateStatus { .. } => "Failed to update status",
            Request::UpdatePriority { .. } => "Failed to update priority",
            Request::UpdateAssignee { .. } => "Failed to update assignee",
            Request::CreateComment { .. } => "Failed to post comment",
            Request::CreateIssue { .. } => "Failed to create issue",
            Request::OpenUrl(_) => "Failed to open browser",
        }
    }
}

/// What failed, as the error popup and the headless commands phrase it.
pub fn failure(request: &Request) -> (s: &'static str)
    ensures
        s@ == failure_text(*request),
{
    request.failure()
}

/// Whether `request` is already among `queue`.
pub open spec fn queued(queue: Seq<Request>, request: Request) -> bool {
    exists|i: int| 0 <= i < queue.len() && #[trigger] same_request(queue[i], request)
}

/// Whether no two requests of `queue` ask for the same thing.
pub open spec fn distinct(queue: Seq<Request>) -> bool {
    forall|i: int, j: int| 0 <= i < j < queue.len() ==> !#[trigger] same_request(queue[i], queue[j])
}

/// Requests waiting for the main loop, and what is already on its way.
#[derive(Debug, Default)]
pub struct Outbox {
    /// Requests queued by the UI, drained and run by the main loop.
    pub requests: VecDeque<Request>,
    /// Number of requests currently in flight.
    pub inflight: usize,
    /// Text the main loop should push to the system clipboard via OSC 52.
    pub clipboard: Option<String>,
}

impl Outbox {
    /// Queue a request, unless the same one already waits: a held-down key
    /// cannot pile up identical fetches.
    pub fn push(&mut self, req: Request)
        ensures
            final(self).requests@ == (if queued(old(self).requests@, req) {
                old(self).requests@
            } else {
                old(self).requests@.push(req)
            }),
            final(self).inflight == old(self).inflight,
            final(self).clipboard == old(self).clipboard,
    {
        let mut i: usize = 0;
        while i < self.requests.len()
            invariant
                self.requests@ == old(self).requests@,
                self.inflight == old(self).inflight,
                self.clipboard == old(self).clipboard,
                i <= self.requests@.len(),
                forall|j: int| 0 <= j < i ==> !#[trigger] same_request(self.requests@[j], req),
            decreases self.requests@.len() - i,
        {
            if same(&self.requests[i], &req) {
                return;
            }
            i = i + 1;
        }
        self.requests.push_back(req);
    }
}

/// Asking for the same thing is an equivalence: every request asks for
/// what it asks for, and the relation reads the same both ways.
pub proof fn lemma_same_request_equivalence(a: Request, b: Request)
    ensures
        same_request(a, a),
        same_request(a, b) == same_request(b, a),
{
}

/// Queueing keeps the queue free of duplicates, and what was pushed then
/// waits in it: no two requests waiting ask for the same thing.
pub proof fn lemma_push_keeps_queue_distinct(queue: Seq<Request>, req: Request)
    requires
        distinct(queue),
    ensures
        distinct(if queued(queue, req) {
            queue
        } else {
            queue.push(req)
        }),
        queued(if queued(queue, req) {
            queue
        } else {
            queue.push(req)
        }, req),
{
    lemma_same_request_equivalence(req, req);
    if !queued(queue, req) {
        let q = queue.push(req);
        assert forall|i: int, j: int| 0 <= i < j < q.len() implies !#[trigger] same_request(q[i], q[j]) by {
            if j == queue.len() {
                assert(q[i] == queue[i]);
                assert(!same_request(queue[i], req));
            } else {
                assert(q[i] == queue[i] && q[j] == queue[j]);
            }
        }
        assert(q[queue.len() as int] == req);
    }
}

}
