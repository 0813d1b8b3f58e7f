//! How an issue list is sliced and stacked before it reaches the screen.
//!
//! Linear never shows a flat list of issues: a view is a preset (Active,
//! Backlog, All) crossed with a grouping (by status, by assignee, …), and the
//! result is a stack of labelled sections you can collapse. This module is
//! that transformation, on plain slices: a section names its issues by their
//! place in the list it was built from.

use vstd::prelude::*;
use crate::entity::{
    Issue, Priority, StateType, User, priority_label, priority_number, state_rank,
};
use crate::look::{
    Color, Role, hex_color, hex_color_spec, priority_color, priority_color_spec, priority_glyph,
    priority_glyph_spec, state_color, state_color_spec, state_glyph, state_glyph_spec,
};
use crate::text::{decimal, push_decimal, push_str};

verus! {

/// Which axis a list stacks its sections along.
#[derive(Debug, Clone, Copy, PartialEq, Eq, Structural)]
pub enum GroupBy {
    Status,
    Assignee,
    Priority,
    Project,
    /// One section holding the whole list.
    Ungrouped,
}

/// A grouping as the configuration file names it.
#[derive(Debug, Clone, Copy, PartialEq, Eq, Structural, Default)]
pub enum GroupByName {
    #[default]
    Status,
    Assignee,
    Priority,
    Project,
    Ungrouped,
}

/// The order the toggle key walks the groupings in.
pub open spec fn next_grouping(by: GroupBy) -> GroupBy {
    match by {
        GroupBy::Status => GroupBy::Assignee,
        GroupBy::Assignee => GroupBy::Priority,
        GroupBy::Priority => GroupBy::Project,
        GroupBy::Project => GroupBy::Ungrouped,
        GroupBy::Ungrouped => GroupBy::Status,
    }
}

impl GroupBy {
    pub fn from_config(name: GroupByName) -> (by: Self)
        ensures
            by == match name {
                GroupByName::Status => GroupBy::Status,
                GroupByName::Assignee => GroupBy::Assignee,
                GroupByName::Priority => GroupBy::Priority,
                GroupByName::Project => GroupBy::Project,
                GroupByName::Ungrouped => GroupBy::Ungrouped,
            },
    {
        match name {
            GroupByName::Status => GroupBy::Status,
            GroupByName::Assignee => GroupBy::Assignee,
            GroupByName::Priority => GroupBy::Priority,
            GroupByName::Project => GroupBy::Project,
            GroupByName::Ungrouped => GroupBy::Ungrouped,
        }
    }

    /// Every grouping, in the order the picker lists them.
    pub fn all() -> (all: [GroupBy; 5])
        ensures
            all@ == seq![
                GroupBy::Status,
                GroupBy::Assignee,
                GroupBy::Priority,
                GroupBy::Project,
                GroupBy::Ungrouped,
            ],
    {
        let all = [
            GroupBy::Status,
            GroupBy::Assignee,
            GroupBy::Priority,
            GroupBy::Project,
            GroupBy::Ungrouped,
        ];
        assert(all@ =~= seq![
            GroupBy::Status,
            GroupBy::Assignee,
            GroupBy::Priority,
            GroupBy::Project,
            GroupBy::Ungrouped,
        ]);
        all
    }

    pub fn label(&self) -> (s: &'static str)
        ensures
            s@ == match *self {
                GroupBy::Status => "Status"@,
                GroupBy::Assignee => "Assignee"@,
                GroupBy::Priority => "Priority"@,
                GroupBy::Project => "Project"@,
                GroupBy::Ungrouped => "None"@,
            },
    {
        match self {
            GroupBy::Status => "Status",
            GroupBy::Assignee => "Assignee",
            GroupBy::Priority => "Priority",
            GroupBy::Project => "Project",
            GroupBy::Ungrouped => "None",
        }
    }

    /// Cycle order for the key that toggles grouping.
    pub fn next(self) -> (by: Self)
        ensures
            by == next_grouping(self),
    {
        match self {
            GroupBy::Status => GroupBy::Assignee,
            GroupBy::Assignee => GroupBy::Priority,
            GroupBy::Priority => GroupBy::Project,
            GroupBy::Project => GroupBy::Ungrouped,
            GroupBy::Ungrouped => GroupBy::Status,
        }
    }
}

/// Walking the toggle five times comes back to where it started, and not
/// sooner: every grouping is passed on the way.
pub proof fn lemma_next_visits_every_grouping(by: GroupBy)
    ensures
        next_grouping(next_grouping(next_grouping(next_grouping(next_grouping(by))))) == by,
        next_grouping(by) != by,
        next_grouping(next_grouping(by)) != by,
        next_grouping(next_grouping(next_grouping(by))) != by,
        next_grouping(next_grouping(next_grouping(next_grouping(by)))) != by,
{
}

/// What std's `str::to_lowercase` gives for a text: Unicode's lowercase
/// mapping, character by character, with a final capital sigma read in its
/// word.
pub uninterp spec fn lowercase_text(s: Seq<char>) -> Seq<char>;

/// `s` in lowercase, with std's `str::to_lowercase`.
#[verifier::external_body]
fn lowercase(s: &str) -> (r: String)
    ensures
        r@ == lowercase_text(s@),
{
    s.to_lowercase()
}

/// Whether `a` sorts before `b`, character by character as `String`'s
/// order compares them (UTF-8 keeps the order of code points).
pub open spec fn text_less(a: Seq<char>, b: Seq<char>) -> bool
    decreases a.len(),
{
    if a.len() == 0 {
        b.len() > 0
    } else if b.len() == 0 {
        false
    } else if a[0] != b[0] {
        (a[0] as int) < (b[0] as int)
    } else {
        text_less(a.drop_first(), b.drop_first())
    }
}

pub proof fn lemma_text_less_irreflexive(a: Seq<char>)
    ensures
        !text_less(a, a),
    decreases a.len(),
{
    if a.len() > 0 {
        lemma_text_less_irreflexive(a.drop_first());
    }
}

pub proof fn lemma_text_less_total(a: Seq<char>, b: Seq<char>)
    ensures
        a == b || text_less(a, b) || text_less(b, a),
        !(text_less(a, b) && text_less(b, a)),
    decreases a.len(),
{
    if a.len() > 0 && b.len() > 0 {
        if a[0] == b[0] {
            lemma_text_less_total(a.drop_first(), b.drop_first());
            if a.drop_first() == b.drop_first() {
                assert(a =~= seq![a[0]] + a.drop_first());
                assert(b =~= seq![b[0]] + b.drop_first());
            }
        } else {
            assert((a[0] as int) != (b[0] as int));
        }
    } else if a.len() == 0 && b.len() == 0 {
        assert(a =~= b);
    }
}

pub proof fn lemma_text_less_transitive(a: Seq<char>, b: Seq<char>, c: Seq<char>)
    requires
        text_less(a, b),
        text_less(b, c),
    ensures
        text_less(a, c),
    decreases a.len(),
{
    if a.len() > 0 && b.len() > 0 && c.len() > 0 && a[0] == b[0] && b[0] == c[0] {
        lemma_text_less_transitive(a.drop_first(), b.drop_first(), c.drop_first());
    }
}

/// Whether `a` sorts before `b`.
pub(crate) fn text_before(a: &str, b: &str) -> (r: bool)
    ensures
        r == text_less(a@, b@),
{
    let x = crate::text::chars_of(a);
    let y = crate::text::chars_of(b);
    let mut i: usize = 0;
    assert(a@.subrange(0, a@.len() as int) =~= a@);
    assert(b@.subrange(0, b@.len() as int) =~= b@);
    while i < x.len() && i < y.len()
        invariant
            x@ == a@,
            y@ == b@,
            i <= x@.len(),
            i <= y@.len(),
            text_less(a@, b@) == text_less(a@.subrange(i as int, a@.len() as int), b@.subrange(i as int, b@.len() as int)),
        decreases x@.len() - i,
    {
        if x[i] != y[i] {
            return x[i] < y[i];
        }
        assert(a@.subrange(i as int, a@.len() as int).drop_first() =~= a@.subrange(i + 1, a@.len() as int));
        assert(b@.subrange(i as int, b@.len() as int).drop_first() =~= b@.subrange(i + 1, b@.len() as int));
        i = i + 1;
    }
    i < y.len()
}

/// Where a section sorts: a class, an order inside it, and a name, compared
/// in that order.
pub type RankKey = (int, int, Seq<char>);

pub open spec fn rank_less(a: RankKey, b: RankKey) -> bool {
    a.0 < b.0 || (a.0 == b.0 && (a.1 < b.1 || (a.1 == b.1 && text_less(a.2, b.2))))
}

pub proof fn lemma_rank_order(a: RankKey, b: RankKey, c: RankKey)
    ensures
        !rank_less(a, a),
        a == b || rank_less(a, b) || rank_less(b, a),
        !(rank_less(a, b) && rank_less(b, a)),
        rank_less(a, b) && rank_less(b, c) ==> rank_less(a, c),
{
    lemma_text_less_irreflexive(a.2);
    lemma_text_less_total(a.2, b.2);
    if rank_less(a, b) && rank_less(b, c) && a.0 == b.0 && b.0 == c.0 && a.1 == b.1 && b.1 == c.1 {
        lemma_text_less_transitive(a.2, b.2, c.2);
    }
}

/// A section's sort key as the program holds it: the workflow position is
/// kept as it is and read in reverse, the state furthest along first.
struct Rank {
    class: u8,
    position: i64,
    name: String,
}

impl Rank {
    spec fn key(&self) -> RankKey {
        (self.class as int, -self.position, self.name@)
    }
}

fn rank_before(a: &Rank, b: &Rank) -> (r: bool)
    ensures
        r == rank_less(a.key(), b.key()),
{
    if a.class != b.class {
        a.class < b.class
    } else if a.position != b.position {
        a.position > b.position
    } else {
        text_before(a.name.as_str(), b.name.as_str())
    }
}

/// The category a state's issues are filed under.
pub open spec fn category(t: Option<StateType>) -> StateType {
    match t {
        Some(t) => t,
        None => StateType::Unknown,
    }
}

/// What an assignee is called: the display name, else the name.
pub open spec fn assignee_name(user: User) -> Seq<char> {
    match user.display_name {
        Some(d) => d@,
        None => user.name@,
    }
}

/// The key of the section `issue` falls into. Keys are what folding
/// remembers, so they name the group by id rather than by its label: two
/// people who share a name are two groups, and a rename keeps the fold.
pub open spec fn key_of(issue: Issue, by: GroupBy) -> Seq<char> {
    match by {
        GroupBy::Ungrouped => Seq::empty(),
        GroupBy::Status => match issue.state {
            Some(state) => "status:"@ + state.id@,
            None => "status:none"@,
        },
        GroupBy::Priority => "priority:"@ + decimal(priority_number(issue.priority) as nat),
        GroupBy::Assignee => match issue.assignee {
            Some(user) => "assignee:"@ + user.id@,
            None => "assignee:none"@,
        },
        GroupBy::Project => match issue.project {
            Some(project) => "project:"@ + project.id@,
            None => "project:none"@,
        },
    }
}

/// Urgent first, no priority last.
pub open spec fn priority_order(p: Priority) -> int {
    match p {
        Priority::Urgent => 0,
        Priority::High => 1,
        Priority::Medium => 2,
        Priority::Low => 3,
        Priority::Unset => 4,
    }
}

/// Where the section that `issue` opens sorts. Within a category Linear
/// lists the state furthest along the workflow first — In Review above In
/// Progress — so the position counts down.
pub open spec fn rank_of(issue: Issue, by: GroupBy) -> RankKey {
    match by {
        GroupBy::Ungrouped => (0, 0, Seq::empty()),
        GroupBy::Status => match issue.state {
            Some(state) => (
                state_rank(category(state.state_type)),
                -(match state.position {
                    Some(p) => p as int,
                    None => 0,
                }),
                state.name@,
            ),
            None => (255, 0, Seq::empty()),
        },
        GroupBy::Priority => (priority_order(issue.priority), 0, Seq::empty()),
        GroupBy::Assignee => match issue.assignee {
            Some(user) => (0, 0, lowercase_text(assignee_name(user))),
            None => (1, 0, Seq::empty()),
        },
        GroupBy::Project => match issue.project {
            Some(project) => (0, 0, lowercase_text(project.name@)),
            None => (1, 0, Seq::empty()),
        },
    }
}

/// The colour Linear gave, if it reads as one.
pub open spec fn given_color(color: Option<String>) -> Option<Color> {
    match color {
        Some(c) => match hex_color_spec(c@) {
            Some((r, g, b)) => Some(Color::Rgb(r, g, b)),
            None => None,
        },
        None => None,
    }
}

/// How the section that `issue` opens is drawn: its label, colour and glyph.
pub open spec fn head_of(issue: Issue, by: GroupBy) -> (Seq<char>, Color, Seq<char>) {
    match by {
        GroupBy::Ungrouped => (Seq::empty(), Color::Themed(Role::Muted), Seq::empty()),
        GroupBy::Status => match issue.state {
            Some(state) => (
                state.name@,
                match given_color(state.color) {
                    Some(c) => c,
                    None => state_color_spec(category(state.state_type)),
                },
                state_glyph_spec(category(state.state_type)),
            ),
            None => ("No status"@, Color::Themed(Role::Muted), state_glyph_spec(StateType::Unknown)),
        },
        GroupBy::Priority => (
            priority_label(issue.priority),
            priority_color_spec(issue.priority),
            priority_glyph_spec(issue.priority),
        ),
        GroupBy::Assignee => match issue.assignee {
            Some(user) => (assignee_name(user), Color::Themed(Role::Accent), "\u{25c6}"@),
            None => ("Unassigned"@, Color::Themed(Role::Muted), "\u{25c7}"@),
        },
        GroupBy::Project => match issue.project {
            Some(project) => (
                project.name@,
                match given_color(project.color) {
                    Some(c) => c,
                    None => Color::Themed(Role::Secondary),
                },
                "\u{25a3}"@,
            ),
            None => ("No project"@, Color::Themed(Role::Muted), "\u{25a1}"@),
        },
    }
}

fn section_key(issue: &Issue, by: GroupBy) -> (key: String)
    ensures
        key@ == key_of(*issue, by),
{
    let mut key = String::new();
    match by {
        GroupBy::Ungrouped => {},
        GroupBy::Status => match &issue.state {
            Some(state) => {
                push_str(&mut key, "status:");
                push_str(&mut key, state.id.as_str());
            },
            None => push_str(&mut key, "status:none"),
        },
        GroupBy::Priority => {
            push_str(&mut key, "priority:");
            push_decimal(&mut key, issue.priority.as_u8() as u64);
        },
        GroupBy::Assignee => match &issue.assignee {
            Some(user) => {
                push_str(&mut key, "assignee:");
                push_str(&mut key, user.id.as_str());
            },
            None => push_str(&mut key, "assignee:none"),
        },
        GroupBy::Project => match &issue.project {
            Some(project) => {
                push_str(&mut key, "project:");
                push_str(&mut key, project.id.as_str());
            },
            None => push_str(&mut key, "project:none"),
        },
    }
    key
}

fn color_given(color: &Option<String>) -> (c: Option<Color>)
    ensures
        c == given_color(*color),
{
    match color {
        Some(text) => match hex_color(text.as_str()) {
            Some((r, g, b)) => Some(Color::Rgb(r, g, b)),
            None => None,
        },
        None => None,
    }
}

fn section_rank(issue: &Issue, by: GroupBy) -> (rank: Rank)
    ensures
        rank.key() == rank_of(*issue, by),
{
    match by {
        GroupBy::Ungrouped => Rank { class: 0, position: 0, name: String::new() },
        GroupBy::Status => match &issue.state {
            Some(state) => {
                let kind = match state.state_type {
                    Some(t) => t,
                    None => StateType::Unknown,
                };
                let position = match state.position {
                    Some(p) => p,
                    None => 0,
                };
                Rank { class: kind.rank(), position, name: state.name.clone() }
            },
            None => Rank { class: 255, position: 0, name: String::new() },
        },
        GroupBy::Priority => {
            let class: u8 = match issue.priority {
                Priority::Urgent => 0,
                Priority::High => 1,
                Priority::Medium => 2,
                Priority::Low => 3,
                Priority::Unset => 4,
            };
            Rank { class, position: 0, name: String::new() }
        },
        GroupBy::Assignee => match &issue.assignee {
            Some(user) => {
                let name = match &user.display_name {
                    Some(d) => d.as_str(),
                    None => user.name.as_str(),
                };
                Rank { class: 0, position: 0, name: lowercase(name) }
            },
            None => Rank { class: 1, position: 0, name: String::new() },
        },
        GroupBy::Project => match &issue.project {
            Some(project) => Rank {
                class: 0,
                position: 0,
                name: lowercase(project.name.as_str()),
            },
            None => Rank { class: 1, position: 0, name: String::new() },
        },
    }
}

fn section_head(issue: &Issue, by: GroupBy) -> (head: (String, Color, &'static str))
    ensures
        (head.0@, head.1, head.2@) == head_of(*issue, by),
{
    match by {
        GroupBy::Ungrouped => {
            proof {
                reveal_strlit("");
            }
            (String::new(), Color::Themed(Role::Muted), "")
        },
        GroupBy::Status => match &issue.state {
            Some(state) => {
                let kind = match state.state_type {
                    Some(t) => t,
                    None => StateType::Unknown,
                };
                let color = match color_given(&state.color) {
                    Some(c) => c,
                    None => state_color(kind),
                };
                (state.name.clone(), color, state_glyph(kind))
            },
            None => {
                let mut label = String::new();
                push_str(&mut label, "No status");
                (label, Color::Themed(Role::Muted), state_glyph(StateType::Unknown))
            },
        },
        GroupBy::Priority => {
            let mut label = String::new();
            push_str(&mut label, issue.priority.label());
            (label, priority_color(issue.priority), priority_glyph(issue.priority))
        },
        GroupBy::Assignee => match &issue.assignee {
            Some(user) => {
                let name = match &user.display_name {
                    Some(d) => d.clone(),
                    None => user.name.clone(),
                };
                (name, Color::Themed(Role::Accent), "\u{25c6}")
            },
            None => {
                let mut label = String::new();
                push_str(&mut label, "Unassigned");
                (label, Color::Themed(Role::Muted), "\u{25c7}")
            },
        },
        GroupBy::Project => match &issue.project {
            Some(project) => {
                let color = match color_given(&project.color) {
                    Some(c) => c,
                    None => Color::Themed(Role::Secondary),
                };
                (project.name.clone(), color, "\u{25a3}")
            },
            None => {
                let mut label = String::new();
                push_str(&mut label, "No project");
                (label, Color::Themed(Role::Muted), "\u{25a1}")
            },
        },
    }
}


/// The id of the issue `issue` is a sub-issue of, if any.
pub open spec fn parent_id(issue: Issue) -> Option<Seq<char>> {
    match issue.parent {
        Some(p) => Some(p.id@),
        None => None,
    }
}

/// Whether some issue of the section has id `id`.
pub open spec fn holds_id(issues: Seq<Issue>, members: Seq<usize>, id: Seq<char>) -> bool {
    exists|q: int| 0 <= q < members.len() && #[trigger] issues[members[q] as int].id@ == id
}

/// Whether the issue at `members[q]` is a sub-issue whose parent is in the
/// section too: it waits for its parent rather than opening a row of its own.
pub open spec fn waits(issues: Seq<Issue>, members: Seq<usize>, q: int) -> bool {
    match parent_id(issues[members[q] as int]) {
        Some(pid) => holds_id(issues, members, pid),
        None => false,
    }
}

/// Whether the issue at `members[q]` is the first issue of the section that
/// stands on its own and has its id: the one its children sit under.
pub open spec fn adopts(issues: Seq<Issue>, members: Seq<usize>, q: int) -> bool {
    &&& !waits(issues, members, q)
    &&& forall|r: int|
        0 <= r < q && !waits(issues, members, r) ==> #[trigger] issues[members[r] as int].id@
            != issues[members[q] as int].id@
}

/// Whether the issue at `members[q]` waits for a parent that stands on its
/// own with id `id`.
pub open spec fn child_of(issues: Seq<Issue>, members: Seq<usize>, q: int, id: Seq<char>) -> bool {
    waits(issues, members, q) && parent_id(issues[members[q] as int]) == Some(id)
}

/// The children among the first `k` issues of the section of an issue with
/// id `id`, in list order, one level in.
pub open spec fn children_upto(issues: Seq<Issue>, members: Seq<usize>, id: Seq<char>, k: nat) -> Seq<
    (usize, u8),
>
    decreases k,
{
    if k == 0 {
        Seq::empty()
    } else {
        let before = children_upto(issues, members, id, (k - 1) as nat);
        if child_of(issues, members, k - 1, id) {
            before.push((members[k - 1], 1u8))
        } else {
            before
        }
    }
}

/// Whether some issue that stands on its own has id `id`.
pub open spec fn some_root_is(issues: Seq<Issue>, members: Seq<usize>, id: Seq<char>) -> bool {
    exists|r: int|
        0 <= r < members.len() && !waits(issues, members, r) && #[trigger] issues[members[r] as int].id@
            == id
}

/// What the issue at `members[q]` contributes in its place: nothing for one
/// that waits for its parent; else its own row, and below it, for the first
/// issue of its id, its children.
pub open spec fn block(issues: Seq<Issue>, members: Seq<usize>, q: int) -> Seq<(usize, u8)> {
    if waits(issues, members, q) {
        Seq::empty()
    } else if adopts(issues, members, q) {
        seq![(members[q], 0u8)] + children_upto(
            issues,
            members,
            issues[members[q] as int].id@,
            members.len(),
        )
    } else {
        seq![(members[q], 0u8)]
    }
}

/// The blocks of the first `k` issues, one after another.
pub open spec fn blocks_upto(issues: Seq<Issue>, members: Seq<usize>, k: nat) -> Seq<(usize, u8)>
    decreases k,
{
    if k == 0 {
        Seq::empty()
    } else {
        blocks_upto(issues, members, (k - 1) as nat) + block(issues, members, k - 1)
    }
}

/// Among the first `k` issues, those that wait for a parent that is itself
/// a sub-issue here (a grandchild) or otherwise sits under no row: kept, one
/// level in, rather than dropped.
pub open spec fn strays_upto(issues: Seq<Issue>, members: Seq<usize>, k: nat) -> Seq<(usize, u8)>
    decreases k,
{
    if k == 0 {
        Seq::empty()
    } else {
        let before = strays_upto(issues, members, (k - 1) as nat);
        let q = k - 1;
        if waits(issues, members, q) && !some_root_is(
            issues,
            members,
            parent_id(issues[members[q] as int])->0,
        ) {
            before.push((members[q], 1u8))
        } else {
            before
        }
    }
}

/// A section's issues with each sub-issue pulled up to sit directly under
/// its parent, indented.
pub open spec fn nested(issues: Seq<Issue>, members: Seq<usize>) -> Seq<(usize, u8)> {
    blocks_upto(issues, members, members.len()) + strays_upto(issues, members, members.len())
}

/// Whether some issue of the section has the id `id`.
fn find_id(issues: &[Issue], members: &Vec<usize>, id: &String) -> (found: bool)
    requires
        forall|q: int| 0 <= q < members@.len() ==> members@[q] < issues@.len(),
    ensures
        found == holds_id(issues@, members@, id@),
{
    let mut q: usize = 0;
    while q < members.len()
        invariant
            q <= members@.len(),
            forall|r: int| 0 <= r < members@.len() ==> members@[r] < issues@.len(),
            forall|r: int| 0 <= r < q ==> #[trigger] issues@[members@[r] as int].id@ != id@,
        decreases members@.len() - q,
    {
        if issues[members[q]].id == *id {
            assert(issues@[members@[q as int] as int].id@ == id@);
            return true;
        }
        q = q + 1;
    }
    false
}

/// Pull each sub-issue up to sit directly under its parent, indented.
///
/// Linear shows a child beneath the issue it belongs to rather than wherever
/// its own update time happens to land it, which is the difference between a
/// list you can read as a tree and one you have to cross-reference.
fn nest_sub_issues(issues: &[Issue], members: &Vec<usize>) -> (rows: Vec<(usize, u8)>)
    requires
        forall|q: int| 0 <= q < members@.len() ==> members@[q] < issues@.len(),
    ensures
        rows@ == nested(issues@, members@),
{
    let n = members.len();
    let ghost iss = issues@;
    let ghost mem = members@;
    // Which issues wait for a parent in the section.
    let mut waiting: Vec<bool> = Vec::new();
    let mut q: usize = 0;
    while q < n
        invariant
            n == mem.len(),
            iss == issues@,
            mem == members@,
            q <= n,
            forall|r: int| 0 <= r < n ==> mem[r] < iss.len(),
            waiting@.len() == q,
            forall|r: int| 0 <= r < q ==> waiting@[r] == waits(iss, mem, r),
        decreases n - q,
    {
        let w = match &issues[members[q]].parent {
            Some(p) => find_id(issues, members, &p.id),
            None => false,
        };
        waiting.push(w);
        q = q + 1;
    }
    let mut rows: Vec<(usize, u8)> = Vec::new();
    let mut q: usize = 0;
    while q < n
        invariant
            n == mem.len(),
            iss == issues@,
            mem == members@,
            q <= n,
            forall|r: int| 0 <= r < n ==> mem[r] < iss.len(),
            waiting@.len() == n,
            forall|r: int| 0 <= r < n ==> waiting@[r] == waits(iss, mem, r),
            rows@ == blocks_upto(iss, mem, q as nat),
        decreases n - q,
    {
        if !waiting[q] {
            let id = &issues[members[q]].id;
            rows.push((members[q], 0u8));
            // Only the first issue standing on its own with this id takes
            // the children.
            let mut first = true;
            let mut r: usize = 0;
            while r < q
                invariant
                    n == mem.len(),
                    iss == issues@,
                    mem == members@,
                    r <= q < n,
                    forall|x: int| 0 <= x < n ==> mem[x] < iss.len(),
                    waiting@.len() == n,
                    forall|x: int| 0 <= x < n ==> waiting@[x] == waits(iss, mem, x),
                    *id == iss[mem[q as int] as int].id,
                    first == forall|x: int|
                        0 <= x < r && !waits(iss, mem, x) ==> #[trigger] iss[mem[x] as int].id@
                            != id@,
                decreases q - r,
            {
                if !waiting[r] && issues[members[r]].id == *id {
                    first = false;
                }
                r = r + 1;
            }
            let ghost before = rows@;
            if first {
                let mut c: usize = 0;
                while c < n
                    invariant
                        n == mem.len(),
                        iss == issues@,
                        mem == members@,
                        q < n,
                        c <= n,
                        forall|x: int| 0 <= x < n ==> mem[x] < iss.len(),
                        waiting@.len() == n,
                        forall|x: int| 0 <= x < n ==> waiting@[x] == waits(iss, mem, x),
                        *id == iss[mem[q as int] as int].id,
                        rows@ == before + children_upto(iss, mem, id@, c as nat),
                    decreases n - c,
                {
                    if waiting[c] {
                        match &issues[members[c]].parent {
                            Some(p) => {
                                if p.id == *id {
                                    rows.push((members[c], 1u8));
                                }
                            },
                            None => {},
                        }
                    }
                    proof {
                        let k = (c + 1) as nat;
                        assert(children_upto(iss, mem, id@, k) == (if child_of(iss, mem, c as int, id@) {
                            children_upto(iss, mem, id@, c as nat).push((mem[c as int], 1u8))
                        } else {
                            children_upto(iss, mem, id@, c as nat)
                        }));
                    }
                    c = c + 1;
                }
            }
            proof {
                assert(rows@ =~= blocks_upto(iss, mem, q as nat) + block(iss, mem, q as int));
            }
        } else {
            proof {
                assert(rows@ =~= blocks_upto(iss, mem, q as nat) + block(iss, mem, q as int));
            }
        }
        q = q + 1;
    }
    // What sits under no row is kept, one level in.
    let ghost blocks = rows@;
    let mut q: usize = 0;
    while q < n
        invariant
            n == mem.len(),
            iss == issues@,
            mem == members@,
            q <= n,
            forall|r: int| 0 <= r < n ==> mem[r] < iss.len(),
            waiting@.len() == n,
            forall|r: int| 0 <= r < n ==> waiting@[r] == waits(iss, mem, r),
            blocks == blocks_upto(iss, mem, n as nat),
            rows@ == blocks + strays_upto(iss, mem, q as nat),
        decreases n - q,
    {
        if waiting[q] {
            let ghost pid = parent_id(iss[mem[q as int] as int])->0;
            let mut adopted = false;
            match &issues[members[q]].parent {
                Some(p) => {
                    let mut r: usize = 0;
                    while r < n
                        invariant
                            n == mem.len(),
                            iss == issues@,
                            mem == members@,
                            r <= n,
                            forall|x: int| 0 <= x < n ==> mem[x] < iss.len(),
                            waiting@.len() == n,
                            forall|x: int| 0 <= x < n ==> waiting@[x] == waits(iss, mem, x),
                            p.id@ == pid,
                            adopted == exists|x: int|
                                0 <= x < r && !waits(iss, mem, x) && #[trigger] iss[mem[x] as int].id@
                                    == pid,
                        decreases n - r,
                    {
                        if !waiting[r] && issues[members[r]].id == p.id {
                            adopted = true;
                            assert(iss[mem[r as int] as int].id@ == pid);
                        }
                        r = r + 1;
                    }
                },
                None => {},
            }
            if !adopted {
                rows.push((members[q], 1u8));
            }
        }
        proof {
            assert(rows@ =~= blocks + strays_upto(iss, mem, (q + 1) as nat));
        }
        q = q + 1;
    }
    rows
}


/// One labelled stack of issues.
pub struct Section {
    /// Stable identity, used as the key for collapse state so that reordering
    /// or a refetch does not silently re-expand what the user folded away.
    pub key: String,
    pub label: String,
    pub color: Color,
    pub glyph: &'static str,
    pub collapsed: bool,
    /// Issues in display order, by their place in the list grouped, each
    /// with the indent depth of a sub-issue.
    pub issues: Vec<(usize, u8)>,
}

/// The places, among the first `n` issues, of those whose section key is
/// `key`, in list order.
pub open spec fn members_of(issues: Seq<Issue>, by: GroupBy, key: Seq<char>, n: nat) -> Seq<usize>
    decreases n,
{
    if n == 0 {
        Seq::empty()
    } else {
        let before = members_of(issues, by, key, (n - 1) as nat);
        if key_of(issues[n - 1], by) == key {
            before.push((n - 1) as usize)
        } else {
            before
        }
    }
}

/// Whether issue `j` is the first of the list with its section key: the
/// issue its section is opened by, drawn after, and sorted by.
pub open spec fn opens_section(issues: Seq<Issue>, by: GroupBy, j: int) -> bool {
    forall|i: int| 0 <= i < j ==> #[trigger] key_of(issues[i], by) != key_of(issues[j], by)
}

/// The places of the issues that open a section, among the first `n`.
pub open spec fn openers(issues: Seq<Issue>, by: GroupBy, n: nat) -> Seq<usize>
    decreases n,
{
    if n == 0 {
        Seq::empty()
    } else {
        let before = openers(issues, by, (n - 1) as nat);
        if opens_section(issues, by, n - 1) {
            before.push((n - 1) as usize)
        } else {
            before
        }
    }
}

/// Whether the section opened by issue `a` comes before the one opened by
/// issue `b`: by rank, and between equal ranks by which opens first.
pub open spec fn sorts_before(issues: Seq<Issue>, by: GroupBy, a: int, b: int) -> bool {
    rank_less(rank_of(issues[a], by), rank_of(issues[b], by)) || (rank_of(issues[a], by)
        == rank_of(issues[b], by) && a < b)
}

/// The issue that opens the section with key `key`.
pub open spec fn opener_of(issues: Seq<Issue>, by: GroupBy, key: Seq<char>) -> int {
    members_of(issues, by, key, issues.len())[0] as int
}

/// Whether the folded sections, by key, include `key`.
pub open spec fn folded(collapsed: Seq<String>, key: Seq<char>) -> bool {
    exists|c: int| 0 <= c < collapsed.len() && #[trigger] collapsed[c]@ == key
}

/// Whether `section` is the one that issue `j` opens, as it is drawn: its
/// key, its head, whether it is folded, and its issues, nested.
pub open spec fn section_opened_by(
    issues: Seq<Issue>,
    by: GroupBy,
    collapsed: Seq<String>,
    section: Section,
    j: int,
) -> bool {
    &&& 0 <= j < issues.len()
    &&& section.key@ == key_of(issues[j], by)
    &&& opener_of(issues, by, section.key@) == j
    &&& (section.label@, section.color, section.glyph@) == head_of(issues[j], by)
    &&& section.collapsed == folded(collapsed, section.key@)
    &&& section.issues@ == nested(issues, members_of(issues, by, section.key@, issues.len()))
}

proof fn lemma_members_bounded(issues: Seq<Issue>, by: GroupBy, key: Seq<char>, n: nat)
    requires
        n <= usize::MAX,
    ensures
        forall|q: int|
            0 <= q < members_of(issues, by, key, n).len() ==> #[trigger] members_of(
                issues,
                by,
                key,
                n,
            )[q] < n && key_of(issues[members_of(issues, by, key, n)[q] as int], by) == key,
    decreases n,
{
    if n > 0 {
        let before = members_of(issues, by, key, (n - 1) as nat);
        lemma_members_bounded(issues, by, key, (n - 1) as nat);
        assert forall|q: int| 0 <= q < members_of(issues, by, key, n).len() implies #[trigger] members_of(
                issues,
                by,
                key,
                n,
            )[q] < n && key_of(issues[members_of(issues, by, key, n)[q] as int], by) == key by {
            if q < before.len() {
                assert(members_of(issues, by, key, n)[q] == before[q]);
            }
        }
    }
}

proof fn lemma_members_grow(issues: Seq<Issue>, by: GroupBy, key: Seq<char>, m: nat, n: nat)
    requires
        m <= n,
    ensures
        members_of(issues, by, key, m).len() <= members_of(issues, by, key, n).len(),
        forall|q: int|
            0 <= q < members_of(issues, by, key, m).len() ==> #[trigger] members_of(
                issues,
                by,
                key,
                m,
            )[q] == members_of(issues, by, key, n)[q],
    decreases n,
{
    if m < n {
        lemma_members_grow(issues, by, key, m, (n - 1) as nat);
    }
}

proof fn lemma_members_none(issues: Seq<Issue>, by: GroupBy, key: Seq<char>, n: nat)
    requires
        forall|i: int| 0 <= i < n ==> #[trigger] key_of(issues[i], by) != key,
    ensures
        members_of(issues, by, key, n).len() == 0,
    decreases n,
{
    if n > 0 {
        lemma_members_none(issues, by, key, (n - 1) as nat);
    }
}

/// An issue that opens its section comes first among the section's issues.
proof fn lemma_opener(issues: Seq<Issue>, by: GroupBy, j: int)
    requires
        0 <= j < issues.len(),
        issues.len() <= usize::MAX,
        opens_section(issues, by, j),
    ensures
        opener_of(issues, by, key_of(issues[j], by)) == j,
        members_of(issues, by, key_of(issues[j], by), issues.len()).len() > 0,
{
    let key = key_of(issues[j], by);
    lemma_members_none(issues, by, key, j as nat);
    assert(members_of(issues, by, key, (j + 1) as nat) =~= seq![j as usize]);
    lemma_members_grow(issues, by, key, (j + 1) as nat, issues.len());
    assert(members_of(issues, by, key, (j + 1) as nat)[0] == j as usize);
    assert(members_of(issues, by, key, issues.len())[0] == j as usize);
}

/// Whether one of `sections` has the key `key`.
pub open spec fn has_section(sections: Seq<Section>, key: Seq<char>) -> bool {
    exists|i: int| 0 <= i < sections.len() && #[trigger] sections[i].key@ == key
}

/// Whether one of the issues at `heads` has the key `key`.
pub open spec fn opened(issues: Seq<Issue>, by: GroupBy, heads: Seq<usize>, key: Seq<char>) -> bool {
    exists|t: int| 0 <= t < heads.len() && #[trigger] key_of(issues[heads[t] as int], by) == key
}

/// Whether `t` is among `s`.
pub open spec fn appears(s: Seq<usize>, t: int) -> bool {
    exists|i: int| 0 <= i < s.len() && s[i] == t
}

/// The places of the issues whose key is `key`, in list order.
fn members_with(keys: &Vec<String>, key: &String, Ghost(issues): Ghost<Seq<Issue>>, Ghost(by): Ghost<GroupBy>) -> (members: Vec<usize>)
    requires
        keys@.len() == issues.len(),
        forall|j: int| 0 <= j < keys@.len() ==> #[trigger] keys@[j]@ == key_of(issues[j], by),
    ensures
        members@ == members_of(issues, by, key@, issues.len()),
{
    let mut members: Vec<usize> = Vec::new();
    let mut j: usize = 0;
    while j < keys.len()
        invariant
            keys@.len() == issues.len(),
            forall|i: int| 0 <= i < keys@.len() ==> #[trigger] keys@[i]@ == key_of(issues[i], by),
            j <= keys@.len(),
            members@ == members_of(issues, by, key@, j as nat),
        decreases keys@.len() - j,
    {
        if keys[j] == *key {
            members.push(j);
        }
        assert(keys@[j as int]@ == key_of(issues[j as int], by));
        j = j + 1;
    }
    members
}

/// The order the sections opened by `heads` are shown in, as places in
/// `heads`: sorted by rank, ties kept in the order they opened (a stable
/// insertion sort).
fn sort_heads(heads: &Vec<usize>, ranks: &Vec<Rank>, Ghost(issues): Ghost<Seq<Issue>>, Ghost(by): Ghost<GroupBy>) -> (order: Vec<usize>)
    requires
        ranks@.len() == heads@.len(),
        forall|t: int| 0 <= t < heads@.len() ==> heads@[t] < issues.len(),
        forall|t: int| #![trigger heads@[t]] 0 <= t < heads@.len() ==> ranks@[t].key() == rank_of(issues[heads@[t] as int], by),
        forall|t: int, u: int| 0 <= t < u < heads@.len() ==> heads@[t] < heads@[u],
    ensures
        order@.len() == heads@.len(),
        forall|i: int| 0 <= i < order@.len() ==> order@[i] < heads@.len(),
        forall|i: int, k: int| 0 <= i < k < order@.len() ==> order@[i] != order@[k],
        forall|t: int| 0 <= t < heads@.len() ==> #[trigger] appears(order@, t),
        forall|i: int, k: int|
            0 <= i < k < order@.len() ==> sorts_before(
                issues,
                by,
                heads@[order@[i] as int] as int,
                heads@[order@[k] as int] as int,
            ),
{
    let m = heads.len();
    let mut order: Vec<usize> = Vec::new();
    let mut k: usize = 0;
    while k < m
        invariant
            m == heads@.len(),
            ranks@.len() == m,
            forall|t: int| 0 <= t < m ==> heads@[t] < issues.len(),
            forall|t: int| #![trigger heads@[t]] 0 <= t < m ==> ranks@[t].key() == rank_of(issues[heads@[t] as int], by),
            forall|t: int, u: int| 0 <= t < u < m ==> heads@[t] < heads@[u],
            k <= m,
            order@.len() == k,
            forall|i: int| 0 <= i < order@.len() ==> order@[i] < k,
            forall|i: int, l: int| 0 <= i < l < order@.len() ==> order@[i] != order@[l],
            forall|t: int| 0 <= t < k ==> #[trigger] appears(order@, t),
            forall|i: int, l: int|
                0 <= i < l < order@.len() ==> sorts_before(
                    issues,
                    by,
                    heads@[order@[i] as int] as int,
                    heads@[order@[l] as int] as int,
                ),
        decreases m - k,
    {
        let mut p: usize = 0;
        while p < k && !rank_before(&ranks[k], &ranks[order[p]])
            invariant
                m == heads@.len(),
                ranks@.len() == m,
                k < m,
                order@.len() == k,
                forall|i: int| 0 <= i < order@.len() ==> order@[i] < k,
                p <= k,
                forall|i: int|
                    0 <= i < p ==> !rank_less(ranks@[k as int].key(), #[trigger] ranks@[order@[i] as int].key()),
            decreases k - p,
        {
            p = p + 1;
        }
        let ghost old_order = order@;
        let ghost hk = heads@[k as int] as int;
        proof {
            assert forall|i: int| 0 <= i < old_order.len() implies #[trigger] heads@[old_order[i] as int] < hk by {
                assert(old_order[i] < k);
            }
            assert forall|i: int| 0 <= i < p implies sorts_before(issues, by, heads@[old_order[i] as int] as int, hk) by {
                let hi = heads@[old_order[i] as int] as int;
                assert(ranks@[old_order[i] as int].key() == rank_of(issues[hi], by));
                assert(ranks@[k as int].key() == rank_of(issues[hk], by));
                lemma_rank_order(rank_of(issues[hi], by), rank_of(issues[hk], by), rank_of(issues[hk], by));
            }
            if p < k {
                let hp = heads@[old_order[p as int] as int] as int;
                assert(ranks@[old_order[p as int] as int].key() == rank_of(issues[hp], by));
                assert(ranks@[k as int].key() == rank_of(issues[hk], by));
                assert(rank_less(rank_of(issues[hk], by), rank_of(issues[hp], by)));
                assert forall|i: int| p <= i < old_order.len() implies sorts_before(issues, by, hk, heads@[old_order[i] as int] as int) by {
                    let hi = heads@[old_order[i] as int] as int;
                    if i > p {
                        assert(sorts_before(issues, by, hp, hi));
                    }
                    lemma_rank_order(rank_of(issues[hk], by), rank_of(issues[hp], by), rank_of(issues[hi], by));
                }
            }
        }
        order.insert(p, k);
        proof {
            let new_order = order@;
            assert(new_order == old_order.insert(p as int, k));
            assert forall|t: int| 0 <= t < k + 1 implies #[trigger] appears(new_order, t) by {
                if t == k {
                    assert(new_order[p as int] == t);
                } else {
                    assert(appears(old_order, t));
                    let i = choose|i: int| 0 <= i < old_order.len() && old_order[i] == t;
                    if i < p {
                        assert(new_order[i] == t);
                    } else {
                        assert(new_order[i + 1] == t);
                    }
                }
            }
            assert forall|i: int, l: int| 0 <= i < l < new_order.len() implies sorts_before(
                issues,
                by,
                heads@[new_order[i] as int] as int,
                heads@[new_order[l] as int] as int,
            ) by {
                if l < p {
                    assert(new_order[i] == old_order[i] && new_order[l] == old_order[l]);
                } else if l == p {
                    assert(new_order[i] == old_order[i]);
                } else if i < p {
                    assert(new_order[i] == old_order[i] && new_order[l] == old_order[l - 1]);
                } else if i == p {
                    assert(new_order[l] == old_order[l - 1]);
                } else {
                    assert(new_order[i] == old_order[i - 1] && new_order[l] == old_order[l - 1]);
                }
            }
        }
        k = k + 1;
    }
    order
}

/// Whether `key` is among the folded keys.
fn is_folded(collapsed: &[String], key: &String) -> (b: bool)
    ensures
        b == folded(collapsed@, key@),
{
    let mut c: usize = 0;
    while c < collapsed.len()
        invariant
            c <= collapsed@.len(),
            forall|d: int| 0 <= d < c ==> #[trigger] collapsed@[d]@ != key@,
        decreases collapsed@.len() - c,
    {
        if collapsed[c] == *key {
            assert(collapsed@[c as int]@ == key@);
            return true;
        }
        c = c + 1;
    }
    false
}

/// Split `issues` into sections along `by`, marking those whose key is in
/// `collapsed` folded.
///
/// Each key the list holds gets one section, opened by the first issue with
/// that key and drawn after it; the sections are sorted by rank, ties kept
/// in the order they opened; and each holds exactly the issues with its
/// key, sub-issues nested under their parents.
pub fn group(issues: &[Issue], by: GroupBy, collapsed: &[String]) -> (sections: Vec<Section>)
    ensures
        sections@.len() == openers(issues@, by, issues@.len()).len(),
        forall|i: int|
            0 <= i < sections@.len() ==> section_opened_by(
                issues@,
                by,
                collapsed@,
                #[trigger] sections@[i],
                opener_of(issues@, by, sections@[i].key@),
            ),
        forall|j: int|
            0 <= j < issues@.len() ==> has_section(sections@, #[trigger] key_of(issues@[j], by)),
        forall|i: int, k: int|
            0 <= i < k < sections@.len() ==> sorts_before(
                issues@,
                by,
                opener_of(issues@, by, sections@[i].key@),
                opener_of(issues@, by, sections@[k].key@),
            ),
        grouped(issues@, by, collapsed@, sections@),
{
    let n = issues.len();
    let ghost iss = issues@;
    let mut keys: Vec<String> = Vec::new();
    let mut j: usize = 0;
    while j < n
        invariant
            n == iss.len(),
            iss == issues@,
            j <= n,
            keys@.len() == j,
            forall|i: int| 0 <= i < j ==> #[trigger] keys@[i]@ == key_of(iss[i], by),
        decreases n - j,
    {
        keys.push(section_key(&issues[j], by));
        j = j + 1;
    }
    // The issues that open a section, and where each section sorts.
    let mut heads: Vec<usize> = Vec::new();
    let mut ranks: Vec<Rank> = Vec::new();
    let mut j: usize = 0;
    while j < n
        invariant
            n == iss.len(),
            iss == issues@,
            keys@.len() == n,
            forall|i: int| 0 <= i < n ==> #[trigger] keys@[i]@ == key_of(iss[i], by),
            j <= n,
            heads@ == openers(iss, by, j as nat),
            ranks@.len() == heads@.len(),
            forall|t: int| 0 <= t < heads@.len() ==> heads@[t] < j,
            forall|t: int| #![trigger heads@[t]] 0 <= t < heads@.len() ==> ranks@[t].key() == rank_of(iss[heads@[t] as int], by),
            forall|t: int| #![trigger heads@[t]] 0 <= t < heads@.len() ==> opens_section(iss, by, heads@[t] as int),
            forall|t: int, u: int| 0 <= t < u < heads@.len() ==> heads@[t] < heads@[u],
            forall|i: int| 0 <= i < j ==> opened(iss, by, heads@, #[trigger] key_of(iss[i], by)),
        decreases n - j,
    {
        let mut first = true;
        let mut i: usize = 0;
        while i < j
            invariant
                n == iss.len(),
                keys@.len() == n,
                forall|x: int| 0 <= x < n ==> #[trigger] keys@[x]@ == key_of(iss[x], by),
                i <= j < n,
                first == forall|x: int| 0 <= x < i ==> #[trigger] key_of(iss[x], by) != key_of(iss[j as int], by),
            decreases j - i,
        {
            if keys[i] == keys[j] {
                first = false;
            }
            assert(keys@[i as int]@ == key_of(iss[i as int], by));
            assert(keys@[j as int]@ == key_of(iss[j as int], by));
            i = i + 1;
        }
        let ghost old_heads = heads@;
        if first {
            heads.push(j);
            ranks.push(section_rank(&issues[j], by));
            proof {
                assert(heads@[old_heads.len() as int] == j);
            }
        }
        proof {
            assert(opens_section(iss, by, j as int) == first);
            assert forall|x: int| 0 <= x < j + 1 implies opened(iss, by, heads@, #[trigger] key_of(iss[x], by)) by {
                if x == j {
                    if first {
                        assert(heads@[old_heads.len() as int] == j);
                    } else {
                        let y = choose|y: int| 0 <= y < j && key_of(iss[y], by) == key_of(iss[j as int], by);
                        let t = choose|t: int| 0 <= t < old_heads.len() && #[trigger] key_of(iss[old_heads[t] as int], by) == key_of(iss[y], by);
                        assert(heads@[t] == old_heads[t]);
                    }
                } else {
                    let t = choose|t: int| 0 <= t < old_heads.len() && #[trigger] key_of(iss[old_heads[t] as int], by) == key_of(iss[x], by);
                    assert(heads@[t] == old_heads[t]);
                }
            }
        }
        j = j + 1;
    }
    let order = sort_heads(&heads, &ranks, Ghost(iss), Ghost(by));
    let m = heads.len();
    let mut sections: Vec<Section> = Vec::new();
    let mut i: usize = 0;
    while i < m
        invariant
            n == iss.len(),
            iss == issues@,
            keys@.len() == n,
            forall|x: int| 0 <= x < n ==> #[trigger] keys@[x]@ == key_of(iss[x], by),
            m == heads@.len(),
            heads@ == openers(iss, by, n as nat),
            forall|t: int| 0 <= t < m ==> heads@[t] < n,
            forall|t: int| #![trigger heads@[t]] 0 <= t < m ==> opens_section(iss, by, heads@[t] as int),
            order@.len() == m,
            forall|x: int| 0 <= x < m ==> order@[x] < m,
            forall|x: int, y: int|
                0 <= x < y < m ==> sorts_before(
                    iss,
                    by,
                    heads@[order@[x] as int] as int,
                    heads@[order@[y] as int] as int,
                ),
            i <= m,
            sections@.len() == i,
            forall|x: int| #![trigger sections@[x]] 0 <= x < i ==> sections@[x].key@ == key_of(iss[heads@[order@[x] as int] as int], by),
            forall|x: int|
                0 <= x < i ==> section_opened_by(
                    iss,
                    by,
                    collapsed@,
                    #[trigger] sections@[x],
                    opener_of(iss, by, sections@[x].key@),
                ),
        decreases m - i,
    {
        let h = heads[order[i]];
        let key = keys[h].clone();
        let members = members_with(&keys, &key, Ghost(iss), Ghost(by));
        proof {
            lemma_members_bounded(iss, by, key@, n as nat);
            lemma_opener(iss, by, h as int);
        }
        let rows = nest_sub_issues(issues, &members);
        let (label, color, glyph) = section_head(&issues[h], by);
        let is_collapsed = is_folded(collapsed, &key);
        sections.push(Section { key, label, color, glyph, collapsed: is_collapsed, issues: rows });
        i = i + 1;
    }
    proof {
        assert forall|x: int, y: int| 0 <= x < y < sections@.len() implies sorts_before(
            iss,
            by,
            opener_of(iss, by, sections@[x].key@),
            opener_of(iss, by, sections@[y].key@),
        ) by {
            lemma_opener(iss, by, heads@[order@[x] as int] as int);
            lemma_opener(iss, by, heads@[order@[y] as int] as int);
        }
        assert forall|j: int| 0 <= j < iss.len() implies has_section(sections@, #[trigger] key_of(iss[j], by)) by {
            let t = choose|t: int| 0 <= t < heads@.len() && #[trigger] key_of(iss[heads@[t] as int], by) == key_of(iss[j], by);
            let x = choose|x: int| 0 <= x < order@.len() && order@[x] == t;
            assert(appears(order@, t));
            assert(sections@[x].key@ == key_of(iss[j], by));
        }
    }
    sections
}

/// What `group` answers for `issues`: one section for each key, opened by
/// the first issue with it, drawn and filled as it opens, and the sections
/// in the order they sort.
pub open spec fn grouped(issues: Seq<Issue>, by: GroupBy, collapsed: Seq<String>, sections: Seq<Section>) -> bool {
    &&& sections.len() == openers(issues, by, issues.len()).len()
    &&& forall|i: int|
        0 <= i < sections.len() ==> section_opened_by(
            issues,
            by,
            collapsed,
            #[trigger] sections[i],
            opener_of(issues, by, sections[i].key@),
        )
    &&& forall|j: int| 0 <= j < issues.len() ==> has_section(sections, #[trigger] key_of(issues[j], by))
    &&& forall|i: int, k: int|
        0 <= i < k < sections.len() ==> sorts_before(
            issues,
            by,
            opener_of(issues, by, sections[i].key@),
            opener_of(issues, by, sections[k].key@),
        )
}

/// Whether priority `a` is more urgent than `b`, by Linear's numbers: 1 is
/// urgent, 4 low, and 0, no priority, the least urgent of all.
pub open spec fn more_urgent(a: Priority, b: Priority) -> bool {
    priority_number(a) != 0 && (priority_number(b) == 0 || priority_number(a) < priority_number(b))
}

/// Two issues share a priority section only when they share the priority.
proof fn lemma_priority_key(x: Issue, y: Issue)
    requires
        key_of(x, GroupBy::Priority) == key_of(y, GroupBy::Priority),
    ensures
        x.priority == y.priority,
{
    let nx = priority_number(x.priority) as nat;
    let ny = priority_number(y.priority) as nat;
    let kx = key_of(x, GroupBy::Priority);
    let ky = key_of(y, GroupBy::Priority);
    assert(decimal(nx) == seq![crate::text::digit_char_spec(nx as int)]);
    assert(decimal(ny) == seq![crate::text::digit_char_spec(ny as int)]);
    assert(kx.last() == crate::text::digit_char_spec(nx as int));
    assert(ky.last() == crate::text::digit_char_spec(ny as int));
    assert(crate::text::digit_char_spec(nx as int) as int == 48 + nx);
    assert(crate::text::digit_char_spec(ny as int) as int == 48 + ny);
}

/// Grouped by priority, the sections run from the most urgent down: the
/// section of an issue more urgent than another comes before that one's.
pub proof fn lemma_more_urgent_sections_come_first(
    issues: Seq<Issue>,
    collapsed: Seq<String>,
    sections: Seq<Section>,
    a: int,
    b: int,
    i: int,
    k: int,
)
    requires
        grouped(issues, GroupBy::Priority, collapsed, sections),
        0 <= a < issues.len(),
        0 <= b < issues.len(),
        0 <= i < sections.len(),
        0 <= k < sections.len(),
        sections[i].key@ == key_of(issues[a], GroupBy::Priority),
        sections[k].key@ == key_of(issues[b], GroupBy::Priority),
        more_urgent(issues[a].priority, issues[b].priority),
    ensures
        i < k,
{
    let by = GroupBy::Priority;
    let oi = opener_of(issues, by, sections[i].key@);
    let ok = opener_of(issues, by, sections[k].key@);
    assert(section_opened_by(issues, by, collapsed, sections[i], oi));
    assert(section_opened_by(issues, by, collapsed, sections[k], ok));
    lemma_priority_key(issues[oi], issues[a]);
    lemma_priority_key(issues[ok], issues[b]);
    if i == k {
        lemma_priority_key(issues[a], issues[b]);
    } else if k < i {
        assert(sorts_before(issues, by, ok, oi));
    }
}

/// Whether an issue has what the sections are drawn from: a status, an
/// assignee, a project.
pub open spec fn has_group_field(issue: Issue, by: GroupBy) -> bool {
    match by {
        GroupBy::Status => issue.state is Some,
        GroupBy::Assignee => issue.assignee is Some,
        GroupBy::Project => issue.project is Some,
        _ => true,
    }
}

/// Grouped by status, assignee or project, the section of the issues
/// without one (`No status`, `Unassigned`, `No project`) comes after every
/// section of issues that have one.
pub proof fn lemma_the_section_without_comes_last(
    issues: Seq<Issue>,
    by: GroupBy,
    collapsed: Seq<String>,
    sections: Seq<Section>,
    i: int,
    k: int,
)
    requires
        by == GroupBy::Status || by == GroupBy::Assignee || by == GroupBy::Project,
        grouped(issues, by, collapsed, sections),
        0 <= i < k < sections.len(),
        !has_group_field(issues[opener_of(issues, by, sections[i].key@)], by),
    ensures
        !has_group_field(issues[opener_of(issues, by, sections[k].key@)], by),
{
    let oi = opener_of(issues, by, sections[i].key@);
    let ok = opener_of(issues, by, sections[k].key@);
    assert(section_opened_by(issues, by, collapsed, sections[i], oi));
    assert(section_opened_by(issues, by, collapsed, sections[k], ok));
    assert(sorts_before(issues, by, oi, ok));
}

/// The name a section of issues that have an assignee or a project is
/// sorted by: the person's or the project's, lowercased.
pub open spec fn sort_name(issue: Issue, by: GroupBy) -> Seq<char> {
    match by {
        GroupBy::Assignee => match issue.assignee {
            Some(u) => lowercase_text(assignee_name(u)),
            None => Seq::empty(),
        },
        GroupBy::Project => match issue.project {
            Some(p) => lowercase_text(p.name@),
            None => Seq::empty(),
        },
        _ => Seq::empty(),
    }
}

/// Grouped by assignee or by project, the named sections come in the
/// alphabetical order of their names, ignoring case.
pub proof fn lemma_named_sections_in_name_order(
    issues: Seq<Issue>,
    by: GroupBy,
    collapsed: Seq<String>,
    sections: Seq<Section>,
    i: int,
    k: int,
)
    requires
        by == GroupBy::Assignee || by == GroupBy::Project,
        grouped(issues, by, collapsed, sections),
        0 <= i < k < sections.len(),
        has_group_field(issues[opener_of(issues, by, sections[i].key@)], by),
        has_group_field(issues[opener_of(issues, by, sections[k].key@)], by),
    ensures
        !text_less(
            sort_name(issues[opener_of(issues, by, sections[k].key@)], by),
            sort_name(issues[opener_of(issues, by, sections[i].key@)], by),
        ),
{
    let oi = opener_of(issues, by, sections[i].key@);
    let ok = opener_of(issues, by, sections[k].key@);
    assert(section_opened_by(issues, by, collapsed, sections[i], oi));
    assert(section_opened_by(issues, by, collapsed, sections[k], ok));
    assert(sorts_before(issues, by, oi, ok));
    lemma_rank_order(rank_of(issues[oi], by), rank_of(issues[ok], by), rank_of(issues[oi], by));
    let a = sort_name(issues[oi], by);
    let b = sort_name(issues[ok], by);
    lemma_text_less_irreflexive(a);
    lemma_text_less_total(a, b);
    if text_less(b, a) && text_less(a, b) {
        lemma_text_less_transitive(a, b, a);
    }
}

}
