//! What an issue mutation sends Linear: the fields of `IssueCreateInput` for
//! a draft and of `IssueUpdateInput` for a set of changes — only what they
//! set, and `null` for a field an update empties.

use vstd::prelude::*;
use crate::entity::{priority_number, Priority};
use crate::resolve::texts;

verus! {

/// A new issue, as the form or the command line fills it in.
#[derive(Debug, Clone, Default, PartialEq, Eq)]
pub struct Draft {
    pub title: String,
    pub description: Option<String>,
    pub priority: Priority,
    pub assignee_id: Option<String>,
    pub estimate: Option<u32>,
    pub label_ids: Vec<String>,
    pub project_id: Option<String>,
    pub cycle_id: Option<String>,
    pub parent_id: Option<String>,
}

/// What an update changes. A field left `None` is not touched; `Some(None)`
/// empties it.
#[derive(Debug, Clone, Default, PartialEq, Eq)]
pub struct Changes {
    pub title: Option<String>,
    pub description: Option<String>,
    pub priority: Option<Priority>,
    pub assignee_id: Option<Option<String>>,
    pub estimate: Option<Option<u32>>,
    pub added_label_ids: Vec<String>,
    pub removed_label_ids: Vec<String>,
    pub project_id: Option<Option<String>>,
    pub cycle_id: Option<Option<String>>,
    pub parent_id: Option<Option<String>>,
}

/// The value of one input field.
#[derive(Debug, Clone, PartialEq, Eq)]
pub enum Field {
    Null,
    Text(String),
    Number(u32),
    Texts(Vec<String>),
}

/// A field's value as the contracts read it.
pub enum Shown {
    Null,
    Text(Seq<char>),
    Number(nat),
    Texts(Seq<Seq<char>>),
}

pub open spec fn shown(f: Field) -> Shown {
    match f {
        Field::Null => Shown::Null,
        Field::Text(t) => Shown::Text(t@),
        Field::Number(n) => Shown::Number(n as nat),
        Field::Texts(v) => Shown::Texts(texts(v@)),
    }
}

/// The fields of an input, by name, as the contracts read them.
pub open spec fn fields_view(fields: Seq<(&'static str, Field)>) -> Seq<(Seq<char>, Shown)> {
    fields.map_values(|f: (&'static str, Field)| (f.0@, shown(f.1)))
}

/// A text field, where there is a value.
pub open spec fn text_entry(name: Seq<char>, value: Option<String>) -> Seq<(Seq<char>, Shown)> {
    match value {
        Some(t) => seq![(name, Shown::Text(t@))],
        None => Seq::empty(),
    }
}

/// A field an update may set or empty.
pub open spec fn nullable_entry(name: Seq<char>, value: Option<Option<String>>) -> Seq<(Seq<char>, Shown)> {
    match value {
        Some(Some(t)) => seq![(name, Shown::Text(t@))],
        Some(None) => seq![(name, Shown::Null)],
        None => Seq::empty(),
    }
}

/// A list of ids, where there are any.
pub open spec fn list_entry(name: Seq<char>, ids: Vec<String>) -> Seq<(Seq<char>, Shown)> {
    if ids@.len() > 0 {
        seq![(name, Shown::Texts(texts(ids@)))]
    } else {
        Seq::empty()
    }
}

/// The `IssueCreateInput` fields for `draft` in `team_id`: the team, title
/// and priority always, the rest where the draft sets them.
pub open spec fn create_fields(team_id: Seq<char>, draft: Draft) -> Seq<(Seq<char>, Shown)> {
    seq![
        ("teamId"@, Shown::Text(team_id)),
        ("title"@, Shown::Text(draft.title@)),
        ("priority"@, Shown::Number(priority_number(draft.priority) as nat)),
    ] + text_entry("description"@, draft.description) + text_entry("assigneeId"@, draft.assignee_id)
        + match draft.estimate {
        Some(n) => seq![("estimate"@, Shown::Number(n as nat))],
        None => Seq::empty(),
    } + list_entry("labelIds"@, draft.label_ids) + text_entry("projectId"@, draft.project_id)
        + text_entry("cycleId"@, draft.cycle_id) + text_entry("parentId"@, draft.parent_id)
}

/// The `IssueUpdateInput` fields for `changes`: only what they change, an
/// emptied field as `null`.
pub open spec fn update_fields(changes: Changes) -> Seq<(Seq<char>, Shown)> {
    text_entry("title"@, changes.title) + text_entry("description"@, changes.description) + match changes.priority {
        Some(p) => seq![("priority"@, Shown::Number(priority_number(p) as nat))],
        None => Seq::empty(),
    } + nullable_entry("assigneeId"@, changes.assignee_id) + match changes.estimate {
        Some(Some(n)) => seq![("estimate"@, Shown::Number(n as nat))],
        Some(None) => seq![("estimate"@, Shown::Null)],
        None => Seq::empty(),
    } + list_entry("addedLabelIds"@, changes.added_label_ids) + list_entry(
        "removedLabelIds"@,
        changes.removed_label_ids,
    ) + nullable_entry("projectId"@, changes.project_id) + nullable_entry("cycleId"@, changes.cycle_id)
        + nullable_entry("parentId"@, changes.parent_id)
}

fn copy_ids(ids: &Vec<String>) -> (out: Vec<String>)
    ensures
        texts(out@) == texts(ids@),
{
    let mut out: Vec<String> = Vec::new();
    let mut i: usize = 0;
    while i < ids.len()
        invariant
            i <= ids@.len(),
            out@.len() == i,
            forall|k: int| 0 <= k < i ==> #[trigger] out@[k]@ == ids@[k]@,
        decreases ids@.len() - i,
    {
        out.push(ids[i].clone());
        i = i + 1;
    }
    assert(texts(out@) =~= texts(ids@));
    out
}

fn put_field(fields: &mut Vec<(&'static str, Field)>, name: &'static str, value: Field)
    ensures
        fields_view(final(fields)@) == fields_view(old(fields)@) + seq![(name@, shown(value))],
{
    fields.push((name, value));
    assert(fields_view(fields@) =~= fields_view(old(fields)@) + seq![(name@, shown(value))]);
}

fn push_text(fields: &mut Vec<(&'static str, Field)>, name: &'static str, value: &Option<String>)
    ensures
        fields_view(final(fields)@) == fields_view(old(fields)@) + text_entry(name@, *value),
{
    if let Some(t) = value {
        put_field(fields, name, Field::Text(t.clone()));
    }
    assert(fields_view(fields@) =~= fields_view(old(fields)@) + text_entry(name@, *value));
}

fn push_nullable(fields: &mut Vec<(&'static str, Field)>, name: &'static str, value: &Option<Option<String>>)
    ensures
        fields_view(final(fields)@) == fields_view(old(fields)@) + nullable_entry(name@, *value),
{
    match value {
        Some(Some(t)) => put_field(fields, name, Field::Text(t.clone())),
        Some(None) => put_field(fields, name, Field::Null),
        None => {},
    }
    assert(fields_view(fields@) =~= fields_view(old(fields)@) + nullable_entry(name@, *value));
}

fn push_list(fields: &mut Vec<(&'static str, Field)>, name: &'static str, ids: &Vec<String>)
    ensures
        fields_view(final(fields)@) == fields_view(old(fields)@) + list_entry(name@, *ids),
{
    if ids.len() > 0 {
        put_field(fields, name, Field::Texts(copy_ids(ids)));
    }
    assert(fields_view(fields@) =~= fields_view(old(fields)@) + list_entry(name@, *ids));
}

fn priority_field(p: Priority) -> (f: Field)
    ensures
        shown(f) == Shown::Number(priority_number(p) as nat),
{
    Field::Number(p.as_u8() as u32)
}

/// The `IssueCreateInput` for a draft: what it sets, and nothing else.
pub fn create_input(team_id: &str, draft: &Draft) -> (fields: Vec<(&'static str, Field)>)
    ensures
        fields_view(fields@) == create_fields(team_id@, *draft),
{
    let mut fields: Vec<(&'static str, Field)> = Vec::new();
    assert(fields_view(fields@) =~= Seq::empty());
    put_field(&mut fields, "teamId", Field::Text(team_id.to_string()));
    put_field(&mut fields, "title", Field::Text(draft.title.clone()));
    put_field(&mut fields, "priority", priority_field(draft.priority));
    push_text(&mut fields, "description", &draft.description);
    push_text(&mut fields, "assigneeId", &draft.assignee_id);
    let ghost before = fields_view(fields@);
    if let Some(n) = draft.estimate {
        put_field(&mut fields, "estimate", Field::Number(n));
    }
    assert(fields_view(fields@) =~= before + match draft.estimate {
        Some(n) => seq![("estimate"@, Shown::Number(n as nat))],
        None => Seq::empty(),
    });
    push_list(&mut fields, "labelIds", &draft.label_ids);
    push_text(&mut fields, "projectId", &draft.project_id);
    push_text(&mut fields, "cycleId", &draft.cycle_id);
    push_text(&mut fields, "parentId", &draft.parent_id);
    assert(fields_view(fields@) =~= create_fields(team_id@, *draft));
    fields
}

/// The `IssueUpdateInput` for `changes`: only the fields it changes, an
/// emptied one as `null`.
pub fn update_input(changes: &Changes) -> (fields: Vec<(&'static str, Field)>)
    ensures
        fields_view(fields@) == update_fields(*changes),
{
    let mut fields: Vec<(&'static str, Field)> = Vec::new();
    assert(fields_view(fields@) =~= Seq::empty());
    push_text(&mut fields, "title", &changes.title);
    push_text(&mut fields, "description", &changes.description);
    let ghost before = fields_view(fields@);
    if let Some(p) = changes.priority {
        put_field(&mut fields, "priority", priority_field(p));
    }
    assert(fields_view(fields@) =~= before + match changes.priority {
        Some(p) => seq![("priority"@, Shown::Number(priority_number(p) as nat))],
        None => Seq::empty(),
    });
    push_nullable(&mut fields, "assigneeId", &changes.assignee_id);
    let ghost before = fields_view(fields@);
    match changes.estimate {
        Some(Some(n)) => put_field(&mut fields, "estimate", Field::Number(n)),
        Some(None) => put_field(&mut fields, "estimate", Field::Null),
        None => {},
    }
    assert(fields_view(fields@) =~= before + match changes.estimate {
        Some(Some(n)) => seq![("estimate"@, Shown::Number(n as nat))],
        Some(None) => seq![("estimate"@, Shown::Null)],
        None => Seq::empty(),
    });
    push_list(&mut fields, "addedLabelIds", &changes.added_label_ids);
    push_list(&mut fields, "removedLabelIds", &changes.removed_label_ids);
    push_nullable(&mut fields, "projectId", &changes.project_id);
    push_nullable(&mut fields, "cycleId", &changes.cycle_id);
    push_nullable(&mut fields, "parentId", &changes.parent_id);
    assert(fields_view(fields@) =~= update_fields(*changes));
    fields
}

} // verus!
