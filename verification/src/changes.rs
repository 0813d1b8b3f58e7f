//! What `issue update` reports: each field an edit touches, from what the
//! issue had to what it gets, in the order `issue show` lists the fields.

use vstd::prelude::*;
use crate::entity::{cycle_label, priority_label, Cycle, Issue, IssueRef, Label, Priority, Project, User};
use crate::grouping::assignee_name;
use crate::resolve::{joined, push_joined, texts};
use crate::text::{chars_of, decimal, push_decimal, push_str, same_text};

verus! {

/// An update as the command line resolved it. A field left `None` is not
/// touched; `Some(None)` empties it.
#[derive(Debug, Clone, Default, PartialEq, Eq)]
pub struct Edit {
    pub title: Option<String>,
    pub description: Option<String>,
    pub priority: Option<Priority>,
    pub assignee: Option<Option<User>>,
    pub estimate: Option<Option<u32>>,
    pub add_labels: Vec<Label>,
    pub remove_labels: Vec<Label>,
    pub project: Option<Option<Project>>,
    pub cycle: Option<Option<Cycle>>,
    pub parent: Option<Option<IssueRef>>,
}

/// One side of a change: nothing, a text, a list of names, or a number as
/// JSON writes it.
#[derive(Debug, Clone, PartialEq, Eq)]
pub enum Value {
    Null,
    Text(String),
    Names(Vec<String>),
    Number(String),
}

/// One field an update changes, from what to what.
#[derive(Debug, Clone, PartialEq, Eq)]
pub struct Change {
    pub field: &'static str,
    pub from: Value,
    pub to: Value,
}

/// A side of a change as the contracts read it.
pub enum Seen {
    Null,
    Text(Seq<char>),
    Names(Seq<Seq<char>>),
    Number(Seq<char>),
}

pub open spec fn seen(v: Value) -> Seen {
    match v {
        Value::Null => Seen::Null,
        Value::Text(t) => Seen::Text(t@),
        Value::Names(ns) => Seen::Names(texts(ns@)),
        Value::Number(n) => Seen::Number(n@),
    }
}

/// A change as the contracts read it: the field, then both sides.
pub open spec fn change_view(c: Change) -> (Seq<char>, Seen, Seen) {
    (c.field@, seen(c.from), seen(c.to))
}

pub open spec fn changes_view(cs: Seq<Change>) -> Seq<(Seq<char>, Seen, Seen)> {
    cs.map_values(|c: Change| change_view(c))
}

/// How one side reads in a report line: `—` for nothing or no names, names
/// joined by commas.
pub open spec fn seen_text(v: Seen) -> Seq<char> {
    match v {
        Seen::Null => "\u{2014}"@,
        Seen::Text(t) => t,
        Seen::Names(ns) => if ns.len() == 0 {
            "\u{2014}"@
        } else {
            joined(ns, ", "@)
        },
        Seen::Number(n) => n,
    }
}

/// `priority High → Low`; a description is too long to repeat.
pub open spec fn change_line(c: (Seq<char>, Seen, Seen)) -> Seq<char> {
    if c.0 == "description"@ {
        "description rewritten"@
    } else {
        c.0 + " "@ + seen_text(c.1) + " \u{2192} "@ + seen_text(c.2)
    }
}

fn push_value(out: &mut String, v: &Value)
    ensures
        final(out)@ == old(out)@ + seen_text(seen(*v)),
{
    match v {
        Value::Null => push_str(out, "\u{2014}"),
        Value::Text(t) => push_str(out, t.as_str()),
        Value::Names(ns) => {
            if ns.len() == 0 {
                push_str(out, "\u{2014}");
            } else {
                push_joined(out, ns, ", ");
            }
        },
        Value::Number(n) => push_str(out, n.as_str()),
    }
}

impl Change {
    /// `priority High → Low`; a description is too long to repeat.
    pub fn line(&self) -> (s: String)
        ensures
            s@ == change_line(change_view(*self)),
    {
        if same_text(self.field, "description") {
            let mut s = String::new();
            push_str(&mut s, "description rewritten");
            return s;
        }
        let mut s = String::new();
        push_str(&mut s, self.field);
        push_str(&mut s, " ");
        push_value(&mut s, &self.from);
        push_str(&mut s, " \u{2192} ");
        push_value(&mut s, &self.to);
        s
    }
}

/// The names of `labels`, in order.
pub open spec fn label_names(labels: Seq<Label>) -> Seq<Seq<char>> {
    labels.map_values(|l: Label| l.name@)
}

/// The names of the labels an issue carries.
pub open spec fn issue_label_names(issue: Issue) -> Seq<Seq<char>> {
    match issue.labels {
        Some(ls) => label_names(ls@),
        None => Seq::empty(),
    }
}

/// `names` without any that `removed` holds, in order.
pub open spec fn without(names: Seq<Seq<char>>, removed: Seq<Seq<char>>) -> Seq<Seq<char>>
    decreases names.len(),
{
    if names.len() == 0 {
        Seq::empty()
    } else {
        let rest = without(names.drop_last(), removed);
        if removed.contains(names.last()) {
            rest
        } else {
            rest.push(names.last())
        }
    }
}

/// `names` with each of `added` put at the end, where it is not there yet.
pub open spec fn with_added(names: Seq<Seq<char>>, added: Seq<Seq<char>>) -> Seq<Seq<char>>
    decreases added.len(),
{
    if added.len() == 0 {
        names
    } else {
        let before = with_added(names, added.drop_last());
        if before.contains(added.last()) {
            before
        } else {
            before.push(added.last())
        }
    }
}

/// A text that may be missing.
pub open spec fn maybe_text(t: Option<Seq<char>>) -> Seen {
    match t {
        Some(t) => Seen::Text(t),
        None => Seen::Null,
    }
}

/// A person, by the name they go by.
pub open spec fn person(u: Option<User>) -> Seen {
    match u {
        Some(u) => Seen::Text(assignee_name(u)),
        None => Seen::Null,
    }
}

/// An estimate held as the number reads, as JSON writes a float: with a
/// decimal point.
pub open spec fn float_number(t: Seq<char>) -> Seq<char> {
    if t.contains('.') {
        t
    } else {
        t + ".0"@
    }
}

pub open spec fn one(field: Seq<char>, from: Seen, to: Seen) -> Seq<(Seq<char>, Seen, Seen)> {
    seq![(field, from, to)]
}

pub open spec fn title_change(issue: Issue, edit: Edit) -> Seq<(Seq<char>, Seen, Seen)> {
    match edit.title {
        Some(t) => one("title"@, Seen::Text(issue.title@), Seen::Text(t@)),
        None => Seq::empty(),
    }
}

pub open spec fn priority_change(issue: Issue, edit: Edit) -> Seq<(Seq<char>, Seen, Seen)> {
    match edit.priority {
        Some(p) => one("priority"@, Seen::Text(priority_label(issue.priority)), Seen::Text(priority_label(p))),
        None => Seq::empty(),
    }
}

pub open spec fn assignee_change(issue: Issue, edit: Edit) -> Seq<(Seq<char>, Seen, Seen)> {
    match edit.assignee {
        Some(a) => one("assignee"@, person(issue.assignee), person(a)),
        None => Seq::empty(),
    }
}

/// The labels before, and after the removed ones go and the added ones
/// join.
pub open spec fn labels_change(issue: Issue, edit: Edit) -> Seq<(Seq<char>, Seen, Seen)> {
    if edit.add_labels@.len() > 0 || edit.remove_labels@.len() > 0 {
        let before = issue_label_names(issue);
        one(
            "labels"@,
            Seen::Names(before),
            Seen::Names(with_added(without(before, label_names(edit.remove_labels@)), label_names(edit.add_labels@))),
        )
    } else {
        Seq::empty()
    }
}

pub open spec fn project_change(issue: Issue, edit: Edit) -> Seq<(Seq<char>, Seen, Seen)> {
    match edit.project {
        Some(p) => one(
            "project"@,
            maybe_text(match issue.project { Some(q) => Some(q.name@), None => None }),
            maybe_text(match p { Some(q) => Some(q.name@), None => None }),
        ),
        None => Seq::empty(),
    }
}

pub open spec fn cycle_change(issue: Issue, edit: Edit) -> Seq<(Seq<char>, Seen, Seen)> {
    match edit.cycle {
        Some(c) => one(
            "cycle"@,
            maybe_text(match issue.cycle { Some(d) => Some(cycle_label(d)), None => None }),
            maybe_text(match c { Some(d) => Some(cycle_label(d)), None => None }),
        ),
        None => Seq::empty(),
    }
}

pub open spec fn estimate_change(issue: Issue, edit: Edit) -> Seq<(Seq<char>, Seen, Seen)> {
    match edit.estimate {
        Some(e) => one(
            "estimate"@,
            match issue.estimate { Some(t) => Seen::Number(float_number(t@)), None => Seen::Null },
            match e { Some(n) => Seen::Number(decimal(n as nat)), None => Seen::Null },
        ),
        None => Seq::empty(),
    }
}

pub open spec fn parent_change(issue: Issue, edit: Edit) -> Seq<(Seq<char>, Seen, Seen)> {
    match edit.parent {
        Some(p) => one(
            "parent"@,
            maybe_text(match issue.parent { Some(q) => Some(q.identifier@), None => None }),
            maybe_text(match p { Some(q) => Some(q.identifier@), None => None }),
        ),
        None => Seq::empty(),
    }
}

pub open spec fn description_change(issue: Issue, edit: Edit) -> Seq<(Seq<char>, Seen, Seen)> {
    match edit.description {
        Some(d) => one(
            "description"@,
            maybe_text(match issue.description { Some(t) => Some(t@), None => None }),
            Seen::Text(d@),
        ),
        None => Seq::empty(),
    }
}

/// What `edit` changes on `issue`, field by field, in the order
/// `issue show` lists them.
pub open spec fn described_changes(issue: Issue, edit: Edit) -> Seq<(Seq<char>, Seen, Seen)> {
    title_change(issue, edit) + priority_change(issue, edit) + assignee_change(issue, edit)
        + labels_change(issue, edit) + project_change(issue, edit) + cycle_change(issue, edit)
        + estimate_change(issue, edit) + parent_change(issue, edit) + description_change(issue, edit)
}

fn put(out: &mut Vec<Change>, field: &'static str, from: Value, to: Value)
    ensures
        changes_view(final(out)@) == changes_view(old(out)@) + one(field@, seen(from), seen(to)),
{
    out.push(Change { field, from, to });
    assert(changes_view(out@) =~= changes_view(old(out)@) + one(field@, seen(from), seen(to)));
}

fn text_value(t: &str) -> (v: Value)
    ensures
        seen(v) == Seen::Text(t@),
{
    let mut s = String::new();
    push_str(&mut s, t);
    Value::Text(s)
}

fn maybe_value(t: Option<&str>) -> (v: Value)
    ensures
        seen(v) == maybe_text(match t { Some(s) => Some(s@), None => None }),
{
    match t {
        Some(s) => text_value(s),
        None => Value::Null,
    }
}

fn person_value(u: &Option<User>) -> (v: Value)
    ensures
        seen(v) == person(*u),
{
    match u {
        Some(u) => text_value(crate::show::user_name(u)),
        None => Value::Null,
    }
}

fn names_of(labels: &Vec<Label>) -> (out: Vec<String>)
    ensures
        texts(out@) == label_names(labels@),
{
    let mut out: Vec<String> = Vec::new();
    let mut i: usize = 0;
    while i < labels.len()
        invariant
            i <= labels@.len(),
            texts(out@) == label_names(labels@).take(i as int),
        decreases labels@.len() - i,
    {
        let ghost prev = out@;
        out.push(labels[i].name.clone());
        assert(label_names(labels@).take(i + 1) =~= label_names(labels@).take(i as int).push(labels@[i as int].name@));
        assert(texts(out@) =~= texts(prev).push(labels@[i as int].name@));
        i = i + 1;
    }
    assert(label_names(labels@).take(labels@.len() as int) =~= label_names(labels@));
    out
}

/// Whether one of `labels` goes by `name`.
fn names_a_label(labels: &Vec<Label>, name: &str) -> (b: bool)
    ensures
        b == label_names(labels@).contains(name@),
{
    let mut i: usize = 0;
    while i < labels.len()
        invariant
            i <= labels@.len(),
            forall|k: int| 0 <= k < i ==> label_names(labels@)[k] != name@,
        decreases labels@.len() - i,
    {
        if same_text(labels[i].name.as_str(), name) {
            assert(label_names(labels@)[i as int] == name@);
            return true;
        }
        i = i + 1;
    }
    false
}

/// Whether `names` holds `name`.
fn holds_name(names: &Vec<String>, name: &str) -> (b: bool)
    ensures
        b == texts(names@).contains(name@),
{
    let mut i: usize = 0;
    while i < names.len()
        invariant
            i <= names@.len(),
            forall|k: int| 0 <= k < i ==> texts(names@)[k] != name@,
        decreases names@.len() - i,
    {
        if same_text(names[i].as_str(), name) {
            assert(texts(names@)[i as int] == name@);
            return true;
        }
        i = i + 1;
    }
    false
}

/// The label names after an edit: the removed ones gone, the added ones at
/// the end where they are not there yet.
fn labels_after(before: &Vec<String>, edit: &Edit) -> (after: Vec<String>)
    ensures
        texts(after@) == with_added(
            without(texts(before@), label_names(edit.remove_labels@)),
            label_names(edit.add_labels@),
        ),
{
    let ghost removed = label_names(edit.remove_labels@);
    let ghost added = label_names(edit.add_labels@);
    let mut after: Vec<String> = Vec::new();
    let mut i: usize = 0;
    while i < before.len()
        invariant
            i <= before@.len(),
            removed == label_names(edit.remove_labels@),
            texts(after@) == without(texts(before@).take(i as int), removed),
        decreases before@.len() - i,
    {
        let ghost prev = after@;
        assert(texts(before@).take(i + 1).drop_last() =~= texts(before@).take(i as int));
        if !names_a_label(&edit.remove_labels, before[i].as_str()) {
            after.push(before[i].clone());
            assert(texts(after@) =~= texts(prev).push(before@[i as int]@));
        }
        i = i + 1;
    }
    assert(texts(before@).take(before@.len() as int) =~= texts(before@));
    let ghost kept = texts(after@);
    let mut j: usize = 0;
    while j < edit.add_labels.len()
        invariant
            j <= edit.add_labels@.len(),
            added == label_names(edit.add_labels@),
            kept == without(texts(before@), removed),
            removed == label_names(edit.remove_labels@),
            texts(after@) == with_added(kept, added.take(j as int)),
        decreases edit.add_labels@.len() - j,
    {
        let ghost prev = after@;
        assert(added.take(j + 1).drop_last() =~= added.take(j as int));
        let name = &edit.add_labels[j].name;
        if !holds_name(&after, name.as_str()) {
            after.push(name.clone());
            assert(texts(after@) =~= texts(prev).push(name@));
        }
        j = j + 1;
    }
    assert(added.take(added.len() as int) =~= added);
    after
}

/// An estimate as JSON writes a float: with a decimal point.
fn float_value(t: &str) -> (v: Value)
    ensures
        seen(v) == Seen::Number(float_number(t@)),
{
    let cs = chars_of(t);
    let mut has_point = false;
    let mut i: usize = 0;
    while i < cs.len()
        invariant
            i <= cs@.len(),
            cs@ == t@,
            has_point == (exists|k: int| 0 <= k < i && cs@[k] == '.'),
        decreases cs@.len() - i,
    {
        if cs[i] == '.' {
            has_point = true;
        }
        i = i + 1;
    }
    let mut s = String::new();
    push_str(&mut s, t);
    if !has_point {
        push_str(&mut s, ".0");
    }
    Value::Number(s)
}

fn number_value(n: u32) -> (v: Value)
    ensures
        seen(v) == Seen::Number(decimal(n as nat)),
{
    let mut s = String::new();
    push_decimal(&mut s, n as u64);
    Value::Number(s)
}

/// What `edit` changes on `issue`, field by field, in the order
/// `issue show` lists them.
pub fn describe_changes(issue: &Issue, edit: &Edit) -> (out: Vec<Change>)
    ensures
        changes_view(out@) == described_changes(*issue, *edit),
{
    let mut out: Vec<Change> = Vec::new();
    if let Some(title) = &edit.title {
        put(&mut out, "title", text_value(issue.title.as_str()), text_value(title.as_str()));
    }
    assert(changes_view(out@) =~= title_change(*issue, *edit));
    let ghost done = changes_view(out@);
    if let Some(priority) = edit.priority {
        put(&mut out, "priority", text_value(issue.priority.label()), text_value(priority.label()));
    }
    assert(changes_view(out@) =~= done + priority_change(*issue, *edit));
    let ghost done = changes_view(out@);
    if let Some(assignee) = &edit.assignee {
        put(&mut out, "assignee", person_value(&issue.assignee), person_value(assignee));
    }
    assert(changes_view(out@) =~= done + assignee_change(*issue, *edit));
    let ghost done = changes_view(out@);
    if edit.add_labels.len() > 0 || edit.remove_labels.len() > 0 {
        let before = match &issue.labels {
            Some(ls) => names_of(ls),
            None => Vec::new(),
        };
        assert(texts(before@) == issue_label_names(*issue)) by {
            if issue.labels is None {
                assert(texts(before@) =~= Seq::<Seq<char>>::empty());
            }
        }
        let after = labels_after(&before, edit);
        put(&mut out, "labels", Value::Names(before), Value::Names(after));
    }
    assert(changes_view(out@) =~= done + labels_change(*issue, *edit));
    let ghost done = changes_view(out@);
    if let Some(project) = &edit.project {
        let from = match &issue.project {
            Some(p) => Some(p.name.as_str()),
            None => None,
        };
        let to = match project {
            Some(p) => Some(p.name.as_str()),
            None => None,
        };
        put(&mut out, "project", maybe_value(from), maybe_value(to));
    }
    assert(changes_view(out@) =~= done + project_change(*issue, *edit));
    let ghost done = changes_view(out@);
    if let Some(cycle) = &edit.cycle {
        let from = match &issue.cycle {
            Some(c) => text_value(c.label().as_str()),
            None => Value::Null,
        };
        let to = match cycle {
            Some(c) => text_value(c.label().as_str()),
            None => Value::Null,
        };
        put(&mut out, "cycle", from, to);
    }
    assert(changes_view(out@) =~= done + cycle_change(*issue, *edit));
    let ghost done = changes_view(out@);
    if let Some(estimate) = edit.estimate {
        let from = match &issue.estimate {
            Some(t) => float_value(t.as_str()),
            None => Value::Null,
        };
        let to = match estimate {
            Some(n) => number_value(n),
            None => Value::Null,
        };
        put(&mut out, "estimate", from, to);
    }
    assert(changes_view(out@) =~= done + estimate_change(*issue, *edit));
    let ghost done = changes_view(out@);
    if let Some(parent) = &edit.parent {
        let from = match &issue.parent {
            Some(p) => Some(p.identifier.as_str()),
            None => None,
        };
        let to = match parent {
            Some(p) => Some(p.identifier.as_str()),
            None => None,
        };
        put(&mut out, "parent", maybe_value(from), maybe_value(to));
    }
    assert(changes_view(out@) =~= done + parent_change(*issue, *edit));
    let ghost done = changes_view(out@);
    if let Some(description) = &edit.description {
        let from = match &issue.description {
            Some(d) => Some(d.as_str()),
            None => None,
        };
        put(&mut out, "description", maybe_value(from), text_value(description.as_str()));
    }
    assert(changes_view(out@) =~= done + description_change(*issue, *edit));
    out
}

/// Each change as `issue update` prints it, after the issue's identifier.
pub open spec fn report_lines(identifier: Seq<char>, cs: Seq<(Seq<char>, Seen, Seen)>) -> Seq<Seq<char>> {
    cs.map_values(|c: (Seq<char>, Seen, Seen)| identifier + ": "@ + change_line(c))
}

/// What `issue update` prints: a line per change, `WEB-7: priority High → Low`.
pub fn update_report(identifier: &str, changes: &Vec<Change>) -> (s: String)
    ensures
        s@ == joined(report_lines(identifier@, changes_view(changes@)), "\n"@),
{
    let ghost want = report_lines(identifier@, changes_view(changes@));
    let mut lines: Vec<String> = Vec::new();
    let mut i: usize = 0;
    while i < changes.len()
        invariant
            i <= changes@.len(),
            want == report_lines(identifier@, changes_view(changes@)),
            texts(lines@) == want.take(i as int),
        decreases changes@.len() - i,
    {
        let ghost prev = lines@;
        let mut line = String::new();
        push_str(&mut line, identifier);
        push_str(&mut line, ": ");
        let text = changes[i].line();
        push_str(&mut line, text.as_str());
        lines.push(line);
        assert(want.take(i + 1) =~= want.take(i as int).push(want[i as int]));
        assert(texts(lines@) =~= texts(prev).push(lines@.last()@));
        i = i + 1;
    }
    assert(want.take(want.len() as int) =~= want);
    let mut s = String::new();
    push_joined(&mut s, &lines, "\n");
    s
}

proof fn lemma_without_holds(names: Seq<Seq<char>>, removed: Seq<Seq<char>>, n: Seq<char>)
    ensures
        without(names, removed).contains(n) <==> (names.contains(n) && !removed.contains(n)),
    decreases names.len(),
{
    if names.len() > 0 {
        let init = names.drop_last();
        lemma_without_holds(init, removed, n);
        assert(names =~= init.push(names.last()));
        if init.contains(n) {
            let k = choose|k: int| 0 <= k < init.len() && init[k] == n;
            assert(names[k] == n);
        }
        if names.contains(n) && names.last() != n {
            let k = choose|k: int| 0 <= k < names.len() && names[k] == n;
            assert(k < init.len());
            assert(init[k] == n);
        }
        let rest = without(init, removed);
        if !removed.contains(names.last()) {
            assert(rest.push(names.last())[rest.len() as int] == names.last());
            if rest.contains(n) {
                let k = choose|k: int| 0 <= k < rest.len() && rest[k] == n;
                assert(rest.push(names.last())[k] == n);
            }
            if rest.push(names.last()).contains(n) && names.last() != n {
                let k = choose|k: int| 0 <= k < rest.len() + 1 && rest.push(names.last())[k] == n;
                assert(rest[k] == n);
            }
        }
    }
}

proof fn lemma_with_added_holds(names: Seq<Seq<char>>, added: Seq<Seq<char>>, n: Seq<char>)
    ensures
        with_added(names, added).contains(n) <==> (names.contains(n) || added.contains(n)),
    decreases added.len(),
{
    if added.len() > 0 {
        let init = added.drop_last();
        lemma_with_added_holds(names, init, n);
        if init.contains(n) {
            let k = choose|k: int| 0 <= k < init.len() && init[k] == n;
            assert(added[k] == n);
        }
        if added.contains(n) && added.last() != n {
            let k = choose|k: int| 0 <= k < added.len() && added[k] == n;
            assert(init[k] == n);
        }
        let before = with_added(names, init);
        if !before.contains(added.last()) {
            assert(before.push(added.last())[before.len() as int] == added.last());
            if before.contains(n) {
                let k = choose|k: int| 0 <= k < before.len() && before[k] == n;
                assert(before.push(added.last())[k] == n);
            }
            if before.push(added.last()).contains(n) && added.last() != n {
                let k = choose|k: int| 0 <= k < before.len() + 1 && before.push(added.last())[k] == n;
                assert(before[k] == n);
            }
        }
    }
}

/// After an edit, an issue carries a label exactly when the edit adds it, or
/// it carried the label before and the edit does not remove it.
pub proof fn lemma_labels_after_an_edit(before: Seq<Seq<char>>, removed: Seq<Seq<char>>, added: Seq<Seq<char>>)
    ensures
        forall|n: Seq<char>|
            #[trigger] with_added(without(before, removed), added).contains(n) <==> (added.contains(n) || (
            before.contains(n) && !removed.contains(n))),
{
    assert forall|n: Seq<char>|
        #[trigger] with_added(without(before, removed), added).contains(n) <==> (added.contains(n) || (
        before.contains(n) && !removed.contains(n))) by {
        lemma_with_added_holds(without(before, removed), added, n);
        lemma_without_holds(before, removed, n);
    }
}

/// An edit that touches nothing reports no change.
pub proof fn lemma_untouched_reports_nothing(issue: Issue, edit: Edit)
    requires
        edit.title is None,
        edit.description is None,
        edit.priority is None,
        edit.assignee is None,
        edit.estimate is None,
        edit.add_labels@.len() == 0,
        edit.remove_labels@.len() == 0,
        edit.project is None,
        edit.cycle is None,
        edit.parent is None,
    ensures
        described_changes(issue, edit).len() == 0,
{
}

} // verus!
