//! `issue show`: an issue as a Markdown document, its fields, description,
//! sub-issues and comment thread; and the lookups the issue commands make by
//! name.

use vstd::prelude::*;
use crate::entity::{cycle_label, priority_label, Comment, Issue, IssueRef, Label, Priority, Team, User, WorkflowState};
use crate::grouping::{assignee_name, lemma_text_less_irreflexive, lemma_text_less_total, lemma_text_less_transitive, text_before, text_less};
use crate::resolve::{joined, push_joined, texts};
use crate::text::{decimal, eq_ignore_ascii_case, push_decimal, push_str, same_ignoring_ascii_case, trim, trimmed};

verus! {

/// When a comment was written, as Linear stamps it.
pub open spec fn stamp(c: Comment) -> Option<Seq<char>> {
    match c.created_at {
        Some(t) => Some(t@),
        None => None,
    }
}

/// Whether stamp `a` comes before stamp `b`: no stamp first, then by text.
pub open spec fn stamp_less(a: Option<Seq<char>>, b: Option<Seq<char>>) -> bool {
    match (a, b) {
        (None, Some(_)) => true,
        (Some(x), Some(y)) => text_less(x, y),
        _ => false,
    }
}

/// Whether comment `i` of `cs` was written before comment `j`: by stamp,
/// comments with the same stamp in the order they came.
pub open spec fn written_before(cs: Seq<Comment>, i: int, j: int) -> bool {
    stamp_less(stamp(cs[i]), stamp(cs[j])) || (stamp(cs[i]) == stamp(cs[j]) && i < j)
}

/// Whether `t` is a place in `o`.
pub open spec fn listed(o: Seq<usize>, t: int) -> bool {
    exists|k: int| 0 <= k < o.len() && o[k] == t
}

/// Whether `o` lists the places of `cs` once each, in the order the
/// comments were written.
pub open spec fn is_written_order(cs: Seq<Comment>, o: Seq<usize>) -> bool {
    &&& o.len() == cs.len()
    &&& forall|k: int| 0 <= k < o.len() ==> o[k] < cs.len()
    &&& forall|t: int| 0 <= t < cs.len() ==> #[trigger] listed(o, t)
    &&& forall|k: int, l: int| 0 <= k < l < o.len() ==> written_before(cs, o[k] as int, o[l] as int)
}

/// The places of `cs` in the order the comments were written.
pub open spec fn written_order(cs: Seq<Comment>) -> Seq<usize> {
    choose|o: Seq<usize>| is_written_order(cs, o)
}

proof fn lemma_stamp_order(a: Option<Seq<char>>, b: Option<Seq<char>>, c: Option<Seq<char>>)
    ensures
        !stamp_less(a, a),
        a == b || stamp_less(a, b) || stamp_less(b, a),
        !(stamp_less(a, b) && stamp_less(b, a)),
        stamp_less(a, b) && stamp_less(b, c) ==> stamp_less(a, c),
{
    match (a, b, c) {
        (Some(x), Some(y), Some(z)) => {
            lemma_text_less_irreflexive(x);
            lemma_text_less_total(x, y);
            if text_less(x, y) && text_less(y, z) {
                lemma_text_less_transitive(x, y, z);
            }
        },
        (Some(x), Some(y), None) => {
            lemma_text_less_irreflexive(x);
            lemma_text_less_total(x, y);
        },
        (Some(x), None, _) => {
            lemma_text_less_irreflexive(x);
        },
        _ => {},
    }
}

proof fn lemma_written_before(cs: Seq<Comment>, i: int, j: int, k: int)
    ensures
        !written_before(cs, i, i),
        i != j ==> written_before(cs, i, j) || written_before(cs, j, i),
        !(written_before(cs, i, j) && written_before(cs, j, i)),
        written_before(cs, i, j) && written_before(cs, j, k) ==> written_before(cs, i, k),
{
    lemma_stamp_order(stamp(cs[i]), stamp(cs[j]), stamp(cs[k]));
    lemma_stamp_order(stamp(cs[i]), stamp(cs[i]), stamp(cs[i]));
    lemma_stamp_order(stamp(cs[j]), stamp(cs[i]), stamp(cs[k]));
    lemma_stamp_order(stamp(cs[i]), stamp(cs[k]), stamp(cs[j]));
}

/// Two lists of the same comments, each in the order they were written,
/// agree from their start on.
proof fn lemma_written_order_prefix(cs: Seq<Comment>, o: Seq<usize>, p: Seq<usize>, k: int)
    requires
        is_written_order(cs, o),
        is_written_order(cs, p),
        0 <= k <= o.len(),
    ensures
        forall|i: int| 0 <= i < k ==> o[i] == p[i],
    decreases k,
{
    if k > 0 {
        lemma_written_order_prefix(cs, o, p, k - 1);
        let x = o[k - 1];
        let y = p[k - 1];
        assert(listed(p, x as int));
        assert(listed(o, y as int));
        let m = choose|m: int| 0 <= m < p.len() && p[m] == x;
        let n = choose|n: int| 0 <= n < o.len() && o[n] == y;
        if x != y {
            if m < k - 1 {
                assert(o[m] == p[m]);
                lemma_written_before(cs, x as int, x as int, x as int);
            } else if n < k - 1 {
                assert(o[n] == p[n]);
                lemma_written_before(cs, y as int, y as int, y as int);
            } else {
                assert(m > k - 1 && n > k - 1);
                assert(written_before(cs, y as int, x as int));
                assert(written_before(cs, x as int, y as int));
                lemma_written_before(cs, x as int, y as int, x as int);
            }
        }
    }
}

/// The comments have one written order.
pub proof fn lemma_written_order_unique(cs: Seq<Comment>, o: Seq<usize>)
    requires
        is_written_order(cs, o),
    ensures
        written_order(cs) == o,
{
    let p = written_order(cs);
    assert(is_written_order(cs, p));
    lemma_written_order_prefix(cs, o, p, o.len() as int);
    assert(o =~= p);
}

/// Whether comment `i` was written before comment `j`.
fn before(comments: &[Comment], i: usize, j: usize) -> (r: bool)
    requires
        i < comments@.len(),
        j < comments@.len(),
    ensures
        r == stamp_less(stamp(comments@[i as int]), stamp(comments@[j as int])),
{
    match (&comments[i].created_at, &comments[j].created_at) {
        (None, Some(_)) => true,
        (Some(x), Some(y)) => text_before(x.as_str(), y.as_str()),
        _ => false,
    }
}

/// The places of `comments` in the order they were written: by stamp, ties
/// kept in the order they came (a stable insertion sort).
pub fn written_order_of(comments: &[Comment]) -> (order: Vec<usize>)
    ensures
        is_written_order(comments@, order@),
{
    let ghost cs = comments@;
    let n = comments.len();
    let mut order: Vec<usize> = Vec::new();
    let mut k: usize = 0;
    while k < n
        invariant
            n == cs.len(),
            cs == comments@,
            k <= n,
            order@.len() == k,
            forall|i: int| 0 <= i < order@.len() ==> order@[i] < k,
            forall|t: int| 0 <= t < k ==> #[trigger] listed(order@, t),
            forall|i: int, l: int| 0 <= i < l < order@.len() ==> written_before(cs, order@[i] as int, order@[l] as int),
        decreases n - k,
    {
        let mut p: usize = 0;
        while p < k && !before(comments, k, order[p])
            invariant
                n == cs.len(),
                cs == comments@,
                k < n,
                order@.len() == k,
                forall|i: int| 0 <= i < order@.len() ==> order@[i] < k,
                p <= k,
                forall|i: int| 0 <= i < p ==> !stamp_less(stamp(cs[k as int]), #[trigger] stamp(cs[order@[i] as int])),
            decreases k - p,
        {
            p = p + 1;
        }
        let ghost old_order = order@;
        proof {
            assert forall|i: int| 0 <= i < p implies written_before(cs, old_order[i] as int, k as int) by {
                let a = old_order[i] as int;
                assert(a < k);
                lemma_written_before(cs, a, k as int, k as int);
                lemma_stamp_order(stamp(cs[a]), stamp(cs[k as int]), stamp(cs[k as int]));
            }
            if p < k {
                let b = old_order[p as int] as int;
                assert(stamp_less(stamp(cs[k as int]), stamp(cs[b])));
                assert forall|i: int| p <= i < old_order.len() implies written_before(cs, k as int, old_order[i] as int) by {
                    let c = old_order[i] as int;
                    if i > p {
                        assert(written_before(cs, b, c));
                        lemma_written_before(cs, k as int, b, c);
                    }
                }
            }
        }
        order.insert(p, k);
        proof {
            let new_order = order@;
            assert(new_order == old_order.insert(p as int, k));
            assert forall|t: int| 0 <= t < k + 1 implies #[trigger] listed(new_order, t) by {
                if t == k {
                    assert(new_order[p as int] == t);
                } else {
                    assert(listed(old_order, t));
                    let i = choose|i: int| 0 <= i < old_order.len() && old_order[i] == t;
                    if i < p {
                        assert(new_order[i] == t);
                    } else {
                        assert(new_order[i + 1] == t);
                    }
                }
            }
            assert forall|i: int, l: int| 0 <= i < l < new_order.len() implies written_before(
                cs,
                new_order[i] as int,
                new_order[l] as int,
            ) by {
                if l < p {
                    assert(new_order[i] == old_order[i] && new_order[l] == old_order[l]);
                } else if l == p {
                    assert(new_order[i] == old_order[i]);
                } else if i < p {
                    assert(new_order[i] == old_order[i] && new_order[l] == old_order[l - 1]);
                } else if i == p {
                    assert(new_order[l] == old_order[l - 1]);
                } else {
                    assert(new_order[i] == old_order[i - 1] && new_order[l] == old_order[l - 1]);
                }
            }
        }
        k = k + 1;
    }
    order
}

/// Whether comment `j` answers comment `i`.
pub open spec fn answers(cs: Seq<Comment>, j: int, i: int) -> bool {
    match cs[j].parent {
        Some(p) => p.id@ == cs[i].id@,
        None => false,
    }
}

/// Whether comment `j` answers a comment that is not among `cs`.
pub open spec fn stray(cs: Seq<Comment>, j: int) -> bool {
    match cs[j].parent {
        Some(p) => !exists|k: int| 0 <= k < cs.len() && #[trigger] cs[k].id@ == p.id@,
        None => false,
    }
}

/// The replies to comment `r` among the first `k` of `o`, in that order.
pub open spec fn replies_upto(cs: Seq<Comment>, o: Seq<usize>, r: int, k: nat) -> Seq<(usize, bool)>
    decreases k,
{
    if k == 0 {
        Seq::empty()
    } else {
        replies_upto(cs, o, r, (k - 1) as nat) + if answers(cs, o[k - 1] as int, r) {
            seq![(o[k - 1], true)]
        } else {
            Seq::empty()
        }
    }
}

/// The threads begun among the first `k` of `o`: each comment that answers
/// none, then its replies.
pub open spec fn threads_upto(cs: Seq<Comment>, o: Seq<usize>, k: nat) -> Seq<(usize, bool)>
    decreases k,
{
    if k == 0 {
        Seq::empty()
    } else {
        threads_upto(cs, o, (k - 1) as nat) + if cs[o[k - 1] as int].parent is None {
            seq![(o[k - 1], false)] + replies_upto(cs, o, o[k - 1] as int, o.len())
        } else {
            Seq::empty()
        }
    }
}

/// The replies among the first `k` of `o` whose comment is missing.
pub open spec fn strays_upto(cs: Seq<Comment>, o: Seq<usize>, k: nat) -> Seq<(usize, bool)>
    decreases k,
{
    if k == 0 {
        Seq::empty()
    } else {
        strays_upto(cs, o, (k - 1) as nat) + if stray(cs, o[k - 1] as int) {
            seq![(o[k - 1], true)]
        } else {
            Seq::empty()
        }
    }
}

/// The thread one level deep: each comment that answers none followed by
/// its direct replies, then the replies whose comment is missing. Where
/// replies answer only comments that start a thread, it is the thread.
pub open spec fn flat_thread(cs: Seq<Comment>) -> Seq<(usize, bool)> {
    let o = written_order(cs);
    threads_upto(cs, o, o.len()) + strays_upto(cs, o, o.len())
}

/// What stands below comment `r`: each reply to it among the first `k` of
/// `o`, in that order, followed at once by what stands below that reply, to
/// a depth of `fuel`.
pub open spec fn below(cs: Seq<Comment>, o: Seq<usize>, r: int, k: nat, fuel: nat) -> Seq<(usize, bool)>
    decreases fuel, k,
{
    if k == 0 || fuel == 0 {
        Seq::empty()
    } else {
        below(cs, o, r, (k - 1) as nat, fuel) + if answers(cs, o[k - 1] as int, r) {
            seq![(o[k - 1], true)] + below(cs, o, o[k - 1] as int, o.len(), (fuel - 1) as nat)
        } else {
            Seq::empty()
        }
    }
}

/// The threads begun among the first `k` of `o`: each comment that answers
/// none, then everything below it.
pub open spec fn nested_threads_upto(cs: Seq<Comment>, o: Seq<usize>, k: nat) -> Seq<(usize, bool)>
    decreases k,
{
    if k == 0 {
        Seq::empty()
    } else {
        nested_threads_upto(cs, o, (k - 1) as nat) + if cs[o[k - 1] as int].parent is None {
            seq![(o[k - 1], false)] + below(cs, o, o[k - 1] as int, o.len(), cs.len())
        } else {
            Seq::empty()
        }
    }
}

/// The replies among the first `k` of `o` whose comment is missing, each
/// with everything below it.
pub open spec fn nested_strays_upto(cs: Seq<Comment>, o: Seq<usize>, k: nat) -> Seq<(usize, bool)>
    decreases k,
{
    if k == 0 {
        Seq::empty()
    } else {
        nested_strays_upto(cs, o, (k - 1) as nat) + if stray(cs, o[k - 1] as int) {
            seq![(o[k - 1], true)] + below(cs, o, o[k - 1] as int, o.len(), cs.len())
        } else {
            Seq::empty()
        }
    }
}

/// The thread of `cs` as it is read: every comment that answers none, in the
/// order written, each followed by its replies in the order written, each
/// reply followed in turn by its own replies, at any depth; then the replies
/// to comments that are not there, each with its replies. Each entry is a
/// place in `cs` and whether it is shown as a reply.
pub open spec fn thread(cs: Seq<Comment>) -> Seq<(usize, bool)> {
    let o = written_order(cs);
    nested_threads_upto(cs, o, o.len()) + nested_strays_upto(cs, o, o.len())
}

/// Whether comment `i` answers none.
pub(crate) fn starts_thread(comments: &[Comment], i: usize) -> (b: bool)
    requires
        i < comments@.len(),
    ensures
        b == (comments@[i as int].parent is None),
{
    comments[i].parent.is_none()
}

/// Whether comment `j` answers comment `i`.
fn answers_to(comments: &[Comment], j: usize, i: usize) -> (b: bool)
    requires
        i < comments@.len(),
        j < comments@.len(),
    ensures
        b == answers(comments@, j as int, i as int),
{
    match &comments[j].parent {
        Some(p) => p.id == comments[i].id,
        None => false,
    }
}

/// Whether comment `j` answers a comment that is not among `comments`.
pub(crate) fn is_stray(comments: &[Comment], j: usize) -> (b: bool)
    requires
        j < comments@.len(),
    ensures
        b == stray(comments@, j as int),
{
    match &comments[j].parent {
        Some(p) => {
            let mut k: usize = 0;
            while k < comments.len()
                invariant
                    k <= comments@.len(),
                    comments@[j as int].parent == Some(*p),
                    forall|m: int| 0 <= m < k ==> #[trigger] comments@[m].id@ != p.id@,
                decreases comments@.len() - k,
            {
                if comments[k].id == p.id {
                    return false;
                }
                k = k + 1;
            }
            true
        },
        None => false,
    }
}

/// Appends what stands below comment `r`, to a depth of `fuel`.
pub(crate) fn push_below(comments: &[Comment], order: &Vec<usize>, r: usize, fuel: usize, out: &mut Vec<(usize, bool)>)
    requires
        is_written_order(comments@, order@),
        r < comments@.len(),
    ensures
        final(out)@ == old(out)@ + below(comments@, order@, r as int, order@.len() as nat, fuel as nat),
    decreases fuel,
{
    if fuel == 0 {
        assert(below(comments@, order@, r as int, order@.len() as nat, 0) =~= Seq::<(usize, bool)>::empty());
        return;
    }
    let ghost start = out@;
    let n = order.len();
    let mut k: usize = 0;
    while k < n
        invariant
            is_written_order(comments@, order@),
            n == order@.len(),
            r < comments@.len(),
            fuel > 0,
            k <= n,
            out@ == start + below(comments@, order@, r as int, k as nat, fuel as nat),
        decreases n - k,
    {
        let j = order[k];
        let ghost before = out@;
        if answers_to(comments, j, r) {
            out.push((j, true));
            push_below(comments, order, j, fuel - 1, out);
            assert(out@ =~= before + (seq![(j, true)] + below(comments@, order@, j as int, order@.len() as nat, (fuel - 1) as nat)));
        }
        k = k + 1;
    }
}

/// Comments in the order they were written, each reply right after the
/// comment it answers, at any depth; a reply whose comment was not fetched
/// is still shown, with its own replies, at the end. Each entry is a place
/// in `comments` and whether it is shown as a reply.
pub fn threaded(comments: &[Comment]) -> (out: Vec<(usize, bool)>)
    ensures
        out@ == thread(comments@),
        is_written_order(comments@, written_order(comments@)),
{
    let ghost cs = comments@;
    let order = written_order_of(comments);
    proof {
        lemma_written_order_unique(cs, order@);
    }
    let ghost o = order@;
    let n = order.len();
    let mut out: Vec<(usize, bool)> = Vec::new();
    let mut k: usize = 0;
    while k < n
        invariant
            cs == comments@,
            o == order@,
            is_written_order(cs, o),
            n == o.len(),
            k <= n,
            out@ == nested_threads_upto(cs, o, k as nat),
        decreases n - k,
    {
        let root = order[k];
        if starts_thread(comments, root) {
            let ghost before = out@;
            out.push((root, false));
            push_below(comments, &order, root, comments.len(), &mut out);
            assert(out@ =~= before + (seq![(root, false)] + below(cs, o, root as int, o.len(), cs.len())));
        }
        k = k + 1;
    }
    let ghost threads = out@;
    let mut k: usize = 0;
    while k < n
        invariant
            cs == comments@,
            o == order@,
            is_written_order(cs, o),
            n == o.len(),
            k <= n,
            out@ == threads + nested_strays_upto(cs, o, k as nat),
            threads == nested_threads_upto(cs, o, n as nat),
        decreases n - k,
    {
        let j = order[k];
        if is_stray(comments, j) {
            let ghost before = out@;
            out.push((j, true));
            push_below(comments, &order, j, comments.len(), &mut out);
            assert(out@ =~= before + (seq![(j, true)] + below(cs, o, j as int, o.len(), cs.len())));
        }
        k = k + 1;
    }
    out
}

/// The text an optional value holds, if any.
pub open spec fn text_of(o: Option<&str>) -> Option<Seq<char>> {
    match o {
        Some(v) => Some(v@),
        None => None,
    }
}

/// `- Name: value` on a line of its own, or nothing where there is no
/// value or it is empty.
pub open spec fn field_line(name: Seq<char>, value: Option<Seq<char>>) -> Seq<char> {
    match value {
        Some(v) => if v.len() > 0 {
            "- "@ + name + ": "@ + v + "\n"@
        } else {
            Seq::empty()
        },
        None => Seq::empty(),
    }
}

pub open spec fn state_name(s: Option<WorkflowState>) -> Option<Seq<char>> {
    match s {
        Some(s) => Some(s.name@),
        None => None,
    }
}

pub open spec fn user_text(u: Option<User>) -> Option<Seq<char>> {
    match u {
        Some(u) => Some(assignee_name(u)),
        None => None,
    }
}

pub open spec fn label_names(ls: Seq<Label>) -> Seq<Seq<char>> {
    Seq::new(ls.len(), |i: int| ls[i].name@)
}

pub open spec fn some_text(o: Option<String>) -> Option<Seq<char>> {
    match o {
        Some(v) => Some(v@),
        None => None,
    }
}

/// The fields of `issue` that have a value, one line each.
pub open spec fn fields_of(issue: Issue) -> Seq<char> {
    field_line("State"@, state_name(issue.state))
    + field_line("Priority"@, if issue.priority != Priority::Unset { Some(priority_label(issue.priority)) } else { None })
    + field_line("Assignee"@, user_text(issue.assignee))
    + field_line("Creator"@, user_text(issue.creator))
    + field_line("Labels"@, match issue.labels {
        Some(ls) => Some(joined(label_names(ls@), ", "@)),
        None => None,
    })
    + field_line("Project"@, match issue.project {
        Some(p) => Some(p.name@),
        None => None,
    })
    + field_line("Milestone"@, match issue.project_milestone {
        Some(m) => Some(m.name@),
        None => None,
    })
    + field_line("Cycle"@, match issue.cycle {
        Some(c) => Some(cycle_label(c)),
        None => None,
    })
    + field_line("Estimate"@, some_text(issue.estimate))
    + field_line("Due"@, some_text(issue.due_date))
    + field_line("Parent"@, match issue.parent {
        Some(p) => Some(p.identifier@ + " "@ + p.title@),
        None => None,
    })
    + field_line("Branch"@, some_text(issue.branch_name))
    + field_line("URL"@, some_text(issue.url))
}

/// The description section: the description without white space around
/// it, or `(none)`.
pub open spec fn description_of(issue: Issue) -> Seq<char> {
    let d = trimmed(match issue.description {
        Some(d) => d@,
        None => Seq::empty(),
    });
    "\n## Description\n\n"@ + (if d.len() == 0 { "(none)"@ } else { d }) + "\n"@
}

pub open spec fn child_line(c: IssueRef) -> Seq<char> {
    "- "@ + c.identifier@ + " "@ + c.title@ + " ("@ + match c.state {
        Some(s) => s.name@,
        None => Seq::empty(),
    } + ")\n"@
}

pub open spec fn child_lines(cs: Seq<IssueRef>, k: nat) -> Seq<char>
    decreases k,
{
    if k == 0 {
        Seq::empty()
    } else {
        child_lines(cs, (k - 1) as nat) + child_line(cs[k - 1])
    }
}

/// The sub-issues section, where there are sub-issues.
pub open spec fn children_of(issue: Issue) -> Seq<char> {
    match issue.children {
        Some(cs) => if cs.len() > 0 {
            "\n## Sub-issues\n\n"@ + child_lines(cs@, cs.len() as nat)
        } else {
            Seq::empty()
        },
        None => Seq::empty(),
    }
}

/// Who wrote a comment.
pub open spec fn author(c: Comment) -> Seq<char> {
    match c.user {
        Some(u) => assignee_name(u),
        None => "someone"@,
    }
}

/// One comment: its author and time under a heading (a smaller one for a
/// reply), its id, and its body.
pub open spec fn comment_block(c: Comment, reply: bool) -> Seq<char> {
    "\n"@ + (if reply { "#### \u{21b3} "@ } else { "### "@ }) + author(c) + " \u{2014} "@ + match c.created_at {
        Some(t) => t@,
        None => Seq::empty(),
    } + "\n\n- Id: "@ + c.id@ + "\n\n"@ + trimmed(c.body@) + "\n"@
}

pub open spec fn comment_blocks(cs: Seq<Comment>, t: Seq<(usize, bool)>, k: nat) -> Seq<char>
    decreases k,
{
    if k == 0 {
        Seq::empty()
    } else {
        comment_blocks(cs, t, (k - 1) as nat) + comment_block(cs[t[k - 1].0 as int], t[k - 1].1)
    }
}

/// The comments section, where the comments were fetched: how many, then
/// the thread.
pub open spec fn comments_of(issue: Issue) -> Seq<char> {
    match issue.comments {
        Some(cs) => "\n## Comments ("@ + decimal(cs.len() as nat) + ")\n"@ + comment_blocks(
            cs@,
            thread(cs@),
            thread(cs@).len(),
        ),
        None => Seq::empty(),
    }
}

/// `issue` as the Markdown document `issue show` prints.
pub open spec fn rendered_issue(issue: Issue) -> Seq<char> {
    "# "@ + issue.identifier@ + " "@ + issue.title@ + "\n\n"@ + fields_of(issue) + description_of(issue)
        + children_of(issue) + comments_of(issue)
}

/// What a user is called: the display name, else the name.
pub(crate) fn user_name(u: &User) -> (r: &str)
    ensures
        r@ == assignee_name(*u),
{
    match &u.display_name {
        Some(d) => d.as_str(),
        None => u.name.as_str(),
    }
}

fn some_str(o: &Option<String>) -> (r: Option<&str>)
    ensures
        text_of(r) == some_text(*o),
{
    match o {
        Some(v) => Some(v.as_str()),
        None => None,
    }
}

fn push_field(out: &mut String, name: &str, value: Option<&str>)
    ensures
        final(out)@ == old(out)@ + field_line(name@, text_of(value)),
{
    if let Some(v) = value {
        if !v.is_empty() {
            push_str(out, "- ");
            push_str(out, name);
            push_str(out, ": ");
            push_str(out, v);
            push_str(out, "\n");
            assert(out@ =~= old(out)@ + field_line(name@, text_of(value)));
        } else {
            assert(out@ =~= old(out)@ + field_line(name@, text_of(value)));
        }
    } else {
        assert(out@ =~= old(out)@ + field_line(name@, text_of(value)));
    }
}

fn labels_joined(ls: &Vec<Label>) -> (s: String)
    ensures
        s@ == joined(label_names(ls@), ", "@),
{
    let mut names: Vec<String> = Vec::new();
    let mut i: usize = 0;
    while i < ls.len()
        invariant
            i <= ls@.len(),
            names@.len() == i,
            forall|k: int| 0 <= k < i ==> #[trigger] names@[k]@ == ls@[k].name@,
        decreases ls@.len() - i,
    {
        names.push(ls[i].name.clone());
        i = i + 1;
    }
    assert(texts(names@) =~= label_names(ls@));
    let mut s = String::new();
    push_joined(&mut s, &names, ", ");
    assert(s@ =~= joined(label_names(ls@), ", "@));
    s
}

fn fields_text(issue: &Issue) -> (s: String)
    ensures
        s@ == fields_of(*issue),
{
    let mut s = String::new();
    let ghost start = s@;
    let state = match &issue.state {
        Some(st) => Some(st.name.as_str()),
        None => None,
    };
    push_field(&mut s, "State", state);
    let ghost a = s@;
    let priority = if issue.priority != Priority::Unset {
        Some(issue.priority.label())
    } else {
        None
    };
    push_field(&mut s, "Priority", priority);
    let ghost b = s@;
    let assignee = match &issue.assignee {
        Some(u) => Some(user_name(u)),
        None => None,
    };
    push_field(&mut s, "Assignee", assignee);
    let creator = match &issue.creator {
        Some(u) => Some(user_name(u)),
        None => None,
    };
    push_field(&mut s, "Creator", creator);
    let ghost c = s@;
    let labels = match &issue.labels {
        Some(ls) => Some(labels_joined(ls)),
        None => None,
    };
    push_field(&mut s, "Labels", some_str(&labels));
    let project = match &issue.project {
        Some(p) => Some(p.name.as_str()),
        None => None,
    };
    push_field(&mut s, "Project", project);
    let milestone = match &issue.project_milestone {
        Some(m) => Some(m.name.as_str()),
        None => None,
    };
    push_field(&mut s, "Milestone", milestone);
    let ghost d = s@;
    let cycle = match &issue.cycle {
        Some(cy) => Some(cy.label()),
        None => None,
    };
    push_field(&mut s, "Cycle", some_str(&cycle));
    push_field(&mut s, "Estimate", some_str(&issue.estimate));
    push_field(&mut s, "Due", some_str(&issue.due_date));
    let ghost e = s@;
    let parent = match &issue.parent {
        Some(p) => {
            let mut t = p.identifier.clone();
            push_str(&mut t, " ");
            push_str(&mut t, p.title.as_str());
            Some(t)
        },
        None => None,
    };
    push_field(&mut s, "Parent", some_str(&parent));
    push_field(&mut s, "Branch", some_str(&issue.branch_name));
    push_field(&mut s, "URL", some_str(&issue.url));
    assert(s@ =~= fields_of(*issue));
    s
}

fn description_text(issue: &Issue) -> (s: String)
    ensures
        s@ == description_of(*issue),
{
    proof {
        reveal_strlit("");
    }
    let d = match &issue.description {
        Some(d) => trim(d.as_str()),
        None => trim(""),
    };
    let mut s = String::new();
    push_str(&mut s, "\n## Description\n\n");
    if d.is_empty() {
        push_str(&mut s, "(none)");
    } else {
        push_str(&mut s, d);
    }
    push_str(&mut s, "\n");
    assert(s@ =~= description_of(*issue));
    s
}

fn children_text(issue: &Issue) -> (s: String)
    ensures
        s@ == children_of(*issue),
{
    let mut s = String::new();
    match &issue.children {
        Some(cs) => {
            if cs.len() > 0 {
                push_str(&mut s, "\n## Sub-issues\n\n");
                let ghost head = s@;
                let mut i: usize = 0;
                while i < cs.len()
                    invariant
                        i <= cs@.len(),
                        s@ == head + child_lines(cs@, i as nat),
                    decreases cs@.len() - i,
                {
                    let c = &cs[i];
                    let ghost before = s@;
                    push_str(&mut s, "- ");
                    push_str(&mut s, c.identifier.as_str());
                    push_str(&mut s, " ");
                    push_str(&mut s, c.title.as_str());
                    push_str(&mut s, " (");
                    match &c.state {
                        Some(st) => push_str(&mut s, st.name.as_str()),
                        None => {},
                    }
                    push_str(&mut s, ")\n");
                    assert(s@ =~= before + child_line(cs@[i as int]));
                    assert(s@ =~= head + child_lines(cs@, (i + 1) as nat));
                    i = i + 1;
                }
            }
        },
        None => {},
    }
    assert(s@ =~= children_of(*issue));
    s
}

fn push_comment(s: &mut String, c: &Comment, reply: bool)
    ensures
        final(s)@ == old(s)@ + comment_block(*c, reply),
{
    push_str(s, "\n");
    if reply {
        push_str(s, "#### \u{21b3} ");
    } else {
        push_str(s, "### ");
    }
    match &c.user {
        Some(u) => push_str(s, user_name(u)),
        None => push_str(s, "someone"),
    }
    push_str(s, " \u{2014} ");
    match &c.created_at {
        Some(when) => push_str(s, when.as_str()),
        None => {},
    }
    push_str(s, "\n\n- Id: ");
    push_str(s, c.id.as_str());
    push_str(s, "\n\n");
    push_str(s, trim(c.body.as_str()));
    push_str(s, "\n");
    assert(s@ =~= old(s)@ + comment_block(*c, reply));
}

proof fn lemma_replies_places(cs: Seq<Comment>, o: Seq<usize>, r: int, k: nat)
    requires
        k <= o.len(),
        forall|m: int| 0 <= m < o.len() ==> o[m] < cs.len(),
    ensures
        forall|i: int| 0 <= i < replies_upto(cs, o, r, k).len() ==> #[trigger] replies_upto(cs, o, r, k)[i].0 < cs.len(),
    decreases k,
{
    if k > 0 {
        lemma_replies_places(cs, o, r, (k - 1) as nat);
        let a = replies_upto(cs, o, r, (k - 1) as nat);
        let whole = replies_upto(cs, o, r, k);
        assert forall|i: int| 0 <= i < whole.len() implies #[trigger] whole[i].0 < cs.len() by {
            if i < a.len() {
                assert(whole[i] == a[i]);
            }
        }
    }
}

proof fn lemma_threads_places(cs: Seq<Comment>, o: Seq<usize>, k: nat)
    requires
        k <= o.len(),
        forall|m: int| 0 <= m < o.len() ==> o[m] < cs.len(),
    ensures
        forall|i: int| 0 <= i < threads_upto(cs, o, k).len() ==> #[trigger] threads_upto(cs, o, k)[i].0 < cs.len(),
        forall|i: int| 0 <= i < strays_upto(cs, o, k).len() ==> #[trigger] strays_upto(cs, o, k)[i].0 < cs.len(),
    decreases k,
{
    if k > 0 {
        lemma_threads_places(cs, o, (k - 1) as nat);
        let r = o[k - 1] as int;
        lemma_replies_places(cs, o, r, o.len());
        let a = threads_upto(cs, o, (k - 1) as nat);
        let whole = threads_upto(cs, o, k);
        let rs = replies_upto(cs, o, r, o.len());
        assert forall|i: int| 0 <= i < whole.len() implies #[trigger] whole[i].0 < cs.len() by {
            if i < a.len() {
                assert(whole[i] == a[i]);
            } else if i > a.len() {
                assert(whole[i] == rs[i - a.len() - 1]);
            }
        }
        let b = strays_upto(cs, o, (k - 1) as nat);
        let all = strays_upto(cs, o, k);
        assert forall|i: int| 0 <= i < all.len() implies #[trigger] all[i].0 < cs.len() by {
            if i < b.len() {
                assert(all[i] == b[i]);
            }
        }
    }
}

/// Whether every entry of `t` is a place among `n` comments.
pub open spec fn within(t: Seq<(usize, bool)>, n: nat) -> bool {
    forall|i: int| 0 <= i < t.len() ==> #[trigger] t[i].0 < n
}

proof fn lemma_within_add(a: Seq<(usize, bool)>, b: Seq<(usize, bool)>, n: nat)
    requires
        within(a, n),
        within(b, n),
    ensures
        within(a + b, n),
{
    assert forall|i: int| 0 <= i < (a + b).len() implies #[trigger] (a + b)[i].0 < n by {
        if i < a.len() {
            assert((a + b)[i] == a[i]);
        } else {
            assert((a + b)[i] == b[i - a.len()]);
        }
    }
}

pub(crate) proof fn lemma_below_places(cs: Seq<Comment>, o: Seq<usize>, r: int, k: nat, fuel: nat)
    requires
        k <= o.len(),
        forall|m: int| 0 <= m < o.len() ==> o[m] < cs.len(),
    ensures
        within(below(cs, o, r, k, fuel), cs.len()),
    decreases fuel, k,
{
    if k > 0 && fuel > 0 {
        lemma_below_places(cs, o, r, (k - 1) as nat, fuel);
        let j = o[k - 1];
        if answers(cs, j as int, r) {
            lemma_below_places(cs, o, j as int, o.len(), (fuel - 1) as nat);
            lemma_within_add(seq![(j, true)], below(cs, o, j as int, o.len(), (fuel - 1) as nat), cs.len());
            lemma_within_add(
                below(cs, o, r, (k - 1) as nat, fuel),
                seq![(j, true)] + below(cs, o, j as int, o.len(), (fuel - 1) as nat),
                cs.len(),
            );
        } else {
            assert(below(cs, o, r, k, fuel) =~= below(cs, o, r, (k - 1) as nat, fuel));
        }
    }
}

proof fn lemma_nested_places(cs: Seq<Comment>, o: Seq<usize>, k: nat)
    requires
        k <= o.len(),
        forall|m: int| 0 <= m < o.len() ==> o[m] < cs.len(),
    ensures
        within(nested_threads_upto(cs, o, k), cs.len()),
        within(nested_strays_upto(cs, o, k), cs.len()),
    decreases k,
{
    if k > 0 {
        lemma_nested_places(cs, o, (k - 1) as nat);
        let j = o[k - 1];
        lemma_below_places(cs, o, j as int, o.len(), cs.len());
        lemma_within_add(seq![(j, false)], below(cs, o, j as int, o.len(), cs.len()), cs.len());
        lemma_within_add(seq![(j, true)], below(cs, o, j as int, o.len(), cs.len()), cs.len());
        if cs[j as int].parent is None {
            lemma_within_add(
                nested_threads_upto(cs, o, (k - 1) as nat),
                seq![(j, false)] + below(cs, o, j as int, o.len(), cs.len()),
                cs.len(),
            );
        } else {
            assert(nested_threads_upto(cs, o, k) =~= nested_threads_upto(cs, o, (k - 1) as nat));
        }
        if stray(cs, j as int) {
            lemma_within_add(
                nested_strays_upto(cs, o, (k - 1) as nat),
                seq![(j, true)] + below(cs, o, j as int, o.len(), cs.len()),
                cs.len(),
            );
        } else {
            assert(nested_strays_upto(cs, o, k) =~= nested_strays_upto(cs, o, (k - 1) as nat));
        }
    }
}

/// Every entry of the thread is a place among the comments.
proof fn lemma_thread_places(cs: Seq<Comment>)
    requires
        is_written_order(cs, written_order(cs)),
    ensures
        forall|i: int| 0 <= i < thread(cs).len() ==> #[trigger] thread(cs)[i].0 < cs.len(),
{
    let o = written_order(cs);
    lemma_nested_places(cs, o, o.len());
    lemma_within_add(nested_threads_upto(cs, o, o.len()), nested_strays_upto(cs, o, o.len()), cs.len());
}

fn comments_text(issue: &Issue) -> (s: String)
    ensures
        s@ == comments_of(*issue),
{
    let mut s = String::new();
    match &issue.comments {
        Some(cs) => {
            push_str(&mut s, "\n## Comments (");
            push_decimal(&mut s, cs.len() as u64);
            push_str(&mut s, ")\n");
            let ghost head = s@;
            let t = threaded(cs.as_slice());
            proof {
                lemma_thread_places(cs@);
            }
            let mut i: usize = 0;
            while i < t.len()
                invariant
                    t@ == thread(cs@),
                    i <= t@.len(),
                    forall|k: int| 0 <= k < t@.len() ==> #[trigger] t@[k].0 < cs@.len(),
                    s@ == head + comment_blocks(cs@, t@, i as nat),
                decreases t@.len() - i,
            {
                let (at, reply) = t[i];
                let ghost before = s@;
                push_comment(&mut s, &cs[at], reply);
                assert(s@ =~= head + comment_blocks(cs@, t@, (i + 1) as nat));
                i = i + 1;
            }
        },
        None => {},
    }
    assert(s@ =~= comments_of(*issue));
    s
}

/// `issue` as a Markdown document: its identifier and title, the fields that
/// have a value, the description, the sub-issues, and the comment thread,
/// each comment with its id.
pub fn render_issue(issue: &Issue) -> (text: String)
    ensures
        text@ == rendered_issue(*issue),
{
    let mut out = String::new();
    push_str(&mut out, "# ");
    push_str(&mut out, issue.identifier.as_str());
    push_str(&mut out, " ");
    push_str(&mut out, issue.title.as_str());
    push_str(&mut out, "\n\n");
    let fields = fields_text(issue);
    push_str(&mut out, fields.as_str());
    let description = description_text(issue);
    push_str(&mut out, description.as_str());
    let children = children_text(issue);
    push_str(&mut out, children.as_str());
    let comments = comments_text(issue);
    push_str(&mut out, comments.as_str());
    assert(out@ =~= rendered_issue(*issue));
    out
}

/// The names of `states`, in their order.
pub open spec fn state_names(states: Seq<WorkflowState>) -> Seq<Seq<char>> {
    Seq::new(states.len(), |i: int| states[i].name@)
}

/// Whether state `i` is called `name`, ignoring ASCII case and the white
/// space around `name`.
pub open spec fn state_called(states: Seq<WorkflowState>, i: int, name: Seq<char>) -> bool {
    same_ignoring_ascii_case(states[i].name@, trimmed(name))
}

/// The state called `name` in a team's workflow, ignoring case: the first
/// such. When there is none, the error names every state there is.
pub fn resolve_state<'a>(states: &'a [WorkflowState], name: &str) -> (r: Result<&'a WorkflowState, String>)
    ensures
        match r {
            Ok(state) => exists|i: int|
                0 <= i < states@.len() && state_called(states@, i, name@) && *state == states@[i] && forall|j: int|
                    0 <= j < i ==> !state_called(states@, j, name@),
            Err(e) => (forall|i: int| 0 <= i < states@.len() ==> !state_called(states@, i, name@)) && e@ == "no state "@
                + name@ + " in this issue's team (states: "@ + joined(state_names(states@), ", "@) + ")"@,
        },
{
    let wanted = trim(name);
    let mut i: usize = 0;
    while i < states.len()
        invariant
            i <= states@.len(),
            wanted@ == trimmed(name@),
            forall|j: int| 0 <= j < i ==> !state_called(states@, j, name@),
        decreases states@.len() - i,
    {
        if eq_ignore_ascii_case(states[i].name.as_str(), wanted) {
            return Ok(&states[i]);
        }
        i = i + 1;
    }
    let mut names: Vec<String> = Vec::new();
    let mut k: usize = 0;
    while k < states.len()
        invariant
            k <= states@.len(),
            names@.len() == k,
            forall|j: int| 0 <= j < k ==> #[trigger] names@[j]@ == states@[j].name@,
        decreases states@.len() - k,
    {
        names.push(states[k].name.clone());
        k = k + 1;
    }
    assert(texts(names@) =~= state_names(states@));
    let mut e = String::new();
    push_str(&mut e, "no state ");
    push_str(&mut e, name);
    push_str(&mut e, " in this issue's team (states: ");
    push_joined(&mut e, &names, ", ");
    push_str(&mut e, ")");
    assert(e@ =~= "no state "@ + name@ + " in this issue's team (states: "@ + joined(state_names(states@), ", "@) + ")"@);
    Err(e)
}

/// How many entries of `t` are comment `i`.
pub open spec fn occurrences(t: Seq<(usize, bool)>, i: int) -> nat
    decreases t.len(),
{
    if t.len() == 0 {
        0
    } else {
        occurrences(t.drop_last(), i) + if t.last().0 == i { 1nat } else { 0nat }
    }
}

/// How many of the first `k` places of `o` are `i`.
spec fn times_listed(o: Seq<usize>, i: int, k: nat) -> nat
    decreases k,
{
    if k == 0 {
        0
    } else {
        times_listed(o, i, (k - 1) as nat) + if o[k - 1] == i { 1nat } else { 0nat }
    }
}

/// How many of the first `k` places of `o` start a thread that comment `i`
/// answers.
spec fn answered_threads(cs: Seq<Comment>, o: Seq<usize>, i: int, k: nat) -> nat
    decreases k,
{
    if k == 0 {
        0
    } else {
        answered_threads(cs, o, i, (k - 1) as nat) + if cs[o[k - 1] as int].parent is None && answers(
            cs,
            i,
            o[k - 1] as int,
        ) {
            1nat
        } else {
            0nat
        }
    }
}

proof fn lemma_occurrences_single(x: (usize, bool), i: int)
    ensures
        occurrences(seq![x], i) == if x.0 == i { 1nat } else { 0nat },
{
    assert(seq![x].drop_last() =~= Seq::<(usize, bool)>::empty());
    assert(occurrences(Seq::<(usize, bool)>::empty(), i) == 0);
}

proof fn lemma_occurrences_add(a: Seq<(usize, bool)>, b: Seq<(usize, bool)>, i: int)
    ensures
        occurrences(a + b, i) == occurrences(a, i) + occurrences(b, i),
    decreases b.len(),
{
    if b.len() > 0 {
        lemma_occurrences_add(a, b.drop_last(), i);
        assert((a + b).drop_last() =~= a + b.drop_last());
    } else {
        assert(a + b =~= a);
    }
}

proof fn lemma_replies_occurrences(cs: Seq<Comment>, o: Seq<usize>, r: int, i: int, k: nat)
    requires
        k <= o.len(),
    ensures
        occurrences(replies_upto(cs, o, r, k), i) == if answers(cs, i, r) { times_listed(o, i, k) } else { 0 },
    decreases k,
{
    if k > 0 {
        lemma_replies_occurrences(cs, o, r, i, (k - 1) as nat);
        let step = if answers(cs, o[k - 1] as int, r) { seq![(o[k - 1], true)] } else { Seq::empty() };
        lemma_occurrences_add(replies_upto(cs, o, r, (k - 1) as nat), step, i);
        if answers(cs, o[k - 1] as int, r) {
            lemma_occurrences_single((o[k - 1], true), i);
            assert(occurrences(step, i) == if o[k - 1] == i { 1nat } else { 0nat });
        } else {
            assert(occurrences(step, i) == 0);
        }
    }
}

proof fn lemma_threads_occurrences(cs: Seq<Comment>, o: Seq<usize>, i: int, k: nat)
    requires
        k <= o.len(),
        times_listed(o, i, o.len()) == 1,
    ensures
        occurrences(threads_upto(cs, o, k), i) == (if cs[i].parent is None { times_listed(o, i, k) } else { 0 })
            + answered_threads(cs, o, i, k),
    decreases k,
{
    if k > 0 {
        lemma_threads_occurrences(cs, o, i, (k - 1) as nat);
        let r = o[k - 1] as int;
        if cs[r].parent is None {
            let rs = replies_upto(cs, o, r, o.len());
            lemma_replies_occurrences(cs, o, r, i, o.len());
            lemma_occurrences_add(seq![(o[k - 1], false)], rs, i);
            lemma_occurrences_single((o[k - 1], false), i);
            assert(occurrences(seq![(o[k - 1], false)], i) == if o[k - 1] == i { 1nat } else { 0nat });
            lemma_occurrences_add(threads_upto(cs, o, (k - 1) as nat), seq![(o[k - 1], false)] + rs, i);
            if answers(cs, i, r) {
                assert(cs[i].parent is Some);
            }
        } else {
            lemma_occurrences_add(threads_upto(cs, o, (k - 1) as nat), Seq::empty(), i);
            assert(occurrences(Seq::<(usize, bool)>::empty(), i) == 0);
        }
    }
}

proof fn lemma_strays_occurrences(cs: Seq<Comment>, o: Seq<usize>, i: int, k: nat)
    requires
        k <= o.len(),
    ensures
        occurrences(strays_upto(cs, o, k), i) == if stray(cs, i) { times_listed(o, i, k) } else { 0 },
    decreases k,
{
    if k > 0 {
        lemma_strays_occurrences(cs, o, i, (k - 1) as nat);
        let step = if stray(cs, o[k - 1] as int) { seq![(o[k - 1], true)] } else { Seq::empty() };
        lemma_occurrences_add(strays_upto(cs, o, (k - 1) as nat), step, i);
        if stray(cs, o[k - 1] as int) {
            lemma_occurrences_single((o[k - 1], true), i);
            assert(occurrences(step, i) == if o[k - 1] == i { 1nat } else { 0nat });
        } else {
            assert(occurrences(step, i) == 0);
        }
    }
}

/// In a list of distinct places, `i` is among the first `k` once or not at
/// all.
proof fn lemma_times_listed(o: Seq<usize>, i: int, k: nat)
    requires
        k <= o.len(),
        forall|a: int, b: int| 0 <= a < b < o.len() ==> o[a] != o[b],
    ensures
        times_listed(o, i, k) == if exists|m: int| 0 <= m < k && o[m] == i { 1nat } else { 0nat },
    decreases k,
{
    if k > 0 {
        lemma_times_listed(o, i, (k - 1) as nat);
        if o[k - 1] == i {
            assert(!exists|m: int| 0 <= m < k - 1 && o[m] == i);
        } else {
            if exists|m: int| 0 <= m < k && o[m] == i {
                let m = choose|m: int| 0 <= m < k && o[m] == i;
                assert(m < k - 1);
            }
        }
    }
}

/// The threads `i` answers, among the first `k` places, are the places of its
/// comment, `p`.
proof fn lemma_answered_threads(cs: Seq<Comment>, o: Seq<usize>, i: int, p: int, k: nat)
    requires
        k <= o.len(),
        forall|m: int| 0 <= m < o.len() ==> o[m] < cs.len(),
        0 <= p < cs.len(),
        cs[p].parent is None,
        answers(cs, i, p),
        forall|a: int, b: int| 0 <= a < b < cs.len() ==> cs[a].id@ != cs[b].id@,
    ensures
        answered_threads(cs, o, i, k) == times_listed(o, p, k),
    decreases k,
{
    if k > 0 {
        lemma_answered_threads(cs, o, i, p, (k - 1) as nat);
        let r = o[k - 1] as int;
        if answers(cs, i, r) && r != p {
            if r < p {
                assert(cs[r].id@ != cs[p].id@);
            } else {
                assert(cs[p].id@ != cs[r].id@);
            }
        }
    }
}

/// Where `i` answers no thread, it is in none.
proof fn lemma_no_answered_threads(cs: Seq<Comment>, o: Seq<usize>, i: int, k: nat)
    requires
        k <= o.len(),
        forall|m: int| 0 <= m < o.len() ==> o[m] < cs.len(),
        forall|m: int| 0 <= m < cs.len() && #[trigger] cs[m].parent is None ==> !answers(cs, i, m),
    ensures
        answered_threads(cs, o, i, k) == 0,
    decreases k,
{
    if k > 0 {
        lemma_no_answered_threads(cs, o, i, (k - 1) as nat);
    }
}

/// Whether every reply answers a comment that starts a thread.
pub open spec fn shallow(cs: Seq<Comment>) -> bool {
    forall|j: int, k: int| 0 <= j < cs.len() && 0 <= k < cs.len() && answers(cs, j, k) ==> cs[k].parent is None
}

proof fn lemma_below_empty(cs: Seq<Comment>, o: Seq<usize>, c: int, k: nat, fuel: nat)
    requires
        k <= o.len(),
        forall|m: int| 0 <= m < o.len() ==> o[m] < cs.len(),
        forall|j: int| 0 <= j < cs.len() ==> !answers(cs, j, c),
    ensures
        below(cs, o, c, k, fuel) == Seq::<(usize, bool)>::empty(),
    decreases k,
{
    if k > 0 && fuel > 0 {
        lemma_below_empty(cs, o, c, (k - 1) as nat, fuel);
        assert(!answers(cs, o[k - 1] as int, c));
        assert(below(cs, o, c, k, fuel) =~= below(cs, o, c, (k - 1) as nat, fuel));
    }
}

proof fn lemma_below_replies(cs: Seq<Comment>, o: Seq<usize>, r: int, k: nat, fuel: nat)
    requires
        fuel >= 1,
        k <= o.len(),
        forall|m: int| 0 <= m < o.len() ==> o[m] < cs.len(),
        shallow(cs),
    ensures
        below(cs, o, r, k, fuel) == replies_upto(cs, o, r, k),
    decreases k,
{
    if k > 0 {
        lemma_below_replies(cs, o, r, (k - 1) as nat, fuel);
        let c = o[k - 1] as int;
        if answers(cs, c, r) {
            assert forall|j: int| 0 <= j < cs.len() implies !answers(cs, j, c) by {
                if answers(cs, j, c) {
                    assert(cs[c].parent is None);
                }
            }
            lemma_below_empty(cs, o, c, o.len(), (fuel - 1) as nat);
            assert(below(cs, o, r, k, fuel) =~= replies_upto(cs, o, r, k));
        } else {
            assert(below(cs, o, r, k, fuel) =~= replies_upto(cs, o, r, k));
        }
    }
}

proof fn lemma_nested_flat(cs: Seq<Comment>, o: Seq<usize>, k: nat)
    requires
        is_written_order(cs, o),
        k <= o.len(),
        shallow(cs),
    ensures
        nested_threads_upto(cs, o, k) == threads_upto(cs, o, k),
        nested_strays_upto(cs, o, k) == strays_upto(cs, o, k),
    decreases k,
{
    if k > 0 {
        lemma_nested_flat(cs, o, (k - 1) as nat);
        let j = o[k - 1] as int;
        if cs[j].parent is None {
            lemma_below_replies(cs, o, j, o.len(), cs.len());
        }
        assert(nested_threads_upto(cs, o, k) =~= threads_upto(cs, o, k));
        if stray(cs, j) {
            assert forall|m: int| 0 <= m < cs.len() implies !answers(cs, m, j) by {
                if answers(cs, m, j) {
                    assert(cs[j].parent is None);
                }
            }
            lemma_below_empty(cs, o, j, o.len(), cs.len());
        }
        assert(nested_strays_upto(cs, o, k) =~= strays_upto(cs, o, k));
    }
}

/// Every comment is read once in the thread, where Linear threads them as it
/// does: ids are distinct, and a reply answers a comment that starts a thread
/// (or one that was not fetched).
pub proof fn lemma_every_comment_read_once(cs: Seq<Comment>, o: Seq<usize>, i: int)
    requires
        is_written_order(cs, o),
        0 <= i < cs.len(),
        forall|a: int, b: int| 0 <= a < b < cs.len() ==> cs[a].id@ != cs[b].id@,
        forall|j: int, k: int| 0 <= j < cs.len() && 0 <= k < cs.len() && answers(cs, j, k) ==> cs[k].parent is None,
    ensures
        occurrences(thread(cs), i) == 1,
{
    lemma_written_order_unique(cs, o);
    let n = o.len();
    lemma_nested_flat(cs, o, n);
    assert(thread(cs) == flat_thread(cs));
    assert forall|a: int, b: int| 0 <= a < b < o.len() implies o[a] != o[b] by {
        lemma_written_before(cs, o[a] as int, o[a] as int, o[a] as int);
    }
    lemma_times_listed(o, i, n);
    assert(listed(o, i));
    lemma_occurrences_add(threads_upto(cs, o, n), strays_upto(cs, o, n), i);
    lemma_threads_occurrences(cs, o, i, n);
    lemma_strays_occurrences(cs, o, i, n);
    match cs[i].parent {
        None => {
            lemma_no_answered_threads(cs, o, i, n);
        },
        Some(p) => {
            if exists|k: int| 0 <= k < cs.len() && #[trigger] cs[k].id@ == p.id@ {
                let k = choose|k: int| 0 <= k < cs.len() && #[trigger] cs[k].id@ == p.id@;
                assert(answers(cs, i, k));
                lemma_answered_threads(cs, o, i, k, n);
                lemma_times_listed(o, k, n);
                assert(listed(o, k));
            } else {
                assert forall|m: int| 0 <= m < cs.len() && #[trigger] cs[m].parent is None implies !answers(cs, i, m) by {
                    if answers(cs, i, m) {
                        assert(cs[m].id@ == p.id@);
                    }
                }
                lemma_no_answered_threads(cs, o, i, n);
            }
        },
    }
}

/// Whether team `i` is called `wanted`, by key or by name, ignoring ASCII
/// case.
pub open spec fn team_called(teams: Seq<Team>, i: int, wanted: Seq<char>) -> bool {
    same_ignoring_ascii_case(teams[i].key@, wanted) || same_ignoring_ascii_case(teams[i].name@, wanted)
}

/// The keys of `teams`, in their order.
pub open spec fn team_keys(teams: Seq<Team>) -> Seq<Seq<char>> {
    Seq::new(teams.len(), |i: int| teams[i].key@)
}

/// The team `wanted` names, by key or by name in any case: the first such.
/// When there is none, the error lists the team keys.
pub fn find_team<'a>(teams: &'a [Team], wanted: &str) -> (r: Result<&'a Team, String>)
    ensures
        match r {
            Ok(team) => exists|i: int|
                0 <= i < teams@.len() && team_called(teams@, i, wanted@) && *team == teams@[i] && forall|j: int|
                    0 <= j < i ==> !team_called(teams@, j, wanted@),
            Err(e) => (forall|i: int| 0 <= i < teams@.len() ==> !team_called(teams@, i, wanted@)) && e@ == "no team "@
                + wanted@ + " (teams: "@ + joined(team_keys(teams@), ", "@) + ")"@,
        },
{
    let mut i: usize = 0;
    while i < teams.len()
        invariant
            i <= teams@.len(),
            forall|j: int| 0 <= j < i ==> !team_called(teams@, j, wanted@),
        decreases teams@.len() - i,
    {
        if eq_ignore_ascii_case(teams[i].key.as_str(), wanted) || eq_ignore_ascii_case(teams[i].name.as_str(), wanted) {
            return Ok(&teams[i]);
        }
        i = i + 1;
    }
    let mut keys: Vec<String> = Vec::new();
    let mut k: usize = 0;
    while k < teams.len()
        invariant
            k <= teams@.len(),
            keys@.len() == k,
            forall|j: int| 0 <= j < k ==> #[trigger] keys@[j]@ == teams@[j].key@,
        decreases teams@.len() - k,
    {
        keys.push(teams[k].key.clone());
        k = k + 1;
    }
    assert(texts(keys@) =~= team_keys(teams@));
    let mut e = String::new();
    push_str(&mut e, "no team ");
    push_str(&mut e, wanted);
    push_str(&mut e, " (teams: ");
    push_joined(&mut e, &keys, ", ");
    push_str(&mut e, ")");
    assert(e@ =~= "no team "@ + wanted@ + " (teams: "@ + joined(team_keys(teams@), ", "@) + ")"@);
    Err(e)
}

/// The place of the comment that comment `i` answers, when it is among
/// `cs`.
pub open spec fn parent_of(cs: Seq<Comment>, i: int) -> Option<int> {
    match cs[i].parent {
        Some(p) => if exists|k: int| 0 <= k < cs.len() && #[trigger] cs[k].id@ == p.id@ {
            Some(choose|k: int| 0 <= k < cs.len() && #[trigger] cs[k].id@ == p.id@)
        } else {
            None
        },
        None => None,
    }
}

/// The comment `s` answers up from comment `i`: `i` itself for none, its
/// parent for one, and so on; `None` once the chain has ended.
pub open spec fn up(cs: Seq<Comment>, i: int, s: nat) -> Option<int>
    decreases s,
{
    if s == 0 {
        Some(i)
    } else {
        match up(cs, i, (s - 1) as nat) {
            Some(j) => parent_of(cs, j),
            None => None,
        }
    }
}

/// Whether ids are distinct.
pub open spec fn distinct_ids(cs: Seq<Comment>) -> bool {
    forall|a: int, b: int| 0 <= a < b < cs.len() ==> cs[a].id@ != cs[b].id@
}

/// Whether no chain of replies leads back to where it started.
pub open spec fn no_loops(cs: Seq<Comment>) -> bool {
    forall|i: int, s: nat| 0 <= i < cs.len() && s >= 1 ==> #[trigger] up(cs, i, s) != Some(i)
}

/// Whether every chain of replies ends, within as many steps as there are
/// comments, at a comment that answers none or one that was not fetched.
pub open spec fn chains_end(cs: Seq<Comment>) -> bool {
    forall|i: int| 0 <= i < cs.len() ==> #[trigger] ends_within(cs, i)
}

/// Whether the chain of replies up from comment `i` ends, within as many
/// steps as there are comments.
pub open spec fn ends_within(cs: Seq<Comment>, i: int) -> bool {
    exists|s: nat| s <= cs.len() && #[trigger] up(cs, i, s) is Some && parent_of(cs, up(cs, i, s)->0) is None
}

/// Whether comment `i` is `r`, or answers it through at most `hi - 1`
/// replies, from `lo` steps up.
pub open spec fn reaches(cs: Seq<Comment>, i: int, r: int, lo: nat, hi: nat) -> bool {
    exists|s: nat| lo <= s < hi && #[trigger] up(cs, i, s) == Some(r)
}

proof fn lemma_parent_in_range(cs: Seq<Comment>, i: int)
    ensures
        parent_of(cs, i) is Some ==> 0 <= parent_of(cs, i)->0 < cs.len(),
{
}

proof fn lemma_up_in_range(cs: Seq<Comment>, i: int, s: nat)
    requires
        0 <= i < cs.len(),
    ensures
        up(cs, i, s) is Some ==> 0 <= up(cs, i, s)->0 < cs.len(),
    decreases s,
{
    if s > 0 {
        lemma_up_in_range(cs, i, (s - 1) as nat);
        if up(cs, i, (s - 1) as nat) is Some {
            lemma_parent_in_range(cs, up(cs, i, (s - 1) as nat)->0);
        }
    }
}

proof fn lemma_answers_parent(cs: Seq<Comment>, j: int, k: int)
    requires
        distinct_ids(cs),
        0 <= j < cs.len(),
        0 <= k < cs.len(),
    ensures
        answers(cs, j, k) <==> parent_of(cs, j) == Some(k),
{
    if answers(cs, j, k) {
        let p = cs[j].parent->0;
        assert(cs[k].id@ == p.id@);
        let c = choose|c: int| 0 <= c < cs.len() && #[trigger] cs[c].id@ == p.id@;
        if c != k {
            if c < k {
                assert(cs[c].id@ != cs[k].id@);
            } else {
                assert(cs[k].id@ != cs[c].id@);
            }
        }
    }
}

proof fn lemma_up_shift(cs: Seq<Comment>, i: int, s: nat, t: nat)
    ensures
        up(cs, i, s + t) == match up(cs, i, s) {
            Some(j) => up(cs, j, t),
            None => if t == 0 { None } else { None },
        },
    decreases t,
{
    if t > 0 {
        lemma_up_shift(cs, i, s, (t - 1) as nat);
        assert((s + t - 1) as nat == s + (t - 1) as nat);
    } else {
        assert(s + t == s);
    }
}

proof fn lemma_end_stays(cs: Seq<Comment>, a: int, t: nat)
    requires
        parent_of(cs, a) is None,
        t >= 1,
    ensures
        up(cs, a, t) is None,
    decreases t,
{
    if t > 1 {
        lemma_end_stays(cs, a, (t - 1) as nat);
    } else {
        assert(up(cs, a, 0) == Some(a));
    }
}

proof fn lemma_one_step(cs: Seq<Comment>, i: int, s1: nat, s2: nat, a: int)
    requires
        no_loops(cs),
        0 <= i < cs.len(),
        up(cs, i, s1) == Some(a),
        up(cs, i, s2) == Some(a),
    ensures
        s1 == s2,
{
    lemma_up_in_range(cs, i, s1);
    if s1 < s2 {
        lemma_up_shift(cs, i, s1, (s2 - s1) as nat);
        assert(s1 + (s2 - s1) as nat == s2);
        assert(up(cs, a, (s2 - s1) as nat) != Some(a));
    } else if s2 < s1 {
        lemma_up_shift(cs, i, s2, (s1 - s2) as nat);
        assert(s2 + (s1 - s2) as nat == s1);
        assert(up(cs, a, (s1 - s2) as nat) != Some(a));
    }
}

/// The shape the lemmas below take their comments in.
pub open spec fn forest(cs: Seq<Comment>, o: Seq<usize>) -> bool {
    &&& is_written_order(cs, o)
    &&& forall|a: int, b: int| 0 <= a < b < o.len() ==> o[a] != o[b]
    &&& distinct_ids(cs)
    &&& no_loops(cs)
}

proof fn lemma_below_count(cs: Seq<Comment>, o: Seq<usize>, r: int, i: int, f: nat, k: nat)
    requires
        forest(cs, o),
        0 <= r < cs.len(),
        0 <= i < cs.len(),
        k <= o.len(),
        f >= 1,
    ensures
        occurrences(below(cs, o, r, k, f), i) == if exists|m: int|
            0 <= m < k && answers(cs, o[m] as int, r) && #[trigger] reaches(cs, i, o[m] as int, 0, f) {
            1nat
        } else {
            0nat
        },
    decreases f, k,
{
    if k > 0 {
        lemma_below_count(cs, o, r, i, f, (k - 1) as nat);
        let c = o[k - 1] as int;
        let prev = below(cs, o, r, (k - 1) as nat, f);
        if answers(cs, c, r) {
            let tail = seq![(o[k - 1], true)] + below(cs, o, c, o.len(), (f - 1) as nat);
            assert(below(cs, o, r, k, f) == prev + tail);
            lemma_occurrences_add(prev, tail, i);
            lemma_occurrences_add(seq![(o[k - 1], true)], below(cs, o, c, o.len(), (f - 1) as nat), i);
            lemma_occurrences_single((o[k - 1], true), i);
            lemma_below_total(cs, o, c, i, (f - 1) as nat);
            // The new entry counts once when `i` is `c` or below it.
            if c == i && reaches(cs, i, c, 1, f) {
                let s = choose|s: nat| 1 <= s < f && #[trigger] up(cs, i, s) == Some(c);
                assert(up(cs, i, s) != Some(i));
            }
            if c == i {
                assert(up(cs, i, 0) == Some(i));
                assert(reaches(cs, i, c, 0, f));
            }
            if reaches(cs, i, c, 0, f) && c != i {
                let s = choose|s: nat| 0 <= s < f && #[trigger] up(cs, i, s) == Some(c);
                assert(s != 0);
                assert(reaches(cs, i, c, 1, f));
            }
            if reaches(cs, i, c, 1, f) {
                let s = choose|s: nat| 1 <= s < f && #[trigger] up(cs, i, s) == Some(c);
                assert(reaches(cs, i, c, 0, f));
            }
            // At most one child of `r` lies on the way up from `i`.
            if reaches(cs, i, c, 0, f) && exists|m: int|
                0 <= m < k - 1 && answers(cs, o[m] as int, r) && #[trigger] reaches(cs, i, o[m] as int, 0, f) {
                let m = choose|m: int|
                    0 <= m < k - 1 && answers(cs, o[m] as int, r) && #[trigger] reaches(cs, i, o[m] as int, 0, f);
                let d = o[m] as int;
                let s1 = choose|s: nat| 0 <= s < f && #[trigger] up(cs, i, s) == Some(d);
                let s2 = choose|s: nat| 0 <= s < f && #[trigger] up(cs, i, s) == Some(c);
                lemma_answers_parent(cs, d, r);
                lemma_answers_parent(cs, c, r);
                assert(up(cs, i, s1 + 1) == Some(r));
                assert(up(cs, i, s2 + 1) == Some(r));
                lemma_one_step(cs, i, s1 + 1, s2 + 1, r);
                assert(o[m] != o[k - 1]);
            }
            if exists|m: int|
                0 <= m < k && answers(cs, o[m] as int, r) && #[trigger] reaches(cs, i, o[m] as int, 0, f) {
                let m = choose|m: int|
                    0 <= m < k && answers(cs, o[m] as int, r) && #[trigger] reaches(cs, i, o[m] as int, 0, f);
                if m < k - 1 {
                    assert(exists|m2: int|
                        0 <= m2 < k - 1 && answers(cs, o[m2] as int, r) && #[trigger] reaches(cs, i, o[m2] as int, 0, f));
                }
            }
        } else {
            assert(below(cs, o, r, k, f) =~= prev);
            if exists|m: int|
                0 <= m < k && answers(cs, o[m] as int, r) && #[trigger] reaches(cs, i, o[m] as int, 0, f) {
                let m = choose|m: int|
                    0 <= m < k && answers(cs, o[m] as int, r) && #[trigger] reaches(cs, i, o[m] as int, 0, f);
                assert(m < k - 1);
            }
        }
    }
}

proof fn lemma_below_total(cs: Seq<Comment>, o: Seq<usize>, r: int, i: int, f: nat)
    requires
        forest(cs, o),
        0 <= r < cs.len(),
        0 <= i < cs.len(),
    ensures
        occurrences(below(cs, o, r, o.len(), f), i) == if reaches(cs, i, r, 1, f + 1) { 1nat } else { 0nat },
    decreases f, o.len() + 1,
{
    if f == 0 {
        assert(below(cs, o, r, o.len(), 0) =~= Seq::<(usize, bool)>::empty());
        assert(!reaches(cs, i, r, 1, 1));
    } else {
        lemma_below_count(cs, o, r, i, f, o.len());
        if exists|m: int|
            0 <= m < o.len() && answers(cs, o[m] as int, r) && #[trigger] reaches(cs, i, o[m] as int, 0, f) {
            let m = choose|m: int|
                0 <= m < o.len() && answers(cs, o[m] as int, r) && #[trigger] reaches(cs, i, o[m] as int, 0, f);
            let c = o[m] as int;
            let s = choose|s: nat| 0 <= s < f && #[trigger] up(cs, i, s) == Some(c);
            lemma_answers_parent(cs, c, r);
            assert(up(cs, i, s + 1) == Some(r));
            assert(reaches(cs, i, r, 1, f + 1));
        }
        if reaches(cs, i, r, 1, f + 1) {
            let s = choose|s: nat| 1 <= s < f + 1 && #[trigger] up(cs, i, s) == Some(r);
            let c = up(cs, i, (s - 1) as nat)->0;
            assert(up(cs, i, (s - 1) as nat) is Some);
            lemma_up_in_range(cs, i, (s - 1) as nat);
            lemma_answers_parent(cs, c, r);
            assert(listed(o, c));
            let m = choose|m: int| 0 <= m < o.len() && o[m] == c;
            assert(reaches(cs, i, o[m] as int, 0, f));
        }
    }
}

proof fn lemma_two_ends(cs: Seq<Comment>, i: int, s1: nat, s2: nat, d: int, c: int)
    requires
        up(cs, i, s1) == Some(d),
        up(cs, i, s2) == Some(c),
        parent_of(cs, d) is None,
        parent_of(cs, c) is None,
    ensures
        d == c,
{
    if s1 < s2 {
        lemma_up_shift(cs, i, s1, (s2 - s1) as nat);
        assert(s1 + (s2 - s1) as nat == s2);
        lemma_end_stays(cs, d, (s2 - s1) as nat);
    } else if s2 < s1 {
        lemma_up_shift(cs, i, s2, (s1 - s2) as nat);
        assert(s2 + (s1 - s2) as nat == s1);
        lemma_end_stays(cs, c, (s1 - s2) as nat);
    }
}

/// Whether comment `c` is where a chain of replies ends: it answers none,
/// or one that was not fetched.
pub open spec fn is_end(cs: Seq<Comment>, c: int, roots: bool) -> bool {
    if roots {
        cs[c].parent is None
    } else {
        stray(cs, c)
    }
}

proof fn lemma_end_has_no_parent(cs: Seq<Comment>, c: int, roots: bool)
    requires
        is_end(cs, c, roots),
    ensures
        parent_of(cs, c) is None,
{
}

/// The threads begun, or the strays, among the first `k` of `o`.
pub open spec fn ends_upto(cs: Seq<Comment>, o: Seq<usize>, k: nat, roots: bool) -> Seq<(usize, bool)> {
    if roots {
        nested_threads_upto(cs, o, k)
    } else {
        nested_strays_upto(cs, o, k)
    }
}

proof fn lemma_ends_count(cs: Seq<Comment>, o: Seq<usize>, i: int, k: nat, roots: bool)
    requires
        forest(cs, o),
        0 <= i < cs.len(),
        k <= o.len(),
    ensures
        occurrences(ends_upto(cs, o, k, roots), i) == if exists|m: int|
            0 <= m < k && is_end(cs, o[m] as int, roots) && #[trigger] reaches(cs, i, o[m] as int, 0, cs.len() + 1) {
            1nat
        } else {
            0nat
        },
    decreases k,
{
    let n = cs.len();
    if k > 0 {
        lemma_ends_count(cs, o, i, (k - 1) as nat, roots);
        let c = o[k - 1] as int;
        let prev = ends_upto(cs, o, (k - 1) as nat, roots);
        if is_end(cs, c, roots) {
            let tail = seq![(o[k - 1], !roots)] + below(cs, o, c, o.len(), n);
            assert(ends_upto(cs, o, k, roots) == prev + tail);
            lemma_occurrences_add(prev, tail, i);
            lemma_occurrences_add(seq![(o[k - 1], !roots)], below(cs, o, c, o.len(), n), i);
            lemma_occurrences_single((o[k - 1], !roots), i);
            lemma_below_total(cs, o, c, i, n);
            if c == i && reaches(cs, i, c, 1, n + 1) {
                let s = choose|s: nat| 1 <= s < n + 1 && #[trigger] up(cs, i, s) == Some(c);
                assert(up(cs, i, s) != Some(i));
            }
            if c == i {
                assert(up(cs, i, 0) == Some(i));
                assert(reaches(cs, i, c, 0, n + 1));
            }
            if reaches(cs, i, c, 0, n + 1) && c != i {
                let s = choose|s: nat| 0 <= s < n + 1 && #[trigger] up(cs, i, s) == Some(c);
                assert(s != 0);
                assert(reaches(cs, i, c, 1, n + 1));
            }
            if reaches(cs, i, c, 1, n + 1) {
                let s = choose|s: nat| 1 <= s < n + 1 && #[trigger] up(cs, i, s) == Some(c);
                assert(reaches(cs, i, c, 0, n + 1));
            }
            if reaches(cs, i, c, 0, n + 1) && exists|m: int|
                0 <= m < k - 1 && is_end(cs, o[m] as int, roots) && #[trigger] reaches(cs, i, o[m] as int, 0, n + 1) {
                let m = choose|m: int|
                    0 <= m < k - 1 && is_end(cs, o[m] as int, roots) && #[trigger] reaches(cs, i, o[m] as int, 0, n + 1);
                let d = o[m] as int;
                let s1 = choose|s: nat| 0 <= s < n + 1 && #[trigger] up(cs, i, s) == Some(d);
                let s2 = choose|s: nat| 0 <= s < n + 1 && #[trigger] up(cs, i, s) == Some(c);
                lemma_end_has_no_parent(cs, d, roots);
                lemma_end_has_no_parent(cs, c, roots);
                lemma_two_ends(cs, i, s1, s2, d, c);
                assert(o[m] != o[k - 1]);
            }
            if exists|m: int|
                0 <= m < k && is_end(cs, o[m] as int, roots) && #[trigger] reaches(cs, i, o[m] as int, 0, n + 1) {
                let m = choose|m: int|
                    0 <= m < k && is_end(cs, o[m] as int, roots) && #[trigger] reaches(cs, i, o[m] as int, 0, n + 1);
                if m < k - 1 {
                    assert(exists|m2: int|
                        0 <= m2 < k - 1 && is_end(cs, o[m2] as int, roots) && #[trigger] reaches(cs, i, o[m2] as int, 0, n + 1));
                }
            }
        } else {
            assert(ends_upto(cs, o, k, roots) =~= prev);
            if exists|m: int|
                0 <= m < k && is_end(cs, o[m] as int, roots) && #[trigger] reaches(cs, i, o[m] as int, 0, n + 1) {
                let m = choose|m: int|
                    0 <= m < k && is_end(cs, o[m] as int, roots) && #[trigger] reaches(cs, i, o[m] as int, 0, n + 1);
                assert(m < k - 1);
            }
        }
    }
}

/// Every comment is read exactly once in the thread, replies at any depth
/// included, where the comments form threads: ids are distinct, no chain of
/// replies loops back on itself, and every chain ends at a comment that
/// answers none or one that was not fetched.
pub proof fn lemma_every_comment_read_once_at_any_depth(cs: Seq<Comment>, o: Seq<usize>, i: int)
    requires
        is_written_order(cs, o),
        0 <= i < cs.len(),
        distinct_ids(cs),
        no_loops(cs),
        chains_end(cs),
    ensures
        occurrences(thread(cs), i) == 1,
{
    lemma_written_order_unique(cs, o);
    assert forall|a: int, b: int| 0 <= a < b < o.len() implies o[a] != o[b] by {
        lemma_written_before(cs, o[a] as int, o[a] as int, o[a] as int);
    }
    assert(forest(cs, o));
    let n = cs.len();
    lemma_ends_count(cs, o, i, o.len(), true);
    lemma_ends_count(cs, o, i, o.len(), false);
    lemma_occurrences_add(ends_upto(cs, o, o.len(), true), ends_upto(cs, o, o.len(), false), i);
    assert(thread(cs) == ends_upto(cs, o, o.len(), true) + ends_upto(cs, o, o.len(), false));
    // Where the chain up from `i` ends.
    assert(ends_within(cs, i));
    let s = choose|s: nat| s <= cs.len() && #[trigger] up(cs, i, s) is Some && parent_of(cs, up(cs, i, s)->0) is None;
    let a = up(cs, i, s)->0;
    lemma_up_in_range(cs, i, s);
    assert(listed(o, a));
    let m = choose|m: int| 0 <= m < o.len() && o[m] == a;
    assert(reaches(cs, i, a, 0, n + 1));
    let roots = cs[a].parent is None;
    if !roots {
        let p = cs[a].parent->0;
        if exists|k: int| 0 <= k < cs.len() && #[trigger] cs[k].id@ == p.id@ {
            assert(parent_of(cs, a) is Some);
        }
        assert(stray(cs, a));
    }
    assert(is_end(cs, o[m] as int, roots));
    // It cannot end at both a thread's start and a stray.
    if (exists|m1: int|
        0 <= m1 < o.len() && is_end(cs, o[m1] as int, true) && #[trigger] reaches(cs, i, o[m1] as int, 0, n + 1))
        && (exists|m2: int|
        0 <= m2 < o.len() && is_end(cs, o[m2] as int, false) && #[trigger] reaches(cs, i, o[m2] as int, 0, n + 1)) {
        let m1 = choose|m1: int|
            0 <= m1 < o.len() && is_end(cs, o[m1] as int, true) && #[trigger] reaches(cs, i, o[m1] as int, 0, n + 1);
        let m2 = choose|m2: int|
            0 <= m2 < o.len() && is_end(cs, o[m2] as int, false) && #[trigger] reaches(cs, i, o[m2] as int, 0, n + 1);
        let d = o[m1] as int;
        let e = o[m2] as int;
        let s1 = choose|t: nat| 0 <= t < n + 1 && #[trigger] up(cs, i, t) == Some(d);
        let s2 = choose|t: nat| 0 <= t < n + 1 && #[trigger] up(cs, i, t) == Some(e);
        lemma_end_has_no_parent(cs, d, true);
        lemma_end_has_no_parent(cs, e, false);
        lemma_two_ends(cs, i, s1, s2, d, e);
    }
}

/// Whether `part` stands somewhere in `doc`, as one run of characters.
pub open spec fn holds_text(doc: Seq<char>, part: Seq<char>) -> bool {
    exists|i: int| 0 <= i && i + part.len() <= doc.len() && #[trigger] doc.subrange(i, i + part.len()) == part
}

/// Whether the document lists the field `name` with `value`, where it has
/// a value that is not empty.
pub open spec fn lists_field(doc: Seq<char>, name: Seq<char>, value: Option<Seq<char>>) -> bool {
    match value {
        Some(v) => v.len() > 0 ==> holds_text(doc, "- "@ + name + ": "@ + v + "\n"@),
        None => true,
    }
}

proof fn lemma_holds_middle(a: Seq<char>, p: Seq<char>, b: Seq<char>)
    ensures
        holds_text(a + p + b, p),
{
    assert((a + p + b).subrange(a.len() as int, (a.len() + p.len()) as int) =~= p);
}

proof fn lemma_holds_within(a: Seq<char>, d: Seq<char>, b: Seq<char>, p: Seq<char>)
    requires
        holds_text(d, p),
    ensures
        holds_text(a + d + b, p),
{
    let i = choose|i: int| 0 <= i && i + p.len() <= d.len() && #[trigger] d.subrange(i, i + p.len()) == p;
    assert((a + d + b).subrange(a.len() + i, a.len() + i + p.len()) =~= d.subrange(i, i + p.len()));
}

/// Each field line, where it has a value, is held by the fields block.
proof fn lemma_field_in_fields(issue: Issue, name: Seq<char>, value: Option<Seq<char>>, before: Seq<char>, after: Seq<char>)
    requires
        fields_of(issue) == before + field_line(name, value) + after,
    ensures
        lists_field(fields_of(issue), name, value),
{
    match value {
        Some(v) => if v.len() > 0 {
            lemma_holds_middle(before, field_line(name, value), after);
        },
        None => {},
    }
}

/// `issue show` lists every field that has a value, as `- Name: value`:
/// the state, the priority when one is set, the assignee, the creator, the
/// labels, the project, the milestone, the cycle, the estimate, the due
/// date, the parent, the branch and the URL.
pub proof fn lemma_every_field_with_a_value_is_listed(issue: Issue)
    ensures
        lists_field(rendered_issue(issue), "State"@, state_name(issue.state)),
        issue.priority != Priority::Unset ==> lists_field(rendered_issue(issue), "Priority"@, Some(priority_label(issue.priority))),
        lists_field(rendered_issue(issue), "Assignee"@, user_text(issue.assignee)),
        lists_field(rendered_issue(issue), "Creator"@, user_text(issue.creator)),
        lists_field(rendered_issue(issue), "Labels"@, match issue.labels {
            Some(ls) => Some(joined(label_names(ls@), ", "@)),
            None => None,
        }),
        lists_field(rendered_issue(issue), "Project"@, match issue.project {
            Some(p) => Some(p.name@),
            None => None,
        }),
        lists_field(rendered_issue(issue), "Milestone"@, match issue.project_milestone {
            Some(m) => Some(m.name@),
            None => None,
        }),
        lists_field(rendered_issue(issue), "Cycle"@, match issue.cycle {
            Some(c) => Some(cycle_label(c)),
            None => None,
        }),
        lists_field(rendered_issue(issue), "Estimate"@, some_text(issue.estimate)),
        lists_field(rendered_issue(issue), "Due"@, some_text(issue.due_date)),
        lists_field(rendered_issue(issue), "Parent"@, match issue.parent {
            Some(p) => Some(p.identifier@ + " "@ + p.title@),
            None => None,
        }),
        lists_field(rendered_issue(issue), "Branch"@, some_text(issue.branch_name)),
        lists_field(rendered_issue(issue), "URL"@, some_text(issue.url)),
{
    let f = seq![
        field_line("State"@, state_name(issue.state)),
        field_line("Priority"@, if issue.priority != Priority::Unset { Some(priority_label(issue.priority)) } else { None }),
        field_line("Assignee"@, user_text(issue.assignee)),
        field_line("Creator"@, user_text(issue.creator)),
        field_line("Labels"@, match issue.labels {
            Some(ls) => Some(joined(label_names(ls@), ", "@)),
            None => None,
        }),
        field_line("Project"@, match issue.project {
            Some(p) => Some(p.name@),
            None => None,
        }),
        field_line("Milestone"@, match issue.project_milestone {
            Some(m) => Some(m.name@),
            None => None,
        }),
        field_line("Cycle"@, match issue.cycle {
            Some(c) => Some(cycle_label(c)),
            None => None,
        }),
        field_line("Estimate"@, some_text(issue.estimate)),
        field_line("Due"@, some_text(issue.due_date)),
        field_line("Parent"@, match issue.parent {
            Some(p) => Some(p.identifier@ + " "@ + p.title@),
            None => None,
        }),
        field_line("Branch"@, some_text(issue.branch_name)),
        field_line("URL"@, some_text(issue.url)),
    ];
    let fields = fields_of(issue);
    let head = "# "@ + issue.identifier@ + " "@ + issue.title@ + "\n\n"@;
    let tail = description_of(issue) + children_of(issue) + comments_of(issue);
    assert(rendered_issue(issue) =~= head + fields + tail);
    assert(fields =~= f[0] + f[1] + f[2] + f[3] + f[4] + f[5] + f[6] + f[7] + f[8] + f[9] + f[10] + f[11] + f[12]);
    assert forall|k: int| 0 <= k < 13 implies #[trigger] holds_text(fields, f[k]) by {
        let before = f.take(k);
        let after = f.skip(k + 1);
        assert(fields =~= sum_texts(before) + f[k] + sum_texts(after)) by {
            lemma_sum_texts_split(f, k);
            lemma_fields_sum(f);
        }
        lemma_holds_middle(sum_texts(before), f[k], sum_texts(after));
    }
    assert forall|k: int| 0 <= k < 13 implies #[trigger] holds_text(rendered_issue(issue), f[k]) by {
        lemma_holds_within(head, fields, tail, f[k]);
    }
    assert(holds_text(rendered_issue(issue), f[0]));
    assert(holds_text(rendered_issue(issue), f[1]));
    assert(holds_text(rendered_issue(issue), f[2]));
    assert(holds_text(rendered_issue(issue), f[3]));
    assert(holds_text(rendered_issue(issue), f[4]));
    assert(holds_text(rendered_issue(issue), f[5]));
    assert(holds_text(rendered_issue(issue), f[6]));
    assert(holds_text(rendered_issue(issue), f[7]));
    assert(holds_text(rendered_issue(issue), f[8]));
    assert(holds_text(rendered_issue(issue), f[9]));
    assert(holds_text(rendered_issue(issue), f[10]));
    assert(holds_text(rendered_issue(issue), f[11]));
    assert(holds_text(rendered_issue(issue), f[12]));
}

proof fn lemma_fields_sum(f: Seq<Seq<char>>)
    requires
        f.len() == 13,
    ensures
        sum_texts(f) == f[0] + f[1] + f[2] + f[3] + f[4] + f[5] + f[6] + f[7] + f[8] + f[9] + f[10] + f[11] + f[12],
{
    assert(f.take(0) =~= Seq::<Seq<char>>::empty());
    assert(sum_texts(f.take(0)) == Seq::<char>::empty());
    assert(f.take(1).drop_last() =~= f.take(0));
    assert(f.take(1).last() == f[0]);
    assert(sum_texts(f.take(1)) == Seq::<char>::empty() + f[0]);
    assert(Seq::<char>::empty() + f[0] =~= f[0]);
    assert(f.take(2).drop_last() =~= f.take(1));
    assert(f.take(2).last() == f[1]);
    assert(sum_texts(f.take(2)) == f[0] + f[1]);
    assert(f.take(3).drop_last() =~= f.take(2));
    assert(f.take(3).last() == f[2]);
    assert(sum_texts(f.take(3)) == f[0] + f[1] + f[2]);
    assert(f.take(4).drop_last() =~= f.take(3));
    assert(f.take(4).last() == f[3]);
    assert(sum_texts(f.take(4)) == f[0] + f[1] + f[2] + f[3]);
    assert(f.take(5).drop_last() =~= f.take(4));
    assert(f.take(5).last() == f[4]);
    assert(sum_texts(f.take(5)) == f[0] + f[1] + f[2] + f[3] + f[4]);
    assert(f.take(6).drop_last() =~= f.take(5));
    assert(f.take(6).last() == f[5]);
    assert(sum_texts(f.take(6)) == f[0] + f[1] + f[2] + f[3] + f[4] + f[5]);
    assert(f.take(7).drop_last() =~= f.take(6));
    assert(f.take(7).last() == f[6]);
    assert(sum_texts(f.take(7)) == f[0] + f[1] + f[2] + f[3] + f[4] + f[5] + f[6]);
    assert(f.take(8).drop_last() =~= f.take(7));
    assert(f.take(8).last() == f[7]);
    assert(sum_texts(f.take(8)) == f[0] + f[1] + f[2] + f[3] + f[4] + f[5] + f[6] + f[7]);
    assert(f.take(9).drop_last() =~= f.take(8));
    assert(f.take(9).last() == f[8]);
    assert(sum_texts(f.take(9)) == f[0] + f[1] + f[2] + f[3] + f[4] + f[5] + f[6] + f[7] + f[8]);
    assert(f.take(10).drop_last() =~= f.take(9));
    assert(f.take(10).last() == f[9]);
    assert(sum_texts(f.take(10)) == f[0] + f[1] + f[2] + f[3] + f[4] + f[5] + f[6] + f[7] + f[8] + f[9]);
    assert(f.take(11).drop_last() =~= f.take(10));
    assert(f.take(11).last() == f[10]);
    assert(sum_texts(f.take(11)) == f[0] + f[1] + f[2] + f[3] + f[4] + f[5] + f[6] + f[7] + f[8] + f[9] + f[10]);
    assert(f.take(12).drop_last() =~= f.take(11));
    assert(f.take(12).last() == f[11]);
    assert(sum_texts(f.take(12)) == f[0] + f[1] + f[2] + f[3] + f[4] + f[5] + f[6] + f[7] + f[8] + f[9] + f[10] + f[11]);
    assert(f.take(13).drop_last() =~= f.take(12));
    assert(f.take(13).last() == f[12]);
    assert(sum_texts(f.take(13)) == f[0] + f[1] + f[2] + f[3] + f[4] + f[5] + f[6] + f[7] + f[8] + f[9] + f[10] + f[11] + f[12]);
    assert(f.take(13) =~= f);
}

/// The texts one after another.
pub open spec fn sum_texts(parts: Seq<Seq<char>>) -> Seq<char>
    decreases parts.len(),
{
    if parts.len() == 0 {
        Seq::empty()
    } else {
        sum_texts(parts.drop_last()) + parts.last()
    }
}

proof fn lemma_sum_texts_append(a: Seq<Seq<char>>, b: Seq<Seq<char>>)
    ensures
        sum_texts(a + b) == sum_texts(a) + sum_texts(b),
    decreases b.len(),
{
    if b.len() == 0 {
        assert(a + b =~= a);
    } else {
        lemma_sum_texts_append(a, b.drop_last());
        assert((a + b).drop_last() =~= a + b.drop_last());
    }
}

proof fn lemma_sum_texts_split(parts: Seq<Seq<char>>, k: int)
    requires
        0 <= k < parts.len(),
    ensures
        sum_texts(parts) == sum_texts(parts.take(k)) + parts[k] + sum_texts(parts.skip(k + 1)),
{
    assert(parts =~= parts.take(k) + seq![parts[k]] + parts.skip(k + 1));
    lemma_sum_texts_append(parts.take(k) + seq![parts[k]], parts.skip(k + 1));
    lemma_sum_texts_append(parts.take(k), seq![parts[k]]);
    assert(sum_texts(seq![parts[k]]) =~= parts[k]) by {
        assert(seq![parts[k]].drop_last() =~= Seq::<Seq<char>>::empty());
        assert(sum_texts(Seq::<Seq<char>>::empty()) == Seq::<char>::empty());
        assert(seq![parts[k]].last() == parts[k]);
    }
}

proof fn lemma_child_lines_hold(cs: Seq<IssueRef>, k: int, n: nat)
    requires
        0 <= k < n <= cs.len(),
    ensures
        holds_text(child_lines(cs, n), child_line(cs[k])),
    decreases n,
{
    let before = child_lines(cs, (n - 1) as nat);
    if k == n - 1 {
        lemma_holds_middle(before, child_line(cs[k]), Seq::empty());
        assert(before + child_line(cs[k]) + Seq::<char>::empty() =~= child_lines(cs, n));
    } else {
        lemma_child_lines_hold(cs, k, (n - 1) as nat);
        lemma_holds_within(Seq::empty(), before, child_line(cs[n - 1]), child_line(cs[k]));
        assert(Seq::<char>::empty() + before + child_line(cs[n - 1]) =~= child_lines(cs, n));
    }
}

/// `issue show` opens with the identifier and the title as its heading,
/// gives the description without the white space around it, or `(none)`
/// where there is nothing to say, and lists every sub-issue as
/// `- ID title (state)`.
pub proof fn lemma_title_description_and_sub_issues_are_shown(issue: Issue, k: int)
    ensures
        ("# "@ + issue.identifier@ + " "@ + issue.title@ + "\n"@).is_prefix_of(rendered_issue(issue)),
        holds_text(
            rendered_issue(issue),
            "## Description\n\n"@ + (if trimmed(match issue.description {
                Some(d) => d@,
                None => Seq::empty(),
            }).len() == 0 {
                "(none)"@
            } else {
                trimmed(match issue.description {
                    Some(d) => d@,
                    None => Seq::empty(),
                })
            }) + "\n"@,
        ),
        issue.children is Some && 0 <= k < issue.children->0@.len() ==> holds_text(
            rendered_issue(issue),
            "- "@ + issue.children->0@[k].identifier@ + " "@ + issue.children->0@[k].title@ + " ("@ + match issue.children->0@[k].state {
                Some(s) => s.name@,
                None => Seq::empty(),
            } + ")\n"@,
        ),
{
    reveal_strlit("\n");
    reveal_strlit("\n\n");
    reveal_strlit("\n## Description\n\n");
    reveal_strlit("## Description\n\n");
    let doc = rendered_issue(issue);
    let top = "# "@ + issue.identifier@ + " "@ + issue.title@ + "\n"@;
    let head = "# "@ + issue.identifier@ + " "@ + issue.title@ + "\n\n"@;
    assert(doc.subrange(0, top.len() as int) =~= top);
    let d = trimmed(match issue.description {
        Some(d) => d@,
        None => Seq::empty(),
    });
    let shown = "## Description\n\n"@ + (if d.len() == 0 { "(none)"@ } else { d }) + "\n"@;
    let desc = description_of(issue);
    assert(desc =~= "\n"@ + shown);
    let rest = children_of(issue) + comments_of(issue);
    assert(doc =~= (head + fields_of(issue) + "\n"@) + shown + rest);
    lemma_holds_middle(head + fields_of(issue) + "\n"@, shown, rest);
    if issue.children is Some && 0 <= k < issue.children->0@.len() {
        let cs = issue.children->0@;
        lemma_child_lines_hold(cs, k, cs.len());
        reveal_strlit("\n## Sub-issues\n\n");
        assert(children_of(issue) =~= "\n## Sub-issues\n\n"@ + child_lines(cs, cs.len()) + Seq::<char>::empty());
        lemma_holds_within("\n## Sub-issues\n\n"@, child_lines(cs, cs.len()), Seq::empty(), child_line(cs[k]));
        lemma_holds_within(head + fields_of(issue) + desc, children_of(issue), comments_of(issue), child_line(cs[k]));
        assert(doc =~= head + fields_of(issue) + desc + children_of(issue) + comments_of(issue));
    }
}

} // verus!
