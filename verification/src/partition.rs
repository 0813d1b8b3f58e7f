//! What grouping promises of the issues it is given: nesting sub-issues
//! under their parents reorders a section's issues but neither drops nor
//! repeats one, so each issue of the list is shown exactly once, in the
//! section of its key, and in no other.

use vstd::prelude::*;
use crate::entity::Issue;
use crate::grouping::{
    GroupBy, Section, adopts, block, blocks_upto, child_of, children_upto, key_of, members_of,
    nested, parent_id, section_opened_by, some_root_is, strays_upto, waits, opener_of,
};

verus! {

/// How many of `rows` show the issue at place `x`.
pub open spec fn count_of(rows: Seq<(usize, u8)>, x: usize) -> nat
    decreases rows.len(),
{
    if rows.len() == 0 {
        0
    } else {
        count_of(rows.drop_last(), x) + if rows.last().0 == x {
            1nat
        } else {
            0nat
        }
    }
}

/// Whether no place occurs twice in `members`.
pub open spec fn distinct_places(members: Seq<usize>) -> bool {
    forall|a: int, b: int| 0 <= a < b < members.len() ==> members[a] != members[b]
}

/// Whether `x` is one of `members`.
pub open spec fn is_member(members: Seq<usize>, x: usize) -> bool {
    exists|q: int| 0 <= q < members.len() && members[q] == x
}

proof fn lemma_count_concat(a: Seq<(usize, u8)>, b: Seq<(usize, u8)>, x: usize)
    ensures
        count_of(a + b, x) == count_of(a, x) + count_of(b, x),
    decreases b.len(),
{
    if b.len() == 0 {
        assert(a + b =~= a);
    } else {
        assert((a + b).drop_last() =~= a + b.drop_last());
        lemma_count_concat(a, b.drop_last(), x);
    }
}

proof fn lemma_count_one(row: (usize, u8), x: usize)
    ensures
        count_of(seq![row], x) == if row.0 == x {
            1nat
        } else {
            0nat
        },
{
    assert(seq![row].drop_last() =~= Seq::<(usize, u8)>::empty());
    assert(count_of(Seq::<(usize, u8)>::empty(), x) == 0);
    assert(seq![row].last() == row);
}

proof fn lemma_count_children(
    issues: Seq<Issue>,
    members: Seq<usize>,
    id: Seq<char>,
    k: nat,
    x: usize,
)
    requires
        distinct_places(members),
        k <= members.len(),
    ensures
        count_of(children_upto(issues, members, id, k), x) == if exists|q: int|
            0 <= q < k && members[q] == x && child_of(issues, members, q, id) {
            1nat
        } else {
            0nat
        },
    decreases k,
{
    if k > 0 {
        lemma_count_children(issues, members, id, (k - 1) as nat, x);
        let before = children_upto(issues, members, id, (k - 1) as nat);
        if child_of(issues, members, k - 1, id) {
            assert(children_upto(issues, members, id, k) == before.push((members[k - 1], 1u8)));
            assert(children_upto(issues, members, id, k).drop_last() =~= before);
            if members[k - 1] == x {
                assert forall|q: int| 0 <= q < k - 1 implies members[q] != x by {
                    assert(members[q] != members[k - 1]);
                }
            }
        }
    }
}

/// How many issues of the section adopt the one at `members[q]`.
pub open spec fn adoptions(issues: Seq<Issue>, members: Seq<usize>, q: int, k: nat) -> nat
    decreases k,
{
    if k == 0 {
        0
    } else {
        adoptions(issues, members, q, (k - 1) as nat) + if adopts(issues, members, k - 1)
            && child_of(issues, members, q, issues[members[k - 1] as int].id@) {
            1nat
        } else {
            0nat
        }
    }
}

proof fn lemma_count_block(issues: Seq<Issue>, members: Seq<usize>, p: int, q: int)
    requires
        distinct_places(members),
        0 <= p < members.len(),
        0 <= q < members.len(),
    ensures
        count_of(block(issues, members, p), members[q]) == (if p == q && !waits(issues, members, p) {
            1nat
        } else {
            0nat
        }) + (if adopts(issues, members, p) && child_of(
            issues,
            members,
            q,
            issues[members[p] as int].id@,
        ) {
            1nat
        } else {
            0nat
        }),
{
    let id = issues[members[p] as int].id@;
    lemma_count_one((members[p], 0u8), members[q]);
    if p != q {
        assert(members[p] != members[q]) by {
            if p < q {
            } else {
            }
        }
    }
    if !waits(issues, members, p) {
        if adopts(issues, members, p) {
            lemma_count_children(issues, members, id, members.len(), members[q]);
            lemma_count_concat(
                seq![(members[p], 0u8)],
                children_upto(issues, members, id, members.len()),
                members[q],
            );
            if exists|r: int|
                0 <= r < members.len() && members[r] == members[q] && child_of(issues, members, r, id) {
                let r = choose|r: int|
                    0 <= r < members.len() && members[r] == members[q] && child_of(issues, members, r, id);
                if r != q {
                    assert(members[r] != members[q]) by {
                        if r < q {
                        } else {
                        }
                    }
                }
            }
        }
    }
}

proof fn lemma_count_blocks(issues: Seq<Issue>, members: Seq<usize>, k: nat, q: int)
    requires
        distinct_places(members),
        k <= members.len(),
        0 <= q < members.len(),
    ensures
        count_of(blocks_upto(issues, members, k), members[q]) == (if q < k && !waits(issues, members, q) {
            1nat
        } else {
            0nat
        }) + adoptions(issues, members, q, k),
    decreases k,
{
    if k > 0 {
        lemma_count_blocks(issues, members, (k - 1) as nat, q);
        lemma_count_block(issues, members, k - 1, q);
        lemma_count_concat(
            blocks_upto(issues, members, (k - 1) as nat),
            block(issues, members, k - 1),
            members[q],
        );
    }
}

/// Whether some issue among the first `k` stands on its own with id `id`.
pub open spec fn root_before(issues: Seq<Issue>, members: Seq<usize>, id: Seq<char>, k: int) -> bool {
    exists|r: int| 0 <= r < k && !waits(issues, members, r) && #[trigger] issues[members[r] as int].id@ == id
}

proof fn lemma_adoptions(issues: Seq<Issue>, members: Seq<usize>, q: int, k: nat)
    requires
        0 <= q < members.len(),
        k <= members.len(),
        waits(issues, members, q),
    ensures
        adoptions(issues, members, q, k) == if root_before(
            issues,
            members,
            parent_id(issues[members[q] as int])->0,
            k as int,
        ) {
            1nat
        } else {
            0nat
        },
    decreases k,
{
    let pid = parent_id(issues[members[q] as int])->0;
    if k > 0 {
        lemma_adoptions(issues, members, q, (k - 1) as nat);
        let p = k - 1;
        let id = issues[members[p] as int].id@;
        if root_before(issues, members, pid, p) {
            let r = choose|r: int|
                0 <= r < p && !waits(issues, members, r) && #[trigger] issues[members[r] as int].id@ == pid;
            if adopts(issues, members, p) && child_of(issues, members, q, id) {
                assert(issues[members[r] as int].id@ != id);
            }
            assert(root_before(issues, members, pid, k as int));
        } else {
            if !waits(issues, members, p) && id == pid {
                assert(root_before(issues, members, pid, k as int));
                assert forall|r: int|
                    0 <= r < p && !waits(issues, members, r) implies #[trigger] issues[members[r] as int].id@
                    != issues[members[p] as int].id@ by {
                    assert(!(issues[members[r] as int].id@ == pid));
                }
                assert(adopts(issues, members, p));
            } else {
                if root_before(issues, members, pid, k as int) {
                    let r = choose|r: int|
                        0 <= r < k && !waits(issues, members, r) && #[trigger] issues[members[r] as int].id@
                            == pid;
                    assert(r == p);
                }
            }
        }
    }
}

proof fn lemma_count_strays(issues: Seq<Issue>, members: Seq<usize>, k: nat, x: usize)
    requires
        distinct_places(members),
        k <= members.len(),
    ensures
        count_of(strays_upto(issues, members, k), x) == if exists|q: int|
            0 <= q < k && members[q] == x && waits(issues, members, q) && !some_root_is(
                issues,
                members,
                parent_id(issues[members[q] as int])->0,
            ) {
            1nat
        } else {
            0nat
        },
    decreases k,
{
    if k > 0 {
        lemma_count_strays(issues, members, (k - 1) as nat, x);
        let p = k - 1;
        let before = strays_upto(issues, members, (k - 1) as nat);
        if waits(issues, members, p) && !some_root_is(issues, members, parent_id(issues[members[p] as int])->0) {
            assert(strays_upto(issues, members, k).drop_last() =~= before);
            if members[p] == x {
                assert forall|q: int| 0 <= q < p implies members[q] != x by {
                    assert(members[q] != members[p]);
                }
            }
        }
    }
}

proof fn lemma_count_blocks_outside(issues: Seq<Issue>, members: Seq<usize>, k: nat, x: usize)
    requires
        distinct_places(members),
        k <= members.len(),
        !is_member(members, x),
    ensures
        count_of(blocks_upto(issues, members, k), x) == 0,
    decreases k,
{
    if k > 0 {
        let p = k - 1;
        lemma_count_blocks_outside(issues, members, (k - 1) as nat, x);
        lemma_count_one((members[p], 0u8), x);
        lemma_count_children(issues, members, issues[members[p] as int].id@, members.len(), x);
        lemma_count_concat(
            seq![(members[p], 0u8)],
            children_upto(issues, members, issues[members[p] as int].id@, members.len()),
            x,
        );
        lemma_count_concat(blocks_upto(issues, members, (k - 1) as nat), block(issues, members, p), x);
        assert(members[p] != x);
    }
}

/// Nesting shows each issue of a section exactly once: every member once,
/// and nothing that is not a member.
pub proof fn lemma_nested_shows_each_once(issues: Seq<Issue>, members: Seq<usize>, x: usize)
    requires
        distinct_places(members),
    ensures
        count_of(nested(issues, members), x) == if is_member(members, x) {
            1nat
        } else {
            0nat
        },
{
    let n = members.len();
    lemma_count_concat(blocks_upto(issues, members, n), strays_upto(issues, members, n), x);
    lemma_count_strays(issues, members, n, x);
    if is_member(members, x) {
        let q = choose|q: int| 0 <= q < members.len() && members[q] == x;
        lemma_count_blocks(issues, members, n, q);
        if waits(issues, members, q) {
            lemma_adoptions(issues, members, q, n);
            let pid = parent_id(issues[members[q] as int])->0;
            assert(root_before(issues, members, pid, n as int) == some_root_is(issues, members, pid));
        } else {
            assert(adoptions(issues, members, q, n) == 0) by {
                lemma_no_adoptions(issues, members, q, n);
            }
        }
        assert forall|r: int| 0 <= r < n && members[r] == x implies r == q by {
            if r != q {
                assert(members[r] != members[q]) by {
                    if r < q {
                    } else {
                    }
                }
            }
        }
    } else {
        lemma_count_blocks_outside(issues, members, n, x);
    }
}

proof fn lemma_no_adoptions(issues: Seq<Issue>, members: Seq<usize>, q: int, k: nat)
    requires
        0 <= q < members.len(),
        !waits(issues, members, q),
    ensures
        adoptions(issues, members, q, k) == 0,
    decreases k,
{
    if k > 0 {
        lemma_no_adoptions(issues, members, q, (k - 1) as nat);
    }
}

proof fn lemma_members_of_places(issues: Seq<Issue>, by: GroupBy, key: Seq<char>, n: nat, j: usize)
    requires
        n <= issues.len(),
        issues.len() <= usize::MAX,
    ensures
        distinct_places(members_of(issues, by, key, n)),
        is_member(members_of(issues, by, key, n), j) == (j < n && key_of(issues[j as int], by) == key),
        forall|q: int| 0 <= q < members_of(issues, by, key, n).len() ==> #[trigger] members_of(issues, by, key, n)[q] < n,
    decreases n,
{
    if n > 0 {
        lemma_members_of_places(issues, by, key, (n - 1) as nat, j);
        let before = members_of(issues, by, key, (n - 1) as nat);
        let m = members_of(issues, by, key, n);
        if key_of(issues[n - 1], by) == key {
            assert(m == before.push((n - 1) as usize));
            assert forall|q: int| 0 <= q < m.len() implies #[trigger] m[q] < n by {
                if q < before.len() {
                    assert(m[q] == before[q]);
                }
            }
            assert forall|a: int, b: int| 0 <= a < b < m.len() implies m[a] != m[b] by {
                if b < before.len() {
                    assert(m[a] == before[a] && m[b] == before[b]);
                } else {
                    assert(m[a] == before[a]);
                    assert(before[a] < n - 1);
                }
            }
            if j == n - 1 {
                assert(m[before.len() as int] == j);
            } else if is_member(m, j) {
                let q = choose|q: int| 0 <= q < m.len() && m[q] == j;
                assert(m[q] == before[q]);
            } else if is_member(before, j) {
                let q = choose|q: int| 0 <= q < before.len() && before[q] == j;
                assert(m[q] == before[q]);
            }
        }
    }
}

/// Grouping shows every issue of the list exactly once: in the section of
/// its key, and in no other.
pub proof fn lemma_every_issue_shown_once(
    issues: Seq<Issue>,
    by: GroupBy,
    collapsed: Seq<String>,
    sections: Seq<Section>,
    i: int,
    j: usize,
)
    requires
        issues.len() <= usize::MAX,
        0 <= i < sections.len(),
        j < issues.len(),
        forall|s: int|
            0 <= s < sections.len() ==> section_opened_by(
                issues,
                by,
                collapsed,
                #[trigger] sections[s],
                opener_of(issues, by, sections[s].key@),
            ),
    ensures
        count_of(sections[i].issues@, j) == if sections[i].key@ == key_of(issues[j as int], by) {
            1nat
        } else {
            0nat
        },
{
    let key = sections[i].key@;
    assert(section_opened_by(issues, by, collapsed, sections[i], opener_of(issues, by, key)));
    lemma_members_of_places(issues, by, key, issues.len(), j);
    lemma_nested_shows_each_once(issues, members_of(issues, by, key, issues.len()), j);
}

}
