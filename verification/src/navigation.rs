//! Moving a cursor over a list of rows.

use vstd::prelude::*;
use crate::entity::{CustomView, Issue};
use crate::text::same_text;

verus! {

/// Where a cursor at `index` lands after moving `delta` rows over a list of
/// `len`: as far as asked, but never off either end; on an empty list, at
/// the top.
pub open spec fn moved(len: int, index: int, delta: int) -> int {
    if len <= 0 {
        0
    } else if index + delta < 0 {
        0
    } else if index + delta > len - 1 {
        len - 1
    } else {
        index + delta
    }
}

/// Move the cursor `index` by `delta` rows over a list of `len`, stopping at
/// either end. Any delta is safe, the largest a caller passes to mean "to
/// the end" too.
pub fn nav_by(len: usize, index: &mut usize, delta: isize)
    ensures
        *final(index) == moved(len as int, *old(index) as int, delta as int),
{
    if len == 0 {
        *index = 0;
        return;
    }
    let target: i128 = (*index as i128) + (delta as i128);
    let last: i128 = (len - 1) as i128;
    if target < 0 {
        *index = 0;
    } else if target > last {
        *index = len - 1;
    } else {
        *index = target as usize;
    }
}

/// A cursor on a non-empty list stays on it, wherever it was and however far
/// it moves.
pub proof fn lemma_moved_stays_on_the_list(len: int, index: int, delta: int)
    requires
        len > 0,
    ensures
        0 <= moved(len, index, delta) < len,
{
}

/// Whether a cursor at `index` is on the first issue with id `id`, or at
/// the top when no issue has it.
pub open spec fn lands_on(issues: Seq<Issue>, id: Seq<char>, index: int) -> bool {
    ||| 0 <= index < issues.len() && issues[index].id@ == id && forall|j: int| 0 <= j < index ==> issues[j].id@ != id
    ||| index == 0 && forall|j: int| 0 <= j < issues.len() ==> issues[j].id@ != id
}

/// Where the cursor goes after a refetch reorders the list: back on the
/// issue it was on, found by id, since a refetch moves issues about; at the
/// top when that issue is gone or there was none.
pub fn reselect(issues: &[Issue], id: Option<&str>) -> (index: usize)
    ensures
        id is None ==> index == 0,
        id is Some ==> lands_on(issues@, id->0@, index as int),
{
    match id {
        None => 0,
        Some(w) => {
            let ghost wanted = w;
            let mut i: usize = 0;
            while i < issues.len()
                invariant
                    i <= issues@.len(),
                    id == Some(wanted),
                    w == wanted,
                    forall|j: int| 0 <= j < i ==> issues@[j].id@ != w@,
                decreases issues@.len() - i,
            {
                let hit = same_text(issues[i].id.as_str(), w);
                if hit {
                    return i;
                }
                i = i + 1;
            }
            0
        },
    }
}

/// The view a refetch of the saved views leaves open: the view that was
/// open, found by id in the new list, since the index alone would silently
/// swap which view is on screen. `None` when it is gone, and the list of
/// views opens instead.
pub fn reopened_view(open: &CustomView, views: &[CustomView]) -> (index: Option<usize>)
    ensures
        match index {
            Some(i) => i < views@.len() && views@[i as int].id@ == open.id@
                && forall|j: int| 0 <= j < i ==> views@[j].id@ != open.id@,
            None => forall|j: int| 0 <= j < views@.len() ==> views@[j].id@ != open.id@,
        },
{
    let mut i: usize = 0;
    while i < views.len()
        invariant
            i <= views@.len(),
            forall|j: int| 0 <= j < i ==> views@[j].id@ != open.id@,
        decreases views@.len() - i,
    {
        if same_text(views[i].id.as_str(), open.id.as_str()) {
            return Some(i);
        }
        i = i + 1;
    }
    None
}

} // verus!
