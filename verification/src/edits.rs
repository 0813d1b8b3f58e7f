//! Editing an issue and its thread: which comments a picker offers and what
//! it does with the one picked, what the comment field posts, a description
//! handed to the user's editor, and whether an edited description is sent.

use vstd::prelude::*;
use crate::entity::Comment;
use crate::show::{is_written_order, lemma_written_order_unique, written_order, written_order_of};
use crate::text::{same_text, trim_back, trim_end};

verus! {

/// What a comment picker does with the comment picked.
#[derive(Debug, Clone, Copy, PartialEq, Eq, Structural)]
pub enum CommentAction {
    Reply,
    Edit,
    Delete,
}

impl CommentAction {
    /// How the picker is titled.
    pub fn title(self) -> (s: &'static str)
        ensures
            s@ == match self {
                CommentAction::Reply => "Reply to comment"@,
                CommentAction::Edit => "Edit comment"@,
                CommentAction::Delete => "Delete comment"@,
            },
    {
        match self {
            CommentAction::Reply => "Reply to comment",
            CommentAction::Edit => "Edit comment",
            CommentAction::Delete => "Delete comment",
        }
    }
}

/// What the comment field posts.
#[derive(Debug, Clone, Default, PartialEq, Eq)]
pub enum CommentTarget {
    /// A new comment on the issue.
    #[default]
    New,
    /// A reply in this comment's thread.
    Reply(String),
    /// A new body for this comment.
    Edit(String),
}

/// A description to write in `$EDITOR`, which the main loop opens.
#[derive(Debug, Clone, PartialEq, Eq)]
pub struct EditorJob {
    pub issue_id: String,
    pub text: String,
}

/// Whether a picker for `action` offers comment `c` to the user `viewer`:
/// any comment to reply to; to edit or delete, only the user's own, known
/// by its author; and any, while it is not known who the user is, since
/// Linear refuses the others.
pub open spec fn offered(c: Comment, viewer: Option<Seq<char>>, action: CommentAction) -> bool {
    action == CommentAction::Reply || match (viewer, c.user) {
        (Some(me), Some(author)) => author.id@ == me,
        (Some(_), None) => false,
        (None, _) => true,
    }
}

/// The places of the comments a picker offers, in written order.
pub open spec fn offered_upto(cs: Seq<Comment>, order: Seq<usize>, viewer: Option<Seq<char>>, action: CommentAction, k: nat) -> Seq<usize>
    decreases k,
{
    if k == 0 {
        Seq::empty()
    } else {
        offered_upto(cs, order, viewer, action, (k - 1) as nat) + if offered(cs[order[k - 1] as int], viewer, action) {
            seq![order[k - 1]]
        } else {
            Seq::empty()
        }
    }
}

/// The comments a picker for `action` offers, as places in `comments`,
/// oldest first: every one to reply to, and to edit or delete only those of
/// `viewer_id` (every one, before Linear has said who the user is).
pub fn pickable_comments(comments: &[Comment], viewer_id: Option<&str>, action: CommentAction) -> (picked: Vec<usize>)
    ensures
        picked@ == offered_upto(
            comments@,
            written_order(comments@),
            match viewer_id {
                Some(v) => Some(v@),
                None => None,
            },
            action,
            comments@.len(),
        ),
{
    let ghost viewer = match viewer_id {
        Some(v) => Some(v@),
        None => None::<Seq<char>>,
    };
    let order = written_order_of(comments);
    proof {
        lemma_written_order_unique(comments@, order@);
    }
    let mut picked: Vec<usize> = Vec::new();
    let mut k: usize = 0;
    while k < order.len()
        invariant
            k <= order@.len(),
            order@ == written_order(comments@),
            is_written_order(comments@, order@),
            picked@ == offered_upto(comments@, order@, viewer, action, k as nat),
            viewer == match viewer_id {
                Some(v) => Some(v@),
                None => None::<Seq<char>>,
            },
        decreases order@.len() - k,
    {
        let i = order[k];
        let c = &comments[i];
        let mine = match (viewer_id, &c.user) {
            (Some(me), Some(author)) => same_text(author.id.as_str(), me),
            (Some(_), None) => false,
            (None, _) => true,
        };
        if action == CommentAction::Reply || mine {
            picked.push(i);
        }
        k = k + 1;
    }
    picked
}

/// What becomes of a description edited in the editor or the field.
#[derive(Debug, Clone, PartialEq, Eq)]
pub enum DescriptionEdit {
    /// The editor was quit without saving.
    LeftAsItWas,
    /// It reads as before, but for white space at its end: nothing to send.
    Unchanged,
    /// The new description to send.
    Save(String),
}

/// What to do with `edited`, the description as it came back (`None` when
/// the editor was quit without saving), given `current`, the issue's: an
/// unchanged one is not sent.
pub fn description_edit(current: Option<&str>, edited: Option<String>) -> (r: DescriptionEdit)
    ensures
        match edited {
            Option::Some(text) => if trim_back(match current {
                Option::Some(c) => c@,
                Option::None => Seq::empty(),
            }) == trim_back(text@) {
                r is Unchanged
            } else {
                r matches DescriptionEdit::Save(t) && t@ == text@
            },
            Option::None => r is LeftAsItWas,
        },
{
    proof {
        reveal_strlit("");
        assert(""@ =~= Seq::<char>::empty());
    }
    let text = match edited {
        Some(text) => text,
        None => {
            return DescriptionEdit::LeftAsItWas;
        },
    };
    let now = match current {
        Some(c) => trim_end(c),
        None => trim_end(""),
    };
    if same_text(now, trim_end(text.as_str())) {
        DescriptionEdit::Unchanged
    } else {
        DescriptionEdit::Save(text)
    }
}

}
