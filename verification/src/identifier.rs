//! How an issue is named on the command line: its identifier (`ENG-42`),
//! its URL on linear.app, or its UUID; and the identifier a branch name
//! carries.

use vstd::prelude::*;
use crate::callback::{find_char, index_of, lemma_index_of, pieces, split_pieces, views_of};
use crate::text::{
    ascii_alnum, ascii_alpha, ascii_hex, ascii_uppercase, chars_of, is_ascii_alnum, is_ascii_alpha,
    is_ascii_hex, is_digit, is_digit_spec, push_str, to_ascii_uppercase, trim, trimmed,
};

verus! {

/// A team key: a letter, then letters and digits.
pub open spec fn key_shaped(k: Seq<char>) -> bool {
    k.len() > 0 && ascii_alpha(k[0]) && forall|i: int| 0 <= i < k.len() ==> #[trigger] ascii_alnum(k[i])
}

/// An issue number: one or more digits.
pub open spec fn number_shaped(n: Seq<char>) -> bool {
    n.len() > 0 && forall|i: int| 0 <= i < n.len() ==> #[trigger] is_digit_spec(n[i])
}

/// `ENG-123`: a team key, a dash, a number.
pub open spec fn identifier_shaped(t: Seq<char>) -> bool {
    match index_of(t, '-', 0) {
        Some(p) => key_shaped(t.take(p)) && number_shaped(t.skip(p + 1)),
        None => false,
    }
}

fn key_ok(v: &Vec<char>, from: usize, to: usize) -> (b: bool)
    requires
        from <= to <= v@.len(),
    ensures
        b == key_shaped(v@.subrange(from as int, to as int)),
{
    if from == to || !is_ascii_alpha(v[from]) {
        return false;
    }
    let mut i = from;
    while i < to
        invariant
            from <= i <= to <= v@.len(),
            forall|j: int| from <= j < i ==> #[trigger] ascii_alnum(v@[j]),
        decreases to - i,
    {
        if !is_ascii_alnum(v[i]) {
            assert(ascii_alnum(v@.subrange(from as int, to as int)[i - from]) == ascii_alnum(v@[i as int]));
            return false;
        }
        i = i + 1;
    }
    assert forall|j: int| 0 <= j < to - from implies #[trigger] ascii_alnum(v@.subrange(from as int, to as int)[j]) by {
        assert(v@.subrange(from as int, to as int)[j] == v@[from + j]);
    }
    true
}

fn number_ok(v: &Vec<char>, from: usize, to: usize) -> (b: bool)
    requires
        from <= to <= v@.len(),
    ensures
        b == number_shaped(v@.subrange(from as int, to as int)),
{
    if from == to {
        return false;
    }
    let mut i = from;
    while i < to
        invariant
            from <= i <= to <= v@.len(),
            forall|j: int| from <= j < i ==> #[trigger] is_digit_spec(v@[j]),
        decreases to - i,
    {
        if !is_digit(v[i]) {
            assert(is_digit_spec(v@.subrange(from as int, to as int)[i - from]) == is_digit_spec(v@[i as int]));
            return false;
        }
        i = i + 1;
    }
    assert forall|j: int| 0 <= j < to - from implies #[trigger] is_digit_spec(v@.subrange(from as int, to as int)[j]) by {
        assert(v@.subrange(from as int, to as int)[j] == v@[from + j]);
    }
    true
}

/// `ENG-123`: a team key, a dash, a number.
pub fn is_identifier(text: &str) -> (b: bool)
    ensures
        b == identifier_shaped(text@),
{
    let v = chars_of(text);
    let n = v.len();
    proof {
        lemma_index_of(v@, '-', 0);
    }
    match find_char(&v, '-', 0) {
        Some(p) => {
            proof {
                assert(v@.subrange(0, p as int) =~= text@.take(p as int));
                assert(v@.subrange(p + 1, n as int) =~= text@.skip(p + 1));
            }
            key_ok(&v, 0, p) && number_ok(&v, p + 1, n)
        },
        None => false,
    }
}

/// The path after linear.app in an issue URL, if `a` is one.
pub open spec fn url_path(a: Seq<char>) -> Option<Seq<char>> {
    if "https://linear.app/"@.is_prefix_of(a) {
        Some(a.skip(19))
    } else if "http://linear.app/"@.is_prefix_of(a) {
        Some(a.skip(18))
    } else {
        None
    }
}

/// What Linear's `issue(id:)` takes for `arg`: `ENG-123` from an identifier
/// in any case or from an issue URL, or a UUID as it is.
pub open spec fn issue_key_spec(arg: Seq<char>) -> Result<Seq<char>, Seq<char>> {
    let a = trimmed(arg);
    match url_path(a) {
        Some(path) => {
            let parts = pieces(path, '/');
            if parts.len() >= 3 && parts[1] == "issue"@ && identifier_shaped(parts[2]) {
                Ok(ascii_uppercase(parts[2]))
            } else {
                Err("not an issue URL: "@ + a)
            }
        },
        None => if identifier_shaped(a) {
            Ok(ascii_uppercase(a))
        } else if a.len() > 0 && forall|i: int| 0 <= i < a.len() ==> #[trigger] ascii_hex(a[i]) || a[i] == '-' {
            Ok(a)
        } else {
            Err("not an issue identifier: "@ + a + " (expected something like ENG-123)"@)
        },
    }
}

/// Whether `v` starts with `prefix`.
fn starts_with(v: &Vec<char>, prefix: &str) -> (b: bool)
    ensures
        b == prefix@.is_prefix_of(v@),
{
    let p = chars_of(prefix);
    if p.len() > v.len() {
        return false;
    }
    let mut i: usize = 0;
    while i < p.len()
        invariant
            p@ == prefix@,
            p@.len() <= v@.len(),
            i <= p@.len(),
            forall|j: int| 0 <= j < i ==> p@[j] == v@[j],
        decreases p@.len() - i,
    {
        if p[i] != v[i] {
            return false;
        }
        i = i + 1;
    }
    true
}

fn hex_or_dash(v: &Vec<char>) -> (b: bool)
    ensures
        b == forall|i: int| 0 <= i < v@.len() ==> #[trigger] ascii_hex(v@[i]) || v@[i] == '-',
{
    let mut i: usize = 0;
    while i < v.len()
        invariant
            i <= v@.len(),
            forall|j: int| 0 <= j < i ==> #[trigger] ascii_hex(v@[j]) || v@[j] == '-',
        decreases v@.len() - i,
    {
        if !(is_ascii_hex(v[i]) || v[i] == '-') {
            return false;
        }
        i = i + 1;
    }
    true
}

/// What Linear's `issue(id:)` takes: `ENG-123` from an identifier in any
/// case or from an issue URL, or a UUID as it is. Anything else is an error
/// that says what was expected.
pub fn issue_key(arg: &str) -> (r: Result<String, String>)
    ensures
        match r {
            Ok(key) => issue_key_spec(arg@) == Ok::<Seq<char>, Seq<char>>(key@),
            Err(e) => issue_key_spec(arg@) == Err::<Seq<char>, Seq<char>>(e@),
        },
{
    let a = trim(arg);
    let v = chars_of(a);
    let https = starts_with(&v, "https://linear.app/");
    let http = !https && starts_with(&v, "http://linear.app/");
    proof {
        reveal_strlit("https://linear.app/");
        reveal_strlit("http://linear.app/");
    }
    if https || http {
        let skip: usize = if https {
            19
        } else {
            18
        };
        let path = a.substring_char(skip, v.len());
        proof {
            assert(a@.subrange(skip as int, v@.len() as int) =~= a@.skip(skip as int));
        }
        let parts = split_pieces(path, '/');
        proof {
            assert(views_of(parts@).len() == parts@.len());
        }
        if parts.len() >= 3 {
            proof {
                assert(views_of(parts@)[1] == parts@[1]@);
                assert(views_of(parts@)[2] == parts@[2]@);
            }
            if crate::text::same_text(parts[1], "issue") && is_identifier(parts[2]) {
                return Ok(to_ascii_uppercase(parts[2]));
            }
        }
        let mut e = String::new();
        push_str(&mut e, "not an issue URL: ");
        push_str(&mut e, a);
        return Err(e);
    }
    if is_identifier(a) {
        return Ok(to_ascii_uppercase(a));
    }
    if v.len() > 0 && hex_or_dash(&v) {
        let mut key = String::new();
        push_str(&mut key, a);
        return Ok(key);
    }
    let mut e = String::new();
    push_str(&mut e, "not an issue identifier: ");
    push_str(&mut e, a);
    push_str(&mut e, " (expected something like ENG-123)");
    Err(e)
}

/// The identifier a piece of a branch name stands for, if its first two
/// dash-separated parts make one.
pub open spec fn segment_identifier(segment: Seq<char>) -> Option<Seq<char>> {
    let parts = pieces(segment, '-');
    if parts.len() >= 2 && identifier_shaped(parts[0] + "-"@ + parts[1]) {
        Some(ascii_uppercase(parts[0] + "-"@ + parts[1]))
    } else {
        None
    }
}

/// The identifier of the first of `segments` that names one.
pub open spec fn first_identifier(segments: Seq<Seq<char>>) -> Option<Seq<char>>
    decreases segments.len(),
{
    if segments.len() == 0 {
        None
    } else {
        match segment_identifier(segments[0]) {
            Some(id) => Some(id),
            None => first_identifier(segments.drop_first()),
        }
    }
}

fn identifier_in_segment(segment: &str) -> (r: Option<String>)
    ensures
        match r {
            Some(id) => segment_identifier(segment@) == Some(id@),
            None => segment_identifier(segment@) is None,
        },
{
    let parts = split_pieces(segment, '-');
    proof {
        assert(views_of(parts@).len() == parts@.len());
    }
    if parts.len() < 2 {
        return None;
    }
    proof {
        assert(views_of(parts@)[0] == parts@[0]@);
        assert(views_of(parts@)[1] == parts@[1]@);
    }
    let mut candidate = String::new();
    push_str(&mut candidate, parts[0]);
    push_str(&mut candidate, "-");
    push_str(&mut candidate, parts[1]);
    if is_identifier(candidate.as_str()) {
        Some(to_ascii_uppercase(candidate.as_str()))
    } else {
        None
    }
}

/// `ENG-42` from `me/eng-42-checkout-fails`, `eng-42`, or `ENG-42/fix`.
pub fn identifier_in_branch(branch: &str) -> (r: Option<String>)
    ensures
        match r {
            Some(id) => first_identifier(pieces(branch@, '/')) == Some(id@),
            None => first_identifier(pieces(branch@, '/')) is None,
        },
{
    let segments = split_pieces(branch, '/');
    let ghost all = pieces(branch@, '/');
    let mut k: usize = 0;
    assert(all.skip(0) =~= all);
    while k < segments.len()
        invariant
            all == pieces(branch@, '/'),
            views_of(segments@) == all,
            k <= segments@.len(),
            first_identifier(all) == first_identifier(all.skip(k as int)),
        decreases segments@.len() - k,
    {
        assert(all.skip(k as int).len() > 0);
        assert(all.skip(k as int)[0] == segments@[k as int]@);
        assert(all.skip(k as int).drop_first() =~= all.skip(k + 1));
        match identifier_in_segment(segments[k]) {
            Some(id) => {
                assert(segment_identifier(all.skip(k as int)[0]) == Some(id@));
                assert(first_identifier(all.skip(k as int)) == Some(id@));
                return Some(id);
            },
            None => {},
        }
        k = k + 1;
    }
    assert(all.skip(k as int) =~= Seq::<Seq<char>>::empty());
    None
}

}
