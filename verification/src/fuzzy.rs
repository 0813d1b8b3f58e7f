//! Fuzzy matching for the command palette and the pickers.
//!
//! A query matches when its characters appear in the text in order, ignoring
//! case. Among matches, a contiguous run beats scattered letters, and letters
//! that start a word (`cs` → **C**hange **s**tatus) beat letters inside one.

use vstd::prelude::*;
use crate::text::{alphanumeric, chars_of, is_alphanumeric, lowercase_of, to_lowercase};

verus! {

/// A successful match: higher `score` is better; `positions` are the char
/// indices of the text that matched, for highlighting.
#[derive(Debug, Clone, PartialEq, Eq)]
pub struct Match {
    pub score: i32,
    pub positions: Vec<usize>,
}

pub const WORD_START: i32 = 8;
pub const CONSECUTIVE: i32 = 5;
pub const FIRST_CHAR: i32 = 4;
pub const GAP: i32 = 1;

/// Positions as integers.
pub open spec fn as_ints(p: Seq<usize>) -> Seq<int> {
    p.map_values(|x: usize| x as int)
}

/// The query as it is compared: each character by its full lowercase form.
pub open spec fn query_keys(query: Seq<char>) -> Seq<Seq<char>> {
    query.map_values(|c: char| lowercase_of(c))
}

/// Lowercase forms held in vectors, as the contracts read them.
pub open spec fn keys_view(v: Seq<Vec<char>>) -> Seq<Seq<char>> {
    v.map_values(|x: Vec<char>| x@)
}

/// Whether text character `t` answers query key `c`: `c` is how its full
/// lowercase form begins, so `i` finds `İ` as it finds `I`.
pub open spec fn hits(t: char, c: Seq<char>) -> bool {
    c.is_prefix_of(lowercase_of(t))
}

/// Whether position `i` of `text` starts a word.
pub open spec fn word_start(text: Seq<char>, i: int) -> bool {
    i == 0 || !alphanumeric(text[i - 1])
}

/// The first position at or after `from` whose lowercase form is `c`, and
/// that starts a word when `starts` is asked for.
pub open spec fn find_from(text: Seq<char>, c: Seq<char>, from: int, starts: bool) -> Option<int>
    decreases text.len() - from,
{
    if from < 0 || from >= text.len() {
        None
    } else if hits(text[from], c) && (!starts || word_start(text, from)) {
        Some(from)
    } else {
        find_from(text, c, from + 1, starts)
    }
}

/// Where the next query letter lands: the leftmost hit, or, preferring word
/// starts, the leftmost word start that hits and else the leftmost hit.
pub open spec fn next_hit(text: Seq<char>, c: Seq<char>, from: int, prefer_starts: bool) -> Option<int> {
    if prefer_starts {
        match find_from(text, c, from, true) {
            Some(i) => Some(i),
            None => find_from(text, c, from, false),
        }
    } else {
        find_from(text, c, from, false)
    }
}

/// The positions a candidate matches `q` at, each letter placed after the
/// one before it.
pub open spec fn candidate(text: Seq<char>, q: Seq<Seq<char>>, from: int, prefer_starts: bool) -> Option<
    Seq<int>,
>
    decreases q.len(),
{
    if q.len() == 0 {
        Some(Seq::empty())
    } else {
        match next_hit(text, q[0], from, prefer_starts) {
            None => None,
            Some(i) => match candidate(text, q.drop_first(), i + 1, prefer_starts) {
                None => None,
                Some(rest) => Some(seq![i] + rest),
            },
        }
    }
}

/// What the `n`th matched position adds to the score.
pub open spec fn gain(text: Seq<char>, positions: Seq<int>, n: int) -> int {
    let i = positions[n];
    (if word_start(text, i) { WORD_START as int } else { 0 }) + (if i == 0 {
        FIRST_CHAR as int
    } else {
        0
    }) + (if n > 0 {
        let prev = positions[n - 1];
        if i == prev + 1 {
            CONSECUTIVE as int
        } else {
            -(GAP as int) * (if i - prev - 1 < 10 { i - prev - 1 } else { 10 })
        }
    } else {
        0
    })
}

/// The score of the first `k` matched positions.
pub open spec fn rate(text: Seq<char>, positions: Seq<int>, k: int) -> int
    decreases k,
{
    if k <= 0 {
        0
    } else {
        rate(text, positions, k - 1) + gain(text, positions, k - 1)
    }
}

/// The match `score` makes of `query` against `text`: the better of the two
/// candidates, the word-start one on a tie; `None` when the letters do not
/// all appear in order.
pub open spec fn fuzzy_match(query: Seq<char>, text: Seq<char>) -> Option<(int, Seq<int>)> {
    let q = query_keys(query);
    if q.len() == 0 {
        Some((0, Seq::empty()))
    } else {
        match (candidate(text, q, 0, false), candidate(text, q, 0, true)) {
            (Some(a), Some(b)) => if rate(text, b, b.len() as int) >= rate(text, a, a.len() as int) {
                Some((rate(text, b, b.len() as int), b))
            } else {
                Some((rate(text, a, a.len() as int), a))
            },
            (Some(a), None) => Some((rate(text, a, a.len() as int), a)),
            (None, Some(b)) => Some((rate(text, b, b.len() as int), b)),
            (None, None) => None,
        }
    }
}

/// Each character's full lowercase form.
fn lower_all(chars: &Vec<char>) -> (keys: Vec<Vec<char>>)
    ensures
        keys_view(keys@) == query_keys(chars@),
        keys@.len() == chars@.len(),
        forall|k: int| 0 <= k < chars@.len() ==> (#[trigger] keys@[k])@ == lowercase_of(chars@[k]),
{
    let mut keys: Vec<Vec<char>> = Vec::new();
    let mut i: usize = 0;
    while i < chars.len()
        invariant
            i <= chars@.len(),
            keys@.len() == i,
            forall|k: int| 0 <= k < i ==> (#[trigger] keys@[k])@ == lowercase_of(chars@[k]),
        decreases chars@.len() - i,
    {
        keys.push(to_lowercase(chars[i]));
        i = i + 1;
    }
    assert(keys_view(keys@) =~= query_keys(chars@));
    keys
}

/// Whether lowercase form `b` begins with `a`.
fn leads(a: &Vec<char>, b: &Vec<char>) -> (r: bool)
    ensures
        r == a@.is_prefix_of(b@),
{
    if a.len() > b.len() {
        return false;
    }
    let mut i: usize = 0;
    while i < a.len()
        invariant
            a@.len() <= b@.len(),
            i <= a@.len(),
            forall|k: int| 0 <= k < i ==> a@[k] == b@[k],
        decreases a@.len() - i,
    {
        if a[i] != b[i] {
            assert(a@[i as int] != b@.subrange(0, a@.len() as int)[i as int]);
            return false;
        }
        i = i + 1;
    }
    assert(a@ =~= b@.subrange(0, a@.len() as int));
    true
}

fn is_word_start(chars: &Vec<char>, i: usize) -> (b: bool)
    requires
        i < chars@.len(),
    ensures
        b == word_start(chars@, i as int),
{
    i == 0 || !is_alphanumeric(chars[i - 1])
}

/// The first hit at or after `from`.
fn find(chars: &Vec<char>, lower: &Vec<Vec<char>>, c: &Vec<char>, from: usize, starts: bool) -> (r: Option<
    usize,
>)
    requires
        lower@.len() == chars@.len(),
        forall|k: int| 0 <= k < chars@.len() ==> (#[trigger] lower@[k])@ == lowercase_of(chars@[k]),
    ensures
        match r {
            Some(i) => find_from(chars@, c@, from as int, starts) == Some(i as int),
            None => find_from(chars@, c@, from as int, starts) == None::<int>,
        },
    decreases chars@.len() - from,
{
    if from >= chars.len() {
        return None;
    }
    if leads(c, &lower[from]) && (!starts || is_word_start(chars, from)) {
        return Some(from);
    }
    find(chars, lower, c, from + 1, starts)
}

proof fn lemma_find_bounds(text: Seq<char>, c: Seq<char>, from: int, starts: bool)
    ensures
        match find_from(text, c, from, starts) {
            Some(i) => from <= i < text.len() && hits(text[i], c) && (!starts
                || word_start(text, i)),
            None => true,
        },
    decreases text.len() - from,
{
    if 0 <= from < text.len() {
        lemma_find_bounds(text, c, from + 1, starts);
    }
}

/// The positions of one candidate, or `None`.
fn place(chars: &Vec<char>, lower: &Vec<Vec<char>>, q: &Vec<Vec<char>>, prefer_starts: bool) -> (r: Option<
    Vec<usize>,
>)
    requires
        lower@.len() == chars@.len(),
        forall|k: int| 0 <= k < chars@.len() ==> (#[trigger] lower@[k])@ == lowercase_of(chars@[k]),
    ensures
        match r {
            Some(p) => candidate(chars@, keys_view(q@), 0, prefer_starts) == Some(
                as_ints(p@),
            ) && p@.len() == keys_view(q@).len() && (forall|k: int|
                0 <= k < p@.len() ==> #[trigger] p@[k] < chars@.len()),
            None => candidate(chars@, keys_view(q@), 0, prefer_starts) == None::<Seq<int>>,
        },
{
    let n = chars.len();
    let mut positions: Vec<usize> = Vec::new();
    let mut from: usize = 0;
    let mut k: usize = 0;
    proof {
        assert(keys_view(q@).skip(0) =~= keys_view(q@));
        match candidate(chars@, keys_view(q@), 0, prefer_starts) {
            Some(rest) => {
                assert(as_ints(positions@) + rest =~= rest);
            },
            None => {},
        }
    }
    while k < q.len()
        invariant
            n == chars@.len(),
            lower@.len() == chars@.len(),
            forall|j: int| 0 <= j < chars@.len() ==> (#[trigger] lower@[j])@ == lowercase_of(chars@[j]),
            k <= keys_view(q@).len(),
            positions@.len() == k,
            from <= chars@.len(),
            forall|j: int| 0 <= j < positions@.len() ==> #[trigger] positions@[j] < chars@.len(),
            k > 0 ==> from == positions@[k - 1] + 1,
            k == 0 ==> from == 0,
            // What remains decides the whole candidate.
            candidate(chars@, keys_view(q@), 0, prefer_starts) == match candidate(
                chars@,
                keys_view(q@).skip(k as int),
                from as int,
                prefer_starts,
            ) {
                None => None,
                Some(rest) => Some(as_ints(positions@) + rest),
            },
        decreases keys_view(q@).len() - k,
    {
        let c = &q[k];
        let hit = if prefer_starts {
            match find(chars, lower, c, from, true) {
                Some(i) => Some(i),
                None => find(chars, lower, c, from, false),
            }
        } else {
            find(chars, lower, c, from, false)
        };
        proof {
            lemma_find_bounds(chars@, c@, from as int, true);
            lemma_find_bounds(chars@, c@, from as int, false);
            assert(keys_view(q@).skip(k as int)[0] == c@);
            assert(keys_view(q@).skip(k as int).drop_first() =~= keys_view(q@).skip(k + 1));
        }
        match hit {
            None => {
                return None;
            },
            Some(i) => {
                let ghost old_positions = positions@;
                positions.push(i);
                proof {
                    assert(as_ints(positions@) =~= as_ints(old_positions) + seq![i as int]);
                    match candidate(chars@, keys_view(q@).skip(k + 1), i + 1, prefer_starts) {
                        None => {},
                        Some(rest) => {
                            assert(as_ints(old_positions) + (seq![i as int]
                                + rest) =~= as_ints(positions@) + rest);
                        },
                    }
                }
                from = i + 1;
            },
        }
        k = k + 1;
    }
    proof {
        assert(keys_view(q@).skip(k as int) =~= Seq::<Seq<char>>::empty());
        assert(as_ints(positions@) + Seq::<int>::empty()
            =~= as_ints(positions@));
    }
    Some(positions)
}

/// Score the positions of a candidate.
fn score_of(chars: &Vec<char>, positions: &Vec<usize>) -> (s: i32)
    requires
        17 * positions@.len() <= i32::MAX,
        forall|k: int| 0 <= k < positions@.len() ==> #[trigger] positions@[k] < chars@.len(),
        forall|k: int| 0 < k < positions@.len() ==> positions@[k - 1] < #[trigger] positions@[k],
    ensures
        s == rate(chars@, as_ints(positions@), positions@.len() as int),
{
    let ghost ps = as_ints(positions@);
    let mut score: i32 = 0;
    let mut n: usize = 0;
    while n < positions.len()
        invariant
            n <= positions@.len(),
            17 * positions@.len() <= i32::MAX,
            ps == as_ints(positions@),
            forall|k: int| 0 <= k < positions@.len() ==> #[trigger] positions@[k] < chars@.len(),
            forall|k: int| 0 < k < positions@.len() ==> positions@[k - 1] < #[trigger] positions@[k],
            score == rate(chars@, ps, n as int),
            -10 * (n as int) <= score <= 17 * (n as int),
        decreases positions@.len() - n,
    {
        let i = positions[n];
        let mut add: i32 = 0;
        if is_word_start(chars, i) {
            add = add + WORD_START;
        }
        if i == 0 {
            add = add + FIRST_CHAR;
        }
        if n > 0 {
            let prev = positions[n - 1];
            if i == prev + 1 {
                add = add + CONSECUTIVE;
            } else {
                let gap = i - prev - 1;
                let capped: i32 = if gap < 10 { gap as i32 } else { 10 };
                add = add - GAP * capped;
            }
        }
        assert(add == gain(chars@, ps, n as int));
        score = score + add;
        n = n + 1;
    }
    score
}

/// Match `query` against `text`. An empty query matches everything with a
/// score of zero.
pub fn score(query: &str, text: &str) -> (m: Option<Match>)
    requires
        17 * query@.len() <= i32::MAX,
    ensures
        match (m, fuzzy_match(query@, text@)) {
            (Some(m), Some((score, positions))) => m.score == score && as_ints(m.positions@) == positions,
            (None, None) => true,
            _ => false,
        },
{
    let query_chars = chars_of(query);
    let q = lower_all(&query_chars);
    if q.len() == 0 {
        let positions: Vec<usize> = Vec::new();
        proof {
            assert(as_ints(positions@) =~= Seq::<int>::empty());
        }
        return Some(Match { score: 0, positions });
    }
    let chars = chars_of(text);
    let lower = lower_all(&chars);
    let greedy = place(&chars, &lower, &q, false);
    let starts = place(&chars, &lower, &q, true);
    proof {
        lemma_candidate_increasing(chars@, keys_view(q@), 0, false);
        lemma_candidate_increasing(chars@, keys_view(q@), 0, true);
    }
    best(&chars, greedy, starts, Ghost(keys_view(q@)))
}

/// Of the two candidates, the better scoring one, the second on a tie.
#[verifier::rlimit(30)]
fn best(chars: &Vec<char>, greedy: Option<Vec<usize>>, starts: Option<Vec<usize>>, q: Ghost<Seq<Seq<char>>>) -> (m: Option<Match>)
    requires
        17 * q@.len() <= i32::MAX,
        q@.len() > 0,
        match greedy {
            Some(p) => candidate(chars@, q@, 0, false) == Some(as_ints(p@)),
            None => candidate(chars@, q@, 0, false) == None::<Seq<int>>,
        },
        match starts {
            Some(p) => candidate(chars@, q@, 0, true) == Some(as_ints(p@)),
            None => candidate(chars@, q@, 0, true) == None::<Seq<int>>,
        },
        match candidate(chars@, q@, 0, false) {
            Some(p) => p.len() <= chars@.len() && p.len() == q@.len() && (forall|k: int|
                0 <= k < p.len() ==> 0 <= #[trigger] p[k] < chars@.len()) && (forall|k: int|
                0 < k < p.len() ==> p[k - 1] < #[trigger] p[k]),
            None => true,
        },
        match candidate(chars@, q@, 0, true) {
            Some(p) => p.len() <= chars@.len() && p.len() == q@.len() && (forall|k: int|
                0 <= k < p.len() ==> 0 <= #[trigger] p[k] < chars@.len()) && (forall|k: int|
                0 < k < p.len() ==> p[k - 1] < #[trigger] p[k]),
            None => true,
        },
    ensures
        match (m, candidate(chars@, q@, 0, false), candidate(chars@, q@, 0, true)) {
            (Some(m), Some(a), Some(b)) => if rate(chars@, b, b.len() as int) >= rate(
                chars@,
                a,
                a.len() as int,
            ) {
                m.score == rate(chars@, b, b.len() as int) && as_ints(m.positions@) == b
            } else {
                m.score == rate(chars@, a, a.len() as int) && as_ints(m.positions@) == a
            },
            (Some(m), Some(a), None) => m.score == rate(chars@, a, a.len() as int)
                && as_ints(m.positions@) == a,
            (Some(m), None, Some(b)) => m.score == rate(chars@, b, b.len() as int)
                && as_ints(m.positions@) == b,
            (None, None, None) => true,
            _ => false,
        },
{
    proof {
        if greedy is Some {
            lemma_usable(chars@, greedy->0@);
        }
        if starts is Some {
            lemma_usable(chars@, starts->0@);
        }
    }
    match (greedy, starts) {
        (Some(a), Some(b)) => {
            let sa = score_of(chars, &a);
            let sb = score_of(chars, &b);
            if sb >= sa {
                Some(Match { score: sb, positions: b })
            } else {
                Some(Match { score: sa, positions: a })
            }
        },
        (Some(a), None) => {
            let sa = score_of(chars, &a);
            Some(Match { score: sa, positions: a })
        },
        (None, Some(b)) => {
            let sb = score_of(chars, &b);
            Some(Match { score: sb, positions: b })
        },
        (None, None) => None,
    }
}

/// Positions that rise inside the text, as `score_of` takes them.
proof fn lemma_usable(text: Seq<char>, p: Seq<usize>)
    requires
        as_ints(p).len() <= text.len(),
        forall|k: int|
            0 <= k < p.len() ==> 0 <= #[trigger] as_ints(p)[k] < text.len(),
        forall|k: int|
            0 < k < p.len() ==> as_ints(p)[k - 1] < #[trigger] as_ints(p)[k],
    ensures
        p.len() <= text.len(),
        forall|k: int| 0 <= k < p.len() ==> #[trigger] p[k] < text.len(),
        forall|k: int| 0 < k < p.len() ==> p[k - 1] < #[trigger] p[k],
{
    let m = as_ints(p);
    assert forall|k: int| 0 <= k < p.len() implies #[trigger] p[k] < text.len() by {
        assert(m[k] == p[k] as int);
    }
    assert forall|k: int| 0 < k < p.len() implies p[k - 1] < #[trigger] p[k] by {
        assert(m[k] == p[k] as int);
        assert(m[k - 1] == p[k - 1] as int);
    }
}

/// A candidate's positions rise strictly, from `from` on, inside the text.
proof fn lemma_candidate_increasing(text: Seq<char>, q: Seq<Seq<char>>, from: int, prefer_starts: bool)
    requires
        0 <= from <= text.len(),
    ensures
        match candidate(text, q, from, prefer_starts) {
            Some(p) => p.len() == q.len() && p.len() + from <= text.len() && (forall|k: int|
                0 <= k < p.len() ==> from <= #[trigger] p[k] < text.len()) && (forall|k: int|
                0 < k < p.len() ==> p[k - 1] < #[trigger] p[k]),
            None => true,
        },
    decreases q.len(),
{
    if q.len() > 0 {
        lemma_find_bounds(text, q[0], from, true);
        lemma_find_bounds(text, q[0], from, false);
        match next_hit(text, q[0], from, prefer_starts) {
            None => {},
            Some(i) => {
                lemma_candidate_increasing(text, q.drop_first(), i + 1, prefer_starts);
                match candidate(text, q.drop_first(), i + 1, prefer_starts) {
                    None => {},
                    Some(rest) => {
                        let p = seq![i] + rest;
                        assert forall|k: int| 0 <= k < p.len() implies from <= #[trigger] p[k]
                            < text.len() by {
                            if k > 0 {
                                assert(p[k] == rest[k - 1]);
                            }
                        }
                        assert forall|k: int| 0 < k < p.len() implies p[k - 1] < #[trigger] p[k] by {
                            assert(p[k] == rest[k - 1]);
                            if k > 1 {
                                assert(p[k - 1] == rest[k - 2]);
                            }
                        }
                    },
                }
            },
        }
    }
}

/// Whether `p` places the letters of `q` on `text`: one position per letter,
/// each after the one before, each on a character whose lowercase form is
/// the letter's.
pub open spec fn places(text: Seq<char>, q: Seq<Seq<char>>, p: Seq<int>) -> bool {
    &&& p.len() == q.len()
    &&& forall|k: int| 0 <= k < p.len() ==> 0 <= #[trigger] p[k] < text.len() && hits(text[p[k]], q[k])
    &&& forall|k: int, l: int| 0 <= k < l < p.len() ==> p[k] < p[l]
}

proof fn lemma_find_from(text: Seq<char>, c: Seq<char>, from: int, starts: bool)
    requires
        from >= 0,
    ensures
        match find_from(text, c, from, starts) {
            Some(i) => from <= i < text.len() && hits(text[i], c),
            None => !starts ==> forall|j: int| from <= j < text.len() ==> !hits(#[trigger] text[j], c),
        },
    decreases text.len() - from,
{
    if from < text.len() && !(hits(text[from], c) && (!starts || word_start(text, from))) {
        lemma_find_from(text, c, from + 1, starts);
    }
}

/// Where a letter lands, it lands on a character of the same lowercase form; the
/// leftmost hit lands no further than any hit.
proof fn lemma_next_hit(text: Seq<char>, c: Seq<char>, from: int, prefer_starts: bool, j: int)
    requires
        from >= 0,
    ensures
        match next_hit(text, c, from, prefer_starts) {
            Some(i) => from <= i < text.len() && hits(text[i], c),
            None => !(from <= j < text.len() && hits(text[j], c)),
        },
        !prefer_starts && from <= j < text.len() && hits(text[j], c) ==> match next_hit(
            text,
            c,
            from,
            prefer_starts,
        ) {
            Some(i) => i <= j,
            None => false,
        },
{
    lemma_find_from(text, c, from, true);
    lemma_find_from(text, c, from, false);
    if !prefer_starts && from <= j < text.len() && hits(text[j], c) {
        lemma_leftmost(text, c, from, j);
    }
}

proof fn lemma_leftmost(text: Seq<char>, c: Seq<char>, from: int, j: int)
    requires
        0 <= from <= j < text.len(),
        hits(text[j], c),
    ensures
        match find_from(text, c, from, false) {
            Some(i) => i <= j,
            None => false,
        },
    decreases j - from,
{
    if !hits(text[from], c) {
        lemma_leftmost(text, c, from + 1, j);
    }
}

/// A candidate places the letters of `q`, from `from` on.
proof fn lemma_candidate_places(text: Seq<char>, q: Seq<Seq<char>>, from: int, prefer_starts: bool)
    requires
        from >= 0,
    ensures
        match candidate(text, q, from, prefer_starts) {
            Some(p) => places(text, q, p) && forall|k: int| 0 <= k < p.len() ==> from <= #[trigger] p[k],
            None => true,
        },
    decreases q.len(),
{
    if q.len() > 0 {
        lemma_next_hit(text, q[0], from, prefer_starts, from);
        match next_hit(text, q[0], from, prefer_starts) {
            None => {},
            Some(i) => {
                lemma_candidate_places(text, q.drop_first(), i + 1, prefer_starts);
                match candidate(text, q.drop_first(), i + 1, prefer_starts) {
                    None => {},
                    Some(rest) => {
                        let p = seq![i] + rest;
                        assert forall|k: int| 0 <= k < p.len() implies 0 <= #[trigger] p[k] < text.len()
                            && hits(text[p[k]], q[k]) && from <= p[k] by {
                            if k > 0 {
                                assert(p[k] == rest[k - 1]);
                                assert(q.drop_first()[k - 1] == q[k]);
                            }
                        }
                        assert forall|k: int, l: int| 0 <= k < l < p.len() implies p[k] < p[l] by {
                            if k > 0 {
                                assert(p[k] == rest[k - 1] && p[l] == rest[l - 1]);
                            } else {
                                assert(p[l] == rest[l - 1]);
                            }
                        }
                    },
                }
            },
        }
    }
}

/// Where the letters of `q` can be placed from `from` on, the leftmost
/// candidate finds a placing.
proof fn lemma_candidate_found(text: Seq<char>, q: Seq<Seq<char>>, from: int, p: Seq<int>)
    requires
        from >= 0,
        places(text, q, p),
        forall|k: int| 0 <= k < p.len() ==> from <= #[trigger] p[k],
    ensures
        candidate(text, q, from, false) is Some,
    decreases q.len(),
{
    if q.len() > 0 {
        lemma_next_hit(text, q[0], from, false, p[0]);
        let i = next_hit(text, q[0], from, false)->Some_0;
        let rest = p.drop_first();
        assert forall|k: int| 0 <= k < rest.len() implies 0 <= #[trigger] rest[k] < text.len()
            && hits(text[rest[k]], q.drop_first()[k]) && i + 1 <= rest[k] by {
            assert(rest[k] == p[k + 1]);
            assert(p[0] < p[k + 1]);
        }
        assert forall|k: int, l: int| 0 <= k < l < rest.len() implies rest[k] < rest[l] by {
            assert(rest[k] == p[k + 1] && rest[l] == p[l + 1]);
        }
        lemma_candidate_found(text, q.drop_first(), i + 1, rest);
    }
}

/// A query matches exactly when its letters appear in the text in order,
/// ignoring case (a letter and a character agree when their full lowercase
/// forms do); and the positions of a match are such a placing, in order.
pub proof fn lemma_match_is_letters_in_order(query: Seq<char>, text: Seq<char>)
    ensures
        fuzzy_match(query, text) is Some <==> exists|p: Seq<int>| places(text, query_keys(query), p),
        match fuzzy_match(query, text) {
            Some((_, p)) => places(text, query_keys(query), p),
            None => true,
        },
{
    let q = query_keys(query);
    if q.len() == 0 {
        assert(places(text, q, Seq::<int>::empty()));
    } else {
        lemma_candidate_places(text, q, 0, false);
        lemma_candidate_places(text, q, 0, true);
        if exists|p: Seq<int>| places(text, q, p) {
            let p = choose|p: Seq<int>| places(text, q, p);
            lemma_candidate_found(text, q, 0, p);
        }
    }
}

/// Any text matches itself.
pub proof fn lemma_text_matches_itself(text: Seq<char>)
    ensures
        fuzzy_match(text, text) is Some,
{
    let p = Seq::new(text.len(), |i: int| i);
    assert(places(text, query_keys(text), p));
    lemma_match_is_letters_in_order(text, text);
}

}
