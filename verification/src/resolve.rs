//! Turning the names an agent types into what Linear knows: a priority, an
//! estimate, one of a list of named things, the cycle under way. Names match
//! in any ASCII case. A name that matches nothing lists what would; one that
//! matches more than one thing lists those.

use vstd::prelude::*;
use crate::entity::{cycle_label, priority_at, priority_label, Cycle, Label, Priority, Project, User};
use crate::grouping::assignee_name;
use crate::text::{
    all_digits, chars_of, same_text, decimal, push_decimal, digit_value, digit_value_spec, digits_value, eq_ignore_ascii_case,
    is_digit, is_digit_spec, push_char, push_str, same_ignoring_ascii_case, trim, trimmed,
};
use crate::timestamp::{parse_timestamp, timestamp_value};

verus! {

/// Whether a value names nothing: `none`, in any case, around white space.
pub open spec fn names_none(text: Seq<char>) -> bool {
    same_ignoring_ascii_case(trimmed(text), "none"@)
}

/// A value given as `none` empties the field.
pub fn is_none(text: &str) -> (b: bool)
    ensures
        b == names_none(text@),
{
    proof {
        reveal_strlit("none");
    }
    eq_ignore_ascii_case(trim(text), "none")
}

/// The first priority, in the menu's order, whose label is `level`.
pub open spec fn priority_named(level: Seq<char>) -> Option<Priority> {
    if same_ignoring_ascii_case(priority_label(priority_at(0)), level) {
        Some(priority_at(0))
    } else if same_ignoring_ascii_case(priority_label(priority_at(1)), level) {
        Some(priority_at(1))
    } else if same_ignoring_ascii_case(priority_label(priority_at(2)), level) {
        Some(priority_at(2))
    } else if same_ignoring_ascii_case(priority_label(priority_at(3)), level) {
        Some(priority_at(3))
    } else if same_ignoring_ascii_case(priority_label(priority_at(4)), level) {
        Some(priority_at(4))
    } else {
        None
    }
}

/// A priority by its label, in any case: `urgent`, `high`, `medium`, `low`,
/// or `none`.
pub fn priority(level: &str) -> (r: Result<Priority, String>)
    ensures
        match r {
            Ok(p) => priority_named(trimmed(level@)) == Some(p),
            Err(e) => priority_named(trimmed(level@)) is None && e@ == "no priority "@ + level@
                + " (choices: urgent, high, medium, low, none)"@,
        },
{
    let wanted = trim(level);
    let all = Priority::all();
    let mut i: usize = 0;
    while i < 5
        invariant
            wanted@ == trimmed(level@),
            forall|k: int| 0 <= k < 5 ==> all@[k] == priority_at(k),
            i <= 5,
            forall|k: int|
                0 <= k < i ==> !same_ignoring_ascii_case(
                    priority_label(priority_at(k)),
                    wanted@,
                ),
        decreases 5 - i,
    {
        let p = all[i];
        if eq_ignore_ascii_case(p.label(), wanted) {
            return Ok(p);
        }
        i = i + 1;
    }
    let mut e = String::new();
    push_str(&mut e, "no priority ");
    push_str(&mut e, level);
    push_str(&mut e, " (choices: urgent, high, medium, low, none)");
    Err(e)
}

/// What `str::parse::<u32>` reads: an optional `+`, then decimal digits,
/// for a value that fits.
pub open spec fn u32_value(s: Seq<char>) -> Option<u32> {
    let digits = if s.len() > 0 && s[0] == '+' {
        s.drop_first()
    } else {
        s
    };
    if digits.len() > 0 && all_digits(digits) && digits_value(digits) <= u32::MAX {
        Some(digits_value(digits) as u32)
    } else {
        None
    }
}

proof fn lemma_digits_grow(s: Seq<char>, k: int)
    requires
        all_digits(s),
        0 <= k <= s.len(),
    ensures
        0 <= digits_value(s.take(k)) <= digits_value(s),
    decreases s.len() - k,
{
    if k < s.len() {
        lemma_digits_grow(s, k + 1);
        assert(s.take(k + 1).drop_last() =~= s.take(k));
        assert(is_digit_spec(s[k]));
    } else {
        assert(s.take(k) =~= s);
        lemma_digits_nonnegative(s);
    }
}

proof fn lemma_digits_nonnegative(s: Seq<char>)
    requires
        all_digits(s),
    ensures
        digits_value(s) >= 0,
    decreases s.len(),
{
    if s.len() > 0 {
        assert(all_digits(s.drop_last()));
        assert(is_digit_spec(s[s.len() - 1]));
        lemma_digits_nonnegative(s.drop_last());
    }
}

/// `s` read as `str::parse::<u32>` reads it.
pub(crate) fn parse_u32(s: &str) -> (r: Option<u32>)
    ensures
        r == u32_value(s@),
{
    let v = chars_of(s);
    let start: usize = if v.len() > 0 && v[0] == '+' {
        1
    } else {
        0
    };
    let ghost digits = if s@.len() > 0 && s@[0] == '+' {
        s@.drop_first()
    } else {
        s@
    };
    assert(digits =~= v@.skip(start as int));
    if start == v.len() {
        return None;
    }
    let mut i = start;
    let mut acc: u64 = 0;
    while i < v.len()
        invariant
            v@ == s@,
            digits == v@.skip(start as int),
            digits == (if s@.len() > 0 && s@[0] == '+' {
                s@.drop_first()
            } else {
                s@
            }),
            start <= i <= v@.len(),
            forall|k: int| start <= k < i ==> #[trigger] is_digit_spec(v@[k]),
            acc == digits_value(digits.take(i - start)),
            acc <= u32::MAX,
        decreases v@.len() - i,
    {
        if !is_digit(v[i]) {
            assert(!is_digit_spec(digits[i - start]));
            assert(!all_digits(digits));
            return None;
        }
        let d = digit_value(v[i]);
        assert(digits.take(i - start + 1).drop_last() =~= digits.take(i - start));
        assert(digits.take(i - start + 1).last() == v@[i as int]);
        let next = acc * 10 + d as u64;
        if next > 0xffff_ffff {
            proof {
                assert(digits_value(digits.take(i - start + 1)) == next);
                if all_digits(digits) {
                    lemma_digits_grow(digits, i - start + 1);
                }
            }
            return None;
        }
        acc = next;
        i = i + 1;
    }
    assert(digits.take(i - start) =~= digits);
    assert(all_digits(digits)) by {
        assert forall|k: int| 0 <= k < digits.len() implies is_digit_spec(#[trigger] digits[k]) by {
            assert(digits[k] == v@[start + k]);
        }
    }
    Some(acc as u32)
}

/// What an estimate reads as: `none` for no estimate, or a whole number.
pub open spec fn estimate_value(text: Seq<char>) -> Option<Option<u32>> {
    if names_none(text) {
        Some(None)
    } else {
        match u32_value(trimmed(text)) {
            Some(n) => Some(Some(n)),
            None => None,
        }
    }
}

/// `3`, or `none`.
pub fn estimate(text: &str) -> (r: Result<Option<u32>, String>)
    ensures
        match r {
            Ok(v) => estimate_value(text@) == Some(v),
            Err(e) => estimate_value(text@) is None && e@ == "not an estimate: "@ + text@
                + " (a whole number, or none)"@,
        },
{
    if is_none(text) {
        return Ok(None);
    }
    match parse_u32(trim(text)) {
        Some(n) => Ok(Some(n)),
        None => {
            let mut e = String::new();
            push_str(&mut e, "not an estimate: ");
            push_str(&mut e, text);
            push_str(&mut e, " (a whole number, or none)");
            Err(e)
        },
    }
}

/// The views of a list of strings.
pub open spec fn texts(v: Seq<String>) -> Seq<Seq<char>> {
    v.map_values(|s: String| s@)
}

/// `parts` one after another, `sep` between each two.
pub open spec fn joined(parts: Seq<Seq<char>>, sep: Seq<char>) -> Seq<char>
    decreases parts.len(),
{
    if parts.len() == 0 {
        Seq::empty()
    } else if parts.len() == 1 {
        parts[0]
    } else {
        joined(parts.drop_last(), sep) + sep + parts.last()
    }
}

/// `parts` with each run of equal neighbours kept once, as `Vec::dedup`.
pub open spec fn dedup(parts: Seq<Seq<char>>) -> Seq<Seq<char>>
    decreases parts.len(),
{
    if parts.len() <= 1 {
        parts
    } else if parts.last() == parts[parts.len() - 2] {
        dedup(parts.drop_last())
    } else {
        dedup(parts.drop_last()).push(parts.last())
    }
}

/// Whether one of `names` is `wanted`, in any ASCII case.
pub open spec fn named(names: Seq<Seq<char>>, wanted: Seq<char>) -> bool {
    exists|k: int| 0 <= k < names.len() && #[trigger] same_ignoring_ascii_case(names[k], wanted)
}

/// The places of the items among the first `n` one of whose names is
/// `wanted`.
pub open spec fn found(names: Seq<Seq<Seq<char>>>, wanted: Seq<char>, n: nat) -> Seq<int>
    decreases n,
{
    if n == 0 {
        Seq::empty()
    } else if named(names[n - 1], wanted) {
        found(names, wanted, (n - 1) as nat).push(n - 1)
    } else {
        found(names, wanted, (n - 1) as nat)
    }
}

/// What `pick` answers: the one item named, or the message that says why
/// there is none.
pub open spec fn pick_spec(
    what: Seq<char>,
    wanted: Seq<char>,
    names: Seq<Seq<Seq<char>>>,
    labels: Seq<Seq<char>>,
) -> Result<int, Seq<char>> {
    let w = trimmed(wanted);
    let f = found(names, w, names.len());
    if f.len() == 1 {
        Ok(f[0])
    } else if f.len() == 0 {
        if labels.len() == 0 {
            Err("no "@ + what + " "@ + w + ": this team has none"@)
        } else {
            Err("no "@ + what + " "@ + w + " (choices: "@ + joined(dedup(labels), ", "@) + ")"@)
        }
    } else {
        Err(what + " "@ + w + " is ambiguous: it could be "@ + joined(
            f.map_values(|i: int| labels[i]),
            ", "@,
        ))
    }
}

fn is_named(names: &Vec<String>, wanted: &str) -> (b: bool)
    ensures
        b == named(texts(names@), wanted@),
{
    let mut k: usize = 0;
    while k < names.len()
        invariant
            k <= names@.len(),
            forall|j: int| 0 <= j < k ==> !#[trigger] same_ignoring_ascii_case(names@[j]@, wanted@),
        decreases names@.len() - k,
    {
        if eq_ignore_ascii_case(names[k].as_str(), wanted) {
            assert(texts(names@)[k as int] == names@[k as int]@);
            return true;
        }
        k = k + 1;
    }
    assert forall|j: int| 0 <= j < names@.len() implies !#[trigger] same_ignoring_ascii_case(texts(names@)[j], wanted@) by {
        assert(texts(names@)[j] == names@[j]@);
    }
    false
}

/// Appends `parts` to `out`, `sep` between each two.
pub(crate) fn push_joined(out: &mut String, parts: &Vec<String>, sep: &str)
    ensures
        final(out)@ == old(out)@ + joined(texts(parts@), sep@),
{
    let ghost start = out@;
    let mut i: usize = 0;
    while i < parts.len()
        invariant
            i <= parts@.len(),
            out@ == start + joined(texts(parts@).take(i as int), sep@),
        decreases parts@.len() - i,
    {
        let ghost before = texts(parts@).take(i as int);
        assert(texts(parts@).take(i + 1).drop_last() =~= before);
        assert(texts(parts@).take(i + 1).last() == parts@[i as int]@);
        if i > 0 {
            push_str(out, sep);
        } else {
            assert(before.len() == 0);
            assert(texts(parts@).take(1).len() == 1);
        }
        push_str(out, parts[i].as_str());
        i = i + 1;
    }
    assert(texts(parts@).take(parts@.len() as int) =~= texts(parts@));
}

/// The one item `wanted` names, by any of its `names`, as its place in the
/// list. `what` names the kind of thing in the error, and `labels` each
/// candidate: when nothing matches the error lists the choices, and when
/// several do it lists those.
pub fn pick(what: &str, wanted: &str, names: &[Vec<String>], labels: &[String]) -> (r: Result<
    usize,
    String,
>)
    requires
        names@.len() == labels@.len(),
    ensures
        match r {
            Ok(i) => pick_spec(
                what@,
                wanted@,
                names@.map_values(|n: Vec<String>| texts(n@)),
                texts(labels@),
            ) == Ok::<int, Seq<char>>(i as int),
            Err(e) => pick_spec(
                what@,
                wanted@,
                names@.map_values(|n: Vec<String>| texts(n@)),
                texts(labels@),
            ) == Err::<int, Seq<char>>(e@),
        },
{
    let ghost all = names@.map_values(|n: Vec<String>| texts(n@));
    let w = trim(wanted);
    let mut hits: Vec<usize> = Vec::new();
    let mut i: usize = 0;
    while i < names.len()
        invariant
            all == names@.map_values(|n: Vec<String>| texts(n@)),
            w@ == trimmed(wanted@),
            i <= names@.len(),
            names@.len() == labels@.len(),
            hits@.len() == found(all, w@, i as nat).len(),
            forall|k: int| 0 <= k < hits@.len() ==> hits@[k] as int == #[trigger] found(all, w@, i as nat)[k],
            forall|k: int| 0 <= k < hits@.len() ==> hits@[k] < i,
        decreases names@.len() - i,
    {
        let hit = is_named(&names[i], w);
        assert(all[i as int] == texts(names@[i as int]@));
        if hit {
            hits.push(i);
        }
        i = i + 1;
    }
    let ghost f = found(all, w@, names@.len() as nat);
    if hits.len() == 1 {
        return Ok(hits[0]);
    }
    let mut e = String::new();
    if hits.len() == 0 {
        push_str(&mut e, "no ");
        push_str(&mut e, what);
        push_str(&mut e, " ");
        push_str(&mut e, w);
        if labels.len() == 0 {
            push_str(&mut e, ": this team has none");
            return Err(e);
        }
        let choices = dedup_texts(labels);
        push_str(&mut e, " (choices: ");
        push_joined(&mut e, &choices, ", ");
        push_str(&mut e, ")");
        return Err(e);
    }
    let mut candidates: Vec<String> = Vec::new();
    let mut k: usize = 0;
    while k < hits.len()
        invariant
            k <= hits@.len(),
            hits@.len() == f.len(),
            forall|j: int| 0 <= j < hits@.len() ==> hits@[j] as int == #[trigger] f[j],
            forall|j: int| 0 <= j < hits@.len() ==> hits@[j] < labels@.len(),
            texts(candidates@) == f.take(k as int).map_values(|x: int| texts(labels@)[x]),
        decreases hits@.len() - k,
    {
        let ghost before = texts(candidates@);
        candidates.push(labels[hits[k]].clone());
        assert(texts(candidates@) =~= before.push(labels@[hits@[k as int] as int]@));
        assert(texts(labels@)[f[k as int]] == labels@[hits@[k as int] as int]@);
        assert(f.take(k + 1).map_values(|x: int| texts(labels@)[x]) =~= f.take(k as int).map_values(
            |x: int| texts(labels@)[x],
        ).push(texts(labels@)[f[k as int]]));
        assert(texts(candidates@) =~= f.take(k + 1).map_values(|x: int| texts(labels@)[x]));
        k = k + 1;
    }
    assert(f.take(hits@.len() as int) =~= f);
    push_str(&mut e, what);
    push_str(&mut e, " ");
    push_str(&mut e, w);
    push_str(&mut e, " is ambiguous: it could be ");
    push_joined(&mut e, &candidates, ", ");
    Err(e)
}

/// `labels` with each run of equal neighbours kept once.
fn dedup_texts(labels: &[String]) -> (out: Vec<String>)
    ensures
        texts(out@) == dedup(texts(labels@)),
{
    let mut out: Vec<String> = Vec::new();
    let mut i: usize = 0;
    while i < labels.len()
        invariant
            i <= labels@.len(),
            texts(out@) == dedup(texts(labels@).take(i as int)),
            i > 0 ==> out@.len() > 0 && out@.last()@ == labels@[i - 1]@,
        decreases labels@.len() - i,
    {
        let ghost prefix = texts(labels@).take(i + 1);
        assert(prefix.drop_last() =~= texts(labels@).take(i as int));
        assert(prefix.last() == labels@[i as int]@);
        if i == 0 || labels[i] != labels[i - 1] {
            out.push(labels[i].clone());
            proof {
                if i > 0 {
                    assert(prefix[prefix.len() - 2] == labels@[i - 1]@);
                } else {
                    assert(prefix.len() == 1);
                }
            }
            assert(texts(out@) =~= texts(out@).drop_last().push(labels@[i as int]@));
        } else {
            assert(prefix[prefix.len() - 2] == labels@[i - 1]@);
        }
        i = i + 1;
    }
    assert(texts(labels@).take(labels@.len() as int) =~= texts(labels@));
    out
}

/// When a cycle's date holds: Linear writes `2026-09-26T00:00:00.000Z`, and
/// its first nineteen characters, to the second, are read.
pub open spec fn cycle_moment(text: Option<String>) -> Option<nat> {
    match text {
        Some(t) => if t@.len() >= 19 {
            timestamp_value(t@.take(19) + "Z"@)
        } else {
            None
        },
        None => None,
    }
}

/// Whether the cycle's dates hold `now`.
pub open spec fn under_way(cycle: Cycle, now: nat) -> bool {
    match (cycle_moment(cycle.starts_at), cycle_moment(cycle.ends_at)) {
        (Some(start), Some(end)) => start <= now && now < end,
        _ => false,
    }
}

fn moment_of(text: &Option<String>) -> (t: Option<u64>)
    ensures
        t == (match cycle_moment(*text) {
            Some(n) => Some(n as u64),
            None => None::<u64>,
        }),
{
    match text {
        Some(t) => {
            let v = chars_of(t.as_str());
            if v.len() < 19 {
                return None;
            }
            let mut s = String::new();
            let mut i: usize = 0;
            while i < 19
                invariant
                    v@ == t@,
                    19 <= v@.len(),
                    i <= 19,
                    s@ == t@.take(i as int),
                decreases 19 - i,
            {
                push_char(&mut s, v[i]);
                assert(t@.take(i + 1) =~= t@.take(i as int).push(v@[i as int]));
                i = i + 1;
            }
            push_char(&mut s, 'Z');
            proof {
                reveal_strlit("Z");
                assert(s@ =~= t@.take(19) + "Z"@);
            }
            parse_timestamp(s.as_str())
        },
        None => None,
    }
}

/// The cycle whose dates hold `now` (seconds since the epoch): the first
/// such, in the order given.
pub fn current_cycle(cycles: &[Cycle], now: u64) -> (c: Option<&Cycle>)
    ensures
        match c {
            Some(c) => exists|i: int|
                0 <= i < cycles@.len() && *c == cycles@[i] && under_way(cycles@[i], now as nat)
                    && forall|j: int| 0 <= j < i ==> !#[trigger] under_way(cycles@[j], now as nat),
            None => forall|j: int| 0 <= j < cycles@.len() ==> !#[trigger] under_way(cycles@[j], now as nat),
        },
{
    let mut i: usize = 0;
    while i < cycles.len()
        invariant
            i <= cycles@.len(),
            forall|j: int| 0 <= j < i ==> !#[trigger] under_way(cycles@[j], now as nat),
        decreases cycles@.len() - i,
    {
        let start = moment_of(&cycles[i].starts_at);
        let end = moment_of(&cycles[i].ends_at);
        match (start, end) {
            (Some(s), Some(e)) => {
                if s <= now && now < e {
                    return Some(&cycles[i]);
                }
            },
            _ => {},
        }
        i = i + 1;
    }
    None
}

/// A text that may be missing, as a list of none or one.
pub open spec fn optional_name(t: Option<String>) -> Seq<Seq<char>> {
    match t {
        Some(t) => seq![t@],
        None => Seq::empty(),
    }
}

/// The names a member answers to: the name, the display name, the email.
pub open spec fn member_names(u: User) -> Seq<Seq<char>> {
    seq![u.name@] + optional_name(u.display_name) + optional_name(u.email)
}

/// How a member is listed among the choices: `ada <ada@example.com>`.
pub open spec fn member_label(u: User) -> Seq<char> {
    match u.email {
        Some(e) => assignee_name(u) + " <"@ + e@ + ">"@,
        None => assignee_name(u),
    }
}

/// The names a cycle answers to: what it is called, its name, its number,
/// and `Cycle` with its number.
pub open spec fn cycle_names(c: Cycle) -> Seq<Seq<char>> {
    seq![cycle_label(c)] + optional_name(c.name) + match c.number {
        Some(n) => seq![decimal(n as nat), "Cycle "@ + decimal(n as nat)],
        None => Seq::empty(),
    }
}

fn push_optional(names: &mut Vec<String>, t: &Option<String>)
    ensures
        texts(final(names)@) == texts(old(names)@) + optional_name(*t),
{
    if let Some(t) = t {
        names.push(t.clone());
    }
    assert(texts(names@) =~= texts(old(names)@) + optional_name(*t));
}

fn member_names_of(u: &User) -> (names: Vec<String>)
    ensures
        texts(names@) == member_names(*u),
{
    let mut names: Vec<String> = Vec::new();
    names.push(u.name.clone());
    assert(texts(names@) =~= seq![u.name@]);
    push_optional(&mut names, &u.display_name);
    push_optional(&mut names, &u.email);
    names
}

fn member_label_of(u: &User) -> (s: String)
    ensures
        s@ == member_label(*u),
{
    let mut s = String::new();
    match &u.display_name {
        Some(d) => push_str(&mut s, d.as_str()),
        None => push_str(&mut s, u.name.as_str()),
    }
    if let Some(e) = &u.email {
        push_str(&mut s, " <");
        push_str(&mut s, e.as_str());
        push_str(&mut s, ">");
    }
    s
}

fn cycle_names_of(c: &Cycle) -> (names: Vec<String>)
    ensures
        texts(names@) == cycle_names(*c),
{
    let mut names: Vec<String> = Vec::new();
    names.push(c.label());
    assert(texts(names@) =~= seq![cycle_label(*c)]);
    push_optional(&mut names, &c.name);
    let ghost mid = texts(names@);
    if let Some(n) = c.number {
        let mut a = String::new();
        push_decimal(&mut a, n);
        names.push(a);
        let mut b = String::new();
        push_str(&mut b, "Cycle ");
        push_decimal(&mut b, n);
        names.push(b);
    }
    assert(texts(names@) =~= mid + match c.number {
        Some(n) => seq![decimal(n as nat), "Cycle "@ + decimal(n as nat)],
        None => Seq::<Seq<char>>::empty(),
    });
    names
}

/// What `pick` answers for items with these names and labels.
pub open spec fn picked(what: Seq<char>, wanted: Seq<char>, names: Seq<Seq<Seq<char>>>, labels: Seq<Seq<char>>, r: Result<usize, String>) -> bool {
    match r {
        Ok(i) => pick_spec(what, wanted, names, labels) == Ok::<int, Seq<char>>(i as int),
        Err(e) => pick_spec(what, wanted, names, labels) == Err::<int, Seq<char>>(e@),
    }
}

/// The member `text` names, by name, display name or email, as a place in
/// `members`.
pub fn pick_member(text: &str, members: &[User]) -> (r: Result<usize, String>)
    ensures
        picked(
            "member"@,
            text@,
            members@.map_values(|u: User| member_names(u)),
            members@.map_values(|u: User| member_label(u)),
            r,
        ),
{
    let ghost want_names = members@.map_values(|u: User| member_names(u));
    let ghost want_labels = members@.map_values(|u: User| member_label(u));
    let mut names: Vec<Vec<String>> = Vec::new();
    let mut labels: Vec<String> = Vec::new();
    let mut i: usize = 0;
    while i < members.len()
        invariant
            i <= members@.len(),
            want_names == members@.map_values(|u: User| member_names(u)),
            want_labels == members@.map_values(|u: User| member_label(u)),
            names@.len() == i,
            labels@.len() == i,
            forall|k: int| 0 <= k < i ==> texts(#[trigger] names@[k]@) == want_names[k],
            forall|k: int| 0 <= k < i ==> #[trigger] labels@[k]@ == want_labels[k],
        decreases members@.len() - i,
    {
        names.push(member_names_of(&members[i]));
        labels.push(member_label_of(&members[i]));
        i = i + 1;
    }
    assert(names@.map_values(|n: Vec<String>| texts(n@)) =~= want_names);
    assert(texts(labels@) =~= want_labels);
    pick("member", text, names.as_slice(), labels.as_slice())
}

/// The label `name` names, as a place in `labels`.
pub fn pick_label(name: &str, labels: &[Label]) -> (r: Result<usize, String>)
    ensures
        picked(
            "label"@,
            name@,
            labels@.map_values(|l: Label| seq![l.name@]),
            labels@.map_values(|l: Label| l.name@),
            r,
        ),
{
    let ghost want_names = labels@.map_values(|l: Label| seq![l.name@]);
    let ghost want_labels = labels@.map_values(|l: Label| l.name@);
    let mut names: Vec<Vec<String>> = Vec::new();
    let mut shown: Vec<String> = Vec::new();
    let mut i: usize = 0;
    while i < labels.len()
        invariant
            i <= labels@.len(),
            want_names == labels@.map_values(|l: Label| seq![l.name@]),
            want_labels == labels@.map_values(|l: Label| l.name@),
            names@.len() == i,
            shown@.len() == i,
            forall|k: int| 0 <= k < i ==> texts(#[trigger] names@[k]@) == want_names[k],
            forall|k: int| 0 <= k < i ==> #[trigger] shown@[k]@ == want_labels[k],
        decreases labels@.len() - i,
    {
        let mut one: Vec<String> = Vec::new();
        one.push(labels[i].name.clone());
        assert(texts(one@) =~= seq![labels@[i as int].name@]);
        names.push(one);
        shown.push(labels[i].name.clone());
        i = i + 1;
    }
    assert(names@.map_values(|n: Vec<String>| texts(n@)) =~= want_names);
    assert(texts(shown@) =~= want_labels);
    pick("label", name, names.as_slice(), shown.as_slice())
}

/// The project `text` names, as a place in `projects`.
pub fn pick_project(text: &str, projects: &[Project]) -> (r: Result<usize, String>)
    ensures
        picked(
            "project"@,
            text@,
            projects@.map_values(|p: Project| seq![p.name@]),
            projects@.map_values(|p: Project| p.name@),
            r,
        ),
{
    let ghost want_names = projects@.map_values(|p: Project| seq![p.name@]);
    let ghost want_labels = projects@.map_values(|p: Project| p.name@);
    let mut names: Vec<Vec<String>> = Vec::new();
    let mut shown: Vec<String> = Vec::new();
    let mut i: usize = 0;
    while i < projects.len()
        invariant
            i <= projects@.len(),
            want_names == projects@.map_values(|p: Project| seq![p.name@]),
            want_labels == projects@.map_values(|p: Project| p.name@),
            names@.len() == i,
            shown@.len() == i,
            forall|k: int| 0 <= k < i ==> texts(#[trigger] names@[k]@) == want_names[k],
            forall|k: int| 0 <= k < i ==> #[trigger] shown@[k]@ == want_labels[k],
        decreases projects@.len() - i,
    {
        let mut one: Vec<String> = Vec::new();
        one.push(projects[i].name.clone());
        assert(texts(one@) =~= seq![projects@[i as int].name@]);
        names.push(one);
        shown.push(projects[i].name.clone());
        i = i + 1;
    }
    assert(names@.map_values(|n: Vec<String>| texts(n@)) =~= want_names);
    assert(texts(shown@) =~= want_labels);
    pick("project", text, names.as_slice(), shown.as_slice())
}

/// The cycle `text` names, by name or number, as a place in `cycles`.
pub fn pick_cycle(text: &str, cycles: &[Cycle]) -> (r: Result<usize, String>)
    ensures
        picked(
            "cycle"@,
            text@,
            cycles@.map_values(|c: Cycle| cycle_names(c)),
            cycles@.map_values(|c: Cycle| cycle_label(c)),
            r,
        ),
{
    let ghost want_names = cycles@.map_values(|c: Cycle| cycle_names(c));
    let ghost want_labels = cycles@.map_values(|c: Cycle| cycle_label(c));
    let mut names: Vec<Vec<String>> = Vec::new();
    let mut shown: Vec<String> = Vec::new();
    let mut i: usize = 0;
    while i < cycles.len()
        invariant
            i <= cycles@.len(),
            want_names == cycles@.map_values(|c: Cycle| cycle_names(c)),
            want_labels == cycles@.map_values(|c: Cycle| cycle_label(c)),
            names@.len() == i,
            shown@.len() == i,
            forall|k: int| 0 <= k < i ==> texts(#[trigger] names@[k]@) == want_names[k],
            forall|k: int| 0 <= k < i ==> #[trigger] shown@[k]@ == want_labels[k],
        decreases cycles@.len() - i,
    {
        names.push(cycle_names_of(&cycles[i]));
        shown.push(cycles[i].label());
        i = i + 1;
    }
    assert(names@.map_values(|n: Vec<String>| texts(n@)) =~= want_names);
    assert(texts(shown@) =~= want_labels);
    pick("cycle", text, names.as_slice(), shown.as_slice())
}

proof fn lemma_found_in_range(names: Seq<Seq<Seq<char>>>, wanted: Seq<char>, n: nat)
    ensures
        forall|k: int| 0 <= k < found(names, wanted, n).len() ==> 0 <= #[trigger] found(names, wanted, n)[k] < n,
    decreases n,
{
    if n > 0 {
        lemma_found_in_range(names, wanted, (n - 1) as nat);
        let prev = found(names, wanted, (n - 1) as nat);
        if named(names[n - 1], wanted) {
            assert forall|k: int| 0 <= k < prev.len() + 1 implies 0 <= #[trigger] prev.push(n - 1)[k] < n by {
                if k < prev.len() {
                    assert(prev.push(n - 1)[k] == prev[k]);
                }
            }
        }
    }
}

proof fn lemma_picked_in_range(what: Seq<char>, wanted: Seq<char>, names: Seq<Seq<Seq<char>>>, labels: Seq<Seq<char>>)
    ensures
        pick_spec(what, wanted, names, labels) is Ok ==> 0 <= pick_spec(what, wanted, names, labels)->Ok_0 < names.len(),
{
    lemma_found_in_range(names, trimmed(wanted), names.len());
}

/// Whether a value names the signed-in user: `me`, in any case, around
/// white space.
pub open spec fn names_me(text: Seq<char>) -> bool {
    same_ignoring_ascii_case(trimmed(text), "me"@)
}

pub fn is_me(text: &str) -> (b: bool)
    ensures
        b == names_me(text@),
{
    eq_ignore_ascii_case(trim(text), "me")
}

/// Whether a value asks for the cycle under way: `current`, in any case,
/// around white space.
pub open spec fn names_current(text: Seq<char>) -> bool {
    same_ignoring_ascii_case(trimmed(text), "current"@)
}

/// A text that may be missing, by its view.
pub open spec fn optional_view(t: Option<String>) -> Option<Seq<char>> {
    match t {
        Some(t) => Some(t@),
        None => None,
    }
}

/// A user as the contracts compare them: id, name, email, display name.
pub open spec fn user_view(u: User) -> (Seq<char>, Seq<char>, Option<Seq<char>>, Option<Seq<char>>) {
    (u.id@, u.name@, optional_view(u.email), optional_view(u.display_name))
}

fn copy_optional(t: &Option<String>) -> (r: Option<String>)
    ensures
        optional_view(r) == optional_view(*t),
{
    match t {
        Some(t) => Some(t.clone()),
        None => None,
    }
}

/// `me` as an assignee: the member whose id is the signed-in user's, or,
/// when they are not a member of the team, a stand-in named `me` with
/// that id.
pub fn me_among(members: &[User], viewer_id: &str) -> (u: User)
    ensures
        (exists|i: int|
            0 <= i < members@.len() && members@[i].id@ == viewer_id@ && (forall|j: int|
                0 <= j < i ==> (#[trigger] members@[j]).id@ != viewer_id@) && user_view(u) == user_view(
                members@[i],
            )) || ((forall|i: int| 0 <= i < members@.len() ==> (#[trigger] members@[i]).id@ != viewer_id@)
            && user_view(u) == (viewer_id@, "me"@, None::<Seq<char>>, None::<Seq<char>>)),
{
    let mut i: usize = 0;
    while i < members.len()
        invariant
            i <= members@.len(),
            forall|j: int| 0 <= j < i ==> (#[trigger] members@[j]).id@ != viewer_id@,
        decreases members@.len() - i,
    {
        let m = &members[i];
        if same_text(m.id.as_str(), viewer_id) {
            return User {
                id: m.id.clone(),
                name: m.name.clone(),
                email: copy_optional(&m.email),
                display_name: copy_optional(&m.display_name),
            };
        }
        i = i + 1;
    }
    let mut id = String::new();
    push_str(&mut id, viewer_id);
    let mut name = String::new();
    push_str(&mut name, "me");
    User { id, name, email: None, display_name: None }
}

/// The cycle `text` asks for: `current` for the one under way at `now`
/// (seconds since the epoch), else the one it names by name or number.
pub fn choose_cycle<'a>(text: &str, cycles: &'a [Cycle], now: u64) -> (r: Result<&'a Cycle, String>)
    ensures
        names_current(text@) ==> match r {
            Ok(c) => exists|i: int|
                0 <= i < cycles@.len() && *c == cycles@[i] && under_way(cycles@[i], now as nat)
                    && forall|j: int| 0 <= j < i ==> !#[trigger] under_way(cycles@[j], now as nat),
            Err(e) => (forall|i: int| 0 <= i < cycles@.len() ==> !#[trigger] under_way(cycles@[i], now as nat))
                && e@ == "the team has no cycle under way"@,
        },
        !names_current(text@) ==> match r {
            Ok(c) => exists|i: int|
                0 <= i < cycles@.len() && *c == cycles@[i] && pick_spec(
                    "cycle"@,
                    text@,
                    cycles@.map_values(|c: Cycle| cycle_names(c)),
                    cycles@.map_values(|c: Cycle| cycle_label(c)),
                ) == Ok::<int, Seq<char>>(i),
            Err(e) => pick_spec(
                "cycle"@,
                text@,
                cycles@.map_values(|c: Cycle| cycle_names(c)),
                cycles@.map_values(|c: Cycle| cycle_label(c)),
            ) == Err::<int, Seq<char>>(e@),
        },
{
    if eq_ignore_ascii_case(trim(text), "current") {
        return match current_cycle(cycles, now) {
            Some(c) => Ok(c),
            None => {
                let mut e = String::new();
                push_str(&mut e, "the team has no cycle under way");
                Err(e)
            },
        };
    }
    match pick_cycle(text, cycles) {
        Ok(i) => {
            proof {
                let names = cycles@.map_values(|c: Cycle| cycle_names(c));
                lemma_picked_in_range("cycle"@, text@, names, cycles@.map_values(|c: Cycle| cycle_label(c)));
            }
            Ok(&cycles[i])
        },
        Err(e) => Err(e),
    }
}

/// Only item `i` is named `wanted` among the first `n`: it alone is found.
proof fn lemma_found_alone(names: Seq<Seq<Seq<char>>>, wanted: Seq<char>, i: int, n: nat)
    requires
        n <= names.len(),
        0 <= i < names.len(),
        named(names[i], wanted),
        forall|j: int| 0 <= j < names.len() && j != i ==> !named(#[trigger] names[j], wanted),
    ensures
        found(names, wanted, n) == if i < n { seq![i] } else { Seq::<int>::empty() },
    decreases n,
{
    if n > 0 {
        lemma_found_alone(names, wanted, i, (n - 1) as nat);
    }
}

/// A numbered cycle answers to `Cycle` and its number, in any ASCII case,
/// whether or not it has a name of its own: its names include it, and
/// where no other cycle answers to the same words it is the one picked.
pub proof fn lemma_a_cycle_answers_to_its_number(cycles: Seq<Cycle>, i: int, text: Seq<char>)
    requires
        0 <= i < cycles.len(),
        cycles[i].number is Some,
        same_ignoring_ascii_case(trimmed(text), "Cycle "@ + decimal(cycles[i].number->0 as nat)),
    ensures
        named(cycle_names(cycles[i]), trimmed(text)),
        (forall|j: int|
            0 <= j < cycles.len() && j != i ==> !named(cycle_names(#[trigger] cycles[j]), trimmed(text)))
            ==> pick_spec(
            "cycle"@,
            text,
            cycles.map_values(|c: Cycle| cycle_names(c)),
            cycles.map_values(|c: Cycle| cycle_label(c)),
        ) == Ok::<int, Seq<char>>(i),
{
    let c = cycles[i];
    let w = trimmed(text);
    let n = c.number->0;
    let names = cycle_names(c);
    let k: int = (1 + optional_name(c.name).len() + 1) as int;
    assert(names[k] == "Cycle "@ + decimal(n as nat));
    assert(same_ignoring_ascii_case(names[k], w));
    assert(named(names, w));
    let all = cycles.map_values(|c: Cycle| cycle_names(c));
    if forall|j: int| 0 <= j < cycles.len() && j != i ==> !named(cycle_names(#[trigger] cycles[j]), w) {
        assert forall|j: int| 0 <= j < all.len() && j != i implies !named(#[trigger] all[j], w) by {
            assert(all[j] == cycle_names(cycles[j]));
        }
        assert(all[i] == names);
        lemma_found_alone(all, w, i, all.len());
    }
}

/// Nothing among the first `n` is named `wanted`: nothing is found.
proof fn lemma_found_none(names: Seq<Seq<Seq<char>>>, wanted: Seq<char>, n: nat)
    requires
        n <= names.len(),
        forall|j: int| 0 <= j < names.len() ==> !named(#[trigger] names[j], wanted),
    ensures
        found(names, wanted, n).len() == 0,
    decreases n,
{
    if n > 0 {
        lemma_found_none(names, wanted, (n - 1) as nat);
    }
}

/// Two items named `wanted`: at least two are found.
proof fn lemma_found_two(names: Seq<Seq<Seq<char>>>, wanted: Seq<char>, i: int, j: int, n: nat)
    requires
        n <= names.len(),
        0 <= i < j < n,
        named(names[i], wanted),
        named(names[j], wanted),
    ensures
        found(names, wanted, n).len() >= 2,
    decreases n,
{
    if j < n - 1 {
        lemma_found_two(names, wanted, i, j, (n - 1) as nat);
    } else {
        lemma_found_at_least(names, wanted, i, (n - 1) as nat);
    }
}

proof fn lemma_found_at_least(names: Seq<Seq<Seq<char>>>, wanted: Seq<char>, i: int, n: nat)
    requires
        n <= names.len(),
        0 <= i < n,
        named(names[i], wanted),
    ensures
        found(names, wanted, n).len() >= 1,
    decreases n,
{
    if i < n - 1 {
        lemma_found_at_least(names, wanted, i, (n - 1) as nat);
    }
}

/// What a name is picked by: the item that alone answers to the words
/// typed, trimmed and in any ASCII case, is the one picked; where none
/// answers the answer is that there is no such item, and where two do,
/// that the words are ambiguous.
pub proof fn lemma_picked_by_name(
    what: Seq<char>,
    wanted: Seq<char>,
    names: Seq<Seq<Seq<char>>>,
    labels: Seq<Seq<char>>,
    i: int,
    j: int,
)
    ensures
        0 <= i < names.len() && named(names[i], trimmed(wanted)) && (forall|k: int|
            0 <= k < names.len() && k != i ==> !named(#[trigger] names[k], trimmed(wanted)))
            ==> pick_spec(what, wanted, names, labels) == Ok::<int, Seq<char>>(i),
        (forall|k: int| 0 <= k < names.len() ==> !named(#[trigger] names[k], trimmed(wanted))) ==> (pick_spec(
            what,
            wanted,
            names,
            labels,
        ) is Err && ("no "@ + what + " "@ + trimmed(wanted)).is_prefix_of(pick_spec(what, wanted, names, labels)->Err_0)),
        0 <= i < j < names.len() && named(names[i], trimmed(wanted)) && named(names[j], trimmed(wanted))
            ==> pick_spec(what, wanted, names, labels) is Err && (what + " "@ + trimmed(wanted) + " is ambiguous:"@).is_prefix_of(
            pick_spec(what, wanted, names, labels)->Err_0,
        ),
{
    reveal_strlit("no ");
    reveal_strlit(" ");
    reveal_strlit(" is ambiguous:");
    reveal_strlit(" is ambiguous: it could be ");
    reveal_strlit(": this team has none");
    reveal_strlit(" (choices: ");
    let w = trimmed(wanted);
    if 0 <= i < names.len() && named(names[i], w) && (forall|k: int|
        0 <= k < names.len() && k != i ==> !named(#[trigger] names[k], w)) {
        lemma_found_alone(names, w, i, names.len());
    }
    if forall|k: int| 0 <= k < names.len() ==> !named(#[trigger] names[k], w) {
        lemma_found_none(names, w, names.len());
        let head = "no "@ + what + " "@ + w;
        if labels.len() == 0 {
            assert((head + ": this team has none"@).subrange(0, head.len() as int) =~= head);
        } else {
            assert((head + " (choices: "@ + joined(dedup(labels), ", "@) + ")"@).subrange(0, head.len() as int) =~= head);
        }
    }
    if 0 <= i < j < names.len() && named(names[i], w) && named(names[j], w) {
        lemma_found_two(names, w, i, j, names.len());
        let f = found(names, w, names.len());
        let head = what + " "@ + w + " is ambiguous:"@;
        let whole = what + " "@ + w + " is ambiguous: it could be "@ + joined(f.map_values(|x: int| labels[x]), ", "@);
        assert(whole.subrange(0, head.len() as int) =~= head);
    }
}

/// A member answers to their name, their display name and their email; a
/// cycle to its name, its number, and `Cycle` with its number, whether it
/// has a name or not.
pub proof fn lemma_what_members_and_cycles_answer_to(u: User, c: Cycle, t: Seq<char>)
    ensures
        same_ignoring_ascii_case(t, u.name@) ==> named(member_names(u), t),
        (u.display_name is Some && same_ignoring_ascii_case(t, u.display_name->0@)) ==> named(member_names(u), t),
        (u.email is Some && same_ignoring_ascii_case(t, u.email->0@)) ==> named(member_names(u), t),
        (c.name is Some && same_ignoring_ascii_case(t, c.name->0@)) ==> named(cycle_names(c), t),
        (c.number is Some && same_ignoring_ascii_case(t, decimal(c.number->0 as nat))) ==> named(cycle_names(c), t),
        (c.number is Some && same_ignoring_ascii_case(t, "Cycle "@ + decimal(c.number->0 as nat))) ==> named(
            cycle_names(c),
            t,
        ),
{
    let m = member_names(u);
    let d: int = optional_name(u.display_name).len() as int;
    if same_ignoring_ascii_case(t, u.name@) {
        assert(same_ignoring_ascii_case(m[0], t));
    }
    if u.display_name is Some && same_ignoring_ascii_case(t, u.display_name->0@) {
        assert(same_ignoring_ascii_case(m[1], t));
    }
    if u.email is Some && same_ignoring_ascii_case(t, u.email->0@) {
        assert(same_ignoring_ascii_case(m[1 + d], t));
    }
    let n = cycle_names(c);
    let e: int = optional_name(c.name).len() as int;
    if c.name is Some && same_ignoring_ascii_case(t, c.name->0@) {
        assert(same_ignoring_ascii_case(n[1], t));
    }
    if c.number is Some && same_ignoring_ascii_case(t, decimal(c.number->0 as nat)) {
        assert(same_ignoring_ascii_case(n[1 + e], t));
    }
    if c.number is Some && same_ignoring_ascii_case(t, "Cycle "@ + decimal(c.number->0 as nat)) {
        assert(same_ignoring_ascii_case(n[2 + e], t));
    }
}

}
