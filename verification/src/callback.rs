//! The OAuth callback: what the local server that receives Linear's redirect
//! answers to each request it is sent.
//!
//! Browsers ask for more than the callback — `/favicon.ico` above all — so
//! anything that is not the callback is answered and ignored rather than
//! ending the login. The same goes for a callback whose `state` is not
//! ours: it did not come from the login this terminal started.

use vstd::prelude::*;
use vstd::string::StringSliceAdditionalSpecFns;
use vstd::utf8::encode_utf8;
use crate::text::{same_text, chars_of, push_char, push_decimal, push_str, string_of, whitespace, is_whitespace, decimal};

verus! {

/// What the authorization callback carried: the code, or the error Linear
/// redirected with.
pub type Callback = Result<String, String>;

/// What to do with one request to the callback server.
#[derive(Debug, PartialEq)]
pub enum Route {
    /// Answer and keep waiting.
    Reply { status: &'static str, body: &'static str },
    /// The login this server was started for has finished.
    Done(Callback),
}

/// The first index at or after `from` where `c` stands.
pub open spec fn index_of(s: Seq<char>, c: char, from: int) -> Option<int>
    decreases s.len() - from,
{
    if from < 0 || from >= s.len() {
        None
    } else if s[from] == c {
        Some(from)
    } else {
        index_of(s, c, from + 1)
    }
}

pub proof fn lemma_index_of(s: Seq<char>, c: char, from: int)
    requires
        from >= 0,
    ensures
        match index_of(s, c, from) {
            Some(i) => from <= i < s.len() && s[i] == c && forall|j: int|
                from <= j < i ==> s[j] != c,
            None => forall|j: int| from <= j < s.len() ==> s[j] != c,
        },
    decreases s.len() - from,
{
    if from < s.len() && s[from] != c {
        lemma_index_of(s, c, from + 1);
    }
}

pub(crate) fn find_char(v: &Vec<char>, c: char, from: usize) -> (r: Option<usize>)
    requires
        from <= v@.len(),
    ensures
        match r {
            Some(i) => index_of(v@, c, from as int) == Some(i as int),
            None => index_of(v@, c, from as int) == None::<int>,
        },
{
    let mut i = from;
    while i < v.len()
        invariant
            from <= i <= v@.len(),
            index_of(v@, c, from as int) == index_of(v@, c, i as int),
        decreases v@.len() - i,
    {
        if v[i] == c {
            return Some(i);
        }
        i = i + 1;
    }
    None
}

/// The first line of `s`, as `str::lines` yields it: up to the first
/// newline, less a carriage return before it; none for empty text.
pub open spec fn first_line(s: Seq<char>) -> Option<Seq<char>> {
    if s.len() == 0 {
        None
    } else {
        match index_of(s, '\n', 0) {
            None => Some(s),
            Some(i) => if i > 0 && s[i - 1] == '\r' {
                Some(s.take(i - 1))
            } else {
                Some(s.take(i))
            },
        }
    }
}

/// The index where the first run of non-blank characters at or after
/// `from` begins.
pub open spec fn skip_blanks(s: Seq<char>, from: int) -> int
    decreases s.len() - from,
{
    if from < 0 || from >= s.len() || !whitespace(s[from]) {
        from
    } else {
        skip_blanks(s, from + 1)
    }
}

/// The index where the run of non-blank characters at `from` ends.
pub open spec fn word_end(s: Seq<char>, from: int) -> int
    decreases s.len() - from,
{
    if from < 0 || from >= s.len() || whitespace(s[from]) {
        from
    } else {
        word_end(s, from + 1)
    }
}

/// The second word of `line`, as `split_whitespace().nth(1)` finds it.
pub open spec fn second_word(line: Seq<char>) -> Option<(int, int)> {
    let a = skip_blanks(line, 0);
    if a >= line.len() {
        None
    } else {
        let b = skip_blanks(line, word_end(line, a));
        if b >= line.len() {
            None
        } else {
            Some((b, word_end(line, b)))
        }
    }
}

/// The target of a request line like `GET /callback?code=x HTTP/1.1`.
pub open spec fn request_target_spec(request: Seq<char>) -> Option<Seq<char>> {
    match first_line(request) {
        None => None,
        Some(line) => match second_word(line) {
            None => None,
            Some((b, e)) => Some(line.subrange(b, e)),
        },
    }
}

proof fn lemma_skip_blanks(s: Seq<char>, from: int)
    requires
        0 <= from <= s.len(),
    ensures
        from <= skip_blanks(s, from) <= s.len(),
    decreases s.len() - from,
{
    if from < s.len() && whitespace(s[from]) {
        lemma_skip_blanks(s, from + 1);
    }
}

proof fn lemma_word_end(s: Seq<char>, from: int)
    requires
        0 <= from <= s.len(),
    ensures
        from <= word_end(s, from) <= s.len(),
    decreases s.len() - from,
{
    if from < s.len() && !whitespace(s[from]) {
        lemma_word_end(s, from + 1);
    }
}

fn skip_blanks_exec(v: &Vec<char>, from: usize, to: usize) -> (r: usize)
    requires
        from <= to <= v@.len(),
    ensures
        r == skip_blanks(v@.take(to as int), from as int),
{
    let ghost line = v@.take(to as int);
    let mut i = from;
    while i < to && is_whitespace(v[i])
        invariant
            from <= i <= to <= v@.len(),
            line == v@.take(to as int),
            skip_blanks(line, from as int) == skip_blanks(line, i as int),
        decreases to - i,
    {
        i = i + 1;
    }
    i
}

fn word_end_exec(v: &Vec<char>, from: usize, to: usize) -> (r: usize)
    requires
        from <= to <= v@.len(),
    ensures
        r == word_end(v@.take(to as int), from as int),
{
    let ghost line = v@.take(to as int);
    let mut i = from;
    while i < to && !is_whitespace(v[i])
        invariant
            from <= i <= to <= v@.len(),
            line == v@.take(to as int),
            word_end(line, from as int) == word_end(line, i as int),
        decreases to - i,
    {
        i = i + 1;
    }
    i
}

/// Pull the target out of a request line like `GET /callback?code=x HTTP/1.1`.
pub fn request_target(request: &str) -> (t: Option<&str>)
    ensures
        match (t, request_target_spec(request@)) {
            (Some(t), Some(s)) => t@ == s,
            (None, None) => true,
            _ => false,
        },
{
    let v = chars_of(request);
    if v.len() == 0 {
        return None;
    }
    proof {
        lemma_index_of(v@, '\n', 0);
    }
    let end = match find_char(&v, '\n', 0) {
        None => v.len(),
        Some(i) => if i > 0 && v[i - 1] == '\r' {
            i - 1
        } else {
            i
        },
    };
    proof {
        lemma_index_of(v@, '\n', 0);
        if index_of(v@, '\n', 0) is None {
            assert(v@.take(v@.len() as int) =~= v@);
        }
    }
    let ghost line = v@.take(end as int);
    let a = skip_blanks_exec(&v, 0, end);
    proof {
        lemma_skip_blanks(line, 0);
    }
    if a >= end {
        return None;
    }
    let e1 = word_end_exec(&v, a, end);
    proof {
        lemma_word_end(line, a as int);
    }
    let b = skip_blanks_exec(&v, e1, end);
    proof {
        lemma_skip_blanks(line, e1 as int);
    }
    if b >= end {
        return None;
    }
    let e2 = word_end_exec(&v, b, end);
    proof {
        lemma_word_end(line, b as int);
        assert(line.subrange(b as int, e2 as int) =~= request@.subrange(b as int, e2 as int));
    }
    Some(request.substring_char(b, e2))
}

/// A target split at its first `?` into a path and a query.
pub open spec fn split_target_spec(target: Seq<char>) -> (Seq<char>, Seq<char>) {
    match index_of(target, '?', 0) {
        Some(i) => (target.take(i), target.skip(i + 1)),
        None => (target, Seq::empty()),
    }
}

pub fn split_target(target: &str) -> (r: (&str, &str))
    ensures
        r.0@ == split_target_spec(target@).0,
        r.1@ == split_target_spec(target@).1,
{
    let v = chars_of(target);
    let _n = v.len();
    proof {
        lemma_index_of(v@, '?', 0);
    }
    match find_char(&v, '?', 0) {
        Some(i) => {
            let path = target.substring_char(0, i);
            let query = target.substring_char(i + 1, v.len());
            proof {
                assert(target@.subrange(0, i as int) =~= target@.take(i as int));
                assert(target@.subrange(i + 1, v@.len() as int) =~= target@.skip(i + 1));
            }
            (path, query)
        },
        None => {
            let query = target.substring_char(0, 0);
            proof {
                assert(target@.subrange(0, 0) =~= Seq::<char>::empty());
            }
            (target, query)
        },
    }
}

/// The value of a hexadecimal digit.
pub open spec fn hex_value(b: u8) -> Option<u8> {
    if 48 <= b <= 57 {
        Some((b - 48) as u8)
    } else if 65 <= b <= 70 {
        Some((b - 55) as u8)
    } else if 97 <= b <= 102 {
        Some((b - 87) as u8)
    } else {
        None
    }
}

/// What `u8::from_str_radix(.., 16)` reads from two bytes: two hex digits,
/// or a `+` sign and one.
pub open spec fn hex_pair(a: u8, b: u8) -> Option<u8> {
    match (hex_value(a), hex_value(b)) {
        (Some(x), Some(y)) => Some((x * 16 + y) as u8),
        _ => if a == 43 {
            hex_value(b)
        } else {
            None
        },
    }
}

/// The bytes `percent_decode` makes of `bytes[i..]`.
pub open spec fn decoded_bytes(bytes: Seq<u8>, i: int) -> Seq<u8>
    decreases bytes.len() - i,
{
    if i < 0 || i >= bytes.len() {
        Seq::empty()
    } else if bytes[i] == 37 && i + 2 < bytes.len() && hex_pair(bytes[i + 1], bytes[i + 2]) is Some {
        seq![hex_pair(bytes[i + 1], bytes[i + 2])->0] + decoded_bytes(bytes, i + 3)
    } else if bytes[i] == 43 {
        seq![32u8] + decoded_bytes(bytes, i + 1)
    } else {
        seq![bytes[i]] + decoded_bytes(bytes, i + 1)
    }
}

/// What std's `String::from_utf8_lossy` makes of `bytes`: the text they
/// encode, each invalid sequence replaced by U+FFFD.
pub uninterp spec fn utf8_lossy(bytes: Seq<u8>) -> Seq<char>;

/// Bytes to text with std's `String::from_utf8_lossy`.
#[verifier::external_body]
pub(crate) fn lossy(bytes: &[u8]) -> (s: String)
    ensures
        s@ == utf8_lossy(bytes@),
{
    String::from_utf8_lossy(bytes).into_owned()
}

fn hex_digit(b: u8) -> (r: Option<u8>)
    ensures
        r == hex_value(b),
{
    if 48 <= b && b <= 57 {
        Some(b - 48)
    } else if 65 <= b && b <= 70 {
        Some(b - 55)
    } else if 97 <= b && b <= 102 {
        Some(b - 87)
    } else {
        None
    }
}

fn hex_pair_exec(a: u8, b: u8) -> (r: Option<u8>)
    ensures
        r == hex_pair(a, b),
{
    match (hex_digit(a), hex_digit(b)) {
        (Some(x), Some(y)) => Some(x * 16 + y),
        _ => if a == 43 {
            hex_digit(b)
        } else {
            None
        },
    }
}

/// Decode `%XX` escapes and `+` so a code containing them survives the trip.
pub fn percent_decode(value: &str) -> (s: String)
    ensures
        s@ == utf8_lossy(decoded_bytes(encode_utf8(value@), 0)),
{
    let bytes = value.as_bytes();
    let mut out: Vec<u8> = Vec::new();
    let mut i: usize = 0;
    while i < bytes.len()
        invariant
            i <= bytes@.len(),
            bytes@ == encode_utf8(value@),
            decoded_bytes(bytes@, 0) == out@ + decoded_bytes(bytes@, i as int),
        decreases bytes@.len() - i,
    {
        let ghost before = out@;
        let b = bytes[i];
        let pair = if b == 37 && bytes.len() - i > 2 {
            hex_pair_exec(bytes[i + 1], bytes[i + 2])
        } else {
            None
        };
        match pair {
            Some(byte) => {
                out.push(byte);
                i = i + 3;
            },
            None => {
                if b == 43 {
                    out.push(32);
                } else {
                    out.push(b);
                }
                i = i + 1;
            },
        }
        proof {
            assert(out@ + decoded_bytes(bytes@, i as int) =~= before + decoded_bytes(
                bytes@,
                i - (if pair is Some { 3int } else { 1int }),
            ));
        }
    }
    proof {
        assert(out@ + decoded_bytes(bytes@, i as int) =~= out@);
    }
    lossy(out.as_slice())
}

/// The pieces of `s` between the separators `c`.
pub open spec fn pieces(s: Seq<char>, c: char) -> Seq<Seq<char>>
    decreases s.len(),
{
    match index_of(s, c, 0) {
        None => seq![s],
        Some(i) => if 0 <= i < s.len() {
            seq![s.take(i)] + pieces(s.skip(i + 1), c)
        } else {
            seq![s]
        },
    }
}

/// A query parameter: `key=value`, or `key` alone for an empty value.
pub open spec fn param_of(pair: Seq<char>) -> (Seq<char>, Seq<char>) {
    match index_of(pair, '=', 0) {
        Some(i) => (pair.take(i), pair.skip(i + 1)),
        None => (pair, Seq::empty()),
    }
}

/// The parameters of the pieces, the empty ones skipped, undecoded.
pub open spec fn params_of(ps: Seq<Seq<char>>) -> Seq<(Seq<char>, Seq<char>)>
    decreases ps.len(),
{
    if ps.len() == 0 {
        Seq::empty()
    } else if ps[0].len() == 0 {
        params_of(ps.drop_first())
    } else {
        seq![param_of(ps[0])] + params_of(ps.drop_first())
    }
}

/// The text `percent_decode` makes of `s`.
pub open spec fn decoded(s: Seq<char>) -> Seq<char> {
    utf8_lossy(decoded_bytes(encode_utf8(s), 0))
}

/// The parameters of a query, decoded.
pub open spec fn query_params(query: Seq<char>) -> Seq<(Seq<char>, Seq<char>)> {
    params_of(pieces(query, '&')).map_values(
        |p: (Seq<char>, Seq<char>)| (decoded(p.0), decoded(p.1)),
    )
}

/// The views of parsed parameters.
pub open spec fn param_views(v: Seq<(String, String)>) -> Seq<(Seq<char>, Seq<char>)> {
    v.map_values(|p: (String, String)| (p.0@, p.1@))
}

/// One parameter, decoded.
fn parse_param(piece: &str) -> (r: (String, String))
    ensures
        r.0@ == decoded(param_of(piece@).0),
        r.1@ == decoded(param_of(piece@).1),
{
    let v = chars_of(piece);
    let _n = v.len();
    proof {
        lemma_index_of(v@, '=', 0);
    }
    match find_char(&v, '=', 0) {
        Some(i) => {
            let key = piece.substring_char(0, i);
            let value = piece.substring_char(i + 1, v.len());
            proof {
                assert(piece@.subrange(0, i as int) =~= piece@.take(i as int));
                assert(piece@.subrange(i + 1, v@.len() as int) =~= piece@.skip(i + 1));
            }
            (percent_decode(key), percent_decode(value))
        },
        None => {
            let empty = piece.substring_char(0, 0);
            proof {
                assert(piece@.subrange(0, 0) =~= Seq::<char>::empty());
            }
            (percent_decode(piece), percent_decode(empty))
        },
    }
}

proof fn lemma_pieces_step(s: Seq<char>, c: char, i: int)
    requires
        index_of(s, c, 0) == Some(i),
    ensures
        0 <= i < s.len(),
        pieces(s, c) == seq![s.take(i)] + pieces(s.skip(i + 1), c),
{
    lemma_index_of(s, c, 0);
}

pub proof fn lemma_index_of_suffix(s: Seq<char>, c: char, p: int)
    requires
        0 <= p <= s.len(),
    ensures
        match (index_of(s.skip(p), c, 0), index_of(s, c, p)) {
            (Some(i), Some(j)) => j == i + p,
            (None, None) => true,
            _ => false,
        },
{
    lemma_index_of(s.skip(p), c, 0);
    lemma_index_of(s, c, p);
    match (index_of(s.skip(p), c, 0), index_of(s, c, p)) {
        (Some(i), Some(j)) => {
            assert(s.skip(p)[j - p] == s[j]);
            assert(s[i + p] == s.skip(p)[i]);
        },
        (Some(i), None) => {
            assert(s[i + p] == s.skip(p)[i]);
        },
        (None, Some(j)) => {
            assert(s.skip(p)[j - p] == s[j]);
        },
        _ => {},
    }
}

proof fn lemma_params_concat(a: Seq<Seq<char>>, b: Seq<Seq<char>>)
    ensures
        params_of(a + b) == params_of(a) + params_of(b),
    decreases a.len(),
{
    if a.len() == 0 {
        assert(a + b =~= b);
    } else {
        assert((a + b).drop_first() =~= a.drop_first() + b);
        lemma_params_concat(a.drop_first(), b);
        assert(params_of(a + b) =~= params_of(a) + params_of(b));
    }
}

/// The views of a list of texts.
pub open spec fn views_of(v: Seq<&str>) -> Seq<Seq<char>> {
    v.map_values(|t: &str| t@)
}

/// The pieces of `s` between the separators `c`, as `str::split` yields
/// them.
pub(crate) fn split_pieces(s: &str, c: char) -> (parts: Vec<&str>)
    ensures
        views_of(parts@) == pieces(s@, c),
{
    let v = chars_of(s);
    let n = v.len();
    let mut out: Vec<&str> = Vec::new();
    let mut p: usize = 0;
    let ghost done: Seq<Seq<char>> = Seq::empty();
    proof {
        assert(s@.skip(0) =~= s@);
        assert(done + pieces(s@, c) =~= pieces(s@, c));
        assert(views_of(out@) =~= done);
    }
    loop
        invariant
            n == v@.len(),
            v@ == s@,
            p <= n,
            pieces(s@, c) == done + pieces(s@.skip(p as int), c),
            views_of(out@) == done,
        decreases n - p,
    {
        proof {
            lemma_index_of_suffix(v@, c, p as int);
            lemma_index_of(v@, c, p as int);
        }
        let next = find_char(&v, c, p);
        let end = match next {
            Some(i) => i,
            None => n,
        };
        let piece = s.substring_char(p, end);
        out.push(piece);
        proof {
            assert(views_of(out@) =~= done + seq![piece@]);
            let rest = s@.skip(p as int);
            match next {
                Some(i) => {
                    lemma_pieces_step(rest, c, i - p);
                    assert(rest.take(i - p) =~= piece@);
                    assert(rest.skip(i - p + 1) =~= s@.skip(i + 1));
                },
                None => {
                    assert(rest =~= piece@);
                },
            }
        }
        match next {
            Some(i) => {
                proof {
                    done = done + seq![piece@];
                    assert(pieces(s@, c) =~= done + pieces(s@.skip(i + 1), c));
                }
                p = i + 1;
            },
            None => {
                proof {
                    done = done + seq![piece@];
                    assert(pieces(s@, c) =~= done);
                }
                return out;
            },
        }
    }
}

/// The parameters of a query, `&`-separated, each decoded; empty pieces
/// are skipped.
pub fn parse_query(query: &str) -> (params: Vec<(String, String)>)
    ensures
        param_views(params@) == query_params(query@),
{
    let v = chars_of(query);
    let n = v.len();
    let mut out: Vec<(String, String)> = Vec::new();
    let mut p: usize = 0;
    let ghost done: Seq<Seq<char>> = Seq::empty();
    proof {
        assert(query@.skip(0) =~= query@);
        assert(done + pieces(query@, '&') =~= pieces(query@, '&'));
        assert(param_views(out@) =~= params_of(done).map_values(
            |q: (Seq<char>, Seq<char>)| (decoded(q.0), decoded(q.1)),
        ));
    }
    loop
        invariant
            n == v@.len(),
            v@ == query@,
            p <= n,
            pieces(query@, '&') == done + pieces(query@.skip(p as int), '&'),
            param_views(out@) == params_of(done).map_values(
                |q: (Seq<char>, Seq<char>)| (decoded(q.0), decoded(q.1)),
            ),
        decreases n - p,
    {
        proof {
            lemma_index_of_suffix(v@, '&', p as int);
            lemma_index_of(v@, '&', p as int);
        }
        let next = find_char(&v, '&', p);
        let end = match next {
            Some(i) => i,
            None => n,
        };
        let ghost piece = query@.subrange(p as int, end as int);
        let ghost before = out@;
        let ghost mapped = |q: (Seq<char>, Seq<char>)| (decoded(q.0), decoded(q.1));
        if end > p {
            let text = query.substring_char(p, end);
            let pair = parse_param(text);
            out.push(pair);
            proof {
                assert(param_views(out@) =~= param_views(before) + seq![(pair.0@, pair.1@)]);
                assert(seq![(pair.0@, pair.1@)] =~= seq![param_of(piece)].map_values(mapped));
            }
        }
        proof {
            let rest = query@.skip(p as int);
            match next {
                Some(i) => {
                    lemma_pieces_step(rest, '&', i - p);
                    assert(rest.take(i - p) =~= piece);
                    assert(rest.skip(i - p + 1) =~= query@.skip(i + 1));
                },
                None => {
                    assert(rest =~= piece);
                },
            }
            lemma_params_concat(done, seq![piece]);
            assert(seq![piece].drop_first() =~= Seq::<Seq<char>>::empty());
            assert(params_of(Seq::<Seq<char>>::empty()) =~= Seq::<(Seq<char>, Seq<char>)>::empty());
            assert(seq![piece][0] == piece);
            if end > p {
                assert(piece.len() > 0);
                assert(params_of(seq![piece]) =~= seq![param_of(piece)]);
                assert((params_of(done) + seq![param_of(piece)]).map_values(mapped)
                    =~= params_of(done).map_values(mapped) + seq![param_of(piece)].map_values(mapped));
            } else {
                assert(piece.len() == 0);
                assert(params_of(seq![piece]) =~= Seq::<(Seq<char>, Seq<char>)>::empty());
                assert(params_of(done) + Seq::<(Seq<char>, Seq<char>)>::empty() =~= params_of(done));
            }
            assert(param_views(out@) =~= params_of(done + seq![piece]).map_values(mapped));
        }
        match next {
            Some(i) => {
                proof {
                    done = done + seq![piece];
                    assert(pieces(query@, '&') =~= done + pieces(query@.skip(i + 1), '&'));
                }
                p = i + 1;
            },
            None => {
                proof {
                    done = done + seq![piece];
                    assert(pieces(query@, '&') =~= done);
                }
                return out;
            },
        }
    }
}

/// The first parameter named `key`.
pub open spec fn param(params: Seq<(Seq<char>, Seq<char>)>, key: Seq<char>) -> Option<Seq<char>>
    decreases params.len(),
{
    if params.len() == 0 {
        None
    } else if params[0].0 == key {
        Some(params[0].1)
    } else {
        param(params.drop_first(), key)
    }
}

fn find_param(params: &Vec<(String, String)>, key: &str) -> (r: Option<String>)
    ensures
        match (r, param(param_views(params@), key@)) {
            (Some(v), Some(s)) => v@ == s,
            (None, None) => true,
            _ => false,
        },
{
    let mut i: usize = 0;
    proof {
        assert(param_views(params@).skip(0) =~= param_views(params@));
    }
    while i < params.len()
        invariant
            i <= params@.len(),
            param(param_views(params@), key@) == param(param_views(params@).skip(i as int), key@),
        decreases params@.len() - i,
    {
        proof {
            let rest = param_views(params@).skip(i as int);
            assert(rest[0] == (params@[i as int].0@, params@[i as int].1@));
            assert(rest.drop_first() =~= param_views(params@).skip(i + 1));
        }
        if same_text(params[i].0.as_str(), key) {
            return Some(params[i].1.clone());
        }
        i = i + 1;
    }
    proof {
        assert(param_views(params@).skip(i as int) =~= Seq::<(Seq<char>, Seq<char>)>::empty());
    }
    None
}

/// What a request to the callback server is answered with, as views:
/// `Err((status, body))` for a reply, `Ok(outcome)` when the login is over.
pub open spec fn route_spec(request: Seq<char>, expected_state: Seq<char>) -> Result<
    Result<Seq<char>, Seq<char>>,
    (Seq<char>, Seq<char>),
> {
    match request_target_spec(request) {
        None => Err(("400 Bad Request"@, "Bad request."@)),
        Some(target) => {
            let (path, query) = split_target_spec(target);
            if path != "/callback"@ {
                Err(("404 Not Found"@, "Not found."@))
            } else {
                let params = query_params(query);
                if param(params, "state"@) != Some(expected_state) {
                    Err(
                        (
                            "400 Bad Request"@,
                            "State mismatch \u{2014} the login was not started by this terminal."@,
                        ),
                    )
                } else {
                    match param(params, "error"@) {
                        Some(error) => {
                            let description = match param(params, "error_description"@) {
                                Some(d) => d,
                                None => Seq::empty(),
                            };
                            if description.len() == 0 {
                                Ok(Err(error))
                            } else {
                                Ok(Err(error + ": "@ + description))
                            }
                        },
                        None => match param(params, "code"@) {
                            Some(code) => Ok(Ok(code)),
                            None => Err(("400 Bad Request"@, "Callback was missing its code."@)),
                        },
                    }
                }
            }
        },
    }
}

/// The view of a route.
pub open spec fn route_view(r: Route) -> Result<
    Result<Seq<char>, Seq<char>>,
    (Seq<char>, Seq<char>),
> {
    match r {
        Route::Reply { status, body } => Err((status@, body@)),
        Route::Done(Ok(code)) => Ok(Ok(code@)),
        Route::Done(Err(error)) => Ok(Err(error@)),
    }
}

/// Decide what to do with one request, given the `state` this login sent.
pub fn route(request: &str, expected_state: &str) -> (r: Route)
    ensures
        route_view(r) == route_spec(request@, expected_state@),
{
    let target = match request_target(request) {
        None => {
            return Route::Reply { status: "400 Bad Request", body: "Bad request." };
        },
        Some(t) => t,
    };
    let (path, query) = split_target(target);
    if !same_text(path, "/callback") {
        return Route::Reply { status: "404 Not Found", body: "Not found." };
    }
    let params = parse_query(query);
    let state = find_param(&params, "state");
    let matches = match &state {
        Some(s) => same_text(s.as_str(), expected_state),
        None => false,
    };
    if !matches {
        return Route::Reply {
            status: "400 Bad Request",
            body: "State mismatch \u{2014} the login was not started by this terminal.",
        };
    }
    match find_param(&params, "error") {
        Some(error) => {
            let description = match find_param(&params, "error_description") {
                Some(d) => d,
                None => String::new(),
            };
            let d = chars_of(description.as_str());
            if d.len() == 0 {
                Route::Done(Err(error))
            } else {
                let mut reason = error;
                push_str(&mut reason, ": ");
                push_str(&mut reason, description.as_str());
                Route::Done(Err(reason))
            }
        },
        None => match find_param(&params, "code") {
            Some(code) => Route::Done(Ok(code)),
            None => Route::Reply { status: "400 Bad Request", body: "Callback was missing its code." },
        },
    }
}

/// How `html_escape` writes a character.
pub open spec fn escaped_char(c: char) -> Seq<char> {
    if c == '&' {
        "&amp;"@
    } else if c == '<' {
        "&lt;"@
    } else if c == '>' {
        "&gt;"@
    } else if c == '"' {
        "&quot;"@
    } else if c == '\'' {
        "&#39;"@
    } else {
        seq![c]
    }
}

/// `text` with every character escaped.
pub open spec fn escaped(text: Seq<char>) -> Seq<char>
    decreases text.len(),
{
    if text.len() == 0 {
        Seq::empty()
    } else {
        escaped(text.drop_last()) + escaped_char(text.last())
    }
}

/// Escape the characters HTML gives a meaning to.
pub fn html_escape(text: &str) -> (out: String)
    ensures
        out@ == escaped(text@),
{
    let v = chars_of(text);
    let mut out = String::new();
    let mut i: usize = 0;
    while i < v.len()
        invariant
            i <= v@.len(),
            v@ == text@,
            out@ == escaped(v@.take(i as int)),
        decreases v@.len() - i,
    {
        let c = v[i];
        if c == '&' {
            push_str(&mut out, "&amp;");
        } else if c == '<' {
            push_str(&mut out, "&lt;");
        } else if c == '>' {
            push_str(&mut out, "&gt;");
        } else if c == '"' {
            push_str(&mut out, "&quot;");
        } else if c == '\'' {
            push_str(&mut out, "&#39;");
        } else {
            push_char(&mut out, c);
        }
        proof {
            assert(v@.take(i + 1).drop_last() =~= v@.take(i as int));
        }
        i = i + 1;
    }
    proof {
        assert(v@.take(v@.len() as int) =~= v@);
    }
    out
}

/// The HTTP response the callback server writes: a status line, the
/// headers, and the body, whose length in bytes it states.
pub open spec fn response_text(status: Seq<char>, content_type: Seq<char>, body: Seq<char>) -> Seq<
    char,
> {
    "HTTP/1.1 "@ + status + "\r\nContent-Type: "@ + content_type + "\r\nContent-Length: "@
        + decimal(encode_utf8(body).len()) + "\r\nConnection: close\r\n\r\n"@ + body
}

/// The response to write for `status` with `body`.
pub fn response(status: &str, content_type: &str, body: &str) -> (r: String)
    requires
        encode_utf8(body@).len() <= usize::MAX,
    ensures
        r@ == response_text(status@, content_type@, body@),
{
    let mut out = String::new();
    push_str(&mut out, "HTTP/1.1 ");
    push_str(&mut out, status);
    push_str(&mut out, "\r\nContent-Type: ");
    push_str(&mut out, content_type);
    push_str(&mut out, "\r\nContent-Length: ");
    let len = body.len();
    proof {
        assert(body.spec_bytes() == encode_utf8(body@));
    }
    push_decimal(&mut out, len as u64);
    push_str(&mut out, "\r\nConnection: close\r\n\r\n");
    push_str(&mut out, body);
    proof {
        assert(out@ =~= response_text(status@, content_type@, body@));
    }
    out
}

/// The page the browser is shown once Linear has sent the code.
pub const SUCCESS_BODY: &'static str = "<!doctype html><meta charset=\"utf-8\"><title>linear-tui</title><body style=\"font:16px system-ui;padding:3rem\"><h1>Authorized</h1><p>linear-tui is connected. You can close this tab and return to your terminal.</p>";

/// The page the browser is shown when the login ends: the success page, or
/// the reason Linear gave for refusing, escaped.
pub open spec fn finish_page_text(outcome: Result<Seq<char>, Seq<char>>) -> Seq<char> {
    match outcome {
        Ok(_) => SUCCESS_BODY@,
        Err(error) => "<!doctype html><meta charset=\"utf-8\"><title>linear-tui</title><h1>Authorization cancelled</h1><p>"@
            + escaped(error) + "</p>"@,
    }
}

/// The page the browser is shown when the login ends.
pub fn finish_page(outcome: &Callback) -> (page: String)
    ensures
        page@ == finish_page_text(match outcome {
            Ok(code) => Ok(code@),
            Err(error) => Err(error@),
        }),
{
    match outcome {
        Ok(_) => SUCCESS_BODY.to_string(),
        Err(error) => {
            let mut page = String::new();
            push_str(
                &mut page,
                "<!doctype html><meta charset=\"utf-8\"><title>linear-tui</title><h1>Authorization cancelled</h1><p>",
            );
            let escaped_error = html_escape(error.as_str());
            push_str(&mut page, escaped_error.as_str());
            push_str(&mut page, "</p>");
            page
        },
    }
}

/// What the callback server does with the bytes of one request: the
/// response to write back, and how the login ended if this request ended
/// it.
pub open spec fn answer_spec(request: Seq<u8>, expected_state: Seq<char>) -> (
    Option<Result<Seq<char>, Seq<char>>>,
    Seq<char>,
) {
    match route_spec(utf8_lossy(request), expected_state) {
        Err((status, body)) => (None, response_text(status, "text/plain"@, body)),
        Ok(outcome) => (
            Some(outcome),
            response_text("200 OK"@, "text/html; charset=utf-8"@, finish_page_text(outcome)),
        ),
    }
}

/// Answer one request the callback server read, as its bytes: the response
/// to write back, and the outcome of the login when the request ended it.
pub fn answer(request: &[u8], expected_state: &str) -> (r: (Option<Callback>, String))
    ensures
        (match r.0 {
            Some(Ok(code)) => Some(Ok(code@)),
            Some(Err(error)) => Some(Err(error@)),
            None => None,
        }, r.1@) == answer_spec(request@, expected_state@),
{
    let text = lossy(request);
    match route(text.as_str(), expected_state) {
        Route::Reply { status, body } => {
            let bytes = body.as_bytes();
            let _ = bytes.len();
            proof {
                assert(body.spec_bytes() == encode_utf8(body@));
            }
            (None, response(status, "text/plain", body))
        },
        Route::Done(outcome) => {
            let page = finish_page(&outcome);
            let body = page.as_str();
            let bytes = body.as_bytes();
            let _ = bytes.len();
            proof {
                assert(body.spec_bytes() == encode_utf8(body@));
            }
            let reply = response("200 OK", "text/html; charset=utf-8", body);
            (Some(outcome), reply)
        },
    }
}

}
