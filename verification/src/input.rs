//! A one-line text field: its text, and a cursor kept as a byte offset into
//! it, always on a character boundary. It edits the way readline does.

use vstd::prelude::*;
use crate::text::{chars_of, is_whitespace, string_of, whitespace};

verus! {

/// How many bytes UTF-8 spends on `c`.
pub open spec fn utf8_len(c: char) -> nat {
    if (c as u32) < 0x80 {
        1
    } else if (c as u32) < 0x800 {
        2
    } else if (c as u32) < 0x10000 {
        3
    } else {
        4
    }
}

/// How many bytes UTF-8 spends on `s`.
pub open spec fn byte_len(s: Seq<char>) -> nat
    decreases s.len(),
{
    if s.len() == 0 {
        0
    } else {
        byte_len(s.drop_last()) + utf8_len(s.last())
    }
}

/// Whether byte offset `cursor` falls between characters of `s`, before the
/// `k`th one.
pub open spec fn before_char(s: Seq<char>, cursor: int, k: int) -> bool {
    0 <= k <= s.len() && byte_len(s.take(k)) == cursor
}

/// Where the previous word starts, looking back from position `k`: past
/// any white space, then past everything that is not.
pub open spec fn word_back(s: Seq<char>, k: int) -> int
    decreases k,
{
    if k <= 0 {
        0
    } else if whitespace(s[k - 1]) {
        word_back(s, k - 1)
    } else {
        word_in_back(s, k)
    }
}

/// The start of the word that ends at position `k`.
pub open spec fn word_in_back(s: Seq<char>, k: int) -> int
    decreases k,
{
    if k <= 0 || whitespace(s[k - 1]) {
        if k < 0 { 0 } else { k }
    } else {
        word_in_back(s, k - 1)
    }
}

/// `s` with `c` typed before its `k`th character.
pub open spec fn typed_at(s: Seq<char>, k: int, c: char) -> Seq<char> {
    s.take(k).push(c) + s.skip(k)
}

/// `s` without the character before its `k`th.
pub open spec fn erased_before(s: Seq<char>, k: int) -> Seq<char> {
    s.take(k - 1) + s.skip(k)
}

/// A text field.
#[derive(Debug, Clone, Default, PartialEq, Eq)]
pub struct Input {
    pub value: String,
    /// Byte offset of the cursor in `value`.
    pub cursor: usize,
}

impl Input {
    /// The cursor sits on a character boundary of the text.
    pub open spec fn wf(&self) -> bool {
        &&& exists|k: int| #[trigger] before_char(self.value@, self.cursor as int, k)
        &&& byte_len(self.value@) <= usize::MAX
    }

    /// The number of characters before the cursor.
    pub open spec fn at(&self) -> int {
        choose|k: int| before_char(self.value@, self.cursor as int, k)
    }

    /// A field holding `text`, the cursor at its end.
    pub fn with(text: &str) -> (input: Self)
        requires
            byte_len(text@) <= usize::MAX,
        ensures
            input.wf(),
            input.value@ == text@,
            input.at() == text@.len(),
    {
        let chars = chars_of(text);
        let cursor = bytes_before(&chars, chars.len());
        let input = Input { value: string_of(chars.as_slice()), cursor };
        proof {
            assert(chars@.take(chars@.len() as int) =~= chars@);
            assert(input.value@ == chars@);
            assert(before_char(input.value@, input.cursor as int, chars@.len() as int));
            lemma_at(input.value@, input.cursor as int, chars@.len() as int);
        }
        input
    }

    /// Whether the field is empty.
    pub fn is_empty(&self) -> (b: bool)
        ensures
            b == (self.value@.len() == 0),
    {
        let chars = chars_of(self.value.as_str());
        chars.len() == 0
    }

    /// Empty the field.
    pub fn clear(&mut self)
        ensures
            final(self).wf(),
            final(self).value@ == Seq::<char>::empty(),
            final(self).cursor == 0,
    {
        self.value = String::new();
        self.cursor = 0;
        proof {
            assert(self.value@.take(0) =~= Seq::<char>::empty());
            assert(byte_len(Seq::<char>::empty()) == 0);
            assert(before_char(self.value@, 0, 0));
            assert(before_char(self.value@, self.cursor as int, 0));
        }
    }

    /// Type `c` at the cursor.
    pub fn insert(&mut self, c: char)
        requires
            old(self).wf(),
            byte_len(old(self).value@) + 4 <= usize::MAX,
        ensures
            final(self).wf(),
            final(self).value@ == typed_at(old(self).value@, old(self).at(), c),
            final(self).at() == old(self).at() + 1,
    {
        let (chars, k) = self.split();
        let mut out: Vec<char> = Vec::new();
        let mut i: usize = 0;
        while i < k
            invariant
                k <= chars@.len(),
                i <= k,
                out@ == chars@.take(i as int),
            decreases k - i,
        {
            out.push(chars[i]);
            i = i + 1;
            assert(out@ =~= chars@.take(i as int));
        }
        out.push(c);
        let ghost head = out@;
        append_from(&mut out, &chars, k);
        proof {
            lemma_byte_len_push(chars@.take(k as int), c);
            lemma_byte_len_mono(chars@, k as int, chars@.len() as int);
            assert(chars@.take(chars@.len() as int) =~= chars@);
        }
        self.value = string_of(out.as_slice());
        self.cursor = self.cursor + char_len(c);
        proof {
            assert(out@.take(k + 1) =~= chars@.take(k as int).push(c));
            lemma_at(self.value@, self.cursor as int, k + 1);
            assert(out@ =~= chars@.take(k as int).push(c) + chars@.skip(k as int));
            lemma_byte_len_concat(chars@.take(k as int).push(c), chars@.skip(k as int));
            lemma_byte_len_concat(chars@.take(k as int), chars@.skip(k as int));
            assert(chars@.take(k as int) + chars@.skip(k as int) =~= chars@);
        }
    }

    /// Delete the character before the cursor.
    pub fn backspace(&mut self)
        requires
            old(self).wf(),
        ensures
            final(self).wf(),
            old(self).at() == 0 ==> *final(self) == *old(self),
            old(self).at() > 0 ==> final(self).value@ == erased_before(old(self).value@, old(self).at())
                && final(self).at() == old(self).at() - 1,
    {
        let (chars, k) = self.split();
        if k == 0 {
            return;
        }
        self.remove_at(&chars, k - 1, k);
    }

    /// Delete the character under the cursor.
    pub fn delete(&mut self)
        requires
            old(self).wf(),
        ensures
            final(self).wf(),
            old(self).at() == old(self).value@.len() ==> *final(self) == *old(self),
            old(self).at() < old(self).value@.len() ==> final(self).value@ == old(
                self,
            ).value@.take(old(self).at()) + old(self).value@.skip(old(self).at() + 1)
                && final(self).at() == old(self).at(),
    {
        let (chars, k) = self.split();
        if k == chars.len() {
            return;
        }
        self.remove_at(&chars, k, k + 1);
    }

    /// Move the cursor one character left.
    pub fn left(&mut self)
        requires
            old(self).wf(),
        ensures
            final(self).wf(),
            final(self).value@ == old(self).value@,
            final(self).at() == if old(self).at() > 0 { old(self).at() - 1 } else { 0 },
    {
        let (chars, k) = self.split();
        if k > 0 {
            self.cursor = bytes_before(&chars, k - 1);
        }
        proof {
            if k > 0 {
                lemma_at(self.value@, self.cursor as int, k - 1);
            }
        }
    }

    /// Move the cursor one character right.
    pub fn right(&mut self)
        requires
            old(self).wf(),
        ensures
            final(self).wf(),
            final(self).value@ == old(self).value@,
            final(self).at() == if old(self).at() < old(self).value@.len() {
                old(self).at() + 1
            } else {
                old(self).at()
            },
    {
        let (chars, k) = self.split();
        if k < chars.len() {
            self.cursor = bytes_before(&chars, k + 1);
            proof {
                lemma_at(self.value@, self.cursor as int, k + 1);
            }
        }
    }

    /// Move the cursor to the start.
    pub fn home(&mut self)
        requires
            old(self).wf(),
        ensures
            final(self).wf(),
            final(self).value@ == old(self).value@,
            final(self).at() == 0,
            final(self).cursor == 0,
    {
        self.cursor = 0;
        proof {
            assert(self.value@.take(0) =~= Seq::<char>::empty());
            assert(byte_len(Seq::<char>::empty()) == 0);
            lemma_at(self.value@, self.cursor as int, 0);
        }
    }

    /// Move the cursor to the end.
    pub fn end(&mut self)
        requires
            old(self).wf(),
        ensures
            final(self).wf(),
            final(self).value@ == old(self).value@,
            final(self).at() == old(self).value@.len(),
    {
        let (chars, k) = self.split();
        self.cursor = bytes_before(&chars, chars.len());
        proof {
            lemma_at(self.value@, self.cursor as int, chars@.len() as int);
        }
    }

    /// Delete back to the start of the previous word, as readline's Ctrl+W.
    pub fn kill_word(&mut self)
        requires
            old(self).wf(),
        ensures
            final(self).wf(),
            final(self).value@ == old(self).value@.take(word_back(old(self).value@, old(self).at()))
                + old(self).value@.skip(old(self).at()),
            final(self).at() == word_back(old(self).value@, old(self).at()),
    {
        let (chars, k) = self.split();
        let mut j = k;
        while j > 0 && is_whitespace(chars[j - 1])
            invariant
                j <= k <= chars@.len(),
                word_back(chars@, k as int) == word_back(chars@, j as int),
            decreases j,
        {
            j = j - 1;
        }
        proof {
            if j > 0 {
                assert(word_back(chars@, j as int) == word_in_back(chars@, j as int));
            }
        }
        while j > 0 && !is_whitespace(chars[j - 1])
            invariant
                j <= k <= chars@.len(),
                word_back(chars@, k as int) == word_in_back(chars@, j as int),
            decreases j,
        {
            j = j - 1;
        }
        proof {
            lemma_word_back_bounds(chars@, k as int);
        }
        self.remove_at(&chars, j, k);
    }

    /// Delete everything before the cursor.
    pub fn kill_to_start(&mut self)
        requires
            old(self).wf(),
        ensures
            final(self).wf(),
            final(self).value@ == old(self).value@.skip(old(self).at()),
            final(self).at() == 0,
    {
        let (chars, k) = self.split();
        self.remove_at(&chars, 0, k);
        proof {
            assert(chars@.take(0) + chars@.skip(k as int) =~= chars@.skip(k as int));
        }
    }

    /// Delete everything from the cursor on.
    pub fn kill_to_end(&mut self)
        requires
            old(self).wf(),
        ensures
            final(self).wf(),
            final(self).value@ == old(self).value@.take(old(self).at()),
            final(self).at() == old(self).at(),
    {
        let (chars, k) = self.split();
        self.remove_at(&chars, k, chars.len());
        proof {
            assert(chars@.take(k as int) + chars@.skip(chars@.len() as int) =~= chars@.take(
                k as int,
            ));
        }
    }

    /// The characters of the field, and how many are before the cursor.
    fn split(&self) -> (r: (Vec<char>, usize))
        requires
            self.wf(),
        ensures
            r.0@ == self.value@,
            r.1 == self.at(),
            r.1 <= r.0@.len(),
            byte_len(self.value@) <= usize::MAX,
    {
        let chars = chars_of(self.value.as_str());
        proof {
            let k = self.at();
            lemma_byte_len_mono(chars@, k, chars@.len() as int);
            assert(chars@.take(chars@.len() as int) =~= chars@);
        }
        let n = chars.len();
        let mut k: usize = 0;
        let mut bytes: usize = 0;
        while bytes < self.cursor
            invariant
                n == chars@.len(),
                chars@ == self.value@,
                self.wf(),
                k <= self.at(),
                bytes == byte_len(chars@.take(k as int)),
                bytes <= self.cursor,
            decreases self.cursor - bytes,
        {
            proof {
                lemma_at_unique(chars@, self.cursor as int, self.at(), k as int);
                lemma_byte_len_push(chars@.take(k as int), chars@[k as int]);
                assert(chars@.take(k + 1) =~= chars@.take(k as int).push(chars@[k as int]));
                lemma_byte_len_mono(chars@, k + 1, self.at());
            }
            bytes = bytes + char_len(chars[k]);
            k = k + 1;
        }
        proof {
            lemma_at_unique(chars@, self.cursor as int, self.at(), k as int);
        }
        (chars, k)
    }

    /// Replace characters `from..to` of the field with nothing, leaving the
    /// cursor where they were.
    fn remove_at(&mut self, chars: &Vec<char>, from: usize, to: usize)
        requires
            old(self).wf(),
            chars@ == old(self).value@,
            from <= to <= chars@.len(),
        ensures
            final(self).wf(),
            final(self).value@ == chars@.take(from as int) + chars@.skip(to as int),
            final(self).at() == from,
    {
        let mut out: Vec<char> = Vec::new();
        let mut i: usize = 0;
        while i < from
            invariant
                from <= chars@.len(),
                i <= from,
                out@ == chars@.take(i as int),
            decreases from - i,
        {
            out.push(chars[i]);
            i = i + 1;
            assert(out@ =~= chars@.take(i as int));
        }
        append_from(&mut out, chars, to);
        proof {
            lemma_byte_len_mono(chars@, from as int, chars@.len() as int);
            assert(chars@.take(chars@.len() as int) =~= chars@);
            lemma_at_unique(chars@, old(self).cursor as int, old(self).at(), old(self).at());
            lemma_byte_len_mono(chars@, old(self).at(), chars@.len() as int);
        }
        let cursor = bytes_before(chars, from);
        self.value = string_of(out.as_slice());
        self.cursor = cursor;
        proof {
            assert(out@.take(from as int) =~= chars@.take(from as int));
            lemma_at(self.value@, self.cursor as int, from as int);
            lemma_byte_len_concat(chars@.take(from as int), chars@.skip(to as int));
            lemma_byte_len_concat(chars@.take(to as int), chars@.skip(to as int));
            assert(chars@.take(to as int) + chars@.skip(to as int) =~= chars@);
            lemma_byte_len_mono(chars@, from as int, to as int);
        }
    }
}

/// The bytes UTF-8 spends on `c`.
fn char_len(c: char) -> (n: usize)
    ensures
        n == utf8_len(c),
{
    let v: u32 = c as u32;
    if v < 0x80 {
        1
    } else if v < 0x800 {
        2
    } else if v < 0x10000 {
        3
    } else {
        4
    }
}

/// The bytes the first `k` characters take.
fn bytes_before(chars: &Vec<char>, k: usize) -> (n: usize)
    requires
        k <= chars@.len(),
        byte_len(chars@) <= usize::MAX,
    ensures
        n == byte_len(chars@.take(k as int)),
{
    let mut n: usize = 0;
    let mut i: usize = 0;
    while i < k
        invariant
            i <= k <= chars@.len(),
            byte_len(chars@) <= usize::MAX,
            n == byte_len(chars@.take(i as int)),
        decreases k - i,
    {
        proof {
            lemma_byte_len_push(chars@.take(i as int), chars@[i as int]);
            assert(chars@.take(i + 1) =~= chars@.take(i as int).push(chars@[i as int]));
            lemma_byte_len_mono(chars@, i + 1, chars@.len() as int);
            assert(chars@.take(chars@.len() as int) =~= chars@);
        }
        n = n + char_len(chars[i]);
        i = i + 1;
    }
    n
}

/// Append `chars[from..]` to `out`.
fn append_from(out: &mut Vec<char>, chars: &Vec<char>, from: usize)
    requires
        from <= chars@.len(),
    ensures
        final(out)@ == old(out)@ + chars@.skip(from as int),
{
    let ghost start = out@;
    let mut i = from;
    while i < chars.len()
        invariant
            from <= i <= chars@.len(),
            out@ == start + chars@.subrange(from as int, i as int),
        decreases chars@.len() - i,
    {
        out.push(chars[i]);
        i = i + 1;
        assert(out@ =~= start + chars@.subrange(from as int, i as int));
    }
    assert(chars@.subrange(from as int, chars@.len() as int) =~= chars@.skip(from as int));
}

proof fn lemma_byte_len_concat(a: Seq<char>, b: Seq<char>)
    ensures
        byte_len(a + b) == byte_len(a) + byte_len(b),
    decreases b.len(),
{
    if b.len() == 0 {
        assert(a + b =~= a);
    } else {
        assert((a + b).drop_last() =~= a + b.drop_last());
        lemma_byte_len_concat(a, b.drop_last());
    }
}

proof fn lemma_byte_len_push(s: Seq<char>, c: char)
    ensures
        byte_len(s.push(c)) == byte_len(s) + utf8_len(c),
{
    assert(s.push(c).drop_last() =~= s);
}

/// More characters take more bytes.
proof fn lemma_byte_len_mono(s: Seq<char>, i: int, j: int)
    requires
        0 <= i <= j <= s.len(),
    ensures
        byte_len(s.take(i)) + (j - i) <= byte_len(s.take(j)),
    decreases j - i,
{
    if i < j {
        lemma_byte_len_mono(s, i, j - 1);
        assert(s.take(j).drop_last() =~= s.take(j - 1));
    }
}

/// Only one character boundary sits at a byte offset.
proof fn lemma_at_unique(s: Seq<char>, cursor: int, k: int, j: int)
    requires
        before_char(s, cursor, k),
        0 <= j <= s.len(),
    ensures
        byte_len(s.take(j)) == cursor <==> j == k,
        j < k ==> byte_len(s.take(j)) < cursor,
{
    if j < k {
        lemma_byte_len_mono(s, j, k);
    } else if k < j {
        lemma_byte_len_mono(s, k, j);
    }
}

/// The boundary a byte offset names is the one `at` picks.
proof fn lemma_at(s: Seq<char>, cursor: int, k: int)
    requires
        before_char(s, cursor, k),
    ensures
        exists|j: int| #[trigger] before_char(s, cursor, j),
        (choose|j: int| before_char(s, cursor, j)) == k,
{
    let j = choose|j: int| before_char(s, cursor, j);
    lemma_at_unique(s, cursor, k, j);
}

proof fn lemma_word_back_bounds(s: Seq<char>, k: int)
    requires
        0 <= k <= s.len(),
    ensures
        0 <= word_back(s, k) <= k,
    decreases k,
{
    if k > 0 {
        if whitespace(s[k - 1]) {
            lemma_word_back_bounds(s, k - 1);
        } else {
            lemma_word_in_back_bounds(s, k);
        }
    }
}

proof fn lemma_word_in_back_bounds(s: Seq<char>, k: int)
    requires
        0 <= k <= s.len(),
    ensures
        0 <= word_in_back(s, k) <= k,
    decreases k,
{
    if k > 0 && !whitespace(s[k - 1]) {
        lemma_word_in_back_bounds(s, k - 1);
    }
}

/// Backspace takes back what was typed: the character typed before the
/// `k`th is the one erased, and the text is what it was.
pub proof fn lemma_backspace_undoes_typing(s: Seq<char>, k: int, c: char)
    requires
        0 <= k <= s.len(),
    ensures
        typed_at(s, k, c).len() == s.len() + 1,
        erased_before(typed_at(s, k, c), k + 1) == s,
{
    let t = typed_at(s, k, c);
    assert(t.take(k) =~= s.take(k));
    assert(t.skip(k + 1) =~= s.skip(k));
    assert(s.take(k) + s.skip(k) =~= s);
}

}
