//! The system clipboard, reached through the terminal: OSC 52 carries the
//! text, base64-encoded, to whatever terminal the user sits at.

use vstd::prelude::*;
use vstd::string::StringSliceAdditionalSpecFns;
use vstd::utf8::encode_utf8;
use base64::Engine;
use crate::text::push_str;

verus! {

/// The character of the standard base64 alphabet for a six-bit value.
pub open spec fn base64_char(v: int) -> char {
    if v < 26 {
        (65 + v) as char
    } else if v < 52 {
        (97 + v - 26) as char
    } else if v < 62 {
        (48 + v - 52) as char
    } else if v == 62 {
        '+'
    } else {
        '/'
    }
}

/// `bytes` in standard base64 (RFC 4648, with padding): each three bytes as
/// four characters, a shorter tail padded with `=`.
pub open spec fn base64_standard(bytes: Seq<u8>) -> Seq<char>
    decreases bytes.len(),
{
    if bytes.len() == 0 {
        Seq::empty()
    } else if bytes.len() == 1 {
        let a = bytes[0] as int;
        seq![base64_char(a / 4), base64_char((a % 4) * 16), '=', '=']
    } else if bytes.len() == 2 {
        let a = bytes[0] as int;
        let b = bytes[1] as int;
        seq![base64_char(a / 4), base64_char((a % 4) * 16 + b / 16), base64_char((b % 16) * 4), '=']
    } else {
        let a = bytes[0] as int;
        let b = bytes[1] as int;
        let c = bytes[2] as int;
        seq![base64_char(a / 4), base64_char((a % 4) * 16 + b / 16), base64_char((b % 16) * 4 + c / 64), base64_char(c % 64)]
            + base64_standard(bytes.skip(3))
    }
}

/// `bytes` in standard base64, with `base64`'s `STANDARD` engine: the RFC 4648
/// alphabet, padded. The engine panics when the length of the encoding does
/// not fit in a `usize`.
#[verifier::external_body]
fn encode_base64(bytes: &[u8]) -> (s: String)
    requires
        (bytes@.len() / 3) * 4 + 4 <= usize::MAX,
    ensures
        s@ == base64_standard(bytes@),
{
    base64::engine::general_purpose::STANDARD.encode(bytes)
}

/// The OSC 52 sequence that asks the terminal to put `text` on the
/// clipboard.
pub open spec fn osc52_text(text: Seq<char>) -> Seq<char> {
    "\u{1b}]52;c;"@ + base64_standard(encode_utf8(text)) + "\u{7}"@
}

/// The terminal sequence that puts `text` on the clipboard.
pub fn osc52(text: &str) -> (sequence: String)
    requires
        (encode_utf8(text@).len() / 3) * 4 + 4 <= usize::MAX,
    ensures
        sequence@ == osc52_text(text@),
{
    let bytes = text.as_bytes();
    proof {
        assert(text.spec_bytes() == encode_utf8(text@));
    }
    let encoded = encode_base64(bytes);
    let mut sequence = String::new();
    push_str(&mut sequence, "\u{1b}]52;c;");
    push_str(&mut sequence, encoded.as_str());
    push_str(&mut sequence, "\u{7}");
    assert(sequence@ =~= osc52_text(text@));
    sequence
}

} // verus!
