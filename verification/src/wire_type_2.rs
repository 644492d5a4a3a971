//! Everything about wire type 2 (length-delimited) payloads that did not
//! decode as messages: the string-or-bytes display heuristic and the
//! quote-minimizing escaping of string payloads.

use vstd::prelude::*;
use vstd::string::StrSliceExecFns;
use vstd::string::StringExecFns;
use vstd::utf8::{valid_utf8, decode_utf8};

verus! {

/// How a payload should be shown: as escaped text, or as hex bytes.
#[derive(Debug, PartialEq)]
pub enum ShowAs<'a> {
    String(&'a str),
    Bytes(&'a [u8]),
}

/// Position `i` of `bs` does not start a control character: not a byte of
/// the C0 range other than tab, line feed and carriage return; not DEL;
/// and not a C1 control character, which in UTF-8 is exactly the byte
/// 0xC2 followed by a continuation byte in 0x80..=0x9F.
pub open spec fn byte_is_display_safe(bs: Seq<u8>, i: int) -> bool {
    &&& bs[i] >= 0x20 || bs[i] == 9 || bs[i] == 10 || bs[i] == 13
    &&& bs[i] != 0x7f
    &&& !(bs[i] == 0xc2 && i + 1 < bs.len() && 0x80 <= bs[i + 1] <= 0x9f)
}

pub open spec fn all_bytes_display_safe(bs: Seq<u8>) -> bool {
    forall|i: int| 0 <= i < bs.len() ==> #[trigger] byte_is_display_safe(bs, i)
}

/// Relies on std::str::from_utf8: it succeeds exactly on UTF-8 input, and
/// the returned slice holds that input's characters.
#[verifier::external_body]
fn bytes_as_str(bytes: &[u8]) -> (r: Option<&str>)
    ensures
        r is Some <==> valid_utf8(bytes@),
        r matches Some(s) ==> s@ == decode_utf8(bytes@),
{
    std::str::from_utf8(bytes).ok()
}

fn bytes_display_safe(bytes: &[u8]) -> (r: bool)
    ensures
        r == all_bytes_display_safe(bytes@),
{
    let mut i: usize = 0;
    while i < bytes.len()
        invariant
            i <= bytes@.len(),
            forall|m: int| 0 <= m < i ==> #[trigger] byte_is_display_safe(bytes@, m),
        decreases bytes@.len() - i,
    {
        let b = bytes[i];
        if b < 0x20 && b != 9 && b != 10 && b != 13 {
            proof {
                assert(!byte_is_display_safe(bytes@, i as int));
            }
            return false;
        }
        if b == 0x7f {
            proof {
                assert(!byte_is_display_safe(bytes@, i as int));
            }
            return false;
        }
        if b == 0xc2 && i + 1 < bytes.len() {
            let next = bytes[i + 1];
            if 0x80 <= next && next <= 0x9f {
                proof {
                    assert(!byte_is_display_safe(bytes@, i as int));
                }
                return false;
            }
        }
        i = i + 1;
    }
    true
}

/// Classifies a payload: text when it is valid UTF-8 and carries no
/// control character — nothing from the C0 range but tab, carriage
/// return and line feed, no DEL, and nothing from the C1 range — and
/// opaque bytes otherwise.  C0 controls and DEL occur in UTF-8 exactly as
/// their own bytes, C1 controls exactly as 0xC2-led byte pairs, so the
/// byte test decides the character test.
pub fn show_as<'a>(bytes: &'a [u8]) -> (r: ShowAs<'a>)
    ensures
        r is String <==> valid_utf8(bytes@) && all_bytes_display_safe(bytes@),
        r matches ShowAs::String(s) ==> s@ == decode_utf8(bytes@),
        r matches ShowAs::Bytes(b) ==> b@ == bytes@,
{
    match bytes_as_str(bytes) {
        Some(s) => {
            if bytes_display_safe(bytes) {
                ShowAs::String(s)
            } else {
                ShowAs::Bytes(bytes)
            }
        },
        None => ShowAs::Bytes(bytes),
    }
}

/// What snailquote's escaping returns for the given characters; the
/// result depends on them alone.
pub uninterp spec fn snail_escape_of(s: Seq<char>) -> Seq<char>;

/// Relies on snailquote::escape: shell-like quoting and escaping, a pure
/// function of the input characters.
#[verifier::external_body]
fn snail_escape(input: &str) -> (r: String)
    ensures
        r@ == snail_escape_of(input@),
{
    snailquote::escape(input).to_string()
}

/// The display form of a string payload.  Double quotes are preferred:
/// single quotes are used exactly when the content has a double quote but
/// no single quote, and then carry the content literally.  In the
/// double-quoted form the content is the escaping's own double-quoted
/// body where the escaping produced one, and the literal content
/// otherwise — content the escaping left bare or single-quoted holds no
/// character that needs an escape inside double quotes.
pub open spec fn escaped_form(s: Seq<char>) -> Seq<char> {
    let e = snail_escape_of(s);
    if s.contains('"') && !s.contains('\'') {
        seq!['\''].add(s).push('\'')
    } else if e.len() > 0 && e[0] == '"' {
        e
    } else {
        seq!['"'].add(s).push('"')
    }
}

fn str_contains_char(s: &str, target: char) -> (r: bool)
    ensures
        r == s@.contains(target),
{
    for c in it: s.chars()
        invariant
            it.seq() == s@,
            forall|m: int| 0 <= m < it.index() ==> it.seq()[m] != target,
    {
        if c == target {
            assert(s@.contains(target));
            return true;
        }
    }
    assert forall|m: int| 0 <= m < s@.len() implies s@[m] != target by {}
    assert(!s@.contains(target));
    false
}

/// Escapes a string payload for display, quote-minimizing: double quotes
/// unless the content has a double quote and no single quote, which
/// switches to single quotes.
pub fn escape_string(input: &str) -> (r: String)
    ensures
        r@ == escaped_form(input@),
{
    let has_double = str_contains_char(input, '"');
    let has_single = str_contains_char(input, '\'');
    if has_double && !has_single {
        let mut out = String::from_str("'");
        out.append(input);
        out.append("'");
        proof {
            reveal_strlit("'");
            assert(out@ =~= escaped_form(input@));
        }
        return out;
    }
    let escaped = snail_escape(input);
    if escaped.as_str().unicode_len() >= 1 {
        let c = escaped.as_str().get_char(0);
        if c == '"' {
            return escaped;
        }
    }
    let mut out = String::from_str("\"");
    out.append(input);
    out.append("\"");
    proof {
        reveal_strlit("\"");
        assert(out@ =~= escaped_form(input@));
    }
    out
}

} // verus!
