//! The value renderer: turns each entry of the decoder's stream into one
//! line of display text — numeric reinterpretation of fixed-width values,
//! the string-or-hex heuristic with truncation for bytes, and bracket
//! lines for nested messages, indented by an explicit depth counter.

use vstd::prelude::*;
use vstd::string::StringExecFns;

use crate::color::{ColorMode, Tint};
use crate::indent::{dotted, spaced, indent_view};
use crate::numfmt::{dec_of, dec_u128, hex_of, hex_encode};
use crate::parse::{Entry, EntryS, EntryValue, EntryValueS};
use crate::select_query::{SelectQuery, is_selected, is_prefix_of};
use crate::wire_type_2::{show_as, escape_string, escaped_form, all_bytes_display_safe, ShowAs};

verus! {

/// How the path column of each line is styled.
#[derive(Clone, Copy, PartialEq, Eq, Debug)]
pub enum IndentStyle {
    Space,
    Dot,
    Path,
}

/// Hex output of a bytes entry is cut at this many bytes unless full
/// output is requested.
pub const MAX_HEX_BYTES: usize = 256;

pub open spec fn sep_view() -> Seq<char> {
    seq![' ', '/', ' ']
}

/// The up-to-three interpretations of a 64-bit pattern, joined by a
/// separator: unsigned decimal; signed decimal only when negative; the
/// caller-rendered floating-point text.
pub open spec fn fixed64_view(v: u64, ft: Seq<char>, color: ColorMode) -> Seq<char> {
    let unsigned = color.spec_colored(Tint::Yellow, dec_of(v as nat));
    let float = color.spec_colored(Tint::Yellow, ft);
    if v >= 0x8000000000000000 {
        let signed = color.spec_colored(
            Tint::Yellow,
            seq!['-'].add(dec_of((0x10000000000000000 - v) as nat)),
        );
        unsigned.add(sep_view()).add(signed).add(sep_view()).add(float)
    } else {
        unsigned.add(sep_view()).add(float)
    }
}

/// As `fixed64_view`, for a 32-bit pattern.
pub open spec fn fixed32_view(v: u32, ft: Seq<char>, color: ColorMode) -> Seq<char> {
    let unsigned = color.spec_colored(Tint::Yellow, dec_of(v as nat));
    let float = color.spec_colored(Tint::Yellow, ft);
    if v >= 0x80000000 {
        let signed = color.spec_colored(
            Tint::Yellow,
            seq!['-'].add(dec_of((0x100000000 - v) as nat)),
        );
        unsigned.add(sep_view()).add(signed).add(sep_view()).add(float)
    } else {
        unsigned.add(sep_view()).add(float)
    }
}

/// The display text of a bytes payload: quote-minimized escaped text for
/// displayable UTF-8, hex otherwise, the hex cut at `MAX_HEX_BYTES` with
/// a trailing ellipsis unless full output is requested.
pub open spec fn bytes_text_view(bs: Seq<u8>, full: bool) -> Seq<char> {
    if vstd::utf8::valid_utf8(bs) && all_bytes_display_safe(bs) {
        escaped_form(vstd::utf8::decode_utf8(bs))
    } else if full || bs.len() <= MAX_HEX_BYTES {
        hex_of(bs)
    } else {
        hex_of(bs.take(MAX_HEX_BYTES as int)).push('\u{2026}')
    }
}

/// Renders a varint value: its unsigned decimal, highlighted.
pub fn print_int(i: u128, color: ColorMode) -> (r: String)
    ensures
        r@ == color.spec_colored(Tint::Red, dec_of(i as nat)),
{
    let text = dec_u128(i);
    color.red(text.as_str())
}

fn sep_str() -> (r: &'static str)
    ensures
        r@ == sep_view(),
{
    proof {
        reveal_strlit(" / ");
    }
    " / "
}

/// Renders a 64-bit pattern: unsigned decimal, signed decimal when
/// negative, and the caller-supplied floating-point text, highlighted and
/// joined by ` / `.
pub fn print_fixed64(v: u64, float_text: &str, color: ColorMode) -> (r: String)
    ensures
        r@ == fixed64_view(v, float_text@, color),
{
    let unsigned = dec_u128(v as u128);
    let mut out = color.yellow(unsigned.as_str());
    out.append(sep_str());
    if v >= 0x8000000000000000 {
        let magnitude = (u64::MAX - v) as u128 + 1;
        let mut signed = String::from_str("-");
        let digits = dec_u128(magnitude);
        signed.append(digits.as_str());
        proof {
            reveal_strlit("-");
            assert(signed@ =~= seq!['-'].add(dec_of((0x10000000000000000 - v) as nat)));
        }
        let painted = color.yellow(signed.as_str());
        out.append(painted.as_str());
        out.append(sep_str());
    }
    let float_painted = color.yellow(float_text);
    out.append(float_painted.as_str());
    out
}

/// Renders a 32-bit pattern, as `print_fixed64` does for 64 bits.
pub fn print_fixed32(v: u32, float_text: &str, color: ColorMode) -> (r: String)
    ensures
        r@ == fixed32_view(v, float_text@, color),
{
    let unsigned = dec_u128(v as u128);
    let mut out = color.yellow(unsigned.as_str());
    out.append(sep_str());
    if v >= 0x80000000 {
        let magnitude = (u32::MAX - v) as u128 + 1;
        let mut signed = String::from_str("-");
        let digits = dec_u128(magnitude);
        signed.append(digits.as_str());
        proof {
            reveal_strlit("-");
            assert(signed@ =~= seq!['-'].add(dec_of((0x100000000 - v) as nat)));
        }
        let painted = color.yellow(signed.as_str());
        out.append(painted.as_str());
        out.append(sep_str());
    }
    let float_painted = color.yellow(float_text);
    out.append(float_painted.as_str());
    out
}

/// Renders a bytes payload, highlighted.
pub fn print_bytes(bytes: &[u8], color: ColorMode, full: bool) -> (r: String)
    ensures
        r@ == color.spec_colored(Tint::Green, bytes_text_view(bytes@, full)),
{
    match show_as(bytes) {
        ShowAs::String(s) => {
            let escaped = escape_string(s);
            color.green(escaped.as_str())
        },
        ShowAs::Bytes(b) => {
            if full || b.len() <= MAX_HEX_BYTES {
                let text = hex_encode(b);
                color.green(text.as_str())
            } else {
                let mut text = hex_encode(vstd::slice::slice_subrange(b, 0, MAX_HEX_BYTES));
                text.append("\u{2026}");
                proof {
                    reveal_strlit("\u{2026}");
                    assert(b@.subrange(0, MAX_HEX_BYTES as int) =~= b@.take(MAX_HEX_BYTES as int));
                    assert(text@ =~= hex_of(b@.take(MAX_HEX_BYTES as int)).push('\u{2026}'));
                }
                color.green(text.as_str())
            }
        },
    }
}

/// The path column of one entry: for the dotted and spaced styles, one
/// indent unit per level above the last and then the final component; for
/// the full-path style, every component dot-prefixed.
pub open spec fn path_view(p: Seq<u64>, style: IndentStyle) -> Seq<char>
    decreases p.len(),
{
    match style {
        IndentStyle::Dot => if p.len() == 0 {
            Seq::empty()
        } else {
            indent_view('\u{b7}', ' ', (p.len() - 1) as nat).add(dec_of(p.last() as nat))
        },
        IndentStyle::Space => if p.len() == 0 {
            Seq::empty()
        } else {
            indent_view(' ', ' ', (p.len() - 1) as nat).add(dec_of(p.last() as nat))
        },
        IndentStyle::Path => if p.len() == 0 {
            Seq::empty()
        } else {
            path_view(p.drop_last(), style).push('.').add(dec_of(p.last() as nat))
        },
    }
}

/// Renders the path column of an entry whose (stripped) path is `path`.
pub fn print_path(path: &[u64], style: IndentStyle) -> (r: String)
    ensures
        r@ == path_view(path@, style),
{
    match style {
        IndentStyle::Dot => {
            if path.len() == 0 {
                let out = String::new();
                proof {
                    assert(out@ =~= path_view(path@, style));
                }
                out
            } else {
                let mut out = dotted(path.len() - 1);
                let digits = dec_u128(path[path.len() - 1] as u128);
                out.append(digits.as_str());
                out
            }
        },
        IndentStyle::Space => {
            if path.len() == 0 {
                let out = String::new();
                proof {
                    assert(out@ =~= path_view(path@, style));
                }
                out
            } else {
                let mut out = spaced(path.len() - 1);
                let digits = dec_u128(path[path.len() - 1] as u128);
                out.append(digits.as_str());
                out
            }
        },
        IndentStyle::Path => {
            let mut out = String::new();
            let mut i: usize = 0;
            proof {
                assert(out@ =~= path_view(path@.take(0), style));
            }
            while i < path.len()
                invariant
                    i <= path@.len(),
                    style is Path,
                    out@ == path_view(path@.take(i as int), style),
                decreases path@.len() - i,
            {
                out.append(".");
                let digits = dec_u128(path[i] as u128);
                out.append(digits.as_str());
                i = i + 1;
                proof {
                    reveal_strlit(".");
                    let p = path@.take(i as int);
                    assert(p.drop_last() =~= path@.take(i - 1));
                    assert(p.last() == path@[i - 1]);
                    assert((path@[i - 1] as u128) as nat == path@[i - 1] as nat);
                    assert(out@ =~= path_view(p.drop_last(), style).push('.').add(
                        dec_of(p.last() as nat),
                    ));
                    assert(out@ =~= path_view(p, style));
                }
            }
            proof {
                assert(path@.take(path@.len() as int) =~= path@);
            }
            out
        },
    }
}

/// The closing-brace line for a nested message whose (stripped) path is
/// `p`: the brace indented to the bracket's structural depth, derived
/// from the path length; the full-path style carries no indentation.
pub open spec fn close_view(p: Seq<u64>, style: IndentStyle) -> Seq<char> {
    match style {
        IndentStyle::Dot => indent_view('\u{b7}', ' ', (p.len() - 1) as nat).push('}'),
        IndentStyle::Space => indent_view(' ', ' ', (p.len() - 1) as nat).push('}'),
        IndentStyle::Path => seq!['}'],
    }
}

pub open spec fn opt_str_view(o: Option<&str>) -> Option<Seq<char>> {
    match o {
        Some(s) => Some(s@),
        None => None,
    }
}

/// The output line of one entry under a selection query, or `None` when
/// the query does not select it or it is a bracket marker at the stripped
/// root.  `ft` is the caller-rendered floating-point interpretation of a
/// fixed-width value.
pub open spec fn line_view(
    e: EntryS,
    q: Seq<u64>,
    style: IndentStyle,
    color: ColorMode,
    full: bool,
    ft: Option<Seq<char>>,
) -> Option<Seq<char>> {
    if !is_prefix_of(q, e.path) {
        None
    } else {
        let stripped = e.path.skip(q.len() as int);
        let head = path_view(stripped, style);
        match e.value {
            EntryValueS::Fixed64(v) => Some(
                head.add(": (64 bit) "@).add(fixed64_view(v, ft->Some_0, color)),
            ),
            EntryValueS::Fixed32(v) => Some(
                head.add(": (32 bit) "@).add(fixed32_view(v, ft->Some_0, color)),
            ),
            EntryValueS::Varint(v) => Some(
                head.add(": "@).add(color.spec_colored(Tint::Red, dec_of(v as nat))),
            ),
            EntryValueS::Bytes(bs) => Some(
                head.add(": ("@).add(dec_of(bs.len())).add(" bytes) "@).add(
                    color.spec_colored(Tint::Green, bytes_text_view(bs, full)),
                ),
            ),
            EntryValueS::OpenNested => if stripped.len() == 0 {
                None
            } else {
                Some(head.add(" {"@))
            },
            EntryValueS::CloseNested => if stripped.len() == 0 {
                None
            } else {
                Some(close_view(stripped, style))
            },
        }
    }
}

/// Renders one entry into its output line, or `None` when the query does
/// not select it or it is a bracket marker at the stripped root.  For a
/// fixed-width value the caller passes the floating-point interpretation
/// of the same bit pattern, already rendered as text.
pub fn render_line(
    entry: &Entry,
    query: &SelectQuery,
    style: IndentStyle,
    color: ColorMode,
    full: bool,
    float_text: Option<&str>,
) -> (r: Option<String>)
    requires
        entry.value is Fixed64 || entry.value is Fixed32 ==> float_text is Some,
    ensures
        match r {
            Some(line) => line_view(
                entry@,
                query.0@,
                style,
                color,
                full,
                opt_str_view(float_text),
            ) == Some(line@),
            None => line_view(entry@, query.0@, style, color, full, opt_str_view(float_text))
                is None,
        },
{
    if !is_selected(entry, query) {
        return None;
    }
    let stripped = vstd::slice::slice_subrange(
        entry.path.as_slice(),
        query.0.len(),
        entry.path.len(),
    );
    proof {
        assert(stripped@ =~= entry.path@.skip(query.0@.len() as int));
    }
    let mut head = print_path(stripped, style);
    proof {
        reveal_strlit(": (64 bit) ");
        reveal_strlit(": (32 bit) ");
        reveal_strlit(": ");
        reveal_strlit(": (");
        reveal_strlit(" bytes) ");
        reveal_strlit(" {");
        reveal_strlit("}");
    }
    match &entry.value {
        EntryValue::Fixed64(v) => {
            let ft = match float_text {
                Some(t) => t,
                None => "",
            };
            head.append(": (64 bit) ");
            let value = print_fixed64(*v, ft, color);
            head.append(value.as_str());
            Some(head)
        },
        EntryValue::Fixed32(v) => {
            let ft = match float_text {
                Some(t) => t,
                None => "",
            };
            head.append(": (32 bit) ");
            let value = print_fixed32(*v, ft, color);
            head.append(value.as_str());
            Some(head)
        },
        EntryValue::Varint(v) => {
            head.append(": ");
            let value = print_int(*v, color);
            head.append(value.as_str());
            Some(head)
        },
        EntryValue::Bytes(bs) => {
            head.append(": (");
            let len_digits = dec_u128(bs.len() as u128);
            head.append(len_digits.as_str());
            head.append(" bytes) ");
            let value = print_bytes(bs.as_slice(), color, full);
            head.append(value.as_str());
            Some(head)
        },
        EntryValue::OpenNested => {
            if stripped.len() == 0 {
                return None;
            }
            head.append(" {");
            Some(head)
        },
        EntryValue::CloseNested => {
            if stripped.len() == 0 {
                return None;
            }
            let mut close = match style {
                IndentStyle::Dot => dotted(stripped.len() - 1),
                IndentStyle::Space => spaced(stripped.len() - 1),
                IndentStyle::Path => String::new(),
            };
            close.append("}");
            proof {
                assert(close@ =~= close_view(stripped@, style));
            }
            Some(close)
        },
    }
}

} // verus!
