//! Indentation units: one two-character unit per nesting level.

use vstd::prelude::*;
use vstd::string::StringExecFns;

verus! {

/// `levels` repetitions of the two-character unit `c0 c1`.
pub open spec fn indent_view(c0: char, c1: char, levels: nat) -> Seq<char> {
    Seq::new(
        2 * levels,
        |i: int|
            if i % 2 == 0 {
                c0
            } else {
                c1
            },
    )
}

/// A dotted indent: one `· ` unit per level.
pub fn dotted(levels: usize) -> (r: String)
    ensures
        r@ == indent_view('\u{b7}', ' ', levels as nat),
{
    let mut out = String::new();
    let mut i: usize = 0;
    proof {
        assert(out@ =~= indent_view('\u{b7}', ' ', 0));
    }
    while i < levels
        invariant
            i <= levels,
            out@ == indent_view('\u{b7}', ' ', i as nat),
        decreases levels - i,
    {
        out.append("\u{b7} ");
        i = i + 1;
        proof {
            reveal_strlit("\u{b7} ");
            assert(out@ =~= indent_view('\u{b7}', ' ', i as nat));
        }
    }
    out
}

/// A plain indent: two spaces per level.
pub fn spaced(levels: usize) -> (r: String)
    ensures
        r@ == indent_view(' ', ' ', levels as nat),
{
    let mut out = String::new();
    let mut i: usize = 0;
    proof {
        assert(out@ =~= indent_view(' ', ' ', 0));
    }
    while i < levels
        invariant
            i <= levels,
            out@ == indent_view(' ', ' ', i as nat),
        decreases levels - i,
    {
        out.append("  ");
        i = i + 1;
        proof {
            reveal_strlit("  ");
            assert(out@ =~= indent_view(' ', ' ', i as nat));
        }
    }
    out
}

} // verus!
