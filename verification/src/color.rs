//! Terminal highlighting: an enabled/disabled switch around three
//! foreground colours.  Disabled mode is the identity transform.

use vstd::prelude::*;
use vstd::string::StringExecFns;

verus! {

#[derive(Clone, Copy, Debug)]
pub enum ColorMode {
    Colored,
    /// No colors.
    Plain,
}

/// The three highlight colours the renderer uses.
#[derive(Clone, Copy, Debug)]
pub enum Tint {
    Yellow,
    Red,
    Green,
}

/// The two-digit ANSI foreground code of a tint.
pub open spec fn color_code(t: Tint) -> Seq<char> {
    match t {
        Tint::Red => seq!['3', '1'],
        Tint::Green => seq!['3', '2'],
        Tint::Yellow => seq!['3', '3'],
    }
}

/// Text wrapped in the ANSI colour escape for `t` and the reset escape.
pub open spec fn painted(t: Tint, s: Seq<char>) -> Seq<char> {
    seq!['\u{1b}', '['].add(color_code(t)).push('m').add(s).add(seq!['\u{1b}', '[', '0', 'm'])
}

/// Relies on ansi_term's Colour::paint and its string rendering: a plain
/// foreground colour writes `ESC [ <code> m` before the text and the
/// reset sequence `ESC [ 0 m` after it.
#[verifier::external_body]
fn paint(t: Tint, s: &str) -> (r: String)
    ensures
        r@ == painted(t, s@),
{
    let colour = match t {
        Tint::Yellow => ansi_term::Colour::Yellow,
        Tint::Red => ansi_term::Colour::Red,
        Tint::Green => ansi_term::Colour::Green,
    };
    colour.paint(s).to_string()
}

impl ColorMode {
    /// The text as this mode shows it in the given tint: painted when
    /// colored, unchanged when plain.
    pub open spec fn spec_colored(self, t: Tint, s: Seq<char>) -> Seq<char> {
        match self {
            ColorMode::Colored => painted(t, s),
            ColorMode::Plain => s,
        }
    }

    pub fn yellow(&self, s: &str) -> (r: String)
        ensures
            r@ == self.spec_colored(Tint::Yellow, s@),
    {
        match self {
            ColorMode::Colored => paint(Tint::Yellow, s),
            ColorMode::Plain => String::from_str(s),
        }
    }

    pub fn red(&self, s: &str) -> (r: String)
        ensures
            r@ == self.spec_colored(Tint::Red, s@),
    {
        match self {
            ColorMode::Colored => paint(Tint::Red, s),
            ColorMode::Plain => String::from_str(s),
        }
    }

    pub fn green(&self, s: &str) -> (r: String)
        ensures
            r@ == self.spec_colored(Tint::Green, s@),
    {
        match self {
            ColorMode::Colored => paint(Tint::Green, s),
            ColorMode::Plain => String::from_str(s),
        }
    }
}

} // verus!
