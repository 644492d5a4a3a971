//! The select/path filter: a dotted path expression such as `.1.2` parsed
//! into a numeric path, and the prefix test that decides which entries it
//! keeps.

use vstd::prelude::*;
use vstd::string::StrSliceExecFns;

use crate::parse::Entry;

verus! {

/// A numeric path used as a filter: an entry is selected iff its path
/// starts with the query.  The empty query selects everything.
#[derive(Default, Clone, PartialEq, Debug)]
pub struct SelectQuery(pub Vec<u64>);

/// Why a path component failed to parse as an unsigned integer.  The
/// variants mirror how decimal strings are conventionally rejected: first
/// offending condition in a left-to-right scan wins.
#[derive(Clone, Copy, PartialEq, Eq, Debug)]
pub enum NumErr {
    Empty,
    InvalidDigit,
    Overflow,
}

pub open spec fn err_message(e: NumErr) -> Seq<char> {
    match e {
        NumErr::Empty => "cannot parse integer from empty string"@,
        NumErr::InvalidDigit => "invalid digit found in string"@,
        NumErr::Overflow => "number too large to fit in target type"@,
    }
}

pub open spec fn is_digit(c: char) -> bool {
    48 <= c as u32 <= 57
}

pub open spec fn digit_val(c: char) -> int {
    c as u32 - 48
}

/// Left-to-right decimal accumulation over `s[i..]` starting from `acc`:
/// a non-digit stops with `InvalidDigit`, a value past 64 bits with
/// `Overflow`, the end of the range with the accumulated value.
pub open spec fn spec_parse_u64_loop(s: Seq<char>, i: int, acc: u64) -> Result<u64, NumErr>
    decreases s.len() - i,
{
    if i < 0 || i >= s.len() {
        Ok(acc)
    } else if !is_digit(s[i]) {
        Err(NumErr::InvalidDigit)
    } else if acc * 10 + digit_val(s[i]) > u64::MAX {
        Err(NumErr::Overflow)
    } else {
        spec_parse_u64_loop(s, i + 1, (acc * 10 + digit_val(s[i])) as u64)
    }
}

/// The value of the decimal component `s[lo..hi]`: an optional leading
/// `+`, then one or more digits.  An empty component is `Empty`; a sign
/// with nothing after it is `InvalidDigit`.
pub open spec fn spec_parse_u64(s: Seq<char>, lo: int, hi: int) -> Result<u64, NumErr> {
    if lo >= hi {
        Err(NumErr::Empty)
    } else {
        let body = if s[lo] == '+' {
            lo + 1
        } else {
            lo
        };
        if body >= hi {
            Err(NumErr::InvalidDigit)
        } else {
            spec_parse_u64_loop(s.subrange(lo, hi), body - lo, 0)
        }
    }
}

/// Index of the first `.` at or after `i`, or the length of `s`.
pub open spec fn next_dot(s: Seq<char>, i: int) -> int
    decreases s.len() - i,
{
    if i < 0 || i >= s.len() {
        s.len() as int
    } else if s[i] == '.' {
        i
    } else {
        next_dot(s, i + 1)
    }
}

/// The values of the dot-separated components of `s[i..]`, or the error of
/// the leftmost component that fails.
pub open spec fn spec_split_parse(s: Seq<char>, i: int) -> Result<Seq<u64>, NumErr>
    decreases s.len() - i,
{
    if !(0 <= i <= s.len()) {
        Err(NumErr::Empty)
    } else {
        let j = next_dot(s, i);
        match spec_parse_u64(s, i, j) {
            Err(e) => Err(e),
            Ok(v) => if j >= s.len() {
                Ok(seq![v])
            } else if j + 1 <= s.len() && j >= i {
                match spec_split_parse(s, j + 1) {
                    Err(e) => Err(e),
                    Ok(rest) => Ok(seq![v].add(rest)),
                }
            } else {
                Err(NumErr::Empty)
            },
        }
    }
}

/// What a query string parses to: one optional leading `.` is stripped; an
/// empty remainder is the empty query; otherwise every dot-separated
/// component must be a decimal integer.
pub open spec fn spec_parse_query(s: Seq<char>) -> Result<Seq<u64>, NumErr> {
    let start: int = if s.len() >= 1 && s[0] == '.' {
        1
    } else {
        0
    };
    if start >= s.len() {
        Ok(Seq::empty())
    } else {
        spec_split_parse(s, start)
    }
}

/// Parses the decimal component `s[lo..hi]` (character indices).
fn parse_component(s: &str, lo: usize, hi: usize) -> (r: Result<u64, NumErr>)
    requires
        lo <= hi <= s@.len(),
    ensures
        r == spec_parse_u64(s@, lo as int, hi as int),
{
    if lo == hi {
        return Err(NumErr::Empty);
    }
    let ghost sub = s@.subrange(lo as int, hi as int);
    let first = s.get_char(lo);
    let body: usize = if first == '+' {
        lo + 1
    } else {
        lo
    };
    if body == hi {
        return Err(NumErr::InvalidDigit);
    }
    let mut acc: u64 = 0;
    let mut i: usize = body;
    loop
        invariant
            lo <= body <= i <= hi <= s@.len(),
            sub == s@.subrange(lo as int, hi as int),
            spec_parse_u64_loop(sub, body - lo, 0) == spec_parse_u64_loop(sub, i - lo, acc),
            spec_parse_u64(s@, lo as int, hi as int) == spec_parse_u64_loop(sub, body - lo, 0),
        decreases hi - i,
    {
        if i == hi {
            return Ok(acc);
        }
        let c = s.get_char(i);
        proof {
            assert(sub[i - lo] == s@[i as int]);
        }
        let u = c as u32;
        if u < 48 || u > 57 {
            return Err(NumErr::InvalidDigit);
        }
        let d = (u - 48) as u64;
        if acc > (u64::MAX - d) / 10 {
            return Err(NumErr::Overflow);
        }
        acc = acc * 10 + d;
        i = i + 1;
    }
}

/// Character index of the first `.` at or after `i`, or the length of `s`.
fn find_dot(s: &str, i: usize, n: usize) -> (r: usize)
    requires
        i <= n,
        n == s@.len(),
    ensures
        r == next_dot(s@, i as int),
        i <= r <= n,
    decreases n - i,
{
    if i == n {
        n
    } else if s.get_char(i) == '.' {
        i
    } else {
        find_dot(s, i + 1, n)
    }
}

impl SelectQuery {
    /// Parses a dotted path expression.  An error carries the message for
    /// the leftmost component that is not a decimal integer.
    pub fn parse(input: &str) -> (r: Result<Self, String>)
        ensures
            match r {
                Ok(q) => spec_parse_query(input@) == Ok::<Seq<u64>, NumErr>(q.0@),
                Err(m) => spec_parse_query(input@) matches Err(e) && m@ == err_message(e),
            },
    {
        let n = input.unicode_len();
        let start: usize = if n >= 1 && input.get_char(0) == '.' {
            1
        } else {
            0
        };
        if start >= n {
            let q = SelectQuery(Vec::new());
            proof {
                assert(q.0@ =~= Seq::<u64>::empty());
            }
            return Ok(q);
        }
        let mut out: Vec<u64> = Vec::new();
        let mut lo = start;
        proof {
            if spec_split_parse(input@, lo as int) is Ok {
                let rest = spec_split_parse(input@, lo as int)->Ok_0;
                assert(out@.add(rest) =~= rest);
            }
        }
        loop
            invariant
                start <= lo <= n,
                n == input@.len(),
                start < n,
                match spec_split_parse(input@, lo as int) {
                    Ok(rest) => spec_parse_query(input@) == Ok::<Seq<u64>, NumErr>(
                        out@.add(rest),
                    ),
                    Err(e) => spec_parse_query(input@) == Err::<Seq<u64>, NumErr>(e),
                },
            decreases n - lo,
        {
            let hi = find_dot(input, lo, n);
            match parse_component(input, lo, hi) {
                Err(e) => {
                    return Err(error_string(e));
                },
                Ok(v) => {
                    let ghost out_before = out@;
                    out.push(v);
                    proof {
                        assert(out@ =~= out_before.add(seq![v]));
                    }
                    if hi == n {
                        return Ok(SelectQuery(out));
                    }
                    proof {
                        let rest1 = spec_split_parse(input@, hi + 1);
                        if rest1 is Ok {
                            assert(out_before.add(seq![v].add(rest1->Ok_0)) =~= out@.add(
                                rest1->Ok_0,
                            ));
                        }
                    }
                    lo = hi + 1;
                },
            }
        }
    }
}

/// The conventional message for each parse failure.
fn error_string(e: NumErr) -> (r: String)
    ensures
        r@ == err_message(e),
{
    match e {
        NumErr::Empty => String::from_str("cannot parse integer from empty string"),
        NumErr::InvalidDigit => String::from_str("invalid digit found in string"),
        NumErr::Overflow => String::from_str("number too large to fit in target type"),
    }
}

/// `q` is an initial segment of `p`.
pub open spec fn is_prefix_of(q: Seq<u64>, p: Seq<u64>) -> bool {
    q.len() <= p.len() && p.take(q.len() as int) == q
}

/// The empty query is a prefix of every path: it selects everything.
pub proof fn lemma_empty_query_selects_all(p: Seq<u64>)
    ensures
        is_prefix_of(Seq::empty(), p),
{
    assert(p.take(0) =~= Seq::<u64>::empty());
}

/// Check if the given entry is selected by the select query: the query
/// must be a prefix of the entry's path.
pub fn is_selected(entry: &Entry, query: &SelectQuery) -> (r: bool)
    ensures
        r == is_prefix_of(query.0@, entry.path@),
{
    if query.0.len() > entry.path.len() {
        proof {
            assert(!is_prefix_of(query.0@, entry.path@));
        }
        return false;
    }
    let mut i: usize = 0;
    loop
        invariant
            0 <= i <= query.0.len() <= entry.path.len(),
            forall|m: int| 0 <= m < i ==> query.0@[m] == entry.path@[m],
        decreases query.0.len() - i,
    {
        if i == query.0.len() {
            proof {
                assert(entry.path@.take(query.0@.len() as int) =~= query.0@);
            }
            return true;
        }
        if query.0[i] != entry.path[i] {
            proof {
                assert(entry.path@.take(query.0@.len() as int)[i as int] == entry.path@[i as int]);
            }
            return false;
        }
        i = i + 1;
    }
}

/// Index of the first character of `s[i..]` that is not a `.`, or the
/// length of `s`.
pub open spec fn skip_dots(s: Seq<char>, i: int) -> int
    decreases s.len() - i,
{
    if i < 0 || i >= s.len() {
        s.len() as int
    } else if s[i] == '.' {
        skip_dots(s, i + 1)
    } else {
        i
    }
}

pub proof fn lemma_skip_dots_bounds(s: Seq<char>, i: int)
    requires
        0 <= i <= s.len(),
    ensures
        i <= skip_dots(s, i) <= s.len(),
    decreases s.len() - i,
{
    if i < s.len() && s[i] == '.' {
        lemma_skip_dots_bounds(s, i + 1);
    }
}

/// Parses a select path the lenient way: every leading `.` is stripped,
/// an all-dots or empty input is the empty path, and each remaining
/// component must be a decimal integer, which the caller guarantees.
pub fn parse_select(input: &str) -> (r: Vec<u64>)
    requires
        ({
            let s = input@;
            let start = skip_dots(s, 0);
            start >= s.len() || spec_split_parse(s, start) is Ok
        }),
    ensures
        ({
            let s = input@;
            let start = skip_dots(s, 0);
            if start >= s.len() {
                r@ == Seq::<u64>::empty()
            } else {
                spec_split_parse(s, start) == Ok::<Seq<u64>, NumErr>(r@)
            }
        }),
{
    let n = input.unicode_len();
    let mut start: usize = 0;
    while start < n && input.get_char(start) == '.'
        invariant
            0 <= start <= n,
            n == input@.len(),
            skip_dots(input@, 0) == skip_dots(input@, start as int),
        decreases n - start,
    {
        start = start + 1;
    }
    proof {
        lemma_skip_dots_bounds(input@, start as int);
        assert(skip_dots(input@, 0) == start);
    }
    if start >= n {
        return Vec::new();
    }
    let mut out: Vec<u64> = Vec::new();
    let mut lo = start;
    proof {
        if spec_split_parse(input@, lo as int) is Ok {
            let rest = spec_split_parse(input@, lo as int)->Ok_0;
            assert(out@.add(rest) =~= rest);
        }
    }
    loop
        invariant
            start <= lo <= n,
            n == input@.len(),
            start < n,
            start == skip_dots(input@, 0),
            spec_split_parse(input@, start as int) is Ok,
            match spec_split_parse(input@, lo as int) {
                Ok(rest) => spec_split_parse(input@, start as int) == Ok::<Seq<u64>, NumErr>(
                    out@.add(rest),
                ),
                Err(e) => false,
            },
        decreases n - lo,
    {
        let hi = find_dot(input, lo, n);
        match parse_component(input, lo, hi) {
            Err(e) => {
                proof {
                    assert(false);
                }
                return Vec::new();
            },
            Ok(v) => {
                let ghost out_before = out@;
                out.push(v);
                proof {
                    assert(out@ =~= out_before.add(seq![v]));
                }
                if hi == n {
                    return out;
                }
                proof {
                    let rest1 = spec_split_parse(input@, hi + 1);
                    if rest1 is Ok {
                        assert(out_before.add(seq![v].add(rest1->Ok_0)) =~= out@.add(
                            rest1->Ok_0,
                        ));
                    }
                }
                lo = hi + 1;
            },
        }
    }
}

} // verus!
