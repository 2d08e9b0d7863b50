//! Small verified utilities: line splitting and numeric parsing helpers, a 2D
//! coordinate type with a sparse grid map, greatest common divisor and least
//! common multiple, and a worker-pool model with graceful shutdown.

use regex::Captures;
use regex::Regex;
use vstd::prelude::*;

pub mod threads;
pub mod types;

verus! {

// ---------------------------------------------------------------------------
// Whitespace and trimming
// ---------------------------------------------------------------------------
/// The Unicode white-space characters, the set `str::trim` strips.
pub open spec fn is_space_char(c: char) -> bool {
    c == ' ' || c == '\t' || c == '\n' || c == '\r' || c == '\u{000b}' || c == '\u{000c}' || c
        == '\u{0085}' || c == '\u{00a0}' || c == '\u{1680}' || c == '\u{2000}' || c == '\u{2001}'
        || c == '\u{2002}' || c == '\u{2003}' || c == '\u{2004}' || c == '\u{2005}' || c
        == '\u{2006}' || c == '\u{2007}' || c == '\u{2008}' || c == '\u{2009}' || c == '\u{200a}'
        || c == '\u{2028}' || c == '\u{2029}' || c == '\u{202f}' || c == '\u{205f}' || c
        == '\u{3000}'
}

/// Whether this character is white space.
pub fn is_space(c: char) -> (r: bool)
    ensures
        r == is_space_char(c),
{
    c == ' ' || c == '\t' || c == '\n' || c == '\r' || c == '\u{000b}' || c == '\u{000c}' || c
        == '\u{0085}' || c == '\u{00a0}' || c == '\u{1680}' || c == '\u{2000}' || c == '\u{2001}'
        || c == '\u{2002}' || c == '\u{2003}' || c == '\u{2004}' || c == '\u{2005}' || c
        == '\u{2006}' || c == '\u{2007}' || c == '\u{2008}' || c == '\u{2009}' || c == '\u{200a}'
        || c == '\u{2028}' || c == '\u{2029}' || c == '\u{202f}' || c == '\u{205f}' || c
        == '\u{3000}'
}

/// The sequence without its leading white space.
pub open spec fn trim_start_spec(s: Seq<char>) -> Seq<char>
    decreases s.len(),
{
    if s.len() == 0 {
        s
    } else if is_space_char(s[0]) {
        trim_start_spec(s.subrange(1, s.len() as int))
    } else {
        s
    }
}

/// The sequence without its trailing white space.
pub open spec fn trim_end_spec(s: Seq<char>) -> Seq<char>
    decreases s.len(),
{
    if s.len() == 0 {
        s
    } else if is_space_char(s[s.len() - 1]) {
        trim_end_spec(s.subrange(0, s.len() - 1))
    } else {
        s
    }
}

/// The sequence without leading or trailing white space.
pub open spec fn trim_spec(s: Seq<char>) -> Seq<char> {
    trim_end_spec(trim_start_spec(s))
}

/// When everything before `lo` is space and `lo` itself is not, trimming the
/// start keeps exactly the suffix from `lo`.
proof fn lemma_trim_start_range(s: Seq<char>, lo: int)
    requires
        0 <= lo <= s.len(),
        forall|k: int| 0 <= k < lo ==> is_space_char(#[trigger] s[k]),
        lo < s.len() ==> !is_space_char(s[lo]),
    ensures
        trim_start_spec(s) == s.subrange(lo, s.len() as int),
    decreases lo,
{
    if lo == 0 {
        assert(trim_start_spec(s) =~= s.subrange(0, s.len() as int));
    } else {
        let t = s.subrange(1, s.len() as int);
        assert forall|k: int| 0 <= k < lo - 1 implies is_space_char(#[trigger] t[k]) by {
            assert(t[k] == s[k + 1]);
        }
        assert(lo - 1 < t.len() ==> !is_space_char(t[lo - 1]));
        lemma_trim_start_range(t, lo - 1);
        assert(is_space_char(s[0]));
        assert(t.subrange(lo - 1, t.len() as int) =~= s.subrange(lo, s.len() as int));
    }
}

/// When everything from `hi` on is space and the character before `hi` is
/// not, trimming the end keeps exactly the prefix up to `hi`.
proof fn lemma_trim_end_range(s: Seq<char>, hi: int)
    requires
        0 <= hi <= s.len(),
        forall|k: int| hi <= k < s.len() ==> is_space_char(#[trigger] s[k]),
        hi > 0 ==> !is_space_char(s[hi - 1]),
    ensures
        trim_end_spec(s) == s.subrange(0, hi),
    decreases s.len() - hi,
{
    if hi == s.len() {
        assert(trim_end_spec(s) =~= s.subrange(0, hi));
    } else {
        assert(is_space_char(s[s.len() - 1]));
        let t = s.subrange(0, s.len() - 1);
        assert forall|k: int| hi <= k < t.len() implies is_space_char(#[trigger] t[k]) by {
            assert(t[k] == s[k]);
        }
        assert(hi > 0 ==> !is_space_char(t[hi - 1]));
        lemma_trim_end_range(t, hi);
        assert(t.subrange(0, hi) =~= s.subrange(0, hi));
    }
}

/// The slice without leading or trailing white space.
pub fn trim_str(s: &str) -> (r: &str)
    ensures
        r@ == trim_spec(s@),
{
    let n = s.unicode_len();
    let mut lo: usize = 0;
    while lo < n && is_space(s.get_char(lo))
        invariant
            lo <= n,
            n == s@.len(),
            forall|k: int| 0 <= k < lo ==> is_space_char(#[trigger] s@[k]),
        decreases n - lo,
    {
        lo += 1;
    }
    let mut hi: usize = n;
    while hi > lo && is_space(s.get_char(hi - 1))
        invariant
            lo <= hi <= n,
            n == s@.len(),
            forall|k: int| hi <= k < n ==> is_space_char(#[trigger] s@[k]),
        decreases hi,
    {
        hi -= 1;
    }
    proof {
        lemma_trim_start_range(s@, lo as int);
        let t = s@.subrange(lo as int, s@.len() as int);
        assert forall|k: int| hi - lo <= k < t.len() implies is_space_char(#[trigger] t[k]) by {
            assert(t[k] == s@[k + lo]);
        }
        assert(hi - lo > 0 ==> !is_space_char(t[hi - lo - 1])) by {
            if hi - lo > 0 {
                assert(t[hi - lo - 1] == s@[hi - 1]);
            }
        }
        lemma_trim_end_range(t, hi - lo);
        assert(t.subrange(0, hi - lo) =~= s@.subrange(lo as int, hi as int));
    }
    s.substring_char(lo, hi)
}

// ---------------------------------------------------------------------------
// Splitting at a separator
// ---------------------------------------------------------------------------
/// Whether the separator occurs in `s` at position `i`.
pub open spec fn match_at(s: Seq<char>, sep: Seq<char>, i: int) -> bool {
    0 <= i && i + sep.len() <= s.len() && s.subrange(i, i + sep.len() as int) == sep
}

/// The first position at or after `i` where the separator occurs, or -1.
pub open spec fn first_match_from(s: Seq<char>, sep: Seq<char>, i: int) -> int
    decreases s.len() - i + 1,
{
    if i + sep.len() > s.len() {
        -1
    } else if match_at(s, sep, i) {
        i
    } else {
        first_match_from(s, sep, i + 1)
    }
}

/// A first match lies between `i` and the end, separator included.
proof fn lemma_first_match_bounds(s: Seq<char>, sep: Seq<char>, i: int)
    requires
        0 <= i,
    ensures
        first_match_from(s, sep, i) == -1 || (i <= first_match_from(s, sep, i)
            && first_match_from(s, sep, i) + sep.len() <= s.len()),
    decreases s.len() - i + 1,
{
    if i + sep.len() <= s.len() && !match_at(s, sep, i) {
        lemma_first_match_bounds(s, sep, i + 1);
    }
}

/// The pieces of `s` between consecutive, leftmost-first, non-overlapping
/// occurrences of the separator. An empty separator splits at every character
/// boundary, with a leading and a trailing empty piece.
pub open spec fn split_spec(s: Seq<char>, sep: Seq<char>) -> Seq<Seq<char>>
    decreases s.len(),
        via split_spec_dec
{
    if sep.len() == 0 {
        seq![Seq::<char>::empty()] + Seq::new(s.len(), |i: int| seq![s[i]]) + seq![
            Seq::<char>::empty(),
        ]
    } else {
        let m = first_match_from(s, sep, 0);
        if m < 0 {
            seq![s]
        } else {
            seq![s.subrange(0, m)] + split_spec(s.subrange(m + sep.len() as int, s.len() as int), sep)
        }
    }
}

#[via_fn]
proof fn split_spec_dec(s: Seq<char>, sep: Seq<char>) {
    if sep.len() > 0 {
        lemma_first_match_bounds(s, sep, 0);
    }
}

/// Relies on str::split with a string pattern: the pieces between
/// consecutive, leftmost-first, non-overlapping occurrences of the separator,
/// with an empty piece wherever two occurrences touch or one touches an end.
#[verifier::external_body]
fn split_by_sep(s: &str, sep: &str) -> (r: Vec<String>)
    requires
        sep@.len() > 0,
    ensures
        r@.map_values(|p: String| p@) == split_spec(s@, sep@),
{
    s.split(sep).map(|p| p.to_owned()).collect()
}

/// Splits `s` at every occurrence of the separator. With an empty separator
/// the string is split at every character boundary, so the result begins and
/// ends with an empty piece.
pub fn split_str(s: &str, sep: &str) -> (r: Vec<String>)
    ensures
        r@.map_values(|p: String| p@) == split_spec(s@, sep@),
{
    if sep.unicode_len() == 0 {
        let n = s.unicode_len();
        let mut out: Vec<String> = Vec::new();
        out.push(String::new());
        let mut i: usize = 0;
        while i < n
            invariant
                i <= n,
                n == s@.len(),
                out@.len() == i + 1,
                out@[0]@ == Seq::<char>::empty(),
                forall|k: int| 1 <= k <= i ==> (#[trigger] out@[k])@ == seq![s@[k - 1]],
            decreases n - i,
        {
            out.push(s.substring_char(i, i + 1).to_owned());
            i += 1;
            proof {
                assert(s@.subrange(i - 1, i as int) =~= seq![s@[i - 1]]);
            }
        }
        out.push(String::new());
        proof {
            let f = |p: String| p@;
            let target = seq![Seq::<char>::empty()] + Seq::new(
                s@.len(),
                |k: int| seq![s@[k]],
            ) + seq![Seq::<char>::empty()];
            assert forall|k: int| 0 <= k < out@.len() implies #[trigger] out@.map_values(f)[k]
                == target[k] by {
                assert(out@.map_values(f)[k] == out@[k]@);
                if k == 0 {
                } else if k <= n {
                    assert(out@[k]@ == seq![s@[k - 1]]);
                }
            }
            assert(out@.map_values(f) =~= target);
            assert(target =~= split_spec(s@, sep@));
        }
        out
    } else {
        split_by_sep(s, sep)
    }
}

/// The views of a sequence of owned strings.
pub open spec fn line_views(lines: Seq<String>) -> Seq<Seq<char>> {
    lines.map_values(|l: String| l@)
}

/// `split_lines` in one expression: the non-blank lines, each split at the
/// separator.
pub open spec fn split_lines_spec(lines: Seq<Seq<char>>, sep: Seq<char>) -> Seq<Seq<Seq<char>>>
    decreases lines.len(),
{
    if lines.len() == 0 {
        Seq::empty()
    } else {
        split_lines_spec(lines.drop_last(), sep) + (if trim_spec(lines.last()).len() > 0 {
            seq![split_spec(lines.last(), sep)]
        } else {
            Seq::<Seq<Seq<char>>>::empty()
        })
    }
}

/// Keeps the lines whose trimmed form is non-empty and splits each one at the
/// separator.
pub fn split_lines(lines: &Vec<String>, separator: &str) -> (r: Vec<Vec<String>>)
    ensures
        r@.map_values(|v: Vec<String>| v@.map_values(|p: String| p@)) == split_lines_spec(
            line_views(lines@),
            separator@,
        ),
{
    let mut out: Vec<Vec<String>> = Vec::new();
    let mut i: usize = 0;
    while i < lines.len()
        invariant
            i <= lines@.len(),
            out@.map_values(|v: Vec<String>| v@.map_values(|p: String| p@)) == split_lines_spec(
                line_views(lines@).take(i as int),
                separator@,
            ),
        decreases lines@.len() - i,
    {
        let line: &String = &lines[i];
        let t = trim_str(line.as_str());
        if t.unicode_len() > 0 {
            out.push(split_str(line.as_str(), separator));
        }
        i += 1;
        proof {
            let lv = line_views(lines@);
            assert(lv.take(i as int).drop_last() =~= lv.take(i - 1));
            assert(lv.take(i as int).last() == lines@[i - 1]@);
            assert(out@.map_values(|v: Vec<String>| v@.map_values(|p: String| p@))
                =~= split_lines_spec(lv.take(i as int), separator@));
        }
    }
    proof {
        assert(line_views(lines@).take(lines@.len() as int) =~= line_views(lines@));
    }
    out
}

// ---------------------------------------------------------------------------
// Parsing signed decimal numbers
// ---------------------------------------------------------------------------
/// Whether this character is an ASCII decimal digit.
pub open spec fn is_ascii_digit_char(c: char) -> bool {
    '0' as u32 <= c as u32 && c as u32 <= '9' as u32
}

/// Whether every character of the sequence is an ASCII decimal digit.
pub open spec fn all_digits(s: Seq<char>) -> bool {
    forall|i: int| 0 <= i < s.len() ==> is_ascii_digit_char(#[trigger] s[i])
}

/// The value of a sequence of ASCII decimal digits, most significant first.
pub open spec fn digits_val(s: Seq<char>) -> int
    decreases s.len(),
{
    if s.len() == 0 {
        0
    } else {
        digits_val(s.drop_last()) * 10 + (s.last() as u32 - '0' as u32)
    }
}

/// What parsing a signed 64-bit decimal number accepts and yields: an
/// optional leading '+' or '-' followed by one or more ASCII digits, with the
/// signed value in range.
pub open spec fn parse_i64_spec(s: Seq<char>) -> Option<i64> {
    let neg = s.len() > 0 && s[0] == '-';
    let ds = if s.len() > 0 && (s[0] == '-' || s[0] == '+') {
        s.subrange(1, s.len() as int)
    } else {
        s
    };
    if ds.len() == 0 || !all_digits(ds) {
        None
    } else {
        let v = digits_val(ds);
        if !neg && v <= i64::MAX {
            Some(v as i64)
        } else if neg && v <= 0x8000000000000000 {
            Some((-v) as i64)
        } else {
            None
        }
    }
}

/// Relies on str::parse::<i64>: accepts an optional leading '+' or '-'
/// followed by one or more ASCII digits, and rejects any other shape as well
/// as any value outside the i64 range.
#[verifier::external_body]
fn parse_decimal_i64(s: &str) -> (r: Option<i64>)
    ensures
        r == parse_i64_spec(s@),
{
    s.parse::<i64>().ok()
}

/// `lines_to_numbers` in one expression: the trimmed, non-blank lines, each
/// read as a signed decimal number.
pub open spec fn numbers_of(lines: Seq<Seq<char>>) -> Seq<i64>
    decreases lines.len(),
{
    if lines.len() == 0 {
        Seq::empty()
    } else {
        numbers_of(lines.drop_last()) + (if trim_spec(lines.last()).len() > 0 {
            seq![parse_i64_spec(trim_spec(lines.last()))->Some_0]
        } else {
            Seq::<i64>::empty()
        })
    }
}

/// Trims every line, skips the blank ones, and reads each remaining line as a
/// signed decimal number. Every non-blank line must hold such a number.
pub fn lines_to_numbers(lines: &Vec<String>) -> (r: Vec<i64>)
    requires
        forall|i: int|
            0 <= i < lines@.len() && trim_spec((#[trigger] lines@[i])@).len() > 0 ==> parse_i64_spec(
                trim_spec(lines@[i]@),
            ) is Some,
    ensures
        r@ == numbers_of(line_views(lines@)),
{
    let mut out: Vec<i64> = Vec::new();
    let mut i: usize = 0;
    while i < lines.len()
        invariant
            i <= lines@.len(),
            forall|k: int|
                0 <= k < lines@.len() && trim_spec((#[trigger] lines@[k])@).len() > 0
                    ==> parse_i64_spec(trim_spec(lines@[k]@)) is Some,
            out@ == numbers_of(line_views(lines@).take(i as int)),
        decreases lines@.len() - i,
    {
        let line: &String = &lines[i];
        let t = trim_str(line.as_str());
        if t.unicode_len() > 0 {
            match parse_decimal_i64(t) {
                Some(v) => out.push(v),
                None => {
                    proof {
                        assert(false);
                    }
                },
            }
        }
        i += 1;
        proof {
            let lv = line_views(lines@);
            assert(lv.take(i as int).drop_last() =~= lv.take(i - 1));
            assert(lv.take(i as int).last() == lines@[i - 1]@);
            assert(out@ =~= numbers_of(lv.take(i as int)));
        }
    }
    proof {
        assert(line_views(lines@).take(lines@.len() as int) =~= line_views(lines@));
    }
    out
}

// ---------------------------------------------------------------------------
// Regular-expression capture groups
// ---------------------------------------------------------------------------
#[verifier::external_type_specification]
#[verifier::external_body]
pub struct ExRegex(Regex);

#[verifier::external_type_specification]
#[verifier::external_body]
pub struct ExCaptures<'h>(Captures<'h>);

/// Whether this regular expression matches somewhere in the haystack.
/// Matching is a pure function of the regex value and the haystack.
pub uninterp spec fn re_matches(re: Regex, hay: Seq<char>) -> bool;

/// Relies on regex::Regex::captures: returns the capture groups exactly when
/// the regex matches the haystack, a deterministic function of the two.
#[verifier::external_body]
fn captures_in<'h>(re: &Regex, line: &'h str) -> (r: Option<Captures<'h>>)
    ensures
        r is Some <==> re_matches(*re, line@),
{
    re.captures(line)
}

/// How many of the lines the regex matches.
pub open spec fn match_count(re: Regex, lines: Seq<Seq<char>>) -> int
    decreases lines.len(),
{
    if lines.len() == 0 {
        0
    } else {
        match_count(re, lines.drop_last()) + (if re_matches(re, lines.last()) {
            1int
        } else {
            0int
        })
    }
}

/// Collects the capture groups of every line the regex matches, in line
/// order; lines without a match contribute nothing.
pub fn split_groups<'a>(lines: &'a Vec<String>, regex: &'a Regex) -> (r: Vec<Captures<'a>>)
    ensures
        r@.len() == match_count(*regex, line_views(lines@)),
{
    let mut res: Vec<Captures<'a>> = Vec::new();
    let mut i: usize = 0;
    while i < lines.len()
        invariant
            i <= lines@.len(),
            res@.len() == match_count(*regex, line_views(lines@).take(i as int)),
        decreases lines@.len() - i,
    {
        let line: &String = &lines[i];
        match captures_in(regex, line.as_str()) {
            Some(c) => res.push(c),
            None => {},
        }
        i += 1;
        proof {
            let lv = line_views(lines@);
            assert(lv.take(i as int).drop_last() =~= lv.take(i - 1));
            assert(lv.take(i as int).last() == lines@[i - 1]@);
        }
    }
    proof {
        assert(line_views(lines@).take(lines@.len() as int) =~= line_views(lines@));
    }
    res
}

// ---------------------------------------------------------------------------
// Greatest common divisor and least common multiple
// ---------------------------------------------------------------------------
/// Euclid's greatest common divisor, as a mathematical definition.
pub open spec fn gcd_spec(a: nat, b: nat) -> nat
    decreases b,
{
    if b == 0 {
        a
    } else {
        gcd_spec(b, a % b)
    }
}

/// `d` divides `n` without remainder.
pub open spec fn divides(d: nat, n: nat) -> bool {
    exists|k: nat| n == #[trigger] (k * d)
}

/// The greatest common divisor divides both of its arguments.
proof fn lemma_gcd_divides_both(a: nat, b: nat)
    ensures
        divides(gcd_spec(a, b), a),
        divides(gcd_spec(a, b), b),
    decreases b,
{
    if b == 0 {
        assert(a == 1 * a);
        assert(0 == 0 * a);
    } else {
        lemma_gcd_divides_both(b, a % b);
        let g = gcd_spec(b, a % b);
        let kb = choose|k: nat| b == #[trigger] (k * g);
        let kr = choose|k: nat| a % b == #[trigger] (k * g);
        vstd::arithmetic::div_mod::lemma_fundamental_div_mod(a as int, b as int);
        assert(a == ((a / b) * kb + kr) * g) by (nonlinear_arith)
            requires
                b == kb * g,
                a % b == kr * g,
                a == b * (a / b) + a % b,
        ;
    }
}

/// Every common divisor of the two arguments divides their greatest common
/// divisor.
proof fn lemma_gcd_greatest(a: nat, b: nat, d: nat)
    requires
        divides(d, a),
        divides(d, b),
    ensures
        divides(d, gcd_spec(a, b)),
    decreases b,
{
    if b != 0 {
        let ka = choose|k: nat| a == #[trigger] (k * d);
        let kb = choose|k: nat| b == #[trigger] (k * d);
        assert(d != 0) by (nonlinear_arith)
            requires
                b == kb * d,
                b != 0,
        ;
        vstd::arithmetic::div_mod::lemma_fundamental_div_mod(a as int, b as int);
        let km: int = ka - (a / b) * kb;
        assert(a % b == km * d && km >= 0) by (nonlinear_arith)
            requires
                a == ka * d,
                b == kb * d,
                a == b * (a / b) + a % b,
                a % b >= 0,
                d > 0,
                km == ka - (a / b) * kb,
        ;
        assert(a % b == (km as nat) * d);
        lemma_gcd_greatest(b, a % b, d);
    }
}

/// Euclid's greatest common divisor algorithm. The result divides both
/// arguments and is divided by every common divisor of the two.
pub fn euklid_gcd(a: u64, b: u64) -> (r: u64)
    ensures
        r == gcd_spec(a as nat, b as nat),
        divides(r as nat, a as nat),
        divides(r as nat, b as nat),
        forall|d: nat| #[trigger] divides(d, a as nat) && divides(d, b as nat) ==> divides(d, r as nat),
    decreases b,
{
    proof {
        lemma_gcd_divides_both(a as nat, b as nat);
        assert forall|d: nat| #[trigger] divides(d, a as nat) && divides(d, b as nat) implies divides(
            d,
            gcd_spec(a as nat, b as nat),
        ) by {
            lemma_gcd_greatest(a as nat, b as nat, d);
        }
    }
    if b == 0 {
        a
    } else {
        euklid_gcd(b, a % b)
    }
}

/// The greatest common divisor vanishes only when both arguments do.
pub proof fn lemma_gcd_zero_only_for_zero(a: nat, b: nat)
    ensures
        gcd_spec(a, b) == 0 ==> a == 0 && b == 0,
    decreases b,
{
    if b != 0 {
        lemma_gcd_zero_only_for_zero(b, a % b);
    }
}

/// Least common multiple, computed as the product divided by the greatest
/// common divisor. The product must fit and at least one argument must be
/// non-zero, or the division would have nothing to divide by.
pub fn lcm(a: u64, b: u64) -> (r: u64)
    requires
        a * b <= u64::MAX,
        !(a == 0 && b == 0),
    ensures
        r == (a * b) as nat / gcd_spec(a as nat, b as nat),
{
    proof {
        lemma_gcd_zero_only_for_zero(a as nat, b as nat);
    }
    let g = euklid_gcd(a, b);
    (a * b) / g
}

} // verus!
