use vstd::prelude::*;

use crate::text::{chars_of, string_from_chars};

verus! {

/// A version number `major.minor.bugfix`, with an optional suffix (`slug`)
/// after a hyphen. The slug is empty when there is no suffix.
#[derive(Debug, Default, PartialEq)]
pub struct Version {
    pub major: i32,
    pub minor: i32,
    pub bugfix: i32,
    pub slug: String,
}

/// Why a text is not a version.
#[derive(Debug, PartialEq)]
pub enum VersionError {
    /// The text does not follow `digits.digits.digits` with an optional
    /// non-empty `-suffix`; the text is carried along.
    InvalidFormat(String),
    /// The text follows the grammar, but a number does not fit in an `i32`.
    NumericOverflow,
}

pub open spec fn is_digit(c: char) -> bool {
    '0' <= c && c <= '9'
}

pub open spec fn all_digits(s: Seq<char>) -> bool {
    forall|i: int| 0 <= i < s.len() ==> is_digit(#[trigger] s[i])
}

pub open spec fn digit_chars() -> Seq<char> {
    seq!['0', '1', '2', '3', '4', '5', '6', '7', '8', '9']
}

/// The value of a decimal digit.
pub open spec fn digit_value(c: char) -> nat {
    ((c as u32) - ('0' as u32)) as nat
}

/// The number that a string of decimal digits denotes.
pub open spec fn decimal_value(s: Seq<char>) -> nat
    decreases s.len(),
{
    if s.len() == 0 {
        0
    } else {
        decimal_value(s.drop_last()) * 10 + digit_value(s.last())
    }
}

/// The decimal digits of `n`, without leading zeros.
pub open spec fn decimal_digits(n: nat) -> Seq<char>
    decreases n,
{
    if n < 10 {
        seq![digit_chars()[n as int]]
    } else {
        decimal_digits(n / 10).push(digit_chars()[(n % 10) as int])
    }
}

/// The text made of the three digit strings and the slug.
pub open spec fn version_text(a: Seq<char>, b: Seq<char>, c: Seq<char>, slug: Seq<char>) -> Seq<
    char,
> {
    let core = a + seq!['.'] + b + seq!['.'] + c;
    if slug.len() == 0 {
        core
    } else {
        core + seq!['-'] + slug
    }
}

/// `s` splits into the non-empty digit strings `a`, `b`, `c` and the slug.
pub open spec fn is_version_text(
    s: Seq<char>,
    a: Seq<char>,
    b: Seq<char>,
    c: Seq<char>,
    slug: Seq<char>,
) -> bool {
    &&& (a.len() as int) > 0 && (b.len() as int) > 0 && (c.len() as int) > 0
    &&& all_digits(a) && all_digits(b) && all_digits(c)
    &&& s == version_text(a, b, c, slug)
}

/// `s` follows the version grammar.
pub open spec fn follows_version_grammar(s: Seq<char>) -> bool {
    exists|a: Seq<char>, b: Seq<char>, c: Seq<char>, slug: Seq<char>|
        is_version_text(s, a, b, c, slug)
}

/// `s` follows the version grammar and denotes these numbers and slug.
pub open spec fn denotes(s: Seq<char>, major: int, minor: int, bugfix: int, slug: Seq<char>) -> bool {
    exists|a: Seq<char>, b: Seq<char>, c: Seq<char>|
        is_version_text(s, a, b, c, slug) && major == decimal_value(a) && minor == decimal_value(b)
            && bugfix == decimal_value(c)
}

/// `s` follows the version grammar, but a number in it does not fit in an
/// `i32`.
pub open spec fn version_overflows(s: Seq<char>) -> bool {
    exists|a: Seq<char>, b: Seq<char>, c: Seq<char>, slug: Seq<char>|
        is_version_text(s, a, b, c, slug) && (decimal_value(a) > i32::MAX || decimal_value(b)
            > i32::MAX || decimal_value(c) > i32::MAX)
}

/// The text of a version: `major.minor.bugfix`, then `-slug` when the slug
/// is not empty.
pub open spec fn version_string(major: nat, minor: nat, bugfix: nat, slug: Seq<char>) -> Seq<char> {
    version_text(decimal_digits(major), decimal_digits(minor), decimal_digits(bugfix), slug)
}

impl Version {
    /// The numbers are not negative.
    pub open spec fn wf(&self) -> bool {
        self.major >= 0 && self.minor >= 0 && self.bugfix >= 0
    }
}

/// A maximal run of digits: `s[start..end]` are digits and `s[end]` is not.
pub open spec fn digit_run(s: Seq<char>, start: int, end: int) -> bool {
    &&& 0 <= start <= end <= s.len()
    &&& all_digits(s.subrange(start, end))
    &&& (end == s.len() || !is_digit(s[end]))
}

/// A maximal run of digits from `start` ends where the digit string `a`
/// that stands there ends, when a non-digit follows `a`.
proof fn lemma_run_end(s: Seq<char>, start: int, end: int, a: Seq<char>)
    requires
        digit_run(s, start, end),
        all_digits(a),
        start + (a.len() as int) <= s.len(),
        s.subrange(start, start + (a.len() as int)) == a,
        start + (a.len() as int) < s.len() ==> !is_digit(s[start + (a.len() as int)]),
    ensures
        end == start + (a.len() as int),
{
    if end < start + (a.len() as int) {
        assert(s[end] == a[end - start]);
    } else if end > start + (a.len() as int) {
        assert(s.subrange(start, end)[a.len() as int] == s[start + (a.len() as int)]);
    }
}

/// Where the parts of a version text stand in it.
proof fn lemma_version_layout(s: Seq<char>, a: Seq<char>, b: Seq<char>, c: Seq<char>, slug: Seq<char>)
    requires
        is_version_text(s, a, b, c, slug),
    ensures
        s.subrange(0, a.len() as int) == a,
        s[a.len() as int] == '.',
        s.subrange((a.len() as int) + 1, (a.len() as int) + 1 + (b.len() as int)) == b,
        s[(a.len() as int) + 1 + (b.len() as int)] == '.',
        s.subrange((a.len() as int) + (b.len() as int) + 2, (a.len() as int) + (b.len() as int) + 2 + (c.len() as int)) == c,
        slug.len() == 0 ==> s.len() == (a.len() as int) + (b.len() as int) + (c.len() as int) + 2,
        slug.len() > 0 ==> {
            let p = (a.len() as int) + (b.len() as int) + (c.len() as int) + 2;
            &&& s.len() == p + 1 + (slug.len() as int)
            &&& s[p] == '-'
            &&& s.subrange(p + 1, s.len() as int) == slug
        },
{
    let core = a + seq!['.'] + b + seq!['.'] + c;
    assert(s.subrange(0, a.len() as int) =~= a);
    assert(s.subrange((a.len() as int) + 1, (a.len() as int) + 1 + (b.len() as int)) =~= b);
    assert(s.subrange((a.len() as int) + (b.len() as int) + 2, (a.len() as int) + (b.len() as int) + 2 + (c.len() as int)) =~= c);
    if slug.len() > 0 {
        let p = (a.len() as int) + (b.len() as int) + (c.len() as int) + 2;
        assert(s.subrange(p + 1, s.len() as int) =~= slug);
    }
}

/// The parts of a version text are fixed by the text.
pub proof fn lemma_version_text_unique(
    s: Seq<char>,
    a1: Seq<char>,
    b1: Seq<char>,
    c1: Seq<char>,
    slug1: Seq<char>,
    a2: Seq<char>,
    b2: Seq<char>,
    c2: Seq<char>,
    slug2: Seq<char>,
)
    requires
        is_version_text(s, a1, b1, c1, slug1),
        is_version_text(s, a2, b2, c2, slug2),
    ensures
        a1 == a2 && b1 == b2 && c1 == c2 && slug1 == slug2,
{
    lemma_version_layout(s, a1, b1, c1, slug1);
    lemma_version_layout(s, a2, b2, c2, slug2);
    lemma_same_prefix_digits(s, 0, a1, a2);
    let o = (a1.len() as int) + 1;
    lemma_same_prefix_digits(s, o, b1, b2);
    let q = (a1.len() as int) + (b1.len() as int) + 2;
    lemma_same_prefix_digits_or_end(s, q, c1, c2);
    let p = q + (c1.len() as int);
    if (slug1.len() as int) > 0 && (slug2.len() as int) == 0 {
        assert(s.len() == p);
    } else if (slug1.len() as int) == 0 && (slug2.len() as int) > 0 {
        assert(s.len() == p);
    }
}

/// Two digit strings that stand at `start`, each followed by a non-digit,
/// are the same.
proof fn lemma_same_prefix_digits(s: Seq<char>, start: int, a1: Seq<char>, a2: Seq<char>)
    requires
        0 <= start,
        all_digits(a1),
        all_digits(a2),
        start + (a1.len() as int) < s.len(),
        start + (a2.len() as int) < s.len(),
        s.subrange(start, start + (a1.len() as int)) == a1,
        s.subrange(start, start + (a2.len() as int)) == a2,
        !is_digit(s[start + (a1.len() as int)]),
        !is_digit(s[start + (a2.len() as int)]),
    ensures
        a1 == a2,
{
    if (a1.len() as int) < (a2.len() as int) {
        assert(s[start + (a1.len() as int)] == a2[a1.len() as int]);
    } else if (a2.len() as int) < (a1.len() as int) {
        assert(s[start + (a2.len() as int)] == a1[a2.len() as int]);
    } else {
        assert(a1 =~= a2);
    }
}

/// As above, where each string ends the text or is followed by a non-digit.
proof fn lemma_same_prefix_digits_or_end(s: Seq<char>, start: int, a1: Seq<char>, a2: Seq<char>)
    requires
        0 <= start,
        all_digits(a1),
        all_digits(a2),
        start + (a1.len() as int) <= s.len(),
        start + (a2.len() as int) <= s.len(),
        s.subrange(start, start + (a1.len() as int)) == a1,
        s.subrange(start, start + (a2.len() as int)) == a2,
        start + (a1.len() as int) < s.len() ==> s[start + (a1.len() as int)] == '-',
        start + (a2.len() as int) < s.len() ==> s[start + (a2.len() as int)] == '-',
    ensures
        a1 == a2,
{
    if (a1.len() as int) < (a2.len() as int) {
        assert(s[start + (a1.len() as int)] == a2[a1.len() as int]);
    } else if (a2.len() as int) < (a1.len() as int) {
        assert(s[start + (a2.len() as int)] == a1[a2.len() as int]);
    } else {
        assert(a1 =~= a2);
    }
}

proof fn lemma_no_version_1(s: Seq<char>, e1: int)
    requires
        digit_run(s, 0, e1),
        !(e1 > 0 && e1 < s.len() && s[e1] == '.'),
    ensures
        !follows_version_grammar(s),
{
    if follows_version_grammar(s) {
        let (a, b, c, sl) = choose|a: Seq<char>, b: Seq<char>, c: Seq<char>, sl: Seq<char>|
            is_version_text(s, a, b, c, sl);
        lemma_version_layout(s, a, b, c, sl);
        lemma_run_end(s, 0, e1, a);
    }
}

proof fn lemma_no_version_2(s: Seq<char>, e1: int, e2: int)
    requires
        digit_run(s, 0, e1),
        e1 > 0 && e1 < s.len() && s[e1] == '.',
        digit_run(s, e1 + 1, e2),
        !(e2 > e1 + 1 && e2 < s.len() && s[e2] == '.'),
    ensures
        !follows_version_grammar(s),
{
    if follows_version_grammar(s) {
        let (a, b, c, sl) = choose|a: Seq<char>, b: Seq<char>, c: Seq<char>, sl: Seq<char>|
            is_version_text(s, a, b, c, sl);
        lemma_version_layout(s, a, b, c, sl);
        lemma_run_end(s, 0, e1, a);
        lemma_run_end(s, e1 + 1, e2, b);
    }
}

proof fn lemma_no_version_3(s: Seq<char>, e1: int, e2: int, e3: int)
    requires
        digit_run(s, 0, e1),
        e1 > 0 && e1 < s.len() && s[e1] == '.',
        digit_run(s, e1 + 1, e2),
        e2 > e1 + 1 && e2 < s.len() && s[e2] == '.',
        digit_run(s, e2 + 1, e3),
        !(e3 > e2 + 1 && (e3 == s.len() || (s[e3] == '-' && e3 + 1 < s.len()))),
    ensures
        !follows_version_grammar(s),
{
    if follows_version_grammar(s) {
        let (a, b, c, sl) = choose|a: Seq<char>, b: Seq<char>, c: Seq<char>, sl: Seq<char>|
            is_version_text(s, a, b, c, sl);
        lemma_version_layout(s, a, b, c, sl);
        lemma_run_end(s, 0, e1, a);
        lemma_run_end(s, e1 + 1, e2, b);
        lemma_run_end(s, e2 + 1, e3, c);
    }
}

/// The end of the run of digits that starts at `start`.
fn scan_digits(cs: &Vec<char>, start: usize) -> (end: usize)
    requires
        start <= cs@.len(),
    ensures
        digit_run(cs@, start as int, end as int),
{
    let mut end = start;
    while end < cs.len() && '0' <= cs[end] && cs[end] <= '9'
        invariant
            start <= end <= cs@.len(),
            all_digits(cs@.subrange(start as int, end as int)),
        decreases cs@.len() - end,
    {
        assert(cs@.subrange(start as int, end + 1) =~= cs@.subrange(start as int, end as int).push(
            cs@[end as int],
        ));
        end = end + 1;
    }
    end
}

proof fn lemma_decimal_value_prefix(s: Seq<char>, k: int)
    requires
        0 <= k <= s.len(),
    ensures
        decimal_value(s.subrange(0, k)) <= decimal_value(s),
    decreases s.len() - k,
{
    if k < s.len() {
        lemma_decimal_value_prefix(s, k + 1);
        assert(s.subrange(0, k + 1).drop_last() =~= s.subrange(0, k));
    } else {
        assert(s.subrange(0, k) =~= s);
    }
}

/// The number that the digits `cs[start..end]` denote, or `None` when it
/// does not fit in an `i32`.
fn digits_value(cs: &Vec<char>, start: usize, end: usize) -> (r: Option<i32>)
    requires
        start <= end <= cs@.len(),
        all_digits(cs@.subrange(start as int, end as int)),
    ensures
        r matches Some(v) ==> v as int == decimal_value(cs@.subrange(start as int, end as int)),
        r is None ==> decimal_value(cs@.subrange(start as int, end as int)) > i32::MAX,
{
    let ghost run = cs@.subrange(start as int, end as int);
    let mut acc: i32 = 0;
    let mut i = start;
    while i < end
        invariant
            start <= i <= end <= cs@.len(),
            run == cs@.subrange(start as int, end as int),
            all_digits(run),
            acc as int == decimal_value(run.subrange(0, i - start)),
            acc >= 0,
        decreases end - i,
    {
        assert(is_digit(run[i - start]));
        let d = (cs[i] as u32 - '0' as u32) as i32;
        assert(run.subrange(0, i - start + 1).drop_last() =~= run.subrange(0, i - start));
        if acc > (i32::MAX - d) / 10 {
            proof {
                lemma_decimal_value_prefix(run, i - start + 1);
            }
            return None;
        }
        acc = acc * 10 + d;
        i = i + 1;
    }
    assert(run.subrange(0, end - start) =~= run);
    Some(acc)
}

/// Parses `major.minor.bugfix`, optionally followed by `-` and a non-empty
/// suffix that runs to the end of the text.
pub fn parse_version(s: &str) -> (r: Result<Version, VersionError>)
    ensures
        r matches Ok(v) ==> v.wf() && denotes(s@, v.major as int, v.minor as int, v.bugfix as int, v.slug@),
        r matches Err(VersionError::InvalidFormat(t)) ==> t@ == s@,
        r matches Err(VersionError::InvalidFormat(_)) <==> !follows_version_grammar(s@),
        r matches Err(VersionError::NumericOverflow) <==> version_overflows(s@),
{
    let cs = chars_of(s);
    let n = cs.len();
    let e1 = scan_digits(&cs, 0);
    let ok1 = e1 > 0 && e1 < n && cs[e1] == '.';
    if !ok1 {
        proof { lemma_no_version_1(cs@, e1 as int); }
        return Err(VersionError::InvalidFormat(string_from_chars(&cs)));
    }
    let e2 = scan_digits(&cs, e1 + 1);
    let ok2 = e2 > e1 + 1 && e2 < n && cs[e2] == '.';
    if !ok2 {
        proof { lemma_no_version_2(cs@, e1 as int, e2 as int); }
        return Err(VersionError::InvalidFormat(string_from_chars(&cs)));
    }
    let e3 = scan_digits(&cs, e2 + 1);
    let ok3 = e3 > e2 + 1 && (e3 == n || (cs[e3] == '-' && e3 + 1 < n));
    if !ok3 {
        proof { lemma_no_version_3(cs@, e1 as int, e2 as int, e3 as int); }
        return Err(VersionError::InvalidFormat(string_from_chars(&cs)));
    }
    let mut slug_chars: Vec<char> = Vec::new();
    if e3 < n {
        let mut i = e3 + 1;
        while i < n
            invariant
                e3 + 1 <= i <= n == cs@.len(),
                slug_chars@ == cs@.subrange(e3 + 1, i as int),
            decreases n - i,
        {
            slug_chars.push(cs[i]);
            assert(slug_chars@ =~= cs@.subrange(e3 + 1, i + 1));
            i = i + 1;
        }
    }
    let ghost a = cs@.subrange(0, e1 as int);
    let ghost b = cs@.subrange(e1 + 1, e2 as int);
    let ghost c = cs@.subrange(e2 + 1, e3 as int);
    let ghost sl = slug_chars@;
    proof {
        if e3 == n {
            assert(sl =~= Seq::<char>::empty());
            assert(cs@ =~= version_text(a, b, c, sl));
        } else {
            assert(cs@ =~= version_text(a, b, c, sl));
        }
        assert(is_version_text(s@, a, b, c, sl));
    }
    let major = digits_value(&cs, 0, e1);
    let minor = digits_value(&cs, e1 + 1, e2);
    let bugfix = digits_value(&cs, e2 + 1, e3);
    match (major, minor, bugfix) {
        (Some(x), Some(y), Some(z)) => {
            let slug = string_from_chars(&slug_chars);
            proof {
                assert forall|a2: Seq<char>, b2: Seq<char>, c2: Seq<char>, sl2: Seq<char>|
                    is_version_text(s@, a2, b2, c2, sl2) implies !(decimal_value(a2) > i32::MAX
                        || decimal_value(b2) > i32::MAX || decimal_value(c2) > i32::MAX) by {
                    lemma_version_text_unique(s@, a, b, c, sl, a2, b2, c2, sl2);
                }
            }
            Ok(Version { major: x, minor: y, bugfix: z, slug })
        },
        _ => Err(VersionError::NumericOverflow),
    }
}

proof fn lemma_digit_char(d: int)
    requires
        0 <= d < 10,
    ensures
        is_digit(digit_chars()[d]),
        digit_value(digit_chars()[d]) == d,
{
    let ds = digit_chars();
    if d == 0 {
        assert(ds[0] == '0');
    } else if d == 1 {
        assert(ds[1] == '1');
    } else if d == 2 {
        assert(ds[2] == '2');
    } else if d == 3 {
        assert(ds[3] == '3');
    } else if d == 4 {
        assert(ds[4] == '4');
    } else if d == 5 {
        assert(ds[5] == '5');
    } else if d == 6 {
        assert(ds[6] == '6');
    } else if d == 7 {
        assert(ds[7] == '7');
    } else if d == 8 {
        assert(ds[8] == '8');
    } else {
        assert(ds[9] == '9');
    }
}

proof fn lemma_decimal_digits(n: nat)
    ensures
        decimal_digits(n).len() > 0,
        all_digits(decimal_digits(n)),
        decimal_value(decimal_digits(n)) == n,
    decreases n,
{
    lemma_digit_char((n % 10) as int);
    if n < 10 {
        let s = decimal_digits(n);
        assert(s.drop_last() =~= Seq::<char>::empty());
        assert(decimal_value(s.drop_last()) == 0);
        assert(s.last() == digit_chars()[n as int]);
        assert(n % 10 == n);
    } else {
        lemma_decimal_digits(n / 10);
        let s = decimal_digits(n);
        assert(s.drop_last() =~= decimal_digits(n / 10));
        assert(s.last() == digit_chars()[(n % 10) as int]);
        assert((n / 10) * 10 + n % 10 == n) by (nonlinear_arith);
    }
}

/// Writing a version and reading it back gives the same numbers and slug.
pub proof fn lemma_version_round_trip(major: nat, minor: nat, bugfix: nat, slug: Seq<char>)
    ensures
        follows_version_grammar(version_string(major, minor, bugfix, slug)),
        forall|x: int, y: int, z: int, t: Seq<char>|
            denotes(version_string(major, minor, bugfix, slug), x, y, z, t) <==> (x == major && y
                == minor && z == bugfix && t == slug),
        forall|a: Seq<char>, b: Seq<char>, c: Seq<char>, t: Seq<char>|
            is_version_text(version_string(major, minor, bugfix, slug), a, b, c, t) ==> (
            decimal_value(a) == major && decimal_value(b) == minor && decimal_value(c) == bugfix),
{
    lemma_decimal_digits(major);
    lemma_decimal_digits(minor);
    lemma_decimal_digits(bugfix);
    let s = version_string(major, minor, bugfix, slug);
    let (a, b, c) = (decimal_digits(major), decimal_digits(minor), decimal_digits(bugfix));
    assert(is_version_text(s, a, b, c, slug));
    assert forall|a2: Seq<char>, b2: Seq<char>, c2: Seq<char>, t: Seq<char>|
        is_version_text(s, a2, b2, c2, t) implies (a2 == a && b2 == b && c2 == c && t == slug) by {
        lemma_version_text_unique(s, a, b, c, slug, a2, b2, c2, t);
    }
}

/// The character of the decimal digit `d`.
fn digit_char(d: u32) -> (c: char)
    requires
        d < 10,
    ensures
        c == digit_chars()[d as int],
{
    if d == 0 {
        '0'
    } else if d == 1 {
        '1'
    } else if d == 2 {
        '2'
    } else if d == 3 {
        '3'
    } else if d == 4 {
        '4'
    } else if d == 5 {
        '5'
    } else if d == 6 {
        '6'
    } else if d == 7 {
        '7'
    } else if d == 8 {
        '8'
    } else {
        '9'
    }
}

/// Appends the decimal digits of `n` to `out`.
fn push_decimal(n: u32, out: &mut Vec<char>)
    ensures
        final(out)@ == old(out)@ + decimal_digits(n as nat),
    decreases n,
{
    if n >= 10 {
        push_decimal(n / 10, out);
    }
    out.push(digit_char(n % 10));
    assert(final(out)@ =~= old(out)@ + decimal_digits(n as nat));
}

impl Version {
    /// The text of this version: `major.minor.bugfix`, followed by `-slug`
    /// when the slug is not empty.
    pub fn assemble_version(&self) -> (r: String)
        requires
            self.wf(),
        ensures
            r@ == version_string(self.major as nat, self.minor as nat, self.bugfix as nat, self.slug@),
    {
        let mut out: Vec<char> = Vec::new();
        push_decimal(self.major as u32, &mut out);
        out.push('.');
        push_decimal(self.minor as u32, &mut out);
        out.push('.');
        push_decimal(self.bugfix as u32, &mut out);
        let slug = chars_of(self.slug.as_str());
        if slug.len() > 0 {
            out.push('-');
            let mut i: usize = 0;
            let ghost before = out@;
            while i < slug.len()
                invariant
                    0 <= i <= slug@.len(),
                    out@ == before + slug@.subrange(0, i as int),
                decreases slug@.len() - i,
            {
                out.push(slug[i]);
                assert(out@ =~= before + slug@.subrange(0, i + 1));
                i = i + 1;
            }
            assert(slug@.subrange(0, i as int) =~= slug@);
        }
        let ghost (a, b, c) = (
            decimal_digits(self.major as nat),
            decimal_digits(self.minor as nat),
            decimal_digits(self.bugfix as nat),
        );
        assert(out@ =~= version_text(a, b, c, self.slug@));
        string_from_chars(&out)
    }
}

} // verus!
