//! Two-part version identifiers: `major.minor` with a minor of at most two digits.
use vstd::prelude::*;
use crate::error::ArkhamError;
use crate::text::{is_canonical_numeral, all_digits, digit_value, chars_of, decimal, digit_char, digit_char_exec, is_digit, is_numeral, numeral_value, push_decimal, same_chars, string_of};

verus! {

/// A validated version: `minor` is at most 99.
#[derive(Debug, Clone, Copy, PartialEq, Eq)]
pub struct VersionId {
    pub major: u32,
    pub minor: u32,
}

/// Which part of the version a bump raises.
#[derive(Debug, Clone, Copy, PartialEq, Eq)]
pub enum UpdateKind {
    Major,
    Minor,
}

/// `i` is the position of the only dot, with a numeral that fits `u32` before it
/// and one or two digits after it.
pub open spec fn dot_split_ok(s: Seq<char>, i: int) -> bool {
    &&& 0 <= i < s.len()
    &&& s[i] == '.'
    &&& is_numeral(s.take(i))
    &&& numeral_value(s.take(i)) <= u32::MAX
    &&& is_numeral(s.skip(i + 1))
    &&& s.skip(i + 1).len() <= 2
}

pub open spec fn version_text_ok(s: Seq<char>) -> bool {
    exists|i: int| dot_split_ok(s, i)
}

pub open spec fn spec_parse(s: Seq<char>) -> Option<VersionId> {
    if version_text_ok(s) {
        let i = choose|i: int| dot_split_ok(s, i);
        Some(VersionId { major: numeral_value(s.take(i)) as u32, minor: numeral_value(s.skip(i + 1)) as u32 })
    } else {
        None
    }
}

/// A minor number written with at least two digits.
pub open spec fn two_digits(n: nat) -> Seq<char> {
    if n < 10 {
        seq!['0', digit_char(n)]
    } else {
        decimal(n)
    }
}

/// The canonical text `"{major}.{minor:02}"`.
pub open spec fn version_text(v: VersionId) -> Seq<char> {
    decimal(v.major as nat) + seq!['.'] + two_digits(v.minor as nat)
}

pub open spec fn increment_text(v: VersionId, kind: UpdateKind) -> Seq<char> {
    match kind {
        UpdateKind::Major => decimal(v.major as nat + 1) + seq!['.', '0', '0'],
        UpdateKind::Minor => decimal(v.major as nat) + seq!['.'] + two_digits(v.minor as nat + 1),
    }
}

pub open spec fn kind_of(s: Seq<char>) -> Option<UpdateKind> {
    if s == "major"@ || s == "1"@ {
        Some(UpdateKind::Major)
    } else if s == "minor"@ || s == "0"@ {
        Some(UpdateKind::Minor)
    } else {
        None
    }
}

pub proof fn lemma_dot_split_unique(s: Seq<char>, i: int, j: int)
    requires
        dot_split_ok(s, i),
        dot_split_ok(s, j),
    ensures
        i == j,
{
    if i < j {
        assert(s.take(j)[i] == s[i]);
        assert(is_digit(s.take(j)[i]));
    } else if j < i {
        assert(s.take(i)[j] == s[j]);
        assert(is_digit(s.take(i)[j]));
    }
}

pub proof fn lemma_numeral_prefix_le(s: Seq<char>, i: int)
    requires
        0 <= i <= s.len(),
    ensures
        numeral_value(s.take(i)) <= numeral_value(s),
    decreases s.len(),
{
    if i < s.len() {
        assert(s.drop_last().take(i) =~= s.take(i));
        lemma_numeral_prefix_le(s.drop_last(), i);
    } else {
        assert(s.take(i) =~= s);
    }
}

pub proof fn lemma_short_numeral(t: Seq<char>)
    requires
        is_numeral(t),
        t.len() <= 2,
    ensures
        numeral_value(t) <= 99,
{
    assert(is_digit(t[0]));
    if t.len() == 2 {
        assert(is_digit(t[1]));
        assert(t.drop_last().drop_last() =~= Seq::<char>::empty());
        assert(numeral_value(t.drop_last().drop_last()) == 0);
        assert(t.drop_last().last() == t[0]);
        assert(numeral_value(t.drop_last()) == digit_value(t[0]));
        assert(numeral_value(t) == digit_value(t[0]) * 10 + digit_value(t[1]));
    } else {
        assert(t.drop_last() =~= Seq::<char>::empty());
        assert(numeral_value(t.drop_last()) == 0);
        assert(numeral_value(t) == digit_value(t[0]));
    }
}

/// Reads `s[lo..hi]` as a numeral that fits `u32`.
fn parse_numeral(s: &Vec<char>, lo: usize, hi: usize) -> (r: Option<u32>)
    requires
        lo <= hi <= s@.len(),
    ensures
        ({
            let t = s@.subrange(lo as int, hi as int);
            r == if is_numeral(t) && numeral_value(t) <= u32::MAX {
                Some(numeral_value(t) as u32)
            } else {
                None::<u32>
            }
        }),
{
    let ghost t = s@.subrange(lo as int, hi as int);
    if lo == hi {
        return None;
    }
    let mut acc: u64 = 0;
    let mut i: usize = lo;
    while i < hi
        invariant
            lo <= i <= hi <= s@.len(),
            t == s@.subrange(lo as int, hi as int),
            all_digits(t.take(i - lo)),
            acc as nat == numeral_value(t.take(i - lo)),
            acc <= u32::MAX,
        decreases hi - i,
    {
        let c = s[i];
        if !('0' <= c && c <= '9') {
            assert(t[i - lo] == c);
            assert(!is_digit(t[i - lo]));
            return None;
        }
        let d = (c as u32 - '0' as u32) as u64;
        assert(t.take(i + 1 - lo).drop_last() =~= t.take(i - lo));
        assert(t.take(i + 1 - lo).last() == c);
        acc = acc * 10 + d;
        i += 1;
        assert(all_digits(t.take(i - lo))) by {
            assert forall|k: int| 0 <= k < t.take(i - lo).len() implies is_digit(#[trigger] t.take(i - lo)[k]) by {
                if k < i - 1 - lo {
                    assert(t.take(i - lo)[k] == t.take(i - 1 - lo)[k]);
                }
            }
        }
        if acc > 4294967295 {
            proof {
                if all_digits(t) {
                    lemma_numeral_prefix_le(t, i - lo);
                }
            }
            return None;
        }
    }
    assert(t.take(hi - lo) =~= t);
    Some(acc as u32)
}

/// Parses `"{major}.{minor}"`.
pub fn parse_version(text: &str) -> (r: Result<VersionId, ArkhamError>)
    ensures
        match r {
            Ok(v) => spec_parse(text@) == Some(v) && v.minor <= 99,
            Err(e) => spec_parse(text@) is None && e is InvalidVersion
                && e->InvalidVersion_0@ == text@,
        },
{
    let s = chars_of(text);
    let n = s.len();
    let mut p: usize = 0;
    while p < n && s[p] != '.'
        invariant
            p <= n == s@.len(),
            forall|k: int| 0 <= k < p ==> s@[k] != '.',
        decreases n - p,
    {
        p += 1;
    }
    let major = if p < n { parse_numeral(&s, 0, p) } else { None };
    let minor = if p < n && n - p - 1 <= 2 { parse_numeral(&s, p + 1, n) } else { None };
    match (major, minor) {
        (Some(a), Some(b)) => {
            assert(s@.take(p as int) =~= s@.subrange(0, p as int));
            assert(s@.skip(p + 1) =~= s@.subrange(p + 1, n as int));
            assert(dot_split_ok(s@, p as int));
            proof {
                let i = choose|i: int| dot_split_ok(s@, i);
                lemma_dot_split_unique(s@, i, p as int);
                lemma_short_numeral(s@.skip(p + 1));
            }
            Ok(VersionId { major: a, minor: b })
        },
        _ => {
            proof {
                // Only the first dot can split the text, and there one part fails.
                assert forall|i: int| !dot_split_ok(s@, i) by {
                    if dot_split_ok(s@, i) {
                        if i < p {
                            assert(s@[i] != '.');
                        } else if i > p {
                            assert(is_digit(s@.take(i)[p as int]));
                        } else {
                            assert(s@.take(p as int) =~= s@.subrange(0, p as int));
                            assert(s@.skip(p + 1) =~= s@.subrange(p + 1, n as int));
                            lemma_short_numeral(s@.skip(p + 1));
                        }
                    }
                }
            }
            Err(ArkhamError::InvalidVersion(string_of(&s)))
        },
    }
}

/// Succeeds exactly on well-formed version text.
pub fn validate_version(version: &str) -> (r: Result<(), ArkhamError>)
    ensures
        r is Ok <==> version_text_ok(version@),
        r matches Err(e) ==> e is InvalidVersion && e->InvalidVersion_0@ == version@,
{
    match parse_version(version) {
        Ok(_) => Ok(()),
        Err(e) => Err(e),
    }
}

impl VersionId {
    /// The canonical text `"{major}.{minor:02}"`.
    pub fn to_text(&self) -> (r: String)
        ensures
            r@ == version_text(*self),
    {
        let mut out: Vec<char> = Vec::new();
        push_decimal(&mut out, self.major as u64);
        out.push('.');
        push_two_digits(&mut out, self.minor as u64);
        assert(out@ =~= version_text(*self));
        string_of(&out)
    }
}

fn push_two_digits(out: &mut Vec<char>, n: u64)
    ensures
        final(out)@ == old(out)@ + two_digits(n as nat),
{
    if n < 10 {
        out.push('0');
        out.push(digit_char_exec(n));
        assert(decimal(n as nat) == seq![digit_char(n as nat)]);
        assert(final(out)@ =~= old(out)@ + two_digits(n as nat));
    } else {
        push_decimal(out, n);
    }
}

impl UpdateKind {
    /// Reads `"major"` or `"1"`, `"minor"` or `"0"`.
    pub fn from_text(text: &str) -> (r: Result<UpdateKind, ArkhamError>)
        ensures
            match r {
                Ok(k) => kind_of(text@) == Some(k),
                Err(e) => kind_of(text@) is None && e is InvalidVersion
                    && e->InvalidVersion_0@ == "Invalid update type"@,
            },
    {
        let s = chars_of(text);
        if same_chars(&s, &chars_of("major")) || same_chars(&s, &chars_of("1")) {
            Ok(UpdateKind::Major)
        } else if same_chars(&s, &chars_of("minor")) || same_chars(&s, &chars_of("0")) {
            Ok(UpdateKind::Minor)
        } else {
            Err(ArkhamError::InvalidVersion(String::from_str("Invalid update type")))
        }
    }
}

/// The version after `current` once the part that `kind` names is raised.
pub fn increment(current: &str, kind: UpdateKind) -> (r: Result<String, ArkhamError>)
    ensures
        match r {
            Ok(t) => spec_parse(current@) is Some && t@ == increment_text(spec_parse(current@)->0, kind),
            Err(e) => spec_parse(current@) is None && e is InvalidVersion
                && e->InvalidVersion_0@ == current@,
        },
{
    let v = parse_version(current)?;
    let mut out: Vec<char> = Vec::new();
    match kind {
        UpdateKind::Major => {
            push_decimal(&mut out, v.major as u64 + 1);
            out.push('.');
            out.push('0');
            out.push('0');
        },
        UpdateKind::Minor => {
            push_decimal(&mut out, v.major as u64);
            out.push('.');
            push_two_digits(&mut out, v.minor as u64 + 1);
        },
    }
    assert(out@ =~= increment_text(v, kind));
    Ok(string_of(&out))
}

/// Bumps `current_version` by an update kind given as text.
pub fn update_version(current_version: &str, update_type: &str) -> (r: Result<String, ArkhamError>)
    ensures
        match r {
            Ok(t) => kind_of(update_type@) is Some && spec_parse(current_version@) is Some
                && t@ == increment_text(spec_parse(current_version@)->0, kind_of(update_type@)->0),
            Err(e) => e is InvalidVersion && if kind_of(update_type@) is None {
                e->InvalidVersion_0@ == "Invalid update type"@
            } else {
                spec_parse(current_version@) is None && e->InvalidVersion_0@ == current_version@
            },
        },
{
    let kind = UpdateKind::from_text(update_type)?;
    increment(current_version, kind)
}

pub proof fn lemma_digit_round_trip(c: char)
    requires
        is_digit(c),
    ensures
        digit_value(c) < 10,
        digit_char(digit_value(c)) == c,
{
}

pub proof fn lemma_decimal_of_numeral(s: Seq<char>)
    requires
        is_canonical_numeral(s),
    ensures
        decimal(numeral_value(s)) == s,
    decreases s.len(),
{
    let c = s.last();
    assert(is_digit(s[s.len() - 1]));
    lemma_digit_round_trip(c);
    if s.len() == 1 {
        assert(s.drop_last() =~= Seq::<char>::empty());
        assert(numeral_value(s.drop_last()) == 0);
        assert(seq![c] =~= s);
    } else {
        let p = s.drop_last();
        assert(p[0] == s[0]);
        assert forall|i: int| 0 <= i < p.len() implies #[trigger] is_digit(p[i]) by {
            assert(p[i] == s[i]);
        }
        lemma_decimal_of_numeral(p);
        lemma_numeral_prefix_le(p, 1);
        assert(p.take(1).drop_last() =~= Seq::<char>::empty());
        assert(numeral_value(p.take(1).drop_last()) == 0);
        assert(p.take(1).last() == p[0]);
        assert(is_digit(p[0]));
        assert(numeral_value(p.take(1)) == digit_value(p[0]));
        let a = numeral_value(p);
        let d = digit_value(c);
        assert(a >= 1);
        assert(numeral_value(s) == a * 10 + d);
        assert((a * 10 + d) / 10 == a && (a * 10 + d) % 10 == d) by (nonlinear_arith)
            requires d < 10;
        assert(p.push(c) =~= s);
    }
}

/// A one- or two-digit minor written with two digits.
pub open spec fn padded_minor(m: Seq<char>) -> Seq<char> {
    if m.len() == 1 { seq!['0'] + m } else { m }
}

/// Parsing well-formed version text and writing it back gives the same text,
/// with the minor part padded to two digits.
pub proof fn law_parse_then_format(major: Seq<char>, minor: Seq<char>)
    requires
        is_canonical_numeral(major),
        numeral_value(major) <= u32::MAX,
        is_numeral(minor),
        minor.len() <= 2,
    ensures
        spec_parse(major + seq!['.'] + minor) is Some,
        version_text(spec_parse(major + seq!['.'] + minor)->0) == major + seq!['.'] + padded_minor(minor),
{
    let s = major + seq!['.'] + minor;
    let i = major.len() as int;
    assert(s.take(i) =~= major);
    assert(s.skip(i + 1) =~= minor);
    assert(dot_split_ok(s, i));
    let j = choose|j: int| dot_split_ok(s, j);
    lemma_dot_split_unique(s, i, j);
    lemma_decimal_of_numeral(major);
    lemma_short_numeral(minor);
    let v = spec_parse(s)->0;
    assert(v.major as nat == numeral_value(major));
    assert(v.minor as nat == numeral_value(minor));
    assert(is_digit(minor[0]));
    lemma_digit_round_trip(minor[0]);
    if minor.len() == 1 {
        assert(minor.drop_last() =~= Seq::<char>::empty());
        assert(numeral_value(minor.drop_last()) == 0);
        assert(numeral_value(minor) == digit_value(minor[0]));
        assert(two_digits(v.minor as nat) =~= padded_minor(minor));
    } else {
        assert(is_digit(minor[1]));
        lemma_digit_round_trip(minor[1]);
        if minor[0] == '0' {
            assert(minor.drop_last().drop_last() =~= Seq::<char>::empty());
            assert(numeral_value(minor.drop_last().drop_last()) == 0);
            assert(minor.drop_last().last() == minor[0]);
            assert(numeral_value(minor.drop_last()) == digit_value(minor[0]));
            assert(digit_value(minor[0]) == 0);
            assert(minor.last() == minor[1]);
            assert(numeral_value(minor) == digit_value(minor[1]));
            assert(two_digits(v.minor as nat) =~= padded_minor(minor));
        } else {
            lemma_decimal_of_numeral(minor);
            lemma_numeral_prefix_le(minor, 1);
            assert(minor.take(1).drop_last() =~= Seq::<char>::empty());
            assert(numeral_value(minor.take(1).drop_last()) == 0);
            assert(minor.take(1).last() == minor[0]);
            assert(numeral_value(minor.take(1)) == digit_value(minor[0]));
            assert(numeral_value(minor) >= 10);
        }
    }
    assert(version_text(v) =~= major + seq!['.'] + padded_minor(minor));
}

/// Text without a dot, with two dots, with a part that is not a numeral, or with a
/// minor above 99 is not a version.
pub proof fn law_parse_rejects(s: Seq<char>)
    ensures
        (forall|i: int| 0 <= i < s.len() ==> s[i] != '.') ==> spec_parse(s) is None,
        (exists|i: int, j: int| 0 <= i < j < s.len() && s[i] == '.' && s[j] == '.')
            ==> spec_parse(s) is None,
        (forall|i: int| 0 <= i < s.len() && s[i] == '.'
            ==> !is_numeral(#[trigger] s.take(i)) || !is_numeral(s.skip(i + 1))) ==> spec_parse(s) is None,
        (forall|i: int| 0 <= i < s.len() && s[i] == '.'
            ==> numeral_value(#[trigger] s.skip(i + 1)) > 99) ==> spec_parse(s) is None,
{
    if exists|i: int, j: int| 0 <= i < j < s.len() && s[i] == '.' && s[j] == '.' {
        let (i, j) = choose|i: int, j: int| 0 <= i < j < s.len() && s[i] == '.' && s[j] == '.';
        assert forall|k: int| !dot_split_ok(s, k) by {
            if dot_split_ok(s, k) {
                if k <= i {
                    if k < i {
                        assert(s.skip(k + 1)[i - k - 1] == '.');
                        assert(is_digit(s.skip(k + 1)[i - k - 1]));
                    } else {
                        assert(s.skip(k + 1)[j - k - 1] == '.');
                        assert(is_digit(s.skip(k + 1)[j - k - 1]));
                    }
                } else {
                    assert(s.take(k)[i] == '.');
                    assert(is_digit(s.take(k)[i]));
                }
            }
        }
    }
    if forall|i: int| 0 <= i < s.len() && s[i] == '.' ==> numeral_value(#[trigger] s.skip(i + 1)) > 99 {
        assert forall|k: int| !dot_split_ok(s, k) by {
            if dot_split_ok(s, k) {
                lemma_short_numeral(s.skip(k + 1));
            }
        }
    }
}

} // verus!
