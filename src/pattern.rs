use vstd::prelude::*;
use vstd::string::StrSliceExecFns;

use crate::generator::{PatternToken, WordlistGenerator};

verus! {

/// Why a pattern was rejected.
#[derive(Debug, Clone, Copy, PartialEq, Eq)]
pub enum CompileError {
    /// A `.` stands at the end of the pattern, with nothing to escape.
    DanglingEscape,
    /// A `[` does not open a range of the shape `[<digits>-<digits>]`.
    MalformedRange,
    /// The start of a range does not fit in a `u32`.
    InvalidRangeStart,
    /// The end of a range is empty or does not fit in a `u32`.
    InvalidRangeEnd,
    /// The start of a range is not below its end.
    InvalidRangeOrder,
    /// A digit stands outside a range without a `.` before it.
    BareDigit(char),
    /// A character that the pattern language does not know.
    InvalidCharacter(char),
    /// A letter or digit stands without a `.` before it.
    UnescapedLiteral(char),
}

/// What `char::is_alphanumeric` says of `c` (Unicode's Alphabetic or Numeric).
pub uninterp spec fn alphanumeric(c: char) -> bool;

/// Relies on `char::is_alphanumeric`, whose result depends on `c` alone.
#[verifier::external_body]
fn is_alphanumeric(c: char) -> (r: bool)
    ensures
        r == alphanumeric(c),
{
    c.is_alphanumeric()
}

/// `c` is one of the ASCII digits `0` to `9`.
pub open spec fn is_decimal_digit(c: char) -> bool {
    '0' <= c <= '9'
}

/// The value of the decimal digit `c`.
pub open spec fn digit_value(c: char) -> nat {
    (c as u32 - 48) as nat
}

/// The number written by a sequence of decimal digits.
pub open spec fn digits_value(s: Seq<char>) -> nat
    decreases s.len(),
{
    if s.len() == 0 {
        0
    } else {
        digits_value(s.drop_last()) * 10 + digit_value(s.last())
    }
}

/// The first position at or after `j` that does not hold a decimal digit.
pub open spec fn digits_end(cs: Seq<char>, j: int) -> int
    decreases cs.len() - j,
{
    if 0 <= j < cs.len() && is_decimal_digit(cs[j]) {
        digits_end(cs, j + 1)
    } else {
        j
    }
}

/// The range that starts with the `[` at position `i`, and the position
/// after its closing `]`.
pub open spec fn range_at(cs: Seq<char>, i: int) -> Result<(Option<PatternToken>, int), CompileError> {
    if !(i + 2 < cs.len() && is_decimal_digit(cs[i + 1])) {
        Err(CompileError::MalformedRange)
    } else {
        let j = digits_end(cs, i + 1);
        if !(j < cs.len() && cs[j] == '-') {
            Err(CompileError::MalformedRange)
        } else if digits_value(cs.subrange(i + 1, j)) > u32::MAX {
            Err(CompileError::InvalidRangeStart)
        } else {
            let k = digits_end(cs, j + 1);
            let start = digits_value(cs.subrange(i + 1, j));
            let end = digits_value(cs.subrange(j + 1, k));
            if !(k < cs.len() && cs[k] == ']') {
                Err(CompileError::MalformedRange)
            } else if k == j + 1 || end > u32::MAX {
                Err(CompileError::InvalidRangeEnd)
            } else if start >= end {
                Err(CompileError::InvalidRangeOrder)
            } else {
                Ok((Some(PatternToken::Range(start as u32, end as u32)), k + 1))
            }
        }
    }
}

/// The token that starts at position `i`, if any, and the position after it.
pub open spec fn token_at(cs: Seq<char>, i: int) -> Result<(Option<PatternToken>, int), CompileError> {
    let c = cs[i];
    if c == '.' {
        if i + 1 < cs.len() {
            Ok((Some(PatternToken::Char(cs[i + 1])), i + 2))
        } else {
            Err(CompileError::DanglingEscape)
        }
    } else if c == '[' {
        range_at(cs, i)
    } else if c == '!' {
        Ok((Some(PatternToken::LowercaseAlphabet), i + 1))
    } else if c == '@' {
        Ok((Some(PatternToken::UppercaseAlphabet), i + 1))
    } else if c == '#' {
        Ok((Some(PatternToken::Digits), i + 1))
    } else if c == '%' {
        Ok((Some(PatternToken::Symbols), i + 1))
    } else {
        match plain_char(c, alphanumeric(c), i > 0 && cs[i - 1] == '.') {
            Err(e) => Err(e),
            Ok(()) => Ok((None, i + 1)),
        }
    }
}

/// What a character that is neither an escape, a range nor a class means:
/// a digit is refused, as is a character that is not alphanumeric, and an
/// alphanumeric one is accepted (and produces no token) only right after a `.`.
pub open spec fn plain_char(c: char, alnum: bool, after_dot: bool) -> Result<(), CompileError> {
    if is_decimal_digit(c) {
        Err(CompileError::BareDigit(c))
    } else if !alnum {
        Err(CompileError::InvalidCharacter(c))
    } else if !after_dot {
        Err(CompileError::UnescapedLiteral(c))
    } else {
        Ok(())
    }
}

/// The token, if there is one, as a sequence of zero or one tokens.
pub open spec fn opt_seq(t: Option<PatternToken>) -> Seq<PatternToken> {
    match t {
        Some(t) => seq![t],
        None => Seq::empty(),
    }
}

/// The tokens of the pattern `cs` from position `i` on.
pub open spec fn compile_from(cs: Seq<char>, i: int) -> Result<Seq<PatternToken>, CompileError>
    decreases cs.len() - i,
    via compile_from_decreases
{
    if i < 0 || i >= cs.len() {
        Ok(Seq::empty())
    } else {
        match token_at(cs, i) {
            Err(e) => Err(e),
            Ok((t, next)) => match compile_from(cs, next) {
                Err(e) => Err(e),
                Ok(rest) => Ok(opt_seq(t) + rest),
            },
        }
    }
}

/// The tokens of the pattern `cs`, or the first error in it.
pub open spec fn compile(cs: Seq<char>) -> Result<Seq<PatternToken>, CompileError> {
    compile_from(cs, 0)
}

proof fn lemma_digits_end(cs: Seq<char>, j: int)
    requires
        0 <= j <= cs.len(),
    ensures
        j <= digits_end(cs, j) <= cs.len(),
        forall|m: int| j <= m < digits_end(cs, j) ==> is_decimal_digit(#[trigger] cs[m]),
        digits_end(cs, j) < cs.len() ==> !is_decimal_digit(cs[digits_end(cs, j)]),
    decreases cs.len() - j,
{
    if j < cs.len() && is_decimal_digit(cs[j]) {
        lemma_digits_end(cs, j + 1);
    }
}

#[via_fn]
proof fn compile_from_decreases(cs: Seq<char>, i: int) {
    if 0 <= i < cs.len() {
        if cs[i] == '[' && i + 2 < cs.len() && is_decimal_digit(cs[i + 1]) {
            lemma_digits_end(cs, i + 1);
            let j = digits_end(cs, i + 1);
            if j < cs.len() {
                lemma_digits_end(cs, j + 1);
            }
        }
    }
}


proof fn lemma_digits_value_prefix(s: Seq<char>, k: int)
    requires
        0 <= k <= s.len(),
    ensures
        digits_value(s.take(k)) <= digits_value(s),
    decreases s.len(),
{
    if k < s.len() {
        assert(s.drop_last().take(k) =~= s.take(k));
        lemma_digits_value_prefix(s.drop_last(), k);
    } else {
        assert(s.take(k) =~= s);
    }
}

/// The first position at or after `j` that does not hold a decimal digit.
fn find_digits_end(chars: &Vec<char>, j: usize) -> (r: usize)
    requires
        j <= chars@.len(),
    ensures
        r == digits_end(chars@, j as int),
{
    let mut m = j;
    while m < chars.len() && '0' <= chars[m] && chars[m] <= '9'
        invariant
            j <= m <= chars@.len(),
            digits_end(chars@, m as int) == digits_end(chars@, j as int),
        decreases chars@.len() - m,
    {
        m += 1;
    }
    m
}

/// The number written by the digits at positions `from` to `to`, if it fits
/// in a `u32`.
fn parse_number(chars: &Vec<char>, from: usize, to: usize) -> (r: Option<u32>)
    requires
        from <= to <= chars@.len(),
        forall|m: int| from <= m < to ==> is_decimal_digit(#[trigger] chars@[m]),
    ensures
        r == (if digits_value(chars@.subrange(from as int, to as int)) <= u32::MAX {
            Some(digits_value(chars@.subrange(from as int, to as int)) as u32)
        } else {
            None
        }),
{
    let ghost s = chars@.subrange(from as int, to as int);
    let mut acc: u64 = 0;
    let mut m = from;
    while m < to
        invariant
            from <= m <= to <= chars@.len(),
            s == chars@.subrange(from as int, to as int),
            forall|x: int| from <= x < to ==> is_decimal_digit(#[trigger] chars@[x]),
            acc == digits_value(s.take(m - from)),
            acc <= u32::MAX,
        decreases to - m,
    {
        let d: u64 = (chars[m] as u32 - 48) as u64;
        acc = acc * 10 + d;
        m += 1;
        assert(s.take(m - from).drop_last() =~= s.take(m - from - 1));
        if acc > u32::MAX as u64 {
            proof {
                lemma_digits_value_prefix(s, m - from);
            }
            return None;
        }
    }
    assert(s.take(m - from) =~= s);
    Some(acc as u32)
}

/// The range that starts with the `[` at position `i`.
fn range_token(chars: &Vec<char>, i: usize) -> (r: Result<(Option<PatternToken>, usize), CompileError>)
    requires
        i < chars@.len(),
    ensures
        match r {
            Ok((t, n)) => n > i && range_at(chars@, i as int) == Ok::<_, CompileError>((t, n as int)),
            Err(e) => range_at(chars@, i as int) == Err::<(Option<PatternToken>, int), _>(e),
        },
{
    let n = chars.len();
    if !(i + 1 < n && i + 2 < n && '0' <= chars[i + 1] && chars[i + 1] <= '9') {
        return Err(CompileError::MalformedRange);
    }
    let j = find_digits_end(chars, i + 1);
    proof {
        lemma_digits_end(chars@, i + 1);
    }
    if !(j < chars.len() && chars[j] == '-') {
        return Err(CompileError::MalformedRange);
    }
    let start = match parse_number(chars, i + 1, j) {
        Some(v) => v,
        None => return Err(CompileError::InvalidRangeStart),
    };
    let k = find_digits_end(chars, j + 1);
    proof {
        lemma_digits_end(chars@, j + 1);
    }
    if !(k < chars.len() && chars[k] == ']') {
        return Err(CompileError::MalformedRange);
    }
    if k == j + 1 {
        return Err(CompileError::InvalidRangeEnd);
    }
    let end = match parse_number(chars, j + 1, k) {
        Some(v) => v,
        None => return Err(CompileError::InvalidRangeEnd),
    };
    if start >= end {
        return Err(CompileError::InvalidRangeOrder);
    }
    Ok((Some(PatternToken::Range(start, end)), k + 1))
}

/// The token that starts at position `i`, if any, and the position after it.
fn next_token(chars: &Vec<char>, i: usize) -> (r: Result<(Option<PatternToken>, usize), CompileError>)
    requires
        i < chars@.len(),
    ensures
        match r {
            Ok((t, n)) => n > i && token_at(chars@, i as int) == Ok::<_, CompileError>((t, n as int)),
            Err(e) => token_at(chars@, i as int) == Err::<(Option<PatternToken>, int), _>(e),
        },
{
    let n = chars.len();
    let c = chars[i];
    if c == '.' {
        if i + 1 < n {
            Ok((Some(PatternToken::Char(chars[i + 1])), i + 2))
        } else {
            Err(CompileError::DanglingEscape)
        }
    } else if c == '[' {
        range_token(chars, i)
    } else if c == '!' {
        Ok((Some(PatternToken::LowercaseAlphabet), i + 1))
    } else if c == '@' {
        Ok((Some(PatternToken::UppercaseAlphabet), i + 1))
    } else if c == '#' {
        Ok((Some(PatternToken::Digits), i + 1))
    } else if c == '%' {
        Ok((Some(PatternToken::Symbols), i + 1))
    } else {
        let alnum = is_alphanumeric(c);
        check_plain_char(c, alnum, i > 0 && chars[i - 1] == '.')?;
        Ok((None, i + 1))
    }
}

/// Checks a character that is neither an escape, a range nor a class, given
/// whether it is alphanumeric and whether a `.` stands right before it.
pub fn check_plain_char(c: char, alnum: bool, after_dot: bool) -> (r: Result<(), CompileError>)
    ensures
        r == plain_char(c, alnum, after_dot),
{
    if '0' <= c && c <= '9' {
        Err(CompileError::BareDigit(c))
    } else if !alnum {
        Err(CompileError::InvalidCharacter(c))
    } else if !after_dot {
        Err(CompileError::UnescapedLiteral(c))
    } else {
        Ok(())
    }
}

/// The characters of `s`, in order.
fn chars_of(s: &str) -> (r: Vec<char>)
    ensures
        r@ == s@,
{
    let n = s.unicode_len();
    let mut r: Vec<char> = Vec::new();
    let mut i: usize = 0;
    while i < n
        invariant
            n == s@.len(),
            i <= n,
            r@ =~= s@.take(i as int),
        decreases n - i,
    {
        r.push(s.get_char(i));
        i += 1;
        assert(r@ =~= s@.take(i as int));
    }
    assert(s@.take(i as int) =~= s@);
    r
}

impl WordlistGenerator {
/// Compiles a pattern into its tokens, or returns the first error in it.
pub(crate) fn parse_pattern(pattern: &str) -> (r: Result<Vec<PatternToken>, CompileError>)
    ensures
        match r {
            Ok(v) => compile(pattern@) == Ok::<_, CompileError>(v@),
            Err(e) => compile(pattern@) == Err::<Seq<PatternToken>, _>(e),
        },
{
    let chars = chars_of(pattern);
    let mut tokens: Vec<PatternToken> = Vec::new();
    let mut i: usize = 0;
    while i < chars.len()
        invariant
            i <= chars@.len(),
            chars@ == pattern@,
            compile(pattern@) == match compile_from(chars@, i as int) {
                Ok(rest) => Ok(tokens@ + rest),
                Err(e) => Err(e),
            },
        decreases chars@.len() - i,
    {
        match next_token(&chars, i) {
            Err(e) => {
                return Err(e);
            },
            Ok((t, next)) => {
                let ghost before = tokens@;
                match t {
                    Some(t) => tokens.push(t),
                    None => {},
                }
                assert(tokens@ =~= before + opt_seq(t));
                proof {
                    match compile_from(chars@, next as int) {
                        Ok(rest) => {
                            assert(before + (opt_seq(t) + rest) =~= tokens@ + rest);
                        },
                        Err(e) => {},
                    }
                }
                i = next;
            },
        }
    }
    assert(tokens@ + Seq::<PatternToken>::empty() =~= tokens@);
    Ok(tokens)
}
}

} // verus!
