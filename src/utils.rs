use vstd::prelude::*;

use crate::generator::{choices, extend, range_len, words, PatternToken};

verus! {

/// Why the size of a wordlist could not be given.
#[derive(Debug, Clone, Copy, PartialEq, Eq)]
pub enum SizeError {
    /// A range token whose start is above its end.
    InvalidRange,
    /// The number of words does not fit in a `u64`.
    Overflow,
}

/// The number of strings a token stands for.
pub open spec fn count(t: PatternToken) -> nat {
    match t {
        PatternToken::Char(_) => 1,
        PatternToken::Range(start, end) => range_len(start, end),
        PatternToken::LowercaseAlphabet => 26,
        PatternToken::UppercaseAlphabet => 26,
        PatternToken::Digits => 10,
        PatternToken::Symbols => 9,
    }
}

/// The product of the counts of the tokens.
pub open spec fn product(ts: Seq<PatternToken>) -> nat
    decreases ts.len(),
{
    if ts.len() == 0 {
        1
    } else {
        product(ts.drop_last()) * count(ts.last())
    }
}

/// A range token's start is not above its end; other tokens always hold.
pub open spec fn ordered(t: PatternToken) -> bool {
    match t {
        PatternToken::Range(start, end) => start <= end,
        _ => true,
    }
}

/// The size that a left-to-right fold with checked `u64` multiplication
/// gives: the first token that is a reversed range, or whose factor takes the
/// running product past `u64::MAX`, ends it with an error.
pub open spec fn checked_size(ts: Seq<PatternToken>) -> Result<nat, SizeError>
    decreases ts.len(),
{
    if ts.len() == 0 {
        Ok(1)
    } else {
        match checked_size(ts.drop_last()) {
            Err(e) => Err(e),
            Ok(p) => if !ordered(ts.last()) {
                Err(SizeError::InvalidRange)
            } else if p * count(ts.last()) > u64::MAX {
                Err(SizeError::Overflow)
            } else {
                Ok(p * count(ts.last()))
            },
        }
    }
}

proof fn lemma_count_positive(t: PatternToken)
    requires
        ordered(t),
    ensures
        count(t) >= 1,
{
}

proof fn lemma_product_prefix(ts: Seq<PatternToken>, k: int)
    requires
        0 <= k <= ts.len(),
        forall|m: int| 0 <= m < ts.len() ==> ordered(#[trigger] ts[m]),
    ensures
        product(ts.take(k)) <= product(ts),
    decreases ts.len(),
{
    if k < ts.len() {
        assert(ts.drop_last().take(k) =~= ts.take(k));
        lemma_product_prefix(ts.drop_last(), k);
        lemma_count_positive(ts.last());
        let p = product(ts.drop_last());
        assert(p <= p * count(ts.last())) by (nonlinear_arith)
            requires count(ts.last()) >= 1;
    } else {
        assert(ts.take(k) =~= ts);
    }
}

/// With every range in order, the checked fold gives the product exactly
/// when the product fits in a `u64`, and fails with `Overflow` otherwise.
pub proof fn lemma_checked_size_is_product(ts: Seq<PatternToken>)
    requires
        forall|m: int| 0 <= m < ts.len() ==> ordered(#[trigger] ts[m]),
    ensures
        product(ts) <= u64::MAX ==> checked_size(ts) == Ok::<nat, SizeError>(product(ts)),
        product(ts) > u64::MAX ==> checked_size(ts) == Err::<nat, SizeError>(SizeError::Overflow),
    decreases ts.len(),
{
    if ts.len() > 0 {
        let init = ts.drop_last();
        lemma_checked_size_is_product(init);
        assert(init =~= ts.take(ts.len() - 1));
        lemma_product_prefix(ts, ts.len() - 1);
    }
}

proof fn lemma_checked_size_is_product_when_ok(ts: Seq<PatternToken>)
    requires
        checked_size(ts) is Ok,
    ensures
        checked_size(ts) == Ok::<nat, SizeError>(product(ts)),
    decreases ts.len(),
{
    if ts.len() > 0 {
        lemma_checked_size_is_product_when_ok(ts.drop_last());
    }
}

proof fn lemma_extend_len(ws: Seq<Seq<char>>, cs: Seq<Seq<char>>)
    ensures
        extend(ws, cs).len() == ws.len() * cs.len(),
    decreases ws.len(),
{
    if ws.len() > 0 {
        lemma_extend_len(ws.drop_last(), cs);
        assert((ws.len() - 1) * cs.len() + cs.len() == ws.len() * cs.len()) by (nonlinear_arith);
    }
}

/// The number of words a token sequence expands to is the product of the
/// counts of its tokens.
pub proof fn lemma_words_len(ts: Seq<PatternToken>)
    ensures
        words(ts).len() == product(ts),
    decreases ts.len(),
{
    if ts.len() > 0 {
        lemma_words_len(ts.drop_last());
        lemma_extend_len(words(ts.drop_last()), choices(ts.last()));
    }
}

/// Whenever the size estimate succeeds, it is the number of generated words.
pub proof fn law_estimate_counts_words(ts: Seq<PatternToken>)
    requires
        checked_size(ts) is Ok,
    ensures
        words(ts).len() == checked_size(ts)->Ok_0,
{
    lemma_checked_size_is_product_when_ok(ts);
    lemma_words_len(ts);
}

/// The number of words the tokens expand to, computed without expanding
/// them; fails on a reversed range, or when the number does not fit in a `u64`.
pub fn estimate_size(tokens: &[PatternToken]) -> (r: Result<u64, SizeError>)
    ensures
        match r {
            Ok(n) => checked_size(tokens@) == Ok::<nat, SizeError>(n as nat),
            Err(e) => checked_size(tokens@) == Err::<nat, SizeError>(e),
        },
        (forall|m: int| 0 <= m < tokens@.len() ==> ordered(#[trigger] tokens@[m])) ==> (
            r is Ok <==> product(tokens@) <= u64::MAX),
        r is Ok ==> r->Ok_0 == product(tokens@),
        r is Ok ==> r->Ok_0 == words(tokens@).len(),
{
    let mut total: u64 = 1;
    let mut i: usize = 0;
    while i < tokens.len()
        invariant
            i <= tokens@.len(),
            checked_size(tokens@.take(i as int)) == Ok::<nat, SizeError>(total as nat),
        decreases tokens@.len() - i,
    {
        let count: u64 = match tokens[i] {
            PatternToken::Char(_) => 1,
            PatternToken::Range(start, end) => {
                if start > end {
                    assert(tokens@.take(i + 1).drop_last() =~= tokens@.take(i as int));
                    proof { lemma_checked_prefix_err(tokens@, i + 1); }
                    return Err(SizeError::InvalidRange);
                }
                end as u64 - start as u64 + 1
            },
            PatternToken::LowercaseAlphabet => 26,
            PatternToken::UppercaseAlphabet => 26,
            PatternToken::Digits => 10,
            PatternToken::Symbols => 9,
        };
        assert(tokens@.take(i + 1).drop_last() =~= tokens@.take(i as int));
        match total.checked_mul(count) {
            Some(t) => total = t,
            None => {
                proof {
                    lemma_checked_prefix_err(tokens@, i + 1);
                    if forall|m: int| 0 <= m < tokens@.len() ==> ordered(#[trigger] tokens@[m]) {
                        lemma_checked_size_is_product(tokens@);
                    }
                }
                return Err(SizeError::Overflow);
            },
        }
        i += 1;
    }
    assert(tokens@.take(i as int) =~= tokens@);
    proof {
        law_estimate_counts_words(tokens@);
        lemma_checked_size_is_product_when_ok(tokens@);
        if forall|m: int| 0 <= m < tokens@.len() ==> ordered(#[trigger] tokens@[m]) {
            lemma_checked_size_is_product(tokens@);
        }
    }
    Ok(total)
}

/// An error in the fold over a prefix is the error of the whole sequence.
proof fn lemma_checked_prefix_err(ts: Seq<PatternToken>, k: int)
    requires
        0 <= k <= ts.len(),
        checked_size(ts.take(k)) is Err,
    ensures
        checked_size(ts) == checked_size(ts.take(k)),
    decreases ts.len() - k,
{
    if k < ts.len() {
        assert(ts.take(k + 1).drop_last() =~= ts.take(k));
        lemma_checked_prefix_err(ts, k + 1);
    } else {
        assert(ts.take(k) =~= ts);
    }
}

} // verus!
