use rand::seq::SliceRandom;
use vstd::prelude::*;

use crate::cli::Arrangement;
use crate::pattern::{compile, CompileError};
use crate::strings::{decimal, push_char, push_decimal, push_str};

verus! {

/// One unit of a compiled pattern.
#[derive(Debug, Clone, Copy, PartialEq, Eq)]
pub enum PatternToken {
    /// A fixed character.
    Char(char),
    /// An inclusive range of numbers, written in decimal.
    Range(u32, u32),
    /// The letters `a` to `z`.
    LowercaseAlphabet,
    /// The letters `A` to `Z`.
    UppercaseAlphabet,
    /// The digits `0` to `9`.
    Digits,
    /// The symbols `!@#$%^&*?`.
    Symbols,
}

/// A compiled pattern.
#[derive(Debug)]
pub struct WordlistGenerator {
    /// The tokens, in pattern order.
    pub tokens: Vec<PatternToken>,
}

/// The characters of a character class, in the order they are enumerated.
pub open spec fn class_chars(t: PatternToken) -> Seq<char> {
    match t {
        PatternToken::LowercaseAlphabet => Seq::new(26, |k: int| ((97 + k) as u32) as char),
        PatternToken::UppercaseAlphabet => Seq::new(26, |k: int| ((65 + k) as u32) as char),
        PatternToken::Digits => Seq::new(10, |k: int| ((48 + k) as u32) as char),
        PatternToken::Symbols => seq!['!', '@', '#', '$', '%', '^', '&', '*', '?'],
        _ => Seq::empty(),
    }
}

/// The number of values of the range `[start, end]`.
pub open spec fn range_len(start: u32, end: u32) -> nat {
    if start <= end {
        (end - start + 1) as nat
    } else {
        0
    }
}

/// The strings a token may stand for, in the order they are enumerated.
pub open spec fn choices(t: PatternToken) -> Seq<Seq<char>> {
    match t {
        PatternToken::Char(c) => seq![seq![c]],
        PatternToken::Range(start, end) => Seq::new(
            range_len(start, end),
            |k: int| decimal((start + k) as nat),
        ),
        _ => class_chars(t).map_values(|c: char| seq![c]),
    }
}

/// Every word of `ws` followed by every choice of `cs`: the words vary
/// slowest, the choices fastest.
pub open spec fn extend(ws: Seq<Seq<char>>, cs: Seq<Seq<char>>) -> Seq<Seq<char>>
    decreases ws.len(),
{
    if ws.len() == 0 {
        Seq::empty()
    } else {
        extend(ws.drop_last(), cs) + cs.map_values(|c: Seq<char>| ws.last() + c)
    }
}

/// The words that a token sequence expands to, in order: the first token
/// varies slowest and the last one fastest.
pub open spec fn words(ts: Seq<PatternToken>) -> Seq<Seq<char>>
    decreases ts.len(),
{
    if ts.len() == 0 {
        seq![Seq::empty()]
    } else {
        extend(words(ts.drop_last()), choices(ts.last()))
    }
}

/// The strings of a one-character class.
fn class_strings(t: PatternToken) -> (r: Vec<String>)
    requires
        !(t is Char),
        !(t is Range),
    ensures
        r.deep_view() == choices(t),
{
    let (base, n): (u8, u8) = match t {
        PatternToken::LowercaseAlphabet => (97, 26),
        PatternToken::UppercaseAlphabet => (65, 26),
        PatternToken::Digits => (48, 10),
        _ => (0, 0),
    };
    let mut r: Vec<String> = Vec::new();
    if matches!(t, PatternToken::Symbols) {
        let symbols: Vec<char> = vec!['!', '@', '#', '$', '%', '^', '&', '*', '?'];
        assert(symbols@ =~= class_chars(t));
        let mut k: usize = 0;
        while k < symbols.len()
            invariant
                k <= symbols@.len(),
                symbols@ == class_chars(t),
                r.deep_view() =~= choices(t).take(k as int),
            decreases symbols@.len() - k,
        {
            let mut w = String::new();
            push_char(&mut w, symbols[k]);
            assert(w@ =~= seq![symbols@[k as int]]);
            let ghost dv0 = r.deep_view();
            r.push(w);
            assert(r.deep_view() =~= dv0.push(w@));
            k += 1;
            assert(r.deep_view() =~= choices(t).take(k as int));
        }
    } else {
        let mut k: u8 = 0;
        while k < n
            invariant
                k <= n,
                n == class_chars(t).len(),
                forall|j: int| 0 <= j < n ==> class_chars(t)[j] == ((base + j) as u32) as char,
                base as int + n <= 123,
                r.deep_view() =~= choices(t).take(k as int),
            decreases n - k,
        {
            let mut w = String::new();
            push_char(&mut w, (base + k) as char);
            assert(w@ =~= seq![class_chars(t)[k as int]]);
            let ghost dv0 = r.deep_view();
            r.push(w);
            assert(r.deep_view() =~= dv0.push(w@));
            k += 1;
            assert(r.deep_view() =~= choices(t).take(k as int));
        }
    }
    assert(r.deep_view() =~= choices(t));
    r
}

/// The strings a token may stand for, in the order they are enumerated.
fn token_strings(t: PatternToken) -> (r: Vec<String>)
    ensures
        r.deep_view() == choices(t),
{
    match t {
        PatternToken::Char(c) => {
            let mut w = String::new();
            push_char(&mut w, c);
            let r = vec![w];
            assert(r.deep_view() =~= choices(t));
            r
        },
        PatternToken::Range(start, end) => {
            let mut r: Vec<String> = Vec::new();
            let mut num: u64 = start as u64;
            while num <= end as u64
                invariant
                    t == PatternToken::Range(start, end),
                    start <= num <= end as int + 1 || (start > end && num == start),
                    r.deep_view() =~= choices(t).take(num - start),
                decreases end as int + 1 - num,
            {
                let mut w = String::new();
                push_decimal(&mut w, num as u32);
                assert(w@ =~= decimal(num as nat));
                assert(choices(t)[num - start] == decimal(num as nat));
                let ghost dv0 = r.deep_view();
                r.push(w);
                assert(r.deep_view() =~= dv0.push(w@));
                num += 1;
                assert(r.deep_view() =~= choices(t).take(num - start));
            }
            assert(r.deep_view() =~= choices(t));
            r
        },
        _ => class_strings(t),
    }
}

/// Relies on rand's `thread_rng` and `SliceRandom::shuffle`, which swaps
/// pairs of elements in place (a Fisher-Yates shuffle), so the elements are
/// only permuted. `thread_rng` panics only when the system's entropy source
/// cannot seed it.
#[verifier::external_body]
fn shuffle_in_place(v: &mut Vec<String>)
    ensures
        final(v)@.to_multiset() == old(v)@.to_multiset(),
        final(v)@.len() == old(v)@.len(),
{
    v.shuffle(&mut rand::thread_rng())
}

/// Relies on `slice::reverse`: the elements in the opposite order.
#[verifier::external_body]
fn reverse_in_place(v: &mut Vec<String>)
    ensures
        final(v)@ == old(v)@.reverse(),
{
    v.reverse()
}

/// Every word of `ws` followed by every string of `cs`.
fn expand(ws: &Vec<String>, cs: &Vec<String>) -> (r: Vec<String>)
    ensures
        r.deep_view() == extend(ws.deep_view(), cs.deep_view()),
{
    let mut r: Vec<String> = Vec::new();
    let mut i: usize = 0;
    while i < ws.len()
        invariant
            i <= ws@.len(),
            r.deep_view() == extend(ws.deep_view().take(i as int), cs.deep_view()),
        decreases ws@.len() - i,
    {
        let ghost before = r.deep_view();
        let mut j: usize = 0;
        while j < cs.len()
            invariant
                i < ws@.len(),
                j <= cs@.len(),
                r.deep_view() =~= before + cs.deep_view().take(j as int).map_values(
                    |c: Seq<char>| ws.deep_view()[i as int] + c,
                ),
            decreases cs@.len() - j,
        {
            let mut w = ws[i].clone();
            push_str(&mut w, cs[j].as_str());
            assert(w@ == ws.deep_view()[i as int] + cs.deep_view()[j as int]);
            let ghost dv0 = r.deep_view();
            r.push(w);
            assert(r.deep_view() =~= dv0.push(w@));
            j += 1;
            assert(r.deep_view() =~= before + cs.deep_view().take(j as int).map_values(
                |c: Seq<char>| ws.deep_view()[i as int] + c,
            ));
        }
        let ghost wi = ws.deep_view().take(i + 1);
        assert(wi.drop_last() =~= ws.deep_view().take(i as int));
        assert(cs.deep_view().take(j as int) =~= cs.deep_view());
        i += 1;
        assert(r.deep_view() =~= extend(wi, cs.deep_view()));
    }
    assert(ws.deep_view().take(i as int) =~= ws.deep_view());
    r
}

impl WordlistGenerator {
    /// Compiles `pattern`; fails with the first error in it.
    pub fn new(pattern: &str) -> (r: Result<Self, CompileError>)
        ensures
            match r {
                Ok(g) => compile(pattern@) == Ok::<_, CompileError>(g.tokens@),
                Err(e) => compile(pattern@) == Err::<Seq<PatternToken>, _>(e),
            },
    {
        let tokens = Self::parse_pattern(pattern)?;
        Ok(Self { tokens })
    }

    /// Expands the tokens into every word they describe: the first token
    /// varies slowest and the last one fastest; with no tokens the result is
    /// a single empty word.
    pub fn generate(&self) -> (r: Vec<String>)
        ensures
            r.deep_view() == words(self.tokens@),
    {
        let mut wordlist: Vec<String> = Vec::new();
        wordlist.push(String::new());
        assert(wordlist.deep_view() =~= words(self.tokens@.take(0)));
        let mut i: usize = 0;
        while i < self.tokens.len()
            invariant
                i <= self.tokens@.len(),
                wordlist.deep_view() == words(self.tokens@.take(i as int)),
            decreases self.tokens@.len() - i,
        {
            let cs = token_strings(self.tokens[i]);
            wordlist = expand(&wordlist, &cs);
            assert(self.tokens@.take(i + 1).drop_last() =~= self.tokens@.take(i as int));
            i += 1;
        }
        assert(self.tokens@.take(i as int) =~= self.tokens@);
        wordlist
    }

    /// Puts the words in a random order: the same words, each as many
    /// times as before.
    pub fn shuffle(&self, wordlist: &mut Vec<String>)
        ensures
            final(wordlist)@.to_multiset() == old(wordlist)@.to_multiset(),
            final(wordlist)@.len() == old(wordlist)@.len(),
    {
        shuffle_in_place(wordlist);
    }

    /// Puts the words in the opposite order.
    pub fn reverse(&self, wordlist: &mut Vec<String>)
        ensures
            final(wordlist)@ == old(wordlist)@.reverse(),
            final(wordlist).deep_view() == old(wordlist).deep_view().reverse(),
    {
        reverse_in_place(wordlist);
        assert(wordlist.deep_view() =~= old(wordlist).deep_view().reverse());
    }

    /// Applies an arrangement to the words: leaves them, shuffles them or
    /// reverses them.
    pub fn arrange(&self, wordlist: &mut Vec<String>, how: Arrangement)
        ensures
            how == Arrangement::Generated ==> *final(wordlist) == *old(wordlist),
            how == Arrangement::Shuffled ==> final(wordlist)@.to_multiset() == old(wordlist)@.to_multiset()
                && final(wordlist)@.len() == old(wordlist)@.len(),
            how == Arrangement::Reversed ==> final(wordlist)@ == old(wordlist)@.reverse(),
    {
        match how {
            Arrangement::Generated => {},
            Arrangement::Shuffled => self.shuffle(wordlist),
            Arrangement::Reversed => self.reverse(wordlist),
        }
    }
}

/// Reversing the generated words reads them backward: the word at position
/// `i` of the reversed list is the word at position `len - 1 - i` of the
/// generated one.
pub proof fn law_reverse_reads_backward(ts: Seq<PatternToken>)
    ensures
        words(ts).reverse().len() == words(ts).len(),
        forall|i: int|
            0 <= i < words(ts).len() ==> #[trigger] words(ts).reverse()[i] == words(ts)[words(ts).len() - 1 - i],
{
}

} // verus!
