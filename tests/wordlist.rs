use wrdlist::pattern::check_plain_char;
use wrdlist::{estimate_size, Arrangement, Cli, CompileError, PatternToken, SizeError, WordlistGenerator};

fn tokens_of(pattern: &str) -> Vec<PatternToken> {
    WordlistGenerator::new(pattern).unwrap().tokens
}

fn words_of(pattern: &str) -> Vec<String> {
    WordlistGenerator::new(pattern).unwrap().generate()
}

fn error_of(pattern: &str) -> CompileError {
    WordlistGenerator::new(pattern).unwrap_err()
}

fn cli(random: bool, inverse: bool) -> Cli {
    Cli { pattern: String::from("!"), output: None, random, inverse, version: false }
}

#[test]
fn empty_pattern_gives_one_empty_word() {
    assert!(tokens_of("").is_empty());
    assert_eq!(words_of(""), vec![String::new()]);
    assert_eq!(estimate_size(&[]), Ok(1));
}

#[test]
fn escaped_letter_is_a_literal() {
    assert_eq!(tokens_of(".a"), vec![PatternToken::Char('a')]);
    assert_eq!(words_of(".a"), vec!["a".to_string()]);
}

#[test]
fn numeric_range_counts_up() {
    assert_eq!(tokens_of("[1-3]"), vec![PatternToken::Range(1, 3)]);
    assert_eq!(words_of("[1-3]"), vec!["1", "2", "3"]);
}

#[test]
fn range_crosses_into_two_digits() {
    assert_eq!(words_of("[9-11]"), vec!["9", "10", "11"]);
    assert_eq!(words_of("[98-101]"), vec!["98", "99", "100", "101"]);
}

#[test]
fn lowercase_class_is_a_to_z() {
    assert_eq!(tokens_of("!"), vec![PatternToken::LowercaseAlphabet]);
    let expected: Vec<String> = ('a'..='z').map(|c| c.to_string()).collect();
    assert_eq!(words_of("!"), expected);
}

#[test]
fn uppercase_class_is_a_to_z() {
    assert_eq!(tokens_of("@"), vec![PatternToken::UppercaseAlphabet]);
    let expected: Vec<String> = ('A'..='Z').map(|c| c.to_string()).collect();
    assert_eq!(words_of("@"), expected);
}

#[test]
fn symbol_class_in_its_fixed_order() {
    assert_eq!(tokens_of("%"), vec![PatternToken::Symbols]);
    assert_eq!(words_of("%"), vec!["!", "@", "#", "$", "%", "^", "&", "*", "?"]);
}

#[test]
fn digit_class_then_literal() {
    assert_eq!(tokens_of("#.a"), vec![PatternToken::Digits, PatternToken::Char('a')]);
    let expected: Vec<String> = (0..10).map(|d| format!("{}a", d)).collect();
    assert_eq!(words_of("#.a"), expected);
}

#[test]
fn composite_pattern_first_token_varies_slowest() {
    let tokens = tokens_of(".#[9-11].X.d");
    assert_eq!(
        tokens,
        vec![
            PatternToken::Char('#'),
            PatternToken::Range(9, 11),
            PatternToken::Char('X'),
            PatternToken::Char('d'),
        ]
    );
    assert_eq!(words_of(".#[9-11].X.d"), vec!["#9Xd", "#10Xd", "#11Xd"]);
    assert_eq!(words_of("[1-2]!").len(), 52);
    let w = words_of("[1-2]!");
    assert_eq!(w[0], "1a");
    assert_eq!(w[1], "1b");
    assert_eq!(w[26], "2a");
    assert_eq!(w[51], "2z");
}

#[test]
fn duplicates_are_kept() {
    assert_eq!(words_of(".a.a"), vec!["aa"]);
    assert_eq!(words_of("[1-2][1-2]"), vec!["11", "12", "21", "22"]);
}

#[test]
fn escaped_dot_then_letter_after_it() {
    assert_eq!(tokens_of("..a"), vec![PatternToken::Char('.')]);
}

#[test]
fn equal_bounds_are_rejected() {
    assert_eq!(error_of("[5-5]"), CompileError::InvalidRangeOrder);
    assert_eq!(error_of("[7-3]"), CompileError::InvalidRangeOrder);
}

#[test]
fn bare_digit_is_rejected() {
    assert_eq!(error_of("5"), CompileError::BareDigit('5'));
}

#[test]
fn unescaped_letter_is_rejected() {
    assert_eq!(error_of("ab"), CompileError::UnescapedLiteral('a'));
    assert_eq!(error_of(".ab"), CompileError::UnescapedLiteral('b'));
}

#[test]
fn unknown_character_is_rejected() {
    assert_eq!(error_of("$"), CompileError::InvalidCharacter('$'));
    assert_eq!(error_of(".a-"), CompileError::InvalidCharacter('-'));
}

#[test]
fn trailing_dot_is_rejected() {
    assert_eq!(error_of("."), CompileError::DanglingEscape);
    assert_eq!(error_of("!."), CompileError::DanglingEscape);
}

#[test]
fn malformed_ranges_are_rejected() {
    assert_eq!(error_of("[1-2"), CompileError::MalformedRange);
    assert_eq!(error_of("[a-2]"), CompileError::MalformedRange);
    assert_eq!(error_of("[12]"), CompileError::MalformedRange);
    assert_eq!(error_of("[1"), CompileError::MalformedRange);
    assert_eq!(error_of("[1-2x"), CompileError::MalformedRange);
}

#[test]
fn range_bounds_that_do_not_fit_are_rejected() {
    assert_eq!(error_of("[4294967296-4294967297]"), CompileError::InvalidRangeStart);
    assert_eq!(error_of("[1-4294967296]"), CompileError::InvalidRangeEnd);
    assert_eq!(error_of("[1-]"), CompileError::InvalidRangeEnd);
    assert_eq!(tokens_of("[0-4294967295]"), vec![PatternToken::Range(0, 4294967295)]);
}

#[test]
fn plain_character_rules() {
    assert_eq!(check_plain_char('7', true, true), Err(CompileError::BareDigit('7')));
    assert_eq!(check_plain_char('$', false, true), Err(CompileError::InvalidCharacter('$')));
    assert_eq!(check_plain_char('q', true, false), Err(CompileError::UnescapedLiteral('q')));
    assert_eq!(check_plain_char('q', true, true), Ok(()));
}

#[test]
fn estimate_matches_generated_count() {
    for p in ["", ".a", "[1-3]", "!", "#.a", "[1-2]!%", "@[10-12]#"] {
        let g = WordlistGenerator::new(p).unwrap();
        assert_eq!(estimate_size(&g.tokens).unwrap(), g.generate().len() as u64);
    }
    assert_eq!(estimate_size(&tokens_of("!@#%[1-5]")).unwrap(), 26 * 26 * 10 * 9 * 5);
}

#[test]
fn estimate_overflows_instead_of_wrapping() {
    assert_eq!(estimate_size(&tokens_of("!!!!!!!!!!!!!")), Ok(26u64.pow(13)));
    assert_eq!(estimate_size(&tokens_of("!!!!!!!!!!!!!!")), Err(SizeError::Overflow));
    assert_eq!(estimate_size(&tokens_of("[0-4294967295][0-4294967295]")), Err(SizeError::Overflow));
}

#[test]
fn estimate_rejects_reversed_hand_built_range() {
    assert_eq!(estimate_size(&[PatternToken::Range(4, 2)]), Err(SizeError::InvalidRange));
    assert_eq!(estimate_size(&[PatternToken::Range(2, 2), PatternToken::Digits]), Ok(10));
}

#[test]
fn reverse_reads_backward() {
    let g = WordlistGenerator::new("[1-3].x").unwrap();
    let forward = g.generate();
    let mut backward = g.generate();
    g.reverse(&mut backward);
    assert_eq!(backward, vec!["3x", "2x", "1x"]);
    for i in 0..forward.len() {
        assert_eq!(backward[i], forward[forward.len() - 1 - i]);
    }
}

#[test]
fn shuffle_keeps_every_word() {
    let g = WordlistGenerator::new("!").unwrap();
    let original = g.generate();
    let mut seen_other_order = false;
    for _ in 0..20 {
        let mut words = g.generate();
        g.shuffle(&mut words);
        assert_eq!(words.len(), original.len());
        let mut sorted = words.clone();
        sorted.sort();
        assert_eq!(sorted, original);
        if words != original {
            seen_other_order = true;
        }
    }
    assert!(seen_other_order);
}

#[test]
fn random_takes_precedence_over_inverse() {
    assert_eq!(cli(true, true).arrangement(), Arrangement::Shuffled);
    assert_eq!(cli(true, false).arrangement(), Arrangement::Shuffled);
    assert_eq!(cli(false, true).arrangement(), Arrangement::Reversed);
    assert_eq!(cli(false, false).arrangement(), Arrangement::Generated);
}

#[test]
fn arrange_applies_the_arrangement() {
    let g = WordlistGenerator::new("[1-3]").unwrap();
    let mut words = g.generate();
    g.arrange(&mut words, Arrangement::Generated);
    assert_eq!(words, vec!["1", "2", "3"]);
    g.arrange(&mut words, Arrangement::Reversed);
    assert_eq!(words, vec!["3", "2", "1"]);
    g.arrange(&mut words, Arrangement::Shuffled);
    words.sort();
    assert_eq!(words, vec!["1", "2", "3"]);
}
