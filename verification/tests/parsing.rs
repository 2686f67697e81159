use strgen::parser::{atom, literal, number, quantifier, Step};
use strgen::{ParseError, Pattern, Rule};

const UNBOUNDED: u64 = u64::MAX;

fn chars(text: &str) -> Vec<char> {
    text.chars().collect()
}

fn lit(c: char) -> Pattern {
    Pattern::Literal(c)
}

fn seq(items: Vec<Pattern>) -> Result<Pattern, ParseError> {
    Ok(Pattern::Sequence(items))
}

fn quant(pattern: Pattern, min: u64, max: u64) -> Pattern {
    Pattern::Quantification { pattern: Box::new(pattern), min, max }
}

fn fails(text: &str, offset: usize, rule: Rule) {
    assert_eq!(Pattern::parse(text), Err(ParseError { offset, rule }), "{text}");
}

#[test]
fn parse_atom() {
    assert_eq!(
        atom(&chars("a|b|c"), 0),
        Step::Match(
            Pattern::Or(
                Pattern::Literal('a').into(),
                Pattern::Or(Pattern::Literal('b').into(), Pattern::Literal('c').into()).into()
            ),
            5
        )
    );
}

#[test]
fn parse_literal() {
    assert_eq!(literal(&chars("a"), 0), Step::Match(Pattern::Literal('a'), 1));
    assert_eq!(literal(&chars("\\n"), 0), Step::Match(Pattern::Literal('\n'), 2));
}

#[test]
fn single_literal() {
    assert_eq!(Pattern::parse("a"), seq(vec![lit('a')]));
}

#[test]
fn class_of_range() {
    assert_eq!(Pattern::parse("[a-c]"), seq(vec![Pattern::Class(vec!['a', 'b', 'c'])]));
}

#[test]
fn malformed_inputs() {
    fails("(a", 2, Rule::Group);
    fails("[z-a]", 1, Rule::Range);
    fails("a{3,1}", 1, Rule::Quantifier);
    fails("a{", 2, Rule::Quantifier);
}

#[test]
fn parsing_twice_gives_equal_trees() {
    for text in ["", "a", "[a-c]{2,4}|(x.y)+", "\\d\\w\\s", "(a", "[z-a]"] {
        assert_eq!(Pattern::parse(text), Pattern::parse(text));
    }
}

#[test]
fn empty_pattern_is_an_empty_sequence() {
    assert_eq!(Pattern::parse(""), seq(vec![]));
    assert_eq!(
        Pattern::parse("()"),
        seq(vec![Pattern::Group(Box::new(Pattern::Sequence(vec![])))])
    );
}

#[test]
fn sequence_and_group() {
    assert_eq!(Pattern::parse("ab"), seq(vec![lit('a'), lit('b')]));
    assert_eq!(
        Pattern::parse("(ab)c"),
        seq(vec![
            Pattern::Group(Box::new(Pattern::Sequence(vec![lit('a'), lit('b')]))),
            lit('c')
        ])
    );
}

#[test]
fn quantifiers() {
    assert_eq!(Pattern::parse("a?"), seq(vec![quant(lit('a'), 0, 1)]));
    assert_eq!(Pattern::parse("a*"), seq(vec![quant(lit('a'), 0, UNBOUNDED)]));
    assert_eq!(Pattern::parse("a+"), seq(vec![quant(lit('a'), 1, UNBOUNDED)]));
    assert_eq!(Pattern::parse("a{3}"), seq(vec![quant(lit('a'), 3, 3)]));
    assert_eq!(Pattern::parse("a{2,4}"), seq(vec![quant(lit('a'), 2, 4)]));
    assert_eq!(Pattern::parse("a{0,0}"), seq(vec![quant(lit('a'), 0, 0)]));
    assert_eq!(
        Pattern::parse("a{007,18446744073709551615}"),
        seq(vec![quant(lit('a'), 7, UNBOUNDED)])
    );
}

#[test]
fn suffixes_fold_from_the_left() {
    assert_eq!(
        Pattern::parse("a?+"),
        seq(vec![quant(quant(lit('a'), 0, 1), 1, UNBOUNDED)])
    );
    assert_eq!(
        Pattern::parse("a{2,3}|b"),
        seq(vec![Pattern::Or(Box::new(quant(lit('a'), 2, 3)), Box::new(lit('b')))])
    );
    assert_eq!(
        Pattern::parse("a|b*"),
        seq(vec![Pattern::Or(Box::new(lit('a')), Box::new(quant(lit('b'), 0, UNBOUNDED)))])
    );
}

#[test]
fn bar_binds_to_the_primary_before_it() {
    assert_eq!(
        Pattern::parse("ab|cd"),
        seq(vec![lit('a'), Pattern::Or(Box::new(lit('b')), Box::new(lit('c'))), lit('d')])
    );
}

#[test]
fn alternation_leans_right() {
    assert_eq!(
        Pattern::parse("a|b|c"),
        seq(vec![Pattern::Or(
            Box::new(lit('a')),
            Box::new(Pattern::Or(Box::new(lit('b')), Box::new(lit('c'))))
        )])
    );
}

#[test]
fn escapes() {
    assert_eq!(Pattern::parse("\\n\\t\\r"), seq(vec![lit('\n'), lit('\t'), lit('\r')]));
    assert_eq!(
        Pattern::parse("\\(\\)\\[\\]\\{\\}\\|\\?\\*\\+\\.\\\\"),
        seq("()[]{}|?*+.\\".chars().map(Pattern::Literal).collect())
    );
    assert_eq!(Pattern::parse("\\a\\-"), seq(vec![lit('a'), lit('-')]));
    assert_eq!(Pattern::parse("-,^"), seq(vec![lit('-'), lit(','), lit('^')]));
}

#[test]
fn reserved_and_dangling_escapes_are_malformed() {
    fails("\\D", 0, Rule::Literal);
    fails("a\\W", 1, Rule::Literal);
    fails("\\S", 0, Rule::Literal);
    fails("ab\\", 2, Rule::Literal);
}

#[test]
fn wildcard_and_shorthands() {
    assert_eq!(Pattern::parse("."), seq(vec![Pattern::Wildcard]));
    assert_eq!(Pattern::parse("\\d"), seq(vec![Pattern::Class("0123456789".chars().collect())]));
    assert_eq!(
        Pattern::parse("\\w"),
        seq(vec![Pattern::Class(
            "abcdefghijklmnopqrstuvwxyzABCDEFGHIJKLMNOPQRSTUVWXYZ0123456789_".chars().collect()
        )])
    );
    assert_eq!(Pattern::parse("\\s"), seq(vec![Pattern::Class(vec![' ', '\t', '\n', '\r'])]));
    assert_eq!(
        Pattern::parse("\\d{2}"),
        seq(vec![quant(Pattern::Class("0123456789".chars().collect()), 2, 2)])
    );
}

#[test]
fn bracket_first_in_a_class_is_a_member() {
    assert_eq!(Pattern::parse("[]]"), seq(vec![Pattern::Class(vec![']'])]));
    assert_eq!(Pattern::parse("[]a]"), seq(vec![Pattern::Class(vec![']', 'a'])]));
    assert_eq!(Pattern::parse("[^]]"), seq(vec![Pattern::InvertedClass(vec![']'])]));
    fails("[]", 2, Rule::Class);
    fails("[^]", 3, Rule::Class);
}

#[test]
fn dash_first_or_last_in_a_class_is_a_member() {
    assert_eq!(Pattern::parse("[-a]"), seq(vec![Pattern::Class(vec!['-', 'a'])]));
    assert_eq!(Pattern::parse("[a-]"), seq(vec![Pattern::Class(vec!['a', '-'])]));
    assert_eq!(Pattern::parse("[-]"), seq(vec![Pattern::Class(vec!['-'])]));
    assert_eq!(Pattern::parse("[^-a]"), seq(vec![Pattern::InvertedClass(vec!['-', 'a'])]));
    assert_eq!(Pattern::parse("[]-]"), seq(vec![Pattern::Class(vec![']', '-'])]));
    assert_eq!(Pattern::parse("[a-c-]"), seq(vec![Pattern::Class(vec!['a', 'b', 'c', '-'])]));
    fails("[a-c-e]", 5, Rule::Class);
}

#[test]
fn ranges() {
    assert_eq!(Pattern::parse("[a-a]"), seq(vec![Pattern::Class(vec!['a'])]));
    assert_eq!(
        Pattern::parse("[a-cx0-2]"),
        seq(vec![Pattern::Class(vec!['a', 'b', 'c', 'x', '0', '1', '2'])])
    );
    assert_eq!(Pattern::parse("[+--]"), seq(vec![Pattern::Class(vec!['+', ',', '-'])]));
    assert_eq!(
        Pattern::parse("[\u{D7FF}-\u{E000}]"),
        seq(vec![Pattern::Class(vec!['\u{D7FF}', '\u{E000}'])])
    );
    fails("[z-a]", 1, Rule::Range);
    fails("[ab-a]", 2, Rule::Range);
    fails("[a-", 3, Rule::Range);
    fails("[a-\\d]", 3, Rule::Range);
}

#[test]
fn members_are_kept_in_order_and_twice() {
    assert_eq!(Pattern::parse("[baab]"), seq(vec![Pattern::Class(vec!['b', 'a', 'a', 'b'])]));
    assert_eq!(
        Pattern::parse("[a-ba-b]"),
        seq(vec![Pattern::Class(vec!['a', 'b', 'a', 'b'])])
    );
}

#[test]
fn backslash_in_a_class() {
    assert_eq!(
        Pattern::parse("[\\d_]"),
        seq(vec![Pattern::Class("0123456789_".chars().collect())])
    );
    assert_eq!(
        Pattern::parse("[\\w-]"),
        seq(vec![Pattern::Class(
            "abcdefghijklmnopqrstuvwxyzABCDEFGHIJKLMNOPQRSTUVWXYZ0123456789_-".chars().collect()
        )])
    );
    assert_eq!(
        Pattern::parse("[^\\s]"),
        seq(vec![Pattern::InvertedClass(vec![' ', '\t', '\n', '\r'])])
    );
    assert_eq!(Pattern::parse("[\\n]"), seq(vec![Pattern::Class(vec!['\\', 'n'])]));
    assert_eq!(Pattern::parse("[\\]"), seq(vec![Pattern::Class(vec!['\\'])]));
    assert_eq!(Pattern::parse("[.*(]"), seq(vec![Pattern::Class(vec!['.', '*', '('])]));
}

#[test]
fn malformed_quantifiers() {
    fails("a{}", 2, Rule::Quantifier);
    fails("a{3", 3, Rule::Quantifier);
    fails("a{3,}", 4, Rule::Quantifier);
    fails("a{,3}", 2, Rule::Quantifier);
    fails("a{3;4}", 3, Rule::Quantifier);
    fails("a{3,4", 5, Rule::Quantifier);
    fails("a{-1}", 2, Rule::Quantifier);
    fails("a{18446744073709551616}", 2, Rule::Quantifier);
    fails("a{1,18446744073709551616}", 4, Rule::Quantifier);
    fails("ab{2,1}", 2, Rule::Quantifier);
}

#[test]
fn every_rule_reports() {
    fails("a)", 1, Rule::Pattern);
    fails("a|", 2, Rule::Atom);
    fails("(a", 2, Rule::Group);
    fails("[a", 2, Rule::Class);
    fails("[b-a]", 1, Rule::Range);
    fails("\\D", 0, Rule::Literal);
    fails("a{x}", 2, Rule::Quantifier);
}

#[test]
fn leftovers_are_malformed() {
    fails("*", 0, Rule::Pattern);
    fails("a]", 1, Rule::Pattern);
    fails("a}", 1, Rule::Pattern);
    fails("(a))", 3, Rule::Pattern);
    fails("a||b", 2, Rule::Atom);
    fails("(a|)", 3, Rule::Atom);
    fails("((a)", 4, Rule::Group);
    fails("(a]", 2, Rule::Group);
}

#[test]
fn offsets_count_bytes() {
    fails("é)", 2, Rule::Pattern);
    fails("é(", 3, Rule::Group);
    fails("日本語{", 10, Rule::Quantifier);
    fails("😀😀[z-a]", 9, Rule::Range);
    fails("aé😀\\", 7, Rule::Literal);
}

#[test]
fn sub_parsers_report_indices() {
    assert_eq!(atom(&chars("xa*b"), 1), Step::Match(quant(lit('a'), 0, UNBOUNDED), 3));
    assert_eq!(atom(&chars(")"), 0), Step::NoMatch);
    assert_eq!(atom(&chars(""), 0), Step::NoMatch);
    assert_eq!(atom(&chars("(é"), 0), Step::Fail(2, Rule::Group));
    assert_eq!(literal(&chars("\\d"), 0), Step::NoMatch);
    assert_eq!(literal(&chars("."), 0), Step::NoMatch);
    assert_eq!(literal(&chars("\\."), 0), Step::Match(lit('.'), 2));
    assert_eq!(quantifier(&chars("a{2,5}"), 1), Step::Match((2, 5), 6));
    assert_eq!(quantifier(&chars("a"), 0), Step::NoMatch);
    assert_eq!(quantifier(&chars("a"), 1), Step::NoMatch);
}

#[test]
fn numbers_agree_with_nom() {
    for text in [
        "0", "7", "42", "007", "12a", "9,", "", "a", "-1", "+1", " 1", "18446744073709551615",
        "18446744073709551616", "18446744073709551615x", "99999999999999999999999", "1844674407370955161",
        "1844674407370955162", "00000000000000000000000000001", "٣",
    ] {
        let expected = match nom::character::complete::u64::<&str, nom::error::Error<&str>>(text) {
            Ok((rest, value)) => Some((value, text.len() - rest.len())),
            Err(_) => None,
        };
        assert_eq!(number(&chars(text), 0), expected, "{text:?}");
    }
}
