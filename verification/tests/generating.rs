use rand::rngs::StdRng;
use rand::SeedableRng;
use strgen::generator::{accept, draw_outside, one, repeat_limit, DEFAULT_CEILING};
use strgen::Pattern;

fn rng(seed: u64) -> StdRng {
    StdRng::seed_from_u64(seed)
}

fn parsed(text: &str) -> Pattern {
    let pattern = Pattern::parse(text).unwrap();
    assert!(pattern.is_generable(), "{text}");
    pattern
}

fn quant(pattern: Pattern, min: u64, max: u64) -> Pattern {
    Pattern::Quantification { pattern: Box::new(pattern), min, max }
}

#[test]
fn literal_generates_itself() {
    let mut rng = rng(1);
    assert_eq!(parsed("a").generate(&mut rng), "a");
    assert_eq!(parsed("hello, world").generate(&mut rng), "hello, world");
    assert_eq!(parsed("(a(b)c)").generate(&mut rng), "abc");
    assert_eq!(parsed("").generate(&mut rng), "");
    assert_eq!(parsed("é😀").generate(&mut rng), "é😀");
}

#[test]
fn escaped_newline_generates_a_newline() {
    assert_eq!(parsed("\\n").generate(&mut rng(2)), "\n");
}

#[test]
fn bounded_repetition() {
    let pattern = parsed("a{2,4}");
    let mut rng = rng(3);
    let mut seen = [false; 5];
    for _ in 0..1000 {
        let text = pattern.generate(&mut rng);
        assert!(text.chars().all(|c| c == 'a'));
        assert!((2..=4).contains(&text.len()), "{text}");
        seen[text.len()] = true;
    }
    assert_eq!(seen, [false, false, true, true, true]);
}

#[test]
fn exact_repetition() {
    let mut rng = rng(4);
    assert_eq!(parsed("a{3}").generate(&mut rng), "aaa");
    assert_eq!(parsed("(ab){2}c{0}").generate(&mut rng), "abab");
    assert_eq!(parsed("a{0,0}").generate(&mut rng), "");
}

#[test]
fn alternation_takes_either_side() {
    let pattern = parsed("a|b");
    let mut rng = rng(5);
    let mut a = 0;
    let mut b = 0;
    for _ in 0..1000 {
        match pattern.generate(&mut rng).as_str() {
            "a" => a += 1,
            "b" => b += 1,
            other => panic!("{other}"),
        }
    }
    assert!(a > 0 && b > 0);
}

#[test]
fn nested_alternation_reaches_every_branch() {
    let pattern = parsed("a|b|c");
    let mut rng = rng(6);
    let mut seen = std::collections::BTreeSet::new();
    for _ in 0..1000 {
        seen.insert(pattern.generate(&mut rng));
    }
    assert_eq!(seen.into_iter().collect::<Vec<_>>(), ["a", "b", "c"]);
}

#[test]
fn class_draws_a_member() {
    let pattern = parsed("[a-cx]");
    let mut rng = rng(7);
    let mut seen = std::collections::BTreeSet::new();
    for _ in 0..1000 {
        let text = pattern.generate(&mut rng);
        assert_eq!(text.chars().count(), 1);
        seen.insert(text);
    }
    assert_eq!(seen.into_iter().collect::<Vec<_>>(), ["a", "b", "c", "x"]);
}

#[test]
fn shorthand_draws_a_digit() {
    let pattern = parsed("\\d{8}");
    let mut rng = rng(8);
    for _ in 0..100 {
        let text = pattern.generate(&mut rng);
        assert_eq!(text.len(), 8);
        assert!(text.chars().all(|c| c.is_ascii_digit()));
    }
}

#[test]
fn password_of_word_characters_and_dashes() {
    let pattern = parsed("[\\w-]{20}");
    let mut rng = rng(9);
    for _ in 0..100 {
        let text = pattern.generate(&mut rng);
        assert_eq!(text.len(), 20);
        assert!(text.chars().all(|c| c.is_ascii_alphanumeric() || c == '_' || c == '-'));
    }
}

#[test]
fn inverted_class_never_draws_a_member() {
    let pattern = parsed("[^a]");
    let mut rng = rng(10);
    for _ in 0..1000 {
        let text = pattern.generate(&mut rng);
        assert_eq!(text.chars().count(), 1);
        assert_ne!(text, "a");
    }
}

#[test]
fn wildcard_draws_one_character() {
    let pattern = parsed(".");
    let mut rng = rng(12);
    let mut seen = std::collections::BTreeSet::new();
    for _ in 0..100 {
        let text = pattern.generate(&mut rng);
        assert_eq!(text.chars().count(), 1);
        seen.insert(text);
    }
    assert!(seen.len() > 1);
}

#[test]
fn unbounded_repetition_stops_at_the_ceiling() {
    let star = parsed("a*");
    let plus = parsed("a+");
    let mut rng = rng(13);
    let mut longest = 0;
    for _ in 0..2000 {
        let text = star.generate(&mut rng);
        assert!(text.len() as u64 <= DEFAULT_CEILING);
        longest = longest.max(text.len());
        let text = plus.generate(&mut rng);
        assert!(1 <= text.len() && text.len() as u64 <= DEFAULT_CEILING);
    }
    assert_eq!(longest as u64, DEFAULT_CEILING);
}

#[test]
fn ceiling_can_be_chosen() {
    let star = parsed("a*");
    let mut rng = rng(14);
    for _ in 0..200 {
        assert!(star.generate_within(&mut rng, 3).len() <= 3);
        assert_eq!(star.generate_within(&mut rng, 0), "");
    }
    let pattern = quant(Pattern::Literal('a'), 5, u64::MAX);
    assert_eq!(pattern.generate_within(&mut rng, 2), "aaaaa");
    let bounded = parsed("a{40}");
    assert_eq!(bounded.generate_within(&mut rng, 2).len(), 40);
}

#[test]
fn repeat_limit_values() {
    assert_eq!(repeat_limit(2, 4, 32), 4);
    assert_eq!(repeat_limit(2, 400, 32), 400);
    assert_eq!(repeat_limit(0, u64::MAX, 32), 32);
    assert_eq!(repeat_limit(1, u64::MAX, 0), 1);
    assert_eq!(repeat_limit(33, u64::MAX, 32), 33);
    assert_eq!(repeat_limit(32, u64::MAX, 32), 32);
    assert_eq!(repeat_limit(0, u64::MAX, u64::MAX), u64::MAX);
    assert_eq!(repeat_limit(0, u64::MAX - 1, 32), u64::MAX - 1);
}

#[test]
fn repeat_generates_the_count() {
    let pattern = parsed("ab");
    let mut rng = rng(15);
    assert_eq!(pattern.repeat(0, &mut rng, 32), "");
    assert_eq!(pattern.repeat(3, &mut rng, 32), "ababab");
    assert_eq!(pattern.repeat(40, &mut rng, 2).len(), 80);
}

#[test]
fn accepting_and_drawing_outside_a_set() {
    assert_eq!(accept(&['a', 'b'], 'a'), None);
    assert_eq!(accept(&['a', 'b'], 'c'), Some('c'));
    assert_eq!(accept(&[], 'c'), Some('c'));
    let mut rng = rng(16);
    for _ in 0..100 {
        let c = draw_outside(&['a', 'b'], &mut rng);
        assert!(c != 'a' && c != 'b');
    }
    assert_eq!(one('x'), "x");
}

#[test]
fn same_seed_same_string() {
    let pattern = parsed("[a-z]{5,10}(\\d|x)+.");
    assert_eq!(pattern.generate(&mut rng(17)), pattern.generate(&mut rng(17)));
}

#[test]
fn generable_trees() {
    assert!(parsed("[a-z]+|(b.){2}[^x]").is_generable());
    assert!(!Pattern::Class(vec![]).is_generable());
    assert!(Pattern::InvertedClass(vec![]).is_generable());
    assert!(!quant(Pattern::Literal('a'), 3, 1).is_generable());
    assert!(!Pattern::Sequence(vec![Pattern::Wildcard, Pattern::Class(vec![])]).is_generable());
    assert!(!Pattern::Or(Box::new(Pattern::Wildcard), Box::new(Pattern::Class(vec![])))
        .is_generable());
    assert!(!Pattern::Group(Box::new(quant(Pattern::Class(vec![]), 0, 0))).is_generable());
    assert!(Pattern::Sequence(vec![]).is_generable());
}

#[test]
fn clone_is_equal() {
    for text in ["", "a|b|c", "[a-c]{2,4}(x.y)+[^z]\\d"] {
        let pattern = parsed(text);
        assert_eq!(pattern.clone(), pattern);
    }
}
