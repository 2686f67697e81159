use strgen::chars::{
    collect, contains, count_outside, expand, first_outside, nth_outside, offset_of, ordinal_of,
    scalar, width_of, SCALAR_COUNT,
};

#[test]
fn ordinals_skip_the_surrogates() {
    assert_eq!(ordinal_of('\0'), 0);
    assert_eq!(ordinal_of('a'), 97);
    assert_eq!(ordinal_of('\u{D7FF}'), 0xD7FF);
    assert_eq!(ordinal_of('\u{E000}'), 0xD800);
    assert_eq!(ordinal_of('\u{10FFFF}'), SCALAR_COUNT - 1);
    assert_eq!(scalar(0), '\0');
    assert_eq!(scalar(97), 'a');
    assert_eq!(scalar(0xD7FF), '\u{D7FF}');
    assert_eq!(scalar(0xD800), '\u{E000}');
    assert_eq!(scalar(SCALAR_COUNT - 1), '\u{10FFFF}');
    assert_eq!(SCALAR_COUNT, 1_112_064);
}

#[test]
fn ordinal_and_scalar_undo_each_other() {
    for i in (0..SCALAR_COUNT).step_by(977) {
        assert_eq!(ordinal_of(scalar(i)), i);
    }
}

#[test]
fn expanding_ranges() {
    assert_eq!(expand('a', 'e'), vec!['a', 'b', 'c', 'd', 'e']);
    assert_eq!(expand('x', 'x'), vec!['x']);
    assert_eq!(expand('\u{D7FE}', '\u{E001}'), vec!['\u{D7FE}', '\u{D7FF}', '\u{E000}', '\u{E001}']);
    assert_eq!(expand('\0', '\u{10FFFF}').len() as u32, SCALAR_COUNT);
    assert_eq!(expand('a', 'z'), ('a'..='z').collect::<Vec<char>>());
}

#[test]
fn membership() {
    assert!(contains(&['a', 'b'], 'b'));
    assert!(!contains(&['a', 'b'], 'c'));
    assert!(!contains(&[], 'c'));
}

#[test]
fn first_character_outside() {
    assert_eq!(first_outside(&[]), Some('\0'));
    assert_eq!(first_outside(&['a']), Some('\0'));
    assert_eq!(first_outside(&['\u{1}', '\0', '\u{3}']), Some('\u{2}'));
    assert_eq!(first_outside(&expand('\0', '\u{D7FF}')), Some('\u{E000}'));
}

#[test]
fn widths_and_offsets() {
    assert_eq!(width_of('a'), 1);
    assert_eq!(width_of('\u{7F}'), 1);
    assert_eq!(width_of('\u{80}'), 2);
    assert_eq!(width_of('é'), 2);
    assert_eq!(width_of('\u{7FF}'), 2);
    assert_eq!(width_of('\u{800}'), 3);
    assert_eq!(width_of('日'), 3);
    assert_eq!(width_of('\u{FFFF}'), 3);
    assert_eq!(width_of('\u{10000}'), 4);
    assert_eq!(width_of('😀'), 4);
    let text = "aé日😀b";
    let chars = collect(text);
    assert_eq!(chars, text.chars().collect::<Vec<char>>());
    let expected: Vec<usize> = text.char_indices().map(|(i, _)| i).collect();
    for (index, offset) in expected.iter().enumerate() {
        assert_eq!(offset_of(&chars, index), *offset);
    }
    assert_eq!(offset_of(&chars, chars.len()), text.len());
}

#[test]
fn counting_and_numbering_the_characters_outside() {
    assert_eq!(count_outside(&[]), SCALAR_COUNT);
    assert_eq!(count_outside(&['a', 'b', 'a']), SCALAR_COUNT - 2);
    assert_eq!(nth_outside(&[], 0), '\0');
    assert_eq!(nth_outside(&[], 97), 'a');
    assert_eq!(nth_outside(&['\0', '\u{2}'], 0), '\u{1}');
    assert_eq!(nth_outside(&['\0', '\u{2}'], 1), '\u{3}');
    assert_eq!(nth_outside(&['\u{10FFFF}'], SCALAR_COUNT - 2), '\u{10FFFE}');
    assert_eq!(nth_outside(&['\u{D7FF}'], 0xD7FF), '\u{E000}');
}
