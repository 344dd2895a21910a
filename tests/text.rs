use simpleterm::text::{is_white, reflow, split_lines, split_word, split_words, WrapError};

fn strings(v: &[&str]) -> Vec<String> {
    v.iter().map(|s| s.to_string()).collect()
}

#[test]
fn split_word_example() {
    let long_word: &str = "supercalifragilisticexpialidocious";
    assert_eq!(
        split_word(long_word, 5, 10),
        Ok(vec!(
            String::from("super"),
            String::from("califragil"),
            String::from("isticexpia"),
            String::from("lidocious"),
        ))
    );
}

#[test]
fn split_word_rejects_zero_budgets() {
    assert_eq!(split_word("abc", 0, 3), Err(WrapError::InvalidBudget));
    assert_eq!(split_word("abc", 3, 0), Err(WrapError::InvalidBudget));
}

#[test]
fn split_word_round_trip_and_sizes() {
    let word = "abcdefghijklmnopq";
    for first in 1..20 {
        for rest in 1..20 {
            let parts = split_word(word, first, rest).unwrap();
            assert_eq!(parts.concat(), word);
            assert_eq!(parts[0].chars().count(), first.min(word.len()));
            for p in parts.iter().skip(1).take(parts.len().saturating_sub(2)) {
                assert_eq!(p.chars().count(), rest);
            }
            let last = parts.last().unwrap().chars().count();
            assert!(last >= 1);
        }
    }
}

#[test]
fn split_word_short_and_empty() {
    assert_eq!(split_word("abc", 3, 1), Ok(strings(&["abc"])));
    assert_eq!(split_word("", 2, 2), Ok(strings(&[""])));
    assert_eq!(split_word("abcd", 1, 1), Ok(strings(&["a", "b", "c", "d"])));
}

#[test]
fn split_word_counts_characters() {
    assert_eq!(split_word("héllo", 2, 2), Ok(strings(&["hé", "ll", "o"])));
}

#[test]
fn split_words_collapses_white_space() {
    assert_eq!(split_words("  hello \t world\u{3000}x  "), strings(&["hello", "world", "x"]));
    assert_eq!(split_words(""), Vec::<String>::new());
    assert_eq!(split_words("   "), Vec::<String>::new());
}

#[test]
fn split_lines_keeps_empty_pieces() {
    assert_eq!(split_lines("a\nbc\n"), strings(&["a", "bc", ""]));
    assert_eq!(split_lines(""), strings(&[""]));
    assert_eq!(split_lines("\n\n"), strings(&["", "", ""]));
}

#[test]
fn reflow_keeps_both_words() {
    let lines = reflow(&strings(&["hello world"]), 5).unwrap();
    assert_eq!(lines, strings(&["hello", "world"]));
}

#[test]
fn reflow_packs_words() {
    let lines = reflow(&strings(&["the quick brown fox jumps"]), 10).unwrap();
    assert_eq!(lines, strings(&["the quick", "brown fox", "jumps"]));
}

#[test]
fn reflow_counts_the_separating_space() {
    let lines = reflow(&strings(&["abcd e"]), 5).unwrap();
    assert_eq!(lines, strings(&["abcd", "e"]));
}

#[test]
fn reflow_word_of_exact_width_is_not_split() {
    let lines = reflow(&strings(&["abcde fg"]), 5).unwrap();
    assert_eq!(lines, strings(&["abcde", "fg"]));
}

#[test]
fn reflow_splits_long_word_after_open_line() {
    let lines = reflow(&strings(&["ab cdefghijkl mn"]), 5).unwrap();
    assert_eq!(lines, strings(&["ab cd", "efghi", "jkl", "mn"]));
}

#[test]
fn reflow_splits_long_word_on_empty_line() {
    let lines = reflow(&strings(&["abcdefghijkl mn"]), 5).unwrap();
    assert_eq!(lines, strings(&["abcde", "fghij", "kl", "mn"]));
}

#[test]
fn reflow_closes_full_line_before_long_word() {
    let lines = reflow(&strings(&["abcd efghijk"]), 5).unwrap();
    assert_eq!(lines, strings(&["abcd", "efghi", "jk"]));
}

#[test]
fn reflow_keeps_last_fragment_open_after_full_line() {
    let lines = reflow(&strings(&["abcd efghij x"]), 5).unwrap();
    assert_eq!(lines, strings(&["abcd", "efghi", "j x"]));
    let lines = reflow(&strings(&["abcde fghijklm no"]), 5).unwrap();
    assert_eq!(lines, strings(&["abcde", "fghij", "klm", "no"]));
}

#[test]
fn reflow_keeps_paragraphs_apart() {
    let lines = reflow(&strings(&["one two", "", "  three  "]), 20).unwrap();
    assert_eq!(lines, strings(&["one two", "three"]));
}

#[test]
fn reflow_empty_input() {
    assert_eq!(reflow(&Vec::new(), 4), Ok(Vec::new()));
    assert_eq!(reflow(&strings(&[""]), 4), Ok(Vec::new()));
}

#[test]
fn reflow_rejects_zero_columns() {
    assert_eq!(reflow(&strings(&["a"]), 0), Err(WrapError::InvalidBudget));
}

#[test]
fn reflow_lines_fit() {
    let text = "Lorem ipsum dolor sit amet, consectetur adipiscing elit, sed do \
                eiusmod tempor incididunt ut labore et dolore magna aliqua \
                supercalifragilisticexpialidocious";
    for max in 1..40 {
        let lines = reflow(&strings(&[text]), max).unwrap();
        for line in &lines {
            let n = line.chars().count();
            assert!(n >= 1 && n <= max, "{:?} in {}", line, max);
        }
        let joined: String = lines.concat().chars().filter(|c| !c.is_whitespace()).collect();
        let original: String = text.chars().filter(|c| !c.is_whitespace()).collect();
        assert_eq!(joined, original);
    }
}

#[test]
fn is_white_agrees_with_std() {
    for c in (0u32..=0x10FFFF).filter_map(char::from_u32) {
        assert_eq!(is_white(c), c.is_whitespace(), "{:?}", c);
    }
}
