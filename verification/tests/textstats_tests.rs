use tzbucket::textstats::analyze;

#[test]
fn empty_input() {
    let stats = analyze("");
    assert_eq!(stats.lines, 0);
    assert_eq!(stats.words, 0);
    assert_eq!(stats.chars, 0);
    assert_eq!(stats.bytes, 0);
    assert_eq!(stats.most_common_word, None);
    assert_eq!(stats.unique_words, 0);
}

#[test]
fn simple_text() {
    let stats = analyze("hello world");
    assert_eq!(stats.lines, 1);
    assert_eq!(stats.words, 2);
    assert_eq!(stats.unique_words, 2);
}

#[test]
fn repeated_words() {
    let stats = analyze("the the the cat");
    assert_eq!(stats.most_common_word, Some("the".to_string()));
    assert_eq!(stats.unique_words, 2);
}

#[test]
fn case_folds_before_counting() {
    let stats = analyze("The the THE cat");
    assert_eq!(stats.most_common_word, Some("the".to_string()));
    assert_eq!(stats.unique_words, 2);
    assert_eq!(stats.words, 4);
}

#[test]
fn counts_lines_words_and_bytes() {
    let stats = analyze("one two\nthree\n");
    assert_eq!(stats.lines, 2);
    assert_eq!(stats.words, 3);
    assert_eq!(stats.chars, 14);
    assert_eq!(stats.bytes, 14);
}

#[test]
fn tie_breaks_toward_first_sorting_word() {
    let stats = analyze("pear apple pear apple");
    assert_eq!(stats.most_common_word, Some("apple".to_string()));
}
