use vosk::grammar::{encode_grammar, encode_vocabulary, join_phrase, vocabulary_phrases};

fn phrase(words: &[&str]) -> Vec<String> {
    words.iter().map(|w| w.to_string()).collect()
}

#[test]
fn vocabulary_two_words() {
    let encoded = encode_vocabulary("yes no");
    assert_eq!(encoded, "[\"yes\",\"no\"]");
}

#[test]
fn vocabulary_matches_reference_encoder() {
    let encoded = encode_vocabulary("yes no");
    let oracle = serde_json::to_string(&vec!["yes", "no"]).unwrap();
    assert_eq!(encoded, oracle);
}

#[test]
fn vocabulary_collapses_whitespace_runs() {
    let encoded = encode_vocabulary("  yes \t no\nmaybe ");
    assert_eq!(encoded, "[\"yes\",\"no\",\"maybe\"]");
}

#[test]
fn vocabulary_empty_input_gives_empty_array() {
    assert_eq!(encode_vocabulary(""), "[]");
    assert_eq!(encode_vocabulary(" \t\n"), "[]");
}

#[test]
fn vocabulary_splits_into_one_word_phrases() {
    let phrases = vocabulary_phrases("yes no");
    assert_eq!(phrases.len(), 2);
    assert_eq!(phrases[0], vec!["yes".to_string()]);
    assert_eq!(phrases[1], vec!["no".to_string()]);
}

#[test]
fn grammar_two_phrases() {
    let phrases = vec![phrase(&["hello", "world"]), phrase(&["initiate", "the", "process"])];
    let encoded = encode_grammar(&phrases);
    assert_eq!(encoded, "[\"hello world\",\"initiate the process\"]");
}

#[test]
fn grammar_matches_reference_encoder() {
    let phrases = vec![phrase(&["hello", "world"]), phrase(&["initiate", "the", "process"])];
    let encoded = encode_grammar(&phrases);
    let oracle = serde_json::to_string(&vec!["hello world", "initiate the process"]).unwrap();
    assert_eq!(encoded, oracle);
}

#[test]
fn grammar_empty_list_and_empty_phrase_pass_through() {
    assert_eq!(encode_grammar(&Vec::new()), "[]");
    let one_empty: Vec<Vec<String>> = vec![Vec::new()];
    assert_eq!(encode_grammar(&one_empty), "[\"\"]");
}

#[test]
fn grammar_escapes_like_reference_encoder() {
    let tricky = vec![phrase(&["a\"b", "c\\d", "e\u{1f}f", "tab\there"])];
    let encoded = encode_grammar(&tricky);
    let oracle = serde_json::to_string(&vec!["a\"b c\\d e\u{1f}f tab\there"]).unwrap();
    assert_eq!(encoded, oracle);
}

#[test]
fn grammar_keeps_unicode_words() {
    let phrases = vec![phrase(&["grüß", "dich"])];
    let encoded = encode_grammar(&phrases);
    let oracle = serde_json::to_string(&vec!["grüß dich"]).unwrap();
    assert_eq!(encoded, oracle);
}

#[test]
fn join_trims_outer_whitespace_only() {
    let joined = join_phrase(&phrase(&[" hello ", "world"]));
    assert_eq!(joined, "hello  world");
    let joined = join_phrase(&phrase(&["  ", "x"]));
    assert_eq!(joined, "x");
    let joined = join_phrase(&Vec::new());
    assert_eq!(joined, "");
}
