use kittentts::tokenize::{basic_english_tokenize, char_to_id, ipa_to_ids, text_to_ids, vocab};

#[test]
fn test_vocab_not_empty() {
    assert!(!vocab().is_empty());
}

#[test]
fn test_pad_is_zero() {
    assert_eq!(char_to_id('$'), Some(0));
}

#[test]
fn test_known_chars() {
    for ch in ";:,.!?".chars() {
        assert!(char_to_id(ch).is_some(), "char {} not in vocab", ch);
    }
    for ch in "ABCDEFGHIJKLMNOPQRSTUVWXYZabcdefghijklmnopqrstuvwxyz".chars() {
        assert!(char_to_id(ch).is_some(), "char {} not in vocab", ch);
    }
}

#[test]
fn test_unknown_char_returns_none() {
    assert_eq!(char_to_id('\u{0000}'), None);
    assert_eq!(char_to_id('中'), None);
}

#[test]
fn test_ids_have_pads() {
    let ids = ipa_to_ids("hɛloʊ");
    assert_eq!(ids[0], 0, "should start with pad token 0");
    assert_eq!(*ids.last().unwrap(), 0, "should end with pad token 0");
    assert!(ids.len() > 2, "should have content between pads");
}

#[test]
fn test_basic_english_tokenize() {
    let out = basic_english_tokenize("hɛloʊ wɜːld!");
    assert!(out.contains("hɛloʊ"), "got: {}", out);
    assert!(out.contains("wɜːld"), "got: {}", out);
    assert!(out.contains('!'), "got: {}", out);
}

#[test]
fn test_vocab_uniqueness() {
    let mut seen_indices = std::collections::HashSet::new();
    for c in vocab() {
        let idx = char_to_id(c).unwrap();
        assert!(seen_indices.insert(idx), "duplicate index {}", idx);
    }
}

#[test]
fn vocab_codes_are_fixed() {
    assert_eq!(vocab().len(), 178);
    assert_eq!(char_to_id(';'), Some(1));
    assert_eq!(char_to_id(' '), Some(16));
    assert_eq!(char_to_id('A'), Some(17));
    assert_eq!(char_to_id('a'), Some(43));
    assert_eq!(char_to_id('ɑ'), Some(69));
}

#[test]
fn tokenize_splits_punctuation() {
    assert_eq!(basic_english_tokenize("ab,cd!  e"), "ab , cd ! e");
}

#[test]
fn unknown_characters_are_dropped() {
    assert_eq!(text_to_ids("a中b"), vec![0, 43, 44, 0]);
    assert_eq!(text_to_ids(""), vec![0, 0]);
}
