use kittentts::chunk::{chunk_text, ensure_punctuation};

#[test]
fn test_chunk_short() {
    let c = chunk_text("Hello world.", 400);
    assert_eq!(c, vec!["Hello world,"]);
}

#[test]
fn test_chunk_multiple_sentences() {
    let c = chunk_text("Hello. World. Foo.", 400);
    assert_eq!(c.len(), 3);
}

#[test]
fn test_chunk_long_sentence() {
    let long = "word ".repeat(200);
    let c = chunk_text(long.trim(), 400);
    assert!(c.len() > 1);
    for chunk in &c {
        assert!(chunk.len() <= 405);
    }
}

#[test]
fn test_ensure_punctuation() {
    assert_eq!(ensure_punctuation("hello"), "hello,");
    assert_eq!(ensure_punctuation("hello."), "hello.");
    assert_eq!(ensure_punctuation(""), "");
}

#[test]
fn chunks_close_at_word_boundaries() {
    let c = chunk_text("aaa bbb ccc ddd", 8);
    assert_eq!(c, vec!["aaa bbb,", "ccc ddd,"]);
}

#[test]
fn empty_sentences_are_dropped() {
    assert_eq!(chunk_text("Hi!! ?  Yes?", 400), vec!["Hi,", "Yes,"]);
    assert!(chunk_text("", 400).is_empty());
}
