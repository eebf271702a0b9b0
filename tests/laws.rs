use std::io::Write;

use kittentts::chunk::chunk_text;
use kittentts::npz::{load_npz_bytes, parse_npy, FormatError};
use kittentts::numwords::number_to_words;
use kittentts::preprocess::TextPreprocessor;
use kittentts::tokenize::{basic_english_tokenize, ipa_to_ids};

fn word_value(w: &str) -> Option<u64> {
    let words = [
        "zero", "one", "two", "three", "four", "five", "six", "seven", "eight", "nine", "ten",
        "eleven", "twelve", "thirteen", "fourteen", "fifteen", "sixteen", "seventeen", "eighteen",
        "nineteen",
    ];
    let tens = ["", "", "twenty", "thirty", "forty", "fifty", "sixty", "seventy", "eighty", "ninety"];
    if let Some(i) = words.iter().position(|x| *x == w) {
        return Some(i as u64);
    }
    tens.iter().position(|x| !x.is_empty() && *x == w).map(|i| 10 * i as u64)
}

fn words_to_number(s: &str) -> u64 {
    let mut total = 0u64;
    let mut current = 0u64;
    for w in s.split(|c| c == ' ' || c == '-') {
        match w {
            "hundred" => current *= 100,
            "thousand" => {
                total += current * 1000;
                current = 0;
            }
            _ => current += word_value(w).expect("a number word"),
        }
    }
    total + current
}

#[test]
fn number_words_read_back() {
    let mut n: u64 = 0;
    while n < 1_000_000 {
        assert_eq!(words_to_number(&number_to_words(n as i64)), n, "n = {}", n);
        n += 37;
    }
    for n in [0u64, 100, 1100, 1900, 2000, 10_000, 999_999, 101_010] {
        assert_eq!(words_to_number(&number_to_words(n as i64)), n, "n = {}", n);
    }
}

#[test]
fn token_ids_are_padded() {
    for ipa in ["", "hɛloʊ", "a b", "ðə kæt, sæt!", "中文"] {
        let ids = ipa_to_ids(ipa);
        assert!(ids.len() >= 2);
        assert_eq!(ids[0], 0);
        assert_eq!(*ids.last().unwrap(), 0);
        assert!(ids.len() - 2 <= basic_english_tokenize(ipa).chars().count());
    }
}

#[test]
fn normalizing_twice_changes_nothing() {
    let pp = TextPreprocessor::new();
    for text in ["Hello, world! How are you today?", "  plain   words  ", "Why? Because."] {
        let once = pp.process(text);
        assert_eq!(pp.process(&once), once);
    }
}

#[test]
fn chunks_are_bounded() {
    let mut text = String::new();
    for i in 0..300 {
        text.push_str(if i % 7 == 0 { "tremendously " } else { "ok " });
    }
    text.push_str("end. Short one!");
    let chunks = chunk_text(&text, 400);
    assert!(chunks.len() >= 3);
    for c in &chunks {
        assert!(c.len() <= 405, "{}", c.len());
        assert!(c.ends_with([',', '.', '!', '?', ';', ':']));
    }
    let rejoined: Vec<&str> = chunks.iter().flat_map(|c| c.trim_end_matches(',').split_whitespace()).collect();
    let original: Vec<&str> = text.split(['.', '!']).flat_map(|s| s.split_whitespace()).collect();
    assert_eq!(rejoined, original);
}

fn npy_bytes(values: &[f32]) -> Vec<u8> {
    let header = format!("{{'descr': '<f4', 'fortran_order': False, 'shape': ({},), }}\n", values.len());
    let mut buf = b"\x93NUMPY".to_vec();
    buf.push(1);
    buf.push(0);
    buf.extend_from_slice(&(header.len() as u16).to_le_bytes());
    buf.extend_from_slice(header.as_bytes());
    for v in values {
        buf.extend_from_slice(&v.to_le_bytes());
    }
    buf
}

#[test]
fn archive_members_are_named_and_read() {
    let mut w = zip::ZipWriter::new(std::io::Cursor::new(Vec::new()));
    let opts = zip::write::SimpleFileOptions::default();
    w.start_file("voice_a.npy", opts).unwrap();
    w.write_all(&npy_bytes(&[1.0, 2.0])).unwrap();
    w.start_file("voice_b.npy", opts).unwrap();
    w.write_all(&npy_bytes(&[0.5])).unwrap();
    let bytes = w.finish().unwrap().into_inner();
    let arrays = load_npz_bytes(&bytes).unwrap();
    assert_eq!(arrays.len(), 2);
    assert_eq!(arrays[0].0, "voice_a");
    assert_eq!(arrays[0].1.shape, vec![2]);
    assert_eq!(arrays[0].1.data, vec![1.0f32.to_bits(), 2.0f32.to_bits()]);
    assert_eq!(arrays[1].0, "voice_b");
    assert_eq!(arrays[1].1.data, vec![0.5f32.to_bits()]);
    assert!(matches!(load_npz_bytes(b"not a zip"), Err(FormatError::BadArchive)));
}

#[test]
fn header_must_be_text() {
    let mut buf = npy_bytes(&[1.0]);
    buf[12] = 0xff;
    assert_eq!(parse_npy(&buf), Err(FormatError::HeaderNotText));
}

#[test]
fn big_endian_data_is_decoded() {
    let header = "{'descr': '>f4', 'fortran_order': False, 'shape': (2,), }\n";
    let mut buf = b"\x93NUMPY".to_vec();
    buf.push(2);
    buf.push(0);
    buf.extend_from_slice(&(header.len() as u32).to_le_bytes());
    buf.extend_from_slice(header.as_bytes());
    buf.extend_from_slice(&1.5f32.to_be_bytes());
    buf.extend_from_slice(&(-2.0f32).to_be_bytes());
    let (shape, data) = parse_npy(&buf).unwrap();
    assert_eq!(shape, vec![2]);
    assert_eq!(data, vec![1.5f32.to_bits(), (-2.0f32).to_bits()]);
}
