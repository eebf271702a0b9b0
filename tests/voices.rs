use kittentts::phonemize::join_clauses;
use kittentts::npz::NpyArray;
use kittentts::preprocess::TextPreprocessor;
use kittentts::voices::{
    full_repo_id, is_supported_model_type, trimmed_length, SynthesisError, VoiceStore,
};

fn store() -> VoiceStore {
    let arr = NpyArray { shape: vec![3, 2], data: vec![10, 11, 20, 21, 30, 31] };
    VoiceStore::new(
        vec![("expr-voice-2-m".to_string(), arr)],
        vec![("Jasper".to_string(), "expr-voice-2-m".to_string())],
    )
}

#[test]
fn unknown_voice_fails_before_any_work() {
    let s = store();
    let pre = TextPreprocessor::new();
    assert_eq!(s.plan_text(&pre, "Hello there.", "Nobody", true), Err(SynthesisError::UnknownVoice));
    let chunks = vec!["həloʊ".to_string()];
    assert_eq!(s.plan_ipa_chunks(&chunks, "Nobody"), Err(SynthesisError::UnknownVoice));
}

#[test]
fn alias_resolves_to_stored_voice() {
    let s = store();
    assert_eq!(s.resolve_voice("Jasper"), "expr-voice-2-m");
    assert_eq!(s.resolve_voice("other"), "other");
    let pre = TextPreprocessor::new();
    assert_eq!(s.plan_text(&pre, "Hello there.", "Jasper", true), Ok(vec!["hello there,".to_string()]));
}

#[test]
fn style_row_is_clamped() {
    let s = store();
    assert_eq!(s.style_row("expr-voice-2-m", 0), Ok(vec![10, 11]));
    assert_eq!(s.style_row("expr-voice-2-m", 1), Ok(vec![20, 21]));
    assert_eq!(s.style_row("expr-voice-2-m", 99), Ok(vec![30, 31]));
    assert_eq!(s.style_row("none", 0), Err(SynthesisError::UnknownVoice));
}

#[test]
fn ipa_chunks_use_their_byte_length() {
    let s = store();
    let chunks = vec!["a".to_string()];
    let plan = s.plan_ipa_chunks(&chunks, "Jasper").unwrap();
    assert_eq!(plan[0].0, vec![0, 43, 0]);
    assert_eq!(plan[0].1, vec![20, 21]);
}

#[test]
fn out_of_range_style_row_is_reported() {
    let arr = NpyArray { shape: vec![3, 2], data: vec![10, 11] };
    let s = VoiceStore::new(vec![("v".to_string(), arr)], vec![]);
    let chunks = vec!["a".to_string(), "bcd".to_string()];
    assert_eq!(s.plan_ipa_chunks(&chunks, "v"), Err(SynthesisError::StyleRowOutOfRange));
    let short = vec!["".to_string()];
    assert!(s.plan_ipa_chunks(&short, "v").is_ok());
}

#[test]
fn tail_trim() {
    assert_eq!(trimmed_length(12000), 7000);
    assert_eq!(trimmed_length(4000), 0);
}

#[test]
fn model_metadata() {
    assert!(is_supported_model_type("ONNX1"));
    assert!(is_supported_model_type("ONNX2"));
    assert!(!is_supported_model_type("onnx1"));
    assert_eq!(full_repo_id("kitten-tts-mini-0.8"), "KittenML/kitten-tts-mini-0.8");
    assert_eq!(full_repo_id("a/b"), "a/b");
}

#[test]
fn clauses_are_trimmed_and_joined() {
    let parts = vec![" həloʊ ".to_string(), "  ".to_string(), "wɜːld".to_string()];
    assert_eq!(join_clauses(&parts), "həloʊ wɜːld");
    assert_eq!(join_clauses(&vec![]), "");
}
