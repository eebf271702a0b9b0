//! The phoneme vocabulary and the tokeniser that maps phonetic text to
//! model token ids.

use vstd::prelude::*;
use crate::text::{chars_of, index_of, join, views, join_strings, find_char};

verus! {

/// Symbols of the vocabulary, in id order: the padding marker, punctuation,
/// Latin letters, then the phonetic alphabet.
pub open spec fn vocab_symbols() -> Seq<char> {
    seq!['$'] + ";:,.!?¡¿—…\u{201C}«»\u{201D}\" "@ + "ABCDEFGHIJKLMNOPQRSTUVWXYZabcdefghijklmnopqrstuvwxyz"@ + "ɑɐɒæɓʙβɔɕçɗɖðʤəɘɚɛɜɝɞɟʄɡɠɢʛɦɧħɥʜɨɪʝɭɬɫɮʟɱɯɰŋɳɲɴøɵɸθœɶʘɹɺɾɻʀʁɽʂʃʈʧʉʊʋⱱʌɣɤʍχʎʏʑʐʒʔʡʕʢǀǁǂǃˈˌːˑʼʴʰʱʲʷˠˤ˞↓↑→↗↘\u{2019}\u{0329}\u{2018}ᵻ"@
}

/// The id of `c`: its position among the vocabulary symbols.
pub open spec fn vocab_id(c: char) -> Option<int> {
    let i = index_of(vocab_symbols(), c);
    if i >= 0 { Some(i) } else { None }
}

/// The vocabulary symbols, in id order.
pub fn vocab() -> (r: Vec<char>)
    ensures
        r@ == vocab_symbols(),
{
    let mut v: Vec<char> = vec!['$'];
    let mut p = chars_of(";:,.!?¡¿—…\u{201C}«»\u{201D}\" ");
    let mut l = chars_of("ABCDEFGHIJKLMNOPQRSTUVWXYZabcdefghijklmnopqrstuvwxyz");
    let mut i = chars_of("ɑɐɒæɓʙβɔɕçɗɖðʤəɘɚɛɜɝɞɟʄɡɠɢʛɦɧħɥʜɨɪʝɭɬɫɮʟɱɯɰŋɳɲɴøɵɸθœɶʘɹɺɾɻʀʁɽʂʃʈʧʉʊʋⱱʌɣɤʍχʎʏʑʐʒʔʡʕʢǀǁǂǃˈˌːˑʼʴʰʱʲʷˠˤ˞↓↑→↗↘\u{2019}\u{0329}\u{2018}ᵻ");
    v.append(&mut p);
    v.append(&mut l);
    v.append(&mut i);
    v
}

proof fn lemma_vocab_len()
    ensures
        vocab_symbols().len() == 178,
{
    reveal_strlit(";:,.!?¡¿—…\u{201C}«»\u{201D}\" ");
    reveal_strlit("ABCDEFGHIJKLMNOPQRSTUVWXYZabcdefghijklmnopqrstuvwxyz");
    reveal_strlit("ɑɐɒæɓʙβɔɕçɗɖðʤəɘɚɛɜɝɞɟʄɡɠɢʛɦɧħɥʜɨɪʝɭɬɫɮʟɱɯɰŋɳɲɴøɵɸθœɶʘɹɺɾɻʀʁɽʂʃʈʧʉʊʋⱱʌɣɤʍχʎʏʑʐʒʔʡʕʢǀǁǂǃˈˌːˑʼʴʰʱʲʷˠˤ˞↓↑→↗↘\u{2019}\u{0329}\u{2018}ᵻ");
}

fn id_in(symbols: &Vec<char>, c: char) -> (r: Option<i64>)
    requires
        symbols@ == vocab_symbols(),
    ensures
        match r {
            Some(i) => vocab_id(c) == Some(i as int),
            None => vocab_id(c) is None,
        },
{
    proof { lemma_vocab_len(); }
    match find_char(symbols, c) {
        Some(i) => Some(i as i64),
        None => None,
    }
}

/// The vocabulary id of `c`, if it has one.
pub fn char_to_id(c: char) -> (r: Option<i64>)
    ensures
        match r {
            Some(i) => vocab_id(c) == Some(i as int),
            None => vocab_id(c) is None,
        },
{
    let symbols = vocab();
    id_in(&symbols, c)
}

/// The ids of the characters of `s` that have one, in order.
pub open spec fn known_ids(s: Seq<char>) -> Seq<i64>
    decreases s.len(),
{
    if s.len() == 0 {
        Seq::empty()
    } else {
        match vocab_id(s.last()) {
            Some(i) => known_ids(s.drop_last()).push(i as i64),
            None => known_ids(s.drop_last()),
        }
    }
}

/// The padded id sequence of `s`: padding, the known ids, padding.
pub open spec fn padded_ids(s: Seq<char>) -> Seq<i64> {
    seq![0i64] + known_ids(s) + seq![0i64]
}

pub proof fn lemma_known_ids_len(s: Seq<char>)
    ensures
        known_ids(s).len() <= s.len(),
    decreases s.len(),
{
    if s.len() > 0 {
        lemma_known_ids_len(s.drop_last());
    }
}

/// Maps each character of `tokenized` to its id, dropping characters
/// without one, and puts the padding id 0 at both ends.
pub fn text_to_ids(tokenized: &str) -> (r: Vec<i64>)
    ensures
        r@ == padded_ids(tokenized@),
{
    let symbols = vocab();
    let cs = chars_of(tokenized);
    let mut ids: Vec<i64> = vec![0];
    let mut k: usize = 0;
    while k < cs.len()
        invariant
            k <= cs.len(),
            symbols@ == vocab_symbols(),
            ids@ == seq![0i64] + known_ids(cs@.take(k as int)),
        decreases cs.len() - k,
    {
        assert(cs@.take(k + 1).drop_last() =~= cs@.take(k as int));
        match id_in(&symbols, cs[k]) {
            Some(id) => {
                ids.push(id);
            },
            None => {},
        }
        assert(ids@ =~= seq![0i64] + known_ids(cs@.take(k + 1)));
        k += 1;
    }
    assert(cs@.take(k as int) =~= cs@);
    ids.push(0);
    assert(ids@ =~= padded_ids(tokenized@));
    ids
}

/// What the `regex` crate finds for `pattern` in `text`: the successive
/// non-overlapping matches; `None` when the pattern does not compile.
pub uninterp spec fn regex_matches(pattern: Seq<char>, text: Seq<char>) -> Option<Seq<Seq<char>>>;

/// Relies on `regex::Regex::new` and `Regex::find_iter`: the text of each
/// successive non-overlapping match of `pattern` in `text`.
#[verifier::external_body]
fn regex_find_all(pattern: &str, text: &str) -> (r: Option<Vec<String>>)
    ensures
        match r {
            Some(v) => regex_matches(pattern@, text@) == Some(views(v@)),
            None => regex_matches(pattern@, text@) is None,
        },
{
    let re = regex::Regex::new(pattern).ok()?;
    Some(re.find_iter(text).map(|m| m.as_str().to_string()).collect())
}

/// Runs of word characters, and single characters that are neither word
/// characters nor white space.
pub open spec fn token_pattern() -> Seq<char> {
    r"\w+|[^\w\s]"@
}

/// The tokens of `text` joined by single spaces; empty should the pattern
/// fail to compile.
pub open spec fn tokenized(text: Seq<char>) -> Seq<char> {
    match regex_matches(token_pattern(), text) {
        Some(ms) => join(ms, " "@),
        None => Seq::empty(),
    }
}

/// Splits `text` into word runs and single punctuation marks and joins them
/// with single spaces.
pub fn basic_english_tokenize(text: &str) -> (r: String)
    ensures
        r@ == tokenized(text@),
{
    match regex_find_all(r"\w+|[^\w\s]", text) {
        Some(tokens) => join_strings(&tokens, " "),
        None => String::new(),
    }
}

/// Phonetic text to padded token ids.
pub fn ipa_to_ids(ipa: &str) -> (r: Vec<i64>)
    ensures
        r@ == padded_ids(tokenized(ipa@)),
{
    let t = basic_english_tokenize(ipa);
    text_to_ids(t.as_str())
}

/// Tokenising and then mapping to ids gives a sequence that starts and ends
/// with the padding id, with at most one id for each character of the
/// tokenised text in between.
pub proof fn lemma_ids_padded(text: Seq<char>)
    ensures
        padded_ids(tokenized(text))[0] == 0,
        padded_ids(tokenized(text)).last() == 0,
        padded_ids(tokenized(text)).len() - 2 <= tokenized(text).len(),
{
    lemma_known_ids_len(tokenized(text));
}

} // verus!
