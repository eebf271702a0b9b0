//! The voice store and the decisions of a synthesis request: alias
//! resolution, the unknown-voice check, chunking, style-row selection,
//! token ids for each chunk, and the tail trim of each chunk's audio.

use vstd::prelude::*;
use crate::chunk::{chunk_text, chunks_of, CHUNK_MAX_CHARS};
use crate::npz::{cols_of, rows_of, NpyArray};
use crate::preprocess::{normalized, TextPreprocessor};
use crate::text::{chars_of, find_char, index_of, views};
use crate::tokenize::{ipa_to_ids, padded_ids, tokenized};

verus! {

/// Samples removed from the end of each chunk's waveform.
pub const TAIL_TRIM: usize = 5000;

/// Audio sample rate of the model's output.
pub const SAMPLE_RATE: u32 = 24000;

/// Why a synthesis request cannot be carried out.
#[derive(Clone, Copy, PartialEq, Eq, Debug, Structural)]
pub enum SynthesisError {
    /// The voice, after alias resolution, is not in the store.
    UnknownVoice,
    /// The voice's style matrix has no complete row at the selected index.
    StyleRowOutOfRange,
}

/// Index of the last `k` in `keys`, or -1.
pub open spec fn last_pos(keys: Seq<Seq<char>>, k: Seq<char>) -> int
    decreases keys.len(),
{
    if keys.len() == 0 {
        -1
    } else if keys.last() == k {
        keys.len() - 1
    } else {
        last_pos(keys.drop_last(), k)
    }
}

proof fn lemma_last_pos(keys: Seq<Seq<char>>, k: Seq<char>, i: int)
    requires
        -1 <= i < keys.len(),
        forall|j: int| i < j < keys.len() ==> keys[j] != k,
        i >= 0 ==> keys[i] == k,
    ensures
        last_pos(keys, k) == i,
    decreases keys.len(),
{
    if keys.len() > 0 && keys.last() != k {
        lemma_last_pos(keys.drop_last(), k, i);
    }
}

/// Voices by name, each a style matrix with one row per input length, and
/// aliases from friendly names to voice names. Later entries of either list
/// take precedence over earlier ones with the same name.
pub struct VoiceStore {
    pub voices: Vec<(String, NpyArray)>,
    pub aliases: Vec<(String, String)>,
}

/// `s` as `str::len` counts it: bytes of its UTF-8 encoding.
pub open spec fn byte_len(s: Seq<char>) -> nat {
    crate::chunk::blen(s)
}

impl VoiceStore {
    pub open spec fn voice_names(&self) -> Seq<Seq<char>> {
        self.voices@.map_values(|e: (String, NpyArray)| e.0@)
    }

    pub open spec fn alias_names(&self) -> Seq<Seq<char>> {
        self.aliases@.map_values(|e: (String, String)| e.0@)
    }

    /// The voice name that `voice` stands for.
    pub open spec fn resolved(&self, voice: Seq<char>) -> Seq<char> {
        let i = last_pos(self.alias_names(), voice);
        if i >= 0 { self.aliases@[i].1@ } else { voice }
    }

    pub open spec fn has(&self, key: Seq<char>) -> bool {
        last_pos(self.voice_names(), key) >= 0
    }

    /// Row index for an input of length `len`, clamped to the matrix.
    pub open spec fn row_index(nrows: nat, len: nat) -> nat {
        let last = if nrows > 0 { (nrows - 1) as nat } else { 0 };
        if len < last { len } else { last }
    }

    /// The style row of voice `key` for an input of length `len`.
    pub open spec fn style_row_of(&self, key: Seq<char>, len: nat) -> Result<Seq<u32>, SynthesisError> {
        let i = last_pos(self.voice_names(), key);
        if i < 0 {
            Err(SynthesisError::UnknownVoice)
        } else {
            let a = self.voices@[i].1;
            let c = cols_of(a.shape@);
            let row = Self::row_index(rows_of(a.shape@), len);
            if (row + 1) * c <= a.data@.len() {
                Ok(a.data@.subrange((row * c) as int, ((row + 1) * c) as int))
            } else {
                Err(SynthesisError::StyleRowOutOfRange)
            }
        }
    }

    pub fn new(voices: Vec<(String, NpyArray)>, aliases: Vec<(String, String)>) -> (r: Self)
        ensures
            r.voices == voices,
            r.aliases == aliases,
    {
        VoiceStore { voices, aliases }
    }

    /// The names of the stored voices, in order.
    pub fn available_voices(&self) -> (r: Vec<String>)
        ensures
            views(r@) == self.voice_names(),
    {
        let mut out: Vec<String> = Vec::new();
        let mut i: usize = 0;
        while i < self.voices.len()
            invariant
                i <= self.voices.len(),
                views(out@) == self.voice_names().take(i as int),
            decreases self.voices.len() - i,
        {
            let ghost before = views(out@);
            out.push(String::from_str(self.voices[i].0.as_str()));
            assert(views(out@) =~= before.push(self.voice_names()[i as int]));
            assert(views(out@) =~= self.voice_names().take(i + 1));
            i += 1;
        }
        assert(self.voice_names().take(i as int) =~= self.voice_names());
        out
    }

    fn voice_pos(&self, key: &str) -> (r: Option<usize>)
        ensures
            last_pos(self.voice_names(), key@) == match r { Some(i) => i as int, None => -1 },
            r matches Some(i) ==> i < self.voices.len(),
    {
        let mut i: usize = self.voices.len();
        while i > 0
            invariant
                i <= self.voices.len(),
                forall|j: int| i <= j < self.voices.len() ==> self.voice_names()[j] != key@,
            decreases i,
        {
            if crate::text::str_eq(self.voices[i - 1].0.as_str(), key) {
                proof { lemma_last_pos(self.voice_names(), key@, i - 1); }
                return Some(i - 1);
            }
            i -= 1;
        }
        proof { lemma_last_pos(self.voice_names(), key@, -1); }
        None
    }

    /// The voice name that `voice` stands for: an alias's target, else
    /// `voice` itself.
    pub fn resolve_voice(&self, voice: &str) -> (r: String)
        ensures
            r@ == self.resolved(voice@),
    {
        let mut i: usize = self.aliases.len();
        while i > 0
            invariant
                i <= self.aliases.len(),
                forall|j: int| i <= j < self.aliases.len() ==> self.alias_names()[j] != voice@,
            decreases i,
        {
            if crate::text::str_eq(self.aliases[i - 1].0.as_str(), voice) {
                proof { lemma_last_pos(self.alias_names(), voice@, i - 1); }
                return self.aliases[i - 1].1.clone();
            }
            i -= 1;
        }
        proof { lemma_last_pos(self.alias_names(), voice@, -1); }
        String::from_str(voice)
    }

    /// Whether a voice is stored under `key`.
    pub fn has_voice(&self, key: &str) -> (r: bool)
        ensures
            r == self.has(key@),
    {
        self.voice_pos(key).is_some()
    }

    /// The style row of voice `key` for an input of length `len`: row
    /// `len`, or the last row for longer inputs.
    pub fn style_row(&self, key: &str, len: usize) -> (r: Result<Vec<u32>, SynthesisError>)
        ensures
            match r {
                Ok(v) => self.style_row_of(key@, len as nat) == Ok::<Seq<u32>, SynthesisError>(v@),
                Err(e) => self.style_row_of(key@, len as nat) == Err::<Seq<u32>, SynthesisError>(e),
            },
    {
        let i = match self.voice_pos(key) {
            Some(i) => i,
            None => return Err(SynthesisError::UnknownVoice),
        };
        let a = &self.voices[i].1;
        let nrows = a.nrows();
        let c = a.ncols();
        let last = if nrows > 0 { nrows - 1 } else { 0 };
        let row = if len < last { len } else { last };
        if c > 0 && (row >= a.data.len() / c || a.data.len() / c - row < 1) {
            proof {
                assert((row + 1) * c > a.data.len()) by (nonlinear_arith)
                    requires c > 0, row >= a.data.len() / c || a.data.len() / c - row < 1;
            }
            return Err(SynthesisError::StyleRowOutOfRange);
        }
        proof {
            if c > 0 {
                assert((row + 1) * c <= a.data.len()) by (nonlinear_arith)
                    requires c > 0, row < a.data.len() / c;
            } else {
                assert((row + 1) * c == 0) by (nonlinear_arith) requires c == 0;
            }
        }
        Ok(a.row(row))
    }

    /// Chunks of the request's text (normalised first when `clean`), once
    /// the voice is known to be stored; an unknown voice fails before any
    /// chunk is made.
    pub fn plan_text(&self, pre: &TextPreprocessor, text: &str, voice: &str, clean: bool) -> (r: Result<Vec<String>, SynthesisError>)
        ensures
            r is Err <==> !self.has(self.resolved(voice@)),
            r matches Err(e) ==> e == SynthesisError::UnknownVoice,
            r matches Ok(v) ==> views(v@) == chunks_of(
                if clean { normalized(pre.config, text@) } else { text@ },
                CHUNK_MAX_CHARS as nat,
            ),
    {
        let key = self.resolve_voice(voice);
        if !self.has_voice(key.as_str()) {
            return Err(SynthesisError::UnknownVoice);
        }
        let processed = if clean { pre.process(text) } else { String::from_str(text) };
        Ok(chunk_text(processed.as_str(), CHUNK_MAX_CHARS))
    }

    /// Token ids of `ipa` and the style row of `voice` for an input of
    /// length `style_idx`: the inputs of one inference call.
    pub fn inference_input(&self, voice: &str, ipa: &str, style_idx: usize) -> (r: Result<(Vec<i64>, Vec<u32>), SynthesisError>)
        ensures
            match r {
                Ok(p) => p.0@ == padded_ids(tokenized(ipa@))
                    && self.style_row_of(self.resolved(voice@), style_idx as nat) == Ok::<Seq<u32>, SynthesisError>(p.1@),
                Err(e) => self.style_row_of(self.resolved(voice@), style_idx as nat) == Err::<Seq<u32>, SynthesisError>(e),
            },
    {
        let key = self.resolve_voice(voice);
        let row = match self.style_row(key.as_str(), style_idx) {
            Ok(row) => row,
            Err(e) => return Err(e),
        };
        let ids = ipa_to_ids(ipa);
        Ok((ids, row))
    }

    /// Inference inputs for each phonetic chunk, each with the style row
    /// selected by the chunk's byte length; an unknown voice fails before
    /// any chunk is tokenised.
    pub fn plan_ipa_chunks(&self, chunks: &Vec<String>, voice: &str) -> (r: Result<Vec<(Vec<i64>, Vec<u32>)>, SynthesisError>)
        ensures
            !self.has(self.resolved(voice@)) ==> r == Err::<Vec<(Vec<i64>, Vec<u32>)>, SynthesisError>(SynthesisError::UnknownVoice),
            r matches Ok(v) ==> v.len() == chunks.len() && forall|k: int| 0 <= k < v.len() ==> {
                &&& (#[trigger] v@[k]).0@ == padded_ids(tokenized(chunks@[k]@))
                &&& self.style_row_of(self.resolved(voice@), byte_len(chunks@[k]@)) == Ok::<Seq<u32>, SynthesisError>(v@[k].1@)
            },
            self.has(self.resolved(voice@)) && (forall|k: int| 0 <= k < chunks.len()
                ==> (#[trigger] self.style_row_of(self.resolved(voice@), byte_len(chunks@[k]@))) is Ok)
                ==> r is Ok,
            r matches Err(e) ==> (e == SynthesisError::UnknownVoice && !self.has(self.resolved(voice@)))
                || (self.has(self.resolved(voice@)) && exists|k: int| 0 <= k < chunks.len()
                && #[trigger] self.style_row_of(self.resolved(voice@), byte_len(chunks@[k]@)) == Err::<Seq<u32>, SynthesisError>(e)),
    {
        let key = self.resolve_voice(voice);
        if !self.has_voice(key.as_str()) {
            return Err(SynthesisError::UnknownVoice);
        }
        let mut out: Vec<(Vec<i64>, Vec<u32>)> = Vec::new();
        let mut k: usize = 0;
        while k < chunks.len()
            invariant
                k <= chunks.len(),
                out.len() == k,
                self.has(self.resolved(voice@)),
                forall|j: int| 0 <= j < k ==> {
                    &&& (#[trigger] out@[j]).0@ == padded_ids(tokenized(chunks@[j]@))
                    &&& self.style_row_of(self.resolved(voice@), byte_len(chunks@[j]@)) == Ok::<Seq<u32>, SynthesisError>(out@[j].1@)
                },
            decreases chunks.len() - k,
        {
            let len = chunks[k].as_str().len();
            match self.inference_input(voice, chunks[k].as_str(), len) {
                Ok(p) => {
                    out.push(p);
                },
                Err(e) => {
                    assert(self.style_row_of(self.resolved(voice@), byte_len(chunks@[k as int]@))
                        == Err::<Seq<u32>, SynthesisError>(e));
                    return Err(e);
                },
            }
            k += 1;
        }
        Ok(out)
    }
}

/// Length of a chunk's waveform after the tail trim.
pub fn trimmed_length(n: usize) -> (r: usize)
    ensures
        r == if n > TAIL_TRIM { n - TAIL_TRIM } else { 0 },
{
    if n > TAIL_TRIM { n - TAIL_TRIM } else { 0 }
}

/// The two recognised model types.
pub fn is_supported_model_type(t: &str) -> (r: bool)
    ensures
        r == (t@ == "ONNX1"@ || t@ == "ONNX2"@),
{
    crate::text::str_eq(t, "ONNX1") || crate::text::str_eq(t, "ONNX2")
}

/// A repository id: bare model names are taken from the default owner.
pub fn full_repo_id(id: &str) -> (r: String)
    ensures
        r@ == if index_of(id@, '/') >= 0 { id@ } else { "KittenML/"@ + id@ },
{
    let cs = chars_of(id);
    if find_char(&cs, '/').is_some() {
        String::from_str(id)
    } else {
        let mut out = String::from_str("KittenML/");
        out.append(id);
        out
    }
}

} // verus!
