//! Text-to-speech front end: text normalisation, chunking, phoneme
//! tokenisation, voice selection and the numeric-array container reader.

pub mod text;
pub mod digits;
pub mod numwords;
pub mod spoken;
pub mod rules;
pub mod preprocess;
pub mod tokenize;
pub mod chunk;
pub mod npz;
pub mod voices;
pub mod phonemize;
pub mod wordparse;
