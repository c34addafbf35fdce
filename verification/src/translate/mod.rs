//! Translation: what is asked of a translator and what it gives back.

pub mod openai;

pub use openai::OpenAiCompatibleProvider;

use vstd::prelude::*;

verus! {

/// One sentence to translate, with what was said before it, latest first.
#[derive(Debug)]
pub struct TranslateRequest {
    pub text: String,
    pub source_lang: String,
    pub target_lang: String,
    pub context: Vec<String>,
    pub glossary: Option<Vec<(String, String)>>,
}

/// The translation of one sentence.
#[derive(Debug)]
pub struct TranslateResponse {
    pub translated_text: String,
}

} // verus!
