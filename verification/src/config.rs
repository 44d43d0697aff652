//! What the caller asks for: how long paragraphs, sentences and words are.

use vstd::prelude::*;

verus! {

/// The lower end of the built-in range of word lengths, in letters.
pub const WORD_MIN: u32 = 2;

/// The upper end of the built-in range of word lengths, which no word
/// reaches.
pub const WORD_MAX: u32 = 12;

/// The lower end of the built-in range of sentence lengths, in words.
pub const SENTENCE_MIN: u32 = 2;

/// The upper end of the built-in range of sentence lengths, which no
/// sentence reaches.
pub const SENTENCE_MAX: u32 = 14;

/// The lower end of the built-in range of paragraph lengths, in sentences.
pub const PARAGRAPH_MIN: u32 = 6;

/// The upper end of the built-in range of paragraph lengths, which no
/// paragraph reaches.
pub const PARAGRAPH_MAX: u32 = 12;

/// The lengths to generate.
///
/// Each field is either absent, which selects the built-in range of that
/// unit, or a minimum with an optional upper end. With no upper end the
/// length is exactly the minimum; with one it is drawn from the half-open
/// range between the two.
pub struct Config {
    /// Sentences in a paragraph.
    pub paragraph_len: Option<(u32, Option<u32>)>,
    /// Words in a sentence.
    pub sentence_len: Option<(u32, Option<u32>)>,
    /// Letters in a word.
    pub word_len: Option<(u32, Option<u32>)>,
}

impl Default for Config {
    /// The configuration that leaves every length to its built-in range.
    fn default() -> (config: Self)
        ensures
            config.paragraph_len is None,
            config.sentence_len is None,
            config.word_len is None,
    {
        Self { paragraph_len: None, sentence_len: None, word_len: None }
    }
}

} // verus!
