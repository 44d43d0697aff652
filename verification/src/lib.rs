//! Filler text from a pluggable random source: pronounceable pseudo-words,
//! chained into sentences and paragraphs, with every function's result
//! stated over the draws that the source handed out.

pub mod config;
pub mod draw;
pub mod paragraph;
pub mod range;
pub mod sentence;
pub mod source;
pub mod tape;
pub mod word;

pub use config::Config;
pub use draw::Draw;
pub use paragraph::paragraph;
pub use sentence::sentence;
pub use source::Rand;
pub use tape::Tape;
pub use word::word;
