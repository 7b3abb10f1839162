//! Normalises noisy user-written text (plain, HTML or Markdown) into a
//! sequence of word, punctuation and marker tokens, with counts of the words
//! that the language filter accepted and rejected.

pub mod chars;
pub mod language;
pub mod tokens;
pub mod normalize;
pub mod html;
pub mod markdown;
pub mod laws;

pub use chars::is_special_punctuation;
pub use html::clean_text_with_html;
pub use markdown::clean_text_with_markdown;
pub use normalize::clean_text;
