//! Furigana annotation for Japanese text.
//!
//! The crate decides, word by word, which kanji spans of a text need a
//! phonetic gloss, and renders the glosses as `<ruby>` markup around the
//! text. Every function is verified against a contract stated over sequences
//! of characters.

pub mod align;
pub mod annotate;
pub mod book;
pub mod chapter;
pub mod generator;
pub mod kana;
pub mod learner;
pub mod markup;
pub mod range;
pub mod std_specs;
pub mod text;
pub mod tokens;

pub use align::{apply_furigana, furigana_unneeded};
pub use generator::FuriganaGenerator;
pub use kana::{hiragana_to_katakana, is_equivalent_kana, is_kana, katakana_to_hiragana, normalize_kana};
