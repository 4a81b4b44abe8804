//! The furigana generator: a tokenizer with its dictionary, ready to annotate
//! fragments.

use crate::annotate::{add_html_furigana_skip_already_ruby, annotated_fragment};
use crate::markup::MarkupError;
use crate::tokens::{
    has_default_options, is_sound_dictionary, is_sound_tokenizer, tokenizer_dictionary,
};
use lz4_flex::frame::FrameDecoder;
use std::io::{Cursor, Read};
use vibrato::errors::VibratoError;
use vibrato::{Dictionary, Tokenizer};
use vstd::prelude::*;

verus! {

/// The error of `vibrato`. Nothing is read from it.
#[verifier::external_type_specification]
#[verifier::external_body]
pub struct ExVibratoError(VibratoError);

/// What the LZ4 frames of `data` hold once decompressed, as `lz4_flex`
/// decodes them; `None` where it reports an error.
pub uninterp spec fn lz4_frame_content(data: Seq<u8>) -> Option<Seq<u8>>;

/// Whether `vibrato` reads `bytes` as a compiled dictionary.
pub uninterp spec fn is_compiled_dictionary(bytes: Seq<u8>) -> bool;

/// What a compiled dictionary starts with: the bytes of
/// `VibratoTokenizer 0.5` and a line feed.
pub open spec fn dictionary_magic() -> Seq<u8> {
    seq![86u8, 105u8, 98u8, 114u8, 97u8, 116u8, 111u8, 84u8, 111u8, 107u8, 101u8, 110u8, 105u8, 122u8, 101u8, 114u8, 32u8, 48u8, 46u8, 53u8, 10u8]
}

/// `bytes` start as a compiled dictionary does.
pub open spec fn has_dictionary_magic(bytes: Seq<u8>) -> bool {
    bytes.len() >= dictionary_magic().len() && bytes.take(dictionary_magic().len() as int)
        == dictionary_magic()
}

/// `bytes` can be handed to `vibrato`: they do not start as a dictionary
/// does, so that `vibrato` turns them down at once, or they are a dictionary
/// that it can work with.
pub open spec fn is_safe_to_read(bytes: Seq<u8>) -> bool {
    has_dictionary_magic(bytes) ==> is_sound_dictionary(bytes)
}

/// Decompresses `data` with `lz4_flex::frame::FrameDecoder`, reading it to
/// its end. The decoder works on the bytes alone, so its result is a function
/// of them.
#[verifier::external_body]
fn decompress(data: &[u8]) -> (content: Option<Vec<u8>>)
    ensures
        match content {
            Some(bytes) => lz4_frame_content(data@) == Some(bytes@),
            None => lz4_frame_content(data@) is None,
        },
{
    let mut content = Vec::new();
    match FrameDecoder::new(Cursor::new(data)).read_to_end(&mut content) {
        Ok(_) => Some(content),
        Err(_) => None,
    }
}

/// Reads a dictionary with `vibrato::Dictionary::read` and makes a tokenizer
/// of it with `vibrato::Tokenizer::new`, every option at its default.
///
/// `Dictionary::read` first holds the start of the bytes against its magic
/// constant and returns an error where they differ or are too few; whether
/// it succeeds depends on the bytes alone. What follows the constant it
/// decodes without checking it, and its documentation asks for bytes that
/// `Dictionary::write` exported: on others the decoding, or the tokenizer
/// made of its result, may panic. The `requires` leaves those out. The
/// tokenizer holds the dictionary that was read, so it is one made of bytes
/// that `vibrato` can work with.
#[verifier::external_body]
fn load_tokenizer(bytes: &[u8]) -> (tokenizer: Result<Tokenizer, VibratoError>)
    requires
        has_dictionary_magic(bytes@) ==> is_sound_dictionary(bytes@),
    ensures
        tokenizer is Ok <==> is_compiled_dictionary(bytes@),
        tokenizer is Ok ==> has_dictionary_magic(bytes@),
        tokenizer matches Ok(made) ==> tokenizer_dictionary(made) == bytes@
            && is_sound_dictionary(tokenizer_dictionary(made)) && has_default_options(made),
{
    Ok(Tokenizer::new(Dictionary::read(Cursor::new(bytes))?))
}

/// Why a generator could not be made.
#[derive(Clone, Copy, Debug, PartialEq, Eq, Structural)]
pub enum DictionaryError {
    /// `lz4_flex` reports an error while it decompresses the data. Data that
    /// ends where a frame or a block ends is no error to it: empty data
    /// decompresses to nothing.
    Compression,
    /// `vibrato` does not read the decompressed data as a dictionary.
    Format,
}

/// Adds furigana to Japanese text in markup fragments.
pub struct FuriganaGenerator {
    tokenizer: Tokenizer,
}

impl FuriganaGenerator {
    #[verifier::type_invariant]
    spec fn well_formed(self) -> bool {
        is_sound_tokenizer(self.tokenizer)
    }

    /// The bytes of the compiled dictionary that the generator was made of.
    pub closed spec fn dictionary(&self) -> Seq<u8> {
        tokenizer_dictionary(self.tokenizer)
    }

    /// Makes a generator of a dictionary: the LZ4 frame of a dictionary that
    /// `vibrato` compiled. Data that cannot be decompressed, or that holds no
    /// dictionary, gives the error that says which.
    ///
    /// `vibrato` checks only how a dictionary starts. So what the data holds
    /// must either not start as a dictionary does, or be a dictionary that
    /// `vibrato` exported and can work with.
    pub fn new(dictionary: &[u8]) -> (generator: Result<FuriganaGenerator, DictionaryError>)
        requires
            lz4_frame_content(dictionary@) matches Some(bytes) ==> is_safe_to_read(bytes),
        ensures
            match generator {
                Ok(generator) => lz4_frame_content(dictionary@) matches Some(bytes)
                    && is_compiled_dictionary(bytes) && generator.dictionary() == bytes,
                Err(DictionaryError::Compression) => lz4_frame_content(dictionary@) is None,
                Err(DictionaryError::Format) => lz4_frame_content(dictionary@) matches Some(bytes)
                    && !is_compiled_dictionary(bytes),
            },
            lz4_frame_content(dictionary@) matches Some(bytes) && !has_dictionary_magic(bytes)
                ==> generator == Err::<FuriganaGenerator, DictionaryError>(DictionaryError::Format),
    {
        let bytes = match decompress(dictionary) {
            Some(bytes) => bytes,
            None => {
                return Err(DictionaryError::Compression);
            },
        };
        match load_tokenizer(bytes.as_slice()) {
            Ok(tokenizer) => Ok(FuriganaGenerator { tokenizer }),
            Err(_) => Err(DictionaryError::Format),
        }
    }

    /// The tokenizer that cuts the text into words.
    pub fn tokenizer(&self) -> (tokenizer: &Tokenizer)
        ensures
            tokenizer_dictionary(*tokenizer) == self.dictionary(),
            is_sound_tokenizer(*tokenizer),
    {
        proof {
            use_type_invariant(self);
        }
        &self.tokenizer
    }

    /// Adds furigana to a markup fragment, as `<ruby>` elements. The markup
    /// is kept as it is; text inside a `<ruby>` element gets no second gloss;
    /// a character of `known` is taken as needing none. A fragment that is
    /// not well formed gives the error and no text.
    pub fn add_html_furigana(&self, text: &str, known: &[char]) -> (annotated: Result<
        String,
        MarkupError,
    >)
        ensures
            match annotated {
                Ok(annotated) => annotated_fragment(text@, self.dictionary(), known@) == Some(
                    annotated@,
                ),
                Err(error) => annotated_fragment(text@, self.dictionary(), known@) is None && error
                    == MarkupError::Malformed,
            },
    {
        proof {
            use_type_invariant(self);
        }
        add_html_furigana_skip_already_ruby(text, &self.tokenizer, known)
    }
}

} // verus!
