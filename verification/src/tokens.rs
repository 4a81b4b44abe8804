//! Words as the tokenizer gives them, and their text with glosses.
//!
//! The tokenizer of `vibrato` cuts a sentence into words. Each comes with its
//! surface and a feature string, whose second field, between the first comma
//! and the next, is the reading. A word is written as its segments, one after
//! the other: a segment without a gloss as it stands, a glossed one as a
//! `<ruby>` element.

use crate::align::{
    alignment, apply_furigana, joined_surfaces, lemma_alignment_round_trip, lemma_joined_concat,
};
use crate::text::chars_of;
use vibrato::Tokenizer;
use vstd::prelude::*;
use vstd::string::{StrSliceExecFns, StringExecFns};

verus! {

/// A word of a sentence.
#[derive(Debug)]
pub struct Token {
    /// The word as it stands in the text.
    pub surface: String,
    /// How the word is read, in kana; empty where the tokenizer knows no
    /// reading.
    pub reading: String,
}

/// A word as contracts speak of it.
pub struct TokenView {
    pub surface: Seq<char>,
    pub reading: Seq<char>,
}

impl View for Token {
    type V = TokenView;

    open spec fn view(&self) -> TokenView {
        TokenView { surface: self.surface@, reading: self.reading@ }
    }
}

impl DeepView for Token {
    type V = TokenView;

    open spec fn deep_view(&self) -> TokenView {
        self@
    }
}

/// The tokenizer of `vibrato`, with the dictionary it was made of. What it
/// holds is known only through `tokenizer_dictionary`.
#[verifier::external_type_specification]
#[verifier::external_body]
pub struct ExTokenizer(Tokenizer);

/// Whether `bytes` are a dictionary that `vibrato` can work with: what
/// `Dictionary::write` exported of a dictionary that `vibrato` built, with a
/// word for the unknown in every category of characters, so that every
/// sentence can be cut. `Dictionary::read` asks for such bytes and checks only
/// how they start; nothing that could be tested tells whether they are.
pub uninterp spec fn is_sound_dictionary(bytes: Seq<u8>) -> bool;

/// The bytes that the dictionary of `tokenizer` was read from.
pub uninterp spec fn tokenizer_dictionary(tokenizer: Tokenizer) -> Seq<u8>;

/// Whether the tokenizer has every option as `Tokenizer::new` leaves it: it
/// ignores no spaces, and it groups unknown words without a limit.
pub uninterp spec fn has_default_options(tokenizer: Tokenizer) -> bool;

/// The words that a tokenizer with the dictionary read from `dictionary`, and
/// with every option at its default, cuts `sentence` into, in order, each as
/// its surface and its feature string.
pub uninterp spec fn tokenization(dictionary: Seq<u8>, sentence: Seq<char>) -> Seq<
    (Seq<char>, Seq<char>),
>;

/// The tokenizer has its options at their defaults and was made of a
/// dictionary that `vibrato` can work with. Only such a tokenizer is safe to
/// run: `vibrato` does not check what it reads.
pub open spec fn is_sound_tokenizer(tokenizer: Tokenizer) -> bool {
    has_default_options(tokenizer) && is_sound_dictionary(tokenizer_dictionary(tokenizer))
}

/// Runs the tokenizer on `sentence`: makes a worker with
/// `Tokenizer::new_worker`, hands it the sentence with
/// `Worker::reset_sentence`, calls `Worker::tokenize`, and copies of each
/// resulting token, in order, what `Token::surface` and `Token::feature` give.
/// The tokenizer is not changed by this, and with its options at their
/// defaults the result depends on its dictionary and on the sentence alone.
/// No space is ignored then, so each token starts where the one before it ends,
/// the first at the start of the sentence and the last at its end: the
/// surfaces, joined, are the sentence. With any other dictionary than one
/// that `vibrato` can work with, the tables that the tokenizer indexes may be
/// too short, or a character may be left without a word; the `requires`
/// leaves such tokenizers out.
#[verifier::external_body]
fn tokenize(tokenizer: &Tokenizer, sentence: &str) -> (words: Vec<(String, String)>)
    requires
        has_default_options(*tokenizer),
        is_sound_dictionary(tokenizer_dictionary(*tokenizer)),
    ensures
        words.deep_view() == tokenization(tokenizer_dictionary(*tokenizer), sentence@),
        joined_surfaces(words.deep_view()) == sentence@,
{
    let mut worker = tokenizer.new_worker();
    worker.reset_sentence(sentence);
    worker.tokenize();
    worker.token_iter().map(|t| (t.surface().to_string(), t.feature().to_string())).collect()
}

/// The place of the first comma of `text` at or after `from`; the length of
/// `text` if there is none.
pub open spec fn field_end(text: Seq<char>, from: int) -> int
    decreases text.len() - from,
{
    if 0 <= from < text.len() && text[from] != ',' {
        field_end(text, from + 1)
    } else {
        from
    }
}

/// The second of the fields that commas part `feature` into; empty where
/// `feature` holds no comma.
pub open spec fn reading_field(feature: Seq<char>) -> Seq<char> {
    let comma = field_end(feature, 0);
    if 0 <= comma < feature.len() {
        feature.subrange(comma + 1, field_end(feature, comma + 1))
    } else {
        Seq::empty()
    }
}

/// The words that the tokenizer gave, each with the reading that its
/// feature string holds.
pub open spec fn words_tokens(words: Seq<(Seq<char>, Seq<char>)>) -> Seq<TokenView> {
    Seq::new(
        words.len(),
        |i: int| TokenView { surface: words[i].0, reading: reading_field(words[i].1) },
    )
}

/// The words of a sentence: those that a tokenizer with the dictionary read
/// from `dictionary` cuts it into, each with its reading.
pub open spec fn sentence_tokens(dictionary: Seq<u8>, sentence: Seq<char>) -> Seq<TokenView> {
    words_tokens(tokenization(dictionary, sentence))
}

/// The text of a segment: its surface alone where it has no gloss, else a
/// `<ruby>` element with the surface as base and the reading as `<rt>`.
pub open spec fn ruby_text(segment: (Seq<char>, Seq<char>)) -> Seq<char> {
    if segment.1.len() == 0 {
        segment.0
    } else {
        "<ruby>"@ + segment.0 + "<rt>"@ + segment.1 + "</rt></ruby>"@
    }
}

/// The texts of the segments, one after the other.
pub open spec fn ruby_texts(segments: Seq<(Seq<char>, Seq<char>)>) -> Seq<char>
    decreases segments.len(),
{
    if segments.len() == 0 {
        Seq::empty()
    } else {
        ruby_texts(segments.drop_last()) + ruby_text(segments.last())
    }
}

/// The text of a word with its glosses.
pub open spec fn annotated_token(token: TokenView, known: Seq<char>) -> Seq<char> {
    ruby_texts(alignment(token.surface, token.reading, known))
}

/// The texts of the words with their glosses, one after the other.
pub open spec fn annotated_tokens(tokens: Seq<TokenView>, known: Seq<char>) -> Seq<char>
    decreases tokens.len(),
{
    if tokens.len() == 0 {
        Seq::empty()
    } else {
        annotated_tokens(tokens.drop_last(), known) + annotated_token(tokens.last(), known)
    }
}

/// The segments of the words, in the order of the text.
pub open spec fn token_segments(tokens: Seq<TokenView>, known: Seq<char>) -> Seq<
    (Seq<char>, Seq<char>),
>
    decreases tokens.len(),
{
    if tokens.len() == 0 {
        Seq::empty()
    } else {
        token_segments(tokens.drop_last(), known) + alignment(
            tokens.last().surface,
            tokens.last().reading,
            known,
        )
    }
}

/// The surfaces of the words, one after the other.
pub open spec fn joined_tokens(tokens: Seq<TokenView>) -> Seq<char>
    decreases tokens.len(),
{
    if tokens.len() == 0 {
        Seq::empty()
    } else {
        joined_tokens(tokens.drop_last()) + tokens.last().surface
    }
}

/// The texts of segments distribute over concatenation.
proof fn lemma_ruby_texts_concat(
    left: Seq<(Seq<char>, Seq<char>)>,
    right: Seq<(Seq<char>, Seq<char>)>,
)
    ensures
        ruby_texts(left + right) == ruby_texts(left) + ruby_texts(right),
    decreases right.len(),
{
    if right.len() == 0 {
        assert(left + right == left);
    } else {
        assert((left + right).drop_last() == left + right.drop_last());
        lemma_ruby_texts_concat(left, right.drop_last());
    }
}

/// What is written for the words is the text of their segments, and the
/// surfaces of these segments spell the words: no character of the text is
/// lost or moved, whatever the readings and the known characters are.
pub proof fn lemma_words_are_kept(tokens: Seq<TokenView>, known: Seq<char>)
    ensures
        annotated_tokens(tokens, known) == ruby_texts(token_segments(tokens, known)),
        joined_surfaces(token_segments(tokens, known)) == joined_tokens(tokens),
    decreases tokens.len(),
{
    if tokens.len() > 0 {
        let last = tokens.last();
        let segments = alignment(last.surface, last.reading, known);
        lemma_words_are_kept(tokens.drop_last(), known);
        lemma_ruby_texts_concat(token_segments(tokens.drop_last(), known), segments);
        lemma_joined_concat(token_segments(tokens.drop_last(), known), segments);
        lemma_alignment_round_trip(last.surface, last.reading, known);
    }
}

/// Finds the first comma of `text` at or after `from`.
fn find_field_end(text: &Vec<char>, from: usize) -> (end: usize)
    requires
        from <= text.len(),
    ensures
        end == field_end(text@, from as int),
        from <= end <= text.len(),
{
    let mut end: usize = from;
    while end < text.len() && text[end] != ','
        invariant
            from <= end <= text.len(),
            field_end(text@, end as int) == field_end(text@, from as int),
        decreases text.len() - end,
    {
        end += 1;
    }
    end
}

impl Token {
    /// Makes a word of its surface and the feature string of the tokenizer.
    /// The reading is the second field of the feature string, and empty where
    /// the string has only one.
    pub fn from_feature(surface: &str, feature: &str) -> (token: Token)
        ensures
            token@ == (TokenView { surface: surface@, reading: reading_field(feature@) }),
    {
        let chars = chars_of(feature);
        let comma = find_field_end(&chars, 0);
        let reading = if comma < chars.len() {
            let end = find_field_end(&chars, comma + 1);
            String::from_str(feature.substring_char(comma + 1, end))
        } else {
            String::new()
        };
        Token { surface: String::from_str(surface), reading }
    }
}

/// Appends the text of the segments to `text`.
fn write_segments(text: &mut String, segments: &Vec<(&str, &str)>)
    ensures
        final(text)@ == old(text)@ + ruby_texts(segments.deep_view()),
{
    let mut i: usize = 0;
    assert(segments.deep_view().take(0) == Seq::<(Seq<char>, Seq<char>)>::empty());
    while i < segments.len()
        invariant
            i <= segments.len(),
            text@ == old(text)@ + ruby_texts(segments.deep_view().take(i as int)),
        decreases segments.len() - i,
    {
        let (surface, reading) = segments[i];
        proof {
            let now = segments.deep_view().take(i + 1);
            assert(now.drop_last() == segments.deep_view().take(i as int));
            assert(now.last() == (surface@, reading@));
        }
        if reading.is_empty() {
            text.append(surface);
        } else {
            text.append("<ruby>");
            text.append(surface);
            text.append("<rt>");
            text.append(reading);
            text.append("</rt></ruby>");
        }
        i += 1;
    }
    assert(segments.deep_view().take(i as int) == segments.deep_view());
}

/// Writes the words one after the other, each with the glosses that its
/// alignment calls for: a segment with a reading becomes
/// `<ruby>surface<rt>reading</rt></ruby>`, one without stays as it is.
/// A character of `known` is taken as needing no gloss.
pub fn annotate_tokens(tokens: &Vec<Token>, known: &[char]) -> (text: String)
    ensures
        text@ == annotated_tokens(tokens.deep_view(), known@),
{
    let mut text = String::new();
    let mut i: usize = 0;
    assert(tokens.deep_view().take(0) == Seq::<TokenView>::empty());
    while i < tokens.len()
        invariant
            i <= tokens.len(),
            text@ == annotated_tokens(tokens.deep_view().take(i as int), known@),
        decreases tokens.len() - i,
    {
        let token = &tokens[i];
        proof {
            let now = tokens.deep_view().take(i + 1);
            assert(now.drop_last() == tokens.deep_view().take(i as int));
            assert(now.last() == token@);
        }
        let segments = apply_furigana(token.surface.as_str(), token.reading.as_str(), known);
        write_segments(&mut text, &segments);
        i += 1;
    }
    assert(tokens.deep_view().take(i as int) == tokens.deep_view());
    text
}

/// The surfaces of the words stay what the tokenizer gave.
proof fn lemma_words_surfaces(words: Seq<(Seq<char>, Seq<char>)>)
    ensures
        joined_tokens(words_tokens(words)) == joined_surfaces(words),
    decreases words.len(),
{
    if words.len() > 0 {
        assert(words_tokens(words).drop_last() == words_tokens(words.drop_last()));
        lemma_words_surfaces(words.drop_last());
    }
}

/// Cuts a sentence into its words, in order, each with its reading. The
/// surfaces of the words, joined, are the sentence.
pub fn tokens_of(tokenizer: &Tokenizer, sentence: &str) -> (tokens: Vec<Token>)
    requires
        is_sound_tokenizer(*tokenizer),
    ensures
        tokens.deep_view() == sentence_tokens(tokenizer_dictionary(*tokenizer), sentence@),
        joined_tokens(tokens.deep_view()) == sentence@,
{
    let words = tokenize(tokenizer, sentence);
    let ghost wanted = words_tokens(words.deep_view());
    let mut tokens: Vec<Token> = Vec::new();
    let mut i: usize = 0;
    while i < words.len()
        invariant
            i <= words.len(),
            wanted == words_tokens(words.deep_view()),
            tokens.len() == i,
            forall|j: int| 0 <= j < i ==> (#[trigger] tokens@[j])@ == wanted[j],
        decreases words.len() - i,
    {
        assert(words.deep_view()[i as int] == (words@[i as int].0@, words@[i as int].1@));
        let token = Token::from_feature(words[i].0.as_str(), words[i].1.as_str());
        tokens.push(token);
        i += 1;
    }
    assert(tokens.deep_view() == wanted);
    proof {
        lemma_words_surfaces(words.deep_view());
    }
    tokens
}

/// Adds furigana to a plain text, as `<ruby>` elements: cuts the text into
/// words and writes each with the glosses that it needs. The surfaces of the
/// segments that are written, joined, are the text.
pub fn add_html_furigana(text: &str, tokenizer: &Tokenizer, known: &[char]) -> (annotated: String)
    requires
        is_sound_tokenizer(*tokenizer),
    ensures
        annotated@ == annotated_tokens(
            sentence_tokens(tokenizer_dictionary(*tokenizer), text@),
            known@,
        ),
        joined_surfaces(
            token_segments(sentence_tokens(tokenizer_dictionary(*tokenizer), text@), known@),
        ) == text@,
{
    let tokens = tokens_of(tokenizer, text);
    proof {
        lemma_words_are_kept(tokens.deep_view(), known@);
    }
    annotate_tokens(&tokens, known)
}

} // verus!
