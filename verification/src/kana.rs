//! Classification and normalisation of kana characters.

use vstd::prelude::*;

verus! {

/// Code point of the first hiragana, `ぁ`.
pub const HIRAGANA: u32 = 0x3041;

/// Code point of the first katakana, `ァ`.
pub const KATAKANA: u32 = 0x30A1;

/// Number of characters in each of the two kana blocks, `ぁ..=ゖ` and `ァ..=ヶ`.
pub const KANA_COUNT: u32 = 0x3097 - HIRAGANA;

/// The prolonged sound mark, which lengthens the vowel before it.
pub const LONG_VOWEL_MARK: char = 'ー';

/// `c` lies in the hiragana block.
pub open spec fn is_hiragana(c: char) -> bool {
    HIRAGANA <= (c as u32) < HIRAGANA + KANA_COUNT
}

/// `c` lies in the katakana block.
pub open spec fn is_katakana(c: char) -> bool {
    KATAKANA <= (c as u32) < KATAKANA + KANA_COUNT
}

/// `c` is a hiragana, a katakana or the long vowel mark.
pub open spec fn spec_is_kana(c: char) -> bool {
    c == LONG_VOWEL_MARK || is_hiragana(c) || is_katakana(c)
}

/// The katakana that stands at the place of the hiragana `c` in its block.
pub open spec fn to_katakana(c: char) -> char
    recommends
        is_hiragana(c),
{
    (c as u32 + (KATAKANA - HIRAGANA)) as char
}

/// The hiragana that stands at the place of the katakana `c` in its block.
pub open spec fn to_hiragana(c: char) -> char
    recommends
        is_katakana(c),
{
    (c as u32 - (KATAKANA - HIRAGANA)) as char
}

/// The hiragana form of a kana; `None` for every other character.
pub open spec fn spec_normalize_kana(c: char) -> Option<char> {
    if !spec_is_kana(c) {
        None
    } else if is_katakana(c) {
        Some(to_hiragana(c))
    } else {
        Some(c)
    }
}

/// `c` is one of the five hiragana vowels, large or small.
pub open spec fn is_vowel(c: char) -> bool {
    c == 'あ' || c == 'い' || c == 'う' || c == 'え' || c == 'お' || c == 'ぁ' || c == 'ぃ' || c
        == 'ぅ' || c == 'ぇ' || c == 'ぉ'
}

/// `(a, b)` is one of the pairs that historical spelling writes for one sound.
pub open spec fn is_spelling_pair(a: char, b: char) -> bool {
    (a == 'は' && b == 'わ') || (a == 'を' && b == 'お') || (a == 'づ' && b == 'ず') || (a == 'へ'
        && b == 'え')
}

/// Two normalised kana stand for the same sound, liberally understood.
pub open spec fn same_sound(a: char, b: char) -> bool {
    a == b || (a == LONG_VOWEL_MARK && is_vowel(b)) || (b == LONG_VOWEL_MARK && is_vowel(a))
        || is_spelling_pair(a, b) || is_spelling_pair(b, a)
}

/// Both characters are kana, and their hiragana forms are the same sound.
pub open spec fn kana_equivalent(a: char, b: char) -> bool {
    match (spec_normalize_kana(a), spec_normalize_kana(b)) {
        (Some(x), Some(y)) => same_sound(x, y),
        _ => false,
    }
}

/// Tells whether `c` is a hiragana, a katakana or the long vowel mark.
#[verifier::when_used_as_spec(spec_is_kana)]
pub fn is_kana(c: char) -> (r: bool)
    ensures
        r == spec_is_kana(c),
{
    if c == LONG_VOWEL_MARK {
        return true;
    }
    let code: u32 = c as u32;
    if code >= HIRAGANA && code < HIRAGANA + KANA_COUNT {
        return true;
    }
    if code >= KATAKANA && code < KATAKANA + KANA_COUNT {
        return true;
    }
    false
}

/// Maps a hiragana to its katakana; `None` for every other character.
pub fn hiragana_to_katakana(c: char) -> (r: Option<char>)
    ensures
        r == if is_hiragana(c) {
            Some(to_katakana(c))
        } else {
            None::<char>
        },
{
    let code: u32 = c as u32;
    if code >= HIRAGANA && code < HIRAGANA + KANA_COUNT {
        char::from_u32(code + KATAKANA - HIRAGANA)
    } else {
        None
    }
}

/// Maps a katakana to its hiragana; `None` for every other character.
pub fn katakana_to_hiragana(c: char) -> (r: Option<char>)
    ensures
        r == if is_katakana(c) {
            Some(to_hiragana(c))
        } else {
            None::<char>
        },
{
    let code: u32 = c as u32;
    if code >= KATAKANA && code < KATAKANA + KANA_COUNT {
        char::from_u32(code - KATAKANA + HIRAGANA)
    } else {
        None
    }
}

/// Gives the hiragana form of a kana, and `None` for a character that is no
/// kana. Hiragana and the long vowel mark are their own normal form.
#[verifier::when_used_as_spec(spec_normalize_kana)]
pub fn normalize_kana(c: char) -> (r: Option<char>)
    ensures
        r == spec_normalize_kana(c),
{
    if !is_kana(c) {
        return None;
    }
    match katakana_to_hiragana(c) {
        Some(h) => Some(h),
        None => Some(c),
    }
}

fn is_vowel_kana(c: char) -> (r: bool)
    ensures
        r == is_vowel(c),
{
    c == 'あ' || c == 'い' || c == 'う' || c == 'え' || c == 'お' || c == 'ぁ' || c == 'ぃ' || c
        == 'ぅ' || c == 'ぇ' || c == 'ぉ'
}

fn is_historical_pair(a: char, b: char) -> (r: bool)
    ensures
        r == is_spelling_pair(a, b),
{
    (a == 'は' && b == 'わ') || (a == 'を' && b == 'お') || (a == 'づ' && b == 'ず') || (a == 'へ'
        && b == 'え')
}

/// Tells whether two characters are kana that may stand for each other when
/// a word's spelling is held against its reading. The relation is liberal on
/// purpose: it is meant to avoid false mismatches.
#[verifier::when_used_as_spec(kana_equivalent)]
pub fn is_equivalent_kana(a: char, b: char) -> (r: bool)
    ensures
        r == kana_equivalent(a, b),
{
    let (a, b) = match (normalize_kana(a), normalize_kana(b)) {
        (Some(a), Some(b)) => (a, b),
        _ => {
            return false;
        },
    };
    if a == b {
        return true;
    }
    if a == LONG_VOWEL_MARK && is_vowel_kana(b) {
        return true;
    }
    if b == LONG_VOWEL_MARK && is_vowel_kana(a) {
        return true;
    }
    is_historical_pair(a, b) || is_historical_pair(b, a)
}

/// Kana equivalence does not depend on the order of its arguments.
pub proof fn lemma_equivalence_symmetric(a: char, b: char)
    ensures
        kana_equivalent(a, b) == kana_equivalent(b, a),
{
}

/// Every kana is equivalent to itself, and only kana are equivalent to
/// anything.
pub proof fn lemma_equivalence_on_kana(a: char, b: char)
    ensures
        spec_is_kana(a) ==> kana_equivalent(a, a),
        kana_equivalent(a, b) ==> spec_is_kana(a) && spec_is_kana(b),
{
}

/// A katakana and the hiragana at the same place of its block are equivalent,
/// and the two conversions undo each other.
pub proof fn lemma_scripts_correspond(c: char)
    ensures
        is_hiragana(c) ==> is_katakana(to_katakana(c)) && to_hiragana(to_katakana(c)) == c
            && kana_equivalent(c, to_katakana(c)),
        is_katakana(c) ==> is_hiragana(to_hiragana(c)) && to_katakana(to_hiragana(c)) == c
            && kana_equivalent(c, to_hiragana(c)),
{
}

} // verus!
