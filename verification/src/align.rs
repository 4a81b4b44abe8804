//! Alignment of a word's spelling with its reading.
//!
//! A word comes as its surface (the spelling in the text, kanji and kana
//! mixed) and its reading (kana only). The alignment cuts the surface into
//! segments and gives each the part of the reading that glosses it. It commits
//! to a cut only where a kana of the surface fixes the place in the reading
//! beyond doubt; everything else stays one coarse segment.

use crate::kana::{is_equivalent_kana, is_kana, kana_equivalent, spec_is_kana};
use crate::std_specs::char_is_numeric;
use crate::text::chars_of;
use vstd::prelude::*;
use vstd::string::StrSliceExecFns;

verus! {

/// A character that never calls for a gloss: a kana, an ASCII character, a
/// numeric character, or one the reader is known to know.
pub open spec fn is_plain(c: char, known: Seq<char>) -> bool {
    spec_is_kana(c) || (c as u32) < 0x80 || char_is_numeric(c) || known.contains(c)
}

/// Every character of `text` is plain.
pub open spec fn spec_furigana_unneeded(text: Seq<char>, known: Seq<char>) -> bool {
    forall|i: int| 0 <= i < text.len() ==> is_plain(#[trigger] text[i], known)
}

/// The first position, from `from` on, at which `surface` and `reading` do
/// not both hold kana that are equivalent; the length of the shorter one if
/// there is none.
pub open spec fn matching_end(surface: Seq<char>, reading: Seq<char>, from: int) -> int
    decreases surface.len() - from,
{
    if 0 <= from < surface.len() && from < reading.len() && kana_equivalent(
        surface[from],
        reading[from],
    ) {
        matching_end(surface, reading, from + 1)
    } else {
        from
    }
}

/// How many characters `surface` and `reading` share at their start, up to
/// kana equivalence.
pub open spec fn lead_len(surface: Seq<char>, reading: Seq<char>) -> int {
    matching_end(surface, reading, 0)
}

/// The same as `matching_end`, counted from the ends backwards: the first
/// distance `back` from the end at which the two do not match.
pub open spec fn matching_end_back(surface: Seq<char>, reading: Seq<char>, back: int) -> int
    decreases surface.len() - back,
{
    if 0 <= back < surface.len() && back < reading.len() && kana_equivalent(
        surface[surface.len() - 1 - back],
        reading[reading.len() - 1 - back],
    ) {
        matching_end_back(surface, reading, back + 1)
    } else {
        back
    }
}

/// How many characters `surface` and `reading` share at their end, up to kana
/// equivalence.
pub open spec fn trail_len(surface: Seq<char>, reading: Seq<char>) -> int {
    matching_end_back(surface, reading, 0)
}

/// The position of the first kana of `text` at or after `from`; the length of
/// `text` if there is none.
pub open spec fn first_kana(text: Seq<char>, from: int) -> int
    decreases text.len() - from,
{
    if 0 <= from < text.len() && !spec_is_kana(text[from]) {
        first_kana(text, from + 1)
    } else {
        from
    }
}

/// The position of the first character of `reading`, at or after `from`, that
/// is equivalent to `kana`; the length of `reading` if there is none.
pub open spec fn first_equivalent(reading: Seq<char>, kana: char, from: int) -> int
    decreases reading.len() - from,
{
    if 0 <= from < reading.len() && !kana_equivalent(kana, reading[from]) {
        first_equivalent(reading, kana, from + 1)
    } else {
        from
    }
}

/// The number of characters of `reading` that are equivalent to `kana`.
pub open spec fn count_equivalent(reading: Seq<char>, kana: char) -> nat
    decreases reading.len(),
{
    if reading.len() == 0 {
        0
    } else {
        count_equivalent(reading.drop_last(), kana) + if kana_equivalent(kana, reading.last()) {
            1nat
        } else {
            0nat
        }
    }
}

/// The first kana of `surface` is an anchor when exactly one character of
/// `reading` is equivalent to it. The result is the place of that kana in
/// `surface` and the place of its match in `reading`.
pub open spec fn anchor(surface: Seq<char>, reading: Seq<char>) -> Option<(int, int)> {
    let at = first_kana(surface, 0);
    if 0 <= at < surface.len() && count_equivalent(reading, surface[at]) == 1 {
        Some((at, first_equivalent(reading, surface[at], 0)))
    } else {
        None
    }
}

/// The segments of the middle of a word, between the kana trimmed from its
/// two ends. While the middle has an anchor, what stands before the anchor
/// becomes a segment glossed by what stands before the anchor's match, the
/// anchor itself a segment without a gloss, and the rest is resolved in the
/// same way. What is left when there is no anchor is one glossed segment.
pub open spec fn resolve_middle(surface: Seq<char>, reading: Seq<char>) -> Seq<
    (Seq<char>, Seq<char>),
>
    decreases surface.len(),
{
    match anchor(surface, reading) {
        Some((at, matched)) => seq![
            (surface.take(at), reading.take(matched)),
            (surface.subrange(at, at + 1), Seq::<char>::empty()),
        ] + resolve_middle(surface.skip(at + 1), reading.skip(matched + 1)),
        None => seq![(surface, reading)],
    }
}

/// The segments of a word before the empty ones are dropped: the kana that
/// surface and reading share at the start, the resolved middle, and the kana
/// that what is left shares at the end.
pub open spec fn trimmed_parts(surface: Seq<char>, reading: Seq<char>) -> Seq<
    (Seq<char>, Seq<char>),
> {
    let lead = lead_len(surface, reading);
    let rest_surface = surface.skip(lead);
    let rest_reading = reading.skip(lead);
    let trail = trail_len(rest_surface, rest_reading);
    seq![(surface.take(lead), Seq::<char>::empty())] + resolve_middle(
        rest_surface.take(rest_surface.len() - trail),
        rest_reading.take(rest_reading.len() - trail),
    ) + seq![(rest_surface.skip(rest_surface.len() - trail), Seq::<char>::empty())]
}

/// The test that keeps the segments with a surface.
pub open spec fn has_surface() -> spec_fn((Seq<char>, Seq<char>)) -> bool {
    |segment: (Seq<char>, Seq<char>)| segment.0.len() > 0
}

/// The alignment of a word: its segments in the order of the text, each a
/// span of the surface with the reading that glosses it, empty where the span
/// needs no gloss.
pub open spec fn alignment(surface: Seq<char>, reading: Seq<char>, known: Seq<char>) -> Seq<
    (Seq<char>, Seq<char>),
> {
    if spec_furigana_unneeded(surface, known) {
        seq![(surface, Seq::<char>::empty())]
    } else {
        trimmed_parts(surface, reading).filter(has_surface())
    }
}

/// The surfaces of the segments, one after the other.
pub open spec fn joined_surfaces(segments: Seq<(Seq<char>, Seq<char>)>) -> Seq<char>
    decreases segments.len(),
{
    if segments.len() == 0 {
        Seq::empty()
    } else {
        joined_surfaces(segments.drop_last()) + segments.last().0
    }
}

/// `first_equivalent` stays within the reading, passes over no match and
/// stops on one.
proof fn lemma_first_equivalent(reading: Seq<char>, kana: char, from: int)
    requires
        0 <= from <= reading.len(),
    ensures
        from <= first_equivalent(reading, kana, from) <= reading.len(),
        forall|j: int|
            from <= j < first_equivalent(reading, kana, from) ==> !kana_equivalent(
                kana,
                #[trigger] reading[j],
            ),
        first_equivalent(reading, kana, from) < reading.len() ==> kana_equivalent(
            kana,
            reading[first_equivalent(reading, kana, from)],
        ),
    decreases reading.len() - from,
{
    if from < reading.len() && !kana_equivalent(kana, reading[from]) {
        lemma_first_equivalent(reading, kana, from + 1);
    }
}

/// A reading without a match counts none.
proof fn lemma_count_without_match(reading: Seq<char>, kana: char)
    requires
        forall|j: int| 0 <= j < reading.len() ==> !kana_equivalent(kana, #[trigger] reading[j]),
    ensures
        count_equivalent(reading, kana) == 0,
    decreases reading.len(),
{
    if reading.len() > 0 {
        lemma_count_without_match(reading.drop_last(), kana);
    }
}

/// Where the reading holds a match at all, `first_equivalent` finds one.
proof fn lemma_counted_match_is_found(reading: Seq<char>, kana: char)
    requires
        count_equivalent(reading, kana) > 0,
    ensures
        0 <= first_equivalent(reading, kana, 0) < reading.len(),
{
    lemma_first_equivalent(reading, kana, 0);
    if first_equivalent(reading, kana, 0) == reading.len() {
        lemma_count_without_match(reading, kana);
    }
}

/// Joining distributes over concatenation.
pub proof fn lemma_joined_concat(left: Seq<(Seq<char>, Seq<char>)>, right: Seq<(Seq<char>, Seq<char>)>)
    ensures
        joined_surfaces(left + right) == joined_surfaces(left) + joined_surfaces(right),
    decreases right.len(),
{
    if right.len() == 0 {
        assert(left + right == left);
    } else {
        assert((left + right).drop_last() == left + right.drop_last());
        lemma_joined_concat(left, right.drop_last());
    }
}

/// Segments without a surface add nothing to the joined surfaces.
proof fn lemma_joined_without_empty(segments: Seq<(Seq<char>, Seq<char>)>)
    ensures
        joined_surfaces(segments.filter(has_surface())) == joined_surfaces(segments),
    decreases segments.len(),
{
    reveal(Seq::filter);
    if segments.len() > 0 {
        lemma_joined_without_empty(segments.drop_last());
        let kept = segments.drop_last().filter(has_surface());
        if has_surface()(segments.last()) {
            assert(kept.push(segments.last()).drop_last() == kept);
        }
    }
}

/// The surfaces of a resolved middle give the middle back.
proof fn lemma_middle_round_trip(surface: Seq<char>, reading: Seq<char>)
    ensures
        joined_surfaces(resolve_middle(surface, reading)) == surface,
    decreases surface.len(),
{
    reveal_with_fuel(joined_surfaces, 3);
    if let Some((at, matched)) = anchor(surface, reading) {
        let head = seq![
            (surface.take(at), reading.take(matched)),
            (surface.subrange(at, at + 1), Seq::<char>::empty()),
        ];
        let rest = resolve_middle(surface.skip(at + 1), reading.skip(matched + 1));
        lemma_middle_round_trip(surface.skip(at + 1), reading.skip(matched + 1));
        lemma_joined_concat(head, rest);
        assert(head.drop_last() == seq![(surface.take(at), reading.take(matched))]);
        assert(head.drop_last().drop_last() == Seq::<(Seq<char>, Seq<char>)>::empty());
        assert(joined_surfaces(head) == surface.take(at + 1));
        assert(surface.take(at + 1) + surface.skip(at + 1) == surface);
    } else {
        let whole = seq![(surface, reading)];
        assert(whole.drop_last() == Seq::<(Seq<char>, Seq<char>)>::empty());
        assert(joined_surfaces(whole) == surface);
    }
}

/// The segments of an alignment, read one after the other, spell the word:
/// joining their surfaces gives the surface back, whatever the reading and
/// the known characters are.
pub proof fn lemma_alignment_round_trip(surface: Seq<char>, reading: Seq<char>, known: Seq<char>)
    ensures
        joined_surfaces(alignment(surface, reading, known)) == surface,
{
    reveal_with_fuel(joined_surfaces, 2);
    if spec_furigana_unneeded(surface, known) {
        let whole = seq![(surface, Seq::<char>::empty())];
        assert(whole.drop_last() == Seq::<(Seq<char>, Seq<char>)>::empty());
        assert(joined_surfaces(whole) == surface);
    } else {
        let lead = lead_len(surface, reading);
        lemma_matching_end(surface, reading, 0);
        let rest_surface = surface.skip(lead);
        let rest_reading = reading.skip(lead);
        let trail = trail_len(rest_surface, rest_reading);
        lemma_matching_end_back(rest_surface, rest_reading, 0);
        let first = seq![(surface.take(lead), Seq::<char>::empty())];
        let middle = rest_surface.take(rest_surface.len() - trail);
        let resolved = resolve_middle(middle, rest_reading.take(rest_reading.len() - trail));
        let last = seq![(rest_surface.skip(rest_surface.len() - trail), Seq::<char>::empty())];
        lemma_joined_without_empty(trimmed_parts(surface, reading));
        lemma_joined_concat(first + resolved, last);
        lemma_joined_concat(first, resolved);
        lemma_middle_round_trip(middle, rest_reading.take(rest_reading.len() - trail));
        assert(first.drop_last() == Seq::<(Seq<char>, Seq<char>)>::empty());
        assert(last.drop_last() == Seq::<(Seq<char>, Seq<char>)>::empty());
        assert(joined_surfaces(first) == surface.take(lead));
        assert(joined_surfaces(last) == rest_surface.skip(rest_surface.len() - trail));
        assert(middle + rest_surface.skip(rest_surface.len() - trail) == rest_surface);
        assert(surface.take(lead) + rest_surface == surface);
        assert(surface.take(lead) + middle + rest_surface.skip(rest_surface.len() - trail)
            == surface);
    }
}

/// A word made of plain characters alone is one segment without a gloss,
/// whatever its reading is.
pub proof fn lemma_unneeded_is_one_segment(
    surface: Seq<char>,
    reading: Seq<char>,
    known: Seq<char>,
)
    requires
        spec_furigana_unneeded(surface, known),
    ensures
        alignment(surface, reading, known) == seq![(surface, Seq::<char>::empty())],
{
}

/// The shared start lies within both sequences.
proof fn lemma_matching_end(surface: Seq<char>, reading: Seq<char>, from: int)
    requires
        0 <= from <= surface.len(),
        from <= reading.len(),
    ensures
        from <= matching_end(surface, reading, from) <= surface.len(),
        matching_end(surface, reading, from) <= reading.len(),
    decreases surface.len() - from,
{
    if from < surface.len() && from < reading.len() && kana_equivalent(
        surface[from],
        reading[from],
    ) {
        lemma_matching_end(surface, reading, from + 1);
    }
}

/// The shared end lies within both sequences.
proof fn lemma_matching_end_back(surface: Seq<char>, reading: Seq<char>, back: int)
    requires
        0 <= back <= surface.len(),
        back <= reading.len(),
    ensures
        back <= matching_end_back(surface, reading, back) <= surface.len(),
        matching_end_back(surface, reading, back) <= reading.len(),
    decreases surface.len() - back,
{
    if back < surface.len() && back < reading.len() && kana_equivalent(
        surface[surface.len() - 1 - back],
        reading[reading.len() - 1 - back],
    ) {
        lemma_matching_end_back(surface, reading, back + 1);
    }
}

/// Tells whether `c` occurs in `known`.
fn is_known(known: &[char], c: char) -> (found: bool)
    ensures
        found == known@.contains(c),
{
    let mut i: usize = 0;
    while i < known.len()
        invariant
            i <= known.len(),
            forall|j: int| 0 <= j < i ==> known@[j] != c,
        decreases known.len() - i,
    {
        if known[i] == c {
            return true;
        }
        i += 1;
    }
    false
}

/// Tells whether a text certainly needs no gloss: whether each of its
/// characters is a kana, an ASCII character, a numeric character or one of
/// `known`. The empty text needs none.
pub fn furigana_unneeded(text: &str, known: &[char]) -> (unneeded: bool)
    ensures
        unneeded == spec_furigana_unneeded(text@, known@),
{
    let chars = chars_of(text);
    let mut i: usize = 0;
    while i < chars.len()
        invariant
            i <= chars.len(),
            chars@ == text@,
            forall|j: int| 0 <= j < i ==> is_plain(#[trigger] text@[j], known@),
        decreases chars.len() - i,
    {
        let c = chars[i];
        if !(is_kana(c) || (c as u32) < 0x80 || c.is_numeric() || is_known(known, c)) {
            assert(!is_plain(text@[i as int], known@));
            return false;
        }
        i += 1;
    }
    true
}

/// Counts the characters that `surface` and `reading` share at their start.
fn leading_match(surface: &Vec<char>, reading: &Vec<char>) -> (lead: usize)
    ensures
        lead == lead_len(surface@, reading@),
        lead <= surface.len(),
        lead <= reading.len(),
{
    let mut lead: usize = 0;
    while lead < surface.len() && lead < reading.len() && is_equivalent_kana(
        surface[lead],
        reading[lead],
    )
        invariant
            lead <= surface.len(),
            lead <= reading.len(),
            matching_end(surface@, reading@, lead as int) == lead_len(surface@, reading@),
        decreases surface.len() - lead,
    {
        lead += 1;
    }
    lead
}

/// Counts the characters that `surface` and `reading` share at their end.
fn trailing_match(surface: &Vec<char>, reading: &Vec<char>) -> (trail: usize)
    ensures
        trail == trail_len(surface@, reading@),
        trail <= surface.len(),
        trail <= reading.len(),
{
    let mut trail: usize = 0;
    while trail < surface.len() && trail < reading.len() && is_equivalent_kana(
        surface[surface.len() - 1 - trail],
        reading[reading.len() - 1 - trail],
    )
        invariant
            trail <= surface.len(),
            trail <= reading.len(),
            matching_end_back(surface@, reading@, trail as int) == trail_len(surface@, reading@),
        decreases surface.len() - trail,
    {
        trail += 1;
    }
    trail
}

/// Finds the first kana of `text`.
fn find_kana(text: &Vec<char>) -> (at: usize)
    ensures
        at == first_kana(text@, 0),
        at <= text.len(),
{
    let mut at: usize = 0;
    while at < text.len() && !is_kana(text[at])
        invariant
            at <= text.len(),
            first_kana(text@, at as int) == first_kana(text@, 0),
        decreases text.len() - at,
    {
        at += 1;
    }
    at
}

/// Finds the first character of `reading` that is equivalent to `kana`.
fn find_equivalent(reading: &Vec<char>, kana: char) -> (at: usize)
    ensures
        at == first_equivalent(reading@, kana, 0),
        at <= reading.len(),
{
    let mut at: usize = 0;
    while at < reading.len() && !is_equivalent_kana(kana, reading[at])
        invariant
            at <= reading.len(),
            first_equivalent(reading@, kana, at as int) == first_equivalent(reading@, kana, 0),
        decreases reading.len() - at,
    {
        at += 1;
    }
    at
}

/// Counts the characters of `reading` that are equivalent to `kana`.
fn count_equivalents(reading: &Vec<char>, kana: char) -> (count: usize)
    ensures
        count == count_equivalent(reading@, kana),
{
    let mut count: usize = 0;
    let mut i: usize = 0;
    while i < reading.len()
        invariant
            i <= reading.len(),
            count <= i,
            count == count_equivalent(reading@.take(i as int), kana),
        decreases reading.len() - i,
    {
        assert(reading@.take(i + 1).drop_last() == reading@.take(i as int));
        if is_equivalent_kana(kana, reading[i]) {
            count += 1;
        }
        i += 1;
    }
    assert(reading@.take(i as int) == reading@);
    count
}

/// Appends one segment.
fn push_segment<'a>(segments: &mut Vec<(&'a str, &'a str)>, surface: &'a str, reading: &'a str)
    ensures
        final(segments).deep_view() == old(segments).deep_view().push((surface@, reading@)),
{
    segments.push((surface, reading));
    assert(segments.deep_view().len() == old(segments).deep_view().len() + 1);
    assert forall|i: int| 0 <= i < segments.deep_view().len() implies segments.deep_view()[i]
        == old(segments).deep_view().push((surface@, reading@))[i] by {
        if i < old(segments)@.len() {
            assert(segments@[i] == old(segments)@[i]);
        } else {
            assert(segments@[i] == (surface, reading));
        }
    }
}

/// Drops the segments whose surface is empty.
fn drop_empty<'a>(segments: Vec<(&'a str, &'a str)>) -> (kept: Vec<(&'a str, &'a str)>)
    ensures
        kept.deep_view() == segments.deep_view().filter(has_surface()),
{
    let mut kept: Vec<(&'a str, &'a str)> = Vec::new();
    let mut i: usize = 0;
    proof {
        reveal(Seq::filter);
        assert(segments.deep_view().take(0).filter(has_surface()) == kept.deep_view());
    }
    while i < segments.len()
        invariant
            i <= segments.len(),
            kept.deep_view() == segments.deep_view().take(i as int).filter(has_surface()),
        decreases segments.len() - i,
    {
        let segment = segments[i];
        proof {
            reveal(Seq::filter);
            let before = segments.deep_view().take(i as int);
            let now = segments.deep_view().take(i + 1);
            assert(now.drop_last() == before);
            assert(now.last() == (segment.0@, segment.1@));
        }
        if !segment.0.is_empty() {
            kept.push(segment);
        }
        i += 1;
    }
    assert(segments.deep_view().take(i as int) == segments.deep_view());
    kept
}

/// Cuts a word into segments, each a span of `surface` with the part of the
/// reading `kana` that glosses it; the second part is empty where the span
/// needs no gloss. The segments come in the order of the text and their
/// surfaces, joined, give `surface` back.
///
/// A word that needs no gloss at all is one segment without a gloss. Of any
/// other word the kana that surface and reading share at the start and at the
/// end carry no gloss, each kana in between that has exactly one match in
/// what is left of the reading splits the word there, and a span whose kana
/// has none or several stays whole, with all that is left of the reading as
/// its gloss. Segments with an empty surface are left out.
pub fn apply_furigana<'a>(surface: &'a str, kana: &'a str, known: &[char]) -> (segments: Vec<
    (&'a str, &'a str),
>)
    ensures
        segments.deep_view() == alignment(surface@, kana@, known@),
        joined_surfaces(segments.deep_view()) == surface@,
{
    proof {
        reveal_strlit("");
        assert(""@ == Seq::<char>::empty());
        lemma_alignment_round_trip(surface@, kana@, known@);
    }
    let mut out: Vec<(&'a str, &'a str)> = Vec::new();
    assert(out.deep_view() == Seq::<(Seq<char>, Seq<char>)>::empty());
    if furigana_unneeded(surface, known) {
        push_segment(&mut out, surface, "");
        assert(out.deep_view() == seq![(surface@, Seq::<char>::empty())]);
        return out;
    }
    // The kana at the start.
    let surface_chars = chars_of(surface);
    let kana_chars = chars_of(kana);
    let lead = leading_match(&surface_chars, &kana_chars);
    push_segment(&mut out, surface.substring_char(0, lead), "");
    let rest_surface = surface.substring_char(lead, surface_chars.len());
    let rest_kana = kana.substring_char(lead, kana_chars.len());

    // The kana at the end.
    let rest_surface_chars = chars_of(rest_surface);
    let rest_kana_chars = chars_of(rest_kana);
    let trail = trailing_match(&rest_surface_chars, &rest_kana_chars);
    let middle_end = rest_surface_chars.len() - trail;
    let tail = rest_surface.substring_char(middle_end, rest_surface_chars.len());
    let mut middle = rest_surface.substring_char(0, middle_end);
    let mut middle_kana = rest_kana.substring_char(0, rest_kana_chars.len() - trail);

    // The kana in between, as long as each has exactly one match.
    let ghost first = seq![(surface@.take(lead as int), Seq::<char>::empty())];
    let ghost resolved = resolve_middle(middle@, middle_kana@);
    assert(out.deep_view() == first);
    loop
        invariant
            out.deep_view() + resolve_middle(middle@, middle_kana@) == first + resolved,
            ""@ == Seq::<char>::empty(),
        ensures
            out.deep_view() + seq![(middle@, middle_kana@)] == first + resolved,
        decreases middle@.len(),
    {
        let middle_chars = chars_of(middle);
        let middle_kana_chars = chars_of(middle_kana);
        let at = find_kana(&middle_chars);
        if at >= middle_chars.len() {
            break;
        }
        let anchor = middle_chars[at];
        if count_equivalents(&middle_kana_chars, anchor) != 1 {
            break;
        }
        let matched = find_equivalent(&middle_kana_chars, anchor);
        proof {
            lemma_counted_match_is_found(middle_kana@, anchor);
        }
        let ghost before = out.deep_view();
        let ghost left = resolve_middle(middle@.skip(at + 1), middle_kana@.skip(matched + 1));
        push_segment(&mut out, middle.substring_char(0, at), middle_kana.substring_char(0, matched));
        push_segment(&mut out, middle.substring_char(at, at + 1), "");
        assert(out.deep_view() == before + seq![
            (middle@.take(at as int), middle_kana@.take(matched as int)),
            (middle@.subrange(at as int, at + 1), Seq::<char>::empty()),
        ]);
        assert(out.deep_view() + left == first + resolved);
        middle = middle.substring_char(at + 1, middle_chars.len());
        middle_kana = middle_kana.substring_char(matched + 1, middle_kana_chars.len());
    }
    let ghost before = out.deep_view();
    push_segment(&mut out, middle, middle_kana);
    push_segment(&mut out, tail, "");
    assert(out.deep_view() == before + seq![(middle@, middle_kana@)] + seq![
        (tail@, Seq::<char>::empty()),
    ]);
    assert(out.deep_view() == trimmed_parts(surface@, kana@));
    drop_empty(out)
}

} // verus!
