//! Furigana for markup fragments.
//!
//! A fragment is walked event by event. Tags, comments and the like are
//! written back as they are. Text is cut into words and written with its
//! glosses, unless it stands inside a `<ruby>` element: what has a gloss
//! already gets no second one.

use crate::markup::{
    fragment_events, read_events, serialized, write_xml, EventKind, EventView, MarkupError,
    MarkupEvent,
};
use crate::text::chars_of;
use crate::tokens::{
    add_html_furigana, annotated_tokens, is_sound_tokenizer, lemma_words_are_kept, ruby_text,
    ruby_texts, sentence_tokens, token_segments, tokenizer_dictionary,
};
use vibrato::Tokenizer;
use vstd::prelude::*;
use vstd::seq_lib::lemma_flatten_concat;
use vstd::string::StringExecFns;

verus! {

/// The characters that end the name of a tag: blank, carriage return, line
/// feed and tab.
pub open spec fn is_markup_space(c: char) -> bool {
    c == ' ' || c == '\r' || c == '\n' || c == '\t'
}

/// The place of the first markup space of `content` at or after `from`; the
/// length of `content` if there is none.
pub open spec fn name_end(content: Seq<char>, from: int) -> int
    decreases content.len() - from,
{
    if 0 <= from < content.len() && !is_markup_space(content[from]) {
        name_end(content, from + 1)
    } else {
        from
    }
}

/// The name of a tag: its content up to the first markup space.
pub open spec fn tag_name(content: Seq<char>) -> Seq<char> {
    content.take(name_end(content, 0))
}

/// What an event adds to the number of `<ruby>` elements that are open: one
/// for the opening tag of one, minus one for the closing tag.
pub open spec fn ruby_step(event: EventView) -> int {
    if event.kind == EventKind::Start && tag_name(event.content) == "ruby"@ {
        1
    } else if event.kind == EventKind::End && event.content == "ruby"@ {
        -1
    } else {
        0
    }
}

/// The number of `<ruby>` elements that are open before the event at `at`.
/// It is negative where more were closed than opened.
pub open spec fn ruby_depth(events: Seq<EventView>, at: int) -> int
    decreases at,
{
    if at <= 0 {
        0
    } else {
        ruby_depth(events, at - 1) + ruby_step(events[at - 1])
    }
}

/// The event at `at` is text outside every `<ruby>` element.
pub open spec fn is_open_text(events: Seq<EventView>, at: int) -> bool {
    events[at].kind == EventKind::Text && ruby_depth(events, at) <= 0
}

/// What is written for the event at `at`: for text outside every `<ruby>`
/// element its words with their glosses, for every other event its own text.
pub open spec fn annotated_event(
    events: Seq<EventView>,
    at: int,
    dictionary: Seq<u8>,
    known: Seq<char>,
) -> Seq<char> {
    if is_open_text(events, at) {
        annotated_tokens(sentence_tokens(dictionary, events[at].content), known)
    } else {
        serialized(events[at])
    }
}

/// What is written for each event, in the order of the events.
pub open spec fn annotated_pieces(events: Seq<EventView>, dictionary: Seq<u8>, known: Seq<char>)
    -> Seq<Seq<char>> {
    Seq::new(events.len(), |at: int| annotated_event(events, at, dictionary, known))
}

/// What is written for the events, one piece after the other.
pub open spec fn annotated_events(events: Seq<EventView>, dictionary: Seq<u8>, known: Seq<char>)
    -> Seq<char> {
    annotated_pieces(events, dictionary, known).flatten()
}

/// The texts of the events, one after the other: the fragment written back
/// as it was read.
pub open spec fn serialized_events(events: Seq<EventView>) -> Seq<char> {
    Seq::new(events.len(), |at: int| serialized(events[at])).flatten()
}

/// The fragment with furigana; `None` where the fragment is not well formed.
pub open spec fn annotated_fragment(text: Seq<char>, dictionary: Seq<u8>, known: Seq<char>)
    -> Option<Seq<char>> {
    match fragment_events(text) {
        Some(events) => Some(annotated_events(events, dictionary, known)),
        None => None,
    }
}

/// Markup is kept: the result is one piece for each event, in the order of
/// the events, and the piece of an event that is no text is the text of that
/// event, unchanged. So is the piece of text inside a `<ruby>` element.
pub proof fn lemma_markup_is_kept(events: Seq<EventView>, dictionary: Seq<u8>, known: Seq<char>)
    ensures
        annotated_events(events, dictionary, known) == annotated_pieces(
            events,
            dictionary,
            known,
        ).flatten(),
        annotated_pieces(events, dictionary, known).len() == events.len(),
        forall|at: int|
            0 <= at < events.len() && events[at].kind != EventKind::Text
                ==> #[trigger] annotated_pieces(events, dictionary, known)[at] == serialized(
                events[at],
            ),
        forall|at: int|
            0 <= at < events.len() && events[at].kind == EventKind::Text && ruby_depth(events, at)
                > 0 ==> #[trigger] annotated_pieces(events, dictionary, known)[at]
                == events[at].content,
{
}

/// Where no text stands outside a `<ruby>` element, nothing is added: the
/// result is the fragment as it was read, whatever the dictionary and the
/// known characters are.
pub proof fn lemma_glossed_text_gets_no_second_gloss(
    events: Seq<EventView>,
    dictionary: Seq<u8>,
    known: Seq<char>,
)
    requires
        forall|at: int| 0 <= at < events.len() ==> !is_open_text(events, at),
    ensures
        annotated_events(events, dictionary, known) == serialized_events(events),
{
    assert(annotated_pieces(events, dictionary, known) == Seq::new(
        events.len(),
        |at: int| serialized(events[at]),
    ));
}

/// The events of the `<ruby>` element that is written for a glossed segment.
pub open spec fn gloss_events(segment: (Seq<char>, Seq<char>)) -> Seq<EventView> {
    seq![
        EventView { kind: EventKind::Start, content: "ruby"@ },
        EventView { kind: EventKind::Text, content: segment.0 },
        EventView { kind: EventKind::Start, content: "rt"@ },
        EventView { kind: EventKind::Text, content: segment.1 },
        EventView { kind: EventKind::End, content: "rt"@ },
        EventView { kind: EventKind::End, content: "ruby"@ },
    ]
}

/// A gloss is passed over: the element written for a glossed segment, read
/// as the events it is made of, holds no text outside a `<ruby>` element, and
/// is written back as it is.
pub proof fn lemma_gloss_is_passed_over(
    segment: (Seq<char>, Seq<char>),
    dictionary: Seq<u8>,
    known: Seq<char>,
)
    requires
        segment.1.len() > 0,
    ensures
        serialized_events(gloss_events(segment)) == ruby_text(segment),
        annotated_events(gloss_events(segment), dictionary, known) == ruby_text(segment),
{
    reveal_strlit("ruby");
    reveal_strlit("rt");
    reveal_strlit("<");
    reveal_strlit(">");
    reveal_strlit("</");
    reveal_strlit("<ruby>");
    reveal_strlit("<rt>");
    reveal_strlit("</rt></ruby>");
    let events = gloss_events(segment);
    assert("ruby"@.take(name_end("ruby"@, 0)) == "ruby"@) by {
        reveal_with_fuel(name_end, 5);
    }
    assert("rt"@.take(name_end("rt"@, 0)) == "rt"@) by {
        reveal_with_fuel(name_end, 3);
    }
    assert("rt"@ != "ruby"@) by {
        assert("rt"@.len() != "ruby"@.len());
    }
    assert(ruby_step(events[0]) == 1);
    assert(ruby_step(events[1]) == 0);
    assert(ruby_step(events[2]) == 0);
    assert(ruby_depth(events, 1) == 1) by {
        reveal_with_fuel(ruby_depth, 2);
    }
    assert(ruby_depth(events, 3) == 1) by {
        reveal_with_fuel(ruby_depth, 4);
    }
    assert forall|at: int| 0 <= at < events.len() implies !is_open_text(events, at) by {}
    lemma_glossed_text_gets_no_second_gloss(events, dictionary, known);
    let pieces = Seq::new(events.len(), |at: int| serialized(events[at]));
    assert(pieces == seq![
        "<"@ + "ruby"@ + ">"@,
        segment.0,
        "<"@ + "rt"@ + ">"@,
        segment.1,
        "</"@ + "rt"@ + ">"@,
        "</"@ + "ruby"@ + ">"@,
    ]);
    assert(pieces.flatten() == pieces[0] + pieces[1] + pieces[2] + pieces[3] + pieces[4]
        + pieces[5]) by {
        let p5 = pieces.drop_last();
        let p4 = p5.drop_last();
        let p3 = p4.drop_last();
        let p2 = p3.drop_last();
        let p1 = p2.drop_last();
        pieces.lemma_flatten_and_flatten_alt_are_equivalent();
        assert(p1.drop_last().flatten_alt() == Seq::<char>::empty());
        assert(p1.flatten_alt() == Seq::<char>::empty() + pieces[0]);
        assert(p2.flatten_alt() == p1.flatten_alt() + pieces[1]);
        assert(p3.flatten_alt() == p2.flatten_alt() + pieces[2]);
        assert(p4.flatten_alt() == p3.flatten_alt() + pieces[3]);
        assert(p5.flatten_alt() == p4.flatten_alt() + pieces[4]);
        assert(pieces.flatten_alt() == p5.flatten_alt() + pieces[5]);
    }
    assert("<"@ + "ruby"@ + ">"@ == "<ruby>"@);
    assert("<"@ + "rt"@ + ">"@ == "<rt>"@);
    assert(("</"@ + "rt"@ + ">"@) + ("</"@ + "ruby"@ + ">"@) == "</rt></ruby>"@);
    assert(pieces.flatten() == "<ruby>"@ + segment.0 + "<rt>"@ + segment.1 + "</rt></ruby>"@);
}

/// The events that the text of a segment is made of: one text where it has
/// no gloss, else the events of its `<ruby>` element.
pub open spec fn segment_events(segment: (Seq<char>, Seq<char>)) -> Seq<EventView> {
    if segment.1.len() == 0 {
        seq![EventView { kind: EventKind::Text, content: segment.0 }]
    } else {
        gloss_events(segment)
    }
}

/// The events of the segments, one after the other.
pub open spec fn segments_events(segments: Seq<(Seq<char>, Seq<char>)>) -> Seq<EventView>
    decreases segments.len(),
{
    if segments.len() == 0 {
        Seq::empty()
    } else {
        segments_events(segments.drop_last()) + segment_events(segments.last())
    }
}

/// The events that stand for the event at `at` in what is written: for text
/// outside every `<ruby>` element the events of the segments of its words,
/// for every other event the event itself.
pub open spec fn piece_events(
    events: Seq<EventView>,
    at: int,
    dictionary: Seq<u8>,
    known: Seq<char>,
) -> Seq<EventView> {
    if is_open_text(events, at) {
        segments_events(
            token_segments(sentence_tokens(dictionary, events[at].content), known),
        )
    } else {
        seq![events[at]]
    }
}

/// The events that what is written is made of: the events of the fragment,
/// in their order and each as it was, but for the texts outside every
/// `<ruby>` element, in whose place stand their words as texts and `<ruby>`
/// elements.
pub open spec fn written_events(events: Seq<EventView>, dictionary: Seq<u8>, known: Seq<char>)
    -> Seq<EventView> {
    Seq::new(events.len(), |at: int| piece_events(events, at, dictionary, known)).flatten()
}

/// The text of events distributes over concatenation.
proof fn lemma_serialized_concat(left: Seq<EventView>, right: Seq<EventView>)
    ensures
        serialized_events(left + right) == serialized_events(left) + serialized_events(right),
{
    let left_texts = Seq::new(left.len(), |at: int| serialized(left[at]));
    let right_texts = Seq::new(right.len(), |at: int| serialized(right[at]));
    assert(Seq::new((left + right).len(), |at: int| serialized((left + right)[at])) == left_texts
        + right_texts);
    lemma_flatten_concat(left_texts, right_texts);
}

/// The text of one event alone is the text of that event.
proof fn lemma_serialized_one(event: EventView)
    ensures
        serialized_events(seq![event]) == serialized(event),
{
    let texts = Seq::new(1, |at: int| serialized(seq![event][at]));
    assert(texts == seq![serialized(event)]);
    texts.lemma_flatten_one_element();
}

/// The events of segments are written as the text of the segments.
proof fn lemma_segments_text(segments: Seq<(Seq<char>, Seq<char>)>)
    ensures
        serialized_events(segments_events(segments)) == ruby_texts(segments),
    decreases segments.len(),
{
    if segments.len() == 0 {
        assert(Seq::new(0, |at: int| serialized(Seq::<EventView>::empty()[at])) == Seq::<
            Seq<char>,
        >::empty());
    } else {
        let last = segments.last();
        lemma_segments_text(segments.drop_last());
        lemma_serialized_concat(segments_events(segments.drop_last()), segment_events(last));
        if last.1.len() == 0 {
            lemma_serialized_one(EventView { kind: EventKind::Text, content: last.0 });
        } else {
            lemma_gloss_is_passed_over(last, Seq::empty(), Seq::empty());
        }
    }
}

/// The first `upto` pieces of events are written as the first `upto` pieces
/// of text.
proof fn lemma_written_pieces(
    events: Seq<EventView>,
    dictionary: Seq<u8>,
    known: Seq<char>,
    upto: int,
)
    requires
        0 <= upto <= events.len(),
    ensures
        serialized_events(
            Seq::new(events.len(), |at: int| piece_events(events, at, dictionary, known)).take(
                upto,
            ).flatten(),
        ) == annotated_pieces(events, dictionary, known).take(upto).flatten(),
    decreases upto,
{
    let pieces = Seq::new(events.len(), |at: int| piece_events(events, at, dictionary, known));
    let texts = annotated_pieces(events, dictionary, known);
    if upto == 0 {
        assert(pieces.take(0).flatten() == Seq::<EventView>::empty());
        assert(Seq::new(0, |at: int| serialized(Seq::<EventView>::empty()[at])) == Seq::<
            Seq<char>,
        >::empty());
        assert(texts.take(0).flatten() == Seq::<char>::empty());
    } else {
        let at = upto - 1;
        lemma_written_pieces(events, dictionary, known, at);
        assert(pieces.take(upto) == pieces.take(at).push(pieces[at]));
        assert(texts.take(upto) == texts.take(at).push(texts[at]));
        pieces.take(at).lemma_flatten_push(pieces[at]);
        texts.take(at).lemma_flatten_push(texts[at]);
        lemma_serialized_concat(pieces.take(at).flatten(), pieces[at]);
        if is_open_text(events, at) {
            let tokens = sentence_tokens(dictionary, events[at].content);
            lemma_segments_text(token_segments(tokens, known));
            lemma_words_are_kept(tokens, known);
        } else {
            lemma_serialized_one(events[at]);
        }
    }
}

/// What is written is the text of `written_events`: the fragment's own
/// events, each as it was and in its place, with the words of each text
/// outside a `<ruby>` element as texts and `<ruby>` elements. No event of the
/// fragment that is no text is lost, changed or moved, and nothing is added
/// but the elements of the glosses.
pub proof fn lemma_written_events(events: Seq<EventView>, dictionary: Seq<u8>, known: Seq<char>)
    ensures
        annotated_events(events, dictionary, known) == serialized_events(
            written_events(events, dictionary, known),
        ),
{
    let pieces = Seq::new(events.len(), |at: int| piece_events(events, at, dictionary, known));
    let texts = annotated_pieces(events, dictionary, known);
    lemma_written_pieces(events, dictionary, known, events.len() as int);
    assert(pieces.take(events.len() as int) == pieces);
    assert(texts.take(events.len() as int) == texts);
}

/// Tells whether the first `len` characters of `chars` spell `ruby`.
fn spells_ruby(chars: &Vec<char>, len: usize) -> (ruby: bool)
    requires
        len <= chars.len(),
    ensures
        ruby == (chars@.take(len as int) == "ruby"@),
{
    proof {
        reveal_strlit("ruby");
    }
    if len == 4 && chars[0] == 'r' && chars[1] == 'u' && chars[2] == 'b' && chars[3] == 'y' {
        assert(chars@.take(len as int) == "ruby"@);
        true
    } else {
        proof {
            let name = chars@.take(len as int);
            let ruby = "ruby"@;
            assert(ruby.len() == 4 && ruby[0] == 'r' && ruby[1] == 'u' && ruby[2] == 'b' && ruby[3]
                == 'y');
            if len == 4 {
                assert(name[0] == chars@[0] && name[1] == chars@[1] && name[2] == chars@[2]
                    && name[3] == chars@[3]);
            } else {
                assert(name.len() != ruby.len());
            }
        }
        false
    }
}

/// Finds the end of the name of a tag.
fn find_name_end(content: &Vec<char>) -> (end: usize)
    ensures
        end == name_end(content@, 0),
        end <= content.len(),
{
    let mut end: usize = 0;
    while end < content.len() && !(content[end] == ' ' || content[end] == '\r' || content[end]
        == '\n' || content[end] == '\t')
        invariant
            end <= content.len(),
            name_end(content@, end as int) == name_end(content@, 0),
        decreases content.len() - end,
    {
        end += 1;
    }
    end
}

/// Tells whether an event opens (1) or closes (-1) a `<ruby>` element.
fn ruby_step_of(event: &MarkupEvent) -> (step: i8)
    ensures
        step == ruby_step(event@),
{
    match event.kind {
        EventKind::Start => {
            let content = chars_of(event.content.as_str());
            let end = find_name_end(&content);
            if spells_ruby(&content, end) {
                1
            } else {
                0
            }
        },
        EventKind::End => {
            let content = chars_of(event.content.as_str());
            assert(content@.take(content.len() as int) == content@);
            if spells_ruby(&content, content.len()) {
                -1
            } else {
                0
            }
        },
        _ => 0,
    }
}

/// Writes the events one after the other. Text that stands outside every
/// `<ruby>` element is cut into words and written with its glosses; every
/// other event, text inside a `<ruby>` element too, is written as it is.
pub fn annotate_events(events: &Vec<MarkupEvent>, tokenizer: &Tokenizer, known: &[char]) -> (text:
    String)
    requires
        is_sound_tokenizer(*tokenizer),
    ensures
        text@ == annotated_events(events.deep_view(), tokenizer_dictionary(*tokenizer), known@),
{
    let ghost pieces = annotated_pieces(events.deep_view(), tokenizer_dictionary(*tokenizer), known@);
    let mut text = String::new();
    // Opening and closing tags are counted apart: neither number can pass
    // the number of events, so neither can overflow.
    let mut opened: usize = 0;
    let mut closed: usize = 0;
    let mut i: usize = 0;
    while i < events.len()
        invariant
            i <= events.len(),
            opened <= i,
            closed <= i,
            is_sound_tokenizer(*tokenizer),
            opened - closed == ruby_depth(events.deep_view(), i as int),
            pieces == annotated_pieces(events.deep_view(), tokenizer_dictionary(*tokenizer), known@),
            text@ == pieces.take(i as int).flatten(),
        decreases events.len() - i,
    {
        let event = &events[i];
        proof {
            assert(events.deep_view()[i as int] == event@);
            assert(pieces.take(i + 1) == pieces.take(i as int).push(pieces[i as int]));
            pieces.take(i as int).lemma_flatten_push(pieces[i as int]);
        }
        if event.kind == EventKind::Text && opened <= closed {
            let glossed = add_html_furigana(event.content.as_str(), tokenizer, known);
            text.append(glossed.as_str());
        } else {
            write_xml(&mut text, event);
        }
        let step = ruby_step_of(event);
        if step == 1 {
            opened += 1;
        } else if step == -1 {
            closed += 1;
        }
        i += 1;
    }
    assert(pieces.take(i as int) == pieces);
    text
}

/// Adds furigana to a markup fragment. Like `add_html_furigana`, but the
/// markup is kept as it is, and text that stands inside a `<ruby>` element
/// is passed over, so that nothing gets a second gloss. A fragment that is
/// not well formed gives the error and no text.
pub fn add_html_furigana_skip_already_ruby(
    text: &str,
    tokenizer: &Tokenizer,
    known: &[char],
) -> (annotated: Result<String, MarkupError>)
    requires
        is_sound_tokenizer(*tokenizer),
    ensures
        match annotated {
            Ok(annotated) => annotated_fragment(text@, tokenizer_dictionary(*tokenizer), known@) == Some(annotated@),
            Err(error) => annotated_fragment(text@, tokenizer_dictionary(*tokenizer), known@) is None && error
                == MarkupError::Malformed,
        },
{
    match read_events(text) {
        Ok(events) => Ok(annotate_events(&events, tokenizer, known)),
        Err(error) => Err(error),
    }
}

} // verus!
