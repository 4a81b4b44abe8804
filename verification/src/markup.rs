//! Markup fragments as sequences of events, and their text again.
//!
//! A fragment is read as a sequence of events: tags, text, comments and the
//! like. An event holds its kind and the characters between its delimiters,
//! and is written back by putting the delimiters of its kind around them.

use quick_xml::events::Event;
use quick_xml::Reader;
use vstd::prelude::*;
use vstd::string::StringExecFns;

verus! {

/// The kinds of event that a fragment is made of.
#[derive(Clone, Copy, Debug, PartialEq, Eq, Structural)]
pub enum EventKind {
    /// An opening tag, `<tag attr="value">`.
    Start,
    /// A closing tag, `</tag>`.
    End,
    /// A tag that closes itself, `<tag attr="value"/>`.
    Empty,
    /// Character data between tags, as it stands in the fragment.
    Text,
    /// A `<![CDATA[...]]>` section.
    CData,
    /// A comment, `<!-- ... -->`.
    Comment,
    /// The XML declaration, `<?xml ...?>`.
    Decl,
    /// A processing instruction, `<?...?>`.
    PI,
    /// A document type declaration, `<!DOCTYPE ...>`.
    DocType,
    /// The end of the fragment.
    Eof,
}

/// One event of a fragment.
#[derive(Debug)]
pub struct MarkupEvent {
    /// What the event is.
    pub kind: EventKind,
    /// The characters between the delimiters of the event. For `Start` and
    /// `Empty` this is the tag's name and attributes, for `End` the name
    /// without the blanks that may follow it, for `DocType` what stands after
    /// the keyword and the blanks that follow it.
    pub content: String,
}

/// An event as contracts speak of it.
pub struct EventView {
    pub kind: EventKind,
    pub content: Seq<char>,
}

impl View for MarkupEvent {
    type V = EventView;

    open spec fn view(&self) -> EventView {
        EventView { kind: self.kind, content: self.content@ }
    }
}

impl DeepView for MarkupEvent {
    type V = EventView;

    open spec fn deep_view(&self) -> EventView {
        self@
    }
}

/// The text of an event: its content between the delimiters of its kind. The
/// end of the fragment has no text. A document type declaration is written
/// with the keyword in capitals and one blank after it, a closing tag without
/// blanks after the name: an event does not hold how these stood in the
/// fragment.
pub open spec fn serialized(event: EventView) -> Seq<char> {
    match event.kind {
        EventKind::Start => "<"@ + event.content + ">"@,
        EventKind::End => "</"@ + event.content + ">"@,
        EventKind::Empty => "<"@ + event.content + "/>"@,
        EventKind::Text => event.content,
        EventKind::CData => "<![CDATA["@ + event.content + "]]>"@,
        EventKind::Comment => "<!--"@ + event.content + "-->"@,
        EventKind::Decl => "<?"@ + event.content + "?>"@,
        EventKind::PI => "<?"@ + event.content + "?>"@,
        EventKind::DocType => "<!DOCTYPE "@ + event.content + ">"@,
        EventKind::Eof => Seq::empty(),
    }
}

/// Appends `content` between `open` and `close`.
fn write_delimited(text: &mut String, open: &str, content: &str, close: &str)
    ensures
        final(text)@ == old(text)@ + (open@ + content@ + close@),
{
    text.append(open);
    text.append(content);
    text.append(close);
}

/// Appends the text of `event` to `text`.
pub fn write_xml(text: &mut String, event: &MarkupEvent)
    ensures
        final(text)@ == old(text)@ + serialized(event@),
{
    let content = event.content.as_str();
    match event.kind {
        EventKind::Start => write_delimited(text, "<", content, ">"),
        EventKind::End => write_delimited(text, "</", content, ">"),
        EventKind::Empty => write_delimited(text, "<", content, "/>"),
        EventKind::Text => text.append(content),
        EventKind::CData => write_delimited(text, "<![CDATA[", content, "]]>"),
        EventKind::Comment => write_delimited(text, "<!--", content, "-->"),
        EventKind::Decl => write_delimited(text, "<?", content, "?>"),
        EventKind::PI => write_delimited(text, "<?", content, "?>"),
        EventKind::DocType => write_delimited(text, "<!DOCTYPE ", content, ">"),
        EventKind::Eof => {},
    }
}

/// The reader of `quick_xml`. What it holds is known only through
/// `pending_outcomes`.
#[verifier::external_type_specification]
#[verifier::external_body]
#[verifier::reject_recursive_types(R)]
pub struct ExReader<R>(Reader<R>);

/// The error of `quick_xml`. Nothing is read from it.
#[verifier::external_type_specification]
#[verifier::external_body]
pub struct ExXmlError(quick_xml::Error);

/// What a reader of `quick_xml`, configured as `Reader::from_str` leaves it,
/// delivers for `text`, call by call, up to and including the end of the
/// input or the first error: the event of each call that succeeds, `None` for
/// the call that fails.
pub uninterp spec fn markup_outcomes(text: Seq<char>) -> Seq<Option<EventView>>;

/// What `reader` has still to deliver, call by call, up to and including the
/// end of its input or its first error.
pub uninterp spec fn pending_outcomes(reader: Reader<&[u8]>) -> Seq<Option<EventView>>;

/// An outcome after which nothing more is read: an error, or the end of the
/// input.
pub open spec fn is_last_outcome(outcome: Option<EventView>) -> bool {
    match outcome {
        Some(event) => event.kind == EventKind::Eof,
        None => true,
    }
}

/// The outcomes end with a last outcome and hold no other.
pub open spec fn ends_once(outcomes: Seq<Option<EventView>>) -> bool {
    &&& outcomes.len() > 0
    &&& is_last_outcome(outcomes.last())
    &&& forall|i: int| 0 <= i < outcomes.len() - 1 ==> !is_last_outcome(#[trigger] outcomes[i])
}

/// Calls `quick_xml::Reader::from_str`. The reader is new, so what it has to
/// deliver is what `quick_xml` delivers for the whole of `text`. Each call
/// consumes input or ends the reading, so the outcomes are finitely many, and
/// they end with the end of the input or the first error.
#[verifier::external_body]
fn open_reader<'a>(text: &'a str) -> (reader: Reader<&'a [u8]>)
    ensures
        pending_outcomes(reader) == markup_outcomes(text@),
        ends_once(pending_outcomes(reader)),
{
    Reader::from_str(text)
}

/// Calls `quick_xml::Reader::read_event` and copies the event: its kind, and
/// as its content the bytes that the event dereferences to, which are a part
/// of the text the reader was made for. The outcome is the first of those the
/// reader had to deliver; unless it was the last, the others are left.
#[verifier::external_body]
fn next_event(reader: &mut Reader<&[u8]>) -> (outcome: Result<MarkupEvent, quick_xml::Error>)
    requires
        pending_outcomes(*old(reader)).len() > 0,
    ensures
        match outcome {
            Ok(event) => pending_outcomes(*old(reader))[0] == Some(event@),
            Err(_) => pending_outcomes(*old(reader))[0] is None,
        },
        pending_outcomes(*old(reader)).len() > 1 ==> pending_outcomes(*final(reader))
            == pending_outcomes(*old(reader)).drop_first(),
{
    let event = reader.read_event()?;
    let kind = match &event {
        Event::Start(_) => EventKind::Start,
        Event::End(_) => EventKind::End,
        Event::Empty(_) => EventKind::Empty,
        Event::Text(_) => EventKind::Text,
        Event::CData(_) => EventKind::CData,
        Event::Comment(_) => EventKind::Comment,
        Event::Decl(_) => EventKind::Decl,
        Event::PI(_) => EventKind::PI,
        Event::DocType(_) => EventKind::DocType,
        Event::Eof => EventKind::Eof,
    };
    Ok(MarkupEvent { kind, content: String::from_utf8_lossy(&event).into_owned() })
}

/// Why a fragment could not be read.
#[derive(Clone, Copy, Debug, PartialEq, Eq, Structural)]
pub enum MarkupError {
    /// The fragment is not well formed: a tag is left open or closed twice,
    /// or a delimiter is missing.
    Malformed,
}

/// The outcomes end with the end of the input, not with an error.
pub open spec fn is_well_formed(outcomes: Seq<Option<EventView>>) -> bool {
    outcomes.len() > 0 && outcomes.last() is Some
}

/// The events of the outcomes before the last.
pub open spec fn events_before_end(outcomes: Seq<Option<EventView>>) -> Seq<EventView> {
    Seq::new((outcomes.len() - 1) as nat, |i: int| outcomes[i]->0)
}

/// The events of a fragment, in order and without the end of the input;
/// `None` for a fragment that is not well formed.
pub open spec fn fragment_events(text: Seq<char>) -> Option<Seq<EventView>> {
    if is_well_formed(markup_outcomes(text)) {
        Some(events_before_end(markup_outcomes(text)))
    } else {
        None
    }
}

/// Reads a fragment into its events, from the first to the last before the
/// end of the input. A fragment that is not well formed gives no events at
/// all, only the error.
pub fn read_events(text: &str) -> (events: Result<Vec<MarkupEvent>, MarkupError>)
    ensures
        match events {
            Ok(events) => fragment_events(text@) == Some(events.deep_view()),
            Err(error) => fragment_events(text@) is None && error == MarkupError::Malformed,
        },
{
    let mut reader = open_reader(text);
    let mut events: Vec<MarkupEvent> = Vec::new();
    let ghost all = markup_outcomes(text@);
    loop
        invariant
            ends_once(all),
            ends_once(pending_outcomes(reader)),
            events.len() + pending_outcomes(reader).len() == all.len(),
            forall|i: int|
                0 <= i < pending_outcomes(reader).len() ==> #[trigger] pending_outcomes(reader)[i]
                    == all[events.len() + i],
            forall|i: int| 0 <= i < events.len() ==> all[i] == Some(#[trigger] events@[i]@),
            all == markup_outcomes(text@),
        decreases pending_outcomes(reader).len(),
    {
        let ghost pending = pending_outcomes(reader);
        match next_event(&mut reader) {
            Err(_) => {
                assert(pending[0] is None);
                assert(pending.len() == 1) by {
                    if pending.len() > 1 {
                        assert(!is_last_outcome(pending[0]));
                    }
                }
                return Err(MarkupError::Malformed);
            },
            Ok(event) => {
                if event.kind == EventKind::Eof {
                    assert(pending.len() == 1) by {
                        if pending.len() > 1 {
                            assert(!is_last_outcome(pending[0]));
                        }
                    }
                    assert(events.deep_view() == events_before_end(all));
                    return Ok(events);
                }
                assert(pending.len() > 1);
                assert(pending.drop_first().last() == pending.last());
                events.push(event);
            },
        }
    }
}

} // verus!
