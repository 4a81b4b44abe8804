//! Chapters out of the pages of the site they are downloaded from.
//!
//! A page holds the title of the chapter in a heading and its text in one or
//! more blocks of paragraphs. Regular expressions find these parts; the
//! chapter is then written anew: the title as a heading, each paragraph with
//! the common substitutions, and a rule between the blocks.

use crate::book::{common_subs, content_page, epub_content_page, substituted, Chapter};
use crate::text::{same_text, trim, trimmed};
use regex::Regex;
use vstd::prelude::*;
use vstd::string::StringExecFns;

verus! {

/// The heading that holds the title of a chapter.
pub const TITLE_PATTERN: &'static str = "(?ms)<h1 class=\\\"p-novel__title[^>]*>(.*?)</h1>";

/// A block of the text of a chapter.
pub const TEXT_PATTERN: &'static str =
    "(?ms)<div class=\\\"[^\"]*p-novel__text[^>]*>(.*?)</div>";

/// A paragraph of a block.
pub const PARAGRAPH_PATTERN: &'static str = "(?ms)<p[^>]*>(.*?)</p>";

/// The error of `regex`. Nothing is read from it.
#[verifier::external_type_specification]
#[verifier::external_body]
pub struct ExRegexError(regex::Error);

/// What the first group of `pattern` holds in each match that `regex` finds
/// in `text`, from left to right, `None` where the group took no part in the
/// match; `None` for all of it where `regex` does not accept the pattern.
pub uninterp spec fn regex_first_groups(pattern: Seq<char>, text: Seq<char>) -> Option<
    Seq<Option<Seq<char>>>,
>;

/// Compiles the pattern with `regex::Regex::new`, walks the matches in the
/// text with `Regex::captures_iter`, and copies of each what
/// `Captures::get(1)` gives, as `Match::as_str` has it. Pattern and text
/// alone decide the result.
#[verifier::external_body]
fn first_groups(pattern: &str, text: &str) -> (groups: Result<Vec<Option<String>>, regex::Error>)
    ensures
        match groups {
            Ok(groups) => regex_first_groups(pattern@, text@) == Some(groups.deep_view()),
            Err(_) => regex_first_groups(pattern@, text@) is None,
        },
{
    let regex = Regex::new(pattern)?;
    Ok(
        regex.captures_iter(text).map(
            |found| found.get(1).map(|group| group.as_str().to_string()),
        ).collect(),
    )
}

/// What a group holds, without the whitespace at its ends; nothing for a
/// group that took no part in the match.
pub open spec fn group_text(group: Option<Seq<char>>) -> Seq<char> {
    match group {
        Some(text) => trimmed(text),
        None => Seq::empty(),
    }
}

/// The texts of the groups.
pub open spec fn group_texts(groups: Seq<Option<Seq<char>>>) -> Seq<Seq<char>> {
    Seq::new(groups.len(), |i: int| group_text(groups[i]))
}

/// The title of the chapter on a page: what the first heading for titles
/// holds, and nothing where the page has none. `None` where `regex` does not
/// accept the pattern.
pub open spec fn page_title(page: Seq<char>) -> Option<Seq<char>> {
    match regex_first_groups(TITLE_PATTERN@, page) {
        Some(groups) => Some(
            if groups.len() > 0 {
                group_text(groups[0])
            } else {
                Seq::empty()
            },
        ),
        None => None,
    }
}

/// The paragraphs of a block.
pub open spec fn block_paragraphs(block: Seq<char>) -> Option<Seq<Seq<char>>> {
    match regex_first_groups(PARAGRAPH_PATTERN@, block) {
        Some(groups) => Some(group_texts(groups)),
        None => None,
    }
}

/// The blocks of the text of the chapter on a page, each as its paragraphs.
pub open spec fn page_blocks(page: Seq<char>) -> Option<Seq<Seq<Seq<char>>>> {
    match regex_first_groups(TEXT_PATTERN@, page) {
        Some(groups) => {
            let blocks = group_texts(groups);
            if forall|i: int| 0 <= i < blocks.len() ==> block_paragraphs(#[trigger] blocks[i]) is Some {
                Some(Seq::new(blocks.len(), |i: int| block_paragraphs(blocks[i])->0))
            } else {
                None
            }
        },
        None => None,
    }
}

/// The line of a paragraph: an empty paragraph of the class `blank` for one
/// that holds a line break alone, nothing for one that is empty, and for every
/// other the paragraph with the common substitutions.
pub open spec fn paragraph_line(paragraph: Seq<char>) -> Seq<char> {
    if paragraph == "<br>"@ || paragraph == "<br/>"@ || paragraph == "<br />"@ {
        "<p class=\"blank\"></p>\n"@
    } else if paragraph.len() > 0 {
        "<p>"@ + substituted(paragraph) + "</p>\n"@
    } else {
        Seq::empty()
    }
}

/// The lines of the paragraphs of a block.
pub open spec fn block_lines(paragraphs: Seq<Seq<char>>) -> Seq<char> {
    Seq::new(paragraphs.len(), |i: int| paragraph_line(paragraphs[i])).flatten()
}

/// The lines of the block at `at`, and a rule after it unless it is the last.
pub open spec fn block_part(blocks: Seq<Seq<Seq<char>>>, at: int) -> Seq<char> {
    block_lines(blocks[at]) + if at + 1 < blocks.len() {
        "<hr/>\n"@
    } else {
        Seq::empty()
    }
}

/// The text of a chapter: its title as a heading of the kind `title_tag`, an
/// empty line, and the blocks with rules between them.
pub open spec fn chapter_text_of(
    title_tag: Seq<char>,
    title: Seq<char>,
    blocks: Seq<Seq<Seq<char>>>,
) -> Seq<char> {
    "<"@ + title_tag + ">"@ + substituted(title) + "</"@ + title_tag + ">\n\n"@ + Seq::new(
        blocks.len(),
        |at: int| block_part(blocks, at),
    ).flatten()
}

/// Appends the lines of the paragraphs of a block.
fn write_block(text: &mut String, paragraphs: &Vec<String>)
    ensures
        final(text)@ == old(text)@ + block_lines(paragraphs.deep_view()),
{
    let ghost lines = Seq::new(
        paragraphs.len() as nat,
        |i: int| paragraph_line(paragraphs.deep_view()[i]),
    );
    let mut i: usize = 0;
    assert(lines.take(0).flatten() == Seq::<char>::empty());
    while i < paragraphs.len()
        invariant
            i <= paragraphs.len(),
            lines == Seq::new(
                paragraphs.len() as nat,
                |i: int| paragraph_line(paragraphs.deep_view()[i]),
            ),
            text@ == old(text)@ + lines.take(i as int).flatten(),
        decreases paragraphs.len() - i,
    {
        let paragraph = paragraphs[i].as_str();
        proof {
            assert(paragraphs.deep_view()[i as int] == paragraph@);
            assert(lines.take(i + 1) == lines.take(i as int).push(lines[i as int]));
            lines.take(i as int).lemma_flatten_push(lines[i as int]);
        }
        let ghost so_far = text@;
        if same_text(paragraph, "<br>") || same_text(paragraph, "<br/>") || same_text(
            paragraph,
            "<br />",
        ) {
            // The site's authors are fond of line breaks; a blank paragraph
            // of a fixed height keeps the spacing in bounds.
            text.append("<p class=\"blank\"></p>\n");
        } else if !paragraph.is_empty() {
            let line = common_subs(paragraph);
            text.append("<p>");
            text.append(line.as_str());
            text.append("</p>\n");
            assert(text@ == so_far + ("<p>"@ + substituted(paragraph@) + "</p>\n"@));
        }
        assert(text@ == so_far + lines[i as int]);
        i += 1;
    }
    assert(lines.take(i as int) == lines);
}

/// Writes the text of a chapter: the title as a heading of the kind
/// `title_tag`, then the paragraphs of each block, with a rule between two
/// blocks. Title and paragraphs get the common substitutions; a paragraph
/// that holds a line break alone becomes a blank paragraph, and an empty one
/// is left out.
pub fn chapter_text(title_tag: &str, title: &str, blocks: &Vec<Vec<String>>) -> (text: String)
    ensures
        text@ == chapter_text_of(title_tag@, title@, blocks.deep_view()),
{
    let mut text = String::new();
    let heading = common_subs(title);
    text.append("<");
    text.append(title_tag);
    text.append(">");
    text.append(heading.as_str());
    text.append("</");
    text.append(title_tag);
    text.append(">\n\n");
    let ghost head = text@;
    assert(head == "<"@ + title_tag@ + ">"@ + substituted(title@) + "</"@ + title_tag@
        + ">\n\n"@);
    let ghost parts = Seq::new(
        blocks.len() as nat,
        |at: int| block_part(blocks.deep_view(), at),
    );
    let mut i: usize = 0;
    assert(parts.take(0).flatten() == Seq::<char>::empty());
    while i < blocks.len()
        invariant
            i <= blocks.len(),
            parts == Seq::new(blocks.len() as nat, |at: int| block_part(blocks.deep_view(), at)),
            text@ == head + parts.take(i as int).flatten(),
        decreases blocks.len() - i,
    {
        proof {
            assert(blocks.deep_view()[i as int] == blocks@[i as int].deep_view());
            assert(parts.take(i + 1) == parts.take(i as int).push(parts[i as int]));
            parts.take(i as int).lemma_flatten_push(parts[i as int]);
        }
        let ghost so_far = text@;
        write_block(&mut text, &blocks[i]);
        if i + 1 < blocks.len() {
            text.append("<hr/>\n");
        }
        assert(text@ == so_far + parts[i as int]);
        i += 1;
    }
    assert(parts.take(i as int) == parts);
    text
}

/// Why a page could not be searched.
#[derive(Clone, Copy, Debug, PartialEq, Eq, Structural)]
pub enum PatternError {
    /// `regex` does not accept one of the patterns.
    Rejected,
}

/// Copies the texts of the groups.
fn texts_of(groups: &Vec<Option<String>>) -> (texts: Vec<String>)
    ensures
        texts.deep_view() == group_texts(groups.deep_view()),
{
    let mut texts: Vec<String> = Vec::new();
    let mut i: usize = 0;
    while i < groups.len()
        invariant
            i <= groups.len(),
            texts.len() == i,
            forall|j: int|
                0 <= j < i ==> (#[trigger] texts@[j])@ == group_texts(groups.deep_view())[j],
        decreases groups.len() - i,
    {
        assert(groups.deep_view()[i as int] == groups@[i as int].deep_view());
        let text = match &groups[i] {
            Some(group) => String::from_str(trim(group.as_str())),
            None => String::new(),
        };
        texts.push(text);
        i += 1;
    }
    assert(texts.deep_view() == group_texts(groups.deep_view()));
    texts
}

/// Finds the title of the chapter on a page.
pub fn find_title(page: &str) -> (title: Result<String, PatternError>)
    ensures
        match title {
            Ok(title) => page_title(page@) == Some(title@),
            Err(_) => page_title(page@) is None,
        },
{
    match first_groups(TITLE_PATTERN, page) {
        Ok(groups) => {
            if groups.len() > 0 {
                assert(groups.deep_view()[0] == groups@[0].deep_view());
                match &groups[0] {
                    Some(group) => Ok(String::from_str(trim(group.as_str()))),
                    None => Ok(String::new()),
                }
            } else {
                Ok(String::new())
            }
        },
        Err(_) => Err(PatternError::Rejected),
    }
}

/// Finds the blocks of the text of the chapter on a page, each as its
/// paragraphs.
pub fn find_blocks(page: &str) -> (blocks: Result<Vec<Vec<String>>, PatternError>)
    ensures
        match blocks {
            Ok(blocks) => page_blocks(page@) == Some(blocks.deep_view()),
            Err(_) => page_blocks(page@) is None,
        },
{
    let groups = match first_groups(TEXT_PATTERN, page) {
        Ok(groups) => groups,
        Err(_) => {
            return Err(PatternError::Rejected);
        },
    };
    let texts = texts_of(&groups);
    let ghost wanted = group_texts(groups.deep_view());
    let mut blocks: Vec<Vec<String>> = Vec::new();
    let mut i: usize = 0;
    while i < texts.len()
        invariant
            i <= texts.len(),
            texts.deep_view() == wanted,
            wanted == group_texts(groups.deep_view()),
            regex_first_groups(TEXT_PATTERN@, page@) == Some(groups.deep_view()),
            blocks.len() == i,
            forall|j: int| 0 <= j < i ==> block_paragraphs(#[trigger] wanted[j]) == Some(
                blocks@[j].deep_view(),
            ),
        decreases texts.len() - i,
    {
        assert(texts.deep_view()[i as int] == texts@[i as int]@);
        match first_groups(PARAGRAPH_PATTERN, texts[i].as_str()) {
            Ok(paragraphs) => {
                blocks.push(texts_of(&paragraphs));
            },
            Err(_) => {
                assert(block_paragraphs(wanted[i as int]) is None);
                return Err(PatternError::Rejected);
            },
        }
        i += 1;
    }
    assert(blocks.deep_view() == Seq::new(wanted.len(), |i: int| block_paragraphs(wanted[i])->0));
    Ok(blocks)
}

/// What `generate_chapter` makes of a page: the chapter with the title found
/// on the page and with the page of its text.
pub open spec fn generated_chapter(page: Seq<char>, title_tag: Seq<char>) -> Option<
    (Seq<char>, Seq<char>),
> {
    match (page_title(page), page_blocks(page)) {
        (Some(title), Some(blocks)) => Some(
            (title, content_page(title, chapter_text_of(title_tag, title, blocks))),
        ),
        _ => None,
    }
}

/// Makes a chapter of the page it was downloaded as. The page of the chapter
/// holds the title as a heading of the kind `title_tag`, and the text.
pub fn generate_chapter(chapter_html_in: &str, title_tag: &str) -> (chapter: Result<
    Chapter,
    PatternError,
>)
    ensures
        match chapter {
            Ok(chapter) => generated_chapter(chapter_html_in@, title_tag@) == Some(
                (chapter.title@, chapter.xhtml_page@),
            ),
            Err(_) => generated_chapter(chapter_html_in@, title_tag@) is None,
        },
{
    let title = match find_title(chapter_html_in) {
        Ok(title) => title,
        Err(error) => {
            return Err(error);
        },
    };
    let blocks = match find_blocks(chapter_html_in) {
        Ok(blocks) => blocks,
        Err(error) => {
            return Err(error);
        },
    };
    let text = chapter_text(title_tag, title.as_str(), &blocks);
    let xhtml_page = epub_content_page(title.as_str(), text.as_str());
    Ok(Chapter { title, xhtml_page })
}

} // verus!
