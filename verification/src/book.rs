//! The pages and names of an e-book made of downloaded chapters.

use crate::std_specs::is_scalar_value;
use crate::text::{chars_of, decimal, replace_all, replaced, trim, trimmed, write_decimal};
use vstd::prelude::*;
use vstd::string::StringExecFns;

verus! {

/// The distance from an ASCII character to its fullwidth form.
pub const FULLWIDTH_OFFSET: u32 = 0xff01 - 0x21;

/// The ideographic space, as wide as a kanji.
pub const WIDE_SPACE: char = '\u{3000}';

/// The fullwidth form of a visible ASCII character, the ideographic space for
/// the blank, and every other character itself.
pub open spec fn fullwidth(c: char) -> char {
    if 0x21 <= (c as u32) <= 0x7e {
        ((c as u32) + FULLWIDTH_OFFSET) as char
    } else if c == ' ' {
        WIDE_SPACE
    } else {
        c
    }
}

/// The text with each character in its fullwidth form.
pub open spec fn fullwidth_text(text: Seq<char>) -> Seq<char> {
    Seq::new(text.len(), |i: int| fullwidth(text[i]))
}

/// Writes the text with fullwidth characters in the place of the ASCII ones,
/// as vertical text wants them.
pub fn ascii_to_fullwidth(text: &str) -> (wide: String)
    ensures
        wide@ == fullwidth_text(text@),
{
    let chars = chars_of(text);
    let mut wide = String::new();
    let mut i: usize = 0;
    while i < chars.len()
        invariant
            i <= chars.len(),
            chars@ == text@,
            wide@ == fullwidth_text(text@).take(i as int),
        decreases chars.len() - i,
    {
        let c = chars[i];
        let code: u32 = c as u32;
        if code >= 0x21 && code <= 0x7e {
            assert(is_scalar_value((code + FULLWIDTH_OFFSET) as u32));
            wide.push(char::from_u32(code + FULLWIDTH_OFFSET).unwrap());
        } else if c == ' ' {
            wide.push(WIDE_SPACE);
        } else {
            wide.push(c);
        }
        assert(fullwidth_text(text@).take(i + 1) == fullwidth_text(text@).take(i as int).push(
            fullwidth(c),
        ));
        i += 1;
    }
    assert(fullwidth_text(text@).take(i as int) == fullwidth_text(text@));
    wide
}

/// The fullwidth form of an ASCII digit, and every other character itself.
pub open spec fn wide_digit(c: char) -> char {
    if '0' <= c <= '9' {
        ((c as u32) + FULLWIDTH_OFFSET) as char
    } else {
        c
    }
}

/// The text with each ASCII digit in its fullwidth form.
pub open spec fn wide_digits(text: Seq<char>) -> Seq<char> {
    Seq::new(text.len(), |i: int| wide_digit(text[i]))
}

/// The text with fullwidth digits, and with `"` for each `&quot;`.
pub open spec fn substituted(text: Seq<char>) -> Seq<char> {
    replaced(wide_digits(text), "&quot;"@, "\""@)
}

/// Makes the substitutions that every text of a book gets: ASCII digits
/// become fullwidth digits, and `&quot;` becomes the quotation mark.
pub fn common_subs(text: &str) -> (new_text: String)
    ensures
        new_text@ == substituted(text@),
{
    let chars = chars_of(text);
    let mut widened = String::new();
    let mut i: usize = 0;
    while i < chars.len()
        invariant
            i <= chars.len(),
            chars@ == text@,
            widened@ == wide_digits(text@).take(i as int),
        decreases chars.len() - i,
    {
        let c = chars[i];
        if c >= '0' && c <= '9' {
            let code: u32 = c as u32;
            assert(is_scalar_value((code + FULLWIDTH_OFFSET) as u32));
            widened.push(char::from_u32(code + FULLWIDTH_OFFSET).unwrap());
        } else {
            widened.push(c);
        }
        assert(wide_digits(text@).take(i + 1) == wide_digits(text@).take(i as int).push(
            wide_digit(c),
        ));
        i += 1;
    }
    assert(wide_digits(text@).take(i as int) == wide_digits(text@));
    proof {
        reveal_strlit("&quot;");
    }
    replace_all(widened.as_str(), "&quot;", "\"")
}

/// What every page of the book starts with, up to the title.
pub const PAGE_HEAD: &'static str =
    "<?xml version=\"1.0\" encoding=\"UTF-8\"?>\n<!DOCTYPE html>\n<html xmlns=\"http://www.w3.org/1999/xhtml\" xmlns:epub=\"http://www.idpf.org/2007/ops\" lang=\"ja\" xml:lang=\"ja\">\n<head>\n  <meta charset=\"utf-8\" />\n";

/// What stands between the title of the title page and its headings.
pub const TITLE_PAGE_BODY: &'static str =
    "\n  <link rel=\"stylesheet\" type=\"text/css\" href=\"stylesheet.css\" />\n</head>\n<body epub:type=\"frontmatter\">\n<section epub:type=\"titlepage\" class=\"titlepage\">\n";

/// What the title page ends with.
pub const TITLE_PAGE_END: &'static str = "</section>\n</body>\n</html>\n";

/// What stands between the title of a content page and its content.
pub const CONTENT_PAGE_BODY: &'static str =
    "</title>\n  <link rel=\"stylesheet\" type=\"text/css\" href=\"stylesheet.css\" />\n</head>\n<body epub:type=\"bodymatter\">\n<section>\n";

/// What a content page ends with.
pub const CONTENT_PAGE_END: &'static str = "\n</section>\n</body>\n</html>";

/// `content` as an element of its own line: between `open` and `close`, with
/// a line feed after it.
pub open spec fn element_line(open: Seq<char>, content: Seq<char>, close: Seq<char>) -> Seq<char> {
    open + content + close + "\n"@
}

/// The line of an element that may be missing: nothing where there is no
/// content.
pub open spec fn optional_line(open: Seq<char>, content: Option<Seq<char>>, close: Seq<char>)
    -> Seq<char> {
    match content {
        Some(content) => element_line(open, content, close),
        None => Seq::empty(),
    }
}

/// The title page of a book: the title as the page's title and as its first
/// heading, then the subtitle and the author, where there are any.
pub open spec fn title_page(
    title: Seq<char>,
    subtitle: Option<Seq<char>>,
    author: Option<Seq<char>>,
) -> Seq<char> {
    PAGE_HEAD@ + element_line("<title>"@, title, "</title>"@) + TITLE_PAGE_BODY@ + element_line(
        "<h1>"@,
        title,
        "</h1>"@,
    ) + optional_line("<h2>"@, subtitle, "</h2>"@) + optional_line("<p>"@, author, "</p>"@)
        + TITLE_PAGE_END@
}

/// A page of content: the title as the page's title, and the content as the
/// one section of the body.
pub open spec fn content_page(title: Seq<char>, content: Seq<char>) -> Seq<char> {
    PAGE_HEAD@ + "  <title>"@ + title + CONTENT_PAGE_BODY@ + content + CONTENT_PAGE_END@
}

/// Appends `content` as an element of its own line.
fn write_line(page: &mut String, open: &str, content: &str, close: &str)
    ensures
        final(page)@ == old(page)@ + element_line(open@, content@, close@),
{
    page.append(open);
    page.append(content);
    page.append(close);
    page.append("\n");
    assert(page@ == old(page)@ + (open@ + content@ + close@ + "\n"@));
}

/// The view of a string that may be missing.
pub open spec fn optional_view(text: Option<&str>) -> Option<Seq<char>> {
    match text {
        Some(text) => Some(text@),
        None => None,
    }
}

/// Writes the title page of a book.
pub fn epub_title_page(title: &str, subtitle: Option<&str>, author: Option<&str>) -> (page: String)
    ensures
        page@ == title_page(title@, optional_view(subtitle), optional_view(author)),
{
    let mut page = String::new();
    page.append(PAGE_HEAD);
    write_line(&mut page, "<title>", title, "</title>");
    page.append(TITLE_PAGE_BODY);
    write_line(&mut page, "<h1>", title, "</h1>");
    let ghost so_far = page@;
    if let Some(sub) = subtitle {
        write_line(&mut page, "<h2>", sub, "</h2>");
    }
    assert(page@ == so_far + optional_line("<h2>"@, optional_view(subtitle), "</h2>"@));
    let ghost so_far = page@;
    if let Some(auth) = author {
        write_line(&mut page, "<p>", auth, "</p>");
    }
    assert(page@ == so_far + optional_line("<p>"@, optional_view(author), "</p>"@));
    page.append(TITLE_PAGE_END);
    assert(page@ == title_page(title@, optional_view(subtitle), optional_view(author)));
    page
}

/// Writes a page of content.
pub fn epub_content_page(title: &str, content: &str) -> (page: String)
    ensures
        page@ == content_page(title@, content@),
{
    let mut page = String::new();
    page.append(PAGE_HEAD);
    page.append("  <title>");
    page.append(title);
    page.append(CONTENT_PAGE_BODY);
    page.append(content);
    page.append(CONTENT_PAGE_END);
    assert(page@ == content_page(title@, content@));
    page
}

/// The style of the body for text in vertical lines, from right to left.
pub const CSS_BODY_VERTICAL_TEXT: &'static str =
    "\nbody {\n    writing-mode: vertical-rl;\n    text-orientation: mixed;\n}\n";

/// The style of the body for text in horizontal lines.
pub const CSS_BODY_HORIZONTAL_TEXT: &'static str =
    "\nbody {\n    writing-mode: horizontal-tb;\n    text-orientation: mixed;\n}\n";

/// The style that every book has.
pub const CSS_MAIN: &'static str =
    ";\nbody {\n    font-size: medium;\n    font-family: serif;\n    text-align: justify;\n    margin: 4% 4%;\n    line-height: 1.75\n}\n\ndiv, span, p, img, nav, section, h1, h2, h3, h4, h5, h6 {\n    padding: 0;\n    border: 0;\n    outline: 0;\n    vertical-align: baseline;\n}\ndiv, span, p, img, nav, section { margin: 0; font-weight: normal; }\n\nh1, h2, h3, h4, h5, h6 { font-weight: bold; }\nh1 { font-size: 1.5em; margin-left: 1.5em; }\nh2 { font-size: 1.3em; margin-left: 1.3em; }\nh3 { font-size: 1.2em; margin-left: 1.2em; }\nh4 { font-size: 1.1em; margin-left: 1.1em; }\nh5 { font-size: 1.0em; margin-left: 1.0em; }\nh6 { font-size: 1.0em; margin-left: 1.0em; }\n\np {}\np.blank {\n    width: 1.0em;\n    height: 1.0em;\n}\nstrong { font-weight: bold; }\nem { font-style: italic;}\ncode{ white-space: pre-wrap; font-family: monospace; }\nq { quotes: \"“\" \"”\" \"‘\" \"’\"; }\n\n/* For title/cover page. */\nsection.titlepage {\n    margin: 1.5em;\n}\n\nnav#toc ol,\nnav#landmarks ol { padding: 0; margin-left: 1em; }\nnav#toc ol li,\nnav#landmarks ol li { list-style-type: none; margin: 0; padding: 0; }\na.footnote-ref { vertical-align: super; }\nspan.smallcaps{ font-variant: small-caps; }\nspan.underline{ text-decoration: underline; }\ndiv.column{ display: inline-block; vertical-align: top; width: 50%; }\n\n/* Misc classes for special styling. */\n.horiz {\n    writing-mode: horizontal-tb;\n}\n.vertical {\n    writing-mode: vertical-rl-tb;\n}\n\n.inset {\n    margin-top: 3.0em;\n    margin-bottom: 3.0em;\n}\n\n.box {\n    margin: 1.0em;\n    padding 1.0em;\n    border: 1px solid #000;\n}\n\nrt {\n    font-size: 0.5em;\n}\n\nspan.pitch_accent {\n    display: inline-block;\n    padding-right: 0.15em;\n    border-right: solid 0.12rem #c0c0c0;\n    border-bottom-right-radius: 0.5em;\n}\nrt span.pitch_accent {\n    padding-right: 0.1em;\n}\n\nspan.pitch_flat {\n    display: inline-block;\n    padding-right: 0.15em;\n    border-right: solid 0.075rem #c0c0c0;\n}\nrt span.pitch_flat {\n    padding-right: 0.1em;\n}\n";

/// The style sheet of a book: the character set, the style of the body for
/// the direction of the text, and the style that every book has.
pub open spec fn stylesheet_text(horizontal_text: bool) -> Seq<char> {
    "@charset \"utf-8\";\n"@ + if horizontal_text {
        CSS_BODY_HORIZONTAL_TEXT@
    } else {
        CSS_BODY_VERTICAL_TEXT@
    } + CSS_MAIN@
}

/// Writes the style sheet of a book.
pub fn stylesheet(horizontal_text: bool) -> (css: String)
    ensures
        css@ == stylesheet_text(horizontal_text),
{
    let mut css = String::new();
    css.append("@charset \"utf-8\";\n");
    if horizontal_text {
        css.append(CSS_BODY_HORIZONTAL_TEXT);
    } else {
        css.append(CSS_BODY_VERTICAL_TEXT);
    }
    css.append(CSS_MAIN);
    css
}

/// A chapter of a book.
#[derive(Debug, Clone)]
pub struct Chapter {
    /// The title, for the table of contents.
    pub title: String,
    /// The page of the chapter, title and text.
    pub xhtml_page: String,
}

/// A volume of a book, or a part of one.
#[derive(Debug, Clone)]
pub struct Volume {
    pub title: String,
    pub subtitle: String,
    pub author: String,
    pub chapters: Vec<Chapter>,
    /// Where the volume holds only some of its chapters: the first and the
    /// last of them, counted from one.
    pub chapter_range: Option<(usize, usize)>,
}

/// The note that says which chapters a volume holds.
pub open spec fn range_note(range: (usize, usize)) -> Seq<char> {
    "（"@ + decimal(range.0 as nat) + "～"@ + decimal(range.1 as nat) + "話）"@
}

/// The subtitle of a volume with the note on its chapters, where it holds
/// only some: the subtitle, a wide space if there is a subtitle, and the
/// note.
pub open spec fn composite_subtitle_of(subtitle: Seq<char>, range: Option<(usize, usize)>) -> Seq<
    char,
> {
    match range {
        Some(range) => subtitle + if subtitle.len() > 0 {
            "　"@
        } else {
            Seq::empty()
        } + range_note(range),
        None => subtitle,
    }
}

/// The title of a volume with its composite subtitle, where it has one.
pub open spec fn composite_title_of(title: Seq<char>, composite_subtitle: Seq<char>) -> Seq<char> {
    if composite_subtitle.len() > 0 {
        title + " ： "@ + composite_subtitle
    } else {
        title
    }
}

/// The number of a volume as file names have it: with two digits at least.
pub open spec fn volume_number_text(number: nat) -> Seq<char> {
    if number < 10 {
        "0"@ + decimal(number)
    } else {
        decimal(number)
    }
}

/// The name of a volume before it is cleaned for the file system: the title,
/// the number of the volume where it has a subtitle, and the composite
/// subtitle where there is one.
pub open spec fn raw_file_name(
    title: Seq<char>,
    subtitle: Seq<char>,
    composite_subtitle: Seq<char>,
    number: nat,
) -> Seq<char> {
    title + if subtitle.len() > 0 {
        " - "@ + volume_number_text(number)
    } else {
        Seq::empty()
    } + if composite_subtitle.len() > 0 {
        " - "@ + composite_subtitle
    } else {
        Seq::empty()
    }
}

/// The name of the file of a volume: its raw name without slashes and
/// backslashes and without whitespace at the ends, and `.epub`.
pub open spec fn file_name_of(
    title: Seq<char>,
    subtitle: Seq<char>,
    composite_subtitle: Seq<char>,
    number: nat,
) -> Seq<char> {
    trimmed(
        replaced(
            replaced(raw_file_name(title, subtitle, composite_subtitle, number), "/"@, ""@),
            "\\"@,
            ""@,
        ),
    ) + ".epub"@
}

impl Volume {
    /// The composite subtitle of this volume.
    pub open spec fn spec_composite_subtitle(&self) -> Seq<char> {
        composite_subtitle_of(self.subtitle@, self.chapter_range)
    }

    /// Writes the subtitle with the note on the chapters that the volume
    /// holds, where it holds only some.
    pub fn composite_subtitle(&self) -> (sub: String)
        ensures
            sub@ == self.spec_composite_subtitle(),
    {
        let mut sub = self.subtitle.clone();
        let ghost subtitle = sub@;
        if let Some((start, end)) = self.chapter_range {
            if !sub.as_str().is_empty() {
                sub.append("　");
            }
            let ghost so_far = sub@;
            sub.append("（");
            write_decimal(&mut sub, start);
            sub.append("～");
            write_decimal(&mut sub, end);
            sub.append("話）");
            assert(sub@ == so_far + range_note((start, end)));
        }
        sub
    }

    /// Writes the title with the composite subtitle, where there is one.
    pub fn composite_title(&self) -> (title: String)
        ensures
            title@ == composite_title_of(self.title@, self.spec_composite_subtitle()),
    {
        let mut title = self.title.clone();
        let sub = self.composite_subtitle();
        if !sub.as_str().is_empty() {
            title.append(" ： ");
            title.append(sub.as_str());
        }
        title
    }

    /// Writes the title page: title, composite subtitle where there is one,
    /// and author, all in fullwidth characters.
    pub fn title_page(&self) -> (page: String)
        ensures
            page@ == title_page(
                fullwidth_text(self.title@),
                if self.spec_composite_subtitle().len() > 0 {
                    Some(fullwidth_text(self.spec_composite_subtitle()))
                } else {
                    None
                },
                Some(fullwidth_text(self.author@)),
            ),
    {
        let title = ascii_to_fullwidth(self.title.as_str());
        let sub = self.composite_subtitle();
        let author = ascii_to_fullwidth(self.author.as_str());
        if !sub.as_str().is_empty() {
            let wide_sub = ascii_to_fullwidth(sub.as_str());
            epub_title_page(title.as_str(), Some(wide_sub.as_str()), Some(author.as_str()))
        } else {
            epub_title_page(title.as_str(), None, Some(author.as_str()))
        }
    }

    /// Writes the name of the file that the volume goes to. `number` is the
    /// number of the volume in its book, counted from one.
    pub fn file_name(&self, number: usize) -> (name: String)
        ensures
            name@ == file_name_of(
                self.title@,
                self.subtitle@,
                self.spec_composite_subtitle(),
                number as nat,
            ),
    {
        let mut name = self.title.clone();
        if !self.subtitle.as_str().is_empty() {
            name.append(" - ");
            let ghost so_far = name@;
            if number < 10 {
                name.append("0");
            }
            write_decimal(&mut name, number);
            assert(name@ == so_far + volume_number_text(number as nat));
        }
        let sub = self.composite_subtitle();
        if !sub.as_str().is_empty() {
            name.append(" - ");
            name.append(sub.as_str());
        }
        assert(name@ == raw_file_name(
            self.title@,
            self.subtitle@,
            self.spec_composite_subtitle(),
            number as nat,
        ));
        proof {
            reveal_strlit("/");
            reveal_strlit("\\");
        }
        let no_slash = replace_all(name.as_str(), "/", "");
        let no_backslash = replace_all(no_slash.as_str(), "\\", "");
        let mut name = String::from_str(trim(no_backslash.as_str()));
        name.append(".epub");
        name
    }
}

/// The name of the page of the chapter at `index`, counted from zero.
pub open spec fn chapter_file_name_of(index: nat) -> Seq<char> {
    "chapter_"@ + decimal(index) + ".xhtml"@
}

/// Writes the name of the page of the chapter at `index`, counted from zero.
pub fn chapter_file_name(index: usize) -> (name: String)
    ensures
        name@ == chapter_file_name_of(index as nat),
{
    let mut name = String::from_str("chapter_");
    write_decimal(&mut name, index);
    name.append(".xhtml");
    name
}

} // verus!
