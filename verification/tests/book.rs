use furigana_gen::book::{ascii_to_fullwidth, common_subs, epub_content_page, epub_title_page};
use furigana_gen::text::{replace_all, trim};

#[test]
fn ascii_to_fullwidth_widens_ascii() {
    assert_eq!("ＡＢＣ　ａｂｃ　１２３！～", ascii_to_fullwidth("ABC abc 123!~"));
    assert_eq!("漢字かな", ascii_to_fullwidth("漢字かな"));
    assert_eq!("", ascii_to_fullwidth(""));
    assert_eq!("\u{ff01}\u{ff5e}", ascii_to_fullwidth("\u{21}\u{7e}"));
    // Control characters and the delete character stay.
    assert_eq!("\n\t\u{7f}", ascii_to_fullwidth("\n\t\u{7f}"));
}

#[test]
fn common_subs_widens_digits_and_unescapes_quotes() {
    assert_eq!("第１２話", common_subs("第12話"));
    assert_eq!("０１２３４５６７８９", common_subs("0123456789"));
    assert_eq!("\"引用\"", common_subs("&quot;引用&quot;"));
    assert_eq!("a\"１\"b", common_subs("a&quot;1&quot;b"));
    assert_eq!("&quot", common_subs("&quot"));
    assert_eq!("&amp;", common_subs("&amp;"));
    assert_eq!("", common_subs(""));
}

#[test]
fn epub_title_page_with_all_parts() {
    let page = epub_title_page("題", Some("副題"), Some("作者"));
    assert_eq!(
        r#"<?xml version="1.0" encoding="UTF-8"?>
<!DOCTYPE html>
<html xmlns="http://www.w3.org/1999/xhtml" xmlns:epub="http://www.idpf.org/2007/ops" lang="ja" xml:lang="ja">
<head>
  <meta charset="utf-8" />
<title>題</title>

  <link rel="stylesheet" type="text/css" href="stylesheet.css" />
</head>
<body epub:type="frontmatter">
<section epub:type="titlepage" class="titlepage">
<h1>題</h1>
<h2>副題</h2>
<p>作者</p>
</section>
</body>
</html>
"#,
        page
    );
}

#[test]
fn epub_title_page_without_subtitle_and_author() {
    let page = epub_title_page("題", None, None);
    assert!(page.contains("<h1>題</h1>\n</section>"));
    assert!(!page.contains("<h2>"));
    assert!(!page.contains("<p>"));
    let page = epub_title_page("題", None, Some("作者"));
    assert!(page.contains("<h1>題</h1>\n<p>作者</p>\n</section>"));
    let page = epub_title_page("題", Some("副題"), None);
    assert!(page.contains("<h1>題</h1>\n<h2>副題</h2>\n</section>"));
}

#[test]
fn epub_content_page_holds_title_and_content() {
    let page = epub_content_page("第一話", "<p>本文</p>\n");
    assert_eq!(
        r#"<?xml version="1.0" encoding="UTF-8"?>
<!DOCTYPE html>
<html xmlns="http://www.w3.org/1999/xhtml" xmlns:epub="http://www.idpf.org/2007/ops" lang="ja" xml:lang="ja">
<head>
  <meta charset="utf-8" />
  <title>第一話</title>
  <link rel="stylesheet" type="text/css" href="stylesheet.css" />
</head>
<body epub:type="bodymatter">
<section>
<p>本文</p>

</section>
</body>
</html>"#,
        page
    );
}

#[test]
fn replace_all_goes_from_left_to_right() {
    assert_eq!("b", replace_all("aa", "aa", "b"));
    assert_eq!("ba", replace_all("aaa", "aa", "b"));
    assert_eq!("bb", replace_all("aaaa", "aa", "b"));
    assert_eq!("xyz", replace_all("xyz", "q", "r"));
    assert_eq!("", replace_all("///", "/", ""));
    assert_eq!("a/b", replace_all("a\\b", "\\", "/"));
    assert_eq!("", replace_all("", "a", "b"));
    assert_eq!("abab", replace_all("ab", "ab", "abab"));
}

#[test]
fn trim_takes_whitespace_from_both_ends() {
    assert_eq!("a b", trim("  a b \n\t"));
    assert_eq!("題　名", trim("\u{3000}題　名\u{3000}\n"));
    assert_eq!("", trim(" \n "));
    assert_eq!("", trim(""));
    assert_eq!("x", trim("x"));
    for text in ["  a b \n", "x", "", "\u{a0}y\u{2003}", " \r\n z"] {
        assert_eq!(text.trim(), trim(text));
    }
}
