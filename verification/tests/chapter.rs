use furigana_gen::book::{
    chapter_file_name, epub_content_page, stylesheet, Chapter, Volume, CSS_BODY_HORIZONTAL_TEXT,
    CSS_BODY_VERTICAL_TEXT, CSS_MAIN,
};
use furigana_gen::chapter::{chapter_text, find_blocks, find_title, generate_chapter};

const PAGE: &str = r#"<html><body>
<h1 class="p-novel__title p-novel__title--rensai">  第1話 &quot;始まり&quot; </h1>
<div class="js-novel-text p-novel__text p-novel__text--preface">
<p id="Lp1">前書き2024</p>
</div>
<div class="js-novel-text p-novel__text">
<p id="L1">　一行目</p>
<p id="L2"><br /></p>
<p id="L3">  </p>
<p id="L4">「&quot;二&quot;行目」
続き</p>
<p id="L5"><br></p>
<p id="L6"><br/></p>
</div>
</body></html>"#;

fn strings(texts: &[&str]) -> Vec<String> {
    texts.iter().map(|t| t.to_string()).collect()
}

#[test]
fn find_title_takes_the_first_heading() {
    assert_eq!(Ok("第1話 &quot;始まり&quot;".to_string()), find_title(PAGE));
    assert_eq!(Ok(String::new()), find_title("<h1>other</h1>"));
    assert_eq!(
        Ok("一".to_string()),
        find_title("<h1 class=\"p-novel__title\">一</h1><h1 class=\"p-novel__title\">二</h1>")
    );
}

#[test]
fn find_blocks_takes_each_block_and_its_paragraphs() {
    assert_eq!(
        Ok(vec![
            strings(&["前書き2024"]),
            strings(&["一行目", "<br />", "", "「&quot;二&quot;行目」\n続き", "<br>", "<br/>"]),
        ]),
        find_blocks(PAGE)
    );
    assert_eq!(Ok(Vec::new()), find_blocks("<p>no block</p>"));
}

#[test]
fn chapter_text_writes_heading_paragraphs_and_rules() {
    let blocks = vec![
        strings(&["前書き2024"]),
        strings(&["一行目", "<br />", "", "「&quot;二&quot;行目」", "<br>", "<br/>"]),
        Vec::new(),
    ];
    assert_eq!(
        "<h1>第１話</h1>\n\n<p>前書き２０２４</p>\n<hr/>\n<p>一行目</p>\n<p class=\"blank\"></p>\n<p>「\"二\"行目」</p>\n<p class=\"blank\"></p>\n<p class=\"blank\"></p>\n<hr/>\n",
        chapter_text("h1", "第1話", &blocks)
    );
    assert_eq!("<h2></h2>\n\n", chapter_text("h2", "", &Vec::new()));
}

#[test]
fn generate_chapter_from_a_page() {
    let chapter = generate_chapter(PAGE, "h1").unwrap();
    assert_eq!("第1話 &quot;始まり&quot;", chapter.title);
    let text = "<h1>第１話 \"始まり\"</h1>\n\n<p>前書き２０２４</p>\n<hr/>\n<p>一行目</p>\n<p class=\"blank\"></p>\n<p>「\"二\"行目」\n続き</p>\n<p class=\"blank\"></p>\n<p class=\"blank\"></p>\n";
    assert_eq!(epub_content_page("第1話 &quot;始まり&quot;", text), chapter.xhtml_page);
}

#[test]
fn generate_chapter_from_a_page_without_text() {
    let chapter = generate_chapter("nothing", "h1").unwrap();
    assert_eq!("", chapter.title);
    assert_eq!(epub_content_page("", "<h1></h1>\n\n"), chapter.xhtml_page);
}

fn volume(title: &str, subtitle: &str, range: Option<(usize, usize)>) -> Volume {
    Volume {
        title: title.to_string(),
        subtitle: subtitle.to_string(),
        author: "作者 A".to_string(),
        chapters: vec![Chapter { title: "一".to_string(), xhtml_page: "<p/>".to_string() }],
        chapter_range: range,
    }
}

#[test]
fn composite_subtitle_and_title() {
    let v = volume("題", "第一章", Some((3, 10)));
    assert_eq!("第一章　（3～10話）", v.composite_subtitle());
    assert_eq!("題 ： 第一章　（3～10話）", v.composite_title());

    let v = volume("題", "", Some((1, 120)));
    assert_eq!("（1～120話）", v.composite_subtitle());
    assert_eq!("題 ： （1～120話）", v.composite_title());

    let v = volume("題", "第一章", None);
    assert_eq!("第一章", v.composite_subtitle());
    assert_eq!("題 ： 第一章", v.composite_title());

    let v = volume("題", "", None);
    assert_eq!("", v.composite_subtitle());
    assert_eq!("題", v.composite_title());
}

#[test]
fn volume_title_page_is_in_fullwidth() {
    let page = volume("Title 1", "Part", Some((1, 2))).title_page();
    assert!(page.contains("<title>Ｔｉｔｌｅ　１</title>"));
    assert!(page.contains("<h1>Ｔｉｔｌｅ　１</h1>\n<h2>Ｐａｒｔ　（１～２話）</h2>\n<p>作者　Ａ</p>\n"));
    let page = volume("Title", "", None).title_page();
    assert!(page.contains("<h1>Ｔｉｔｌｅ</h1>\n<p>作者　Ａ</p>\n</section>"));
}

#[test]
fn volume_file_name() {
    assert_eq!("題.epub", volume("題", "", None).file_name(1));
    assert_eq!("題 - 03 - 第一章.epub", volume("題", "第一章", None).file_name(3));
    assert_eq!("題 - 12 - 第一章　（3～10話）.epub", volume("題", "第一章", Some((3, 10))).file_name(12));
    assert_eq!("題 - 120 - 章.epub", volume("題", "章", None).file_name(120));
    assert_eq!("題 - （1～2話）.epub", volume("題", "", Some((1, 2))).file_name(1));
    assert_eq!("ab  - 01 - cd.epub", volume(" a/b ", "c\\d", None).file_name(1));
    assert_eq!("- 00 - x.epub", volume("//", "x", None).file_name(0));
}

#[test]
fn chapter_file_names() {
    assert_eq!("chapter_0.xhtml", chapter_file_name(0));
    assert_eq!("chapter_9.xhtml", chapter_file_name(9));
    assert_eq!("chapter_10.xhtml", chapter_file_name(10));
    assert_eq!("chapter_1234567890.xhtml", chapter_file_name(1234567890));
    assert_eq!(format!("chapter_{}.xhtml", usize::MAX), chapter_file_name(usize::MAX));
}

#[test]
fn stylesheet_for_both_directions() {
    assert_eq!(
        format!("@charset \"utf-8\";\n{}{}", CSS_BODY_VERTICAL_TEXT, CSS_MAIN),
        stylesheet(false)
    );
    assert_eq!(
        format!("@charset \"utf-8\";\n{}{}", CSS_BODY_HORIZONTAL_TEXT, CSS_MAIN),
        stylesheet(true)
    );
    assert!(stylesheet(false).contains("writing-mode: vertical-rl;"));
    assert!(stylesheet(true).contains("writing-mode: horizontal-tb;"));
    assert!(stylesheet(true).ends_with("rt span.pitch_flat {\n    padding-right: 0.1em;\n}\n"));
}
