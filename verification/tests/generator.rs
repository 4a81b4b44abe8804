use furigana_gen::annotate::{add_html_furigana_skip_already_ruby, annotate_events};
use furigana_gen::generator::DictionaryError;
use furigana_gen::markup::{read_events, EventKind, MarkupError, MarkupEvent};
use furigana_gen::tokens::{add_html_furigana, annotate_tokens, tokens_of, Token};
use furigana_gen::FuriganaGenerator;
use std::io::Write;

/// The bytes of a compiled dictionary with a handful of words.
fn compiled_dictionary() -> Vec<u8> {
    let lexicon = "食べ,0,0,1,動詞-一般,タベ
て,0,0,1,助詞-接続助詞,テ
いる,0,0,1,動詞-非自立可能,イル
食べる,0,0,1,動詞-一般,タベル
の,0,0,1,助詞-格助詞,ノ
は,0,0,1,助詞-係助詞,ハ
い,0,0,1,形容詞-一般,イ
ね,0,0,1,助詞-終助詞,ネ
良,0,0,1,形容詞-一般,ヨ
流れ出す,0,0,1,動詞-一般,ナガレダス
物の怪,0,0,1,名詞-普通名詞,モノノケ
猫,0,0,1,名詞-普通名詞
";
    let dict = vibrato::SystemDictionaryBuilder::from_readers(
        lexicon.as_bytes(),
        "1 1\n0 0 0".as_bytes(),
        "DEFAULT 0 1 0".as_bytes(),
        "DEFAULT,0,0,100,*".as_bytes(),
    )
    .unwrap();
    let mut bytes = Vec::new();
    dict.write(&mut bytes).unwrap();
    bytes
}

/// A dictionary in which `乙` is read one way after `甲` and another way at
/// the start of a sentence.
fn dictionary_with_context() -> Vec<u8> {
    let lexicon = "甲,1,1,0,名詞,コウ
乙,1,1,0,名詞
乙,2,2,0,名詞,オツ
";
    // Lines of the matrix: right id of the word before, left id of the word
    // after, cost. The id 0 stands for the start and the end of a sentence.
    let matrix = "3 3
0 0 0
0 1 0
0 2 0
1 0 0
1 1 0
1 2 10
2 0 0
2 1 0
2 2 0
";
    let dict = vibrato::SystemDictionaryBuilder::from_readers(
        lexicon.as_bytes(),
        matrix.as_bytes(),
        "DEFAULT 0 1 0".as_bytes(),
        "DEFAULT,0,0,100,*".as_bytes(),
    )
    .unwrap();
    let mut bytes = Vec::new();
    dict.write(&mut bytes).unwrap();
    bytes
}

fn lz4_frame(bytes: &[u8]) -> Vec<u8> {
    let mut encoder = lz4_flex::frame::FrameEncoder::new(Vec::new());
    encoder.write_all(bytes).unwrap();
    encoder.finish().unwrap()
}

fn generator() -> FuriganaGenerator {
    FuriganaGenerator::new(&lz4_frame(&compiled_dictionary())).unwrap()
}

fn token(surface: &str, reading: &str) -> Token {
    Token { surface: surface.to_string(), reading: reading.to_string() }
}

#[test]
fn tokenize_01() {
    let gen = generator();

    let mut worker = gen.tokenizer().new_worker();
    worker.reset_sentence("食べている");
    worker.tokenize();

    assert_eq!(3, worker.num_tokens());
    assert_eq!("食べ", worker.token(0).surface());
    assert_eq!("動詞-一般,タベ", worker.token(0).feature());
    assert_eq!("て", worker.token(1).surface());
    assert_eq!("助詞-接続助詞,テ", worker.token(1).feature());
    assert_eq!("いる", worker.token(2).surface());
    assert_eq!("動詞-非自立可能,イル", worker.token(2).feature());
}

#[test]
fn add_html_furigana_01() {
    let gen = generator();

    let text = gen
        .add_html_furigana(
            r#"<sup class="食う">食べる</sup>のは<ruby>良</ruby>いね！<hi />"#,
            &[],
        )
        .unwrap();

    assert_eq!(
        text,
        r#"<sup class="食う"><ruby>食<rt>タ</rt></ruby>べる</sup>のは<ruby>良</ruby>いね！<hi />"#
    );
}

#[test]
fn new_rejects_what_is_no_lz4_frame() {
    assert_eq!(Err(DictionaryError::Compression), FuriganaGenerator::new(b"no frame").map(|_| ()));
    // The dictionary itself, not compressed.
    assert_eq!(
        Err(DictionaryError::Compression),
        FuriganaGenerator::new(&compiled_dictionary()).map(|_| ())
    );
    // A frame cut short.
    let frame = lz4_frame(&compiled_dictionary());
    assert_eq!(
        Err(DictionaryError::Compression),
        FuriganaGenerator::new(&frame[..frame.len() / 2]).map(|_| ())
    );
}

#[test]
fn new_rejects_what_is_no_dictionary() {
    assert_eq!(
        Err(DictionaryError::Format),
        FuriganaGenerator::new(&lz4_frame(b"no dictionary at all, only some text")).map(|_| ())
    );
    assert_eq!(Err(DictionaryError::Format), FuriganaGenerator::new(&lz4_frame(b"")).map(|_| ()));
    assert_eq!(Err(DictionaryError::Format), FuriganaGenerator::new(b"").map(|_| ()));
}

#[test]
fn tokens_of_gives_surface_and_reading() {
    let gen = generator();
    let tokens = tokens_of(gen.tokenizer(), "猫は食べている");
    let pairs: Vec<(&str, &str)> =
        tokens.iter().map(|t| (t.surface.as_str(), t.reading.as_str())).collect();
    assert_eq!(
        vec![("猫", ""), ("は", "ハ"), ("食べ", "タベ"), ("て", "テ"), ("いる", "イル")],
        pairs
    );
    // A word that the dictionary does not hold has the feature string "*".
    let tokens = tokens_of(gen.tokenizer(), "！");
    assert_eq!(1, tokens.len());
    assert_eq!("！", tokens[0].surface);
    assert_eq!("", tokens[0].reading);
    assert!(tokens_of(gen.tokenizer(), "").is_empty());
}

#[test]
fn token_from_feature_takes_the_second_field() {
    let cases = [
        ("動詞-一般,タベ", "タベ"),
        ("名詞,モノ,extra,fields", "モノ"),
        ("名詞,", ""),
        ("名詞,,モノ", ""),
        ("名詞", ""),
        ("*", ""),
        ("", ""),
        (",ヨミ", "ヨミ"),
    ];
    for (feature, reading) in cases {
        let token = Token::from_feature("語", feature);
        assert_eq!("語", token.surface);
        assert_eq!(reading, token.reading);
    }
}

#[test]
fn annotate_tokens_writes_ruby_elements() {
    let tokens = vec![
        token("食べる", "タベル"),
        token("の", "ノ"),
        token("は", "ハ"),
        token("流れ出す", "ナガレダス"),
        token("物の怪", "モノノケ"),
        token("！", ""),
    ];
    assert_eq!(
        "<ruby>食<rt>タ</rt></ruby>べるのは<ruby>流<rt>ナガ</rt></ruby>れ<ruby>出<rt>ダ</rt></ruby>す<ruby>物の怪<rt>モノノケ</rt></ruby>！",
        annotate_tokens(&tokens, &[])
    );
    assert_eq!("", annotate_tokens(&Vec::new(), &[]));
}

#[test]
fn annotate_tokens_passes_known_characters_over() {
    let tokens = vec![token("食べる", "タベル"), token("物の怪", "モノノケ")];
    assert_eq!(
        "食べる<ruby>物の怪<rt>モノノケ</rt></ruby>",
        annotate_tokens(&tokens, &['食'])
    );
    assert_eq!("食べる物の怪", annotate_tokens(&tokens, &['食', '物', '怪']));
}

#[test]
fn add_html_furigana_on_plain_text() {
    let gen = generator();
    assert_eq!(
        "<ruby>食<rt>タ</rt></ruby>べている",
        add_html_furigana("食べている", gen.tokenizer(), &[])
    );
    assert_eq!(
        "<ruby>流<rt>ナガ</rt></ruby>れ<ruby>出<rt>ダ</rt></ruby>すのは<ruby>物の怪<rt>モノノケ</rt></ruby>",
        add_html_furigana("流れ出すのは物の怪", gen.tokenizer(), &[])
    );
    assert_eq!("", add_html_furigana("", gen.tokenizer(), &[]));
}

#[test]
fn text_inside_ruby_gets_no_second_gloss() {
    let gen = generator();
    let once = gen.add_html_furigana("<p>食べるのは物の怪</p>", &[]).unwrap();
    assert_eq!(
        "<p><ruby>食<rt>タ</rt></ruby>べるのは<ruby>物の怪<rt>モノノケ</rt></ruby></p>",
        once
    );
    let twice = gen.add_html_furigana(&once, &[]).unwrap();
    assert_eq!(once, twice);
}

#[test]
fn a_second_pass_reads_bare_text_out_of_its_context() {
    // After `甲` the tokenizer takes `乙` as the word without a reading, so
    // it stays bare. Alone, `乙` is the word with a reading.
    let gen = FuriganaGenerator::new(&lz4_frame(&dictionary_with_context())).unwrap();
    let once = gen.add_html_furigana("甲乙", &[]).unwrap();
    let twice = gen.add_html_furigana(&once, &[]).unwrap();
    assert_eq!("<ruby>甲<rt>コウ</rt></ruby>乙", once);
    assert_eq!("<ruby>甲<rt>コウ</rt></ruby><ruby>乙<rt>オツ</rt></ruby>", twice);
}

#[test]
fn nested_ruby_is_counted() {
    let gen = generator();
    let text = "<ruby>食べる<ruby>食べる</ruby>食べる</ruby>食べる";
    assert_eq!(
        "<ruby>食べる<ruby>食べる</ruby>食べる</ruby><ruby>食<rt>タ</rt></ruby>べる",
        gen.add_html_furigana(text, &[]).unwrap()
    );
}

#[test]
fn ruby_is_told_by_the_name_of_the_tag() {
    let gen = generator();
    assert_eq!(
        "<ruby class=\"x\">食べる</ruby>",
        gen.add_html_furigana("<ruby class=\"x\">食べる</ruby>", &[]).unwrap()
    );
    assert_eq!(
        "<rubyx><ruby>食<rt>タ</rt></ruby>べる</rubyx>",
        gen.add_html_furigana("<rubyx>食べる</rubyx>", &[]).unwrap()
    );
    assert_eq!(
        "<ruby/><ruby>食<rt>タ</rt></ruby>べる",
        gen.add_html_furigana("<ruby/>食べる", &[]).unwrap()
    );
}

#[test]
fn markup_is_kept_as_it_is() {
    let gen = generator();
    let text = "<?xml version=\"1.0\"?><!-- 食べる --><a href=\"食べる\"><![CDATA[食べる]]><br/></a>";
    assert_eq!(text, gen.add_html_furigana(text, &[]).unwrap());
}

#[test]
fn document_type_is_kept() {
    let gen = generator();
    assert_eq!(
        "<!DOCTYPE html><p><ruby>食<rt>タ</rt></ruby>べる</p>",
        gen.add_html_furigana("<!DOCTYPE html><p>食べる</p>", &[]).unwrap()
    );
}

#[test]
fn words_of_a_sentence_join_to_the_sentence() {
    let gen = generator();
    for sentence in ["猫は食べている", "食べるのは良いね！", "abc 123 ！？", "流れ出す物の怪", ""] {
        let tokens = tokens_of(gen.tokenizer(), sentence);
        let joined: String = tokens.iter().map(|t| t.surface.as_str()).collect();
        assert_eq!(sentence, joined);
    }
}

#[test]
fn malformed_markup_is_an_error() {
    let gen = generator();
    assert_eq!(Err(MarkupError::Malformed), gen.add_html_furigana("<p>食べる</q>", &[]));
    assert_eq!(Err(MarkupError::Malformed), gen.add_html_furigana("食べる</p>", &[]));
    assert_eq!(
        Err(MarkupError::Malformed),
        add_html_furigana_skip_already_ruby("<p", gen.tokenizer(), &[])
    );
}

#[test]
fn annotate_events_on_given_events() {
    let gen = generator();
    let event = |kind: EventKind, content: &str| MarkupEvent { kind, content: content.to_string() };
    // More closed than opened: the text after counts as outside.
    let events = vec![
        event(EventKind::End, "ruby"),
        event(EventKind::Text, "食べる"),
        event(EventKind::Start, "ruby"),
        event(EventKind::Text, "食べる"),
        event(EventKind::Start, "ruby lang=\"ja\""),
        event(EventKind::Text, "食べる"),
        event(EventKind::End, "ruby"),
        event(EventKind::End, "ruby"),
        event(EventKind::Text, "食べる"),
        event(EventKind::Start, "ruby"),
        event(EventKind::Start, "ruby"),
        event(EventKind::Text, "食べる"),
    ];
    assert_eq!(
        "</ruby><ruby>食<rt>タ</rt></ruby>べる<ruby><ruby>食<rt>タ</rt></ruby>べる<ruby lang=\"ja\">食べる</ruby></ruby><ruby>食<rt>タ</rt></ruby>べる<ruby><ruby>食べる",
        annotate_events(&events, gen.tokenizer(), &[])
    );
    let events = read_events("<b>食べる</b>").unwrap();
    assert_eq!(
        "<b><ruby>食<rt>タ</rt></ruby>べる</b>",
        annotate_events(&events, gen.tokenizer(), &[])
    );
}
