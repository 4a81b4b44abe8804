use furigana_gen::{apply_furigana, furigana_unneeded};

#[test]
fn apply_furigana_01() {
    let surface = "へぇ";
    let kana = "ヘー";
    let pairs = apply_furigana(surface, kana, &[]);

    assert_eq!(&[("へぇ", "")], &pairs[..]);
}

#[test]
fn apply_furigana_02() {
    let surface = "へぇー";
    let kana = "ヘー";
    let pairs = apply_furigana(surface, kana, &[]);

    assert_eq!(&[("へぇー", "")], &pairs[..]);
}

#[test]
fn apply_furigana_03() {
    let surface = "へ";
    let kana = "え";
    let pairs = apply_furigana(surface, kana, &[]);

    assert_eq!(&[("へ", "")], &pairs[..]);
}

#[test]
fn apply_furigana_04() {
    let surface = "食べる";
    let kana = "タベル";
    let pairs = apply_furigana(surface, kana, &[]);

    assert_eq!(&[("食", "タ"), ("べる", "")], &pairs[..]);
}

#[test]
fn apply_furigana_05() {
    let surface = "流れ出す";
    let kana = "ながれだす";
    let pairs = apply_furigana(surface, kana, &[]);

    assert_eq!(
        &[("流", "なが"), ("れ", ""), ("出", "だ"), ("す", "")],
        &pairs[..]
    );
}

#[test]
fn apply_furigana_06() {
    let surface = "物の怪";
    let kana = "もののけ";
    let pairs = apply_furigana(surface, kana, &[]);

    assert_eq!(&[("物の怪", "もののけ")], &pairs[..]);
}

fn joined(pairs: &[(&str, &str)]) -> String {
    let mut text = String::new();
    for (surface, _) in pairs {
        text.push_str(surface);
    }
    text
}

#[test]
fn leading_kana_comes_first() {
    let pairs = apply_furigana("お茶", "オチャ", &[]);
    assert_eq!(&[("お", ""), ("茶", "チャ")], &pairs[..]);
}

#[test]
fn leading_and_trailing_kana_are_trimmed() {
    let pairs = apply_furigana("お願いします", "オネガイシマス", &[]);
    assert_eq!(&[("お", ""), ("願", "ネガ"), ("いします", "")], &pairs[..]);
}

#[test]
fn pure_kanji_is_one_glossed_segment() {
    let pairs = apply_furigana("東京", "トウキョウ", &[]);
    assert_eq!(&[("東京", "トウキョウ")], &pairs[..]);
}

#[test]
fn anchor_without_match_stops_the_split() {
    // The reading has no "の" at all, so the kana in the middle fixes nothing.
    let pairs = apply_furigana("山の手", "ヤマテ", &[]);
    assert_eq!(&[("山の手", "ヤマテ")], &pairs[..]);
}

#[test]
fn anchor_at_the_start_of_the_middle_drops_its_empty_segment() {
    // "の" is no match for "ア", so nothing is trimmed at the start; its only
    // match stands at the second place of the reading.
    let pairs = apply_furigana("の木", "アノキ", &[]);
    assert_eq!(&[("の", ""), ("木", "キ")], &pairs[..]);
}

#[test]
fn empty_reading_leaves_the_word_without_gloss() {
    let pairs = apply_furigana("漢字", "", &[]);
    assert_eq!(&[("漢字", "")], &pairs[..]);
}

#[test]
fn surfaces_join_to_the_word() {
    let words = [
        ("食べる", "タベル"),
        ("流れ出す", "ながれだす"),
        ("物の怪", "もののけ"),
        ("お茶", "オチャ"),
        ("の木", "アノキ"),
        ("取り扱い", "トリアツカイ"),
        ("漢字", ""),
        ("", "カナ"),
        ("abc漢", "エービーシーカン"),
    ];
    for (surface, kana) in words {
        let pairs = apply_furigana(surface, kana, &[]);
        assert_eq!(surface, joined(&pairs));
    }
}

#[test]
fn plain_words_are_one_segment_whatever_the_reading() {
    for kana in ["", "ヨミ", "漢字", "abc"] {
        assert_eq!(&[("ひらがな", "")], &apply_furigana("ひらがな", kana, &[])[..]);
        assert_eq!(&[("Tokyo 2020", "")], &apply_furigana("Tokyo 2020", kana, &[])[..]);
        assert_eq!(&[("１２３", "")], &apply_furigana("１２３", kana, &[])[..]);
        assert_eq!(&[("", "")], &apply_furigana("", kana, &[])[..]);
    }
}

#[test]
fn known_characters_need_no_gloss() {
    let pairs = apply_furigana("食べる", "タベル", &['食']);
    assert_eq!(&[("食べる", "")], &pairs[..]);

    let pairs = apply_furigana("食べ物", "タベモノ", &['食']);
    assert_eq!(&[("食", "タ"), ("べ", ""), ("物", "モノ")], &pairs[..]);
}

#[test]
fn furigana_unneeded_cases() {
    assert!(furigana_unneeded("", &[]));
    assert!(furigana_unneeded("ひらがなカタカナー", &[]));
    assert!(furigana_unneeded("abc XYZ 123 !?", &[]));
    assert!(furigana_unneeded("１２３", &[]));
    assert!(furigana_unneeded("②", &[]));
    assert!(!furigana_unneeded("漢字", &[]));
    assert!(!furigana_unneeded("食べる", &[]));
    assert!(furigana_unneeded("食べる", &['食']));
    assert!(!furigana_unneeded("食べ物", &['食']));
    assert!(furigana_unneeded("食べ物", &['物', '食']));
    assert!(!furigana_unneeded("！", &[]));
}
