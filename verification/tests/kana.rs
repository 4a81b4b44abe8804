use furigana_gen::{
    hiragana_to_katakana, is_equivalent_kana, is_kana, katakana_to_hiragana, normalize_kana,
};

#[test]
fn is_equivalent_kana_01() {
    assert!(is_equivalent_kana('か', 'カ'));
    assert!(is_equivalent_kana('カ', 'か'));
    assert!(is_equivalent_kana('ぁ', 'ァ'));
    assert!(is_equivalent_kana('ァ', 'ぁ'));
    assert!(is_equivalent_kana('は', 'わ'));
    assert!(is_equivalent_kana('わ', 'は'));
    assert!(is_equivalent_kana('を', 'お'));
    assert!(is_equivalent_kana('お', 'を'));
    assert!(is_equivalent_kana('づ', 'ず'));
    assert!(is_equivalent_kana('ず', 'づ'));
    assert!(is_equivalent_kana('ー', 'あ'));
    assert!(is_equivalent_kana('あ', 'ー'));
    assert!(is_equivalent_kana('ー', 'ぁ'));
    assert!(is_equivalent_kana('ぁ', 'ー'));

    assert!(!is_equivalent_kana('は', 'ば'));
    assert!(!is_equivalent_kana('ー', 'か'));
    assert!(!is_equivalent_kana('た', '食'));
}

#[test]
fn is_equivalent_kana_across_scripts() {
    assert!(is_equivalent_kana('ヘ', 'え'));
    assert!(is_equivalent_kana('エ', 'へ'));
    assert!(is_equivalent_kana('ハ', 'ワ'));
    assert!(is_equivalent_kana('ー', 'オ'));
    assert!(is_equivalent_kana('ー', 'ー'));
    assert!(!is_equivalent_kana('a', 'a'));
    assert!(!is_equivalent_kana('食', '食'));
    assert!(!is_equivalent_kana('つ', 'っ'));
}

#[test]
fn is_equivalent_kana_is_symmetric_on_the_kana_blocks() {
    let mut kana: Vec<char> = Vec::new();
    for code in 0x3041u32..0x3097 {
        kana.push(char::from_u32(code).unwrap());
    }
    for code in 0x30A1u32..0x30F7 {
        kana.push(char::from_u32(code).unwrap());
    }
    kana.push('ー');
    kana.push('漢');
    kana.push('x');
    for &a in &kana {
        assert_eq!(is_kana(a), is_equivalent_kana(a, a));
        for &b in &kana {
            assert_eq!(is_equivalent_kana(a, b), is_equivalent_kana(b, a));
        }
    }
}

#[test]
fn is_kana_at_the_edges_of_the_blocks() {
    assert!(!is_kana('\u{3040}'));
    assert!(is_kana('\u{3041}'));
    assert!(is_kana('\u{3096}'));
    assert!(!is_kana('\u{3097}'));
    assert!(!is_kana('\u{30A0}'));
    assert!(is_kana('\u{30A1}'));
    assert!(is_kana('\u{30F6}'));
    assert!(!is_kana('\u{30F7}'));
    assert!(is_kana('ー'));
    assert!(!is_kana('a'));
    assert!(!is_kana('漢'));
    assert!(!is_kana('・'));
}

#[test]
fn normalize_kana_gives_hiragana() {
    assert_eq!(Some('か'), normalize_kana('カ'));
    assert_eq!(Some('か'), normalize_kana('か'));
    assert_eq!(Some('ゖ'), normalize_kana('ヶ'));
    assert_eq!(Some('ー'), normalize_kana('ー'));
    assert_eq!(None, normalize_kana('漢'));
    assert_eq!(None, normalize_kana('k'));
}

#[test]
fn script_conversions() {
    assert_eq!(Some('カ'), hiragana_to_katakana('か'));
    assert_eq!(Some('ァ'), hiragana_to_katakana('ぁ'));
    assert_eq!(Some('ヶ'), hiragana_to_katakana('ゖ'));
    assert_eq!(None, hiragana_to_katakana('カ'));
    assert_eq!(None, hiragana_to_katakana('ー'));
    assert_eq!(None, hiragana_to_katakana('a'));

    assert_eq!(Some('か'), katakana_to_hiragana('カ'));
    assert_eq!(Some('ぁ'), katakana_to_hiragana('ァ'));
    assert_eq!(Some('ゖ'), katakana_to_hiragana('ヶ'));
    assert_eq!(None, katakana_to_hiragana('か'));
    assert_eq!(None, katakana_to_hiragana('ー'));
    assert_eq!(None, katakana_to_hiragana('ヷ'));
}

#[test]
fn script_conversions_undo_each_other() {
    for code in 0x3041u32..0x3097 {
        let hiragana = char::from_u32(code).unwrap();
        let katakana = hiragana_to_katakana(hiragana).unwrap();
        assert_eq!(code + 0x60, katakana as u32);
        assert_eq!(Some(hiragana), katakana_to_hiragana(katakana));
        assert!(is_equivalent_kana(hiragana, katakana));
    }
}
