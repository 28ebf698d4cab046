use karukan::kana::{hiragana_to_katakana, is_kana_char, katakana_to_half_width, katakana_to_hiragana};
use karukan::text::{chars_of, push_decimal, string_of, trim};
use karukan::width::{to_full_width, Width};

#[test]
fn kana_scripts_round_trip() {
    assert_eq!(hiragana_to_katakana("きょうはいいてんき"), "キョウハイイテンキ");
    assert_eq!(katakana_to_hiragana("キョウハイイテンキ"), "きょうはいいてんき");
    // Non-kana and the prolonged sound mark are kept.
    assert_eq!(hiragana_to_katakana("らーめん1杯"), "ラーメン1杯");
    assert_eq!(katakana_to_hiragana("ヴァ"), "ゔぁ");
}

#[test]
fn half_width_katakana() {
    assert_eq!(katakana_to_half_width("ガッコウ"), "ｶﾞｯｺｳ");
    assert_eq!(katakana_to_half_width("パン・ヴ"), "ﾊﾟﾝ･ｳﾞ");
    assert_eq!(katakana_to_half_width("「ー」、。"), "｢ｰ｣､｡");
    // No half-width form: kept.
    assert_eq!(katakana_to_half_width("ヶあA"), "ヶあA");
}

#[test]
fn kana_classification() {
    assert!(is_kana_char('あ'));
    assert!(is_kana_char('ヴ'));
    assert!(is_kana_char('ー'));
    assert!(!is_kana_char('漢'));
    assert!(!is_kana_char('a'));
}

#[test]
fn full_width_text() {
    assert_eq!(to_full_width("wa-do 1!"), "ｗａ－ｄｏ\u{3000}１！");
    assert_eq!(to_full_width("あ"), "あ");
    assert_eq!(Width::Full.apply('~'), '～');
    assert_eq!(Width::Half.apply('~'), '~');
}

#[test]
fn text_helpers() {
    assert_eq!(trim("\u{3000} 漢字\t\n"), "漢字");
    assert_eq!(trim("   "), "");
    assert_eq!(string_of(&chars_of("かな")), "かな");
    let mut out = Vec::new();
    push_decimal(&mut out, 0);
    push_decimal(&mut out, 1207);
    assert_eq!(out.iter().collect::<String>(), "01207");
}
