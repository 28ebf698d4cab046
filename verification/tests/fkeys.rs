use karukan::candidates::{learning_record, ConversionList};
use karukan::fkeys::{
    alnum_variants, fkey_alnum_conversion, fkey_alnum_fullwidth, fkey_conversion, fkey_transform_index,
    FkeyOutcome, Keysym, KEYSYM_F10, KEYSYM_F6, KEYSYM_F7, KEYSYM_F8, KEYSYM_F9,
};
use karukan::input_buffer::InputBuffer;
use karukan::romaji::RomajiConverter;

fn typed(keys: &str) -> InputBuffer {
    let romaji = RomajiConverter::new();
    let mut buf = InputBuffer::new();
    for ch in keys.chars() {
        buf.push_romaji(ch, &romaji);
    }
    buf
}

/// F6/F7/F8 on the composition, or on the conversion `shown` when there is one.
fn transform(buf: &InputBuffer, shown: Option<&ConversionList>, key: u32) -> FkeyOutcome {
    let index = fkey_transform_index(Keysym(key)).unwrap();
    fkey_conversion(false, shown.map(|l| l.reading()), buf, &RomajiConverter::new(), index)
}

/// F9/F10 on the composition, or on the conversion `shown` when there is one.
fn alnum(buf: &InputBuffer, shown: Option<&ConversionList>, key: u32) -> FkeyOutcome {
    let full = fkey_alnum_fullwidth(Keysym(key)).unwrap();
    fkey_alnum_conversion(false, shown.map(|l| l.reading()), shown, buf, &RomajiConverter::new(), full)
}

fn list(outcome: FkeyOutcome) -> ConversionList {
    match outcome {
        FkeyOutcome::Convert(list) => list,
        FkeyOutcome::Consumed => panic!("expected a conversion"),
    }
}

fn texts(list: &ConversionList) -> Vec<String> {
    list.candidates().iter().map(|c| c.text.clone()).collect()
}

#[test]
fn f7_converts_composition_to_katakana() {
    let buf = typed("ai");
    let result = transform(&buf, None, KEYSYM_F7);
    assert!(matches!(result, FkeyOutcome::Convert(_)));
    let l = list(result);
    assert_eq!(l.selected_text(), "アイ");
    assert_eq!(l.reading(), "あい");
}

#[test]
fn f8_converts_composition_to_half_katakana() {
    let buf = typed("ga");
    let l = list(transform(&buf, None, KEYSYM_F8));
    // Voiced kana expands to base + dakuten in half-width.
    assert_eq!(l.selected_text(), "ｶﾞ");
}

#[test]
fn f6_returns_to_hiragana_after_f7() {
    let buf = typed("ai");
    let l = list(transform(&buf, None, KEYSYM_F7));
    assert_eq!(l.selected_text(), "アイ");

    // A different F-key just moves the selection within the same list.
    let l2 = list(transform(&buf, Some(&l), KEYSYM_F8));
    assert_eq!(l2.selected_text(), "ｱｲ");
    assert_eq!(texts(&l2), texts(&l));
    let l3 = list(transform(&buf, Some(&l2), KEYSYM_F6));
    assert_eq!(l3.selected_text(), "あい");
}

#[test]
fn escape_returns_to_editable_composition() {
    let romaji = RomajiConverter::new();
    let mut buf = typed("ai");
    let _ = list(transform(&buf, None, KEYSYM_F7));
    // The buffer itself is untouched by the transform.
    assert_eq!(buf.display(), "あい");

    // The buffer is still editable.
    buf.push_romaji('u', &romaji);
    assert_eq!(buf.reading(), "あいう");
}

#[test]
fn fkey_settles_the_romaji_tail_like_space() {
    let buf = typed("aik");
    let l = list(transform(&buf, None, KEYSYM_F7));
    // The unresolved `k` rides along as-is, like Space conversion.
    assert_eq!(l.selected_text(), "アイk");
}

#[test]
fn fkeys_from_conversion_state_switch_to_the_transform() {
    // A conversion of あい is already shown; F7 rebuilds it as the
    // fixed-transform list over its reading.
    let buf = typed("ai");
    let l = list(transform(&buf, None, KEYSYM_F6));
    let l2 = list(transform(&buf, Some(&l), KEYSYM_F7));
    assert_eq!(l2.selected_text(), "アイ");
}

#[test]
fn f10_converts_typed_keys_to_half_alnum() {
    // わたし was typed as watasi: F10 gives back the keystrokes, not a
    // romanization of the kana.
    let buf = typed("watasi");
    assert_eq!(buf.display(), "わたし");

    let result = alnum(&buf, None, KEYSYM_F10);
    assert!(matches!(result, FkeyOutcome::Convert(_)));
    assert_eq!(list(result).selected_text(), "watasi");
}

#[test]
fn f9_converts_typed_keys_to_full_alnum() {
    let buf = typed("spam");
    assert_eq!(list(alnum(&buf, None, KEYSYM_F9)).selected_text(), "ｓｐａｍ");
}

#[test]
fn f10_repeat_cycles_case() {
    let buf = typed("spam");
    let l = list(alnum(&buf, None, KEYSYM_F10));
    assert_eq!(l.selected_text(), "spam");
    let l = list(alnum(&buf, Some(&l), KEYSYM_F10));
    assert_eq!(l.selected_text(), "SPAM");
    let l = list(alnum(&buf, Some(&l), KEYSYM_F10));
    assert_eq!(l.selected_text(), "Spam");
    // The cycle wraps.
    let l = list(alnum(&buf, Some(&l), KEYSYM_F10));
    assert_eq!(l.selected_text(), "spam");
}

#[test]
fn f9_after_f10_keeps_case_and_changes_width() {
    let buf = typed("spam");
    let l = list(alnum(&buf, None, KEYSYM_F10));
    let l = list(alnum(&buf, Some(&l), KEYSYM_F10));
    assert_eq!(l.selected_text(), "SPAM");
    let l = list(alnum(&buf, Some(&l), KEYSYM_F9));
    assert_eq!(l.selected_text(), "ＳＰＡＭ");
}

#[test]
fn f10_covers_passthrough_and_symbol_keystrokes() {
    // よろしく、 typed as yorosiku, — F10 reproduces the keys including the
    // comma that fired the punctuation rule.
    let buf = typed("yorosiku,");
    assert_eq!(list(alnum(&buf, None, KEYSYM_F10)).selected_text(), "yorosiku,");
}

#[test]
fn f10_commit_records_learning_under_the_reading() {
    let buf = typed("spam");
    let l = list(alnum(&buf, None, KEYSYM_F10));
    assert_eq!(l.selected_text(), "spam");
    // The settled reading of the keys s,p,a,m is sぱm (a lone `s` never
    // becomes kana); committing the transform learns it under that key.
    assert_eq!(l.reading(), "sぱm");
    let learned = learning_record(l.selected(), true).expect("a transform commit is learned");
    assert_eq!(learned.reading, "sぱm");
    assert_eq!(learned.text, "spam");
}

#[test]
fn fkeys_are_inert_in_emoji_mode() {
    let romaji = RomajiConverter::new();
    let buf = typed("ai");
    let result = fkey_conversion(true, None, &buf, &romaji, 1);
    assert!(matches!(result, FkeyOutcome::Consumed), "consumed as a no-op, not leaked to the app");
    let result = fkey_alnum_conversion(true, None, None, &buf, &romaji, false);
    assert!(matches!(result, FkeyOutcome::Consumed));
}

#[test]
fn fkey_indices() {
    assert_eq!(fkey_transform_index(Keysym(KEYSYM_F6)), Some(0));
    assert_eq!(fkey_transform_index(Keysym(KEYSYM_F7)), Some(1));
    assert_eq!(fkey_transform_index(Keysym(KEYSYM_F8)), Some(2));
    assert_eq!(fkey_transform_index(Keysym(KEYSYM_F9)), None);
    assert_eq!(fkey_alnum_fullwidth(Keysym(KEYSYM_F9)), Some(true));
    assert_eq!(fkey_alnum_fullwidth(Keysym(KEYSYM_F10)), Some(false));
    assert_eq!(fkey_alnum_fullwidth(Keysym(KEYSYM_F6)), None);
}

#[test]
fn empty_composition_is_a_no_op() {
    let romaji = RomajiConverter::new();
    let buf = InputBuffer::new();
    assert!(matches!(fkey_conversion(false, None, &buf, &romaji, 0), FkeyOutcome::Consumed));
    assert!(matches!(fkey_alnum_conversion(false, None, None, &buf, &romaji, true), FkeyOutcome::Consumed));
}

#[test]
fn transforms_without_kana_collapse() {
    // A reading with no kana gives three identical transforms: one
    // candidate, selected whichever key was pressed.
    let mut buf = InputBuffer::new();
    buf.insert("123");
    for key in [KEYSYM_F6, KEYSYM_F7, KEYSYM_F8] {
        let l = list(transform(&buf, None, key));
        assert_eq!(texts(&l), vec!["123".to_string()]);
        assert_eq!(l.cursor(), 0);
        assert_eq!(l.candidates()[0].description.as_deref(), Some("ひらがな"));
    }
}

#[test]
fn katakana_reading_keeps_distinct_half_width() {
    // The katakana reading equals its full-width transform: two candidates,
    // F7 lands on the first, F8 on the half-width one.
    let mut buf = InputBuffer::new();
    buf.insert("アイ");
    let l = list(transform(&buf, None, KEYSYM_F7));
    assert_eq!(texts(&l), vec!["アイ".to_string(), "ｱｲ".to_string()]);
    assert_eq!(l.cursor(), 0);
    let l = list(transform(&buf, None, KEYSYM_F8));
    assert_eq!(l.cursor(), 1);
}

#[test]
fn alnum_variants_case_and_width() {
    let v = alnum_variants("wa-Do", false);
    let t: Vec<&str> = v.iter().map(|(t, _)| t.as_str()).collect();
    assert_eq!(t, vec!["wa-do", "WA-DO", "Wa-do"]);
    assert_eq!(v[0].1, "[半]英小文字");
    let v = alnum_variants("wa-do", true);
    let t: Vec<&str> = v.iter().map(|(t, _)| t.as_str()).collect();
    assert_eq!(t, vec!["ｗａ－ｄｏ", "ＷＡ－ＤＯ", "Ｗａ－ｄｏ"]);
    assert_eq!(v[2].1, "[全]英先頭大文字");
    assert!(alnum_variants("", false).iter().all(|(t, _)| t.is_empty()));
}

#[test]
fn transform_reading_settles_at_the_converter_width() {
    // At full width a stranded keystroke settles full-width, so the
    // transforms start from the reading as settling would show it.
    let romaji = RomajiConverter::with_width(karukan::width::Width::Full);
    let mut buf = InputBuffer::new();
    for ch in "aik".chars() {
        buf.push_romaji(ch, &romaji);
    }
    assert_eq!(buf.settled_reading(&romaji), "あいｋ");
    match fkey_conversion(false, None, &buf, &romaji, 0) {
        FkeyOutcome::Convert(l) => assert_eq!(l.reading(), "あいｋ"),
        FkeyOutcome::Consumed => panic!("expected a conversion"),
    }
}
