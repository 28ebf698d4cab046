use karukan::quality::{degenerate_reason, echo_free_context, DegenerateReason};

fn reason(candidate: &str, reading: &str) -> Option<DegenerateReason> {
    degenerate_reason(candidate, reading)
}

#[test]
fn accepts_normal_conversions() {
    assert_eq!(reason("漢字", "かんじ"), None);
    assert_eq!(reason("東京特許許可局", "とうきょうとっきょきょかきょく"), None);
    assert_eq!(reason("承る", "うけたまわる"), None);
    assert_eq!(
        reason(
            "今日は朝から雨が降っていて電車も遅れていた",
            "きょうはあさからあめがふっていてでんしゃもおくれていた"
        ),
        None
    );
    // A kana word converting to itself (equal to the reading) is real.
    assert_eq!(reason("すもももももももものうち", "すもももももももものうち"), None);
}

#[test]
fn rejects_empty() {
    assert_eq!(reason("", "かんじ"), Some(DegenerateReason::Empty));
    assert_eq!(reason("  ", "かんじ"), Some(DegenerateReason::Empty));
}

#[test]
fn rejects_runaway_length() {
    assert_eq!(
        reason("天気天気だそうです知りませんでした", "てんき"),
        Some(DegenerateReason::TooLong)
    );
    // 1.5x + slack: a slightly longer candidate passes.
    assert_eq!(reason("お引っ越し", "ひっこし"), None);
}

#[test]
fn rejects_dropped_output() {
    // 12-char reading collapsed to 2 chars: most of it is missing.
    assert_eq!(reason("挨拶", "あいさつをかわしましょう"), Some(DegenerateReason::TooShort));
    // Short readings compress hard legitimately.
    assert_eq!(reason("志", "こころざし"), None);
}

#[test]
fn rejects_repetition_the_reading_does_not_have() {
    assert_eq!(
        reason("今日は今日は良い天気", "きょうはよいてんき"),
        Some(DegenerateReason::Repetition)
    );
}

#[test]
fn allows_repetition_the_reading_has() {
    assert_eq!(reason("わかったわかった", "わかったわかった"), None);
    assert_eq!(reason("ますます", "ますます"), None);
    assert_eq!(reason("まだまだこれからです", "まだまだこれからです"), None);
}

#[test]
fn allows_single_char_repeats() {
    // Unit-1 repeats are everyday Japanese, not degeneration.
    assert_eq!(reason("会社社長", "かいしゃしゃちょう"), None);
}

#[test]
fn rejects_prefix_echo() {
    assert_eq!(
        reason("あしたはあめ", "あしたはあめかもしれない"),
        Some(DegenerateReason::PrefixEcho)
    );
    // Katakana echo of a hiragana reading is still an echo.
    assert_eq!(reason("アシタ", "あしたはあめ"), Some(DegenerateReason::PrefixEcho));
}

#[test]
fn full_reading_is_not_an_echo() {
    assert_eq!(reason("あしたはあめ", "あしたはあめ"), None);
    // Katakana form of the full reading is a real candidate too.
    assert_eq!(reason("アシタハアメ", "あしたはあめ"), None);
}

#[test]
fn rejects_ruby_output() {
    assert_eq!(reason("明日(あした)", "あした"), Some(DegenerateReason::RubyEcho));
    assert_eq!(reason("明日（あした）", "あした"), Some(DegenerateReason::RubyEcho));
}

#[test]
fn allows_non_kana_parentheticals() {
    assert_eq!(reason("株式会社(仮)", "かぶしきがいしゃかり"), None);
}

#[test]
fn echo_context_drops_identical_kana_sentence() {
    assert_eq!(echo_free_context("きょうはいいてんきですね", "きょうはいいてんきですね"), "");
}

#[test]
fn echo_context_drops_only_the_offending_sentence() {
    assert_eq!(
        echo_free_context("今日は晴れ。あしたはあめかもしれない。また明日。", "あしたはあめ"),
        "今日は晴れ。また明日。"
    );
}

#[test]
fn echo_context_keeps_kanji_sentences() {
    // Converted text is exactly the context the model should keep, even
    // when its kana overlaps the reading.
    assert_eq!(
        echo_free_context("明日はあめかもしれない。", "あしたはあめ"),
        "明日はあめかもしれない。"
    );
    assert_eq!(echo_free_context("今日はいい", "てんきですね"), "今日はいい");
}

#[test]
fn echo_context_ignores_short_readings() {
    // A short reading matches by coincidence too easily; the context is
    // left alone.
    assert_eq!(echo_free_context("てんきですね", "てんき"), "てんきですね");
}

#[test]
fn echo_context_matches_katakana_echoes() {
    assert_eq!(echo_free_context("アシタハアメダ", "あしたはあめ"), "");
}

#[test]
fn echo_context_keeps_unrelated_kana_sentences() {
    assert_eq!(echo_free_context("そうですね。", "あしたはあめかな"), "そうですね。");
}

#[test]
fn too_long_boundary_follows_one_and_a_half_plus_two() {
    // 3-char reading: 1.5 * 3 + 2 = 6.5, so 6 chars pass and 7 do not.
    assert_eq!(reason("漢漢字字字漢", "かんじ"), None);
    assert_eq!(reason("漢字漢字漢字漢", "かんじ"), Some(DegenerateReason::TooLong));
}

#[test]
fn too_short_needs_a_long_reading() {
    // 7-char reading collapsed to 1 char: below the length where the
    // check applies.
    assert_eq!(reason("志", "こころざしだ"), None);
    // 8-char reading, 1 char: 8 / 4 = 2 > 1.
    assert_eq!(reason("志", "こころざしだよね"), Some(DegenerateReason::TooShort));
}

#[test]
fn echo_filtering_twice_changes_nothing() {
    let cases = [
        ("今日は晴れ。あしたはあめかもしれない。また明日。", "あしたはあめ"),
        ("きょうはいいてんきですね", "きょうはいいてんきですね"),
        ("明日はあめかもしれない。\nあしたはあめ！そうですね", "あしたはあめ"),
        ("てんきですね", "てんき"),
        ("", "あしたはあめ"),
    ];
    for (context, reading) in cases {
        let once = echo_free_context(context, reading);
        assert_eq!(echo_free_context(&once, reading), once, "{context}");
    }
}
