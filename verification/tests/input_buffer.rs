use karukan::evaluation::{push_batch, Element};
use karukan::input_buffer::InputBuffer;
use karukan::romaji::RomajiConverter;
use karukan::width::Width;

fn typed(keys: &str) -> InputBuffer {
    let romaji = RomajiConverter::new();
    let mut buf = InputBuffer::new();
    for ch in keys.chars() {
        buf.push_romaji(ch, &romaji);
    }
    buf
}

#[test]
fn raw_text_reproduces_typed_keys() {
    assert_eq!(typed("kya").raw_text(), "kya");
    assert_eq!(typed("wasedad").raw_text(), "wasedad");
    assert_eq!(typed("konnnitiha").raw_text(), "konnnitiha");
}

#[test]
fn raw_text_keeps_passthrough_keystrokes() {
    // `y` stays live, `1` passes through, `ka` fires.
    let buf = typed("y1ka");
    assert_eq!(buf.display(), "y1か");
    assert_eq!(buf.raw_text(), "y1ka");
}

#[test]
fn raw_text_keeps_symbol_rule_keystrokes() {
    // `,` fires the punctuation rule (、by default).
    let buf = typed("a,");
    assert_eq!(buf.raw_text(), "a,");
}

#[test]
fn raw_text_covers_direct_input_verbatim() {
    let mut buf = InputBuffer::new();
    buf.push_direct('A');
    buf.push_direct('b');
    assert_eq!(buf.raw_text(), "Ab");
}

#[test]
fn raw_text_survives_settle_and_bake() {
    let romaji = RomajiConverter::new();
    let mut buf = typed("kyoltu");
    buf.settle_romaji(&romaji);
    assert_eq!(buf.display(), "きょっ");
    assert_eq!(buf.raw_text(), "kyoltu");
    buf.bake_katakana();
    assert_eq!(buf.display(), "キョッ");
    assert_eq!(buf.raw_text(), "kyoltu");
}

#[test]
fn drain_prefix_removes_head_and_keeps_caret_relative() {
    let romaji = RomajiConverter::new();
    let mut buf = typed("wasedadaigaku");
    buf.settle_romaji(&romaji);
    assert_eq!(buf.display(), "わせだだいがく");
    assert_eq!(buf.cursor(), 7);

    buf.drain_prefix(3); // commit わせだ, keep だいがく
    assert_eq!(buf.display(), "だいがく");
    assert_eq!(buf.cursor(), 4);
    // The remainder keeps its raw keystrokes.
    assert_eq!(buf.raw_text(), "daigaku");
}

#[test]
fn drain_prefix_clamps_and_empties() {
    let romaji = RomajiConverter::new();
    let mut buf = typed("ai");
    buf.settle_romaji(&romaji);
    buf.drain_prefix(10);
    assert!(buf.is_empty());
    assert_eq!(buf.cursor(), 0);
}

#[test]
fn raw_text_after_partial_group_deletion_is_best_effort() {
    // Deleting ゃ from きゃ leaves the group's keys on き: the raw text then
    // reads "kya" for a buffer displaying き.
    let romaji = RomajiConverter::new();
    let mut buf = typed("kya");
    assert_eq!(buf.display(), "きゃ");
    buf.backspace(&romaji);
    assert_eq!(buf.display(), "き");
    assert_eq!(buf.raw_text(), "kya");
}

#[test]
fn settled_reading_matches_settling() {
    let romaji = RomajiConverter::new();
    let mut buf = typed("kyoltuk");
    let reading = buf.settled_reading(&romaji);
    assert_eq!(reading, "きょっk");
    // The composition itself is untouched until it is settled.
    assert_eq!(buf.display(), "きょっk");
    assert_eq!(buf.reading(), "きょっ");
    buf.settle_romaji(&romaji);
    assert_eq!(buf.display(), reading);
    assert_eq!(buf.reading(), reading);
}

#[test]
fn typing_inserts_the_key_at_the_caret() {
    let romaji = RomajiConverter::new();
    let mut buf = typed("ka");
    buf.set_cursor(0);
    buf.push_romaji('A', &romaji);
    assert_eq!(buf.display(), "あか");
    assert_eq!(buf.raw_text(), "aka");
    assert_eq!(buf.cursor(), 1);
}

#[test]
fn bake_shows_katakana_and_keeps_keys() {
    let romaji = RomajiConverter::new();
    let mut buf = typed("gakkou");
    buf.settle_romaji(&romaji);
    buf.bake_katakana();
    assert_eq!(buf.display(), "ガッコウ");
    assert_eq!(buf.raw_text(), "gakkou");
}

#[test]
fn typing_matches_evaluating_the_keys_at_once() {
    let romaji = RomajiConverter::new();
    for keys in ["kyoltuk", "ytko", "nyk", "wasedadaigaku", "y1ka", "konnnitiha"] {
        let run: Vec<char> = keys.chars().collect();
        let fresh: String = karukan::evaluation::evaluate_run(&run, &romaji).iter().map(|e| e.ch()).collect();
        assert_eq!(typed(keys).display(), fresh, "{keys}");
    }
}

#[test]
fn deletion_equals_typing_the_rest_fresh() {
    let romaji = RomajiConverter::new();
    let mut buf = typed("yt1t");
    assert_eq!(buf.display(), "yt1t");
    buf.set_cursor(3);
    assert!(buf.backspace(&romaji));
    assert_eq!(buf.display(), "yっt");
    assert_eq!(buf.display(), typed("ytt").display());

    let mut buf = typed("ytko");
    assert_eq!(buf.display(), "ytこ");
    assert!(buf.backspace(&romaji));
    assert_eq!(buf.display(), "yt");
    buf.push_romaji('o', &romaji);
    assert_eq!(buf.display(), "yと");
}

#[test]
fn settle_romaji_settles_every_keystroke() {
    // `y` passed through and could still begin a rule; settling settles it
    // too, so no caret position leaves a keystroke pending.
    let romaji = RomajiConverter::new();
    for keys in ["yt", "ytko", "y1ka", "kyoltuk", "nyk"] {
        let mut buf = typed(keys);
        buf.settle_romaji(&romaji);
        for k in 0..=buf.char_count() {
            buf.set_cursor(k);
            assert_eq!(buf.pending(), "", "{keys} at {k}");
            assert_eq!(buf.reading(), buf.display(), "{keys} at {k}");
        }
        assert_eq!(buf.raw_text(), keys);
    }
    let mut buf = typed("yt");
    buf.settle_romaji(&romaji);
    assert_eq!(buf.display(), "yt");
}

#[test]
fn settled_reading_is_what_settling_displays() {
    for width in [Width::Half, Width::Full] {
        let romaji = RomajiConverter::with_width(width);
        for keys in ["aik", "k", "yt", "kyoltuk", "y1ka", "n"] {
            let mut buf = InputBuffer::new();
            for ch in keys.chars() {
                buf.push_romaji(ch, &romaji);
            }
            let reading = buf.settled_reading(&romaji);
            buf.settle_romaji(&romaji);
            assert_eq!(reading, buf.display(), "{keys} at {width:?}");
        }
    }
    let romaji = RomajiConverter::with_width(Width::Full);
    let mut buf = InputBuffer::new();
    buf.push_romaji('k', &romaji);
    assert_eq!(buf.settled_reading(&romaji), "ｋ");
    let buf = typed("aik");
    assert_eq!(buf.settled_reading(&RomajiConverter::new()), "あいk");
}

#[test]
fn push_batch_records_the_batch_and_clears_its_keys() {
    let romaji = RomajiConverter::new();
    let mut elements: Vec<Element> = Vec::new();
    let batch = vec!['き', 'ゃ', '1'];
    let mut group_raw: Vec<char> = "kya1".chars().collect();
    push_batch(&mut elements, &batch, &mut group_raw, &romaji, false);
    assert!(group_raw.is_empty());
    let got: Vec<(char, Option<String>)> = elements
        .iter()
        .map(|e| match e {
            Element::Romaji(c) => (*c, None),
            Element::Converted { ch, raw } => (*ch, Some(raw.iter().collect())),
        })
        .collect();
    assert_eq!(
        got,
        vec![('き', Some("kya".to_string())), ('ゃ', Some(String::new())), ('1', Some("1".to_string()))]
    );
}
