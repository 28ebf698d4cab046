use karukan::candidates::{Candidate, CandidateSource};
use karukan::input_buffer::InputBuffer;
use karukan::range::{
    commit_range, range_extend, range_head, range_shrink, render_range, shift_chunk_breaks, start_range_conversion,
    RangeCommit, RangeConversion,
};
use karukan::romaji::RomajiConverter;

fn typed(keys: &str) -> InputBuffer {
    let romaji = RomajiConverter::new();
    let mut buf = InputBuffer::new();
    for ch in keys.chars() {
        buf.push_romaji(ch, &romaji);
    }
    buf
}

fn type_waseda_daigaku() -> InputBuffer {
    let buf = typed("wasedadaigaku");
    assert_eq!(buf.reading(), "わせだだいがく");
    buf
}

/// Shift+Right `times` times from outside the range mode.
fn select(buf: &mut InputBuffer, times: usize) -> Option<usize> {
    let romaji = RomajiConverter::new();
    let mut sel = None;
    for _ in 0..times {
        sel = Some(range_extend(buf, &romaji, sel).0);
    }
    sel
}

fn candidate(text: &str, reading: &str) -> Candidate {
    Candidate { text: text.to_string(), reading: Some(reading.to_string()), source: None, description: None }
}

#[test]
fn shift_right_selects_the_reading_head() {
    let mut buf = type_waseda_daigaku();
    let sel = select(&mut buf, 3);
    assert_eq!(sel, Some(3));

    let render = render_range(&buf, sel);
    assert_eq!(format!("{}{}", render.head, render.rest), "わせだだいがく");
    assert_eq!(render.caret, 3);
    let head_len = render.head.chars().count();
    let rest_len = render.rest.chars().count();
    assert_eq!((0, head_len), (0, 3));
    assert_eq!((head_len, head_len + rest_len), (3, 7));
    assert_eq!(render.aux, "範囲選択 3/7");
}

#[test]
fn selection_is_clamped_to_the_reading() {
    let mut buf = typed("ai");
    assert_eq!(select(&mut buf, 5), Some(2));
}

#[test]
fn shift_left_shrinks_and_exits_at_zero() {
    let mut buf = type_waseda_daigaku();
    let sel = select(&mut buf, 2);
    assert_eq!(sel, Some(2));

    let sel = range_shrink(sel).unwrap();
    assert_eq!(sel, Some(1));
    let sel = range_shrink(sel).unwrap();
    assert_eq!(sel, None);
    // Not selecting: nothing to shrink.
    assert_eq!(range_shrink(None), None);
}

#[test]
fn predictive_candidates_stay_out_of_a_range_conversion() {
    // A predictive candidate's reading extends past the selection, so
    // committing it would consume more than the selected range.
    let mut buf = type_waseda_daigaku();
    let sel = select(&mut buf, 3);
    let head = range_head(&buf, sel.unwrap());
    assert_eq!(head, "わせだ");
    let candidates = vec![candidate("早稲田", "わせだ"), candidate("早稲田大学", "わせだだいがく")];
    match start_range_conversion(&buf, sel, candidates) {
        RangeConversion::Convert { list, span } => {
            assert_eq!(span, 3);
            let texts: Vec<String> = list.candidates().iter().map(|c| c.text.clone()).collect();
            assert!(texts.contains(&"早稲田".to_string()), "got {texts:?}");
            assert!(
                !texts.contains(&"早稲田大学".to_string()),
                "predictive completion must stay out, got {texts:?}"
            );
        }
        _ => panic!("expected a conversion"),
    }
}

#[test]
fn enter_commits_the_head_and_keeps_composing_the_rest() {
    let mut buf = type_waseda_daigaku();
    let sel = select(&mut buf, 3);
    let mut breaks: Vec<usize> = Vec::new();
    let chosen = candidate("早稲田", "わせだ");
    let result = commit_range(&mut buf, &mut breaks, Some(&chosen), sel.unwrap());
    match result {
        RangeCommit::Continue(text, learned) => {
            assert_eq!(text, "早稲田");
            let learned = learned.expect("the commit is learned");
            assert_eq!((learned.reading.as_str(), learned.text.as_str()), ("わせだ", "早稲田"));
        }
        _ => panic!("partial commit must keep composing"),
    }
    // The remainder keeps composing, raw keystrokes intact (F10 still works).
    assert_eq!(buf.reading(), "だいがく");
    assert_eq!(buf.raw_text(), "daigaku");
}

#[test]
fn committing_a_whole_reading_range_ends_the_composition() {
    let mut buf = typed("ai");
    let sel = select(&mut buf, 2);
    let mut breaks: Vec<usize> = Vec::new();
    let chosen = candidate("藍", "あい");
    match commit_range(&mut buf, &mut breaks, Some(&chosen), sel.unwrap()) {
        RangeCommit::Ended(text, _) => assert_eq!(text, "藍"),
        _ => panic!("expected the composition to end"),
    }
    assert!(buf.is_empty());
}

#[test]
fn escape_from_a_range_conversion_restores_the_full_reading() {
    let mut buf = type_waseda_daigaku();
    let sel = select(&mut buf, 3);
    let result = start_range_conversion(&buf, sel, vec![candidate("早稲田", "わせだ")]);
    assert!(matches!(result, RangeConversion::Convert { span: 3, .. }));
    // Converting leaves the composition as it was.
    assert_eq!(buf.reading(), "わせだだいがく");
}

#[test]
fn range_conversion_outcomes() {
    let mut buf = typed("ai");
    assert!(matches!(start_range_conversion(&buf, None, Vec::new()), RangeConversion::Consumed));
    let sel = select(&mut buf, 1);
    assert!(matches!(start_range_conversion(&buf, Some(0), Vec::new()), RangeConversion::Cancel));
    assert!(matches!(
        start_range_conversion(&buf, sel, vec![candidate("愛", "あい")]),
        RangeConversion::Stay
    ));
    let unscoped = Candidate { text: "亜".to_string(), reading: None, source: None, description: None };
    assert!(matches!(start_range_conversion(&buf, sel, vec![unscoped]), RangeConversion::Convert { span: 1, .. }));
}

#[test]
fn entering_the_range_settles_the_romaji_tail() {
    let mut buf = typed("kak");
    assert_eq!(buf.reading(), "か");
    let sel = select(&mut buf, 1);
    assert_eq!(sel, Some(1));
    assert_eq!(buf.reading(), "かk");
    let render = render_range(&buf, Some(5));
    assert_eq!(render.head, "かk");
    assert_eq!(render.rest, "");
    assert_eq!(render.aux, "範囲選択 2/2");
}

#[test]
fn chunk_breaks_shift_with_the_committed_head() {
    assert_eq!(shift_chunk_breaks(&vec![1, 3, 5, 7], 3), vec![2, 4]);
    assert_eq!(shift_chunk_breaks(&vec![], 3), Vec::<usize>::new());
}

#[test]
fn commit_without_a_selection() {
    let mut buf = typed("ai");
    let mut breaks = vec![1];
    assert!(matches!(commit_range(&mut buf, &mut breaks, None, 1), RangeCommit::NotConsumed));
    let empty = candidate("", "あ");
    assert!(matches!(commit_range(&mut buf, &mut breaks, Some(&empty), 1), RangeCommit::Consumed));
    assert_eq!(buf.reading(), "あい");
    assert_eq!(breaks, vec![1]);
}

#[test]
fn space_converts_only_the_selection() {
    // The candidates built for the selected head: here what a learned
    // entry わせだ → 早稲田 gives.
    let mut buf = type_waseda_daigaku();
    let sel = select(&mut buf, 3);
    let head = range_head(&buf, sel.unwrap());
    assert_eq!(head, "わせだ");
    match start_range_conversion(&buf, sel, vec![candidate("早稲田", "わせだ"), candidate("わせだ", "わせだ")]) {
        RangeConversion::Convert { list, span } => {
            assert_eq!(span, 3);
            let texts: Vec<String> = list.candidates().iter().map(|c| c.text.clone()).collect();
            assert!(texts.contains(&"早稲田".to_string()), "got {texts:?}");
            assert_eq!(list.reading(), "わせだ");
        }
        _ => panic!("expected a conversion"),
    }
    // The unconverted remainder stays in the composition.
    assert_eq!(buf.reading(), "わせだだいがく");
}

#[test]
fn range_commit_learns_by_candidate_source() {
    // An explicit choice: model output is learned, the fallback reading never.
    let cases = [
        (Some(CandidateSource::Model), true),
        (Some(CandidateSource::Rewriter), true),
        (Some(CandidateSource::Dictionary), true),
        (Some(CandidateSource::UserDictionary), true),
        (Some(CandidateSource::Learning), true),
        (Some(CandidateSource::Fallback), false),
        (None, true),
    ];
    for (source, learns) in cases {
        let mut buf = typed("ai");
        let sel = select(&mut buf, 1);
        let mut breaks: Vec<usize> = Vec::new();
        let chosen = Candidate { text: "亜".to_string(), reading: Some("あ".to_string()), source, description: None };
        match commit_range(&mut buf, &mut breaks, Some(&chosen), sel.unwrap()) {
            RangeCommit::Continue(text, learned) => {
                assert_eq!(text, "亜");
                assert_eq!(learned.is_some(), learns, "{source:?}");
                if let Some(l) = learned {
                    assert_eq!((l.reading.as_str(), l.text.as_str()), ("あ", "亜"));
                }
            }
            _ => panic!("expected the rest to keep composing"),
        }
        assert_eq!(buf.reading(), "い");
    }
}

#[test]
fn range_commit_without_a_reading_learns_nothing() {
    let mut buf = typed("ai");
    let sel = select(&mut buf, 2);
    let mut breaks: Vec<usize> = Vec::new();
    let chosen = Candidate { text: "藍".to_string(), reading: None, source: None, description: None };
    match commit_range(&mut buf, &mut breaks, Some(&chosen), sel.unwrap()) {
        RangeCommit::Ended(text, learned) => {
            assert_eq!(text, "藍");
            assert!(learned.is_none());
        }
        _ => panic!("expected the composition to end"),
    }
}
