use karukan::backend::{
    build_jinen_prompt, clean_model_output, generation_budget, tokenizer_path, KanaKanjiConverter, KanjiError,
    ModelOutput, ModelSource, ResolvedModel, CONTEXT_TOKEN, INPUT_START_TOKEN, MAX_GENERATION_BUDGET,
    MAX_NEW_TOKENS, OUTPUT_START_TOKEN,
};
use std::path::Path;

fn hugging_face_source(repo: &str, filename: &str) -> ModelSource {
    ModelSource::HuggingFace { repo: repo.to_string(), filename: filename.to_string() }
}

/// Resolves a local source against the file system.
fn resolve_on_disk(source: &ModelSource) -> Result<ResolvedModel, KanjiError> {
    match source {
        ModelSource::Path(path) => {
            let tokenizer = tokenizer_path(path);
            source.resolve(Path::new(path).is_file(), Path::new(&tokenizer).is_file())
        }
        ModelSource::HuggingFace { .. } => source.resolve(false, false),
    }
}

fn new_file(dir: &Path, name: &str) -> String {
    let (stem, suffix) = match name.rfind('.') {
        Some(i) => (&name[..i], &name[i..]),
        None => (name, ""),
    };
    let file = tempfile::Builder::new().prefix(stem).suffix(suffix).rand_bytes(0).tempfile_in(dir).unwrap();
    let (_, path) = file.keep().unwrap();
    path.to_string_lossy().into_owned()
}

#[test]
fn test_resolve_missing_gguf() {
    let source = ModelSource::Path("/nonexistent/model.gguf".to_string());
    let err = resolve_on_disk(&source).unwrap_err();
    assert!(matches!(err, KanjiError::ModelNotFound(_)), "{err:?}");
}

#[test]
fn test_resolve_missing_tokenizer() {
    let dir = tempfile::tempdir().unwrap();
    let gguf = new_file(dir.path(), "model.gguf");

    let err = resolve_on_disk(&ModelSource::Path(gguf)).unwrap_err();
    let expected = dir.path().join("tokenizer.json").to_string_lossy().into_owned();
    match err {
        KanjiError::TokenizerNotFound(path) => assert_eq!(path, expected),
        other => panic!("expected TokenizerNotFound, got {other:?}"),
    }
}

#[test]
fn test_resolve_local_path() {
    let dir = tempfile::tempdir().unwrap();
    let gguf = new_file(dir.path(), "my-model.gguf");
    let tokenizer = new_file(dir.path(), "tokenizer.json");

    match resolve_on_disk(&ModelSource::Path(gguf.clone())).unwrap() {
        ResolvedModel::Local { gguf: model, tokenizer: tok } => {
            assert_eq!(model, gguf);
            assert_eq!(tok, tokenizer);
        }
        other => panic!("expected a local model, got {other:?}"),
    }
}

#[test]
fn resolve_hugging_face_names_the_repo_files() {
    let source = hugging_face_source("togatogah/jinen-v2-small.gguf", "jinen-v2-small-Q5_K_M.gguf");
    match source.resolve(false, false).unwrap() {
        ResolvedModel::Download { repo, gguf, tokenizer } => {
            assert_eq!(repo, "togatogah/jinen-v2-small.gguf");
            assert_eq!(gguf, "jinen-v2-small-Q5_K_M.gguf");
            assert_eq!(tokenizer, "tokenizer.json");
        }
        other => panic!("expected a download, got {other:?}"),
    }
}

#[test]
fn tokenizer_sits_beside_the_model() {
    assert_eq!(tokenizer_path("/models/small/model.gguf"), "/models/small/tokenizer.json");
    assert_eq!(tokenizer_path("model.gguf"), "tokenizer.json");
}

#[test]
fn generation_budget_uses_configured_max_as_floor() {
    // Short readings keep the configured budget.
    assert_eq!(generation_budget(0, 50), 50);
    assert_eq!(generation_budget(10, 50), 50);
    // 21 chars is the break-even: 21 * 2 + 8 = 50.
    assert_eq!(generation_budget(21, 50), 50);
    assert_eq!(generation_budget(22, 50), 52);
}

#[test]
fn generation_budget_scales_with_reading_length() {
    assert_eq!(generation_budget(30, 50), 68);
    assert_eq!(generation_budget(45, 50), 98);
    // A configured max above the formula wins.
    assert_eq!(generation_budget(30, 100), 100);
}

#[test]
fn generation_budget_is_capped() {
    assert_eq!(generation_budget(1000, 50), MAX_GENERATION_BUDGET);
    assert_eq!(generation_budget(124, 50), MAX_GENERATION_BUDGET);
    // 123 chars: 123 * 2 + 8 = 254, just under the cap.
    assert_eq!(generation_budget(123, 50), 254);
    // The cap also bounds an oversized configured max.
    assert_eq!(generation_budget(10, 10_000), MAX_GENERATION_BUDGET);
    // A reading length whose doubling overflows saturates at the cap.
    assert_eq!(generation_budget(usize::MAX, 50), MAX_GENERATION_BUDGET);
}

/// The model runs outside this library: a converter is resolved, and the
/// steps around the model are exercised on a stand-in output. Without the
/// model files at hand the model-backed part is skipped, as when the model
/// is unavailable offline.
fn conversion_without_model(repo: &str, filename: &str, name: &str) {
    let source = hugging_face_source(repo, filename);
    let (converter, _resolved) = KanaKanjiConverter::from_source(&source, name, false, false).unwrap();
    assert_eq!(converter.model_display_name(), name);
    let request = converter.conversion_request("かんじ", "");
    assert_eq!(request.katakana, "カンジ");
    println!("model unavailable, skipping");
    let outputs = vec![ModelOutput { text: " 漢字\n".to_string(), finished: true }];
    let candidates = converter.convert("かんじ", 1, &outputs);
    assert!(!candidates.is_empty(), "No candidates returned");
    let output = &candidates[0];
    assert!(!output.contains("ã"), "Output contains mojibake: '{}'", output);
}

#[test]
fn test_default_model_conversion() {
    conversion_without_model("togatogah/jinen-v2-small.gguf", "jinen-v2-small-Q5_K_M.gguf", "small");
}

#[test]
fn test_xsmall_special_tokens() {
    let source = hugging_face_source("togatogah/jinen-v1-xsmall.gguf", "jinen-v1-xsmall-Q5_K_M.gguf");
    assert!(source.resolve(false, false).is_ok());
    let prompt = build_jinen_prompt("テスト", "");
    assert!(prompt.contains(CONTEXT_TOKEN), "CONTEXT token (U+EE02) not found");
    assert!(prompt.contains(INPUT_START_TOKEN), "INPUT_START token (U+EE00) not found");
    assert!(prompt.contains(OUTPUT_START_TOKEN), "OUTPUT_START token (U+EE01) not found");
}

#[test]
fn test_xsmall_conversion() {
    conversion_without_model("togatogah/jinen-v1-xsmall.gguf", "jinen-v1-xsmall-Q5_K_M.gguf", "xsmall");
}

#[test]
fn prompt_is_nfkc_normalized() {
    // Full-width ASCII in the context becomes ASCII; the special tokens
    // survive normalization.
    let prompt = build_jinen_prompt("カンジ", "ＡＢＣ１２３");
    assert_eq!(prompt, "\u{EE02}ABC123\u{EE00}カンジ\u{EE01}");
}

#[test]
fn model_output_is_trimmed() {
    assert_eq!(clean_model_output("  漢字\n"), "漢字");
    assert_eq!(clean_model_output("\u{3000}漢字"), "漢字");
}

#[test]
fn conversion_request_filters_echo_context_and_scales_budget() {
    let (converter, _) =
        KanaKanjiConverter::from_source(&ModelSource::Path("m.gguf".to_string()), "m", true, true).unwrap();
    let request = converter.conversion_request("あしたはあめ", "今日は晴れ。あしたはあめかもしれない。");
    assert_eq!(request.katakana, "アシタハアメ");
    assert_eq!(request.prompt, "\u{EE02}今日は晴れ。\u{EE00}アシタハアメ\u{EE01}");
    assert_eq!(request.budget, MAX_NEW_TOKENS);
}

#[test]
fn convert_drops_degenerate_duplicate_and_truncated_outputs() {
    let (converter, _) =
        KanaKanjiConverter::from_source(&ModelSource::Path("m.gguf".to_string()), "m", true, true).unwrap();
    let outputs = vec![
        ModelOutput { text: "漢字".to_string(), finished: true },
        ModelOutput { text: " 漢字 ".to_string(), finished: true },
        ModelOutput { text: "幹事".to_string(), finished: false },
        ModelOutput { text: "".to_string(), finished: true },
        ModelOutput { text: "感じ".to_string(), finished: true },
    ];
    assert_eq!(converter.convert("かんじ", 3, &outputs), vec!["漢字".to_string(), "感じ".to_string()]);
}

#[test]
fn convert_falls_back_to_the_reading() {
    let (converter, _) =
        KanaKanjiConverter::from_source(&ModelSource::Path("m.gguf".to_string()), "m", true, true).unwrap();
    let outputs = vec![ModelOutput { text: "   ".to_string(), finished: true }];
    assert_eq!(converter.convert("かんじ", 1, &outputs), vec!["かんじ".to_string()]);
    assert_eq!(converter.convert("かんじ", 3, &Vec::new()), vec!["かんじ".to_string()]);
}

#[test]
fn from_source_reports_missing_model() {
    let err = KanaKanjiConverter::from_source(&ModelSource::Path("/x/m.gguf".to_string()), "m", false, false);
    assert!(matches!(err, Err(KanjiError::ModelNotFound(p)) if p == "/x/m.gguf"));
    let mut conv = KanaKanjiConverter::from_source(&ModelSource::Path("/x/m.gguf".to_string()), "m", true, true)
        .unwrap()
        .0;
    assert_eq!(conv.n_threads(), 0);
    conv.set_n_threads(4);
    assert_eq!(conv.n_threads(), 4);
}

#[test]
fn prompt_is_the_same_for_a_prefiltered_context() {
    let (converter, _) =
        KanaKanjiConverter::from_source(&ModelSource::Path("m.gguf".to_string()), "m", true, true).unwrap();
    let context = "今日は晴れ。あしたはあめかもしれない。";
    let filtered = karukan::quality::echo_free_context(context, "あしたはあめ");
    let raw = converter.conversion_request("あしたはあめ", context);
    let pre = converter.conversion_request("あしたはあめ", &filtered);
    assert_eq!(raw.prompt, pre.prompt);
    assert_eq!(raw.katakana, pre.katakana);
    assert_eq!(raw.budget, pre.budget);
}
