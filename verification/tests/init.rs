use karukan::init::{learning_cache_step, model_keys, needs_model_loading, LearningCacheStep, system_dictionary_path, user_dictionary_path, StrategyMode};
use std::path::Path;

/// The system dictionary path, with the user's dictionary looked up on disk.
fn dictionary_path(configured: Option<&str>, data_dir: Option<&str>, packaged: Option<&str>) -> Option<String> {
    let user_exists = data_dir.is_some_and(|d| Path::new(&user_dictionary_path(d)).exists());
    system_dictionary_path(configured, data_dir, user_exists, packaged)
}

fn dir_string(dir: &tempfile::TempDir) -> String {
    dir.path().to_string_lossy().into_owned()
}

#[test]
fn packaged_dictionary_is_used_without_user_dictionary() {
    let dir = tempfile::tempdir().unwrap();
    let packaged = "/usr/share/karukan-im/dict.bin";
    assert_eq!(dictionary_path(None, Some(&dir_string(&dir)), Some(packaged)), Some(packaged.to_string()));
    assert_eq!(dictionary_path(None, None, Some(packaged)), Some(packaged.to_string()));
}

#[test]
fn user_dictionary_overrides_package() {
    let dir = tempfile::tempdir().unwrap();
    let file = tempfile::Builder::new().prefix("dict").suffix(".bin").rand_bytes(0).tempfile_in(dir.path()).unwrap();
    let (_, user) = file.keep().unwrap();
    assert_eq!(
        dictionary_path(None, Some(&dir_string(&dir)), Some("/package/dict.bin")),
        Some(user.to_string_lossy().into_owned())
    );
}

#[test]
fn explicit_path_is_authoritative_even_when_missing() {
    assert_eq!(
        dictionary_path(Some("/custom/missing.bin"), None, Some("/package/dict.bin")),
        Some("/custom/missing.bin".to_string())
    );
}

#[test]
fn platforms_without_package_keep_user_path() {
    let dir = tempfile::tempdir().unwrap();
    assert_eq!(
        dictionary_path(None, Some(&dir_string(&dir)), None),
        Some(dir.path().join("dict.bin").to_string_lossy().into_owned())
    );
    assert_eq!(dictionary_path(None, None, None), None);
}

#[test]
fn user_dictionary_lives_in_the_data_directory() {
    assert_eq!(user_dictionary_path("/home/u/.local/share/karukan-im"), "/home/u/.local/share/karukan-im/dict.bin");
    assert_eq!(system_dictionary_path(None, Some("/d"), true, Some("/p/dict.bin")), Some("/d/dict.bin".to_string()));
    assert_eq!(system_dictionary_path(None, Some("/d"), false, Some("/p/dict.bin")), Some("/p/dict.bin".to_string()));
}

#[test]
fn strategy_selects_the_models_to_load() {
    assert_eq!(model_keys(StrategyMode::Light, "small", "xsmall"), ("xsmall".to_string(), None));
    assert_eq!(model_keys(StrategyMode::Main, "small", "xsmall"), ("small".to_string(), None));
    assert_eq!(
        model_keys(StrategyMode::Adaptive, "small", "xsmall"),
        ("small".to_string(), Some("xsmall".to_string()))
    );
}

#[test]
fn models_load_once() {
    assert!(needs_model_loading(false, false));
    assert!(!needs_model_loading(true, false));
    assert!(!needs_model_loading(false, true));
    assert!(!needs_model_loading(true, true));
}

#[test]
fn learning_cache_setup_steps() {
    assert_eq!(learning_cache_step(false, false, true), LearningCacheStep::Skip);
    assert_eq!(learning_cache_step(true, true, true), LearningCacheStep::Skip);
    assert_eq!(learning_cache_step(true, false, true), LearningCacheStep::Load);
    assert_eq!(learning_cache_step(true, false, false), LearningCacheStep::Fresh);
}
