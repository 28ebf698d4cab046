//! karukan: the verified core of a Japanese input method — the
//! composition buffer and its romaji evaluation, the F-key transforms and
//! range conversion over it, the checks around kana-kanji model output,
//! and the user-dictionary watcher.

pub mod text;
pub mod width;
pub mod kana;
pub mod half_width;
pub mod romaji_table;
pub mod romaji;
pub mod evaluation;
pub mod input_buffer;
pub mod candidates;
pub mod fkeys;
pub mod range;
pub mod quality;
pub mod backend;
pub mod init;
pub mod user_dicts;
