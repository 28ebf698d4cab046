//! Half-width forms of katakana and Japanese punctuation.
use vstd::prelude::*;

verus! {

/// The half-width form of a full-width katakana or Japanese punctuation
/// mark: one half-width character, followed by the half-width voiced (U+FF9E)
/// or semi-voiced (U+FF9F) sound mark for a voiced kana. `None` for a
/// character with no half-width form.
pub open spec fn half_width_of(c: char) -> Option<(char, Option<char>)> {
    match c {
        '\u{3001}' => Some(('\u{FF64}', None)),
        '\u{3002}' => Some(('\u{FF61}', None)),
        '\u{300C}' => Some(('\u{FF62}', None)),
        '\u{300D}' => Some(('\u{FF63}', None)),
        '\u{30A1}' => Some(('\u{FF67}', None)),
        '\u{30A2}' => Some(('\u{FF71}', None)),
        '\u{30A3}' => Some(('\u{FF68}', None)),
        '\u{30A4}' => Some(('\u{FF72}', None)),
        '\u{30A5}' => Some(('\u{FF69}', None)),
        '\u{30A6}' => Some(('\u{FF73}', None)),
        '\u{30A7}' => Some(('\u{FF6A}', None)),
        '\u{30A8}' => Some(('\u{FF74}', None)),
        '\u{30A9}' => Some(('\u{FF6B}', None)),
        '\u{30AA}' => Some(('\u{FF75}', None)),
        '\u{30AB}' => Some(('\u{FF76}', None)),
        '\u{30AC}' => Some(('\u{FF76}', Some('\u{FF9E}'))),
        '\u{30AD}' => Some(('\u{FF77}', None)),
        '\u{30AE}' => Some(('\u{FF77}', Some('\u{FF9E}'))),
        '\u{30AF}' => Some(('\u{FF78}', None)),
        '\u{30B0}' => Some(('\u{FF78}', Some('\u{FF9E}'))),
        '\u{30B1}' => Some(('\u{FF79}', None)),
        '\u{30B2}' => Some(('\u{FF79}', Some('\u{FF9E}'))),
        '\u{30B3}' => Some(('\u{FF7A}', None)),
        '\u{30B4}' => Some(('\u{FF7A}', Some('\u{FF9E}'))),
        '\u{30B5}' => Some(('\u{FF7B}', None)),
        '\u{30B6}' => Some(('\u{FF7B}', Some('\u{FF9E}'))),
        '\u{30B7}' => Some(('\u{FF7C}', None)),
        '\u{30B8}' => Some(('\u{FF7C}', Some('\u{FF9E}'))),
        '\u{30B9}' => Some(('\u{FF7D}', None)),
        '\u{30BA}' => Some(('\u{FF7D}', Some('\u{FF9E}'))),
        '\u{30BB}' => Some(('\u{FF7E}', None)),
        '\u{30BC}' => Some(('\u{FF7E}', Some('\u{FF9E}'))),
        '\u{30BD}' => Some(('\u{FF7F}', None)),
        '\u{30BE}' => Some(('\u{FF7F}', Some('\u{FF9E}'))),
        '\u{30BF}' => Some(('\u{FF80}', None)),
        '\u{30C0}' => Some(('\u{FF80}', Some('\u{FF9E}'))),
        '\u{30C1}' => Some(('\u{FF81}', None)),
        '\u{30C2}' => Some(('\u{FF81}', Some('\u{FF9E}'))),
        '\u{30C3}' => Some(('\u{FF6F}', None)),
        '\u{30C4}' => Some(('\u{FF82}', None)),
        '\u{30C5}' => Some(('\u{FF82}', Some('\u{FF9E}'))),
        '\u{30C6}' => Some(('\u{FF83}', None)),
        '\u{30C7}' => Some(('\u{FF83}', Some('\u{FF9E}'))),
        '\u{30C8}' => Some(('\u{FF84}', None)),
        '\u{30C9}' => Some(('\u{FF84}', Some('\u{FF9E}'))),
        '\u{30CA}' => Some(('\u{FF85}', None)),
        '\u{30CB}' => Some(('\u{FF86}', None)),
        '\u{30CC}' => Some(('\u{FF87}', None)),
        '\u{30CD}' => Some(('\u{FF88}', None)),
        '\u{30CE}' => Some(('\u{FF89}', None)),
        '\u{30CF}' => Some(('\u{FF8A}', None)),
        '\u{30D0}' => Some(('\u{FF8A}', Some('\u{FF9E}'))),
        '\u{30D1}' => Some(('\u{FF8A}', Some('\u{FF9F}'))),
        '\u{30D2}' => Some(('\u{FF8B}', None)),
        '\u{30D3}' => Some(('\u{FF8B}', Some('\u{FF9E}'))),
        '\u{30D4}' => Some(('\u{FF8B}', Some('\u{FF9F}'))),
        '\u{30D5}' => Some(('\u{FF8C}', None)),
        '\u{30D6}' => Some(('\u{FF8C}', Some('\u{FF9E}'))),
        '\u{30D7}' => Some(('\u{FF8C}', Some('\u{FF9F}'))),
        '\u{30D8}' => Some(('\u{FF8D}', None)),
        '\u{30D9}' => Some(('\u{FF8D}', Some('\u{FF9E}'))),
        '\u{30DA}' => Some(('\u{FF8D}', Some('\u{FF9F}'))),
        '\u{30DB}' => Some(('\u{FF8E}', None)),
        '\u{30DC}' => Some(('\u{FF8E}', Some('\u{FF9E}'))),
        '\u{30DD}' => Some(('\u{FF8E}', Some('\u{FF9F}'))),
        '\u{30DE}' => Some(('\u{FF8F}', None)),
        '\u{30DF}' => Some(('\u{FF90}', None)),
        '\u{30E0}' => Some(('\u{FF91}', None)),
        '\u{30E1}' => Some(('\u{FF92}', None)),
        '\u{30E2}' => Some(('\u{FF93}', None)),
        '\u{30E3}' => Some(('\u{FF6C}', None)),
        '\u{30E4}' => Some(('\u{FF94}', None)),
        '\u{30E5}' => Some(('\u{FF6D}', None)),
        '\u{30E6}' => Some(('\u{FF95}', None)),
        '\u{30E7}' => Some(('\u{FF6E}', None)),
        '\u{30E8}' => Some(('\u{FF96}', None)),
        '\u{30E9}' => Some(('\u{FF97}', None)),
        '\u{30EA}' => Some(('\u{FF98}', None)),
        '\u{30EB}' => Some(('\u{FF99}', None)),
        '\u{30EC}' => Some(('\u{FF9A}', None)),
        '\u{30ED}' => Some(('\u{FF9B}', None)),
        '\u{30EF}' => Some(('\u{FF9C}', None)),
        '\u{30F2}' => Some(('\u{FF66}', None)),
        '\u{30F3}' => Some(('\u{FF9D}', None)),
        '\u{30F4}' => Some(('\u{FF73}', Some('\u{FF9E}'))),
        '\u{30F7}' => Some(('\u{FF9C}', Some('\u{FF9E}'))),
        '\u{30FA}' => Some(('\u{FF66}', Some('\u{FF9E}'))),
        '\u{30FB}' => Some(('\u{FF65}', None)),
        '\u{30FC}' => Some(('\u{FF70}', None)),
        _ => None,
    }
}

pub fn half_width_char(c: char) -> (r: Option<(char, Option<char>)>)
    ensures
        r == half_width_of(c),
{
    match c {
        '\u{3001}' => Some(('\u{FF64}', None)),
        '\u{3002}' => Some(('\u{FF61}', None)),
        '\u{300C}' => Some(('\u{FF62}', None)),
        '\u{300D}' => Some(('\u{FF63}', None)),
        '\u{30A1}' => Some(('\u{FF67}', None)),
        '\u{30A2}' => Some(('\u{FF71}', None)),
        '\u{30A3}' => Some(('\u{FF68}', None)),
        '\u{30A4}' => Some(('\u{FF72}', None)),
        '\u{30A5}' => Some(('\u{FF69}', None)),
        '\u{30A6}' => Some(('\u{FF73}', None)),
        '\u{30A7}' => Some(('\u{FF6A}', None)),
        '\u{30A8}' => Some(('\u{FF74}', None)),
        '\u{30A9}' => Some(('\u{FF6B}', None)),
        '\u{30AA}' => Some(('\u{FF75}', None)),
        '\u{30AB}' => Some(('\u{FF76}', None)),
        '\u{30AC}' => Some(('\u{FF76}', Some('\u{FF9E}'))),
        '\u{30AD}' => Some(('\u{FF77}', None)),
        '\u{30AE}' => Some(('\u{FF77}', Some('\u{FF9E}'))),
        '\u{30AF}' => Some(('\u{FF78}', None)),
        '\u{30B0}' => Some(('\u{FF78}', Some('\u{FF9E}'))),
        '\u{30B1}' => Some(('\u{FF79}', None)),
        '\u{30B2}' => Some(('\u{FF79}', Some('\u{FF9E}'))),
        '\u{30B3}' => Some(('\u{FF7A}', None)),
        '\u{30B4}' => Some(('\u{FF7A}', Some('\u{FF9E}'))),
        '\u{30B5}' => Some(('\u{FF7B}', None)),
        '\u{30B6}' => Some(('\u{FF7B}', Some('\u{FF9E}'))),
        '\u{30B7}' => Some(('\u{FF7C}', None)),
        '\u{30B8}' => Some(('\u{FF7C}', Some('\u{FF9E}'))),
        '\u{30B9}' => Some(('\u{FF7D}', None)),
        '\u{30BA}' => Some(('\u{FF7D}', Some('\u{FF9E}'))),
        '\u{30BB}' => Some(('\u{FF7E}', None)),
        '\u{30BC}' => Some(('\u{FF7E}', Some('\u{FF9E}'))),
        '\u{30BD}' => Some(('\u{FF7F}', None)),
        '\u{30BE}' => Some(('\u{FF7F}', Some('\u{FF9E}'))),
        '\u{30BF}' => Some(('\u{FF80}', None)),
        '\u{30C0}' => Some(('\u{FF80}', Some('\u{FF9E}'))),
        '\u{30C1}' => Some(('\u{FF81}', None)),
        '\u{30C2}' => Some(('\u{FF81}', Some('\u{FF9E}'))),
        '\u{30C3}' => Some(('\u{FF6F}', None)),
        '\u{30C4}' => Some(('\u{FF82}', None)),
        '\u{30C5}' => Some(('\u{FF82}', Some('\u{FF9E}'))),
        '\u{30C6}' => Some(('\u{FF83}', None)),
        '\u{30C7}' => Some(('\u{FF83}', Some('\u{FF9E}'))),
        '\u{30C8}' => Some(('\u{FF84}', None)),
        '\u{30C9}' => Some(('\u{FF84}', Some('\u{FF9E}'))),
        '\u{30CA}' => Some(('\u{FF85}', None)),
        '\u{30CB}' => Some(('\u{FF86}', None)),
        '\u{30CC}' => Some(('\u{FF87}', None)),
        '\u{30CD}' => Some(('\u{FF88}', None)),
        '\u{30CE}' => Some(('\u{FF89}', None)),
        '\u{30CF}' => Some(('\u{FF8A}', None)),
        '\u{30D0}' => Some(('\u{FF8A}', Some('\u{FF9E}'))),
        '\u{30D1}' => Some(('\u{FF8A}', Some('\u{FF9F}'))),
        '\u{30D2}' => Some(('\u{FF8B}', None)),
        '\u{30D3}' => Some(('\u{FF8B}', Some('\u{FF9E}'))),
        '\u{30D4}' => Some(('\u{FF8B}', Some('\u{FF9F}'))),
        '\u{30D5}' => Some(('\u{FF8C}', None)),
        '\u{30D6}' => Some(('\u{FF8C}', Some('\u{FF9E}'))),
        '\u{30D7}' => Some(('\u{FF8C}', Some('\u{FF9F}'))),
        '\u{30D8}' => Some(('\u{FF8D}', None)),
        '\u{30D9}' => Some(('\u{FF8D}', Some('\u{FF9E}'))),
        '\u{30DA}' => Some(('\u{FF8D}', Some('\u{FF9F}'))),
        '\u{30DB}' => Some(('\u{FF8E}', None)),
        '\u{30DC}' => Some(('\u{FF8E}', Some('\u{FF9E}'))),
        '\u{30DD}' => Some(('\u{FF8E}', Some('\u{FF9F}'))),
        '\u{30DE}' => Some(('\u{FF8F}', None)),
        '\u{30DF}' => Some(('\u{FF90}', None)),
        '\u{30E0}' => Some(('\u{FF91}', None)),
        '\u{30E1}' => Some(('\u{FF92}', None)),
        '\u{30E2}' => Some(('\u{FF93}', None)),
        '\u{30E3}' => Some(('\u{FF6C}', None)),
        '\u{30E4}' => Some(('\u{FF94}', None)),
        '\u{30E5}' => Some(('\u{FF6D}', None)),
        '\u{30E6}' => Some(('\u{FF95}', None)),
        '\u{30E7}' => Some(('\u{FF6E}', None)),
        '\u{30E8}' => Some(('\u{FF96}', None)),
        '\u{30E9}' => Some(('\u{FF97}', None)),
        '\u{30EA}' => Some(('\u{FF98}', None)),
        '\u{30EB}' => Some(('\u{FF99}', None)),
        '\u{30EC}' => Some(('\u{FF9A}', None)),
        '\u{30ED}' => Some(('\u{FF9B}', None)),
        '\u{30EF}' => Some(('\u{FF9C}', None)),
        '\u{30F2}' => Some(('\u{FF66}', None)),
        '\u{30F3}' => Some(('\u{FF9D}', None)),
        '\u{30F4}' => Some(('\u{FF73}', Some('\u{FF9E}'))),
        '\u{30F7}' => Some(('\u{FF9C}', Some('\u{FF9E}'))),
        '\u{30FA}' => Some(('\u{FF66}', Some('\u{FF9E}'))),
        '\u{30FB}' => Some(('\u{FF65}', None)),
        '\u{30FC}' => Some(('\u{FF70}', None)),
        _ => None,
    }
}

/// Half-width katakana follow the syllabary: U+FF71..U+FF9D hold
/// ｱ ｲ ｳ ｴ ｵ ｶ … ﾜ ﾝ in gojūon order, and U+FF67..U+FF6F the small
/// ｧ ｨ ｩ ｪ ｫ ｬ ｭ ｮ ｯ. Each full-width katakana maps to the half-width
/// character of the same syllable, a voiced one adding ﾞ (U+FF9E) and a
/// semi-voiced one ﾟ (U+FF9F) to its unvoiced base. Stated row by row over
/// the full-width block's own layout: vowels and small vowels alternate,
/// the k/s/t rows alternate unvoiced and voiced, the h row runs in threes.
pub proof fn lemma_half_width_follows_the_syllabary()
    ensures
        // ア イ ウ エ オ and ァ ィ ゥ ェ ォ
        forall|k: int| 0 <= k < 5 ==> #[trigger] half_width_of((0x30A2 + 2 * k) as char) == Some(((0xFF71 + k) as char, None::<char>)),
        forall|k: int| 0 <= k < 5 ==> #[trigger] half_width_of((0x30A1 + 2 * k) as char) == Some(((0xFF67 + k) as char, None::<char>)),
        // カ … チ and ガ … ヂ
        forall|k: int| 0 <= k < 12 ==> #[trigger] half_width_of((0x30AB + 2 * k) as char) == Some(((0xFF76 + k) as char, None::<char>)),
        forall|k: int| 0 <= k < 12 ==> #[trigger] half_width_of((0x30AC + 2 * k) as char) == Some(((0xFF76 + k) as char, Some('\u{FF9E}'))),
        // ツ テ ト and ヅ デ ド, with the small ッ before them
        forall|k: int| 0 <= k < 3 ==> #[trigger] half_width_of((0x30C4 + 2 * k) as char) == Some(((0xFF82 + k) as char, None::<char>)),
        forall|k: int| 0 <= k < 3 ==> #[trigger] half_width_of((0x30C5 + 2 * k) as char) == Some(((0xFF82 + k) as char, Some('\u{FF9E}'))),
        half_width_of('\u{30C3}') == Some(('\u{FF6F}', None::<char>)),
        // ナ … ノ
        forall|k: int| 0 <= k < 5 ==> #[trigger] half_width_of((0x30CA + k) as char) == Some(((0xFF85 + k) as char, None::<char>)),
        // ハ … ホ, バ … ボ, パ … ポ
        forall|k: int| 0 <= k < 5 ==> #[trigger] half_width_of((0x30CF + 3 * k) as char) == Some(((0xFF8A + k) as char, None::<char>)),
        forall|k: int| 0 <= k < 5 ==> #[trigger] half_width_of((0x30D0 + 3 * k) as char) == Some(((0xFF8A + k) as char, Some('\u{FF9E}'))),
        forall|k: int| 0 <= k < 5 ==> #[trigger] half_width_of((0x30D1 + 3 * k) as char) == Some(((0xFF8A + k) as char, Some('\u{FF9F}'))),
        // マ … モ
        forall|k: int| 0 <= k < 5 ==> #[trigger] half_width_of((0x30DE + k) as char) == Some(((0xFF8F + k) as char, None::<char>)),
        // ヤ ユ ヨ and ャ ュ ョ
        forall|k: int| 0 <= k < 3 ==> #[trigger] half_width_of((0x30E4 + 2 * k) as char) == Some(((0xFF94 + k) as char, None::<char>)),
        forall|k: int| 0 <= k < 3 ==> #[trigger] half_width_of((0x30E3 + 2 * k) as char) == Some(((0xFF6C + k) as char, None::<char>)),
        // ラ … ロ
        forall|k: int| 0 <= k < 5 ==> #[trigger] half_width_of((0x30E9 + k) as char) == Some(((0xFF97 + k) as char, None::<char>)),
        // ワ ヲ ン, and ヴ ヷ ヺ voicing ウ ワ ヲ
        half_width_of('\u{30EF}') == Some(('\u{FF9C}', None::<char>)),
        half_width_of('\u{30F2}') == Some(('\u{FF66}', None::<char>)),
        half_width_of('\u{30F3}') == Some(('\u{FF9D}', None::<char>)),
        half_width_of('\u{30F4}') == Some(('\u{FF73}', Some('\u{FF9E}'))),
        half_width_of('\u{30F7}') == Some(('\u{FF9C}', Some('\u{FF9E}'))),
        half_width_of('\u{30FA}') == Some(('\u{FF66}', Some('\u{FF9E}'))),
        // the long-vowel mark and the Japanese punctuation 、 。 「 」 ・
        half_width_of('\u{30FC}') == Some(('\u{FF70}', None::<char>)),
        half_width_of('\u{3001}') == Some(('\u{FF64}', None::<char>)),
        half_width_of('\u{3002}') == Some(('\u{FF61}', None::<char>)),
        half_width_of('\u{300C}') == Some(('\u{FF62}', None::<char>)),
        half_width_of('\u{300D}') == Some(('\u{FF63}', None::<char>)),
        half_width_of('\u{30FB}') == Some(('\u{FF65}', None::<char>)),
{
    assert forall|k: int| 0 <= k < 5 implies #[trigger] half_width_of((0x30A2 + 2 * k) as char) == Some(((0xFF71 + k) as char, None::<char>)) by {
        assert(k == 0 || k == 1 || k == 2 || k == 3 || k == 4);
    }
}

} // verus!
