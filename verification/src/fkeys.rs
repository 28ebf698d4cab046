//! F6–F10 fixed transforms, mozc-style. F6/F7/F8 convert the whole
//! composition to hiragana / full-width katakana / half-width katakana;
//! F9/F10 convert the typed keystrokes to full-/half-width alphanumerics,
//! cycling the case on repeated presses.
//!
//! A transform is entered as an ordinary conversion whose candidate list
//! holds the transforms, with the pressed key's transform selected — so a
//! repeated or different F-key just moves the selection.
use vstd::prelude::*;
use crate::candidates::{candidate_is, texts_of, Candidate, ConversionList};
use crate::evaluation::raw_text_of;
use crate::input_buffer::{settled_reading_of, InputBuffer};
use crate::kana::{half_seq, hiragana_to_katakana, kata_seq, katakana_to_half_width};
use crate::romaji::RomajiConverter;
use crate::width::{full_seq, to_full_width, Width};

verus! {

/// An X11 keysym.
#[derive(Clone, Copy, PartialEq, Eq, Debug)]
pub struct Keysym(pub u32);

/// X11 keysym of F6.
pub const KEYSYM_F6: u32 = 0xffc3;

/// X11 keysym of F7.
pub const KEYSYM_F7: u32 = 0xffc4;

/// X11 keysym of F8.
pub const KEYSYM_F8: u32 = 0xffc5;

/// X11 keysym of F9.
pub const KEYSYM_F9: u32 = 0xffc6;

/// X11 keysym of F10.
pub const KEYSYM_F10: u32 = 0xffc7;

/// Candidate-list index of a fixed transform key: F6 → ひらがな,
/// F7 → 全角カタカナ, F8 → 半角カタカナ.
pub open spec fn transform_index_of(code: u32) -> Option<usize> {
    if code == KEYSYM_F6 {
        Some(0usize)
    } else if code == KEYSYM_F7 {
        Some(1usize)
    } else if code == KEYSYM_F8 {
        Some(2usize)
    } else {
        None
    }
}

/// Width of an alphanumeric transform key: F9 → full width (`true`),
/// F10 → half width (`false`).
pub open spec fn alnum_fullwidth_of(code: u32) -> Option<bool> {
    if code == KEYSYM_F9 {
        Some(true)
    } else if code == KEYSYM_F10 {
        Some(false)
    } else {
        None
    }
}

/// Candidate-list index for an F-key: F6 → ひらがな, F7 → 全角カタカナ,
/// F8 → 半角カタカナ. `None` for any other key.
pub fn fkey_transform_index(keysym: Keysym) -> (r: Option<usize>)
    ensures
        r == transform_index_of(keysym.0),
{
    if keysym.0 == KEYSYM_F6 {
        Some(0)
    } else if keysym.0 == KEYSYM_F7 {
        Some(1)
    } else if keysym.0 == KEYSYM_F8 {
        Some(2)
    } else {
        None
    }
}

/// Width for an alphanumeric F-key: F9 → full-width, F10 → half-width.
/// `None` for any other key.
pub fn fkey_alnum_fullwidth(keysym: Keysym) -> (r: Option<bool>)
    ensures
        r == alnum_fullwidth_of(keysym.0),
{
    if keysym.0 == KEYSYM_F9 {
        Some(true)
    } else if keysym.0 == KEYSYM_F10 {
        Some(false)
    } else {
        None
    }
}

/// What `str::to_lowercase` returns for a string: its Unicode lowercase
/// mapping.
pub uninterp spec fn lowercase(s: Seq<char>) -> Seq<char>;

/// What `str::to_uppercase` returns for a string: its Unicode uppercase
/// mapping.
pub uninterp spec fn uppercase(s: Seq<char>) -> Seq<char>;

/// What `char::to_uppercase` yields for a character: its Unicode uppercase
/// mapping, one or more characters.
pub uninterp spec fn char_uppercase(c: char) -> Seq<char>;

/// `str::to_lowercase`. The contract names the result, a function of the
/// string alone; the Unicode case tables are std's and are not restated.
#[verifier::external_body]
fn to_lowercase(s: &str) -> (r: String)
    ensures
        r@ == lowercase(s@),
{
    s.to_lowercase()
}

/// `str::to_uppercase`. The contract names the result, a function of the
/// string alone; the Unicode case tables are std's and are not restated.
#[verifier::external_body]
fn to_uppercase(s: &str) -> (r: String)
    ensures
        r@ == uppercase(s@),
{
    s.to_uppercase()
}

/// `char::to_uppercase`, collected into a string. The contract names the
/// result, a function of the character alone.
#[verifier::external_body]
fn char_to_uppercase(c: char) -> (r: String)
    ensures
        r@ == char_uppercase(c),
{
    c.to_uppercase().collect()
}

/// `s` with its first character uppercased (the rest as is).
pub open spec fn capitalized(s: Seq<char>) -> Seq<char> {
    if s.len() == 0 {
        Seq::empty()
    } else {
        char_uppercase(s[0]) + s.drop_first()
    }
}

/// `s` at the requested width.
pub open spec fn widened(s: Seq<char>, full: bool) -> Seq<char> {
    if full {
        full_seq(s)
    } else {
        s
    }
}

/// The three case variants of `raw` — lowercase, UPPERCASE, Capitalized —
/// at the requested width.
pub open spec fn variant_texts(raw: Seq<char>, full: bool) -> Seq<Seq<char>> {
    seq![
        widened(lowercase(raw), full),
        widened(uppercase(raw), full),
        widened(capitalized(lowercase(raw)), full),
    ]
}

/// Descriptions of the three case variants at a width.
pub open spec fn variant_descriptions(full: bool) -> Seq<Seq<char>> {
    if full {
        seq!["[全]英小文字"@, "[全]英大文字"@, "[全]英先頭大文字"@]
    } else {
        seq!["[半]英小文字"@, "[半]英大文字"@, "[半]英先頭大文字"@]
    }
}

/// Texts of a list of (text, description) pairs.
pub open spec fn pair_texts(v: Seq<(String, &'static str)>) -> Seq<Seq<char>> {
    Seq::new(v.len(), |i: int| v[i].0@)
}

fn widen(s: String, full: bool) -> (r: String)
    ensures
        r@ == widened(s@, full),
{
    if full {
        to_full_width(s.as_str())
    } else {
        s
    }
}

/// The three case variants of the raw keystrokes — lowercase, UPPERCASE,
/// Capitalized — at the requested width, paired with their descriptions.
pub fn alnum_variants(raw: &str, full: bool) -> (r: Vec<(String, &'static str)>)
    ensures
        r@.len() == 3,
        pair_texts(r@) == variant_texts(raw@, full),
        forall|i: int| 0 <= i < 3 ==> #[trigger] r@[i].1@ == variant_descriptions(full)[i],
{
    let lower = to_lowercase(raw);
    let upper = to_uppercase(raw);
    let mut capital = String::new();
    let lower_chars = crate::text::chars_of(lower.as_str());
    if lower_chars.len() > 0 {
        let first = char_to_uppercase(lower_chars[0]);
        let mut rest: Vec<char> = Vec::new();
        let mut k: usize = 1;
        while k < lower_chars.len()
            invariant
                1 <= k <= lower_chars.len(),
                rest@ == lower_chars@.subrange(1, k as int),
            decreases lower_chars.len() - k,
        {
            rest.push(lower_chars[k]);
            k += 1;
            assert(rest@ =~= lower_chars@.subrange(1, k as int));
        }
        let mut all = crate::text::chars_of(first.as_str());
        crate::input_buffer::append_chars(&mut all, &rest);
        capital = crate::text::string_of(&all);
        assert(capital@ =~= capitalized(lower@));
    } else {
        assert(capital@ =~= capitalized(lower@));
    }
    let (d0, d1, d2) = if full {
        ("[全]英小文字", "[全]英大文字", "[全]英先頭大文字")
    } else {
        ("[半]英小文字", "[半]英大文字", "[半]英先頭大文字")
    };
    let mut out: Vec<(String, &'static str)> = Vec::new();
    out.push((widen(lower, full), d0));
    out.push((widen(upper, full), d1));
    out.push((widen(capital, full), d2));
    assert(pair_texts(out@) =~= variant_texts(raw@, full));
    out
}

/// What an F-key does.
pub enum FkeyOutcome {
    /// Nothing changes; the key is consumed (emoji query, empty reading).
    Consumed,
    /// Enter (or re-enter) a conversion with this list.
    Convert(ConversionList),
}

/// The three fixed transforms of a reading: as is, full-width katakana,
/// half-width katakana.
pub open spec fn transform_texts(reading: Seq<char>) -> Seq<Seq<char>> {
    seq![reading, kata_seq(reading), half_seq(kata_seq(reading))]
}

/// Descriptions of the three fixed transforms.
pub open spec fn transform_descriptions() -> Seq<Seq<char>> {
    seq!["ひらがな"@, "[全]カタカナ"@, "[半]カタカナ"@]
}

/// Which of the three transforms stay once repeated texts are dropped,
/// keeping the first.
pub open spec fn kept_transforms(t: Seq<Seq<char>>) -> Seq<int> {
    if t[1] == t[0] {
        if t[2] == t[0] {
            seq![0int]
        } else {
            seq![0int, 2int]
        }
    } else if t[2] == t[0] || t[2] == t[1] {
        seq![0int, 1int]
    } else {
        seq![0int, 1int, 2int]
    }
}

/// Where the `index`-th transform landed among the kept ones: the first
/// kept transform with the same text.
pub open spec fn transform_cursor(t: Seq<Seq<char>>, index: int) -> int {
    if index == 0 || t[index] == t[0] {
        0
    } else if index == 1 || t[2] == t[1] {
        1
    } else {
        kept_transforms(t).len() - 1
    }
}

/// The reading an F-key transforms: a conversion's own reading, else the
/// composition's reading as it would settle at the width `w`.
pub open spec fn transform_reading(conversion_reading: Option<Seq<char>>, buf: InputBuffer, w: Width) -> Seq<char> {
    match conversion_reading {
        Some(r) => r,
        None => settled_reading_of(buf@.elements, w),
    }
}

/// Whether `list` holds the fixed transforms of `reading`, repeated texts
/// dropped, as [`transform_list`] builds them.
pub open spec fn holds_transforms(list: ConversionList, reading: Seq<char>) -> bool {
    &&& list.spec_reading() == reading
    &&& list.spec_candidates().len() == kept_transforms(transform_texts(reading)).len()
    &&& forall|j: int|
        0 <= j < list.spec_candidates().len() ==> {
            let k = #[trigger] kept_transforms(transform_texts(reading))[j];
            candidate_is(list.spec_candidates()[j], transform_texts(reading)[k], reading, transform_descriptions()[k])
        }
}

fn candidate(text: String, reading: &str, description: &str) -> (r: Candidate)
    ensures
        candidate_is(r, text@, reading@, description@),
{
    Candidate { text, reading: Some(reading.to_string()), source: None, description: Some(description.to_string()) }
}

/// The fixed-transform conversion of a nonempty reading with the
/// `index`-th transform selected. A reading with no kana produces
/// identical transforms: repeated texts are dropped (keeping the first
/// description) and the requested transform is selected wherever it
/// landed.
pub fn transform_list(reading: &str, index: usize) -> (r: ConversionList)
    requires
        index < 3,
    ensures
        holds_transforms(r, reading@),
        r.spec_cursor() == transform_cursor(transform_texts(reading@), index as int),
{
    let ghost t = transform_texts(reading@);
    let katakana = hiragana_to_katakana(reading);
    let half = katakana_to_half_width(katakana.as_str());
    let hira = reading.to_string();
    let same_kata = katakana == hira;
    let same_half = half == hira || half == katakana;
    let half_is_kata = half == katakana;
    let mut candidates: Vec<Candidate> = Vec::new();
    candidates.push(candidate(hira.clone(), reading, "ひらがな"));
    let mut kata_at: usize = 0;
    if !same_kata {
        kata_at = candidates.len();
        candidates.push(candidate(katakana, reading, "[全]カタカナ"));
    }
    let mut half_at: usize = if half_is_kata { kata_at } else { 0 };
    if !same_half {
        half_at = candidates.len();
        candidates.push(candidate(half, reading, "[半]カタカナ"));
    }
    let cursor = if index == 0 {
        0
    } else if index == 1 {
        kata_at
    } else {
        half_at
    };
    assert(kept_transforms(t).len() == candidates@.len());
    ConversionList::new(hira, candidates, cursor)
}

/// F6/F7/F8: enter (or re-enter) the fixed-transform conversion with the
/// `index`-th transform selected. The reading is the current conversion's
/// (`conversion_reading`) or else the composition's reading as it would
/// settle — the buffer itself is untouched, so Esc returns to an editable
/// composition. A no-op for emoji queries and empty readings.
pub fn fkey_conversion(
    emoji: bool,
    conversion_reading: Option<&str>,
    buf: &InputBuffer,
    romaji: &RomajiConverter,
    index: usize,
) -> (r: FkeyOutcome)
    requires
        index < 3,
    ensures
        ({
            let reading = transform_reading(
                match conversion_reading {
                    Some(s) => Some(s@),
                    None => None,
                },
                *buf,
                romaji.width,
            );
            if emoji || reading.len() == 0 {
                r is Consumed
            } else {
                &&& r matches FkeyOutcome::Convert(list)
                &&& holds_transforms(list, reading)
                &&& list.spec_cursor() == transform_cursor(transform_texts(reading), index as int)
            }
        }),
{
    if emoji {
        return FkeyOutcome::Consumed;
    }
    let reading = match conversion_reading {
        Some(s) => s.to_string(),
        None => buf.settled_reading(romaji),
    };
    if reading.as_str().is_empty() {
        return FkeyOutcome::Consumed;
    }
    FkeyOutcome::Convert(transform_list(reading.as_str(), index))
}

/// Whether `list` holds the three case variants of `raw` at a width, each
/// converting `reading`, as [`fkey_alnum_conversion`] builds them.
pub open spec fn holds_variants(list: ConversionList, raw: Seq<char>, reading: Seq<char>, full: bool) -> bool {
    &&& list.spec_candidates().len() == 3
    &&& forall|j: int|
        0 <= j < 3 ==> #[trigger] candidate_is(
            list.spec_candidates()[j],
            variant_texts(raw, full)[j],
            reading,
            variant_descriptions(full)[j],
        )
}

/// The selection of an alphanumeric transform: when the conversion already
/// shows this width's variant list, a repeated key advances the case cycle;
/// when it shows the other width's list, the case is kept and only the
/// width changes; otherwise the lowercase variant.
pub open spec fn alnum_cursor(shown: Option<ConversionList>, raw: Seq<char>, full: bool) -> int {
    match shown {
        Some(list) => if texts_of(list.spec_candidates()) == variant_texts(raw, full) {
            (list.spec_cursor() + 1) % 3
        } else if texts_of(list.spec_candidates()) == variant_texts(raw, !full) {
            list.spec_cursor()
        } else {
            0
        },
        None => 0,
    }
}

/// Whether `list` shows exactly the texts of `expected`, in order.
fn matches_list(list: &ConversionList, expected: &Vec<(String, &'static str)>) -> (r: bool)
    ensures
        r == (texts_of(list.spec_candidates()) == pair_texts(expected@)),
{
    let candidates = list.candidates();
    if candidates.len() != expected.len() {
        assert(texts_of(list.spec_candidates()).len() != pair_texts(expected@).len());
        return false;
    }
    let mut i: usize = 0;
    while i < candidates.len()
        invariant
            i <= candidates.len() == expected@.len(),
            candidates@ == list.spec_candidates(),
            forall|k: int| 0 <= k < i ==> #[trigger] candidates@[k].text@ == expected@[k].0@,
        decreases candidates.len() - i,
    {
        if candidates[i].text != expected[i].0 {
            assert(texts_of(list.spec_candidates())[i as int] != pair_texts(expected@)[i as int]);
            return false;
        }
        i += 1;
    }
    assert(texts_of(list.spec_candidates()) =~= pair_texts(expected@));
    true
}

/// F9 (full-width) / F10 (half-width): convert the typed keystrokes to
/// alphanumerics, cycling 小文字 → 大文字 → 先頭大文字 on repeated presses;
/// switching between F9 and F10 keeps the case and changes only the width.
/// `shown` is the list the current conversion shows, if any. A no-op for
/// emoji queries, empty readings and compositions with no keystrokes.
pub fn fkey_alnum_conversion(
    emoji: bool,
    conversion_reading: Option<&str>,
    shown: Option<&ConversionList>,
    buf: &InputBuffer,
    romaji: &RomajiConverter,
    full: bool,
) -> (r: FkeyOutcome)
    ensures
        ({
            let reading = transform_reading(
                match conversion_reading {
                    Some(s) => Some(s@),
                    None => None,
                },
                *buf,
                romaji.width,
            );
            let raw = raw_text_of(buf@.elements);
            if emoji || reading.len() == 0 || raw.len() == 0 {
                r is Consumed
            } else {
                &&& r matches FkeyOutcome::Convert(list)
                &&& list.spec_reading() == reading
                &&& holds_variants(list, raw, reading, full)
                &&& list.spec_cursor() == alnum_cursor(
                    match shown {
                        Some(l) => Some(*l),
                        None => None,
                    },
                    raw,
                    full,
                )
            }
        }),
{
    if emoji {
        return FkeyOutcome::Consumed;
    }
    let reading = match conversion_reading {
        Some(s) => s.to_string(),
        None => buf.settled_reading(romaji),
    };
    let raw = buf.raw_text();
    if reading.as_str().is_empty() || raw.as_str().is_empty() {
        return FkeyOutcome::Consumed;
    }
    let variants = alnum_variants(raw.as_str(), full);
    let cursor: usize = match shown {
        Some(list) => {
            let at = list.cursor();
            assert(texts_of(list.spec_candidates()).len() == list.spec_candidates().len());
            if matches_list(list, &variants) {
                (at + 1) % 3
            } else if matches_list(list, &alnum_variants(raw.as_str(), !full)) {
                at
            } else {
                0
            }
        },
        None => 0,
    };
    assert(cursor < 3);
    let mut candidates: Vec<Candidate> = Vec::new();
    let mut i: usize = 0;
    while i < 3
        invariant
            i <= 3,
            variants@.len() == 3,
            candidates@.len() == i,
            forall|j: int|
                0 <= j < i ==> #[trigger] candidate_is(
                    candidates@[j],
                    pair_texts(variants@)[j],
                    reading@,
                    variants@[j].1@,
                ),
        decreases 3 - i,
    {
        let text = variants[i].0.clone();
        let c = candidate(text, reading.as_str(), variants[i].1);
        candidates.push(c);
        i += 1;
    }
    assert forall|j: int| 0 <= j < 3 implies #[trigger] candidate_is(
        candidates@[j],
        variant_texts(raw@, full)[j],
        reading@,
        variant_descriptions(full)[j],
    ) by {
        assert(candidate_is(candidates@[j], pair_texts(variants@)[j], reading@, variants@[j].1@));
    }
    FkeyOutcome::Convert(ConversionList::new(reading, candidates, cursor))
}

/// F6–F8 select the requested transform wherever it landed: the selected
/// candidate's text is the pressed key's transform, every transform is in
/// the list, and no text occurs twice.
pub proof fn lemma_transform_selection(reading: Seq<char>)
    ensures
        ({
            let t = transform_texts(reading);
            let kept = kept_transforms(t);
            &&& forall|i: int|
                0 <= i < 3 ==> 0 <= #[trigger] transform_cursor(t, i) < kept.len() && t[kept[transform_cursor(t, i)]]
                    == t[i]
            &&& forall|a: int, b: int| 0 <= a < b < kept.len() ==> t[#[trigger] kept[a]] != t[#[trigger] kept[b]]
        }),
{
}

/// The texts of a list built from the variants of `raw` at a width.
pub proof fn lemma_variant_list_texts(list: ConversionList, raw: Seq<char>, reading: Seq<char>, full: bool)
    requires
        holds_variants(list, raw, reading, full),
    ensures
        texts_of(list.spec_candidates()) == variant_texts(raw, full),
{
    assert forall|j: int| 0 <= j < 3 implies #[trigger] texts_of(list.spec_candidates())[j] == variant_texts(
        raw,
        full,
    )[j] by {
        assert(candidate_is(list.spec_candidates()[j], variant_texts(raw, full)[j], reading, variant_descriptions(full)[j]));
    }
    assert(texts_of(list.spec_candidates()) =~= variant_texts(raw, full));
}

/// Pressing F9/F10 again on the list it produced advances the case cycle
/// 小文字 → 大文字 → 先頭大文字 → 小文字.
pub proof fn lemma_alnum_repeat_cycles(list: ConversionList, raw: Seq<char>, reading: Seq<char>, full: bool)
    requires
        holds_variants(list, raw, reading, full),
    ensures
        alnum_cursor(Some(list), raw, full) == (list.spec_cursor() + 1) % 3,
{
    lemma_variant_list_texts(list, raw, reading, full);
}

/// Switching between F9 and F10 on a list the other key produced keeps the
/// selected case and changes only the width — when the two widths give
/// different texts (for keystrokes with no ASCII they coincide, and the
/// press counts as a repeat).
pub proof fn lemma_alnum_switch_keeps_case(
    list: ConversionList,
    raw: Seq<char>,
    reading: Seq<char>,
    full: bool,
    shown_full: bool,
)
    requires
        shown_full != full,
        holds_variants(list, raw, reading, shown_full),
        variant_texts(raw, full) != variant_texts(raw, shown_full),
    ensures
        alnum_cursor(Some(list), raw, full) == list.spec_cursor(),
{
    lemma_variant_list_texts(list, raw, reading, shown_full);
}

/// A repeated or different F6–F8 press just moves the selection: the
/// lists built for one reading hold the same candidates, whichever key.
pub proof fn lemma_transform_keys_share_the_list(a: ConversionList, b: ConversionList, reading: Seq<char>)
    requires
        holds_transforms(a, reading),
        holds_transforms(b, reading),
    ensures
        texts_of(a.spec_candidates()) == texts_of(b.spec_candidates()),
{
    let t = transform_texts(reading);
    let kept = kept_transforms(t);
    assert forall|j: int| 0 <= j < kept.len() implies #[trigger] texts_of(a.spec_candidates())[j] == texts_of(
        b.spec_candidates(),
    )[j] by {
        let k = kept[j];
        assert(candidate_is(a.spec_candidates()[j], t[k], reading, transform_descriptions()[k]));
        assert(candidate_is(b.spec_candidates()[j], t[k], reading, transform_descriptions()[k]));
    }
    assert(texts_of(a.spec_candidates()) =~= texts_of(b.spec_candidates()));
}

/// A fresh F9/F10 press starts the case cycle at lowercase: when no
/// conversion is shown, or the shown one is not a variant list of the typed
/// keys at either width (a kana or kanji conversion, an F6–F8 transform),
/// the list built selects the lowercase keystrokes at the key's width.
pub proof fn lemma_alnum_fresh_press_selects_lowercase(
    shown: Option<ConversionList>,
    list: ConversionList,
    raw: Seq<char>,
    reading: Seq<char>,
    full: bool,
)
    requires
        match shown {
            Some(l) => texts_of(l.spec_candidates()) != variant_texts(raw, full) && texts_of(l.spec_candidates())
                != variant_texts(raw, !full),
            None => true,
        },
        holds_variants(list, raw, reading, full),
        list.spec_cursor() == alnum_cursor(shown, raw, full),
    ensures
        list.spec_cursor() == 0,
        list.spec_candidates()[list.spec_cursor()].text@ == (if full {
            full_seq(lowercase(raw))
        } else {
            lowercase(raw)
        }),
{
    assert(candidate_is(list.spec_candidates()[0], variant_texts(raw, full)[0], reading, variant_descriptions(full)[0]));
}

/// With a conversion shown, the F-key transforms start from that
/// conversion's own reading (a range conversion's head, say), whatever the
/// composition holds.
pub proof fn lemma_transforms_take_the_conversion_reading(r: Seq<char>, buf: InputBuffer, w: Width)
    ensures
        transform_reading(Some(r), buf, w) == r,
{
}

/// Without a conversion shown, the F-key transforms start from the
/// composition's reading as settling would show it.
pub proof fn lemma_transforms_take_the_settled_reading(buf: InputBuffer, w: Width)
    ensures
        transform_reading(None, buf, w) == settled_reading_of(buf@.elements, w),
{
}

/// The F9/F10 list cycles the case in a fixed order: the keystrokes in
/// lowercase, in UPPERCASE, then with the first letter capitalized and the
/// rest lowercase, each at the key's width (F9 full-width, F10 as typed).
pub proof fn lemma_alnum_variants_in_case_order(list: ConversionList, raw: Seq<char>, reading: Seq<char>, full: bool)
    requires
        holds_variants(list, raw, reading, full),
        raw.len() > 0,
    ensures
        ({
            let at_width = |t: Seq<char>| if full {
                full_seq(t)
            } else {
                t
            };
            &&& list.spec_candidates().len() == 3
            &&& list.spec_candidates()[0].text@ == at_width(lowercase(raw))
            &&& list.spec_candidates()[1].text@ == at_width(uppercase(raw))
            &&& lowercase(raw).len() > 0 ==> list.spec_candidates()[2].text@ == at_width(
                char_uppercase(lowercase(raw)[0]) + lowercase(raw).skip(1),
            )
        }),
{
    assert(candidate_is(list.spec_candidates()[0], variant_texts(raw, full)[0], reading, variant_descriptions(full)[0]));
    assert(candidate_is(list.spec_candidates()[1], variant_texts(raw, full)[1], reading, variant_descriptions(full)[1]));
    assert(candidate_is(list.spec_candidates()[2], variant_texts(raw, full)[2], reading, variant_descriptions(full)[2]));
    if lowercase(raw).len() > 0 {
        assert(lowercase(raw).drop_first() =~= lowercase(raw).skip(1));
    }
}

} // verus!
