//! Kana classification and script conversion.
use vstd::prelude::*;
use crate::half_width::{half_width_char, half_width_of};
use crate::text::{char_from_u32, chars_of, string_of};

verus! {

/// Hiragana that have a katakana counterpart 0x60 code points above:
/// ぁ..ゖ and the iteration marks ゝゞ.
pub open spec fn is_shiftable_hiragana(c: char) -> bool {
    ('\u{3041}' <= c && c <= '\u{3096}') || c == '\u{309D}' || c == '\u{309E}'
}

/// Katakana that have a hiragana counterpart 0x60 code points below:
/// ァ..ヶ and the iteration marks ヽヾ.
pub open spec fn is_shiftable_katakana(c: char) -> bool {
    ('\u{30A1}' <= c && c <= '\u{30F6}') || c == '\u{30FD}' || c == '\u{30FE}'
}

/// Katakana form of a character: hiragana move to katakana, all else kept.
pub open spec fn katakana_of(c: char) -> char {
    if is_shiftable_hiragana(c) {
        ((c as u32) + 0x60) as char
    } else {
        c
    }
}

/// Hiragana form of a character: katakana move to hiragana, all else kept.
pub open spec fn hiragana_of(c: char) -> char {
    if is_shiftable_katakana(c) {
        ((c as u32) - 0x60) as char
    } else {
        c
    }
}

pub fn to_katakana_char(c: char) -> (r: char)
    ensures
        r == katakana_of(c),
{
    if ('\u{3041}' <= c && c <= '\u{3096}') || c == '\u{309D}' || c == '\u{309E}' {
        match char_from_u32((c as u32) + 0x60) {
            Some(k) => k,
            None => c,
        }
    } else {
        c
    }
}

pub fn to_hiragana_char(c: char) -> (r: char)
    ensures
        r == hiragana_of(c),
{
    if ('\u{30A1}' <= c && c <= '\u{30F6}') || c == '\u{30FD}' || c == '\u{30FE}' {
        match char_from_u32((c as u32) - 0x60) {
            Some(h) => h,
            None => c,
        }
    } else {
        c
    }
}

/// Hiragana, full-width katakana, the prolonged sound mark, or an
/// iteration mark.
pub open spec fn is_kana(c: char) -> bool {
    ('\u{3041}' <= c && c <= '\u{3096}') || ('\u{30A1}' <= c && c <= '\u{30FA}') || c == '\u{30FC}'
        || c == 'ゝ' || c == 'ゞ' || c == 'ヽ' || c == 'ヾ'
}

pub fn is_kana_char(c: char) -> (r: bool)
    ensures
        r == is_kana(c),
{
    ('\u{3041}' <= c && c <= '\u{3096}') || ('\u{30A1}' <= c && c <= '\u{30FA}') || c == '\u{30FC}'
        || c == 'ゝ' || c == 'ゞ' || c == 'ヽ' || c == 'ヾ'
}

/// Katakana form of every character of `s`.
pub open spec fn kata_seq(s: Seq<char>) -> Seq<char> {
    s.map_values(|c: char| katakana_of(c))
}

/// Hiragana form of every character of `s`.
pub open spec fn hira_seq(s: Seq<char>) -> Seq<char> {
    s.map_values(|c: char| hiragana_of(c))
}

/// Katakana form of every character.
pub fn katakana_chars(s: &Vec<char>) -> (r: Vec<char>)
    ensures
        r@ == kata_seq(s@),
{
    let mut out: Vec<char> = Vec::new();
    let mut i: usize = 0;
    while i < s.len()
        invariant
            i <= s.len(),
            out@ == kata_seq(s@.take(i as int)),
        decreases s.len() - i,
    {
        out.push(to_katakana_char(s[i]));
        i += 1;
        assert(out@ =~= kata_seq(s@.take(i as int)));
    }
    assert(s@.take(s.len() as int) =~= s@);
    out
}

/// Hiragana form of every character.
pub fn hiragana_chars(s: &Vec<char>) -> (r: Vec<char>)
    ensures
        r@ == hira_seq(s@),
{
    let mut out: Vec<char> = Vec::new();
    let mut i: usize = 0;
    while i < s.len()
        invariant
            i <= s.len(),
            out@ == hira_seq(s@.take(i as int)),
        decreases s.len() - i,
    {
        out.push(to_hiragana_char(s[i]));
        i += 1;
        assert(out@ =~= hira_seq(s@.take(i as int)));
    }
    assert(s@.take(s.len() as int) =~= s@);
    out
}

/// Hiragana in `s` converted to katakana.
pub fn hiragana_to_katakana(s: &str) -> (r: String)
    ensures
        r@ == kata_seq(s@),
{
    let cs = chars_of(s);
    string_of(&katakana_chars(&cs))
}

/// Katakana in `s` converted to hiragana.
pub fn katakana_to_hiragana(s: &str) -> (r: String)
    ensures
        r@ == hira_seq(s@),
{
    let cs = chars_of(s);
    string_of(&hiragana_chars(&cs))
}

/// The characters that `c` becomes at half width: its half-width form
/// (with the sound mark of a voiced kana), or `c` itself when it has none.
pub open spec fn half_chars(c: char) -> Seq<char> {
    match half_width_of(c) {
        None => seq![c],
        Some((a, None)) => seq![a],
        Some((a, Some(b))) => seq![a, b],
    }
}

/// Half-width form of every character of `s`, in order.
pub open spec fn half_seq(s: Seq<char>) -> Seq<char>
    decreases s.len(),
{
    if s.len() == 0 {
        Seq::empty()
    } else {
        half_seq(s.drop_last()) + half_chars(s.last())
    }
}

/// Full-width katakana (and Japanese punctuation) converted to half width;
/// a voiced kana becomes its base plus the half-width sound mark (ガ → ｶﾞ).
/// Characters with no half-width form are kept.
pub fn katakana_to_half_width(s: &str) -> (r: String)
    ensures
        r@ == half_seq(s@),
{
    let cs = chars_of(s);
    let mut out: Vec<char> = Vec::new();
    let mut i: usize = 0;
    while i < cs.len()
        invariant
            i <= cs.len(),
            cs@ == s@,
            out@ == half_seq(cs@.take(i as int)),
        decreases cs.len() - i,
    {
        let c = cs[i];
        match half_width_char(c) {
            None => out.push(c),
            Some((a, None)) => out.push(a),
            Some((a, Some(b))) => {
                out.push(a);
                out.push(b);
            },
        }
        assert(cs@.take(i + 1).drop_last() =~= cs@.take(i as int));
        i += 1;
        assert(out@ =~= half_seq(cs@.take(i as int)));
    }
    assert(cs@.take(cs.len() as int) =~= cs@);
    string_of(&out)
}

} // verus!
