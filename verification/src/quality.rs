//! Degenerate-candidate detection for model output, and the echo filter
//! for the conversion context.
//!
//! Small models occasionally produce output that is not a conversion of the
//! reading: truncated prose, runaway repetition, kana echoes of the input,
//! or ruby-style annotations. [`degenerate_reason`] classifies a candidate
//! against its reading. The thresholds are deliberately conservative: a
//! filter that sometimes lets a bad candidate through is annoying, one that
//! eats a correct conversion is a bug.
use vstd::prelude::*;
use crate::kana::{hira_seq, hiragana_chars, is_kana, is_kana_char};
use crate::text::{chars_of, is_white_space, string_of, whitespace};

verus! {

/// A candidate is too long when `candidate * 2 > reading * 3 + 4`, i.e.
/// longer than `reading * 1.5 + 2` characters: kanji output is almost
/// always shorter than its kana reading, so this only triggers on runaways.
pub open spec fn too_long(cand_len: int, read_len: int) -> bool {
    cand_len * 2 > read_len * 3 + 4
}

/// A candidate is too short when four times its length is still below the
/// reading's length — only for readings of at least eight characters, since
/// short readings legitimately compress hard (こころざし → 志).
pub open spec fn too_short(cand_len: int, read_len: int) -> bool {
    read_len >= 8 && cand_len * 4 < read_len
}

/// Minimum repeated-unit length for the repetition check: unit 1 repeats
/// (会社社長) are everyday Japanese.
pub open spec fn repeat_unit_min() -> int {
    2
}

/// Why a candidate was classified as degenerate.
#[derive(Debug, Clone, Copy, PartialEq, Eq)]
pub enum DegenerateReason {
    /// Empty (or whitespace-only) output.
    Empty,
    /// Extremely short relative to the reading: most of it was dropped.
    TooShort,
    /// Extremely long relative to the reading: runaway generation.
    TooLong,
    /// An adjacent repeated run the reading does not contain.
    Repetition,
    /// A kana-only strict prefix of the reading: the input echoed back cut
    /// short, not a conversion.
    PrefixEcho,
    /// A parenthesized kana-only run, i.e. ruby-style output like 明日(あした).
    RubyEcho,
}

/// Some unit of length at least `min_unit` occurs twice in a row in `s`.
pub open spec fn has_repeat(s: Seq<char>, min_unit: int) -> bool {
    exists|unit: int, i: int|
        #![trigger s.subrange(i, i + unit), s.subrange(i + unit, i + 2 * unit)]
        min_unit <= unit && 0 <= i && i + 2 * unit <= s.len() && s.subrange(i, i + unit) == s.subrange(
            i + unit,
            i + 2 * unit,
        )
}

/// Every character of `s` is kana.
pub open spec fn all_kana(s: Seq<char>) -> bool {
    forall|k: int| 0 <= k < s.len() ==> is_kana(#[trigger] s[k])
}

/// Kana-only and a strict prefix of the reading, compared in hiragana.
pub open spec fn prefix_echo(candidate: Seq<char>, reading: Seq<char>) -> bool {
    &&& all_kana(candidate)
    &&& candidate.len() < reading.len()
    &&& hira_seq(reading).take(candidate.len() as int) == hira_seq(candidate)
}

pub open spec fn is_open_paren(c: char) -> bool {
    c == '(' || c == '（'
}

pub open spec fn close_paren_of(c: char) -> char {
    if c == '(' {
        ')'
    } else {
        '）'
    }
}

/// Index of the first `c` in `s` at or after `k`, or the length.
pub open spec fn index_from(s: Seq<char>, k: int, c: char) -> int
    decreases s.len() - k,
{
    if k >= s.len() {
        s.len() as int
    } else if s[k] == c {
        k
    } else {
        index_from(s, k + 1, c)
    }
}

pub proof fn lemma_index_from(s: Seq<char>, k: int, c: char)
    requires
        0 <= k <= s.len(),
    ensures
        k <= index_from(s, k, c) <= s.len(),
        index_from(s, k, c) < s.len() ==> s[index_from(s, k, c)] == c,
        forall|j: int| k <= j < index_from(s, k, c) ==> #[trigger] s[j] != c,
    decreases s.len() - k,
{
    if k < s.len() && s[k] != c {
        lemma_index_from(s, k + 1, c);
    }
}

/// Scanning `s` from `i`: an opening parenthesis whose matching close
/// (same width) follows encloses a non-empty kana-only run; a group that
/// does not is skipped whole.
pub open spec fn ruby_from(s: Seq<char>, i: int) -> bool
    decreases s.len() - i,
{
    if i < 0 || i >= s.len() {
        false
    } else if is_open_paren(s[i]) {
        let f = index_from(s, i + 1, close_paren_of(s[i]));
        if f < s.len() {
            let inner = s.subrange(i + 1, f);
            if inner.len() > 0 && all_kana(inner) {
                true
            } else {
                proof {
                    lemma_index_from(s, i + 1, close_paren_of(s[i]));
                }
                ruby_from(s, f + 1)
            }
        } else {
            ruby_from(s, i + 1)
        }
    } else {
        ruby_from(s, i + 1)
    }
}

/// Sentence delimiters: 。．！？!? and the newline.
pub open spec fn is_sentence_end(c: char) -> bool {
    c == '。' || c == '．' || c == '！' || c == '？' || c == '!' || c == '?' || c == '\n'
}

/// Completed segments and the current one after the first `n` characters.
pub open spec fn split_state(s: Seq<char>, n: int) -> (Seq<Seq<char>>, Seq<char>)
    decreases n,
{
    if n <= 0 {
        (Seq::empty(), Seq::empty())
    } else {
        let st = split_state(s, n - 1);
        let cur = st.1.push(s[n - 1]);
        if is_sentence_end(s[n - 1]) {
            (st.0.push(cur), Seq::empty())
        } else {
            (st.0, cur)
        }
    }
}

/// Segments of `s`, each keeping its trailing delimiter; text after the
/// last delimiter forms the final segment.
pub open spec fn sentences(s: Seq<char>) -> Seq<Seq<char>> {
    let st = split_state(s, s.len() as int);
    if st.1.len() > 0 {
        st.0.push(st.1)
    } else {
        st.0
    }
}

/// Concatenation of segments.
pub open spec fn concat_all(parts: Seq<Seq<char>>) -> Seq<char>
    decreases parts.len(),
{
    if parts.len() == 0 {
        Seq::empty()
    } else {
        concat_all(parts.drop_last()) + parts.last()
    }
}

/// CJK unified ideographs (and extension A) and the repetition mark 々.
pub open spec fn is_kanji(c: char) -> bool {
    ('\u{4E00}' <= c && c <= '\u{9FFF}') || ('\u{3400}' <= c && c <= '\u{4DBF}') || c == '々'
}

/// The kana characters of `s`, in order.
pub open spec fn kana_only(s: Seq<char>) -> Seq<char>
    decreases s.len(),
{
    if s.len() == 0 {
        Seq::empty()
    } else if is_kana(s.last()) {
        kana_only(s.drop_last()).push(s.last())
    } else {
        kana_only(s.drop_last())
    }
}

/// `needle` occurs in `hay` as a contiguous run.
pub open spec fn contains_run(hay: Seq<char>, needle: Seq<char>) -> bool {
    exists|i: int| 0 <= i && i + needle.len() <= hay.len() && #[trigger] hay.subrange(i, i + needle.len()) == needle
}

/// An echo sentence is kanji-free and contains the reading's head among its
/// kana, compared in hiragana with everything else ignored.
pub open spec fn echo_sentence(sentence: Seq<char>, echo_head: Seq<char>) -> bool {
    &&& forall|k: int| 0 <= k < sentence.len() ==> !is_kanji(#[trigger] sentence[k])
    &&& contains_run(kana_only(hira_seq(sentence)), echo_head)
}

/// The sentences that are not echoes, concatenated.
pub open spec fn kept_text(sents: Seq<Seq<char>>, echo_head: Seq<char>) -> Seq<char>
    decreases sents.len(),
{
    if sents.len() == 0 {
        Seq::empty()
    } else if echo_sentence(sents.last(), echo_head) {
        kept_text(sents.drop_last(), echo_head)
    } else {
        kept_text(sents.drop_last(), echo_head) + sents.last()
    }
}

/// The echo filter applies only when the reading has at least five kana
/// (a short reading matches sentences by coincidence), and a sentence must
/// contain the reading's first five kana to count as an echo.
pub open spec fn echo_free_spec(context: Seq<char>, reading: Seq<char>) -> Seq<char> {
    let reading_kana = kana_only(hira_seq(reading));
    if context.len() == 0 {
        Seq::empty()
    } else if reading_kana.len() < 5 {
        context
    } else {
        kept_text(sentences(context), reading_kana.take(5))
    }
}

pub open spec fn seqs_view(v: Seq<Vec<char>>) -> Seq<Seq<char>>
    decreases v.len(),
{
    if v.len() == 0 {
        Seq::empty()
    } else {
        seqs_view(v.drop_last()).push(v.last()@)
    }
}

proof fn lemma_seqs_view_push(v: Seq<Vec<char>>, x: Vec<char>)
    ensures
        seqs_view(v.push(x)) == seqs_view(v).push(x@),
{
    assert(v.push(x).drop_last() =~= v);
}

proof fn lemma_seqs_view_len(v: Seq<Vec<char>>)
    ensures
        seqs_view(v).len() == v.len(),
        forall|i: int| 0 <= i < v.len() ==> #[trigger] seqs_view(v)[i] == v[i]@,
    decreases v.len(),
{
    if v.len() > 0 {
        lemma_seqs_view_len(v.drop_last());
    }
}

proof fn lemma_split_state_lossless(s: Seq<char>, n: int)
    requires
        0 <= n <= s.len(),
    ensures
        concat_all(split_state(s, n).0) + split_state(s, n).1 == s.take(n),
    decreases n,
{
    if n > 0 {
        lemma_split_state_lossless(s, n - 1);
        let st = split_state(s, n - 1);
        let cur = st.1.push(s[n - 1]);
        assert(s.take(n) =~= s.take(n - 1).push(s[n - 1]));
        if is_sentence_end(s[n - 1]) {
            assert(st.0.push(cur).drop_last() =~= st.0);
            assert(concat_all(st.0.push(cur)) + Seq::<char>::empty() =~= s.take(n));
        } else {
            assert(concat_all(st.0) + cur =~= s.take(n));
        }
    }
}

/// Splitting into sentences loses nothing: the segments concatenate back
/// to the text.
pub proof fn lemma_sentences_concat(s: Seq<char>)
    ensures
        concat_all(sentences(s)) == s,
{
    lemma_split_state_lossless(s, s.len() as int);
    let st = split_state(s, s.len() as int);
    assert(s.take(s.len() as int) =~= s);
    if st.1.len() > 0 {
        assert(st.0.push(st.1).drop_last() =~= st.0);
    } else {
        assert(concat_all(st.0) + st.1 =~= concat_all(st.0));
    }
}

/// Classification of `candidate` against `reading`; `None` means the
/// candidate passes every check. The echo shapes are checked before the
/// length ratios so that a candidate that is both reports the specific
/// reason.
pub open spec fn degenerate_spec(candidate: Seq<char>, reading: Seq<char>) -> Option<
    DegenerateReason,
> {
    if forall|k: int| 0 <= k < candidate.len() ==> is_white_space(#[trigger] candidate[k]) {
        Some(DegenerateReason::Empty)
    } else if ruby_from(candidate, 0) {
        Some(DegenerateReason::RubyEcho)
    } else if prefix_echo(candidate, reading) {
        Some(DegenerateReason::PrefixEcho)
    } else if too_long(candidate.len() as int, reading.len() as int) {
        Some(DegenerateReason::TooLong)
    } else if too_short(candidate.len() as int, reading.len() as int) {
        Some(DegenerateReason::TooShort)
    } else if !has_repeat(reading, repeat_unit_min()) && has_repeat(candidate, repeat_unit_min()) {
        Some(DegenerateReason::Repetition)
    } else {
        None
    }
}

/// True when some unit of length >= `min_unit` occurs twice in a row.
pub fn has_adjacent_repeat(chars: &Vec<char>, min_unit: usize) -> (r: bool)
    ensures
        r == has_repeat(chars@, min_unit as int),
{
    let ghost s = chars@;
    let n = chars.len();
    let mut unit = min_unit;
    while unit <= n / 2
        invariant
            n == s.len(),
            s == chars@,
            min_unit <= unit,
            forall|u: int, j: int|
                #![trigger s.subrange(j, j + u), s.subrange(j + u, j + 2 * u)]
                min_unit <= u < unit && 0 <= j && j + 2 * u <= n ==> s.subrange(j, j + u)
                    != s.subrange(j + u, j + 2 * u),
        decreases n + 1 - unit,
    {
        let mut i: usize = 0;
        while i <= n - 2 * unit
            invariant
                n == s.len(),
                s == chars@,
                min_unit <= unit <= n / 2,
                forall|u: int, j: int|
                    #![trigger s.subrange(j, j + u), s.subrange(j + u, j + 2 * u)]
                    min_unit <= u < unit && 0 <= j && j + 2 * u <= n ==> s.subrange(j, j + u)
                        != s.subrange(j + u, j + 2 * u),
                forall|j: int|
                    #![trigger s.subrange(j, j + unit)]
                    0 <= j < i && j + 2 * unit <= n ==> s.subrange(j, j + unit) != s.subrange(
                        j + unit,
                        j + 2 * unit,
                    ),
            decreases n + 1 - i,
        {
            let mut k: usize = 0;
            while k < unit && chars[i + k] == chars[i + unit + k]
                invariant
                    k <= unit <= n / 2,
                    i + 2 * unit <= n,
                    n == s.len(),
                    s == chars@,
                    forall|m: int| 0 <= m < k ==> s[i + m] == #[trigger] s[i + unit + m],
                decreases unit - k,
            {
                k += 1;
            }
            if k == unit {
                assert forall|m: int| 0 <= m < unit implies #[trigger] s.subrange(i as int, i + unit)[m]
                    == s.subrange(i + unit, i + 2 * unit)[m] by {
                    assert(s[i + m] == s[i + unit + m]);
                }
                assert(s.subrange(i as int, i + unit) =~= s.subrange(i + unit, i + 2 * unit));
                return true;
            }
            assert(s.subrange(i as int, i + unit)[k as int] != s.subrange(i + unit, i + 2 * unit)[k as int]);
            i += 1;
        }
        unit += 1;
    }
    false
}

/// True when the candidate is kana-only and a strict prefix of the
/// reading, compared in hiragana.
pub fn is_prefix_echo(candidate: &Vec<char>, reading: &Vec<char>) -> (r: bool)
    ensures
        r == prefix_echo(candidate@, reading@),
{
    let mut k: usize = 0;
    while k < candidate.len()
        invariant
            k <= candidate.len(),
            forall|j: int| 0 <= j < k ==> is_kana(#[trigger] candidate@[j]),
        decreases candidate.len() - k,
    {
        if !is_kana_char(candidate[k]) {
            return false;
        }
        k += 1;
    }
    let normalized = hiragana_chars(candidate);
    let reading_norm = hiragana_chars(reading);
    assert(normalized@.len() == candidate@.len());
    assert(reading_norm@.len() == reading@.len());
    if normalized.len() >= reading_norm.len() {
        return false;
    }
    let mut j: usize = 0;
    while j < normalized.len()
        invariant
            j <= normalized.len() < reading_norm.len(),
            normalized@ == hira_seq(candidate@),
            reading_norm@ == hira_seq(reading@),
            normalized@.len() == candidate@.len(),
            forall|m: int| 0 <= m < j ==> #[trigger] reading_norm@[m] == normalized@[m],
        decreases normalized.len() - j,
    {
        if reading_norm[j] != normalized[j] {
            assert(reading_norm@.take(normalized.len() as int)[j as int] != normalized@[j as int]);
            return false;
        }
        j += 1;
    }
    assert(reading_norm@.take(normalized.len() as int) =~= normalized@);
    true
}

/// True when the text contains a parenthesized run that is entirely kana,
/// e.g. 明日(あした) or 明日（あした） — ruby-style output, not a surface.
pub fn has_kana_only_parenthetical(chars: &Vec<char>) -> (r: bool)
    ensures
        r == ruby_from(chars@, 0),
{
    let ghost s = chars@;
    let n = chars.len();
    let mut i: usize = 0;
    while i < n
        invariant
            i <= n == s.len(),
            s == chars@,
            ruby_from(s, i as int) == ruby_from(s, 0),
        decreases n - i,
    {
        let c = chars[i];
        if c == '(' || c == '（' {
            let close = if c == '(' {
                ')'
            } else {
                '）'
            };
            proof {
                lemma_index_from(s, i + 1, close);
            }
            let mut f = i + 1;
            while f < n && chars[f] != close
                invariant
                    i + 1 <= f <= n == s.len(),
                    s == chars@,
                    index_from(s, i + 1, close) == index_from(s, f as int, close),
                decreases n - f,
            {
                f += 1;
            }
            if f < n {
                let mut k = i + 1;
                while k < f && is_kana_char(chars[k])
                    invariant
                        i + 1 <= k <= f < n == s.len(),
                        s == chars@,
                        forall|m: int| i + 1 <= m < k ==> is_kana(#[trigger] s[m]),
                    decreases f - k,
                {
                    k += 1;
                }
                let ghost inner = s.subrange(i + 1, f as int);
                if f > i + 1 && k == f {
                    assert(all_kana(inner));
                    return true;
                }
                if f > i + 1 {
                    assert(!is_kana(inner[k - (i + 1)]));
                }
                i = f + 1;
                continue;
            }
        }
        i += 1;
    }
    false
}

/// Classifies `candidate` against `reading` (hiragana). `None` means the
/// candidate passes every check.
pub fn degenerate_reason(candidate: &str, reading: &str) -> (r: Option<DegenerateReason>)
    ensures
        r == degenerate_spec(candidate@, reading@),
{
    let cand_chars = chars_of(candidate);
    let read_chars = chars_of(reading);
    let mut k: usize = 0;
    while k < cand_chars.len() && whitespace(cand_chars[k])
        invariant
            k <= cand_chars.len(),
            forall|j: int| 0 <= j < k ==> is_white_space(#[trigger] cand_chars@[j]),
        decreases cand_chars.len() - k,
    {
        k += 1;
    }
    if k == cand_chars.len() {
        return Some(DegenerateReason::Empty);
    }
    assert(!is_white_space(candidate@[k as int]));
    if has_kana_only_parenthetical(&cand_chars) {
        return Some(DegenerateReason::RubyEcho);
    }
    if is_prefix_echo(&cand_chars, &read_chars) {
        return Some(DegenerateReason::PrefixEcho);
    }
    let c = cand_chars.len() as u128;
    let rl = read_chars.len() as u128;
    if c * 2 > rl * 3 + 4 {
        return Some(DegenerateReason::TooLong);
    }
    if rl >= 8 && c * 4 < rl {
        return Some(DegenerateReason::TooShort);
    }
    if !has_adjacent_repeat(&read_chars, 2) && has_adjacent_repeat(&cand_chars, 2) {
        return Some(DegenerateReason::Repetition);
    }
    None
}

/// Splits into segments, each keeping its trailing delimiter (。．！？!?
/// or newline). Text after the last delimiter forms the final segment.
pub fn split_sentences(context: &Vec<char>) -> (r: Vec<Vec<char>>)
    ensures
        seqs_view(r@) == sentences(context@),
{
    let mut out: Vec<Vec<char>> = Vec::new();
    let mut cur: Vec<char> = Vec::new();
    let mut i: usize = 0;
    while i < context.len()
        invariant
            i <= context.len(),
            (seqs_view(out@), cur@) == split_state(context@, i as int),
        decreases context.len() - i,
    {
        let c = context[i];
        cur.push(c);
        if c == '。' || c == '．' || c == '！' || c == '？' || c == '!' || c == '?' || c == '\n' {
            let done = cur;
            proof {
                lemma_seqs_view_push(out@, done);
            }
            out.push(done);
            cur = Vec::new();
            assert(cur@ =~= Seq::<char>::empty());
        }
        i += 1;
    }
    if cur.len() > 0 {
        proof {
            lemma_seqs_view_push(out@, cur);
        }
        out.push(cur);
    }
    out
}

/// The kana characters of `s`, in order.
fn keep_kana(s: &Vec<char>) -> (r: Vec<char>)
    ensures
        r@ == kana_only(s@),
{
    let mut out: Vec<char> = Vec::new();
    let mut i: usize = 0;
    while i < s.len()
        invariant
            i <= s.len(),
            out@ == kana_only(s@.take(i as int)),
        decreases s.len() - i,
    {
        if is_kana_char(s[i]) {
            out.push(s[i]);
        }
        i += 1;
        assert(s@.take(i as int).drop_last() =~= s@.take(i - 1));
    }
    assert(s@.take(i as int) =~= s@);
    out
}

/// Whether `needle` occurs in `hay` as a contiguous run.
fn contains_chars(hay: &Vec<char>, needle: &Vec<char>) -> (r: bool)
    ensures
        r == contains_run(hay@, needle@),
{
    if needle.len() > hay.len() {
        return false;
    }
    let last = hay.len() - needle.len();
    let mut i: usize = 0;
    while i <= last
        invariant
            last == hay.len() - needle.len(),
            needle.len() <= hay.len(),
            forall|j: int| 0 <= j < i && j + needle@.len() <= hay@.len() ==> #[trigger] hay@.subrange(j, j + needle@.len()) != needle@,
        decreases last + 1 - i,
    {
        let mut k: usize = 0;
        while k < needle.len() && hay[i + k] == needle[k]
            invariant
                k <= needle.len(),
                i <= last,
                last == hay.len() - needle.len(),
                forall|m: int| 0 <= m < k ==> #[trigger] hay@[i + m] == needle@[m],
            decreases needle.len() - k,
        {
            k += 1;
        }
        if k == needle.len() {
            assert forall|m: int| 0 <= m < needle@.len() implies #[trigger] hay@.subrange(
                i as int,
                i + needle@.len(),
            )[m] == needle@[m] by {
                assert(hay@[i + m] == needle@[m]);
            }
            assert(hay@.subrange(i as int, i + needle@.len()) =~= needle@);
            return true;
        }
        assert(hay@.subrange(i as int, i + needle@.len())[k as int] != needle@[k as int]);
        i += 1;
    }
    false
}

/// An echo sentence is kanji-free and contains the reading's head among
/// its kana (hiragana-normalized; punctuation, ASCII and digits ignored).
pub fn is_echo_sentence(sentence: &Vec<char>, echo_head: &Vec<char>) -> (r: bool)
    ensures
        r == echo_sentence(sentence@, echo_head@),
{
    let mut k: usize = 0;
    while k < sentence.len()
        invariant
            k <= sentence.len(),
            forall|j: int| 0 <= j < k ==> !is_kanji(#[trigger] sentence@[j]),
        decreases sentence.len() - k,
    {
        let c = sentence[k];
        if ('\u{4E00}' <= c && c <= '\u{9FFF}') || ('\u{3400}' <= c && c <= '\u{4DBF}') || c == '々' {
            return false;
        }
        k += 1;
    }
    let kana = keep_kana(&hiragana_chars(sentence));
    contains_chars(&kana, echo_head)
}

/// Removes from `context` every sentence that is an unconverted
/// (kanji-free) echo of the reading's head, leaving every other sentence
/// verbatim. The caller's context is untouched: this filters what the
/// model sees, not what is remembered.
pub fn echo_free_context(context: &str, reading: &str) -> (r: String)
    ensures
        r@ == echo_free_spec(context@, reading@),
{
    let ctx = chars_of(context);
    if ctx.len() == 0 {
        return String::new();
    }
    let reading_kana = keep_kana(&hiragana_chars(&chars_of(reading)));
    if reading_kana.len() < 5 {
        return string_of(&ctx);
    }
    let mut echo_head: Vec<char> = Vec::new();
    let mut k: usize = 0;
    while k < 5
        invariant
            k <= 5 <= reading_kana.len(),
            echo_head@ == reading_kana@.take(k as int),
        decreases 5 - k,
    {
        echo_head.push(reading_kana[k]);
        k += 1;
        assert(echo_head@ =~= reading_kana@.take(k as int));
    }
    let parts = split_sentences(&ctx);
    proof {
        lemma_seqs_view_len(parts@);
    }
    let mut out: Vec<char> = Vec::new();
    let mut i: usize = 0;
    while i < parts.len()
        invariant
            i <= parts.len(),
            seqs_view(parts@) == sentences(ctx@),
            seqs_view(parts@).len() == parts@.len(),
            forall|j: int| 0 <= j < parts@.len() ==> #[trigger] seqs_view(parts@)[j] == parts@[j]@,
            out@ == kept_text(seqs_view(parts@).take(i as int), echo_head@),
        decreases parts.len() - i,
    {
        let ghost prev = out@;
        if !is_echo_sentence(&parts[i], &echo_head) {
            let part = &parts[i];
            let mut m: usize = 0;
            while m < part.len()
                invariant
                    m <= part.len(),
                    out@ == prev + part@.take(m as int),
                decreases part.len() - m,
            {
                out.push(part[m]);
                m += 1;
                assert(out@ =~= prev + part@.take(m as int));
            }
            assert(part@.take(m as int) =~= part@);
        }
        i += 1;
        assert(seqs_view(parts@).take(i as int).drop_last() =~= seqs_view(parts@).take(i - 1));
    }
    assert(seqs_view(parts@).take(i as int) =~= seqs_view(parts@));
    string_of(&out)
}

/// A kana word converting to itself is a real candidate: the reading
/// passes every check against itself, unless it is blank or carries a
/// parenthesized kana-only run.
pub proof fn lemma_reading_passes(reading: Seq<char>)
    requires
        exists|k: int| 0 <= k < reading.len() && !is_white_space(#[trigger] reading[k]),
        !ruby_from(reading, 0),
    ensures
        degenerate_spec(reading, reading) is None,
{
}

/// The sentences that are not echoes, in order.
pub open spec fn kept_sentences(sents: Seq<Seq<char>>, echo_head: Seq<char>) -> Seq<Seq<char>>
    decreases sents.len(),
{
    if sents.len() == 0 {
        Seq::empty()
    } else if echo_sentence(sents.last(), echo_head) {
        kept_sentences(sents.drop_last(), echo_head)
    } else {
        kept_sentences(sents.drop_last(), echo_head).push(sents.last())
    }
}

/// A segment: nonempty, with no delimiter before its last character.
pub open spec fn segment(x: Seq<char>) -> bool {
    &&& x.len() > 0
    &&& forall|k: int| 0 <= k < x.len() - 1 ==> !is_sentence_end(#[trigger] x[k])
}

/// Segments that each end with a delimiter.
pub open spec fn closed_segments(parts: Seq<Seq<char>>) -> bool {
    forall|i: int| 0 <= i < parts.len() ==> segment(#[trigger] parts[i]) && is_sentence_end(parts[i].last())
}

/// What splitting produces: closed segments, the last possibly open.
pub open spec fn split_shape(parts: Seq<Seq<char>>) -> bool {
    parts.len() > 0 ==> closed_segments(parts.drop_last()) && segment(parts.last())
}

proof fn lemma_split_state_shape(s: Seq<char>, n: int)
    requires
        0 <= n <= s.len(),
    ensures
        closed_segments(split_state(s, n).0),
        forall|k: int| 0 <= k < split_state(s, n).1.len() ==> !is_sentence_end(#[trigger] split_state(s, n).1[k]),
    decreases n,
{
    if n > 0 {
        lemma_split_state_shape(s, n - 1);
        let st = split_state(s, n - 1);
        let cur = st.1.push(s[n - 1]);
        if is_sentence_end(s[n - 1]) {
            let p = st.0.push(cur);
            assert forall|i: int| 0 <= i < p.len() implies segment(#[trigger] p[i]) && is_sentence_end(p[i].last()) by {
                if i < st.0.len() {
                    assert(p[i] == st.0[i]);
                } else {
                    assert(p[i] == cur);
                    assert forall|k: int| 0 <= k < cur.len() - 1 implies !is_sentence_end(#[trigger] cur[k]) by {
                        assert(cur[k] == st.1[k]);
                    }
                }
            }
        } else {
            assert forall|k: int| 0 <= k < cur.len() implies !is_sentence_end(#[trigger] cur[k]) by {
                if k < st.1.len() {
                    assert(cur[k] == st.1[k]);
                }
            }
        }
    }
}

proof fn lemma_sentences_shape(s: Seq<char>)
    ensures
        split_shape(sentences(s)),
{
    lemma_split_state_shape(s, s.len() as int);
    let st = split_state(s, s.len() as int);
    if st.1.len() > 0 {
        assert(st.0.push(st.1).drop_last() =~= st.0);
    } else if st.0.len() > 0 {
        assert(closed_segments(st.0.drop_last())) by {
            assert forall|i: int| 0 <= i < st.0.drop_last().len() implies segment(#[trigger] st.0.drop_last()[i])
                && is_sentence_end(st.0.drop_last()[i].last()) by {
                assert(st.0.drop_last()[i] == st.0[i]);
            }
        }
        assert(segment(st.0[st.0.len() - 1]));
    }
}

/// Splitting the first `m` characters of `a + b` only looks at `a`.
proof fn lemma_split_state_prefix(a: Seq<char>, b: Seq<char>, m: int)
    requires
        0 <= m <= a.len(),
    ensures
        split_state(a + b, m) == split_state(a, m),
    decreases m,
{
    if m > 0 {
        lemma_split_state_prefix(a, b, m - 1);
        assert((a + b)[m - 1] == a[m - 1]);
    }
}

/// After a text that ends at a boundary, splitting goes on as on a fresh
/// text.
proof fn lemma_split_state_append(a: Seq<char>, b: Seq<char>, n: int)
    requires
        0 <= n <= b.len(),
        split_state(a, a.len() as int).1.len() == 0,
    ensures
        split_state(a + b, a.len() + n) == (
            split_state(a, a.len() as int).0 + split_state(b, n).0,
            split_state(b, n).1,
        ),
    decreases n,
{
    let p = split_state(a, a.len() as int).0;
    if n == 0 {
        lemma_split_state_prefix(a, b, a.len() as int);
        assert(p + Seq::<Seq<char>>::empty() =~= p);
        assert(split_state(a, a.len() as int).1 =~= Seq::<char>::empty());
    } else {
        lemma_split_state_append(a, b, n - 1);
        assert((a + b)[a.len() + n - 1] == b[n - 1]);
        let stb = split_state(b, n - 1);
        assert((p + stb.0).push(stb.1.push(b[n - 1])) =~= p + stb.0.push(stb.1.push(b[n - 1])));
    }
}

/// A lone segment splits as itself.
proof fn lemma_split_segment(x: Seq<char>, n: int)
    requires
        segment(x),
        0 <= n <= x.len(),
    ensures
        n < x.len() || !is_sentence_end(x.last()) ==> split_state(x, n) == (Seq::<Seq<char>>::empty(), x.take(n)),
        n == x.len() && is_sentence_end(x.last()) ==> split_state(x, n) == (seq![x], Seq::<char>::empty()),
    decreases n,
{
    if n == 0 {
        assert(x.take(0) =~= Seq::<char>::empty());
    } else {
        lemma_split_segment(x, n - 1);
        assert(x.take(n - 1).push(x[n - 1]) =~= x.take(n));
        if n == x.len() {
            assert(x.take(n) =~= x);
            assert(Seq::<Seq<char>>::empty().push(x) =~= seq![x]);
        } else {
            assert(!is_sentence_end(x[n - 1]));
        }
    }
}

proof fn lemma_split_closed(parts: Seq<Seq<char>>)
    requires
        closed_segments(parts),
    ensures
        split_state(concat_all(parts), concat_all(parts).len() as int) == (parts, Seq::<char>::empty()),
    decreases parts.len(),
{
    if parts.len() == 0 {
        assert(parts =~= Seq::<Seq<char>>::empty());
    } else {
        let p0 = parts.drop_last();
        let x = parts.last();
        assert(closed_segments(p0)) by {
            assert forall|i: int| 0 <= i < p0.len() implies segment(#[trigger] p0[i]) && is_sentence_end(p0[i].last()) by {
                assert(p0[i] == parts[i]);
            }
        }
        assert(segment(x) && is_sentence_end(x.last())) by {
            assert(x == parts[parts.len() - 1]);
        }
        lemma_split_closed(p0);
        lemma_split_segment(x, x.len() as int);
        lemma_split_state_append(concat_all(p0), x, x.len() as int);
        assert(p0 + seq![x] =~= parts);
    }
}

/// Splitting what splitting produced gives the same segments back.
proof fn lemma_split_rejoined(parts: Seq<Seq<char>>)
    requires
        split_shape(parts),
    ensures
        sentences(concat_all(parts)) == parts,
{
    if parts.len() == 0 {
        assert(concat_all(parts) =~= Seq::<char>::empty());
        assert(parts =~= Seq::<Seq<char>>::empty());
    } else {
        let p0 = parts.drop_last();
        let x = parts.last();
        lemma_split_closed(p0);
        lemma_split_segment(x, x.len() as int);
        lemma_split_state_append(concat_all(p0), x, x.len() as int);
        if is_sentence_end(x.last()) {
            assert(p0 + seq![x] =~= parts);
        } else {
            assert(x.take(x.len() as int) =~= x);
            assert(p0 + Seq::<Seq<char>>::empty() =~= p0);
            assert(p0.push(x) =~= parts);
        }
    }
}

proof fn lemma_kept_sentences(sents: Seq<Seq<char>>, h: Seq<char>)
    ensures
        kept_text(sents, h) == concat_all(kept_sentences(sents, h)),
        forall|i: int| 0 <= i < kept_sentences(sents, h).len() ==> !echo_sentence(
            #[trigger] kept_sentences(sents, h)[i],
            h,
        ),
        closed_segments(sents) ==> closed_segments(kept_sentences(sents, h)),
        split_shape(sents) ==> split_shape(kept_sentences(sents, h)),
    decreases sents.len(),
{
    if sents.len() > 0 {
        let s0 = sents.drop_last();
        let x = sents.last();
        lemma_kept_sentences(s0, h);
        let k0 = kept_sentences(s0, h);
        if closed_segments(sents) || split_shape(sents) {
            assert(closed_segments(s0)) by {
                assert forall|i: int| 0 <= i < s0.len() implies segment(#[trigger] s0[i]) && is_sentence_end(
                    s0[i].last(),
                ) by {
                    if closed_segments(sents) {
                        assert(s0[i] == sents[i]);
                    } else {
                        assert(s0[i] == sents.drop_last()[i]);
                    }
                }
            }
        }
        if !echo_sentence(x, h) {
            let k = k0.push(x);
            assert(k.drop_last() =~= k0);
            assert forall|i: int| 0 <= i < k.len() implies !echo_sentence(#[trigger] k[i], h) by {
                if i < k0.len() {
                    assert(k[i] == k0[i]);
                }
            }
            if closed_segments(sents) {
                assert(segment(x) && is_sentence_end(x.last())) by {
                    assert(x == sents[sents.len() - 1]);
                }
                assert forall|i: int| 0 <= i < k.len() implies segment(#[trigger] k[i]) && is_sentence_end(k[i].last()) by {
                    if i < k0.len() {
                        assert(k[i] == k0[i]);
                    }
                }
            }
        }
    }
}

proof fn lemma_kept_text_of_kept(sents: Seq<Seq<char>>, h: Seq<char>)
    requires
        forall|i: int| 0 <= i < sents.len() ==> !echo_sentence(#[trigger] sents[i], h),
    ensures
        kept_text(sents, h) == concat_all(sents),
    decreases sents.len(),
{
    if sents.len() > 0 {
        let s0 = sents.drop_last();
        assert forall|i: int| 0 <= i < s0.len() implies !echo_sentence(#[trigger] s0[i], h) by {
            assert(s0[i] == sents[i]);
        }
        lemma_kept_text_of_kept(s0, h);
        assert(!echo_sentence(sents[sents.len() - 1], h));
    }
}

/// Filtering echoes is idempotent: filtering the filtered context for the
/// same reading changes nothing, since the sentences kept split back into
/// themselves and none of them is an echo.
pub proof fn lemma_echo_filter_idempotent(context: Seq<char>, reading: Seq<char>)
    ensures
        echo_free_spec(echo_free_spec(context, reading), reading) == echo_free_spec(context, reading),
{
    let reading_kana = kana_only(hira_seq(reading));
    if context.len() > 0 && reading_kana.len() >= 5 {
        let h = reading_kana.take(5);
        let sents = sentences(context);
        lemma_sentences_shape(context);
        lemma_kept_sentences(sents, h);
        let kept = kept_sentences(sents, h);
        let text = kept_text(sents, h);
        if text.len() > 0 {
            lemma_split_rejoined(kept);
            lemma_kept_text_of_kept(kept, h);
        }
    }
}

/// Sentence splitting ends a segment at every delimiter — 。．！？!? and
/// the newline — and nowhere else: no segment holds one of them before its
/// last character, every segment but the last ends with one, and no
/// segment is empty.
pub proof fn lemma_sentences_end_at_delimiters(s: Seq<char>)
    ensures
        forall|i: int, k: int|
            #![trigger sentences(s)[i][k]]
            0 <= i < sentences(s).len() && 0 <= k < sentences(s)[i].len() - 1 ==> {
                let c = sentences(s)[i][k];
                c != '。' && c != '．' && c != '！' && c != '？' && c != '!' && c != '?' && c != '\n'
            },
        forall|i: int|
            0 <= i < sentences(s).len() - 1 ==> {
                let c = #[trigger] sentences(s)[i].last();
                c == '。' || c == '．' || c == '！' || c == '？' || c == '!' || c == '?' || c == '\n'
            },
        forall|i: int| 0 <= i < sentences(s).len() ==> #[trigger] sentences(s)[i].len() > 0,
{
    lemma_sentences_shape(s);
    let p = sentences(s);
    if p.len() > 0 {
        assert forall|i: int, k: int| 0 <= i < p.len() && 0 <= k < p[i].len() - 1 implies {
            let c = #[trigger] p[i][k];
            c != '。' && c != '．' && c != '！' && c != '？' && c != '!' && c != '?' && c != '\n'
        } by {
            if i < p.len() - 1 {
                assert(p.drop_last()[i] == p[i]);
                assert(segment(p.drop_last()[i]));
            }
            assert(!is_sentence_end(p[i][k]));
        }
        assert forall|i: int| 0 <= i < p.len() - 1 implies {
            let c = #[trigger] p[i].last();
            c == '。' || c == '．' || c == '！' || c == '？' || c == '!' || c == '?' || c == '\n'
        } by {
            assert(p.drop_last()[i] == p[i]);
            assert(is_sentence_end(p.drop_last()[i].last()));
        }
        assert forall|i: int| 0 <= i < p.len() implies #[trigger] p[i].len() > 0 by {
            if i < p.len() - 1 {
                assert(p.drop_last()[i] == p[i]);
            }
        }
    }
}

} // verus!
