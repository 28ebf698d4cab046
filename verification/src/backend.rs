//! Model source resolution and the kana-kanji conversion steps around the
//! model: prompt construction, generation budget, and candidate selection.
use vstd::prelude::*;
use unicode_normalization::UnicodeNormalization;
use crate::kana::{hiragana_to_katakana, kata_seq};
use crate::quality::{degenerate_reason, degenerate_spec, echo_free_context, echo_free_spec, lemma_echo_filter_idempotent};
use crate::text::{
    chars_of, contains_string, lemma_strings_view, lemma_strings_view_push, strings_view, trim, trimmed,
};

verus! {

/// Cap on the tokens generated per conversion, and the floor of the
/// length-scaled budget.
pub const MAX_NEW_TOKENS: usize = 50;

/// Hard ceiling for the generation budget, whatever the reading length:
/// bounds inference time on abnormal inputs that never reach EOS.
pub const MAX_GENERATION_BUDGET: usize = 256;

/// Special token opening the left context (U+EE02).
pub const CONTEXT_TOKEN: char = '\u{EE02}';

/// Special token opening the input reading (U+EE00).
pub const INPUT_START_TOKEN: char = '\u{EE00}';

/// Special token opening the model's output (U+EE01).
pub const OUTPUT_START_TOKEN: char = '\u{EE01}';

/// Generation budget: `reading_chars * 2 + 8`, at least `configured_max`,
/// at most [`MAX_GENERATION_BUDGET`].
pub open spec fn budget_spec(reading_chars: int, configured_max: int) -> int {
    let scaled = reading_chars * 2 + 8;
    let floor = if scaled >= configured_max {
        scaled
    } else {
        configured_max
    };
    if floor <= MAX_GENERATION_BUDGET {
        floor
    } else {
        MAX_GENERATION_BUDGET as int
    }
}

/// Generation budget in tokens for a reading of `reading_chars` characters.
///
/// `configured_max` acts as the floor: short readings keep the configured
/// budget, while long readings get `reading_chars * 2 + 8` so the output is
/// never truncated merely because the reading was long.
/// [`MAX_GENERATION_BUDGET`] caps the pathological case.
pub fn generation_budget(reading_chars: usize, configured_max: usize) -> (r: usize)
    ensures
        r == budget_spec(reading_chars as int, configured_max as int),
{
    // `reading_chars * 2 + 8`, saturating at `usize::MAX`.
    let scaled = if reading_chars <= (usize::MAX - 8) / 2 {
        reading_chars * 2 + 8
    } else {
        usize::MAX
    };
    let floor = if scaled >= configured_max {
        scaled
    } else {
        configured_max
    };
    if floor <= MAX_GENERATION_BUDGET {
        floor
    } else {
        MAX_GENERATION_BUDGET
    }
}

/// Unicode normalization form KC of a character sequence, as computed by
/// the `unicode-normalization` crate.
pub uninterp spec fn nfkc(s: Seq<char>) -> Seq<char>;

/// NFKC normalization through `UnicodeNormalization::nfkc` of the
/// `unicode-normalization` crate. The contract only names the result: it is
/// the crate's NFKC form of the argument, a function of the argument alone.
#[verifier::external_body]
fn normalize_nfkc(s: &str) -> (r: String)
    ensures
        r@ == nfkc(s@),
{
    s.nfkc().collect::<String>()
}

/// The unnormalized jinen prompt: context token, context, input-start
/// token, katakana reading, output-start token.
pub open spec fn jinen_prompt_text(katakana: Seq<char>, context: Seq<char>) -> Seq<char> {
    seq![CONTEXT_TOKEN] + context + seq![INPUT_START_TOKEN] + katakana + seq![OUTPUT_START_TOKEN]
}

/// Builds a prompt in jinen format, NFKC-normalized (jinen models are
/// trained on NFKC text; the special tokens are unaffected by NFKC).
pub fn build_jinen_prompt(katakana: &str, context: &str) -> (r: String)
    ensures
        r@ == nfkc(jinen_prompt_text(katakana@, context@)),
{
    let mut text = String::new();
    crate::text::string_push(&mut text, CONTEXT_TOKEN);
    text.append(context);
    crate::text::string_push(&mut text, INPUT_START_TOKEN);
    text.append(katakana);
    crate::text::string_push(&mut text, OUTPUT_START_TOKEN);
    assert(text@ =~= jinen_prompt_text(katakana@, context@));
    normalize_nfkc(text.as_str())
}

/// Cleans model output by trimming surrounding white space.
pub fn clean_model_output(text: &str) -> (r: String)
    ensures
        r@ == trimmed(text@),
{
    trim(text)
}

/// Where a conversion model's GGUF comes from.
pub enum ModelSource {
    /// A HuggingFace repo; `tokenizer.json` comes from the same repo.
    HuggingFace { repo: String, filename: String },
    /// A local GGUF file; `tokenizer.json` must sit in the same directory.
    Path(String),
}

/// Why a model could not be resolved.
#[derive(Debug)]
pub enum KanjiError {
    /// The local GGUF file does not exist.
    ModelNotFound(String),
    /// The `tokenizer.json` next to a local GGUF does not exist.
    TokenizerNotFound(String),
}

/// What resolving a model source leads to.
#[derive(Debug)]
pub enum ResolvedModel {
    /// Both files exist locally.
    Local { gguf: String, tokenizer: String },
    /// Both files are fetched from a HuggingFace repo (cache-first).
    Download { repo: String, gguf: String, tokenizer: String },
}

/// `Path::with_file_name` applied to a UTF-8 path: the path with its last
/// component replaced by `name`.
pub uninterp spec fn with_file_name(path: Seq<char>, name: Seq<char>) -> Seq<char>;

/// `std::path::Path::with_file_name`, on UTF-8 paths. The contract only
/// names the result, a function of the two arguments; the path syntax
/// (separators, a trailing `..`) is std's and is not restated here.
#[verifier::external_body]
fn path_with_file_name(path: &str, name: &str) -> (r: String)
    ensures
        r@ == with_file_name(path@, name@),
{
    std::path::Path::new(path).with_file_name(name).to_string_lossy().into_owned()
}

/// The name of the tokenizer file beside a model.
pub open spec fn tokenizer_file_name() -> Seq<char> {
    seq!['t', 'o', 'k', 'e', 'n', 'i', 'z', 'e', 'r', '.', 'j', 's', 'o', 'n']
}

/// The tokenizer that belongs to a local GGUF: `tokenizer.json` in the same
/// directory.
pub fn tokenizer_path(gguf: &str) -> (r: String)
    ensures
        r@ == with_file_name(gguf@, tokenizer_file_name()),
{
    let name = "tokenizer.json";
    proof {
        reveal_strlit("tokenizer.json");
    }
    assert(name@ =~= tokenizer_file_name());
    path_with_file_name(gguf, name)
}

fn copy_string(s: &String) -> (r: String)
    ensures
        r@ == s@,
{
    s.clone()
}

/// Whether `r` is what resolving `source` leads to. A HuggingFace source
/// is fetched from its repo (GGUF and `tokenizer.json`). A local source
/// needs its GGUF to exist (`gguf_is_file`) and then the tokenizer beside
/// it (`tokenizer_is_file`).
pub open spec fn resolves_to(
    source: ModelSource,
    gguf_is_file: bool,
    tokenizer_is_file: bool,
    r: Result<ResolvedModel, KanjiError>,
) -> bool {
    match source {
        ModelSource::HuggingFace { repo, filename } => r matches Ok(ResolvedModel::Download { repo: rr, gguf, tokenizer })
            && rr@ == repo@ && gguf@ == filename@ && tokenizer@ == tokenizer_file_name(),
        ModelSource::Path(path) => {
            &&& !gguf_is_file ==> (r matches Err(KanjiError::ModelNotFound(p)) && p@ == path@)
            &&& gguf_is_file && !tokenizer_is_file ==> (r matches Err(KanjiError::TokenizerNotFound(t)) && t@
                == with_file_name(path@, tokenizer_file_name()))
            &&& gguf_is_file && tokenizer_is_file ==> (r matches Ok(ResolvedModel::Local { gguf, tokenizer }) && gguf@
                == path@ && tokenizer@ == with_file_name(path@, tokenizer_file_name()))
        },
    }
}

impl ModelSource {
    /// Resolves to `(gguf, tokenizer.json)`. A HuggingFace source is fetched
    /// from its repo (the existence flags do not apply). A local source is
    /// checked: `gguf_is_file` tells whether the GGUF exists, and
    /// `tokenizer_is_file` whether [`tokenizer_path`] of it does.
    pub fn resolve(&self, gguf_is_file: bool, tokenizer_is_file: bool) -> (r: Result<ResolvedModel, KanjiError>)
        ensures
            resolves_to(*self, gguf_is_file, tokenizer_is_file, r),
    {
        match self {
            ModelSource::HuggingFace { repo, filename } => {
                let name = "tokenizer.json";
                proof {
                    reveal_strlit("tokenizer.json");
                }
                assert(name@ =~= tokenizer_file_name());
                Ok(ResolvedModel::Download {
                    repo: copy_string(repo),
                    gguf: copy_string(filename),
                    tokenizer: name.to_string(),
                })
            },
            ModelSource::Path(path) => {
                if !gguf_is_file {
                    return Err(KanjiError::ModelNotFound(copy_string(path)));
                }
                let tokenizer = tokenizer_path(path.as_str());
                if !tokenizer_is_file {
                    return Err(KanjiError::TokenizerNotFound(tokenizer));
                }
                Ok(ResolvedModel::Local { gguf: copy_string(path), tokenizer })
            },
        }
    }
}

/// Kana-kanji converter: the steps around the model. The model itself
/// (tokenizer, generation, decoding) runs outside this library; the
/// converter says what to ask it and how to turn its outputs into
/// candidates.
pub struct KanaKanjiConverter {
    display_name: String,
    n_threads: u32,
}

/// What to ask the model for one conversion.
pub struct ConversionRequest {
    /// The reading in katakana (the model expects katakana input).
    pub katakana: String,
    /// The jinen prompt, over the echo-filtered context.
    pub prompt: String,
    /// Generation budget in tokens.
    pub budget: usize,
}

/// One decoded model output.
pub struct ModelOutput {
    /// The decoded text.
    pub text: String,
    /// Whether generation reached EOS (a beam cut by the budget did not).
    pub finished: bool,
}

/// Texts of the outputs that reached EOS, in order.
pub open spec fn finished_texts(outs: Seq<ModelOutput>) -> Seq<Seq<char>>
    decreases outs.len(),
{
    if outs.len() == 0 {
        Seq::empty()
    } else if outs.last().finished {
        finished_texts(outs.drop_last()).push(outs.last().text@)
    } else {
        finished_texts(outs.drop_last())
    }
}

/// The outputs that can become candidates: for a single candidate the
/// greedy output (the first one), otherwise the beams that reached EOS — a
/// budget-cut beam is prose cut mid-output, not a conversion.
pub open spec fn considered_texts(num_candidates: int, outs: Seq<ModelOutput>) -> Seq<Seq<char>> {
    if num_candidates == 1 {
        if outs.len() > 0 {
            seq![outs[0].text@]
        } else {
            Seq::empty()
        }
    } else {
        finished_texts(outs)
    }
}

/// Candidates accepted from `texts`, in order: each is trimmed, and kept
/// when it is not degenerate and not already present.
pub open spec fn accepted(texts: Seq<Seq<char>>, reading: Seq<char>) -> Seq<Seq<char>>
    decreases texts.len(),
{
    if texts.len() == 0 {
        Seq::empty()
    } else {
        let acc = accepted(texts.drop_last(), reading);
        let clean = trimmed(texts.last());
        if degenerate_spec(clean, reading) is None && !acc.contains(clean) {
            acc.push(clean)
        } else {
            acc
        }
    }
}

/// The conversion candidates; when none is accepted, the reading itself.
pub open spec fn candidates_spec(reading: Seq<char>, num_candidates: int, outs: Seq<ModelOutput>) -> Seq<
    Seq<char>,
> {
    let acc = accepted(considered_texts(num_candidates, outs), reading);
    if acc.len() == 0 {
        seq![reading]
    } else {
        acc
    }
}

impl KanaKanjiConverter {
    pub closed spec fn spec_display_name(&self) -> Seq<char> {
        self.display_name@
    }

    pub closed spec fn spec_n_threads(&self) -> u32 {
        self.n_threads
    }

    /// The converter for the model at `source`, shown as `name` in the UI
    /// (the `[models]` key, for a configured model), with the default
    /// thread count (0), together with the model files it resolved to;
    /// loading the model from those files is left to the caller. Fails as
    /// [`ModelSource::resolve`] does.
    pub fn from_source(source: &ModelSource, name: &str, gguf_is_file: bool, tokenizer_is_file: bool) -> (r: Result<
        (KanaKanjiConverter, ResolvedModel),
        KanjiError,
    >)
        ensures
            resolves_to(
                *source,
                gguf_is_file,
                tokenizer_is_file,
                match r {
                    Ok((_, m)) => Ok(m),
                    Err(e) => Err(e),
                },
            ),
            r matches Ok((c, _)) ==> c.spec_display_name() == name@ && c.spec_n_threads() == 0,
    {
        match source.resolve(gguf_is_file, tokenizer_is_file) {
            Ok(resolved) => Ok((KanaKanjiConverter { display_name: name.to_string(), n_threads: 0 }, resolved)),
            Err(e) => Err(e),
        }
    }

    /// Sets the number of threads for inference (0 = default).
    pub fn set_n_threads(&mut self, n: u32)
        ensures
            final(self).spec_n_threads() == n,
            final(self).spec_display_name() == old(self).spec_display_name(),
    {
        self.n_threads = n;
    }

    /// The number of threads for inference (0 = default).
    pub fn n_threads(&self) -> (r: u32)
        ensures
            r == self.spec_n_threads(),
    {
        self.n_threads
    }

    /// A human-readable model name for display.
    pub fn model_display_name(&self) -> (r: &str)
        ensures
            r@ == self.spec_display_name(),
    {
        self.display_name.as_str()
    }

    /// What to ask the model to convert `reading` (hiragana) after
    /// `context`: the katakana reading, the prompt over the context with
    /// echo sentences filtered out, and a budget scaled with the reading.
    pub fn conversion_request(&self, reading: &str, context: &str) -> (r: ConversionRequest)
        ensures
            r.katakana@ == kata_seq(reading@),
            r.prompt@ == prompt_spec(reading@, context@),
            r.budget == budget_spec(reading@.len() as int, MAX_NEW_TOKENS as int),
    {
        let katakana = hiragana_to_katakana(reading);
        let filtered_context = echo_free_context(context, reading);
        let prompt = build_jinen_prompt(katakana.as_str(), filtered_context.as_str());
        let n = chars_of(katakana.as_str()).len();
        assert(katakana@.len() == reading@.len());
        let budget = generation_budget(n, MAX_NEW_TOKENS);
        ConversionRequest { katakana, prompt, budget }
    }

    /// Turns the model's outputs for `reading` into conversion candidates.
    /// Degenerate output (echoes, runaway repetition, extreme lengths) is
    /// dropped instead of surfacing as a candidate, duplicates are dropped,
    /// and when nothing is left the reading itself is the candidate.
    pub fn convert(&self, reading: &str, num_candidates: usize, outputs: &Vec<ModelOutput>) -> (r: Vec<String>)
        ensures
            strings_view(r@) == candidates_spec(reading@, num_candidates as int, outputs@),
    {
        let mut texts: Vec<String> = Vec::new();
        if num_candidates == 1 {
            if outputs.len() > 0 {
                texts.push(copy_string(&outputs[0].text));
                proof {
                    lemma_strings_view_push(Seq::<String>::empty(), texts@[0]);
                    assert(Seq::<String>::empty().push(texts@[0]) =~= texts@);
                }
            }
        } else {
            let mut i: usize = 0;
            while i < outputs.len()
                invariant
                    i <= outputs.len(),
                    strings_view(texts@) == finished_texts(outputs@.take(i as int)),
                decreases outputs.len() - i,
            {
                if outputs[i].finished {
                    let t = copy_string(&outputs[i].text);
                    proof {
                        lemma_strings_view_push(texts@, t);
                    }
                    texts.push(t);
                }
                i += 1;
                assert(outputs@.take(i as int).drop_last() =~= outputs@.take(i - 1));
            }
            assert(outputs@.take(i as int) =~= outputs@);
        }
        let ghost considered = strings_view(texts@);
        assert(considered == considered_texts(num_candidates as int, outputs@));
        proof {
            lemma_strings_view(texts@);
        }
        let mut candidates: Vec<String> = Vec::new();
        let mut k: usize = 0;
        while k < texts.len()
            invariant
                k <= texts.len(),
                considered == strings_view(texts@),
                considered.len() == texts@.len(),
                forall|j: int| 0 <= j < texts@.len() ==> #[trigger] considered[j] == texts@[j]@,
                strings_view(candidates@) == accepted(considered.take(k as int), reading@),
            decreases texts.len() - k,
        {
            let clean = clean_model_output(texts[k].as_str());
            assert(considered.take(k + 1).drop_last() =~= considered.take(k as int));
            assert(considered.take(k + 1).last() == texts@[k as int]@);
            if degenerate_reason(clean.as_str(), reading).is_none() && !contains_string(&candidates, &clean) {
                proof {
                    lemma_strings_view_push(candidates@, clean);
                }
                candidates.push(clean);
            }
            k += 1;
        }
        assert(considered.take(k as int) =~= considered);
        if candidates.len() == 0 {
            let fallback = reading.to_string();
            proof {
                lemma_strings_view(candidates@);
                lemma_strings_view_push(candidates@, fallback);
            }
            candidates.push(fallback);
            assert(strings_view(candidates@) =~= seq![reading@]);
        } else {
            proof {
                lemma_strings_view(candidates@);
            }
        }
        candidates
    }
}

/// The prompt for converting `reading` after `context`: the katakana
/// reading after the context with echo sentences filtered out, NFKC
/// normalized.
pub open spec fn prompt_spec(reading: Seq<char>, context: Seq<char>) -> Seq<char> {
    nfkc(jinen_prompt_text(kata_seq(reading), echo_free_spec(context, reading)))
}

/// The model only sees the echo-filtered context: a context already
/// filtered for the reading gives the same prompt as the context as it was.
pub proof fn lemma_prompt_ignores_echoes(reading: Seq<char>, context: Seq<char>)
    ensures
        prompt_spec(reading, echo_free_spec(context, reading)) == prompt_spec(reading, context),
{
    lemma_echo_filter_idempotent(context, reading);
}

/// The generation budget never exceeds [`MAX_GENERATION_BUDGET`], is at
/// least the configured maximum when that fits under the cap, and never
/// shrinks as the reading grows.
pub proof fn lemma_budget_bounds(reading_chars: int, longer: int, configured_max: int)
    requires
        0 <= reading_chars <= longer,
        0 <= configured_max,
    ensures
        budget_spec(reading_chars, configured_max) <= MAX_GENERATION_BUDGET,
        configured_max <= MAX_GENERATION_BUDGET ==> configured_max <= budget_spec(reading_chars, configured_max),
        budget_spec(reading_chars, configured_max) <= budget_spec(longer, configured_max),
{
}

/// Accepted candidates are trimmed outputs that pass every degeneracy
/// check, with no text twice.
pub proof fn lemma_accepted(texts: Seq<Seq<char>>, reading: Seq<char>)
    ensures
        forall|i: int|
            0 <= i < accepted(texts, reading).len() ==> degenerate_spec(
                #[trigger] accepted(texts, reading)[i],
                reading,
            ) is None,
        forall|i: int, j: int|
            0 <= i < j < accepted(texts, reading).len() ==> #[trigger] accepted(texts, reading)[i]
                != #[trigger] accepted(texts, reading)[j],
    decreases texts.len(),
{
    if texts.len() > 0 {
        lemma_accepted(texts.drop_last(), reading);
        let acc = accepted(texts.drop_last(), reading);
        let clean = trimmed(texts.last());
        if degenerate_spec(clean, reading) is None && !acc.contains(clean) {
            assert forall|i: int, j: int|
                0 <= i < j < acc.push(clean).len() implies #[trigger] acc.push(clean)[i]
                    != #[trigger] acc.push(clean)[j] by {
                if j == acc.len() {
                    assert(acc.contains(acc[i]));
                }
            }
        }
    }
}

/// A conversion always yields at least one candidate and never the same
/// text twice; every candidate passes the degeneracy checks, except the
/// reading itself when it stands alone as the fallback.
pub proof fn lemma_candidates(reading: Seq<char>, num_candidates: int, outs: Seq<ModelOutput>)
    ensures
        candidates_spec(reading, num_candidates, outs).len() >= 1,
        forall|i: int, j: int|
            0 <= i < j < candidates_spec(reading, num_candidates, outs).len() ==> #[trigger] candidates_spec(
                reading,
                num_candidates,
                outs,
            )[i] != #[trigger] candidates_spec(reading, num_candidates, outs)[j],
        candidates_spec(reading, num_candidates, outs) == seq![reading] || forall|i: int|
            0 <= i < candidates_spec(reading, num_candidates, outs).len() ==> degenerate_spec(
                #[trigger] candidates_spec(reading, num_candidates, outs)[i],
                reading,
            ) is None,
{
    lemma_accepted(considered_texts(num_candidates, outs), reading);
}

} // verus!
