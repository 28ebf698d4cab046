//! Evaluation of romaji keystroke runs into composition elements.
//!
//! A run is replayed one keystroke at a time so that each character the
//! converter fires knows which keystrokes produced it: those become its
//! raw input.
use vstd::prelude::*;
use crate::romaji::{
    convert_flush_spec, flush_spec, is_key_prefix, is_sokuon_consonant, lemma_convert_pending, lemma_resolve_rest, lemma_resolve_text, lemma_table_nn,
    lemma_convert_key_prefix, lemma_resolve_chain, lemma_table_outputs, lemma_table_prefix_parts,
    lemma_table_prefixes, resolve, rule_output, single_steps, spec_convert, starts_rule_spec,
    RomajiConverter,
};
use crate::text::{ascii, is_ascii_char};
use crate::width::{apply_width, at_width, Width};

verus! {

/// One display character of the composition, as a mathematical value.
pub enum ElementView {
    /// A keystroke not consumed by a rule yet.
    Romaji(char),
    /// A settled character and the keystrokes that produced it.
    Converted(char, Seq<char>),
}

/// One display character of the composition.
pub enum Element {
    /// A keystroke not yet consumed by a conversion rule.
    Romaji(char),
    /// A settled character: fired rule output, passthrough, or direct
    /// input. `raw` holds the keystrokes that produced it; a rule firing
    /// several characters keeps the whole group's keystrokes on its first
    /// character and leaves the others empty.
    Converted { ch: char, raw: Vec<char> },
}

impl View for Element {
    type V = ElementView;

    open spec fn view(&self) -> ElementView {
        match self {
            Element::Romaji(c) => ElementView::Romaji(*c),
            Element::Converted { ch, raw } => ElementView::Converted(*ch, raw@),
        }
    }
}

pub open spec fn views(v: Seq<Element>) -> Seq<ElementView> {
    v.map_values(|e: Element| e@)
}

pub open spec fn ch_of(e: ElementView) -> char {
    match e {
        ElementView::Romaji(c) => c,
        ElementView::Converted(c, _) => c,
    }
}

pub open spec fn is_romaji(e: ElementView) -> bool {
    e is Romaji
}

/// The keystrokes an element stands for: a live keystroke is itself.
pub open spec fn raw_of(e: ElementView) -> Seq<char> {
    match e {
        ElementView::Romaji(c) => seq![c],
        ElementView::Converted(_, raw) => raw,
    }
}

/// Keystrokes that produced the elements, in order.
pub open spec fn raw_text_of(els: Seq<ElementView>) -> Seq<char>
    decreases els.len(),
{
    if els.len() == 0 {
        Seq::empty()
    } else {
        raw_text_of(els.drop_last()) + raw_of(els.last())
    }
}

impl Element {
    /// The displayed character.
    pub fn ch(&self) -> (r: char)
        ensures
            r == ch_of(self@),
    {
        match self {
            Element::Romaji(c) => *c,
            Element::Converted { ch, .. } => *ch,
        }
    }

    pub fn is_romaji(&self) -> (r: bool)
        ensures
            r == is_romaji(self@),
    {
        match self {
            Element::Romaji(_) => true,
            Element::Converted { .. } => false,
        }
    }

    /// Direct input: settled as itself, its own raw keystroke.
    pub fn direct(ch: char) -> (r: Element)
        ensures
            r@ == ElementView::Converted(ch, seq![ch]),
    {
        let mut raw: Vec<char> = Vec::new();
        raw.push(ch);
        Element::Converted { ch, raw }
    }
}

/// Index of the first ASCII character of `batch` at or after `i`, or the
/// length when there is none.
pub open spec fn next_ascii(batch: Seq<char>, i: int) -> int
    decreases batch.len() - i,
{
    if i >= batch.len() {
        batch.len() as int
    } else if is_ascii_char(batch[i]) {
        i
    } else {
        next_ascii(batch, i + 1)
    }
}

/// Index of the first `c` in `raw` at or after `r`, or the length.
pub open spec fn find_from(raw: Seq<char>, r: int, c: char) -> int
    decreases raw.len() - r,
{
    if r >= raw.len() {
        raw.len() as int
    } else if raw[r] == c {
        r
    } else {
        find_from(raw, r + 1, c)
    }
}

pub proof fn lemma_next_ascii_bounds(batch: Seq<char>, i: int)
    requires
        0 <= i <= batch.len(),
    ensures
        i <= next_ascii(batch, i) <= batch.len(),
        next_ascii(batch, i) < batch.len() ==> is_ascii_char(batch[next_ascii(batch, i)]),
        forall|k: int| i <= k < next_ascii(batch, i) ==> !is_ascii_char(#[trigger] batch[k]),
    decreases batch.len() - i,
{
    if i < batch.len() && !is_ascii_char(batch[i]) {
        lemma_next_ascii_bounds(batch, i + 1);
    }
}

pub proof fn lemma_find_from_bounds(raw: Seq<char>, r: int, c: char)
    requires
        0 <= r <= raw.len(),
    ensures
        r <= find_from(raw, r, c) <= raw.len(),
        find_from(raw, r, c) < raw.len() ==> raw[find_from(raw, r, c)] == c,
        forall|k: int| r <= k < find_from(raw, r, c) ==> #[trigger] raw[k] != c,
    decreases raw.len() - r,
{
    if r < raw.len() && raw[r] != c {
        lemma_find_from_bounds(raw, r + 1, c);
    }
}

/// The elements of a fired (non-ASCII) run `batch[i..j]`: each settled
/// at the width `w`, the first carrying the run's keystrokes `run_raw`.
pub open spec fn fired_run(batch: Seq<char>, i: int, j: int, run_raw: Seq<char>, w: Width) -> Seq<
    ElementView,
> {
    Seq::new(
        (j - i) as nat,
        |k: int|
            ElementView::Converted(
                apply_width(w, batch[i + k]),
                if k == 0 {
                    run_raw
                } else {
                    Seq::empty()
                },
            ),
    )
}

/// The element for an ASCII character of a batch: a keystroke that passed
/// through. It stays live when it can still begin a rule (unless
/// `settle_all`), else it settles as its own raw keystroke.
pub open spec fn passthrough_element(c: char, w: Width, settle_all: bool) -> ElementView {
    if !settle_all && starts_rule_spec(c) {
        ElementView::Romaji(c)
    } else {
        ElementView::Converted(apply_width(w, c), seq![c])
    }
}

/// Elements recorded for `batch[i..]` given that the first `r` keystrokes
/// of `raw` are already attributed. ASCII characters align with the same
/// keystroke in `raw`; a maximal non-ASCII run takes the keystrokes up to
/// the alignment point of the next ASCII character (or all remaining ones).
pub open spec fn batch_from(
    batch: Seq<char>,
    raw: Seq<char>,
    w: Width,
    settle_all: bool,
    i: int,
    r: int,
) -> Seq<ElementView>
    decreases batch.len() - i,
{
    if i < 0 || i >= batch.len() {
        Seq::empty()
    } else if is_ascii_char(batch[i]) {
        let r2 = if 0 <= r < raw.len() && raw[r] == batch[i] {
            r + 1
        } else {
            r
        };
        seq![passthrough_element(batch[i], w, settle_all)] + batch_from(
            batch,
            raw,
            w,
            settle_all,
            i + 1,
            r2,
        )
    } else {
        let j = next_ascii(batch, i + 1);
        let end = if j < batch.len() {
            find_from(raw, r, batch[j])
        } else {
            raw.len() as int
        };
        proof {
            lemma_next_ascii_bounds(batch, i + 1);
        }
        fired_run(batch, i, j, raw.subrange(r, end), w) + batch_from(
            batch,
            raw,
            w,
            settle_all,
            j,
            end,
        )
    }
}

/// Elements recorded for one batch of newly fired characters.
pub open spec fn batch_elements(batch: Seq<char>, raw: Seq<char>, w: Width, settle_all: bool) -> Seq<
    ElementView,
> {
    batch_from(batch, raw, w, settle_all, 0, 0)
}

/// Replay state after some keystrokes of a run: the elements recorded so
/// far, the keystrokes since the last emission, how many characters the
/// converter had fired, and its pending keystrokes.
pub struct EvalState {
    pub elements: Seq<ElementView>,
    pub group_raw: Seq<char>,
    pub emitted: nat,
    pub pending: Seq<char>,
}

/// Replays keystroke `run[i]`: when the conversion of `run[..=i]` fires new
/// characters, they are recorded with the keystrokes they consumed — the
/// accumulated ones minus those still pending. With `settle_all` every
/// keystroke that passed through settles, even one that could begin a rule.
pub open spec fn eval_step(st: EvalState, run: Seq<char>, i: int, w: Width, settle_all: bool) -> EvalState {
    let group = st.group_raw.push(run[i]);
    let conv = spec_convert(run.take(i + 1));
    let text = conv.0;
    let pend = conv.1;
    if text.len() > st.emitted {
        let split: int = if group.len() >= pend.len() {
            group.len() - pend.len()
        } else {
            0
        };
        EvalState {
            elements: st.elements + batch_elements(
                text.subrange(st.emitted as int, text.len() as int),
                group.take(split),
                w,
                settle_all,
            ),
            group_raw: group.skip(split),
            emitted: text.len(),
            pending: pend,
        }
    } else {
        EvalState { elements: st.elements, group_raw: group, emitted: st.emitted, pending: pend }
    }
}

pub open spec fn eval_state(run: Seq<char>, n: int, w: Width, settle_all: bool) -> EvalState
    decreases n,
{
    if n <= 0 {
        EvalState {
            elements: Seq::empty(),
            group_raw: Seq::empty(),
            emitted: 0,
            pending: Seq::empty(),
        }
    } else {
        eval_step(eval_state(run, n - 1, w, settle_all), run, n - 1, w, settle_all)
    }
}

/// Live keystrokes, one element each.
pub open spec fn live(c: char) -> ElementView {
    ElementView::Romaji(c)
}

pub open spec fn romaji_views(keys: Seq<char>) -> Seq<ElementView> {
    keys.map_values(|c: char| live(c))
}

/// Evaluation of a keystroke run. Without `flush` the trailing pending
/// keystrokes stay live, one `Romaji` each, and so does a passthrough that
/// can still begin a rule; with `flush` every keystroke settles: the
/// pending ones are forced through [`flush_spec`].
pub open spec fn evaluated(run: Seq<char>, w: Width, flush: bool) -> Seq<ElementView> {
    let st = eval_state(run, run.len() as int, w, flush);
    if flush {
        let f = flush_spec(st.pending);
        if f.len() > 0 {
            st.elements + batch_elements(f, st.group_raw, w, true)
        } else {
            st.elements
        }
    } else {
        st.elements + romaji_views(st.pending)
    }
}

/// `v[from..to]` as a new vector.
pub fn sub_vec(v: &Vec<char>, from: usize, to: usize) -> (r: Vec<char>)
    requires
        from <= to <= v.len(),
    ensures
        r@ == v@.subrange(from as int, to as int),
{
    let mut r: Vec<char> = Vec::new();
    let mut k = from;
    while k < to
        invariant
            from <= k <= to <= v.len(),
            r@ == v@.subrange(from as int, k as int),
        decreases to - k,
    {
        r.push(v[k]);
        k += 1;
        assert(r@ =~= v@.subrange(from as int, k as int));
    }
    r
}

proof fn lemma_views_push(v: Seq<Element>, e: Element)
    ensures
        views(v.push(e)) == views(v).push(e@),
{
    assert(views(v.push(e)) =~= views(v).push(e@));
}

/// Records one batch of newly fired characters, attributing the keystrokes
/// `group_raw` to them (see [`batch_from`]), and empties `group_raw`: those
/// keystrokes are accounted for.
pub fn push_batch(
    elements: &mut Vec<Element>,
    batch: &Vec<char>,
    group_raw: &mut Vec<char>,
    romaji: &RomajiConverter,
    settle_all: bool,
)
    ensures
        views(final(elements)@) == views(old(elements)@) + batch_elements(
            batch@,
            old(group_raw)@,
            romaji.width,
            settle_all,
        ),
        final(group_raw)@.len() == 0,
{
    let raw = sub_vec(group_raw, 0, group_raw.len());
    assert(raw@ =~= group_raw@);
    let ghost w = romaji.width;
    let ghost total = batch_elements(batch@, raw@, w, settle_all);
    let mut r: usize = 0;
    let mut i: usize = 0;
    while i < batch.len()
        invariant
            i <= batch.len(),
            r <= raw.len(),
            w == romaji.width,
            total == batch_elements(batch@, raw@, w, settle_all),
            views(elements@) + batch_from(batch@, raw@, w, settle_all, i as int, r as int)
                == views(old(elements)@) + total,
        decreases batch.len() - i,
    {
        let ghost before = views(elements@);
        let c = batch[i];
        if ascii(c) {
            let ghost r0 = r as int;
            if r < raw.len() && raw[r] == c {
                r += 1;
            }
            let e = if !settle_all && romaji.starts_rule(c) {
                Element::Romaji(c)
            } else {
                let mut raw: Vec<char> = Vec::new();
                raw.push(c);
                assert(raw@ =~= seq![c]);
                Element::Converted { ch: romaji.width().apply(c), raw }
            };
            assert(e@ == passthrough_element(c, w, settle_all));
            proof {
                lemma_views_push(elements@, e);
            }
            elements.push(e);
            i += 1;
            assert(batch_from(batch@, raw@, w, settle_all, (i - 1) as int, r0) =~= seq![
                e@,
            ] + batch_from(batch@, raw@, w, settle_all, i as int, r as int));
            assert(views(elements@) + batch_from(batch@, raw@, w, settle_all, i as int, r as int)
                =~= before + batch_from(batch@, raw@, w, settle_all, (i - 1) as int, r0));
            continue;
        }
        // Maximal fired (non-ASCII) run `batch[i..j]`.

        let mut j = i + 1;
        proof {
            lemma_next_ascii_bounds(batch@, (i + 1) as int);
        }
        while j < batch.len() && !ascii(batch[j])
            invariant
                i < j <= batch.len(),
                next_ascii(batch@, (i + 1) as int) == next_ascii(batch@, j as int),
            decreases batch.len() - j,
        {
            j += 1;
        }
        proof {
            lemma_next_ascii_bounds(batch@, j as int);
        }
        let end = if j < batch.len() {
            let target = batch[j];
            let mut p = r;
            proof {
                lemma_find_from_bounds(raw@, r as int, target);
            }
            while p < raw.len() && raw[p] != target
                invariant
                    r <= p <= raw.len(),
                    find_from(raw@, r as int, target) == find_from(raw@, p as int, target),
                decreases raw.len() - p,
            {
                p += 1;
            }
            p
        } else {
            raw.len()
        };
        assert(end as int == (if j < batch.len() {
            find_from(raw@, r as int, batch@[j as int])
        } else {
            raw@.len() as int
        }));
        let run_raw = sub_vec(&raw, r, end);
        let ghost fired = fired_run(batch@, i as int, j as int, run_raw@, w);
        let ghost r0 = r as int;
        let ghost i0 = i as int;
        r = end;
        let first = Element::Converted { ch: romaji.width().apply(batch[i]), raw: run_raw };
        proof {
            lemma_views_push(elements@, first);
        }
        elements.push(first);
        let mut k = i + 1;
        while k < j
            invariant
                i0 < k <= j <= batch.len(),
                w == romaji.width,
                views(elements@) == before + fired.take(k - i0),
                fired == fired_run(batch@, i0, j as int, run_raw@, w),
            decreases j - k,
        {
            let e = Element::Converted { ch: romaji.width().apply(batch[k]), raw: Vec::new() };
            proof {
                lemma_views_push(elements@, e);
            }
            elements.push(e);
            k += 1;
            assert(views(elements@) =~= before + fired.take(k - i0));
        }
        i = j;
        assert(fired.take(j - i0) =~= fired);
        assert(batch_from(batch@, raw@, w, settle_all, i0, r0) =~= fired + batch_from(
            batch@,
            raw@,
            w,
            settle_all,
            i as int,
            r as int,
        ));
        assert(views(elements@) + batch_from(batch@, raw@, w, settle_all, i as int, r as int)
            =~= before + batch_from(batch@, raw@, w, settle_all, i0, r0));
    }
    assert(batch_from(batch@, raw@, w, settle_all, i as int, r as int) =~= Seq::<
        ElementView,
    >::empty());
    group_raw.clear();
}

/// Appends one live element per keystroke of `keys`.
fn push_live_keys(elements: &mut Vec<Element>, keys: &Vec<char>)
    ensures
        views(final(elements)@) == views(old(elements)@) + romaji_views(keys@),
{
    let ghost base = views(elements@);
    let mut k: usize = 0;
    assert(base + romaji_views(keys@.take(0)) =~= base);
    while k < keys.len()
        invariant
            k <= keys.len(),
            base == views(old(elements)@),
            views(elements@) == base + romaji_views(keys@.take(k as int)),
        decreases keys.len() - k,
    {
        let c = keys[k];
        let e = Element::Romaji(c);
        proof {
            lemma_views_push(elements@, e);
        }
        elements.push(e);
        k += 1;
        assert(romaji_views(keys@.take(k as int)).len() == k);
        assert(views(elements@).len() == base.len() + k);
        assert(views(elements@)[base.len() + k - 1] == live(c));
        assert(romaji_views(keys@.take(k as int))[k - 1] == live(c));
        assert(views(elements@) =~= base + romaji_views(keys@.take(k as int)));
    }
    assert(keys@.take(keys.len() as int) =~= keys@);
}

/// Evaluates a run of romaji keystrokes, replaying them one at a time so
/// that each fired character records the keystrokes that produced it.
/// With `flush` false the trailing pending keystrokes stay live, and so
/// does a passthrough that can still begin a rule; with `flush` true every
/// keystroke settles, the pending ones forced through the flush table.
pub fn evaluate_keystrokes(run: &Vec<char>, romaji: &RomajiConverter, flush: bool) -> (r: Vec<
    Element,
>)
    ensures
        views(r@) == evaluated(run@, romaji.width, flush),
{
    let ghost w = romaji.width;
    let mut elements: Vec<Element> = Vec::new();
    let mut group_raw: Vec<char> = Vec::new();
    let mut prefix: Vec<char> = Vec::new();
    let mut emitted: usize = 0;
    let mut pending: Vec<char> = Vec::new();
    let mut i: usize = 0;
    assert(views(elements@) =~= Seq::<ElementView>::empty());
    while i < run.len()
        invariant
            i <= run.len(),
            w == romaji.width,
            prefix@ == run@.take(i as int),
            views(elements@) == eval_state(run@, i as int, w, flush).elements,
            group_raw@ == eval_state(run@, i as int, w, flush).group_raw,
            emitted == eval_state(run@, i as int, w, flush).emitted,
            pending@ == eval_state(run@, i as int, w, flush).pending,
        decreases run.len() - i,
    {
        let key = run[i];
        prefix.push(key);
        group_raw.push(key);
        assert(prefix@ =~= run@.take(i + 1));
        let converted = romaji.convert(&prefix);
        let text = converted.text;
        if text.len() > emitted {
            let total = group_raw.len();
            let keep = converted.pending.len();
            let split = total.saturating_sub(keep);
            let mut consumed = sub_vec(&group_raw, 0, split);
            let rest = sub_vec(&group_raw, split, total);
            let batch = sub_vec(&text, emitted, text.len());
            assert(consumed@ =~= group_raw@.take(split as int));
            assert(rest@ =~= group_raw@.skip(split as int));
            push_batch(&mut elements, &batch, &mut consumed, romaji, flush);
            group_raw = rest;
            emitted = text.len();
        }
        pending = converted.pending;
        i += 1;
    }
    if flush {
        let flushed = romaji.flush_pending(&pending);
        if flushed.len() > 0 {
            push_batch(&mut elements, &flushed, &mut group_raw, romaji, true);
        }
    } else {
        push_live_keys(&mut elements, &pending);
    }
    elements
}

/// Evaluates a run of romaji keystrokes, leaving the pending tail live.
pub fn evaluate_run(run: &Vec<char>, romaji: &RomajiConverter) -> (r: Vec<Element>)
    ensures
        views(r@) == evaluated(run@, romaji.width, false),
{
    evaluate_keystrokes(run, romaji, false)
}

/// Settles one romaji run into `out` and clears it.
pub fn flush_run(out: &mut Vec<Element>, run: &mut Vec<char>, romaji: &RomajiConverter)
    ensures
        views(final(out)@) == (if old(run)@.len() == 0 {
            views(old(out)@)
        } else {
            views(old(out)@) + evaluated(old(run)@, romaji.width, true)
        }),
        final(run)@ == Seq::<char>::empty(),
{
    if run.len() == 0 {
        assert(run@ =~= Seq::<char>::empty());
        return;
    }
    let mut settled = evaluate_keystrokes(run, romaji, true);
    let ghost o = out@;
    let ghost s = settled@;
    out.append(&mut settled);
    assert(views(out@) =~= views(o) + views(s));
    run.clear();
}

pub proof fn lemma_raw_concat(a: Seq<ElementView>, b: Seq<ElementView>)
    ensures
        raw_text_of(a + b) == raw_text_of(a) + raw_text_of(b),
    decreases b.len(),
{
    if b.len() == 0 {
        assert(a + b =~= a);
    } else {
        lemma_raw_concat(a, b.drop_last());
        assert((a + b).drop_last() =~= a + b.drop_last());
        assert((a + b).last() == b.last());
    }
}

proof fn lemma_raw_fired_run(b: Seq<char>, i: int, j: int, rr: Seq<char>, w: Width)
    requires
        i < j,
    ensures
        raw_text_of(fired_run(b, i, j, rr, w)) == rr,
    decreases j - i,
{
    let f = fired_run(b, i, j, rr, w);
    if j - i == 1 {
        assert(f.drop_last().len() == 0);
        assert(raw_text_of(f.drop_last()) =~= Seq::<char>::empty());
        assert(raw_text_of(f) =~= rr);
    } else {
        lemma_raw_fired_run(b, i, j - 1, rr, w);
        assert(f.drop_last() =~= fired_run(b, i, j - 1, rr, w));
        assert(raw_of(f.last()) =~= Seq::<char>::empty());
        assert(raw_text_of(f) =~= rr);
    }
}

proof fn lemma_raw_live(keys: Seq<char>)
    ensures
        raw_text_of(romaji_views(keys)) == keys,
    decreases keys.len(),
{
    if keys.len() > 0 {
        lemma_raw_live(keys.drop_last());
        assert(romaji_views(keys).drop_last() =~= romaji_views(keys.drop_last()));
        assert(raw_text_of(romaji_views(keys)) =~= keys);
    }
}

proof fn lemma_next_ascii_shift(b: Seq<char>, i: int, d: int)
    requires
        0 <= d <= i <= b.len(),
    ensures
        next_ascii(b.skip(d), i - d) == next_ascii(b, i) - d,
    decreases b.len() - i,
{
    if i < b.len() {
        assert(b.skip(d)[i - d] == b[i]);
        if !is_ascii_char(b[i]) {
            lemma_next_ascii_shift(b, i + 1, d);
        }
    }
}

proof fn lemma_find_from_shift(raw: Seq<char>, r: int, c: char, e: int)
    requires
        0 <= e <= r <= raw.len(),
    ensures
        find_from(raw.skip(e), r - e, c) == find_from(raw, r, c) - e,
    decreases raw.len() - r,
{
    if r < raw.len() {
        assert(raw.skip(e)[r - e] == raw[r]);
        if raw[r] != c {
            lemma_find_from_shift(raw, r + 1, c, e);
        }
    }
}

/// Batch attribution does not depend on where the batch and its
/// keystrokes sit: dropping a common head of both shifts the positions.
proof fn lemma_batch_shift(
    b: Seq<char>,
    raw: Seq<char>,
    w: Width,
    s: bool,
    i: int,
    r: int,
    d: int,
    e: int,
)
    requires
        0 <= d <= i <= b.len(),
        0 <= e <= r <= raw.len(),
    ensures
        batch_from(b, raw, w, s, i, r) == batch_from(b.skip(d), raw.skip(e), w, s, i - d, r - e),
    decreases b.len() - i,
{
    let bs = b.skip(d);
    let rs = raw.skip(e);
    if i < b.len() {
        assert(bs[i - d] == b[i]);
        if is_ascii_char(b[i]) {
            let r2 = if 0 <= r < raw.len() && raw[r] == b[i] {
                r + 1
            } else {
                r
            };
            if r < raw.len() {
                assert(rs[r - e] == raw[r]);
            }
            lemma_batch_shift(b, raw, w, s, i + 1, r2, d, e);
        } else {
            lemma_next_ascii_bounds(b, i + 1);
            lemma_next_ascii_shift(b, i + 1, d);
            let j = next_ascii(b, i + 1);
            let end = if j < b.len() {
                find_from(raw, r, b[j])
            } else {
                raw.len() as int
            };
            if j < b.len() {
                lemma_find_from_bounds(raw, r, b[j]);
                lemma_find_from_shift(raw, r, b[j], e);
                assert(bs[j - d] == b[j]);
            }
            assert(raw.subrange(r, end) =~= rs.subrange(r - e, end - e));
            assert forall|k: int| 0 <= k < j - i implies #[trigger] bs[(i - d) + k] == b[i + k] by {}
            assert(fired_run(b, i, j, raw.subrange(r, end), w) =~= fired_run(
                bs,
                i - d,
                j - d,
                rs.subrange(r - e, end - e),
                w,
            ));
            lemma_batch_shift(b, raw, w, s, j, end, d, e);
        }
    }
}

proof fn lemma_raw_single(x: ElementView)
    ensures
        raw_text_of(seq![x]) == raw_of(x),
{
    assert(seq![x].drop_last() =~= Seq::<ElementView>::empty());
    assert(raw_text_of(Seq::<ElementView>::empty()) == Seq::<char>::empty());
    assert(raw_text_of(seq![x]) =~= raw_of(x));
}

/// A batch of fired characters only (no ASCII) carries all its keystrokes.
proof fn lemma_batch_all_fired(b: Seq<char>, raw: Seq<char>, w: Width, s: bool)
    requires
        b.len() > 0,
        forall|i: int| 0 <= i < b.len() ==> !is_ascii_char(#[trigger] b[i]),
    ensures
        raw_text_of(batch_from(b, raw, w, s, 0, 0)) == raw,
{
    lemma_next_ascii_bounds(b, 1);
    let j = next_ascii(b, 1);
    if j < b.len() {
        assert(is_ascii_char(b[j]));
    }
    assert(j == b.len());
    assert(raw.subrange(0, raw.len() as int) =~= raw);
    assert(batch_from(b, raw, w, s, j, raw.len() as int) =~= Seq::<ElementView>::empty());
    lemma_raw_fired_run(b, 0, j, raw, w);
    assert(batch_from(b, raw, w, s, 0, 0) =~= fired_run(b, 0, j, raw, w));
}

/// Whether fired text starts the way batch attribution needs: nothing
/// fired, only non-ASCII characters fired, or the first keystroke passed
/// through first.
pub open spec fn batch_shape(out: Seq<char>, q: Seq<char>) -> bool {
    ||| out.len() == 0
    ||| (forall|i: int| 0 <= i < out.len() ==> !is_ascii_char(#[trigger] out[i]))
    ||| (q.len() > 0 && is_ascii_char(out[0]) && out[0] == q[0])
}

/// One keystroke `k` after the pending keys `pend`: what fires carries
/// exactly the keystrokes it consumed, and what stays pending is the rest.
proof fn lemma_resolve_attribution(pend: Seq<char>, k: char, w: Width, s: bool)
    requires
        pend.len() == 0 || is_key_prefix(pend),
    ensures
        ({
            let q = pend.push(k);
            let res = resolve(Seq::empty(), q);
            let m = q.len() - res.1.len();
            &&& 0 <= m <= q.len()
            &&& res.1 == q.skip(m)
            &&& res.0.len() == 0 ==> m == 0
            &&& raw_text_of(batch_from(res.0, q.take(m), w, s, 0, 0)) == q.take(m)
            &&& q[0] != 'n' ==> batch_shape(res.0, q)
        }),
    decreases pend.len(),
{
    let q = pend.push(k);
    let e = Seq::<char>::empty();
    lemma_resolve_rest(q);
    let res = resolve(e, q);
    let m = q.len() - res.1.len();
    if pend.len() > 0 {
        lemma_table_prefixes(pend);
    }
    if rule_output(q) is Some {
        let kk = rule_output(q)->0;
        lemma_table_outputs(q);
        assert(res.0 =~= kk);
        assert(q.take(m) =~= q);
        lemma_batch_all_fired(kk, q, w, s);
    } else if is_key_prefix(q) {
        assert(res.0.len() == 0);
        assert(batch_from(res.0, q.take(m), w, s, 0, 0) =~= Seq::<ElementView>::empty());
        assert(q.take(m) =~= e);
    } else if q.len() >= 2 && q[0] == q[1] && is_sokuon_consonant(q[0]) {
        if pend.len() >= 2 {
            assert(pend[0] == q[0] && pend[1] == q[1]);
        }
        let r = q.drop_first();
        assert(r =~= pend);
        lemma_resolve_text(e.push('っ'), r);
        assert(resolve(e, r) == (e, r));
        assert(res.0 =~= seq!['っ']);
        assert(m == 1);
        lemma_batch_all_fired(seq!['っ'], q.take(1), w, s);
    } else if q.len() >= 2 && q[0] == 'n' {
        let r = q.drop_first();
        let pend2 = pend.drop_first();
        assert(r =~= pend2.push(k));
        lemma_resolve_attribution(pend2, k, w, s);
        lemma_resolve_text(e.push('ん'), r);
        lemma_resolve_rest(r);
        let rr = resolve(e, r);
        let mr = r.len() - rr.1.len();
        assert(res.0 =~= seq!['ん'] + rr.0);
        assert(m == 1 + mr);
        assert(q.take(m) =~= seq!['n'] + r.take(mr));
        if pend.len() == 1 {
            if k == 'n' {
                lemma_table_nn();
                assert(q =~= seq!['n', 'n']);
            }
            assert(r[0] == k);
        } else {
            assert(pend =~= seq!['n', 'y']);
            assert(r[0] == 'y');
        }
        assert(r[0] != 'n');
        let b = seq!['ん'] + rr.0;
        let raw = seq!['n'] + r.take(mr);
        if rr.0.len() == 0 {
            assert(b =~= seq!['ん']);
            assert(raw =~= seq!['n']);
            lemma_batch_all_fired(b, raw, w, s);
        } else if forall|i: int| 0 <= i < rr.0.len() ==> !is_ascii_char(#[trigger] rr.0[i]) {
            assert forall|i: int| 0 <= i < b.len() implies !is_ascii_char(#[trigger] b[i]) by {
                if i > 0 {
                    assert(b[i] == rr.0[i - 1]);
                }
            }
            lemma_batch_all_fired(b, raw, w, s);
        } else {
            let c = rr.0[0];
            assert(is_ascii_char(c) && c == r[0]);
            assert(mr >= 1);
            assert(b[1] == c);
            assert(next_ascii(b, 1) == 1);
            assert(raw[0] == 'n');
            assert(raw[1] == c);
            assert(find_from(raw, 1, c) == 1);
            assert(find_from(raw, 0, c) == 1);
            let f = fired_run(b, 0, 1, raw.subrange(0, 1), w);
            assert(batch_from(b, raw, w, s, 0, 0) == f + batch_from(b, raw, w, s, 1, 1));
            lemma_batch_shift(b, raw, w, s, 1, 1, 1, 1);
            assert(b.skip(1) =~= rr.0);
            assert(raw.skip(1) =~= r.take(mr));
            lemma_raw_fired_run(b, 0, 1, raw.subrange(0, 1), w);
            lemma_raw_concat(f, batch_from(b, raw, w, s, 1, 1));
            assert(raw.subrange(0, 1) + r.take(mr) =~= raw);
        }
    } else {
        let c = q[0];
        let r = q.drop_first();
        lemma_resolve_text(e.push(c), r);
        lemma_resolve_rest(r);
        let rr = resolve(e, r);
        let mr = r.len() - rr.1.len();
        assert(res.0 =~= seq![c] + rr.0);
        assert(m == 1 + mr);
        assert(q.take(m) =~= seq![c] + r.take(mr));
        let b = seq![c] + rr.0;
        let raw = seq![c] + r.take(mr);
        if q.len() == 1 {
            assert(r.len() == 0);
            assert(rr.0.len() == 0);
            assert(b =~= seq![c]);
            assert(raw =~= seq![c]);
            if is_ascii_char(c) {
                let pe = passthrough_element(c, w, s);
                assert(batch_from(b, raw, w, s, 1, 1) =~= Seq::<ElementView>::empty());
                assert(batch_from(b, raw, w, s, 0, 0) =~= seq![pe]);
                lemma_raw_single(pe);
            } else {
                lemma_batch_all_fired(b, raw, w, s);
            }
        } else {
            assert(pend.len() >= 1);
            assert(c == pend[0]);
            assert(is_ascii_char(c));
            let pend2 = pend.drop_first();
            assert(r =~= pend2.push(k));
            lemma_resolve_attribution(pend2, k, w, s);
            let pe = passthrough_element(c, w, s);
            assert(batch_from(b, raw, w, s, 0, 0) == seq![pe] + batch_from(b, raw, w, s, 1, 1));
            lemma_batch_shift(b, raw, w, s, 1, 1, 1, 1);
            assert(b.skip(1) =~= rr.0);
            assert(raw.skip(1) =~= r.take(mr));
            lemma_raw_single(pe);
            lemma_raw_concat(seq![pe], batch_from(b, raw, w, s, 1, 1));
        }
    }
}

/// Keystrokes passed through verbatim carry themselves.
proof fn lemma_batch_aligned(p: Seq<char>, w: Width, s: bool, i: int)
    requires
        0 <= i <= p.len(),
        forall|k: int| 0 <= k < p.len() ==> is_ascii_char(#[trigger] p[k]),
    ensures
        raw_text_of(batch_from(p, p, w, s, i, i)) == p.skip(i),
    decreases p.len() - i,
{
    if i == p.len() {
        assert(p.skip(i) =~= Seq::<char>::empty());
        assert(batch_from(p, p, w, s, i, i) =~= Seq::<ElementView>::empty());
    } else {
        assert(is_ascii_char(p[i]));
        let pe = passthrough_element(p[i], w, s);
        lemma_batch_aligned(p, w, s, i + 1);
        assert(batch_from(p, p, w, s, i, i) == seq![pe] + batch_from(p, p, w, s, i + 1, i + 1));
        lemma_raw_single(pe);
        lemma_raw_concat(seq![pe], batch_from(p, p, w, s, i + 1, i + 1));
        assert(seq![p[i]] + p.skip(i + 1) =~= p.skip(i));
    }
}

/// Replay invariant: after `n` keystrokes of a run, the recorded elements
/// carry the keystrokes that fired them, the keystrokes since the last
/// emission are exactly the converter's pending ones, and the emitted count
/// is the length of the fired text.
proof fn lemma_eval_state(run: Seq<char>, n: int, w: Width, s: bool)
    requires
        0 <= n <= run.len(),
    ensures
        ({
            let st = eval_state(run, n, w, s);
            let conv = spec_convert(run.take(n));
            &&& st.pending == conv.1
            &&& st.group_raw == conv.1
            &&& st.emitted == conv.0.len()
            &&& raw_text_of(st.elements) + st.group_raw == run.take(n)
        }),
    decreases n,
{
    let e = Seq::<char>::empty();
    if n == 0 {
        assert(run.take(0) =~= e);
        assert(raw_text_of(Seq::<ElementView>::empty()) == e);
        assert(e + e =~= e);
    } else {
        lemma_eval_state(run, n - 1, w, s);
        let st0 = eval_state(run, n - 1, w, s);
        let conv0 = spec_convert(run.take(n - 1));
        let k = run[n - 1];
        assert(run.take(n).drop_last() =~= run.take(n - 1));
        assert(run.take(n).last() == k);
        lemma_convert_pending(run.take(n - 1));
        let q = conv0.1.push(k);
        lemma_resolve_text(conv0.0, q);
        lemma_resolve_attribution(conv0.1, k, w, s);
        let res = resolve(e, q);
        let m = q.len() - res.1.len();
        assert(spec_convert(run.take(n)) == (conv0.0 + res.0, res.1));
        assert(st0.group_raw.push(k) == q);
        assert(run.take(n - 1).push(k) =~= run.take(n));
        if res.0.len() > 0 {
            let text = conv0.0 + res.0;
            assert(text.subrange(conv0.0.len() as int, text.len() as int) =~= res.0);
            let batch = batch_elements(res.0, q.take(m), w, s);
            lemma_raw_concat(st0.elements, batch);
            assert(q.take(m) + q.skip(m) =~= q);
            assert(raw_text_of(st0.elements) + q =~= run.take(n));
            assert(raw_text_of(st0.elements + batch) + res.1 =~= run.take(n));
        } else {
            assert(m == 0);
            assert(res.1 =~= q);
            assert(raw_text_of(st0.elements) + q =~= run.take(n));
        }
    }
}

/// Evaluation keeps the keystrokes: concatenated over the elements a run
/// evaluates to, the raw keystrokes are the run itself — fired rules carry
/// the keys that fired them, passthroughs and live keystrokes carry
/// themselves. This is what F9/F10 convert back to.
pub proof fn lemma_evaluation_keeps_keystrokes(run: Seq<char>, w: Width, flush: bool)
    ensures
        raw_text_of(evaluated(run, w, flush)) == run,
{
    lemma_eval_state(run, run.len() as int, w, flush);
    assert(run.take(run.len() as int) =~= run);
    let st = eval_state(run, run.len() as int, w, flush);
    lemma_convert_pending(run);
    if flush {
        let f = flush_spec(st.pending);
        if f.len() > 0 {
            let batch = batch_elements(f, st.group_raw, w, true);
            lemma_raw_concat(st.elements, batch);
            if st.pending == seq!['n'] {
                assert(f =~= seq!['ん']);
                lemma_batch_all_fired(f, st.group_raw, w, true);
            } else {
                lemma_table_prefixes(st.pending);
                assert(f == st.pending);
                lemma_batch_aligned(st.pending, w, true, 0);
                assert(st.pending.skip(0) =~= st.pending);
            }
        } else {
            assert(st.pending.len() == 0);
            assert(raw_text_of(st.elements) =~= raw_text_of(st.elements) + st.group_raw);
        }
    } else {
        lemma_raw_concat(st.elements, romaji_views(st.pending));
        lemma_raw_live(st.pending);
    }
}

/// Displayed characters of a sequence of elements.
pub open spec fn display_of(els: Seq<ElementView>) -> Seq<char> {
    els.map_values(|e: ElementView| ch_of(e))
}

pub proof fn lemma_display_concat(a: Seq<ElementView>, b: Seq<ElementView>)
    ensures
        display_of(a + b) == display_of(a) + display_of(b),
{
    assert(display_of(a + b) =~= display_of(a) + display_of(b));
}

/// A batch displays as the characters that fired, at the converter's
/// width — when every passthrough settles, or at half width, where a live
/// keystroke shows as itself.
proof fn lemma_batch_display(b: Seq<char>, raw: Seq<char>, w: Width, s: bool, i: int, r: int)
    requires
        0 <= i <= b.len(),
        s || w == Width::Half,
    ensures
        display_of(batch_from(b, raw, w, s, i, r)) == at_width(w, b.skip(i)),
    decreases b.len() - i,
{
    if i == b.len() {
        assert(b.skip(i) =~= Seq::<char>::empty());
        assert(display_of(batch_from(b, raw, w, s, i, r)) =~= at_width(w, b.skip(i)));
    } else if is_ascii_char(b[i]) {
        let r2 = if 0 <= r < raw.len() && raw[r] == b[i] {
            r + 1
        } else {
            r
        };
        let pe = passthrough_element(b[i], w, s);
        lemma_batch_display(b, raw, w, s, i + 1, r2);
        lemma_display_concat(seq![pe], batch_from(b, raw, w, s, i + 1, r2));
        assert(display_of(seq![pe]) =~= seq![apply_width(w, b[i])]);
        assert(seq![apply_width(w, b[i])] + at_width(w, b.skip(i + 1)) =~= at_width(w, b.skip(i)));
    } else {
        lemma_next_ascii_bounds(b, i + 1);
        let j = next_ascii(b, i + 1);
        let end = if j < b.len() {
            find_from(raw, r, b[j])
        } else {
            raw.len() as int
        };
        let f = fired_run(b, i, j, raw.subrange(r, end), w);
        lemma_batch_display(b, raw, w, s, j, end);
        lemma_display_concat(f, batch_from(b, raw, w, s, j, end));
        assert(display_of(f) =~= at_width(w, b.subrange(i, j)));
        assert(at_width(w, b.subrange(i, j)) + at_width(w, b.skip(j)) =~= at_width(w, b.skip(i)));
    }
}

proof fn lemma_eval_state_display(run: Seq<char>, n: int, w: Width, s: bool)
    requires
        0 <= n <= run.len(),
        s || w == Width::Half,
    ensures
        display_of(eval_state(run, n, w, s).elements) == at_width(w, spec_convert(run.take(n)).0),
    decreases n,
{
    let e = Seq::<char>::empty();
    if n == 0 {
        assert(run.take(0) =~= e);
        assert(display_of(Seq::<ElementView>::empty()) =~= at_width(w, e));
    } else {
        lemma_eval_state_display(run, n - 1, w, s);
        lemma_eval_state(run, n - 1, w, s);
        let st0 = eval_state(run, n - 1, w, s);
        let conv0 = spec_convert(run.take(n - 1));
        let k = run[n - 1];
        assert(run.take(n).drop_last() =~= run.take(n - 1));
        assert(run.take(n).last() == k);
        let q = conv0.1.push(k);
        lemma_resolve_text(conv0.0, q);
        let res = resolve(e, q);
        assert(spec_convert(run.take(n)) == (conv0.0 + res.0, res.1));
        if res.0.len() > 0 {
            let text = conv0.0 + res.0;
            assert(text.subrange(conv0.0.len() as int, text.len() as int) =~= res.0);
            let split: int = if q.len() >= res.1.len() {
                q.len() - res.1.len()
            } else {
                0
            };
            let batch = batch_elements(res.0, q.take(split), w, s);
            lemma_batch_display(res.0, q.take(split), w, s, 0, 0);
            assert(res.0.skip(0) =~= res.0);
            lemma_display_concat(st0.elements, batch);
            assert(at_width(w, conv0.0) + at_width(w, res.0) =~= at_width(w, text));
        } else {
            assert(conv0.0 + res.0 =~= conv0.0);
        }
    }
}

/// A run evaluated with every keystroke settled displays as its
/// conversion with the pending keystrokes flushed, at the converter's
/// width.
pub proof fn lemma_evaluation_display(run: Seq<char>, w: Width)
    ensures
        display_of(evaluated(run, w, true)) == at_width(w, convert_flush_spec(run)),
{
    lemma_eval_state_display(run, run.len() as int, w, true);
    lemma_eval_state(run, run.len() as int, w, true);
    assert(run.take(run.len() as int) =~= run);
    let st = eval_state(run, run.len() as int, w, true);
    let f = flush_spec(st.pending);
    if f.len() > 0 {
        let batch = batch_elements(f, st.group_raw, w, true);
        lemma_batch_display(f, st.group_raw, w, true, 0, 0);
        assert(f.skip(0) =~= f);
        lemma_display_concat(st.elements, batch);
        assert(at_width(w, spec_convert(run).0) + at_width(w, f) =~= at_width(w, spec_convert(run).0 + f));
    } else {
        assert(spec_convert(run).0 + f =~= spec_convert(run).0);
    }
}

/// No element of the sequence is a live keystroke.
pub open spec fn all_settled(els: Seq<ElementView>) -> bool {
    forall|k: int| 0 <= k < els.len() ==> !is_romaji(#[trigger] els[k])
}

proof fn lemma_batch_settled(b: Seq<char>, raw: Seq<char>, w: Width)
    ensures
        all_settled(batch_elements(b, raw, w, true)),
{
    lemma_batch_elements_shape(b, raw, w, true, 0, 0);
    let bs = batch_elements(b, raw, w, true);
    assert forall|k: int| 0 <= k < bs.len() implies !is_romaji(#[trigger] bs[k]) by {
        assert(bs[k] == batch_from(b, raw, w, true, 0, 0)[k - 0]);
    }
}

proof fn lemma_eval_state_settled(run: Seq<char>, n: int, w: Width)
    ensures
        all_settled(eval_state(run, n, w, true).elements),
    decreases n,
{
    if n > 0 {
        lemma_eval_state_settled(run, n - 1, w);
        let st0 = eval_state(run, n - 1, w, true);
        let group = st0.group_raw.push(run[n - 1]);
        let conv = spec_convert(run.take(n));
        let split: int = if group.len() >= conv.1.len() {
            group.len() - conv.1.len()
        } else {
            0
        };
        let batch = batch_elements(
            conv.0.subrange(st0.emitted as int, conv.0.len() as int),
            group.take(split),
            w,
            true,
        );
        lemma_batch_settled(
            conv.0.subrange(st0.emitted as int, conv.0.len() as int),
            group.take(split),
            w,
        );
        let els = st0.elements + batch;
        assert forall|k: int| 0 <= k < els.len() implies !is_romaji(#[trigger] els[k]) by {
            if k >= st0.elements.len() {
                assert(els[k] == batch[k - st0.elements.len()]);
            }
        }
    }
}

/// Evaluating with every keystroke settled leaves none live: a passthrough
/// settles even where it could begin a rule, and the pending keystrokes
/// are flushed.
pub proof fn lemma_evaluation_settles(run: Seq<char>, w: Width)
    ensures
        all_settled(evaluated(run, w, true)),
{
    lemma_eval_state_settled(run, run.len() as int, w);
    let st = eval_state(run, run.len() as int, w, true);
    let f = flush_spec(st.pending);
    if f.len() > 0 {
        let batch = batch_elements(f, st.group_raw, w, true);
        lemma_batch_settled(f, st.group_raw, w);
        let els = st.elements + batch;
        assert forall|k: int| 0 <= k < els.len() implies !is_romaji(#[trigger] els[k]) by {
            if k >= st.elements.len() {
                assert(els[k] == batch[k - st.elements.len()]);
            }
        }
    }
}

/// One element per character of a batch: an ASCII character passes
/// through, a non-ASCII one settles as part of a fired run.
proof fn lemma_batch_elements_shape(b: Seq<char>, raw: Seq<char>, w: Width, s: bool, i: int, r: int)
    requires
        0 <= i <= b.len(),
        0 <= r <= raw.len(),
    ensures
        batch_from(b, raw, w, s, i, r).len() == b.len() - i,
        forall|k: int|
            i <= k < b.len() && is_ascii_char(b[k]) ==> #[trigger] batch_from(b, raw, w, s, i, r)[k - i]
                == passthrough_element(b[k], w, s),
        forall|k: int|
            i <= k < b.len() && !is_ascii_char(b[k]) ==> (#[trigger] batch_from(b, raw, w, s, i, r)[k
                - i]) is Converted,
    decreases b.len() - i,
{
    if i < b.len() {
        if is_ascii_char(b[i]) {
            let r2 = if 0 <= r < raw.len() && raw[r] == b[i] {
                r + 1
            } else {
                r
            };
            lemma_batch_elements_shape(b, raw, w, s, i + 1, r2);
            let rest = batch_from(b, raw, w, s, i + 1, r2);
            assert(batch_from(b, raw, w, s, i, r) == seq![passthrough_element(b[i], w, s)] + rest);
            assert forall|k: int| i < k < b.len() implies #[trigger] batch_from(b, raw, w, s, i, r)[k - i] == rest[k
                - (i + 1)] by {}
        } else {
            lemma_next_ascii_bounds(b, i + 1);
            let j = next_ascii(b, i + 1);
            let end = if j < b.len() {
                find_from(raw, r, b[j])
            } else {
                raw.len() as int
            };
            if j < b.len() {
                lemma_find_from_bounds(raw, r, b[j]);
            }
            lemma_batch_elements_shape(b, raw, w, s, j, end);
            let f = fired_run(b, i, j, raw.subrange(r, end), w);
            let rest = batch_from(b, raw, w, s, j, end);
            assert(batch_from(b, raw, w, s, i, r) == f + rest);
            assert forall|k: int| j <= k < b.len() implies #[trigger] batch_from(b, raw, w, s, i, r)[k - i] == rest[k
                - j] by {}
            assert forall|k: int| i <= k < j implies (#[trigger] batch_from(b, raw, w, s, i, r)[k - i]) is Converted by {
                assert(batch_from(b, raw, w, s, i, r)[k - i] == f[k - i]);
            }
        }
    }
}

/// The replay of the first `n` keystrokes only looks at those keystrokes.
proof fn lemma_eval_state_prefix(run: Seq<char>, more: Seq<char>, n: int, w: Width, s: bool)
    requires
        0 <= n <= run.len(),
    ensures
        eval_state(run + more, n, w, s) == eval_state(run, n, w, s),
    decreases n,
{
    if n > 0 {
        lemma_eval_state_prefix(run, more, n - 1, w, s);
        assert((run + more).take(n) =~= run.take(n));
        assert((run + more)[n - 1] == run[n - 1]);
    }
}

/// Where the trailing live run of `a + b` starts.
pub proof fn lemma_run_start_concat(a: Seq<ElementView>, b: Seq<ElementView>)
    ensures
        (forall|k: int| 0 <= k < b.len() ==> is_romaji(#[trigger] b[k])) ==> live_start(a + b) == live_start(a),
        (exists|k: int| 0 <= k < b.len() && !is_romaji(#[trigger] b[k])) ==> live_start(a + b) == a.len()
            + live_start(b),
    decreases b.len(),
{
    if b.len() > 0 {
        let b0 = b.drop_last();
        lemma_run_start_concat(a, b0);
        assert((a + b).drop_last() =~= a + b0);
        assert((a + b).last() == b.last());
        lemma_live_start_step(a + b);
        lemma_live_start_step(b);
        if is_romaji(b.last()) {
            if exists|k: int| 0 <= k < b.len() && !is_romaji(#[trigger] b[k]) {
                let k = choose|k: int| 0 <= k < b.len() && !is_romaji(#[trigger] b[k]);
                assert(k < b.len() - 1);
                assert(b0[k] == b[k]);
            } else {
                assert forall|k: int| 0 <= k < b0.len() implies is_romaji(#[trigger] b0[k]) by {
                    assert(b0[k] == b[k]);
                }
            }
        }
    }
}

/// Start of the trailing run of live elements.
pub open spec fn live_start(els: Seq<ElementView>) -> int
    decreases els.len(),
{
    if els.len() == 0 {
        0
    } else if !is_romaji(els.last()) {
        els.len() as int
    } else {
        live_start(els.drop_last())
    }
}

proof fn lemma_live_start_step(els: Seq<ElementView>)
    ensures
        0 <= live_start(els) <= els.len(),
        forall|k: int| live_start(els) <= k < els.len() ==> is_romaji(#[trigger] els[k]),
        live_start(els) > 0 ==> !is_romaji(els[live_start(els) - 1]),
    decreases els.len(),
{
    if els.len() > 0 && is_romaji(els.last()) {
        lemma_live_start_step(els.drop_last());
        assert forall|k: int| live_start(els) <= k < els.len() implies is_romaji(#[trigger] els[k]) by {
            if k < els.len() - 1 {
                assert(els.drop_last()[k] == els[k]);
            }
        }
        if live_start(els) > 0 {
            assert(els.drop_last()[live_start(els) - 1] == els[live_start(els) - 1]);
        }
    }
}
/// Live keystrokes display as themselves and stand for themselves.
pub proof fn lemma_live_display_is_raw(x: Seq<ElementView>)
    requires
        forall|k: int| 0 <= k < x.len() ==> is_romaji(#[trigger] x[k]),
    ensures
        display_of(x) == raw_text_of(x),
    decreases x.len(),
{
    if x.len() > 0 {
        lemma_live_display_is_raw(x.drop_last());
        assert(display_of(x).drop_last() =~= display_of(x.drop_last()));
        assert(is_romaji(x.last()));
        assert(display_of(x) =~= display_of(x.drop_last()).push(ch_of(x.last())));
    } else {
        assert(display_of(x) =~= Seq::<char>::empty());
    }
}


/// Replaying the keystrokes of a key's beginning records nothing.
proof fn lemma_replay_key_prefix(pp: Seq<char>, n: int, w: Width)
    requires
        pp.len() == 0 || is_key_prefix(pp),
        0 <= n <= pp.len(),
    ensures
        eval_state(pp, n, w, false).elements == Seq::<ElementView>::empty(),
    decreases n,
{
    if n > 0 {
        lemma_replay_key_prefix(pp, n - 1, w);
        lemma_eval_state(pp, n - 1, w, false);
        lemma_table_prefix_parts(pp, n);
        lemma_convert_key_prefix(pp.take(n));
    }
}


/// The live tail of the replay of `run`: its trailing live elements, as
/// the keystrokes they show, followed by its pending keystrokes.
pub open spec fn tail_keys(run: Seq<char>, w: Width) -> Seq<char> {
    let st = eval_state(run, run.len() as int, w, false);
    display_of(st.elements.skip(live_start(st.elements))) + st.pending
}

/// Replaying just the live tail of `run` from scratch records the same
/// trailing live elements and leaves the same keystrokes pending.
pub open spec fn tail_replays(run: Seq<char>, w: Width) -> bool {
    let st = eval_state(run, run.len() as int, w, false);
    let tail = st.elements.skip(live_start(st.elements));
    let keys = tail_keys(run, w);
    &&& eval_state(keys, keys.len() as int, w, false).elements == tail
    &&& spec_convert(keys) == (display_of(tail), st.pending)
}

/// What fires when keystroke `c` follows the pending keys `p`.
pub open spec fn key_out(p: Seq<char>, c: char) -> Seq<char> {
    resolve(Seq::empty(), p.push(c)).0
}

/// What stays pending when keystroke `c` follows the pending keys `p`.
pub open spec fn key_rest(p: Seq<char>, c: char) -> Seq<char> {
    resolve(Seq::empty(), p.push(c)).1
}

/// The elements recorded when keystroke `c` follows the pending keys `p`.
pub open spec fn key_batch(p: Seq<char>, c: char, w: Width) -> Seq<ElementView> {
    let q = p.push(c);
    let m = q.len() - key_rest(p, c).len();
    if key_out(p, c).len() > 0 {
        batch_elements(key_out(p, c), q.take(m), w, false)
    } else {
        Seq::empty()
    }
}

proof fn lemma_key_batch(p: Seq<char>, c: char, w: Width)
    requires
        p.len() == 0 || is_key_prefix(p),
    ensures
        ({
            let q = p.push(c);
            let out = key_out(p, c);
            let bb = key_batch(p, c, w);
            let m = q.len() - key_rest(p, c).len();
            &&& 0 <= m <= q.len()
            &&& key_rest(p, c) == q.skip(m)
            &&& bb.len() == out.len()
            &&& out.len() == 0 ==> m == 0
            &&& out.len() > 0 ==> raw_text_of(bb) == q.take(m)
            &&& forall|k: int|
                0 <= k < bb.len() && is_ascii_char(out[k]) ==> #[trigger] bb[k] == passthrough_element(
                    out[k],
                    w,
                    false,
                )
            &&& forall|k: int|
                0 <= k < bb.len() && is_romaji(#[trigger] bb[k]) ==> is_ascii_char(out[k]) && bb[k]
                    == ElementView::Romaji(out[k])
        }),
{
    let q = p.push(c);
    let out = key_out(p, c);
    let m = q.len() - key_rest(p, c).len();
    lemma_resolve_attribution(p, c, w, false);
    lemma_resolve_rest(q);
    if out.len() > 0 {
        lemma_batch_elements_shape(out, q.take(m), w, false, 0, 0);
        let bb = key_batch(p, c, w);
        assert forall|k: int| 0 <= k < bb.len() && is_ascii_char(out[k]) implies #[trigger] bb[k]
            == passthrough_element(out[k], w, false) by {
            assert(bb[k] == batch_from(out, q.take(m), w, false, 0, 0)[k - 0]);
        }
        assert forall|k: int| 0 <= k < bb.len() && is_romaji(#[trigger] bb[k]) implies is_ascii_char(out[k])
            && bb[k] == ElementView::Romaji(out[k]) by {
            assert(bb[k] == batch_from(out, q.take(m), w, false, 0, 0)[k - 0]);
        }
    }
}

/// One more keystroke `c` after `run`: the replay records the batch that
/// fires from its pending keys, and the conversion moves on the same way.
proof fn lemma_replay_step(run: Seq<char>, c: char, w: Width)
    ensures
        ({
            let st0 = eval_state(run, run.len() as int, w, false);
            let p = st0.pending;
            let st = eval_state(run.push(c), (run.len() + 1) as int, w, false);
            &&& p == spec_convert(run).1
            &&& p.len() == 0 || is_key_prefix(p)
            &&& st.elements == st0.elements + key_batch(p, c, w)
            &&& st.pending == key_rest(p, c)
            &&& spec_convert(run.push(c)) == (spec_convert(run).0 + key_out(p, c), key_rest(p, c))
        }),
{
    let e = Seq::<char>::empty();
    let k1 = run.push(c);
    assert(run + seq![c] =~= k1);
    lemma_eval_state_prefix(run, seq![c], run.len() as int, w, false);
    lemma_eval_state(run, run.len() as int, w, false);
    assert(run.take(run.len() as int) =~= run);
    lemma_convert_pending(run);
    let p = spec_convert(run).1;
    let q = p.push(c);
    assert(k1.take((run.len() + 1) as int) =~= k1);
    assert(k1.drop_last() =~= run);
    assert(k1[run.len() as int] == c);
    lemma_resolve_text(spec_convert(run).0, q);
    lemma_resolve_rest(q);
    let out = key_out(p, c);
    let st0 = eval_state(run, run.len() as int, w, false);
    assert(eval_state(k1, run.len() as int, w, false) == st0);
    assert(st0.group_raw == p);
    assert(spec_convert(k1) == (spec_convert(run).0 + out, key_rest(p, c)));
    let st = eval_state(k1, (run.len() + 1) as int, w, false);
    assert(st == eval_step(st0, k1, run.len() as int, w, false));
    if out.len() > 0 {
        let text = spec_convert(run).0 + out;
        assert(text.subrange(spec_convert(run).0.len() as int, text.len() as int) =~= out);
        assert(st.elements == st0.elements + key_batch(p, c, w));
    } else {
        assert(spec_convert(run).0 + out =~= spec_convert(run).0);
        assert(st.elements == st0.elements);
        assert(st0.elements + key_batch(p, c, w) =~= st0.elements);
    }
}

/// The tail step when the new batch records only live elements: the tail
/// grows by the batch, and its keys by the keystroke.
#[verifier::rlimit(40)]
proof fn lemma_tail_live_batch(k0: Seq<char>, c: char, w: Width)
    requires
        tail_replays(k0, w),
        ({
            let p = eval_state(k0, k0.len() as int, w, false).pending;
            forall|k: int| 0 <= k < key_batch(p, c, w).len() ==> is_romaji(#[trigger] key_batch(p, c, w)[k])
        }),
    ensures
        tail_replays(k0.push(c), w),
{
    let e = Seq::<char>::empty();
    let run = k0.push(c);
    lemma_replay_step(k0, c, w);
    let st0 = eval_state(k0, k0.len() as int, w, false);
    let p = st0.pending;
    let q = p.push(c);
    lemma_key_batch(p, c, w);
    let out = key_out(p, c);
    let bb = key_batch(p, c, w);
    let m = q.len() - key_rest(p, c).len();
    let st = eval_state(run, run.len() as int, w, false);
    lemma_run_start_concat(st0.elements, bb);
    let t0 = st0.elements.skip(live_start(st0.elements));
    let tail = t0 + bb;
    lemma_live_start_step(st0.elements);
    assert(st.elements.skip(live_start(st.elements)) =~= tail);
    assert(display_of(bb) =~= out) by {
        assert forall|k: int| 0 <= k < bb.len() implies #[trigger] display_of(bb)[k] == out[k] by {
            assert(is_romaji(bb[k]));
        }
    }
    if out.len() > 0 {
        lemma_live_display_is_raw(bb);
    }
    assert(out + key_rest(p, c) =~= q);
    let s0 = tail_keys(k0, w);
    let keys = tail_keys(run, w);
    lemma_display_concat(t0, bb);
    assert(keys =~= s0.push(c));
    lemma_replay_step(s0, c, w);
    lemma_eval_state(s0, s0.len() as int, w, false);
    assert(s0.take(s0.len() as int) =~= s0);
    assert(eval_state(keys, keys.len() as int, w, false).elements =~= tail);
    assert(display_of(tail) =~= display_of(t0) + out);
}

/// The tail step when the new batch settles something: the tail restarts
/// inside the batch, and its keys are the keystrokes after that point.
proof fn lemma_tail_settled_batch(k0: Seq<char>, c: char, w: Width)
    requires
        ({
            let p = eval_state(k0, k0.len() as int, w, false).pending;
            exists|k: int| 0 <= k < key_batch(p, c, w).len() && !is_romaji(#[trigger] key_batch(p, c, w)[k])
        }),
    ensures
        tail_replays(k0.push(c), w),
{
    let e = Seq::<char>::empty();
    let ee = Seq::<ElementView>::empty();
    let run = k0.push(c);
    lemma_replay_step(k0, c, w);
    let st0 = eval_state(k0, k0.len() as int, w, false);
    let p = st0.pending;
    let q = p.push(c);
    lemma_key_batch(p, c, w);
    let out = key_out(p, c);
    let p2 = key_rest(p, c);
    let bb = key_batch(p, c, w);
    let m = q.len() - p2.len();
    let st = eval_state(run, run.len() as int, w, false);
    lemma_run_start_concat(st0.elements, bb);
    lemma_live_start_step(bb);
    let i0 = live_start(bb);
    let tail = bb.skip(i0);
    assert(st.elements.skip(live_start(st.elements)) =~= tail);
    let keys = tail_keys(run, w);
    assert(keys == display_of(tail) + p2);
    assert(i0 >= 1);
    assert(out.len() > 0);
    assert(st.pending == p2);
    if tail.len() == 0 && p2.len() == 0 {
        assert(display_of(tail) =~= e);
        assert(keys =~= e);
        assert(eval_state(keys, 0, w, false).elements == ee);
        assert(spec_convert(keys) == (e, e));
        assert(tail =~= ee);
    } else {
        lemma_settled_batch_keys(p, c, w);
        lemma_settled_batch_replay(p, c, w);
        assert(eval_state(keys, keys.len() as int, w, false).elements == tail);
        assert(spec_convert(keys) == (display_of(tail), p2));
    }
}

/// Where the tail of a settling batch starts in the keystrokes.
proof fn lemma_settled_batch_keys(p: Seq<char>, c: char, w: Width)
    requires
        p.len() == 0 || is_key_prefix(p),
        exists|k: int| 0 <= k < key_batch(p, c, w).len() && !is_romaji(#[trigger] key_batch(p, c, w)[k]),
        key_batch(p, c, w).skip(live_start(key_batch(p, c, w))).len() > 0 || key_rest(p, c).len() > 0,
    ensures
        ({
            let bb = key_batch(p, c, w);
            let i0 = live_start(bb);
            let out = key_out(p, c);
            let q = p.push(c);
            &&& 1 <= i0 <= out.len() <= single_steps(q)
            &&& display_of(bb.skip(i0)) == out.skip(i0)
            &&& display_of(bb.skip(i0)) + key_rest(p, c) == q.skip(i0)
            &&& forall|k: int| 0 <= k < bb.skip(i0).len() ==> is_romaji(#[trigger] bb.skip(i0)[k])
        }),
{
    let q = p.push(c);
    lemma_key_batch(p, c, w);
    let out = key_out(p, c);
    let p2 = key_rest(p, c);
    let bb = key_batch(p, c, w);
    let m = q.len() - p2.len();
    lemma_live_start_step(bb);
    let i0 = live_start(bb);
    let tail = bb.skip(i0);
    assert(i0 >= 1);
    assert(out.len() > 0);
    lemma_resolve_chain(q, 0);
    if tail.len() > 0 {
        assert(is_romaji(bb[bb.len() - 1]));
        assert(out.last() == out[out.len() - 1]);
    }
    let ss = single_steps(q) as int;
    lemma_resolve_chain(q, ss);
    assert(out.len() == ss);
    assert(m == ss);
    lemma_raw_concat(bb.take(i0), bb.skip(i0));
    assert(bb.take(i0) + bb.skip(i0) =~= bb);
    assert forall|k: int| 0 <= k < tail.len() implies is_romaji(#[trigger] tail[k]) by {
        assert(tail[k] == bb[i0 + k]);
    }
    lemma_live_display_is_raw(tail);
    assert(display_of(tail) =~= out.skip(i0)) by {
        assert forall|k: int| 0 <= k < tail.len() implies #[trigger] display_of(tail)[k] == out.skip(i0)[k] by {
            assert(tail[k] == bb[i0 + k]);
            assert(is_romaji(bb[i0 + k]));
        }
    }
    assert(q.take(m) =~= raw_text_of(bb.take(i0)) + out.skip(i0));
    assert(out.skip(i0) =~= q.subrange(i0, m));
    assert(display_of(tail) + p2 =~= q.skip(i0));
}

/// Replaying the keystrokes after the settling point records the tail.
proof fn lemma_settled_batch_replay(p: Seq<char>, c: char, w: Width)
    requires
        p.len() == 0 || is_key_prefix(p),
        exists|k: int| 0 <= k < key_batch(p, c, w).len() && !is_romaji(#[trigger] key_batch(p, c, w)[k]),
        key_batch(p, c, w).skip(live_start(key_batch(p, c, w))).len() > 0 || key_rest(p, c).len() > 0,
    ensures
        ({
            let bb = key_batch(p, c, w);
            let tail = bb.skip(live_start(bb));
            let keys = display_of(tail) + key_rest(p, c);
            &&& eval_state(keys, keys.len() as int, w, false).elements == tail
            &&& spec_convert(keys) == (display_of(tail), key_rest(p, c))
        }),
{
    let e = Seq::<char>::empty();
    let ee = Seq::<ElementView>::empty();
    let q = p.push(c);
    lemma_key_batch(p, c, w);
    lemma_settled_batch_keys(p, c, w);
    let out = key_out(p, c);
    let p2 = key_rest(p, c);
    let bb = key_batch(p, c, w);
    let i0 = live_start(bb);
    let tail = bb.skip(i0);
    let keys = display_of(tail) + p2;
    lemma_resolve_chain(q, i0);
    let pp = p.skip(i0);
    if i0 < p.len() {
        lemma_table_prefix_parts(p, i0);
    } else {
        assert(pp.len() == 0);
    }
    assert(keys =~= pp.push(c));
    lemma_replay_step(pp, c, w);
    lemma_replay_key_prefix(pp, pp.len() as int, w);
    lemma_eval_state(pp, pp.len() as int, w, false);
    lemma_convert_key_prefix(pp);
    assert(pp.take(pp.len() as int) =~= pp);
    assert(keys.len() == pp.len() + 1);
    assert(key_out(pp, c) == out.skip(i0));
    assert(key_rest(pp, c) == p2);
    assert(e + out.skip(i0) =~= out.skip(i0));
    let st_k = eval_state(keys, keys.len() as int, w, false);
    assert(st_k.elements == ee + key_batch(pp, c, w));
    if i0 < out.len() {
        lemma_key_batch(pp, c, w);
        assert forall|k: int| 0 <= k < tail.len() implies #[trigger] st_k.elements[k] == tail[k] by {
            assert(tail[k] == bb[i0 + k]);
            assert(is_romaji(bb[i0 + k]));
            assert(out.skip(i0)[k] == out[i0 + k]);
            assert(is_ascii_char(out[i0 + k]));
            assert(key_batch(pp, c, w)[k] == passthrough_element(out[i0 + k], w, false));
            assert((ee + key_batch(pp, c, w))[k] == key_batch(pp, c, w)[k]);
        }
        assert(st_k.elements =~= tail);
    } else {
        assert(tail.len() == 0);
        assert(key_batch(pp, c, w) == ee);
        assert(st_k.elements =~= tail);
    }
}

/// Replaying just the live tail of a run from scratch records the same
/// trailing live elements and leaves the same keystrokes pending.
proof fn lemma_tail_replay(run: Seq<char>, w: Width)
    ensures
        tail_replays(run, w),
    decreases run.len(),
{
    let e = Seq::<char>::empty();
    let ee = Seq::<ElementView>::empty();
    if run.len() == 0 {
        let st = eval_state(run, 0, w, false);
        assert(st.elements == ee);
        assert(ee.skip(0) =~= ee);
        assert(display_of(ee) =~= e);
        assert(tail_keys(run, w) =~= e);
    } else {
        let k0 = run.drop_last();
        assert(k0.push(run.last()) =~= run);
        lemma_tail_replay(k0, w);
        lemma_replay_step(k0, run.last(), w);
        let p = eval_state(k0, k0.len() as int, w, false).pending;
        if forall|k: int| 0 <= k < key_batch(p, run.last(), w).len() ==> is_romaji(
            #[trigger] key_batch(p, run.last(), w)[k],
        ) {
            lemma_tail_live_batch(k0, run.last(), w);
        } else {
            lemma_tail_settled_batch(k0, run.last(), w);
        }
    }
}

/// The trailing live run found from a position is the one of the elements
/// before it.
pub proof fn lemma_run_start_is_live_start(els: Seq<ElementView>, n: int)
    requires
        0 <= n <= els.len(),
    ensures
        crate::input_buffer::run_start(els, n) == live_start(els.take(n)),
    decreases n,
{
    if n > 0 {
        lemma_run_start_is_live_start(els, n - 1);
        assert(els.take(n).drop_last() =~= els.take(n - 1));
        assert(els.take(n).last() == els[n - 1]);
    } else {
        assert(els.take(0).len() == 0);
    }
}

/// Evaluating one more keystroke: the elements before the live tail stay,
/// and the tail with the keystroke is evaluated as if typed fresh.
pub proof fn lemma_evaluation_restarts_at_the_tail(keys: Seq<char>, c: char, w: Width)
    ensures
        ({
            let els = evaluated(keys, w, false);
            let ls = live_start(els);
            &&& 0 <= ls <= els.len()
            &&& forall|k: int| ls <= k < els.len() ==> is_romaji(#[trigger] els[k])
            &&& evaluated(keys.push(c), w, false) == els.take(ls) + evaluated(
                display_of(els.skip(ls)).push(c),
                w,
                false,
            )
        }),
{
    let st = eval_state(keys, keys.len() as int, w, false);
    let p = st.pending;
    let lv = romaji_views(p);
    let els = st.elements + lv;
    assert(evaluated(keys, w, false) == els);
    assert forall|k: int| 0 <= k < lv.len() implies is_romaji(#[trigger] lv[k]) by {}
    lemma_run_start_concat(st.elements, lv);
    lemma_live_start_step(st.elements);
    lemma_live_start_step(els);
    let ls = live_start(st.elements);
    let t0 = st.elements.skip(ls);
    lemma_tail_replay(keys, w);
    let s = tail_keys(keys, w);
    assert(els.skip(ls) =~= t0 + lv);
    lemma_display_concat(t0, lv);
    assert(display_of(lv) =~= p);
    assert(display_of(els.skip(ls)) == s);
    lemma_replay_step(keys, c, w);
    lemma_replay_step(s, c, w);
    lemma_eval_state(s, s.len() as int, w, false);
    assert(s.take(s.len() as int) =~= s);
    let st2 = eval_state(s.push(c), (s.len() + 1) as int, w, false);
    let st1 = eval_state(keys.push(c), (keys.len() + 1) as int, w, false);
    assert(st2.elements == t0 + key_batch(p, c, w));
    assert(st1.elements == st.elements + key_batch(p, c, w));
    assert(st.elements =~= els.take(ls) + t0);
    assert(evaluated(keys.push(c), w, false) =~= els.take(ls) + evaluated(s.push(c), w, false));
}

} // verus!
