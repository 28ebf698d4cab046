//! The composition record: one element per display character plus the
//! caret, with every view (display, reading, pending keystrokes, raw
//! keystrokes) derived from it.
use vstd::prelude::*;
use crate::evaluation::{
    ch_of, display_of, eval_state, evaluate_keystrokes, lemma_evaluation_restarts_at_the_tail,
    lemma_run_start_concat, lemma_run_start_is_live_start, live_start, romaji_views, lemma_live_display_is_raw, lemma_display_concat, lemma_evaluation_display, evaluate_run, evaluated, flush_run, is_romaji, lemma_evaluation_keeps_keystrokes,
    lemma_raw_concat, live, raw_of, raw_text_of, views, Element, ElementView, all_settled, lemma_evaluation_settles,
};
use crate::kana::{kata_seq, katakana_of, to_katakana_char};
use crate::romaji::{convert_flush_spec, RomajiConverter};
use crate::text::{ascii_lower, string_of, string_push, to_ascii_lower};
use crate::width::{at_width, Width};

verus! {

/// The composition as a mathematical value.
pub struct BufferView {
    pub elements: Seq<ElementView>,
    pub cursor: int,
}


/// Start of the maximal run of live keystrokes ending at `c`.
pub open spec fn run_start(els: Seq<ElementView>, c: int) -> int
    decreases c,
{
    if c <= 0 {
        0
    } else if !is_romaji(els[c - 1]) {
        c
    } else {
        run_start(els, c - 1)
    }
}

/// End of the maximal run of live keystrokes starting at `c`.
pub open spec fn run_end(els: Seq<ElementView>, c: int) -> int
    decreases els.len() - c,
{
    if c >= els.len() {
        els.len() as int
    } else if !is_romaji(els[c]) {
        c
    } else {
        run_end(els, c + 1)
    }
}

pub proof fn lemma_run_start(els: Seq<ElementView>, c: int)
    requires
        0 <= c <= els.len(),
    ensures
        0 <= run_start(els, c) <= c,
        forall|k: int| run_start(els, c) <= k < c ==> is_romaji(#[trigger] els[k]),
        run_start(els, c) > 0 ==> !is_romaji(els[run_start(els, c) - 1]),
    decreases c,
{
    if c > 0 && is_romaji(els[c - 1]) {
        lemma_run_start(els, c - 1);
    }
}

pub proof fn lemma_run_end(els: Seq<ElementView>, c: int)
    requires
        0 <= c <= els.len(),
    ensures
        c <= run_end(els, c) <= els.len(),
        forall|k: int| c <= k < run_end(els, c) ==> is_romaji(#[trigger] els[k]),
        run_end(els, c) < els.len() ==> !is_romaji(els[run_end(els, c)]),
    decreases els.len() - c,
{
    if c < els.len() && is_romaji(els[c]) {
        lemma_run_end(els, c + 1);
    }
}

/// Elements with the run `[start, end)` replaced by its evaluation.
pub open spec fn eval_range(els: Seq<ElementView>, start: int, end: int, w: Width) -> Seq<
    ElementView,
> {
    if start < end {
        els.take(start) + evaluated(display_of(els.subrange(start, end)), w, false) + els.skip(end)
    } else {
        els
    }
}

/// Length of the evaluation of the run `[start, end)`.
pub open spec fn eval_len(els: Seq<ElementView>, start: int, end: int, w: Width) -> int {
    if start < end {
        evaluated(display_of(els.subrange(start, end)), w, false).len() as int
    } else {
        0
    }
}

/// Evaluation of the active run (the live run ending at the caret); the
/// caret lands after its evaluation.
pub open spec fn after_active(b: BufferView, w: Width) -> BufferView {
    let start = run_start(b.elements, b.cursor);
    BufferView {
        elements: eval_range(b.elements, start, b.cursor, w),
        cursor: start + eval_len(b.elements, start, b.cursor, w),
    }
}

/// Evaluation of the live run containing the caret (both sides of it);
/// the caret keeps its offset from the run start, clamped to the
/// evaluated length.
pub open spec fn after_joined(b: BufferView, w: Width) -> BufferView {
    let start = run_start(b.elements, b.cursor);
    let end = run_end(b.elements, b.cursor);
    let offset = b.cursor - start;
    let n = eval_len(b.elements, start, end, w);
    BufferView {
        elements: eval_range(b.elements, start, end, w),
        cursor: start + if offset < n {
            offset
        } else {
            n
        },
    }
}

/// Settled characters converted to katakana; live keystrokes and raw
/// keystrokes untouched.
pub open spec fn baked(e: ElementView) -> ElementView {
    match e {
        ElementView::Converted(c, raw) => ElementView::Converted(katakana_of(c), raw),
        other => other,
    }
}

/// Every element baked to katakana.
pub open spec fn baked_all(els: Seq<ElementView>) -> Seq<ElementView> {
    els.map_values(|e: ElementView| baked(e))
}

/// Baking to katakana leaves the raw keystrokes untouched: the same keys
/// produced the katakana.
pub proof fn lemma_bake_keeps_raw_text(els: Seq<ElementView>)
    ensures
        raw_text_of(baked_all(els)) == raw_text_of(els),
    decreases els.len(),
{
    if els.len() > 0 {
        lemma_bake_keeps_raw_text(els.drop_last());
        assert(baked_all(els).drop_last() =~= baked_all(els.drop_last()));
    }
}

/// Baking a settled composition shows its katakana form: every displayed
/// character moves from hiragana to katakana.
pub proof fn lemma_bake_shows_katakana(els: Seq<ElementView>)
    requires
        forall|k: int| 0 <= k < els.len() ==> !is_romaji(#[trigger] els[k]),
    ensures
        display_of(baked_all(els)) == kata_seq(display_of(els)),
{
    assert(display_of(baked_all(els)) =~= kata_seq(display_of(els))) by {
        assert forall|k: int| 0 <= k < els.len() implies #[trigger] display_of(baked_all(els))[k] == kata_seq(
            display_of(els),
        )[k] by {
            assert(!is_romaji(els[k]));
        }
    }
}

/// Appends the characters of `src` to `dst`.
/// Appends the characters of `src` as shown at width `w`.
fn append_at_width(dst: &mut Vec<char>, src: &Vec<char>, w: Width)
    ensures
        final(dst)@ == old(dst)@ + at_width(w, src@),
{
    let mut k: usize = 0;
    while k < src.len()
        invariant
            k <= src.len(),
            dst@ == old(dst)@ + at_width(w, src@.take(k as int)),
        decreases src.len() - k,
    {
        dst.push(w.apply(src[k]));
        k += 1;
        assert(dst@ =~= old(dst)@ + at_width(w, src@.take(k as int)));
    }
    assert(src@.take(k as int) =~= src@);
}

pub(crate) fn append_chars(dst: &mut Vec<char>, src: &Vec<char>)
    ensures
        final(dst)@ == old(dst)@ + src@,
{
    let mut k: usize = 0;
    while k < src.len()
        invariant
            k <= src.len(),
            dst@ == old(dst)@ + src@.take(k as int),
        decreases src.len() - k,
    {
        dst.push(src[k]);
        k += 1;
        assert(dst@ =~= old(dst)@ + src@.take(k as int));
    }
    assert(src@.take(k as int) =~= src@);
}

proof fn lemma_insert_between<A>(a: Seq<A>, b: Seq<A>, t: Seq<A>, x: A)
    ensures
        (a + b + t).insert((a.len() + b.len()) as int, x) == a + b.push(x) + t,
{
    assert((a + b + t).insert((a.len() + b.len()) as int, x) =~= a + b.push(x) + t);
}

/// Reading accumulated so far plus the live run not flushed yet, after
/// the first `n` elements: live runs are force-converted in place.
pub open spec fn reading_fold(els: Seq<ElementView>, n: int, w: Width) -> (Seq<char>, Seq<char>)
    decreases n,
{
    if n <= 0 {
        (Seq::empty(), Seq::empty())
    } else {
        let st = reading_fold(els, n - 1, w);
        match els[n - 1] {
            ElementView::Romaji(c) => (st.0, st.1.push(c)),
            ElementView::Converted(c, _) => (flush_reading(st.0, st.1, w).push(c), Seq::empty()),
        }
    }
}

/// A live run force-converted, shown at the converter's width, after the
/// reading so far.
pub open spec fn flush_reading(reading: Seq<char>, run: Seq<char>, w: Width) -> Seq<char> {
    if run.len() > 0 {
        reading + at_width(w, convert_flush_spec(run))
    } else {
        reading
    }
}

/// The reading as it would settle: live runs force-converted in place at
/// the converter's width, everything else as displayed.
pub open spec fn settled_reading_of(els: Seq<ElementView>, w: Width) -> Seq<char> {
    let st = reading_fold(els, els.len() as int, w);
    flush_reading(st.0, st.1, w)
}

/// Settled elements so far plus the live run not flushed yet, after the
/// first `n` elements.
pub open spec fn settle_fold(els: Seq<ElementView>, n: int, w: Width) -> (Seq<ElementView>, Seq<char>)
    decreases n,
{
    if n <= 0 {
        (Seq::empty(), Seq::empty())
    } else {
        let st = settle_fold(els, n - 1, w);
        match els[n - 1] {
            ElementView::Romaji(c) => (st.0, st.1.push(c)),
            ElementView::Converted(_, _) => (flush_elements(st.0, st.1, w).push(els[n - 1]), Seq::empty()),
        }
    }
}

pub open spec fn flush_elements(settled: Seq<ElementView>, run: Seq<char>, w: Width) -> Seq<ElementView> {
    if run.len() > 0 {
        settled + evaluated(run, w, true)
    } else {
        settled
    }
}

/// Every live run settled in place.
pub open spec fn settled_elements(els: Seq<ElementView>, w: Width) -> Seq<ElementView> {
    let st = settle_fold(els, els.len() as int, w);
    flush_elements(st.0, st.1, w)
}

/// The conversion reading: every character except the active run (the
/// live run ending at the caret).
pub open spec fn reading_of(b: BufferView) -> Seq<char> {
    display_of(b.elements.take(run_start(b.elements, b.cursor)) + b.elements.skip(b.cursor))
}

/// A direct-input character: settled as itself, its own raw keystroke.
pub open spec fn direct_view(c: char) -> ElementView {
    ElementView::Converted(c, seq![c])
}

/// The recorded composition: elements plus the caret index.
pub struct InputBuffer {
    elements: Vec<Element>,
    /// Caret: a boundary index into `elements`, which is also the display
    /// position since there is one element per display character.
    cursor: usize,
}

impl View for InputBuffer {
    type V = BufferView;

    closed spec fn view(&self) -> BufferView {
        BufferView { elements: views(self.elements@), cursor: self.cursor as int }
    }
}

impl InputBuffer {
    /// The caret lies within the elements.
    pub open spec fn wf(&self) -> bool {
        0 <= self@.cursor <= self@.elements.len()
    }

    proof fn lemma_view(&self)
        ensures
            self@.elements.len() == self.elements@.len(),
            self@.cursor == self.cursor,
            forall|i: int| 0 <= i < self.elements@.len() ==> #[trigger] self@.elements[i] == self.elements@[i]@,
    {
    }

    pub fn new() -> (r: Self)
        ensures
            r.wf(),
            r@.elements == Seq::<ElementView>::empty(),
            r@.cursor == 0,
    {
        let r = InputBuffer { elements: Vec::new(), cursor: 0 };
        assert(r@.elements =~= Seq::<ElementView>::empty());
        r
    }

    pub fn clear(&mut self)
        ensures
            final(self).wf(),
            final(self)@.elements == Seq::<ElementView>::empty(),
            final(self)@.cursor == 0,
    {
        self.elements.clear();
        self.cursor = 0;
        assert(self@.elements =~= Seq::<ElementView>::empty());
    }

    pub fn is_empty(&self) -> (r: bool)
        ensures
            r == (self@.elements.len() == 0),
    {
        self.elements.len() == 0
    }

    /// Display caret position (the element index of the caret).
    pub fn cursor(&self) -> (r: usize)
        ensures
            r == self@.cursor,
    {
        self.cursor
    }

    pub fn char_count(&self) -> (r: usize)
        ensures
            r == self@.elements.len(),
    {
        self.elements.len()
    }

    /// Full composition display.
    pub fn display(&self) -> (r: String)
        ensures
            r@ == display_of(self@.elements),
    {
        let mut out = String::new();
        let mut i: usize = 0;
        while i < self.elements.len()
            invariant
                i <= self.elements.len(),
                out@ == display_of(self@.elements.take(i as int)),
            decreases self.elements.len() - i,
        {
            proof {
                self.lemma_view();
            }
            string_push(&mut out, self.elements[i].ch());
            i += 1;
            assert(out@ =~= display_of(self@.elements.take(i as int)));
        }
        proof {
            self.lemma_view();
        }
        assert(self@.elements.take(i as int) =~= self@.elements);
        out
    }

    /// Moves the caret to a display position, clamped to the end.
    pub fn set_cursor(&mut self, pos: usize)
        requires
            old(self).wf(),
        ensures
            final(self).wf(),
            final(self)@.elements == old(self)@.elements,
            final(self)@.cursor == if pos <= old(self)@.elements.len() {
                pos as int
            } else {
                old(self)@.elements.len() as int
            },
    {
        self.cursor = if pos < self.elements.len() {
            pos
        } else {
            self.elements.len()
        };
    }

    /// Removes the first `n` display characters (all of them when there
    /// are fewer); the caret keeps its place in the remaining text.
    pub fn drain_prefix(&mut self, n: usize)
        requires
            old(self).wf(),
        ensures
            final(self).wf(),
            ({
                let m = if n <= old(self)@.elements.len() {
                    n as int
                } else {
                    old(self)@.elements.len() as int
                };
                &&& final(self)@.elements == old(self)@.elements.skip(m)
                &&& final(self)@.cursor == if old(self)@.cursor >= n {
                    old(self)@.cursor - n
                } else {
                    0
                }
            }),
    {
        let m = if n < self.elements.len() {
            n
        } else {
            self.elements.len()
        };
        let rest = self.elements.split_off(m);
        self.elements = rest;
        self.cursor = self.cursor.saturating_sub(n);
        assert(self@.elements =~= old(self)@.elements.skip(m as int));
    }

    /// Records a direct-input keystroke (alphabet/emoji mode) at the caret,
    /// settled as itself.
    pub fn push_direct(&mut self, ch: char)
        requires
            old(self).wf(),
        ensures
            final(self).wf(),
            final(self)@.elements == old(self)@.elements.insert(
                old(self)@.cursor,
                direct_view(ch),
            ),
            final(self)@.cursor == old(self)@.cursor + 1,
    {
        let e = Element::direct(ch);
        let ghost ev = e@;
        proof {
            self.lemma_view();
        }
        self.elements.insert(self.cursor, e);
        assert(self.cursor < self.elements.len());
        self.cursor += 1;
        assert(self@.elements =~= old(self)@.elements.insert(old(self)@.cursor, ev));
    }

    /// Records settled text at the caret, one direct element per character.
    pub fn insert(&mut self, text: &str)
        requires
            old(self).wf(),
        ensures
            final(self).wf(),
            final(self)@.elements == old(self)@.elements.take(old(self)@.cursor) + text@.map_values(
                |c: char| direct_view(c),
            ) + old(self)@.elements.skip(old(self)@.cursor),
            final(self)@.cursor == old(self)@.cursor + text@.len(),
    {
        let cs = crate::text::chars_of(text);
        let mut i: usize = 0;
        let ghost c0 = old(self)@.cursor;
        let ghost head = old(self)@.elements.take(c0);
        let ghost tail = old(self)@.elements.skip(c0);
        assert(old(self)@.elements =~= head + tail);
        assert(head + cs@.take(0).map_values(|c: char| direct_view(c)) + tail =~= head + tail);
        while i < cs.len()
            invariant
                i <= cs.len(),
                cs@ == text@,
                head.len() == c0,
                self.wf(),
                self@.cursor == c0 + i,
                self@.elements == head + cs@.take(i as int).map_values(
                    |c: char| direct_view(c),
                ) + tail,
            decreases cs.len() - i,
        {
            let ghost mid = cs@.take(i as int).map_values(|c: char| direct_view(c));
            assert(head.len() == c0);
            assert(mid.len() == i);
            proof {
                lemma_insert_between(head, mid, tail, direct_view(cs@[i as int]));
            }
            let c = cs[i];
            self.push_direct(c);
            i += 1;
            let ghost grown = cs@.take(i as int).map_values(|c: char| direct_view(c));
            assert(grown =~= mid.push(direct_view(c)));
            assert(self@.elements =~= head + cs@.take(i as int).map_values(
                |c: char| direct_view(c),
            ) + tail);
        }
        assert(cs@.take(i as int) =~= text@);
    }

    /// The keystrokes that produced the composition, in order.
    pub fn raw_text(&self) -> (r: String)
        ensures
            r@ == raw_text_of(self@.elements),
    {
        let mut out: Vec<char> = Vec::new();
        let mut i: usize = 0;
        while i < self.elements.len()
            invariant
                i <= self.elements.len(),
                out@ == raw_text_of(self@.elements.take(i as int)),
            decreases self.elements.len() - i,
        {
            proof {
                self.lemma_view();
            }
            let ghost prev = out@;
            match &self.elements[i] {
                Element::Romaji(c) => out.push(*c),
                Element::Converted { raw, .. } => {
                    let mut k: usize = 0;
                    while k < raw.len()
                        invariant
                            k <= raw.len(),
                            out@ == prev + raw@.take(k as int),
                        decreases raw.len() - k,
                    {
                        out.push(raw[k]);
                        k += 1;
                        assert(out@ =~= prev + raw@.take(k as int));
                    }
                    assert(raw@.take(k as int) =~= raw@);
                },
            }
            i += 1;
            assert(self@.elements.take(i as int).drop_last() =~= self@.elements.take(i - 1));
            assert(out@ =~= raw_text_of(self@.elements.take(i as int)));
        }
        proof {
            self.lemma_view();
        }
        assert(self@.elements.take(i as int) =~= self@.elements);
        string_of(&out)
    }

    /// Converts every settled element to katakana. Raw keystrokes are
    /// untouched: the same keys produced the katakana.
    pub fn bake_katakana(&mut self)
        requires
            old(self).wf(),
        ensures
            final(self).wf(),
            final(self)@.elements == baked_all(old(self)@.elements),
            final(self)@.cursor == old(self)@.cursor,
    {
        let mut i: usize = 0;
        while i < self.elements.len()
            invariant
                i <= self.elements.len(),
                self.elements.len() == old(self).elements.len(),
                self.cursor == old(self).cursor,
                forall|k: int| 0 <= k < i ==> #[trigger] self.elements@[k]@ == baked(old(self).elements@[k]@),
                forall|k: int| i <= k < self.elements.len() ==> #[trigger] self.elements@[k] == old(self).elements@[k],
            decreases self.elements.len() - i,
        {
            let mut e = Element::Romaji(' ');
            self.elements.set_and_swap(i, &mut e);
            let ghost orig = e@;
            let b = match e {
                Element::Converted { ch, raw } => Element::Converted { ch: to_katakana_char(ch), raw },
                other => other,
            };
            assert(b@ == baked(orig));
            self.elements.set(i, b);
            i += 1;
        }
        assert(self@.elements =~= baked_all(old(self)@.elements));
    }

    /// Element indices `[start, cursor)` of the active run: the maximal run
    /// of live keystrokes ending at the caret.
    pub fn active_run(&self) -> (r: (usize, usize))
        requires
            self.wf(),
        ensures
            r.0 == run_start(self@.elements, self@.cursor),
            r.1 == self@.cursor,
    {
        proof {
            self.lemma_view();
        }
        let mut start = self.cursor;
        while start > 0 && self.elements[start - 1].is_romaji()
            invariant
                start <= self.cursor <= self.elements.len(),
                self.wf(),
                run_start(self@.elements, start as int) == run_start(self@.elements, self@.cursor),
            decreases start,
        {
            proof {
                self.lemma_view();
            }
            start -= 1;
        }
        proof {
            self.lemma_view();
        }
        (start, self.cursor)
    }

    /// Keystrokes of the active run (shown as the aux romaji tail).
    pub fn pending(&self) -> (r: String)
        requires
            self.wf(),
        ensures
            r@ == display_of(
                self@.elements.subrange(run_start(self@.elements, self@.cursor), self@.cursor),
            ),
    {
        let (start, end) = self.active_run();
        proof {
            self.lemma_view();
            lemma_run_start(self@.elements, self@.cursor);
        }
        let mut out = String::new();
        let mut i = start;
        while i < end
            invariant
                start <= i <= end <= self.elements.len(),
                out@ == display_of(self@.elements.subrange(start as int, i as int)),
            decreases end - i,
        {
            proof {
                self.lemma_view();
            }
            string_push(&mut out, self.elements[i].ch());
            i += 1;
            assert(out@ =~= display_of(self@.elements.subrange(start as int, i as int)));
        }
        out
    }

    /// Conversion reading: every character except the active run.
    pub fn reading(&self) -> (r: String)
        requires
            self.wf(),
        ensures
            r@ == reading_of(self@),
    {
        let (start, end) = self.active_run();
        proof {
            self.lemma_view();
            lemma_run_start(self@.elements, self@.cursor);
        }
        let mut out = String::new();
        let mut i: usize = 0;
        while i < start
            invariant
                i <= start <= end <= self.elements.len(),
                out@ == display_of(self@.elements.take(i as int)),
            decreases start - i,
        {
            proof {
                self.lemma_view();
            }
            string_push(&mut out, self.elements[i].ch());
            i += 1;
            assert(out@ =~= display_of(self@.elements.take(i as int)));
        }
        let ghost head = self@.elements.take(start as int);
        let mut j = end;
        assert(head + self@.elements.subrange(end as int, end as int) =~= head);
        while j < self.elements.len()
            invariant
                start <= end <= j <= self.elements.len(),
                head == self@.elements.take(start as int),
                out@ == display_of(head + self@.elements.subrange(end as int, j as int)),
            decreases self.elements.len() - j,
        {
            proof {
                self.lemma_view();
            }
            string_push(&mut out, self.elements[j].ch());
            j += 1;
            assert(out@ =~= display_of(head + self@.elements.subrange(end as int, j as int)));
        }
        proof {
            self.lemma_view();
        }
        assert(self@.elements.subrange(end as int, j as int) =~= self@.elements.skip(end as int));
        out
    }

    /// Caret position within [`Self::reading`]: the caret minus the active
    /// run, which sits just before it.
    pub fn reading_cursor(&self) -> (r: usize)
        requires
            self.wf(),
        ensures
            r == run_start(self@.elements, self@.cursor),
    {
        let (start, end) = self.active_run();
        proof {
            lemma_run_start(self@.elements, self@.cursor);
        }
        self.cursor - (end - start)
    }

    /// Replaces the live run `[start, end)` with its evaluation; returns the
    /// evaluated length. The caret is left as it was.
    fn evaluate_range(&mut self, start: usize, end: usize, romaji: &RomajiConverter) -> (r: usize)
        requires
            start <= end <= old(self)@.elements.len(),
        ensures
            final(self)@.elements == eval_range(old(self)@.elements, start as int, end as int, romaji.width),
            r == eval_len(old(self)@.elements, start as int, end as int, romaji.width),
            final(self)@.cursor == old(self)@.cursor,
    {
        proof {
            self.lemma_view();
        }
        if start >= end {
            return 0;
        }
        let mut run: Vec<char> = Vec::new();
        let mut k = start;
        while k < end
            invariant
                start <= k <= end <= self.elements.len(),
                run@ == display_of(self@.elements.subrange(start as int, k as int)),
            decreases end - k,
        {
            proof {
                self.lemma_view();
            }
            run.push(self.elements[k].ch());
            k += 1;
            assert(run@ =~= display_of(self@.elements.subrange(start as int, k as int)));
        }
        let mut evaluated_elements = evaluate_run(&run, romaji);
        let len = evaluated_elements.len();
        let ghost ev = evaluated_elements@;
        let ghost old_els = self.elements@;
        let mut tail = self.elements.split_off(end);
        self.elements.truncate(start);
        self.elements.append(&mut evaluated_elements);
        self.elements.append(&mut tail);
        assert(self.elements@ =~= old_els.take(start as int) + ev + old_els.skip(end as int));
        assert(self@.elements =~= eval_range(old(self)@.elements, start as int, end as int, romaji.width));
        len
    }

    /// Evaluates the active run, re-recording keystrokes a rule consumed as
    /// its output; the caret lands after the evaluated run.
    fn evaluate_active_run(&mut self, romaji: &RomajiConverter)
        requires
            old(self).wf(),
        ensures
            final(self).wf(),
            final(self)@ == after_active(old(self)@, romaji.width),
    {
        let (start, end) = self.active_run();
        proof {
            lemma_run_start(self@.elements, self@.cursor);
        }
        let evaluated_len = self.evaluate_range(start, end, romaji);
        proof {
            self.lemma_view();
        }
        assert(start + evaluated_len <= self.elements.len());
        self.cursor = start + evaluated_len;
    }

    /// Evaluates the live run containing the caret, on both sides of it.
    /// The caret keeps its offset from the run start, clamped to the
    /// evaluated length.
    fn evaluate_joined_run(&mut self, romaji: &RomajiConverter)
        requires
            old(self).wf(),
        ensures
            final(self).wf(),
            final(self)@ == after_joined(old(self)@, romaji.width),
    {
        let (start, _) = self.active_run();
        proof {
            self.lemma_view();
            lemma_run_start(self@.elements, self@.cursor);
            lemma_run_end(self@.elements, self@.cursor);
        }
        let mut end = self.cursor;
        while end < self.elements.len() && self.elements[end].is_romaji()
            invariant
                self.cursor <= end <= self.elements.len(),
                self.wf(),
                run_end(self@.elements, end as int) == run_end(self@.elements, self@.cursor),
            decreases self.elements.len() - end,
        {
            proof {
                self.lemma_view();
            }
            end += 1;
        }
        proof {
            self.lemma_view();
        }
        let offset = self.cursor - start;
        let evaluated_len = self.evaluate_range(start, end, romaji);
        proof {
            self.lemma_view();
        }
        let kept = if offset < evaluated_len {
            offset
        } else {
            evaluated_len
        };
        assert(start + kept <= self.elements.len());
        self.cursor = start + kept;
    }

    /// Records a kana-mode keystroke (lowercased) at the caret, then
    /// evaluates the active run it now ends.
    pub fn push_romaji(&mut self, ch: char, romaji: &RomajiConverter)
        requires
            old(self).wf(),
        ensures
            final(self).wf(),
            final(self)@ == after_active(
                BufferView {
                    elements: old(self)@.elements.insert(old(self)@.cursor, live(ascii_lower(ch))),
                    cursor: old(self)@.cursor + 1,
                },
                romaji.width,
            ),
    {
        let e = Element::Romaji(to_ascii_lower(ch));
        let ghost ev = e@;
        proof {
            self.lemma_view();
        }
        self.elements.insert(self.cursor, e);
        assert(self.cursor < self.elements.len());
        self.cursor += 1;
        assert(self@.elements =~= old(self)@.elements.insert(old(self)@.cursor, ev));
        self.evaluate_active_run(romaji);
    }

    /// Removes the element before the caret, then evaluates the live run
    /// the removal joined. Returns false (and changes nothing) when the
    /// caret is at the start.
    pub fn backspace(&mut self, romaji: &RomajiConverter) -> (r: bool)
        requires
            old(self).wf(),
        ensures
            final(self).wf(),
            r == (old(self)@.cursor > 0),
            !r ==> final(self)@ == old(self)@,
            r ==> final(self)@ == after_joined(
                BufferView {
                    elements: old(self)@.elements.remove(old(self)@.cursor - 1),
                    cursor: old(self)@.cursor - 1,
                },
                romaji.width,
            ),
    {
        proof {
            self.lemma_view();
        }
        if self.cursor == 0 {
            return false;
        }
        self.cursor -= 1;
        self.elements.remove(self.cursor);
        assert(self@.elements =~= old(self)@.elements.remove(old(self)@.cursor - 1));
        self.evaluate_joined_run(romaji);
        true
    }

    /// Removes the element at the caret (delete key), then evaluates the
    /// live run the removal joined. Returns false (and changes nothing)
    /// when the caret is at the end.
    pub fn delete_at_cursor(&mut self, romaji: &RomajiConverter) -> (r: bool)
        requires
            old(self).wf(),
        ensures
            final(self).wf(),
            r == (old(self)@.cursor < old(self)@.elements.len()),
            !r ==> final(self)@ == old(self)@,
            r ==> final(self)@ == after_joined(
                BufferView {
                    elements: old(self)@.elements.remove(old(self)@.cursor),
                    cursor: old(self)@.cursor,
                },
                romaji.width,
            ),
    {
        proof {
            self.lemma_view();
        }
        if self.cursor == self.elements.len() {
            return false;
        }
        self.elements.remove(self.cursor);
        assert(self@.elements =~= old(self)@.elements.remove(old(self)@.cursor));
        self.evaluate_joined_run(romaji);
        true
    }

    /// The reading as it would settle, leaving the composition editable:
    /// what [`Self::settle_romaji`] would display.
    pub fn settled_reading(&self, romaji: &RomajiConverter) -> (r: String)
        ensures
            r@ == settled_reading_of(self@.elements, romaji.width),
    {
        let mut reading: Vec<char> = Vec::new();
        let mut run: Vec<char> = Vec::new();
        let mut i: usize = 0;
        while i < self.elements.len()
            invariant
                i <= self.elements.len(),
                (reading@, run@) == reading_fold(self@.elements, i as int, romaji.width),
            decreases self.elements.len() - i,
        {
            proof {
                self.lemma_view();
            }
            match &self.elements[i] {
                Element::Romaji(c) => run.push(*c),
                Element::Converted { ch, .. } => {
                    if run.len() > 0 {
                        let flushed = romaji.convert_flush(&run);
                        append_at_width(&mut reading, &flushed, romaji.width());
                        run.clear();
                    }
                    reading.push(*ch);
                },
            }
            i += 1;
        }
        if run.len() > 0 {
            let flushed = romaji.convert_flush(&run);
            append_at_width(&mut reading, &flushed, romaji.width());
        }
        proof {
            self.lemma_view();
        }
        string_of(&reading)
    }

    /// Settles every romaji keystroke in place: each live run is replayed
    /// with every passthrough settled and its pending keystrokes flushed
    /// (`ltu` → っ; unmatched consonants pass through literally), so no
    /// keystroke stays live. The caret keeps its distance from the end.
    pub fn settle_romaji(&mut self, romaji: &RomajiConverter)
        requires
            old(self).wf(),
        ensures
            final(self).wf(),
            all_settled(final(self)@.elements),
            final(self)@.elements == settled_elements(old(self)@.elements, romaji.width),
            all_settled(old(self)@.elements) ==> final(self)@ == old(self)@,
            (exists|k: int| 0 <= k < old(self)@.elements.len() && is_romaji(#[trigger] old(self)@.elements[k]))
                ==> {
                &&& final(self)@.elements == settled_elements(old(self)@.elements, romaji.width)
                &&& final(self)@.cursor == if final(self)@.elements.len() >= old(self)@.elements.len()
                    - old(self)@.cursor {
                    final(self)@.elements.len() - (old(self)@.elements.len() - old(self)@.cursor)
                } else {
                    0
                }
            },
    {
        proof {
            self.lemma_view();
        }
        let mut any = false;
        let mut k: usize = 0;
        while k < self.elements.len()
            invariant
                k <= self.elements.len(),
                any == exists|j: int| 0 <= j < k && is_romaji(#[trigger] self@.elements[j]),
            decreases self.elements.len() - k,
        {
            proof {
                self.lemma_view();
            }
            if self.elements[k].is_romaji() {
                any = true;
                assert(is_romaji(self@.elements[k as int]));
            } else {
                assert(!is_romaji(self@.elements[k as int]));
            }
            k += 1;
        }
        if !any {
            proof {
                lemma_settled_elements_of_settled(self@.elements, romaji.width);
            }
            return;
        }
        let from_end = self.elements.len() - self.cursor;
        let mut old_elements: Vec<Element> = Vec::new();
        std::mem::swap(&mut old_elements, &mut self.elements);
        let ghost els = views(old_elements@);
        let mut settled: Vec<Element> = Vec::new();
        let mut run: Vec<char> = Vec::new();
        let mut i: usize = 0;
        while i < old_elements.len()
            invariant
                i <= old_elements.len(),
                els.len() == old_elements@.len(),
                forall|j: int| i <= j < els.len() ==> #[trigger] els[j] == old_elements@[j]@,
                (views(settled@), run@) == settle_fold(els, i as int, romaji.width),
            decreases old_elements.len() - i,
        {
            let mut e = Element::Romaji(' ');
            old_elements.set_and_swap(i, &mut e);
            let ghost ev = e@;
            assert(ev == els[i as int]);
            match e {
                Element::Romaji(c) => run.push(c),
                other => {
                    let ghost before = views(settled@);
                    flush_run(&mut settled, &mut run, romaji);
                    let ghost mid = views(settled@);
                    settled.push(other);
                    assert(views(settled@) =~= mid.push(ev));
                },
            }
            i += 1;
        }
        let ghost before = views(settled@);
        flush_run(&mut settled, &mut run, romaji);
        proof {
            lemma_settled_elements_settle(els, romaji.width);
        }
        self.elements = settled;
        self.cursor = self.elements.len().saturating_sub(from_end);
    }
}

/// Typing a keystroke inserts it (lowercased) into the raw keystrokes at
/// the caret: evaluation re-records the active run without losing or
/// reordering a key, so the raw text reproduces the typed keys.
pub proof fn lemma_typing_records_the_key(b: BufferView, c: char, w: Width)
    requires
        0 <= b.cursor <= b.elements.len(),
    ensures
        raw_text_of(
            after_active(
                BufferView { elements: b.elements.insert(b.cursor, live(ascii_lower(c))), cursor: b.cursor + 1 },
                w,
            ).elements,
        ) == raw_text_of(b.elements.take(b.cursor)).push(ascii_lower(c)) + raw_text_of(b.elements.skip(b.cursor)),
{
    let els = b.elements.insert(b.cursor, live(ascii_lower(c)));
    let cur = b.cursor + 1;
    lemma_run_start(els, cur);
    let start = run_start(els, cur);
    assert(is_romaji(els[b.cursor]));
    assert(start < cur);
    let run = els.subrange(start, cur);
    assert forall|k: int| 0 <= k < run.len() implies is_romaji(#[trigger] run[k]) by {
        assert(run[k] == els[start + k]);
    }
    lemma_live_display_is_raw(run);
    lemma_evaluation_keeps_keystrokes(display_of(run), w, false);
    let ev = evaluated(display_of(run), w, false);
    lemma_raw_concat(els.take(start) + ev, els.skip(cur));
    lemma_raw_concat(els.take(start), ev);
    lemma_raw_concat(els.take(start), run);
    assert(els.take(start) + run =~= els.take(cur));
    lemma_raw_concat(els.take(cur), els.skip(cur));
    assert(els.take(cur) =~= b.elements.take(b.cursor).push(live(ascii_lower(c))));
    assert(els.skip(cur) =~= b.elements.skip(b.cursor));
    lemma_raw_concat(b.elements.take(b.cursor), seq![live(ascii_lower(c))]);
    assert(b.elements.take(b.cursor).push(live(ascii_lower(c))) =~= b.elements.take(b.cursor) + seq![
        live(ascii_lower(c)),
    ]);
    assert(seq![live(ascii_lower(c))].drop_last() =~= Seq::<ElementView>::empty());
    assert(raw_text_of(Seq::<ElementView>::empty()) == Seq::<char>::empty());
    assert(raw_text_of(seq![live(ascii_lower(c))]) =~= seq![ascii_lower(c)]);
}

/// Settling keeps the raw keystrokes: every live run is evaluated with
/// its keystrokes carried along.
pub proof fn lemma_settle_keeps_raw_text(els: Seq<ElementView>, w: Width)
    ensures
        raw_text_of(settled_elements(els, w)) == raw_text_of(els),
{
    lemma_settle_fold_raw(els, els.len() as int, w);
    assert(els.take(els.len() as int) =~= els);
    let st = settle_fold(els, els.len() as int, w);
    if st.1.len() > 0 {
        lemma_evaluation_keeps_keystrokes(st.1, w, true);
        lemma_raw_concat(st.0, evaluated(st.1, w, true));
    } else {
        assert(raw_text_of(st.0) + st.1 =~= raw_text_of(st.0));
    }
}

proof fn lemma_settle_fold_raw(els: Seq<ElementView>, n: int, w: Width)
    requires
        0 <= n <= els.len(),
    ensures
        raw_text_of(settle_fold(els, n, w).0) + settle_fold(els, n, w).1 == raw_text_of(els.take(n)),
    decreases n,
{
    if n == 0 {
        assert(els.take(0) =~= Seq::<ElementView>::empty());
        assert(raw_text_of(Seq::<ElementView>::empty()) == Seq::<char>::empty());
        assert(Seq::<char>::empty() + Seq::<char>::empty() =~= Seq::<char>::empty());
    } else {
        lemma_settle_fold_raw(els, n - 1, w);
        let st = settle_fold(els, n - 1, w);
        assert(els.take(n).drop_last() =~= els.take(n - 1));
        assert(els.take(n).last() == els[n - 1]);
        match els[n - 1] {
            ElementView::Romaji(c) => {
                assert(raw_text_of(st.0) + st.1.push(c) =~= (raw_text_of(st.0) + st.1).push(c));
                assert(raw_of(els[n - 1]) =~= seq![c]);
            },
            ElementView::Converted(_, _) => {
                let flushed = flush_elements(st.0, st.1, w);
                if st.1.len() > 0 {
                    lemma_evaluation_keeps_keystrokes(st.1, w, true);
                    lemma_raw_concat(st.0, evaluated(st.1, w, true));
                } else {
                    assert(raw_text_of(st.0) + st.1 =~= raw_text_of(st.0));
                }
                assert(flushed.push(els[n - 1]).drop_last() =~= flushed);
                assert(raw_text_of(flushed.push(els[n - 1])) + Seq::<char>::empty() =~= raw_text_of(flushed) + raw_of(
                    els[n - 1],
                ));
            },
        }
    }
}

proof fn lemma_settle_fold_display(els: Seq<ElementView>, n: int, w: Width)
    requires
        0 <= n <= els.len(),
    ensures
        display_of(settle_fold(els, n, w).0) == reading_fold(els, n, w).0,
        settle_fold(els, n, w).1 == reading_fold(els, n, w).1,
    decreases n,
{
    if n == 0 {
        assert(display_of(Seq::<ElementView>::empty()) =~= Seq::<char>::empty());
    } else {
        lemma_settle_fold_display(els, n - 1, w);
        let st = settle_fold(els, n - 1, w);
        match els[n - 1] {
            ElementView::Romaji(_) => {},
            ElementView::Converted(c, _) => {
                let flushed = flush_elements(st.0, st.1, w);
                if st.1.len() > 0 {
                    lemma_evaluation_display(st.1, w);
                    lemma_display_concat(st.0, evaluated(st.1, w, true));
                }
                lemma_display_concat(flushed, seq![els[n - 1]]);
                assert(flushed.push(els[n - 1]) =~= flushed + seq![els[n - 1]]);
                assert(display_of(seq![els[n - 1]]) =~= seq![c]);
                assert(flush_reading(reading_fold(els, n - 1, w).0, reading_fold(els, n - 1, w).1, w).push(c)
                    =~= display_of(flushed) + seq![c]);
            },
        }
    }
}

/// The reading as it would settle is what settling shows: settling the
/// composition in place displays exactly [`InputBuffer::settled_reading`]
/// — its non-destructive counterpart — at every width.
pub proof fn lemma_settled_reading_matches_settle(els: Seq<ElementView>, w: Width)
    ensures
        display_of(settled_elements(els, w)) == settled_reading_of(els, w),
{
    lemma_settle_fold_display(els, els.len() as int, w);
    let st = settle_fold(els, els.len() as int, w);
    if st.1.len() > 0 {
        lemma_evaluation_display(st.1, w);
        lemma_display_concat(st.0, evaluated(st.1, w, true));
    }
}

proof fn lemma_flush_elements_settle(settled: Seq<ElementView>, run: Seq<char>, w: Width)
    requires
        all_settled(settled),
    ensures
        all_settled(flush_elements(settled, run, w)),
{
    if run.len() > 0 {
        let ev = evaluated(run, w, true);
        lemma_evaluation_settles(run, w);
        let all = settled + ev;
        assert forall|k: int| 0 <= k < all.len() implies !is_romaji(#[trigger] all[k]) by {
            if k >= settled.len() {
                assert(all[k] == ev[k - settled.len()]);
            }
        }
    }
}

proof fn lemma_settle_fold_settles(els: Seq<ElementView>, n: int, w: Width)
    ensures
        all_settled(settle_fold(els, n, w).0),
    decreases n,
{
    if n > 0 {
        lemma_settle_fold_settles(els, n - 1, w);
        let st = settle_fold(els, n - 1, w);
        if els[n - 1] is Converted {
            lemma_flush_elements_settle(st.0, st.1, w);
            let f = flush_elements(st.0, st.1, w);
            assert forall|k: int| 0 <= k < f.push(els[n - 1]).len() implies !is_romaji(
                #[trigger] f.push(els[n - 1])[k],
            ) by {
                if k < f.len() {
                    assert(f.push(els[n - 1])[k] == f[k]);
                }
            }
        }
    }
}

proof fn lemma_settle_fold_of_settled(els: Seq<ElementView>, n: int, w: Width)
    requires
        0 <= n <= els.len(),
        all_settled(els),
    ensures
        settle_fold(els, n, w) == (els.take(n), Seq::<char>::empty()),
    decreases n,
{
    if n == 0 {
        assert(els.take(0) =~= Seq::<ElementView>::empty());
    } else {
        lemma_settle_fold_of_settled(els, n - 1, w);
        assert(!is_romaji(els[n - 1]));
        assert(els.take(n - 1).push(els[n - 1]) =~= els.take(n));
    }
}

/// Settling a composition with no live keystroke changes nothing.
pub proof fn lemma_settled_elements_of_settled(els: Seq<ElementView>, w: Width)
    requires
        all_settled(els),
    ensures
        settled_elements(els, w) == els,
{
    lemma_settle_fold_of_settled(els, els.len() as int, w);
    assert(els.take(els.len() as int) =~= els);
}

/// Settling leaves no keystroke live.
pub proof fn lemma_settled_elements_settle(els: Seq<ElementView>, w: Width)
    ensures
        all_settled(settled_elements(els, w)),
{
    lemma_settle_fold_settles(els, els.len() as int, w);
    let st = settle_fold(els, els.len() as int, w);
    lemma_flush_elements_settle(st.0, st.1, w);
}

/// Typing never touches what lies right of the caret: the caret lands
/// after the evaluated run, and everything after it is as before.
pub proof fn lemma_typing_keeps_the_right_side(b: BufferView, c: char, w: Width)
    requires
        0 <= b.cursor <= b.elements.len(),
    ensures
        ({
            let a = after_active(
                BufferView { elements: b.elements.insert(b.cursor, live(ascii_lower(c))), cursor: b.cursor + 1 },
                w,
            );
            &&& 0 <= a.cursor <= a.elements.len()
            &&& a.elements.skip(a.cursor) == b.elements.skip(b.cursor)
        }),
{
    let els = b.elements.insert(b.cursor, live(ascii_lower(c)));
    let cur = b.cursor + 1;
    lemma_run_start(els, cur);
    let start = run_start(els, cur);
    assert(is_romaji(els[b.cursor]));
    let ev = evaluated(display_of(els.subrange(start, cur)), w, false);
    let a_els = els.take(start) + ev + els.skip(cur);
    assert(a_els.skip(start + ev.len()) =~= els.skip(cur));
    assert(els.skip(cur) =~= b.elements.skip(b.cursor));
}

/// The keystrokes as recorded: ASCII letters lowercased.
pub open spec fn lowered(keys: Seq<char>) -> Seq<char> {
    keys.map_values(|c: char| ascii_lower(c))
}

/// The composition that typing `keys` one at a time produces, starting
/// empty with the caret at the end.
pub open spec fn typed(keys: Seq<char>, w: Width) -> BufferView
    decreases keys.len(),
{
    if keys.len() == 0 {
        BufferView { elements: Seq::empty(), cursor: 0 }
    } else {
        let b = typed(keys.drop_last(), w);
        after_active(
            BufferView { elements: b.elements.insert(b.cursor, live(ascii_lower(keys.last()))), cursor: b.cursor + 1 },
            w,
        )
    }
}

/// Typing keystrokes one at a time records exactly what evaluating them
/// all at once does: re-evaluating the active run after every keystroke
/// never diverges from typing the whole run fresh, and the caret stays at
/// the end.
pub proof fn lemma_typing_is_fresh_evaluation(keys: Seq<char>, w: Width)
    ensures
        typed(keys, w) == (BufferView {
            elements: evaluated(lowered(keys), w, false),
            cursor: evaluated(lowered(keys), w, false).len() as int,
        }),
    decreases keys.len(),
{
    if keys.len() == 0 {
        assert(lowered(keys) =~= Seq::<char>::empty());
        let st = eval_state(lowered(keys), 0, w, false);
        assert(romaji_views(st.pending) =~= Seq::<ElementView>::empty());
        assert(evaluated(lowered(keys), w, false) =~= Seq::<ElementView>::empty());
    } else {
        let k0 = keys.drop_last();
        let lc = ascii_lower(keys.last());
        lemma_typing_is_fresh_evaluation(k0, w);
        assert(lowered(keys) =~= lowered(k0).push(lc));
        let e0 = evaluated(lowered(k0), w, false);
        let e1 = e0.insert(e0.len() as int, live(lc));
        assert(e1 =~= e0 + seq![live(lc)]);
        lemma_run_start_is_live_start(e1, e1.len() as int);
        assert(e1.take(e1.len() as int) =~= e1);
        lemma_run_start_concat(e0, seq![live(lc)]);
        lemma_evaluation_restarts_at_the_tail(lowered(k0), lc, w);
        let ls = live_start(e0);
        assert(e1.subrange(ls, e1.len() as int) =~= e0.skip(ls) + seq![live(lc)]);
        lemma_display_concat(e0.skip(ls), seq![live(lc)]);
        assert(display_of(seq![live(lc)]) =~= seq![lc]);
        assert(display_of(e1.subrange(ls, e1.len() as int)) =~= display_of(e0.skip(ls)).push(lc));
        assert(e1.take(ls) =~= e0.take(ls));
        assert(e1.skip(e1.len() as int) =~= Seq::<ElementView>::empty());
        let ev = evaluated(display_of(e0.skip(ls)).push(lc), w, false);
        assert(e0.take(ls) + ev + Seq::<ElementView>::empty() =~= e0.take(ls) + ev);
    }
}

/// Deleting a character and re-evaluating the live run the deletion joined
/// gives what typing that run's keystrokes fresh gives (`yt1t` minus the
/// `1` → 「yっt」) — for live keystrokes recorded as typing records them,
/// lowercased.
pub proof fn lemma_deletion_is_fresh_typing(b: BufferView, w: Width)
    requires
        0 <= b.cursor <= b.elements.len(),
        forall|k: int|
            0 <= k < b.elements.len() && is_romaji(#[trigger] b.elements[k]) ==> ascii_lower(ch_of(b.elements[k]))
                == ch_of(b.elements[k]),
    ensures
        ({
            let start = run_start(b.elements, b.cursor);
            let end = run_end(b.elements, b.cursor);
            start < end ==> after_joined(b, w).elements == b.elements.take(start) + typed(
                display_of(b.elements.subrange(start, end)),
                w,
            ).elements + b.elements.skip(end)
        }),
{
    let start = run_start(b.elements, b.cursor);
    let end = run_end(b.elements, b.cursor);
    lemma_run_start(b.elements, b.cursor);
    lemma_run_end(b.elements, b.cursor);
    if start < end {
        let keys = display_of(b.elements.subrange(start, end));
        lemma_typing_is_fresh_evaluation(keys, w);
        assert(lowered(keys) =~= keys) by {
            assert forall|k: int| 0 <= k < keys.len() implies #[trigger] lowered(keys)[k] == keys[k] by {
                assert(b.elements.subrange(start, end)[k] == b.elements[start + k]);
                assert(is_romaji(b.elements[start + k]));
            }
        }
    }
}

/// Typing reproduces the keys: after typing any keys one at a time with
/// the caret at the end, the raw keystrokes are exactly the keys typed,
/// lowercased.
pub proof fn lemma_typing_keeps_the_keys(keys: Seq<char>, w: Width)
    ensures
        raw_text_of(typed(keys, w).elements) == lowered(keys),
{
    lemma_typing_is_fresh_evaluation(keys, w);
    lemma_evaluation_keeps_keystrokes(lowered(keys), w, false);
}

} // verus!
