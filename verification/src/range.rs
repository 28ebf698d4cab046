//! Range selection: convert and commit only the head of the reading.
//!
//! The range is a prefix length of the reading, never an arbitrary span.
//! Shift+Right/Left grow and shrink it, Space converts just that prefix,
//! and committing it drains the head from the composition while the rest
//! keeps composing.
use vstd::prelude::*;
use crate::candidates::{learning_of, learning_record, Candidate, ConversionList, LearningRecord};
use crate::input_buffer::{reading_of, run_start, settled_elements, BufferView, InputBuffer};
use crate::evaluation::{all_settled, display_of, is_romaji};
use crate::romaji::RomajiConverter;
use crate::text::{chars_of, decimal, push_decimal, string_of};

verus! {

/// The smaller of two lengths.
pub open spec fn min_len(a: int, b: int) -> int {
    if a <= b {
        a
    } else {
        b
    }
}

/// The selection after Shift+Right: one more reading character, at most
/// the whole reading.
pub open spec fn extended(select: Option<usize>, total: int) -> int {
    let n = match select {
        Some(n) => n as int,
        None => 0,
    };
    min_len(n + 1, total)
}

/// The range display: the selected head (double underline), the rest
/// (ordinary underline), the caret at the selection edge, and the aux text
/// `範囲選択 {n}/{total}`.
pub struct RangeRender {
    /// The selected head of the reading.
    pub head: String,
    /// The rest of the reading; empty when the whole reading is selected.
    pub rest: String,
    /// Caret position: the selection edge.
    pub caret: usize,
    /// The aux text.
    pub aux: String,
}

/// The aux text for `n` of `total` reading characters selected.
pub open spec fn range_aux(n: nat, total: nat) -> Seq<char> {
    "範囲選択 "@ + decimal(n) + "/"@ + decimal(total)
}

/// Whether `r` renders `reading` with `select` characters selected
/// (clamped to the reading).
pub open spec fn renders(r: RangeRender, reading: Seq<char>, select: int) -> bool {
    let n = min_len(select, reading.len() as int);
    &&& r.head@ == reading.take(n)
    &&& r.rest@ == reading.skip(n)
    &&& r.caret == n
    &&& r.aux@ == range_aux(n as nat, reading.len())
}

/// The range display for the buffer's reading with `select` characters
/// selected (none when not selecting), clamped to the reading.
pub fn render_range(buf: &InputBuffer, select: Option<usize>) -> (r: RangeRender)
    requires
        buf.wf(),
    ensures
        renders(
            r,
            reading_of(buf@),
            match select {
                Some(n) => n as int,
                None => 0,
            },
        ),
{
    let reading = buf.reading();
    let cs = chars_of(reading.as_str());
    let total = cs.len();
    let want = match select {
        Some(n) => n,
        None => 0,
    };
    let n = if want <= total {
        want
    } else {
        total
    };
    let mut head: Vec<char> = Vec::new();
    let mut rest: Vec<char> = Vec::new();
    let mut i: usize = 0;
    while i < total
        invariant
            n <= total == cs@.len(),
            i <= total,
            cs@ == reading@,
            head@ == cs@.take(min_len(i as int, n as int)),
            rest@ == if i <= n {
                Seq::<char>::empty()
            } else {
                cs@.subrange(n as int, i as int)
            },
        decreases total - i,
    {
        if i < n {
            head.push(cs[i]);
        } else {
            rest.push(cs[i]);
        }
        i += 1;
        assert(head@ =~= cs@.take(min_len(i as int, n as int)));
        assert(rest@ =~= if i <= n {
            Seq::<char>::empty()
        } else {
            cs@.subrange(n as int, i as int)
        });
    }
    assert(rest@ =~= cs@.skip(n as int));
    let mut aux: Vec<char> = Vec::new();
    let label = "範囲選択 ";
    let slash = "/";
    proof {
        reveal_strlit("範囲選択 ");
        reveal_strlit("/");
    }
    crate::input_buffer::append_chars(&mut aux, &chars_of(label));
    push_decimal(&mut aux, n);
    crate::input_buffer::append_chars(&mut aux, &chars_of(slash));
    push_decimal(&mut aux, total);
    assert(aux@ =~= range_aux(n as nat, total as nat));
    RangeRender { head: string_of(&head), rest: string_of(&rest), caret: n, aux: string_of(&aux) }
}

/// Shift+Right: enter the range mode (settling the romaji tail, like
/// Space) or grow the selection by one reading character, at most the
/// whole reading. Returns the new selection and its display.
pub fn range_extend(buf: &mut InputBuffer, romaji: &RomajiConverter, select: Option<usize>) -> (r: (
    usize,
    RangeRender,
))
    requires
        old(buf).wf(),
    ensures
        final(buf).wf(),
        select is Some ==> final(buf)@ == old(buf)@,
        select is None ==> final(buf)@.elements == settled_elements(old(buf)@.elements, romaji.width)
            && all_settled(final(buf)@.elements),
        (select is None && all_settled(old(buf)@.elements)) ==> final(buf)@ == old(buf)@,
        r.0 == extended(select, reading_of(final(buf)@).len() as int),
        renders(r.1, reading_of(final(buf)@), r.0 as int),
{
    if select.is_none() {
        buf.settle_romaji(romaji);
    }
    let total = chars_of(buf.reading().as_str()).len();
    let n = match select {
        Some(s) => if s < total {
            s + 1
        } else {
            total
        },
        None => if 0 < total {
            1
        } else {
            0
        },
    };
    (n, render_range(buf, Some(n)))
}

/// Shift+Left: the selection after shrinking by one character. `None`
/// when not selecting (nothing changes); `Some(None)` when the selection
/// reaches zero and the range mode ends; otherwise the smaller selection.
pub fn range_shrink(select: Option<usize>) -> (r: Option<Option<usize>>)
    ensures
        match select {
            None => r is None,
            Some(n) => if n <= 1 {
                r == Some(None::<usize>)
            } else {
                r == Some(Some((n - 1) as usize))
            },
        },
{
    match select {
        None => None,
        Some(n) => if n <= 1 {
            Some(None)
        } else {
            Some(Some(n - 1))
        },
    }
}

/// The first `n` characters of the buffer's reading (all of it when it
/// is shorter): what a range conversion converts.
pub fn range_head(buf: &InputBuffer, n: usize) -> (r: String)
    requires
        buf.wf(),
    ensures
        r@ == reading_of(buf@).take(min_len(n as int, reading_of(buf@).len() as int)),
{
    let reading = buf.reading();
    let cs = chars_of(reading.as_str());
    let m = if n <= cs.len() {
        n
    } else {
        cs.len()
    };
    let mut head: Vec<char> = Vec::new();
    let mut i: usize = 0;
    while i < m
        invariant
            m <= cs@.len(),
            i <= m,
            cs@ == reading@,
            head@ == cs@.take(i as int),
        decreases m - i,
    {
        head.push(cs[i]);
        i += 1;
        assert(head@ =~= cs@.take(i as int));
    }
    string_of(&head)
}

/// Whether a candidate stays within a range conversion of `head`: one
/// whose reading extends past the selection (a predictive completion)
/// would consume more than the selected range when committed.
pub open spec fn in_range_scope(c: Candidate, head: Seq<char>) -> bool {
    match c.reading {
        None => true,
        Some(r) => r@ == head,
    }
}

/// The candidates within the range conversion of `head`, in order.
pub open spec fn scoped(cands: Seq<Candidate>, head: Seq<char>) -> Seq<Candidate>
    decreases cands.len(),
{
    if cands.len() == 0 {
        Seq::empty()
    } else {
        let kept = scoped(cands.drop_last(), head);
        if in_range_scope(cands.last(), head) {
            kept.push(cands.last())
        } else {
            kept
        }
    }
}

fn in_scope(c: &Candidate, head: &str) -> (r: bool)
    ensures
        r == in_range_scope(*c, head@),
{
    match &c.reading {
        None => true,
        Some(r) => {
            let h = head.to_string();
            *r == h
        },
    }
}

/// Keeps the candidates within the range conversion of `head`.
pub fn retain_in_range(candidates: Vec<Candidate>, head: &str) -> (r: Vec<Candidate>)
    ensures
        r@ == scoped(candidates@, head@),
{
    let ghost orig = candidates@;
    let mut rest = candidates;
    let total = rest.len();
    let mut out: Vec<Candidate> = Vec::new();
    let mut i: usize = 0;
    while rest.len() > 0
        invariant
            i + rest@.len() == orig.len() == total,
            rest@ == orig.skip(i as int),
            out@ == scoped(orig.take(i as int), head@),
        decreases rest@.len(),
    {
        let c = rest.remove(0);
        assert(orig.take(i + 1).drop_last() =~= orig.take(i as int));
        assert(orig.take(i + 1).last() == c);
        if in_scope(&c, head) {
            out.push(c);
        }
        i += 1;
        assert(rest@ =~= orig.skip(i as int));
    }
    assert(orig.take(i as int) =~= orig);
    out
}

/// What Space does in the range mode.
pub enum RangeConversion {
    /// Not in the range mode: nothing changes.
    Consumed,
    /// The selected head is empty: the range mode ends.
    Cancel,
    /// No candidate stays within the selection: the range display stays.
    Stay,
    /// Convert the selected head: a conversion of it, remembering that it
    /// spans the first `span` reading characters.
    Convert { list: ConversionList, span: usize },
}

/// Space in the range mode: convert only the selected head. `candidates`
/// are the conversion candidates built for [`range_head`] of the
/// selection; predictive ones that complete past the selection are out of
/// scope and dropped.
pub fn start_range_conversion(buf: &InputBuffer, select: Option<usize>, candidates: Vec<Candidate>) -> (r:
    RangeConversion)
    requires
        buf.wf(),
    ensures
        match select {
            None => r is Consumed,
            Some(n) => {
                let head = reading_of(buf@).take(min_len(n as int, reading_of(buf@).len() as int));
                if head.len() == 0 {
                    r is Cancel
                } else if scoped(candidates@, head).len() == 0 {
                    r is Stay
                } else {
                    &&& r matches RangeConversion::Convert { list, span }
                    &&& span == n
                    &&& list.spec_reading() == head
                    &&& list.spec_candidates() == scoped(candidates@, head)
                    &&& list.spec_cursor() == 0
                }
            },
        },
{
    let n = match select {
        None => {
            return RangeConversion::Consumed;
        },
        Some(n) => n,
    };
    let head = range_head(buf, n);
    if head.as_str().is_empty() {
        return RangeConversion::Cancel;
    }
    let kept = retain_in_range(candidates, head.as_str());
    if kept.len() == 0 {
        return RangeConversion::Stay;
    }
    RangeConversion::Convert { list: ConversionList::new(head, kept, 0), span: n }
}

/// Manual chunk breaks (reading positions) after the first `n` reading
/// characters are removed: shifted left, and a break inside the removed
/// head disappears.
pub open spec fn shifted_breaks(breaks: Seq<usize>, n: int) -> Seq<usize>
    decreases breaks.len(),
{
    if breaks.len() == 0 {
        Seq::empty()
    } else {
        let kept = shifted_breaks(breaks.drop_last(), n);
        if breaks.last() > n {
            kept.push((breaks.last() - n) as usize)
        } else {
            kept
        }
    }
}

/// Shifts manual chunk breaks left past a committed head of `n` reading
/// characters; breaks inside the head disappear.
pub fn shift_chunk_breaks(breaks: &Vec<usize>, n: usize) -> (r: Vec<usize>)
    ensures
        r@ == shifted_breaks(breaks@, n as int),
{
    let mut out: Vec<usize> = Vec::new();
    let mut i: usize = 0;
    while i < breaks.len()
        invariant
            i <= breaks.len(),
            out@ == shifted_breaks(breaks@.take(i as int), n as int),
        decreases breaks.len() - i,
    {
        assert(breaks@.take(i + 1).drop_last() =~= breaks@.take(i as int));
        if breaks[i] > n {
            out.push(breaks[i] - n);
        }
        i += 1;
    }
    assert(breaks@.take(i as int) =~= breaks@);
    out
}

/// What committing a range conversion does.
pub enum RangeCommit {
    /// No candidate is selected: the key is not consumed.
    NotConsumed,
    /// The selected candidate is empty: nothing changes.
    Consumed,
    /// The head is committed and nothing is left: the composition ends.
    /// Carries the committed text and the entry to learn, if any.
    Ended(String, Option<LearningRecord>),
    /// The head is committed and the rest keeps composing. Carries the
    /// committed text and the entry to learn, if any.
    Continue(String, Option<LearningRecord>),
}

/// Whether `l` is the learning entry that committing `c` explicitly
/// records (see [`learning_of`]).
pub open spec fn records(l: Option<LearningRecord>, c: Candidate) -> bool {
    match learning_of(c, true) {
        None => l is None,
        Some(entry) => l matches Some(r) && r.reading@ == entry.0 && r.text@ == entry.1,
    }
}

/// Commits the selected candidate of a range conversion spanning the
/// first `n` reading characters: the commit is learned as the candidate's
/// source allows for an explicit choice, the head leaves the buffer (which
/// was settled when the range mode was entered, so elements and reading
/// characters correspond one to one), manual chunk breaks shift left with
/// it, and the rest keeps composing — or the composition ends when nothing
/// is left.
pub fn commit_range(
    buf: &mut InputBuffer,
    chunk_breaks: &mut Vec<usize>,
    selected: Option<&Candidate>,
    n: usize,
) -> (r: RangeCommit)
    requires
        old(buf).wf(),
    ensures
        final(buf).wf(),
        match selected {
            None => r is NotConsumed && final(buf)@ == old(buf)@ && final(chunk_breaks)@ == old(chunk_breaks)@,
            Some(c) => if c.text@.len() == 0 {
                r is Consumed && final(buf)@ == old(buf)@ && final(chunk_breaks)@ == old(chunk_breaks)@
            } else {
                let m = min_len(n as int, old(buf)@.elements.len() as int);
                &&& final(buf)@.elements == old(buf)@.elements.skip(m)
                &&& final(buf)@.cursor == if old(buf)@.cursor >= n {
                    old(buf)@.cursor - n
                } else {
                    0
                }
                &&& final(chunk_breaks)@ == shifted_breaks(old(chunk_breaks)@, n as int)
                &&& if final(buf)@.elements.len() == 0 {
                    r matches RangeCommit::Ended(t, l) && t@ == c.text@ && records(l, *c)
                } else {
                    r matches RangeCommit::Continue(t, l) && t@ == c.text@ && records(l, *c)
                }
            },
        },
{
    let c = match selected {
        None => {
            return RangeCommit::NotConsumed;
        },
        Some(c) => c,
    };
    if c.text.as_str().is_empty() {
        return RangeCommit::Consumed;
    }
    let learned = learning_record(c, true);
    buf.drain_prefix(n);
    let shifted = shift_chunk_breaks(chunk_breaks, n);
    *chunk_breaks = shifted;
    let text = c.text.clone();
    if buf.is_empty() {
        RangeCommit::Ended(text, learned)
    } else {
        RangeCommit::Continue(text, learned)
    }
}

/// In a settled composition the reading is the whole display: elements and
/// reading characters correspond one to one.
pub proof fn lemma_settled_reading_is_display(b: BufferView)
    requires
        0 <= b.cursor <= b.elements.len(),
        all_settled(b.elements),
    ensures
        reading_of(b) == display_of(b.elements),
{
    if b.cursor > 0 {
        assert(!is_romaji(b.elements[b.cursor - 1]));
    }
    assert(run_start(b.elements, b.cursor) == b.cursor);
    assert(b.elements.take(b.cursor) + b.elements.skip(b.cursor) =~= b.elements);
}

/// Committing a range of `n` characters from a settled composition leaves
/// exactly the rest of the reading composing: the new reading is the old
/// one without its first `n` characters.
pub proof fn lemma_range_commit_keeps_the_rest(before: BufferView, after: BufferView, n: int)
    requires
        0 <= before.cursor <= before.elements.len(),
        0 <= n,
        all_settled(before.elements),
        after.elements == before.elements.skip(min_len(n, before.elements.len() as int)),
        0 <= after.cursor <= after.elements.len(),
    ensures
        reading_of(after) == reading_of(before).skip(min_len(n, reading_of(before).len() as int)),
{
    lemma_settled_reading_is_display(before);
    assert(all_settled(after.elements)) by {
        assert forall|k: int| 0 <= k < after.elements.len() implies !is_romaji(#[trigger] after.elements[k]) by {
            assert(after.elements[k] == before.elements[k + min_len(n, before.elements.len() as int)]);
        }
    }
    lemma_settled_reading_is_display(after);
    assert(display_of(after.elements) =~= display_of(before.elements).skip(
        min_len(n, before.elements.len() as int),
    ));
}

} // verus!
