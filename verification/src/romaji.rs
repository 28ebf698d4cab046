//! Romaji-to-kana conversion over a fixed, prefix-free table: complete
//! keys fire their kana, doubled consonants fire っ, `n` before a key that
//! cannot follow it fires ん, and other keystrokes pass through.
use vstd::prelude::*;
use crate::romaji_table::{
    key_prefix1, key_prefix1_exec, key_prefix2, key_prefix2_exec, key_prefix3, key_prefix3_exec,
    rule1, rule1_exec, rule2, rule2_exec, rule3, rule3_exec, rule4, rule4_exec,
};
use crate::text::is_ascii_char;
use crate::width::Width;

verus! {

/// Kana as a sequence: one or two characters.
pub open spec fn kana_seq(o: (char, Option<char>)) -> Seq<char> {
    match o.1 {
        Some(d) => seq![o.0, d],
        None => seq![o.0],
    }
}

/// The kana that the table fires for the key sequence `key`, if any.
pub open spec fn rule_output(key: Seq<char>) -> Option<Seq<char>> {
    let r = if key.len() == 1 {
        rule1(key[0])
    } else if key.len() == 2 {
        rule2(key[0], key[1])
    } else if key.len() == 3 {
        rule3(key[0], key[1], key[2])
    } else if key.len() == 4 {
        rule4(key[0], key[1], key[2], key[3])
    } else {
        None
    };
    match r {
        Some(o) => Some(kana_seq(o)),
        None => None,
    }
}

/// `p` begins some longer key of the table.
pub open spec fn is_key_prefix(p: Seq<char>) -> bool {
    if p.len() == 1 {
        key_prefix1(p[0])
    } else if p.len() == 2 {
        key_prefix2(p[0], p[1])
    } else if p.len() == 3 {
        key_prefix3(p[0], p[1], p[2])
    } else {
        false
    }
}

/// Some key of the table begins with `c`.
pub open spec fn starts_rule_spec(c: char) -> bool {
    rule1(c) is Some || key_prefix1(c)
}

/// A doubled consonant of this letter fires the small っ (`tt` → っt).
pub open spec fn is_sokuon_consonant(c: char) -> bool {
    'a' <= c && c <= 'z' && c != 'a' && c != 'i' && c != 'u' && c != 'e' && c != 'o' && c != 'n'
}

/// Resolves pending keystrokes as far as the table allows, appending what
/// fires to `text`. What is left is empty or the beginning of a key.
/// A complete key fires its kana; a doubled consonant fires っ; an `n`
/// before anything that cannot follow it fires ん; any other keystroke
/// that cannot begin a key passes through as itself.
pub open spec fn resolve(text: Seq<char>, pending: Seq<char>) -> (Seq<char>, Seq<char>)
    decreases pending.len(),
{
    if pending.len() == 0 {
        (text, pending)
    } else if rule_output(pending) is Some {
        (text + rule_output(pending)->0, Seq::empty())
    } else if is_key_prefix(pending) {
        (text, pending)
    } else if pending.len() >= 2 && pending[0] == pending[1] && is_sokuon_consonant(pending[0]) {
        resolve(text.push('っ'), pending.drop_first())
    } else if pending.len() >= 2 && pending[0] == 'n' {
        resolve(text.push('ん'), pending.drop_first())
    } else {
        resolve(text.push(pending[0]), pending.drop_first())
    }
}

/// Conversion of a keystroke sequence, left to right: the text fired so far
/// and the keystrokes still pending.
pub open spec fn spec_convert(input: Seq<char>) -> (Seq<char>, Seq<char>)
    decreases input.len(),
{
    if input.len() == 0 {
        (Seq::empty(), Seq::empty())
    } else {
        let prev = spec_convert(input.drop_last());
        resolve(prev.0, prev.1.push(input.last()))
    }
}

/// Forced settlement of pending keystrokes: a lone `n` becomes ん, any
/// other pending keystrokes stay literally.
pub open spec fn flush_spec(pending: Seq<char>) -> Seq<char> {
    if pending == seq!['n'] {
        seq!['ん']
    } else {
        pending
    }
}

/// A keystroke run converted and its pending tail flushed.
pub open spec fn convert_flush_spec(run: Seq<char>) -> Seq<char> {
    spec_convert(run).0 + flush_spec(spec_convert(run).1)
}

/// Result of converting a keystroke sequence.
pub struct ConversionOutput {
    /// Text fired by the table (kana and passed-through keystrokes).
    pub text: Vec<char>,
    /// Keystrokes that still begin a key and wait for more input.
    pub pending: Vec<char>,
}

/// Romaji-to-kana converter: a fixed table plus the width settled
/// characters are shown at.
pub struct RomajiConverter {
    pub width: Width,
}

fn lookup_rule(key: &Vec<char>) -> (r: Option<(char, Option<char>)>)
    ensures
        match r {
            Some(o) => rule_output(key@) == Some(kana_seq(o)),
            None => rule_output(key@) is None,
        },
{
    if key.len() == 1 {
        rule1_exec(key[0])
    } else if key.len() == 2 {
        rule2_exec(key[0], key[1])
    } else if key.len() == 3 {
        rule3_exec(key[0], key[1], key[2])
    } else if key.len() == 4 {
        rule4_exec(key[0], key[1], key[2], key[3])
    } else {
        None
    }
}

fn key_prefix(p: &Vec<char>) -> (r: bool)
    ensures
        r == is_key_prefix(p@),
{
    if p.len() == 1 {
        key_prefix1_exec(p[0])
    } else if p.len() == 2 {
        key_prefix2_exec(p[0], p[1])
    } else if p.len() == 3 {
        key_prefix3_exec(p[0], p[1], p[2])
    } else {
        false
    }
}

fn sokuon_consonant(c: char) -> (r: bool)
    ensures
        r == is_sokuon_consonant(c),
{
    'a' <= c && c <= 'z' && c != 'a' && c != 'i' && c != 'u' && c != 'e' && c != 'o' && c != 'n'
}

/// Exec counterpart of [`resolve`], in place.
fn resolve_in_place(text: &mut Vec<char>, pending: &mut Vec<char>)
    ensures
        (final(text)@, final(pending)@) == resolve(old(text)@, old(pending)@),
{
    loop
        invariant
            resolve(text@, pending@) == resolve(old(text)@, old(pending)@),
        decreases pending.len(),
    {
        let ghost t0 = text@;
        let ghost p0 = pending@;
        if pending.len() == 0 {
            return;
        }
        match lookup_rule(pending) {
            Some(o) => {
                text.push(o.0);
                match o.1 {
                    Some(d) => text.push(d),
                    None => {},
                }
                assert(text@ =~= t0 + kana_seq(o));
                pending.clear();
                assert(pending@ =~= Seq::<char>::empty());
                return;
            },
            None => {},
        }
        if key_prefix(pending) {
            return;
        }
        let first = pending[0];
        if pending.len() >= 2 && first == pending[1] && sokuon_consonant(first) {
            text.push('っ');
        } else if pending.len() >= 2 && first == 'n' {
            text.push('ん');
        } else {
            text.push(first);
        }
        pending.remove(0);
        assert(pending@ =~= p0.drop_first());
    }
}

impl RomajiConverter {
    /// The converter with settled characters shown as typed.
    pub fn new() -> (r: Self)
        ensures
            r.width == Width::Half,
    {
        RomajiConverter { width: Width::Half }
    }

    /// The converter showing settled characters at width `width`.
    pub fn with_width(width: Width) -> (r: Self)
        ensures
            r.width == width,
    {
        RomajiConverter { width }
    }

    /// The width settled characters are shown at.
    pub fn width(&self) -> (r: Width)
        ensures
            r == self.width,
    {
        self.width
    }

    /// Converts a keystroke sequence left to right.
    pub fn convert(&self, input: &Vec<char>) -> (r: ConversionOutput)
        ensures
            (r.text@, r.pending@) == spec_convert(input@),
    {
        let mut text: Vec<char> = Vec::new();
        let mut pending: Vec<char> = Vec::new();
        let mut i: usize = 0;
        while i < input.len()
            invariant
                i <= input.len(),
                (text@, pending@) == spec_convert(input@.take(i as int)),
            decreases input.len() - i,
        {
            pending.push(input[i]);
            resolve_in_place(&mut text, &mut pending);
            i += 1;
            assert(input@.take(i as int).drop_last() =~= input@.take(i - 1));
        }
        assert(input@.take(input.len() as int) =~= input@);
        ConversionOutput { text, pending }
    }

    /// Forced settlement of pending keystrokes (see [`flush_spec`]).
    pub fn flush_pending(&self, pending: &Vec<char>) -> (r: Vec<char>)
        ensures
            r@ == flush_spec(pending@),
    {
        if pending.len() == 1 && pending[0] == 'n' {
            assert(pending@ =~= seq!['n']);
            let mut r: Vec<char> = Vec::new();
            r.push('ん');
            assert(r@ =~= seq!['ん']);
            r
        } else {
            assert(pending@ != seq!['n']) by {
                if pending@ == seq!['n'] {
                    assert(pending@.len() == 1 && pending@[0] == 'n');
                }
            }
            let mut r: Vec<char> = Vec::new();
            let mut i: usize = 0;
            while i < pending.len()
                invariant
                    i <= pending.len(),
                    r@ == pending@.take(i as int),
                decreases pending.len() - i,
            {
                r.push(pending[i]);
                i += 1;
                assert(r@ =~= pending@.take(i as int));
            }
            assert(pending@.take(pending.len() as int) =~= pending@);
            r
        }
    }

    /// Converts a run and settles what is still pending.
    pub fn convert_flush(&self, run: &Vec<char>) -> (r: Vec<char>)
        ensures
            r@ == convert_flush_spec(run@),
    {
        let out = self.convert(run);
        let mut text = out.text;
        let flushed = self.flush_pending(&out.pending);
        let mut i: usize = 0;
        let ghost t0 = text@;
        while i < flushed.len()
            invariant
                i <= flushed.len(),
                text@ == t0 + flushed@.take(i as int),
            decreases flushed.len() - i,
        {
            text.push(flushed[i]);
            i += 1;
            assert(text@ =~= t0 + flushed@.take(i as int));
        }
        assert(flushed@.take(flushed.len() as int) =~= flushed@);
        text
    }

    /// Whether some key of the table begins with `c`.
    pub fn starts_rule(&self, c: char) -> (r: bool)
        ensures
            r == starts_rule_spec(c),
    {
        rule1_exec(c).is_some() || key_prefix1_exec(c)
    }
}

/// Facts of the table that evaluation relies on: key prefixes are ASCII,
/// never begin with a doubled letter, never complete a key, stay prefixes
/// without their first keystroke, and the only one beginning `n` and
/// longer than it is `ny`; `nn` is a key; every key fires non-ASCII kana.
pub proof fn lemma_table_prefixes(p: Seq<char>)
    requires
        is_key_prefix(p),
    ensures
        1 <= p.len() <= 3,
        forall|i: int| 0 <= i < p.len() ==> is_ascii_char(#[trigger] p[i]),
        p.len() >= 2 ==> p[0] != p[1],
        p.len() >= 2 ==> is_key_prefix(p.drop_first()),
        p.len() >= 2 && p[0] == 'n' ==> p =~= seq!['n', 'y'],
        rule_output(p) is None,
{
    if p.len() == 2 {
        assert(p.drop_first() =~= seq![p[1]]);
    } else if p.len() == 3 {
        assert(p.drop_first() =~= seq![p[1], p[2]]);
    }
}

/// Every key of the table fires one or two non-ASCII characters.
pub proof fn lemma_table_outputs(key: Seq<char>)
    requires
        rule_output(key) is Some,
    ensures
        1 <= rule_output(key)->0.len() <= 2,
        forall|i: int|
            0 <= i < rule_output(key)->0.len() ==> !is_ascii_char(#[trigger] rule_output(key)->0[i]),
{
}

/// `nn` is a key.
pub proof fn lemma_table_nn()
    ensures
        rule_output(seq!['n', 'n']) is Some,
{
}

/// Resolution appends to the text it is given: the text does not change
/// what fires or what stays pending.
pub proof fn lemma_resolve_text(text: Seq<char>, p: Seq<char>)
    ensures
        resolve(text, p) == (text + resolve(Seq::empty(), p).0, resolve(Seq::empty(), p).1),
    decreases p.len(),
{
    let e = Seq::<char>::empty();
    if p.len() == 0 {
        assert(text + e =~= text);
    } else if rule_output(p) is Some {
        assert(e + rule_output(p)->0 =~= rule_output(p)->0);
        assert(text + rule_output(p)->0 =~= text + (e + rule_output(p)->0));
    } else if is_key_prefix(p) {
        assert(text + e =~= text);
    } else {
        let x = if p.len() >= 2 && p[0] == p[1] && is_sokuon_consonant(p[0]) {
            'っ'
        } else if p.len() >= 2 && p[0] == 'n' {
            'ん'
        } else {
            p[0]
        };
        lemma_resolve_text(text.push(x), p.drop_first());
        lemma_resolve_text(e.push(x), p.drop_first());
        let out = resolve(e, p.drop_first()).0;
        assert(text.push(x) + out =~= text + (e.push(x) + out));
    }
}

/// What stays pending after resolution is the tail of the keystrokes that
/// nothing consumed: empty or the beginning of a key; when nothing fires,
/// every keystroke stays pending.
pub proof fn lemma_resolve_rest(p: Seq<char>)
    ensures
        ({
            let res = resolve(Seq::empty(), p);
            &&& res.1.len() <= p.len()
            &&& res.1 == p.skip(p.len() - res.1.len())
            &&& res.1.len() == 0 || is_key_prefix(res.1)
            &&& res.0.len() == 0 ==> res.1 == p
            &&& res.0.len() > 0 ==> res.1.len() < p.len()
        }),
    decreases p.len(),
{
    let e = Seq::<char>::empty();
    if p.len() == 0 {
        assert(p.skip(0) =~= p);
    } else if rule_output(p) is Some {
        lemma_table_outputs(p);
        assert(p.skip(p.len() as int) =~= e);
    } else if is_key_prefix(p) {
        assert(p.skip(0) =~= p);
    } else {
        let x = if p.len() >= 2 && p[0] == p[1] && is_sokuon_consonant(p[0]) {
            'っ'
        } else if p.len() >= 2 && p[0] == 'n' {
            'ん'
        } else {
            p[0]
        };
        lemma_resolve_text(e.push(x), p.drop_first());
        lemma_resolve_rest(p.drop_first());
        let rest = resolve(e, p.drop_first()).1;
        assert(p.drop_first().skip(p.drop_first().len() - rest.len()) =~= p.skip(p.len() - rest.len()));
    }
}

/// Conversion keeps at most a key's beginning pending.
pub proof fn lemma_convert_pending(input: Seq<char>)
    ensures
        spec_convert(input).1.len() == 0 || is_key_prefix(spec_convert(input).1),
    decreases input.len(),
{
    if input.len() > 0 {
        let prev = spec_convert(input.drop_last());
        lemma_resolve_text(prev.0, prev.1.push(input.last()));
        lemma_resolve_rest(prev.1.push(input.last()));
    }
}

/// Every beginning of a key's beginning is one too, and so is every tail
/// of it.
pub proof fn lemma_table_prefix_parts(p: Seq<char>, y: int)
    requires
        is_key_prefix(p),
        1 <= y <= p.len(),
    ensures
        is_key_prefix(p.take(y)),
        y < p.len() ==> is_key_prefix(p.skip(y)),
    decreases y,
{
    lemma_table_prefixes(p);
    if p.len() == 2 {
        assert(p.take(1) =~= seq![p[0]]);
        if y == 2 {
            assert(p.take(2) =~= p);
        }
        assert(p.skip(1) =~= seq![p[1]]);
    } else if p.len() == 3 {
        assert(p.take(1) =~= seq![p[0]]);
        assert(p.take(2) =~= seq![p[0], p[1]]);
        assert(p.take(3) =~= p);
        assert(p.skip(1) =~= seq![p[1], p[2]]);
        assert(p.skip(2) =~= seq![p[2]]);
    } else {
        assert(p.take(1) =~= p);
    }
}

/// Number of single steps resolution takes on `q` before it stops or a
/// key fires: each consumes one keystroke and fires one character.
pub open spec fn single_steps(q: Seq<char>) -> nat
    decreases q.len(),
{
    if q.len() == 0 || rule_output(q) is Some || is_key_prefix(q) {
        0
    } else {
        1 + single_steps(q.drop_first())
    }
}

/// After `y` single steps, resolution goes on from the rest of the
/// keystrokes with the first `y` characters fired.
pub proof fn lemma_resolve_chain(q: Seq<char>, y: int)
    requires
        0 <= y <= single_steps(q),
    ensures
        y <= q.len(),
        resolve(Seq::empty(), q).0.len() >= y,
        resolve(Seq::empty(), q.skip(y)) == (
            resolve(Seq::empty(), q).0.skip(y),
            resolve(Seq::empty(), q).1,
        ),
        resolve(Seq::empty(), q).1.len() > 0 || (resolve(Seq::empty(), q).0.len() > 0 && is_ascii_char(
            resolve(Seq::empty(), q).0.last(),
        )) ==> resolve(Seq::empty(), q).0.len() == single_steps(q) && resolve(Seq::empty(), q).1 == q.skip(
            single_steps(q) as int,
        ),
    decreases q.len(),
{
    let e = Seq::<char>::empty();
    if q.len() == 0 || rule_output(q) is Some || is_key_prefix(q) {
        assert(q.skip(0) =~= q);
        assert(resolve(e, q).0.skip(0) =~= resolve(e, q).0);
        if rule_output(q) is Some && q.len() > 0 {
            lemma_table_outputs(q);
        }
    } else {
        let x = if q.len() >= 2 && q[0] == q[1] && is_sokuon_consonant(q[0]) {
            'っ'
        } else if q.len() >= 2 && q[0] == 'n' {
            'ん'
        } else {
            q[0]
        };
        lemma_resolve_text(e.push(x), q.drop_first());
        let rr = resolve(e, q.drop_first());
        assert(resolve(e, q).0 =~= seq![x] + rr.0);
        if y == 0 {
            assert(q.skip(0) =~= q);
            assert(resolve(e, q).0.skip(0) =~= resolve(e, q).0);
        } else {
            lemma_resolve_chain(q.drop_first(), y - 1);
            assert(q.drop_first().skip(y - 1) =~= q.skip(y));
            assert(rr.0.skip(y - 1) =~= (seq![x] + rr.0).skip(y));
        }
        lemma_resolve_chain(q.drop_first(), single_steps(q.drop_first()) as int);
        if rr.1.len() > 0 || (rr.0.len() > 0 && is_ascii_char(rr.0.last())) {
            assert(q.drop_first().skip(single_steps(q.drop_first()) as int) =~= q.skip(single_steps(q) as int));
        } else if rr.0.len() == 0 {
            lemma_resolve_rest(q.drop_first());
            assert(rr.1 == q.drop_first());
            assert(q.drop_first().len() == 0);
            assert(q.skip(1) =~= q.drop_first());
        }
    }
}

/// Typing the keystrokes of a key's beginning fires nothing: they all stay
/// pending.
pub proof fn lemma_convert_key_prefix(p: Seq<char>)
    requires
        p.len() == 0 || is_key_prefix(p),
    ensures
        spec_convert(p) == (Seq::<char>::empty(), p),
    decreases p.len(),
{
    if p.len() > 0 {
        if p.len() >= 2 {
            lemma_table_prefix_parts(p, p.len() - 1);
            assert(p.drop_last() =~= p.take(p.len() - 1));
        }
        lemma_convert_key_prefix(p.drop_last());
        assert(p.drop_last().push(p.last()) =~= p);
        lemma_table_prefixes(p);
    }
}

/// Doubled consonants fire the small っ: for every consonant letter but
/// `n`, typing it twice before a vowel it forms a syllable with gives っ
/// followed by that syllable's kana (`kka` → っか, `ssa` → っさ), with
/// nothing left pending.
pub proof fn lemma_doubled_consonant_fires_sokuon(c: char, v: char)
    requires
        'a' <= c <= 'z',
        c != 'a' && c != 'i' && c != 'u' && c != 'e' && c != 'o' && c != 'n',
        v == 'a' || v == 'i' || v == 'u' || v == 'e' || v == 'o',
        rule_output(seq![c, v]) is Some,
    ensures
        spec_convert(seq![c, c, v]) == (seq!['っ'] + spec_convert(seq![c, v]).0, Seq::<char>::empty()),
        spec_convert(seq![c, v]) == (rule_output(seq![c, v])->0, Seq::<char>::empty()),
{
    let e = Seq::<char>::empty();
    assert(seq![c, c, v].drop_last() =~= seq![c, c]);
    assert(seq![c, c].drop_last() =~= seq![c]);
    assert(seq![c].drop_last() =~= e);
    assert(seq![c, v].drop_last() =~= seq![c]);
    assert(rule1(c) is None);
    assert(key_prefix1(c));
    assert(e.push(c) =~= seq![c]);
    assert(spec_convert(e) == (e, e));
    assert(seq![c][0] == c);
    assert(rule_output(seq![c]) is None);
    assert(is_key_prefix(seq![c]));
    assert(resolve(e, seq![c]) == (e, seq![c]));
    assert(spec_convert(seq![c]) == (e, seq![c]));
    assert(seq![c].push(c) =~= seq![c, c]);
    assert(rule2(c, c) is None);
    assert(!key_prefix2(c, c));
    assert(rule_output(seq![c, c]) is None);
    assert(!is_key_prefix(seq![c, c]));
    assert(seq![c, c].drop_first() =~= seq![c]);
    assert(is_sokuon_consonant(c));
    assert(resolve(e.push('っ'), seq![c]) == (e.push('っ'), seq![c]));
    assert(spec_convert(seq![c, c]) == (seq!['っ'], seq![c]));
    assert(seq![c].push(v) =~= seq![c, v]);
    assert(seq!['っ'] + rule_output(seq![c, v])->0 =~= seq!['っ'] + (e + rule_output(seq![c, v])->0));
    assert(e + rule_output(seq![c, v])->0 =~= rule_output(seq![c, v])->0);
}

} // verus!
