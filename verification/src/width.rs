//! Character width of settled input.
use vstd::prelude::*;
use crate::text::{char_from_u32, chars_of, string_of};

verus! {

/// Character width that settled input is shown at.
#[derive(Clone, Copy, PartialEq, Eq, Debug)]
pub enum Width {
    /// As typed.
    Half,
    /// Printable ASCII shown full-width (`a` → `ａ`, space → U+3000).
    Full,
}

/// Full-width form of a character: printable ASCII `!`..=`~` moves to
/// U+FF01..=U+FF5E, the space to the ideographic space U+3000, everything
/// else is kept.
pub open spec fn full_width_char(c: char) -> char {
    if c == ' ' {
        '\u{3000}'
    } else if '!' <= c && c <= '~' {
        ((c as u32) + 0xFEE0) as char
    } else {
        c
    }
}

pub open spec fn apply_width(w: Width, c: char) -> char {
    match w {
        Width::Half => c,
        Width::Full => full_width_char(c),
    }
}

pub fn to_full_width_char(c: char) -> (r: char)
    ensures
        r == full_width_char(c),
{
    if c == ' ' {
        '\u{3000}'
    } else if '!' <= c && c <= '~' {
        let u = (c as u32) + 0xFEE0;
        match char_from_u32(u) {
            Some(f) => f,
            None => c,
        }
    } else {
        c
    }
}

impl Width {
    /// The character as shown at this width.
    pub fn apply(&self, c: char) -> (r: char)
        ensures
            r == apply_width(*self, c),
    {
        match self {
            Width::Half => c,
            Width::Full => to_full_width_char(c),
        }
    }
}

/// Every character of `s` as shown at width `w`.
pub open spec fn at_width(w: Width, s: Seq<char>) -> Seq<char> {
    s.map_values(|c: char| apply_width(w, c))
}

/// Full-width form of every character of `s`.
pub open spec fn full_seq(s: Seq<char>) -> Seq<char> {
    s.map_values(|c: char| full_width_char(c))
}

/// Full-width form of every character of `s`.
pub fn to_full_width(s: &str) -> (r: String)
    ensures
        r@ == full_seq(s@),
{
    let cs = chars_of(s);
    let mut out: Vec<char> = Vec::new();
    let mut i: usize = 0;
    while i < cs.len()
        invariant
            i <= cs.len(),
            cs@ == s@,
            out@ == full_seq(cs@.take(i as int)),
        decreases cs.len() - i,
    {
        out.push(to_full_width_char(cs[i]));
        i += 1;
        assert(out@ =~= full_seq(cs@.take(i as int)));
    }
    assert(cs@.take(cs.len() as int) =~= cs@);
    string_of(&out)
}

} // verus!
