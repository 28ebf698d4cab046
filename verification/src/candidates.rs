//! Conversion candidates and the candidate list of a conversion.
use vstd::prelude::*;

verus! {

/// Where a conversion candidate comes from.
#[derive(Clone, Copy, PartialEq, Eq, Debug)]
pub enum CandidateSource {
    /// The kana-kanji model.
    Model,
    /// The system dictionary.
    Dictionary,
    /// A user dictionary.
    UserDictionary,
    /// An earlier commit, learned.
    Learning,
    /// A rewrite of another candidate.
    Rewriter,
    /// The reading itself, offered when the model gave nothing.
    Fallback,
}

/// Whether committing a candidate of source `s` is learned: never the
/// fallback reading, model and rewriter output only when chosen explicitly
/// in the candidate window, every other source always.
pub open spec fn records_learning_spec(s: CandidateSource, explicit: bool) -> bool {
    match s {
        CandidateSource::Fallback => false,
        CandidateSource::Model | CandidateSource::Rewriter => explicit,
        CandidateSource::Learning | CandidateSource::UserDictionary | CandidateSource::Dictionary => true,
    }
}

impl CandidateSource {
    /// Whether committing a candidate of this source is learned;
    /// `explicit` tells a choice made in the candidate window from a live
    /// conversion accepted as shown.
    pub fn records_learning(&self, explicit: bool) -> (r: bool)
        ensures
            r == records_learning_spec(*self, explicit),
    {
        match self {
            CandidateSource::Fallback => false,
            CandidateSource::Model | CandidateSource::Rewriter => explicit,
            CandidateSource::Learning | CandidateSource::UserDictionary | CandidateSource::Dictionary => true,
        }
    }
}

/// A conversion candidate.
pub struct Candidate {
    /// The text committed when the candidate is chosen.
    pub text: String,
    /// The reading the candidate converts, when known.
    pub reading: Option<String>,
    /// Where the candidate comes from, when it is known.
    pub source: Option<CandidateSource>,
    /// What the candidate is, shown beside it.
    pub description: Option<String>,
}

/// An entry to learn: the committed text under the reading it converts.
pub struct LearningRecord {
    pub reading: String,
    pub text: String,
}

/// Whether committing `c` is learned: a candidate of no known source (a
/// fixed transform, kana as typed) always is, others as their source says.
pub open spec fn learns(c: Candidate, explicit: bool) -> bool {
    match c.source {
        None => true,
        Some(s) => records_learning_spec(s, explicit),
    }
}

/// What committing `c` records, if anything: its text under its reading,
/// when the candidate is learned and has a reading.
pub open spec fn learning_of(c: Candidate, explicit: bool) -> Option<(Seq<char>, Seq<char>)> {
    match c.reading {
        Some(reading) => if learns(c, explicit) {
            Some((reading@, c.text@))
        } else {
            None
        },
        None => None,
    }
}

/// The learning entry a commit of `c` records (see [`learning_of`]).
pub fn learning_record(c: &Candidate, explicit: bool) -> (r: Option<LearningRecord>)
    ensures
        match learning_of(*c, explicit) {
            None => r is None,
            Some(entry) => r matches Some(l) && l.reading@ == entry.0 && l.text@ == entry.1,
        },
{
    let learn = match c.source {
        None => true,
        Some(s) => s.records_learning(explicit),
    };
    match &c.reading {
        Some(reading) => if learn {
            Some(LearningRecord { reading: reading.clone(), text: c.text.clone() })
        } else {
            None
        },
        None => None,
    }
}

/// Texts of a list of candidates.
pub open spec fn texts_of(c: Seq<Candidate>) -> Seq<Seq<char>> {
    Seq::new(c.len(), |i: int| c[i].text@)
}

/// Whether a candidate has the given text, reading and description, and
/// no source.
pub open spec fn candidate_is(c: Candidate, text: Seq<char>, reading: Seq<char>, description: Seq<char>) -> bool {
    &&& c.text@ == text
    &&& c.reading matches Some(r) && r@ == reading
    &&& c.source is None
    &&& c.description matches Some(d) && d@ == description
}

/// A conversion of `reading`: its candidates, one of them selected.
pub struct ConversionList {
    reading: String,
    candidates: Vec<Candidate>,
    cursor: usize,
}

impl ConversionList {
    /// The selection lies within the candidates.
    #[verifier::type_invariant]
    spec fn selection_in_list(self) -> bool {
        self.cursor < self.candidates@.len()
    }

    /// A conversion of `reading` with the `cursor`-th candidate selected.
    pub fn new(reading: String, candidates: Vec<Candidate>, cursor: usize) -> (r: Self)
        requires
            cursor < candidates@.len(),
        ensures
            r.spec_reading() == reading@,
            r.spec_candidates() == candidates@,
            r.spec_cursor() == cursor,
    {
        ConversionList { reading, candidates, cursor }
    }

    pub closed spec fn spec_reading(self) -> Seq<char> {
        self.reading@
    }

    pub closed spec fn spec_candidates(self) -> Seq<Candidate> {
        self.candidates@
    }

    pub closed spec fn spec_cursor(self) -> int {
        self.cursor as int
    }

    /// The reading being converted.
    pub fn reading(&self) -> (r: &str)
        ensures
            r@ == self.spec_reading(),
    {
        self.reading.as_str()
    }

    /// The candidates, in display order.
    pub fn candidates(&self) -> (r: &Vec<Candidate>)
        ensures
            r@ == self.spec_candidates(),
    {
        &self.candidates
    }

    /// Index of the selected candidate.
    pub fn cursor(&self) -> (r: usize)
        ensures
            r == self.spec_cursor(),
            r < self.spec_candidates().len(),
    {
        proof {
            use_type_invariant(self);
        }
        self.cursor
    }

    /// The selected candidate.
    pub fn selected(&self) -> (r: &Candidate)
        ensures
            0 <= self.spec_cursor() < self.spec_candidates().len(),
            *r == self.spec_candidates()[self.spec_cursor()],
    {
        proof {
            use_type_invariant(self);
        }
        &self.candidates[self.cursor]
    }

    /// Text of the selected candidate.
    pub fn selected_text(&self) -> (r: &str)
        ensures
            0 <= self.spec_cursor() < self.spec_candidates().len(),
            r@ == self.spec_candidates()[self.spec_cursor()].text@,
    {
        proof {
            use_type_invariant(self);
        }
        self.candidates[self.cursor].text.as_str()
    }
}

} // verus!
