//! The status vocabulary: `Backlog`, `In Progress`, `In Review`, `Blocked`,
//! `Complete`, plus `Unknown` for any other word a note holds. Reading is
//! lenient (every word maps to a status); CLI input is strict
//! ([`parse_strict`] refuses unknown words).
use vstd::prelude::*;
use crate::text::{chars_of, lemma_trim_plain, range_eq, trim, trim_range, string_of_range};

verus! {

/// A status word outside the vocabulary is kept verbatim in `Unknown`.
#[derive(Debug, Clone)]
pub enum Status {
    Backlog,
    InProgress,
    InReview,
    Blocked,
    Complete,
    Unknown(String),
}

/// A status as plain values.
pub enum StatusView {
    Backlog,
    InProgress,
    InReview,
    Blocked,
    Complete,
    Unknown(Seq<char>),
}

impl View for Status {
    type V = StatusView;

    open spec fn view(&self) -> StatusView {
        match self {
            Status::Backlog => StatusView::Backlog,
            Status::InProgress => StatusView::InProgress,
            Status::InReview => StatusView::InReview,
            Status::Blocked => StatusView::Blocked,
            Status::Complete => StatusView::Complete,
            Status::Unknown(s) => StatusView::Unknown(s@),
        }
    }
}

impl PartialEq for Status {
    fn eq(&self, other: &Status) -> (r: bool) {
        match (self, other) {
            (Status::Backlog, Status::Backlog) => true,
            (Status::InProgress, Status::InProgress) => true,
            (Status::InReview, Status::InReview) => true,
            (Status::Blocked, Status::Blocked) => true,
            (Status::Complete, Status::Complete) => true,
            (Status::Unknown(a), Status::Unknown(b)) => {
                let av = chars_of(a.as_str());
                let bv = chars_of(b.as_str());
                let r = range_eq(&av, 0, av.len(), &bv);
                assert(av@.subrange(0, av@.len() as int) =~= av@);
                r
            },
            _ => false,
        }
    }
}

impl vstd::std_specs::cmp::PartialEqSpecImpl for Status {
    open spec fn obeys_eq_spec() -> bool {
        true
    }

    open spec fn eq_spec(&self, other: &Status) -> bool {
        self@ == other@
    }
}

/// The status a (trimmed) word names: the canonical spellings and their
/// aliases map to their variant, anything else to `Unknown`.
pub open spec fn status_of_word(w: Seq<char>) -> StatusView {
    if w == "Backlog"@ {
        StatusView::Backlog
    } else if w == "In Progress"@ || w == "InProgress"@ || w == "progress"@ || w == "in-progress"@ {
        StatusView::InProgress
    } else if w == "In Review"@ || w == "InReview"@ || w == "Review"@ || w == "review"@ {
        StatusView::InReview
    } else if w == "Blocked"@ || w == "blocked"@ || w == "Block"@ || w == "block"@ {
        StatusView::Blocked
    } else if w == "Complete"@ || w == "complete"@ || w == "Done"@ || w == "done"@ || w
        == "Completed"@ || w == "completed"@ {
        StatusView::Complete
    } else {
        StatusView::Unknown(w)
    }
}

/// The status `s` names once surrounding whitespace is trimmed.
pub open spec fn spec_status_from_str(s: Seq<char>) -> StatusView {
    status_of_word(trim(s))
}

/// The canonical display form of a status (an unknown word verbatim).
pub open spec fn status_text(v: StatusView) -> Seq<char> {
    match v {
        StatusView::Backlog => "Backlog"@,
        StatusView::InProgress => "In Progress"@,
        StatusView::InReview => "In Review"@,
        StatusView::Blocked => "Blocked"@,
        StatusView::Complete => "Complete"@,
        StatusView::Unknown(w) => w,
    }
}

fn word_is(w: &Vec<char>, lit: &str) -> (r: bool)
    ensures
        r == (w@ == lit@),
{
    let l = chars_of(lit);
    let r = range_eq(w, 0, w.len(), &l);
    assert(w@.subrange(0, w@.len() as int) =~= w@);
    r
}

impl Status {
    /// Maps any string to a status: canonical spellings and aliases to
    /// their variant, anything else (trimmed) to `Unknown`.
    pub fn from_word(s: &str) -> (r: Status)
        ensures
            r@ == spec_status_from_str(s@),
    {
        let v = chars_of(s);
        let (a, b) = trim_range(&v, 0, v.len());
        assert(v@.subrange(0, v@.len() as int) =~= v@);
        let w = string_of_range(&v, a, b);
        let wv = chars_of(w.as_str());
        if word_is(&wv, "Backlog") {
            Status::Backlog
        } else if word_is(&wv, "In Progress") || word_is(&wv, "InProgress") || word_is(&wv, "progress")
            || word_is(&wv, "in-progress") {
            Status::InProgress
        } else if word_is(&wv, "In Review") || word_is(&wv, "InReview") || word_is(&wv, "Review")
            || word_is(&wv, "review") {
            Status::InReview
        } else if word_is(&wv, "Blocked") || word_is(&wv, "blocked") || word_is(&wv, "Block")
            || word_is(&wv, "block") {
            Status::Blocked
        } else if word_is(&wv, "Complete") || word_is(&wv, "complete") || word_is(&wv, "Done")
            || word_is(&wv, "done") || word_is(&wv, "Completed") || word_is(&wv, "completed") {
            Status::Complete
        } else {
            Status::Unknown(w)
        }
    }

    /// Whether the status is outside the vocabulary.
    pub fn is_unknown(&self) -> (r: bool)
        ensures
            r == (self@ is Unknown),
    {
        match self {
            Status::Unknown(_) => true,
            _ => false,
        }
    }

    /// A copy of this status.
    pub fn duplicate(&self) -> (r: Status)
        ensures
            r@ == self@,
    {
        match self {
            Status::Backlog => Status::Backlog,
            Status::InProgress => Status::InProgress,
            Status::InReview => Status::InReview,
            Status::Blocked => Status::Blocked,
            Status::Complete => Status::Complete,
            Status::Unknown(s) => Status::Unknown(s.clone()),
        }
    }

    /// The display form: `In Progress` for `InProgress`, an unknown word
    /// verbatim.
    pub fn to_text(&self) -> (r: String)
        ensures
            r@ == status_text(self@),
    {
        match self {
            Status::Backlog => String::from_str("Backlog"),
            Status::InProgress => String::from_str("In Progress"),
            Status::InReview => String::from_str("In Review"),
            Status::Blocked => String::from_str("Blocked"),
            Status::Complete => String::from_str("Complete"),
            Status::Unknown(s) => s.clone(),
        }
    }
}

impl core::str::FromStr for Status {
    type Err = core::convert::Infallible;

    /// Never fails: any word is a status, `Unknown` outside the
    /// vocabulary.
    fn from_str(s: &str) -> (r: Result<Status, core::convert::Infallible>)
        ensures
            r matches Ok(st) && st@ == spec_status_from_str(s@),
    {
        Ok(Status::from_word(s))
    }
}

/// A status argument outside the vocabulary, holding the word as given.
#[derive(Debug)]
pub struct UnknownStatusError(pub String);

impl UnknownStatusError {
    /// The human-readable message for this error.
    pub fn message(&self) -> (r: String)
        ensures
            r@ == "unknown status "@ + crate::vault::spec_debug_str(self.0@),
    {
        let mut out = String::new();
        crate::text::push_str(&mut out, "unknown status ");
        crate::text::push_str(&mut out, crate::vault::debug_str(self.0.as_str()).as_str());
        out
    }
}

/// Parses a CLI status, refusing anything that isn't in the vocabulary.
pub fn parse_strict(s: &str) -> (r: Result<Status, UnknownStatusError>)
    ensures
        match r {
            Ok(status) => status@ == spec_status_from_str(s@) && !(status@ is Unknown),
            Err(e) => e.0@ == s@ && spec_status_from_str(s@) is Unknown,
        },
{
    let status = Status::from_word(s);
    if status.is_unknown() {
        Err(UnknownStatusError(String::from_str(s)))
    } else {
        Ok(status)
    }
}

/// Printing a status of the vocabulary and reading the text back gives
/// the same status.
pub proof fn lemma_display_parses_back(v: StatusView)
    requires
        !(v is Unknown),
    ensures
        spec_status_from_str(status_text(v)) == v,
{
    reveal_strlit("Backlog");
    reveal_strlit("In Progress");
    reveal_strlit("InProgress");
    reveal_strlit("progress");
    reveal_strlit("in-progress");
    reveal_strlit("In Review");
    reveal_strlit("InReview");
    reveal_strlit("Review");
    reveal_strlit("review");
    reveal_strlit("Blocked");
    reveal_strlit("blocked");
    reveal_strlit("Block");
    reveal_strlit("block");
    reveal_strlit("Complete");
    reveal_strlit("complete");
    reveal_strlit("Done");
    reveal_strlit("done");
    reveal_strlit("Completed");
    reveal_strlit("completed");
    lemma_trim_plain(status_text(v));
    let t = status_text(v);
    match v {
        StatusView::Backlog => {},
        StatusView::InProgress => {
            assert(t != "Backlog"@);
        },
        StatusView::InReview => {
            assert(t != "Backlog"@);
            assert(t != "In Progress"@ && t != "InProgress"@ && t != "progress"@ && t != "in-progress"@);
        },
        StatusView::Blocked => {
            assert(t != "Backlog"@);
            assert(t != "In Progress"@ && t != "InProgress"@ && t != "progress"@ && t != "in-progress"@);
            assert(t != "In Review"@ && t != "InReview"@ && t != "Review"@ && t != "review"@);
        },
        StatusView::Complete => {
            assert(t != "Backlog"@);
            assert(t != "In Progress"@ && t != "InProgress"@ && t != "progress"@ && t != "in-progress"@);
            assert(t != "In Review"@ && t != "InReview"@ && t != "Review"@ && t != "review"@);
            assert(t != "Blocked"@ && t != "blocked"@ && t != "Block"@ && t != "block"@);
        },
        StatusView::Unknown(_) => {},
    }
}

/// Each word of the status vocabulary names its own status: `Backlog`;
/// `In Progress`, `InProgress`, `progress`, `in-progress`; `In Review`,
/// `InReview`, `Review`, `review`; `Blocked`, `blocked`, `Block`, `block`;
/// `Complete`, `complete`, `Done`, `done`, `Completed`, `completed`.
proof fn lemma_status_word_table(w: Seq<char>)
    ensures
        (w == "Backlog"@) ==> status_of_word(w) == StatusView::Backlog,
        (w == "In Progress"@ || w == "InProgress"@ || w == "progress"@ || w == "in-progress"@) ==> status_of_word(w) == StatusView::InProgress,
        (w == "In Review"@ || w == "InReview"@ || w == "Review"@ || w == "review"@) ==> status_of_word(w) == StatusView::InReview,
        (w == "Blocked"@ || w == "blocked"@ || w == "Block"@ || w == "block"@) ==> status_of_word(w) == StatusView::Blocked,
        (w == "Complete"@ || w == "complete"@ || w == "Done"@ || w == "done"@ || w == "Completed"@ || w == "completed"@) ==> status_of_word(w) == StatusView::Complete,
{
    reveal_strlit("Backlog");
    reveal_strlit("In Progress");
    reveal_strlit("InProgress");
    reveal_strlit("progress");
    reveal_strlit("in-progress");
    reveal_strlit("In Review");
    reveal_strlit("InReview");
    reveal_strlit("Review");
    reveal_strlit("review");
    reveal_strlit("Blocked");
    reveal_strlit("blocked");
    reveal_strlit("Block");
    reveal_strlit("block");
    reveal_strlit("Complete");
    reveal_strlit("complete");
    reveal_strlit("Done");
    reveal_strlit("done");
    reveal_strlit("Completed");
    reveal_strlit("completed");
    if w == "In Progress"@ {
        assert(w.len() == 11);
        assert("Backlog"@.len() == 7);
        assert(w != "Backlog"@);
    }
    if w == "InProgress"@ {
        assert(w.len() == 10);
        assert("Backlog"@.len() == 7);
        assert(w != "Backlog"@);
    }
    if w == "progress"@ {
        assert(w.len() == 8);
        assert("Backlog"@.len() == 7);
        assert(w != "Backlog"@);
    }
    if w == "in-progress"@ {
        assert(w.len() == 11);
        assert("Backlog"@.len() == 7);
        assert(w != "Backlog"@);
    }
    if w == "In Review"@ {
        assert(w.len() == 9);
        assert("Backlog"@.len() == 7);
        assert("In Progress"@.len() == 11);
        assert("InProgress"@.len() == 10);
        assert("progress"@.len() == 8);
        assert("in-progress"@.len() == 11);
        assert(w != "Backlog"@ && w != "In Progress"@ && w != "InProgress"@ && w != "progress"@ && w != "in-progress"@);
    }
    if w == "InReview"@ {
        assert(w.len() == 8);
        assert("Backlog"@.len() == 7);
        assert("In Progress"@.len() == 11);
        assert("InProgress"@.len() == 10);
        assert("in-progress"@.len() == 11);
        assert(w[0] == 'I' && "progress"@[0] == 'p');
        assert(w != "Backlog"@ && w != "In Progress"@ && w != "InProgress"@ && w != "progress"@ && w != "in-progress"@);
    }
    if w == "Review"@ {
        assert(w.len() == 6);
        assert("Backlog"@.len() == 7);
        assert("In Progress"@.len() == 11);
        assert("InProgress"@.len() == 10);
        assert("progress"@.len() == 8);
        assert("in-progress"@.len() == 11);
        assert(w != "Backlog"@ && w != "In Progress"@ && w != "InProgress"@ && w != "progress"@ && w != "in-progress"@);
    }
    if w == "review"@ {
        assert(w.len() == 6);
        assert("Backlog"@.len() == 7);
        assert("In Progress"@.len() == 11);
        assert("InProgress"@.len() == 10);
        assert("progress"@.len() == 8);
        assert("in-progress"@.len() == 11);
        assert(w != "Backlog"@ && w != "In Progress"@ && w != "InProgress"@ && w != "progress"@ && w != "in-progress"@);
    }
    if w == "Blocked"@ {
        assert(w.len() == 7);
        assert("In Progress"@.len() == 11);
        assert("InProgress"@.len() == 10);
        assert("progress"@.len() == 8);
        assert("in-progress"@.len() == 11);
        assert("In Review"@.len() == 9);
        assert("InReview"@.len() == 8);
        assert("Review"@.len() == 6);
        assert("review"@.len() == 6);
        assert(w[1] == 'l' && "Backlog"@[1] == 'a');
        assert(w != "Backlog"@ && w != "In Progress"@ && w != "InProgress"@ && w != "progress"@ && w != "in-progress"@ && w != "In Review"@ && w != "InReview"@ && w != "Review"@ && w != "review"@);
    }
    if w == "blocked"@ {
        assert(w.len() == 7);
        assert("In Progress"@.len() == 11);
        assert("InProgress"@.len() == 10);
        assert("progress"@.len() == 8);
        assert("in-progress"@.len() == 11);
        assert("In Review"@.len() == 9);
        assert("InReview"@.len() == 8);
        assert("Review"@.len() == 6);
        assert("review"@.len() == 6);
        assert(w[0] == 'b' && "Backlog"@[0] == 'B');
        assert(w != "Backlog"@ && w != "In Progress"@ && w != "InProgress"@ && w != "progress"@ && w != "in-progress"@ && w != "In Review"@ && w != "InReview"@ && w != "Review"@ && w != "review"@);
    }
    if w == "Block"@ {
        assert(w.len() == 5);
        assert("Backlog"@.len() == 7);
        assert("In Progress"@.len() == 11);
        assert("InProgress"@.len() == 10);
        assert("progress"@.len() == 8);
        assert("in-progress"@.len() == 11);
        assert("In Review"@.len() == 9);
        assert("InReview"@.len() == 8);
        assert("Review"@.len() == 6);
        assert("review"@.len() == 6);
        assert(w != "Backlog"@ && w != "In Progress"@ && w != "InProgress"@ && w != "progress"@ && w != "in-progress"@ && w != "In Review"@ && w != "InReview"@ && w != "Review"@ && w != "review"@);
    }
    if w == "block"@ {
        assert(w.len() == 5);
        assert("Backlog"@.len() == 7);
        assert("In Progress"@.len() == 11);
        assert("InProgress"@.len() == 10);
        assert("progress"@.len() == 8);
        assert("in-progress"@.len() == 11);
        assert("In Review"@.len() == 9);
        assert("InReview"@.len() == 8);
        assert("Review"@.len() == 6);
        assert("review"@.len() == 6);
        assert(w != "Backlog"@ && w != "In Progress"@ && w != "InProgress"@ && w != "progress"@ && w != "in-progress"@ && w != "In Review"@ && w != "InReview"@ && w != "Review"@ && w != "review"@);
    }
    if w == "Complete"@ {
        assert(w.len() == 8);
        assert("Backlog"@.len() == 7);
        assert("In Progress"@.len() == 11);
        assert("InProgress"@.len() == 10);
        assert("in-progress"@.len() == 11);
        assert("In Review"@.len() == 9);
        assert("Review"@.len() == 6);
        assert("review"@.len() == 6);
        assert("Blocked"@.len() == 7);
        assert("blocked"@.len() == 7);
        assert("Block"@.len() == 5);
        assert("block"@.len() == 5);
        assert(w[0] == 'C' && "progress"@[0] == 'p');
        assert(w[0] == 'C' && "InReview"@[0] == 'I');
        assert(w != "Backlog"@ && w != "In Progress"@ && w != "InProgress"@ && w != "progress"@ && w != "in-progress"@ && w != "In Review"@ && w != "InReview"@ && w != "Review"@ && w != "review"@ && w != "Blocked"@ && w != "blocked"@ && w != "Block"@ && w != "block"@);
    }
    if w == "complete"@ {
        assert(w.len() == 8);
        assert("Backlog"@.len() == 7);
        assert("In Progress"@.len() == 11);
        assert("InProgress"@.len() == 10);
        assert("in-progress"@.len() == 11);
        assert("In Review"@.len() == 9);
        assert("Review"@.len() == 6);
        assert("review"@.len() == 6);
        assert("Blocked"@.len() == 7);
        assert("blocked"@.len() == 7);
        assert("Block"@.len() == 5);
        assert("block"@.len() == 5);
        assert(w[0] == 'c' && "progress"@[0] == 'p');
        assert(w[0] == 'c' && "InReview"@[0] == 'I');
        assert(w != "Backlog"@ && w != "In Progress"@ && w != "InProgress"@ && w != "progress"@ && w != "in-progress"@ && w != "In Review"@ && w != "InReview"@ && w != "Review"@ && w != "review"@ && w != "Blocked"@ && w != "blocked"@ && w != "Block"@ && w != "block"@);
    }
    if w == "Done"@ {
        assert(w.len() == 4);
        assert("Backlog"@.len() == 7);
        assert("In Progress"@.len() == 11);
        assert("InProgress"@.len() == 10);
        assert("progress"@.len() == 8);
        assert("in-progress"@.len() == 11);
        assert("In Review"@.len() == 9);
        assert("InReview"@.len() == 8);
        assert("Review"@.len() == 6);
        assert("review"@.len() == 6);
        assert("Blocked"@.len() == 7);
        assert("blocked"@.len() == 7);
        assert("Block"@.len() == 5);
        assert("block"@.len() == 5);
        assert(w != "Backlog"@ && w != "In Progress"@ && w != "InProgress"@ && w != "progress"@ && w != "in-progress"@ && w != "In Review"@ && w != "InReview"@ && w != "Review"@ && w != "review"@ && w != "Blocked"@ && w != "blocked"@ && w != "Block"@ && w != "block"@);
    }
    if w == "done"@ {
        assert(w.len() == 4);
        assert("Backlog"@.len() == 7);
        assert("In Progress"@.len() == 11);
        assert("InProgress"@.len() == 10);
        assert("progress"@.len() == 8);
        assert("in-progress"@.len() == 11);
        assert("In Review"@.len() == 9);
        assert("InReview"@.len() == 8);
        assert("Review"@.len() == 6);
        assert("review"@.len() == 6);
        assert("Blocked"@.len() == 7);
        assert("blocked"@.len() == 7);
        assert("Block"@.len() == 5);
        assert("block"@.len() == 5);
        assert(w != "Backlog"@ && w != "In Progress"@ && w != "InProgress"@ && w != "progress"@ && w != "in-progress"@ && w != "In Review"@ && w != "InReview"@ && w != "Review"@ && w != "review"@ && w != "Blocked"@ && w != "blocked"@ && w != "Block"@ && w != "block"@);
    }
    if w == "Completed"@ {
        assert(w.len() == 9);
        assert("Backlog"@.len() == 7);
        assert("In Progress"@.len() == 11);
        assert("InProgress"@.len() == 10);
        assert("progress"@.len() == 8);
        assert("in-progress"@.len() == 11);
        assert("InReview"@.len() == 8);
        assert("Review"@.len() == 6);
        assert("review"@.len() == 6);
        assert("Blocked"@.len() == 7);
        assert("blocked"@.len() == 7);
        assert("Block"@.len() == 5);
        assert("block"@.len() == 5);
        assert(w[0] == 'C' && "In Review"@[0] == 'I');
        assert(w != "Backlog"@ && w != "In Progress"@ && w != "InProgress"@ && w != "progress"@ && w != "in-progress"@ && w != "In Review"@ && w != "InReview"@ && w != "Review"@ && w != "review"@ && w != "Blocked"@ && w != "blocked"@ && w != "Block"@ && w != "block"@);
    }
    if w == "completed"@ {
        assert(w.len() == 9);
        assert("Backlog"@.len() == 7);
        assert("In Progress"@.len() == 11);
        assert("InProgress"@.len() == 10);
        assert("progress"@.len() == 8);
        assert("in-progress"@.len() == 11);
        assert("InReview"@.len() == 8);
        assert("Review"@.len() == 6);
        assert("review"@.len() == 6);
        assert("Blocked"@.len() == 7);
        assert("blocked"@.len() == 7);
        assert("Block"@.len() == 5);
        assert("block"@.len() == 5);
        assert(w[0] == 'c' && "In Review"@[0] == 'I');
        assert(w != "Backlog"@ && w != "In Progress"@ && w != "InProgress"@ && w != "progress"@ && w != "in-progress"@ && w != "In Review"@ && w != "InReview"@ && w != "Review"@ && w != "review"@ && w != "Blocked"@ && w != "blocked"@ && w != "Block"@ && w != "block"@);
    }
}

/// Reading a status (`from_word`, `str::parse`, `parse_strict`) maps each
/// word of the vocabulary, surrounding whitespace aside, to its own
/// status; in particular none of them is unknown, so `parse_strict`
/// accepts it.
pub proof fn lemma_status_words(s: Seq<char>)
    ensures
        (trim(s) == "Backlog"@) ==> spec_status_from_str(s) == StatusView::Backlog,
        (trim(s) == "In Progress"@ || trim(s) == "InProgress"@ || trim(s) == "progress"@ || trim(s) == "in-progress"@) ==> spec_status_from_str(s) == StatusView::InProgress,
        (trim(s) == "In Review"@ || trim(s) == "InReview"@ || trim(s) == "Review"@ || trim(s) == "review"@) ==> spec_status_from_str(s) == StatusView::InReview,
        (trim(s) == "Blocked"@ || trim(s) == "blocked"@ || trim(s) == "Block"@ || trim(s) == "block"@) ==> spec_status_from_str(s) == StatusView::Blocked,
        (trim(s) == "Complete"@ || trim(s) == "complete"@ || trim(s) == "Done"@ || trim(s) == "done"@ || trim(s) == "Completed"@ || trim(s) == "completed"@) ==> spec_status_from_str(s) == StatusView::Complete,
{
    lemma_status_word_table(trim(s));
}

} // verus!
