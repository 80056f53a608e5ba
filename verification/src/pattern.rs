//! A compiled regular expression, held as the text it was compiled from.
//! The regex engine is the `regex` crate; what the logic reads of a
//! compiled pattern (its group names, the groups a haystack matches) is
//! handed over as plain values.
use vstd::prelude::*;

verus! {

/// What `regex::Regex::new(pattern)` and then `capture_names()` yield:
/// `None` when the pattern does not compile; else one entry per capture
/// group in the order of its opening parenthesis, the group's name or
/// `None` for an unnamed group.
pub uninterp spec fn spec_capture_names(pattern: Seq<char>) -> Option<Seq<Option<Seq<char>>>>;

/// What `regex::Regex::new(pattern)` and then `captures(haystack)` yield
/// for a pattern that compiles: `None` when nothing matches; else one
/// entry per capture group (group 0 the whole match), the matched text or
/// `None` for a group that did not take part in the match.
pub uninterp spec fn spec_captures(pattern: Seq<char>, haystack: Seq<char>) -> Option<
    Seq<Option<Seq<char>>>,
>;

pub open spec fn opt_text(o: Option<String>) -> Option<Seq<char>> {
    match o {
        Some(s) => Some(s@),
        None => None,
    }
}

pub open spec fn texts_view(s: Seq<Option<String>>) -> Seq<Option<Seq<char>>> {
    s.map_values(|o: Option<String>| opt_text(o))
}

/// Compiles `pattern` with `regex::Regex::new` and lists its group names
/// with `Regex::capture_names`. The contract names the result; it adds
/// the two facts the crate documents: the list is never empty, and its
/// first entry, the whole match, is unnamed.
#[verifier::external_body]
fn compile_names(pattern: &str) -> (r: Result<Vec<Option<String>>, String>)
    ensures
        match r {
            Ok(names) => spec_capture_names(pattern@) == Some(texts_view(names@)) && names@.len()
                >= 1 && names@[0] is None,
            Err(_) => spec_capture_names(pattern@) is None,
        },
{
    match regex::Regex::new(pattern) {
        Ok(re) => Ok(re.capture_names().map(|name| name.map(String::from)).collect()),
        Err(error) => Err(error.to_string()),
    }
}

/// Matches `haystack` with `regex::Regex::captures`, after compiling the
/// pattern with `regex::Regex::new`. The contract names the result; it
/// adds what the crate documents of a match: one entry per capture group,
/// and group 0 always takes part.
#[verifier::external_body]
fn match_groups(pattern: &str, haystack: &str) -> (r: Option<Vec<Option<String>>>)
    requires
        spec_capture_names(pattern@) is Some,
    ensures
        match r {
            Some(groups) => spec_captures(pattern@, haystack@) == Some(texts_view(groups@))
                && groups@.len() == spec_capture_names(pattern@)->0.len() && groups@[0] is Some,
            None => spec_captures(pattern@, haystack@) is None,
        },
{
    let caps = regex::Regex::new(pattern).ok()?.captures(haystack)?;
    Some(caps.iter().map(|group| group.map(|m| m.as_str().to_string())).collect())
}

/// A regular expression known to compile, with its group names.
pub struct Pattern {
    source: String,
    names: Vec<Option<String>>,
}

impl View for Pattern {
    type V = Seq<char>;

    /// The text the pattern was compiled from.
    closed spec fn view(&self) -> Seq<char> {
        self.source@
    }
}

impl Pattern {
    #[verifier::type_invariant]
    spec fn compiled(self) -> bool {
        &&& spec_capture_names(self.source@) == Some(texts_view(self.names@))
        &&& self.names@.len() >= 1
        &&& self.names@[0] is None
    }

    /// The group names of the pattern `p`, group 0 first.
    pub open spec fn names_of(p: Seq<char>) -> Seq<Option<Seq<char>>> {
        spec_capture_names(p)->0
    }

    /// Compiles `source`; the error is the engine's message.
    pub fn new(source: &str) -> (r: Result<Pattern, String>)
        ensures
            match r {
                Ok(p) => p@ == source@ && spec_capture_names(source@) is Some,
                Err(_) => spec_capture_names(source@) is None,
            },
    {
        match compile_names(source) {
            Ok(names) => Ok(Pattern { source: String::from_str(source), names }),
            Err(message) => Err(message),
        }
    }

    /// The text the pattern was compiled from.
    pub fn as_str(&self) -> (r: &str)
        ensures
            r@ == self@,
    {
        self.source.as_str()
    }

    /// The group names, group 0 (the whole match, unnamed) first.
    pub fn capture_names(&self) -> (r: &Vec<Option<String>>)
        ensures
            texts_view(r@) == Pattern::names_of(self@),
            r@.len() >= 1,
            r@[0] is None,
    {
        proof {
            use_type_invariant(self);
        }
        &self.names
    }

    /// Whether `haystack` matches anywhere.
    pub fn is_match(&self, haystack: &str) -> (r: bool)
        ensures
            r == spec_captures(self@, haystack@) is Some,
    {
        self.captures(haystack).is_some()
    }

    /// The groups `haystack` matches, or `None` when it does not match.
    pub fn captures(&self, haystack: &str) -> (r: Option<Vec<Option<String>>>)
        ensures
            match r {
                Some(groups) => spec_captures(self@, haystack@) == Some(texts_view(groups@))
                    && groups@.len() == Pattern::names_of(self@).len() && groups@[0] is Some,
                None => spec_captures(self@, haystack@) is None,
            },
    {
        proof {
            use_type_invariant(self);
        }
        match_groups(self.source.as_str(), haystack)
    }
}

} // verus!
