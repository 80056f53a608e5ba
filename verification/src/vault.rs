//! Vault-level vocabulary: the error kinds the note operations report and
//! the filename-safety gate for note names.
use vstd::prelude::*;
use crate::ftypes::{nat_text, push_nat};
use crate::pattern::{spec_captures, texts_view, Pattern};
use crate::text::{chars_of, has_char, push_char, push_str, range_has_char, replace_all, spec_replace};

verus! {

/// Why a vault operation failed. Paths and values are carried as text;
/// an underlying I/O or YAML failure is carried as its message.
#[derive(Debug)]
pub enum VaultError {
    CouldNotDeserializeFrontmatter { error: String },
    NoteNotFound { path: String, error: String },
    TemplateNotFound { path: String, error: String },
    FrontmatterNotFound { path: String },
    IoError { path: String, error: String },
    NoteAlreadyExists { path: String, error: String },
    CurrentBranchNotFound,
    CouldNotParseBranchName { branch: String, pattern: String },
    CouldNotComposeNoteName { branch: String, name: String },
    UnsafeNoteName { branch: String, name: String },
    FieldNotFound { field: String, suggestion: Option<String> },
    InvalidFieldValue { field: String, reason: String },
    PlaceholderWithoutValue { name: String, line: usize },
    UnsupportedDateFormat { arg: String, line: usize },
    UnsupportedConstruct { construct: String, line: usize },
    PathNotFound { path: String },
    NoteChangedUnderUs { path: String },
}

/// How a file-system operation failed, as far as the vault logic cares.
#[derive(Debug, Clone, Copy, PartialEq, Eq, Structural)]
pub enum IoKind {
    NotFound,
    AlreadyExists,
    Other,
}

/// A failed file-system operation: its kind and its message.
#[derive(Debug)]
pub struct IoFailure {
    pub kind: IoKind,
    pub message: String,
}

/// A note name is one visible file in the features directory: non-empty,
/// not starting with `.`, and without `/`, NUL or newline.
pub open spec fn is_safe_note_name(name: Seq<char>) -> bool {
    &&& name.len() > 0
    &&& name[0] != '.'
    &&& !has_char(name, '/')
    &&& !has_char(name, '\0')
    &&& !has_char(name, '\n')
}

/// Filename safety for a composed id or an explicit key: refuses names
/// that are empty, hidden, or would leave the features directory.
pub fn ensure_safe_note_name(branch: &str, name: &str) -> (r: Result<(), VaultError>)
    ensures
        match r {
            Ok(()) => is_safe_note_name(name@),
            Err(e) => !is_safe_note_name(name@) && (e matches VaultError::UnsafeNoteName {
                branch: b,
                name: n,
            } && b@ == branch@ && n@ == name@),
        },
{
    let v = chars_of(name);
    let n = v.len();
    assert(v@.subrange(0, n as int) =~= v@);
    if n == 0 || v[0] == '.' || range_has_char(&v, 0, n, '/') || range_has_char(&v, 0, n, '\0')
        || range_has_char(&v, 0, n, '\n') {
        return Err(
            VaultError::UnsafeNoteName { branch: String::from_str(branch), name: String::from_str(name) },
        );
    }
    Ok(())
}

/// `format!("{:?}", s)`: the string quoted and escaped as Rust's `Debug`
/// prints it.
pub uninterp spec fn spec_debug_str(s: Seq<char>) -> Seq<char>;

/// Quotes `s` the way `{:?}` does, through `<str as Debug>::fmt`. The
/// contract names the result and says nothing of its characters.
#[verifier::external_body]
pub(crate) fn debug_str(s: &str) -> (r: String)
    ensures
        r@ == spec_debug_str(s@),
{
    format!("{s:?}")
}

pub open spec fn line_text(line: usize) -> Seq<char> {
    nat_text(line as nat)
}

/// The message an error is reported with.
pub open spec fn spec_message(e: VaultError) -> Seq<char> {
    match e {
        VaultError::CouldNotDeserializeFrontmatter { .. } => "could not deserialize yaml frontmatter"@,
        VaultError::NoteNotFound { path, .. } => "could not find note at "@ + path@,
        VaultError::TemplateNotFound { path, .. } => "could not find template at "@ + path@,
        VaultError::FrontmatterNotFound { path } => "could not find front matter for template at "@
            + path@,
        VaultError::IoError { path, .. } => "could not read note at "@ + path@,
        VaultError::NoteAlreadyExists { path, .. } => "note already exists at "@ + path@,
        VaultError::CurrentBranchNotFound => "could not find current branch"@,
        VaultError::CouldNotParseBranchName { branch, pattern } => "could not parse branch "@
            + branch@ + " with regex "@ + pattern@,
        VaultError::CouldNotComposeNoteName { branch, name } =>
            "could not compose the note name for branch "@ + branch@ + ": "@ + spec_debug_str(name@)
                + " still has unresolved placeholders"@,
        VaultError::UnsafeNoteName { branch, name } => "note name "@ + spec_debug_str(name@)
            + " from branch "@ + spec_debug_str(branch@)
            + " is not filename-safe: it must be non-empty, not start with '.', and contain no '/', NUL, or newline"@,
        VaultError::FieldNotFound { field, suggestion } => "frontmatter has no field "@
            + spec_debug_str(field@) + match suggestion {
            Some(s) => "; did you mean "@ + spec_debug_str(s@) + "?"@,
            None => Seq::empty(),
        },
        VaultError::InvalidFieldValue { field, reason } => "invalid value for frontmatter field "@
            + spec_debug_str(field@) + ": "@ + reason@,
        VaultError::PlaceholderWithoutValue { name, line } => "template placeholder "@
            + spec_debug_str(name@) + " on line "@ + line_text(line)
            + " has no value; layers are --set > key argument > branch captures > [template.values]"@,
        VaultError::UnsupportedDateFormat { arg, line } => "unsupported {{DATE:"@ + arg@
            + "}} on line "@ + line_text(line)
            + "; the supported format is exactly {{DATE:YYYY-MM-DD HH:mm}}"@,
        VaultError::UnsupportedConstruct { construct, line } => "unsupported template construct "@
            + spec_debug_str(construct@) + " on line "@ + line_text(line)
            + "; the grammar is {{VALUE:name}} and {{DATE:YYYY-MM-DD HH:mm}}"@,
        VaultError::PathNotFound { path } => "could not find path at "@ + path@,
        VaultError::NoteChangedUnderUs { path } => "the note at "@ + path@
            + " kept changing while editing; try again"@,
    }
}

impl VaultError {
    /// The human-readable message for this error.
    pub fn message(&self) -> (r: String)
        ensures
            r@ == spec_message(*self),
    {
        let mut out = String::new();
        match self {
            VaultError::CouldNotDeserializeFrontmatter { .. } => {
                push_str(&mut out, "could not deserialize yaml frontmatter");
            },
            VaultError::NoteNotFound { path, .. } => {
                push_str(&mut out, "could not find note at ");
                push_str(&mut out, path.as_str());
            },
            VaultError::TemplateNotFound { path, .. } => {
                push_str(&mut out, "could not find template at ");
                push_str(&mut out, path.as_str());
            },
            VaultError::FrontmatterNotFound { path } => {
                push_str(&mut out, "could not find front matter for template at ");
                push_str(&mut out, path.as_str());
            },
            VaultError::IoError { path, .. } => {
                push_str(&mut out, "could not read note at ");
                push_str(&mut out, path.as_str());
            },
            VaultError::NoteAlreadyExists { path, .. } => {
                push_str(&mut out, "note already exists at ");
                push_str(&mut out, path.as_str());
            },
            VaultError::CurrentBranchNotFound => {
                push_str(&mut out, "could not find current branch");
            },
            VaultError::CouldNotParseBranchName { branch, pattern } => {
                push_str(&mut out, "could not parse branch ");
                push_str(&mut out, branch.as_str());
                push_str(&mut out, " with regex ");
                push_str(&mut out, pattern.as_str());
            },
            VaultError::CouldNotComposeNoteName { branch, name } => {
                push_str(&mut out, "could not compose the note name for branch ");
                push_str(&mut out, branch.as_str());
                push_str(&mut out, ": ");
                push_str(&mut out, debug_str(name.as_str()).as_str());
                push_str(&mut out, " still has unresolved placeholders");
            },
            VaultError::UnsafeNoteName { branch, name } => {
                push_str(&mut out, "note name ");
                push_str(&mut out, debug_str(name.as_str()).as_str());
                push_str(&mut out, " from branch ");
                push_str(&mut out, debug_str(branch.as_str()).as_str());
                push_str(
                    &mut out,
                    " is not filename-safe: it must be non-empty, not start with '.', and contain no '/', NUL, or newline",
                );
            },
            VaultError::FieldNotFound { field, suggestion } => {
                push_str(&mut out, "frontmatter has no field ");
                push_str(&mut out, debug_str(field.as_str()).as_str());
                match suggestion {
                    Some(s) => {
                        push_str(&mut out, "; did you mean ");
                        push_str(&mut out, debug_str(s.as_str()).as_str());
                        push_str(&mut out, "?");
                    },
                    None => {},
                }
            },
            VaultError::InvalidFieldValue { field, reason } => {
                push_str(&mut out, "invalid value for frontmatter field ");
                push_str(&mut out, debug_str(field.as_str()).as_str());
                push_str(&mut out, ": ");
                push_str(&mut out, reason.as_str());
            },
            VaultError::PlaceholderWithoutValue { name, line } => {
                push_str(&mut out, "template placeholder ");
                push_str(&mut out, debug_str(name.as_str()).as_str());
                push_str(&mut out, " on line ");
                push_nat(&mut out, *line as u64);
                push_str(
                    &mut out,
                    " has no value; layers are --set > key argument > branch captures > [template.values]",
                );
            },
            VaultError::UnsupportedDateFormat { arg, line } => {
                push_str(&mut out, "unsupported {{DATE:");
                push_str(&mut out, arg.as_str());
                push_str(&mut out, "}} on line ");
                push_nat(&mut out, *line as u64);
                push_str(&mut out, "; the supported format is exactly {{DATE:YYYY-MM-DD HH:mm}}");
            },
            VaultError::UnsupportedConstruct { construct, line } => {
                push_str(&mut out, "unsupported template construct ");
                push_str(&mut out, debug_str(construct.as_str()).as_str());
                push_str(&mut out, " on line ");
                push_nat(&mut out, *line as u64);
                push_str(&mut out, "; the grammar is {{VALUE:name}} and {{DATE:YYYY-MM-DD HH:mm}}");
            },
            VaultError::PathNotFound { path } => {
                push_str(&mut out, "could not find path at ");
                push_str(&mut out, path.as_str());
            },
            VaultError::NoteChangedUnderUs { path } => {
                push_str(&mut out, "the note at ");
                push_str(&mut out, path.as_str());
                push_str(&mut out, " kept changing while editing; try again");
            },
        }
        proof {
            assert(out@ =~= spec_message(*self));
        }
        out
    }
}

/// The captured text of group `i`, or `None`.
pub open spec fn group_text(caps: Seq<Option<Seq<char>>>, i: int) -> Option<Seq<char>> {
    if 0 <= i < caps.len() {
        caps[i]
    } else {
        None
    }
}

/// `{name}`.
pub open spec fn braced(name: Seq<char>) -> Seq<char> {
    seq!['{'] + name + seq!['}']
}

/// `template` with `{name}` replaced by the group's text, for each of the
/// first `k` groups that is named and took part, in group order.
pub open spec fn compose(
    template: Seq<char>,
    names: Seq<Option<Seq<char>>>,
    caps: Seq<Option<Seq<char>>>,
    k: int,
) -> Seq<char>
    decreases k,
{
    if k <= 0 {
        template
    } else {
        let prev = compose(template, names, caps, k - 1);
        match (names[k - 1], group_text(caps, k - 1)) {
            (Some(n), Some(v)) => spec_replace(prev, braced(n), v),
            _ => prev,
        }
    }
}

/// `(name, text)` for each of the first `k` groups that is named and took
/// part, in group order.
pub open spec fn spec_capture_map(names: Seq<Option<Seq<char>>>, caps: Seq<Option<Seq<char>>>, k: int) -> Seq<
    (Seq<char>, Seq<char>),
>
    decreases k,
{
    if k <= 0 {
        Seq::empty()
    } else {
        let prev = spec_capture_map(names, caps, k - 1);
        match (names[k - 1], group_text(caps, k - 1)) {
            (Some(n), Some(v)) => prev.push((n, v)),
            _ => prev,
        }
    }
}

pub open spec fn pairs_view(s: Seq<(String, String)>) -> Seq<(Seq<char>, Seq<char>)> {
    s.map_values(|p: (String, String)| (p.0@, p.1@))
}

/// Matches `branch` against the ticket pattern once: the groups feed both
/// the value map ([`capture_map`]) and the id composition
/// ([`note_name`]). A branch that does not match is an error naming the
/// branch and the pattern.
pub fn branch_captures(branch: &str, pattern: &Pattern) -> (r: Result<Vec<Option<String>>, VaultError>)
    ensures
        match r {
            Ok(caps) => spec_captures(pattern@, branch@) == Some(texts_view(caps@)) && caps@.len()
                == Pattern::names_of(pattern@).len(),
            Err(e) => spec_captures(pattern@, branch@) is None && (e matches VaultError::CouldNotParseBranchName {
                branch: b,
                pattern: p,
            } && b@ == branch@ && p@ == pattern@),
        },
{
    match pattern.captures(branch) {
        Some(caps) => Ok(caps),
        None => Err(
            VaultError::CouldNotParseBranchName {
                branch: String::from_str(branch),
                pattern: String::from_str(pattern.as_str()),
            },
        ),
    }
}

/// Every named group that took part in the match, with its text, in
/// group order. A named group that did not take part is left out.
pub fn capture_map(pattern: &Pattern, caps: &Vec<Option<String>>) -> (r: Vec<(String, String)>)
    ensures
        pairs_view(r@) == spec_capture_map(
            Pattern::names_of(pattern@),
            texts_view(caps@),
            Pattern::names_of(pattern@).len() as int,
        ),
{
    let names = pattern.capture_names();
    let ghost nv = texts_view(names@);
    let ghost cv = texts_view(caps@);
    let mut out: Vec<(String, String)> = Vec::new();
    let mut i: usize = 0;
    while i < names.len()
        invariant
            i <= names@.len(),
            nv == texts_view(names@),
            cv == texts_view(caps@),
            pairs_view(out@) == spec_capture_map(nv, cv, i as int),
        decreases names@.len() - i,
    {
        if i < caps.len() {
            match (&names[i], &caps[i]) {
                (Some(n), Some(v)) => {
                    let pair = (n.clone(), v.clone());
                    out.push(pair);
                    assert(pairs_view(out@) =~= spec_capture_map(nv, cv, i as int).push((n@, v@)));
                },
                _ => {},
            }
        }
        i = i + 1;
    }
    out
}

fn braced_exec(name: &String) -> (r: String)
    ensures
        r@ == braced(name@),
{
    let mut out = String::new();
    push_char(&mut out, '{');
    push_str(&mut out, name.as_str());
    push_char(&mut out, '}');
    assert(out@ =~= braced(name@));
    out
}

/// `template` with each `{name}` replaced by the text of the named group,
/// group by group in order; the template keeps its literal text otherwise.
pub fn compose_name(template: &str, pattern: &Pattern, caps: &Vec<Option<String>>) -> (r: String)
    ensures
        r@ == compose(
            template@,
            Pattern::names_of(pattern@),
            texts_view(caps@),
            Pattern::names_of(pattern@).len() as int,
        ),
{
    let names = pattern.capture_names();
    let ghost nv = texts_view(names@);
    let ghost cv = texts_view(caps@);
    let mut name = String::from_str(template);
    let mut i: usize = 0;
    while i < names.len()
        invariant
            i <= names@.len(),
            nv == texts_view(names@),
            cv == texts_view(caps@),
            name@ == compose(template@, nv, cv, i as int),
        decreases names@.len() - i,
    {
        if i < caps.len() {
            match (&names[i], &caps[i]) {
                (Some(n), Some(v)) => {
                    let ph = braced_exec(n);
                    name = replace_all(name.as_str(), ph.as_str(), v.as_str());
                },
                _ => {},
            }
        }
        i = i + 1;
    }
    name
}

/// The note name (ticket id) for a branch: the id template composed over
/// the branch's groups. A `{...}` left over (a referenced group did not
/// take part) is an error showing the composition; so is a name that is
/// not one visible file ([`ensure_safe_note_name`]).
pub fn note_name(branch: &str, pattern: &Pattern, caps: &Vec<Option<String>>, ticket_pattern: &str) -> (r:
    Result<String, VaultError>)
    ensures
        ({
            let name = compose(
                ticket_pattern@,
                Pattern::names_of(pattern@),
                texts_view(caps@),
                Pattern::names_of(pattern@).len() as int,
            );
            if has_char(name, '{') {
                r matches Err(VaultError::CouldNotComposeNoteName { branch: b, name: n }) && b@
                    == branch@ && n@ == name
            } else if !is_safe_note_name(name) {
                r matches Err(VaultError::UnsafeNoteName { branch: b, name: n }) && b@ == branch@
                    && n@ == name
            } else {
                r matches Ok(n) && n@ == name
            }
        }),
{
    let name = compose_name(ticket_pattern, pattern, caps);
    let v = chars_of(name.as_str());
    assert(v@.subrange(0, v@.len() as int) =~= v@);
    if range_has_char(&v, 0, v.len(), '{') {
        return Err(VaultError::CouldNotComposeNoteName { branch: String::from_str(branch), name });
    }
    match ensure_safe_note_name(branch, name.as_str()) {
        Ok(()) => Ok(name),
        Err(e) => Err(e),
    }
}

/// The error a failed read of the note at `path` is reported as: a
/// missing file names the path as not found, any other failure as
/// unreadable.
pub open spec fn read_error_reports(e: VaultError, path: Seq<char>, f: IoFailure) -> bool {
    match f.kind {
        IoKind::NotFound => e matches VaultError::NoteNotFound { path: p, error: m } && p@ == path && m@
            == f.message@,
        _ => e matches VaultError::IoError { path: p, error: m } && p@ == path && m@ == f.message@,
    }
}

/// The error for a failed read of the note at `path`.
pub fn read_error(path: &str, failure: IoFailure) -> (e: VaultError)
    ensures
        read_error_reports(e, path@, failure),
{
    match failure.kind {
        IoKind::NotFound => VaultError::NoteNotFound { path: String::from_str(path), error: failure.message },
        _ => VaultError::IoError { path: String::from_str(path), error: failure.message },
    }
}

/// The contents of the note at `path`, given the outcome of reading it.
pub fn read_file_to_str(path: &str, read: Result<String, IoFailure>) -> (r: Result<String, VaultError>)
    ensures
        match read {
            Ok(t) => r matches Ok(s) && s@ == t@,
            Err(f) => r matches Err(e) && read_error_reports(e, path@, f),
        },
{
    match read {
        Ok(text) => Ok(text),
        Err(failure) => Err(read_error(path, failure)),
    }
}

} // verus!
