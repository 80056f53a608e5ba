//! The decisions of the commands: the edits `status` and `fm` make to a
//! note, the entry `section add` writes, the URI `open` hands over. Each
//! takes the note's current text and gives back its new text; reading
//! and writing the file happens outside.
use vstd::prelude::*;
use crate::config::{SectionFormat, SectionsCfg};
use crate::frontmatter::{
    inner_yaml, set_field, set_or_append_field, spec_inner_yaml, spec_invalid_reason, spec_replace_region,
    spec_set_or_append, spec_splice_inner, splice_inner_range, spec_field_region, spec_closest_key,
    opt_string_view, lemma_field_region, spec_append_field, opening_end,
};
use crate::ftypes::{field_outcome, Field, FieldError, FieldType};
use crate::markdown::{dashes, lemma_parse_layout, parse, spec_parse};
use crate::section::{spec_split_heading, split_heading};
use crate::status::{status_text, Status, StatusView};
use crate::template::{house_format, spec_house_format, Timestamp};
use crate::text::{chars_of, has_char, push_str, range_has_char};
use crate::vault::{debug_str, spec_debug_str, spec_message, VaultError};

verus! {

/// Why a command refuses.
#[derive(Debug)]
pub enum CommandError {
    Vault(VaultError),
    /// `fm` never writes a field on the ignore list.
    IgnoredField { field: String },
    /// A `--set` argument without `NAME=VALUE` shape.
    MalformedSet { item: String },
    /// `section` names no declared section.
    UnknownSection { name: String },
    /// A declared section's heading is not `#`..`######`, a space, a title.
    InvalidHeading { name: String, heading: String },
    /// The note has no such section to read.
    SectionNotFound { heading: String, path: String },
    /// A section entry spans lines.
    MultilineEntry,
    /// A value does not fit the field's declared type.
    Field(FieldError),
}

/// `f` is a string field holding `v`.
pub open spec fn is_str_field(f: Field, v: Seq<char>) -> bool {
    f matches Field::Str(x) && x@ == v
}

/// `f` is an olink field holding `v`.
pub open spec fn is_olink_field(f: Field, v: Seq<char>) -> bool {
    f matches Field::Olink(x) && x@ == v
}

/// The inner YAML of `t`'s frontmatter block `a..b`.
pub open spec fn inner_of(t: Seq<char>, a: int, b: int) -> Seq<char> {
    spec_inner_yaml(t.subrange(a, b))
}

/// What `status` writes into the inner YAML `inner`: the status's display
/// form, then `done` in sync with it (`true` exactly for `Complete`),
/// each set in place or appended. `None` when the status does not fit
/// a single-line string.
pub open spec fn spec_status_fields(inner: Seq<char>, sf: Field, s: StatusView) -> Option<Seq<char>> {
    match spec_set_or_append(inner, "status"@, sf) {
        None => None,
        Some(i1) => spec_set_or_append(i1, "done"@, Field::Bool(s is Complete)),
    }
}

/// The note text after `status` set `s`, given the string field `sf`
/// written for it.
pub open spec fn status_edited(t: Seq<char>, path: Seq<char>, s: StatusView, sf: Field, r: Result<String, VaultError>) -> bool {
    match spec_parse(t).frontmatter {
        None => r matches Err(VaultError::FrontmatterNotFound { path: p }) && p@ == path,
        Some((a, b)) => match spec_status_fields(inner_of(t, a, b), sf, s) {
            None => r matches Err(VaultError::InvalidFieldValue { field: f, .. }) && f@ == "status"@,
            Some(i2) => r matches Ok(o) && o@ == spec_splice_inner(t, a, b, i2),
        },
    }
}

/// The note's new text after `ocli status`: the status's display form
/// set (or appended) as `status`, and `done` synced to it, `true` exactly
/// for `Complete`. Every byte outside the frontmatter's inner YAML stays.
pub fn status_edit(text: &str, path: &str, status: &Status) -> (r: Result<String, VaultError>)
    ensures
        forall|sf: Field| #[trigger] is_str_field(sf, status_text(status@)) ==> status_edited(text@, path@, status@, sf, r),
{
    let document = parse(text);
    proof {
        lemma_parse_layout(text@);
    }
    let span = match document.frontmatter_range() {
        Some(span) => span,
        None => {
            return Err(VaultError::FrontmatterNotFound { path: String::from_str(path) });
        },
    };
    let inner = inner_yaml(document.get_range(span));
    let status_field = Field::Str(status.to_text());
    let ghost sf0 = status_field;
    let done = match status {
        Status::Complete => true,
        _ => false,
    };
    let r = match set_or_append_field(inner, "status", &status_field) {
        Err(e) => Err(e),
        Ok(i1) => match set_or_append_field(i1.as_str(), "done", &Field::Bool(done)) {
            Err(e) => Err(e),
            Ok(i2) => Ok(splice_inner_range(text, span, i2.as_str())),
        },
    };
    assert forall|sf: Field| #[trigger] is_str_field(sf, status_text(status@)) implies status_edited(
        text@,
        path@,
        status@,
        sf,
        r,
    ) by {
        assert(is_str_field(sf0, status_text(status@)));
        assert(spec_invalid_reason(sf) == spec_invalid_reason(sf0));
        assert(spec_set_or_append(inner@, "status"@, sf) == spec_set_or_append(inner@, "status"@, sf0));
    }
    r
}

/// The note text after `fm` set `key` to `field`.
pub open spec fn fm_edited(t: Seq<char>, path: Seq<char>, key: Seq<char>, field: Field, r: Result<String, VaultError>) -> bool {
    match spec_parse(t).frontmatter {
        None => r matches Err(VaultError::FrontmatterNotFound { path: p }) && p@ == path,
        Some((a, b)) => {
            let inner = inner_of(t, a, b);
            match spec_invalid_reason(field) {
                Some(x) => r matches Err(VaultError::InvalidFieldValue { field: f, reason }) && f@ == key
                    && reason@ == x,
                None => match spec_field_region(inner, key) {
                    Some((p, q)) => r matches Ok(o) && o@ == spec_splice_inner(
                        t,
                        a,
                        b,
                        spec_replace_region(inner, key, field, p, q),
                    ),
                    None => r matches Err(VaultError::FieldNotFound { field: f, suggestion }) && f@ == key
                        && opt_string_view(suggestion) == spec_closest_key(inner, key),
                },
            }
        },
    }
}

/// The note's new text after `ocli fm key value`: the existing field
/// `key` set to `field`, every other byte kept. A missing field is an
/// error suggesting the closest key, never a new field.
pub fn fm_edit(text: &str, path: &str, key: &str, field: &Field) -> (r: Result<String, VaultError>)
    ensures
        fm_edited(text@, path@, key@, *field, r),
{
    let document = parse(text);
    proof {
        lemma_parse_layout(text@);
    }
    let span = match document.frontmatter_range() {
        Some(span) => span,
        None => {
            return Err(VaultError::FrontmatterNotFound { path: String::from_str(path) });
        },
    };
    let inner = inner_yaml(document.get_range(span));
    match set_field(inner, key, field) {
        Err(e) => Err(e),
        Ok(edited) => Ok(splice_inner_range(text, span, edited.as_str())),
    }
}

/// `ignore` holds `key`.
pub open spec fn is_ignored(ignore: Seq<String>, key: Seq<char>) -> bool {
    exists|i: int| 0 <= i < ignore.len() && #[trigger] ignore[i]@ == key
}

/// Refuses a field on the ignore list: those belong to other tooling.
pub fn check_not_ignored(ignore: &Vec<String>, key: &str) -> (r: Result<(), CommandError>)
    ensures
        match r {
            Ok(()) => !is_ignored(ignore@, key@),
            Err(e) => is_ignored(ignore@, key@) && (e matches CommandError::IgnoredField { field } && field@
                == key@),
        },
{
    let mut i: usize = 0;
    while i < ignore.len()
        invariant
            i <= ignore@.len(),
            forall|j: int| 0 <= j < i ==> #[trigger] ignore@[j]@ != key@,
        decreases ignore@.len() - i,
    {
        if crate::text::str_eq(ignore[i].as_str(), key) {
            assert(ignore@[i as int]@ == key@);
            return Err(CommandError::IgnoredField { field: String::from_str(key) });
        }
        i = i + 1;
    }
    Ok(())
}

/// The entry `section add` writes: a log line stamped with `now`, or an
/// unchecked checklist item.
pub open spec fn spec_section_entry(format: SectionFormat, text: Seq<char>, stamp: Seq<char>) -> Seq<char> {
    match format {
        SectionFormat::Log => "- "@ + stamp + " — "@ + text,
        SectionFormat::List => "- [ ] "@ + text,
    }
}

/// The entry line for `text` in a section of `format`; an entry is a
/// single line.
pub fn section_entry(format: SectionFormat, text: &str, now: &Timestamp) -> (r: Result<String, CommandError>)
    ensures
        if has_char(text@, '\n') || has_char(text@, '\r') {
            r matches Err(CommandError::MultilineEntry)
        } else {
            r matches Ok(e) && e@ == spec_section_entry(format, text@, spec_house_format(*now))
        },
{
    let v = chars_of(text);
    assert(v@.subrange(0, v@.len() as int) =~= v@);
    if range_has_char(&v, 0, v.len(), '\n') || range_has_char(&v, 0, v.len(), '\r') {
        return Err(CommandError::MultilineEntry);
    }
    let mut out = String::new();
    match format {
        SectionFormat::Log => {
            push_str(&mut out, "- ");
            let stamp = house_format(now);
            push_str(&mut out, stamp.as_str());
            push_str(&mut out, " — ");
            push_str(&mut out, text);
        },
        SectionFormat::List => {
            push_str(&mut out, "- [ ] ");
            push_str(&mut out, text);
        },
    }
    assert(out@ =~= spec_section_entry(format, text@, spec_house_format(*now)));
    Ok(out)
}

/// The declared section `name`: its heading's level and title, its
/// heading line, and its format.
pub fn section_target(sections: &SectionsCfg, name: &str) -> (r: Result<(usize, String, SectionFormat), CommandError>)
    ensures
        match r {
            Ok((level, title, format)) => sections.get_spec(name@) matches Some(spec) && spec_split_heading(
                spec.heading@,
            ) == Some((level as nat, title@)) && format == spec.format,
            Err(CommandError::UnknownSection { name: n }) => sections.get_spec(name@) is None && n@ == name@,
            Err(CommandError::InvalidHeading { name: n, heading: h }) => sections.get_spec(name@) matches Some(
                spec,
            ) && spec_split_heading(spec.heading@) is None && n@ == name@ && h@ == spec.heading@,
            Err(_) => false,
        },
{
    let spec = match sections.get(name) {
        Some(spec) => spec,
        None => {
            return Err(CommandError::UnknownSection { name: String::from_str(name) });
        },
    };
    match split_heading(spec.heading.as_str()) {
        Some((level, title)) => Ok((level, String::from_str(title), spec.format)),
        None => Err(
            CommandError::InvalidHeading { name: String::from_str(name), heading: spec.heading.clone() },
        ),
    }
}

/// The UTF-8 encoding of `c`.
pub open spec fn utf8_bytes(c: char) -> Seq<nat> {
    let n = c as nat;
    if n < 0x80 {
        seq![n]
    } else if n < 0x800 {
        seq![0xC0 + n / 64, 0x80 + n % 64]
    } else if n < 0x10000 {
        seq![0xE0 + n / 4096, 0x80 + (n / 64) % 64, 0x80 + n % 64]
    } else {
        seq![0xF0 + n / 262144, 0x80 + (n / 4096) % 64, 0x80 + (n / 64) % 64, 0x80 + n % 64]
    }
}

/// An upper-case hexadecimal digit.
pub open spec fn hex_digit(d: nat) -> char {
    if d < 10 {
        ((d + 48) as u32) as char
    } else {
        ((d + 55) as u32) as char
    }
}

/// One byte in the URI: an ASCII letter or digit as itself, any other
/// byte as `%` and two upper-case hexadecimal digits.
pub open spec fn encode_byte(b: nat) -> Seq<char> {
    if (48 <= b < 58) || (65 <= b < 91) || (97 <= b < 123) {
        seq![(b as u32) as char]
    } else {
        seq!['%', hex_digit(b / 16), hex_digit(b % 16)]
    }
}

/// Each byte of `bs` encoded in turn.
pub open spec fn encode_bytes(bs: Seq<nat>) -> Seq<char>
    decreases bs.len(),
{
    if bs.len() == 0 {
        Seq::empty()
    } else {
        encode_byte(bs[0]) + encode_bytes(bs.drop_first())
    }
}

/// The text of the section at `level`/`title` in the note at `path`, or
/// the error naming the configured `heading` and the path when the note
/// has no such section.
pub fn section_text(text: &str, level: usize, title: &str, heading: &str, path: &str) -> (r: Result<
    String,
    CommandError,
>)
    ensures
        match crate::section::spec_find_section(text@, level as nat, title@) {
            Some(x) => r matches Ok(o) && o@ == x,
            None => r matches Err(CommandError::SectionNotFound { heading: h, path: p }) && h@ == heading@ && p@
                == path@,
        },
{
    match crate::section::find_section(text, level, title) {
        Some(x) => Ok(String::from_str(x)),
        None => Err(CommandError::SectionNotFound { heading: String::from_str(heading), path: String::from_str(path) }),
    }
}

/// `percent_encoding::utf8_percent_encode(s, NON_ALPHANUMERIC)` as text:
/// every byte of `s`'s UTF-8 encoding but an ASCII letter or digit
/// written as `%XX`.
pub open spec fn spec_percent_encode(s: Seq<char>) -> Seq<char>
    decreases s.len(),
{
    if s.len() == 0 {
        Seq::empty()
    } else {
        encode_bytes(utf8_bytes(s[0])) + spec_percent_encode(s.drop_first())
    }
}

/// Percent-encodes `s` with `percent_encoding::utf8_percent_encode` and
/// the `NON_ALPHANUMERIC` set: the crate encodes every non-ASCII byte and
/// every byte of the set, as `%` and two upper-case hexadecimal digits
/// (`percent_encode_byte`), and keeps the rest.
#[verifier::external_body]
fn percent_encode(s: &str) -> (r: String)
    ensures
        r@ == spec_percent_encode(s@),
{
    percent_encoding::utf8_percent_encode(s, percent_encoding::NON_ALPHANUMERIC).to_string()
}

/// The URI that opens the note at `note` in Obsidian: the `open` action
/// with the whole absolute path percent-encoded, so no reserved
/// character (`#` above all) breaks the URI.
pub fn uri_for(note: &str) -> (r: String)
    ensures
        r@ == "obsidian://open?path="@ + spec_percent_encode(note@),
{
    let mut out = String::new();
    push_str(&mut out, "obsidian://open?path=");
    let encoded = percent_encode(note);
    push_str(&mut out, encoded.as_str());
    out
}

/// The declared type of `key` from `k` on; `string` when none is
/// declared.
pub open spec fn declared_type(types: Seq<(String, FieldType)>, key: Seq<char>, k: int) -> FieldType
    decreases types.len() - k,
{
    if k < 0 || k >= types.len() {
        FieldType::Str
    } else if types[k].0@ == key {
        types[k].1
    } else {
        declared_type(types, key, k + 1)
    }
}

fn declared_type_of(types: &Vec<(String, FieldType)>, key: &str) -> (r: FieldType)
    ensures
        r == declared_type(types@, key@, 0),
{
    let mut k: usize = 0;
    while k < types.len()
        invariant
            k <= types@.len(),
            declared_type(types@, key@, 0) == declared_type(types@, key@, k as int),
        decreases types@.len() - k,
    {
        if crate::text::str_eq(types[k].0.as_str(), key) {
            return types[k].1.duplicate();
        }
        k = k + 1;
    }
    FieldType::Str
}

/// The value `ocli fm key value` writes: refused for a field on the
/// ignore list, else `value` coerced to the field's declared type
/// (`string` when none is declared).
pub fn fm_value<F: Fn(&str) -> Option<String>>(
    ignore: &Vec<String>,
    types: &Vec<(String, FieldType)>,
    key: &str,
    value: &str,
    reader: &F,
) -> (r: Result<Field, CommandError>)
    requires
        forall|a: &str| reader.requires((a,)),
    ensures
        is_ignored(ignore@, key@) ==> (r matches Err(CommandError::IgnoredField { field }) && field@ == key@),
        !is_ignored(ignore@, key@) ==> exists|x: Result<Field, FieldError>|
            #[trigger] field_outcome(declared_type(types@, key@, 0), value@, *reader, x) && match x {
                Ok(f) => r == Ok::<Field, CommandError>(f),
                Err(e) => r == Err::<Field, CommandError>(CommandError::Field(e)),
            },
{
    match check_not_ignored(ignore, key) {
        Err(e) => {
            return Err(e);
        },
        Ok(()) => {},
    }
    let ty = declared_type_of(types, key);
    assert(ty == declared_type(types@, key@, 0));
    let x = Field::parse(&ty, value, reader);
    let ghost xg = x;
    let r = match x {
        Ok(f) => Ok(f),
        Err(e) => Err(CommandError::Field(e)),
    };
    assert(field_outcome(declared_type(types@, key@, 0), value@, *reader, xg));
    r
}

pub open spec fn spec_command_message(e: CommandError) -> Seq<char> {
    match e {
        CommandError::Vault(v) => spec_message(v),
        CommandError::IgnoredField { field } => "frontmatter field "@ + spec_debug_str(field@)
            + " is on the ignore list and cannot be written"@,
        CommandError::MalformedSet { item } => "--set expects NAME=VALUE, got "@ + spec_debug_str(item@),
        CommandError::UnknownSection { name } => "unknown section "@ + spec_debug_str(name@)
            + "; define it in [sections]"@,
        CommandError::InvalidHeading { name, heading } => "section "@ + spec_debug_str(name@)
            + " has an invalid heading "@ + spec_debug_str(heading@),
        CommandError::SectionNotFound { heading, path } => "section "@ + spec_debug_str(heading@)
            + " not found in "@ + path@,
        CommandError::MultilineEntry => "section entries are a single line"@,
        CommandError::Field(f) => crate::ftypes::spec_field_error_message(f),
    }
}

impl CommandError {
    /// The human-readable message for this error.
    pub fn message(&self) -> (r: String)
        ensures
            r@ == spec_command_message(*self),
    {
        let mut out = String::new();
        match self {
            CommandError::Vault(v) => {
                let m = v.message();
                push_str(&mut out, m.as_str());
            },
            CommandError::IgnoredField { field } => {
                push_str(&mut out, "frontmatter field ");
                push_str(&mut out, debug_str(field.as_str()).as_str());
                push_str(&mut out, " is on the ignore list and cannot be written");
            },
            CommandError::MalformedSet { item } => {
                push_str(&mut out, "--set expects NAME=VALUE, got ");
                push_str(&mut out, debug_str(item.as_str()).as_str());
            },
            CommandError::UnknownSection { name } => {
                push_str(&mut out, "unknown section ");
                push_str(&mut out, debug_str(name.as_str()).as_str());
                push_str(&mut out, "; define it in [sections]");
            },
            CommandError::InvalidHeading { name, heading } => {
                push_str(&mut out, "section ");
                push_str(&mut out, debug_str(name.as_str()).as_str());
                push_str(&mut out, " has an invalid heading ");
                push_str(&mut out, debug_str(heading.as_str()).as_str());
            },
            CommandError::SectionNotFound { heading, path } => {
                push_str(&mut out, "section ");
                push_str(&mut out, debug_str(heading.as_str()).as_str());
                push_str(&mut out, " not found in ");
                push_str(&mut out, path.as_str());
            },
            CommandError::MultilineEntry => {
                push_str(&mut out, "section entries are a single line");
            },
            CommandError::Field(f) => {
                let m = f.message();
                push_str(&mut out, m.as_str());
            },
        }
        assert(out@ =~= spec_command_message(*self));
        out
    }
}

/// What to do after one editing attempt on a note read as `before`, given
/// the edit's outcome and the note re-read as `now`: when the note changed
/// in between, try again on the fresh text (whatever the edit gave);
/// otherwise write the edit's text, or report its error.
pub enum EditDecision {
    Write(String),
    Retry,
    Fail(VaultError),
}

/// Total attempts, the first included, before an edit gives up.
pub const MAX_ATTEMPTS: u32 = 5;

/// Decides the outcome of one optimistic editing attempt.
pub fn after_attempt(before: &str, edited: Result<String, VaultError>, now: &str) -> (r: EditDecision)
    ensures
        now@ != before@ ==> r is Retry,
        now@ == before@ ==> match edited {
            Ok(t) => r matches EditDecision::Write(x) && x@ == t@,
            Err(e) => r == EditDecision::Fail(e),
        },
{
    if !crate::text::str_eq(now, before) {
        return EditDecision::Retry;
    }
    match edited {
        Ok(t) => EditDecision::Write(t),
        Err(e) => EditDecision::Fail(e),
    }
}

/// What to do after attempt number `attempt` (the first is 1) of editing
/// the note at `path`: as [`after_attempt`] decides, except that a note
/// still changing after the last of [`MAX_ATTEMPTS`] attempts gives up with
/// `NoteChangedUnderUs` naming the path.
pub fn edit_step(attempt: u32, path: &str, before: &str, edited: Result<String, VaultError>, now: &str) -> (r:
    EditDecision)
    ensures
        now@ != before@ && attempt < MAX_ATTEMPTS ==> r is Retry,
        now@ != before@ && attempt >= MAX_ATTEMPTS ==> (r matches EditDecision::Fail(
            VaultError::NoteChangedUnderUs { path: p },
        ) && p@ == path@),
        now@ == before@ ==> match edited {
            Ok(t) => r matches EditDecision::Write(x) && x@ == t@,
            Err(e) => r == EditDecision::Fail(e),
        },
{
    match after_attempt(before, edited, now) {
        EditDecision::Retry => if attempt < MAX_ATTEMPTS {
            EditDecision::Retry
        } else {
            EditDecision::Fail(VaultError::NoteChangedUnderUs { path: String::from_str(path) })
        },
        decided => decided,
    }
}

/// The hidden swap file an edit writes before renaming it over the note:
/// `.NAME.swp` next to it, so the features scan and Obsidian ignore a
/// leftover. A path with no file name is an error naming it.
pub fn swap_file_name(path: &str, file_name: Option<&str>) -> (r: Result<String, VaultError>)
    ensures
        match file_name {
            Some(n) => r matches Ok(s) && s@ == "."@ + n@ + ".swp"@,
            None => r matches Err(VaultError::PathNotFound { path: p }) && p@ == path@,
        },
{
    match file_name {
        Some(n) => {
            let mut out = String::new();
            push_str(&mut out, ".");
            push_str(&mut out, n);
            push_str(&mut out, ".swp");
            Ok(out)
        },
        None => Err(VaultError::PathNotFound { path: String::from_str(path) }),
    }
}

/// A note file is a visible markdown file: a regular file whose name ends
/// in `.md` and does not start with `.`.
pub open spec fn spec_is_note_file(is_file: bool, name: Seq<char>) -> bool {
    is_file && name.len() > 0 && name[0] != '.' && crate::text::has_suffix(name, ".md"@)
}

/// Whether the directory entry named `name` is a note file.
pub fn is_note_file(is_file: bool, name: &str) -> (r: bool)
    ensures
        r == spec_is_note_file(is_file, name@),
{
    if !is_file {
        return false;
    }
    let v = chars_of(name);
    let n = v.len();
    if n == 0 || v[0] == '.' {
        return false;
    }
    let md = chars_of(".md");
    if n < md.len() {
        return false;
    }
    let r = crate::text::range_eq(&v, n - md.len(), n, &md);
    assert(v@.skip(n - md@.len()) =~= v@.subrange(n - md@.len(), n as int));
    r
}

/// The current ticket: the branch, matched against the ticket pattern.
/// No branch (detached HEAD, no repository) or a branch off the pattern
/// is an error.
pub fn current_ticket(branch: Option<&str>, pattern: &crate::pattern::Pattern) -> (r: Result<
    (String, Vec<Option<String>>),
    VaultError,
>)
    ensures
        match branch {
            None => r matches Err(VaultError::CurrentBranchNotFound),
            Some(b) => match crate::pattern::spec_captures(pattern@, b@) {
                Some(caps) => r matches Ok((name, groups)) && name@ == b@ && crate::pattern::texts_view(groups@)
                    == caps,
                None => r matches Err(VaultError::CouldNotParseBranchName { branch: x, pattern: p }) && x@
                    == b@ && p@ == pattern@,
            },
        },
{
    let b = match branch {
        None => {
            return Err(VaultError::CurrentBranchNotFound);
        },
        Some(b) => b,
    };
    match crate::vault::branch_captures(b, pattern) {
        Ok(caps) => Ok((String::from_str(b), caps)),
        Err(e) => Err(e),
    }
}

/// The file name of the current ticket's note: the id the branch
/// composes, with `.md`.
pub fn ticket_note_file(branch: Option<&str>, tickets: &crate::config::Tickets) -> (r: Result<String, VaultError>)
    ensures
        match branch {
            None => r matches Err(VaultError::CurrentBranchNotFound),
            Some(b) => match crate::pattern::spec_captures(tickets.pattern@, b@) {
                None => r matches Err(VaultError::CouldNotParseBranchName { branch: x, pattern: p }) && x@
                    == b@ && p@ == tickets.pattern@,
                Some(caps) => {
                    let names = crate::pattern::Pattern::names_of(tickets.pattern@);
                    let name = crate::vault::compose(tickets.id@, names, caps, names.len() as int);
                    if has_char(name, '{') {
                        r matches Err(VaultError::CouldNotComposeNoteName { branch: x, name: n }) && x@
                            == b@ && n@ == name
                    } else if !crate::vault::is_safe_note_name(name) {
                        r matches Err(VaultError::UnsafeNoteName { branch: x, name: n }) && x@ == b@ && n@
                            == name
                    } else {
                        r matches Ok(f) && f@ == name + ".md"@
                    }
                },
            },
        },
{
    let (b, caps) = match current_ticket(branch, &tickets.pattern) {
        Ok(t) => t,
        Err(e) => {
            return Err(e);
        },
    };
    let name = match crate::vault::note_name(b.as_str(), &tickets.pattern, &caps, tickets.id.as_str()) {
        Ok(n) => n,
        Err(e) => {
            return Err(e);
        },
    };
    let mut out = name;
    push_str(&mut out, ".md");
    Ok(out)
}

/// The line `done: true` or `done: false`.
pub open spec fn done_line(done: bool) -> Seq<char> {
    seq!['d', 'o', 'n', 'e', ':', ' '] + if done {
        seq!['t', 'r', 'u', 'e']
    } else {
        seq!['f', 'a', 'l', 's', 'e']
    }
}

/// `x` holds `line` somewhere.
pub open spec fn holds_text(x: Seq<char>, line: Seq<char>) -> bool {
    exists|k: int| 0 <= k && k + line.len() <= x.len() && #[trigger] x.subrange(k, k + line.len()) == line
}

proof fn lemma_holds_in_concat(u: Seq<char>, v: Seq<char>, w: Seq<char>, line: Seq<char>)
    requires
        holds_text(v, line),
    ensures
        holds_text(u + v + w, line),
{
    let k = choose|k: int| 0 <= k && k + line.len() <= v.len() && #[trigger] v.subrange(k, k + line.len()) == line;
    let x = u + v + w;
    assert(x.subrange(u.len() + k, u.len() + k + line.len()) =~= v.subrange(k, k + line.len()));
}

proof fn lemma_holds_self(x: Seq<char>)
    ensures
        holds_text(x, x),
{
    let k: int = 0;
    assert(x.subrange(k, k + x.len()) =~= x);
}

/// Setting or appending `done` to a boolean writes its line.
proof fn lemma_set_done_holds(fm: Seq<char>, done: bool)
    requires
        spec_set_or_append(fm, "done"@, Field::Bool(done)) is Some,
    ensures
        holds_text(spec_set_or_append(fm, "done"@, Field::Bool(done))->0, done_line(done)),
{
    reveal_strlit("done");
    let f = Field::Bool(done);
    let out = spec_set_or_append(fm, "done"@, f)->0;
    match spec_field_region(fm, "done"@) {
        Some((a, b)) => {
            lemma_field_region(fm, "done"@);
            let eol = crate::frontmatter::spec_line_ending(fm.take(b));
            let rendered = crate::ftypes::spec_render_field("done"@, f, eol);
            assert(rendered =~= done_line(done));
            lemma_holds_self(rendered);
            assert(out == fm.take(a) + rendered + eol + fm.skip(b));
            lemma_holds_in_concat(fm.take(a), rendered, eol + fm.skip(b), done_line(done));
            assert(fm.take(a) + rendered + (eol + fm.skip(b)) =~= out);
        },
        None => {
            let eol = if crate::text::has_suffix(fm, seq!['\r', '\n']) {
                seq!['\r', '\n']
            } else {
                seq!['\n']
            };
            let sep = if fm.len() > 0 && !crate::text::has_suffix(fm, seq!['\n']) {
                eol
            } else {
                Seq::empty()
            };
            let rendered = crate::ftypes::spec_render_field("done"@, f, eol);
            assert(rendered =~= done_line(done));
            lemma_holds_self(rendered);
            assert(out == spec_append_field(fm, "done"@, f));
            assert(out =~= (fm + sep) + rendered + eol);
            lemma_holds_in_concat(fm + sep, rendered, eol, done_line(done));
        },
    }
}

/// `ocli status` keeps `done` in sync: the note it writes holds the line
/// `done: true` when the new status is `Complete`, and `done: false` for
/// every other status.
pub proof fn lemma_status_writes_done(
    t: Seq<char>,
    path: Seq<char>,
    s: StatusView,
    sf: Field,
    r: Result<String, VaultError>,
)
    requires
        status_edited(t, path, s, sf, r),
        r is Ok,
    ensures
        r matches Ok(o) && holds_text(o@, done_line(s is Complete)),
{
    let (a, b) = spec_parse(t).frontmatter->0;
    let inner = inner_of(t, a, b);
    let i1 = spec_set_or_append(inner, "status"@, sf)->0;
    let i2 = spec_status_fields(inner, sf, s)->0;
    assert(i2 == spec_set_or_append(i1, "done"@, Field::Bool(s is Complete))->0);
    lemma_set_done_holds(i1, s is Complete);
    let f = t.subrange(a, b);
    let u = t.take(a) + f.take(opening_end(f));
    let w = dashes() + crate::frontmatter::spec_line_ending(f) + t.skip(b);
    assert(spec_splice_inner(t, a, b, i2) =~= u + i2 + w);
    lemma_holds_in_concat(u, i2, w, done_line(s is Complete));
}

} // verus!
