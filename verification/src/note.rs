//! A loaded note and the listing built from notes: which notes a filter
//! keeps, and the row each one shows.
use vstd::prelude::*;
use crate::frontmatter::{inner_yaml, spec_inner_yaml, Frontmatter, FrontmatterView};
use crate::markdown::{lemma_parse_layout, parse, spec_parse};
use crate::status::{Status, StatusView};
use crate::text::{chars_of, str_eq};
use crate::vault::{read_error, read_error_reports, IoFailure, VaultError};

verus! {

/// A loaded note: its name (the file stem, which for a feature note is
/// the ticket id), its frontmatter projection, and its text.
#[derive(Debug)]
pub struct Note {
    name: String,
    frontmatter: Option<Frontmatter>,
    text: String,
}

/// The position of the last `.` among the first `k` characters of `s`,
/// or -1.
pub open spec fn last_dot(s: Seq<char>, k: int) -> int
    decreases k,
{
    if k <= 0 {
        -1
    } else if s[k - 1] == '.' {
        k - 1
    } else {
        last_dot(s, k - 1)
    }
}

/// The stem of a file name, as `Path::file_stem` takes it: the part before
/// the last `.`; the whole name when it has no `.` but a leading one.
pub open spec fn spec_file_stem(name: Seq<char>) -> Seq<char> {
    let d = last_dot(name, name.len() as int);
    if d <= 0 {
        name
    } else {
        name.take(d)
    }
}

/// The name a note at `path` goes by: the stem of its file name, or the
/// whole path when it has no file name.
pub open spec fn spec_note_name(file_name: Option<&str>, path: Seq<char>) -> Seq<char> {
    match file_name {
        Some(n) => spec_file_stem(n@),
        None => path,
    }
}

/// The name a note at `path` goes by: the stem of its file name, or the
/// whole path when it has no file name.
pub fn note_name_of(file_name: Option<&str>, path: &str) -> (r: String)
    ensures
        r@ == match file_name {
            Some(n) => spec_file_stem(n@),
            None => path@,
        },
{
    match file_name {
        None => String::from_str(path),
        Some(n) => {
            let v = chars_of(n);
            let mut k = v.len();
            while k > 0 && v[k - 1] != '.'
                invariant
                    v@ == n@,
                    k <= v@.len(),
                    last_dot(n@, k as int) == last_dot(n@, n@.len() as int),
                decreases k,
            {
                k = k - 1;
            }
            if k <= 1 {
                String::from_str(n)
            } else {
                crate::text::string_of_range(&v, 0, k - 1)
            }
        },
    }
}

/// The inner YAML of the text's frontmatter block, if it has one.
pub open spec fn spec_frontmatter_yaml(t: Seq<char>) -> Option<Seq<char>> {
    match spec_parse(t).frontmatter {
        Some((s, e)) => Some(spec_inner_yaml(t.subrange(s, e))),
        None => None,
    }
}

/// The inner YAML of the note's frontmatter block, if it has one.
pub fn frontmatter_yaml(text: &str) -> (r: Option<&str>)
    ensures
        match r {
            Some(y) => spec_frontmatter_yaml(text@) == Some(y@),
            None => spec_frontmatter_yaml(text@) is None,
        },
{
    let document = parse(text);
    proof {
        lemma_parse_layout(text@);
    }
    match document.frontmatter_range() {
        Some(span) => Some(inner_yaml(document.get_range(span))),
        None => None,
    }
}

/// `deserialize` read `yaml` into `x`.
pub open spec fn deserialized<D: Fn(&str) -> Result<Frontmatter, VaultError>>(
    deserialize: D,
    yaml: Seq<char>,
    x: Result<Frontmatter, VaultError>,
) -> bool {
    exists|a: &str| a@ == yaml && #[trigger] deserialize.ensures((a,), x)
}

/// `r` is the note named `name` with text `text` whose frontmatter YAML
/// `yaml` the reader read into some outcome: its frontmatter on success,
/// its error otherwise.
pub open spec fn read_back<D: Fn(&str) -> Result<Frontmatter, VaultError>>(
    deserialize: D,
    yaml: Seq<char>,
    name: Seq<char>,
    text: Seq<char>,
    r: Result<Note, VaultError>,
) -> bool {
    exists|x: Result<Frontmatter, VaultError>|
        #[trigger] deserialized(deserialize, yaml, x) && match x {
            Ok(fm) => r matches Ok(n) && n.spec_name() == name && n.spec_frontmatter() == Some(fm@)
                && n.spec_text() == text,
            Err(e) => r == Err::<Note, VaultError>(e),
        }
}

impl Note {
    pub closed spec fn spec_name(&self) -> Seq<char> {
        self.name@
    }

    pub closed spec fn spec_frontmatter(&self) -> Option<FrontmatterView> {
        match self.frontmatter {
            Some(f) => Some(f@),
            None => None,
        }
    }

    pub closed spec fn spec_text(&self) -> Seq<char> {
        self.text@
    }

    /// A note made of its parts.
    pub fn new(name: String, frontmatter: Option<Frontmatter>, text: String) -> (r: Note)
        ensures
            r.spec_name() == name@,
            r.spec_frontmatter() == match frontmatter {
                Some(f) => Some(f@),
                None => None::<FrontmatterView>,
            },
            r.spec_text() == text@,
    {
        Note { name, frontmatter, text }
    }

    /// The note at `path`, whose final component is `file_name`, given the
    /// outcome of reading the file and the reader of frontmatter YAML: the
    /// note is named by the file's stem; a missing file names the path; a
    /// frontmatter block that does not read is the reader's error; a note
    /// without a frontmatter block has none.
    pub fn load<D: Fn(&str) -> Result<Frontmatter, VaultError>>(
        path: &str,
        file_name: Option<&str>,
        read: Result<String, IoFailure>,
        deserialize: &D,
    ) -> (r: Result<Note, VaultError>)
        requires
            forall|a: &str| deserialize.requires((a,)),
        ensures
            match read {
                Err(f) => r matches Err(e) && read_error_reports(e, path@, f),
                Ok(text) => match spec_frontmatter_yaml(text@) {
                    None => r matches Ok(n) && n.spec_name() == spec_note_name(file_name, path@)
                        && n.spec_frontmatter() is None && n.spec_text() == text@,
                    Some(y) => read_back(*deserialize, y, spec_note_name(file_name, path@), text@, r),
                },
            },
    {
        let ghost read_in = read;
        let text = match read {
            Ok(text) => text,
            Err(failure) => {
                return Err(read_error(path, failure));
            },
        };
        assert(read_in matches Ok(t) && t == text);
        let name = note_name_of(file_name, path);
        match frontmatter_yaml(text.as_str()) {
            Some(yaml) => {
                let x = deserialize(yaml);
                let ghost xg = x;
                let r = match x {
                    Ok(fm) => Ok(Note { name, frontmatter: Some(fm), text }),
                    Err(e) => Err(e),
                };
                assert(deserialized(*deserialize, yaml@, xg) && match xg {
                    Ok(fm) => r matches Ok(n) && n.spec_name() == name@ && n.spec_frontmatter() == Some(
                        fm@,
                    ) && n.spec_text() == read_in->Ok_0@,
                    Err(e) => r == Err::<Note, VaultError>(e),
                });
                assert(read_back(*deserialize, yaml@, name@, read_in->Ok_0@, r));
                r
            },
            None => {
                let r = Ok(Note { name, frontmatter: None, text });
                assert(r matches Ok(n) && n.spec_name() == name@ && n.spec_text() == read_in->Ok_0@ && n.spec_frontmatter() is None);
                assert(spec_frontmatter_yaml(read_in->Ok_0@) is None);
                r
            },
        }
    }

    pub fn frontmatter(&self) -> (r: Option<&Frontmatter>)
        ensures
            match r {
                Some(f) => self.spec_frontmatter() == Some(f@),
                None => self.spec_frontmatter() is None,
            },
    {
        match &self.frontmatter {
            Some(f) => Some(f),
            None => None,
        }
    }

    pub fn text(&self) -> (r: &str)
        ensures
            r@ == self.spec_text(),
    {
        self.text.as_str()
    }

    pub fn name(&self) -> (r: &str)
        ensures
            r@ == self.spec_name(),
    {
        self.name.as_str()
    }
}

/// `s` without its leading `c`s.
pub open spec fn skip_leading(s: Seq<char>, c: char) -> Seq<char>
    decreases s.len(),
{
    if s.len() > 0 && s[0] == c {
        skip_leading(s.skip(1), c)
    } else {
        s
    }
}

/// `s` without its trailing `c`s.
pub open spec fn drop_trailing(s: Seq<char>, c: char) -> Seq<char>
    decreases s.len(),
{
    if s.len() > 0 && s.last() == c {
        drop_trailing(s.drop_last(), c)
    } else {
        s
    }
}

/// The repo a note belongs to: its `repo` field with the olink brackets
/// stripped, so `[[name]]` and `name` name the same repository.
pub open spec fn spec_note_repo(n: Note) -> Option<Seq<char>> {
    match n.spec_frontmatter() {
        Some(f) => match f.repo {
            Some(r) => Some(drop_trailing(skip_leading(r, '['), ']')),
            None => None,
        },
        None => None,
    }
}

/// A status filter keeps the notes whose status is exactly the one asked
/// for; no filter keeps every note.
pub open spec fn spec_matches_status(n: Note, status: Option<StatusView>) -> bool {
    match status {
        None => true,
        Some(s) => n.spec_frontmatter() matches Some(f) && f.status == Some(s),
    }
}

/// A repo filter keeps the notes that belong to that repo; no filter keeps
/// every note.
pub open spec fn spec_matches_repo(n: Note, repo: Option<Seq<char>>) -> bool {
    match repo {
        None => true,
        Some(r) => spec_note_repo(n) == Some(r),
    }
}

fn strip_brackets(s: &str) -> (r: &str)
    ensures
        r@ == drop_trailing(skip_leading(s@, '['), ']'),
{
    let v = chars_of(s);
    let n = v.len();
    let mut a: usize = 0;
    assert(v@.skip(0) =~= v@);
    while a < n && v[a] == '['
        invariant
            a <= n == v@.len(),
            v@ == s@,
            skip_leading(s@, '[') == skip_leading(v@.skip(a as int), '['),
        decreases n - a,
    {
        assert(v@.skip(a as int).skip(1) =~= v@.skip(a + 1));
        a = a + 1;
    }
    assert(v@.skip(a as int) =~= v@.subrange(a as int, n as int));
    let mut b: usize = n;
    while b > a && v[b - 1] == ']'
        invariant
            a <= b <= n == v@.len(),
            v@ == s@,
            skip_leading(s@, '[') == v@.subrange(a as int, n as int),
            drop_trailing(skip_leading(s@, '['), ']') == drop_trailing(v@.subrange(a as int, b as int), ']'),
        decreases b,
    {
        assert(v@.subrange(a as int, b as int).drop_last() =~= v@.subrange(a as int, b - 1));
        b = b - 1;
    }
    s.substring_char(a, b)
}

/// The repo a note belongs to, without olink brackets.
pub fn note_repo(note: &Note) -> (r: Option<&str>)
    ensures
        match r {
            Some(x) => spec_note_repo(*note) == Some(x@),
            None => spec_note_repo(*note) is None,
        },
{
    match note.frontmatter() {
        Some(f) => match &f.repo {
            Some(repo) => Some(strip_brackets(repo.as_str())),
            None => None,
        },
        None => None,
    }
}

/// Whether the note passes the status filter.
pub fn note_matches_status(note: &Note, status: &Option<Status>) -> (r: bool)
    ensures
        r == spec_matches_status(
            *note,
            match status {
                Some(s) => Some(s@),
                None => None,
            },
        ),
{
    let wanted = match status {
        None => {
            return true;
        },
        Some(s) => s,
    };
    match note.frontmatter() {
        Some(f) => match &f.status {
            Some(s) => s.eq(wanted),
            None => false,
        },
        None => false,
    }
}

/// Whether the note passes the repo filter.
pub fn note_matches_repo(note: &Note, repo_name: Option<&str>) -> (r: bool)
    ensures
        r == spec_matches_repo(
            *note,
            match repo_name {
                Some(x) => Some(x@),
                None => None,
            },
        ),
{
    let wanted = match repo_name {
        None => {
            return true;
        },
        Some(x) => x,
    };
    match note_repo(note) {
        Some(r) => str_eq(r, wanted),
        None => false,
    }
}

} // verus!
