//! `ocli list`: which notes the listing shows and the row each one shows.
use vstd::prelude::*;
use crate::frontmatter::opt_string_view;
use crate::note::{
    note_matches_repo, note_matches_status, note_repo, spec_matches_repo, spec_matches_status,
    spec_note_repo, Note,
};
use crate::status::{status_text, Status, StatusView};
use crate::text::push_str;

verus! {

/// One listed note: its id and the fields the listing shows.
#[derive(Debug)]
pub struct Row {
    pub id: String,
    pub description: Option<String>,
    pub status: Option<Status>,
    pub repo: Option<String>,
}

/// A row as plain values.
pub struct RowView {
    pub id: Seq<char>,
    pub description: Option<Seq<char>>,
    pub status: Option<StatusView>,
    pub repo: Option<Seq<char>>,
}

impl View for Row {
    type V = RowView;

    open spec fn view(&self) -> RowView {
        RowView {
            id: self.id@,
            description: opt_string_view(self.description),
            status: match self.status {
                Some(s) => Some(s@),
                None => None,
            },
            repo: opt_string_view(self.repo),
        }
    }
}

/// The row a note shows: its name as the id, its description and status,
/// and its repo without olink brackets.
pub open spec fn row_of(n: Note) -> RowView {
    RowView {
        id: n.spec_name(),
        description: match n.spec_frontmatter() {
            Some(f) => f.description,
            None => None,
        },
        status: match n.spec_frontmatter() {
            Some(f) => f.status,
            None => None,
        },
        repo: spec_note_repo(n),
    }
}

/// `value` or `-`.
pub open spec fn or_dash(value: Option<Seq<char>>) -> Seq<char> {
    match value {
        Some(v) => v,
        None => "-"@,
    }
}

/// The four lines a row prints.
pub open spec fn spec_row_text(r: RowView) -> Seq<char> {
    "id: "@ + r.id + "\n"@ + "description: "@ + or_dash(r.description) + "\n"@ + "status: "@
        + or_dash(
        match r.status {
            Some(s) => Some(status_text(s)),
            None => None,
        },
    ) + "\n"@ + "repository: "@ + or_dash(r.repo) + "\n"@
}

fn push_or_dash(out: &mut String, value: Option<&str>)
    ensures
        final(out)@ == old(out)@ + or_dash(
            match value {
                Some(v) => Some(v@),
                None => None,
            },
        ),
{
    match value {
        Some(v) => push_str(out, v),
        None => push_str(out, "-"),
    }
}

impl Row {
    /// The row for `note`.
    pub fn new(note: &Note) -> (r: Row)
        ensures
            r@ == row_of(*note),
    {
        let fm = note.frontmatter();
        let description = match fm {
            Some(f) => match &f.description {
                Some(d) => Some(d.clone()),
                None => None,
            },
            None => None,
        };
        let status = match fm {
            Some(f) => match &f.status {
                Some(s) => Some(s.duplicate()),
                None => None,
            },
            None => None,
        };
        let repo = match note_repo(note) {
            Some(x) => Some(String::from_str(x)),
            None => None,
        };
        Row { id: String::from_str(note.name()), description, status, repo }
    }

    /// The row as the listing prints it: `id`, `description`, `status`
    /// and `repository` lines, `-` for a missing value.
    pub fn to_text(&self) -> (r: String)
        ensures
            r@ == spec_row_text(self@),
    {
        let mut out = String::new();
        push_str(&mut out, "id: ");
        push_str(&mut out, self.id.as_str());
        push_str(&mut out, "\n");
        push_str(&mut out, "description: ");
        let d = match &self.description {
            Some(d) => Some(d.as_str()),
            None => None,
        };
        push_or_dash(&mut out, d);
        push_str(&mut out, "\n");
        push_str(&mut out, "status: ");
        match &self.status {
            Some(s) => {
                let t = s.to_text();
                push_str(&mut out, t.as_str());
            },
            None => push_str(&mut out, "-"),
        }
        push_str(&mut out, "\n");
        push_str(&mut out, "repository: ");
        let r = match &self.repo {
            Some(r) => Some(r.as_str()),
            None => None,
        };
        push_or_dash(&mut out, r);
        push_str(&mut out, "\n");
        proof {
            assert(out@ =~= spec_row_text(self@));
        }
        out
    }
}

/// The rows for the first `k` notes that pass both filters, in order.
pub open spec fn listed(
    notes: Seq<Note>,
    status: Option<StatusView>,
    repo: Option<Seq<char>>,
    k: int,
) -> Seq<RowView>
    decreases k,
{
    if k <= 0 {
        Seq::empty()
    } else {
        let prev = listed(notes, status, repo, k - 1);
        let n = notes[k - 1];
        if spec_matches_status(n, status) && spec_matches_repo(n, repo) {
            prev.push(row_of(n))
        } else {
            prev
        }
    }
}

/// The repo the listing is limited to: the current repository's, unless
/// every repo is asked for. Outside a repository there is none, and the
/// whole vault shows.
pub open spec fn repo_filter(all_repos: bool, repo_name: Option<Seq<char>>) -> Option<Seq<char>> {
    if all_repos {
        None
    } else {
        repo_name
    }
}

pub open spec fn rows_view(rows: Seq<Row>) -> Seq<RowView> {
    rows.map_values(|r: Row| r@)
}

/// The listing: a row for each note, in order, that has the asked-for
/// status (when one is asked for) and belongs to the current repository
/// (unless `all_repos`, or when there is no repository).
pub fn list_rows(notes: &Vec<Note>, status: &Option<Status>, all_repos: bool, repo_name: Option<&str>) -> (r:
    Vec<Row>)
    ensures
        rows_view(r@) == listed(
            notes@,
            match status {
                Some(s) => Some(s@),
                None => None,
            },
            repo_filter(
                all_repos,
                match repo_name {
                    Some(x) => Some(x@),
                    None => None,
                },
            ),
            notes@.len() as int,
        ),
{
    let filter = if all_repos {
        None
    } else {
        repo_name
    };
    let ghost sv = match status {
        Some(s) => Some(s@),
        None => None::<StatusView>,
    };
    let ghost rv = repo_filter(
        all_repos,
        match repo_name {
            Some(x) => Some(x@),
            None => None,
        },
    );
    let mut rows: Vec<Row> = Vec::new();
    let mut i: usize = 0;
    while i < notes.len()
        invariant
            i <= notes@.len(),
            rv == match filter {
                Some(x) => Some(x@),
                None => None::<Seq<char>>,
            },
            sv == match status {
                Some(s) => Some(s@),
                None => None::<StatusView>,
            },
            rows_view(rows@) == listed(notes@, sv, rv, i as int),
        decreases notes@.len() - i,
    {
        let n = &notes[i];
        if note_matches_status(n, status) && note_matches_repo(n, filter) {
            let row = Row::new(n);
            rows.push(row);
            assert(rows_view(rows@) =~= listed(notes@, sv, rv, i as int).push(row_of(notes@[i as int])));
        }
        i = i + 1;
    }
    rows
}

/// Every row of a listing filtered by status `s` shows exactly status
/// `s`, and every row of one limited to repo `r` shows repo `r`.
pub proof fn lemma_listed_rows_match(
    notes: Seq<Note>,
    status: Option<StatusView>,
    repo: Option<Seq<char>>,
    k: int,
)
    requires
        0 <= k <= notes.len(),
    ensures
        forall|i: int|
            0 <= i < listed(notes, status, repo, k).len() ==> (status matches Some(s) ==> #[trigger] listed(
                notes,
                status,
                repo,
                k,
            )[i].status == Some(s)),
        forall|i: int|
            0 <= i < listed(notes, status, repo, k).len() ==> (repo matches Some(r) ==> #[trigger] listed(
                notes,
                status,
                repo,
                k,
            )[i].repo == Some(r)),
    decreases k,
{
    if k > 0 {
        lemma_listed_rows_match(notes, status, repo, k - 1);
        let prev = listed(notes, status, repo, k - 1);
        let cur = listed(notes, status, repo, k);
        let n = notes[k - 1];
        if spec_matches_status(n, status) && spec_matches_repo(n, repo) {
            assert(cur == prev.push(row_of(n)));
            assert forall|i: int| 0 <= i < cur.len() implies (status matches Some(s) ==> #[trigger] cur[i].status == Some(s)) by {
                if i < prev.len() {
                    assert(cur[i] == prev[i]);
                }
            }
            assert forall|i: int| 0 <= i < cur.len() implies (repo matches Some(r) ==> #[trigger] cur[i].repo == Some(r)) by {
                if i < prev.len() {
                    assert(cur[i] == prev[i]);
                }
            }
        }
    }
}

} // verus!
