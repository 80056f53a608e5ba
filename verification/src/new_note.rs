//! `ocli new`: the note a ticket branch gets. The branch names the
//! ticket; the template, rendered against the value layers, gives the
//! text; the fills set `repo`, `description` and `status`. Writing the
//! file happens outside.
use vstd::prelude::*;
use crate::commands::{inner_of, is_olink_field, is_str_field, CommandError};
use crate::config::{strings_view, Tickets};
use crate::frontmatter::{
    inner_yaml, set_or_append_field, spec_append_field, spec_field_region, spec_invalid_reason,
    spec_replace_region, spec_set_or_append, spec_splice_inner, splice_inner_range,
};
use crate::ftypes::{ascii_lower, lower_char_exec, spec_render_field, Field};
use crate::markdown::{lemma_parse_layout, parse, spec_parse};
use crate::pattern::{spec_captures, texts_view, Pattern};
use crate::template::{
    insert_pairs, reports, spec_house_format, spec_substitute, FeatureTemplate, Source, Timestamp, ValueMap,
};
use crate::text::{chars_of, find_char, has_char, index_of, string_of_range};
use crate::vault::{
    branch_captures, capture_map, compose, ensure_safe_note_name, is_safe_note_name, note_name, pairs_view,
    spec_capture_map, VaultError,
};

verus! {

/// The status every created note starts with: work starts the moment the
/// note exists.
pub const INITIAL_STATUS: &'static str = "In Progress";

/// What `new` creates: the note's id (its file name without `.md`) and
/// text, and whether an explicit key differs from the branch's id beyond
/// ASCII case (worth a warning, not a refusal).
#[derive(Debug)]
pub struct NewNote {
    pub id: String,
    pub text: String,
    pub key_differs: bool,
}

/// `a` and `b` are equal up to ASCII case.
pub open spec fn eq_ignore_ascii_case(a: Seq<char>, b: Seq<char>) -> bool {
    ascii_lower(a) == ascii_lower(b)
}

fn eq_ignore_ascii_case_exec(a: &str, b: &str) -> (r: bool)
    ensures
        r == eq_ignore_ascii_case(a@, b@),
{
    let av = chars_of(a);
    let bv = chars_of(b);
    if av.len() != bv.len() {
        assert(ascii_lower(a@).len() != ascii_lower(b@).len());
        return false;
    }
    let mut i: usize = 0;
    while i < av.len()
        invariant
            av@ == a@,
            bv@ == b@,
            av@.len() == bv@.len(),
            i <= av@.len(),
            forall|j: int| 0 <= j < i ==> #[trigger] ascii_lower(a@)[j] == ascii_lower(b@)[j],
        decreases av@.len() - i,
    {
        if lower_char_exec(av[i]) != lower_char_exec(bv[i]) {
            assert(ascii_lower(a@)[i as int] != ascii_lower(b@)[i as int]);
            return false;
        }
        i = i + 1;
    }
    assert(ascii_lower(a@) =~= ascii_lower(b@));
    true
}

/// A `--set` item split at its first `=` into name and value; `None`
/// when it has no `=` or the name is empty.
pub open spec fn split_set(item: Seq<char>) -> Option<(Seq<char>, Seq<char>)> {
    let j = index_of(item, '=');
    if j >= item.len() || j == 0 {
        None
    } else {
        Some((item.take(j), item.skip(j + 1)))
    }
}

/// The first `k` `--set` items applied in order, each overwriting; the
/// first malformed item is the error.
pub open spec fn apply_sets(
    m: Map<Seq<char>, (Seq<char>, Source)>,
    items: Seq<Seq<char>>,
    k: int,
) -> Result<Map<Seq<char>, (Seq<char>, Source)>, Seq<char>>
    decreases k,
{
    if k <= 0 {
        Ok(m)
    } else {
        match apply_sets(m, items, k - 1) {
            Err(x) => Err(x),
            Ok(m1) => match split_set(items[k - 1]) {
                None => Err(items[k - 1]),
                Some((n, v)) => Ok(m1.insert(n, (v, Source::SetArg))),
            },
        }
    }
}

/// Splits a `--set` item at its first `=`.
pub fn parse_set(item: &str) -> (r: Option<(String, String)>)
    ensures
        match split_set(item@) {
            Some((n, v)) => r matches Some((a, b)) && a@ == n && b@ == v,
            None => r is None,
        },
{
    let v = chars_of(item);
    let n = v.len();
    let j = find_char(&v, 0, n, '=');
    assert(v@.subrange(0, n as int) =~= v@);
    if j == n || j == 0 {
        return None;
    }
    let name = string_of_range(&v, 0, j);
    let value = string_of_range(&v, j + 1, n);
    assert(v@.subrange(0, j as int) =~= item@.take(j as int));
    assert(v@.subrange(j + 1, n as int) =~= item@.skip(j + 1));
    Some((name, value))
}

/// Everything `new` decides from, as plain values.
pub struct NewRequest {
    pub branch: Option<Seq<char>>,
    pub git_repo: Option<Seq<char>>,
    pub pattern: Seq<char>,
    pub id_template: Seq<char>,
    pub template_values: Seq<(Seq<char>, Seq<char>)>,
    pub template_path: Seq<char>,
    pub template_text: Seq<char>,
    pub stamp: Seq<char>,
    pub key: Option<Seq<char>>,
    pub description: Option<Seq<char>>,
    pub set: Seq<Seq<char>>,
    pub repo: Option<Seq<char>>,
}

/// The group names of the request's pattern.
pub open spec fn req_names(q: NewRequest) -> Seq<Option<Seq<char>>> {
    Pattern::names_of(q.pattern)
}

/// The value layers in ascending precedence: `[template.values]`, the
/// branch's groups, the key's groups (when the key matches the pattern),
/// then each `--set`.
pub open spec fn layered_values(q: NewRequest, branch_caps: Seq<Option<Seq<char>>>) -> Result<
    Map<Seq<char>, (Seq<char>, Source)>,
    Seq<char>,
> {
    value_layers(q.template_values, q.pattern, q.key, q.set, branch_caps)
}

/// The value layers from their parts.
pub open spec fn value_layers(
    template_values: Seq<(Seq<char>, Seq<char>)>,
    pattern: Seq<char>,
    key: Option<Seq<char>>,
    set: Seq<Seq<char>>,
    branch_caps: Seq<Option<Seq<char>>>,
) -> Result<Map<Seq<char>, (Seq<char>, Source)>, Seq<char>> {
    let names = Pattern::names_of(pattern);
    let vm0 = insert_pairs(Map::empty(), template_values, Source::Template);
    let vm1 = insert_pairs(vm0, spec_capture_map(names, branch_caps, names.len() as int), Source::Branch);
    let vm2 = match key {
        Some(k) => match spec_captures(pattern, k) {
            Some(kc) => insert_pairs(vm1, spec_capture_map(names, kc, names.len() as int), Source::Key),
            None => vm1,
        },
        None => vm1,
    };
    apply_sets(vm2, set, set.len() as int)
}

/// The repo name the fill writes: `--repo`, else the origin's name, else
/// `unknown`.
pub open spec fn fill_repo_name(q: NewRequest) -> Seq<char> {
    match q.repo {
        Some(r) => r,
        None => match q.git_repo {
            Some(g) => g,
            None => "unknown"@,
        },
    }
}

/// The fills on the rendered note's inner YAML: `repo`, then
/// `description` (only when given), then `status`, each set in place or
/// appended; the name of the first refused field is the error.
pub open spec fn filled(inner: Seq<char>, rf: Field, df: Option<Field>, sf: Field) -> Result<Seq<char>, Seq<char>> {
    match spec_set_or_append(inner, "repo"@, rf) {
        None => Err("repo"@),
        Some(i1) => match (match df {
            Some(d) => match spec_set_or_append(i1, "description"@, d) {
                None => Err("description"@),
                Some(i2) => Ok(i2),
            },
            None => Ok(i1),
        }) {
            Err(x) => Err(x),
            Ok(i2) => match spec_set_or_append(i2, "status"@, sf) {
                None => Err("status"@),
                Some(i3) => Ok(i3),
            },
        },
    }
}

/// The outcome of rendering and filling, once the id is settled.
pub open spec fn rendered_outcome(
    q: NewRequest,
    vals: Map<Seq<char>, (Seq<char>, Source)>,
    id: Seq<char>,
    key_differs: bool,
    rf: Field,
    df: Option<Field>,
    sf: Field,
    r: Result<NewNote, CommandError>,
) -> bool {
    match spec_substitute(q.template_text, vals, q.stamp) {
        Err(f) => r matches Err(CommandError::Vault(e)) && reports(e, f),
        Ok(text) => match spec_parse(text).frontmatter {
            None => r matches Err(CommandError::Vault(VaultError::FrontmatterNotFound { path: p }))
                && p@ == q.template_path,
            Some((a, b)) => match filled(inner_of(text, a, b), rf, df, sf) {
                Err(field) => r matches Err(CommandError::Vault(VaultError::InvalidFieldValue { field: x, .. }))
                    && x@ == field,
                Ok(inner) => r matches Ok(note) && note.id@ == id && note.key_differs == key_differs
                    && note.text@ == spec_splice_inner(text, a, b, inner),
            },
        },
    }
}

/// What `new` gives for a request, with `rf`, `df` and `sf` the fields
/// the fills write.
pub open spec fn new_outcome(q: NewRequest, rf: Field, df: Option<Field>, sf: Field, r: Result<NewNote, CommandError>) -> bool {
    match q.branch {
        None => r matches Err(CommandError::Vault(VaultError::CurrentBranchNotFound)),
        Some(branch) => match spec_captures(q.pattern, branch) {
            None => r matches Err(CommandError::Vault(VaultError::CouldNotParseBranchName { branch: b, pattern: p }))
                && b@ == branch && p@ == q.pattern,
            Some(caps) => {
                let composed = compose(q.id_template, req_names(q), caps, req_names(q).len() as int);
                if has_char(composed, '{') {
                    r matches Err(CommandError::Vault(VaultError::CouldNotComposeNoteName { branch: b, name: n }))
                        && b@ == branch && n@ == composed
                } else if !is_safe_note_name(composed) {
                    r matches Err(CommandError::Vault(VaultError::UnsafeNoteName { branch: b, name: n }))
                        && b@ == branch && n@ == composed
                } else if q.key matches Some(k) && !is_safe_note_name(k) {
                    r matches Err(CommandError::Vault(VaultError::UnsafeNoteName { branch: b, name: n }))
                        && b@ == branch && n@ == q.key->0
                } else {
                    let id = match q.key {
                        Some(k) => k,
                        None => composed,
                    };
                    let key_differs = q.key matches Some(k) && !eq_ignore_ascii_case(k, composed);
                    match layered_values(q, caps) {
                        Err(item) => r matches Err(CommandError::MalformedSet { item: x }) && x@ == item,
                        Ok(vals) => rendered_outcome(q, vals, id, key_differs, rf, df, sf, r),
                    }
                }
            },
        },
    }
}

/// Builds the value map `new` renders with, layer by layer.
fn new_values(
    template_values: &Vec<(String, String)>,
    pattern: &Pattern,
    branch_caps: &Vec<Option<String>>,
    key: Option<&str>,
    set: &Vec<String>,
) -> (r: Result<ValueMap, CommandError>)
    ensures
        match value_layers(
            pairs_view(template_values@),
            pattern@,
            match key {
                Some(k) => Some(k@),
                None => None,
            },
            strings_view(set@),
            texts_view(branch_caps@),
        ) {
            Err(item) => r matches Err(CommandError::MalformedSet { item: x }) && x@ == item,
            Ok(vals) => r matches Ok(vm) && vm@ == vals,
        },
{
    let ghost names = Pattern::names_of(pattern@);
    let mut values = ValueMap::new();
    values.insert_all(Source::Template, template_values);
    let branch_map = capture_map(pattern, branch_caps);
    values.insert_all(Source::Branch, &branch_map);
    let ghost vm1 = values@;
    match key {
        Some(k) => match pattern.captures(k) {
            Some(key_caps) => {
                let key_map = capture_map(pattern, &key_caps);
                values.insert_all(Source::Key, &key_map);
            },
            None => {},
        },
        None => {},
    }
    let ghost base = values@;
    assert(base == match key {
        Some(k) => match spec_captures(pattern@, k@) {
            Some(kc) => insert_pairs(vm1, spec_capture_map(names, kc, names.len() as int), Source::Key),
            None => vm1,
        },
        None => vm1,
    });
    let ghost items = strings_view(set@);
    let ghost keyv = match key {
        Some(k) => Some(k@),
        None => None,
    };
    assert(value_layers(pairs_view(template_values@), pattern@, keyv, items, texts_view(branch_caps@))
        == apply_sets(base, items, items.len() as int));
    let mut i: usize = 0;
    while i < set.len()
        invariant
            i <= set@.len(),
            items == strings_view(set@),
            value_layers(pairs_view(template_values@), pattern@, keyv, items, texts_view(branch_caps@))
                == apply_sets(base, items, items.len() as int),
            keyv == match key {
                Some(k) => Some(k@),
                None => None::<Seq<char>>,
            },
            apply_sets(base, items, i as int) == Ok::<Map<Seq<char>, (Seq<char>, Source)>, Seq<char>>(values@),
        decreases set@.len() - i,
    {
        match parse_set(set[i].as_str()) {
            None => {
                proof {
                    assert(items[i as int] == set@[i as int]@);
                    assert(apply_sets(base, items, i as int + 1) == Err::<
                        Map<Seq<char>, (Seq<char>, Source)>,
                        Seq<char>,
                    >(items[i as int]));
                    lemma_apply_sets_stops(base, items, i as int + 1, set@.len() as int);
                }
                let item = set[i].clone();
                assert(item@ == items[i as int]);
                return Err(CommandError::MalformedSet { item });
            },
            Some((name, value)) => {
                values.insert(Source::SetArg, name.as_str(), value.as_str());
            },
        }
        i = i + 1;
    }
    assert(items.len() == set@.len());
    Ok(values)
}

/// Once an item fails, the failure stands whatever items follow.
proof fn lemma_apply_sets_stops(
    m: Map<Seq<char>, (Seq<char>, Source)>,
    items: Seq<Seq<char>>,
    k: int,
    n: int,
)
    requires
        1 <= k <= n,
        apply_sets(m, items, k) is Err,
    ensures
        apply_sets(m, items, n) == apply_sets(m, items, k),
    decreases n - k,
{
    if k < n {
        lemma_apply_sets_stops(m, items, k, n - 1);
    }
}

/// Two string fields, or two olink fields, holding the same text edit the
/// frontmatter alike.
proof fn lemma_same_text_same_edit(f1: Field, f2: Field, fm: Seq<char>, name: Seq<char>)
    requires
        (f1 is Str && f2 is Str && f1->Str_0@ == f2->Str_0@) || (f1 is Olink && f2 is Olink && f1->Olink_0@
            == f2->Olink_0@),
    ensures
        spec_set_or_append(fm, name, f1) == spec_set_or_append(fm, name, f2),
{
    assert(spec_invalid_reason(f1) == spec_invalid_reason(f2));
    assert forall|eol: Seq<char>| spec_render_field(name, f1, eol) == spec_render_field(name, f2, eol) by {}
    match spec_field_region(fm, name) {
        Some((a, b)) => {
            assert(spec_replace_region(fm, name, f1, a, b) == spec_replace_region(fm, name, f2, a, b));
        },
        None => {
            assert(spec_append_field(fm, name, f1) == spec_append_field(fm, name, f2));
        },
    }
}

/// The fills on a rendered note: `repo`, then `description` when given,
/// then `status`, on the frontmatter's inner YAML.
fn fill_note(text: &str, template_path: &str, rf: &Field, df: Option<&Field>, sf: &Field) -> (r: Result<String, CommandError>)
    ensures
        match spec_parse(text@).frontmatter {
            None => r matches Err(CommandError::Vault(VaultError::FrontmatterNotFound { path: p })) && p@
                == template_path@,
            Some((a, b)) => match filled(
                inner_of(text@, a, b),
                *rf,
                match df {
                    Some(d) => Some(*d),
                    None => None,
                },
                *sf,
            ) {
                Err(field) => r matches Err(CommandError::Vault(VaultError::InvalidFieldValue { field: x, .. }))
                    && x@ == field,
                Ok(inner) => r matches Ok(out) && out@ == spec_splice_inner(text@, a, b, inner),
            },
        },
{
    let document = parse(text);
    proof {
        lemma_parse_layout(text@);
    }
    let span = match document.frontmatter_range() {
        Some(span) => span,
        None => {
            return Err(
                CommandError::Vault(VaultError::FrontmatterNotFound { path: String::from_str(template_path) }),
            );
        },
    };
    let inner = inner_yaml(document.get_range(span));
    let i1 = match set_or_append_field(inner, "repo", rf) {
        Ok(i1) => i1,
        Err(e) => {
            return Err(CommandError::Vault(e));
        },
    };
    let i2 = match df {
        Some(d) => match set_or_append_field(i1.as_str(), "description", d) {
            Ok(i2) => i2,
            Err(e) => {
                return Err(CommandError::Vault(e));
            },
        },
        None => i1,
    };
    let i3 = match set_or_append_field(i2.as_str(), "status", sf) {
        Ok(i3) => i3,
        Err(e) => {
            return Err(CommandError::Vault(e));
        },
    };
    Ok(splice_inner_range(text, span, i3.as_str()))
}

pub open spec fn opt_str(o: Option<&str>) -> Option<Seq<char>> {
    match o {
        Some(s) => Some(s@),
        None => None,
    }
}

/// The request `plan_new_note` answers, as plain values.
pub open spec fn request_of(
    branch: Option<&str>,
    git_repo: Option<&str>,
    tickets: Tickets,
    template_values: Seq<(String, String)>,
    template: FeatureTemplate,
    now: Timestamp,
    key: Option<&str>,
    description: Option<&str>,
    set: Seq<String>,
    repo: Option<&str>,
) -> NewRequest {
    NewRequest {
        branch: opt_str(branch),
        git_repo: opt_str(git_repo),
        pattern: tickets.pattern@,
        id_template: tickets.id@,
        template_values: pairs_view(template_values),
        template_path: template@.0,
        template_text: template@.1,
        stamp: spec_house_format(now),
        key: opt_str(key),
        description: opt_str(description),
        set: strings_view(set),
        repo: opt_str(repo),
    }
}

/// The fields the fills write: the repo name as an olink, the
/// description (when given) and the initial status as strings.
pub open spec fn fill_fields(q: NewRequest, rf: Field, df: Option<Field>, sf: Field) -> bool {
    &&& is_olink_field(rf, fill_repo_name(q))
    &&& match q.description {
        Some(d) => df matches Some(x) && is_str_field(x, d),
        None => df is None,
    }
    &&& is_str_field(sf, INITIAL_STATUS@)
}

proof fn lemma_filled_by_text(
    inner: Seq<char>,
    rf1: Field,
    df1: Option<Field>,
    sf1: Field,
    rf2: Field,
    df2: Option<Field>,
    sf2: Field,
)
    requires
        rf1 is Olink && rf2 is Olink && rf1->Olink_0@ == rf2->Olink_0@,
        sf1 is Str && sf2 is Str && sf1->Str_0@ == sf2->Str_0@,
        df1 is None <==> df2 is None,
        df1 matches Some(a) ==> (df2 matches Some(b) && a is Str && b is Str && a->Str_0@ == b->Str_0@),
    ensures
        filled(inner, rf1, df1, sf1) == filled(inner, rf2, df2, sf2),
{
    lemma_same_text_same_edit(rf1, rf2, inner, "repo"@);
    if let Some(i1) = spec_set_or_append(inner, "repo"@, rf1) {
        let i2 = match df1 {
            Some(a) => {
                let b = df2->0;
                lemma_same_text_same_edit(a, b, i1, "description"@);
                spec_set_or_append(i1, "description"@, a)
            },
            None => Some(i1),
        };
        if let Some(i2) = i2 {
            lemma_same_text_same_edit(sf1, sf2, i2, "status"@);
        }
    }
}

/// The note `ocli new` creates on the current branch: its id (the
/// explicit key, else the id template composed over the branch's
/// groups) and its text (the template rendered against the value layers,
/// then the `repo`, `description` and `status` fills).
///
/// Refused: no branch; a branch off the ticket pattern; an id that does
/// not compose or is not one visible file; an unsafe key; a malformed
/// `--set`; a template that does not render or has no frontmatter; a
/// fill value that can't be written.
pub fn plan_new_note(
    branch: Option<&str>,
    git_repo: Option<&str>,
    tickets: &Tickets,
    template_values: &Vec<(String, String)>,
    template: &FeatureTemplate,
    now: &Timestamp,
    key: Option<&str>,
    description: Option<&str>,
    set: &Vec<String>,
    repo: Option<&str>,
) -> (r: Result<NewNote, CommandError>)
    ensures
        forall|rf: Field, df: Option<Field>, sf: Field|
            #[trigger] fill_fields(
                request_of(branch, git_repo, *tickets, template_values@, *template, *now, key, description, set@, repo),
                rf,
                df,
                sf,
            ) ==> new_outcome(
                request_of(branch, git_repo, *tickets, template_values@, *template, *now, key, description, set@, repo),
                rf,
                df,
                sf,
                r,
            ),
{
    let ghost q = request_of(branch, git_repo, *tickets, template_values@, *template, *now, key, description, set@, repo);
    let branch = match branch {
        None => {
            return Err(CommandError::Vault(VaultError::CurrentBranchNotFound));
        },
        Some(b) => b,
    };
    let caps = match branch_captures(branch, &tickets.pattern) {
        Ok(c) => c,
        Err(e) => {
            return Err(CommandError::Vault(e));
        },
    };
    let composed = match note_name(branch, &tickets.pattern, &caps, tickets.id.as_str()) {
        Ok(n) => n,
        Err(e) => {
            return Err(CommandError::Vault(e));
        },
    };
    let (id, key_differs) = match key {
        Some(k) => {
            match ensure_safe_note_name(branch, k) {
                Err(e) => {
                    return Err(CommandError::Vault(e));
                },
                Ok(()) => {},
            }
            (String::from_str(k), !eq_ignore_ascii_case_exec(k, composed.as_str()))
        },
        None => (composed, false),
    };
    let values = match new_values(template_values, &tickets.pattern, &caps, key, set) {
        Ok(v) => v,
        Err(e) => {
            return Err(e);
        },
    };
    let text = match template.render(&values, now) {
        Ok(t) => t,
        Err(e) => {
            return Err(CommandError::Vault(e));
        },
    };
    let repo_name = match repo {
        Some(x) => String::from_str(x),
        None => match git_repo {
            Some(g) => String::from_str(g),
            None => String::from_str("unknown"),
        },
    };
    let rf = Field::Olink(repo_name);
    let df = match description {
        Some(d) => Some(Field::Str(String::from_str(d))),
        None => None,
    };
    let sf = Field::Str(String::from_str(INITIAL_STATUS));
    let df_ref = match &df {
        Some(d) => Some(d),
        None => None,
    };
    let r = match fill_note(text.as_str(), template.path(), &rf, df_ref, &sf) {
        Ok(t) => Ok(NewNote { id, text: t, key_differs }),
        Err(e) => Err(e),
    };
    assert(fill_fields(q, rf, df, sf));
    assert forall|rf2: Field, df2: Option<Field>, sf2: Field| #[trigger] fill_fields(q, rf2, df2, sf2) implies new_outcome(
        q,
        rf2,
        df2,
        sf2,
        r,
    ) by {
        assert forall|inner: Seq<char>| filled(inner, rf2, df2, sf2) == filled(inner, rf, df, sf) by {
            lemma_filled_by_text(inner, rf2, df2, sf2, rf, df, sf);
        }
    }
    r
}

} // verus!
