//! Config-declared note sections: locating a section by heading level and
//! title, and appending single-line entries to it (creating the section at
//! the footer marker or the end of the note when it is missing).
use vstd::prelude::*;
use crate::markdown::{
    opt_span_model, leading_hashes, lemma_ends_before_last, lemma_parse_layout, parse, section_model, sections_model, spec_parse,
    SectionModel,
};
use crate::text::{
    chars_of, push_range, trim, trim_range,
};

verus! {

/// `## Title` → `(2, "Title")`: 1 to 6 `#`, a space, a non-empty title.
pub open spec fn spec_split_heading(h: Seq<char>) -> Option<(nat, Seq<char>)> {
    let n = leading_hashes(h);
    let rest = h.skip(n as int);
    if 1 <= n <= 6 && rest.len() > 0 && rest[0] == ' ' && trim(rest.drop_first()).len() > 0 {
        Some((n, trim(rest.drop_first())))
    } else {
        None
    }
}

/// Splits a configured heading line into its level and bare title.
pub fn split_heading(heading: &str) -> (r: Option<(usize, &str)>)
    ensures
        match r {
            Some((level, title)) => spec_split_heading(heading@) == Some((level as nat, title@)),
            None => spec_split_heading(heading@) is None,
        },
{
    let h = chars_of(heading);
    let mut k: usize = 0;
    assert(h@.skip(0) =~= h@);
    while k < h.len() && h[k] == '#'
        invariant
            k <= h@.len(),
            h@ == heading@,
            leading_hashes(h@) == k + leading_hashes(h@.skip(k as int)),
        decreases h@.len() - k,
    {
        assert(h@.skip(k as int).drop_first() =~= h@.skip(k + 1));
        k = k + 1;
    }
    assert(leading_hashes(h@.skip(k as int)) == 0);
    if k < 1 || k > 6 || k >= h.len() || h[k] != ' ' {
        return None;
    }
    let (a, b) = trim_range(&h, k + 1, h.len());
    assert(h@.skip(k as int).drop_first() =~= h@.subrange(k + 1, h@.len() as int));
    if a == b {
        return None;
    }
    Some((k, heading.substring_char(a, b)))
}

/// Index of the first section at `level` titled `title`, from `k` on.
pub open spec fn find_from(secs: Seq<SectionModel>, level: nat, title: Seq<char>, k: int) -> Option<int>
    decreases secs.len() - k,
{
    if k < 0 || k >= secs.len() {
        None
    } else if secs[k].level == level && secs[k].name == title {
        Some(k)
    } else {
        find_from(secs, level, title, k + 1)
    }
}

/// The section matched on heading level and title, as text.
pub open spec fn spec_find_section(t: Seq<char>, level: nat, title: Seq<char>) -> Option<Seq<char>> {
    let secs = spec_parse(t).sections;
    match find_from(secs, level, title, 0) {
        Some(i) => Some(t.subrange(secs[i].start, secs[i].end)),
        None => None,
    }
}

proof fn lemma_find_from(secs: Seq<SectionModel>, level: nat, title: Seq<char>, k: int)
    requires
        0 <= k <= secs.len(),
    ensures
        match find_from(secs, level, title, k) {
            Some(i) => k <= i < secs.len() && secs[i].level == level && secs[i].name == title
                && forall|j: int| k <= j < i ==> !(secs[j].level == level && secs[j].name == title),
            None => forall|j: int| k <= j < secs.len() ==> !(secs[j].level == level && secs[j].name == title),
        },
    decreases secs.len() - k,
{
    if k < secs.len() {
        lemma_find_from(secs, level, title, k + 1);
    }
}

/// Locates the first section at `level` titled `title` in the parsed note.
fn locate(text: &str, level: usize, title: &str) -> (r: Option<(usize, usize)>)
    ensures
        match find_from(spec_parse(text@).sections, level as nat, title@, 0) {
            Some(i) => r matches Some((a, b)) && a == spec_parse(text@).sections[i].start && b
                == spec_parse(text@).sections[i].end,
            None => r is None,
        },
        r matches Some((a, b)) ==> a <= b <= text@.len(),
{
    let doc = parse(text);
    let secs = doc.section_list();
    let title_v = chars_of(title);
    let ghost m = spec_parse(text@).sections;
    proof {
        lemma_parse_layout(text@);
        lemma_find_from(m, level as nat, title@, 0);
    }
    let mut i: usize = 0;
    while i < secs.len()
        invariant
            sections_model(secs@) == m,
            m == spec_parse(text@).sections,
            title_v@ == title@,
            i <= secs@.len(),
            find_from(m, level as nat, title@, 0) == find_from(m, level as nat, title@, i as int),
            forall|j: int| 0 <= j < m.len() ==> 0 <= #[trigger] m[j].start < m[j].end <= text@.len(),
        decreases secs@.len() - i,
    {
        assert(section_model(secs@[i as int]) == m[i as int]);
        assert(m[i as int].start < m[i as int].end <= text@.len());
        let s = &secs[i];
        let name_v = chars_of(s.name.as_str());
        if s.level == level && crate::text::range_eq(&name_v, 0, name_v.len(), &title_v) {
            assert(name_v@.subrange(0, name_v@.len() as int) =~= name_v@);
            return Some((s.content.start, s.content.end));
        }
        assert(name_v@.subrange(0, name_v@.len() as int) =~= name_v@);
        i = i + 1;
    }
    None
}

/// The section's text (heading line through its content), matched on
/// heading level and title.
pub fn find_section<'a>(text: &'a str, level: usize, title: &str) -> (r: Option<&'a str>)
    ensures
        match spec_find_section(text@, level as nat, title@) {
            Some(s) => r matches Some(x) && x@ == s,
            None => r is None,
        },
{
    let ghost secs = spec_parse(text@).sections;
    let r = locate(text, level, title);
    match r {
        Some((a, b)) => {
            let x = text.substring_char(a, b);
            proof {
                assert(find_from(secs, level as nat, title@, 0) is Some);
                let i = find_from(secs, level as nat, title@, 0)->0;
                assert(a == secs[i].start && b == secs[i].end);
                assert(spec_find_section(text@, level as nat, title@) == Some(text@.subrange(secs[i].start, secs[i].end)));
            }
            Some(x)
        },
        None => None,
    }
}

/// The note's line ending: CRLF when the text holds one anywhere, else LF.
pub open spec fn spec_eol(t: Seq<char>) -> Seq<char> {
    if exists|i: int| 0 <= i < t.len() - 1 && #[trigger] t[i] == '\r' && t[i + 1] == '\n' {
        seq!['\r', '\n']
    } else {
        seq!['\n']
    }
}

/// `s` with trailing `\n` and `\r` characters removed.
pub open spec fn trim_newlines_end(s: Seq<char>) -> Seq<char>
    decreases s.len(),
{
    if s.len() > 0 && (s.last() == '\n' || s.last() == '\r') {
        trim_newlines_end(s.drop_last())
    } else {
        s
    }
}

/// The note after appending `entry` to the section at `level`/`title`,
/// creating the section (with `heading` verbatim) at the footer marker or
/// the end of text when there is none.
pub open spec fn spec_append_to_section(
    t: Seq<char>,
    level: nat,
    title: Seq<char>,
    heading: Seq<char>,
    entry: Seq<char>,
) -> Seq<char> {
    let d = spec_parse(t);
    let eol = spec_eol(t);
    match find_from(d.sections, level, title, 0) {
        Some(i) => {
            let s = d.sections[i];
            t.subrange(0, s.start) + trim_newlines_end(t.subrange(s.start, s.end)) + eol + entry
                + eol + t.subrange(s.end, t.len() as int)
        },
        None => {
            let at = match d.footer {
                Some(f) => f.0,
                None => t.len() as int,
            };
            let before = t.subrange(0, at);
            let sep = if before.len() > 0 && !crate::text::has_suffix(before, eol) {
                eol
            } else {
                Seq::empty()
            };
            before + sep + heading + eol + eol + entry + eol + t.subrange(at, t.len() as int)
        },
    }
}

/// Appending an entry never touches the footer: whatever follows the
/// footer marker line (the marker included) is still the end of the note.
pub proof fn lemma_append_keeps_footer(
    t: Seq<char>,
    level: nat,
    title: Seq<char>,
    heading: Seq<char>,
    entry: Seq<char>,
)
    requires
        spec_parse(t).footer is Some,
    ensures
        match spec_parse(t).footer {
            Some((fs, _)) => crate::text::has_suffix(
                spec_append_to_section(t, level, title, heading, entry),
                t.subrange(fs, t.len() as int),
            ),
            None => true,
        },
{
    lemma_parse_layout(t);
    let d = spec_parse(t);
    let (f, _) = d.footer->0;
    let out = spec_append_to_section(t, level, title, heading, entry);
    let tail = t.subrange(f, t.len() as int);
    lemma_find_from(d.sections, level, title, 0);
    match find_from(d.sections, level, title, 0) {
        Some(i) => {
            let s = d.sections[i];
            assert forall|j: int| 0 <= j < d.sections.len() implies #[trigger] d.sections[j].start
                < d.sections[j].end by {}
            lemma_ends_before_last(d.sections, i);
            let rest = t.subrange(s.end, t.len() as int);
            assert(rest.skip(rest.len() - tail.len()) =~= tail);
            assert(out.skip(out.len() - tail.len()) =~= tail);
        },
        None => {
            assert(out.skip(out.len() - tail.len()) =~= tail);
        },
    }
}

fn eol_of(t: &Vec<char>) -> (r: Vec<char>)
    ensures
        r@ == spec_eol(t@),
{
    let mut i: usize = 0;
    while t.len() > 0 && i < t.len() - 1
        invariant
            forall|j: int| 0 <= j < i && j < t@.len() - 1 ==> !(#[trigger] t@[j] == '\r' && t@[j + 1] == '\n'),
        decreases t@.len() - i,
    {
        if t[i] == '\r' && t[i + 1] == '\n' {
            let r = vec!['\r', '\n'];
            assert(r@ =~= seq!['\r', '\n']);
            return r;
        }
        i = i + 1;
    }
    let r = vec!['\n'];
    assert(r@ =~= seq!['\n']);
    r
}

/// End of `t[lo..hi]` after trailing `\n`/`\r` are removed.
fn trim_newlines_end_index(t: &Vec<char>, lo: usize, hi: usize) -> (b: usize)
    requires
        lo <= hi <= t@.len(),
    ensures
        lo <= b <= hi,
        t@.subrange(lo as int, b as int) == trim_newlines_end(t@.subrange(lo as int, hi as int)),
{
    let mut b = hi;
    while b > lo && (t[b - 1] == '\n' || t[b - 1] == '\r')
        invariant
            lo <= b <= hi <= t@.len(),
            trim_newlines_end(t@.subrange(lo as int, hi as int)) == trim_newlines_end(
                t@.subrange(lo as int, b as int),
            ),
        decreases b - lo,
    {
        assert(t@.subrange(lo as int, b as int).drop_last() =~= t@.subrange(lo as int, b - 1));
        b = b - 1;
    }
    b
}

fn push_vec(out: &mut String, v: &Vec<char>)
    ensures
        final(out)@ == old(out)@ + v@,
{
    crate::text::push_chars(out, v);
}

/// Appends `entry` to the section at `level`/`title`, creating it (using
/// `heading_line` verbatim) at the footer marker or the end of text.
pub fn append_to_section(text: &str, level: usize, title: &str, heading_line: &str, entry: &str) -> (r: String)
    ensures
        r@ == spec_append_to_section(text@, level as nat, title@, heading_line@, entry@),
{
    let t = chars_of(text);
    let eol = eol_of(&t);
    let entry_v = chars_of(entry);
    let heading_v = chars_of(heading_line);
    let mut out = String::new();
    proof {
        lemma_parse_layout(text@);
    }
    match locate(text, level, title) {
        Some((a, b)) => {
            let te = trim_newlines_end_index(&t, a, b);
            push_range(&mut out, &t, 0, a);
            push_range(&mut out, &t, a, te);
            push_vec(&mut out, &eol);
            push_vec(&mut out, &entry_v);
            push_vec(&mut out, &eol);
            push_range(&mut out, &t, b, t.len());
            assert(out@ =~= spec_append_to_section(text@, level as nat, title@, heading_line@, entry@));
        },
        None => {
            let doc = parse(text);
            let footer = doc.footer_range();
            let at = match footer {
                Some(f) => f.start,
                None => t.len(),
            };
            assert(opt_span_model(footer) == spec_parse(text@).footer);
            push_range(&mut out, &t, 0, at);
            let ghost before = t@.subrange(0, at as int);
            assert(out@ =~= before);
            let ghost sep = if before.len() > 0 && !crate::text::has_suffix(before, eol@) {
                eol@
            } else {
                Seq::<char>::empty()
            };
            let ends_with_eol = if at >= eol.len() {
                crate::text::range_eq(&t, at - eol.len(), at, &eol)
            } else {
                false
            };
            assert(ends_with_eol == crate::text::has_suffix(before, eol@)) by {
                if at >= eol.len() {
                    assert(before.skip(before.len() - eol@.len()) =~= t@.subrange(at - eol@.len(), at as int));
                }
            }
            if at > 0 && !ends_with_eol {
                push_vec(&mut out, &eol);
            }
            assert(out@ =~= before + sep);
            push_vec(&mut out, &heading_v);
            push_vec(&mut out, &eol);
            push_vec(&mut out, &eol);
            push_vec(&mut out, &entry_v);
            push_vec(&mut out, &eol);
            push_range(&mut out, &t, at, t.len());
            assert(out@ =~= spec_append_to_section(text@, level as nat, title@, heading_line@, entry@));
        },
    }
    out
}

/// `x` has the text `w` at `k`.
pub open spec fn text_at(x: Seq<char>, k: int, w: Seq<char>) -> bool {
    0 <= k && k + w.len() <= x.len() && x.subrange(k, k + w.len()) == w
}

/// `v` placed after `u`, which is empty or ends a line, starts a line.
proof fn lemma_line_after(u: Seq<char>, v: Seq<char>, w: Seq<char>)
    requires
        u.len() == 0 || u.last() == '\n',
    ensures
        crate::markdown::is_line_start(u + v + w, u.len() as int),
        text_at(u + v + w, u.len() as int, v),
{
    let x = u + v + w;
    let k = u.len() as int;
    assert(x.subrange(k, k + v.len()) =~= v);
    if k > 0 {
        assert(x[k - 1] == u.last());
    }
}

/// Appending an entry to a section leaves the entry on a line of its own,
/// ended by the note's line ending; when the section was missing, the
/// heading line is added at the start of a line, then a blank line, then
/// the entry line.
#[verifier::rlimit(30)]
pub proof fn lemma_append_starts_lines(t: Seq<char>, level: nat, title: Seq<char>, heading: Seq<char>, entry: Seq<char>)
    ensures
        ({
            let out = spec_append_to_section(t, level, title, heading, entry);
            let eol = spec_eol(t);
            &&& exists|k: int| #[trigger] crate::markdown::is_line_start(out, k) && text_at(out, k, entry + eol)
            &&& spec_find_section(t, level, title) is None ==> exists|k: int|
                #[trigger] crate::markdown::is_line_start(out, k) && text_at(out, k, heading + eol + eol + entry + eol)
        }),
{
    let d = spec_parse(t);
    let eol = spec_eol(t);
    let out = spec_append_to_section(t, level, title, heading, entry);
    assert(eol.last() == '\n');
    match find_from(d.sections, level, title, 0) {
        Some(i) => {
            let sec = d.sections[i];
            let u = t.subrange(0, sec.start) + trim_newlines_end(t.subrange(sec.start, sec.end)) + eol;
            let w = t.subrange(sec.end, t.len() as int);
            assert(out =~= u + (entry + eol) + w);
            lemma_line_after(u, entry + eol, w);
        },
        None => {
            let at = match d.footer {
                Some(f) => f.0,
                None => t.len() as int,
            };
            let before = t.subrange(0, at);
            let sep = if before.len() > 0 && !crate::text::has_suffix(before, eol) {
                eol
            } else {
                Seq::empty()
            };
            let u = before + sep;
            let block = heading + eol + eol + entry + eol;
            let w = t.subrange(at, t.len() as int);
            assert(out =~= u + block + w);
            if u.len() > 0 && sep.len() == 0 {
                assert(before.skip(before.len() - eol.len()) == eol);
                assert(before.last() == eol.last());
            }
            lemma_line_after(u, block, w);
            let u2 = u + heading + eol + eol;
            assert(out =~= u2 + (entry + eol) + w);
            lemma_line_after(u2, entry + eol, w);
        },
    }
}

} // verus!
