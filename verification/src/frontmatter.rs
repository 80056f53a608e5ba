//! Frontmatter text editing: the inner YAML between the `---` delimiters,
//! splicing it back, and the field-region edits (`set_field`,
//! `append_field`) that replace one top-level key without touching any
//! other byte.
use vstd::prelude::*;
use crate::markdown::{
    byte_at, char_position, closing_line, dashes, find_line_end, initial_state, is_line_start, lemma_byte_at_injective, lemma_frontmatter_block, lemma_line_end, lemma_no_line_start_inside,
    lemma_parse_layout, line_content, line_end, scan, spec_parse, starts_with_delimiter,
    step, ScanState,
};
use crate::ftypes::{render_field, spec_render_field, Field};
use crate::vault::VaultError;
use crate::status::{Status, StatusView};
use crate::text::{
    chars_of, find_char, has_char, has_prefix, range_has_char, has_suffix, index_of, lemma_index_of_from, push_char,
    push_range, push_str, range_eq, string_of_range, trim, trim_range,
};

verus! {

pub open spec fn crlf_dashes() -> Seq<char> {
    seq!['-', '-', '-', '\r', '\n']
}

pub open spec fn lf_dashes() -> Seq<char> {
    seq!['-', '-', '-', '\n']
}

/// Everything after the first line of `f` (empty when `f` has one line).
pub open spec fn after_first_line(f: Seq<char>) -> Seq<char> {
    if index_of(f, '\n') < f.len() {
        f.skip(index_of(f, '\n') + 1)
    } else {
        Seq::empty()
    }
}

/// The text between the `---` delimiter lines of a frontmatter block.
pub open spec fn spec_inner_yaml(f: Seq<char>) -> Seq<char> {
    let i = after_first_line(f);
    if has_suffix(i, crlf_dashes()) {
        i.take(i.len() - 5)
    } else if has_suffix(i, lf_dashes()) {
        i.take(i.len() - 4)
    } else if has_suffix(i, dashes()) {
        i.take(i.len() - 3)
    } else {
        i
    }
}

fn suffix_is(v: &Vec<char>, lo: usize, hi: usize, w: &Vec<char>) -> (r: bool)
    requires
        lo <= hi <= v@.len(),
    ensures
        r == has_suffix(v@.subrange(lo as int, hi as int), w@),
{
    if hi - lo < w.len() {
        return false;
    }
    let r = range_eq(v, hi - w.len(), hi, w);
    assert(v@.subrange(lo as int, hi as int).skip(hi - lo - w@.len()) =~= v@.subrange(
        hi - w@.len(),
        hi as int,
    ));
    r
}

/// The inner YAML of a frontmatter block: the text after the opening
/// `---` line, without the closing `---` line.
pub fn inner_yaml(fm: &str) -> (r: &str)
    ensures
        r@ == spec_inner_yaml(fm@),
{
    let v = chars_of(fm);
    let n = v.len();
    let i = find_char(&v, 0, n, '\n');
    assert(v@.subrange(0, n as int) =~= v@);
    let start = if i < n {
        i + 1
    } else {
        n
    };
    let ghost inner = after_first_line(fm@);
    assert(v@.subrange(start as int, n as int) =~= inner);
    let crlf_d = vec!['-', '-', '-', '\r', '\n'];
    let lf_d = vec!['-', '-', '-', '\n'];
    let d = vec!['-', '-', '-'];
    assert(crlf_d@ =~= crlf_dashes());
    assert(lf_d@ =~= lf_dashes());
    assert(d@ =~= dashes());
    let end = if suffix_is(&v, start, n, &crlf_d) {
        n - 5
    } else if suffix_is(&v, start, n, &lf_d) {
        n - 4
    } else if suffix_is(&v, start, n, &d) {
        n - 3
    } else {
        n
    };
    assert(v@.subrange(start as int, end as int) =~= spec_inner_yaml(fm@));
    fm.substring_char(start, end)
}

/// The line ending that terminates `p`: CRLF, LF, or none.
pub open spec fn spec_line_ending(p: Seq<char>) -> Seq<char> {
    if has_suffix(p, seq!['\r', '\n']) {
        seq!['\r', '\n']
    } else if has_suffix(p, seq!['\n']) {
        seq!['\n']
    } else {
        Seq::empty()
    }
}

/// The line ending of `v[lo..hi]`, as characters.
fn line_ending_chars(v: &Vec<char>, lo: usize, hi: usize) -> (r: Vec<char>)
    requires
        lo <= hi <= v@.len(),
    ensures
        r@ == spec_line_ending(v@.subrange(lo as int, hi as int)),
{
    let crlf = vec!['\r', '\n'];
    let lf = vec!['\n'];
    assert(crlf@ =~= seq!['\r', '\n']);
    assert(lf@ =~= seq!['\n']);
    if suffix_is(v, lo, hi, &crlf) {
        crlf
    } else if suffix_is(v, lo, hi, &lf) {
        lf
    } else {
        let e: Vec<char> = Vec::new();
        assert(e@ =~= Seq::<char>::empty());
        e
    }
}

/// The line ending that terminated the text before its end, so replaced
/// regions keep the file's own endings.
pub fn line_ending_before(prefix: &str) -> (r: &'static str)
    ensures
        r@ == spec_line_ending(prefix@),
{
    proof {
        reveal_strlit("\r\n");
        reveal_strlit("\n");
        reveal_strlit("");
    }
    let v = chars_of(prefix);
    let e = line_ending_chars(&v, 0, v.len());
    assert(v@.subrange(0, v@.len() as int) =~= v@);
    if e.len() == 2 {
        assert(e@ =~= "\r\n"@);
        "\r\n"
    } else if e.len() == 1 {
        assert(e@ =~= "\n"@);
        "\n"
    } else {
        assert(e@ =~= ""@);
        ""
    }
}

/// `text` with the inner YAML of the frontmatter block `s..e` replaced by
/// `inner`; the delimiter lines and their endings stay as they were.
pub open spec fn spec_splice_inner(t: Seq<char>, s: int, e: int, inner: Seq<char>) -> Seq<char> {
    let f = t.subrange(s, e);
    t.take(s) + f.take(opening_end(f)) + inner + dashes() + spec_line_ending(f) + t.skip(e)
}

/// Where the first line of `f` ends, its terminator included.
pub open spec fn opening_end(f: Seq<char>) -> int {
    if index_of(f, '\n') < f.len() {
        index_of(f, '\n') + 1
    } else {
        f.len() as int
    }
}

/// Rebuilds the note with the inner YAML of the frontmatter block at the
/// byte range `span` (as [`Document::frontmatter`] gives it) replaced by
/// `inner`; the inverse of [`inner_yaml`].
pub fn splice_inner(text: &str, span: crate::markdown::Span, inner: &str) -> (r: String)
    requires
        exists|a: int, b: int|
            0 <= a <= b <= text@.len() && #[trigger] byte_at(text@, a) == span.start && #[trigger] byte_at(
                text@,
                b,
            ) == span.end,
    ensures
        forall|a: int, b: int|
            0 <= a <= b <= text@.len() && #[trigger] byte_at(text@, a) == span.start && #[trigger] byte_at(
                text@,
                b,
            ) == span.end ==> r@ == spec_splice_inner(text@, a, b, inner@),
{
    let t = chars_of(text);
    let a = char_position(text, &t, span.start);
    let b = char_position(text, &t, span.end);
    proof {
        assert forall|a2: int, b2: int|
            0 <= a2 <= b2 <= text@.len() && #[trigger] byte_at(text@, a2) == span.start && #[trigger] byte_at(
                text@,
                b2,
            ) == span.end implies a2 == a && b2 == b by {
            lemma_byte_at_injective(text@, a as int, a2);
            lemma_byte_at_injective(text@, b as int, b2);
        }
        let (wa, wb) = choose|a2: int, b2: int|
            0 <= a2 <= b2 <= text@.len() && #[trigger] byte_at(text@, a2) == span.start && #[trigger] byte_at(
                text@,
                b2,
            ) == span.end;
        lemma_byte_at_injective(text@, a as int, wa);
        lemma_byte_at_injective(text@, b as int, wb);
    }
    splice_inner_range(text, crate::markdown::Span { start: a, end: b }, inner)
}

/// Rebuilds the note with the inner YAML of the frontmatter block between
/// character positions `span.start` and `span.end` replaced by `inner`.
pub(crate) fn splice_inner_range(text: &str, span: crate::markdown::Span, inner: &str) -> (r: String)
    requires
        span.start <= span.end <= text@.len(),
    ensures
        r@ == spec_splice_inner(text@, span.start as int, span.end as int, inner@),
{
    let t = chars_of(text);
    let s = span.start;
    let e = span.end;
    let i = find_char(&t, s, e, '\n');
    let open_end = if i < e {
        i + 1
    } else {
        e
    };
    let ending = line_ending_chars(&t, s, e);
    let mut out = String::new();
    push_range(&mut out, &t, 0, s);
    push_range(&mut out, &t, s, open_end);
    push_str(&mut out, inner);
    push_char(&mut out, '-');
    push_char(&mut out, '-');
    push_char(&mut out, '-');
    crate::text::push_chars(&mut out, &ending);
    push_range(&mut out, &t, e, t.len());
    let ghost f = t@.subrange(s as int, e as int);
    assert(f.take(open_end - s) =~= t@.subrange(s as int, open_end as int));
    assert(out@ =~= spec_splice_inner(text@, s as int, e as int, inner@));
    out
}


/// The line at `p` without its `\n` (a `\r` before it stays).
pub open spec fn content_nl(t: Seq<char>, p: int) -> Seq<char> {
    let e = line_end(t, p);
    if e > p && t[e - 1] == '\n' {
        t.subrange(p, e - 1)
    } else {
        t.subrange(p, e)
    }
}

/// Indented lines and `- ` list items continue the field above them.
pub open spec fn is_continuation(c: Seq<char>) -> bool {
    has_prefix(c, seq![' ']) || has_prefix(c, seq!['\t']) || has_prefix(c, seq!['-', ' '])
}

/// The region scan from line start `p`: `start` is where the field's key
/// line began, once found.
pub open spec fn region_from(t: Seq<char>, key: Seq<char>, p: int, start: Option<int>) -> Option<(int, int)>
    decreases t.len() - p,
{
    if p < 0 || p >= t.len() {
        match start {
            Some(b) => Some((b, t.len() as int)),
            None => None,
        }
    } else {
        proof {
            lemma_line_end(t, p);
        }
        let c = content_nl(t, p);
        match start {
            Some(b) => if trim(c).len() == 0 || !is_continuation(c) {
                Some((b, p))
            } else {
                region_from(t, key, line_end(t, p), start)
            },
            None => if has_prefix(c, key) {
                region_from(t, key, line_end(t, p), Some(p))
            } else {
                region_from(t, key, line_end(t, p), None)
            },
        }
    }
}

/// The range of one field's region in the inner frontmatter: the
/// top-level `name:` line plus its continuation lines, ending at the next
/// key-shaped line, a blank line, or the end of the text.
pub open spec fn spec_field_region(fm: Seq<char>, name: Seq<char>) -> Option<(int, int)> {
    region_from(fm, name.push(':'), 0, None)
}

proof fn lemma_region_from_bounds(t: Seq<char>, key: Seq<char>, p: int, start: Option<int>)
    requires
        0 <= p <= t.len(),
        start matches Some(b) ==> 0 <= b <= p,
    ensures
        region_from(t, key, p, start) matches Some((a, b)) ==> 0 <= a <= b <= t.len(),
    decreases t.len() - p,
{
    if p < t.len() {
        lemma_line_end(t, p);
        let c = content_nl(t, p);
        match start {
            Some(b) => if !(trim(c).len() == 0 || !is_continuation(c)) {
                lemma_region_from_bounds(t, key, line_end(t, p), start);
            },
            None => if has_prefix(c, key) {
                lemma_region_from_bounds(t, key, line_end(t, p), Some(p));
            } else {
                lemma_region_from_bounds(t, key, line_end(t, p), None);
            },
        }
    }
}

fn content_nl_end(t: &Vec<char>, p: usize, e: usize) -> (ce: usize)
    requires
        p < t@.len(),
        e == line_end(t@, p as int),
    ensures
        p <= ce <= e,
        t@.subrange(p as int, ce as int) == content_nl(t@, p as int),
{
    proof {
        lemma_line_end(t@, p as int);
    }
    if e > p && t[e - 1] == '\n' {
        e - 1
    } else {
        e
    }
}

fn is_continuation_exec(t: &Vec<char>, lo: usize, hi: usize) -> (r: bool)
    requires
        lo <= hi <= t@.len(),
    ensures
        r == is_continuation(t@.subrange(lo as int, hi as int)),
{
    let sp = vec![' '];
    let tab = vec!['\t'];
    let item = vec!['-', ' '];
    assert(sp@ =~= seq![' ']);
    assert(tab@ =~= seq!['\t']);
    assert(item@ =~= seq!['-', ' ']);
    crate::text::range_has_prefix(t, lo, hi, &sp) || crate::text::range_has_prefix(t, lo, hi, &tab)
        || crate::text::range_has_prefix(t, lo, hi, &item)
}

/// The field region of `key` (the field name plus `:`) in `t`.
fn field_region_chars(t: &Vec<char>, key: &Vec<char>) -> (r: Option<(usize, usize)>)
    ensures
        match region_from(t@, key@, 0, None) {
            Some((a, b)) => r matches Some((x, y)) && x == a && y == b,
            None => r is None,
        },
        r matches Some((x, y)) ==> x <= y <= t@.len(),
{
    let n = t.len();
    let mut start: Option<usize> = None;
    let mut offset: usize = 0;
    while offset < n
        invariant
            n == t@.len(),
            offset <= n,
            start matches Some(b) ==> b <= offset,
            region_from(t@, key@, offset as int, opt_usize(start)) == region_from(t@, key@, 0, None),
        decreases n - offset,
    {
        proof {
            lemma_line_end(t@, offset as int);
        }
        let e = find_line_end(t, offset);
        let ce = content_nl_end(t, offset, e);
        match start {
            Some(b) => {
                let (a0, b0) = trim_range(t, offset, ce);
                if a0 == b0 || !is_continuation_exec(t, offset, ce) {
                    proof {
                        lemma_region_from_bounds(t@, key@, 0, None);
                    }
                    return Some((b, offset));
                }
            },
            None => {
                if crate::text::range_has_prefix(t, offset, ce, key) {
                    start = Some(offset);
                }
            },
        }
        offset = e;
    }
    proof {
        lemma_region_from_bounds(t@, key@, 0, None);
    }
    match start {
        Some(b) => Some((b, n)),
        None => None,
    }
}

pub open spec fn opt_usize(o: Option<usize>) -> Option<int> {
    match o {
        Some(x) => Some(x as int),
        None => None,
    }
}

/// The byte range of one field's region in the inner frontmatter, if the
/// field is present.
pub fn field_region(fm: &str, name: &str) -> (r: Option<(usize, usize)>)
    ensures
        match spec_field_region(fm@, name@) {
            Some((a, b)) => r matches Some((x, y)) && x == a && y == b,
            None => r is None,
        },
        r matches Some((x, y)) ==> x <= y <= fm@.len(),
{
    let t = chars_of(fm);
    let mut key = chars_of(name);
    key.push(':');
    field_region_chars(&t, &key)
}

pub open spec fn min_nat(a: nat, b: nat) -> nat {
    if a <= b {
        a
    } else {
        b
    }
}

/// Levenshtein distance over characters.
pub open spec fn lev(a: Seq<char>, b: Seq<char>) -> nat
    decreases a.len() + b.len(),
{
    if a.len() == 0 {
        b.len()
    } else if b.len() == 0 {
        a.len()
    } else {
        min_nat(
            min_nat(lev(a.drop_last(), b) + 1, lev(a, b.drop_last()) + 1),
            lev(a.drop_last(), b.drop_last()) + if a.last() == b.last() {
                0nat
            } else {
                1nat
            },
        )
    }
}

proof fn lemma_lev_bound(a: Seq<char>, b: Seq<char>)
    ensures
        lev(a, b) <= a.len() + b.len(),
    decreases a.len() + b.len(),
{
    if a.len() > 0 && b.len() > 0 {
        lemma_lev_bound(a.drop_last(), b);
    }
}

/// `min(lev(a, b), cap)` by the two-row dynamic program.
fn lev_capped(a: &Vec<char>, b: &Vec<char>, cap: usize) -> (r: usize)
    requires
        cap < usize::MAX,
    ensures
        r == min_nat(lev(a@, b@), cap as nat),
{
    let bl = b.len();
    let mut previous: Vec<usize> = Vec::new();
    proof {
        assert(a@.take(0).len() == 0);
    }
    previous.push(0);
    let mut j: usize = 0;
    while j < bl
        invariant
            bl == b@.len(),
            j <= bl,
            previous@.len() == j + 1,
            forall|k: int| 0 <= k <= j ==> #[trigger] previous@[k] == min_nat(lev(a@.take(0), b@.take(k)), cap as nat),
        decreases bl - j,
    {
        proof {
            assert(a@.take(0).len() == 0);
        }
        previous.push(if j + 1 <= cap { j + 1 } else { cap });
        j = j + 1;
    }
    let mut i: usize = 0;
    while i < a.len()
        invariant
            bl == b@.len(),
            cap < usize::MAX,
            i <= a@.len(),
            previous@.len() == bl + 1,
            forall|k: int| 0 <= k <= bl ==> #[trigger] previous@[k] == min_nat(lev(a@.take(i as int), b@.take(k)), cap as nat),
        decreases a@.len() - i,
    {
        let mut current: Vec<usize> = Vec::new();
        proof {
            assert(a@.take(i + 1).len() > 0);
            assert(b@.take(0).len() == 0);
        }
        current.push(if i + 1 <= cap { i + 1 } else { cap });
        let mut k: usize = 0;
        while k < bl
            invariant
                bl == b@.len(),
                cap < usize::MAX,
                i < a@.len(),
                k <= bl,
                previous@.len() == bl + 1,
                current@.len() == k + 1,
                forall|m: int| 0 <= m <= bl ==> #[trigger] previous@[m] == min_nat(lev(a@.take(i as int), b@.take(m)), cap as nat),
                forall|m: int| 0 <= m <= k ==> #[trigger] current@[m] == min_nat(lev(a@.take(i + 1), b@.take(m)), cap as nat),
            decreases bl - k,
        {
            let cost: usize = if a[i] != b[k] { 1 } else { 0 };
            let x = previous[k + 1] + 1;
            let y = current[k] + 1;
            let z = previous[k] + cost;
            let mut v = if x <= y { x } else { y };
            if z < v {
                v = z;
            }
            if v > cap {
                v = cap;
            }
            proof {
                let aa = a@.take(i + 1);
                let bb = b@.take(k + 1);
                assert(aa.drop_last() =~= a@.take(i as int));
                assert(bb.drop_last() =~= b@.take(k as int));
                assert(aa.last() == a@[i as int]);
                assert(bb.last() == b@[k as int]);
                assert(previous@[k + 1] == min_nat(lev(a@.take(i as int), b@.take(k + 1)), cap as nat));
                assert(current@[k as int] == min_nat(lev(a@.take(i + 1), b@.take(k as int)), cap as nat));
                assert(previous@[k as int] == min_nat(lev(a@.take(i as int), b@.take(k as int)), cap as nat));
            }
            current.push(v);
            k = k + 1;
        }
        previous = current;
        i = i + 1;
    }
    proof {
        assert(a@.take(a@.len() as int) =~= a@);
        assert(b@.take(bl as int) =~= b@);
    }
    previous[bl]
}

/// Levenshtein distance over characters.
pub fn edit_distance(a: &str, b: &str) -> (r: usize)
    requires
        a@.len() + b@.len() < usize::MAX,
    ensures
        r == lev(a@, b@),
{
    let av = chars_of(a);
    let bv = chars_of(b);
    proof {
        lemma_lev_bound(a@, b@);
    }
    lev_capped(&av, &bv, av.len() + bv.len())
}

/// What `str::to_lowercase` returns for the characters of `s`.
pub uninterp spec fn spec_to_lowercase(s: Seq<char>) -> Seq<char>;

/// `str::to_lowercase`: full Unicode lowercase mapping. The contract names
/// the result and says nothing more of it.
#[verifier::external_body]
fn to_lowercase(s: &str) -> (r: String)
    ensures
        r@ == spec_to_lowercase(s@),
{
    s.to_lowercase()
}

/// A top-level key named on line `c`: not indented or a list item, the
/// text before the first `:` (trimmed, non-empty), and not a `::`.
pub open spec fn line_key(c: Seq<char>) -> Option<Seq<char>> {
    if has_prefix(c, seq![' ']) || has_prefix(c, seq!['\t']) || has_prefix(c, seq!['-']) {
        None
    } else if index_of(c, ':') < c.len() && !has_prefix(c.skip(index_of(c, ':') + 1), seq![':'])
        && trim(c.take(index_of(c, ':'))).len() > 0 {
        Some(trim(c.take(index_of(c, ':'))))
    } else {
        None
    }
}

/// The keys named on the lines from `p` on, in order.
pub open spec fn keys_from(t: Seq<char>, p: int) -> Seq<Seq<char>>
    decreases t.len() - p,
{
    if p < 0 || p >= t.len() {
        Seq::empty()
    } else {
        proof {
            lemma_line_end(t, p);
        }
        match line_key(content_nl(t, p)) {
            Some(k) => seq![k] + keys_from(t, line_end(t, p)),
            None => keys_from(t, line_end(t, p)),
        }
    }
}

/// The first key at the smallest distance from `needle` among those at
/// distance at most 2, scanning from `i` with the best so far.
pub open spec fn best_key(keys: Seq<Seq<char>>, needle: Seq<char>, i: int, best: Option<(Seq<char>, nat)>) -> Option<Seq<char>>
    decreases keys.len() - i,
{
    if i < 0 || i >= keys.len() {
        match best {
            Some((k, _)) => Some(k),
            None => None,
        }
    } else {
        let d = lev(needle, spec_to_lowercase(keys[i]));
        let next = if d <= 2 && (best matches Some((_, bd)) ==> d < bd) {
            Some((keys[i], d))
        } else {
            best
        };
        best_key(keys, needle, i + 1, next)
    }
}

/// The closest existing top-level key to `name` (case-insensitive edit
/// distance at most 2; the first of the closest on ties).
pub open spec fn spec_closest_key(fm: Seq<char>, name: Seq<char>) -> Option<Seq<char>> {
    best_key(keys_from(fm, 0), spec_to_lowercase(name), 0, None)
}

/// The key named on the line `t[lo..hi]`, if any, as a range.
fn line_key_range(t: &Vec<char>, lo: usize, hi: usize) -> (r: Option<(usize, usize)>)
    requires
        lo <= hi <= t@.len(),
    ensures
        match line_key(t@.subrange(lo as int, hi as int)) {
            Some(k) => r matches Some((a, b)) && lo <= a <= b <= hi && t@.subrange(a as int, b as int) == k,
            None => r is None,
        },
{
    let ghost c = t@.subrange(lo as int, hi as int);
    let sp = vec![' '];
    let tab = vec!['\t'];
    let dash = vec!['-'];
    let colon = vec![':'];
    assert(sp@ =~= seq![' ']);
    assert(tab@ =~= seq!['\t']);
    assert(dash@ =~= seq!['-']);
    assert(colon@ =~= seq![':']);
    if crate::text::range_has_prefix(t, lo, hi, &sp) || crate::text::range_has_prefix(t, lo, hi, &tab)
        || crate::text::range_has_prefix(t, lo, hi, &dash) {
        return None;
    }
    let i = find_char(t, lo, hi, ':');
    if i >= hi {
        return None;
    }
    assert(c.skip(i - lo + 1) =~= t@.subrange(i + 1, hi as int));
    if crate::text::range_has_prefix(t, i + 1, hi, &colon) {
        return None;
    }
    assert(c.take(i - lo) =~= t@.subrange(lo as int, i as int));
    let (a, b) = trim_range(t, lo, i);
    if a == b {
        return None;
    }
    Some((a, b))
}

/// The closest existing top-level key to a missing field name, for the
/// "did you mean" suggestion.
pub fn closest_key(fm: &str, name: &str) -> (r: Option<String>)
    ensures
        match spec_closest_key(fm@, name@) {
            Some(k) => r matches Some(s) && s@ == k,
            None => r is None,
        },
{
    let t = chars_of(fm);
    let n = t.len();
    let needle_s = to_lowercase(name);
    let needle = chars_of(needle_s.as_str());
    let mut best: Option<(String, usize)> = None;
    let mut offset: usize = 0;
    let ghost keys = keys_from(t@, 0);
    let ghost mut seen: int = 0;
    while offset < n
        invariant
            n == t@.len(),
            offset <= n,
            needle@ == spec_to_lowercase(name@),
            keys == keys_from(t@, 0),
            0 <= seen <= keys.len(),
            keys.skip(seen) == keys_from(t@, offset as int),
            best_key(keys, needle@, seen, opt_best(best)) == best_key(keys, needle@, 0, None),
            best matches Some((_, d)) ==> d <= 2,
        decreases n - offset,
    {
        proof {
            lemma_line_end(t@, offset as int);
        }
        let e = find_line_end(&t, offset);
        let ce = content_nl_end(&t, offset, e);
        match line_key_range(&t, offset, ce) {
            Some((a, b)) => {
                let key = string_of_range(&t, a, b);
                let lower = to_lowercase(key.as_str());
                let lv = chars_of(lower.as_str());
                let d = lev_capped(&needle, &lv, 3);
                proof {
                    let kf = keys_from(t@, offset as int);
                    assert(kf == seq![key@] + keys_from(t@, e as int));
                    assert(kf.len() > 0);
                    assert(keys.skip(seen).len() == keys.len() - seen);
                    assert(seen < keys.len());
                    assert(keys.skip(seen)[0] == keys[seen]);
                    assert(keys[seen] == key@);
                    assert(keys.skip(seen + 1) =~= keys.skip(seen).skip(1));
                    assert(keys_from(t@, offset as int).skip(1) =~= keys_from(t@, e as int));
                }
                let better = match &best {
                    Some((_, bd)) => d < *bd,
                    None => true,
                };
                if d <= 2 && better {
                    best = Some((key, d));
                }
                proof {
                    seen = seen + 1;
                }
            },
            None => {},
        }
        offset = e;
    }
    proof {
        assert(keys.skip(seen).len() == 0);
    }
    match best {
        Some((k, _)) => Some(k),
        None => None,
    }
}

pub open spec fn opt_best(b: Option<(String, usize)>) -> Option<(Seq<char>, nat)> {
    match b {
        Some((k, d)) => Some((k@, d as nat)),
        None => None,
    }
}


pub open spec fn is_single_line(v: Seq<char>) -> bool {
    !has_char(v, '\n') && !has_char(v, '\r') && !has_char(v, '\0')
}

/// Why a value can't be written, if it can't: strings and olinks are
/// single-line, an olink is a bare name or a full `[[...]]` link, and a
/// list is as valid as its first invalid item.
pub open spec fn spec_invalid_reason(f: Field) -> Option<Seq<char>>
    decreases f,
{
    match f {
        Field::Str(v) => if !is_single_line(v@) {
            Some("strings must be a single line"@)
        } else {
            None
        },
        Field::Olink(v) => if !is_single_line(v@) {
            Some("olink values must be a single line"@)
        } else if !((!has_char(v@, '[') && !has_char(v@, ']')) || (has_prefix(v@, seq!['[', '['])
            && crate::text::has_suffix(v@, seq![']', ']']))) {
            Some("an olink is a bare name or a full [[path|alias]] link"@)
        } else {
            None
        },
        Field::List(items) => first_invalid(items@),
        _ => None,
    }
}

pub open spec fn first_invalid(items: Seq<Field>) -> Option<Seq<char>>
    decreases items,
{
    if items.len() == 0 {
        None
    } else {
        match spec_invalid_reason(items[0]) {
            Some(r) => Some(r),
            None => first_invalid(items.drop_first()),
        }
    }
}

fn single_line(v: &Vec<char>) -> (r: bool)
    ensures
        r == is_single_line(v@),
{
    let n = v.len();
    assert(v@.subrange(0, n as int) =~= v@);
    !range_has_char(v, 0, n, '\n') && !range_has_char(v, 0, n, '\r') && !range_has_char(v, 0, n, '\0')
}

/// The reason `field` can't be written, if it can't.
fn invalid_reason(field: &Field) -> (r: Option<String>)
    ensures
        match spec_invalid_reason(*field) {
            Some(x) => r matches Some(s) && s@ == x,
            None => r is None,
        },
    decreases field,
{
    match field {
        Field::Str(v) => {
            let vv = chars_of(v.as_str());
            if !single_line(&vv) {
                Some(String::from_str("strings must be a single line"))
            } else {
                None
            }
        },
        Field::Olink(v) => {
            let vv = chars_of(v.as_str());
            let n = vv.len();
            assert(vv@.subrange(0, n as int) =~= vv@);
            if !single_line(&vv) {
                return Some(String::from_str("olink values must be a single line"));
            }
            let bare = !range_has_char(&vv, 0, n, '[') && !range_has_char(&vv, 0, n, ']');
            let open = vec!['[', '['];
            let close = vec![']', ']'];
            assert(open@ =~= seq!['[', '[']);
            assert(close@ =~= seq![']', ']']);
            let starts = crate::text::range_has_prefix(&vv, 0, n, &open);
            let ends = n >= 2 && range_eq(&vv, n - 2, n, &close);
            assert(ends == crate::text::has_suffix(vv@, seq![']', ']'])) by {
                if n >= 2 {
                    assert(vv@.skip(n - 2) =~= vv@.subrange(n - 2, n as int));
                }
            }
            if !(bare || (starts && ends)) {
                Some(String::from_str("an olink is a bare name or a full [[path|alias]] link"))
            } else {
                None
            }
        },
        Field::List(items) => {
            let mut i: usize = 0;
            assert(items@.skip(0) =~= items@);
            while i < items.len()
                invariant
                    i <= items@.len(),
                    *field == Field::List(*items),
                    first_invalid(items@) == first_invalid(items@.skip(i as int)),
                decreases items@.len() - i,
            {
                proof {
                    assert(decreases_to!(*field => (*field)->List_0));
                    assert((*field)->List_0 == *items);
                    assert(decreases_to!(*items => items@));
                    assert(decreases_to!(items@ => items@[i as int]));
                    assert(items@.skip(i as int)[0] == items@[i as int]);
                    assert(items@.skip(i as int).drop_first() =~= items@.skip(i + 1));
                }
                match invalid_reason(&items[i]) {
                    Some(r) => {
                        return Some(r);
                    },
                    None => {},
                }
                i = i + 1;
            }
            None
        },
        _ => None,
    }
}

/// Validates a field's value for its emission type before it is written.
pub fn validate_field(name: &str, field: &Field) -> (r: Result<(), VaultError>)
    ensures
        match spec_invalid_reason(*field) {
            Some(x) => r matches Err(VaultError::InvalidFieldValue { field: f, reason }) && f@
                == name@ && reason@ == x,
            None => r is Ok,
        },
{
    match invalid_reason(field) {
        Some(reason) => Err(VaultError::InvalidFieldValue { field: String::from_str(name), reason }),
        None => Ok(()),
    }
}

pub open spec fn opt_string_view(o: Option<String>) -> Option<Seq<char>> {
    match o {
        Some(s) => Some(s@),
        None => None,
    }
}

/// The inner frontmatter with the region of `name` replaced by the
/// rendered field, keeping the region's own line ending.
pub open spec fn spec_replace_region(fm: Seq<char>, name: Seq<char>, f: Field, a: int, b: int) -> Seq<char> {
    let eol = spec_line_ending(fm.take(b));
    fm.take(a) + spec_render_field(name, f, eol) + eol + fm.skip(b)
}

/// Sets an existing frontmatter field: replaces its region (key line
/// through continuation lines) with `name: <value>`. A missing field is an
/// error carrying the closest existing key, so a misspelled name never
/// becomes a new field.
pub fn set_field(fm: &str, name: &str, field: &Field) -> (r: Result<String, VaultError>)
    ensures
        match spec_invalid_reason(*field) {
            Some(x) => r matches Err(VaultError::InvalidFieldValue { field: f, reason }) && f@
                == name@ && reason@ == x,
            None => match spec_field_region(fm@, name@) {
                Some((a, b)) => r matches Ok(out) && out@ == spec_replace_region(fm@, name@, *field, a, b),
                None => r matches Err(VaultError::FieldNotFound { field: f, suggestion }) && f@
                    == name@ && opt_string_view(suggestion) == spec_closest_key(fm@, name@),
            },
        },
{
    validate_field(name, field)?;
    let region = field_region(fm, name);
    match region {
        None => {
            let suggestion = closest_key(fm, name);
            Err(VaultError::FieldNotFound { field: String::from_str(name), suggestion })
        },
        Some((a, b)) => {
            let t = chars_of(fm);
            let eol_v = line_ending_chars(&t, 0, b);
            let eol = string_of_range(&eol_v, 0, eol_v.len());
            assert(eol_v@.subrange(0, eol_v@.len() as int) =~= eol_v@);
            assert(t@.subrange(0, b as int) =~= fm@.take(b as int));
            let rendered = render_field(name, field, eol.as_str());
            let mut out = String::new();
            push_range(&mut out, &t, 0, a);
            push_str(&mut out, rendered.as_str());
            push_str(&mut out, eol.as_str());
            push_range(&mut out, &t, b, t.len());
            assert(out@ =~= spec_replace_region(fm@, name@, *field, a as int, b as int));
            Ok(out)
        },
    }
}

/// The inner frontmatter with `name: <value>` appended as a new last
/// line, in the text's own line ending.
pub open spec fn spec_append_field(fm: Seq<char>, name: Seq<char>, f: Field) -> Seq<char> {
    let eol = if has_suffix(fm, seq!['\r', '\n']) {
        seq!['\r', '\n']
    } else {
        seq!['\n']
    };
    let sep = if fm.len() > 0 && !has_suffix(fm, seq!['\n']) {
        eol
    } else {
        Seq::empty()
    };
    fm + sep + spec_render_field(name, f, eol) + eol
}

/// Appends a field at the end of the inner frontmatter; the caller makes
/// sure the field is absent.
pub fn append_field(fm: &str, name: &str, field: &Field) -> (r: Result<String, VaultError>)
    ensures
        match spec_invalid_reason(*field) {
            Some(x) => r matches Err(VaultError::InvalidFieldValue { field: f, reason }) && f@
                == name@ && reason@ == x,
            None => r matches Ok(out) && out@ == spec_append_field(fm@, name@, *field),
        },
{
    validate_field(name, field)?;
    let t = chars_of(fm);
    let n = t.len();
    assert(t@.subrange(0, n as int) =~= t@);
    let crlf = vec!['\r', '\n'];
    let lf = vec!['\n'];
    assert(crlf@ =~= seq!['\r', '\n']);
    assert(lf@ =~= seq!['\n']);
    let eol_v = if suffix_is(&t, 0, n, &crlf) {
        crlf
    } else {
        lf
    };
    let lf2 = vec!['\n'];
    assert(lf2@ =~= seq!['\n']);
    let ends_nl = suffix_is(&t, 0, n, &lf2);
    let eol = string_of_range(&eol_v, 0, eol_v.len());
    assert(eol_v@.subrange(0, eol_v@.len() as int) =~= eol_v@);
    let mut out = String::from_str(fm);
    if n > 0 && !ends_nl {
        push_str(&mut out, eol.as_str());
    }
    let rendered = render_field(name, field, eol.as_str());
    push_str(&mut out, rendered.as_str());
    push_str(&mut out, eol.as_str());
    assert(out@ =~= spec_append_field(fm@, name@, *field));
    Ok(out)
}

/// Sets the field when it exists, appends it at the end when it doesn't.
pub fn set_or_append_field(fm: &str, name: &str, field: &Field) -> (r: Result<String, VaultError>)
    ensures
        match spec_invalid_reason(*field) {
            Some(x) => r matches Err(VaultError::InvalidFieldValue { field: f, reason }) && f@
                == name@ && reason@ == x,
            None => match spec_field_region(fm@, name@) {
                Some((a, b)) => r matches Ok(out) && out@ == spec_replace_region(fm@, name@, *field, a, b),
                None => r matches Ok(out) && out@ == spec_append_field(fm@, name@, *field),
            },
        },
{
    match set_field(fm, name, field) {
        Ok(out) => Ok(out),
        Err(err) => match err {
            VaultError::FieldNotFound { .. } => append_field(fm, name, field),
            _ => Err(err),
        },
    }
}

/// A read-only projection of the frontmatter fields ocli consumes; other
/// fields are ignored.
#[derive(Debug)]
pub struct Frontmatter {
    pub description: Option<String>,
    pub status: Option<Status>,
    pub repo: Option<String>,
    pub done: Option<bool>,
}

/// The frontmatter projection as plain values.
pub struct FrontmatterView {
    pub description: Option<Seq<char>>,
    pub status: Option<StatusView>,
    pub repo: Option<Seq<char>>,
    pub done: Option<bool>,
}

impl View for Frontmatter {
    type V = FrontmatterView;

    open spec fn view(&self) -> FrontmatterView {
        FrontmatterView {
            description: opt_string_view(self.description),
            status: match self.status {
                Some(s) => Some(s@),
                None => None,
            },
            repo: opt_string_view(self.repo),
            done: self.done,
        }
    }
}

/// `set_or_append_field`'s result, `None` when the value is refused.
pub open spec fn spec_set_or_append(fm: Seq<char>, name: Seq<char>, f: Field) -> Option<Seq<char>> {
    match spec_invalid_reason(f) {
        Some(_) => None,
        None => Some(
            match spec_field_region(fm, name) {
                Some((a, b)) => spec_replace_region(fm, name, f, a, b),
                None => spec_append_field(fm, name, f),
            },
        ),
    }
}

/// The frontmatter block closes with the line at `q`, a `---` line
/// after the opening one, ending at `e`.
pub open spec fn closes_at(t: Seq<char>, q: int, e: int) -> bool {
    &&& line_end(t, 0) <= q < t.len()
    &&& line_content(t, q) == dashes()
    &&& line_end(t, q) == e
}

/// Some `---` line after the opening one closes the block at `e`.
pub open spec fn closes(t: Seq<char>, e: int) -> bool {
    exists|q: int| #[trigger] closes_at(t, q, e)
}

/// What a scan knows of the frontmatter block: lines after the first
/// start past it, and a closed block opened with a `---` line and closed
/// at a later `---` line.
pub open spec fn frontmatter_inv(t: Seq<char>, p: int, s: ScanState) -> bool {
    &&& 0 <= p <= t.len()
    &&& (p == 0 || (t.len() > 0 && line_end(t, 0) <= p))
    &&& (s.in_frontmatter || s.frontmatter_end is Some) ==> starts_with_delimiter(t)
    &&& s.in_frontmatter ==> s.frontmatter_end is None
    &&& s.frontmatter_end matches Some(e) ==> closes(t, e)
}

proof fn lemma_frontmatter_scan(t: Seq<char>, p: int, s: ScanState)
    requires
        frontmatter_inv(t, p, s),
    ensures
        frontmatter_inv(t, t.len() as int, scan(t, p, s)),
    decreases t.len() - p,
{
    if p < t.len() {
        lemma_line_end(t, p);
        lemma_line_end(t, 0);
        let s2 = step(t, p, s);
        let q = line_end(t, p);
        assert(t.len() > 0 && line_end(t, 0) <= q);
        if s.in_frontmatter {
            if p != 0 && line_content(t, p) == dashes() {
                assert(s2.frontmatter_end == Some(q));
                assert(closes_at(t, p, q));
                assert(closes(t, q));
            } else {
                assert(s2 == s);
            }
        } else {
            assert(s2.frontmatter_end == s.frontmatter_end);
            assert(s2.in_frontmatter == s.in_frontmatter);
            if let Some(e) = s.frontmatter_end {
                assert(closes(t, e));
            }
        }
        assert(0 <= q <= t.len());
        assert((s2.in_frontmatter || s2.frontmatter_end is Some) ==> starts_with_delimiter(t));
        assert(s2.in_frontmatter ==> s2.frontmatter_end is None);
        assert(frontmatter_inv(t, q, s2));
        lemma_frontmatter_scan(t, q, s2);
    }
}

/// Splicing the unchanged inner YAML back gives the note back: for a
/// parsed frontmatter block, [`splice_inner`] inverts [`inner_yaml`].
#[verifier::rlimit(50)]
pub proof fn lemma_splice_inverts_inner(t: Seq<char>)
    requires
        spec_parse(t).frontmatter is Some,
    ensures
        ({
            let (s, e) = spec_parse(t).frontmatter->0;
            spec_splice_inner(t, s, e, spec_inner_yaml(t.subrange(s, e))) == t
        }),
{
    let s0 = initial_state(t);
    assert(frontmatter_inv(t, 0, s0));
    lemma_frontmatter_scan(t, 0, s0);
    let fin = scan(t, 0, s0);
    let e = fin.frontmatter_end->0;
    assert(spec_parse(t).frontmatter == Some((0int, e)));
    assert(closes(t, e));
    let q = choose|q: int| #[trigger] closes_at(t, q, e);
    lemma_line_end(t, 0);
    lemma_line_end(t, q);
    let open_end = line_end(t, 0);
    let f = t.subrange(0, e);
    // The opening line is `---` and a line feed, with or without a `\r`.
    assert(t[0] == '-' && t[1] == '-' && t[2] == '-');
    if t[3] == '\n' {
        assert(line_end(t, 3) == 4);
        assert(line_end(t, 2) == 4);
        assert(line_end(t, 1) == 4);
    } else {
        assert(t[3] == '\r' && t[4] == '\n');
        assert(line_end(t, 4) == 5);
        assert(line_end(t, 3) == 5);
        assert(line_end(t, 2) == 5);
        assert(line_end(t, 1) == 5);
    }
    crate::text::lemma_index_of_from(f, '\n', 0);
    assert(index_of(f, '\n') == open_end - 1) by {
        if index_of(f, '\n') < open_end - 1 {
            assert(f[index_of(f, '\n')] == '\n');
        }
        assert(f[open_end - 1] == '\n');
    }
    let after = f.skip(open_end);
    assert(after_first_line(f) == after);
    let tail = t.subrange(q, e);
    let term = tail.skip(3);
    assert(tail.take(3) =~= dashes()) by {
        if e > q && t[e - 1] == '\n' {
            if t.subrange(q, e - 1).len() > 0 && t.subrange(q, e - 1).last() == '\r' {
                assert(t.subrange(q, e - 1).drop_last() =~= t.subrange(q, e - 2));
            }
        }
    }
    assert(f =~= f.take(open_end) + t.subrange(open_end, q) + dashes() + term);
    assert(after =~= t.subrange(open_end, q) + dashes() + term);
    if e > q && t[e - 1] == '\n' {
        if t.subrange(q, e - 1).len() > 0 && t.subrange(q, e - 1).last() == '\r' {
            assert(term =~= seq!['\r', '\n']);
            assert(after.skip(after.len() - 5) =~= crlf_dashes());
            assert(has_suffix(after, crlf_dashes()));
            assert(f.skip(f.len() - 2) =~= seq!['\r', '\n']);
            assert(after.take(after.len() - 5) =~= t.subrange(open_end, q));
            assert(spec_line_ending(f) == seq!['\r', '\n']);
        } else {
            assert(term =~= seq!['\n']);
            assert(!has_suffix(after, crlf_dashes())) by {
                if after.len() >= 5 {
                    assert(after[after.len() - 2] == '-');
                    assert(after.skip(after.len() - 5)[3] == after[after.len() - 2]);
                }
            }
            assert(after.skip(after.len() - 4) =~= lf_dashes());
            assert(has_suffix(after, lf_dashes()));
            assert(f.skip(f.len() - 1) =~= seq!['\n']);
            assert(f.skip(f.len() - 2)[0] == '-');
            assert(after.take(after.len() - 4) =~= t.subrange(open_end, q));
            assert(spec_line_ending(f) == seq!['\n']);
        }
    } else {
        assert(term =~= Seq::<char>::empty());
        assert(after.last() == '-');
        assert(!has_suffix(after, crlf_dashes()));
        assert(!has_suffix(after, lf_dashes()));
        assert(after.skip(after.len() - 3) =~= dashes());
        assert(has_suffix(after, dashes()));
        assert(f.last() == '-');
        assert(f.skip(f.len() - 1)[0] == '-');
        assert(!has_suffix(f, seq!['\r', '\n'])) by {
            if f.len() >= 2 {
                assert(f.skip(f.len() - 2)[1] == '-');
            }
        }
        assert(after.take(after.len() - 3) =~= t.subrange(open_end, q));
        assert(spec_line_ending(f) =~= Seq::<char>::empty());
    }
    assert(spec_splice_inner(t, 0, e, spec_inner_yaml(f)) =~= t);
}

/// A frontmatter block starts at 0 and opens with a `---` line.
proof fn lemma_opening_line(t: Seq<char>)
    requires
        spec_parse(t).frontmatter is Some,
    ensures
        ({
            let (s, e) = spec_parse(t).frontmatter->0;
            let f = t.subrange(s, e);
            &&& s == 0
            &&& f.take(opening_end(f)) == lf_dashes() || f.take(opening_end(f)) == crlf_dashes()
        }),
{
    lemma_frontmatter_block(t);
    lemma_parse_layout(t);
    let (s, e) = spec_parse(t).frontmatter->0;
    let f = t.subrange(s, e);
    let q = choose|q: int| #[trigger] closing_line(t, q) && e == line_end(t, q) && forall|q2: int|
        closing_line(t, q2) ==> q <= q2;
    lemma_line_end(t, q);
    let n: int = if t[3] == '\n' {
        3
    } else {
        4
    };
    assert(t[n] == '\n');
    assert(q - 1 >= n) by {
        if q - 1 < n {
            assert(t[q - 1] == '\n');
        }
    }
    crate::text::lemma_index_of_from(f, '\n', 0);
    assert(index_of(f, '\n') == n) by {
        if index_of(f, '\n') < n {
            assert(f[index_of(f, '\n')] == t[index_of(f, '\n')]);
        }
        assert(f[n] == '\n');
    }
    if n == 3 {
        assert(f.take(4) =~= lf_dashes());
    } else {
        assert(f.take(5) =~= crlf_dashes());
    }
}

/// A frontmatter block is its opening `---` line (ended by `\n` or
/// `\r\n`), its inner YAML, and its closing `---` line with the block's
/// own line ending, none when the text ends there: [`inner_yaml`] takes
/// out exactly the text between the two delimiter lines.
pub proof fn lemma_inner_yaml_split(t: Seq<char>)
    requires
        spec_parse(t).frontmatter is Some,
    ensures
        ({
            let (s, e) = spec_parse(t).frontmatter->0;
            let f = t.subrange(s, e);
            &&& f.take(opening_end(f)) == lf_dashes() || f.take(opening_end(f)) == crlf_dashes()
            &&& f == f.take(opening_end(f)) + spec_inner_yaml(f) + dashes() + spec_line_ending(f)
        }),
{
    lemma_splice_inverts_inner(t);
    lemma_opening_line(t);
    lemma_parse_layout(t);
    let (s, e) = spec_parse(t).frontmatter->0;
    let f = t.subrange(s, e);
    let whole = f.take(opening_end(f)) + spec_inner_yaml(f) + dashes() + spec_line_ending(f);
    assert(t == whole + t.skip(e));
    assert(0 <= e <= t.len());
    assert(t.len() == whole.len() + t.skip(e).len());
    assert(f =~= t.take(e));
    assert(whole.len() == e);
    assert(f =~= whole);
}

/// Inside a copy of `w` at `a` in `u`, where `w` ends with a line feed,
/// lines end and read as they do in `w`.
proof fn lemma_line_within(u: Seq<char>, a: int, w: Seq<char>, k: int)
    requires
        0 <= a,
        a + w.len() <= u.len(),
        u.subrange(a, a + w.len()) == w,
        w.len() > 0,
        w.last() == '\n',
        0 <= k < w.len(),
    ensures
        line_end(u, a + k) == a + line_end(w, k),
        line_content(u, a + k) == line_content(w, k),
    decreases w.len() - k,
{
    assert(u[a + k] == w[k]);
    if w[k] != '\n' {
        lemma_line_within(u, a, w, k + 1);
    }
    lemma_line_end(w, k);
    let e = line_end(w, k);
    assert(u[a + e - 1] == w[e - 1]);
    assert(u.subrange(a + k, a + e - 1) =~= w.subrange(k, e - 1));
    assert(u.subrange(a + k, a + e) =~= w.subrange(k, e));
}

/// No line of `inner` is a `---` line.
pub open spec fn no_delimiter_line(inner: Seq<char>) -> bool {
    forall|k: int| 0 <= k < inner.len() && is_line_start(inner, k) ==> line_content(inner, k) != dashes()
}

/// A line ending: `\n`, `\r\n`, or none.
pub open spec fn is_line_ending(l: Seq<char>) -> bool {
    l == seq!['\n'] || l == seq!['\r', '\n'] || l.len() == 0
}

/// In a text made of an opening `---` line, `inner`, a `---` line ended by
/// `l` and `rest`, the `---` after `inner` is the first line after the
/// opening one that is `---`.
proof fn lemma_block_closes_after_inner(o: Seq<char>, inner: Seq<char>, l: Seq<char>, rest: Seq<char>)
    requires
        o == lf_dashes() || o == crlf_dashes(),
        inner.len() == 0 || inner.last() == '\n',
        no_delimiter_line(inner),
        is_line_ending(l),
        l.len() == 0 ==> rest.len() == 0,
    ensures
        ({
            let u = o + inner + dashes() + l + rest;
            let c = (o.len() + inner.len()) as int;
            &&& starts_with_delimiter(u)
            &&& closing_line(u, c)
            &&& line_end(u, c) == c + 3 + l.len()
            &&& forall|q2: int| 0 < q2 < c ==> !#[trigger] closing_line(u, q2)
        }),
{
    let u = o + inner + dashes() + l + rest;
    let c = (o.len() + inner.len()) as int;
    if o == lf_dashes() {
        assert(u.take(4) =~= seq!['-', '-', '-', '\n']);
    } else {
        assert(u.take(5) =~= seq!['-', '-', '-', '\r', '\n']);
    }
    if inner.len() > 0 {
        assert(u[c - 1] == inner.last());
    } else {
        assert(u[c - 1] == o.last());
    }
    assert(u[c] == '-' && u[c + 1] == '-' && u[c + 2] == '-');
    let e2: int = c + 3 + l.len();
    if l.len() == 0 {
        assert(u.len() == c + 3);
        assert(line_end(u, c + 3) == c + 3);
        assert(u.subrange(c, c + 3) =~= dashes());
    } else if l.len() == 1 {
        assert(u[c + 3] == '\n');
        assert(line_end(u, c + 3) == c + 4);
        assert(u.subrange(c, c + 3) =~= dashes());
    } else {
        assert(u[c + 3] == '\r' && u[c + 4] == '\n');
        assert(line_end(u, c + 4) == c + 5);
        assert(line_end(u, c + 3) == c + 5);
        assert(u.subrange(c, c + 4).drop_last() =~= dashes());
    }
    assert(line_end(u, c + 2) == e2);
    assert(line_end(u, c + 1) == e2);
    assert(line_end(u, c) == e2);
    assert(line_content(u, c) == dashes());
    assert(closing_line(u, c));
    assert forall|q2: int| 0 < q2 < c implies !#[trigger] closing_line(u, q2) by {
        if q2 < o.len() {
            assert(u[q2 - 1] == o[q2 - 1]);
        } else {
            let k = q2 - o.len();
            assert(u.subrange(o.len() as int, c) =~= inner);
            lemma_line_within(u, o.len() as int, inner, k);
            if k > 0 {
                assert(inner[k - 1] == u[q2 - 1]);
            }
            if is_line_start(u, q2) {
                assert(is_line_start(inner, k));
            }
        }
    }
}

/// The inner YAML of a block made of an opening `---` line, `inner` and a
/// `---` line ended by `l` is `inner`.
proof fn lemma_inner_of_block(o: Seq<char>, inner: Seq<char>, l: Seq<char>)
    requires
        o == lf_dashes() || o == crlf_dashes(),
        is_line_ending(l),
    ensures
        spec_inner_yaml(o + inner + dashes() + l) == inner,
{
    let f2 = o + inner + dashes() + l;
    crate::text::lemma_index_of_from(f2, '\n', 0);
    assert(index_of(f2, '\n') == o.len() - 1) by {
        if index_of(f2, '\n') < o.len() - 1 {
            assert(f2[index_of(f2, '\n')] == o[index_of(f2, '\n')]);
        }
        assert(f2[o.len() - 1] == '\n');
    }
    let after = inner + dashes() + l;
    assert(after_first_line(f2) =~= after);
    if l.len() == 2 {
        assert(after.skip(after.len() - 5) =~= crlf_dashes());
        assert(after.take(after.len() - 5) =~= inner);
    } else if l.len() == 1 {
        assert(!has_suffix(after, crlf_dashes())) by {
            if after.len() >= 5 {
                assert(after.skip(after.len() - 5)[3] == after[after.len() - 2]);
            }
        }
        assert(after.skip(after.len() - 4) =~= lf_dashes());
        assert(after.take(after.len() - 4) =~= inner);
    } else {
        assert(!has_suffix(after, crlf_dashes())) by {
            if after.len() >= 5 {
                assert(after.skip(after.len() - 5)[4] == after.last());
            }
        }
        assert(!has_suffix(after, lf_dashes())) by {
            if after.len() >= 4 {
                assert(after.skip(after.len() - 4)[3] == after.last());
            }
        }
        assert(after.skip(after.len() - 3) =~= dashes());
        assert(after.take(after.len() - 3) =~= inner);
    }
}

/// Splicing new inner YAML into a note and parsing it again finds that
/// YAML: when `inner` is empty or ends its last line, and has no `---`
/// line of its own, the spliced note's frontmatter block is the same
/// opening line, `inner`, and the same closing line, and the rest of the
/// note follows it unchanged.
#[verifier::rlimit(60)]
pub proof fn lemma_splice_reads_back(t: Seq<char>, inner: Seq<char>)
    requires
        spec_parse(t).frontmatter is Some,
        inner.len() == 0 || inner.last() == '\n',
        no_delimiter_line(inner),
    ensures
        ({
            let (s, e) = spec_parse(t).frontmatter->0;
            let u = spec_splice_inner(t, s, e, inner);
            spec_parse(u).frontmatter matches Some((s2, e2)) && s2 == 0 && spec_inner_yaml(u.subrange(s2, e2))
                == inner && u.skip(e2) == t.skip(e)
        }),
{
    lemma_inner_yaml_split(t);
    lemma_frontmatter_block(t);
    lemma_parse_layout(t);
    let (s, e) = spec_parse(t).frontmatter->0;
    let f = t.subrange(s, e);
    let o = f.take(opening_end(f));
    let l = spec_line_ending(f);
    let rest = t.skip(e);
    let u = spec_splice_inner(t, s, e, inner);
    assert(u =~= o + inner + dashes() + l + rest);
    assert(is_line_ending(l));
    if l.len() == 0 {
        let q = choose|q: int| #[trigger] closing_line(t, q) && e == line_end(t, q) && forall|q2: int|
            closing_line(t, q2) ==> q <= q2;
        lemma_line_end(t, q);
        assert(e == t.len()) by {
            if e < t.len() {
                assert(t[e - 1] == '\n');
                assert(f.skip(f.len() - 1) =~= seq!['\n']);
            }
        }
    }
    lemma_block_closes_after_inner(o, inner, l, rest);
    let c = (o.len() + inner.len()) as int;
    let e2: int = c + 3 + l.len();
    lemma_frontmatter_block(u);
    let block = spec_parse(u).frontmatter->0;
    let c2 = choose|q: int| #[trigger] closing_line(u, q) && block.1 == line_end(u, q)
        && forall|q3: int| closing_line(u, q3) ==> q <= q3;
    assert(c2 == c) by {
        if c2 < c {
            assert(!closing_line(u, c2));
        }
    }
    assert(spec_parse(u).frontmatter == Some((0int, e2)));
    assert(u.subrange(0, e2) =~= o + inner + dashes() + l);
    lemma_inner_of_block(o, inner, l);
    assert(u.skip(e2) =~= rest);
}

/// The line at `q` of `t` starts with `key`.
pub open spec fn key_line(t: Seq<char>, key: Seq<char>, q: int) -> bool {
    &&& 0 <= q < t.len()
    &&& is_line_start(t, q)
    &&& has_prefix(content_nl(t, q), key)
}

/// The line at `q` of `t` ends a field's region: it is blank or does not
/// continue the field.
pub open spec fn ends_region(t: Seq<char>, q: int) -> bool {
    &&& 0 <= q < t.len()
    &&& is_line_start(t, q)
    &&& (trim(content_nl(t, q)).len() == 0 || !is_continuation(content_nl(t, q)))
}

proof fn lemma_region_end(t: Seq<char>, key: Seq<char>, p: int, a: int)
    requires
        0 <= a < p <= t.len(),
        p == t.len() || is_line_start(t, p),
    ensures
        region_from(t, key, p, Some(a)) matches Some((a2, b)) && a2 == a && p <= b && (b == t.len() || ends_region(
            t,
            b,
        )) && forall|q: int| p <= q < b ==> !#[trigger] ends_region(t, q),
    decreases t.len() - p,
{
    if p < t.len() {
        lemma_line_end(t, p);
        let n = line_end(t, p);
        assert(n == t.len() || is_line_start(t, n));
        let c = content_nl(t, p);
        if trim(c).len() == 0 || !is_continuation(c) {
            assert(ends_region(t, p));
        } else {
            assert(!ends_region(t, p));
            lemma_region_end(t, key, n, a);
            let region = region_from(t, key, p, Some(a))->0;
            let b = region.1;
            assert forall|q: int| p <= q < b implies !#[trigger] ends_region(t, q) by {
                if p < q < n {
                    lemma_no_line_start_inside(t, p, q);
                }
            }
        }
    }
}

proof fn lemma_region_start(t: Seq<char>, key: Seq<char>, p: int)
    requires
        0 <= p <= t.len(),
        p == t.len() || is_line_start(t, p),
    ensures
        region_from(t, key, p, None) is None <==> forall|q: int| p <= q ==> !#[trigger] key_line(t, key, q),
        region_from(t, key, p, None) matches Some((a, b)) ==> p <= a && key_line(t, key, a) && (forall|q: int|
            p <= q < a ==> !#[trigger] key_line(t, key, q)) && a < b && (b == t.len() || ends_region(t, b))
            && forall|q: int| a < q < b ==> !#[trigger] ends_region(t, q),
    decreases t.len() - p,
{
    if p < t.len() {
        lemma_line_end(t, p);
        let n = line_end(t, p);
        assert(n == t.len() || is_line_start(t, n));
        assert forall|q: int| p < q < n implies !#[trigger] key_line(t, key, q) && !ends_region(t, q) by {
            lemma_no_line_start_inside(t, p, q);
        }
        if has_prefix(content_nl(t, p), key) {
            assert(key_line(t, key, p));
            lemma_region_end(t, key, n, p);
        } else {
            assert(!key_line(t, key, p));
            lemma_region_start(t, key, n);
        }
    }
}

/// Which region `set_field` replaces: the region of `name` starts at the
/// first line of the inner frontmatter that begins with `name:`, and runs
/// through the lines that continue it (indented, or `- ` items) up to the
/// first blank or non-continuing line after it, or the end of the text;
/// there is none when no line begins with `name:`.
pub proof fn lemma_field_region(fm: Seq<char>, name: Seq<char>)
    ensures
        spec_field_region(fm, name) is None <==> forall|q: int| !#[trigger] key_line(fm, name.push(':'), q),
        spec_field_region(fm, name) matches Some((a, b)) ==> key_line(fm, name.push(':'), a) && (forall|q: int|
            q < a ==> !#[trigger] key_line(fm, name.push(':'), q)) && a < b && (b == fm.len() || ends_region(
            fm,
            b,
        )) && forall|q: int| a < q < b ==> !#[trigger] ends_region(fm, q),
{
    assert(is_line_start(fm, 0));
    lemma_region_start(fm, name.push(':'), 0);
}

} // verus!
