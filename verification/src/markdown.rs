//! Region locator for Obsidian note text: finds the frontmatter block,
//! `#`-heading sections and the footer marker as character ranges over the
//! original text. Nothing is copied or re-serialized: the parse is a
//! labeled map of the unchanged text.
//!
//! The ranges a [`Document`] hands out are byte ranges into the text's
//! UTF-8 encoding; the model behind them counts characters, and
//! [`byte_at`] maps one to the other.
use vstd::prelude::*;
use vstd::utf8::{encode_scalar, encode_utf8};
use crate::text::{
    chars_of, has_prefix, is_whitespace, is_ws, range_eq, range_has_prefix, string_of_range, trim,
    trim_range, trim_start, trim_start_index,
};

verus! {

/// The footer marker: a line marking everything after it as footer. Notes
/// may omit it.
pub const FOOTER_MARKER: &'static str = "<!-- ocli:footer -->";

/// The characters of [`FOOTER_MARKER`].
pub open spec fn footer_marker() -> Seq<char> {
    seq!['<', '!', '-', '-', ' ', 'o', 'c', 'l', 'i', ':', 'f', 'o', 'o', 't', 'e', 'r', ' ', '-', '-', '>']
}

pub fn footer_marker_chars() -> (v: Vec<char>)
    ensures
        v@ == footer_marker(),
{
    let v = vec!['<', '!', '-', '-', ' ', 'o', 'c', 'l', 'i', ':', 'f', 'o', 'o', 't', 'e', 'r', ' ', '-', '-', '>'];
    assert(v@ =~= footer_marker());
    v
}

pub open spec fn dashes() -> Seq<char> {
    seq!['-', '-', '-']
}

pub open spec fn backticks() -> Seq<char> {
    seq!['`', '`', '`']
}

pub open spec fn tildes() -> Seq<char> {
    seq!['~', '~', '~']
}

/// The byte offset, in the UTF-8 encoding of `t`, of character position
/// `k`.
pub open spec fn byte_at(t: Seq<char>, k: int) -> int {
    encode_utf8(t.take(k)).len() as int
}

/// A range of character positions as a byte range.
pub open spec fn byte_span(t: Seq<char>, r: (int, int)) -> (int, int) {
    (byte_at(t, r.0), byte_at(t, r.1))
}

pub open spec fn opt_byte_span(t: Seq<char>, r: Option<(int, int)>) -> Option<(int, int)> {
    match r {
        Some(x) => Some(byte_span(t, x)),
        None => None,
    }
}

proof fn lemma_encode_concat(a: Seq<char>, b: Seq<char>)
    ensures
        encode_utf8(a + b) == encode_utf8(a) + encode_utf8(b),
    decreases a.len(),
{
    if a.len() == 0 {
        assert(a + b =~= b);
        assert(encode_utf8(a) + encode_utf8(b) =~= encode_utf8(b));
    } else {
        lemma_encode_concat(a.drop_first(), b);
        assert((a + b).drop_first() =~= a.drop_first() + b);
        assert((a + b)[0] == a[0]);
        assert(encode_utf8(a + b) =~= encode_utf8(a) + encode_utf8(b));
    }
}

/// The width of a character's encoding, 1 to 4 bytes.
pub open spec fn char_width(c: char) -> int {
    let u = c as u32;
    if u < 0x80 {
        1
    } else if u < 0x800 {
        2
    } else if u < 0x10000 {
        3
    } else {
        4
    }
}

proof fn lemma_byte_at_step(t: Seq<char>, k: int)
    requires
        0 <= k < t.len(),
    ensures
        byte_at(t, k + 1) == byte_at(t, k) + char_width(t[k]),
{
    assert(t.take(k + 1) =~= t.take(k) + seq![t[k]]);
    lemma_encode_concat(t.take(k), seq![t[k]]);
    assert(seq![t[k]].drop_first() =~= Seq::<char>::empty());
    vstd::utf8::char_is_scalar(t[k]);
    assert(encode_utf8(Seq::<char>::empty()) =~= Seq::<u8>::empty());
    assert(encode_utf8(seq![t[k]]) =~= encode_scalar(t[k] as u32));
}

proof fn lemma_byte_at_monotone(t: Seq<char>, a: int, b: int)
    requires
        0 <= a < b <= t.len(),
    ensures
        byte_at(t, a) < byte_at(t, b),
    decreases b - a,
{
    lemma_byte_at_step(t, b - 1);
    if a < b - 1 {
        lemma_byte_at_monotone(t, a, b - 1);
    }
}

pub proof fn lemma_byte_at_injective(t: Seq<char>, a: int, b: int)
    requires
        0 <= a <= t.len(),
        0 <= b <= t.len(),
        byte_at(t, a) == byte_at(t, b),
    ensures
        a == b,
{
    if a < b {
        lemma_byte_at_monotone(t, a, b);
    } else if b < a {
        lemma_byte_at_monotone(t, b, a);
    }
}

fn char_width_exec(c: char) -> (r: usize)
    ensures
        r == char_width(c),
{
    let u = c as u32;
    if u < 0x80 {
        1
    } else if u < 0x800 {
        2
    } else if u < 0x10000 {
        3
    } else {
        4
    }
}

/// The byte offset of every character boundary of `text`, whose
/// characters are `t`.
fn boundaries(text: &str, t: &Vec<char>) -> (r: Vec<usize>)
    requires
        t@ == text@,
    ensures
        r@.len() == t@.len() + 1,
        forall|k: int| 0 <= k <= t@.len() ==> #[trigger] r@[k] == byte_at(t@, k),
{
    let total = text.as_bytes().len();
    proof {
        assert(t@.take(t@.len() as int) =~= t@);
    }
    let mut r: Vec<usize> = Vec::new();
    let mut acc: usize = 0;
    r.push(0);
    proof {
        assert(t@.take(0) =~= Seq::<char>::empty());
    }
    let mut k: usize = 0;
    while k < t.len()
        invariant
            t@ == text@,
            total == byte_at(t@, t@.len() as int),
            k <= t@.len(),
            r@.len() == k + 1,
            acc == byte_at(t@, k as int),
            forall|j: int| 0 <= j <= k ==> #[trigger] r@[j] == byte_at(t@, j),
        decreases t@.len() - k,
    {
        proof {
            lemma_byte_at_step(t@, k as int);
            if k + 1 < t@.len() {
                lemma_byte_at_monotone(t@, k + 1, t@.len() as int);
            }
        }
        acc = acc + char_width_exec(t[k]);
        r.push(acc);
        k = k + 1;
    }
    r
}

/// The character position of byte offset `b` in `text`, whose characters
/// are `t`; `b` lies on a character boundary.
pub(crate) fn char_position(text: &str, t: &Vec<char>, b: usize) -> (k: usize)
    requires
        t@ == text@,
        exists|k: int| 0 <= k <= text@.len() && #[trigger] byte_at(text@, k) == b,
    ensures
        k <= text@.len(),
        byte_at(text@, k as int) == b,
{
    let offs = boundaries(text, t);
    let ghost w = choose|k: int| 0 <= k <= text@.len() && #[trigger] byte_at(text@, k) == b;
    let mut k: usize = 0;
    while k < offs.len()
        invariant
            t@ == text@,
            offs@.len() == t@.len() + 1,
            forall|j: int| 0 <= j <= t@.len() ==> #[trigger] offs@[j] == byte_at(t@, j),
            0 <= w <= text@.len(),
            byte_at(text@, w) == b,
            k <= w,
        decreases offs.len() - k,
    {
        if offs[k] == b {
            return k;
        }
        proof {
            if k == w {
                assert(offs@[k as int] == b);
            }
        }
        k = k + 1;
    }
    proof {
        assert(false);
    }
    0
}

/// A byte range into a [`Document`]'s original text.
#[derive(Debug, Clone, Copy, PartialEq, Eq, Structural)]
pub struct Span {
    pub start: usize,
    pub end: usize,
}

/// A `#`-heading and its content range: from the heading line itself to
/// where the next heading starts, the footer marker, or the end of text.
/// The name is bare (`"Progress"`, no `#`); `level` is the number of `#`.
#[derive(Debug, Clone, PartialEq, Eq)]
pub struct Section {
    pub name: String,
    pub level: usize,
    pub content: Span,
}

/// A section as positions and characters.
#[verifier::ext_equal]
pub struct SectionModel {
    pub name: Seq<char>,
    pub level: nat,
    pub start: int,
    pub end: int,
}

/// A heading whose section is still open while the lines are scanned.
#[verifier::ext_equal]
pub struct OpenHeading {
    pub name: Seq<char>,
    pub level: nat,
    pub start: int,
}

/// What the line scan knows after some prefix of the lines.
#[verifier::ext_equal]
pub struct ScanState {
    pub in_frontmatter: bool,
    pub frontmatter_end: Option<int>,
    pub in_fence: bool,
    pub open: Option<OpenHeading>,
    pub closed: Seq<SectionModel>,
    pub footer: Option<int>,
}

/// The labeled ranges of a note: frontmatter (both `---` lines included),
/// body, sections and footer, as `(start, end)` positions.
#[verifier::ext_equal]
pub struct DocModel {
    pub frontmatter: Option<(int, int)>,
    pub body: (int, int),
    pub sections: Seq<SectionModel>,
    pub footer: Option<(int, int)>,
}

pub open spec fn span_model(s: Span) -> (int, int) {
    (s.start as int, s.end as int)
}

pub open spec fn opt_span_model(s: Option<Span>) -> Option<(int, int)> {
    match s {
        Some(s) => Some(span_model(s)),
        None => None,
    }
}

pub open spec fn section_model(s: Section) -> SectionModel {
    SectionModel {
        name: s.name@,
        level: s.level as nat,
        start: s.content.start as int,
        end: s.content.end as int,
    }
}

/// Position just past the line starting at `p`: after its `\n`, or the end
/// of text for an unterminated last line.
pub open spec fn line_end(t: Seq<char>, p: int) -> int
    decreases t.len() - p,
{
    if p < 0 || p >= t.len() {
        t.len() as int
    } else if t[p] == '\n' {
        p + 1
    } else {
        line_end(t, p + 1)
    }
}

pub proof fn lemma_line_end(t: Seq<char>, p: int)
    requires
        0 <= p < t.len(),
    ensures
        p < line_end(t, p) <= t.len(),
        forall|i: int| p <= i < line_end(t, p) - 1 ==> t[i] != '\n',
        line_end(t, p) < t.len() ==> t[line_end(t, p) - 1] == '\n',
        t[line_end(t, p) - 1] != '\n' ==> line_end(t, p) == t.len(),
    decreases t.len() - p,
{
    if t[p] != '\n' {
        if p + 1 < t.len() {
            lemma_line_end(t, p + 1);
        } else {
            assert(line_end(t, p + 1) == t.len());
        }
    }
}

/// The line at `p` without its terminator (`\n` or `\r\n`).
pub open spec fn line_content(t: Seq<char>, p: int) -> Seq<char> {
    let e = line_end(t, p);
    if e > p && t[e - 1] == '\n' {
        let l = t.subrange(p, e - 1);
        if l.len() > 0 && l.last() == '\r' {
            l.drop_last()
        } else {
            l
        }
    } else {
        t.subrange(p, e)
    }
}

/// A fence line (```` ``` ```` or `~~~`, leading whitespace allowed) toggles
/// the fenced state.
pub open spec fn toggles_fence(l: Seq<char>) -> bool {
    has_prefix(trim_start(l), backticks()) || has_prefix(trim_start(l), tildes())
}

pub open spec fn is_marker_line(l: Seq<char>) -> bool {
    trim(l) == footer_marker()
}

pub open spec fn leading_hashes(l: Seq<char>) -> nat
    decreases l.len(),
{
    if l.len() > 0 && l[0] == '#' {
        1 + leading_hashes(l.drop_first())
    } else {
        0
    }
}

/// A heading line: flush-left, 1 to 6 `#`, then a space or the end of the
/// line. Yields the trimmed title and the level.
pub open spec fn heading_of(l: Seq<char>) -> Option<(Seq<char>, nat)> {
    if l.len() > 0 && is_ws(l[0]) {
        None
    } else {
        let h = leading_hashes(l);
        let rest = l.skip(h as int);
        if 1 <= h <= 6 && (rest.len() == 0 || rest[0] == ' ') {
            Some((trim(rest), h))
        } else {
            None
        }
    }
}

/// Frontmatter only counts when the very first line is exactly `---`.
pub open spec fn starts_with_delimiter(t: Seq<char>) -> bool {
    has_prefix(t, seq!['-', '-', '-', '\n']) || has_prefix(t, seq!['-', '-', '-', '\r', '\n'])
}

pub open spec fn close_open(closed: Seq<SectionModel>, open: Option<OpenHeading>, at: int) -> Seq<SectionModel> {
    match open {
        Some(o) => closed.push(SectionModel { name: o.name, level: o.level, start: o.start, end: at }),
        None => closed,
    }
}

pub open spec fn initial_state(t: Seq<char>) -> ScanState {
    ScanState {
        in_frontmatter: starts_with_delimiter(t),
        frontmatter_end: None,
        in_fence: false,
        open: None,
        closed: Seq::empty(),
        footer: None,
    }
}

/// What the line starting at `p` does to the scan.
pub open spec fn step(t: Seq<char>, p: int, s: ScanState) -> ScanState {
    let l = line_content(t, p);
    if s.in_frontmatter {
        if p != 0 && l == dashes() {
            ScanState {
                in_frontmatter: false,
                frontmatter_end: Some(line_end(t, p)),
                in_fence: s.in_fence,
                open: s.open,
                closed: s.closed,
                footer: s.footer,
            }
        } else {
            s
        }
    } else {
        let fence = if toggles_fence(l) {
            !s.in_fence
        } else {
            s.in_fence
        };
        if s.footer is None && !fence && is_marker_line(l) {
            ScanState {
                in_frontmatter: s.in_frontmatter,
                frontmatter_end: s.frontmatter_end,
                in_fence: fence,
                open: None,
                closed: close_open(s.closed, s.open, p),
                footer: Some(p),
            }
        } else if s.footer is None && !fence && heading_of(l) is Some {
            let (name, level) = heading_of(l)->0;
            ScanState {
                in_frontmatter: s.in_frontmatter,
                frontmatter_end: s.frontmatter_end,
                in_fence: fence,
                open: Some(OpenHeading { name, level, start: p }),
                closed: close_open(s.closed, s.open, p),
                footer: s.footer,
            }
        } else {
            ScanState {
                in_frontmatter: s.in_frontmatter,
                frontmatter_end: s.frontmatter_end,
                in_fence: fence,
                open: s.open,
                closed: s.closed,
                footer: s.footer,
            }
        }
    }
}

/// The scan over the lines from `p` to the end of the text.
pub open spec fn scan(t: Seq<char>, p: int, s: ScanState) -> ScanState
    decreases t.len() - p,
{
    if p < 0 || p >= t.len() {
        s
    } else {
        proof {
            lemma_line_end(t, p);
        }
        scan(t, line_end(t, p), step(t, p, s))
    }
}

/// The labeled ranges of `t`.
pub open spec fn spec_parse(t: Seq<char>) -> DocModel {
    let s = scan(t, 0, initial_state(t));
    DocModel {
        frontmatter: match s.frontmatter_end {
            Some(e) => Some((0int, e)),
            None => None,
        },
        body: (
            match s.frontmatter_end {
                Some(e) => e,
                None => 0int,
            },
            t.len() as int,
        ),
        sections: close_open(s.closed, s.open, t.len() as int),
        footer: match s.footer {
            Some(f) => Some((f, t.len() as int)),
            None => None,
        },
    }
}


fn dashes_chars() -> (v: Vec<char>)
    ensures
        v@ == dashes(),
{
    let v = vec!['-', '-', '-'];
    assert(v@ =~= dashes());
    v
}

fn backticks_chars() -> (v: Vec<char>)
    ensures
        v@ == backticks(),
{
    let v = vec!['`', '`', '`'];
    assert(v@ =~= backticks());
    v
}

fn tildes_chars() -> (v: Vec<char>)
    ensures
        v@ == tildes(),
{
    let v = vec!['~', '~', '~'];
    assert(v@ =~= tildes());
    v
}

/// The end of the line starting at `p`.
pub fn find_line_end(t: &Vec<char>, p: usize) -> (e: usize)
    requires
        p < t@.len(),
    ensures
        e == line_end(t@, p as int),
{
    let mut i = p;
    while i < t.len() && t[i] != '\n'
        invariant
            p <= i <= t@.len(),
            line_end(t@, p as int) == line_end(t@, i as int),
        decreases t@.len() - i,
    {
        i = i + 1;
    }
    if i < t.len() {
        i + 1
    } else {
        i
    }
}

/// The end of the content of the line `p..e` (terminator excluded).
fn content_end(t: &Vec<char>, p: usize, e: usize) -> (ce: usize)
    requires
        p < t@.len(),
        e == line_end(t@, p as int),
    ensures
        p <= ce <= e,
        t@.subrange(p as int, ce as int) == line_content(t@, p as int),
{
    proof {
        lemma_line_end(t@, p as int);
    }
    if e > p && t[e - 1] == '\n' {
        let ghost l = t@.subrange(p as int, e - 1);
        if e - 1 > p && t[e - 2] == '\r' {
            assert(l.drop_last() =~= t@.subrange(p as int, e - 2));
            e - 2
        } else {
            e - 1
        }
    } else {
        e
    }
}

/// The heading on the line `t[lo..hi]`, if it is one.
fn heading_at(t: &Vec<char>, lo: usize, hi: usize) -> (r: Option<(String, usize)>)
    requires
        lo <= hi <= t@.len(),
    ensures
        match r {
            Some((name, level)) => heading_of(t@.subrange(lo as int, hi as int)) == Some(
                (name@, level as nat),
            ),
            None => heading_of(t@.subrange(lo as int, hi as int)) is None,
        },
{
    let ghost l = t@.subrange(lo as int, hi as int);
    if lo < hi && is_whitespace(t[lo]) {
        return None;
    }
    let mut k = lo;
    while k < hi && t[k] == '#'
        invariant
            lo <= k <= hi <= t@.len(),
            l == t@.subrange(lo as int, hi as int),
            leading_hashes(l) == (k - lo) + leading_hashes(t@.subrange(k as int, hi as int)),
        decreases hi - k,
    {
        assert(t@.subrange(k as int, hi as int).drop_first() =~= t@.subrange(k + 1, hi as int));
        k = k + 1;
    }
    let h = k - lo;
    assert(leading_hashes(t@.subrange(k as int, hi as int)) == 0);
    assert(l.skip(h as int) =~= t@.subrange(k as int, hi as int));
    if 1 <= h && h <= 6 && (k == hi || t[k] == ' ') {
        let (a, b) = trim_range(t, k, hi);
        Some((string_of_range(t, a, b), h))
    } else {
        None
    }
}

pub open spec fn opt_int(o: Option<usize>) -> Option<int> {
    match o {
        Some(x) => Some(x as int),
        None => None,
    }
}

pub open spec fn open_model(o: Option<(String, usize, usize)>) -> Option<OpenHeading> {
    match o {
        Some((name, level, start)) => Some(
            OpenHeading { name: name@, level: level as nat, start: start as int },
        ),
        None => None,
    }
}

pub open spec fn sections_model(v: Seq<Section>) -> Seq<SectionModel> {
    v.map_values(|s: Section| section_model(s))
}

pub open spec fn exec_state(
    in_frontmatter: bool,
    frontmatter_end: Option<usize>,
    in_fence: bool,
    open: Option<(String, usize, usize)>,
    sections: Seq<Section>,
    footer: Option<usize>,
) -> ScanState {
    ScanState {
        in_frontmatter,
        frontmatter_end: opt_int(frontmatter_end),
        in_fence,
        open: open_model(open),
        closed: sections_model(sections),
        footer: opt_int(footer),
    }
}

/// Closes the open section (if any) at `at`.
fn close_section(sections: &mut Vec<Section>, open: Option<(String, usize, usize)>, at: usize)
    ensures
        sections_model(final(sections)@) == close_open(sections_model(old(sections)@), open_model(open), at as int),
{
    match open {
        Some((name, level, start)) => {
            sections.push(Section { name, level, content: Span { start, end: at } });
            assert(sections_model(sections@) =~= close_open(
                sections_model(old(sections)@),
                open_model(open),
                at as int,
            ));
        },
        None => {},
    }
}

/// Whether `t` starts with a `---` line.
fn starts_with_delimiter_exec(t: &Vec<char>) -> (r: bool)
    ensures
        r == starts_with_delimiter(t@),
{
    let a = vec!['-', '-', '-', '\n'];
    let b = vec!['-', '-', '-', '\r', '\n'];
    assert(a@ =~= seq!['-', '-', '-', '\n']);
    assert(b@ =~= seq!['-', '-', '-', '\r', '\n']);
    let ra = range_has_prefix(t, 0, t.len(), &a);
    let rb = range_has_prefix(t, 0, t.len(), &b);
    assert(t@.subrange(0, t@.len() as int) =~= t@);
    ra || rb
}

/// A parsed note: labeled ranges over the unchanged original text.
#[derive(Debug)]
pub struct Document<'a> {
    text: &'a str,
    offsets: Vec<usize>,
    frontmatter: Option<Span>,
    body: Span,
    sections: Vec<Section>,
    footer: Option<Span>,
}

impl<'a> View for Document<'a> {
    type V = DocModel;

    closed spec fn view(&self) -> DocModel {
        DocModel {
            frontmatter: opt_span_model(self.frontmatter),
            body: span_model(self.body),
            sections: sections_model(self.sections@),
            footer: opt_span_model(self.footer),
        }
    }
}

impl<'a> Document<'a> {
    /// The text the document labels.
    pub closed spec fn text_view(&self) -> Seq<char> {
        self.text@
    }

    /// The original text, unchanged.
    pub fn render(&self) -> (r: &'a str)
        ensures
            r@ == self.text_view(),
    {
        self.text
    }

    /// The characters of the original text between character positions
    /// `span.start` and `span.end`.
    pub(crate) fn get_range(&self, span: Span) -> (r: &'a str)
        requires
            span.start <= span.end <= self.text_view().len(),
        ensures
            r@ == self.text_view().subrange(span.start as int, span.end as int),
    {
        self.text.substring_char(span.start, span.end)
    }

    /// The frontmatter block (both `---` lines included), if present, as
    /// character positions.
    pub(crate) fn frontmatter_range(&self) -> (r: Option<Span>)
        ensures
            opt_span_model(r) == self@.frontmatter,
    {
        self.frontmatter
    }

    /// Everything after the frontmatter block (the whole text when there
    /// is none), as character positions.
    pub(crate) fn body_range(&self) -> (r: Span)
        ensures
            span_model(r) == self@.body,
    {
        self.body
    }

    /// From the first footer-marker line to the end of text, marker line
    /// included, as character positions; `None` when the note has no
    /// marker.
    pub(crate) fn footer_range(&self) -> (r: Option<Span>)
        ensures
            opt_span_model(r) == self@.footer,
    {
        self.footer
    }

    /// `#`-heading sections in the content region (footer excluded), in
    /// document order, their ranges as character positions.
    pub(crate) fn section_list(&self) -> (r: &[Section])
        ensures
            sections_model(r@) == self@.sections,
    {
        self.sections.as_slice()
    }

    /// The byte offsets of every character boundary of the text, and the
    /// ranges within it.
    #[verifier::type_invariant]
    spec fn inv(self) -> bool {
        &&& self.offsets@.len() == self.text@.len() + 1
        &&& forall|k: int| 0 <= k <= self.text@.len() ==> #[trigger] self.offsets@[k] == byte_at(self.text@, k)
        &&& self@.body.0 <= self@.body.1 == self.text@.len()
        &&& self@.frontmatter matches Some((s, e)) ==> 0 <= s <= e <= self.text@.len()
        &&& self@.footer matches Some((s, e)) ==> 0 <= s <= e <= self.text@.len()
        &&& forall|i: int|
            0 <= i < self@.sections.len() ==> 0 <= #[trigger] self@.sections[i].start <= self@.sections[i].end
                <= self.text@.len()
        &&& 0 <= self@.body.0
    }

    fn byte_span_of(&self, span: Span) -> (r: Span)
        requires
            self.inv(),
            span.start <= span.end <= self.text_view().len(),
        ensures
            span_model(r) == byte_span(self.text_view(), span_model(span)),
    {
        Span { start: self.offsets[span.start], end: self.offsets[span.end] }
    }

    /// The character position at byte offset `b`.
    fn char_at(&self, b: usize) -> (k: usize)
        requires
            self.inv(),
            exists|k: int| 0 <= k <= self.text_view().len() && #[trigger] byte_at(self.text_view(), k) == b,
        ensures
            k <= self.text_view().len(),
            byte_at(self.text_view(), k as int) == b,
    {
        let ghost w = choose|k: int| 0 <= k <= self.text_view().len() && #[trigger] byte_at(self.text_view(), k) == b;
        let mut k: usize = 0;
        while k < self.offsets.len()
            invariant
                self.inv(),
                0 <= w <= self.text_view().len(),
                byte_at(self.text_view(), w) == b,
                k <= w,
            decreases self.offsets.len() - k,
        {
            if self.offsets[k] == b {
                return k;
            }
            proof {
                if k == w {
                    assert(self.offsets@[k as int] == b);
                }
            }
            k = k + 1;
        }
        proof {
            assert(false);
        }
        0
    }

    /// The text between the byte offsets `span.start` and `span.end`,
    /// which lie on character boundaries.
    pub fn get(&self, span: Span) -> (r: &'a str)
        requires
            exists|a: int, b: int|
                0 <= a <= b <= self.text_view().len() && #[trigger] byte_at(self.text_view(), a) == span.start
                    && #[trigger] byte_at(self.text_view(), b) == span.end,
        ensures
            forall|a: int, b: int|
                0 <= a <= b <= self.text_view().len() && #[trigger] byte_at(self.text_view(), a) == span.start
                    && #[trigger] byte_at(self.text_view(), b) == span.end ==> r@ == self.text_view().subrange(
                    a,
                    b,
                ),
    {
        proof {
            use_type_invariant(self);
        }
        let ghost (wa, wb) = choose|a: int, b: int|
            0 <= a <= b <= self.text_view().len() && #[trigger] byte_at(self.text_view(), a) == span.start
                && #[trigger] byte_at(self.text_view(), b) == span.end;
        let a = self.char_at(span.start);
        let b = self.char_at(span.end);
        proof {
            lemma_byte_at_injective(self.text_view(), a as int, wa);
            lemma_byte_at_injective(self.text_view(), b as int, wb);
            assert forall|a2: int, b2: int|
                0 <= a2 <= b2 <= self.text_view().len() && #[trigger] byte_at(self.text_view(), a2) == span.start
                    && #[trigger] byte_at(self.text_view(), b2) == span.end implies a2 == a && b2 == b by {
                lemma_byte_at_injective(self.text_view(), a as int, a2);
                lemma_byte_at_injective(self.text_view(), b as int, b2);
            }
        }
        self.text.substring_char(a, b)
    }

    /// The frontmatter block (both `---` lines included), if present.
    pub fn frontmatter(&self) -> (r: Option<Span>)
        ensures
            opt_span_model(r) == opt_byte_span(self.text_view(), self@.frontmatter),
    {
        proof {
            use_type_invariant(self);
        }
        match self.frontmatter {
            Some(s) => Some(self.byte_span_of(s)),
            None => None,
        }
    }

    /// Everything after the frontmatter block (the whole text when there
    /// is none).
    pub fn body(&self) -> (r: Span)
        ensures
            span_model(r) == byte_span(self.text_view(), self@.body),
    {
        proof {
            use_type_invariant(self);
        }
        self.byte_span_of(self.body)
    }

    /// From the first footer-marker line to the end of text, marker line
    /// included; `None` when the note has no marker.
    pub fn footer(&self) -> (r: Option<Span>)
        ensures
            opt_span_model(r) == opt_byte_span(self.text_view(), self@.footer),
    {
        proof {
            use_type_invariant(self);
        }
        match self.footer {
            Some(s) => Some(self.byte_span_of(s)),
            None => None,
        }
    }

    /// `#`-heading sections in the content region (footer excluded), in
    /// document order.
    pub fn sections(&self) -> (r: Vec<Section>)
        ensures
            r@.len() == self@.sections.len(),
            forall|i: int|
                0 <= i < r@.len() ==> {
                    let m = #[trigger] self@.sections[i];
                    &&& r@[i].name@ == m.name
                    &&& r@[i].level == m.level
                    &&& span_model(r@[i].content) == byte_span(self.text_view(), (m.start, m.end))
                },
    {
        proof {
            use_type_invariant(self);
        }
        let mut out: Vec<Section> = Vec::new();
        let mut i: usize = 0;
        while i < self.sections.len()
            invariant
                self.inv(),
                i <= self.sections@.len(),
                out@.len() == i,
                self@.sections == sections_model(self.sections@),
                forall|j: int|
                    0 <= j < i ==> {
                        let m = #[trigger] self@.sections[j];
                        &&& out@[j].name@ == m.name
                        &&& out@[j].level == m.level
                        &&& span_model(out@[j].content) == byte_span(self.text_view(), (m.start, m.end))
                    },
            decreases self.sections@.len() - i,
        {
            let s = &self.sections[i];
            assert(self@.sections[i as int] == section_model(self.sections@[i as int]));
            assert(self@.sections[i as int].start == s.content.start);
            let content = self.byte_span_of(s.content);
            out.push(Section { name: s.name.clone(), level: s.level, content });
            i = i + 1;
        }
        out
    }
}

/// What holds of every scan state at line start `p`.
pub open spec fn scan_inv(t: Seq<char>, p: int, s: ScanState) -> bool {
    let base = match s.frontmatter_end {
        Some(e) => e,
        None => 0int,
    };
    &&& 0 <= p <= t.len()
    &&& s.frontmatter_end matches Some(e) ==> 0 < e <= p && !s.in_frontmatter
    &&& s.in_frontmatter ==> s.frontmatter_end is None && s.open is None && s.closed.len() == 0
        && s.footer is None
    &&& forall|i: int|
        0 <= i < s.closed.len() ==> base <= #[trigger] s.closed[i].start < s.closed[i].end <= p
            && heading_of(line_content(t, s.closed[i].start)) == Some(
            (s.closed[i].name, s.closed[i].level),
        )
    &&& forall|i: int|
        0 <= i < s.closed.len() - 1 ==> #[trigger] s.closed[i].end == s.closed[i + 1].start
    &&& s.open matches Some(o) ==> base <= o.start < p && heading_of(line_content(t, o.start))
        == Some((o.name, o.level)) && (s.closed.len() > 0 ==> s.closed.last().end == o.start)
        && s.footer is None
    &&& s.footer matches Some(f) ==> base <= f <= p && (s.closed.len() > 0 ==> s.closed.last().end
        == f)
    &&& s.closed.len() > 0 ==> (s.open is Some || s.footer is Some)
}

proof fn lemma_step_inv(t: Seq<char>, p: int, s: ScanState)
    requires
        0 <= p < t.len(),
        scan_inv(t, p, s),
    ensures
        scan_inv(t, line_end(t, p), step(t, p, s)),
{
    lemma_line_end(t, p);
    let s2 = step(t, p, s);
    let q = line_end(t, p);
    let l = line_content(t, p);
    if !s.in_frontmatter {
        let fence = if toggles_fence(l) {
            !s.in_fence
        } else {
            s.in_fence
        };
        if s.footer is None && !fence && (is_marker_line(l) || heading_of(l) is Some) {
            let c2 = close_open(s.closed, s.open, p);
            assert(s2.closed == c2);
            if s.open is Some {
                assert(c2.len() == s.closed.len() + 1);
                assert forall|i: int| 0 <= i < c2.len() - 1 implies #[trigger] c2[i].end == c2[i + 1].start by {
                    if i < s.closed.len() - 1 {
                        assert(c2[i] == s.closed[i]);
                        assert(c2[i + 1] == s.closed[i + 1]);
                    }
                }
            }
        }
    }
}

proof fn lemma_scan_inv(t: Seq<char>, p: int, s: ScanState)
    requires
        scan_inv(t, p, s),
    ensures
        scan_inv(t, t.len() as int, scan(t, p, s)),
    decreases t.len() - p,
{
    if p < t.len() {
        lemma_line_end(t, p);
        lemma_step_inv(t, p, s);
        lemma_scan_inv(t, line_end(t, p), step(t, p, s));
    }
}

/// `q` starts a line of `t`.
pub open spec fn is_line_start(t: Seq<char>, q: int) -> bool {
    q == 0 || (0 < q <= t.len() && t[q - 1] == '\n')
}

/// The line at `q`, a later line than the first, is exactly `---`.
pub open spec fn closing_line(t: Seq<char>, q: int) -> bool {
    &&& 0 < q < t.len()
    &&& is_line_start(t, q)
    &&& line_content(t, q) == dashes()
}

/// The lines strictly after `p` and before `line_end(t, p)` do not start
/// there.
pub proof fn lemma_no_line_start_inside(t: Seq<char>, p: int, q: int)
    requires
        0 <= p < t.len(),
        p < q < line_end(t, p),
    ensures
        !is_line_start(t, q),
{
    lemma_line_end(t, p);
    assert(t[q - 1] != '\n');
}

/// The scan state once the frontmatter closes at `e`.
pub open spec fn closed_at(s: ScanState, e: int) -> ScanState {
    ScanState {
        in_frontmatter: false,
        frontmatter_end: Some(e),
        in_fence: s.in_fence,
        open: s.open,
        closed: s.closed,
        footer: s.footer,
    }
}

/// Past the frontmatter, the scan never touches where it ended.
proof fn lemma_scan_keeps_frontmatter(t: Seq<char>, p: int, s: ScanState)
    requires
        !s.in_frontmatter,
    ensures
        !scan(t, p, s).in_frontmatter,
        scan(t, p, s).frontmatter_end == s.frontmatter_end,
    decreases t.len() - p,
{
    if 0 <= p < t.len() {
        lemma_line_end(t, p);
        lemma_scan_keeps_frontmatter(t, line_end(t, p), step(t, p, s));
    }
}

/// Inside the frontmatter, the scan closes it at the first `---` line
/// from `p` on, and leaves it open when there is none.
proof fn lemma_scan_closes_frontmatter(t: Seq<char>, p: int, s: ScanState)
    requires
        0 <= p <= t.len(),
        p == t.len() || is_line_start(t, p),
        s.in_frontmatter,
        s.frontmatter_end is None,
    ensures
        scan(t, p, s).frontmatter_end matches Some(e) ==> exists|q: int|
            p <= q && #[trigger] closing_line(t, q) && e == line_end(t, q) && forall|q2: int|
                p <= q2 < q ==> !closing_line(t, q2),
        scan(t, p, s).frontmatter_end is None ==> forall|q: int| p <= q ==> !#[trigger] closing_line(t, q),
        scan(t, p, s).frontmatter_end matches Some(e) ==> scan(t, p, s) == scan(t, e, closed_at(s, e)),
    decreases t.len() - p,
{
    if p < t.len() {
        lemma_line_end(t, p);
        let n = line_end(t, p);
        assert(n == t.len() || is_line_start(t, n));
        assert forall|q2: int| p < q2 < n implies !closing_line(t, q2) by {
            lemma_no_line_start_inside(t, p, q2);
        }
        if p != 0 && line_content(t, p) == dashes() {
            let s2 = step(t, p, s);
            assert(closing_line(t, p));
            lemma_scan_keeps_frontmatter(t, n, s2);
            assert(scan(t, p, s).frontmatter_end == Some(n));
            assert(s2 == closed_at(s, n));
        } else {
            assert(!closing_line(t, p));
            assert(step(t, p, s) == s);
            lemma_scan_closes_frontmatter(t, n, s);
            let r = scan(t, p, s);
            assert(r == scan(t, n, s));
            if let Some(e) = r.frontmatter_end {
                let q = choose|q: int|
                    n <= q && #[trigger] closing_line(t, q) && e == line_end(t, q) && forall|q2: int|
                        n <= q2 < q ==> !closing_line(t, q2);
                assert forall|q2: int| p <= q2 < q implies !closing_line(t, q2) by {
                    if q2 >= n {
                    } else if q2 > p {
                    }
                }
            } else {
                assert forall|q: int| p <= q implies !#[trigger] closing_line(t, q) by {
                    if q >= n {
                    } else if q > p {
                    }
                }
            }
        }
    }
}

/// A note has a frontmatter block exactly when its first line is `---`
/// and a later line is `---`; the block runs from the start of the text
/// through the first such later line, its terminator included.
pub proof fn lemma_frontmatter_block(t: Seq<char>)
    ensures
        spec_parse(t).frontmatter is Some <==> (starts_with_delimiter(t) && exists|q: int|
            #[trigger] closing_line(t, q)),
        spec_parse(t).frontmatter matches Some((s, e)) ==> s == 0 && exists|q: int|
            #[trigger] closing_line(t, q) && e == line_end(t, q) && forall|q2: int|
                closing_line(t, q2) ==> q <= q2,
{
    let s0 = initial_state(t);
    if starts_with_delimiter(t) {
        assert(is_line_start(t, 0));
        lemma_scan_closes_frontmatter(t, 0, s0);
    } else {
        lemma_scan_keeps_frontmatter(t, 0, s0);
    }
}

/// Whether a fence is open after the lines that start from `p` and before
/// `q`, when `f` says whether one was open at `p`.
pub open spec fn fence_after(t: Seq<char>, p: int, q: int, f: bool) -> bool
    decreases t.len() - p,
{
    if p < 0 || p >= t.len() || p >= q {
        f
    } else {
        proof {
            lemma_line_end(t, p);
        }
        fence_after(
            t,
            line_end(t, p),
            q,
            if toggles_fence(line_content(t, p)) {
                !f
            } else {
                f
            },
        )
    }
}

/// The line at `o`, from `p` on, is a footer marker line that the fences
/// toggled by the lines from `p` through it leave outside any fence.
pub open spec fn footer_line(t: Seq<char>, p: int, f: bool, o: int) -> bool {
    &&& p <= o < t.len()
    &&& is_line_start(t, o)
    &&& is_marker_line(line_content(t, o))
    &&& !fence_after(t, p, line_end(t, o), f)
}

proof fn lemma_scan_keeps_footer(t: Seq<char>, p: int, s: ScanState)
    requires
        !s.in_frontmatter,
        s.footer is Some,
    ensures
        scan(t, p, s).footer == s.footer,
    decreases t.len() - p,
{
    if 0 <= p < t.len() {
        lemma_line_end(t, p);
        lemma_scan_keeps_footer(t, line_end(t, p), step(t, p, s));
    }
}

/// Past the frontmatter, the footer starts at the first unfenced marker
/// line, and there is none when no such line exists.
proof fn lemma_scan_finds_footer(t: Seq<char>, p: int, s: ScanState)
    requires
        0 <= p <= t.len(),
        p == t.len() || is_line_start(t, p),
        !s.in_frontmatter,
        s.footer is None,
    ensures
        scan(t, p, s).footer matches Some(o) ==> footer_line(t, p, s.in_fence, o) && forall|o2: int|
            p <= o2 < o ==> !#[trigger] footer_line(t, p, s.in_fence, o2),
        scan(t, p, s).footer is None ==> forall|o: int| !#[trigger] footer_line(t, p, s.in_fence, o),
    decreases t.len() - p,
{
    if p < t.len() {
        lemma_line_end(t, p);
        let n = line_end(t, p);
        let l = line_content(t, p);
        let f = s.in_fence;
        let f2 = if toggles_fence(l) {
            !f
        } else {
            f
        };
        assert(n == t.len() || is_line_start(t, n));
        assert(fence_after(t, p, n, f) == fence_after(t, n, n, f2));
        assert forall|o: int| n <= o implies #[trigger] footer_line(t, p, f, o) == footer_line(t, n, f2, o) by {
            if o < t.len() {
                lemma_line_end(t, o);
            }
        }
        assert forall|o: int| p < o < n implies !#[trigger] footer_line(t, p, f, o) by {
            lemma_no_line_start_inside(t, p, o);
        }
        let s2 = step(t, p, s);
        if !f2 && is_marker_line(l) {
            assert(footer_line(t, p, f, p));
            assert(s2.footer == Some(p));
            lemma_scan_keeps_footer(t, n, s2);
        } else {
            assert(!footer_line(t, p, f, p));
            assert(s2.footer is None && !s2.in_frontmatter && s2.in_fence == f2);
            lemma_scan_finds_footer(t, n, s2);
            if let Some(o) = scan(t, p, s).footer {
                assert(footer_line(t, n, f2, o));
                assert forall|o2: int| p <= o2 < o implies !#[trigger] footer_line(t, p, f, o2) by {
                    if o2 >= n {
                        assert(!footer_line(t, n, f2, o2));
                    }
                }
            } else {
                assert forall|o: int| !#[trigger] footer_line(t, p, f, o) by {
                    if o >= n {
                        assert(!footer_line(t, n, f2, o));
                    }
                }
            }
        }
    }
}

/// Where the footer is: in a note whose frontmatter, when it opens, also
/// closes, the footer starts at the first line after the frontmatter that
/// is the footer marker (surrounding whitespace aside) outside any code
/// fence, and runs to the end of the text; there is no footer when no
/// such line exists.
pub proof fn lemma_footer_start(t: Seq<char>)
    requires
        !(starts_with_delimiter(t) && spec_parse(t).frontmatter is None),
    ensures
        spec_parse(t).footer is Some <==> exists|o: int| #[trigger] footer_line(t, spec_parse(t).body.0, false, o),
        spec_parse(t).footer matches Some((o, e)) ==> e == t.len() && footer_line(t, spec_parse(t).body.0, false, o)
            && forall|o2: int| #[trigger] footer_line(t, spec_parse(t).body.0, false, o2) ==> o <= o2,
{
    let s0 = initial_state(t);
    let b = spec_parse(t).body.0;
    if starts_with_delimiter(t) {
        assert(is_line_start(t, 0));
        lemma_scan_closes_frontmatter(t, 0, s0);
        let e = scan(t, 0, s0).frontmatter_end->0;
        assert(b == e);
        let q = choose|q: int| 0 <= q && #[trigger] closing_line(t, q) && e == line_end(t, q) && forall|q2: int|
            0 <= q2 < q ==> !closing_line(t, q2);
        lemma_line_end(t, q);
        assert(e == t.len() || is_line_start(t, e));
        let s1 = closed_at(s0, e);
        assert(scan(t, 0, s0) == scan(t, e, s1));
        assert(!s1.in_fence && s1.footer is None && !s1.in_frontmatter);
        lemma_scan_finds_footer(t, e, s1);
        if let Some(o) = scan(t, e, s1).footer {
            assert(footer_line(t, b, false, o));
        }
    } else {
        assert(is_line_start(t, 0));
        lemma_scan_keeps_frontmatter(t, 0, s0);
        assert(b == 0);
        lemma_scan_finds_footer(t, 0, s0);
        if let Some(o) = scan(t, 0, s0).footer {
            assert(footer_line(t, b, false, o));
        }
    }
}

/// The line at `o`, from `p` on, is a heading line (and no footer marker)
/// that the fences toggled by the lines from `p` through it leave outside
/// any fence.
pub open spec fn heading_line(t: Seq<char>, p: int, f: bool, o: int) -> bool {
    &&& p <= o < t.len()
    &&& is_line_start(t, o)
    &&& heading_of(line_content(t, o)) is Some
    &&& !is_marker_line(line_content(t, o))
    &&& !fence_after(t, p, line_end(t, o), f)
}

/// Some section of `closed`, or the open one, starts at `o`.
pub open spec fn starts_at(closed: Seq<SectionModel>, open: Option<OpenHeading>, o: int) -> bool {
    ||| exists|i: int| 0 <= i < closed.len() && #[trigger] closed[i].start == o
    ||| open matches Some(h) && h.start == o
}

/// Some section of `sections` starts at `o`.
pub open spec fn section_starts_at(sections: Seq<SectionModel>, o: int) -> bool {
    exists|i: int| 0 <= i < sections.len() && #[trigger] sections[i].start == o
}

proof fn lemma_close_keeps_starts(closed: Seq<SectionModel>, open: Option<OpenHeading>, at: int, o: int)
    ensures
        starts_at(close_open(closed, open, at), None, o) == starts_at(closed, open, o),
        section_starts_at(close_open(closed, open, at), o) == starts_at(closed, open, o),
{
    let c = close_open(closed, open, at);
    if let Some(h) = open {
        if h.start == o {
            assert(c[closed.len() as int].start == o);
        }
        if section_starts_at(c, o) {
            let i = choose|i: int| 0 <= i < c.len() && #[trigger] c[i].start == o;
            if i < closed.len() {
                assert(c[i] == closed[i]);
            }
        }
        if starts_at(closed, open, o) && !(h.start == o) {
            let i = choose|i: int| 0 <= i < closed.len() && #[trigger] closed[i].start == o;
            assert(c[i] == closed[i]);
        }
    }
}

proof fn lemma_scan_keeps_sections(t: Seq<char>, p: int, s: ScanState)
    requires
        !s.in_frontmatter,
        s.footer is Some,
    ensures
        scan(t, p, s).closed == s.closed,
        scan(t, p, s).open == s.open,
    decreases t.len() - p,
{
    if 0 <= p < t.len() {
        lemma_line_end(t, p);
        lemma_scan_keeps_sections(t, line_end(t, p), step(t, p, s));
    }
}

/// Past the frontmatter, a section starts at each unfenced heading line
/// before the footer, and nowhere else.
proof fn lemma_scan_finds_sections(t: Seq<char>, p: int, s: ScanState, o: int)
    requires
        0 <= p <= t.len(),
        p == t.len() || is_line_start(t, p),
        !s.in_frontmatter,
        s.footer is None,
    ensures
        starts_at(scan(t, p, s).closed, scan(t, p, s).open, o) <==> (starts_at(s.closed, s.open, o) || (
        heading_line(t, p, s.in_fence, o) && (scan(t, p, s).footer matches Some(fo) ==> o < fo))),
    decreases t.len() - p,
{
    if p < t.len() {
        lemma_line_end(t, p);
        let n = line_end(t, p);
        let l = line_content(t, p);
        let f = s.in_fence;
        let f2 = if toggles_fence(l) {
            !f
        } else {
            f
        };
        assert(n == t.len() || is_line_start(t, n));
        assert(fence_after(t, p, n, f) == fence_after(t, n, n, f2));
        if n <= o && o < t.len() {
            lemma_line_end(t, o);
            assert(heading_line(t, p, f, o) == heading_line(t, n, f2, o));
        }
        if p < o < n {
            lemma_no_line_start_inside(t, p, o);
        }
        let s2 = step(t, p, s);
        let r = scan(t, p, s);
        assert(r == scan(t, n, s2));
        lemma_close_keeps_starts(s.closed, s.open, p, o);
        if !f2 && is_marker_line(l) {
            assert(s2.footer == Some(p));
            lemma_scan_keeps_footer(t, n, s2);
            lemma_scan_keeps_sections(t, n, s2);
        } else if !f2 && heading_of(l) is Some {
            assert(heading_line(t, p, f, p));
            assert(s2.footer is None && !s2.in_frontmatter && s2.in_fence == f2);
            lemma_scan_finds_footer(t, n, s2);
            lemma_scan_finds_sections(t, n, s2, o);
        } else {
            assert(!heading_line(t, p, f, p));
            assert(s2.footer is None && !s2.in_frontmatter && s2.in_fence == f2);
            assert(s2.closed == s.closed && s2.open == s.open);
            lemma_scan_finds_sections(t, n, s2, o);
        }
    }
}

/// Where sections start: in a note whose frontmatter, when it opens, also
/// closes, a section starts at each line after the frontmatter and before
/// the footer that is a heading line (flush left, 1 to 6 `#`, then a space
/// or nothing) outside any code fence, and at no other position.
pub proof fn lemma_section_starts(t: Seq<char>, o: int)
    requires
        !(starts_with_delimiter(t) && spec_parse(t).frontmatter is None),
    ensures
        section_starts_at(spec_parse(t).sections, o) <==> (heading_line(t, spec_parse(t).body.0, false, o) && (
        spec_parse(t).footer matches Some((fo, _)) ==> o < fo)),
{
    let s0 = initial_state(t);
    let b = spec_parse(t).body.0;
    lemma_close_keeps_starts(scan(t, 0, s0).closed, scan(t, 0, s0).open, t.len() as int, o);
    if starts_with_delimiter(t) {
        assert(is_line_start(t, 0));
        lemma_scan_closes_frontmatter(t, 0, s0);
        let e = scan(t, 0, s0).frontmatter_end->0;
        let q = choose|q: int| 0 <= q && #[trigger] closing_line(t, q) && e == line_end(t, q) && forall|q2: int|
            0 <= q2 < q ==> !closing_line(t, q2);
        lemma_line_end(t, q);
        let s1 = closed_at(s0, e);
        assert(scan(t, 0, s0) == scan(t, e, s1));
        lemma_scan_finds_sections(t, e, s1, o);
    } else {
        assert(is_line_start(t, 0));
        lemma_scan_keeps_frontmatter(t, 0, s0);
        lemma_scan_finds_sections(t, 0, s0, o);
    }
}

pub proof fn lemma_ends_before_last(secs: Seq<SectionModel>, i: int)
    requires
        0 <= i < secs.len(),
        forall|j: int| 0 <= j < secs.len() ==> #[trigger] secs[j].start < secs[j].end,
        forall|j: int| 0 <= j < secs.len() - 1 ==> #[trigger] secs[j].end == secs[j + 1].start,
    ensures
        secs[i].end <= secs.last().end,
    decreases secs.len() - i,
{
    if i < secs.len() - 1 {
        assert(secs[i].end == secs[i + 1].start);
        assert(secs[i + 1].start < secs[i + 1].end);
        lemma_ends_before_last(secs, i + 1);
    }
}

/// The sections tile the text from the first heading to the footer (or
/// the end of the text): in document order, each inside the body, each
/// ending where the next starts, the last ending where the footer starts;
/// no section reaches into the footer.
pub proof fn lemma_sections_tile(t: Seq<char>)
    ensures
        ({
            let d = spec_parse(t);
            let end = match d.footer {
                Some(f) => f.0,
                None => t.len() as int,
            };
            &&& forall|i: int|
                0 <= i < d.sections.len() ==> d.body.0 <= #[trigger] d.sections[i].start < d.sections[i].end <= end
            &&& forall|i: int| 0 <= i < d.sections.len() - 1 ==> #[trigger] d.sections[i].end == d.sections[i + 1].start
            &&& d.sections.len() > 0 ==> d.sections.last().end == end
        }),
{
    lemma_parse_layout(t);
    let d = spec_parse(t);
    assert forall|i: int| 0 <= i < d.sections.len() implies d.sections[i].end <= d.sections.last().end by {
        lemma_ends_before_last(d.sections, i);
    }
}

/// The layout every parse has: frontmatter and body tile the text, the
/// sections lie inside the body in order with no gap or overlap between
/// neighbours, the last one ends at the footer marker (or the end of
/// text), the footer runs to the end of text, and every section starts at
/// a heading line whose title and level it carries.
pub proof fn lemma_parse_layout(t: Seq<char>)
    ensures
        ({
            let d = spec_parse(t);
            &&& d.body.1 == t.len()
            &&& 0 <= d.body.0 <= d.body.1
            &&& match d.frontmatter {
                Some(f) => f.0 == 0 && f.1 == d.body.0,
                None => d.body.0 == 0,
            }
            &&& forall|i: int|
                0 <= i < d.sections.len() ==> d.body.0 <= #[trigger] d.sections[i].start
                    < d.sections[i].end <= d.body.1 && heading_of(
                    line_content(t, d.sections[i].start),
                ) == Some((d.sections[i].name, d.sections[i].level))
            &&& forall|i: int|
                0 <= i < d.sections.len() - 1 ==> #[trigger] d.sections[i].end
                    == d.sections[i + 1].start
            &&& d.sections.len() > 0 ==> d.sections.last().end == match d.footer {
                Some(f) => f.0,
                None => t.len() as int,
            }
            &&& d.footer matches Some(f) ==> d.body.0 <= f.0 <= f.1 && f.1 == t.len()
        }),
{
    let s0 = initial_state(t);
    assert(scan_inv(t, 0, s0));
    lemma_scan_inv(t, 0, s0);
    let s = scan(t, 0, s0);
    let d = spec_parse(t);
    let c = close_open(s.closed, s.open, t.len() as int);
    assert(d.sections == c);
    if s.open is Some {
        assert forall|i: int| 0 <= i < c.len() - 1 implies #[trigger] c[i].end == c[i + 1].start by {
            if i < s.closed.len() - 1 {
                assert(c[i] == s.closed[i]);
                assert(c[i + 1] == s.closed[i + 1]);
            }
        }
    }
}

/// Labels `text`: frontmatter, body, sections and footer.
pub fn parse<'a>(text: &'a str) -> (doc: Document<'a>)
    ensures
        doc.text_view() == text@,
        doc@ == spec_parse(text@),
{
    let t = chars_of(text);
    let n = t.len();
    let dashes_v = dashes_chars();
    let backticks_v = backticks_chars();
    let tildes_v = tildes_chars();
    let marker_v = footer_marker_chars();

    let mut in_frontmatter = starts_with_delimiter_exec(&t);
    let mut frontmatter_end: Option<usize> = None;
    let mut in_fence = false;
    let mut open: Option<(String, usize, usize)> = None;
    let mut sections: Vec<Section> = Vec::new();
    let mut footer: Option<usize> = None;
    let mut offset: usize = 0;

    proof {
        assert(sections_model(sections@) =~= Seq::<SectionModel>::empty());
        assert(exec_state(in_frontmatter, frontmatter_end, in_fence, open, sections@, footer) =~= initial_state(t@));
    }

    while offset < n
        invariant
            n == t@.len(),
            t@ == text@,
            offset <= n,
            dashes_v@ == dashes(),
            backticks_v@ == backticks(),
            tildes_v@ == tildes(),
            marker_v@ == footer_marker(),
            scan(t@, offset as int, exec_state(in_frontmatter, frontmatter_end, in_fence, open, sections@, footer))
                == scan(t@, 0, initial_state(t@)),
        decreases n - offset,
    {
        let ghost s0 = exec_state(in_frontmatter, frontmatter_end, in_fence, open, sections@, footer);
        let ghost l = line_content(t@, offset as int);
        proof {
            lemma_line_end(t@, offset as int);
        }
        let e = find_line_end(&t, offset);
        let ce = content_end(&t, offset, e);
        if in_frontmatter {
            if offset != 0 && range_eq(&t, offset, ce, &dashes_v) {
                in_frontmatter = false;
                frontmatter_end = Some(e);
            }
            assert(exec_state(in_frontmatter, frontmatter_end, in_fence, open, sections@, footer) =~= step(t@, offset as int, s0));
        } else {
            let ts = trim_start_index(&t, offset, ce);
            let toggles = range_has_prefix(&t, ts, ce, &backticks_v) || range_has_prefix(&t, ts, ce, &tildes_v);
            assert(toggles == toggles_fence(l));
            if toggles {
                in_fence = !in_fence;
            }
            let (a, b) = trim_range(&t, offset, ce);
            let is_marker = range_eq(&t, a, b, &marker_v);
            assert(is_marker == is_marker_line(l));
            if footer.is_none() && !in_fence && is_marker {
                let prev = open;
                open = None;
                close_section(&mut sections, prev, offset);
                footer = Some(offset);
                assert(exec_state(in_frontmatter, frontmatter_end, in_fence, open, sections@, footer) =~= step(t@, offset as int, s0));
            } else if footer.is_none() && !in_fence {
                match heading_at(&t, offset, ce) {
                    Some((name, level)) => {
                        let prev = open;
                        close_section(&mut sections, prev, offset);
                        open = Some((name, level, offset));
                        assert(exec_state(in_frontmatter, frontmatter_end, in_fence, open, sections@, footer) =~= step(t@, offset as int, s0));
                    },
                    None => {
                        assert(exec_state(in_frontmatter, frontmatter_end, in_fence, open, sections@, footer) =~= step(t@, offset as int, s0));
                    },
                }
            } else {
                assert(exec_state(in_frontmatter, frontmatter_end, in_fence, open, sections@, footer) =~= step(t@, offset as int, s0));
            }
        }
        offset = e;
    }

    let ghost s_end = exec_state(in_frontmatter, frontmatter_end, in_fence, open, sections@, footer);
    assert(scan(t@, n as int, s_end) == s_end);
    close_section(&mut sections, open, n);
    let body_start = match frontmatter_end {
        Some(e) => e,
        None => 0,
    };
    let offsets = boundaries(text, &t);
    let fm = match frontmatter_end {
        Some(e) => Some(Span { start: 0, end: e }),
        None => None,
    };
    let body = Span { start: body_start, end: n };
    let foot = match footer {
        Some(f) => Some(Span { start: f, end: n }),
        None => None,
    };
    proof {
        lemma_parse_layout(t@);
        let d = spec_parse(t@);
        assert(opt_span_model(fm) == d.frontmatter);
        assert(span_model(body) == d.body);
        assert(opt_span_model(foot) == d.footer);
        assert(sections_model(sections@) =~= d.sections);
    }
    let doc = Document { text, offsets, frontmatter: fm, body, sections, footer: foot };
    assert(doc@ =~= spec_parse(text@));
    assert(doc.inv());
    doc
}

} // verus!
