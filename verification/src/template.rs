//! The QuickAdd template renderer: a pure text-in/text-out leaf. The
//! grammar is exactly `{{VALUE:name}}` and `{{DATE:YYYY-MM-DD HH:mm}}`;
//! anything else between `{{` and `}}` is an error naming the line.
//! Substitution copies every other character verbatim.
use vstd::prelude::*;
use crate::ftypes::{nat_text, push_nat};
use crate::text::{has_prefix, index_of, index_of_from, lemma_index_of_from, push_char, str_eq};
use crate::vault::{pairs_view, IoFailure, IoKind, VaultError};

verus! {

/// The one house date format: the exact `{{DATE:...}}` argument the
/// renderer accepts, and the format it emits.
pub const DATE_FORMAT: &'static str = "YYYY-MM-DD HH:mm";

/// A local clock reading, as the integers the house format prints.
#[derive(Debug, Clone, Copy, PartialEq, Eq, Structural)]
pub struct Timestamp {
    pub year: i32,
    pub month: u32,
    pub day: u32,
    pub hour: u32,
    pub minute: u32,
}

pub open spec fn zeros(k: int) -> Seq<char>
    decreases k,
{
    if k <= 0 {
        Seq::empty()
    } else {
        zeros(k - 1).push('0')
    }
}

/// `n` in decimal, left-padded with zeros to `width` characters; a minus
/// sign counts toward the width.
#[verifier::opaque]
pub open spec fn pad_int(n: int, width: int) -> Seq<char> {
    if n < 0 {
        let d = nat_text((-n) as nat);
        seq!['-'] + zeros(width - 1 - d.len()) + d
    } else {
        let d = nat_text(n as nat);
        zeros(width - d.len()) + d
    }
}

/// `YYYY-MM-DD HH:mm`.
pub open spec fn spec_house_format(t: Timestamp) -> Seq<char> {
    pad_int(t.year as int, 4) + seq!['-'] + pad_int(t.month as int, 2) + seq!['-'] + pad_int(
        t.day as int,
        2,
    ) + seq![' '] + pad_int(t.hour as int, 2) + seq![':'] + pad_int(t.minute as int, 2)
}

fn push_zeros(out: &mut String, k: usize)
    ensures
        final(out)@ == old(out)@ + zeros(k as int),
{
    let mut i: usize = 0;
    while i < k
        invariant
            i <= k,
            out@ == old(out)@ + zeros(i as int),
        decreases k - i,
    {
        push_char(out, '0');
        i = i + 1;
    }
}

proof fn lemma_nat_text_small(n: nat)
    ensures
        n < 10 ==> nat_text(n).len() == 1,
        10 <= n < 100 ==> nat_text(n).len() == 2,
        100 <= n < 1000 ==> nat_text(n).len() == 3,
        n >= 1000 ==> nat_text(n).len() >= 4,
    decreases n,
{
    if n >= 10 {
        lemma_nat_text_small(n / 10);
    }
}

/// The digit count of `n`, exact below four digits and capped at four.
fn short_len(n: u64) -> (r: usize)
    ensures
        r <= 4,
        r < 4 ==> r == nat_text(n as nat).len(),
        r == 4 ==> nat_text(n as nat).len() >= 4,
{
    proof {
        lemma_nat_text_small(n as nat);
    }
    if n < 10 {
        1
    } else if n < 100 {
        2
    } else if n < 1000 {
        3
    } else {
        4
    }
}

fn push_padded_nat(out: &mut String, n: u64, width: usize)
    requires
        width <= 4,
    ensures
        final(out)@ == old(out)@ + zeros(width - nat_text(n as nat).len()) + nat_text(n as nat),
        final(out)@ == old(out)@ + pad_int(n as int, width as int),
{
    reveal(pad_int);
    let ghost d = nat_text(n as nat);
    let k = short_len(n);
    if k < width {
        push_zeros(out, width - k);
    } else {
        assert(zeros(width - d.len()) =~= Seq::<char>::empty());
        assert(out@ =~= old(out)@ + zeros(width - d.len()));
    }
    push_nat(out, n);
    assert(out@ =~= old(out)@ + zeros(width - d.len()) + d);
}

fn push_padded_int(out: &mut String, n: i32, width: usize)
    requires
        1 <= width <= 4,
    ensures
        final(out)@ == old(out)@ + pad_int(n as int, width as int),
{
    reveal(pad_int);
    if n < 0 {
        push_char(out, '-');
        let m = (-(n as i64)) as u64;
        push_padded_nat(out, m, width - 1);
        assert(out@ =~= old(out)@ + pad_int(n as int, width as int));
    } else {
        push_padded_nat(out, n as u64, width);
        assert(out@ =~= old(out)@ + pad_int(n as int, width as int));
    }
}

/// Renders `now` in the house format `YYYY-MM-DD HH:mm`: each part
/// zero-padded, the year to four characters.
pub fn house_format(now: &Timestamp) -> (r: String)
    ensures
        r@ == spec_house_format(*now),
{
    let mut out = String::new();
    push_padded_int(&mut out, now.year, 4);
    push_char(&mut out, '-');
    push_padded_nat(&mut out, now.month as u64, 2);
    push_char(&mut out, '-');
    push_padded_nat(&mut out, now.day as u64, 2);
    push_char(&mut out, ' ');
    push_padded_nat(&mut out, now.hour as u64, 2);
    push_char(&mut out, ':');
    push_padded_nat(&mut out, now.minute as u64, 2);
    assert(out@ =~= spec_house_format(*now));
    out
}

/// Where a value-map entry came from, in ascending precedence:
/// `Template` < `Branch` < `Key` < `SetArg`.
#[derive(Debug, Clone, Copy, PartialEq, Eq, Structural)]
pub enum Source {
    /// `[template.values]`: static template defaults.
    Template,
    /// Named captures from the branch pattern.
    Branch,
    /// Captures from matching the pattern against the explicit key.
    Key,
    /// `--set NAME=VALUE`: the user's explicit word, highest.
    SetArg,
}

/// The merged value map: for each name, its value and the layer it came
/// from. Layers are inserted in ascending precedence; a later insert
/// overwrites an earlier one. Entries are kept in insertion order and a
/// lookup reads the latest entry for a name.
pub struct ValueMap {
    entries: Vec<(String, String, Source)>,
}

/// The map an insertion log denotes: later entries overwrite earlier ones.
pub open spec fn log_map(s: Seq<(String, String, Source)>) -> Map<Seq<char>, (Seq<char>, Source)>
    decreases s.len(),
{
    if s.len() == 0 {
        Map::empty()
    } else {
        let e = s.last();
        log_map(s.drop_last()).insert(e.0@, (e.1@, e.2))
    }
}

/// Index of the latest entry named `k`, or -1.
pub open spec fn last_with(s: Seq<(String, String, Source)>, k: Seq<char>) -> int
    decreases s.len(),
{
    if s.len() == 0 {
        -1
    } else if s.last().0@ == k {
        s.len() - 1
    } else {
        last_with(s.drop_last(), k)
    }
}

proof fn lemma_log_lookup(s: Seq<(String, String, Source)>, k: Seq<char>)
    ensures
        -1 <= last_with(s, k) < s.len(),
        log_map(s).dom().contains(k) <==> last_with(s, k) >= 0,
        last_with(s, k) >= 0 ==> s[last_with(s, k)].0@ == k && log_map(s)[k] == (
            s[last_with(s, k)].1@,
            s[last_with(s, k)].2,
        ),
    decreases s.len(),
{
    if s.len() > 0 {
        lemma_log_lookup(s.drop_last(), k);
    }
}

/// `pairs` inserted one by one from `source`.
pub open spec fn insert_pairs(
    m: Map<Seq<char>, (Seq<char>, Source)>,
    pairs: Seq<(Seq<char>, Seq<char>)>,
    source: Source,
) -> Map<Seq<char>, (Seq<char>, Source)>
    decreases pairs.len(),
{
    if pairs.len() == 0 {
        m
    } else {
        let p = pairs.last();
        insert_pairs(m, pairs.drop_last(), source).insert(p.0, (p.1, source))
    }
}

/// The keys of `pairs` are distinct, as those of a map are.
pub open spec fn distinct_keys(pairs: Seq<(Seq<char>, Seq<char>)>) -> bool {
    forall|i: int, j: int| 0 <= i < j < pairs.len() ==> #[trigger] pairs[i].0 != #[trigger] pairs[j].0
}

/// Some pair of `pairs` has the key `k`.
pub open spec fn has_key(pairs: Seq<(Seq<char>, Seq<char>)>, k: Seq<char>) -> bool {
    exists|i: int| 0 <= i < pairs.len() && #[trigger] pairs[i].0 == k
}

/// A layer of distinct keys reads as the map it stands for, whatever the
/// order of its pairs: each key of the layer maps to its value from
/// `source`, and every other key keeps what `m` held.
pub proof fn lemma_layer_is_a_map(
    m: Map<Seq<char>, (Seq<char>, Source)>,
    pairs: Seq<(Seq<char>, Seq<char>)>,
    source: Source,
)
    requires
        distinct_keys(pairs),
    ensures
        forall|i: int|
            0 <= i < pairs.len() ==> #[trigger] insert_pairs(m, pairs, source).contains_key(pairs[i].0)
                && insert_pairs(m, pairs, source)[pairs[i].0] == (pairs[i].1, source),
        forall|k: Seq<char>|
            #![trigger insert_pairs(m, pairs, source).contains_key(k)]
            !has_key(pairs, k) ==> (insert_pairs(m, pairs, source).contains_key(k) <==> m.contains_key(k)),
        forall|k: Seq<char>|
            #![trigger insert_pairs(m, pairs, source)[k]]
            !has_key(pairs, k) && m.contains_key(k) ==> insert_pairs(m, pairs, source)[k] == m[k],
    decreases pairs.len(),
{
    if pairs.len() > 0 {
        let init = pairs.drop_last();
        assert forall|i: int, j: int| 0 <= i < j < init.len() implies #[trigger] init[i].0 != #[trigger] init[j].0 by {
            assert(init[i] == pairs[i] && init[j] == pairs[j]);
        }
        lemma_layer_is_a_map(m, init, source);
        let r0 = insert_pairs(m, init, source);
        let p = pairs.last();
        let r = insert_pairs(m, pairs, source);
        assert(r == r0.insert(p.0, (p.1, source)));
        assert forall|i: int| 0 <= i < pairs.len() implies #[trigger] r.contains_key(pairs[i].0) && r[pairs[i].0]
            == (pairs[i].1, source) by {
            if i < pairs.len() - 1 {
                assert(init[i] == pairs[i]);
                assert(pairs[i].0 != pairs[pairs.len() - 1].0);
            }
        }
        assert forall|k: Seq<char>| !has_key(pairs, k) implies (r.contains_key(k) <==> m.contains_key(k)) && (
        m.contains_key(k) ==> r[k] == m[k]) by {
            if p.0 == k {
                assert(pairs[pairs.len() - 1].0 == k);
            }
            if has_key(init, k) {
                let i = choose|i: int| 0 <= i < init.len() && #[trigger] init[i].0 == k;
                assert(pairs[i].0 == k);
            }
        }
    } else {
        let r = insert_pairs(m, pairs, source);
        assert(r == m);
        assert(r =~= m);
    }
}

impl View for ValueMap {
    type V = Map<Seq<char>, (Seq<char>, Source)>;

    closed spec fn view(&self) -> Map<Seq<char>, (Seq<char>, Source)> {
        log_map(self.entries@)
    }
}

impl ValueMap {
    pub fn new() -> (r: ValueMap)
        ensures
            r@ == Map::<Seq<char>, (Seq<char>, Source)>::empty(),
    {
        ValueMap { entries: Vec::new() }
    }

    /// Sets `name` to `value` from layer `source`, overwriting any earlier
    /// layer's entry for the same name.
    pub fn insert(&mut self, source: Source, name: &str, value: &str)
        ensures
            final(self)@ == old(self)@.insert(name@, (value@, source)),
    {
        self.entries.push((String::from_str(name), String::from_str(value), source));
        proof {
            assert(self.entries@.drop_last() =~= old(self).entries@);
        }
    }

    /// Inserts a whole layer, pair by pair in order.
    pub fn insert_all(&mut self, source: Source, pairs: &Vec<(String, String)>)
        ensures
            final(self)@ == insert_pairs(old(self)@, pairs_view(pairs@), source),
    {
        let mut i: usize = 0;
        while i < pairs.len()
            invariant
                i <= pairs@.len(),
                self@ == insert_pairs(old(self)@, pairs_view(pairs@.take(i as int)), source),
            decreases pairs@.len() - i,
        {
            let (name, value) = &pairs[i];
            self.insert(source, name.as_str(), value.as_str());
            proof {
                assert(pairs_view(pairs@.take(i + 1)).drop_last() =~= pairs_view(pairs@.take(i as int)));
            }
            i = i + 1;
        }
        proof {
            assert(pairs@.take(pairs@.len() as int) =~= pairs@);
        }
    }

    fn latest(&self, name: &str) -> (r: Option<usize>)
        ensures
            match r {
                Some(i) => i == last_with(self.entries@, name@) && i < self.entries@.len(),
                None => last_with(self.entries@, name@) == -1,
            },
    {
        let mut i = self.entries.len();
        assert(self.entries@.take(i as int) =~= self.entries@);
        while i > 0
            invariant
                i <= self.entries@.len(),
                last_with(self.entries@, name@) == last_with(self.entries@.take(i as int), name@),
            decreases i,
        {
            let ghost s = self.entries@.take(i as int);
            assert(s.drop_last() =~= self.entries@.take(i - 1));
            if str_eq(self.entries[i - 1].0.as_str(), name) {
                return Some(i - 1);
            }
            i = i - 1;
        }
        None
    }

    /// The value for `name`, from the highest layer that set it.
    pub fn get(&self, name: &str) -> (r: Option<&str>)
        ensures
            match r {
                Some(v) => self@.dom().contains(name@) && v@ == self@[name@].0,
                None => !self@.dom().contains(name@),
            },
    {
        proof {
            lemma_log_lookup(self.entries@, name@);
        }
        match self.latest(name) {
            Some(i) => Some(self.entries[i].1.as_str()),
            None => None,
        }
    }

    /// The layer the entry for `name` came from.
    pub fn source_of(&self, name: &str) -> (r: Option<Source>)
        ensures
            match r {
                Some(s) => self@.dom().contains(name@) && s == self@[name@].1,
                None => !self@.dom().contains(name@),
            },
    {
        proof {
            lemma_log_lookup(self.entries@, name@);
        }
        match self.latest(name) {
            Some(i) => Some(self.entries[i].2),
            None => None,
        }
    }
}

/// Layers merge by precedence: after two inserts for one name, the value
/// and layer are those of the later insert, whatever the earlier one was.
pub proof fn lemma_later_layer_wins(
    m: Map<Seq<char>, (Seq<char>, Source)>,
    name: Seq<char>,
    first: (Seq<char>, Source),
    second: (Seq<char>, Source),
)
    ensures
        m.insert(name, first).insert(name, second) == m.insert(name, second),
        m.insert(name, first).insert(name, second)[name] == second,
{
    assert(m.insert(name, first).insert(name, second) =~= m.insert(name, second));
}

/// `t` holds `c` twice in a row at `i`.
pub open spec fn pair_at(t: Seq<char>, i: int, c: char) -> bool {
    0 <= i && i + 1 < t.len() && t[i] == c && t[i + 1] == c
}

/// The first `i` in `[p, hi - 1)` where `c` appears twice in a row.
pub open spec fn find_pair(t: Seq<char>, p: int, hi: int, c: char) -> Option<int>
    decreases hi - p,
{
    if p < 0 || p + 1 >= hi || hi > t.len() {
        None
    } else if t[p] == c && t[p + 1] == c {
        Some(p)
    } else {
        find_pair(t, p + 1, hi, c)
    }
}

pub proof fn lemma_find_pair(t: Seq<char>, p: int, hi: int, c: char)
    ensures
        find_pair(t, p, hi, c) matches Some(i) ==> p <= i && i + 1 < hi <= t.len() && pair_at(t, i, c) && forall|j: int|
            p <= j < i ==> !#[trigger] pair_at(t, j, c),
        find_pair(t, p, hi, c) is None && 0 <= p && hi <= t.len() ==> forall|j: int|
            p <= j && j + 1 < hi ==> !#[trigger] pair_at(t, j, c),
    decreases hi - p,
{
    if !(p < 0 || p + 1 >= hi || hi > t.len()) && !(t[p] == c && t[p + 1] == c) {
        lemma_find_pair(t, p + 1, hi, c);
    }
}

/// The number of `c` in `s`.
pub open spec fn count_char(s: Seq<char>, c: char) -> nat
    decreases s.len(),
{
    if s.len() == 0 {
        0
    } else {
        count_char(s.drop_last(), c) + if s.last() == c {
            1nat
        } else {
            0nat
        }
    }
}

/// The 1-based line that offset `k` falls on.
pub open spec fn line_no(t: Seq<char>, k: int) -> int {
    (1 + count_char(t.take(k), '\n')) as int
}

/// A placeholder occurrence: its kind and the range `[start, end)` it
/// occupies, delimiters included.
pub enum PlaceholderModel {
    Value { name: Seq<char>, start: int, end: int },
    Date { start: int, end: int },
}

/// Why a template does not render.
pub enum TemplateFault {
    Construct { construct: Seq<char>, line: int },
    DateFormat { arg: Seq<char>, line: int },
    Missing { name: Seq<char>, line: int },
}

pub open spec fn value_tag() -> Seq<char> {
    "VALUE:"@
}

pub open spec fn date_tag() -> Seq<char> {
    "DATE:"@
}

/// Every `{{...}}` from offset `p` on, in order; the first malformed one
/// is the error. A `{{` needs its `}}` before the next newline; the
/// inside must be `VALUE:` and a non-empty name, or `DATE:` and exactly
/// the house format.
#[verifier::opaque]
pub open spec fn spec_scan(t: Seq<char>, p: int) -> Result<Seq<PlaceholderModel>, TemplateFault>
    decreases t.len() - p,
{
    if p < 0 || p > t.len() {
        Ok(Seq::empty())
    } else {
        match find_pair(t, p, t.len() as int, '{') {
            None => Ok(Seq::empty()),
            Some(open) => {
                let q = open + 2;
                let le = index_of_from(t, '\n', q);
                let line = line_no(t, open);
                proof {
                    lemma_find_pair(t, p, t.len() as int, '{');
                    lemma_index_of_from(t, '\n', q);
                    lemma_find_pair(t, q, le, '}');
                }
                match find_pair(t, q, le, '}') {
                    None => Err(TemplateFault::Construct { construct: t.subrange(q, le), line }),
                    Some(c) => {
                        let inner = t.subrange(q, c);
                        let end = c + 2;
                        if has_prefix(inner, value_tag()) {
                            let name = inner.skip(value_tag().len() as int);
                            if name.len() > 0 {
                                match spec_scan(t, end) {
                                    Ok(rest) => Ok(
                                        seq![PlaceholderModel::Value { name, start: open, end }]
                                            + rest,
                                    ),
                                    Err(e) => Err(e),
                                }
                            } else {
                                Err(TemplateFault::Construct { construct: inner, line })
                            }
                        } else if has_prefix(inner, date_tag()) {
                            let arg = inner.skip(date_tag().len() as int);
                            if arg == DATE_FORMAT@ {
                                match spec_scan(t, end) {
                                    Ok(rest) => Ok(
                                        seq![PlaceholderModel::Date { start: open, end }] + rest,
                                    ),
                                    Err(e) => Err(e),
                                }
                            } else {
                                Err(TemplateFault::DateFormat { arg, line })
                            }
                        } else {
                            Err(TemplateFault::Construct { construct: inner, line })
                        }
                    },
                }
            },
        }
    }
}

pub open spec fn ph_start(p: PlaceholderModel) -> int {
    match p {
        PlaceholderModel::Value { start, .. } => start,
        PlaceholderModel::Date { start, .. } => start,
    }
}

pub open spec fn ph_end(p: PlaceholderModel) -> int {
    match p {
        PlaceholderModel::Value { end, .. } => end,
        PlaceholderModel::Date { end, .. } => end,
    }
}

/// The placeholders lie in order inside `t[lo..]`, each non-empty.
pub open spec fn placed_from(t: Seq<char>, ps: Seq<PlaceholderModel>, lo: int) -> bool {
    &&& forall|i: int| 0 <= i < ps.len() ==> lo <= ph_start(#[trigger] ps[i]) < ph_end(ps[i]) <= t.len()
    &&& forall|i: int| 0 <= i < ps.len() - 1 ==> ph_end(#[trigger] ps[i]) <= ph_start(ps[i + 1])
}

proof fn lemma_placed_cons(t: Seq<char>, ph: PlaceholderModel, rest: Seq<PlaceholderModel>, p: int)
    requires
        p <= ph_start(ph) < ph_end(ph) <= t.len(),
        placed_from(t, rest, ph_end(ph)),
    ensures
        placed_from(t, seq![ph] + rest, p),
{
    let ps = seq![ph] + rest;
    assert forall|i: int| 0 <= i < ps.len() implies p <= ph_start(#[trigger] ps[i]) < ph_end(ps[i])
        <= t.len() by {
        if i > 0 {
            assert(ps[i] == rest[i - 1]);
        }
    }
    assert forall|i: int| 0 <= i < ps.len() - 1 implies ph_end(#[trigger] ps[i]) <= ph_start(
        ps[i + 1],
    ) by {
        assert(ps[i + 1] == rest[i]);
        if i > 0 {
            assert(ps[i] == rest[i - 1]);
        }
    }
}

#[verifier::rlimit(30)]
proof fn lemma_scan_placed(t: Seq<char>, p: int)
    requires
        0 <= p <= t.len(),
    ensures
        spec_scan(t, p) matches Ok(ps) ==> placed_from(t, ps, p),
    decreases t.len() - p,
{
    reveal(spec_scan);
    lemma_find_pair(t, p, t.len() as int, '{');
    match find_pair(t, p, t.len() as int, '{') {
        None => {},
        Some(open) => {
            let q = open + 2;
            lemma_index_of_from(t, '\n', q);
            let le = index_of_from(t, '\n', q);
            lemma_find_pair(t, q, le, '}');
            match find_pair(t, q, le, '}') {
                None => {},
                Some(c) => {
                    let end = c + 2;
                    lemma_scan_placed(t, end);
                    match spec_scan(t, end) {
                        Err(_) => {},
                        Ok(rest) => {
                            let name = t.subrange(q, c).skip(value_tag().len() as int);
                            lemma_placed_cons(
                                t,
                                PlaceholderModel::Value { name, start: open, end },
                                rest,
                                p,
                            );
                            lemma_placed_cons(t, PlaceholderModel::Date { start: open, end }, rest, p);
                        },
                    }
                },
            }
        },
    }
}

/// The text of a found placeholder: `{{VALUE:` a non-empty name on one
/// line `}}`, or exactly `{{DATE:YYYY-MM-DD HH:mm}}`.
pub open spec fn well_formed_at(t: Seq<char>, ph: PlaceholderModel) -> bool {
    match ph {
        PlaceholderModel::Value { name, start, end } => {
            &&& name.len() > 0
            &&& !crate::text::has_char(name, '\n')
            &&& t.subrange(start, end) == seq!['{', '{'] + value_tag() + name + seq!['}', '}']
        },
        PlaceholderModel::Date { start, end } => t.subrange(start, end) == seq!['{', '{'] + date_tag()
            + DATE_FORMAT@ + seq!['}', '}'],
    }
}

/// No `{{` starts in `[lo, hi)`.
pub open spec fn no_open_pair(t: Seq<char>, lo: int, hi: int) -> bool {
    forall|j: int| lo <= j < hi ==> !#[trigger] pair_at(t, j, '{')
}

/// Where the text before placeholder `k` starts, the first starting at
/// `lo`.
pub open spec fn gap_start(ps: Seq<PlaceholderModel>, k: int, lo: int) -> int {
    if k <= 0 {
        lo
    } else {
        ph_end(ps[k - 1])
    }
}

pub open spec fn fault_line(f: TemplateFault) -> int {
    match f {
        TemplateFault::Construct { line, .. } => line,
        TemplateFault::DateFormat { line, .. } => line,
        TemplateFault::Missing { line, .. } => line,
    }
}

#[verifier::rlimit(40)]
proof fn lemma_scan_shapes(t: Seq<char>, p: int)
    requires
        0 <= p <= t.len(),
    ensures
        spec_scan(t, p) matches Ok(ps) ==> (forall|i: int| 0 <= i < ps.len() ==> #[trigger] well_formed_at(t, ps[i]))
            && (forall|i: int| 0 <= i < ps.len() ==> no_open_pair(t, gap_start(ps, i, p), ph_start(#[trigger] ps[i])))
            && no_open_pair(t, gap_start(ps, ps.len() as int, p), t.len() as int),
        spec_scan(t, p) matches Err(f) ==> exists|o: int|
            p <= o && #[trigger] pair_at(t, o, '{') && fault_line(f) == line_no(t, o) && forall|j: int|
                p <= j < o && pair_at(t, j, '{') ==> #[trigger] inside_placeholder(t, j),
    decreases t.len() - p,
{
    reveal(spec_scan);
    lemma_find_pair(t, p, t.len() as int, '{');
    match find_pair(t, p, t.len() as int, '{') {
        None => {
            assert forall|j: int| p <= j < t.len() implies !#[trigger] pair_at(t, j, '{') by {
                if j + 1 < t.len() {
                }
            }
        },
        Some(open) => {
            let q = open + 2;
            lemma_index_of_from(t, '\n', q);
            let le = index_of_from(t, '\n', q);
            lemma_find_pair(t, q, le, '}');
            match find_pair(t, q, le, '}') {
                None => {},
                Some(c) => {
                    let end = c + 2;
                    let inner = t.subrange(q, c);
                    lemma_scan_placed(t, end);
                    lemma_scan_shapes(t, end);
                    let accepted: Option<PlaceholderModel> = if has_prefix(inner, value_tag()) {
                        let name = inner.skip(value_tag().len() as int);
                        if name.len() > 0 {
                            Some(PlaceholderModel::Value { name, start: open, end })
                        } else {
                            None
                        }
                    } else if has_prefix(inner, date_tag()) && inner.skip(date_tag().len() as int) == DATE_FORMAT@ {
                        Some(PlaceholderModel::Date { start: open, end })
                    } else {
                        None
                    };
                    if let Some(ph) = accepted {
                        if has_prefix(inner, value_tag()) {
                            let name = inner.skip(value_tag().len() as int);
                            assert(inner =~= value_tag() + name);
                            assert(t.subrange(open, end) =~= seq!['{', '{'] + inner + seq!['}', '}']);
                            assert(!crate::text::has_char(name, '\n')) by {
                                if crate::text::has_char(name, '\n') {
                                    let k = choose|k: int| 0 <= k < name.len() && name[k] == '\n';
                                    assert(t[q + 6 + k] == '\n');
                                }
                            }
                            assert(t.subrange(open, end) =~= seq!['{', '{'] + value_tag() + name + seq!['}', '}']);
                        } else {
                            let arg = inner.skip(date_tag().len() as int);
                            assert(inner =~= date_tag() + arg);
                            assert(t.subrange(open, end) =~= seq!['{', '{'] + inner + seq!['}', '}']);
                            assert(t.subrange(open, end) =~= seq!['{', '{'] + date_tag() + DATE_FORMAT@ + seq![
                                '}',
                                '}',
                            ]);
                        }
                        assert(well_formed_at(t, ph));
                        match spec_scan(t, end) {
                            Ok(rest) => {
                                assert(spec_scan(t, p) == Ok::<Seq<PlaceholderModel>, TemplateFault>(
                                    seq![ph] + rest,
                                ));
                                lemma_shapes_cons(t, p, ph, rest);
                            },
                            Err(f) => {
                                assert(spec_scan(t, p) == Err::<Seq<PlaceholderModel>, TemplateFault>(f));
                                let o = choose|o: int|
                                    end <= o && #[trigger] pair_at(t, o, '{') && fault_line(f) == line_no(t, o)
                                        && forall|j: int| end <= j < o && pair_at(t, j, '{') ==> #[trigger] inside_placeholder(t, j);
                                assert forall|j: int| p <= j < o && pair_at(t, j, '{') implies #[trigger] inside_placeholder(
                                    t,
                                    j,
                                ) by {
                                    if open <= j < end {
                                        assert(ph_start(ph) <= j < ph_end(ph) && well_formed_at(t, ph));
                                    }
                                }
                            },
                        }
                    }
                },
            }
        },
    }
}

/// Position `j` lies inside a well-formed placeholder.
pub open spec fn inside_placeholder(t: Seq<char>, j: int) -> bool {
    exists|ph: PlaceholderModel| ph_start(ph) <= j < ph_end(ph) && #[trigger] well_formed_at(t, ph)
}

proof fn lemma_shapes_cons(t: Seq<char>, p: int, ph: PlaceholderModel, rest: Seq<PlaceholderModel>)
    requires
        well_formed_at(t, ph),
        no_open_pair(t, p, ph_start(ph)),
        forall|i: int| 0 <= i < rest.len() ==> #[trigger] well_formed_at(t, rest[i]),
        forall|i: int| 0 <= i < rest.len() ==> no_open_pair(t, gap_start(rest, i, ph_end(ph)), ph_start(#[trigger] rest[i])),
        no_open_pair(t, gap_start(rest, rest.len() as int, ph_end(ph)), t.len() as int),
    ensures
        ({
            let ps = seq![ph] + rest;
            &&& forall|i: int| 0 <= i < ps.len() ==> #[trigger] well_formed_at(t, ps[i])
            &&& forall|i: int| 0 <= i < ps.len() ==> no_open_pair(t, gap_start(ps, i, p), ph_start(#[trigger] ps[i]))
            &&& no_open_pair(t, gap_start(ps, ps.len() as int, p), t.len() as int)
        }),
{
    let ps = seq![ph] + rest;
    assert forall|i: int| 0 <= i < ps.len() implies #[trigger] well_formed_at(t, ps[i]) by {
        if i > 0 {
            assert(ps[i] == rest[i - 1]);
        }
    }
    assert forall|i: int| 0 <= i < ps.len() implies no_open_pair(t, gap_start(ps, i, p), ph_start(#[trigger] ps[i])) by {
        if i > 0 {
            assert(ps[i] == rest[i - 1]);
            if i > 1 {
                assert(ps[i - 1] == rest[i - 2]);
            }
            assert(gap_start(ps, i, p) == gap_start(rest, i - 1, ph_end(ph)));
        }
    }
    if rest.len() > 0 {
        assert(ps[ps.len() - 1] == rest[rest.len() - 1]);
    }
    assert(gap_start(ps, ps.len() as int, p) == gap_start(rest, rest.len() as int, ph_end(ph)));
}

/// The structure of a template's placeholders: every `{{` of the text is
/// either the start of a placeholder the scan returns, in order and
/// disjoint, each `{{VALUE:` a non-empty name on one line `}}` or exactly
/// `{{DATE:YYYY-MM-DD HH:mm}}`, with no other `{{` before, between or
/// after them; or the scan fails, on the line of a `{{` before which every
/// `{{` lies inside a well-formed placeholder.
pub proof fn lemma_scan_structure(t: Seq<char>)
    ensures
        spec_scan(t, 0) matches Ok(ps) ==> placed_from(t, ps, 0) && (forall|i: int|
            0 <= i < ps.len() ==> #[trigger] well_formed_at(t, ps[i])) && (forall|i: int|
            0 <= i < ps.len() ==> no_open_pair(t, prev_end(ps, i), ph_start(#[trigger] ps[i]))) && no_open_pair(
            t,
            prev_end(ps, ps.len() as int),
            t.len() as int,
        ),
        spec_scan(t, 0) matches Err(f) ==> exists|o: int|
            0 <= o && #[trigger] pair_at(t, o, '{') && fault_line(f) == line_no(t, o) && forall|j: int|
                0 <= j < o && pair_at(t, j, '{') ==> #[trigger] inside_placeholder(t, j),
{
    lemma_scan_placed(t, 0);
    lemma_scan_shapes(t, 0);
    if let Ok(ps) = spec_scan(t, 0) {
        assert forall|i: int| 0 <= i < ps.len() implies no_open_pair(t, prev_end(ps, i), ph_start(#[trigger] ps[i])) by {
            assert(prev_end(ps, i) == gap_start(ps, i, 0));
        }
        assert(prev_end(ps, ps.len() as int) == gap_start(ps, ps.len() as int, 0));
    }
}

/// One classified `{{...}}` occurrence: its kind and the character range
/// it occupies in the template text, delimiters included.
pub enum Placeholder {
    Value { name: String, span: (usize, usize) },
    Date { span: (usize, usize) },
}

pub open spec fn placeholder_model(p: Placeholder) -> PlaceholderModel {
    match p {
        Placeholder::Value { name, span } => PlaceholderModel::Value {
            name: name@,
            start: span.0 as int,
            end: span.1 as int,
        },
        Placeholder::Date { span } => PlaceholderModel::Date { start: span.0 as int, end: span.1 as int },
    }
}

pub open spec fn placeholders_model(v: Seq<Placeholder>) -> Seq<PlaceholderModel> {
    v.map_values(|p: Placeholder| placeholder_model(p))
}

/// The error a fault is reported as.
pub open spec fn reports(e: VaultError, f: TemplateFault) -> bool {
    match f {
        TemplateFault::Construct { construct, line } => e matches VaultError::UnsupportedConstruct {
            construct: c,
            line: l,
        } && c@ == construct && l == line,
        TemplateFault::DateFormat { arg, line } => e matches VaultError::UnsupportedDateFormat {
            arg: a,
            line: l,
        } && a@ == arg && l == line,
        TemplateFault::Missing { name, line } => e matches VaultError::PlaceholderWithoutValue {
            name: n,
            line: l,
        } && n@ == name && l == line,
    }
}

/// The first `i` in `[p, hi - 1)` where `c` appears twice in a row.
pub fn find_pair_in(t: &Vec<char>, p: usize, hi: usize, c: char) -> (r: Option<usize>)
    requires
        p <= hi <= t@.len(),
    ensures
        match r {
            Some(i) => find_pair(t@, p as int, hi as int, c) == Some(i as int),
            None => find_pair(t@, p as int, hi as int, c) is None,
        },
{
    let mut i = p;
    while hi - i > 1
        invariant
            p <= i <= hi <= t@.len(),
            find_pair(t@, p as int, hi as int, c) == find_pair(t@, i as int, hi as int, c),
        decreases hi - i,
    {
        if t[i] == c && t[i + 1] == c {
            return Some(i);
        }
        i = i + 1;
    }
    None
}

/// The 1-based line that character offset `offset` falls on.
fn line_of(t: &Vec<char>, offset: usize) -> (r: usize)
    requires
        offset < t@.len(),
    ensures
        r == line_no(t@, offset as int),
{
    let n = t.len();
    let mut count: usize = 0;
    let mut i: usize = 0;
    while i < offset
        invariant
            i <= offset < t@.len(),
            count <= i,
            count == count_char(t@.take(i as int), '\n'),
            n == t@.len(),
        decreases offset - i,
    {
        assert(t@.take(i + 1).drop_last() =~= t@.take(i as int));
        if t[i] == '\n' {
            count = count + 1;
        }
        i = i + 1;
    }
    1 + count
}

pub open spec fn prepend(acc: Seq<PlaceholderModel>, r: Result<Seq<PlaceholderModel>, TemplateFault>) -> Result<
    Seq<PlaceholderModel>,
    TemplateFault,
> {
    match r {
        Ok(x) => Ok(acc + x),
        Err(e) => Err(e),
    }
}

/// Classifies every `{{...}}` in the text, in order.
fn scan(t: &Vec<char>) -> (r: Result<Vec<Placeholder>, VaultError>)
    ensures
        match r {
            Ok(ps) => spec_scan(t@, 0) == Ok::<Seq<PlaceholderModel>, TemplateFault>(placeholders_model(ps@)),
            Err(e) => spec_scan(t@, 0) matches Err(f) && reports(e, f),
        },
{
    reveal(spec_scan);
    let value_v = crate::text::chars_of("VALUE:");
    let date_v = crate::text::chars_of("DATE:");
    let format_v = crate::text::chars_of(DATE_FORMAT);
    let mut out: Vec<Placeholder> = Vec::new();
    let mut cursor: usize = 0;
    assert(Seq::<PlaceholderModel>::empty() + spec_scan(t@, 0)->Ok_0 =~= spec_scan(t@, 0)->Ok_0);
    while cursor <= t.len()
        invariant
            cursor <= t@.len(),
            value_v@ == value_tag(),
            date_v@ == date_tag(),
            format_v@ == DATE_FORMAT@,
            spec_scan(t@, 0) == prepend(placeholders_model(out@), spec_scan(t@, cursor as int)),
        decreases t@.len() - cursor,
    {
        let ghost acc = placeholders_model(out@);
        proof {
            reveal(spec_scan);
            lemma_find_pair(t@, cursor as int, t@.len() as int, '{');
        }
        let open = match find_pair_in(t, cursor, t.len(), '{') {
            None => {
                assert(acc + Seq::<PlaceholderModel>::empty() =~= acc);
                return Ok(out);
            },
            Some(open) => open,
        };
        let q = open + 2;
        let le = crate::text::find_char(t, q, t.len(), '\n');
        proof {
            crate::text::lemma_index_of_from(t@, '\n', q as int);
            lemma_index_of_search(t@, q as int);
            lemma_find_pair(t@, q as int, le as int, '}');
        }
        let line = line_of(t, open);
        let c = match find_pair_in(t, q, le, '}') {
            None => {
                return Err(
                    VaultError::UnsupportedConstruct {
                        construct: crate::text::string_of_range(t, q, le),
                        line,
                    },
                );
            },
            Some(c) => c,
        };
        let end = c + 2;
        if crate::text::range_has_prefix(t, q, c, &value_v) {
            let nlo = q + value_v.len();
            assert(t@.subrange(q as int, c as int).skip(value_tag().len() as int) =~= t@.subrange(
                nlo as int,
                c as int,
            ));
            if nlo < c {
                let name = crate::text::string_of_range(t, nlo, c);
                let ph = Placeholder::Value { name, span: (open, end) };
                proof {
                    assert(placeholders_model(out@.push(ph)) =~= acc.push(placeholder_model(ph)));
                    if let Ok(x) = spec_scan(t@, end as int) {
                        assert(acc + (seq![placeholder_model(ph)] + x) =~= acc.push(placeholder_model(ph)) + x);
                    }
                }
                out.push(ph);
            } else {
                return Err(
                    VaultError::UnsupportedConstruct {
                        construct: crate::text::string_of_range(t, q, c),
                        line,
                    },
                );
            }
        } else if crate::text::range_has_prefix(t, q, c, &date_v) {
            let alo = q + date_v.len();
            assert(t@.subrange(q as int, c as int).skip(date_tag().len() as int) =~= t@.subrange(
                alo as int,
                c as int,
            ));
            if crate::text::range_eq(t, alo, c, &format_v) {
                let ph = Placeholder::Date { span: (open, end) };
                proof {
                    assert(placeholders_model(out@.push(ph)) =~= acc.push(placeholder_model(ph)));
                    if let Ok(x) = spec_scan(t@, end as int) {
                        assert(acc + (seq![placeholder_model(ph)] + x) =~= acc.push(placeholder_model(ph)) + x);
                    }
                }
                out.push(ph);
            } else {
                return Err(
                    VaultError::UnsupportedDateFormat {
                        arg: crate::text::string_of_range(t, alo, c),
                        line,
                    },
                );
            }
        } else {
            return Err(
                VaultError::UnsupportedConstruct {
                    construct: crate::text::string_of_range(t, q, c),
                    line,
                },
            );
        }
        cursor = end;
    }
    Ok(out)
}

/// `find_char` from `q` to the end finds the same newline as
/// `index_of_from` does.
proof fn lemma_index_of_search(t: Seq<char>, q: int)
    requires
        0 <= q <= t.len(),
    ensures
        q + index_of(t.subrange(q, t.len() as int), '\n') == index_of_from(t, '\n', q),
{
    let s = t.subrange(q, t.len() as int);
    lemma_index_of_shift(t, s, q, 0);
}

proof fn lemma_index_of_shift(t: Seq<char>, s: Seq<char>, q: int, k: int)
    requires
        0 <= q <= t.len(),
        s == t.subrange(q, t.len() as int),
        0 <= k <= s.len(),
    ensures
        q + index_of_from(s, '\n', k) == index_of_from(t, '\n', q + k),
    decreases s.len() - k,
{
    if k < s.len() && s[k] != '\n' {
        lemma_index_of_shift(t, s, q, k + 1);
    }
}

pub open spec fn prev_end(ps: Seq<PlaceholderModel>, k: int) -> int {
    if k <= 0 {
        0
    } else {
        ph_end(ps[k - 1])
    }
}

/// What a placeholder is replaced by.
pub open spec fn replacement(
    ph: PlaceholderModel,
    vals: Map<Seq<char>, (Seq<char>, Source)>,
    stamp: Seq<char>,
) -> Seq<char> {
    match ph {
        PlaceholderModel::Value { name, .. } => vals[name].0,
        PlaceholderModel::Date { .. } => stamp,
    }
}

/// The text up to the end of placeholder `k - 1`, with the first `k`
/// placeholders replaced and everything between them kept.
pub open spec fn fill(
    t: Seq<char>,
    ps: Seq<PlaceholderModel>,
    k: int,
    vals: Map<Seq<char>, (Seq<char>, Source)>,
    stamp: Seq<char>,
) -> Seq<char>
    decreases k,
{
    if k <= 0 {
        Seq::empty()
    } else {
        fill(t, ps, k - 1, vals, stamp) + t.subrange(prev_end(ps, k - 1), ph_start(ps[k - 1]))
            + replacement(ps[k - 1], vals, stamp)
    }
}

/// The first `VALUE` placeholder at or after `k` whose name has no value.
pub open spec fn first_missing(
    ps: Seq<PlaceholderModel>,
    vals: Map<Seq<char>, (Seq<char>, Source)>,
    k: int,
) -> Option<int>
    decreases ps.len() - k,
{
    if k < 0 || k >= ps.len() {
        None
    } else if ps[k] matches PlaceholderModel::Value { name, .. } && !vals.dom().contains(name) {
        Some(k)
    } else {
        first_missing(ps, vals, k + 1)
    }
}

/// The rendered text: every placeholder replaced (a `VALUE` by its
/// value, a `DATE` by `stamp`), every other character kept. A malformed
/// placeholder anywhere is reported first; then the first `VALUE` with no
/// value.
pub open spec fn spec_substitute(
    t: Seq<char>,
    vals: Map<Seq<char>, (Seq<char>, Source)>,
    stamp: Seq<char>,
) -> Result<Seq<char>, TemplateFault> {
    match spec_scan(t, 0) {
        Err(f) => Err(f),
        Ok(ps) => match first_missing(ps, vals, 0) {
            Some(i) => Err(
                TemplateFault::Missing { name: ps[i]->name, line: line_no(t, ph_start(ps[i])) },
            ),
            None => Ok(
                fill(t, ps, ps.len() as int, vals, stamp) + t.subrange(
                    prev_end(ps, ps.len() as int),
                    t.len() as int,
                ),
            ),
        },
    }
}

/// The rendering of already classified placeholders: the first `VALUE`
/// without a value is the error, else every placeholder is replaced.
fn fill_placeholders(t: &Vec<char>, placeholders: &Vec<Placeholder>, values: &ValueMap, stamp: &String) -> (r:
    Result<String, VaultError>)
    requires
        placed_from(t@, placeholders_model(placeholders@), 0),
    ensures
        ({
            let ps = placeholders_model(placeholders@);
            match first_missing(ps, values@, 0) {
                Some(i) => r matches Err(e) && reports(
                    e,
                    TemplateFault::Missing { name: ps[i]->name, line: line_no(t@, ph_start(ps[i])) },
                ),
                None => r matches Ok(s) && s@ == fill(t@, ps, ps.len() as int, values@, stamp@)
                    + t@.subrange(prev_end(ps, ps.len() as int), t@.len() as int),
            }
        }),
{
    let ghost ps = placeholders_model(placeholders@);
    let ghost vals = values@;
    let mut out = String::new();
    let mut cursor: usize = 0;
    let mut i: usize = 0;
    while i < placeholders.len()
        invariant
            ps == placeholders_model(placeholders@),
            placed_from(t@, ps, 0),
            vals == values@,
            i <= ps.len(),
            cursor == prev_end(ps, i as int),
            out@ == fill(t@, ps, i as int, vals, stamp@),
            first_missing(ps, vals, 0) == first_missing(ps, vals, i as int),
        decreases ps.len() - i,
    {
        let ghost ph = ps[i as int];
        assert(placeholder_model(placeholders@[i as int]) == ph);
        assert(0 <= ph_start(ph) < ph_end(ph) <= t@.len());
        if i > 0 {
            assert(ph_end(ps[i - 1]) <= ph_start(ps[(i - 1) + 1]));
        }
        match &placeholders[i] {
            Placeholder::Value { name, span } => {
                match values.get(name.as_str()) {
                    None => {
                        let line = line_of(t, span.0);
                        return Err(VaultError::PlaceholderWithoutValue { name: name.clone(), line });
                    },
                    Some(v) => {
                        crate::text::push_range(&mut out, t, cursor, span.0);
                        crate::text::push_str(&mut out, v);
                        cursor = span.1;
                    },
                }
            },
            Placeholder::Date { span } => {
                crate::text::push_range(&mut out, t, cursor, span.0);
                crate::text::push_str(&mut out, stamp.as_str());
                cursor = span.1;
            },
        }
        i = i + 1;
    }
    crate::text::push_range(&mut out, t, cursor, t.len());
    Ok(out)
}

/// Replaces every placeholder with its resolved value, copying all other
/// characters verbatim.
pub fn substitute(text: &str, values: &ValueMap, now: &Timestamp) -> (r: Result<String, VaultError>)
    ensures
        match r {
            Ok(s) => spec_substitute(text@, values@, spec_house_format(*now)) == Ok::<
                Seq<char>,
                TemplateFault,
            >(s@),
            Err(e) => spec_substitute(text@, values@, spec_house_format(*now)) matches Err(f)
                && reports(e, f),
        },
{
    let t = crate::text::chars_of(text);
    let placeholders = match scan(&t) {
        Ok(ps) => ps,
        Err(e) => {
            return Err(e);
        },
    };
    proof {
        lemma_scan_placed(t@, 0);
    }
    let stamp = house_format(now);
    fill_placeholders(&t, &placeholders, values, &stamp)
}

/// Placeholder `j` of `ps` is a `VALUE` whose name has no value.
pub open spec fn lacks_value(ps: Seq<PlaceholderModel>, vals: Map<Seq<char>, (Seq<char>, Source)>, j: int) -> bool {
    ps[j] matches PlaceholderModel::Value { name, .. } && !vals.dom().contains(name)
}

proof fn lemma_first_missing(ps: Seq<PlaceholderModel>, vals: Map<Seq<char>, (Seq<char>, Source)>, k: int)
    requires
        0 <= k,
    ensures
        first_missing(ps, vals, k) matches Some(i) ==> k <= i < ps.len() && lacks_value(ps, vals, i) && forall|j: int|
            k <= j < i ==> !#[trigger] lacks_value(ps, vals, j),
        first_missing(ps, vals, k) is None ==> forall|j: int| k <= j < ps.len() ==> !#[trigger] lacks_value(ps, vals, j),
    decreases ps.len() - k,
{
    if k < ps.len() {
        lemma_first_missing(ps, vals, k + 1);
    }
}

/// When `substitute` succeeds, and what it gives: a malformed placeholder
/// is the error first; then it fails exactly when some `VALUE`
/// placeholder's name has no value, naming the first such one and its
/// line; otherwise the text comes back with each placeholder replaced (a
/// `VALUE` by its value, a `DATE` by `stamp`) and the text before,
/// between and after them kept as it is.
pub proof fn lemma_substitute_outcome(
    t: Seq<char>,
    vals: Map<Seq<char>, (Seq<char>, Source)>,
    stamp: Seq<char>,
)
    ensures
        spec_scan(t, 0) matches Err(f) ==> spec_substitute(t, vals, stamp) == Err::<Seq<char>, TemplateFault>(f),
        spec_scan(t, 0) matches Ok(ps) ==> (spec_substitute(t, vals, stamp) is Ok <==> forall|j: int|
            0 <= j < ps.len() ==> !#[trigger] lacks_value(ps, vals, j)),
        spec_scan(t, 0) matches Ok(ps) ==> (spec_substitute(t, vals, stamp) matches Err(f) ==> exists|i: int|
            0 <= i < ps.len() && #[trigger] lacks_value(ps, vals, i) && (forall|j: int|
                0 <= j < i ==> !#[trigger] lacks_value(ps, vals, j)) && f == TemplateFault::Missing {
                name: ps[i]->name,
                line: line_no(t, ph_start(ps[i])),
            }),
        spec_scan(t, 0) matches Ok(ps) ==> (spec_substitute(t, vals, stamp) matches Ok(out) ==> out == fill(
            t,
            ps,
            ps.len() as int,
            vals,
            stamp,
        ) + t.subrange(prev_end(ps, ps.len() as int), t.len() as int)),
        forall|ps: Seq<PlaceholderModel>, k: int|
            0 < k <= ps.len() ==> #[trigger] fill(t, ps, k, vals, stamp) == fill(t, ps, k - 1, vals, stamp) + t.subrange(
                prev_end(ps, k - 1),
                ph_start(ps[k - 1]),
            ) + replacement(ps[k - 1], vals, stamp),
{
    if let Ok(ps) = spec_scan(t, 0) {
        lemma_first_missing(ps, vals, 0);
    }
}

/// A text with no `{{` renders to itself, whatever the values and clock.
pub proof fn lemma_text_without_placeholders_renders_verbatim(
    t: Seq<char>,
    vals: Map<Seq<char>, (Seq<char>, Source)>,
    stamp: Seq<char>,
)
    requires
        find_pair(t, 0, t.len() as int, '{') is None,
    ensures
        spec_substitute(t, vals, stamp) == Ok::<Seq<char>, TemplateFault>(t),
{
    reveal(spec_scan);
    assert(spec_scan(t, 0) == Ok::<Seq<PlaceholderModel>, TemplateFault>(Seq::empty()));
    assert(Seq::<char>::empty() + t.subrange(0, t.len() as int) =~= t);
}

/// The loaded QuickAdd template: its text and where it came from.
pub struct FeatureTemplate {
    path: String,
    text: String,
}

impl View for FeatureTemplate {
    type V = (Seq<char>, Seq<char>);

    /// The template's path and text.
    closed spec fn view(&self) -> (Seq<char>, Seq<char>) {
        (self.path@, self.text@)
    }
}

impl FeatureTemplate {
    /// The template read from `path`, given the outcome of reading it: a
    /// missing file is its own error naming the path, distinct from other
    /// read failures.
    pub fn load(path: &str, read: Result<String, IoFailure>) -> (r: Result<FeatureTemplate, VaultError>)
        ensures
            match read {
                Ok(text) => r matches Ok(t) && t@ == (path@, text@),
                Err(f) => match f.kind {
                    IoKind::NotFound => r matches Err(VaultError::TemplateNotFound { path: p, error: e })
                        && p@ == path@ && e@ == f.message@,
                    _ => r matches Err(VaultError::IoError { path: p, error: e }) && p@ == path@ && e@
                        == f.message@,
                },
            },
    {
        match read {
            Ok(text) => Ok(FeatureTemplate { path: String::from_str(path), text }),
            Err(failure) => match failure.kind {
                IoKind::NotFound => Err(
                    VaultError::TemplateNotFound { path: String::from_str(path), error: failure.message },
                ),
                _ => Err(VaultError::IoError { path: String::from_str(path), error: failure.message }),
            },
        }
    }

    pub fn path(&self) -> (r: &str)
        ensures
            r@ == self@.0,
    {
        self.path.as_str()
    }

    /// Renders every placeholder in the template, frontmatter and body in
    /// one pass, against `values` and `now`.
    pub fn render(&self, values: &ValueMap, now: &Timestamp) -> (r: Result<String, VaultError>)
        ensures
            match r {
                Ok(s) => spec_substitute(self@.1, values@, spec_house_format(*now)) == Ok::<
                    Seq<char>,
                    TemplateFault,
                >(s@),
                Err(e) => spec_substitute(self@.1, values@, spec_house_format(*now)) matches Err(f)
                    && reports(e, f),
            },
    {
        substitute(self.text.as_str(), values, now)
    }
}

} // verus!
