//! The frontmatter field-type vocabulary: what config declares
//! ([`FieldType`]) and what the write path emits ([`Field`], rendered by
//! [`render_field`]).
use vstd::prelude::*;
use crate::text::{
    chars_of, find_char, has_prefix, has_suffix, index_of, is_ws, lemma_index_of_from, lemma_trim_len,
    lemma_trim_plain, push_char, push_str, range_eq, string_of_range, trim, trim_range,
};

verus! {

/// A field type as declared in config: `string` | `int` | `float` |
/// `bool` | `olink` | `list<T>`.
#[derive(Debug, PartialEq, Eq)]
pub enum FieldType {
    Str,
    Int,
    Float,
    Bool,
    Olink,
    List(Box<FieldType>),
}

impl FieldType {
    /// An equal copy of the type.
    pub fn duplicate(&self) -> (r: FieldType)
        ensures
            r == *self,
        decreases self,
    {
        match self {
            FieldType::Str => FieldType::Str,
            FieldType::Int => FieldType::Int,
            FieldType::Float => FieldType::Float,
            FieldType::Bool => FieldType::Bool,
            FieldType::Olink => FieldType::Olink,
            FieldType::List(inner) => FieldType::List(Box::new(inner.duplicate())),
        }
    }
}

/// A type word that is not in the vocabulary (lowercased and trimmed).
#[derive(Debug)]
pub struct FieldTypeError(pub String);

/// The raw value doesn't fit the field's declared type, or the type takes
/// no list input.
#[derive(Debug)]
pub enum FieldError {
    InvalidValue { expected: String, value: String },
    NestedList,
}

/// ASCII letters lowercased, everything else kept.
pub open spec fn ascii_lower(s: Seq<char>) -> Seq<char> {
    s.map_values(|c: char| lower_char(c))
}

pub open spec fn lower_char(c: char) -> char {
    if 'A' <= c && c <= 'Z' {
        ((c as u32) + 32) as char
    } else {
        c
    }
}

/// The field type a config word names.
pub open spec fn spec_field_type(s: Seq<char>) -> Result<FieldType, Seq<char>>
    decreases s.len(),
{
    let w = ascii_lower(trim(s));
    if w == "string"@ {
        Ok(FieldType::Str)
    } else if w == "int"@ {
        Ok(FieldType::Int)
    } else if w == "float"@ {
        Ok(FieldType::Float)
    } else if w == "bool"@ {
        Ok(FieldType::Bool)
    } else if w == "olink"@ {
        Ok(FieldType::Olink)
    } else if has_prefix(w, "list<"@) && has_suffix(w.skip(5), ">"@) {
        proof {
            reveal_strlit("list<");
            reveal_strlit(">");
            lemma_trim_len(s);
            assert(w.len() == trim(s).len());
            assert(w.skip(5).len() >= 1);
        }
        match spec_field_type(w.subrange(5, w.len() - 1)) {
            Ok(t) => Ok(FieldType::List(Box::new(t))),
            Err(e) => Err(e),
        }
    } else {
        Err(w)
    }
}

/// `c` lowercased when it is an ASCII letter.
pub fn lower_char_exec(c: char) -> (r: char)
    ensures
        r == lower_char(c),
{
    if 'A' <= c && c <= 'Z' {
        let b = (c as u8) + 32;
        b as char
    } else {
        c
    }
}

fn is_word(w: &Vec<char>, lit: &str) -> (r: bool)
    ensures
        r == (w@ == lit@),
{
    let l = chars_of(lit);
    let r = range_eq(w, 0, w.len(), &l);
    assert(w@.subrange(0, w@.len() as int) =~= w@);
    r
}

impl FieldType {
    /// Parses a config type word (case-insensitive, surrounding
    /// whitespace ignored); `list<T>` nests.
    pub fn from_word(s: &str) -> (r: Result<FieldType, FieldTypeError>)
        ensures
            match spec_field_type(s@) {
                Ok(t) => r == Ok::<FieldType, FieldTypeError>(t),
                Err(e) => r matches Err(err) && err.0@ == e,
            },
        decreases s@.len(),
    {
        let v = chars_of(s);
        let (a, b) = trim_range(&v, 0, v.len());
        assert(v@.subrange(0, v@.len() as int) =~= v@);
        let mut w: Vec<char> = Vec::new();
        let mut i = a;
        while i < b
            invariant
                a <= i <= b <= v@.len(),
                w@ == ascii_lower(v@.subrange(a as int, i as int)),
            decreases b - i,
        {
            w.push(lower_char_exec(v[i]));
            assert(ascii_lower(v@.subrange(a as int, i + 1)) =~= ascii_lower(v@.subrange(a as int, i as int)).push(lower_char(v@[i as int])));
            i = i + 1;
        }
        assert(w@ == ascii_lower(trim(s@)));
        if is_word(&w, "string") {
            Ok(FieldType::Str)
        } else if is_word(&w, "int") {
            Ok(FieldType::Int)
        } else if is_word(&w, "float") {
            Ok(FieldType::Float)
        } else if is_word(&w, "bool") {
            Ok(FieldType::Bool)
        } else if is_word(&w, "olink") {
            Ok(FieldType::Olink)
        } else {
            proof {
                reveal_strlit("list<");
                reveal_strlit(">");
                lemma_trim_len(s@);
            }
            let n = w.len();
            let lp = chars_of("list<");
            let gt = chars_of(">");
            assert(">"@ =~= seq!['>']);
            assert(lp@ == "list<"@);
            assert("list<"@.len() == 5);
            let mut is_list = false;
            if n >= 6 {
                let pre = range_eq(&w, 0, 5, &lp);
                assert(w@.take(5) =~= w@.subrange(0, 5));
                assert(pre == has_prefix(w@, "list<"@));
                let last = w[n - 1] == '>';
                let ghost sk = w@.skip(5);
                assert(sk.skip(sk.len() - 1) =~= seq![w@[n - 1]]);
                if last {
                    assert(seq![w@[n - 1]] =~= seq!['>']);
                } else {
                    assert(seq![w@[n - 1]][0] != seq!['>'][0]);
                }
                assert(last == has_suffix(sk, ">"@));
                is_list = pre && last;
            } else if n == 5 {
                assert(w@.skip(5).len() == 0);
            }
            assert(is_list == (has_prefix(w@, "list<"@) && has_suffix(w@.skip(5), ">"@)));
            if is_list {
                let inner = string_of_range(&w, 5, n - 1);
                match FieldType::from_word(inner.as_str()) {
                    Ok(t) => Ok(FieldType::List(Box::new(t))),
                    Err(e) => Err(e),
                }
            } else {
                Err(FieldTypeError(string_of_range(&w, 0, n)))
            }
        }
    }
}

impl core::str::FromStr for FieldType {
    type Err = FieldTypeError;

    /// The config type word `s`, as [`FieldType::from_word`] reads it.
    fn from_str(s: &str) -> (r: Result<FieldType, FieldTypeError>)
        ensures
            match spec_field_type(s@) {
                Ok(t) => r == Ok::<FieldType, FieldTypeError>(t),
                Err(e) => r matches Err(err) && err.0@ == e,
            },
    {
        FieldType::from_word(s)
    }
}


/// A frontmatter value with its emission type. `Float` holds the number's
/// text as written into the note (always with a decimal point, e.g.
/// `5.0`); the others hold their value.
#[derive(Debug, PartialEq)]
pub enum Field {
    Str(String),
    Olink(String),
    Bool(bool),
    Int(i32),
    Float(String),
    List(Vec<Field>),
}

pub open spec fn quote(s: Seq<char>) -> Seq<char> {
    seq!['"'] + s + seq!['"']
}

pub open spec fn escape_char(c: char) -> Seq<char> {
    if c == '\\' {
        seq!['\\', '\\']
    } else if c == '"' {
        seq!['\\', '"']
    } else {
        seq![c]
    }
}

/// YAML double-quoted escaping: each backslash doubled, each quote
/// preceded by a backslash.
pub open spec fn spec_escape(s: Seq<char>) -> Seq<char>
    decreases s.len(),
{
    if s.len() == 0 {
        Seq::empty()
    } else {
        spec_escape(s.drop_last()) + escape_char(s.last())
    }
}

pub open spec fn digit_char(d: nat) -> char {
    ((d + 48) as u32) as char
}

/// Decimal digits of `n`.
pub open spec fn nat_text(n: nat) -> Seq<char>
    decreases n,
{
    if n < 10 {
        seq![digit_char(n)]
    } else {
        nat_text(n / 10).push(digit_char(n % 10))
    }
}

/// Decimal text of `i`, with a leading `-` when negative.
pub open spec fn int_text(i: int) -> Seq<char> {
    if i < 0 {
        seq!['-'] + nat_text((-i) as nat)
    } else {
        nat_text(i as nat)
    }
}

pub open spec fn true_text() -> Seq<char> {
    seq!['t', 'r', 'u', 'e']
}

pub open spec fn false_text() -> Seq<char> {
    seq!['f', 'a', 'l', 's', 'e']
}

/// Single-line YAML for a value: strings double-quoted and escaped, bare
/// olink names wrapped in `[[...]]` and quoted, full links quoted as they
/// are, bools and numbers bare, lists in flow style `[a, b]`.
pub open spec fn yaml_value(f: Field) -> Seq<char>
    decreases f,
{
    match f {
        Field::Str(v) => quote(spec_escape(v@)),
        Field::Olink(v) => if has_prefix(v@, seq!['[', '[']) {
            quote(v@)
        } else {
            quote(seq!['[', '['] + v@ + seq![']', ']'])
        },
        Field::Bool(b) => if b {
            true_text()
        } else {
            false_text()
        },
        Field::Int(i) => int_text(i as int),
        Field::Float(t) => t@,
        Field::List(items) => seq!['['] + yaml_items(items@) + seq![']'],
    }
}

/// Values joined by `, `.
pub open spec fn yaml_items(items: Seq<Field>) -> Seq<char>
    decreases items,
{
    if items.len() == 0 {
        Seq::empty()
    } else if items.len() == 1 {
        yaml_value(items[0])
    } else {
        yaml_items(items.drop_last()) + seq![',', ' '] + yaml_value(items.last())
    }
}

/// Block-style list lines `  - value`, joined by `eol`.
pub open spec fn block_items(items: Seq<Field>, eol: Seq<char>) -> Seq<char>
    decreases items.len(),
{
    if items.len() == 0 {
        Seq::empty()
    } else if items.len() == 1 {
        seq![' ', ' ', '-', ' '] + yaml_value(items[0])
    } else {
        block_items(items.drop_last(), eol) + eol + seq![' ', ' ', '-', ' '] + yaml_value(items.last())
    }
}

/// YAML for one top-level field: `name: value` for scalars, a block list
/// `name:` + `eol` + `  - item` lines for lists, `name: []` for an empty
/// list.
pub open spec fn spec_render_field(name: Seq<char>, f: Field, eol: Seq<char>) -> Seq<char> {
    match f {
        Field::List(items) => if items.len() == 0 {
            name + seq![':', ' ', '[', ']']
        } else {
            name + seq![':'] + eol + block_items(items@, eol)
        },
        _ => name + seq![':', ' '] + yaml_value(f),
    }
}

/// Appends the decimal digits of `n`.
pub fn push_nat(out: &mut String, n: u64)
    ensures
        final(out)@ == old(out)@ + nat_text(n as nat),
    decreases n,
{
    if n >= 10 {
        push_nat(out, n / 10);
    }
    let d = (n % 10) as u8;
    push_char(out, (d + 48) as char);
    proof {
        if n >= 10 {
            assert(nat_text(n as nat) == nat_text((n / 10) as nat).push(digit_char((n % 10) as nat)));
        }
    }
}

/// Appends the decimal text of `i`.
pub fn push_int(out: &mut String, i: i32)
    ensures
        final(out)@ == old(out)@ + int_text(i as int),
{
    let x = i as i64;
    if x < 0 {
        push_char(out, '-');
        push_nat(out, (-x) as u64);
    } else {
        push_nat(out, x as u64);
    }
}

/// Appends the YAML double-quoted escaping of `s`.
pub fn push_escaped(out: &mut String, s: &str)
    ensures
        final(out)@ == old(out)@ + spec_escape(s@),
{
    let v = chars_of(s);
    let mut i: usize = 0;
    while i < v.len()
        invariant
            i <= v@.len(),
            v@ == s@,
            out@ == old(out)@ + spec_escape(v@.take(i as int)),
        decreases v@.len() - i,
    {
        let c = v[i];
        if c == '\\' {
            push_char(out, '\\');
            push_char(out, '\\');
        } else if c == '"' {
            push_char(out, '\\');
            push_char(out, '"');
        } else {
            push_char(out, c);
        }
        assert(v@.take(i + 1).drop_last() =~= v@.take(i as int));
        i = i + 1;
    }
    assert(v@.take(v@.len() as int) =~= v@);
}

/// YAML double-quoted-style escaping: backslash first, then the quote.
pub fn escape_yaml_double_quoted(value: &str) -> (r: String)
    ensures
        r@ == spec_escape(value@),
{
    let mut out = String::new();
    push_escaped(&mut out, value);
    out
}

/// Appends `yaml_value(f)`.
pub fn push_yaml_value(out: &mut String, f: &Field)
    ensures
        final(out)@ == old(out)@ + yaml_value(*f),
    decreases f,
{
    match f {
        Field::Str(v) => {
            push_char(out, '"');
            push_escaped(out, v.as_str());
            push_char(out, '"');
        },
        Field::Olink(v) => {
            let vv = chars_of(v.as_str());
            let open = vec!['[', '['];
            assert(open@ =~= seq!['[', '[']);
            let full = crate::text::range_has_prefix(&vv, 0, vv.len(), &open);
            assert(vv@.subrange(0, vv@.len() as int) =~= vv@);
            push_char(out, '"');
            if !full {
                push_char(out, '[');
                push_char(out, '[');
            }
            push_str(out, v.as_str());
            if !full {
                push_char(out, ']');
                push_char(out, ']');
            }
            push_char(out, '"');
        },
        Field::Bool(b) => {
            if *b {
                push_char(out, 't');
                push_char(out, 'r');
                push_char(out, 'u');
                push_char(out, 'e');
            } else {
                push_char(out, 'f');
                push_char(out, 'a');
                push_char(out, 'l');
                push_char(out, 's');
                push_char(out, 'e');
            }
        },
        Field::Int(i) => push_int(out, *i),
        Field::Float(t) => push_str(out, t.as_str()),
        Field::List(items) => {
            push_char(out, '[');
            let mut i: usize = 0;
            while i < items.len()
                invariant
                    i <= items@.len(),
                    *f == Field::List(*items),
                    out@ == old(out)@ + seq!['['] + yaml_items(items@.take(i as int)),
                decreases items@.len() - i,
            {
                if i > 0 {
                    push_char(out, ',');
                    push_char(out, ' ');
                }
                proof {
                    assert(decreases_to!(*f => (*f)->List_0));
                    assert((*f)->List_0 == *items);
                    assert(decreases_to!(*items => items@));
                    assert(decreases_to!(items@ => items@[i as int]));
                    assert(decreases_to!(*f => items@[i as int]));
                }
                push_yaml_value(out, &items[i]);
                proof {
                    let t = items@.take(i + 1);
                    assert(t.drop_last() =~= items@.take(i as int));
                    assert(t.last() == items@[i as int]);
                    if i == 0 {
                        assert(t.len() == 1);
                    }
                }
                i = i + 1;
            }
            assert(items@.take(items@.len() as int) =~= items@);
            push_char(out, ']');
        },
    }
}

/// YAML emission for one top-level frontmatter field, using the note's
/// own line ending `eol` between list lines.
pub fn render_field(name: &str, field: &Field, eol: &str) -> (r: String)
    ensures
        r@ == spec_render_field(name@, *field, eol@),
{
    let mut out = String::new();
    push_str(&mut out, name);
    match field {
        Field::List(items) => {
            if items.len() == 0 {
                push_char(&mut out, ':');
                push_char(&mut out, ' ');
                push_char(&mut out, '[');
                push_char(&mut out, ']');
            } else {
                push_char(&mut out, ':');
                push_str(&mut out, eol);
                let ghost head = out@;
                let mut i: usize = 0;
                while i < items.len()
                    invariant
                        i <= items@.len(),
                        out@ == head + block_items(items@.take(i as int), eol@),
                    decreases items@.len() - i,
                {
                    if i > 0 {
                        push_str(&mut out, eol);
                    }
                    push_char(&mut out, ' ');
                    push_char(&mut out, ' ');
                    push_char(&mut out, '-');
                    push_char(&mut out, ' ');
                    push_yaml_value(&mut out, &items[i]);
                    proof {
                        let t = items@.take(i + 1);
                        assert(t.drop_last() =~= items@.take(i as int));
                        assert(t.last() == items@[i as int]);
                        if i == 0 {
                            assert(t.len() == 1);
                        }
                    }
                    i = i + 1;
                }
                assert(items@.take(items@.len() as int) =~= items@);
            }
        },
        _ => {
            push_char(&mut out, ':');
            push_char(&mut out, ' ');
            push_yaml_value(&mut out, field);
        },
    }
    out
}

pub open spec fn is_digit(c: char) -> bool {
    '0' <= c && c <= '9'
}

pub open spec fn all_digits(s: Seq<char>) -> bool {
    forall|i: int| 0 <= i < s.len() ==> is_digit(#[trigger] s[i])
}

/// The decimal value of a digit string.
pub open spec fn digits_value(s: Seq<char>) -> nat
    decreases s.len(),
{
    if s.len() == 0 {
        0
    } else {
        digits_value(s.drop_last()) * 10 + ((s.last() as u32) - 48) as nat
    }
}

/// `i32::from_str`: an optional `+` or `-`, then one or more ASCII
/// digits, the value within `i32`.
pub open spec fn spec_parse_i32(s: Seq<char>) -> Option<int> {
    let neg = s.len() > 0 && s[0] == '-';
    let ds = if s.len() > 0 && (s[0] == '-' || s[0] == '+') {
        s.skip(1)
    } else {
        s
    };
    if ds.len() == 0 || !all_digits(ds) {
        None
    } else {
        let v: int = if neg {
            -(digits_value(ds) as int)
        } else {
            digits_value(ds) as int
        };
        if i32::MIN <= v <= i32::MAX {
            Some(v)
        } else {
            None
        }
    }
}

/// Parses a decimal `i32` as `str::parse::<i32>` does.
pub fn parse_i32(s: &str) -> (r: Option<i32>)
    ensures
        match spec_parse_i32(s@) {
            Some(v) => r == Some(v as i32),
            None => r is None,
        },
{
    let v = chars_of(s);
    let n = v.len();
    let neg = n > 0 && v[0] == '-';
    let start: usize = if n > 0 && (v[0] == '-' || v[0] == '+') {
        1
    } else {
        0
    };
    let ghost ds = if s@.len() > 0 && (s@[0] == '-' || s@[0] == '+') {
        s@.skip(1)
    } else {
        s@
    };
    assert(ds =~= v@.subrange(start as int, n as int));
    if start == n {
        return None;
    }
    let cap: u64 = 2147483649;
    let mut acc: u64 = 0;
    let mut i = start;
    while i < n
        invariant
            v@ == s@,
            start <= i <= n == v@.len(),
            ds == v@.subrange(start as int, n as int),
            ds == if s@.len() > 0 && (s@[0] == '-' || s@[0] == '+') {
                s@.skip(1)
            } else {
                s@
            },
            ds.len() > 0,
            all_digits(v@.subrange(start as int, i as int)),
            cap == 2147483649,
            acc == if digits_value(v@.subrange(start as int, i as int)) < cap {
                digits_value(v@.subrange(start as int, i as int))
            } else {
                cap as nat
            },
        decreases n - i,
    {
        let c = v[i];
        if !('0' <= c && c <= '9') {
            assert(ds[i - start] == c);
            assert(!is_digit(ds[i - start]));
            return None;
        }
        let ghost pre = v@.subrange(start as int, i as int);
        assert(v@.subrange(start as int, i + 1).drop_last() =~= pre);
        let d = (c as u32 - 48) as u64;
        let next = acc * 10 + d;
        acc = if next < cap {
            next
        } else {
            cap
        };
        i = i + 1;
    }
    assert(v@.subrange(start as int, n as int) == ds);
    if neg {
        if acc <= 2147483648 {
            let x = 0i64 - (acc as i64);
            Some(x as i32)
        } else {
            None
        }
    } else {
        if acc <= 2147483647 {
            Some(acc as i32)
        } else {
            None
        }
    }
}

/// `bool::from_str`: exactly `true` or `false`.
pub open spec fn spec_parse_bool(s: Seq<char>) -> Option<bool> {
    if s == "true"@ {
        Some(true)
    } else if s == "false"@ {
        Some(false)
    } else {
        None
    }
}

/// `reader` gave `o` for an argument holding `s`.
pub open spec fn float_read<F: Fn(&str) -> Option<String>>(reader: F, s: Seq<char>, o: Option<String>) -> bool {
    exists|a: &str| a@ == s && #[trigger] reader.ensures((a,), o)
}

/// `r` is what coercing the scalar `item` to `ty` may give, with `reader`
/// reading floats.
pub open spec fn scalar_outcome<F: Fn(&str) -> Option<String>>(
    ty: FieldType,
    item: Seq<char>,
    reader: F,
    r: Result<Field, FieldError>,
) -> bool {
    match ty {
        FieldType::Str => r matches Ok(Field::Str(x)) && x@ == item,
        FieldType::Olink => r matches Ok(Field::Olink(x)) && x@ == item,
        FieldType::Int => match spec_parse_i32(item) {
            Some(v) => r == Ok::<Field, FieldError>(Field::Int(v as i32)),
            None => r matches Err(FieldError::InvalidValue { expected: t, value: x }) && t@ == "int"@
                && x@ == item,
        },
        FieldType::Bool => match spec_parse_bool(item) {
            Some(b) => r == Ok::<Field, FieldError>(Field::Bool(b)),
            None => r matches Err(FieldError::InvalidValue { expected: t, value: x }) && t@ == "bool"@
                && x@ == item,
        },
        FieldType::Float => exists|o: Option<String>|
            #[trigger] float_read(reader, item, o) && match o {
                Some(t) => r matches Ok(Field::Float(x)) && x@ == t@,
                None => r matches Err(FieldError::InvalidValue { expected: t, value: x }) && t@
                    == "float"@ && x@ == item,
            },
        FieldType::List(_) => false,
    }
}

/// The pieces of `s` between commas.
pub open spec fn split_commas(s: Seq<char>) -> Seq<Seq<char>>
    decreases s.len(),
{
    let j = index_of(s, ',');
    proof {
        lemma_index_of_from(s, ',', 0);
    }
    if j >= s.len() {
        seq![s]
    } else {
        seq![s.take(j)] + split_commas(s.skip(j + 1))
    }
}

/// The trimmed, non-empty pieces.
pub open spec fn kept_items(pieces: Seq<Seq<char>>) -> Seq<Seq<char>>
    decreases pieces.len(),
{
    if pieces.len() == 0 {
        Seq::empty()
    } else {
        let rest = kept_items(pieces.drop_first());
        if trim(pieces[0]).len() == 0 {
            rest
        } else {
            seq![trim(pieces[0])] + rest
        }
    }
}

/// The items of a list value: split on `,`, trimmed, empty ones dropped.
pub open spec fn list_items(raw: Seq<char>) -> Seq<Seq<char>> {
    kept_items(split_commas(raw))
}

/// `r` is what coercing the list `raw` to items of `elem` may give: each
/// item coerced in order; the first refused item's error, else the list.
pub open spec fn list_outcome<F: Fn(&str) -> Option<String>>(
    elem: FieldType,
    raw: Seq<char>,
    reader: F,
    r: Result<Field, FieldError>,
) -> bool {
    let items = list_items(raw);
    exists|outs: Seq<Result<Field, FieldError>>|
        #[trigger] outs.len() <= items.len() && (forall|i: int|
            0 <= i < outs.len() ==> scalar_outcome(elem, items[i], reader, #[trigger] outs[i])) && (forall|i: int|
            0 <= i < outs.len() - 1 ==> #[trigger] outs[i] is Ok) && match r {
            Ok(Field::List(v)) => outs.len() == items.len() && v@.len() == items.len() && (forall|i: int|
                0 <= i < outs.len() ==> #[trigger] outs[i] == Ok::<Field, FieldError>(v@[i])),
            Ok(_) => false,
            Err(e) => outs.len() > 0 && outs.last() == Err::<Field, FieldError>(e),
        }
}

/// Parses `true` or `false` as `str::parse::<bool>` does.
pub fn parse_bool(s: &str) -> (r: Option<bool>)
    ensures
        r == spec_parse_bool(s@),
{
    if crate::text::str_eq(s, "true") {
        Some(true)
    } else if crate::text::str_eq(s, "false") {
        Some(false)
    } else {
        None
    }
}

fn invalid(expected: &str, value: &str) -> (r: FieldError)
    ensures
        r matches FieldError::InvalidValue { expected: t, value: x } && t@ == expected@ && x@ == value@,
{
    FieldError::InvalidValue { expected: String::from_str(expected), value: String::from_str(value) }
}

/// Coerces one scalar to `ty`.
fn parse_scalar<F: Fn(&str) -> Option<String>>(ty: &FieldType, item: &str, reader: &F) -> (r: Result<Field, FieldError>)
    requires
        forall|a: &str| reader.requires((a,)),
        !(*ty is List),
    ensures
        scalar_outcome(*ty, item@, *reader, r),
{
    match ty {
        FieldType::Str => Ok(Field::Str(String::from_str(item))),
        FieldType::Olink => Ok(Field::Olink(String::from_str(item))),
        FieldType::Int => match parse_i32(item) {
            Some(v) => Ok(Field::Int(v)),
            None => Err(invalid("int", item)),
        },
        FieldType::Bool => match parse_bool(item) {
            Some(b) => Ok(Field::Bool(b)),
            None => Err(invalid("bool", item)),
        },
        FieldType::Float => {
            let o = reader(item);
            let ghost og = o;
            assert(float_read(*reader, item@, og));
            let r = match o {
                Some(t) => Ok(Field::Float(t)),
                None => Err(invalid("float", item)),
            };
            assert(float_read(*reader, item@, og) && match og {
                Some(t) => r matches Ok(Field::Float(x)) && x@ == t@,
                None => r matches Err(FieldError::InvalidValue { expected: t, value: x }) && t@ == "float"@
                    && x@ == item@,
            });
            r
        },
        FieldType::List(_) => Err(FieldError::NestedList),
    }
}

/// Coerces each item of the list `raw` to `elem`, in order.
fn parse_list<F: Fn(&str) -> Option<String>>(elem: &FieldType, raw: &str, reader: &F) -> (r: Result<Field, FieldError>)
    requires
        forall|a: &str| reader.requires((a,)),
        !(*elem is List),
    ensures
        list_outcome(*elem, raw@, *reader, r),
{
    let v = chars_of(raw);
    let n = v.len();
    let ghost items = list_items(raw@);
    let mut done: Vec<Field> = Vec::new();
    let ghost mut outs: Seq<Result<Field, FieldError>> = Seq::empty();
    let ghost mut items_done: Seq<Seq<char>> = Seq::empty();
    let mut cur: usize = 0;
    assert(v@.skip(0) =~= v@);
    loop
        invariant
            v@ == raw@,
            n == v@.len(),
            cur <= n,
            !(*elem is List),
            forall|a: &str| reader.requires((a,)),
            items == list_items(raw@),
            items == items_done + kept_items(split_commas(v@.skip(cur as int))),
            outs.len() == items_done.len(),
            done@.len() == items_done.len(),
            forall|i: int| 0 <= i < outs.len() ==> #[trigger] outs[i] == Ok::<Field, FieldError>(done@[i]),
            forall|i: int| 0 <= i < outs.len() ==> scalar_outcome(*elem, items_done[i], *reader, #[trigger] outs[i]),
        decreases n - cur,
    {
        let ghost rest = v@.skip(cur as int);
        assert(v@.subrange(cur as int, n as int) =~= rest);
        proof {
            lemma_index_of_from(rest, ',', 0);
        }
        let j = find_char(&v, cur, n, ',');
        let ghost piece = rest.take(j - cur);
        assert(piece =~= v@.subrange(cur as int, j as int));
        let ghost after = if j < n {
            split_commas(v@.skip(j + 1))
        } else {
            Seq::<Seq<char>>::empty()
        };
        proof {
            if j < n {
                assert(rest.skip(j - cur + 1) =~= v@.skip(j + 1));
            }
            assert(split_commas(rest) =~= seq![piece] + after);
            assert((seq![piece] + after).drop_first() =~= after);
        }
        let (a, b) = trim_range(&v, cur, j);
        if a < b {
            let item = raw.substring_char(a, b);
            let x = parse_scalar(elem, item, reader);
            proof {
                assert(kept_items(seq![piece] + after) == seq![trim(piece)] + kept_items(after));
                assert(items =~= items_done.push(trim(piece)) + kept_items(after));
                assert(items[items_done.len() as int] == trim(piece));
            }
            match x {
                Ok(f) => {
                    proof {
                        outs = outs.push(Ok(f));
                        items_done = items_done.push(trim(piece));
                    }
                    done.push(f);
                },
                Err(e) => {
                    let ghost final_outs = outs.push(Err(e));
                    assert(final_outs.len() <= items.len());
                    assert(forall|i: int|
                        0 <= i < final_outs.len() ==> scalar_outcome(
                            *elem,
                            items[i],
                            *reader,
                            #[trigger] final_outs[i],
                        ));
                    assert(forall|i: int| 0 <= i < final_outs.len() - 1 ==> #[trigger] final_outs[i] is Ok);
                    return Err(e);
                },
            }
        } else {
            proof {
                assert(kept_items(seq![piece] + after) == kept_items(after));
            }
        }
        if j == n {
            assert(items =~= items_done);
            let r = Ok(Field::List(done));
            assert(outs.len() <= items.len());
            return r;
        }
        cur = j + 1;
    }
}

/// `r` is what coercing `raw` to `ty` may give, with `reader` reading
/// floats.
pub open spec fn field_outcome<F: Fn(&str) -> Option<String>>(
    ty: FieldType,
    raw: Seq<char>,
    reader: F,
    r: Result<Field, FieldError>,
) -> bool {
    match ty {
        FieldType::List(elem) => if *elem is List {
            r matches Err(FieldError::NestedList)
        } else {
            list_outcome(*elem, raw, reader, r)
        },
        _ => scalar_outcome(ty, raw, reader, r),
    }
}

impl Field {
    /// Coerces a raw CLI value to the field's declared type: strings and
    /// olinks as given, ints and bools as Rust parses them, floats by
    /// `reader` (the float's written form, or `None` for a value that is
    /// no finite float), lists split on `,` with each non-empty trimmed
    /// item coerced to the element type. Nested lists are refused.
    pub fn parse<F: Fn(&str) -> Option<String>>(ty: &FieldType, raw: &str, reader: &F) -> (r: Result<Field, FieldError>)
        requires
            forall|a: &str| reader.requires((a,)),
        ensures
            field_outcome(*ty, raw@, *reader, r),
    {
        match ty {
            FieldType::List(elem) => {
                let inner: &FieldType = &**elem;
                match inner {
                    FieldType::List(_) => Err(FieldError::NestedList),
                    _ => parse_list(inner, raw, reader),
                }
            },
            _ => parse_scalar(ty, raw, reader),
        }
    }
}

/// The human form of a value (for echoes and errors, not YAML): bare
/// values, list items joined by `, `.
pub open spec fn display_text(f: Field) -> Seq<char>
    decreases f,
{
    match f {
        Field::Str(v) => v@,
        Field::Olink(v) => v@,
        Field::Bool(b) => if b {
            true_text()
        } else {
            false_text()
        },
        Field::Int(i) => int_text(i as int),
        Field::Float(t) => t@,
        Field::List(items) => display_items(items@),
    }
}

/// Human forms joined by `, `.
pub open spec fn display_items(items: Seq<Field>) -> Seq<char>
    decreases items,
{
    if items.len() == 0 {
        Seq::empty()
    } else if items.len() == 1 {
        display_text(items[0])
    } else {
        display_items(items.drop_last()) + seq![',', ' '] + display_text(items.last())
    }
}

fn push_display(out: &mut String, f: &Field)
    ensures
        final(out)@ == old(out)@ + display_text(*f),
    decreases f,
{
    match f {
        Field::Str(v) => push_str(out, v.as_str()),
        Field::Olink(v) => push_str(out, v.as_str()),
        Field::Bool(b) => {
            if *b {
                push_str(out, "true");
            } else {
                push_str(out, "false");
            }
            proof {
                reveal_strlit("true");
                reveal_strlit("false");
            }
            assert(out@ =~= old(out)@ + display_text(*f));
        },
        Field::Int(i) => push_int(out, *i),
        Field::Float(t) => push_str(out, t.as_str()),
        Field::List(items) => {
            let mut i: usize = 0;
            while i < items.len()
                invariant
                    i <= items@.len(),
                    *f == Field::List(*items),
                    out@ == old(out)@ + display_items(items@.take(i as int)),
                decreases items@.len() - i,
            {
                if i > 0 {
                    push_char(out, ',');
                    push_char(out, ' ');
                }
                proof {
                    assert(decreases_to!(*f => (*f)->List_0));
                    assert((*f)->List_0 == *items);
                    assert(decreases_to!(*items => items@));
                    assert(decreases_to!(items@ => items@[i as int]));
                    assert(decreases_to!(*f => items@[i as int]));
                }
                push_display(out, &items[i]);
                proof {
                    let t = items@.take(i + 1);
                    assert(t.drop_last() =~= items@.take(i as int));
                    assert(t.last() == items@[i as int]);
                    if i == 0 {
                        assert(t.len() == 1);
                    }
                }
                i = i + 1;
            }
            assert(items@.take(items@.len() as int) =~= items@);
        },
    }
}

impl Field {
    /// The human form of the value: bare values, list items joined by
    /// `, `.
    pub fn to_text(&self) -> (r: String)
        ensures
            r@ == display_text(*self),
    {
        let mut out = String::new();
        push_display(&mut out, self);
        assert(out@ =~= display_text(*self));
        out
    }
}

pub open spec fn spec_field_error_message(e: FieldError) -> Seq<char> {
    match e {
        FieldError::InvalidValue { expected, value } => crate::vault::spec_debug_str(value@)
            + " is not a valid "@ + expected@ + " value"@,
        FieldError::NestedList => "nested lists (list<list<T>>) cannot be written yet"@,
    }
}

impl FieldError {
    /// The human-readable message for this error.
    pub fn message(&self) -> (r: String)
        ensures
            r@ == spec_field_error_message(*self),
    {
        let mut out = String::new();
        match self {
            FieldError::InvalidValue { expected, value } => {
                push_str(&mut out, crate::vault::debug_str(value.as_str()).as_str());
                push_str(&mut out, " is not a valid ");
                push_str(&mut out, expected.as_str());
                push_str(&mut out, " value");
            },
            FieldError::NestedList => {
                push_str(&mut out, "nested lists (list<list<T>>) cannot be written yet");
            },
        }
        assert(out@ =~= spec_field_error_message(*self));
        out
    }
}

impl FieldTypeError {
    /// The human-readable message for this error.
    pub fn message(&self) -> (r: String)
        ensures
            r@ == self.0@ + " is not a valid field type"@,
    {
        let mut out = String::new();
        push_str(&mut out, self.0.as_str());
        push_str(&mut out, " is not a valid field type");
        out
    }
}

/// `d` survives the comma split of a list value as one item: non-empty,
/// no comma, no whitespace at either end.
pub open spec fn plain_item(d: Seq<char>) -> bool {
    &&& d.len() > 0
    &&& !d.contains(',')
    &&& !is_ws(d[0])
    &&& !is_ws(d.last())
}

/// `f` is a value of the scalar type `ty`, floats aside.
pub open spec fn exact_scalar(ty: FieldType, f: Field) -> bool {
    match ty {
        FieldType::Str => f is Str,
        FieldType::Olink => f is Olink,
        FieldType::Int => f is Int,
        FieldType::Bool => f is Bool,
        _ => false,
    }
}

/// `f` is a value of `ty` whose human form `Field::parse` reads: a
/// string, olink, int or bool of that type, or a list of such values, of
/// a list type of such values, whose every item's human form is a
/// [`plain_item`].
pub open spec fn reads_back(ty: FieldType, f: Field) -> bool {
    match ty {
        FieldType::List(elem) => {
            &&& !(*elem is List)
            &&& !(*elem is Float)
            &&& f matches Field::List(items) && forall|i: int|
                0 <= i < items@.len() ==> exact_scalar(*elem, #[trigger] items@[i]) && plain_item(
                    display_text(items@[i]),
                )
        },
        _ => exact_scalar(ty, f),
    }
}

/// Two scalars are the same value, texts compared by their characters.
pub open spec fn same_scalar(a: Field, b: Field) -> bool {
    match a {
        Field::Str(x) => b matches Field::Str(y) && x@ == y@,
        Field::Olink(x) => b matches Field::Olink(y) && x@ == y@,
        Field::Float(x) => b matches Field::Float(y) && x@ == y@,
        _ => a == b,
    }
}

/// Two values are the same: equal scalars, or lists of equal scalars.
pub open spec fn same_field(a: Field, b: Field) -> bool {
    match a {
        Field::List(x) => b matches Field::List(y) && x@.len() == y@.len() && forall|i: int|
            0 <= i < x@.len() ==> same_scalar(#[trigger] x@[i], y@[i]),
        _ => same_scalar(a, b),
    }
}

proof fn lemma_nat_text(n: nat)
    ensures
        nat_text(n).len() > 0,
        all_digits(nat_text(n)),
        digits_value(nat_text(n)) == n,
    decreases n,
{
    let s = nat_text(n);
    if n < 10 {
        assert(s.drop_last() =~= Seq::<char>::empty());
        assert(digits_value(Seq::<char>::empty()) == 0);
    } else {
        lemma_nat_text(n / 10);
        assert(s.drop_last() =~= nat_text(n / 10));
        assert forall|i: int| 0 <= i < s.len() implies is_digit(#[trigger] s[i]) by {
            if i < s.len() - 1 {
                assert(s[i] == nat_text(n / 10)[i]);
            }
        }
    }
}

/// Reading the decimal text of an `i32` gives the `i32` back.
proof fn lemma_int_text_parses(i: int)
    requires
        i32::MIN <= i <= i32::MAX,
    ensures
        spec_parse_i32(int_text(i)) == Some(i),
{
    if i < 0 {
        let n = (-i) as nat;
        lemma_nat_text(n);
        let s = int_text(i);
        assert(s.skip(1) =~= nat_text(n));
    } else {
        lemma_nat_text(i as nat);
        let s = nat_text(i as nat);
        assert(is_digit(s[0]));
    }
}

proof fn lemma_scalar_reads_back<F: Fn(&str) -> Option<String>>(
    ty: FieldType,
    x: Field,
    reader: F,
    o: Result<Field, FieldError>,
)
    requires
        exact_scalar(ty, x),
        scalar_outcome(ty, display_text(x), reader, o),
    ensures
        o matches Ok(g) && same_scalar(g, x),
{
    match x {
        Field::Int(i) => {
            lemma_int_text_parses(i as int);
        },
        Field::Bool(b) => {
            reveal_strlit("true");
            reveal_strlit("false");
            assert(true_text() =~= "true"@);
            assert(false_text() =~= "false"@);
        },
        _ => {},
    }
}

/// The first `c` in `s` stands where nothing before it is `c` and `s`
/// has `c` there or ends.
proof fn lemma_index_of_at(s: Seq<char>, c: char, j: int)
    requires
        0 <= j <= s.len(),
        j < s.len() ==> s[j] == c,
        forall|k: int| 0 <= k < j ==> s[k] != c,
    ensures
        index_of(s, c) == j,
{
    lemma_index_of_from(s, c, 0);
    let m = index_of(s, c);
    if m < j {
        assert(s[m] == c);
    }
    if m > j {
        assert(s[j] != c);
    }
}

proof fn lemma_split_plain(s: Seq<char>)
    requires
        !s.contains(','),
    ensures
        split_commas(s) == seq![s],
{
    assert forall|k: int| 0 <= k < s.len() implies s[k] != ',' by {
        if s[k] == ',' {
            assert(s.contains(','));
        }
    }
    lemma_index_of_at(s, ',', s.len() as int);
}

/// Splitting `x`, a comma and a comma-free `y` gives the pieces of `x`,
/// then `y`.
proof fn lemma_split_last(x: Seq<char>, y: Seq<char>)
    requires
        !y.contains(','),
    ensures
        split_commas(x + seq![','] + y) == split_commas(x).push(y),
    decreases x.len(),
{
    let s = x + seq![','] + y;
    lemma_index_of_from(x, ',', 0);
    let j = index_of(x, ',');
    if j >= x.len() {
        lemma_index_of_at(s, ',', x.len() as int);
        assert(s.take(x.len() as int) =~= x);
        assert(s.skip((x.len() + 1) as int) =~= y);
        lemma_split_plain(y);
        assert(split_commas(x) == seq![x]);
        assert(split_commas(s) =~= split_commas(x).push(y));
    } else {
        lemma_index_of_at(s, ',', j);
        let rest = x.skip(j + 1);
        assert(s.take(j) =~= x.take(j));
        assert(s.skip(j + 1) =~= rest + seq![','] + y);
        lemma_split_last(rest, y);
        assert(split_commas(s) =~= split_commas(x).push(y));
    }
}

proof fn lemma_kept_concat(p: Seq<Seq<char>>, q: Seq<Seq<char>>)
    ensures
        kept_items(p + q) == kept_items(p) + kept_items(q),
    decreases p.len(),
{
    if p.len() == 0 {
        assert(p + q =~= q);
        assert(kept_items(p) + kept_items(q) =~= kept_items(q));
    } else {
        lemma_kept_concat(p.drop_first(), q);
        assert((p + q).drop_first() =~= p.drop_first() + q);
        assert((p + q)[0] == p[0]);
        if trim(p[0]).len() == 0 {
        } else {
            assert(seq![trim(p[0])] + kept_items(p.drop_first()) + kept_items(q) =~= seq![trim(p[0])] + (
            kept_items(p.drop_first()) + kept_items(q)));
        }
    }
}

/// The items `Field::parse` reads from a list's human form are the human
/// forms of its items.
proof fn lemma_items_read_back(items: Seq<Field>)
    requires
        forall|i: int| 0 <= i < items.len() ==> plain_item(display_text(#[trigger] items[i])),
    ensures
        list_items(display_items(items)) == items.map_values(|f: Field| display_text(f)),
    decreases items.len(),
{
    let want = items.map_values(|f: Field| display_text(f));
    let none = Seq::<Seq<char>>::empty();
    assert(kept_items(none) == none);
    if items.len() == 0 {
        let e = Seq::<char>::empty();
        lemma_split_plain(e);
        assert(trim(e) =~= e);
        assert(seq![e].drop_first() =~= Seq::<Seq<char>>::empty());
        assert(list_items(display_items(items)) =~= want);
    } else if items.len() == 1 {
        let d = display_text(items[0]);
        assert(plain_item(d));
        lemma_split_plain(d);
        lemma_trim_plain(d);
        assert(seq![d].drop_first() =~= Seq::<Seq<char>>::empty());
        assert(list_items(display_items(items)) =~= want);
    } else {
        let init = items.drop_last();
        let d = display_text(items.last());
        assert(plain_item(display_text(items[items.len() - 1])));
        assert forall|i: int| 0 <= i < init.len() implies plain_item(display_text(#[trigger] init[i])) by {
            assert(init[i] == items[i]);
        }
        lemma_items_read_back(init);
        let y = seq![' '] + d;
        assert(!y.contains(',')) by {
            if y.contains(',') {
                let k = choose|k: int| 0 <= k < y.len() && y[k] == ',';
                assert(d[k - 1] == ',');
                assert(d.contains(','));
            }
        }
        let front = display_items(init);
        assert(display_items(items) =~= front + seq![','] + y);
        lemma_split_last(front, y);
        lemma_kept_concat(split_commas(front), seq![y]);
        lemma_trim_plain(d);
        assert(seq![y].drop_first() =~= Seq::<Seq<char>>::empty());
        assert(kept_items(seq![y]) =~= seq![d]);
        assert(want =~= init.map_values(|f: Field| display_text(f)).push(d));
        assert(split_commas(front).push(y) =~= split_commas(front) + seq![y]);
        assert(list_items(display_items(items)) == list_items(front) + seq![d]);
        assert(list_items(display_items(items)) =~= want);
    }
}

/// `Field::parse` reads back the human form `Field::to_text` writes:
/// coercing the human form of a value of `ty` gives the same value, for
/// strings, olinks, ints, bools and lists of them whose items survive the
/// comma split (floats are read by the caller's reader).
pub proof fn lemma_parse_reads_human_form<F: Fn(&str) -> Option<String>>(
    ty: FieldType,
    f: Field,
    reader: F,
    r: Result<Field, FieldError>,
)
    requires
        reads_back(ty, f),
        field_outcome(ty, display_text(f), reader, r),
    ensures
        r matches Ok(g) && same_field(g, f),
{
    match ty {
        FieldType::List(elem) => {
            let items = f->List_0@;
            lemma_items_read_back(items);
            let texts = list_items(display_text(f));
            assert(texts == items.map_values(|x: Field| display_text(x)));
            assert(list_outcome(*elem, display_text(f), reader, r));
            let outs = choose|outs: Seq<Result<Field, FieldError>>|
                #[trigger] outs.len() <= texts.len() && (forall|i: int|
                    0 <= i < outs.len() ==> scalar_outcome(*elem, texts[i], reader, #[trigger] outs[i])) && (
                forall|i: int| 0 <= i < outs.len() - 1 ==> #[trigger] outs[i] is Ok) && match r {
                    Ok(Field::List(v)) => outs.len() == texts.len() && v@.len() == texts.len() && (forall|i: int|
                        0 <= i < outs.len() ==> #[trigger] outs[i] == Ok::<Field, FieldError>(v@[i])),
                    Ok(_) => false,
                    Err(e) => outs.len() > 0 && outs.last() == Err::<Field, FieldError>(e),
                };
            assert(outs.len() <= items.len());
            assert forall|i: int| 0 <= i < outs.len() implies (#[trigger] outs[i] matches Ok(g) && same_scalar(
                g,
                items[i],
            )) by {
                assert(texts[i] == display_text(items[i]));
                assert(exact_scalar(*elem, items[i]));
                lemma_scalar_reads_back(*elem, items[i], reader, outs[i]);
            }
            if r is Err {
                let k = outs.len() - 1;
                assert(outs[k] is Ok);
                assert(false);
            }
            let v = r->Ok_0->List_0@;
            assert forall|i: int| 0 <= i < v.len() implies same_scalar(#[trigger] v[i], items[i]) by {
                assert(outs[i] == Ok::<Field, FieldError>(v[i]));
            }
        },
        _ => {
            lemma_scalar_reads_back(ty, f, reader, r);
        },
    }
}

/// How `render_field` writes each kind of value: a scalar as `name: `
/// and its YAML (a string double-quoted with each backslash doubled and
/// each quote escaped, an olink double-quoted and wrapped in `[[ ]]` unless
/// it already starts with `[[`, a bool or int bare, a float as written); an
/// empty list as `name: []`; any other list as `name:` and, after each
/// `eol`, one `  - ` item line per item.
pub proof fn lemma_render_field_shapes(name: Seq<char>, f: Field, eol: Seq<char>)
    ensures
        f matches Field::Str(v) ==> spec_render_field(name, f, eol) == name + seq![':', ' ', '"'] + spec_escape(v@)
            + seq!['"'],
        f matches Field::Olink(v) ==> spec_render_field(name, f, eol) == name + seq![':', ' ', '"'] + (if has_prefix(
            v@,
            seq!['[', '['],
        ) {
            v@
        } else {
            seq!['[', '['] + v@ + seq![']', ']']
        }) + seq!['"'],
        f matches Field::Bool(b) ==> spec_render_field(name, f, eol) == name + seq![':', ' '] + (if b {
            true_text()
        } else {
            false_text()
        }),
        f matches Field::Int(i) ==> spec_render_field(name, f, eol) == name + seq![':', ' '] + int_text(i as int),
        f matches Field::Float(x) ==> spec_render_field(name, f, eol) == name + seq![':', ' '] + x@,
        f matches Field::List(items) ==> spec_render_field(name, f, eol) == if items@.len() == 0 {
            name + seq![':', ' ', '[', ']']
        } else {
            name + seq![':'] + eol + block_items(items@, eol)
        },
        forall|items: Seq<Field>|
            #![trigger block_items(items, eol)]
            items.len() > 1 ==> block_items(items, eol) == block_items(items.drop_last(), eol) + eol + seq![
                ' ',
                ' ',
                '-',
                ' ',
            ] + yaml_value(items.last()),
        forall|v: Seq<char>, c: char|
            #![trigger spec_escape(v.push(c))]
            spec_escape(v.push(c)) == spec_escape(v) + if c == '\\' {
                seq!['\\', '\\']
            } else if c == '"' {
                seq!['\\', '"']
            } else {
                seq![c]
            },
{
    match f {
        Field::Str(v) => {
            assert(spec_render_field(name, f, eol) =~= name + seq![':', ' ', '"'] + spec_escape(v@) + seq!['"']);
        },
        Field::Olink(v) => {
            let inner = if has_prefix(v@, seq!['[', '[']) {
                v@
            } else {
                seq!['[', '['] + v@ + seq![']', ']']
            };
            assert(spec_render_field(name, f, eol) =~= name + seq![':', ' ', '"'] + inner + seq!['"']);
        },
        _ => {},
    }
    assert forall|v: Seq<char>, c: char| #![trigger spec_escape(v.push(c))] spec_escape(v.push(c)) == spec_escape(v)
        + escape_char(c) by {
        assert(v.push(c).drop_last() =~= v);
    }
}

/// Each config type word names its own type, whatever its ASCII case and
/// surrounding whitespace: `string`, `int`, `float`, `bool` and `olink`
/// name `Str`, `Int`, `Float`, `Bool` and `Olink`, and `list<w>` names a
/// list of what `w` names.
pub proof fn lemma_type_words(s: Seq<char>)
    ensures
        ascii_lower(trim(s)) == "string"@ ==> spec_field_type(s) == Ok::<FieldType, Seq<char>>(FieldType::Str),
        ascii_lower(trim(s)) == "int"@ ==> spec_field_type(s) == Ok::<FieldType, Seq<char>>(FieldType::Int),
        ascii_lower(trim(s)) == "float"@ ==> spec_field_type(s) == Ok::<FieldType, Seq<char>>(FieldType::Float),
        ascii_lower(trim(s)) == "bool"@ ==> spec_field_type(s) == Ok::<FieldType, Seq<char>>(FieldType::Bool),
        ascii_lower(trim(s)) == "olink"@ ==> spec_field_type(s) == Ok::<FieldType, Seq<char>>(FieldType::Olink),
        forall|w: Seq<char>|
            ascii_lower(trim(s)) == "list<"@ + w + ">"@ ==> #[trigger] spec_field_type(s) == match spec_field_type(w) {
                Ok(t) => Ok::<FieldType, Seq<char>>(FieldType::List(Box::new(t))),
                Err(e) => Err(e),
            },
{
    reveal_strlit("string");
    reveal_strlit("int");
    reveal_strlit("float");
    reveal_strlit("bool");
    reveal_strlit("olink");
    reveal_strlit("list<");
    reveal_strlit(">");
    let l = ascii_lower(trim(s));
    assert("string"@.len() == 6 && "int"@.len() == 3 && "float"@.len() == 5 && "bool"@.len() == 4 && "olink"@.len()
        == 5);
    if l == "olink"@ {
        assert(l[0] == 'o' && "float"@[0] == 'f');
    }
    assert forall|w: Seq<char>|
        l == "list<"@ + w + ">"@ implies #[trigger] spec_field_type(s) == match spec_field_type(w) {
            Ok(t) => Ok::<FieldType, Seq<char>>(FieldType::List(Box::new(t))),
            Err(e) => Err(e),
        } by {
        assert(l[0] == 'l');
        assert(l.len() == w.len() + 6);
        assert("string"@[0] == 's' && "int"@[0] == 'i' && "float"@[0] == 'f' && "bool"@[0] == 'b' && "olink"@[0]
            == 'o');
        assert(has_prefix(l, "list<"@)) by {
            assert(l.take(5) =~= "list<"@);
        }
        assert(has_suffix(l.skip(5), ">"@)) by {
            assert(l.skip(5).skip(l.skip(5).len() - 1) =~= ">"@);
        }
        assert(l.subrange(5, l.len() - 1) =~= w);
    }
}

} // verus!
