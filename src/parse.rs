//! The parser: EML text to an [`EventModel`], as the grammar states.

use vstd::prelude::*;
use crate::chars::{alpha_char, digit_char, multispace_char, push_char, push_nat, space_char, white_char};
use crate::error::{EmlError, ErrorModel};
use crate::eventmodel::{Body, BodyModel, EventModel, Expression, ExpressionId, ExpressionType, Field, TextField};
use crate::grammar;
use crate::grammar::{at, in_class, run_end, tag, CharClass};

verus! {

/// The numbers of the header `# eml: MAJOR.MINOR.PATCH`.
#[derive(Debug, PartialEq, Eq, Clone, Copy)]
pub struct Version {
    pub major: u32,
    pub minor: u32,
    pub fix: u32,
}

/// The characters of `input`, in order.
pub fn chars_of(input: &str) -> (v: Vec<char>)
    ensures
        v@ == input@,
{
    let mut v: Vec<char> = Vec::new();
    for c in it: input.chars()
        invariant
            v@ == it.seq().take(it.index() as int),
    {
        v.push(c);
    }
    v
}

fn class_char(k: CharClass, c: char) -> (r: bool)
    ensures
        r == in_class(k, c),
{
    match k {
        CharClass::Space => space_char(c),
        CharClass::Multispace => multispace_char(c),
        CharClass::Alpha => alpha_char(c),
        CharClass::Digit => digit_char(c),
        CharClass::Value => c != ',' && c != '}' && c != '\n' && c != '\r',
        CharClass::NotQuote => c != '"',
        CharClass::NotBrace => c != '}',
        CharClass::White => white_char(c),
    }
}

/// The end of the run of class `k` from `i`, stopping before `lim`.
fn run(s: &Vec<char>, i: usize, lim: usize, k: CharClass) -> (e: usize)
    requires
        i <= lim <= s.len(),
    ensures
        e == run_end(s@, i as int, lim as int, k),
        i <= e <= lim,
{
    let mut j = i;
    while j < lim && class_char(k, s[j])
        invariant
            i <= j <= lim <= s.len(),
            run_end(s@, i as int, lim as int, k) == run_end(s@, j as int, lim as int, k),
        decreases lim - j,
    {
        j += 1;
    }
    j
}

fn space0(s: &Vec<char>, i: usize) -> (e: usize)
    requires
        i <= s.len(),
    ensures
        e == grammar::space0(s@, i as int),
        i <= e <= s.len(),
{
    run(s, i, s.len(), CharClass::Space)
}

fn multispace0(s: &Vec<char>, i: usize) -> (e: usize)
    requires
        i <= s.len(),
    ensures
        e == grammar::multispace0(s@, i as int),
        i <= e <= s.len(),
{
    run(s, i, s.len(), CharClass::Multispace)
}

fn alpha1(s: &Vec<char>, i: usize) -> (r: Option<usize>)
    requires
        i <= s.len(),
    ensures
        grammar::alpha1(s@, i as int) == (match r {
            Some(e) => Some(e as int),
            None => None,
        }),
        r matches Some(e) ==> i < e <= s.len(),
{
    let e = run(s, i, s.len(), CharClass::Alpha);
    if e > i {
        Some(e)
    } else {
        None
    }
}

fn at_char(s: &Vec<char>, i: usize, c: char) -> (r: bool)
    ensures
        r == at(s@, i as int, c),
{
    i < s.len() && s[i] == c
}

fn has_tag(s: &Vec<char>, i: usize, t: &[char]) -> (r: bool)
    ensures
        r == tag(s@, i as int, t@),
{
    if t.len() > s.len() || i > s.len() - t.len() {
        return false;
    }
    let mut k: usize = 0;
    while k < t.len()
        invariant
            k <= t.len(),
            i + t.len() <= s.len(),
            forall|m: int| 0 <= m < k ==> s@[i + m] == t@[m],
        decreases t.len() - k,
    {
        if s[i + k] != t[k] {
            assert(s@.subrange(i as int, i + t.len())[k as int] != t@[k as int]);
            return false;
        }
        k += 1;
    }
    assert(s@.subrange(i as int, i + t.len()) =~= t@);
    true
}

fn line_ending(s: &Vec<char>, i: usize) -> (r: Option<usize>)
    requires
        i <= s.len(),
    ensures
        grammar::line_ending(s@, i as int) == (match r {
            Some(e) => Some(e as int),
            None => None,
        }),
        r matches Some(e) ==> i < e <= s.len(),
{
    if i == s.len() {
        None
    } else if s[i] == '\n' {
        Some(i + 1)
    } else if s[i] == '\r' && i + 1 < s.len() && s[i + 1] == '\n' {
        Some(i + 2)
    } else {
        None
    }
}

/// The characters `s[a..b]` as a string.
fn string_of(s: &Vec<char>, a: usize, b: usize) -> (r: String)
    requires
        a <= b <= s.len(),
    ensures
        r@ == s@.subrange(a as int, b as int),
{
    let mut r = String::new();
    let mut j = a;
    while j < b
        invariant
            a <= j <= b <= s.len(),
            r@ == s@.subrange(a as int, j as int),
        decreases b - j,
    {
        push_char(&mut r, s[j]);
        j += 1;
        assert(r@ =~= s@.subrange(a as int, j as int));
    }
    r
}


proof fn lemma_decimal_prefix(d: Seq<char>, k: int)
    requires
        0 <= k <= d.len(),
    ensures
        grammar::decimal_value(d) >= grammar::decimal_value(d.take(k)),
    decreases d.len(),
{
    if k < d.len() {
        lemma_decimal_prefix(d.drop_last(), k);
        assert(d.drop_last().take(k) =~= d.take(k));
    } else {
        assert(d.take(k) =~= d);
    }
}

/// Digits whose value fits in a `u32`.
fn number(s: &Vec<char>, i: usize) -> (r: Option<(usize, u32)>)
    requires
        i <= s.len(),
    ensures
        grammar::number(s@, i as int) == (match r {
            Some((e, v)) => Some((e as int, v as nat)),
            None => None,
        }),
        r matches Some((e, _)) ==> i < e <= s.len(),
{
    let e = run(s, i, s.len(), CharClass::Digit);
    if e == i {
        return None;
    }
    proof {
        grammar::lemma_run_end(s@, i as int, s.len() as int, CharClass::Digit);
    }
    let mut v: u64 = 0;
    let mut j = i;
    while j < e
        invariant
            i <= j <= e <= s.len(),
            e == run_end(s@, i as int, s.len() as int, CharClass::Digit),
            forall|m: int| i <= m < e ==> in_class(CharClass::Digit, #[trigger] s@[m]),
            v == grammar::decimal_value(s@.subrange(i as int, j as int)),
            v <= u32::MAX,
        decreases e - j,
    {
        let d = (s[j] as u32 - '0' as u32) as u64;
        assert(s@.subrange(i as int, j + 1).drop_last() =~= s@.subrange(i as int, j as int));
        let w = v * 10 + d;
        j += 1;
        if w > u32::MAX as u64 {
            proof {
                lemma_decimal_prefix(s@.subrange(i as int, e as int), j - i);
                assert(s@.subrange(i as int, e as int).take(j - i) =~= s@.subrange(i as int, j as int));
            }
            return None;
        }
        v = w;
    }
    Some((e, v as u32))
}


fn version_at(s: &Vec<char>, i: usize) -> (r: Option<(usize, Version)>)
    requires
        i <= s.len(),
    ensures
        match grammar::eml_version(s@, i as int) {
            Some((e, (a, b, c))) => r is Some && (r->0).0 == e && (r->0).1.major == a
                && (r->0).1.minor == b && (r->0).1.fix == c,
            None => r is None,
        },
        r matches Some((e, _)) ==> e <= s.len(),
{
    if !at_char(s, i, '#') {
        return None;
    }
    let a = space0(s, i + 1);
    if !has_tag(s, a, &['e', 'm', 'l', ':']) {
        return None;
    }
    let p = space0(s, a + 4);
    let (b, major) = match number(s, p) {
        Some(x) => x,
        None => return None,
    };
    if !at_char(s, b, '.') {
        return None;
    }
    let (c, minor) = match number(s, b + 1) {
        Some(x) => x,
        None => return None,
    };
    if !at_char(s, c, '.') {
        return None;
    }
    let (d, fix) = match number(s, c + 1) {
        Some(x) => x,
        None => return None,
    };
    Some((d, Version { major, minor, fix }))
}

/// The end of `s[b..e]` without its trailing spaces.
fn trim_spaces_end(s: &Vec<char>, b: usize, e: usize) -> (t: usize)
    requires
        b <= e <= s.len(),
    ensures
        t == grammar::trim_spaces_end(s@, b as int, e as int),
        b <= t <= e,
{
    let mut j = e;
    while j > b && space_char(s[j - 1])
        invariant
            b <= j <= e <= s.len(),
            grammar::trim_spaces_end(s@, b as int, e as int) == grammar::trim_spaces_end(
                s@,
                b as int,
                j as int,
            ),
        decreases j,
    {
        j -= 1;
    }
    j
}

fn text_field(name: String, data: String) -> (f: Field)
    ensures
        f@ == (name@, data@),
{
    Field::Text(TextField { name, data })
}

fn textfield_at(s: &Vec<char>, i: usize) -> (r: Option<(usize, Field)>)
    requires
        i <= s.len(),
    ensures
        match grammar::textfield(s@, i as int) {
            Some((e, f)) => r is Some && (r->0).0 == e && (r->0).1@ == f,
            None => r is None,
        },
        r matches Some((e, _)) ==> i < e <= s.len(),
{
    let a = space0(s, i);
    let k = match alpha1(s, a) {
        Some(k) => k,
        None => return None,
    };
    if !at_char(s, k, ':') {
        return None;
    }
    let b = space0(s, k + 1);
    let key = string_of(s, a, k);
    if at_char(s, b, '"') {
        let q = run(s, b + 1, s.len(), CharClass::NotQuote);
        if at_char(s, q, '"') {
            let data = string_of(s, b + 1, q);
            let e = space0(s, q + 1);
            return Some((e, text_field(key, data)));
        }
    }
    let e = run(s, b, s.len(), CharClass::Value);
    if e > b {
        let t = trim_spaces_end(s, b, e);
        let data = string_of(s, b, t);
        Some((e, text_field(key, data)))
    } else {
        None
    }
}

fn field_delim(s: &Vec<char>, p: usize) -> (r: Option<usize>)
    requires
        p <= s.len(),
    ensures
        grammar::field_delim(s@, p as int) == (match r {
            Some(e) => Some(e as int),
            None => None,
        }),
        r matches Some(e) ==> p < e <= s.len(),
{
    if at_char(s, p, ',') {
        Some(p + 1)
    } else {
        line_ending(s, p)
    }
}

fn fields_at(s: &Vec<char>, i: usize) -> (r: (usize, Vec<Field>))
    requires
        i <= s.len(),
    ensures
        r.0 == grammar::fields(s@, i as int).0,
        crate::eventmodel::fields_view(r.1@) == grammar::fields(s@, i as int).1,
        i <= r.0 <= s.len(),
{
    let (p0, f) = match textfield_at(s, i) {
        Some(x) => x,
        None => {
            assert(crate::eventmodel::fields_view(Seq::<Field>::empty()) =~= Seq::empty());
            return (i, Vec::new());
        },
    };
    let ghost first = f@;
    let mut v: Vec<Field> = Vec::new();
    v.push(f);
    let mut p = p0;
    assert(crate::eventmodel::fields_view(v@) =~= seq![first]);
    loop
        invariant
            i < p0 <= p <= s.len(),
            grammar::more_fields(s@, p0 as int).0 == grammar::more_fields(s@, p as int).0,
            crate::eventmodel::fields_view(v@) + grammar::more_fields(s@, p as int).1 == seq![
                first,
            ] + grammar::more_fields(s@, p0 as int).1,
        ensures
            grammar::more_fields(s@, p as int) == (p as int, Seq::<(Seq<char>, Seq<char>)>::empty()),
        decreases s.len() - p,
    {
        let d = match field_delim(s, p) {
            Some(d) => d,
            None => break,
        };
        let (q, g) = match textfield_at(s, d) {
            Some(x) => x,
            None => break,
        };
        let ghost gv = g@;
        let ghost before = crate::eventmodel::fields_view(v@);
        v.push(g);
        assert(crate::eventmodel::fields_view(v@) =~= before.push(gv));
        assert(before + grammar::more_fields(s@, p as int).1 =~= before.push(gv)
            + grammar::more_fields(s@, q as int).1);
        p = q;
    }
    assert(crate::eventmodel::fields_view(v@) =~= crate::eventmodel::fields_view(v@) + Seq::<
        (Seq<char>, Seq<char>),
    >::empty());
    (p, v)
}

fn fields_block_at(s: &Vec<char>, i: usize) -> (r: Option<(usize, Vec<Field>)>)
    requires
        i <= s.len(),
    ensures
        match grammar::fields_block(s@, i as int) {
            Some((e, f)) => r is Some && (r->0).0 == e && crate::eventmodel::fields_view((r->0).1@)
                == f,
            None => r is None,
        },
        r matches Some((e, _)) ==> i < e <= s.len(),
{
    if !at_char(s, i, '{') {
        return None;
    }
    let a = multispace0(s, i + 1);
    let (p, fs) = fields_at(s, a);
    let b = multispace0(s, p);
    if at_char(s, b, '}') {
        Some((b + 1, fs))
    } else {
        None
    }
}


/// `s[a..b]` without its leading whitespace, as a string.
fn trimmed_string(s: &Vec<char>, a: usize, b: usize) -> (r: String)
    requires
        a <= b <= s.len(),
    ensures
        r@ == grammar::trim_start(s@.subrange(a as int, b as int)),
{
    let t = run(s, a, b, CharClass::White);
    proof {
        grammar::lemma_run_end_subrange(s@, a as int, a as int, b as int, CharClass::White);
        assert(s@.subrange(a as int, b as int).skip(t - a) =~= s@.subrange(t as int, b as int));
    }
    string_of(s, t, b)
}

/// The lines of `s[a..e]`, each without its leading whitespace.
fn table_lines(s: &Vec<char>, a: usize, e: usize) -> (r: Vec<String>)
    requires
        a <= e <= s.len(),
    ensures
        crate::eventmodel::strings_view(r@) == grammar::lines_of(s@.subrange(a as int, e as int)).map_values(
            |l: Seq<char>| grammar::trim_start(l),
        ),
{
    let mut lines: Vec<String> = Vec::new();
    let mut cur = a;
    let mut j = a;
    proof {
        assert(s@.subrange(a as int, a as int) =~= Seq::<char>::empty());
    }
    while j < e
        invariant
            a <= cur <= j <= e <= s.len(),
            grammar::lines_of(s@.subrange(a as int, j as int)).len() == lines.len() + 1,
            forall|k: int|
                0 <= k < lines.len() ==> (#[trigger] lines@[k])@ == grammar::trim_start(
                    grammar::lines_of(s@.subrange(a as int, j as int))[k],
                ),
            grammar::lines_of(s@.subrange(a as int, j as int)).last() == s@.subrange(
                cur as int,
                j as int,
            ),
        decreases e - j,
    {
        let ghost old_lines = grammar::lines_of(s@.subrange(a as int, j as int));
        assert(s@.subrange(a as int, j + 1).drop_last() =~= s@.subrange(a as int, j as int));
        if s[j] == '\n' {
            let line = trimmed_string(s, cur, j);
            lines.push(line);
            cur = j + 1;
            assert(s@.subrange(cur as int, j + 1) =~= Seq::<char>::empty());
        } else {
            assert(s@.subrange(cur as int, j + 1) =~= s@.subrange(cur as int, j as int).push(s@[j as int]));
        }
        j += 1;
        let ghost new_lines = grammar::lines_of(s@.subrange(a as int, j as int));
        assert(forall|k: int| 0 <= k < old_lines.len() - 1 ==> new_lines[k] == old_lines[k]);
    }
    let line = trimmed_string(s, cur, e);
    lines.push(line);
    let ghost ls = grammar::lines_of(s@.subrange(a as int, e as int));
    assert(crate::eventmodel::strings_view(lines@) =~= ls.map_values(
        |l: Seq<char>| grammar::trim_start(l),
    ));
    lines
}

fn raw_block_at(s: &Vec<char>, i: usize) -> (r: Option<(usize, Vec<String>)>)
    requires
        i <= s.len(),
    ensures
        match grammar::raw_block(s@, i as int) {
            Some((e, t)) => r is Some && (r->0).0 == e && crate::eventmodel::strings_view((r->0).1@)
                == t,
            None => r is None,
        },
        r matches Some((e, _)) ==> i < e <= s.len(),
{
    if !at_char(s, i, '{') {
        return None;
    }
    let e = run(s, i + 1, s.len(), CharClass::NotBrace);
    if !at_char(s, e, '}') {
        return None;
    }
    let lines = table_lines(s, i + 1, e);
    Some((e + 1, lines))
}

fn use_block_at(s: &Vec<char>, i: usize) -> (r: Option<(usize, ExpressionId)>)
    requires
        i <= s.len(),
    ensures
        match grammar::use_block(s@, i as int) {
            Some((e, id)) => r is Some && (r->0).0 == e && (r->0).1@ == id,
            None => r is None,
        },
        r matches Some((e, _)) ==> i < e <= s.len(),
{
    if !at_char(s, i, '{') {
        return None;
    }
    let a = space0(s, i + 1);
    if !has_tag(s, a, &['u', 's', 'e', ' ']) {
        return None;
    }
    let k = match alpha1(s, a + 4) {
        Some(k) => k,
        None => return None,
    };
    let b = space0(s, k);
    if !at_char(s, b, '}') {
        return None;
    }
    Some((b + 1, ExpressionId(string_of(s, a + 4, k))))
}

fn body_at(s: &Vec<char>, i: usize) -> (r: Option<(usize, Body)>)
    requires
        i <= s.len(),
    ensures
        match grammar::body(s@, i as int) {
            Some((e, b)) => r is Some && (r->0).0 == e && (r->0).1@ == b,
            None => r is None,
        },
        r matches Some((e, _)) ==> i < e <= s.len(),
{
    if let Some((e, id)) = use_block_at(s, i) {
        return Some((e, Body::UseBody(id)));
    }
    if let Some((e, f)) = fields_block_at(s, i) {
        return Some((e, Body::FieldBody(f)));
    }
    if let Some((e, t)) = raw_block_at(s, i) {
        return Some((e, Body::TableBody(t)));
    }
    None
}


fn flow_block_at(s: &Vec<char>, i: usize) -> (r: Option<(usize, Vec<ExpressionId>)>)
    requires
        i <= s.len(),
    ensures
        match grammar::flow_block(s@, i as int) {
            Some((e, ids)) => r is Some && (r->0).0 == e && crate::eventmodel::ids_view((r->0).1@)
                == ids,
            None => r is None,
        },
        r matches Some((e, _)) ==> i < e <= s.len(),
{
    if !at_char(s, i, '{') {
        return None;
    }
    let a = space0(s, i + 1);
    let k0 = match alpha1(s, a) {
        Some(k) => k,
        None => return None,
    };
    let ghost first = s@.subrange(a as int, k0 as int);
    let mut ids: Vec<ExpressionId> = Vec::new();
    ids.push(ExpressionId(string_of(s, a, k0)));
    let mut p = k0;
    assert(crate::eventmodel::ids_view(ids@) =~= seq![first]);
    loop
        invariant
            i < k0 <= p <= s.len(),
            grammar::more_ids(s@, k0 as int).0 == grammar::more_ids(s@, p as int).0,
            crate::eventmodel::ids_view(ids@) + grammar::more_ids(s@, p as int).1 == seq![first]
                + grammar::more_ids(s@, k0 as int).1,
        ensures
            grammar::more_ids(s@, p as int) == (p as int, Seq::<Seq<char>>::empty()),
        decreases s.len() - p,
    {
        let b = space0(s, p);
        if !has_tag(s, b, &['=', '>']) {
            break;
        }
        let c = space0(s, b + 2);
        let k = match alpha1(s, c) {
            Some(k) => k,
            None => break,
        };
        let ghost before = crate::eventmodel::ids_view(ids@);
        let id = ExpressionId(string_of(s, c, k));
        let ghost iv = id@;
        ids.push(id);
        assert(crate::eventmodel::ids_view(ids@) =~= before.push(iv));
        assert(before + grammar::more_ids(s@, p as int).1 =~= before.push(iv) + grammar::more_ids(
            s@,
            k as int,
        ).1);
        p = k;
    }
    assert(crate::eventmodel::ids_view(ids@) =~= crate::eventmodel::ids_view(ids@) + Seq::<
        Seq<char>,
    >::empty());
    let b = space0(s, p);
    if !at_char(s, b, '}') {
        return None;
    }
    Some((b + 1, ids))
}

fn keyword_at(s: &Vec<char>, i: usize) -> (r: Option<(usize, ExpressionType)>)
    ensures
        grammar::keyword(s@, i as int) == (match r {
            Some((e, t)) => Some((e as int, t)),
            None => None,
        }),
        r matches Some((e, _)) ==> i < e <= s.len(),
{
    if let Some(e) = tag_end(s, i, &['f', 'o', 'r', 'm']) {
        Some((e, ExpressionType::Form))
    } else if let Some(e) = tag_end(s, i, &['j', 'o', 'b']) {
        Some((e, ExpressionType::Job))
    } else if let Some(e) = tag_end(s, i, &['c', 'o', 'm', 'm', 'a', 'n', 'd']) {
        Some((e, ExpressionType::Command))
    } else if let Some(e) = tag_end(s, i, &['e', 'v', 'e', 'n', 't']) {
        Some((e, ExpressionType::Event))
    } else if let Some(e) = tag_end(s, i, &['v', 'i', 'e', 'w']) {
        Some((e, ExpressionType::View))
    } else if let Some(e) = tag_end(s, i, &['f', 'l', 'o', 'w']) {
        Some((e, ExpressionType::Flow))
    } else {
        None
    }
}

/// The end of `t` when the input holds it at `i`.
fn tag_end(s: &Vec<char>, i: usize, t: &[char]) -> (r: Option<usize>)
    ensures
        r is Some == tag(s@, i as int, t@),
        r matches Some(e) ==> e == i + t@.len() && e <= s.len(),
{
    if has_tag(s, i, t) {
        assert(i + t@.len() <= s.len());
        Some(i + t.len())
    } else {
        None
    }
}

/// The id of a flow that starts at offset `i`.
fn flow_id(i: usize) -> (r: ExpressionId)
    ensures
        r@ == grammar::flow_id(i as int),
{
    let mut t = String::new();
    push_char(&mut t, 'f');
    push_char(&mut t, 'l');
    push_char(&mut t, 'o');
    push_char(&mut t, 'w');
    push_char(&mut t, '@');
    push_nat(&mut t, i as u128);
    assert(t@ =~= grammar::flow_id(i as int));
    ExpressionId(t)
}

fn expression_at(s: &Vec<char>, i: usize) -> (r: Option<(usize, Expression)>)
    requires
        i <= s.len(),
    ensures
        match grammar::expression(s@, i as int) {
            Some((e, x)) => r is Some && (r->0).0 == e && (r->0).1@ == x,
            None => r is None,
        },
        r matches Some((e, _)) ==> i < e <= s.len(),
{
    let (k, t) = match keyword_at(s, i) {
        Some(x) => x,
        None => return None,
    };
    let a = space0(s, k);
    if let ExpressionType::Flow = t {
        return match flow_block_at(s, a) {
            Some((e, ids)) => Some((e, Expression::Flow(flow_id(i), ids))),
            None => None,
        };
    }
    let b = match alpha1(s, a) {
        Some(b) => b,
        None => return None,
    };
    if a == k {
        return None;
    }
    let id = ExpressionId(string_of(s, a, b));
    let c = space0(s, b);
    let (e, x) = match body_at(s, c) {
        Some(x) => x,
        None => return None,
    };
    let expr = match t {
        ExpressionType::Form => Expression::Form(id, x),
        ExpressionType::Job => Expression::Job(id, x),
        ExpressionType::Command => Expression::Command(id, x),
        ExpressionType::Event => Expression::Event(id, x),
        _ => Expression::View(id, x),
    };
    Some((e, expr))
}

fn separator_at(s: &Vec<char>, p: usize) -> (r: Option<usize>)
    requires
        p <= s.len(),
    ensures
        grammar::separator(s@, p as int) == (match r {
            Some(e) => Some(e as int),
            None => None,
        }),
        r matches Some(e) ==> p < e <= s.len(),
{
    let e = multispace0(s, p);
    let mut j = p;
    let mut found = false;
    while j < e
        invariant
            p <= j <= e <= s.len(),
            found == exists|m: int| p <= m < j && s@[m] == '\n',
        decreases e - j,
    {
        if s[j] == '\n' {
            found = true;
        }
        j += 1;
    }
    if found {
        Some(e)
    } else {
        None
    }
}

fn expressions_at(s: &Vec<char>, i: usize) -> (r: (usize, Vec<Expression>))
    requires
        i <= s.len(),
    ensures
        r.0 == grammar::expressions(s@, i as int).0,
        crate::eventmodel::expressions_view(r.1@) == grammar::expressions(s@, i as int).1,
        i <= r.0 <= s.len(),
{
    let (p0, x) = match expression_at(s, i) {
        Some(x) => x,
        None => {
            assert(crate::eventmodel::expressions_view(Seq::<Expression>::empty()) =~= Seq::empty());
            return (i, Vec::new());
        },
    };
    let ghost first = x@;
    let mut v: Vec<Expression> = Vec::new();
    v.push(x);
    let mut p = p0;
    assert(crate::eventmodel::expressions_view(v@) =~= seq![first]);
    loop
        invariant
            i < p0 <= p <= s.len(),
            grammar::more_expressions(s@, p0 as int).0 == grammar::more_expressions(s@, p as int).0,
            crate::eventmodel::expressions_view(v@) + grammar::more_expressions(s@, p as int).1
                == seq![first] + grammar::more_expressions(s@, p0 as int).1,
        ensures
            grammar::more_expressions(s@, p as int) == (
                p as int,
                Seq::<crate::eventmodel::ExpressionModel>::empty(),
            ),
        decreases s.len() - p,
    {
        let d = match separator_at(s, p) {
            Some(d) => d,
            None => break,
        };
        let (q, g) = match expression_at(s, d) {
            Some(x) => x,
            None => break,
        };
        let ghost gv = g@;
        let ghost before = crate::eventmodel::expressions_view(v@);
        v.push(g);
        assert(crate::eventmodel::expressions_view(v@) =~= before.push(gv));
        assert(before + grammar::more_expressions(s@, p as int).1 =~= before.push(gv)
            + grammar::more_expressions(s@, q as int).1);
        p = q;
    }
    assert(crate::eventmodel::expressions_view(v@) =~= crate::eventmodel::expressions_view(v@)
        + Seq::<crate::eventmodel::ExpressionModel>::empty());
    (p, v)
}


/// The header at the start of `input`; the count is the characters it takes.
pub fn eml_version(input: &str) -> (r: Result<(usize, Version), EmlError>)
    ensures
        match grammar::eml_version(input@, 0) {
            Some((e, (a, b, c))) => r is Ok && (r->Ok_0).0 == e && (r->Ok_0).1 == (Version {
                major: a as u32,
                minor: b as u32,
                fix: c as u32,
            }),
            None => r == Err::<(usize, Version), EmlError>(EmlError::BadVersion),
        },
{
    let s = chars_of(input);
    match version_at(&s, 0) {
        Some(x) => Ok(x),
        None => Err(EmlError::BadVersion),
    }
}

/// One `name: value` field at the start of `input`; the count is the
/// characters it takes.
pub fn textfield(input: &str) -> (r: Result<(usize, Field), EmlError>)
    ensures
        match grammar::textfield(input@, 0) {
            Some((e, f)) => r is Ok && (r->Ok_0).0 == e && (r->Ok_0).1@ == f,
            None => r is Err && r->Err_0 == EmlError::SyntaxError(0),
        },
{
    let s = chars_of(input);
    match textfield_at(&s, 0) {
        Some(x) => Ok(x),
        None => Err(EmlError::SyntaxError(0)),
    }
}

/// The fields at the start of `input`, possibly none.
pub fn fields(input: &str) -> (r: Result<(usize, Vec<Field>), EmlError>)
    ensures
        r is Ok,
        (r->Ok_0).0 == grammar::fields(input@, 0).0,
        crate::eventmodel::fields_view((r->Ok_0).1@) == grammar::fields(input@, 0).1,
{
    let s = chars_of(input);
    Ok(fields_at(&s, 0))
}

/// A braced block of fields at the start of `input`.
pub fn fields_block(input: &str) -> (r: Result<(usize, Body), EmlError>)
    ensures
        match grammar::fields_block(input@, 0) {
            Some((e, f)) => r is Ok && (r->Ok_0).0 == e && (r->Ok_0).1@ == BodyModel::Fields(f),
            None => r is Err && r->Err_0 == EmlError::SyntaxError(0),
        },
{
    let s = chars_of(input);
    match fields_block_at(&s, 0) {
        Some((e, f)) => Ok((e, Body::FieldBody(f))),
        None => Err(EmlError::SyntaxError(0)),
    }
}

/// A `{ use id }` block at the start of `input`.
pub fn use_block(input: &str) -> (r: Result<(usize, Body), EmlError>)
    ensures
        match grammar::use_block(input@, 0) {
            Some((e, id)) => r is Ok && (r->Ok_0).0 == e && (r->Ok_0).1@ == BodyModel::Use(id),
            None => r is Err && r->Err_0 == EmlError::SyntaxError(0),
        },
{
    let s = chars_of(input);
    match use_block_at(&s, 0) {
        Some((e, id)) => Ok((e, Body::UseBody(id))),
        None => Err(EmlError::SyntaxError(0)),
    }
}

/// A raw block at the start of `input`, as trimmed lines.
pub fn raw_block(input: &str) -> (r: Result<(usize, Body), EmlError>)
    ensures
        match grammar::raw_block(input@, 0) {
            Some((e, t)) => r is Ok && (r->Ok_0).0 == e && (r->Ok_0).1@ == BodyModel::Table(t),
            None => r is Err && r->Err_0 == EmlError::SyntaxError(0),
        },
{
    let s = chars_of(input);
    match raw_block_at(&s, 0) {
        Some((e, t)) => Ok((e, Body::TableBody(t))),
        None => Err(EmlError::SyntaxError(0)),
    }
}

/// A flow's braced chain of ids at the start of `input`.
pub fn flow_block(input: &str) -> (r: Result<(usize, Vec<ExpressionId>), EmlError>)
    ensures
        match grammar::flow_block(input@, 0) {
            Some((e, ids)) => r is Ok && (r->Ok_0).0 == e && crate::eventmodel::ids_view(
                (r->Ok_0).1@,
            ) == ids,
            None => r is Err && r->Err_0 == EmlError::SyntaxError(0),
        },
{
    let s = chars_of(input);
    match flow_block_at(&s, 0) {
        Some(x) => Ok(x),
        None => Err(EmlError::SyntaxError(0)),
    }
}

/// One expression at the start of `input`.
pub fn expression(input: &str) -> (r: Result<(usize, Expression), EmlError>)
    ensures
        match grammar::expression(input@, 0) {
            Some((e, x)) => r is Ok && (r->Ok_0).0 == e && (r->Ok_0).1@ == x,
            None => r is Err && r->Err_0 == EmlError::SyntaxError(0),
        },
{
    let s = chars_of(input);
    match expression_at(&s, 0) {
        Some(x) => Ok(x),
        None => Err(EmlError::SyntaxError(0)),
    }
}

/// The expressions at the start of `input`, possibly none; parsing stops
/// before the first that does not match.
pub fn expressions(input: &str) -> (r: Result<(usize, Vec<Expression>), EmlError>)
    ensures
        r is Ok,
        (r->Ok_0).0 == grammar::expressions(input@, 0).0,
        crate::eventmodel::expressions_view((r->Ok_0).1@) == grammar::expressions(input@, 0).1,
{
    let s = chars_of(input);
    Ok(expressions_at(&s, 0))
}

/// Parses a whole document: the header, then expressions one from the next
/// by line breaks, then nothing but whitespace.
pub fn parse(input: &str) -> (r: Result<EventModel, EmlError>)
    ensures
        match grammar::document(input@) {
            Ok(xs) => r is Ok && (r->Ok_0)@ == xs,
            Err(e) => r is Err && (r->Err_0)@ == e,
        },
{
    let s = chars_of(input);
    let v = match version_at(&s, 0) {
        Some((v, _)) => v,
        None => return Err(EmlError::BadVersion),
    };
    let a = multispace0(&s, v);
    let (p, expressions) = expressions_at(&s, a);
    let q = multispace0(&s, p);
    if q == s.len() {
        Ok(EventModel { expressions })
    } else {
        Err(EmlError::SyntaxError(q))
    }
}

} // verus!
