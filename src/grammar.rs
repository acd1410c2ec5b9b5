//! The EML grammar, stated as parsing functions over the characters of the
//! input. Each production takes the position where it starts and, when it
//! matches, gives the position after its match and what it denotes. Choices
//! are ordered and repetitions greedy, as in a PEG.

use vstd::prelude::*;
use crate::chars::{is_alpha, is_digit, is_multispace, is_space, is_white, nat_text};
use crate::error::ErrorModel;
use crate::eventmodel::{BodyModel, ExpressionModel, ExpressionType, FieldModel};

verus! {

#[derive(Clone, Copy)]
pub enum CharClass {
    Space,
    Multispace,
    Alpha,
    Digit,
    /// What a bare field value may hold: not `,`, `}` or a line break.
    Value,
    NotQuote,
    NotBrace,
    White,
}

pub open spec fn in_class(k: CharClass, c: char) -> bool {
    match k {
        CharClass::Space => is_space(c),
        CharClass::Multispace => is_multispace(c),
        CharClass::Alpha => is_alpha(c),
        CharClass::Digit => is_digit(c),
        CharClass::Value => c != ',' && c != '}' && c != '\n' && c != '\r',
        CharClass::NotQuote => c != '"',
        CharClass::NotBrace => c != '}',
        CharClass::White => is_white(c),
    }
}

/// The end of the longest run of characters of class `k` that starts at `i`
/// and stops before `lim`.
pub open spec fn run_end(s: Seq<char>, i: int, lim: int, k: CharClass) -> int
    decreases lim - i,
{
    if 0 <= i < lim && lim <= s.len() && in_class(k, s[i]) {
        run_end(s, i + 1, lim, k)
    } else {
        i
    }
}

/// What a run is: every character in it is of the class, and the one that
/// stops it, if any before `lim`, is not.
pub proof fn lemma_run_end(s: Seq<char>, i: int, lim: int, k: CharClass)
    requires
        0 <= i <= lim <= s.len(),
    ensures
        i <= run_end(s, i, lim, k) <= lim,
        forall|m: int| i <= m < run_end(s, i, lim, k) ==> in_class(k, #[trigger] s[m]),
        run_end(s, i, lim, k) < lim ==> !in_class(k, s[run_end(s, i, lim, k)]),
    decreases lim - i,
{
    if i < lim && in_class(k, s[i]) {
        lemma_run_end(s, i + 1, lim, k);
    }
}

pub open spec fn at(s: Seq<char>, i: int, c: char) -> bool {
    0 <= i < s.len() && s[i] == c
}

pub open spec fn tag(s: Seq<char>, i: int, t: Seq<char>) -> bool {
    0 <= i && i + t.len() <= s.len() && s.subrange(i, i + t.len()) == t
}

pub open spec fn space0(s: Seq<char>, i: int) -> int {
    run_end(s, i, s.len() as int, CharClass::Space)
}

pub open spec fn multispace0(s: Seq<char>, i: int) -> int {
    run_end(s, i, s.len() as int, CharClass::Multispace)
}

/// One or more ASCII letters.
pub open spec fn alpha1(s: Seq<char>, i: int) -> Option<int> {
    let e = run_end(s, i, s.len() as int, CharClass::Alpha);
    if e > i {
        Some(e)
    } else {
        None
    }
}

/// `\n` or `\r\n`.
pub open spec fn line_ending(s: Seq<char>, i: int) -> Option<int> {
    if at(s, i, '\n') {
        Some(i + 1)
    } else if at(s, i, '\r') && at(s, i + 1, '\n') {
        Some(i + 2)
    } else {
        None
    }
}

/// The value of a string of decimal digits.
pub open spec fn decimal_value(d: Seq<char>) -> nat
    decreases d.len(),
{
    if d.len() == 0 {
        0
    } else {
        decimal_value(d.drop_last()) * 10 + (d.last() as nat - 48) as nat
    }
}

/// One or more digits whose value fits in a `u32`.
pub open spec fn number(s: Seq<char>, i: int) -> Option<(int, nat)> {
    let e = run_end(s, i, s.len() as int, CharClass::Digit);
    let v = decimal_value(s.subrange(i, e));
    if e > i && v <= u32::MAX {
        Some((e, v))
    } else {
        None
    }
}

/// `#`, spaces, `eml:`, spaces.
pub open spec fn eml_prefix(s: Seq<char>, i: int) -> Option<int> {
    let a = space0(s, i + 1);
    if at(s, i, '#') && tag(s, a, seq!['e', 'm', 'l', ':']) {
        Some(space0(s, a + 4))
    } else {
        None
    }
}

/// The header `# eml: MAJOR.MINOR.PATCH`.
pub open spec fn eml_version(s: Seq<char>, i: int) -> Option<(int, (nat, nat, nat))> {
    match eml_prefix(s, i) {
        None => None,
        Some(a) => match number(s, a) {
            None => None,
            Some((b, major)) => if !at(s, b, '.') {
                None
            } else {
                match number(s, b + 1) {
                    None => None,
                    Some((c, minor)) => if !at(s, c, '.') {
                        None
                    } else {
                        match number(s, c + 1) {
                            None => None,
                            Some((d, fix)) => Some((d, (major, minor, fix))),
                        }
                    },
                }
            },
        },
    }
}

/// The end of `s[b..e]` once trailing spaces are dropped.
pub open spec fn trim_spaces_end(s: Seq<char>, b: int, e: int) -> int
    decreases e - b,
{
    if b < e && is_space(s[e - 1]) {
        trim_spaces_end(s, b, e - 1)
    } else {
        e
    }
}

/// `name: value`, after optional spaces. The value is a double-quoted string
/// (without its quotes, and the spaces after it are consumed), or else a bare
/// run of characters up to `,`, `}` or a line break, without trailing spaces.
pub open spec fn textfield(s: Seq<char>, i: int) -> Option<(int, FieldModel)> {
    let a = space0(s, i);
    match alpha1(s, a) {
        None => None,
        Some(k) => if !at(s, k, ':') {
            None
        } else {
            let b = space0(s, k + 1);
            let key = s.subrange(a, k);
            let q = run_end(s, b + 1, s.len() as int, CharClass::NotQuote);
            let e = run_end(s, b, s.len() as int, CharClass::Value);
            if at(s, b, '"') && at(s, q, '"') {
                Some((space0(s, q + 1), (key, s.subrange(b + 1, q))))
            } else if e > b {
                Some((e, (key, s.subrange(b, trim_spaces_end(s, b, e)))))
            } else {
                None
            }
        },
    }
}

/// `,` or a line ending.
pub open spec fn field_delim(s: Seq<char>, i: int) -> Option<int> {
    if at(s, i, ',') {
        Some(i + 1)
    } else {
        line_ending(s, i)
    }
}

/// Further fields, each after a delimiter.
pub open spec fn more_fields(s: Seq<char>, p: int) -> (int, Seq<FieldModel>)
    decreases s.len() - p,
{
    match field_delim(s, p) {
        None => (p, seq![]),
        Some(d) => match textfield(s, d) {
            None => (p, seq![]),
            Some((q, f)) => if p < q <= s.len() {
                let r = more_fields(s, q);
                (r.0, seq![f] + r.1)
            } else {
                (p, seq![])
            },
        },
    }
}

/// Zero or more fields separated by delimiters.
pub open spec fn fields(s: Seq<char>, i: int) -> (int, Seq<FieldModel>) {
    match textfield(s, i) {
        None => (i, seq![]),
        Some((p, f)) => {
            let r = more_fields(s, p);
            (r.0, seq![f] + r.1)
        },
    }
}

/// `{ fields }`, with any whitespace or line breaks inside the braces.
pub open spec fn fields_block(s: Seq<char>, i: int) -> Option<(int, Seq<FieldModel>)> {
    let r = fields(s, multispace0(s, i + 1));
    let b = multispace0(s, r.0);
    if at(s, i, '{') && at(s, b, '}') {
        Some((b + 1, r.1))
    } else {
        None
    }
}

/// The lines of `t`, split at each line feed.
pub open spec fn lines_of(t: Seq<char>) -> Seq<Seq<char>>
    decreases t.len(),
{
    if t.len() == 0 {
        seq![seq![]]
    } else {
        let ls = lines_of(t.drop_last());
        if t.last() == '\n' {
            ls.push(seq![])
        } else {
            ls.update(ls.len() - 1, ls.last().push(t.last()))
        }
    }
}

/// A run measured inside `s[a..b]` is the same run measured in `s`.
pub proof fn lemma_run_end_subrange(s: Seq<char>, a: int, i: int, b: int, k: CharClass)
    requires
        0 <= a <= i <= b <= s.len(),
    ensures
        run_end(s, i, b, k) - a == run_end(s.subrange(a, b), i - a, b - a, k),
    decreases b - i,
{
    if i < b && in_class(k, s[i]) {
        lemma_run_end_subrange(s, a, i + 1, b, k);
    }
}

/// `l` without its leading whitespace.
pub open spec fn trim_start(l: Seq<char>) -> Seq<char> {
    l.skip(run_end(l, 0, l.len() as int, CharClass::White))
}

/// `{ ... }` taken raw: the text up to the first `}`, as trimmed lines.
pub open spec fn raw_block(s: Seq<char>, i: int) -> Option<(int, Seq<Seq<char>>)> {
    let e = run_end(s, i + 1, s.len() as int, CharClass::NotBrace);
    if at(s, i, '{') && at(s, e, '}') {
        Some((e + 1, lines_of(s.subrange(i + 1, e)).map_values(|l: Seq<char>| trim_start(l))))
    } else {
        None
    }
}

/// `{ use id }`.
pub open spec fn use_block(s: Seq<char>, i: int) -> Option<(int, Seq<char>)> {
    let a = space0(s, i + 1);
    match alpha1(s, a + 4) {
        None => None,
        Some(k) => {
            let b = space0(s, k);
            if at(s, i, '{') && tag(s, a, seq!['u', 's', 'e', ' ']) && at(s, b, '}') {
                Some((b + 1, s.subrange(a + 4, k)))
            } else {
                None
            }
        },
    }
}

/// The body of a card expression: a use, else fields, else a raw table.
pub open spec fn body(s: Seq<char>, i: int) -> Option<(int, BodyModel)> {
    match use_block(s, i) {
        Some((e, id)) => Some((e, BodyModel::Use(id))),
        None => match fields_block(s, i) {
            Some((e, f)) => Some((e, BodyModel::Fields(f))),
            None => match raw_block(s, i) {
                Some((e, t)) => Some((e, BodyModel::Table(t))),
                None => None,
            },
        },
    }
}

/// Further ids of a flow, each after `=>`.
pub open spec fn more_ids(s: Seq<char>, p: int) -> (int, Seq<Seq<char>>)
    decreases s.len() - p,
{
    let b = space0(s, p);
    let c = space0(s, b + 2);
    if tag(s, b, seq!['=', '>']) {
        match alpha1(s, c) {
            None => (p, seq![]),
            Some(k) => if p < k <= s.len() {
                let r = more_ids(s, k);
                (r.0, seq![s.subrange(c, k)] + r.1)
            } else {
                (p, seq![])
            },
        }
    } else {
        (p, seq![])
    }
}

/// `{ id => id => ... }`, at least one id.
pub open spec fn flow_block(s: Seq<char>, i: int) -> Option<(int, Seq<Seq<char>>)> {
    let a = space0(s, i + 1);
    match alpha1(s, a) {
        None => None,
        Some(k) => {
            let r = more_ids(s, k);
            let b = space0(s, r.0);
            if at(s, i, '{') && at(s, b, '}') {
                Some((b + 1, seq![s.subrange(a, k)] + r.1))
            } else {
                None
            }
        },
    }
}

pub open spec fn keyword_text(t: ExpressionType) -> Seq<char> {
    match t {
        ExpressionType::Form => seq!['f', 'o', 'r', 'm'],
        ExpressionType::Job => seq!['j', 'o', 'b'],
        ExpressionType::Command => seq!['c', 'o', 'm', 'm', 'a', 'n', 'd'],
        ExpressionType::Event => seq!['e', 'v', 'e', 'n', 't'],
        ExpressionType::View => seq!['v', 'i', 'e', 'w'],
        ExpressionType::Flow => seq!['f', 'l', 'o', 'w'],
    }
}

/// The first keyword, in the order of the type's variants, that the input
/// holds at `i`.
pub open spec fn keyword(s: Seq<char>, i: int) -> Option<(int, ExpressionType)> {
    if tag(s, i, keyword_text(ExpressionType::Form)) {
        Some((i + 4, ExpressionType::Form))
    } else if tag(s, i, keyword_text(ExpressionType::Job)) {
        Some((i + 3, ExpressionType::Job))
    } else if tag(s, i, keyword_text(ExpressionType::Command)) {
        Some((i + 7, ExpressionType::Command))
    } else if tag(s, i, keyword_text(ExpressionType::Event)) {
        Some((i + 5, ExpressionType::Event))
    } else if tag(s, i, keyword_text(ExpressionType::View)) {
        Some((i + 4, ExpressionType::View))
    } else if tag(s, i, keyword_text(ExpressionType::Flow)) {
        Some((i + 4, ExpressionType::Flow))
    } else {
        None
    }
}

/// The id given to a flow that starts at offset `i`: `flow@` and the offset.
/// No declared id has an `@`, and two flows never start at one offset.
pub open spec fn flow_id(i: int) -> Seq<char> {
    seq!['f', 'l', 'o', 'w', '@'] + nat_text(i as nat)
}

pub open spec fn card_expression(t: ExpressionType, id: Seq<char>, b: BodyModel) -> ExpressionModel {
    match t {
        ExpressionType::Form => ExpressionModel::Form(id, b),
        ExpressionType::Job => ExpressionModel::Job(id, b),
        ExpressionType::Command => ExpressionModel::Command(id, b),
        ExpressionType::Event => ExpressionModel::Event(id, b),
        _ => ExpressionModel::View(id, b),
    }
}

/// `keyword id body`, or `flow { ... }`. The id follows the keyword after at
/// least one space.
pub open spec fn expression(s: Seq<char>, i: int) -> Option<(int, ExpressionModel)> {
    match keyword(s, i) {
        None => None,
        Some((k, t)) => if t == ExpressionType::Flow {
            match flow_block(s, space0(s, k)) {
                None => None,
                Some((e, ids)) => Some((e, ExpressionModel::Flow(flow_id(i), ids))),
            }
        } else {
            let a = space0(s, k);
            match alpha1(s, a) {
                None => None,
                Some(b) => if a == k {
                    None
                } else {
                    match body(s, space0(s, b)) {
                        None => None,
                        Some((e, x)) => Some((e, card_expression(t, s.subrange(a, b), x))),
                    }
                },
            }
        },
    }
}

/// Whitespace that holds at least one line feed.
pub open spec fn separator(s: Seq<char>, p: int) -> Option<int> {
    let e = multispace0(s, p);
    if exists|j: int| p <= j < e && s[j] == '\n' {
        Some(e)
    } else {
        None
    }
}

pub open spec fn more_expressions(s: Seq<char>, p: int) -> (int, Seq<ExpressionModel>)
    decreases s.len() - p,
{
    match separator(s, p) {
        None => (p, seq![]),
        Some(d) => match expression(s, d) {
            None => (p, seq![]),
            Some((q, x)) => if p < q <= s.len() {
                let r = more_expressions(s, q);
                (r.0, seq![x] + r.1)
            } else {
                (p, seq![])
            },
        },
    }
}

/// Zero or more expressions, one from the next by line breaks.
pub open spec fn expressions(s: Seq<char>, i: int) -> (int, Seq<ExpressionModel>) {
    match expression(s, i) {
        None => (i, seq![]),
        Some((p, x)) => {
            let r = more_expressions(s, p);
            (r.0, seq![x] + r.1)
        },
    }
}

/// A whole document: the header, then expressions, then only whitespace.
pub open spec fn document(s: Seq<char>) -> Result<Seq<ExpressionModel>, ErrorModel> {
    match eml_version(s, 0) {
        None => Err(ErrorModel::BadVersion),
        Some((v, _)) => {
            let r = expressions(s, multispace0(s, v));
            let q = multispace0(s, r.0);
            if q == s.len() {
                Ok(r.1)
            } else {
                Err(ErrorModel::SyntaxError(q as nat))
            }
        },
    }
}

} // verus!
