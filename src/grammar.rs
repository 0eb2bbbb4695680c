//! The rule grammar, stated over the characters of the rule text.
//!
//! Every parser here is ordered choice over a position: it either fails or
//! consumes a prefix of what follows the position, greedily.
use vstd::prelude::*;
use crate::ast::{AtomV, ExprV, Operation, Operator};
use crate::clause::{and_empty, or_empty, AndV, OrV};

verus! {

/// Names what `char::is_alphanumeric` returns: whether the character is
/// alphabetic or numeric in the Unicode sense.
pub uninterp spec fn alphanumeric(c: char) -> bool;

/// Relies on `char::is_alphanumeric`: whether a character is alphabetic or
/// numeric, which decides what string payloads take besides `_` and `/`.
#[verifier::external_body]
pub(crate) fn is_alphanumeric(c: char) -> (r: bool)
    ensures
        r == alphanumeric(c),
{
    c.is_alphanumeric()
}

pub open spec fn is_ws(c: char) -> bool {
    c == ' ' || c == '\t' || c == '\r' || c == '\n'
}

pub open spec fn is_alpha(c: char) -> bool {
    ('a' <= c && c <= 'z') || ('A' <= c && c <= 'Z')
}

pub open spec fn is_digit(c: char) -> bool {
    '0' <= c && c <= '9'
}

pub open spec fn is_table_char(c: char) -> bool {
    c == '_' || is_alpha(c)
}

pub open spec fn is_field_char(c: char) -> bool {
    c == '_' || c == '.' || is_alpha(c)
}

/// A character of a string payload, where `alnum` lists the characters
/// taken as alphanumeric.
pub open spec fn is_payload_char(c: char, alnum: Seq<char>) -> bool {
    c == '_' || c == '/' || alnum.contains(c)
}

pub open spec fn payload_class(alnum: Seq<char>) -> spec_fn(char) -> bool {
    |c: char| is_payload_char(c, alnum)
}

/// The kinds of characters, other than those of string payloads, that the
/// grammar takes in runs.
pub enum CharClass {
    Space,
    TableName,
    FieldName,
    Digit,
}

/// Whether a character belongs to a class.
pub open spec fn class_pred(k: CharClass) -> spec_fn(char) -> bool {
    match k {
        CharClass::Space => |c: char| is_ws(c),
        CharClass::TableName => |c: char| is_table_char(c),
        CharClass::FieldName => |c: char| is_field_char(c),
        CharClass::Digit => |c: char| is_digit(c),
    }
}

/// The end of the longest run from `i` of characters that satisfy `p`.
pub open spec fn span(s: Seq<char>, i: nat, p: spec_fn(char) -> bool) -> nat
    decreases s.len() - i,
{
    if i < s.len() && p(s[i as int]) {
        span(s, i + 1, p)
    } else {
        i
    }
}

pub proof fn lemma_span(s: Seq<char>, i: nat, p: spec_fn(char) -> bool)
    requires
        i <= s.len(),
    ensures
        i <= span(s, i, p) <= s.len(),
        forall|m: int| i <= m < span(s, i, p) ==> p(#[trigger] s[m]),
        span(s, i, p) < s.len() ==> !p(s[span(s, i, p) as int]),
    decreases s.len() - i,
{
    if i < s.len() && p(s[i as int]) {
        lemma_span(s, i + 1, p);
    }
}

pub open spec fn skip_ws(s: Seq<char>, i: nat) -> nat {
    span(s, i, class_pred(CharClass::Space))
}

/// Whether the keyword, given in lower and upper case, stands at `i`,
/// each letter in either case.
pub open spec fn keyword_at(s: Seq<char>, i: nat, lower: Seq<char>, upper: Seq<char>) -> bool {
    &&& i + lower.len() <= s.len()
    &&& forall|k: int| 0 <= k < lower.len() ==> #[trigger] s[i + k] == lower[k] || s[i + k] == upper[k]
}

/// Whether `word` stands at `i`, exactly.
pub open spec fn word_at(s: Seq<char>, i: nat, word: Seq<char>) -> bool {
    i + word.len() <= s.len() && s.subrange(i as int, (i + word.len()) as int) == word
}

pub open spec fn digit_value(c: char) -> nat {
    (c as u32 - '0' as u32) as nat
}

/// The number that a run of decimal digits denotes.
pub open spec fn digits_value(ds: Seq<char>) -> nat
    decreases ds.len(),
{
    if ds.len() == 0 {
        0
    } else {
        digits_value(ds.drop_last()) * 10 + digit_value(ds.last())
    }
}

/// A run of digits whose value fits in 64 bits.
pub open spec fn p_number(s: Seq<char>, i: nat) -> Option<(AtomV, nat)> {
    let e = span(s, i, class_pred(CharClass::Digit));
    if e > i && digits_value(s.subrange(i as int, e as int)) <= u64::MAX {
        Some((AtomV::Num(digits_value(s.subrange(i as int, e as int)) as u64), e))
    } else {
        None
    }
}

/// The character that an escape sequence stands for: a backslash, a quote,
/// or, for a backslash before a line break, the letter `n`.
pub open spec fn escaped(c: char) -> Option<char> {
    if c == '\\' {
        Some('\\')
    } else if c == '"' {
        Some('"')
    } else if c == '\n' {
        Some('n')
    } else {
        None
    }
}

/// The characters of `s` that are alphanumeric, in order.
pub open spec fn alphanumerics(s: Seq<char>) -> Seq<char> {
    s.filter(|c: char| alphanumeric(c))
}

/// The payload of a string from `j`, where the payload began at `start`:
/// runs of payload characters and escape sequences, up to the first other
/// character; an empty payload fails.
pub open spec fn p_payload(s: Seq<char>, alnum: Seq<char>, start: nat, j: nat) -> Option<(Seq<char>, nat)>
    decreases s.len() - j,
{
    if j >= s.len() {
        Some((Seq::empty(), j))
    } else {
        let e = span(s, j, payload_class(alnum));
        if j < e <= s.len() {
            match p_payload(s, alnum, start, e) {
                Some((rest, k)) => Some((s.subrange(j as int, e as int) + rest, k)),
                None => None,
            }
        } else if s[j as int] == '\\' {
            if j + 1 >= s.len() {
                None
            } else {
                match escaped(s[(j + 1) as int]) {
                    None => None,
                    Some(c) => match p_payload(s, alnum, start, j + 2) {
                        Some((rest, k)) => Some((seq![c] + rest, k)),
                        None => None,
                    },
                }
            }
        } else if j == start {
            None
        } else {
            Some((Seq::empty(), j))
        }
    }
}

pub proof fn lemma_payload_bounds(s: Seq<char>, alnum: Seq<char>, start: nat, j: nat)
    requires
        j <= s.len(),
    ensures
        p_payload(s, alnum, start, j) matches Some((_, e)) ==> j <= e <= s.len(),
    decreases s.len() - j,
{
    if j < s.len() {
        let e = span(s, j, payload_class(alnum));
        lemma_span(s, j, payload_class(alnum));
        if j < e <= s.len() {
            lemma_payload_bounds(s, alnum, start, e);
        } else if s[j as int] == '\\' && j + 2 <= s.len() {
            lemma_payload_bounds(s, alnum, start, j + 2);
        }
    }
}

/// A quoted string.
pub open spec fn p_string(s: Seq<char>, alnum: Seq<char>, i: nat) -> Option<(AtomV, nat)> {
    if i < s.len() && s[i as int] == '"' {
        match p_payload(s, alnum, i + 1, i + 1) {
            Some((payload, k)) => if k < s.len() && s[k as int] == '"' {
                Some((AtomV::Str(payload), k + 1))
            } else {
                None
            },
            None => None,
        }
    } else {
        None
    }
}

pub open spec fn p_atom(s: Seq<char>, alnum: Seq<char>, i: nat) -> Option<(AtomV, nat)> {
    match p_number(s, i) {
        Some(r) => Some(r),
        None => p_string(s, alnum, i),
    }
}

pub open spec fn p_operator(s: Seq<char>, i: nat) -> Option<Operator> {
    if word_at(s, i, seq!['=', '=']) {
        Some(Operator::Equal)
    } else if word_at(s, i, seq!['!', '=']) {
        Some(Operator::NotEqual)
    } else {
        None
    }
}

/// `field ws operator ws atom ws`, with a field name of at least one character.
pub open spec fn p_statement(s: Seq<char>, alnum: Seq<char>, i: nat) -> Option<(ExprV, nat)> {
    let fe = span(s, i, class_pred(CharClass::FieldName));
    let oi = skip_ws(s, fe);
    if fe <= i {
        None
    } else {
        match p_operator(s, oi) {
            None => None,
            Some(op) => match p_atom(s, alnum, skip_ws(s, oi + 2)) {
                None => None,
                Some((a, ae)) => Some(
                    (ExprV::Statement(s.subrange(i as int, fe as int), op, a), skip_ws(s, ae)),
                ),
            },
        }
    }
}

pub open spec fn p_boolean(s: Seq<char>, i: nat) -> Option<(ExprV, nat)> {
    if word_at(s, i, seq!['t', 'r', 'u', 'e']) {
        Some((ExprV::Boolean(true), i + 4))
    } else if word_at(s, i, seq!['f', 'a', 'l', 's', 'e']) {
        Some((ExprV::Boolean(false), i + 5))
    } else {
        None
    }
}

/// A statement, or else a constant; then white space.
pub open spec fn p_expression(s: Seq<char>, alnum: Seq<char>, i: nat) -> Option<(ExprV, nat)> {
    match p_statement(s, alnum, i) {
        Some(r) => Some(r),
        None => match p_boolean(s, i) {
            Some((e, k)) => Some((e, skip_ws(s, k))),
            None => None,
        },
    }
}

pub open spec fn kw_and_lower() -> Seq<char> {
    seq!['a', 'n', 'd']
}

pub open spec fn kw_and_upper() -> Seq<char> {
    seq!['A', 'N', 'D']
}

pub open spec fn kw_or_lower() -> Seq<char> {
    seq!['o', 'r']
}

pub open spec fn kw_or_upper() -> Seq<char> {
    seq!['O', 'R']
}

/// The expressions that follow an AND clause's first one: each is the
/// keyword `AND`, white space and an expression; the run ends where that
/// does not parse.
pub open spec fn p_and_tail(s: Seq<char>, alnum: Seq<char>, j: nat) -> (Seq<ExprV>, nat)
    decreases s.len() - j,
{
    if keyword_at(s, j, kw_and_lower(), kw_and_upper()) {
        match p_expression(s, alnum, skip_ws(s, j + 3)) {
            Some((e, m)) => if m > j && m <= s.len() {
                let (rest, end) = p_and_tail(s, alnum, m);
                (seq![e] + rest, end)
            } else {
                (Seq::empty(), j)
            },
            None => (Seq::empty(), j),
        }
    } else {
        (Seq::empty(), j)
    }
}

/// The expressions of an AND clause.
pub open spec fn p_and(s: Seq<char>, alnum: Seq<char>, i: nat) -> Option<(Seq<ExprV>, nat)> {
    match p_expression(s, alnum, i) {
        Some((e, m)) => {
            let (rest, end) = p_and_tail(s, alnum, m);
            Some((seq![e] + rest, end))
        },
        None => None,
    }
}

/// The AND clauses that follow an OR clause's first one.
pub open spec fn p_or_tail(s: Seq<char>, alnum: Seq<char>, j: nat) -> (Seq<Seq<ExprV>>, nat)
    decreases s.len() - j,
{
    if keyword_at(s, j, kw_or_lower(), kw_or_upper()) {
        match p_and(s, alnum, skip_ws(s, j + 2)) {
            Some((c, m)) => if m > j && m <= s.len() {
                let (rest, end) = p_or_tail(s, alnum, m);
                (seq![c] + rest, end)
            } else {
                (Seq::empty(), j)
            },
            None => (Seq::empty(), j),
        }
    } else {
        (Seq::empty(), j)
    }
}

/// The AND clauses of an OR clause, each a list of expressions.
pub open spec fn p_or(s: Seq<char>, alnum: Seq<char>, i: nat) -> Option<(Seq<Seq<ExprV>>, nat)> {
    match p_and(s, alnum, i) {
        Some((c, m)) => {
            let (rest, end) = p_or_tail(s, alnum, m);
            Some((seq![c] + rest, end))
        },
        None => None,
    }
}

pub open spec fn p_operation(s: Seq<char>) -> Option<(Operation, nat)> {
    if keyword_at(s, 0, seq!['r', 'e', 'j', 'e', 'c', 't'], seq!['R', 'E', 'J', 'E', 'C', 'T']) {
        Some((Operation::Reject, 6))
    } else if keyword_at(s, 0, seq!['f', 'i', 'l', 't', 'e', 'r'], seq!['F', 'I', 'L', 'T', 'E', 'R']) {
        Some((Operation::Filter, 6))
    } else {
        None
    }
}

/// What a rule text holds: its operation, its table, and the expressions
/// of each of its AND clauses; `None` where the text is no rule. String
/// payloads take `_`, `/` and the characters that `alnum` lists.
pub open spec fn p_rule(s: Seq<char>, alnum: Seq<char>) -> Option<(Operation, Seq<char>, Seq<Seq<ExprV>>)> {
    match p_operation(s) {
        None => None,
        Some((op, oe)) => {
            let ti = skip_ws(s, oe);
            let te = span(s, ti, class_pred(CharClass::TableName));
            let wi = skip_ws(s, te);
            if keyword_at(s, wi, seq!['w', 'h', 'e', 'n'], seq!['W', 'H', 'E', 'N']) {
                match p_or(s, alnum, skip_ws(s, wi + 4)) {
                    Some((clauses, e)) => if skip_ws(s, e) == s.len() {
                        Some((op, s.subrange(ti as int, te as int), clauses))
                    } else {
                        None
                    },
                    None => None,
                }
            } else {
                None
            }
        },
    }
}

/// The AND clause built by conjoining `es` to `c`, first to last.
pub open spec fn and_fold(c: AndV, es: Seq<ExprV>) -> AndV
    decreases es.len(),
{
    if es.len() == 0 {
        c
    } else {
        and_fold(c, es.drop_last()).add(es.last())
    }
}

pub open spec fn build_and(es: Seq<ExprV>) -> AndV {
    and_fold(and_empty(), es)
}

/// The OR clause built by disjoining `cs` to `c`, first to last.
pub open spec fn or_fold(c: OrV, cs: Seq<AndV>) -> OrV
    decreases cs.len(),
{
    if cs.len() == 0 {
        c
    } else {
        or_fold(c, cs.drop_last()).add(cs.last())
    }
}

/// The simplified OR clause of a list of AND clauses' expressions.
pub open spec fn build_or(clauses: Seq<Seq<ExprV>>) -> OrV {
    or_fold(or_empty(), clauses.map_values(|es: Seq<ExprV>| build_and(es)))
}

} // verus!
