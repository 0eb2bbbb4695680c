//! The parser: rule text to a simplified rule.
use vstd::prelude::*;
use vstd::string::StringExecFns;
use vstd::string::StrSliceExecFns;
use crate::ast::{push_decimal_text, Atom, AtomV, ExprV, Expression, Operation, Operator};
use crate::clause::{and_empty, or_empty, AndClause, AndV, OrClause};
use crate::grammar::{
    build_and, build_or, class_pred, alphanumeric, alphanumerics, digit_value, digits_value, escaped, is_alphanumeric, payload_class,
    keyword_at, lemma_payload_bounds, lemma_span, kw_and_lower, kw_and_upper, kw_or_lower, kw_or_upper, p_and, p_and_tail,
    p_atom, p_boolean, p_expression, p_number, p_operation, p_operator, p_or, p_or_tail,
    p_payload, p_rule, p_statement, p_string, skip_ws, span, word_at, and_fold, or_fold,
    CharClass,
};
use crate::rule::{Rule, RuleV};

verus! {

/// The characters of `text`.
fn chars_of(text: &str) -> (r: Vec<char>)
    ensures
        r@ == text@,
{
    let n = text.unicode_len();
    let mut out: Vec<char> = Vec::new();
    let mut i: usize = 0;
    while i < n
        invariant
            n == text@.len(),
            i <= n,
            out@ == text@.subrange(0, i as int),
        decreases n - i,
    {
        out.push(text.get_char(i));
        i = i + 1;
        assert(out@ =~= text@.subrange(0, i as int));
    }
    assert(text@.subrange(0, n as int) =~= text@);
    out
}

fn in_class(k: &CharClass, c: char) -> (r: bool)
    ensures
        r == class_pred(*k)(c),
{
    match k {
        CharClass::Space => c == ' ' || c == '\t' || c == '\r' || c == '\n',
        CharClass::TableName => c == '_' || ('a' <= c && c <= 'z') || ('A' <= c && c <= 'Z'),
        CharClass::FieldName => c == '_' || c == '.' || ('a' <= c && c <= 'z') || ('A' <= c && c
            <= 'Z'),
        CharClass::Digit => '0' <= c && c <= '9',
    }
}

/// Whether `c` is one of `list`.
fn listed(list: &Vec<char>, c: char) -> (r: bool)
    ensures
        r == list@.contains(c),
{
    let mut i: usize = 0;
    while i < list.len()
        invariant
            i <= list.len(),
            forall|j: int| 0 <= j < i ==> list@[j] != c,
        decreases list.len() - i,
    {
        if list[i] == c {
            return true;
        }
        i = i + 1;
    }
    false
}

/// The end of the run of payload characters from `i`.
fn span_payload(s: &Vec<char>, i: usize, alnum: &Vec<char>) -> (r: usize)
    requires
        i <= s.len(),
    ensures
        r as nat == span(s@, i as nat, payload_class(alnum@)),
        i <= r <= s.len(),
{
    let mut j = i;
    while j < s.len() && (s[j] == '_' || s[j] == '/' || listed(alnum, s[j]))
        invariant
            i <= j <= s.len(),
            span(s@, i as nat, payload_class(alnum@)) == span(s@, j as nat, payload_class(alnum@)),
        decreases s.len() - j,
    {
        j = j + 1;
    }
    j
}

/// The end of the run of characters of class `k` from `i`.
fn span_of(s: &Vec<char>, i: usize, k: CharClass) -> (r: usize)
    requires
        i <= s.len(),
    ensures
        r as nat == span(s@, i as nat, class_pred(k)),
        i <= r <= s.len(),
{
    let mut j = i;
    while j < s.len() && in_class(&k, s[j])
        invariant
            i <= j <= s.len(),
            span(s@, i as nat, class_pred(k)) == span(s@, j as nat, class_pred(k)),
        decreases s.len() - j,
    {
        j = j + 1;
    }
    j
}

/// Whether the keyword, given in lower and upper case, stands at `i`.
fn keyword_here(s: &Vec<char>, i: usize, lower: &[char], upper: &[char]) -> (r: bool)
    requires
        lower@.len() == upper@.len(),
        i <= s.len(),
    ensures
        r == keyword_at(s@, i as nat, lower@, upper@),
{
    if s.len() - i < lower.len() {
        return false;
    }
    let mut k: usize = 0;
    while k < lower.len()
        invariant
            lower@.len() == upper@.len(),
            i + lower@.len() <= s.len(),
            k <= lower.len(),
            forall|m: int| 0 <= m < k ==> #[trigger] s@[i + m] == lower@[m] || s@[i + m] == upper@[m],
        decreases lower.len() - k,
    {
        if s[i + k] != lower[k] && s[i + k] != upper[k] {
            return false;
        }
        k = k + 1;
    }
    true
}

/// Whether the characters of `word` stand at `i`, exactly.
fn word_here(s: &Vec<char>, i: usize, word: &[char]) -> (r: bool)
    requires
        i <= s.len(),
    ensures
        r == word_at(s@, i as nat, word@),
{
    if s.len() - i < word.len() {
        return false;
    }
    let mut k: usize = 0;
    while k < word.len()
        invariant
            i + word@.len() <= s.len(),
            k <= word.len(),
            forall|m: int| 0 <= m < k ==> s@[i + m] == word@[m],
        decreases word.len() - k,
    {
        if s[i + k] != word[k] {
            assert(s@.subrange(i as int, i + word@.len())[k as int] != word@[k as int]);
            return false;
        }
        k = k + 1;
    }
    assert(s@.subrange(i as int, i + word@.len()) =~= word@);
    true
}

/// A run of digits whose value fits in 64 bits.
fn parse_number(s: &Vec<char>, i: usize) -> (r: Option<(u64, usize)>)
    requires
        i <= s.len(),
    ensures
        match p_number(s@, i as nat) {
            Some((a, e)) => r matches Some((v, re)) && a == AtomV::Num(v) && re == e,
            None => r is None,
        },
{
    let e = span_of(s, i, CharClass::Digit);
    if e == i {
        return None;
    }
    proof {
        lemma_span(s@, i as nat, class_pred(CharClass::Digit));
    }
    let mut v: u64 = 0;
    let mut overflow = false;
    let mut j = i;
    while j < e
        invariant
            i <= j <= e <= s.len(),
            e as nat == span(s@, i as nat, class_pred(CharClass::Digit)),
            forall|m: int| i <= m < e ==> '0' <= #[trigger] s@[m] <= '9',
            !overflow ==> v as nat == digits_value(s@.subrange(i as int, j as int)),
            overflow ==> digits_value(s@.subrange(i as int, j as int)) > u64::MAX,
        decreases e - j,
    {
        let c = s[j];
        let d = (c as u32 - '0' as u32) as u64;
        let ghost pre = s@.subrange(i as int, j as int);
        let ghost next = s@.subrange(i as int, j + 1);
        proof {
            assert(next.drop_last() =~= pre);
            assert(next.last() == c);
            assert(digits_value(next) == digits_value(pre) * 10 + digit_value(c));
            assert(d as nat == digit_value(c));
        }
        if !overflow {
            if v > (u64::MAX - d) / 10 {
                overflow = true;
                proof {
                    assert(digits_value(pre) * 10 + d > u64::MAX) by (nonlinear_arith)
                        requires
                            v as nat == digits_value(pre),
                            v > (u64::MAX - d) / 10,
                            d <= 9,
                    ;
                }
            } else {
                proof {
                    assert(v * 10 + d <= u64::MAX) by (nonlinear_arith)
                        requires
                            v <= (u64::MAX - d) / 10,
                            d <= 9,
                    ;
                }
                v = v * 10 + d;
            }
        } else {
            proof {
                assert(digits_value(pre) * 10 + digit_value(c) > u64::MAX) by (nonlinear_arith)
                    requires
                        digits_value(pre) > u64::MAX,
                ;
            }
        }
        j = j + 1;
    }
    if overflow {
        None
    } else {
        Some((v, e))
    }
}

/// The payload of a string that begins at `start`.
fn parse_payload(text: &str, s: &Vec<char>, alnum: &Vec<char>, start: usize) -> (r: Option<(String, usize)>)
    requires
        s@ == text@,
        start <= s.len(),
    ensures
        match p_payload(s@, alnum@, start as nat, start as nat) {
            Some((p, k)) => r matches Some((v, e)) && v@ == p && e == k,
            None => r is None,
        },
        r matches Some((_, e)) ==> start <= e <= s.len(),
{
    let mut out = String::new();
    let mut j = start;
    loop
        invariant
            start <= j <= s.len(),
            s@ == text@,
            p_payload(s@, alnum@, start as nat, start as nat) == match p_payload(
                s@,
                alnum@,
                start as nat,
                j as nat,
            ) {
                Some((rest, k)) => Some((out@ + rest, k)),
                None => None,
            },
        decreases s.len() - j,
    {
        proof {
            lemma_payload_bounds(s@, alnum@, start as nat, start as nat);
        }
        if j >= s.len() {
            assert(out@ + Seq::<char>::empty() =~= out@);
            return Some((out, j));
        }
        let e = span_payload(s, j, alnum);
        if e > j {
            let ghost before = out@;
            out.append(text.substring_char(j, e));
            proof {
                let mid = s@.subrange(j as int, e as int);
                match p_payload(s@, alnum@, start as nat, e as nat) {
                    Some((rest, k)) => {
                        assert(before + (mid + rest) =~= (before + mid) + rest);
                    },
                    None => {},
                }
            }
            j = e;
        } else if s[j] == '\\' {
            if j + 1 >= s.len() {
                return None;
            }
            let c = s[j + 1];
            let ghost before = out@;
            if c == '\\' {
                out.append("\\");
                proof {
                    reveal_strlit("\\");
                }
            } else if c == '"' {
                out.append("\"");
                proof {
                    reveal_strlit("\"");
                }
            } else if c == '\n' {
                out.append("n");
                proof {
                    reveal_strlit("n");
                }
            } else {
                return None;
            }
            proof {
                let ch = escaped(c)->0;
                assert(out@ == before + seq![ch]);
                match p_payload(s@, alnum@, start as nat, (j + 2) as nat) {
                    Some((rest, k)) => {
                        assert(before + (seq![ch] + rest) =~= (before + seq![ch]) + rest);
                    },
                    None => {},
                }
            }
            j = j + 2;
        } else if j == start {
            return None;
        } else {
            assert(out@ + Seq::<char>::empty() =~= out@);
            return Some((out, j));
        }
    }
}


/// A quoted string.
fn parse_string(text: &str, s: &Vec<char>, alnum: &Vec<char>, i: usize) -> (r: Option<(Atom, usize)>)
    requires
        s@ == text@,
        i <= s.len(),
    ensures
        match p_string(s@, alnum@, i as nat) {
            Some((a, e)) => r matches Some((ra, re)) && ra@ == a && re == e,
            None => r is None,
        },
        r matches Some((_, e)) ==> i <= e <= s.len(),
{
    if i >= s.len() || s[i] != '"' {
        return None;
    }
    match parse_payload(text, s, alnum, i + 1) {
        Some((payload, k)) => {
            if k < s.len() && s[k] == '"' {
                Some((Atom::String(payload), k + 1))
            } else {
                None
            }
        },
        None => None,
    }
}

/// A number, or else a quoted string.
fn parse_atom(text: &str, s: &Vec<char>, alnum: &Vec<char>, i: usize) -> (r: Option<(Atom, usize)>)
    requires
        s@ == text@,
        i <= s.len(),
    ensures
        match p_atom(s@, alnum@, i as nat) {
            Some((a, e)) => r matches Some((ra, re)) && ra@ == a && re == e,
            None => r is None,
        },
        r matches Some((_, e)) ==> i <= e <= s.len(),
{
    match parse_number(s, i) {
        Some((v, e)) => {
            proof {
                lemma_span(s@, i as nat, class_pred(CharClass::Digit));
            }
            Some((Atom::Number(v), e))
        },
        None => parse_string(text, s, alnum, i),
    }
}

fn parse_operator(s: &Vec<char>, i: usize) -> (r: Option<Operator>)
    requires
        i <= s.len(),
    ensures
        r == p_operator(s@, i as nat),
{
    let eq = ['=', '='];
    let ne = ['!', '='];
    assert(eq@ =~= seq!['=', '=']);
    assert(ne@ =~= seq!['!', '=']);
    if word_here(s, i, &eq) {
        Some(Operator::Equal)
    } else if word_here(s, i, &ne) {
        Some(Operator::NotEqual)
    } else {
        None
    }
}

/// `field ws operator ws atom ws`.
fn parse_statement(text: &str, s: &Vec<char>, alnum: &Vec<char>, i: usize) -> (r: Option<(Expression, usize)>)
    requires
        s@ == text@,
        i <= s.len(),
    ensures
        match p_statement(s@, alnum@, i as nat) {
            Some((x, e)) => r matches Some((rx, re)) && rx@ == x && re == e,
            None => r is None,
        },
        r matches Some((_, e)) ==> i <= e <= s.len(),
{
    let fe = span_of(s, i, CharClass::FieldName);
    if fe == i {
        return None;
    }
    let oi = span_of(s, fe, CharClass::Space);
    let op = match parse_operator(s, oi) {
        Some(op) => op,
        None => return None,
    };
    let ai = span_of(s, oi + 2, CharClass::Space);
    let (atom, ae) = match parse_atom(text, s, alnum, ai) {
        Some(r) => r,
        None => return None,
    };
    let end = span_of(s, ae, CharClass::Space);
    let field = String::from_str(text.substring_char(i, fe));
    Some((Expression::Statement(field, op, atom), end))
}

fn parse_boolean(s: &Vec<char>, i: usize) -> (r: Option<(Expression, usize)>)
    requires
        i <= s.len(),
    ensures
        match p_boolean(s@, i as nat) {
            Some((x, e)) => r matches Some((rx, re)) && rx@ == x && re == e,
            None => r is None,
        },
        r matches Some((_, e)) ==> i <= e <= s.len(),
{
    let t = ['t', 'r', 'u', 'e'];
    let f = ['f', 'a', 'l', 's', 'e'];
    assert(t@ =~= seq!['t', 'r', 'u', 'e']);
    assert(f@ =~= seq!['f', 'a', 'l', 's', 'e']);
    if word_here(s, i, &t) {
        Some((Expression::Boolean(true), i + 4))
    } else if word_here(s, i, &f) {
        Some((Expression::Boolean(false), i + 5))
    } else {
        None
    }
}

/// A statement, or else a constant; then white space.
fn parse_expression(text: &str, s: &Vec<char>, alnum: &Vec<char>, i: usize) -> (r: Option<(Expression, usize)>)
    requires
        s@ == text@,
        i <= s.len(),
    ensures
        match p_expression(s@, alnum@, i as nat) {
            Some((x, e)) => r matches Some((rx, re)) && rx@ == x && re == e,
            None => r is None,
        },
        r matches Some((_, e)) ==> i <= e <= s.len(),
{
    match parse_statement(text, s, alnum, i) {
        Some(r) => Some(r),
        None => match parse_boolean(s, i) {
            Some((x, k)) => Some((x, span_of(s, k, CharClass::Space))),
            None => None,
        },
    }
}


/// An AND clause: expressions joined by the keyword `AND`, conjoined as
/// they are read.
fn parse_and(text: &str, s: &Vec<char>, alnum: &Vec<char>, i: usize) -> (r: Option<(AndClause, usize)>)
    requires
        s@ == text@,
        i <= s.len(),
    ensures
        match p_and(s@, alnum@, i as nat) {
            Some((es, m)) => r matches Some((c, e)) && c@ == build_and(es) && e == m,
            None => r is None,
        },
        r matches Some((c, e)) ==> i <= e <= s.len() && c@.wf(),
{
    let (first, m) = match parse_expression(text, s, alnum, i) {
        Some(r) => r,
        None => return None,
    };
    let mut clause = AndClause::new(first);
    let ghost mut acc: Seq<ExprV> = seq![first@];
    proof {
        assert(acc.drop_last() =~= Seq::<ExprV>::empty());
        assert(and_fold(and_empty(), acc.drop_last()) == and_empty());
        assert(acc.last() == first@);
        assert(build_and(acc) == and_fold(and_empty(), acc.drop_last()).add(acc.last()));
        assert(seq![first@] + p_and_tail(s@, alnum@, m as nat).0 == acc + p_and_tail(s@, alnum@, m as nat).0);
    }
    let mut j = m;
    let and_l = ['a', 'n', 'd'];
    let and_u = ['A', 'N', 'D'];
    assert(and_l@ =~= kw_and_lower());
    assert(and_u@ =~= kw_and_upper());
    loop
        invariant
            i <= j <= s.len(),
            s@ == text@,
            and_l@ == kw_and_lower(),
            and_u@ == kw_and_upper(),
            clause@ == build_and(acc),
            clause@.wf(),
            p_and(s@, alnum@, i as nat) == Some(
                (acc + p_and_tail(s@, alnum@, j as nat).0, p_and_tail(s@, alnum@, j as nat).1),
            ),
        decreases s.len() - j,
    {
        if !keyword_here(s, j, &and_l, &and_u) {
            assert(acc + Seq::<ExprV>::empty() =~= acc);
            return Some((clause, j));
        }
        let k = span_of(s, j + 3, CharClass::Space);
        match parse_expression(text, s, alnum, k) {
            Some((e, m2)) => {
                proof {
                    let (rest, end) = p_and_tail(s@, alnum@, m2 as nat);
                    assert(acc + (seq![e@] + rest) =~= acc.push(e@) + rest);
                    assert(acc.push(e@).drop_last() =~= acc);
                }
                clause.add(e);
                proof {
                    acc = acc.push(e@);
                }
                j = m2;
            },
            None => {
                assert(acc + Seq::<ExprV>::empty() =~= acc);
                return Some((clause, j));
            },
        }
    }
}

/// An OR clause: AND clauses joined by the keyword `OR`, disjoined as they
/// are read.
fn parse_or(text: &str, s: &Vec<char>, alnum: &Vec<char>, i: usize) -> (r: Option<(OrClause, usize)>)
    requires
        s@ == text@,
        i <= s.len(),
    ensures
        match p_or(s@, alnum@, i as nat) {
            Some((cs, m)) => r matches Some((c, e)) && c@ == build_or(cs) && e == m,
            None => r is None,
        },
        r matches Some((c, e)) ==> i <= e <= s.len() && c@.wf(),
{
    let (first, m) = match parse_and(text, s, alnum, i) {
        Some(r) => r,
        None => return None,
    };
    let ghost first_es = (p_and(s@, alnum@, i as nat)->0).0;
    let mut clause = OrClause::new(first);
    let ghost mut acc: Seq<Seq<ExprV>> = seq![first_es];
    proof {
        let cs = acc.map_values(|es: Seq<ExprV>| build_and(es));
        assert(cs.drop_last() =~= Seq::<AndV>::empty());
        assert(or_fold(or_empty(), cs.drop_last()) == or_empty());
        assert(cs.last() == first@);
        assert(build_or(acc) == or_fold(or_empty(), cs.drop_last()).add(cs.last()));
    }
    let mut j = m;
    let or_l = ['o', 'r'];
    let or_u = ['O', 'R'];
    assert(or_l@ =~= kw_or_lower());
    assert(or_u@ =~= kw_or_upper());
    loop
        invariant
            i <= j <= s.len(),
            s@ == text@,
            or_l@ == kw_or_lower(),
            or_u@ == kw_or_upper(),
            clause@ == build_or(acc),
            clause@.wf(),
            p_or(s@, alnum@, i as nat) == Some(
                (acc + p_or_tail(s@, alnum@, j as nat).0, p_or_tail(s@, alnum@, j as nat).1),
            ),
        decreases s.len() - j,
    {
        if !keyword_here(s, j, &or_l, &or_u) {
            assert(acc + Seq::<Seq<ExprV>>::empty() =~= acc);
            return Some((clause, j));
        }
        let k = span_of(s, j + 2, CharClass::Space);
        match parse_and(text, s, alnum, k) {
            Some((c, m2)) => {
                let ghost es = (p_and(s@, alnum@, k as nat)->0).0;
                proof {
                    let (rest, end) = p_or_tail(s@, alnum@, m2 as nat);
                    assert(acc + (seq![es] + rest) =~= acc.push(es) + rest);
                    let f = |x: Seq<ExprV>| build_and(x);
                    assert(acc.push(es).map_values(f) =~= acc.map_values(f).push(build_and(es)));
                    assert(acc.map_values(f).push(build_and(es)).drop_last() =~= acc.map_values(f));
                }
                clause.add(c);
                proof {
                    acc = acc.push(es);
                }
                j = m2;
            },
            None => {
                assert(acc + Seq::<Seq<ExprV>>::empty() =~= acc);
                return Some((clause, j));
            },
        }
    }
}


/// The message of a parse error: what was expected, and at which character.
fn parse_error(expected: &str, position: usize) -> (r: String) {
    let mut out = String::from_str("expected ");
    out.append(expected);
    out.append(" at character ");
    push_decimal_text(&mut out, position as u64);
    out
}

/// Parses a rule, simplifying its clauses as they are read; string payloads
/// take `_`, `/` and the characters that `alnum` lists.
///
/// The rule is `<REJECT|FILTER> <table> WHEN <clause>`, keywords in any case;
/// a clause is AND clauses joined by `OR`, and an AND clause is expressions
/// joined by `AND`. The whole text must be a rule.
pub fn compile_with(text: &str, alnum: &Vec<char>) -> (r: Result<Rule, String>)
    ensures
        match p_rule(text@, alnum@) {
            Some((op, table, clauses)) => r matches Ok(rule) && rule@ == (RuleV {
                operation: op,
                table,
                clause: build_or(clauses),
            }) && rule@.wf(),
            None => r is Err,
        },
{
    let s = chars_of(text);
    let reject_l = ['r', 'e', 'j', 'e', 'c', 't'];
    let reject_u = ['R', 'E', 'J', 'E', 'C', 'T'];
    let filter_l = ['f', 'i', 'l', 't', 'e', 'r'];
    let filter_u = ['F', 'I', 'L', 'T', 'E', 'R'];
    let when_l = ['w', 'h', 'e', 'n'];
    let when_u = ['W', 'H', 'E', 'N'];
    assert(reject_l@ =~= seq!['r', 'e', 'j', 'e', 'c', 't']);
    assert(reject_u@ =~= seq!['R', 'E', 'J', 'E', 'C', 'T']);
    assert(filter_l@ =~= seq!['f', 'i', 'l', 't', 'e', 'r']);
    assert(filter_u@ =~= seq!['F', 'I', 'L', 'T', 'E', 'R']);
    assert(when_l@ =~= seq!['w', 'h', 'e', 'n']);
    assert(when_u@ =~= seq!['W', 'H', 'E', 'N']);
    let operation = if keyword_here(&s, 0, &reject_l, &reject_u) {
        Operation::Reject
    } else if keyword_here(&s, 0, &filter_l, &filter_u) {
        Operation::Filter
    } else {
        return Err(parse_error("REJECT or FILTER", 0));
    };
    let ti = span_of(&s, 6, CharClass::Space);
    let te = span_of(&s, ti, CharClass::TableName);
    let wi = span_of(&s, te, CharClass::Space);
    if !keyword_here(&s, wi, &when_l, &when_u) {
        return Err(parse_error("WHEN", wi));
    }
    let ci = span_of(&s, wi + 4, CharClass::Space);
    let (clause, e) = match parse_or(text, &s, alnum, ci) {
        Some(r) => r,
        None => return Err(parse_error("an expression", ci)),
    };
    let end = span_of(&s, e, CharClass::Space);
    if end != s.len() {
        return Err(parse_error("the end of the rule", end));
    }
    let table = String::from_str(text.substring_char(ti, te));
    Ok(Rule::new(operation, table, clause))
}


/// The characters of `text` that are alphanumeric, in order.
fn alphanumerics_of(text: &Vec<char>) -> (r: Vec<char>)
    ensures
        r@ == alphanumerics(text@),
{
    let mut out: Vec<char> = Vec::new();
    let mut i: usize = 0;
    while i < text.len()
        invariant
            i <= text.len(),
            out@ == alphanumerics(text@.subrange(0, i as int)),
        decreases text.len() - i,
    {
        let c = text[i];
        proof {
            let next = text@.subrange(0, i + 1);
            assert(next.drop_last() =~= text@.subrange(0, i as int));
            assert(next.last() == c);
            reveal(Seq::filter);
            assert(alphanumerics(next) == next.filter(|x: char| alphanumeric(x)));
            assert(next.filter(|x: char| alphanumeric(x)) == (if alphanumeric(c) {
                next.drop_last().filter(|x: char| alphanumeric(x)).push(c)
            } else {
                next.drop_last().filter(|x: char| alphanumeric(x))
            }));
        }
        if is_alphanumeric(c) {
            out.push(c);
        }
        i = i + 1;
    }
    assert(text@.subrange(0, i as int) =~= text@);
    out
}

/// Parses a rule, simplifying its clauses as they are read; string payloads
/// take `_`, `/` and alphanumeric characters. See `compile_with`.
pub fn compile(text: &str) -> (r: Result<Rule, String>)
    ensures
        match p_rule(text@, alphanumerics(text@)) {
            Some((op, table, clauses)) => r matches Ok(rule) && rule@ == (RuleV {
                operation: op,
                table,
                clause: build_or(clauses),
            }) && rule@.wf(),
            None => r is Err,
        },
{
    let s = chars_of(text);
    let alnum = alphanumerics_of(&s);
    compile_with(text, &alnum)
}

} // verus!
