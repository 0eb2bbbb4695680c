//! Conjunctive and disjunctive clauses, simplified as they are built.
use vstd::prelude::*;
use vstd::string::StringExecFns;
use crate::ast::{bool_text, expr_text, join_text, push_bool_text, ExprV, Expression, Operator};

verus! {

/// The mathematical value of an AND clause.
pub struct AndV {
    pub truthy: bool,
    pub value: bool,
    pub exprs: Seq<ExprV>,
}

/// The mathematical value of an OR clause.
pub struct OrV {
    pub truthy: bool,
    pub value: bool,
    pub subs: Seq<AndV>,
}

pub open spec fn is_statement(e: ExprV) -> bool {
    e is Statement
}

pub open spec fn field_of(e: ExprV) -> Seq<char> {
    match e {
        ExprV::Statement(f, _, _) => f,
        _ => Seq::empty(),
    }
}

/// Two statements that cannot hold together: two equalities on one field, or
/// an equality and an inequality on one field with the same value.
pub open spec fn conflicts(a: ExprV, b: ExprV) -> bool {
    match (a, b) {
        (ExprV::Statement(f1, o1, v1), ExprV::Statement(f2, o2, v2)) => f1 == f2 && (
        (o1 == Operator::Equal && o2 == Operator::Equal) || (o1 != o2 && v1 == v2)),
        _ => false,
    }
}

pub proof fn lemma_conflicts_symmetric(a: ExprV, b: ExprV)
    ensures
        conflicts(a, b) == conflicts(b, a),
{
}

/// The AND clause that holds nothing and has not collapsed.
pub open spec fn and_empty() -> AndV {
    AndV { truthy: false, value: false, exprs: Seq::empty() }
}

pub open spec fn and_false() -> AndV {
    AndV { truthy: true, value: false, exprs: Seq::empty() }
}

impl AndV {
    /// The clause's invariant: a collapsed clause holds no expressions, and
    /// the expressions are distinct statements of which no two conflict.
    pub open spec fn inv(self) -> bool {
        &&& self.truthy ==> self.exprs.len() == 0
        &&& forall|i: int| 0 <= i < self.exprs.len() ==> is_statement(#[trigger] self.exprs[i])
        &&& forall|i: int, j: int|
            #![trigger self.exprs[i], self.exprs[j]]
            0 <= i < self.exprs.len() && 0 <= j < self.exprs.len() && i != j ==> self.exprs[i]
                != self.exprs[j] && !conflicts(self.exprs[i], self.exprs[j])
    }

    /// The invariant, and a clause that has not collapsed holds an expression.
    pub open spec fn wf(self) -> bool {
        &&& self.inv()
        &&& !self.truthy ==> self.exprs.len() > 0
    }

    /// The clause after `e` is conjoined to it.
    pub open spec fn add(self, e: ExprV) -> AndV {
        if self.truthy && !self.value {
            self
        } else {
            match e {
                ExprV::Boolean(b) => {
                    if !b {
                        and_false()
                    } else if self.exprs.len() == 0 {
                        AndV { truthy: true, value: true, exprs: self.exprs }
                    } else {
                        self
                    }
                },
                ExprV::Statement(_, _, _) => {
                    if self.exprs.contains(e) {
                        AndV { truthy: false, ..self }
                    } else if exists|i: int|
                        0 <= i < self.exprs.len() && conflicts(#[trigger] self.exprs[i], e) {
                        and_false()
                    } else {
                        AndV { truthy: false, value: self.value, exprs: self.exprs.push(e) }
                    }
                },
            }
        }
    }

    /// `self` contains `other`: the same state, and each expression of
    /// `other` is one of `self`.
    pub open spec fn contains(self, other: AndV) -> bool {
        &&& self.truthy == other.truthy
        &&& self.value == other.value
        &&& forall|i: int| 0 <= i < other.exprs.len() ==> self.exprs.contains(#[trigger] other.exprs[i])
    }

    /// Equality without regard to order.
    pub open spec fn same(self, other: AndV) -> bool {
        &&& self.truthy == other.truthy
        &&& self.value == other.value
        &&& self.exprs.len() == other.exprs.len()
        &&& forall|i: int| 0 <= i < self.exprs.len() ==> other.exprs.contains(#[trigger] self.exprs[i])
    }

    /// The single expression of the clause, if it holds exactly one.
    pub open spec fn single(self) -> Option<ExprV> {
        if self.exprs.len() == 1 {
            Some(self.exprs[0])
        } else {
            None
        }
    }

    pub open spec fn text(self) -> Seq<char> {
        if self.truthy {
            bool_text(self.value)
        } else {
            join_text(self.exprs.map_values(|e: ExprV| expr_text(e)), seq![' ', 'A', 'N', 'D', ' '])
        }
    }
}

/// An AND clause, collapsed to a constant or holding distinct,
/// non-conflicting statements.
#[derive(Debug, Clone)]
pub struct AndClause {
    pub truthy: bool,
    pub value: bool,
    pub expressions: Vec<Expression>,
}

impl View for AndClause {
    type V = AndV;

    open spec fn view(&self) -> AndV {
        AndV {
            truthy: self.truthy,
            value: self.value,
            exprs: self.expressions@.map_values(|e: Expression| e@),
        }
    }
}

impl AndClause {
    /// The clause that holds only `expression`.
    pub fn new(expression: Expression) -> (r: Self)
        ensures
            r@ == and_empty().add(expression@),
            r@.wf(),
    {
        let mut instance = Self { truthy: false, value: false, expressions: Vec::new() };
        assert(instance@.exprs =~= Seq::empty());
        instance.add(expression);
        instance
    }

    /// The constant the clause collapsed to, if it did.
    pub fn try_evaluate(&self) -> (r: Option<bool>)
        ensures
            r == (if self.truthy {
                Some(self.value)
            } else {
                None::<bool>
            }),
    {
        if self.truthy {
            return Some(self.value);
        }
        None
    }

    /// The single expression of the clause, if it holds exactly one.
    pub fn try_reduce(&self) -> (r: Option<Expression>)
        ensures
            r matches Some(e) ==> self@.single() == Some(e@),
            r is None ==> self@.single() is None,
    {
        if self.expressions.len() == 1 {
            return Some(self.expressions[0].copy());
        }
        None
    }

    /// Conjoins `expression` to the clause.
    pub fn add(&mut self, expression: Expression)
        requires
            old(self)@.inv(),
        ensures
            final(self)@ == old(self)@.add(expression@),
            final(self)@.wf(),
    {
        let ghost old_v = self@;
        if self.truthy && !self.value {
            return;
        }
        match &expression {
            Expression::Boolean(b) => {
                if !*b {
                    self.expressions.clear();
                    self.truthy = true;
                    self.value = false;
                    assert(self@.exprs =~= Seq::empty());
                    return;
                }
                if self.expressions.len() == 0 {
                    self.truthy = true;
                    self.value = true;
                }
                return;
            },
            Expression::Statement(_, _, _) => {},
        }
        self.truthy = false;
        let n = self.expressions.len();
        let mut i: usize = 0;
        while i < n
            invariant
                n == self.expressions.len(),
                i <= n,
                self@.exprs == old_v.exprs,
                self@.value == old_v.value,
                !self.truthy,
                old_v == old(self)@,
                old_v.inv(),
                !(old_v.truthy && !old_v.value),
                expression@ is Statement,
                forall|j: int| 0 <= j < i ==> old_v.exprs[j] != expression@ && !conflicts(
                    #[trigger] old_v.exprs[j],
                    expression@,
                ),
            decreases n - i,
        {
            let expr = &self.expressions[i];
            if expr.same(&expression) {
                proof {
                    assert(old_v.exprs[i as int] == expression@);
                    assert(old_v.exprs.contains(expression@));
                    assert(self@ == (AndV { truthy: false, ..old_v }));
                    assert(self@ == old_v.add(expression@));
                }
                return;
            }
            if statements_conflict(expr, &expression) {
                proof {
                    assert(conflicts(old_v.exprs[i as int], expression@));
                    if old_v.exprs.contains(expression@) {
                        let k = choose|k: int| 0 <= k < old_v.exprs.len() && old_v.exprs[k] == expression@;
                        assert(k != i);
                    }
                }
                self.expressions.clear();
                self.truthy = true;
                self.value = false;
                assert(self@.exprs =~= Seq::empty());
                assert(self@ == old_v.add(expression@));
                return;
            }
            i = i + 1;
        }
        proof {
            assert forall|k: int| 0 <= k < old_v.exprs.len() implies old_v.exprs[k] != expression@
                && !conflicts(old_v.exprs[k], expression@) by {}
            assert(!old_v.exprs.contains(expression@));
        }
        self.expressions.push(expression);
        proof {
            let e = expression@;
            let ne = old_v.exprs.push(e);
            assert(self@.exprs =~= ne);
            assert forall|a: int, b: int|
                0 <= a < ne.len() && 0 <= b < ne.len() && a != b implies ne[a] != ne[b]
                && !conflicts(ne[a], ne[b]) by {
                if a < old_v.exprs.len() && b < old_v.exprs.len() {
                    assert(ne[a] == old_v.exprs[a] && ne[b] == old_v.exprs[b]);
                    assert(old_v.exprs[a] != old_v.exprs[b] && !conflicts(old_v.exprs[a], old_v.exprs[b]));
                } else if a < old_v.exprs.len() {
                    assert(ne[b] == e && ne[a] == old_v.exprs[a]);
                    assert(old_v.exprs[a] != e && !conflicts(old_v.exprs[a], e));
                } else {
                    assert(ne[a] == e && ne[b] == old_v.exprs[b]);
                    assert(old_v.exprs[b] != e && !conflicts(old_v.exprs[b], e));
                    lemma_conflicts_symmetric(e, old_v.exprs[b]);
                }
            }
        }
    }

    /// Whether this clause contains `other`: the same state, and each of
    /// `other`'s expressions is one of this clause's.
    pub fn contains(&self, other: &Self) -> (r: bool)
        ensures
            r == self@.contains(other@),
    {
        if self.truthy != other.truthy || self.value != other.value {
            return false;
        }
        let n = other.expressions.len();
        let mut i: usize = 0;
        while i < n
            invariant
                n == other.expressions.len(),
                i <= n,
                forall|j: int| 0 <= j < i ==> self@.exprs.contains(#[trigger] other@.exprs[j]),
            decreases n - i,
        {
            if !holds_expression(&self.expressions, &other.expressions[i]) {
                assert(!self@.exprs.contains(other@.exprs[i as int]));
                return false;
            }
            i = i + 1;
        }
        true
    }

    /// Replaces this clause's expressions with those of `other`.
    pub fn take(&mut self, other: &Self)
        ensures
            final(self)@ == (AndV { exprs: other@.exprs, ..old(self)@ }),
    {
        self.expressions = copy_expressions(&other.expressions);
    }

    /// The textual form: the constant, or the statements joined by `AND`.
    pub fn to_string(&self) -> (r: String)
        ensures
            r@ == self@.text(),
    {
        let mut out = String::new();
        if self.truthy {
            push_bool_text(&mut out, self.value);
            assert(out@ =~= self@.text());
            return out;
        }
        let n = self.expressions.len();
        let ghost parts = self@.exprs.map_values(|e: ExprV| expr_text(e));
        let mut i: usize = 0;
        while i < n
            invariant
                n == self.expressions.len(),
                i <= n,
                parts == self@.exprs.map_values(|e: ExprV| expr_text(e)),
                out@ == join_text(parts.subrange(0, i as int), seq![' ', 'A', 'N', 'D', ' ']),
            decreases n - i,
        {
            let ghost before = out@;
            if i > 0 {
                out.append(" AND ");
                proof {
                    reveal_strlit(" AND ");
                }
            }
            self.expressions[i].push_text(&mut out);
            proof {
                let next = parts.subrange(0, i + 1);
                assert(next.drop_last() =~= parts.subrange(0, i as int));
                assert(next.last() == expr_text(self@.exprs[i as int]));
                if i == 0 {
                    assert(out@ =~= join_text(next, seq![' ', 'A', 'N', 'D', ' ']));
                } else {
                    assert(out@ =~= join_text(next, seq![' ', 'A', 'N', 'D', ' ']));
                }
            }
            i = i + 1;
        }
        assert(parts.subrange(0, n as int) =~= parts);
        out
    }
}

impl PartialEq for AndClause {
    /// Equality without regard to the order of the expressions.
    fn eq(&self, other: &Self) -> (r: bool) {
        if self.truthy != other.truthy || self.value != other.value || self.expressions.len()
            != other.expressions.len() {
            return false;
        }
        let n = self.expressions.len();
        let mut i: usize = 0;
        while i < n
            invariant
                n == self.expressions.len(),
                i <= n,
                forall|j: int| 0 <= j < i ==> other@.exprs.contains(#[trigger] self@.exprs[j]),
            decreases n - i,
        {
            if !holds_expression(&other.expressions, &self.expressions[i]) {
                assert(!other@.exprs.contains(self@.exprs[i as int]));
                return false;
            }
            i = i + 1;
        }
        true
    }
}

impl vstd::std_specs::cmp::PartialEqSpecImpl for AndClause {
    open spec fn obeys_eq_spec() -> bool {
        true
    }

    open spec fn eq_spec(&self, other: &AndClause) -> bool {
        self@.same(other@)
    }
}

/// Whether `a` and `b` are conflicting statements.
fn statements_conflict(a: &Expression, b: &Expression) -> (r: bool)
    ensures
        r == conflicts(a@, b@),
{
    match (a, b) {
        (Expression::Statement(f1, o1, v1), Expression::Statement(f2, o2, v2)) => {
            if !f1.eq(f2) {
                return false;
            }
            match (o1, o2) {
                (Operator::Equal, Operator::Equal) => true,
                (Operator::Equal, Operator::NotEqual) => v1.same(v2),
                (Operator::NotEqual, Operator::Equal) => v1.same(v2),
                _ => false,
            }
        },
        _ => false,
    }
}

/// Whether `list` holds an expression equal to `e`.
fn holds_expression(list: &Vec<Expression>, e: &Expression) -> (r: bool)
    ensures
        r == list@.map_values(|x: Expression| x@).contains(e@),
{
    let ghost view = list@.map_values(|x: Expression| x@);
    let mut i: usize = 0;
    while i < list.len()
        invariant
            i <= list.len(),
            view == list@.map_values(|x: Expression| x@),
            forall|j: int| 0 <= j < i ==> view[j] != e@,
        decreases list.len() - i,
    {
        if list[i].same(e) {
            assert(view[i as int] == e@);
            return true;
        }
        i = i + 1;
    }
    false
}

/// A copy of a list of expressions.
fn copy_expressions(list: &Vec<Expression>) -> (r: Vec<Expression>)
    ensures
        r@.map_values(|x: Expression| x@) == list@.map_values(|x: Expression| x@),
{
    let mut out: Vec<Expression> = Vec::new();
    let mut i: usize = 0;
    while i < list.len()
        invariant
            i <= list.len(),
            out.len() == i,
            forall|j: int| 0 <= j < i ==> (#[trigger] out@[j])@ == list@[j]@,
        decreases list.len() - i,
    {
        out.push(list[i].copy());
        i = i + 1;
    }
    assert(out@.map_values(|x: Expression| x@) =~= list@.map_values(|x: Expression| x@));
    out
}


/// Where a new AND clause meets the clauses of an OR clause, scanning from
/// index `i`: the first clause that contains it, the first that it contains,
/// or the first single statement that, together with its own single
/// statement, covers every value of a field.
pub enum Scan {
    Contained,
    Take(int),
    Covers,
    Fresh,
}

/// Two clauses of one statement each, on one field, with opposite operators.
pub open spec fn complementary(a: AndV, b: AndV) -> bool {
    match (a.single(), b.single()) {
        (Some(ExprV::Statement(f1, o1, _)), Some(ExprV::Statement(f2, o2, _))) => f1 == f2 && o1
            != o2,
        _ => false,
    }
}

pub open spec fn scan(subs: Seq<AndV>, s: AndV, i: nat) -> Scan
    decreases subs.len() - i,
{
    if i >= subs.len() {
        Scan::Fresh
    } else if subs[i as int].contains(s) {
        Scan::Contained
    } else if s.contains(subs[i as int]) {
        Scan::Take(i as int)
    } else if complementary(subs[i as int], s) {
        Scan::Covers
    } else {
        scan(subs, s, i + 1)
    }
}

/// The OR clause that holds nothing and has not collapsed.
pub open spec fn or_empty() -> OrV {
    OrV { truthy: false, value: false, subs: Seq::empty() }
}

pub open spec fn or_true() -> OrV {
    OrV { truthy: true, value: true, subs: Seq::empty() }
}

impl OrV {
    /// The clause's invariant: a collapsed clause holds no AND clauses, and
    /// each AND clause is well formed and has not collapsed.
    pub open spec fn inv(self) -> bool {
        &&& self.truthy ==> self.subs.len() == 0
        &&& forall|i: int| 0 <= i < self.subs.len() ==> (#[trigger] self.subs[i]).wf() && !self.subs[i].truthy
    }

    /// The invariant, and a clause that has not collapsed holds an AND clause.
    pub open spec fn wf(self) -> bool {
        &&& self.inv()
        &&& !self.truthy ==> self.subs.len() > 0
    }

    /// The clause after `s` is disjoined to it.
    pub open spec fn add(self, s: AndV) -> OrV {
        if self.truthy && self.value {
            self
        } else if s.truthy {
            if s.value {
                or_true()
            } else if self.subs.len() == 0 {
                OrV { truthy: true, value: false, subs: self.subs }
            } else {
                self
            }
        } else {
            match scan(self.subs, s, 0) {
                Scan::Contained => OrV { truthy: false, ..self },
                Scan::Take(i) => OrV {
                    truthy: false,
                    value: self.value,
                    subs: self.subs.update(i, AndV { exprs: s.exprs, ..self.subs[i] }),
                },
                Scan::Covers => or_true(),
                Scan::Fresh => OrV { truthy: false, value: self.value, subs: self.subs.push(s) },
            }
        }
    }

    pub open spec fn text(self) -> Seq<char> {
        if self.truthy {
            bool_text(self.value)
        } else {
            join_text(self.subs.map_values(|c: AndV| c.text()), seq![' ', 'O', 'R', ' '])
        }
    }
}

/// An OR clause, collapsed to a constant or holding AND clauses none of
/// which contains another.
#[derive(Debug, Clone, PartialEq)]
pub struct OrClause {
    pub truthy: bool,
    pub value: bool,
    pub subclauses: Vec<AndClause>,
}

impl View for OrClause {
    type V = OrV;

    open spec fn view(&self) -> OrV {
        OrV {
            truthy: self.truthy,
            value: self.value,
            subs: self.subclauses@.map_values(|c: AndClause| c@),
        }
    }
}

impl OrClause {
    /// The clause that holds only `subclause`.
    pub fn new(subclause: AndClause) -> (r: Self)
        requires
            subclause@.wf(),
        ensures
            r@ == or_empty().add(subclause@),
            r@.wf(),
    {
        let mut instance = Self { truthy: false, value: false, subclauses: Vec::new() };
        assert(instance@.subs =~= Seq::empty());
        instance.add(subclause);
        instance
    }

    /// Disjoins `subclause` to the clause.
    pub fn add(&mut self, subclause: AndClause)
        requires
            old(self)@.inv(),
            subclause@.wf(),
        ensures
            final(self)@ == old(self)@.add(subclause@),
            final(self)@.wf(),
    {
        let ghost old_v = self@;
        let ghost s = subclause@;
        if self.truthy && self.value {
            return;
        }
        match subclause.try_evaluate() {
            Some(b) => {
                if b {
                    self.subclauses.clear();
                    self.truthy = true;
                    self.value = true;
                    assert(self@.subs =~= Seq::empty());
                    return;
                }
                if self.subclauses.len() == 0 {
                    self.truthy = true;
                    self.value = false;
                }
                return;
            },
            None => {},
        }
        self.truthy = false;
        let n = self.subclauses.len();
        let mut i: usize = 0;
        while i < n
            invariant
                n == self.subclauses.len(),
                i <= n,
                old_v == old(self)@,
                self@.subs == old_v.subs,
                self@.value == old_v.value,
                !self.truthy,
                !s.truthy,
                s == subclause@,
                s.wf(),
                old_v.inv(),
                !(old_v.truthy && old_v.value),
                scan(old_v.subs, s, 0) == scan(old_v.subs, s, i as nat),
            decreases n - i,
        {
            if self.subclauses[i].contains(&subclause) {
                assert(self@ == old_v.add(s));
                return;
            }
            if subclause.contains(&self.subclauses[i]) {
                self.subclauses[i].take(&subclause);
                proof {
                    let ns = old_v.subs.update(i as int, AndV { exprs: s.exprs, ..old_v.subs[i as int] });
                    assert(self@.subs =~= ns);
                    assert(self@ == old_v.add(s));
                }
                return;
            }
            let covers = match (self.subclauses[i].try_reduce(), subclause.try_reduce()) {
                (Some(Expression::Statement(f1, o1, _)), Some(Expression::Statement(f2, o2, _))) => {
                    f1.eq(&f2) && o1 != o2
                },
                _ => false,
            };
            if covers {
                self.subclauses.clear();
                self.truthy = true;
                self.value = true;
                assert(self@.subs =~= Seq::empty());
                return;
            }
            i = i + 1;
        }
        self.subclauses.push(subclause);
        proof {
            assert(self@.subs =~= old_v.subs.push(s));
        }
    }

    /// The textual form: the constant, or the AND clauses joined by `OR`.
    pub fn to_string(&self) -> (r: String)
        ensures
            r@ == self@.text(),
    {
        let mut out = String::new();
        if self.truthy {
            push_bool_text(&mut out, self.value);
            assert(out@ =~= self@.text());
            return out;
        }
        let n = self.subclauses.len();
        let ghost parts = self@.subs.map_values(|c: AndV| c.text());
        let mut i: usize = 0;
        while i < n
            invariant
                n == self.subclauses.len(),
                i <= n,
                parts == self@.subs.map_values(|c: AndV| c.text()),
                out@ == join_text(parts.subrange(0, i as int), seq![' ', 'O', 'R', ' ']),
            decreases n - i,
        {
            if i > 0 {
                out.append(" OR ");
                proof {
                    reveal_strlit(" OR ");
                }
            }
            let piece = self.subclauses[i].to_string();
            out.append(piece.as_str());
            proof {
                let next = parts.subrange(0, i + 1);
                assert(next.drop_last() =~= parts.subrange(0, i as int));
                assert(out@ =~= join_text(next, seq![' ', 'O', 'R', ' ']));
            }
            i = i + 1;
        }
        assert(parts.subrange(0, n as int) =~= parts);
        out
    }
}

} // verus!
