//! Writers: the sinks that a rule's clauses are replayed against.
use vstd::prelude::*;
use crate::ast::{Atom, AtomV, ExprV, Expression, Operation, Operator};
use crate::clause::{AndClause, AndV, OrClause, OrV};
use crate::record::EncodeError;
use crate::rule::{Rule, RuleV};

verus! {

/// A call made to a writer.
pub enum WriterCall {
    Statement(Seq<char>, Operator, AtomV),
    NewClause,
    Absolute(bool),
    Flush,
}

/// A sink for encoded rules. What each call returns, and the state it
/// leaves the writer in, are functions of the writer's state before it.
pub trait QueryWriter: View {
    /// What a writer in state `m` returns for the call `c`.
    spec fn answer(m: Self::V, c: WriterCall) -> Result<(), EncodeError>;

    /// The state of a writer in state `m` after the call `c`.
    spec fn next(m: Self::V, c: WriterCall) -> Self::V;

    /// Called on each statement of an AND clause.
    fn write_statement(&mut self, field: &String, operator: &Operator, atom: &Atom) -> (r: Result<
        (),
        EncodeError,
    >)
        ensures
            r == Self::answer(old(self)@, WriterCall::Statement(field@, *operator, atom@)),
            final(self)@ == Self::next(old(self)@, WriterCall::Statement(field@, *operator, atom@)),
    ;

    /// Called before the statements of each AND clause but the first.
    fn start_new_clause(&mut self) -> (r: Result<(), EncodeError>)
        ensures
            r == Self::answer(old(self)@, WriterCall::NewClause),
            final(self)@ == Self::next(old(self)@, WriterCall::NewClause),
    ;

    /// Called where the rule collapsed to a constant.
    fn write_absolute(&mut self, value: bool) -> (r: Result<(), EncodeError>)
        ensures
            r == Self::answer(old(self)@, WriterCall::Absolute(value)),
            final(self)@ == Self::next(old(self)@, WriterCall::Absolute(value)),
    ;

    /// Called once the rule is written, to hand it on.
    fn flush(&mut self) -> (r: Result<(), EncodeError>)
        ensures
            r == Self::answer(old(self)@, WriterCall::Flush),
            final(self)@ == Self::next(old(self)@, WriterCall::Flush),
    ;
}

/// Makes the writer for a rule's operation and table.
pub trait QueryWriterFactory<T: QueryWriter> {
    /// The state of the writer that `create` makes for an operation and a
    /// table, or the error that it returns.
    spec fn made(&self, operation: Operation, table: Seq<char>) -> Result<T::V, EncodeError>;

    fn create(&self, operation: Operation, table: &str) -> (r: Result<T, EncodeError>)
        ensures
            match self.made(operation, table@) {
                Ok(m) => r matches Ok(w) && w@ == m,
                Err(e) => r matches Err(x) && x == e,
            },
    ;
}

/// A writer in state `m` driven with the calls `cs`, stopping at the first
/// call that fails: its final state, and `Ok` or the error of that call.
pub open spec fn drive<W: QueryWriter>(m: W::V, cs: Seq<WriterCall>) -> (W::V, Result<(), EncodeError>)
    decreases cs.len(),
{
    if cs.len() == 0 {
        (m, Ok(()))
    } else {
        match W::answer(m, cs[0]) {
            Ok(_) => drive::<W>(W::next(m, cs[0]), cs.drop_first()),
            Err(e) => (W::next(m, cs[0]), Err(e)),
        }
    }
}

pub proof fn lemma_drive_append<W: QueryWriter>(m: W::V, a: Seq<WriterCall>, b: Seq<WriterCall>)
    ensures
        drive::<W>(m, a + b) == (match drive::<W>(m, a) {
            (m2, Ok(_)) => drive::<W>(m2, b),
            (m2, Err(e)) => (m2, Err(e)),
        }),
    decreases a.len(),
{
    if a.len() == 0 {
        assert(a + b =~= b);
    } else {
        assert((a + b)[0] == a[0]);
        assert((a + b).drop_first() =~= a.drop_first() + b);
        lemma_drive_append::<W>(W::next(m, a[0]), a.drop_first(), b);
    }
}

pub proof fn lemma_drive_one<W: QueryWriter>(m: W::V, c: WriterCall)
    ensures
        drive::<W>(m, seq![c]) == (W::next(m, c), W::answer(m, c)),
{
    assert(seq![c].drop_first() =~= Seq::<WriterCall>::empty());
    assert(seq![c][0] == c);
    let n = W::next(m, c);
    assert(drive::<W>(n, Seq::<WriterCall>::empty()) == (n, Ok::<(), EncodeError>(())));
    match W::answer(m, c) {
        Ok(u) => {
            assert(u == ());
        },
        Err(_) => {},
    }
}

pub proof fn lemma_unit_ok(r: Result<(), EncodeError>)
    requires
        r is Ok,
    ensures
        r == Ok::<(), EncodeError>(()),
{
    match r {
        Ok(u) => {
            assert(u == ());
        },
        Err(_) => {},
    }
}

/// Where driving with `done` ended in state `m`, driving with `done` and then
/// `c` ends as the call `c` does in `m`.
proof fn lemma_drive_extend<W: QueryWriter>(start: W::V, done: Seq<WriterCall>, m: W::V, c: WriterCall)
    requires
        drive::<W>(start, done) == (m, Ok::<(), EncodeError>(())),
    ensures
        drive::<W>(start, done.push(c)) == (W::next(m, c), W::answer(m, c)),
{
    assert(done.push(c) =~= done + seq![c]);
    lemma_drive_append::<W>(start, done, seq![c]);
    lemma_drive_one::<W>(m, c);
}

/// Where driving with a prefix of `all` fails, driving with `all` fails alike.
proof fn lemma_drive_prefix_err<W: QueryWriter>(start: W::V, all: Seq<WriterCall>, k: int)
    requires
        0 <= k <= all.len(),
        drive::<W>(start, all.take(k)).1 is Err,
    ensures
        drive::<W>(start, all) == drive::<W>(start, all.take(k)),
{
    assert(all =~= all.take(k) + all.skip(k));
    lemma_drive_append::<W>(start, all.take(k), all.skip(k));
}

pub open spec fn statement_call(e: ExprV) -> WriterCall {
    match e {
        ExprV::Statement(f, o, a) => WriterCall::Statement(f, o, a),
        ExprV::Boolean(b) => WriterCall::Absolute(b),
    }
}

/// The calls that write the statements of an AND clause.
pub open spec fn and_calls(c: AndV) -> Seq<WriterCall> {
    c.exprs.map_values(|e: ExprV| statement_call(e))
}

/// The calls that write a list of AND clauses: the statements of each, with
/// a new-clause call before each clause but the first.
pub open spec fn clauses_calls(cs: Seq<AndV>) -> Seq<WriterCall>
    decreases cs.len(),
{
    if cs.len() == 0 {
        Seq::empty()
    } else if cs.len() == 1 {
        and_calls(cs[0])
    } else {
        clauses_calls(cs.drop_last()) + seq![WriterCall::NewClause] + and_calls(cs.last())
    }
}

/// The calls that go before the statements of clause `i`.
pub open spec fn clause_opening(i: int) -> Seq<WriterCall> {
    if i == 0 {
        Seq::empty()
    } else {
        seq![WriterCall::NewClause]
    }
}

pub proof fn lemma_clauses_calls_step(cs: Seq<AndV>, i: int)
    requires
        0 <= i < cs.len(),
    ensures
        clauses_calls(cs.take(i + 1)) == clauses_calls(cs.take(i)) + clause_opening(i) + and_calls(
            cs[i],
        ),
{
    let t = cs.take(i + 1);
    assert(t.drop_last() =~= cs.take(i));
    assert(t.last() == cs[i]);
    if i == 0 {
        assert(cs.take(0) =~= Seq::<AndV>::empty());
        assert(t[0] == cs[0]);
        assert(clauses_calls(t) =~= Seq::<WriterCall>::empty() + Seq::<WriterCall>::empty()
            + and_calls(cs[0]));
    }
}

/// The calls that write an OR clause: the constant and a flush where it
/// collapsed; else its AND clauses, then a flush if there was one.
pub open spec fn or_calls(c: OrV) -> Seq<WriterCall> {
    if c.truthy {
        seq![WriterCall::Absolute(c.value), WriterCall::Flush]
    } else if c.subs.len() > 0 {
        clauses_calls(c.subs).push(WriterCall::Flush)
    } else {
        Seq::empty()
    }
}

pub proof fn lemma_clauses_calls_take(cs: Seq<AndV>, i: int)
    requires
        0 <= i <= cs.len(),
    ensures
        clauses_calls(cs.take(i)).len() <= clauses_calls(cs).len(),
        clauses_calls(cs).take(clauses_calls(cs.take(i)).len() as int) == clauses_calls(cs.take(i)),
    decreases cs.len(),
{
    if i == cs.len() {
        assert(cs.take(i) =~= cs);
        assert(clauses_calls(cs).take(clauses_calls(cs).len() as int) =~= clauses_calls(cs));
    } else {
        let d = cs.drop_last();
        assert(d.take(i) =~= cs.take(i));
        lemma_clauses_calls_take(d, i);
        let p = clauses_calls(d);
        let l = clauses_calls(cs.take(i)).len() as int;
        if cs.len() == 1 {
            assert(cs.take(i) =~= Seq::<AndV>::empty());
            assert(clauses_calls(cs).take(0) =~= Seq::<WriterCall>::empty());
        } else {
            let x = seq![WriterCall::NewClause] + and_calls(cs.last());
            assert(clauses_calls(cs) == p + x);
            assert((p + x).take(l) =~= p.take(l));
        }
    }
}

impl AndClause {
    /// Writes the clause's statements to `encoder`, stopping at the first
    /// call that fails and returning its error.
    pub fn encode<T: QueryWriter>(&self, encoder: &mut T) -> (r: Result<(), EncodeError>)
        requires
            self@.inv(),
        ensures
            (final(encoder)@, r) == drive::<T>(old(encoder)@, and_calls(self@)),
    {
        let ghost start = encoder@;
        let ghost expected = and_calls(self@);
        assert(expected.take(0) =~= Seq::<WriterCall>::empty());
        let mut i: usize = 0;
        while i < self.expressions.len()
            invariant
                i <= self.expressions.len(),
                self@.inv(),
                expected == and_calls(self@),
                start == old(encoder)@,
                drive::<T>(start, expected.take(i as int)) == (encoder@, Ok::<(), EncodeError>(())),
            decreases self.expressions.len() - i,
        {
            let ghost m = encoder@;
            proof {
                assert(expected.take(i + 1) =~= expected.take(i as int).push(expected[i as int]));
            }
            match &self.expressions[i] {
                Expression::Statement(field, operator, atom) => {
                    let r = encoder.write_statement(field, operator, atom);
                    proof {
                        assert(expected[i as int] == WriterCall::Statement(field@, *operator, atom@));
                        lemma_drive_extend::<T>(start, expected.take(i as int), m, expected[i as int]);
                    }
                    if let Err(e) = r {
                        proof {
                            lemma_drive_prefix_err::<T>(start, expected, i + 1);
                        }
                        return Err(e);
                    }
                    proof {
                        lemma_unit_ok(r);
                    }
                },
                Expression::Boolean(_) => {
                    proof {
                        assert(crate::clause::is_statement(self@.exprs[i as int]));
                    }
                    return Err(EncodeError::InvalidClause);
                },
            }
            i = i + 1;
        }
        assert(expected.take(i as int) =~= expected);
        Ok(())
    }
}

impl OrClause {
    /// Writes the clause to `encoder` and flushes it: the constant where the
    /// clause collapsed, else the AND clauses, each but the first after a
    /// new-clause call. It stops at the first call that fails and returns
    /// that call's error.
    pub fn encode<T: QueryWriter>(&self, encoder: &mut T) -> (r: Result<(), EncodeError>)
        requires
            self@.inv(),
        ensures
            (final(encoder)@, r) == drive::<T>(old(encoder)@, or_calls(self@)),
    {
        let ghost start = encoder@;
        let ghost expected = or_calls(self@);
        if self.truthy {
            let ghost m0 = encoder@;
            let r1 = encoder.write_absolute(self.value);
            proof {
                assert(expected.take(0) =~= Seq::<WriterCall>::empty());
                assert(expected.take(1) =~= expected.take(0).push(WriterCall::Absolute(self.value)));
                lemma_drive_extend::<T>(start, expected.take(0), m0, WriterCall::Absolute(self.value));
            }
            if let Err(e) = r1 {
                proof {
                    lemma_drive_prefix_err::<T>(start, expected, 1);
                }
                return Err(e);
            }
            proof {
                lemma_unit_ok(r1);
            }
            let ghost m1 = encoder@;
            let r = encoder.flush();
            proof {
                assert(expected =~= expected.take(1).push(WriterCall::Flush));
                lemma_drive_extend::<T>(start, expected.take(1), m1, WriterCall::Flush);
            }
            return r;
        }
        let ghost cs = self@.subs;
        let ghost all = clauses_calls(cs);
        assert(cs.take(0) =~= Seq::<AndV>::empty());
        let mut i: usize = 0;
        while i < self.subclauses.len()
            invariant
                i <= self.subclauses.len(),
                self@.inv(),
                !self.truthy,
                cs == self@.subs,
                all == clauses_calls(cs),
                expected == or_calls(self@),
                start == old(encoder)@,
                drive::<T>(start, clauses_calls(cs.take(i as int))) == (encoder@, Ok::<(), EncodeError>(())),
            decreases self.subclauses.len() - i,
        {
            let ghost done = clauses_calls(cs.take(i as int));
            let ghost next = clauses_calls(cs.take(i + 1));
            proof {
                lemma_clauses_calls_step(cs, i as int);
                lemma_clauses_calls_take(cs, i + 1);
                assert(expected == all.push(WriterCall::Flush));
                assert(expected.take(next.len() as int) =~= next);
            }
            let ghost opened = done + clause_opening(i as int);
            if i > 0 {
                let ghost m = encoder@;
                let r1 = encoder.start_new_clause();
                proof {
                    assert(opened =~= done.push(WriterCall::NewClause));
                    lemma_drive_extend::<T>(start, done, m, WriterCall::NewClause);
                }
                if let Err(e) = r1 {
                    proof {
                        assert(expected.take(opened.len() as int) =~= opened);
                        lemma_drive_prefix_err::<T>(start, expected, opened.len() as int);
                    }
                    return Err(e);
                }
                proof {
                    lemma_unit_ok(r1);
                }
            } else {
                assert(opened =~= done);
            }
            let ghost mid = encoder@;
            let ghost ac = and_calls(cs[i as int]);
            let r2 = self.subclauses[i].encode(encoder);
            proof {
                assert(next =~= opened + ac);
                lemma_drive_append::<T>(start, opened, ac);
            }
            if let Err(e) = r2 {
                proof {
                    lemma_drive_prefix_err::<T>(start, expected, next.len() as int);
                }
                return Err(e);
            }
            proof {
                lemma_unit_ok(r2);
            }
            i = i + 1;
        }
        assert(cs.take(i as int) =~= cs);
        if self.subclauses.len() > 0 {
            let ghost m = encoder@;
            let r = encoder.flush();
            proof {
                lemma_drive_extend::<T>(start, all, m, WriterCall::Flush);
            }
            return r;
        }
        assert(expected =~= Seq::<WriterCall>::empty());
        Ok(())
    }
}

/// What `Rule::encode` returns with a factory: the factory's error, or what
/// driving the writer it makes with the rule's calls returns.
pub open spec fn encode_result<T: QueryWriterFactory<U>, U: QueryWriter>(factory: T, rule: RuleV) -> Result<(), EncodeError> {
    match factory.made(rule.operation, rule.table) {
        Err(e) => Err(e),
        Ok(m) => drive::<U>(m, or_calls(rule.clause)).1,
    }
}

impl Rule {
    /// Writes the rule to `writer`: see `OrClause::encode`.
    pub fn encode_to<T: QueryWriter>(&self, writer: &mut T) -> (r: Result<(), EncodeError>)
        requires
            self@.wf(),
        ensures
            (final(writer)@, r) == drive::<T>(old(writer)@, or_calls(self@.clause)),
    {
        self.clause().encode(writer)
    }

    /// Writes the rule to the writer that `factory` makes for the rule's
    /// operation and table; a factory's error is returned as it came.
    pub fn encode<T: QueryWriterFactory<U>, U: QueryWriter>(&self, factory: &T) -> (r: Result<(), EncodeError>)
        requires
            self@.wf(),
        ensures
            r == encode_result::<T, U>(*factory, self@),
    {
        let mut writer = match factory.create(self.operation(), self.table().as_str()) {
            Ok(w) => w,
            Err(e) => return Err(e),
        };
        self.encode_to(&mut writer)
    }
}

} // verus!
