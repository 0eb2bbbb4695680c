//! Properties of the simplifier and the encoder, proved over their models.
use vstd::prelude::*;
use crate::ast::{AtomV, ExprV, Operator};
use crate::clause::{and_empty, and_false, or_empty, or_true, scan, AndV, OrV, Scan};
use crate::grammar::{and_fold, build_and, build_or, or_fold};
use crate::writer::{
    and_calls, clause_opening, clauses_calls, lemma_clauses_calls_step, or_calls, statement_call,
    WriterCall,
};
use crate::bpf::{initial_writer, run, step, BpfQueryWriter, BpfQueryWriterFactory, BpfV};
use crate::writer::{drive, encode_result, lemma_unit_ok};
use crate::writer::QueryWriterFactory;
use crate::ast::Operation;
use crate::record::{empty_record, encode_or};
use crate::record::{
    encode_and, encode_rule, fold_clauses, fold_statements, lemma_fold_clauses_err, set_statement,
    EncodeError, RecordV,
};
use crate::rule::RuleV;
use crate::schema::{field_index, lemma_find_from, table_schema, FieldKind, FieldV, CLAUSE_LIMIT};
use vstd::utf8::encode_utf8;

verus! {

/// Conjoining a statement that an AND clause already holds changes nothing,
/// so the clause's text stays the same.
pub proof fn lemma_add_present_statement(c: AndV, e: ExprV)
    requires
        c.wf(),
        c.exprs.contains(e),
    ensures
        c.add(e) == c,
        c.add(e).text() == c.text(),
{
    let i = choose|i: int| 0 <= i < c.exprs.len() && c.exprs[i] == e;
    assert(crate::clause::is_statement(c.exprs[i]));
}

proof fn lemma_build_and_two(x: ExprV, y: ExprV)
    ensures
        build_and(seq![x, y]) == and_empty().add(x).add(y),
{
    let s = seq![x, y];
    assert(s.drop_last() =~= seq![x]);
    assert(seq![x].drop_last() =~= Seq::<ExprV>::empty());
    assert(and_fold(and_empty(), seq![x]) == and_fold(and_empty(), Seq::<ExprV>::empty()).add(x));
}

/// Two equalities on one field with different values cannot hold together:
/// their AND clause collapses to false.
pub proof fn lemma_two_equalities(f: Seq<char>, a: AtomV, b: AtomV)
    requires
        a != b,
    ensures
        build_and(
            seq![ExprV::Statement(f, Operator::Equal, a), ExprV::Statement(f, Operator::Equal, b)],
        ) == and_false(),
{
    let x = ExprV::Statement(f, Operator::Equal, a);
    let y = ExprV::Statement(f, Operator::Equal, b);
    lemma_build_and_two(x, y);
    let c = and_empty().add(x);
    assert(c.exprs =~= seq![x]);
    assert(c.exprs[0] == x);
    assert(!c.exprs.contains(y));
    assert(crate::clause::conflicts(c.exprs[0], y));
}

/// An equality and an inequality on one field with the same value cannot
/// hold together: their AND clause collapses to false.
pub proof fn lemma_equal_and_not_equal(f: Seq<char>, a: AtomV)
    ensures
        build_and(
            seq![ExprV::Statement(f, Operator::Equal, a), ExprV::Statement(f, Operator::NotEqual, a)],
        ) == and_false(),
{
    let x = ExprV::Statement(f, Operator::Equal, a);
    let y = ExprV::Statement(f, Operator::NotEqual, a);
    lemma_build_and_two(x, y);
    let c = and_empty().add(x);
    assert(c.exprs =~= seq![x]);
    assert(c.exprs[0] == x);
    assert(!c.exprs.contains(y));
    assert(crate::clause::conflicts(c.exprs[0], y));
}

/// An equality or an inequality on one field covers every value: their OR
/// clause collapses to true.
pub proof fn lemma_equal_or_not_equal(f: Seq<char>, a: AtomV, b: AtomV)
    ensures
        build_or(
            seq![
                seq![ExprV::Statement(f, Operator::Equal, a)],
                seq![ExprV::Statement(f, Operator::NotEqual, b)],
            ],
        ) == or_true(),
{
    let x = ExprV::Statement(f, Operator::Equal, a);
    let y = ExprV::Statement(f, Operator::NotEqual, b);
    let cl = seq![seq![x], seq![y]];
    let cx = build_and(seq![x]);
    let cy = build_and(seq![y]);
    assert(seq![x].drop_last() =~= Seq::<ExprV>::empty());
    assert(seq![y].drop_last() =~= Seq::<ExprV>::empty());
    assert(and_fold(and_empty(), seq![x]) == and_fold(and_empty(), Seq::<ExprV>::empty()).add(x));
    assert(and_fold(and_empty(), seq![y]) == and_fold(and_empty(), Seq::<ExprV>::empty()).add(y));
    assert(cx == and_empty().add(x));
    assert(cy == and_empty().add(y));
    assert(cx.exprs =~= seq![x]);
    assert(cy.exprs =~= seq![y]);
    let cs = cl.map_values(|es: Seq<ExprV>| build_and(es));
    assert(cs =~= seq![cx, cy]);
    assert(cs.drop_last() =~= seq![cx]);
    assert(seq![cx].drop_last() =~= Seq::<AndV>::empty());
    assert(or_fold(or_empty(), seq![cx]) == or_fold(or_empty(), Seq::<AndV>::empty()).add(cx));
    let o = or_empty().add(cx);
    assert(o.subs =~= seq![cx]);
    assert(!o.subs[0].contains(cy)) by {
        assert(!cx.exprs.contains(y));
        assert(cy.exprs[0] == y);
    }
    assert(!cy.contains(o.subs[0])) by {
        assert(!cy.exprs.contains(x));
        assert(cx.exprs[0] == x);
    }
    assert(scan(o.subs, cy, 0) == Scan::Covers);
}

/// Disjoining, to an OR clause of one AND clause, an AND clause that holds
/// the same statements in any order changes nothing.
pub proof fn lemma_or_add_reordered(a: AndV, b: AndV)
    requires
        a.wf(),
        b.wf(),
        !a.truthy,
        b.truthy == a.truthy,
        b.value == a.value,
        forall|e: ExprV| a.exprs.contains(e) <==> b.exprs.contains(e),
    ensures
        or_empty().add(a).add(b) == or_empty().add(a),
{
    let o = or_empty().add(a);
    assert(o.subs =~= seq![a]);
    assert(o.subs[0] == a);
    assert forall|i: int| 0 <= i < b.exprs.len() implies a.exprs.contains(#[trigger] b.exprs[i]) by {
        assert(b.exprs.contains(b.exprs[i]));
    }
    assert(a.contains(b));
    assert(scan(o.subs, b, 0) == Scan::Contained);
}


/// A statement that no record can take: its field is missing, or its string
/// does not fit the field's buffer with the terminating nul byte.
pub open spec fn unwritable(fields: Seq<FieldV>, e: ExprV) -> bool {
    match e {
        ExprV::Statement(f, _, a) => match field_index(fields, f) {
            None => true,
            Some(k) => match (fields[k as int].kind, a) {
                (FieldKind::String(n), AtomV::Str(t)) => encode_utf8(t).len() >= n,
                _ => false,
            },
        },
        ExprV::Boolean(_) => false,
    }
}

proof fn lemma_unwritable_statement(fields: Seq<FieldV>, r: RecordV, e: ExprV)
    requires
        unwritable(fields, e),
    ensures
        e matches ExprV::Statement(f, op, a) && set_statement(fields, r, f, op, a) is Err,
{
}

proof fn lemma_fold_statements_fails(fields: Seq<FieldV>, r: RecordV, es: Seq<ExprV>, j: int)
    requires
        0 <= j < es.len(),
        unwritable(fields, es[j]),
    ensures
        fold_statements(fields, r, es) is Err,
    decreases es.len(),
{
    if j == es.len() - 1 {
        if let Ok(prev) = fold_statements(fields, r, es.drop_last()) {
            lemma_unwritable_statement(fields, prev, es.last());
        }
    } else {
        assert(es.drop_last()[j] == es[j]);
        lemma_fold_statements_fails(fields, r, es.drop_last(), j);
    }
}

proof fn lemma_fold_clauses_fails(fields: Seq<FieldV>, limit: nat, cs: Seq<AndV>, i: int)
    requires
        0 <= i < cs.len(),
        encode_and(fields, cs[i]) is Err,
    ensures
        fold_clauses(fields, limit, cs) is Err,
    decreases cs.len(),
{
    if i < cs.len() - 1 {
        assert(cs.drop_last()[i] == cs[i]);
        lemma_fold_clauses_fails(fields, limit, cs.drop_last(), i);
    }
}

/// A rule with a statement that its table cannot take fails to encode: the
/// statement names a field that the table lacks, or compares a string field
/// with a string that does not fit the field's buffer with its nul byte.
pub proof fn lemma_unwritable_statement_fails(r: RuleV, i: int, j: int)
    requires
        r.wf(),
        table_schema(r.table) is Some,
        0 <= i < r.clause.subs.len(),
        0 <= j < r.clause.subs[i].exprs.len(),
        unwritable(table_schema(r.table)->0, r.clause.subs[i].exprs[j]),
    ensures
        encode_rule(r) is Err,
{
    let fields = table_schema(r.table)->0;
    let c = r.clause.subs[i];
    assert(c.wf() && !c.truthy);
    lemma_fold_statements_fails(fields, crate::record::empty_record(fields), c.exprs, j);
    lemma_fold_clauses_fails(fields, CLAUSE_LIMIT as nat, r.clause.subs, i);
}

proof fn lemma_fold_clauses_ok(fields: Seq<FieldV>, limit: nat, cs: Seq<AndV>, k: int)
    requires
        0 <= k <= limit,
        k <= cs.len(),
        forall|i: int| 0 <= i < k ==> (#[trigger] encode_and(fields, cs[i])) is Ok,
    ensures
        fold_clauses(fields, limit, cs.take(k)) matches Ok(rs) && rs.len() == k,
    decreases k,
{
    if k > 0 {
        lemma_fold_clauses_ok(fields, limit, cs, k - 1);
        assert(cs.take(k).drop_last() =~= cs.take(k - 1));
        assert(cs.take(k).last() == cs[k - 1]);
        assert(encode_and(fields, cs[k - 1]) is Ok);
    } else {
        assert(cs.take(0) =~= Seq::<AndV>::empty());
    }
}

/// A rule with more AND clauses than its table holds fails with
/// `TooManyClauses`, where each of its first `CLAUSE_LIMIT` clauses encodes.
pub proof fn lemma_too_many_clauses(r: RuleV)
    requires
        r.wf(),
        table_schema(r.table) is Some,
        r.clause.subs.len() > CLAUSE_LIMIT,
        forall|i: int|
            0 <= i < CLAUSE_LIMIT ==> (#[trigger] encode_and(table_schema(r.table)->0, r.clause.subs[i])) is Ok,
    ensures
        encode_rule(r) == Err::<Seq<RecordV>, EncodeError>(EncodeError::TooManyClauses),
{
    let fields = table_schema(r.table)->0;
    let cs = r.clause.subs;
    let limit = CLAUSE_LIMIT as nat;
    let k = CLAUSE_LIMIT as int;
    assert(!r.clause.truthy);
    lemma_fold_clauses_ok(fields, limit, cs, k);
    assert(cs.take(k + 1).drop_last() =~= cs.take(k));
    assert(fold_clauses(fields, limit, cs.take(k + 1)) == Err::<Seq<RecordV>, EncodeError>(
        EncodeError::TooManyClauses,
    ));
    lemma_fold_clauses_err(fields, limit, cs, k + 1);
}


/// A statement that a record can take where its field is not yet set: the
/// field exists, and the atom is of its kind and fits it.
pub open spec fn writable(fields: Seq<FieldV>, e: ExprV) -> bool {
    match e {
        ExprV::Statement(f, _, a) => match field_index(fields, f) {
            None => false,
            Some(k) => match (fields[k as int].kind, a) {
                (FieldKind::Number(max), AtomV::Num(v)) => v <= max,
                (FieldKind::String(n), AtomV::Str(t)) => encode_utf8(t).len() < n,
                _ => false,
            },
        },
        ExprV::Boolean(_) => false,
    }
}

/// Two of the statements name the same field.
pub open spec fn repeats_field(es: Seq<ExprV>) -> bool {
    exists|i: int, j: int|
        0 <= i < j < es.len() && crate::clause::field_of(#[trigger] es[i]) == crate::clause::field_of(
            #[trigger] es[j],
        )
}

proof fn lemma_fold_distinct(fields: Seq<FieldV>, r0: RecordV, es: Seq<ExprV>)
    requires
        r0.slots.len() == fields.len(),
        forall|k: int| 0 <= k < fields.len() ==> (#[trigger] r0.slots[k]).operator == 0,
        forall|j: int| 0 <= j < es.len() ==> writable(fields, #[trigger] es[j]),
        !repeats_field(es),
    ensures
        fold_statements(fields, r0, es) matches Ok(r) && r.slots.len() == fields.len() && forall|
            j: int,
        |
            0 <= j < es.len() ==> r.slots[field_index(
                fields,
                crate::clause::field_of(#[trigger] es[j]),
            )->0 as int].operator != 0,
        fold_statements(fields, r0, es) matches Ok(r) && forall|k: int|
            0 <= k < fields.len() && (#[trigger] r.slots[k]).operator != 0 ==> exists|j: int|
                0 <= j < es.len() && field_index(fields, crate::clause::field_of(es[j])) == Some(
                    k as nat,
                ),
    decreases es.len(),
{
    if es.len() > 0 {
        let d = es.drop_last();
        assert forall|j: int| 0 <= j < d.len() implies writable(fields, #[trigger] d[j]) by {
            assert(d[j] == es[j]);
        }
        assert(!repeats_field(d)) by {
            if repeats_field(d) {
                let (i, j) = choose|i: int, j: int|
                    0 <= i < j < d.len() && crate::clause::field_of(#[trigger] d[i])
                        == crate::clause::field_of(#[trigger] d[j]);
                assert(d[i] == es[i] && d[j] == es[j]);
            }
        }
        lemma_fold_distinct(fields, r0, d);
        let prev = fold_statements(fields, r0, d)->Ok_0;
        let e = es.last();
        assert(writable(fields, es[es.len() - 1]));
        let f = crate::clause::field_of(e);
        let k = field_index(fields, f)->0;
        lemma_find_from(fields, f, 0);
        assert(prev.slots[k as int].operator == 0) by {
            if prev.slots[k as int].operator != 0 {
                let j = choose|j: int|
                    0 <= j < d.len() && field_index(fields, crate::clause::field_of(d[j])) == Some(k);
                lemma_find_from(fields, crate::clause::field_of(d[j]), 0);
                assert(d[j] == es[j]);
                assert(crate::clause::field_of(es[j]) == crate::clause::field_of(es[es.len() - 1]));
            }
        }
        let r = fold_statements(fields, r0, es)->Ok_0;
        assert forall|j: int| 0 <= j < es.len() implies r.slots[field_index(
            fields,
            crate::clause::field_of(#[trigger] es[j]),
        )->0 as int].operator != 0 by {
            if j < es.len() - 1 {
                assert(d[j] == es[j]);
                let kj = field_index(fields, crate::clause::field_of(es[j]))->0;
                assert(writable(fields, es[j]));
                lemma_find_from(fields, crate::clause::field_of(es[j]), 0);
                assert(prev.slots[kj as int].operator != 0);
            }
        }
        assert forall|m: int| 0 <= m < fields.len() && (#[trigger] r.slots[m]).operator != 0 implies exists|j: int|
            0 <= j < es.len() && field_index(fields, crate::clause::field_of(es[j])) == Some(
                m as nat,
            ) by {
            if m == k {
                assert(field_index(fields, crate::clause::field_of(es[es.len() - 1])) == Some(m as nat));
            } else {
                assert(prev.slots[m].operator != 0);
                let j = choose|j: int|
                    0 <= j < d.len() && field_index(fields, crate::clause::field_of(d[j])) == Some(m as nat);
                assert(d[j] == es[j]);
            }
        }
    }
}

proof fn lemma_fold_repeated(fields: Seq<FieldV>, r0: RecordV, es: Seq<ExprV>)
    requires
        r0.slots.len() == fields.len(),
        forall|k: int| 0 <= k < fields.len() ==> (#[trigger] r0.slots[k]).operator == 0,
        forall|j: int| 0 <= j < es.len() ==> writable(fields, #[trigger] es[j]),
        repeats_field(es),
    ensures
        fold_statements(fields, r0, es) == Err::<RecordV, EncodeError>(EncodeError::DuplicateField),
    decreases es.len(),
{
    let d = es.drop_last();
    assert forall|j: int| 0 <= j < d.len() implies writable(fields, #[trigger] d[j]) by {
        assert(d[j] == es[j]);
    }
    if repeats_field(d) {
        lemma_fold_repeated(fields, r0, d);
    } else {
        let (i, j) = choose|i: int, j: int|
            0 <= i < j < es.len() && crate::clause::field_of(#[trigger] es[i])
                == crate::clause::field_of(#[trigger] es[j]);
        if j < es.len() - 1 {
            assert(d[i] == es[i] && d[j] == es[j]);
            assert(repeats_field(d));
        }
        lemma_fold_distinct(fields, r0, d);
        let prev = fold_statements(fields, r0, d)->Ok_0;
        assert(d[i] == es[i]);
        assert(writable(fields, d[i]));
        assert(writable(fields, es[es.len() - 1]));
        let f = crate::clause::field_of(es[i]);
        lemma_find_from(fields, f, 0);
        assert(prev.slots[field_index(fields, f)->0 as int].operator != 0);
    }
}

/// An AND clause whose statements a record can each take, two of which
/// name the same field, fails with `DuplicateField`; so does a rule of that
/// one clause.
pub proof fn lemma_duplicate_field(r: RuleV)
    requires
        r.wf(),
        table_schema(r.table) is Some,
        r.clause.subs.len() == 1,
        forall|j: int|
            0 <= j < r.clause.subs[0].exprs.len() ==> writable(
                table_schema(r.table)->0,
                #[trigger] r.clause.subs[0].exprs[j],
            ),
        repeats_field(r.clause.subs[0].exprs),
    ensures
        encode_and(table_schema(r.table)->0, r.clause.subs[0]) == Err::<RecordV, EncodeError>(
            EncodeError::DuplicateField,
        ),
        encode_rule(r) == Err::<Seq<RecordV>, EncodeError>(EncodeError::DuplicateField),
{
    let fields = table_schema(r.table)->0;
    let c = r.clause.subs[0];
    assert(c.wf() && !c.truthy);
    let r0 = crate::record::empty_record(fields);
    lemma_fold_repeated(fields, r0, c.exprs);
    assert(!r.clause.truthy);
    assert(r.clause.subs.drop_last() =~= Seq::<AndV>::empty());
    assert(r.clause.subs.last() == c);
    assert(fold_clauses(fields, CLAUSE_LIMIT as nat, r.clause.subs.drop_last()) == Ok::<
        Seq<RecordV>,
        EncodeError,
    >(Seq::empty()));
}


proof fn lemma_no_flush_in_clauses(cs: Seq<AndV>)
    ensures
        forall|i: int| 0 <= i < clauses_calls(cs).len() ==> #[trigger] clauses_calls(cs)[i] != WriterCall::Flush,
    decreases cs.len(),
{
    if cs.len() > 0 {
        lemma_no_flush_in_clauses(cs.drop_last());
        let p = clauses_calls(cs.drop_last());
        let a = crate::writer::and_calls(cs.last());
        assert forall|i: int| 0 <= i < a.len() implies #[trigger] a[i] != WriterCall::Flush by {
            assert(a[i] == crate::writer::statement_call(cs.last().exprs[i]));
        }
        let x = p + seq![WriterCall::NewClause] + a;
        assert forall|i: int| 0 <= i < x.len() implies #[trigger] x[i] != WriterCall::Flush by {
            if i < p.len() {
                assert(x[i] == p[i]);
            } else if i == p.len() {
                assert(x[i] == WriterCall::NewClause);
            } else {
                assert(x[i] == a[i - p.len() - 1]);
            }
        }
    }
}

/// Writing a rule flushes its writer exactly once, as the last call.
pub proof fn lemma_single_flush(c: OrV)
    requires
        c.wf(),
    ensures
        or_calls(c).len() > 0,
        or_calls(c).last() == WriterCall::Flush,
        forall|i: int| 0 <= i < or_calls(c).len() - 1 ==> #[trigger] or_calls(c)[i] != WriterCall::Flush,
{
    if !c.truthy {
        lemma_no_flush_in_clauses(c.subs);
    }
}


proof fn lemma_run_append(w: BpfV, a: Seq<WriterCall>, b: Seq<WriterCall>)
    ensures
        run(w, a + b) == (match run(w, a) {
            Ok(v) => run(v, b),
            Err(e) => Err(e),
        }),
    decreases b.len(),
{
    if b.len() == 0 {
        assert(a + b =~= a);
    } else {
        assert((a + b).drop_last() =~= a + b.drop_last());
        assert((a + b).last() == b.last());
        lemma_run_append(w, a, b.drop_last());
    }
}

proof fn lemma_run_one(w: BpfV, x: WriterCall)
    ensures
        run(w, seq![x]) == step(w, x),
{
    assert(seq![x].drop_last() =~= Seq::<WriterCall>::empty());
    assert(run(w, Seq::<WriterCall>::empty()) == Ok::<BpfV, EncodeError>(w));
    assert(seq![x].last() == x);
}

/// The writer parts that the encoding of statements reads and changes.
pub open spec fn same_frame(v: BpfV, w: BpfV) -> bool {
    &&& v.fields == w.fields
    &&& v.limit == w.limit
    &&& v.records == w.records
    &&& v.flushed == w.flushed
    &&& v.flushes == w.flushes
}

proof fn lemma_run_statements(w: BpfV, es: Seq<ExprV>)
    requires
        w.open,
        forall|i: int| 0 <= i < es.len() ==> crate::clause::is_statement(#[trigger] es[i]),
    ensures
        match fold_statements(w.fields, w.current, es) {
            Ok(r) => run(w, es.map_values(|e: ExprV| statement_call(e))) matches Ok(v) && v.open
                && v.current == r && same_frame(v, w),
            Err(e) => run(w, es.map_values(|e: ExprV| statement_call(e))) == Err::<BpfV, EncodeError>(e),
        },
    decreases es.len(),
{
    let calls = es.map_values(|e: ExprV| statement_call(e));
    if es.len() == 0 {
        assert(calls =~= Seq::<WriterCall>::empty());
    } else {
        let d = es.drop_last();
        assert forall|i: int| 0 <= i < d.len() implies crate::clause::is_statement(#[trigger] d[i]) by {
            assert(d[i] == es[i]);
        }
        lemma_run_statements(w, d);
        assert(calls.drop_last() =~= d.map_values(|e: ExprV| statement_call(e)));
        assert(calls.last() == statement_call(es.last()));
        assert(crate::clause::is_statement(es[es.len() - 1]));
    }
}

/// Where a clause's first statement opens the record, the writer goes on as
/// if the record had been opened empty.
proof fn lemma_run_opening(w: BpfV, calls: Seq<WriterCall>)
    requires
        !w.open,
        w.records.len() < w.limit,
        calls.len() > 0,
        calls[0] is Statement,
    ensures
        run(w, calls) == run(BpfV { open: true, current: empty_record(w.fields), ..w }, calls),
{
    let w2 = BpfV { open: true, current: empty_record(w.fields), ..w };
    let rest = calls.subrange(1, calls.len() as int);
    assert(calls =~= seq![calls[0]] + rest);
    lemma_run_append(w, seq![calls[0]], rest);
    lemma_run_append(w2, seq![calls[0]], rest);
    lemma_run_one(w, calls[0]);
    lemma_run_one(w2, calls[0]);
    assert(step(w, calls[0]) == step(w2, calls[0]));
}

/// After the calls of the first `k` AND clauses, the writer holds the
/// records of all but the last as completed and the last's as open, or has
/// failed as encoding them fails.
proof fn lemma_run_clauses(w0: BpfV, cs: Seq<AndV>, k: int)
    requires
        1 <= k <= cs.len(),
        !w0.open,
        w0.records.len() == 0,
        w0.limit > 0,
        forall|i: int| 0 <= i < cs.len() ==> (#[trigger] cs[i]).wf() && !cs[i].truthy,
    ensures
        match fold_clauses(w0.fields, w0.limit, cs.take(k)) {
            Ok(rs) => run(w0, clauses_calls(cs.take(k))) matches Ok(v) && rs.len() == k && v.open
                && v.current == rs.last() && v.records == rs.drop_last() && v.fields == w0.fields
                && v.limit == w0.limit && v.flushed == w0.flushed && v.flushes == w0.flushes,
            Err(e) => run(w0, clauses_calls(cs.take(k))) == Err::<BpfV, EncodeError>(e),
        },
    decreases k,
{
    let fields = w0.fields;
    let limit = w0.limit;
    let c = cs[k - 1];
    let es = c.exprs;
    assert(c.wf() && !c.truthy);
    assert forall|i: int| 0 <= i < es.len() implies crate::clause::is_statement(#[trigger] es[i]) by {}
    let sc = and_calls(c);
    assert(sc == es.map_values(|e: ExprV| statement_call(e)));
    lemma_clauses_calls_step(cs, k - 1);
    assert(cs.take(k).drop_last() =~= cs.take(k - 1));
    assert(cs.take(k).last() == c);
    if k == 1 {
        assert(cs.take(0) =~= Seq::<AndV>::empty());
        assert(clauses_calls(cs.take(1)) =~= sc);
        let w1 = BpfV { open: true, current: empty_record(fields), ..w0 };
        assert(sc[0] == statement_call(es[0]));
        assert(crate::clause::is_statement(es[0]));
        lemma_run_opening(w0, sc);
        lemma_run_statements(w1, es);
        if let Ok(rs) = fold_clauses(fields, limit, cs.take(1)) {
            assert(rs.drop_last() =~= Seq::<crate::record::RecordV>::empty());
        }
    } else {
        lemma_run_clauses(w0, cs, k - 1);
        let prefix = clauses_calls(cs.take(k - 1));
        let tail = seq![WriterCall::NewClause] + sc;
        assert(clause_opening(k - 1) == seq![WriterCall::NewClause]);
        assert(clauses_calls(cs.take(k)) =~= prefix + tail);
        lemma_run_append(w0, prefix, tail);
        match fold_clauses(fields, limit, cs.take(k - 1)) {
            Err(e) => {},
            Ok(rs) => {
                let v = run(w0, prefix)->Ok_0;
                lemma_run_append(v, seq![WriterCall::NewClause], sc);
                lemma_run_one(v, WriterCall::NewClause);
                assert(v.count() == rs.len());
                if rs.len() < limit {
                    let v2 = v.start_new_clause()->Ok_0;
                    assert(v2.records =~= rs);
                    lemma_run_statements(v2, es);
                    if let Ok(r) = fold_statements(fields, empty_record(fields), es) {
                        assert(rs.push(r).drop_last() =~= rs);
                    }
                }
            },
        }
    }
}

/// Driving a writer that holds no records with the calls that write an OR
/// clause flushes exactly the records that encoding the clause gives, or
/// fails with the error that encoding the clause gives.
pub proof fn lemma_writer_matches_encoder(w0: BpfV, c: OrV)
    requires
        c.wf(),
        !w0.open,
        w0.records.len() == 0,
        w0.limit > 0,
    ensures
        match encode_or(w0.fields, w0.limit, c) {
            Ok(rs) => run(w0, or_calls(c)) matches Ok(w) && w.flushed == w0.flushed + rs
                && w.records.len() == 0 && w.flushes == (if w0.flushes < usize::MAX {
                w0.flushes + 1
            } else {
                w0.flushes
            }),
            Err(e) => run(w0, or_calls(c)) == Err::<BpfV, EncodeError>(e),
        },
{
    if c.truthy {
        let calls = or_calls(c);
        assert(calls.drop_last() =~= seq![WriterCall::Absolute(c.value)]);
        lemma_run_one(w0, WriterCall::Absolute(c.value));
        let w1 = w0.write_absolute(c.value)->Ok_0;
        assert(w1.records =~= seq![crate::record::absolute_record(w0.fields, c.value)]);
    } else {
        let cs = c.subs;
        assert(cs.take(cs.len() as int) =~= cs);
        lemma_run_clauses(w0, cs, cs.len() as int);
        let calls = or_calls(c);
        assert(calls.drop_last() =~= clauses_calls(cs));
        if let Ok(rs) = encode_or(w0.fields, w0.limit, c) {
            assert(rs.drop_last().push(rs.last()) =~= rs);
        }
    }
}


/// A writer made for a rule's table, driven with the calls that write the
/// rule, flushes exactly the rule's records, or fails with the error that
/// encoding the rule gives.
pub proof fn lemma_rule_writer_matches_records(r: RuleV, w0: BpfV)
    requires
        r.wf(),
        table_schema(r.table) == Some(w0.fields),
        w0.limit == CLAUSE_LIMIT,
        !w0.open,
        w0.records.len() == 0,
        w0.flushed.len() == 0,
    ensures
        match encode_rule(r) {
            Ok(rs) => run(w0, or_calls(r.clause)) matches Ok(w) && w.flushed == rs && w.flushes == (
            if w0.flushes < usize::MAX {
                w0.flushes + 1
            } else {
                w0.flushes
            }),
            Err(e) => run(w0, or_calls(r.clause)) == Err::<BpfV, EncodeError>(e),
        },
{
    lemma_writer_matches_encoder(w0, r.clause);
    if let Ok(rs) = encode_rule(r) {
        assert(w0.flushed + rs =~= rs);
    }
}


proof fn lemma_step_wf(m: BpfV, c: WriterCall)
    requires
        m.wf(),
    ensures
        step(m, c) matches Ok(n) ==> n.wf(),
{
    match c {
        WriterCall::Statement(f, o, a) => {
            let base = if m.open {
                m.current
            } else {
                empty_record(m.fields)
            };
            assert(base.slots.len() == m.fields.len());
            lemma_find_from(m.fields, f, 0);
            if let Ok(r) = set_statement(m.fields, base, f, o, a) {
                assert(r.slots.len() == base.slots.len());
            }
        },
        _ => {},
    }
}

/// Driving the writer's model with calls is running its steps up to the
/// first that fails.
pub proof fn lemma_drive_run(m: BpfV, cs: Seq<WriterCall>)
    requires
        m.wf(),
    ensures
        drive::<BpfQueryWriter>(m, cs).1 == (match run(m, cs) {
            Ok(_) => Ok::<(), EncodeError>(()),
            Err(e) => Err(e),
        }),
        run(m, cs) matches Ok(v) ==> drive::<BpfQueryWriter>(m, cs).0 == v,
    decreases cs.len(),
{
    if cs.len() > 0 {
        let c = cs[0];
        let rest = cs.drop_first();
        assert(cs =~= seq![c] + rest);
        lemma_run_append(m, seq![c], rest);
        lemma_run_one(m, c);
        lemma_step_wf(m, c);
        if let Ok(n) = step(m, c) {
            lemma_drive_run(n, rest);
        }
    }
}

/// A fresh writer for a rule's table, driven with the calls that write the
/// rule, ends having flushed once, and exactly the rule's records; or it
/// fails with the error that encoding the rule gives.
pub proof fn lemma_writer_encodes_rule(r: RuleV, operation: Operation)
    requires
        r.wf(),
        table_schema(r.table) is Some,
    ensures
        match encode_rule(r) {
            Ok(rs) => drive::<BpfQueryWriter>(
                initial_writer(r.table, operation, table_schema(r.table)->0),
                or_calls(r.clause),
            ).1 is Ok && drive::<BpfQueryWriter>(
                initial_writer(r.table, operation, table_schema(r.table)->0),
                or_calls(r.clause),
            ).0.flushed == rs && drive::<BpfQueryWriter>(
                initial_writer(r.table, operation, table_schema(r.table)->0),
                or_calls(r.clause),
            ).0.flushes == 1,
            Err(e) => drive::<BpfQueryWriter>(
                initial_writer(r.table, operation, table_schema(r.table)->0),
                or_calls(r.clause),
            ).1 == Err::<(), EncodeError>(e),
        },
{
    let fields = table_schema(r.table)->0;
    let w0 = initial_writer(r.table, operation, fields);
    assert(w0.wf());
    lemma_rule_writer_matches_records(r, w0);
    lemma_drive_run(w0, or_calls(r.clause));
}

/// `Rule::encode` with `BpfQueryWriterFactory` returns `Ok` exactly where
/// the rule has records for its table, and otherwise the error that
/// encoding the rule gives.
pub proof fn lemma_factory_encode(f: BpfQueryWriterFactory, r: RuleV)
    requires
        r.wf(),
    ensures
        encode_result::<BpfQueryWriterFactory, BpfQueryWriter>(f, r) == (match encode_rule(r) {
            Ok(_) => Ok::<(), EncodeError>(()),
            Err(e) => Err(e),
        }),
{
    let fields = table_schema(r.table);
    if let Some(fs) = fields {
        assert(f.made(r.operation, r.table) == Ok::<BpfV, EncodeError>(
            initial_writer(r.table, r.operation, fs),
        ));
        lemma_writer_encodes_rule(r, r.operation);
        let d = drive::<BpfQueryWriter>(initial_writer(r.table, r.operation, fs), or_calls(r.clause));
        if d.1 is Ok {
            lemma_unit_ok(d.1);
        }
    } else {
        assert(f.made(r.operation, r.table) == Err::<BpfV, EncodeError>(EncodeError::UnknownTable));
    }
}

} // verus!
