//! Encoding of clauses into fixed-layout predicate records.
use vstd::prelude::*;
use vstd::utf8::encode_utf8;
use crate::ast::{operator_byte, Atom, AtomV, ExprV, Expression, Operator};
use crate::clause::{AndClause, AndV, OrV};
use crate::rule::{Rule, RuleV};
use crate::schema::{
    field_index, find_field, lemma_find_from, schema_for, schema_view, table_schema, FieldKind, FieldV,
    SchemaField, CLAUSE_LIMIT,
};

verus! {

/// Why a rule cannot be encoded for the kernel-side filter tables.
#[derive(Debug, Clone, Copy, PartialEq, Eq, Structural)]
pub enum EncodeError {
    /// The rule's table is not one of the event tables.
    UnknownTable,
    /// A statement names a field that the table does not have.
    UnknownField,
    /// A number is compared with a string field, or a string with a number field.
    TypeMismatch,
    /// A number does not fit its field.
    RangeError,
    /// A string does not fit its field's buffer with its terminating nul byte.
    TooLong,
    /// One AND clause constrains a field twice.
    DuplicateField,
    /// The rule has more AND clauses than the table holds.
    TooManyClauses,
    /// What was to be written is malformed: a constant stands among the
    /// statements of an AND clause, or a record lacks a slot for a field.
    InvalidClause,
}

/// One field of a record: its operator byte (0 when unset) and its value.
/// A number field keeps its value in `number`; a string field keeps its
/// nul-padded buffer in `text`.
#[derive(Debug, Clone)]
pub struct FieldSlot {
    pub operator: u8,
    pub number: u64,
    pub text: Vec<u8>,
}

pub struct SlotV {
    pub operator: u8,
    pub number: u64,
    pub text: Seq<u8>,
}

impl View for FieldSlot {
    type V = SlotV;

    open spec fn view(&self) -> SlotV {
        SlotV { operator: self.operator, number: self.number, text: self.text@ }
    }
}

/// A predicate record: an absolute marker (0 unset, 1 true, 2 false) and one
/// slot for each field of the table, in the table's order.
#[derive(Debug, Clone)]
pub struct QueryRecord {
    pub absolute: u8,
    pub slots: Vec<FieldSlot>,
}

pub struct RecordV {
    pub absolute: u8,
    pub slots: Seq<SlotV>,
}

impl View for QueryRecord {
    type V = RecordV;

    open spec fn view(&self) -> RecordV {
        RecordV { absolute: self.absolute, slots: self.slots@.map_values(|s: FieldSlot| s@) }
    }
}

pub open spec fn zeros(n: nat) -> Seq<u8> {
    Seq::new(n, |i: int| 0u8)
}

pub open spec fn empty_slot(k: FieldKind) -> SlotV {
    SlotV {
        operator: 0,
        number: 0,
        text: match k {
            FieldKind::Number(_) => Seq::empty(),
            FieldKind::String(n) => zeros(n as nat),
        },
    }
}

/// The record with no field set and no absolute marker.
pub open spec fn empty_record(fields: Seq<FieldV>) -> RecordV {
    RecordV { absolute: 0, slots: fields.map_values(|f: FieldV| empty_slot(f.kind)) }
}

pub open spec fn absolute_byte(value: bool) -> u8 {
    if value {
        1
    } else {
        2
    }
}

/// The record that holds only an absolute marker.
pub open spec fn absolute_record(fields: Seq<FieldV>, value: bool) -> RecordV {
    RecordV { absolute: absolute_byte(value), ..empty_record(fields) }
}

/// The record after the statement `f op a` is written into it.
pub open spec fn set_statement(fields: Seq<FieldV>, r: RecordV, f: Seq<char>, op: Operator, a: AtomV) -> Result<RecordV, EncodeError> {
    match field_index(fields, f) {
        None => Err(EncodeError::UnknownField),
        Some(i) => {
            let slot = r.slots[i as int];
            match (fields[i as int].kind, a) {
                (FieldKind::Number(max), AtomV::Num(v)) => if slot.operator != 0 {
                    Err(EncodeError::DuplicateField)
                } else if v > max {
                    Err(EncodeError::RangeError)
                } else {
                    Ok(RecordV {
                        slots: r.slots.update(i as int, SlotV { operator: operator_byte(op), number: v, ..slot }),
                        ..r
                    })
                },
                (FieldKind::String(n), AtomV::Str(t)) => if slot.operator != 0 {
                    Err(EncodeError::DuplicateField)
                } else if encode_utf8(t).len() >= n {
                    Err(EncodeError::TooLong)
                } else {
                    Ok(RecordV {
                        slots: r.slots.update(i as int, SlotV {
                            operator: operator_byte(op),
                            text: encode_utf8(t) + zeros((n - encode_utf8(t).len()) as nat),
                            ..slot
                        }),
                        ..r
                    })
                },
                _ => Err(EncodeError::TypeMismatch),
            }
        },
    }
}

/// The record after each statement of `es` is written into `r`, first to last.
pub open spec fn fold_statements(fields: Seq<FieldV>, r: RecordV, es: Seq<ExprV>) -> Result<RecordV, EncodeError>
    decreases es.len(),
{
    if es.len() == 0 {
        Ok(r)
    } else {
        match fold_statements(fields, r, es.drop_last()) {
            Err(e) => Err(e),
            Ok(prev) => match es.last() {
                ExprV::Statement(f, op, a) => set_statement(fields, prev, f, op, a),
                ExprV::Boolean(_) => Err(EncodeError::InvalidClause),
            },
        }
    }
}

/// The record of an AND clause.
pub open spec fn encode_and(fields: Seq<FieldV>, c: AndV) -> Result<RecordV, EncodeError> {
    if c.truthy {
        Ok(absolute_record(fields, c.value))
    } else {
        fold_statements(fields, empty_record(fields), c.exprs)
    }
}

/// The records of a list of AND clauses, one each, failing at the first
/// clause beyond `limit`.
pub open spec fn fold_clauses(fields: Seq<FieldV>, limit: nat, cs: Seq<AndV>) -> Result<Seq<RecordV>, EncodeError>
    decreases cs.len(),
{
    if cs.len() == 0 {
        Ok(Seq::empty())
    } else {
        match fold_clauses(fields, limit, cs.drop_last()) {
            Err(e) => Err(e),
            Ok(rs) => if rs.len() >= limit {
                Err(EncodeError::TooManyClauses)
            } else {
                match encode_and(fields, cs.last()) {
                    Err(e) => Err(e),
                    Ok(r) => Ok(rs.push(r)),
                }
            },
        }
    }
}

/// The records of an OR clause: one absolute record where it collapsed,
/// else one record for each AND clause.
pub open spec fn encode_or(fields: Seq<FieldV>, limit: nat, c: OrV) -> Result<Seq<RecordV>, EncodeError> {
    if c.truthy {
        Ok(seq![absolute_record(fields, c.value)])
    } else {
        fold_clauses(fields, limit, c.subs)
    }
}

/// The records of a rule for its table, or why there are none.
pub open spec fn encode_rule(r: RuleV) -> Result<Seq<RecordV>, EncodeError> {
    match table_schema(r.table) {
        None => Err(EncodeError::UnknownTable),
        Some(fields) => encode_or(fields, CLAUSE_LIMIT as nat, r.clause),
    }
}

pub open spec fn records_view(rs: Seq<QueryRecord>) -> Seq<RecordV> {
    rs.map_values(|r: QueryRecord| r@)
}

pub open spec fn slots_view(ss: Seq<FieldSlot>) -> Seq<SlotV> {
    ss.map_values(|s: FieldSlot| s@)
}

fn zero_bytes(n: usize) -> (r: Vec<u8>)
    ensures
        r@ == zeros(n as nat),
{
    let mut v: Vec<u8> = Vec::new();
    while v.len() < n
        invariant
            v.len() <= n,
            v@ == zeros(v.len() as nat),
        decreases n - v.len(),
    {
        v.push(0);
        assert(v@ =~= zeros(v.len() as nat));
    }
    v
}

impl FieldSlot {
    /// A copy of the slot.
    pub fn clone_slot(&self) -> (r: FieldSlot)
        ensures
            r@ == self@,
    {
        FieldSlot { operator: self.operator, number: self.number, text: copy_bytes(&self.text) }
    }
}

impl QueryRecord {
    /// A copy of the record.
    pub fn clone_record(&self) -> (r: QueryRecord)
        ensures
            r@ == self@,
    {
        let mut slots: Vec<FieldSlot> = Vec::new();
        let mut i: usize = 0;
        while i < self.slots.len()
            invariant
                i <= self.slots.len(),
                slots.len() == i,
                forall|j: int| 0 <= j < i ==> (#[trigger] slots@[j])@ == self.slots@[j]@,
            decreases self.slots.len() - i,
        {
            slots.push(self.slots[i].clone_slot());
            i = i + 1;
        }
        let r = QueryRecord { absolute: self.absolute, slots };
        assert(r@.slots =~= self@.slots);
        r
    }

    /// The record of `fields` with nothing set.
    pub fn empty(fields: &Vec<SchemaField>) -> (r: QueryRecord)
        ensures
            r@ == empty_record(schema_view(fields@)),
    {
        let mut slots: Vec<FieldSlot> = Vec::new();
        let mut i: usize = 0;
        while i < fields.len()
            invariant
                i <= fields.len(),
                slots.len() == i,
                forall|j: int| 0 <= j < i ==> (#[trigger] slots@[j])@ == empty_slot(fields@[j].kind),
            decreases fields.len() - i,
        {
            let text = match fields[i].kind {
                FieldKind::Number(_) => Vec::new(),
                FieldKind::String(n) => zero_bytes(n),
            };
            slots.push(FieldSlot { operator: 0, number: 0, text });
            proof {
                assert(slots@[i as int]@.text =~= empty_slot(fields@[i as int].kind).text);
            }
            i = i + 1;
        }
        let r = QueryRecord { absolute: 0, slots };
        assert(r@.slots =~= empty_record(schema_view(fields@)).slots);
        r
    }

    /// The record of `fields` that holds only the absolute marker of `value`.
    pub fn absolute(fields: &Vec<SchemaField>, value: bool) -> (r: QueryRecord)
        ensures
            r@ == absolute_record(schema_view(fields@), value),
    {
        let mut r = QueryRecord::empty(fields);
        r.absolute = if value {
            1
        } else {
            2
        };
        r
    }

    /// Writes the statement `field operator atom` into its field's slot.
    /// On an error the record is left as it was.
    pub fn set_statement(
        &mut self,
        fields: &Vec<SchemaField>,
        field: &String,
        operator: Operator,
        atom: &Atom,
    ) -> (r: Result<(), EncodeError>)
        requires
            old(self)@.slots.len() == fields@.len(),
        ensures
            match set_statement(schema_view(fields@), old(self)@, field@, operator, atom@) {
                Ok(n) => r is Ok && final(self)@ == n,
                Err(e) => r == Err::<(), EncodeError>(e) && final(self)@ == old(self)@,
            },
            final(self)@.slots.len() == old(self)@.slots.len(),
    {
        let ghost sv = schema_view(fields@);
        let idx = match find_field(fields, field) {
            Some(i) => i,
            None => return Err(EncodeError::UnknownField),
        };
        proof {
            lemma_find_from(sv, field@, 0);
        }
        let kind = fields[idx].kind;
        match (kind, atom) {
            (FieldKind::Number(max), Atom::Number(v)) => {
                if self.slots[idx].operator != 0 {
                    return Err(EncodeError::DuplicateField);
                }
                if *v > max {
                    return Err(EncodeError::RangeError);
                }
                let ghost before = self@;
                let text = copy_bytes(&self.slots[idx].text);
                self.slots.set(idx, FieldSlot { operator: operator.as_byte(), number: *v, text });
                proof {
                    let n = set_statement(sv, before, field@, operator, atom@);
                    assert(self@.slots =~= n->Ok_0.slots);
                }
                Ok(())
            },
            (FieldKind::String(n), Atom::String(t)) => {
                if self.slots[idx].operator != 0 {
                    return Err(EncodeError::DuplicateField);
                }
                let bytes = t.as_str().as_bytes();
                if bytes.len() >= n {
                    return Err(EncodeError::TooLong);
                }
                let ghost before = self@;
                let mut text: Vec<u8> = Vec::new();
                let mut k: usize = 0;
                while k < bytes.len()
                    invariant
                        k <= bytes@.len(),
                        text@ == bytes@.subrange(0, k as int),
                    decreases bytes.len() - k,
                {
                    text.push(bytes[k]);
                    k = k + 1;
                    assert(text@ =~= bytes@.subrange(0, k as int));
                }
                while text.len() < n
                    invariant
                        bytes@.len() <= text.len() <= n,
                        text@ == bytes@ + zeros((text.len() - bytes@.len()) as nat),
                    decreases n - text.len(),
                {
                    text.push(0);
                    assert(text@ =~= bytes@ + zeros((text.len() - bytes@.len()) as nat));
                }
                let number = self.slots[idx].number;
                self.slots.set(idx, FieldSlot { operator: operator.as_byte(), number, text });
                proof {
                    assert(bytes@ == encode_utf8(t@));
                    let m = set_statement(sv, before, field@, operator, atom@);
                    assert(self@.slots =~= m->Ok_0.slots);
                }
                Ok(())
            },
            _ => Err(EncodeError::TypeMismatch),
        }
    }
}

pub proof fn lemma_fold_statements_err(fields: Seq<FieldV>, r: RecordV, es: Seq<ExprV>, k: int)
    requires
        0 <= k <= es.len(),
        fold_statements(fields, r, es.take(k)) is Err,
    ensures
        fold_statements(fields, r, es) == fold_statements(fields, r, es.take(k)),
    decreases es.len() - k,
{
    if k < es.len() {
        assert(es.take(k + 1).drop_last() =~= es.take(k));
        lemma_fold_statements_err(fields, r, es, k + 1);
    } else {
        assert(es.take(k) =~= es);
    }
}

pub proof fn lemma_fold_clauses_err(fields: Seq<FieldV>, limit: nat, cs: Seq<AndV>, k: int)
    requires
        0 <= k <= cs.len(),
        fold_clauses(fields, limit, cs.take(k)) is Err,
    ensures
        fold_clauses(fields, limit, cs) == fold_clauses(fields, limit, cs.take(k)),
    decreases cs.len() - k,
{
    if k < cs.len() {
        assert(cs.take(k + 1).drop_last() =~= cs.take(k));
        lemma_fold_clauses_err(fields, limit, cs, k + 1);
    } else {
        assert(cs.take(k) =~= cs);
    }
}

/// The record of an AND clause for the table of `fields`.
pub fn encode_and_clause(fields: &Vec<SchemaField>, c: &AndClause) -> (r: Result<QueryRecord, EncodeError>)
    ensures
        match encode_and(schema_view(fields@), c@) {
            Ok(x) => r matches Ok(q) && q@ == x,
            Err(e) => r == Err::<QueryRecord, EncodeError>(e),
        },
{
    let ghost sv = schema_view(fields@);
    if c.truthy {
        return Ok(QueryRecord::absolute(fields, c.value));
    }
    let mut rec = QueryRecord::empty(fields);
    let ghost start = rec@;
    let ghost es = c@.exprs;
    assert(es.take(0) =~= Seq::<ExprV>::empty());
    let mut i: usize = 0;
    while i < c.expressions.len()
        invariant
            i <= c.expressions.len(),
            es == c@.exprs,
            sv == schema_view(fields@),
            start == empty_record(sv),
            !c.truthy,
            rec@.slots.len() == fields@.len(),
            fold_statements(sv, start, es.take(i as int)) == Ok::<RecordV, EncodeError>(rec@),
        decreases c.expressions.len() - i,
    {
        proof {
            assert(es.take(i + 1).drop_last() =~= es.take(i as int));
            assert(es.take(i + 1).last() == es[i as int]);
        }
        match &c.expressions[i] {
            Expression::Statement(f, o, a) => {
                match rec.set_statement(fields, f, *o, a) {
                    Ok(()) => {},
                    Err(e) => {
                        proof {
                            lemma_fold_statements_err(sv, start, es, i + 1);
                        }
                        return Err(e);
                    },
                }
            },
            Expression::Boolean(_) => {
                proof {
                    lemma_fold_statements_err(sv, start, es, i + 1);
                }
                return Err(EncodeError::InvalidClause);
            },
        }
        i = i + 1;
    }
    assert(es.take(i as int) =~= es);
    Ok(rec)
}

/// The records of an OR clause for the table of `fields`, at most `limit`
/// of them.
pub fn encode_or_clause(fields: &Vec<SchemaField>, limit: usize, c: &crate::clause::OrClause) -> (r: Result<Vec<QueryRecord>, EncodeError>)
    ensures
        match encode_or(schema_view(fields@), limit as nat, c@) {
            Ok(x) => r matches Ok(q) && records_view(q@) == x,
            Err(e) => r == Err::<Vec<QueryRecord>, EncodeError>(e),
        },
{
    let ghost sv = schema_view(fields@);
    let mut out: Vec<QueryRecord> = Vec::new();
    if c.truthy {
        out.push(QueryRecord::absolute(fields, c.value));
        assert(records_view(out@) =~= seq![absolute_record(sv, c.value)]);
        return Ok(out);
    }
    let ghost cs = c@.subs;
    assert(cs.take(0) =~= Seq::<AndV>::empty());
    assert(records_view(out@) =~= Seq::<RecordV>::empty());
    let mut i: usize = 0;
    while i < c.subclauses.len()
        invariant
            i <= c.subclauses.len(),
            cs == c@.subs,
            sv == schema_view(fields@),
            !c.truthy,
            fold_clauses(sv, limit as nat, cs.take(i as int)) == Ok::<Seq<RecordV>, EncodeError>(records_view(out@)),
        decreases c.subclauses.len() - i,
    {
        proof {
            assert(cs.take(i + 1).drop_last() =~= cs.take(i as int));
            assert(cs.take(i + 1).last() == cs[i as int]);
        }
        if out.len() >= limit {
            proof {
                lemma_fold_clauses_err(sv, limit as nat, cs, i + 1);
            }
            return Err(EncodeError::TooManyClauses);
        }
        match encode_and_clause(fields, &c.subclauses[i]) {
            Ok(rec) => {
                let ghost prev = records_view(out@);
                let ghost rv = rec@;
                out.push(rec);
                proof {
                    assert(records_view(out@) =~= prev.push(rv));
                }
            },
            Err(e) => {
                proof {
                    lemma_fold_clauses_err(sv, limit as nat, cs, i + 1);
                }
                return Err(e);
            },
        }
        i = i + 1;
    }
    assert(cs.take(i as int) =~= cs);
    Ok(out)
}

impl Rule {
    /// The predicate records of the rule for its table: one absolute record
    /// where the rule collapsed to a constant, else one record for each AND
    /// clause.
    pub fn records(&self) -> (r: Result<Vec<QueryRecord>, EncodeError>)
        ensures
            match encode_rule(self@) {
                Ok(x) => r matches Ok(q) && records_view(q@) == x,
                Err(e) => r == Err::<Vec<QueryRecord>, EncodeError>(e),
            },
    {
        match schema_for(self.table()) {
            None => Err(EncodeError::UnknownTable),
            Some(fields) => encode_or_clause(&fields, CLAUSE_LIMIT, self.clause()),
        }
    }
}

fn copy_bytes(b: &Vec<u8>) -> (r: Vec<u8>)
    ensures
        r@ == b@,
{
    let mut out: Vec<u8> = Vec::new();
    let mut k: usize = 0;
    while k < b.len()
        invariant
            k <= b.len(),
            out@ == b@.subrange(0, k as int),
        decreases b.len() - k,
    {
        out.push(b[k]);
        k = k + 1;
        assert(out@ =~= b@.subrange(0, k as int));
    }
    assert(b@.subrange(0, k as int) =~= b@);
    out
}

} // verus!
