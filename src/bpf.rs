//! The writer that turns a rule into predicate records for an event table.
use vstd::prelude::*;
use vstd::string::StringExecFns;
use crate::ast::{Atom, Operation, Operator};
use crate::record::{
    absolute_record, empty_record, records_view, set_statement, EncodeError, QueryRecord,
    RecordV,
};
use crate::schema::{schema_for, schema_view, table_schema, FieldV, SchemaField, CLAUSE_LIMIT};
use crate::writer::{QueryWriter, QueryWriterFactory, WriterCall};

verus! {

/// The state of a writer: its table and fields, the record being written
/// (`open` while an AND clause is being written into it), the records
/// completed, the records handed on by flushes, and the calls accepted.
pub struct BpfV {
    pub table: Seq<char>,
    pub operation: Operation,
    pub fields: Seq<FieldV>,
    pub limit: nat,
    pub current: RecordV,
    pub open: bool,
    pub records: Seq<RecordV>,
    pub flushed: Seq<RecordV>,
    pub flushes: nat,
    pub calls: Seq<WriterCall>,
}

impl BpfV {
    /// The record being written has one slot for each field.
    pub open spec fn wf(self) -> bool {
        self.current.slots.len() == self.fields.len()
    }

    /// How many records the rule holds so far, the open one included.
    pub open spec fn count(self) -> nat {
        self.records.len() + if self.open {
            1nat
        } else {
            0nat
        }
    }

    /// The completed records, with the open one closed.
    pub open spec fn closed_records(self) -> Seq<RecordV> {
        if self.open {
            self.records.push(self.current)
        } else {
            self.records
        }
    }

    /// Starting a clause closes the open one; it fails where the rule holds
    /// `limit` records already.
    pub open spec fn start_new_clause(self) -> Result<BpfV, EncodeError> {
        if self.count() >= self.limit {
            Err(EncodeError::TooManyClauses)
        } else {
            Ok(
                BpfV {
                    records: self.closed_records(),
                    current: empty_record(self.fields),
                    open: true,
                    calls: self.calls.push(WriterCall::NewClause),
                    ..self
                },
            )
        }
    }

    /// Writing a statement opens a clause if none is open.
    pub open spec fn write_statement(self, f: Seq<char>, op: Operator, a: crate::ast::AtomV) -> Result<BpfV, EncodeError> {
        if !self.open && self.records.len() >= self.limit {
            Err(EncodeError::TooManyClauses)
        } else {
            let base = if self.open {
                self.current
            } else {
                empty_record(self.fields)
            };
            match set_statement(self.fields, base, f, op, a) {
                Err(e) => Err(e),
                Ok(r) => Ok(
                    BpfV {
                        current: r,
                        open: true,
                        calls: self.calls.push(WriterCall::Statement(f, op, a)),
                        ..self
                    },
                ),
            }
        }
    }

    /// An absolute record closes the open one and stands as a record of its own.
    pub open spec fn write_absolute(self, value: bool) -> Result<BpfV, EncodeError> {
        if self.count() >= self.limit {
            Err(EncodeError::TooManyClauses)
        } else {
            Ok(
                BpfV {
                    records: self.closed_records().push(absolute_record(self.fields, value)),
                    current: empty_record(self.fields),
                    open: false,
                    calls: self.calls.push(WriterCall::Absolute(value)),
                    ..self
                },
            )
        }
    }

    /// A flush hands on every record written since the last one; the count
    /// of flushes stops at the largest `usize`.
    pub open spec fn flush(self) -> BpfV {
        BpfV {
            flushed: self.flushed + self.closed_records(),
            records: Seq::empty(),
            current: empty_record(self.fields),
            open: false,
            flushes: if self.flushes < usize::MAX {
                self.flushes + 1
            } else {
                self.flushes
            },
            calls: self.calls.push(WriterCall::Flush),
            ..self
        }
    }
}

/// The writer after one call, or the error that the call returns.
pub open spec fn step(w: BpfV, c: WriterCall) -> Result<BpfV, EncodeError> {
    match c {
        WriterCall::Statement(f, o, a) => w.write_statement(f, o, a),
        WriterCall::NewClause => w.start_new_clause(),
        WriterCall::Absolute(v) => w.write_absolute(v),
        WriterCall::Flush => Ok(w.flush()),
    }
}

/// The writer after a list of calls, or the error of the first call that
/// fails.
pub open spec fn run(w: BpfV, calls: Seq<WriterCall>) -> Result<BpfV, EncodeError>
    decreases calls.len(),
{
    if calls.len() == 0 {
        Ok(w)
    } else {
        match run(w, calls.drop_last()) {
            Err(e) => Err(e),
            Ok(v) => step(v, calls.last()),
        }
    }
}

impl BpfV {
    /// What the writer returns for `c`: a writer whose open record lacks a
    /// slot for a field refuses every call.
    pub open spec fn answer(self, c: WriterCall) -> Result<(), EncodeError> {
        if !self.wf() {
            Err(EncodeError::InvalidClause)
        } else {
            match step(self, c) {
                Ok(_) => Ok(()),
                Err(e) => Err(e),
            }
        }
    }

    /// The writer after `c`; a refused call leaves it as it was.
    pub open spec fn next(self, c: WriterCall) -> BpfV {
        if !self.wf() {
            self
        } else {
            match step(self, c) {
                Ok(n) => n,
                Err(_) => self,
            }
        }
    }
}

/// The writer of `operation` rules for `table`, before any call.
pub open spec fn initial_writer(table: Seq<char>, operation: Operation, fields: Seq<FieldV>) -> BpfV {
    BpfV {
        table,
        operation,
        fields,
        limit: CLAUSE_LIMIT as nat,
        current: empty_record(fields),
        open: false,
        records: Seq::empty(),
        flushed: Seq::empty(),
        flushes: 0,
        calls: Seq::empty(),
    }
}

/// Writes a rule's clauses into the predicate records of one event table.
pub struct BpfQueryWriter {
    table: String,
    operation: Operation,
    fields: Vec<SchemaField>,
    limit: usize,
    current: QueryRecord,
    open: bool,
    records: Vec<QueryRecord>,
    flushed: Vec<QueryRecord>,
    flushes: usize,
    log: Ghost<Seq<WriterCall>>,
}

impl View for BpfQueryWriter {
    type V = BpfV;

    closed spec fn view(&self) -> BpfV {
        BpfV {
            table: self.table@,
            operation: self.operation,
            fields: schema_view(self.fields@),
            limit: self.limit as nat,
            current: self.current@,
            open: self.open,
            records: records_view(self.records@),
            flushed: records_view(self.flushed@),
            flushes: self.flushes as nat,
            calls: self.log@,
        }
    }
}

impl BpfQueryWriter {
    /// Whether the record being written has a slot for each field.
    fn shaped(&self) -> (r: bool)
        ensures
            r == self@.wf(),
    {
        self.current.slots.len() == self.fields.len()
    }

    /// The writer of `operation` rules for `table`, if the table exists.
    pub fn new(table: String, operation: Operation) -> (r: Result<Self, EncodeError>)
        ensures
            match table_schema(table@) {
                None => r == Err::<Self, EncodeError>(EncodeError::UnknownTable),
                Some(fields) => r matches Ok(w) && w@ == initial_writer(table@, operation, fields)
                    && w@.wf(),
            },
    {
        let fields = match schema_for(&table) {
            Some(f) => f,
            None => return Err(EncodeError::UnknownTable),
        };
        let current = QueryRecord::empty(&fields);
        let w = BpfQueryWriter {
            table,
            operation,
            fields,
            limit: CLAUSE_LIMIT,
            current,
            open: false,
            records: Vec::new(),
            flushed: Vec::new(),
            flushes: 0,
            log: Ghost(Seq::empty()),
        };
        assert(records_view(w.records@) =~= Seq::<RecordV>::empty());
        assert(records_view(w.flushed@) =~= Seq::<RecordV>::empty());
        Ok(w)
    }

    /// The records handed on by flushes, in order.
    pub fn flushed(&self) -> (r: &Vec<QueryRecord>)
        ensures
            records_view(r@) == self@.flushed,
    {
        &self.flushed
    }

    /// How many flushes the writer has taken.
    pub fn flush_count(&self) -> (r: usize)
        ensures
            r as nat == self@.flushes,
    {
        self.flushes
    }

    /// The operation of the rules this writer takes.
    pub fn operation(&self) -> (r: Operation)
        ensures
            r == self@.operation,
    {
        self.operation
    }

    /// The table this writer writes for.
    pub fn table(&self) -> (r: &String)
        ensures
            r@ == self@.table,
    {
        &self.table
    }

    fn close_current(&mut self)
        requires
            old(self)@.wf(),
        ensures
            final(self)@ == (BpfV {
                records: old(self)@.closed_records(),
                current: empty_record(old(self)@.fields),
                open: false,
                ..old(self)@
            }),
            final(self)@.wf(),
    {
        let fresh = QueryRecord::empty(&self.fields);
        if self.open {
            let done = self.current.clone_record();
            let ghost prev = records_view(self.records@);
            self.records.push(done);
            assert(records_view(self.records@) =~= prev.push(old(self)@.current));
        }
        self.current = fresh;
        self.open = false;
    }

    /// Starts a new AND clause's record.
    pub fn begin_clause(&mut self) -> (r: Result<(), EncodeError>)
        requires
            old(self)@.wf(),
        ensures
            match old(self)@.start_new_clause() {
                Ok(n) => r == Ok::<(), EncodeError>(()) && final(self)@ == n,
                Err(e) => r == Err::<(), EncodeError>(e) && final(self)@ == old(self)@,
            },
            final(self)@.wf(),
    {
        if self.records.len() >= self.limit || (self.open && self.records.len() + 1 >= self.limit) {
            return Err(EncodeError::TooManyClauses);
        }
        self.close_current();
        self.open = true;
        self.log = Ghost(self.log@.push(WriterCall::NewClause));
        Ok(())
    }

    /// Writes a statement into the open record, opening one if needed.
    pub fn put_statement(&mut self, field: &String, operator: Operator, atom: &Atom) -> (r: Result<
        (),
        EncodeError,
    >)
        requires
            old(self)@.wf(),
        ensures
            match old(self)@.write_statement(field@, operator, atom@) {
                Ok(n) => r == Ok::<(), EncodeError>(()) && final(self)@ == n,
                Err(e) => r == Err::<(), EncodeError>(e) && final(self)@ == old(self)@,
            },
            final(self)@.wf(),
    {
        if !self.open && self.records.len() >= self.limit {
            return Err(EncodeError::TooManyClauses);
        }
        let mut base = if self.open {
            self.current.clone_record()
        } else {
            QueryRecord::empty(&self.fields)
        };
        match base.set_statement(&self.fields, field, operator, atom) {
            Ok(()) => {},
            Err(e) => return Err(e),
        }
        self.current = base;
        self.open = true;
        self.log = Ghost(self.log@.push(WriterCall::Statement(field@, operator, atom@)));
        Ok(())
    }

    /// Writes a record that holds only the absolute marker of `value`.
    pub fn put_absolute(&mut self, value: bool) -> (r: Result<(), EncodeError>)
        requires
            old(self)@.wf(),
        ensures
            match old(self)@.write_absolute(value) {
                Ok(n) => r == Ok::<(), EncodeError>(()) && final(self)@ == n,
                Err(e) => r == Err::<(), EncodeError>(e) && final(self)@ == old(self)@,
            },
            final(self)@.wf(),
    {
        if self.records.len() >= self.limit || (self.open && self.records.len() + 1 >= self.limit) {
            return Err(EncodeError::TooManyClauses);
        }
        self.close_current();
        let rec = QueryRecord::absolute(&self.fields, value);
        let ghost prev = records_view(self.records@);
        let ghost rv = rec@;
        self.records.push(rec);
        assert(records_view(self.records@) =~= prev.push(rv));
        self.log = Ghost(self.log@.push(WriterCall::Absolute(value)));
        Ok(())
    }

    /// Hands on every record written since the last flush.
    pub fn hand_over(&mut self) -> (r: Result<(), EncodeError>)
        requires
            old(self)@.wf(),
        ensures
            r == Ok::<(), EncodeError>(()),
            final(self)@ == old(self)@.flush(),
            final(self)@.wf(),
    {
        self.close_current();
        let ghost mid = self@;
        let mut moved: Vec<QueryRecord> = Vec::new();
        let mut i: usize = 0;
        while i < self.records.len()
            invariant
                i <= self.records.len(),
                self@ == mid,
                records_view(moved@) == records_view(self.records@).take(i as int),
            decreases self.records.len() - i,
        {
            let rec = self.records[i].clone_record();
            let ghost prev = records_view(moved@);
            moved.push(rec);
            proof {
                assert(records_view(moved@) =~= prev.push(self.records@[i as int]@));
                assert(records_view(self.records@).take(i + 1) =~= records_view(self.records@).take(
                    i as int,
                ).push(self.records@[i as int]@));
            }
            i = i + 1;
        }
        assert(records_view(self.records@).take(i as int) =~= records_view(self.records@));
        let ghost before = records_view(self.flushed@);
        self.flushed.append(&mut moved);
        assert(records_view(self.flushed@) =~= before + mid.records);
        self.records = Vec::new();
        assert(records_view(self.records@) =~= Seq::<RecordV>::empty());
        if self.flushes < usize::MAX {
            self.flushes = self.flushes + 1;
        }
        self.log = Ghost(self.log@.push(WriterCall::Flush));
        Ok(())
    }
}

impl QueryWriter for BpfQueryWriter {
    open spec fn answer(m: BpfV, c: WriterCall) -> Result<(), EncodeError> {
        m.answer(c)
    }

    open spec fn next(m: BpfV, c: WriterCall) -> BpfV {
        m.next(c)
    }

    fn write_statement(&mut self, field: &String, operator: &Operator, atom: &Atom) -> (r: Result<
        (),
        EncodeError,
    >) {
        if !self.shaped() {
            return Err(EncodeError::InvalidClause);
        }
        self.put_statement(field, *operator, atom)
    }

    fn start_new_clause(&mut self) -> (r: Result<(), EncodeError>) {
        if !self.shaped() {
            return Err(EncodeError::InvalidClause);
        }
        self.begin_clause()
    }

    fn write_absolute(&mut self, value: bool) -> (r: Result<(), EncodeError>) {
        if !self.shaped() {
            return Err(EncodeError::InvalidClause);
        }
        self.put_absolute(value)
    }

    fn flush(&mut self) -> (r: Result<(), EncodeError>) {
        if !self.shaped() {
            return Err(EncodeError::InvalidClause);
        }
        self.hand_over()
    }
}

/// Makes the writer of a rule's table. Without a probe to hand records to,
/// it checks rules only.
pub struct BpfQueryWriterFactory {}

impl BpfQueryWriterFactory {
    pub fn empty() -> (r: Self) {
        BpfQueryWriterFactory {  }
    }
}

impl QueryWriterFactory<BpfQueryWriter> for BpfQueryWriterFactory {
    open spec fn made(&self, operation: Operation, table: Seq<char>) -> Result<BpfV, EncodeError> {
        match table_schema(table) {
            None => Err(EncodeError::UnknownTable),
            Some(fields) => Ok(initial_writer(table, operation, fields)),
        }
    }

    fn create(&self, operation: Operation, table: &str) -> (r: Result<BpfQueryWriter, EncodeError>) {
        BpfQueryWriter::new(String::from_str(table), operation)
    }
}

} // verus!
