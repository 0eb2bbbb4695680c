//! A compiled rule: an operation, a table and a simplified OR clause.
use vstd::prelude::*;
use vstd::string::StringExecFns;
use crate::ast::{operation_text, Operation};
use crate::clause::{OrClause, OrV};

verus! {

/// The mathematical value of a rule.
pub struct RuleV {
    pub operation: Operation,
    pub table: Seq<char>,
    pub clause: OrV,
}

impl RuleV {
    pub open spec fn wf(self) -> bool {
        self.clause.wf()
    }

    /// `<operation> <table> WHEN <clause>`.
    pub open spec fn text(self) -> Seq<char> {
        operation_text(self.operation) + seq![' '] + self.table + seq![
            ' ',
            'W',
            'H',
            'E',
            'N',
            ' ',
        ] + self.clause.text()
    }
}

/// A rule: what to do with the events of a table that satisfy a clause.
/// It does not change once built.
#[derive(Debug, Clone)]
pub struct Rule {
    operation: Operation,
    table: String,
    clause: OrClause,
}

impl View for Rule {
    type V = RuleV;

    closed spec fn view(&self) -> RuleV {
        RuleV { operation: self.operation, table: self.table@, clause: self.clause@ }
    }
}

impl Rule {
    pub(crate) fn new(operation: Operation, table: String, clause: OrClause) -> (r: Rule)
        ensures
            r@ == (RuleV { operation, table: table@, clause: clause@ }),
    {
        Rule { operation, table, clause }
    }

    pub fn operation(&self) -> (r: Operation)
        ensures
            r == self@.operation,
    {
        self.operation
    }

    pub fn table(&self) -> (r: &String)
        ensures
            r@ == self@.table,
    {
        &self.table
    }

    pub fn clause(&self) -> (r: &OrClause)
        ensures
            r@ == self@.clause,
    {
        &self.clause
    }

    /// The textual form of the rule.
    pub fn to_string(&self) -> (r: String)
        ensures
            r@ == self@.text(),
    {
        let mut out = String::new();
        self.operation.push_text(&mut out);
        out.append(" ");
        proof {
            reveal_strlit(" ");
        }
        out.append(self.table.as_str());
        out.append(" WHEN ");
        proof {
            reveal_strlit(" WHEN ");
        }
        let clause = self.clause.to_string();
        out.append(clause.as_str());
        assert(out@ =~= self@.text());
        out
    }
}

} // verus!
