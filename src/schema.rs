//! The event tables: for each, its fields with their kind and width.
use vstd::prelude::*;
use vstd::string::StringExecFns;

verus! {

/// The kind of a field: a number no larger than the given bound, or a string
/// in a buffer of the given size, which holds a terminating nul byte.
#[derive(Debug, Clone, Copy, PartialEq, Eq, Structural)]
pub enum FieldKind {
    Number(u64),
    String(usize),
}

/// A field of an event table.
#[derive(Debug, Clone)]
pub struct SchemaField {
    pub path: String,
    pub kind: FieldKind,
}

pub struct FieldV {
    pub path: Seq<char>,
    pub kind: FieldKind,
}

impl View for SchemaField {
    type V = FieldV;

    open spec fn view(&self) -> FieldV {
        FieldV { path: self.path@, kind: self.kind }
    }
}

pub open spec fn schema_view(fields: Seq<SchemaField>) -> Seq<FieldV> {
    fields.map_values(|f: SchemaField| f@)
}

/// The size of a path buffer in an event record.
pub const PATH_BUFFER: usize = 256;

/// The largest user id.
pub const MAX_USER_ID: u64 = 4294967295;

/// The most AND clauses that one rule may hold for a table.
pub const CLAUSE_LIMIT: usize = 8;

/// The fields that each event table offers, in record order.
pub open spec fn event_fields() -> Seq<FieldV> {
    seq![
        FieldV { path: "process.parent.name"@, kind: FieldKind::String(PATH_BUFFER) },
        FieldV { path: "process.parent.executable"@, kind: FieldKind::String(PATH_BUFFER) },
        FieldV { path: "process.name"@, kind: FieldKind::String(PATH_BUFFER) },
        FieldV { path: "process.executable"@, kind: FieldKind::String(PATH_BUFFER) },
        FieldV { path: "user.id"@, kind: FieldKind::Number(MAX_USER_ID) },
    ]
}

/// The fields of a table, if the table exists.
pub open spec fn table_schema(table: Seq<char>) -> Option<Seq<FieldV>> {
    if table == "bprm_check_security"@ || table == "path_rename"@ || table == "path_unlink"@ {
        Some(event_fields())
    } else {
        None
    }
}

fn field(path: &str, kind: FieldKind) -> (r: SchemaField)
    ensures
        r@ == (FieldV { path: path@, kind }),
{
    SchemaField { path: String::from_str(path), kind }
}

/// The fields of `table`, or `None` if there is no such table.
pub fn schema_for(table: &String) -> (r: Option<Vec<SchemaField>>)
    ensures
        match table_schema(table@) {
            Some(fields) => r matches Some(v) && schema_view(v@) == fields,
            None => r is None,
        },
{
    let bprm = String::from_str("bprm_check_security");
    let rename = String::from_str("path_rename");
    let unlink = String::from_str("path_unlink");
    if !(table.eq(&bprm) || table.eq(&rename) || table.eq(&unlink)) {
        return None;
    }
    let mut v: Vec<SchemaField> = Vec::new();
    v.push(field("process.parent.name", FieldKind::String(PATH_BUFFER)));
    v.push(field("process.parent.executable", FieldKind::String(PATH_BUFFER)));
    v.push(field("process.name", FieldKind::String(PATH_BUFFER)));
    v.push(field("process.executable", FieldKind::String(PATH_BUFFER)));
    v.push(field("user.id", FieldKind::Number(MAX_USER_ID)));
    assert(schema_view(v@) =~= event_fields());
    Some(v)
}

/// The index of the first field named `f` from index `i` on.
pub open spec fn find_from(fields: Seq<FieldV>, f: Seq<char>, i: nat) -> Option<nat>
    decreases fields.len() - i,
{
    if i >= fields.len() {
        None
    } else if fields[i as int].path == f {
        Some(i)
    } else {
        find_from(fields, f, i + 1)
    }
}

/// The index of the field named `f`.
pub open spec fn field_index(fields: Seq<FieldV>, f: Seq<char>) -> Option<nat> {
    find_from(fields, f, 0)
}

pub proof fn lemma_find_from(fields: Seq<FieldV>, f: Seq<char>, i: nat)
    ensures
        find_from(fields, f, i) matches Some(k) ==> i <= k < fields.len() && fields[k as int].path
            == f,
    decreases fields.len() - i,
{
    if i < fields.len() {
        lemma_find_from(fields, f, i + 1);
    }
}

/// The index of the field named `name`.
pub fn find_field(fields: &Vec<SchemaField>, name: &String) -> (r: Option<usize>)
    ensures
        r == (match field_index(schema_view(fields@), name@) {
            Some(k) => Some(k as usize),
            None => None::<usize>,
        }),
        r matches Some(k) ==> k < fields.len(),
{
    let ghost sv = schema_view(fields@);
    let mut i: usize = 0;
    while i < fields.len()
        invariant
            i <= fields.len(),
            sv == schema_view(fields@),
            field_index(sv, name@) == find_from(sv, name@, i as nat),
        decreases fields.len() - i,
    {
        if fields[i].path.eq(name) {
            return Some(i);
        }
        i = i + 1;
    }
    None
}

} // verus!
