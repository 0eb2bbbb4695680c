//! The terms of the rule language and their textual form.
use vstd::prelude::*;
use vstd::string::StringExecFns;
use vstd::string::StrSliceExecFns;

verus! {

/// What a rule does with the events it matches.
#[derive(Debug, Clone, Copy, PartialEq, Eq, Structural)]
pub enum Operation {
    Reject,
    Filter,
}

/// The comparison of a statement.
#[derive(Debug, Clone, Copy, PartialEq, Eq, Structural)]
pub enum Operator {
    Equal,
    NotEqual,
}

/// A literal value compared against a field.
#[derive(Debug, Clone)]
pub enum Atom {
    String(String),
    Number(u64),
}

/// The mathematical value of an atom.
pub enum AtomV {
    Str(Seq<char>),
    Num(u64),
}

impl View for Atom {
    type V = AtomV;

    open spec fn view(&self) -> AtomV {
        match self {
            Atom::String(s) => AtomV::Str(s@),
            Atom::Number(n) => AtomV::Num(*n),
        }
    }
}

/// One conjunct of a rule: a constant or a comparison of a field with an atom.
#[derive(Debug, Clone)]
pub enum Expression {
    Boolean(bool),
    Statement(String, Operator, Atom),
}

/// The mathematical value of an expression.
pub enum ExprV {
    Boolean(bool),
    Statement(Seq<char>, Operator, AtomV),
}

impl View for Expression {
    type V = ExprV;

    open spec fn view(&self) -> ExprV {
        match self {
            Expression::Boolean(b) => ExprV::Boolean(*b),
            Expression::Statement(f, o, a) => ExprV::Statement(f@, *o, a@),
        }
    }
}

// ---------------------------------------------------------------------------
// Textual form

pub open spec fn bool_text(b: bool) -> Seq<char> {
    if b {
        seq!['t', 'r', 'u', 'e']
    } else {
        seq!['f', 'a', 'l', 's', 'e']
    }
}

pub open spec fn operation_text(o: Operation) -> Seq<char> {
    match o {
        Operation::Reject => seq!['R', 'E', 'J', 'E', 'C', 'T'],
        Operation::Filter => seq!['F', 'I', 'L', 'T', 'E', 'R'],
    }
}

pub open spec fn operator_text(o: Operator) -> Seq<char> {
    match o {
        Operator::Equal => seq!['=', '='],
        Operator::NotEqual => seq!['!', '='],
    }
}

pub open spec fn digit_char(d: nat) -> char {
    seq!['0', '1', '2', '3', '4', '5', '6', '7', '8', '9'][d as int]
}

/// Decimal digits of `n`, most significant first, without leading zeros.
pub open spec fn decimal_text(n: nat) -> Seq<char>
    decreases n,
{
    if n < 10 {
        seq![digit_char(n)]
    } else {
        decimal_text(n / 10).push(digit_char(n % 10))
    }
}

pub open spec fn escape_char(c: char) -> Seq<char> {
    if c == '\\' {
        seq!['\\', '\\']
    } else if c == '"' {
        seq!['\\', '"']
    } else {
        seq![c]
    }
}

/// The payload of a string atom with backslashes and quotes escaped.
pub open spec fn escape_text(s: Seq<char>) -> Seq<char>
    decreases s.len(),
{
    if s.len() == 0 {
        Seq::empty()
    } else {
        escape_text(s.drop_last()) + escape_char(s.last())
    }
}

pub open spec fn atom_text(a: AtomV) -> Seq<char> {
    match a {
        AtomV::Num(n) => decimal_text(n as nat),
        AtomV::Str(s) => seq!['"'] + escape_text(s) + seq!['"'],
    }
}

pub open spec fn expr_text(e: ExprV) -> Seq<char> {
    match e {
        ExprV::Boolean(b) => bool_text(b),
        ExprV::Statement(f, o, a) => f + seq![' '] + operator_text(o) + seq![' '] + atom_text(a),
    }
}

/// The parts joined by `sep`.
pub open spec fn join_text(parts: Seq<Seq<char>>, sep: Seq<char>) -> Seq<char>
    decreases parts.len(),
{
    if parts.len() == 0 {
        Seq::empty()
    } else if parts.len() == 1 {
        parts[0]
    } else {
        join_text(parts.drop_last(), sep) + sep + parts.last()
    }
}

// ---------------------------------------------------------------------------
// Executable helpers

pub fn push_bool_text(out: &mut String, b: bool)
    ensures
        final(out)@ == old(out)@ + bool_text(b),
{
    if b {
        out.append("true");
        proof {
            reveal_strlit("true");
        }
    } else {
        out.append("false");
        proof {
            reveal_strlit("false");
        }
    }
    assert(out@ =~= old(out)@ + bool_text(b));
}

/// Appends the decimal digits of `n`.
pub fn push_decimal_text(out: &mut String, n: u64)
    ensures
        final(out)@ == old(out)@ + decimal_text(n as nat),
    decreases n,
{
    if n >= 10 {
        push_decimal_text(out, n / 10);
    }
    let d = (n % 10) as usize;
    let digits = "0123456789";
    proof {
        reveal_strlit("0123456789");
    }
    let piece = digits.substring_char(d, d + 1);
    assert(piece@ =~= seq![digit_char(d as nat)]);
    out.append(piece);
    proof {
        if n >= 10 {
            assert(decimal_text(n as nat) == decimal_text((n / 10) as nat).push(digit_char((n % 10) as nat)));
        }
        assert(out@ =~= old(out)@ + decimal_text(n as nat));
    }
}


/// Appends the payload of a string atom, escaping backslashes and quotes.
pub fn push_escaped_text(out: &mut String, s: &String)
    ensures
        final(out)@ == old(out)@ + escape_text(s@),
{
    let n = s.as_str().unicode_len();
    let mut i: usize = 0;
    while i < n
        invariant
            n == s@.len(),
            i <= n,
            out@ == old(out)@ + escape_text(s@.subrange(0, i as int)),
        decreases n - i,
    {
        let c = s.as_str().get_char(i);
        let ghost before = out@;
        if c == '\\' {
            out.append("\\\\");
            proof {
                reveal_strlit("\\\\");
            }
        } else if c == '"' {
            out.append("\\\"");
            proof {
                reveal_strlit("\\\"");
            }
        } else {
            let piece = s.as_str().substring_char(i, i + 1);
            out.append(piece);
        }
        proof {
            let pre = s@.subrange(0, i as int);
            let next = s@.subrange(0, i + 1);
            assert(next.drop_last() =~= pre);
            assert(next.last() == c);
            assert(out@ =~= before + escape_char(c));
        }
        i = i + 1;
    }
    assert(s@.subrange(0, n as int) =~= s@);
}

impl Atom {
    /// A copy of the atom.
    pub fn copy(&self) -> (r: Atom)
        ensures
            r@ == self@,
    {
        match self {
            Atom::String(s) => Atom::String(s.clone()),
            Atom::Number(n) => Atom::Number(*n),
        }
    }

    /// Whether two atoms hold the same value.
    pub fn same(&self, other: &Atom) -> (r: bool)
        ensures
            r == (self@ == other@),
    {
        match (self, other) {
            (Atom::String(a), Atom::String(b)) => a.eq(b),
            (Atom::Number(a), Atom::Number(b)) => *a == *b,
            _ => false,
        }
    }

    /// Appends the textual form of the atom.
    pub fn push_text(&self, out: &mut String)
        ensures
            final(out)@ == old(out)@ + atom_text(self@),
    {
        match self {
            Atom::Number(n) => push_decimal_text(out, *n),
            Atom::String(s) => {
                out.append("\"");
                proof {
                    reveal_strlit("\"");
                }
                push_escaped_text(out, s);
                out.append("\"");
                assert(out@ =~= old(out)@ + atom_text(self@));
            },
        }
    }
}

impl Operator {
    /// The operator's code in an encoded record.
    pub fn as_byte(&self) -> (r: u8)
        ensures
            r == operator_byte(*self),
    {
        match self {
            Operator::Equal => 1,
            Operator::NotEqual => 2,
        }
    }

    pub fn push_text(&self, out: &mut String)
        ensures
            final(out)@ == old(out)@ + operator_text(*self),
    {
        match self {
            Operator::Equal => {
                out.append("==");
                proof {
                    reveal_strlit("==");
                }
            },
            Operator::NotEqual => {
                out.append("!=");
                proof {
                    reveal_strlit("!=");
                }
            },
        }
        assert(out@ =~= old(out)@ + operator_text(*self));
    }
}

pub open spec fn operator_byte(o: Operator) -> u8 {
    match o {
        Operator::Equal => 1,
        Operator::NotEqual => 2,
    }
}

pub open spec fn operation_byte(o: Operation) -> u8 {
    match o {
        Operation::Reject => 1,
        Operation::Filter => 2,
    }
}

impl Operation {
    /// The operation's code as handed to the kernel side.
    pub fn as_byte(&self) -> (r: u8)
        ensures
            r == operation_byte(*self),
    {
        match self {
            Operation::Reject => 1,
            Operation::Filter => 2,
        }
    }

    pub fn push_text(&self, out: &mut String)
        ensures
            final(out)@ == old(out)@ + operation_text(*self),
    {
        match self {
            Operation::Reject => {
                out.append("REJECT");
                proof {
                    reveal_strlit("REJECT");
                }
            },
            Operation::Filter => {
                out.append("FILTER");
                proof {
                    reveal_strlit("FILTER");
                }
            },
        }
        assert(out@ =~= old(out)@ + operation_text(*self));
    }

    /// The keyword of the operation.
    pub fn to_string(&self) -> (r: String)
        ensures
            r@ == operation_text(*self),
    {
        let mut out = String::new();
        self.push_text(&mut out);
        assert(out@ =~= operation_text(*self));
        out
    }
}

impl Expression {
    /// A copy of the expression.
    pub fn copy(&self) -> (r: Expression)
        ensures
            r@ == self@,
    {
        match self {
            Expression::Boolean(b) => Expression::Boolean(*b),
            Expression::Statement(f, o, a) => Expression::Statement(f.clone(), *o, a.copy()),
        }
    }

    /// Whether two expressions are the same.
    pub fn same(&self, other: &Expression) -> (r: bool)
        ensures
            r == (self@ == other@),
    {
        match (self, other) {
            (Expression::Boolean(a), Expression::Boolean(b)) => *a == *b,
            (Expression::Statement(f1, o1, a1), Expression::Statement(f2, o2, a2)) => {
                f1.eq(f2) && *o1 == *o2 && a1.same(a2)
            },
            _ => false,
        }
    }

    /// Appends the textual form of the expression.
    pub fn push_text(&self, out: &mut String)
        ensures
            final(out)@ == old(out)@ + expr_text(self@),
    {
        match self {
            Expression::Boolean(b) => push_bool_text(out, *b),
            Expression::Statement(f, o, a) => {
                out.append(f.as_str());
                out.append(" ");
                proof {
                    reveal_strlit(" ");
                }
                o.push_text(out);
                out.append(" ");
                a.push_text(out);
                assert(out@ =~= old(out)@ + expr_text(self@));
            },
        }
    }

    /// The textual form of the expression.
    pub fn to_string(&self) -> (r: String)
        ensures
            r@ == expr_text(self@),
    {
        let mut out = String::new();
        self.push_text(&mut out);
        assert(out@ =~= expr_text(self@));
        out
    }
}

} // verus!
