use std::sync::Arc;
use vstd::prelude::*;

verus! {

/// The decimal digit character for `d < 10`.
pub open spec fn digit_char(d: nat) -> char {
    if d == 0 { '0' }
    else if d == 1 { '1' }
    else if d == 2 { '2' }
    else if d == 3 { '3' }
    else if d == 4 { '4' }
    else if d == 5 { '5' }
    else if d == 6 { '6' }
    else if d == 7 { '7' }
    else if d == 8 { '8' }
    else { '9' }
}

/// The decimal text of a natural number, without sign or leading zeros.
pub open spec fn decimal(n: nat) -> Seq<char>
    decreases n,
{
    if n < 10 {
        seq![digit_char(n)]
    } else {
        decimal(n / 10).push(digit_char(n % 10))
    }
}

/// Relies on `u64`'s `ToString` (through `Display`): the plain decimal digits.
#[verifier::external_body]
fn u64_text(n: u64) -> (r: String)
    ensures
        r@ == decimal(n as nat),
{
    n.to_string()
}

/// Where a diagnostic points: a source name, a line and a column, both
/// counted from one.
#[derive(Debug, Clone)]
pub struct Position {
    pub src: Arc<String>,
    pub line: u64,
    pub column: u64,
}

/// The mathematical value of a [`Position`].
pub struct PosModel {
    pub src: Seq<char>,
    pub line: nat,
    pub column: nat,
}

impl View for Position {
    type V = PosModel;

    open spec fn view(&self) -> PosModel {
        PosModel { src: self.src@, line: self.line as nat, column: self.column as nat }
    }
}

/// `src:line:column`, the way a position is shown to a user.
pub open spec fn pos_text(p: PosModel) -> Seq<char> {
    p.src + ":"@ + decimal(p.line) + ":"@ + decimal(p.column)
}

impl PartialEq for Position {
    fn eq(&self, other: &Position) -> (r: bool)
        ensures
            r == (self@ == other@),
    {
        *self.src == *other.src && self.line == other.line && self.column == other.column
    }
}

impl vstd::std_specs::cmp::PartialEqSpecImpl for Position {
    open spec fn obeys_eq_spec() -> bool {
        true
    }

    open spec fn eq_spec(&self, other: &Position) -> bool {
        self@ == other@
    }
}

impl Position {
    /// The first line and column of the source named `src`.
    pub fn new(src: &str) -> (r: Position)
        ensures
            r@ == (PosModel { src: src@, line: 1, column: 1 }),
    {
        Position { src: Arc::new(src.to_owned()), line: 1, column: 1 }
    }

    /// The same source at the given line and column.
    pub fn with_pos(&self, line: u64, column: u64) -> (r: Position)
        ensures
            r@ == (PosModel { src: self@.src, line: line as nat, column: column as nat }),
    {
        Position { src: Arc::clone(&self.src), line, column }
    }

    /// `count` columns further on the same line.
    pub fn add(&self, count: u64) -> (r: Position)
        requires
            self.column + count <= u64::MAX,
        ensures
            r@ == (PosModel { src: self@.src, line: self@.line, column: (self@.column + count) as nat }),
    {
        Position { src: Arc::clone(&self.src), line: self.line, column: self.column + count }
    }

    /// The first column of the next line.
    pub fn newline(&self) -> (r: Position)
        requires
            self.line < u64::MAX,
        ensures
            r@ == (PosModel { src: self@.src, line: (self@.line + 1) as nat, column: 1 }),
    {
        Position { src: Arc::clone(&self.src), line: self.line + 1, column: 1 }
    }

    /// `src:line:column`.
    pub fn to_string(&self) -> (r: String)
        ensures
            r@ == pos_text(self@),
    {
        let mut s = (*self.src).clone();
        s.append(":");
        let line = u64_text(self.line);
        s.append(line.as_str());
        s.append(":");
        let column = u64_text(self.column);
        s.append(column.as_str());
        s
    }
}

/// A diagnostic: what went wrong, and where (as `src:line:column`).
#[derive(Debug)]
pub struct OmgError {
    pub msg: String,
    pub pos: String,
}

impl OmgError {
    pub fn new(msg: String, pos: Position) -> (r: OmgError)
        ensures
            r.msg@ == msg@,
            r.pos@ == pos_text(pos@),
    {
        OmgError { msg, pos: pos.to_string() }
    }

    /// `src:line:column: message`, ended by a newline.
    pub fn to_string(&self) -> (r: String)
        ensures
            r@ == self.pos@ + ": "@ + self.msg@ + "\n"@,
    {
        let mut s = self.pos.clone();
        s.append(": ");
        s.append(self.msg.as_str());
        s.append("\n");
        s
    }
}

} // verus!
