use crate::error::{PosModel, Position};
use vstd::prelude::*;

verus! {

/// The kinds of token the lexer produces.
#[derive(Debug, Clone, Copy, PartialEq, Eq, Structural)]
pub enum Token {
    Identifier,
    Number,
    True,
    False,
    ParenthesesOpen,
    ParenthesesClose,
    Comma,
    Semicolon,
    Assignment,
    OpAdd,
    OpSubtract,
    OpMultiply,
    OpDivide,
    OpEqual,
    OpGreaterThan,
    OpLessThan,
    EndOfFile,
}

/// One token with the text it was read from and where that text starts.
#[derive(Debug, Clone)]
pub struct Lexeme {
    pub token: Token,
    pub slice: String,
    pub line: u64,
    pub column: u64,
}

/// The mathematical value of a [`Lexeme`].
pub struct LexModel {
    pub token: Token,
    pub slice: Seq<char>,
    pub line: nat,
    pub column: nat,
}

impl View for Lexeme {
    type V = LexModel;

    open spec fn view(&self) -> LexModel {
        LexModel { token: self.token, slice: self.slice@, line: self.line as nat, column: self.column as nat }
    }
}

#[verifier::external_type_specification]
#[verifier::external_body]
#[verifier::reject_recursive_types(A)]
pub struct ExVector<A>(im::Vector<A>);

/// What an `im::Vector` of lexemes holds, front to back.
pub uninterp spec fn lexemes(v: im::Vector<Lexeme>) -> Seq<Lexeme>;

/// Relies on `im::Vector::new`: a vector with nothing in it.
#[verifier::external_body]
fn empty_lexemes() -> (r: im::Vector<Lexeme>)
    ensures
        lexemes(r) == Seq::<Lexeme>::empty(),
{
    im::Vector::new()
}

/// Relies on `im::Vector::push_back`: the value goes after all others.
#[verifier::external_body]
fn push_lexeme(v: &mut im::Vector<Lexeme>, x: Lexeme)
    ensures
        lexemes(*final(v)) == lexemes(*old(v)).push(x),
{
    v.push_back(x)
}

/// Relies on `im::Vector::len`: the number of values held.
#[verifier::external_body]
fn lexeme_count(v: &im::Vector<Lexeme>) -> (r: usize)
    ensures
        r == lexemes(*v).len(),
{
    v.len()
}

/// Relies on `im::Vector`'s `Index`: the value at `i`, which is in bounds.
#[verifier::external_body]
fn lexeme_at(v: &im::Vector<Lexeme>, i: usize) -> (r: &Lexeme)
    requires
        i < lexemes(*v).len(),
    ensures
        *r == lexemes(*v)[i as int],
{
    &v[i]
}

/// The index that a cursor over `n` tokens settles on when asked for `i`:
/// reads past the end stop at the last token.
pub open spec fn clamp(i: int, n: int) -> int {
    if i >= n { n - 1 } else { i }
}

/// A token sequence with a read cursor.
#[derive(Debug)]
pub struct Tokens {
    path: String,
    tokens: im::Vector<Lexeme>,
    index: usize,
}

/// The mathematical value of [`Tokens`].
pub struct TokensModel {
    pub path: Seq<char>,
    pub toks: Seq<LexModel>,
    pub index: int,
}

impl View for Tokens {
    type V = TokensModel;

    closed spec fn view(&self) -> TokensModel {
        TokensModel {
            path: self.path@,
            toks: lexemes(self.tokens).map_values(|l: Lexeme| l@),
            index: self.index as int,
        }
    }
}

impl TokensModel {
    /// The cursor stands on a token, or nothing has been pushed yet.
    pub open spec fn wf(self) -> bool {
        (0 <= self.index < self.toks.len()) || (self.toks.len() == 0 && self.index == 0)
    }

    /// The token at `i`, reads past the end giving the last one.
    pub open spec fn at(self, i: int) -> LexModel {
        self.toks[clamp(i, self.toks.len() as int)]
    }

    pub open spec fn kind_at(self, i: int) -> Token {
        self.at(i).token
    }

    pub open spec fn pos_at(self, i: int) -> PosModel {
        PosModel { src: self.path, line: self.at(i).line, column: self.at(i).column }
    }
}

impl Tokens {
    /// An empty sequence for the source named `path`.
    pub fn new(path: String) -> (r: Tokens)
        ensures
            r@.path == path@,
            r@.toks == Seq::<LexModel>::empty(),
            r@.index == 0,
    {
        let r = Tokens { path, tokens: empty_lexemes(), index: 0 };
        proof {
            assert(r@.toks =~= Seq::<LexModel>::empty());
        }
        r
    }

    /// Appends a token read from `slice`, which starts at `line` and `column`.
    pub fn push(&mut self, token: Token, slice: String, line: u64, column: u64)
        ensures
            final(self)@.path == old(self)@.path,
            final(self)@.index == old(self)@.index,
            final(self)@.toks == old(self)@.toks.push(
                LexModel { token, slice: slice@, line: line as nat, column: column as nat },
            ),
    {
        push_lexeme(&mut self.tokens, Lexeme { token, slice, line, column });
        proof {
            assert(self@.toks =~= old(self)@.toks.push(
                LexModel { token, slice: slice@, line: line as nat, column: column as nat },
            ));
        }
    }

    /// Moves the cursor on by one token, staying on the last one.
    pub fn next(&mut self)
        requires
            old(self)@.wf(),
            old(self)@.toks.len() > 0,
        ensures
            final(self)@.wf(),
            final(self)@.path == old(self)@.path,
            final(self)@.toks == old(self)@.toks,
            final(self)@.index == clamp(old(self)@.index + 1, old(self)@.toks.len() as int),
    {
        let n = lexeme_count(&self.tokens);
        if self.index + 1 >= n {
            self.index = n - 1;
        } else {
            self.index = self.index + 1;
        }
    }

    /// Moves on by one token if the next one is of kind `token`.
    pub fn expect(&mut self, token: Token) -> (r: bool)
        requires
            old(self)@.wf(),
            old(self)@.toks.len() > 0,
        ensures
            r == (old(self)@.kind_at(old(self)@.index + 1) == token),
            final(self)@.wf(),
            final(self)@.path == old(self)@.path,
            final(self)@.toks == old(self)@.toks,
            final(self)@.index == if r {
                clamp(old(self)@.index + 1, old(self)@.toks.len() as int)
            } else {
                old(self)@.index
            },
    {
        let _n = lexeme_count(&self.tokens);
        if self.get(self.index + 1) == token {
            self.next();
            true
        } else {
            false
        }
    }

    /// The kind of the token under the cursor.
    pub fn current(&self) -> (r: Token)
        requires
            self@.wf(),
            self@.toks.len() > 0,
        ensures
            r == self@.kind_at(self@.index),
    {
        lexeme_at(&self.tokens, self.index).token
    }

    /// The kind of the token after the cursor.
    pub fn peek(&self) -> (r: Token)
        requires
            self@.wf(),
            self@.toks.len() > 0,
        ensures
            r == self@.kind_at(self@.index + 1),
    {
        let _n = lexeme_count(&self.tokens);
        self.get(self.index + 1)
    }

    /// Where the token under the cursor starts.
    pub fn position(&self) -> (r: Position)
        requires
            self@.wf(),
            self@.toks.len() > 0,
        ensures
            r@ == self@.pos_at(self@.index),
    {
        let l = lexeme_at(&self.tokens, self.index);
        Position::new(self.path.as_str()).with_pos(l.line, l.column)
    }

    /// The text of the token under the cursor.
    pub fn slice(&self) -> (r: &str)
        requires
            self@.wf(),
            self@.toks.len() > 0,
        ensures
            r@ == self@.at(self@.index).slice,
    {
        lexeme_at(&self.tokens, self.index).slice.as_str()
    }

    /// The kind of the token at `index`, or of the last one past the end.
    pub fn get(&self, index: usize) -> (r: Token)
        requires
            self@.toks.len() > 0,
        ensures
            r == self@.kind_at(index as int),
    {
        let n = lexeme_count(&self.tokens);
        if index >= n {
            lexeme_at(&self.tokens, n - 1).token
        } else {
            lexeme_at(&self.tokens, index).token
        }
    }
}

} // verus!
