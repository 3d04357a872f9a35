use crate::error::{pos_text, OmgError, PosModel, Position};
use crate::tokens::{LexModel, Token, Tokens, TokensModel};
use vstd::prelude::*;
use vstd::std_specs::iter::IteratorSpec;

verus! {

broadcast use vstd::string::group_string_axioms;

/// A named source text.
pub struct Source {
    pub source: String,
    pub path: String,
}

/// Characters that only move the position on.
pub open spec fn is_space(c: char) -> bool {
    c == ' ' || c == '\t' || c == '\r' || c == '\n'
}

pub open spec fn is_digit(c: char) -> bool {
    '0' <= c <= '9'
}

pub open spec fn is_ident_start(c: char) -> bool {
    ('a' <= c <= 'z') || ('A' <= c <= 'Z') || c == '_'
}

pub open spec fn is_ident_char(c: char) -> bool {
    is_ident_start(c) || is_digit(c)
}

/// How many characters from `i` on continue an identifier.
pub open spec fn ident_run(s: Seq<char>, i: int) -> nat
    decreases s.len() - i,
{
    if 0 <= i < s.len() && is_ident_char(s[i]) {
        1 + ident_run(s, i + 1)
    } else {
        0
    }
}

/// How many characters from `i` on are decimal digits.
pub open spec fn digit_run(s: Seq<char>, i: int) -> nat
    decreases s.len() - i,
{
    if 0 <= i < s.len() && is_digit(s[i]) {
        1 + digit_run(s, i + 1)
    } else {
        0
    }
}

/// An identifier-shaped word: one of the two boolean words, or a name.
pub open spec fn word_kind(w: Seq<char>) -> Token {
    if w == "true"@ {
        Token::True
    } else if w == "false"@ {
        Token::False
    } else {
        Token::Identifier
    }
}

/// The kind of a one-character token.
pub open spec fn punct_kind(c: char) -> Option<Token> {
    if c == '(' {
        Some(Token::ParenthesesOpen)
    } else if c == ')' {
        Some(Token::ParenthesesClose)
    } else if c == ',' {
        Some(Token::Comma)
    } else if c == ';' {
        Some(Token::Semicolon)
    } else if c == '=' {
        Some(Token::Assignment)
    } else if c == '+' {
        Some(Token::OpAdd)
    } else if c == '-' {
        Some(Token::OpSubtract)
    } else if c == '*' {
        Some(Token::OpMultiply)
    } else if c == '/' {
        Some(Token::OpDivide)
    } else if c == '>' {
        Some(Token::OpGreaterThan)
    } else if c == '<' {
        Some(Token::OpLessThan)
    } else {
        None
    }
}

/// The token that starts at `i` (not a space) and its length in characters;
/// `None` where no token starts there.
pub open spec fn token_at(s: Seq<char>, i: int) -> Option<(Token, nat)> {
    let c = s[i];
    if is_ident_start(c) {
        Some((word_kind(s.subrange(i, i + ident_run(s, i))), ident_run(s, i)))
    } else if is_digit(c) {
        Some((Token::Number, digit_run(s, i)))
    } else if c == '=' && i + 1 < s.len() && s[i + 1] == '=' {
        Some((Token::OpEqual, 2))
    } else {
        match punct_kind(c) {
            Some(k) => Some((k, 1)),
            None => None,
        }
    }
}

/// Where lexing stopped: the offending text and where it starts.
pub struct LexFailure {
    pub slice: Seq<char>,
    pub line: nat,
    pub column: nat,
}

/// The tokens of `s` from index `i` on, when that index is at `line` and
/// `column`; the last one is the end of the input.
pub open spec fn lex_from(s: Seq<char>, i: int, line: nat, column: nat) -> Result<
    Seq<LexModel>,
    LexFailure,
>
    decreases s.len() - i,
{
    if i < 0 || i >= s.len() {
        Ok(seq![LexModel { token: Token::EndOfFile, slice: seq![], line, column }])
    } else if s[i] == '\n' {
        lex_from(s, i + 1, line + 1, 1)
    } else if is_space(s[i]) {
        lex_from(s, i + 1, line, column + 1)
    } else {
        match token_at(s, i) {
            None => Err(LexFailure { slice: seq![s[i]], line, column }),
            Some((k, n)) => if n == 0 || i + n > s.len() {
                Err(LexFailure { slice: seq![s[i]], line, column })
            } else {
                match lex_from(s, i + n, line, column + n) {
                    Ok(rest) => Ok(
                        seq![LexModel { token: k, slice: s.subrange(i, i + n), line, column }]
                            + rest,
                    ),
                    Err(e) => Err(e),
                }
            },
        }
    }
}

/// The tokens of a whole source text, which starts at line 1, column 1.
pub open spec fn lex(s: Seq<char>) -> Result<Seq<LexModel>, LexFailure> {
    lex_from(s, 0, 1, 1)
}

/// The message for text that starts no token.
pub open spec fn unknown_msg(slice: Seq<char>) -> Seq<char> {
    "Found unknown character in \""@ + slice + "\" in file."@
}

/// The characters of `s`, in order.
fn chars_of(s: &str) -> (r: Vec<char>)
    ensures
        r@ == s@,
{
    let mut it = s.chars();
    let mut r: Vec<char> = Vec::new();
    loop
        invariant
            it.obeys_prophetic_iter_laws(),
            it.decrease() is Some,
            r@ + it.remaining() == s@,
        decreases it.decrease()->0,
    {
        match it.next() {
            Some(c) => {
                r.push(c);
            },
            None => {
                return r;
            },
        }
    }
}

fn ident_char(c: char) -> (r: bool)
    ensures
        r == is_ident_char(c),
{
    ('a' <= c && c <= 'z') || ('A' <= c && c <= 'Z') || c == '_' || ('0' <= c && c <= '9')
}

fn digit_char(c: char) -> (r: bool)
    ensures
        r == is_digit(c),
{
    '0' <= c && c <= '9'
}

/// Relies on `String::push`: the character goes after the others.
#[verifier::external_body]
fn push_char(s: &mut String, c: char)
    ensures
        final(s)@ == old(s)@.push(c),
{
    s.push(c)
}

/// The text of `cs[from..to]`.
fn text_of(cs: &Vec<char>, from: usize, to: usize) -> (r: String)
    requires
        from <= to <= cs@.len(),
    ensures
        r@ == cs@.subrange(from as int, to as int),
{
    let mut r = String::new();
    let mut k = from;
    proof {
        assert(r@ =~= cs@.subrange(from as int, from as int));
    }
    while k < to
        invariant
            from <= k <= to <= cs@.len(),
            r@ == cs@.subrange(from as int, k as int),
        decreases to - k,
    {
        push_char(&mut r, cs[k]);
        proof {
            assert(r@ =~= cs@.subrange(from as int, k + 1));
        }
        k = k + 1;
    }
    r
}

/// The length of the identifier run at `i`.
fn ident_len(cs: &Vec<char>, i: usize) -> (r: usize)
    requires
        i <= cs@.len(),
    ensures
        r == ident_run(cs@, i as int),
        i + r <= cs@.len(),
{
    let mut j = i;
    while j < cs.len() && ident_char(cs[j])
        invariant
            i <= j <= cs@.len(),
            ident_run(cs@, i as int) == (j - i) + ident_run(cs@, j as int),
        decreases cs@.len() - j,
    {
        j = j + 1;
    }
    j - i
}

/// The length of the digit run at `i`.
fn digit_len(cs: &Vec<char>, i: usize) -> (r: usize)
    requires
        i <= cs@.len(),
    ensures
        r == digit_run(cs@, i as int),
        i + r <= cs@.len(),
{
    let mut j = i;
    while j < cs.len() && digit_char(cs[j])
        invariant
            i <= j <= cs@.len(),
            digit_run(cs@, i as int) == (j - i) + digit_run(cs@, j as int),
        decreases cs@.len() - j,
    {
        j = j + 1;
    }
    j - i
}

/// Whether the `n` characters at `i` spell `w`.
fn spells(cs: &Vec<char>, i: usize, n: usize, w: &str) -> (r: bool)
    requires
        i + n <= cs@.len(),
    ensures
        r == (cs@.subrange(i as int, (i + n) as int) == w@),
{
    let _len = cs.len();
    let wl = w.unicode_len();
    if wl != n {
        proof {
            assert(cs@.subrange(i as int, (i + n) as int).len() != w@.len());
        }
        return false;
    }
    let mut k: usize = 0;
    while k < n
        invariant
            k <= n,
            wl == n,
            n == w@.len(),
            i + n <= cs@.len(),
            cs@.len() <= usize::MAX,
            forall|m: int| 0 <= m < k ==> cs@[i + m] == w@[m],
        decreases n - k,
    {
        if cs[i + k] != w.get_char(k) {
            proof {
                assert(cs@.subrange(i as int, (i + n) as int)[k as int] != w@[k as int]);
            }
            return false;
        }
        k = k + 1;
    }
    proof {
        assert(cs@.subrange(i as int, (i + n) as int) =~= w@);
    }
    true
}

/// The kind of a one-character token.
fn punct(c: char) -> (r: Option<Token>)
    ensures
        r == punct_kind(c),
{
    if c == '(' {
        Some(Token::ParenthesesOpen)
    } else if c == ')' {
        Some(Token::ParenthesesClose)
    } else if c == ',' {
        Some(Token::Comma)
    } else if c == ';' {
        Some(Token::Semicolon)
    } else if c == '=' {
        Some(Token::Assignment)
    } else if c == '+' {
        Some(Token::OpAdd)
    } else if c == '-' {
        Some(Token::OpSubtract)
    } else if c == '*' {
        Some(Token::OpMultiply)
    } else if c == '/' {
        Some(Token::OpDivide)
    } else if c == '>' {
        Some(Token::OpGreaterThan)
    } else if c == '<' {
        Some(Token::OpLessThan)
    } else {
        None
    }
}

/// The token that starts at `i` and its length.
fn scan_token(cs: &Vec<char>, i: usize) -> (r: Option<(Token, usize)>)
    requires
        i < cs@.len(),
    ensures
        match r {
            Some((k, n)) => token_at(cs@, i as int) == Some((k, n as nat)) && 0 < n && i + n
                <= cs@.len(),
            None => token_at(cs@, i as int) is None,
        },
{
    let len = cs.len();
    let c = cs[i];
    if ('a' <= c && c <= 'z') || ('A' <= c && c <= 'Z') || c == '_' {
        let n = ident_len(cs, i);
        let k = if spells(cs, i, n, "true") {
            Token::True
        } else if spells(cs, i, n, "false") {
            Token::False
        } else {
            Token::Identifier
        };
        Some((k, n))
    } else if digit_char(c) {
        Some((Token::Number, digit_len(cs, i)))
    } else if c == '=' && i + 1 < cs.len() && cs[i + 1] == '=' {
        Some((Token::OpEqual, 2))
    } else {
        match punct(c) {
            Some(k) => Some((k, 1)),
            None => None,
        }
    }
}

/// Splits a source text into tokens, each with the text it was read from and
/// where that text starts; the last token is the end of the input. Fails at
/// the first character that starts no token.
pub fn lexer(source: Source) -> (r: Result<Tokens, OmgError>)
    requires
        source.source@.len() < usize::MAX,
    ensures
        match lex(source.source@) {
            Ok(ts) => r matches Ok(t) && t@ == (TokensModel { path: source.path@, toks: ts, index: 0 }),
            Err(f) => r matches Err(e) && e.msg@ == unknown_msg(f.slice) && e.pos@ == pos_text(
                PosModel { src: source.path@, line: f.line, column: f.column },
            ),
        },
{
    let cs = chars_of(source.source.as_str());
    let n = cs.len();
    let mut tokens = Tokens::new(source.path.clone());
    let mut i: usize = 0;
    let mut line: u64 = 1;
    let mut column: u64 = 1;
    loop
        invariant
            n == cs@.len(),
            cs@ == source.source@,
            n < usize::MAX,
            i <= n,
            1 <= line <= i + 1,
            1 <= column <= i + 1,
            tokens@.path == source.path@,
            tokens@.index == 0,
            lex(cs@) == prepend(tokens@.toks, lex_from(cs@, i as int, line as nat, column as nat)),
        decreases n - i,
    {
        if i >= n {
            let ghost acc = tokens@.toks;
            let eof = String::new();
            tokens.push(Token::EndOfFile, eof, line, column);
            proof {
                let x = LexModel { token: Token::EndOfFile, slice: seq![], line: line as nat, column: column as nat };
                assert(eof@ =~= Seq::<char>::empty());
                assert(acc + seq![x] =~= acc.push(x));
                assert(lex_from(cs@, i as int, line as nat, column as nat) == Ok::<Seq<LexModel>, LexFailure>(
                    seq![LexModel { token: Token::EndOfFile, slice: seq![], line: line as nat, column: column as nat }]));
            }
            return Ok(tokens);
        }
        let c = cs[i];
        if c == '\n' {
            line = line + 1;
            column = 1;
            i = i + 1;
        } else if c == ' ' || c == '\t' || c == '\r' {
            column = column + 1;
            i = i + 1;
        } else {
            match scan_token(&cs, i) {
                None => {
                    let mut msg = "Found unknown character in \"".to_owned();
                    let bad = text_of(&cs, i, i + 1);
                    msg.append(bad.as_str());
                    msg.append("\" in file.");
                    let pos = Position::new(source.path.as_str()).with_pos(line, column);
                    proof {
                        assert(seq![cs@[i as int]] =~= source.source@.subrange(i as int, i + 1));
                    }
                    return Err(OmgError::new(msg, pos));
                },
                Some((k, len)) => {
                    let slice = text_of(&cs, i, i + len);
                    proof {
                        let item = LexModel { token: k, slice: slice@, line: line as nat, column: column as nat };
                        let rest = lex_from(cs@, (i + len) as int, line as nat, (column + len) as nat);
                        assert(prepend(tokens@.toks, lex_from(cs@, i as int, line as nat, column as nat))
                            == prepend(tokens@.toks.push(item), rest)) by {
                            match rest {
                                Ok(rs) => {
                                    assert(tokens@.toks + (seq![item] + rs) =~= tokens@.toks.push(item) + rs);
                                },
                                Err(_) => {},
                            }
                        }
                    }
                    tokens.push(k, slice, line, column);
                    i = i + len;
                    column = column + len as u64;
                },
            }
        }
    }
}

/// `acc` in front of what `r` lexed; a failure stays a failure.
pub open spec fn prepend(acc: Seq<LexModel>, r: Result<Seq<LexModel>, LexFailure>) -> Result<
    Seq<LexModel>,
    LexFailure,
> {
    match r {
        Ok(rest) => Ok(acc + rest),
        Err(e) => Err(e),
    }
}

impl Tokens {
    /// The tokens of `code`, a source text named `file`; see [`lexer`].
    pub fn lex(code: &str, file: &str) -> (r: Result<Tokens, OmgError>)
        requires
            code@.len() < usize::MAX,
        ensures
            match lex(code@) {
                Ok(ts) => r matches Ok(t) && t@ == (TokensModel { path: file@, toks: ts, index: 0 }),
                Err(f) => r matches Err(e) && e.msg@ == unknown_msg(f.slice) && e.pos@ == pos_text(
                    PosModel { src: file@, line: f.line, column: f.column },
                ),
            },
    {
        lexer(Source { source: code.to_owned(), path: file.to_owned() })
    }
}

/// What lexing gives, when it succeeds, ends with the end of the input and
/// with nothing else of that kind.
pub proof fn lemma_lex_ends_once(s: Seq<char>, i: int, line: nat, column: nat)
    ensures
        lex_from(s, i, line, column) matches Ok(ts) ==> ts.len() > 0 && ts.last().token
            == Token::EndOfFile && forall|k: int|
            0 <= k < ts.len() - 1 ==> #[trigger] ts[k].token != Token::EndOfFile,
    decreases s.len() - i,
{
    if 0 <= i < s.len() {
        if s[i] == '\n' {
            lemma_lex_ends_once(s, i + 1, line + 1, 1);
        } else if is_space(s[i]) {
            lemma_lex_ends_once(s, i + 1, line, column + 1);
        } else if let Some((k, n)) = token_at(s, i) {
            if n > 0 && i + n <= s.len() {
                lemma_lex_ends_once(s, i + n, line, column + n);
                if let Ok(rest) = lex_from(s, i + n, line, column + n) {
                    let ts = lex_from(s, i, line, column)->Ok_0;
                    assert(k != Token::EndOfFile) by {
                        if is_ident_start(s[i]) {
                        } else {
                        }
                    }
                    assert forall|q: int| 0 <= q < ts.len() - 1 implies #[trigger] ts[q].token
                        != Token::EndOfFile by {
                        if q > 0 {
                            assert(ts[q] == rest[q - 1]);
                        }
                    }
                }
            }
        }
    }
}

} // verus!
