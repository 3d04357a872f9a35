use crate::ast::{exp_model, exps_model, Exp, OpType, SExp, Value};
use crate::error::{pos_text, OmgError, PosModel};
use crate::lexer::{digit_run, is_digit, lex, lex_from, LexFailure};
use crate::tokens::{clamp, LexModel, Token, Tokens, TokensModel};
use vstd::prelude::*;

verus! {

/// Why parsing stopped: a message and the position it refers to.
pub struct ParseFailure {
    pub msg: Seq<char>,
    pub pos: PosModel,
}

/// A token sequence that the parser can walk: it ends with the end of the
/// input, and the cursor stands on a token.
pub open spec fn stream_wf(t: TokensModel) -> bool {
    &&& t.toks.len() > 0
    &&& t.toks.last().token == Token::EndOfFile
    &&& 0 <= t.index < t.toks.len()
}

/// The tokens and source name of `t`, without its cursor.
pub open spec fn stream(t: TokensModel) -> TokensModel {
    TokensModel { path: t.path, toks: t.toks, index: 0 }
}

/// The operator that a token stands for, if any.
pub open spec fn op_of(k: Token) -> Option<OpType> {
    match k {
        Token::OpAdd => Some(OpType::Add),
        Token::OpSubtract => Some(OpType::Subtract),
        Token::OpMultiply => Some(OpType::Multiply),
        Token::OpDivide => Some(OpType::Divide),
        Token::OpEqual => Some(OpType::Equal),
        Token::OpGreaterThan => Some(OpType::GreaterThan),
        Token::OpLessThan => Some(OpType::LessThan),
        _ => None,
    }
}

/// A failure whose message ends with the text of the token at `i`.
pub open spec fn found(t: TokensModel, prefix: Seq<char>, i: int) -> ParseFailure {
    ParseFailure { msg: prefix + t.at(i).slice, pos: t.pos_at(i) }
}

/// What a well-formed stream never reaches: a step that does not move on.
pub open spec fn stuck(t: TokensModel, i: int) -> ParseFailure {
    found(t, "Parser made no progress at "@, i)
}

/// The message for a number literal that the number reader refused.
pub open spec fn number_msg(slice: Seq<char>, why: Seq<char>) -> Seq<char> {
    "Unable to covert "@ + slice + " into an integer: "@ + why
}

/// The operand that starts at token `i` (a name, a call, an assignment or a
/// literal), and the index of its last token.
pub open spec fn parse_operand(
    t: TokensModel,
    i: int,
    conv: spec_fn(Seq<char>) -> Result<u64, Seq<char>>,
) -> Result<(SExp, int), ParseFailure>
    decreases t.toks.len() - i, 1int,
{
    let n = t.toks.len() as int;
    let name = t.at(i).slice;
    let pos = t.pos_at(i);
    if i < 0 || i >= n {
        Err(stuck(t, i))
    } else {
        match t.kind_at(i) {
            Token::Identifier => if t.kind_at(i + 1) == Token::ParenthesesOpen {
                let p = clamp(i + 1, n);
                if t.kind_at(p + 1) == Token::ParenthesesClose {
                    Ok((SExp::Call(name, seq![], pos), clamp(p + 1, n)))
                } else if p <= i {
                    Err(stuck(t, i))
                } else {
                    match parse_args(t, p, conv) {
                        Ok((args, j)) => Ok((SExp::Call(name, args, pos), j)),
                        Err(e) => Err(e),
                    }
                }
            } else if t.kind_at(i + 1) == Token::Assignment {
                let k = clamp(clamp(i + 1, n) + 1, n);
                if k <= i {
                    Err(stuck(t, i))
                } else {
                    match parse_exp(t, k, conv) {
                        Ok((v, j)) => Ok((SExp::Assignment(name, Box::new(v), pos), j)),
                        Err(e) => Err(e),
                    }
                }
            } else {
                Ok((SExp::Variable(name, pos), i))
            },
            Token::Number => match conv(name) {
                Ok(b) => Ok((SExp::Literal(Value::Number(b), pos), i)),
                Err(why) => Err(ParseFailure { msg: number_msg(name, why), pos }),
            },
            Token::True => Ok((SExp::Literal(Value::True, pos), i)),
            Token::False => Ok((SExp::Literal(Value::False, pos), i)),
            _ => Err(found(t, "Expected identifier or number found "@, i)),
        }
    }
}

/// One expression starting at token `i`, and the index of its last token:
/// an operand, then, if an operator follows, that operator and the
/// expression after it (so operators group to the right).
/// `conv` reads a number literal into a binary64 bit pattern, or says why not.
pub open spec fn parse_exp(
    t: TokensModel,
    i: int,
    conv: spec_fn(Seq<char>) -> Result<u64, Seq<char>>,
) -> Result<(SExp, int), ParseFailure>
    decreases t.toks.len() - i, 2int,
{
    let n = t.toks.len() as int;
    if i < 0 || i >= n {
        Err(stuck(t, i))
    } else {
        match parse_operand(t, i, conv) {
            Err(e) => Err(e),
            Ok((l, j)) => match op_of(t.kind_at(j + 1)) {
                None => Ok((l, j)),
                Some(op) => {
                    let k = clamp(clamp(j + 1, n) + 1, n);
                    if k <= i {
                        Err(stuck(t, i))
                    } else {
                        match parse_exp(t, k, conv) {
                            Ok((r, m)) => Ok(
                                (SExp::Operator(op, Box::new(l), Box::new(r), l.pos()), m),
                            ),
                            Err(e) => Err(e),
                        }
                    }
                },
            },
        }
    }
}

/// The arguments of a call after the `(` or `,` at `c`, up to and including
/// the closing `)`, whose index comes with them.
pub open spec fn parse_args(
    t: TokensModel,
    c: int,
    conv: spec_fn(Seq<char>) -> Result<u64, Seq<char>>,
) -> Result<(Seq<SExp>, int), ParseFailure>
    decreases t.toks.len() - c, 0int,
{
    let n = t.toks.len() as int;
    let s = clamp(c + 1, n);
    if c < 0 || c >= n || s <= c {
        Err(stuck(t, c))
    } else {
        match parse_exp(t, s, conv) {
            Err(e) => Err(e),
            Ok((a, j)) => {
                let d = clamp(j + 1, n);
                if t.kind_at(d) == Token::ParenthesesClose {
                    Ok((seq![a], d))
                } else if t.kind_at(d) == Token::Comma {
                    if d <= c {
                        Err(stuck(t, c))
                    } else {
                        match parse_args(t, d, conv) {
                            Ok((rest, m)) => Ok((seq![a] + rest, m)),
                            Err(e) => Err(e),
                        }
                    }
                } else {
                    Err(found(t, "Expected ) or , found "@, d))
                }
            },
        }
    }
}

/// The statements of a program from token `i` on: each is an expression
/// followed by `;`; one that the end of the input follows instead is read
/// and left out.
pub open spec fn parse_statements(
    t: TokensModel,
    i: int,
    conv: spec_fn(Seq<char>) -> Result<u64, Seq<char>>,
) -> Result<Seq<SExp>, ParseFailure>
    decreases t.toks.len() - i,
{
    let n = t.toks.len() as int;
    if i < 0 || i >= n {
        Err(stuck(t, i))
    } else {
        match parse_exp(t, i, conv) {
            Err(e) => Err(e),
            Ok((e, j)) => {
                let d = clamp(j + 1, n);
                if t.kind_at(d) == Token::Semicolon {
                    let m = clamp(d + 1, n);
                    if t.kind_at(m) == Token::EndOfFile {
                        Ok(seq![e])
                    } else if m <= i {
                        Err(stuck(t, i))
                    } else {
                        match parse_statements(t, m, conv) {
                            Ok(rest) => Ok(seq![e] + rest),
                            Err(er) => Err(er),
                        }
                    }
                } else if t.kind_at(d) == Token::EndOfFile {
                    Ok(seq![])
                } else {
                    Err(found(t, "Expected ; found "@, d))
                }
            },
        }
    }
}

/// `f` reads number literals as `conv` says.
pub open spec fn reads_numbers<F: Fn(&str) -> Result<u64, String>>(
    f: F,
    conv: spec_fn(Seq<char>) -> Result<u64, Seq<char>>,
) -> bool {
    forall|s: &str, r: Result<u64, String>|
        #[trigger] call_ensures(f, (s,), r) ==> conv(s@) == match r {
            Ok(b) => Ok::<u64, Seq<char>>(b),
            Err(m) => Err(m@),
        }
}

/// `f` accepts every text.
pub open spec fn reads_any<F: Fn(&str) -> Result<u64, String>>(f: F) -> bool {
    forall|s: &str| call_requires(f, (s,))
}

/// `r` is what `spec` describes, with the cursor at `index` on success.
pub open spec fn exp_outcome(
    r: Result<Exp, OmgError>,
    index: int,
    spec: Result<(SExp, int), ParseFailure>,
) -> bool {
    match spec {
        Ok((e, j)) => r matches Ok(x) && exp_model(x) == e && index == j,
        Err(f) => r matches Err(er) && er.msg@ == f.msg && er.pos@ == pos_text(f.pos),
    }
}

/// The error for the token under the cursor, after `prefix`.
fn fail_here(tokens: &Tokens, prefix: &str) -> (r: OmgError)
    requires
        stream_wf(tokens@),
    ensures
        r.msg@ == found(tokens@, prefix@, tokens@.index).msg,
        r.pos@ == pos_text(found(tokens@, prefix@, tokens@.index).pos),
{
    let mut msg = prefix.to_owned();
    msg.append(tokens.slice());
    OmgError::new(msg, tokens.position())
}

/// Reads one expression from the cursor on, leaving the cursor on its last
/// token. Operators group to the right: `1 - 2 - 3` is `1 - (2 - 3)`.
/// `number` reads a number literal into a binary64 bit pattern.
pub fn parse<F: Fn(&str) -> Result<u64, String>>(tokens: &mut Tokens, number: &F) -> (r: Result<
    Exp,
    OmgError,
>)
    requires
        stream_wf(old(tokens)@),
        reads_any(*number),
    ensures
        stream_wf(final(tokens)@),
        final(tokens)@.toks == old(tokens)@.toks,
        final(tokens)@.path == old(tokens)@.path,
        old(tokens)@.index <= final(tokens)@.index,
        forall|conv|
            reads_numbers(*number, conv) ==> exp_outcome(
                r,
                final(tokens)@.index,
                parse_exp(stream(old(tokens)@), old(tokens)@.index, conv),
            ),
    decreases old(tokens)@.toks.len() - old(tokens)@.index, 2int,
{
    let ghost t0 = tokens@;
    let lhs = match tokens.current() {
        Token::Identifier => parse_identifier(tokens, number),
        Token::Number => {
            let pos = tokens.position();
            let read = number(tokens.slice());
            match read {
                Ok(b) => Ok(Exp::new_literal(Value::Number(b), pos)),
                Err(why) => {
                    let mut msg = "Unable to covert ".to_owned();
                    msg.append(tokens.slice());
                    msg.append(" into an integer: ");
                    msg.append(why.as_str());
                    Err(OmgError::new(msg, pos))
                },
            }
        },
        Token::True => Ok(Exp::new_literal(Value::True, tokens.position())),
        Token::False => Ok(Exp::new_literal(Value::False, tokens.position())),
        _ => Err(fail_here(tokens, "Expected identifier or number found ")),
    };
    proof {
        assert forall|conv| reads_numbers(*number, conv) implies exp_outcome(
            lhs,
            tokens@.index,
            parse_operand(stream(t0), t0.index, conv),
        ) by {}
    }
    let lhs = match lhs {
        Ok(l) => l,
        Err(e) => {
            return Err(e);
        },
    };
    let op_type = match tokens.peek() {
        Token::OpAdd => OpType::Add,
        Token::OpSubtract => OpType::Subtract,
        Token::OpMultiply => OpType::Multiply,
        Token::OpDivide => OpType::Divide,
        Token::OpEqual => OpType::Equal,
        Token::OpGreaterThan => OpType::GreaterThan,
        Token::OpLessThan => OpType::LessThan,
        _ => {
            return Ok(lhs);
        },
    };
    tokens.next();
    tokens.next();
    let rhs = match parse(tokens, number) {
        Ok(x) => x,
        Err(e) => {
            return Err(e);
        },
    };
    let pos = lhs.position();
    Ok(Exp::new_operator(op_type, Box::new(lhs), Box::new(rhs), pos))
}

/// Reads the operand that starts at the name under the cursor: a call, an
/// assignment, or the name itself.
fn parse_identifier<F: Fn(&str) -> Result<u64, String>>(tokens: &mut Tokens, number: &F) -> (r:
    Result<Exp, OmgError>)
    requires
        stream_wf(old(tokens)@),
        reads_any(*number),
        old(tokens)@.kind_at(old(tokens)@.index) == Token::Identifier,
    ensures
        stream_wf(final(tokens)@),
        final(tokens)@.toks == old(tokens)@.toks,
        final(tokens)@.path == old(tokens)@.path,
        old(tokens)@.index <= final(tokens)@.index,
        forall|conv|
            reads_numbers(*number, conv) ==> exp_outcome(
                r,
                final(tokens)@.index,
                parse_operand(stream(old(tokens)@), old(tokens)@.index, conv),
            ),
    decreases old(tokens)@.toks.len() - old(tokens)@.index, 1int,
{
    let ghost t0 = tokens@;
    match tokens.peek() {
        Token::ParenthesesOpen => parse_call(tokens, number),
        Token::Assignment => {
            let name = tokens.slice().to_owned();
            let pos = tokens.position();
            tokens.next();
            tokens.next();
            match parse(tokens, number) {
                Ok(exp) => Ok(Exp::new_assignment(name, Box::new(exp), pos)),
                Err(e) => Err(e),
            }
        },
        _ => Ok(Exp::new_variable(tokens.slice().to_owned(), tokens.position())),
    }
}

/// Reads a call: the name under the cursor, `(`, arguments separated by `,`,
/// and `)`, on which the cursor stops.
fn parse_call<F: Fn(&str) -> Result<u64, String>>(tokens: &mut Tokens, number: &F) -> (r: Result<
    Exp,
    OmgError,
>)
    requires
        stream_wf(old(tokens)@),
        reads_any(*number),
        old(tokens)@.kind_at(old(tokens)@.index) == Token::Identifier,
        old(tokens)@.kind_at(old(tokens)@.index + 1) == Token::ParenthesesOpen,
    ensures
        stream_wf(final(tokens)@),
        final(tokens)@.toks == old(tokens)@.toks,
        final(tokens)@.path == old(tokens)@.path,
        old(tokens)@.index <= final(tokens)@.index,
        forall|conv|
            reads_numbers(*number, conv) ==> exp_outcome(
                r,
                final(tokens)@.index,
                parse_operand(stream(old(tokens)@), old(tokens)@.index, conv),
            ),
    decreases old(tokens)@.toks.len() - old(tokens)@.index, 0int,
{
    let ghost t0 = tokens@;
    let pos = tokens.position();
    let name = tokens.slice().to_owned();
    tokens.next();
    let ghost p = tokens@.index;
    assert(t0.kind_at(p) == Token::ParenthesesOpen);
    let mut args: Vec<Exp> = Vec::new();
    if !tokens.expect(Token::ParenthesesClose) {
        proof {
            assert(exps_model(args@) =~= Seq::<SExp>::empty());
            assert forall|rest: Seq<SExp>| exps_model(args@) + rest == rest by {
                assert(exps_model(args@) + rest =~= rest);
            }
        }
        loop
            invariant_except_break
                tokens@.index == p || tokens@.kind_at(tokens@.index) == Token::Comma,
                forall|conv|
                    reads_numbers(*number, conv) ==> parse_operand(stream(t0), t0.index, conv) == match parse_args(
                        stream(t0),
                        tokens@.index,
                        conv,
                    ) {
                        Ok((rest, j)) => Ok::<(SExp, int), ParseFailure>(
                            (SExp::Call(name@, exps_model(args@) + rest, pos@), j),
                        ),
                        Err(e) => Err(e),
                    },
            invariant
                stream_wf(tokens@),
                reads_any(*number),
                t0 == old(tokens)@,
                tokens@.toks == t0.toks,
                tokens@.path == t0.path,
                p < tokens@.index + 1,
                p <= tokens@.index,
                t0.index < p,
                t0.kind_at(p) == Token::ParenthesesOpen,
            ensures
                forall|conv|
                    reads_numbers(*number, conv) ==> parse_operand(stream(t0), t0.index, conv)
                        == Ok::<(SExp, int), ParseFailure>(
                        (SExp::Call(name@, exps_model(args@), pos@), tokens@.index),
                    ),
            decreases tokens@.toks.len() - tokens@.index,
        {
            let ghost c = tokens@.index;
            let ghost before = args@;
            assert(tokens@.kind_at(c) != Token::EndOfFile);
            tokens.next();
            let ghost sidx = tokens@.index;
            assert(sidx == c + 1);
            let arg = match parse(tokens, number) {
                Ok(a) => a,
                Err(e) => {
                    proof {
                        assert forall|conv| reads_numbers(*number, conv) implies parse_args(
                            stream(t0),
                            c,
                            conv,
                        ) is Err && parse_args(stream(t0), c, conv)->Err_0 == parse_exp(
                            stream(t0),
                            sidx,
                            conv,
                        )->Err_0 by {}
                    }
                    return Err(e);
                },
            };
            let ghost a = exp_model(arg);
            args.push(arg);
            proof {
                assert(exps_model(args@) =~= exps_model(before).push(a));
            }
            tokens.next();
            match tokens.current() {
                Token::ParenthesesClose => {
                    proof {
                        assert forall|conv| reads_numbers(*number, conv) implies parse_args(
                            stream(t0),
                            c,
                            conv,
                        ) == Ok::<(Seq<SExp>, int), ParseFailure>((seq![a], tokens@.index)) by {}
                        assert(exps_model(before) + seq![a] =~= exps_model(args@));
                    }
                    break ;
                },
                Token::Comma => {
                    proof {
                        assert forall|conv| reads_numbers(*number, conv) implies parse_args(
                            stream(t0),
                            c,
                            conv,
                        ) == match parse_args(stream(t0), tokens@.index, conv) {
                            Ok((rest, m)) => Ok::<(Seq<SExp>, int), ParseFailure>(
                                (seq![a] + rest, m),
                            ),
                            Err(e) => Err(e),
                        } by {}
                        assert forall|rest: Seq<SExp>|
                            exps_model(before) + (seq![a] + rest) == exps_model(args@) + rest by {
                            assert(exps_model(before) + (seq![a] + rest) =~= exps_model(args@)
                                + rest);
                        }
                    }
                },
                _ => {
                    return Err(fail_here(tokens, "Expected ) or , found "));
                },
            }
        }
    } else {
        proof {
            assert(exps_model(args@) =~= Seq::<SExp>::empty());
        }
    }
    Ok(Exp::new_call(name, args, pos))
}

/// Reads a whole program into a block: expressions each followed by `;`, up
/// to the end of the input. An expression that the end of the input follows
/// without `;` is read and left out; any other token after an expression is
/// an error. The block stands at the position of its first token.
pub fn parse_block<F: Fn(&str) -> Result<u64, String>>(tokens: &mut Tokens, number: &F) -> (r:
    Result<Exp, OmgError>)
    requires
        stream_wf(old(tokens)@),
        reads_any(*number),
    ensures
        stream_wf(final(tokens)@),
        final(tokens)@.toks == old(tokens)@.toks,
        final(tokens)@.path == old(tokens)@.path,
        forall|conv|
            reads_numbers(*number, conv) ==> match parse_statements(
                stream(old(tokens)@),
                old(tokens)@.index,
                conv,
            ) {
                Ok(ss) => r matches Ok(x) && exp_model(x) == SExp::Block(
                    ss,
                    old(tokens)@.pos_at(old(tokens)@.index),
                ),
                Err(f) => r matches Err(e) && e.msg@ == f.msg && e.pos@ == pos_text(f.pos),
            },
{
    let ghost t0 = tokens@;
    let mut statements: Vec<Exp> = Vec::new();
    let pos = tokens.position();
    proof {
        assert(exps_model(statements@) =~= Seq::<SExp>::empty());
        assert forall|rest: Seq<SExp>| exps_model(statements@) + rest == rest by {
            assert(exps_model(statements@) + rest =~= rest);
        }
    }
    loop
        invariant_except_break
            forall|conv|
                reads_numbers(*number, conv) ==> parse_statements(stream(t0), t0.index, conv)
                    == match parse_statements(stream(t0), tokens@.index, conv) {
                    Ok(rest) => Ok::<Seq<SExp>, ParseFailure>(exps_model(statements@) + rest),
                    Err(e) => Err(e),
                },
        invariant
            stream_wf(tokens@),
            reads_any(*number),
            t0 == old(tokens)@,
            tokens@.toks == t0.toks,
            tokens@.path == t0.path,
            t0.index <= tokens@.index,
        ensures
            forall|conv|
                reads_numbers(*number, conv) ==> parse_statements(stream(t0), t0.index, conv)
                    == Ok::<Seq<SExp>, ParseFailure>(exps_model(statements@)),
        decreases tokens@.toks.len() - tokens@.index,
    {
        let ghost c = tokens@.index;
        let ghost before = statements@;
        let exp = match parse(tokens, number) {
            Ok(e) => e,
            Err(e) => {
                proof {
                    assert forall|conv| reads_numbers(*number, conv) implies parse_statements(
                        stream(t0),
                        c,
                        conv,
                    ) is Err && parse_statements(stream(t0), c, conv)->Err_0 == parse_exp(
                        stream(t0),
                        c,
                        conv,
                    )->Err_0 by {}
                }
                return Err(e);
            },
        };
        let ghost e = exp_model(exp);
        tokens.next();
        let token = tokens.current();
        if token == Token::Semicolon {
            statements.push(exp);
            proof {
                assert(exps_model(statements@) =~= exps_model(before).push(e));
            }
            tokens.next();
            proof {
                if tokens@.kind_at(tokens@.index) == Token::EndOfFile {
                    assert forall|conv| reads_numbers(*number, conv) implies parse_statements(
                        stream(t0),
                        c,
                        conv,
                    ) == Ok::<Seq<SExp>, ParseFailure>(seq![e]) by {}
                    assert(exps_model(before) + seq![e] =~= exps_model(statements@));
                } else {
                    assert forall|conv| reads_numbers(*number, conv) implies parse_statements(
                        stream(t0),
                        c,
                        conv,
                    ) == match parse_statements(stream(t0), tokens@.index, conv) {
                        Ok(rest) => Ok::<Seq<SExp>, ParseFailure>(seq![e] + rest),
                        Err(er) => Err(er),
                    } by {}
                    assert forall|rest: Seq<SExp>|
                        exps_model(before) + (seq![e] + rest) == exps_model(statements@)
                            + rest by {
                        assert(exps_model(before) + (seq![e] + rest) =~= exps_model(statements@)
                            + rest);
                    }
                }
            }
        } else if token != Token::EndOfFile {
            return Err(fail_here(tokens, "Expected ; found "));
        } else {
            proof {
                assert forall|conv| reads_numbers(*number, conv) implies parse_statements(
                    stream(t0),
                    c,
                    conv,
                ) == Ok::<Seq<SExp>, ParseFailure>(seq![]) by {}
                assert(exps_model(before) + seq![] =~= exps_model(statements@));
            }
        }
        if tokens.current() == Token::EndOfFile {
            break ;
        }
    }
    Ok(Exp::new_block(statements, pos))
}

proof fn lemma_operand_advances(
    t: TokensModel,
    i: int,
    conv: spec_fn(Seq<char>) -> Result<u64, Seq<char>>,
)
    requires
        t.toks.len() > 0,
    ensures
        parse_operand(t, i, conv) matches Ok((_, j)) ==> i <= j < t.toks.len(),
    decreases t.toks.len() - i, 1int,
{
    let n = t.toks.len() as int;
    if 0 <= i < n && t.kind_at(i) == Token::Identifier {
        let p = clamp(i + 1, n);
        if t.kind_at(i + 1) == Token::ParenthesesOpen {
            if t.kind_at(p + 1) != Token::ParenthesesClose && p > i {
                lemma_args_advances(t, p, conv);
            }
        } else if t.kind_at(i + 1) == Token::Assignment {
            let k = clamp(clamp(i + 1, n) + 1, n);
            if k > i {
                lemma_exp_advances(t, k, conv);
            }
        }
    }
}

proof fn lemma_exp_advances(t: TokensModel, i: int, conv: spec_fn(Seq<char>) -> Result<u64, Seq<char>>)
    requires
        t.toks.len() > 0,
    ensures
        parse_exp(t, i, conv) matches Ok((_, j)) ==> i <= j < t.toks.len(),
    decreases t.toks.len() - i, 2int,
{
    let n = t.toks.len() as int;
    if 0 <= i < n {
        lemma_operand_advances(t, i, conv);
        if let Ok((l, j)) = parse_operand(t, i, conv) {
            let k = clamp(clamp(j + 1, n) + 1, n);
            if op_of(t.kind_at(j + 1)) is Some && k > i {
                lemma_exp_advances(t, k, conv);
            }
        }
    }
}

proof fn lemma_args_advances(t: TokensModel, c: int, conv: spec_fn(Seq<char>) -> Result<u64, Seq<char>>)
    requires
        t.toks.len() > 0,
    ensures
        parse_args(t, c, conv) matches Ok((_, j)) ==> c < j < t.toks.len(),
    decreases t.toks.len() - c, 0int,
{
    let n = t.toks.len() as int;
    let s = clamp(c + 1, n);
    if 0 <= c < n && s > c {
        lemma_exp_advances(t, s, conv);
        if let Ok((a, j)) = parse_exp(t, s, conv) {
            let d = clamp(j + 1, n);
            if t.kind_at(d) == Token::Comma && d > c {
                lemma_args_advances(t, d, conv);
            }
        }
    }
}

/// A non-empty run of decimal digits.
pub open spec fn is_numeral(n: Seq<char>) -> bool {
    n.len() > 0 && forall|k: int| 0 <= k < n.len() ==> is_digit(#[trigger] n[k])
}

proof fn lemma_digit_run_to_end(n: Seq<char>, i: int)
    requires
        is_numeral(n),
        0 <= i <= n.len(),
    ensures
        digit_run(n, i) == n.len() - i,
    decreases n.len() - i,
{
    if i < n.len() {
        lemma_digit_run_to_end(n, i + 1);
    }
}

/// A numeral alone reads as one number literal, which holds what the number
/// reader `conv` makes of the numeral's text, at line 1, column 1; the reader's
/// refusal is a parse error there.
pub proof fn lemma_parse_numeral(
    n: Seq<char>,
    path: Seq<char>,
    conv: spec_fn(Seq<char>) -> Result<u64, Seq<char>>,
)
    requires
        is_numeral(n),
    ensures
        lex(n) == Ok::<Seq<LexModel>, LexFailure>(
            seq![
                LexModel { token: Token::Number, slice: n, line: 1, column: 1 },
                LexModel { token: Token::EndOfFile, slice: seq![], line: 1, column: n.len() + 1 },
            ],
        ),
        parse_exp(TokensModel { path, toks: lex(n)->Ok_0, index: 0 }, 0, conv) == match conv(n) {
            Ok(b) => Ok::<(SExp, int), ParseFailure>(
                (SExp::Literal(Value::Number(b), PosModel { src: path, line: 1, column: 1 }), 0),
            ),
            Err(why) => Err(
                ParseFailure {
                    msg: number_msg(n, why),
                    pos: PosModel { src: path, line: 1, column: 1 },
                },
            ),
        },
{
    lemma_digit_run_to_end(n, 0);
    assert(is_digit(n[0]));
    assert(n.subrange(0, n.len() as int) =~= n);
    let eof = LexModel { token: Token::EndOfFile, slice: seq![], line: 1, column: n.len() + 1 };
    assert(lex_from(n, n.len() as int, 1, 1 + n.len()) == Ok::<Seq<LexModel>, LexFailure>(
        seq![eof],
    ));
    let num = LexModel { token: Token::Number, slice: n, line: 1, column: 1 };
    assert(seq![num] + seq![eof] =~= seq![num, eof]);
    let t = TokensModel { path, toks: seq![num, eof], index: 0 };
    assert(t.kind_at(0) == Token::Number);
    assert(t.at(0).slice == n);
    assert(t.pos_at(0) == PosModel { src: path, line: 1, column: 1 });
    assert(t.kind_at(1) == Token::EndOfFile);
    assert(parse_operand(t, 0, conv) == match conv(n) {
        Ok(b) => Ok::<(SExp, int), ParseFailure>(
            (SExp::Literal(Value::Number(b), PosModel { src: path, line: 1, column: 1 }), 0),
        ),
        Err(why) => Err(
            ParseFailure { msg: number_msg(n, why), pos: PosModel { src: path, line: 1, column: 1 } },
        ),
    });
}

/// Where argument `m` starts in a call whose name is at `i`, when argument
/// `m` ends at `ends[m]`: after the `(`, or after the `,` that follows the
/// argument before it.
pub open spec fn arg_start(i: int, ends: Seq<int>, m: int) -> int {
    if m == 0 {
        i + 2
    } else {
        ends[m - 1] + 2
    }
}

/// The arguments of a call from argument `m` on.
proof fn lemma_args_from(
    t: TokensModel,
    i: int,
    conv: spec_fn(Seq<char>) -> Result<u64, Seq<char>>,
    args: Seq<SExp>,
    ends: Seq<int>,
    m: int,
)
    requires
        t.toks.len() > 0,
        t.toks.last().token == Token::EndOfFile,
        0 <= i < t.toks.len(),
        t.kind_at(i + 1) == Token::ParenthesesOpen,
        args.len() == ends.len(),
        0 <= m < args.len(),
        forall|q: int|
            0 <= q < args.len() ==> parse_exp(t, arg_start(i, ends, q), conv) == Ok::<
                (SExp, int),
                ParseFailure,
            >((args[q], ends[q])),
        forall|q: int| 0 <= q < args.len() - 1 ==> t.kind_at(ends[q] + 1) == Token::Comma,
        t.kind_at(ends.last() + 1) == Token::ParenthesesClose,
    ensures
        parse_args(t, arg_start(i, ends, m) - 1, conv) == Ok::<(Seq<SExp>, int), ParseFailure>(
            (args.subrange(m, args.len() as int), ends.last() + 1),
        ),
    decreases args.len() - m,
{
    let n = t.toks.len() as int;
    let k = args.len() as int;
    let c = arg_start(i, ends, m) - 1;
    if m > 0 {
        assert(t.kind_at(ends[m - 1] + 1) == Token::Comma);
        lemma_exp_advances(t, arg_start(i, ends, m - 1), conv);
    }
    assert(c < n - 1);
    let s = c + 1;
    assert(clamp(c + 1, n) == s);
    lemma_exp_advances(t, s, conv);
    let d = ends[m] + 1;
    if m == k - 1 {
        assert(d < n - 1);
        assert(args.subrange(m, k) =~= seq![args[m]]);
    } else {
        assert(t.kind_at(ends[m] + 1) == Token::Comma);
        assert(d < n - 1);
        lemma_args_from(t, i, conv, args, ends, m + 1);
        assert(arg_start(i, ends, m + 1) - 1 == d);
        assert(seq![args[m]] + args.subrange(m + 1, k) =~= args.subrange(m, k));
    }
}

/// A call reads as a call node that holds the name under the cursor and the
/// arguments between the parentheses, in order, each as it reads on its own
/// where it stands, and that stands at the name. The node ends at the `)`.
pub proof fn lemma_parse_call(
    t: TokensModel,
    i: int,
    conv: spec_fn(Seq<char>) -> Result<u64, Seq<char>>,
    args: Seq<SExp>,
    ends: Seq<int>,
)
    requires
        t.toks.len() > 0,
        t.toks.last().token == Token::EndOfFile,
        0 <= i < t.toks.len(),
        t.kind_at(i) == Token::Identifier,
        t.kind_at(i + 1) == Token::ParenthesesOpen,
        args.len() == ends.len(),
        args.len() == 0 ==> t.kind_at(i + 2) == Token::ParenthesesClose,
        forall|q: int|
            0 <= q < args.len() ==> parse_exp(t, arg_start(i, ends, q), conv) == Ok::<
                (SExp, int),
                ParseFailure,
            >((args[q], ends[q])),
        forall|q: int| 0 <= q < args.len() - 1 ==> t.kind_at(ends[q] + 1) == Token::Comma,
        args.len() > 0 ==> t.kind_at(ends.last() + 1) == Token::ParenthesesClose,
    ensures
        ({
            let close = if args.len() == 0 {
                i + 2
            } else {
                ends.last() + 1
            };
            &&& parse_operand(t, i, conv) == Ok::<(SExp, int), ParseFailure>(
                (SExp::Call(t.at(i).slice, args, t.pos_at(i)), close),
            )
            &&& op_of(t.kind_at(close + 1)) is None ==> parse_exp(t, i, conv) == Ok::<
                (SExp, int),
                ParseFailure,
            >((SExp::Call(t.at(i).slice, args, t.pos_at(i)), close))
        }),
{
    let n = t.toks.len() as int;
    assert(i + 1 < n - 1);
    let p = i + 1;
    assert(clamp(i + 1, n) == p);
    if args.len() == 0 {
        assert(args =~= Seq::<SExp>::empty());
        assert(clamp(p + 1, n) == i + 2);
    } else {
        lemma_exp_advances(t, i + 2, conv);
        if t.kind_at(p + 1) == Token::ParenthesesClose {
            assert(parse_operand(t, i + 2, conv) is Err);
        }
        lemma_args_from(t, i, conv, args, ends, 0);
        assert(args.subrange(0, args.len() as int) =~= args);
        lemma_exp_advances(t, arg_start(i, ends, args.len() - 1), conv);
        assert(ends.last() + 1 < n - 1);
    }
}

/// Where statement `m` of a program that starts at `i` begins, when
/// statement `m` ends at `ends[m]`: at `i`, or after the `;` that follows the
/// statement before it.
pub open spec fn stmt_start(i: int, ends: Seq<int>, m: int) -> int {
    if m == 0 {
        i
    } else {
        ends[m - 1] + 2
    }
}

/// Statements `0..k` each read on their own and are each followed by `;`.
#[verifier::opaque]
pub open spec fn terminated(
    t: TokensModel,
    i: int,
    conv: spec_fn(Seq<char>) -> Result<u64, Seq<char>>,
    stmts: Seq<SExp>,
    ends: Seq<int>,
    k: int,
) -> bool {
    forall|q: int|
        0 <= q < k ==> parse_exp(t, stmt_start(i, ends, q), conv) == Ok::<(SExp, int), ParseFailure>(
            (stmts[q], ends[q]),
        ) && t.kind_at(ends[q] + 1) == Token::Semicolon
}

proof fn lemma_terminated_at(
    t: TokensModel,
    i: int,
    conv: spec_fn(Seq<char>) -> Result<u64, Seq<char>>,
    stmts: Seq<SExp>,
    ends: Seq<int>,
    k: int,
    q: int,
)
    requires
        terminated(t, i, conv, stmts, ends, k),
        0 <= q < k,
    ensures
        parse_exp(t, stmt_start(i, ends, q), conv) == Ok::<(SExp, int), ParseFailure>(
            (stmts[q], ends[q]),
        ),
        t.kind_at(ends[q] + 1) == Token::Semicolon,
{
    reveal(terminated);
}

proof fn lemma_statements_from(
    t: TokensModel,
    i: int,
    conv: spec_fn(Seq<char>) -> Result<u64, Seq<char>>,
    stmts: Seq<SExp>,
    ends: Seq<int>,
    m: int,
)
    requires
        t.toks.len() > 0,
        t.toks.last().token == Token::EndOfFile,
        0 <= i < t.toks.len(),
        stmts.len() == ends.len(),
        0 <= m < stmts.len(),
        terminated(t, i, conv, stmts, ends, stmts.len() as int),
        t.kind_at(ends.last() + 2) == Token::EndOfFile,
    ensures
        parse_statements(t, stmt_start(i, ends, m), conv) == Ok::<Seq<SExp>, ParseFailure>(
            stmts.subrange(m, stmts.len() as int),
        ),
    decreases stmts.len() - m,
{
    let n = t.toks.len() as int;
    let k = stmts.len() as int;
    let s = stmt_start(i, ends, m);
    if m > 0 {
        lemma_terminated_at(t, i, conv, stmts, ends, stmts.len() as int, m - 1);
        lemma_exp_advances(t, stmt_start(i, ends, m - 1), conv);
        assert(ends[m - 1] + 1 < n - 1);
    }
    lemma_terminated_at(t, i, conv, stmts, ends, k, m);
    lemma_exp_advances(t, s, conv);
    let d = ends[m] + 1;
    assert(d < n - 1);
    assert(clamp(d, n) == d);
    let next = d + 1;
    assert(clamp(next, n) == next);
    if m == k - 1 {
        assert(stmts.subrange(m, k) =~= seq![stmts[m]]);
        assert(parse_statements(t, s, conv) == Ok::<Seq<SExp>, ParseFailure>(seq![stmts[m]]));
    } else {
        lemma_terminated_at(t, i, conv, stmts, ends, k, m + 1);
        if t.kind_at(next) == Token::EndOfFile {
            assert(parse_operand(t, next, conv) is Err);
        }
        lemma_statements_from(t, i, conv, stmts, ends, m + 1);
        assert(stmt_start(i, ends, m + 1) == next);
        assert(seq![stmts[m]] + stmts.subrange(m + 1, k) =~= stmts.subrange(m, k));
        assert(parse_statements(t, s, conv) == match parse_statements(t, next, conv) {
            Ok(rest) => Ok::<Seq<SExp>, ParseFailure>(seq![stmts[m]] + rest),
            Err(er) => Err(er),
        });
    }
}

/// A program whose statements each read on their own and are each followed
/// by `;`, the last `;` being followed by the end of the input, reads as
/// exactly those statements, in order.
pub proof fn lemma_parse_statements(
    t: TokensModel,
    i: int,
    conv: spec_fn(Seq<char>) -> Result<u64, Seq<char>>,
    stmts: Seq<SExp>,
    ends: Seq<int>,
)
    requires
        t.toks.len() > 0,
        t.toks.last().token == Token::EndOfFile,
        0 <= i < t.toks.len(),
        stmts.len() == ends.len(),
        stmts.len() > 0,
        terminated(t, i, conv, stmts, ends, stmts.len() as int),
        t.kind_at(ends.last() + 2) == Token::EndOfFile,
    ensures
        parse_statements(t, i, conv) == Ok::<Seq<SExp>, ParseFailure>(stmts),
{
    lemma_statements_from(t, i, conv, stmts, ends, 0);
    assert(stmts.subrange(0, stmts.len() as int) =~= stmts);
}

/// After statements that each read on their own and are each followed by
/// `;`, a statement that is followed by neither `;` nor the end of the input
/// makes the program an error at the token after it.
pub proof fn lemma_missing_terminator(
    t: TokensModel,
    i: int,
    conv: spec_fn(Seq<char>) -> Result<u64, Seq<char>>,
    stmts: Seq<SExp>,
    ends: Seq<int>,
    j: int,
)
    requires
        t.toks.len() > 0,
        t.toks.last().token == Token::EndOfFile,
        0 <= i < t.toks.len(),
        stmts.len() == ends.len(),
        0 <= j < stmts.len(),
        terminated(t, i, conv, stmts, ends, j),
        parse_exp(t, stmt_start(i, ends, j), conv) == Ok::<(SExp, int), ParseFailure>(
            (stmts[j], ends[j]),
        ),
        t.kind_at(ends[j] + 1) != Token::Semicolon,
        t.kind_at(ends[j] + 1) != Token::EndOfFile,
    ensures
        parse_statements(t, i, conv) == Err::<Seq<SExp>, ParseFailure>(
            found(t, "Expected ; found "@, ends[j] + 1),
        ),
    decreases j,
{
    lemma_missing_from(t, i, conv, stmts, ends, j, 0);
}

proof fn lemma_missing_from(
    t: TokensModel,
    i: int,
    conv: spec_fn(Seq<char>) -> Result<u64, Seq<char>>,
    stmts: Seq<SExp>,
    ends: Seq<int>,
    j: int,
    m: int,
)
    requires
        t.toks.len() > 0,
        t.toks.last().token == Token::EndOfFile,
        0 <= i < t.toks.len(),
        stmts.len() == ends.len(),
        0 <= m <= j < stmts.len(),
        terminated(t, i, conv, stmts, ends, j),
        parse_exp(t, stmt_start(i, ends, j), conv) == Ok::<(SExp, int), ParseFailure>(
            (stmts[j], ends[j]),
        ),
        t.kind_at(ends[j] + 1) != Token::Semicolon,
        t.kind_at(ends[j] + 1) != Token::EndOfFile,
    ensures
        parse_statements(t, stmt_start(i, ends, m), conv) == Err::<Seq<SExp>, ParseFailure>(
            found(t, "Expected ; found "@, ends[j] + 1),
        ),
    decreases j - m,
{
    let n = t.toks.len() as int;
    let s = stmt_start(i, ends, m);
    if m > 0 {
        lemma_terminated_at(t, i, conv, stmts, ends, j, m - 1);
        lemma_exp_advances(t, stmt_start(i, ends, m - 1), conv);
        assert(ends[m - 1] + 1 < n - 1);
    }
    if m < j {
        lemma_terminated_at(t, i, conv, stmts, ends, j, m);
    }
    lemma_exp_advances(t, s, conv);
    let d = ends[m] + 1;
    assert(d < n - 1);
    assert(clamp(d, n) == d);
    if m == j {
        assert(parse_statements(t, s, conv) == Err::<Seq<SExp>, ParseFailure>(
            found(t, "Expected ; found "@, d),
        ));
    } else {
        assert(t.kind_at(d) == Token::Semicolon);
        let next = d + 1;
        assert(clamp(next, n) == next);
        if m + 1 < j {
            lemma_terminated_at(t, i, conv, stmts, ends, j, m + 1);
        }
        assert(stmt_start(i, ends, m + 1) == next);
        if t.kind_at(next) == Token::EndOfFile {
            assert(parse_operand(t, next, conv) is Err);
        }
        lemma_missing_from(t, i, conv, stmts, ends, j, m + 1);
        assert(parse_statements(t, s, conv) == match parse_statements(t, next, conv) {
            Ok(rest) => Ok::<Seq<SExp>, ParseFailure>(seq![stmts[m]] + rest),
            Err(er) => Err(er),
        });
    }
}

} // verus!
