use crate::ast::{exp_model, OpType, SExp, Value};
use crate::error::{pos_text, OmgError, PosModel};
use crate::lexer::{lemma_lex_ends_once, lex, lexer, unknown_msg, Source};
use crate::parser::{parse_block, parse_statements, reads_any, reads_numbers, stream};
use crate::runtime::{computes, eval, host_total, run_outcome, shows, Arith, Runtime, Show};
use crate::scope::natives;
use crate::tokens::TokensModel;
use vstd::prelude::*;

verus! {

/// What running a whole source text named `path` gives: success or a
/// failure (its message and position), and the lines printed on the way.
/// Lexing, parsing and evaluation each stop the run at their first failure;
/// evaluation starts in a scope that holds only the native functions.
pub open spec fn run_text(
    path: Seq<char>,
    text: Seq<char>,
    conv: spec_fn(Seq<char>) -> Result<u64, Seq<char>>,
    ar: Arith,
    sh: Show,
) -> (Result<(), (Seq<char>, PosModel)>, Seq<Seq<char>>) {
    match lex(text) {
        Err(f) => (
            Err((unknown_msg(f.slice), PosModel { src: path, line: f.line, column: f.column })),
            seq![],
        ),
        Ok(ts) => {
            let t = TokensModel { path, toks: ts, index: 0 };
            match parse_statements(t, 0, conv) {
                Err(pf) => (Err((pf.msg, pf.pos)), seq![]),
                Ok(ss) => {
                    let (r, _, out) = eval(SExp::Block(ss, t.pos_at(0)), natives(), ar, sh);
                    match r {
                        Ok(_) => (Ok(()), out),
                        Err(rf) => (Err((rf.msg, rf.pos)), out),
                    }
                },
            }
        },
    }
}

/// The language: runs source texts from scratch, one at a time.
pub struct OmgLang {}

impl OmgLang {
    pub fn new() -> (r: OmgLang) {
        OmgLang {}
    }

    /// Lexes, parses and runs `source`, named `path`: the outcome, and the
    /// lines printed before it. `number` reads a number literal into a
    /// binary64 bit pattern, `arith` does the arithmetic and comparisons of two
    /// numbers, and `show` writes a number in decimal.
    pub fn run_source<
        F: Fn(&str) -> Result<u64, String>,
        A: Fn(OpType, u64, u64) -> Value,
        S: Fn(u64) -> String,
    >(&self, path: &str, source: &str, number: &F, arith: &A, show: &S) -> (r: (
        Result<(), OmgError>,
        Vec<String>,
    ))
        requires
            source@.len() < usize::MAX,
            reads_any(*number),
            host_total(*arith, *show),
        ensures
            forall|conv: spec_fn(Seq<char>) -> Result<u64, Seq<char>>, ar: Arith, sh: Show|
                reads_numbers(*number, conv) && computes(*arith, ar) && shows(*show, sh) ==> {
                    let want = run_text(path@, source@, conv, ar, sh);
                    &&& r.1@.map_values(|s: String| s@) == want.1
                    &&& match want.0 {
                        Ok(_) => r.0 is Ok,
                        Err((msg, pos)) => r.0 matches Err(e) && e.msg@ == msg && e.pos@
                            == pos_text(pos),
                    }
                },
    {
        let lexed = lexer(Source { source: source.to_owned(), path: path.to_owned() });
        let mut tokens = match lexed {
            Ok(t) => t,
            Err(e) => {
                return (Err(e), Vec::new());
            },
        };
        proof {
            lemma_lex_ends_once(source@, 0, 1, 1);
        }
        let ghost t0 = tokens@;
        let program = match parse_block(&mut tokens, number) {
            Ok(p) => p,
            Err(e) => {
                return (Err(e), Vec::new());
            },
        };
        let mut runtime = Runtime::new();
        let ghost fresh = runtime@;
        let outcome = runtime.run(&program, arith, show);
        let ghost after = runtime@;
        let lines = runtime.into_output();
        let r0: Result<(), OmgError> = match outcome {
            Ok(_) => Ok(()),
            Err(e) => Err(e),
        };
        proof {
            assert(stream(t0) == t0);
            assert forall|conv: spec_fn(Seq<char>) -> Result<u64, Seq<char>>, ar: Arith, sh: Show|
                reads_numbers(*number, conv) && computes(*arith, ar) && shows(*show, sh) implies {
                let want = run_text(path@, source@, conv, ar, sh);
                &&& lines@.map_values(|s: String| s@) == want.1
                &&& match want.0 {
                    Ok(_) => r0 is Ok,
                    Err((msg, pos)) => r0 matches Err(e) && e.msg@ == msg && e.pos@ == pos_text(pos),
                }
            } by {
                assert(t0 == TokensModel { path: path@, toks: lex(source@)->Ok_0, index: 0 });
                let ss = parse_statements(t0, 0, conv)->Ok_0;
                assert(exp_model(program) == SExp::Block(ss, t0.pos_at(0)));
                assert(run_outcome(
                    outcome,
                    fresh,
                    after,
                    eval(exp_model(program), fresh.scope, ar, sh),
                ));
                assert(fresh.output + eval(exp_model(program), natives(), ar, sh).2 =~= eval(
                    exp_model(program),
                    natives(),
                    ar,
                    sh,
                ).2);
            }
        }
        (r0, lines)
    }
}

} // verus!
