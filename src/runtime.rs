use crate::ast::{exp_model, exps_model, Exp, Native, OpType, SExp, Value};
use crate::scope::{add_std_lib, natives, Scope};
use crate::error::{pos_text, OmgError, PosModel};
use vstd::prelude::*;

verus! {

/// Why evaluation stopped: a message and the position it refers to.
pub struct RunFailure {
    pub msg: Seq<char>,
    pub pos: PosModel,
}

/// Floating-point arithmetic on binary64 bit patterns, as a function:
/// what an operator gives for two numbers.
pub type Arith = spec_fn(OpType, u64, u64) -> Value;

/// The decimal text of a binary64 bit pattern, as a function.
pub type Show = spec_fn(u64) -> Seq<char>;

/// What a scope gives for a name: its value, or `Nothing` if it has none.
pub open spec fn lookup(scope: Map<Seq<char>, Value>, name: Seq<char>) -> Value {
    if scope.contains_key(name) {
        scope[name]
    } else {
        Value::Nothing
    }
}

/// What an operator gives: `ar` for two numbers; for anything else, whether
/// the two are the same value for `Equal`, and `Nothing` for the others.
pub open spec fn apply(op: OpType, x: Value, y: Value, ar: Arith) -> Value {
    match (x, y) {
        (Value::Number(a), Value::Number(b)) => ar(op, a, b),
        _ => if op == OpType::Equal {
            Value::spec_from_bool(x == y)
        } else {
            Value::Nothing
        },
    }
}

/// How a value is shown.
pub open spec fn display(v: Value, sh: Show) -> Seq<char> {
    match v {
        Value::Nothing => "Nothing"@,
        Value::Number(b) => sh(b),
        Value::True => "True"@,
        Value::False => "False"@,
        Value::NativeFunction(_) => "BuiltIn function"@,
    }
}

/// The values shown one after another, separated by single spaces.
pub open spec fn join(vs: Seq<Value>, sh: Show) -> Seq<char>
    decreases vs.len(),
{
    if vs.len() == 0 {
        seq![]
    } else if vs.len() == 1 {
        display(vs[0], sh)
    } else {
        join(vs.drop_last(), sh) + " "@ + display(vs.last(), sh)
    }
}

/// The message for a call of a name that is not a native function.
pub open spec fn missing_msg(name: Seq<char>) -> Seq<char> {
    "Cant find function named "@ + name + " to call"@
}

/// What evaluating `e` in `scope` gives: a value or a failure, the scope
/// afterwards, and the lines printed on the way, in order.
pub open spec fn eval(e: SExp, scope: Map<Seq<char>, Value>, ar: Arith, sh: Show) -> (
    Result<Value, RunFailure>,
    Map<Seq<char>, Value>,
    Seq<Seq<char>>,
)
    decreases e, 1int,
{
    match e {
        SExp::Call(name, args, pos) => match lookup(scope, name) {
            Value::NativeFunction(Native::Print) => {
                let (r, sc, out) = eval_list(args, 0, scope, ar, sh);
                match r {
                    Ok(vs) => (Ok(Value::Nothing), sc, out.push(join(vs, sh))),
                    Err(f) => (Err(f), sc, out),
                }
            },
            _ => (Err(RunFailure { msg: missing_msg(name), pos }), scope, seq![]),
        },
        SExp::Block(ss, _) => {
            let (r, sc, out) = eval_list(ss, 0, scope, ar, sh);
            match r {
                Ok(_) => (Ok(Value::Nothing), sc, out),
                Err(f) => (Err(f), sc, out),
            }
        },
        SExp::Literal(v, _) => (Ok(v), scope, seq![]),
        SExp::Assignment(name, v, _) => {
            let (r, sc, out) = eval(*v, scope, ar, sh);
            match r {
                Ok(x) => (Ok(Value::Nothing), sc.insert(name, x), out),
                Err(f) => (Err(f), sc, out),
            }
        },
        SExp::Variable(name, _) => (Ok(lookup(scope, name)), scope, seq![]),
        SExp::Operator(op, l, r, _) => {
            let (a, sc1, out1) = eval(*l, scope, ar, sh);
            match a {
                Err(f) => (Err(f), sc1, out1),
                Ok(x) => {
                    let (b, sc2, out2) = eval(*r, sc1, ar, sh);
                    match b {
                        Err(f) => (Err(f), sc2, out1 + out2),
                        Ok(y) => (Ok(apply(op, x, y, ar)), sc2, out1 + out2),
                    }
                },
            }
        },
    }
}

/// Evaluating `es[i..]` left to right: their values, or the first failure.
pub open spec fn eval_list(es: Seq<SExp>, i: int, scope: Map<Seq<char>, Value>, ar: Arith, sh: Show) -> (
    Result<Seq<Value>, RunFailure>,
    Map<Seq<char>, Value>,
    Seq<Seq<char>>,
)
    decreases es, es.len() - i,
{
    if i < 0 || i >= es.len() {
        (Ok(seq![]), scope, seq![])
    } else {
        let (r, sc1, out1) = eval(es[i], scope, ar, sh);
        match r {
            Err(f) => (Err(f), sc1, out1),
            Ok(v) => {
                let (rs, sc2, out2) = eval_list(es, i + 1, sc1, ar, sh);
                match rs {
                    Err(f) => (Err(f), sc2, out1 + out2),
                    Ok(vs) => (Ok(seq![v] + vs), sc2, out1 + out2),
                }
            },
        }
    }
}

/// `f` does floating-point arithmetic as `ar` says.
pub open spec fn computes<A: Fn(OpType, u64, u64) -> Value>(f: A, ar: Arith) -> bool {
    forall|op: OpType, a: u64, b: u64, r: Value|
        #[trigger] call_ensures(f, (op, a, b), r) ==> r == ar(op, a, b)
}

/// `f` shows numbers as `sh` says.
pub open spec fn shows<S: Fn(u64) -> String>(f: S, sh: Show) -> bool {
    forall|b: u64, r: String| #[trigger] call_ensures(f, (b,), r) ==> r@ == sh(b)
}

/// `arith` and `show` accept every input.
pub open spec fn host_total<A: Fn(OpType, u64, u64) -> Value, S: Fn(u64) -> String>(
    arith: A,
    show: S,
) -> bool {
    &&& forall|op: OpType, a: u64, b: u64| call_requires(arith, (op, a, b))
    &&& forall|b: u64| call_requires(show, (b,))
}

/// How `v` is shown, numbers through `show`.
pub fn show_value<S: Fn(u64) -> String>(v: Value, show: &S) -> (r: String)
    requires
        forall|b: u64| call_requires(*show, (b,)),
    ensures
        forall|sh: Show| shows(*show, sh) ==> r@ == display(v, sh),
{
    match v {
        Value::Nothing => "Nothing".to_owned(),
        Value::Number(b) => show(b),
        Value::True => "True".to_owned(),
        Value::False => "False".to_owned(),
        Value::NativeFunction(_) => "BuiltIn function".to_owned(),
    }
}

impl Value {
    /// How the value is shown; `show` writes a number in decimal.
    pub fn to_string<S: Fn(u64) -> String>(&self, show: &S) -> (r: String)
        requires
            forall|b: u64| call_requires(*show, (b,)),
        ensures
            forall|sh: Show| shows(*show, sh) ==> r@ == display(*self, sh),
    {
        show_value(*self, show)
    }

    /// What `op` gives for this value and `other`: `arith` for two numbers;
    /// otherwise whether the two are the same value for `Equal`, and
    /// `Nothing` for the other operators.
    pub fn operate<A: Fn(OpType, u64, u64) -> Value>(&self, op: OpType, other: &Value, arith: &A) -> (r:
        Value)
        requires
            forall|o: OpType, a: u64, b: u64| call_requires(*arith, (o, a, b)),
        ensures
            forall|ar: Arith| computes(*arith, ar) ==> r == apply(op, *self, *other, ar),
    {
        match (*self, *other) {
            (Value::Number(a), Value::Number(b)) => arith(op, a, b),
            _ => if op == OpType::Equal {
                Value::from_bool(*self == *other)
            } else {
                Value::Nothing
            },
        }
    }

    pub fn add<A: Fn(OpType, u64, u64) -> Value>(&self, other: &Value, arith: &A) -> (r: Value)
        requires
            forall|o: OpType, a: u64, b: u64| call_requires(*arith, (o, a, b)),
        ensures
            forall|ar: Arith| computes(*arith, ar) ==> r == apply(OpType::Add, *self, *other, ar),
    {
        self.operate(OpType::Add, other, arith)
    }

    pub fn subtract<A: Fn(OpType, u64, u64) -> Value>(&self, other: &Value, arith: &A) -> (r: Value)
        requires
            forall|o: OpType, a: u64, b: u64| call_requires(*arith, (o, a, b)),
        ensures
            forall|ar: Arith| computes(*arith, ar) ==> r == apply(OpType::Subtract, *self, *other, ar),
    {
        self.operate(OpType::Subtract, other, arith)
    }

    pub fn multiply<A: Fn(OpType, u64, u64) -> Value>(&self, other: &Value, arith: &A) -> (r: Value)
        requires
            forall|o: OpType, a: u64, b: u64| call_requires(*arith, (o, a, b)),
        ensures
            forall|ar: Arith| computes(*arith, ar) ==> r == apply(OpType::Multiply, *self, *other, ar),
    {
        self.operate(OpType::Multiply, other, arith)
    }

    pub fn divide<A: Fn(OpType, u64, u64) -> Value>(&self, other: &Value, arith: &A) -> (r: Value)
        requires
            forall|o: OpType, a: u64, b: u64| call_requires(*arith, (o, a, b)),
        ensures
            forall|ar: Arith| computes(*arith, ar) ==> r == apply(OpType::Divide, *self, *other, ar),
    {
        self.operate(OpType::Divide, other, arith)
    }

    pub fn equal<A: Fn(OpType, u64, u64) -> Value>(&self, other: &Value, arith: &A) -> (r: Value)
        requires
            forall|o: OpType, a: u64, b: u64| call_requires(*arith, (o, a, b)),
        ensures
            forall|ar: Arith| computes(*arith, ar) ==> r == apply(OpType::Equal, *self, *other, ar),
    {
        self.operate(OpType::Equal, other, arith)
    }

    pub fn greater_than<A: Fn(OpType, u64, u64) -> Value>(&self, other: &Value, arith: &A) -> (r:
        Value)
        requires
            forall|o: OpType, a: u64, b: u64| call_requires(*arith, (o, a, b)),
        ensures
            forall|ar: Arith|
                computes(*arith, ar) ==> r == apply(OpType::GreaterThan, *self, *other, ar),
    {
        self.operate(OpType::GreaterThan, other, arith)
    }

    pub fn less_than<A: Fn(OpType, u64, u64) -> Value>(&self, other: &Value, arith: &A) -> (r: Value)
        requires
            forall|o: OpType, a: u64, b: u64| call_requires(*arith, (o, a, b)),
        ensures
            forall|ar: Arith| computes(*arith, ar) ==> r == apply(OpType::LessThan, *self, *other, ar),
    {
        self.operate(OpType::LessThan, other, arith)
    }
}

impl Native {
    /// Calls the native function on evaluated arguments: its value, and the
    /// line that it prints.
    pub fn call<S: Fn(u64) -> String>(self, args: &Vec<Value>, show: &S) -> (r: (Value, String))
        requires
            forall|b: u64| call_requires(*show, (b,)),
        ensures
            r.0 == Value::Nothing,
            forall|sh: Show| shows(*show, sh) ==> r.1@ == join(args@, sh),
    {
        match self {
            Native::Print => {
                let mut line = String::new();
                let mut i: usize = 0;
                proof {
                    assert(line@ =~= Seq::<char>::empty());
                    assert forall|sh: Show| shows(*show, sh) implies line@ == join(
                        args@.take(0),
                        sh,
                    ) by {
                        assert(line@ =~= Seq::<char>::empty());
                    }
                }
                while i < args.len()
                    invariant
                        i <= args@.len(),
                        i == 0 ==> line@ == Seq::<char>::empty(),
                        forall|b: u64| call_requires(*show, (b,)),
                        forall|sh: Show| shows(*show, sh) ==> line@ == join(args@.take(i as int), sh),
                    decreases args@.len() - i,
                {
                    let ghost old_line = line@;
                    if i > 0 {
                        line.append(" ");
                    }
                    let text = show_value(args[i], show);
                    line.append(text.as_str());
                    proof {
                        let t = args@.take(i + 1);
                        assert(t.drop_last() =~= args@.take(i as int));
                        assert(t.last() == args@[i as int]);
                        if i == 0 {
                            assert(old_line =~= Seq::<char>::empty());
                        }
                    }
                    i = i + 1;
                }
                proof {
                    assert(args@.take(i as int) =~= args@);
                }
                (Value::Nothing, line)
            },
        }
    }
}

/// The evaluator's state: its scope, and the lines printed so far.
pub struct Runtime {
    scope: Scope,
    output: Vec<String>,
}

/// The mathematical value of a [`Runtime`].
pub struct RuntimeModel {
    pub scope: Map<Seq<char>, Value>,
    pub output: Seq<Seq<char>>,
}

impl View for Runtime {
    type V = RuntimeModel;

    closed spec fn view(&self) -> RuntimeModel {
        RuntimeModel { scope: self.scope@, output: self.output@.map_values(|s: String| s@) }
    }
}

/// `r`, `before` and `after` are what `ev` describes: the scope afterwards,
/// the printed lines added, and the value or the failure.
pub open spec fn run_outcome(
    r: Result<Value, OmgError>,
    before: RuntimeModel,
    after: RuntimeModel,
    ev: (Result<Value, RunFailure>, Map<Seq<char>, Value>, Seq<Seq<char>>),
) -> bool {
    &&& after.scope == ev.1
    &&& after.output == before.output + ev.2
    &&& match ev.0 {
        Ok(v) => r matches Ok(x) && x == v,
        Err(f) => r matches Err(e) && e.msg@ == f.msg && e.pos@ == pos_text(f.pos),
    }
}

/// `vs` and `printed` in front of what `ev` gives.
pub open spec fn combine(
    vs: Seq<Value>,
    printed: Seq<Seq<char>>,
    ev: (Result<Seq<Value>, RunFailure>, Map<Seq<char>, Value>, Seq<Seq<char>>),
) -> (Result<Seq<Value>, RunFailure>, Map<Seq<char>, Value>, Seq<Seq<char>>) {
    (
        match ev.0 {
            Ok(ws) => Ok(vs + ws),
            Err(f) => Err(f),
        },
        ev.1,
        printed + ev.2,
    )
}

/// As [`run_outcome`], for a list of values.
pub open spec fn list_outcome(
    r: Result<Vec<Value>, OmgError>,
    before: RuntimeModel,
    after: RuntimeModel,
    ev: (Result<Seq<Value>, RunFailure>, Map<Seq<char>, Value>, Seq<Seq<char>>),
) -> bool {
    &&& after.scope == ev.1
    &&& after.output == before.output + ev.2
    &&& match ev.0 {
        Ok(vs) => r matches Ok(x) && x@ == vs,
        Err(f) => r matches Err(e) && e.msg@ == f.msg && e.pos@ == pos_text(f.pos),
    }
}

impl Runtime {
    /// A runtime whose scope holds the native functions and nothing else, and
    /// that has printed nothing.
    pub fn new() -> (r: Runtime)
        ensures
            r@ == (RuntimeModel { scope: natives(), output: seq![] }),
    {
        let mut scope = Scope::new();
        add_std_lib(&mut scope);
        let r = Runtime { scope, output: Vec::new() };
        proof {
            assert(r@.scope =~= natives());
            assert(r@.output =~= Seq::<Seq<char>>::empty());
        }
        r
    }

    /// The lines printed so far, in order.
    pub fn output(&self) -> (r: &Vec<String>)
        ensures
            r@.map_values(|s: String| s@) == self@.output,
    {
        &self.output
    }

    /// The lines printed so far, in order, taking the runtime apart.
    pub fn into_output(self) -> (r: Vec<String>)
        ensures
            r@.map_values(|s: String| s@) == self@.output,
    {
        self.output
    }

    /// Evaluates `exp` in this runtime's scope. `arith` does the arithmetic
    /// and comparisons of two numbers, and `show` writes a number in decimal.
    pub fn run<A: Fn(OpType, u64, u64) -> Value, S: Fn(u64) -> String>(
        &mut self,
        exp: &Exp,
        arith: &A,
        show: &S,
    ) -> (r: Result<Value, OmgError>)
        requires
            host_total(*arith, *show),
        ensures
            old(self)@.output.is_prefix_of(final(self)@.output),
            forall|ar: Arith, sh: Show|
                computes(*arith, ar) && shows(*show, sh) ==> run_outcome(
                    r,
                    old(self)@,
                    final(self)@,
                    eval(exp_model(*exp), old(self)@.scope, ar, sh),
                ),
    {
        self.run_exp(exp, arith, show)
    }

    fn run_exp<A: Fn(OpType, u64, u64) -> Value, S: Fn(u64) -> String>(
        &mut self,
        exp: &Exp,
        arith: &A,
        show: &S,
    ) -> (r: Result<Value, OmgError>)
        requires
            host_total(*arith, *show),
        ensures
            old(self)@.output.is_prefix_of(final(self)@.output),
            forall|ar: Arith, sh: Show|
                computes(*arith, ar) && shows(*show, sh) ==> run_outcome(
                    r,
                    old(self)@,
                    final(self)@,
                    eval(exp_model(*exp), old(self)@.scope, ar, sh),
                ),
        decreases *exp, 1int,
    {
        let ghost s0 = self@;
        match exp {
            Exp::Call(call) => {
                match self.scope.get(call.name.as_str()) {
                    Value::NativeFunction(native) => {
                        let args = match self.run_list(&call.args, arith, show) {
                            Ok(a) => a,
                            Err(e) => {
                                proof {
                                    assert forall|ar: Arith, sh: Show|
                                        computes(*arith, ar) && shows(*show, sh) implies ({
                                        let ev = eval(exp_model(*exp), s0.scope, ar, sh);
                                        let el = eval_list(exps_model(call.args@), 0, s0.scope, ar, sh);
                                        &&& el.0 is Err
                                        &&& ev.0 == Err::<Value, RunFailure>(el.0->Err_0)
                                        &&& ev.1 == el.1
                                        &&& ev.2 == el.2
                                    }) by {}
                                }
                                return Err(e);
                            },
                        };
                        let ghost s1 = self@;
                        let (v, line) = native.call(&args, show);
                        self.output.push(line);
                        proof {
                            assert(self@.output =~= s1.output.push(line@));
                            assert forall|ar: Arith, sh: Show|
                                computes(*arith, ar) && shows(*show, sh) implies self@.output
                                == s0.output + eval(exp_model(*exp), s0.scope, ar, sh).2 by {
                                let ev = eval_list(exps_model(call.args@), 0, s0.scope, ar, sh);
                                assert(s0.output + ev.2.push(join(args@, sh)) =~= s1.output.push(
                                    line@,
                                ));
                            }
                        }
                        Ok(v)
                    },
                    _ => {
                        let mut msg = "Cant find function named ".to_owned();
                        msg.append(call.name.as_str());
                        msg.append(" to call");
                        let pos = call.pos.with_pos(call.pos.line, call.pos.column);
                        let r = Err(OmgError::new(msg, pos));
                        proof {
                            assert(self@.output =~= s0.output + Seq::<Seq<char>>::empty());
                            assert(s0.output.is_prefix_of(self@.output));
                            assert forall|ar: Arith, sh: Show|
                                computes(*arith, ar) && shows(*show, sh) implies run_outcome(
                                r,
                                s0,
                                self@,
                                eval(exp_model(*exp), s0.scope, ar, sh),
                            ) by {}
                        }
                        r
                    },
                }
            },
            Exp::Block(block) => {
                let listed = self.run_list(&block.statements, arith, show);
                let r = match listed {
                    Ok(_) => Ok(Value::Nothing),
                    Err(e) => Err(e),
                };
                proof {
                    assert forall|ar: Arith, sh: Show|
                        computes(*arith, ar) && shows(*show, sh) implies run_outcome(
                        r,
                        s0,
                        self@,
                        eval(exp_model(*exp), s0.scope, ar, sh),
                    ) by {
                        let el = eval_list(exps_model(block.statements@), 0, s0.scope, ar, sh);
                        assert(list_outcome(listed, s0, self@, el));
                    }
                }
                r
            },
            Exp::Literal(literal) => {
                proof {
                    assert(self@.output =~= s0.output + Seq::<Seq<char>>::empty());
                    assert(s0.output.is_prefix_of(self@.output));
                }
                Ok(literal.value)
            },
            Exp::Assignment(assignment) => {
                let value = match self.run_exp(&assignment.value, arith, show) {
                    Ok(v) => v,
                    Err(e) => {
                        proof {
                            assert forall|ar: Arith, sh: Show|
                                computes(*arith, ar) && shows(*show, sh) implies eval(
                                exp_model(*exp),
                                s0.scope,
                                ar,
                                sh,
                            ) == eval(exp_model(*assignment.value), s0.scope, ar, sh) by {}
                        }
                        return Err(e);
                    },
                };
                let ghost s1 = self@;
                let name = assignment.name.clone();
                self.scope.set(name, value);
                proof {
                    assert(self@.output == s1.output);
                    assert forall|ar: Arith, sh: Show|
                        computes(*arith, ar) && shows(*show, sh) implies run_outcome(
                        Ok::<Value, OmgError>(Value::Nothing),
                        s0,
                        self@,
                        eval(exp_model(*exp), s0.scope, ar, sh),
                    ) by {
                        let e1 = eval(exp_model(*assignment.value), s0.scope, ar, sh);
                        assert(e1.0 == Ok::<Value, RunFailure>(value));
                        assert(e1.1 == s1.scope);
                    }
                }
                Ok(Value::Nothing)
            },
            Exp::Variable(variable) => {
                proof {
                    assert(self@.output =~= s0.output + Seq::<Seq<char>>::empty());
                    assert(s0.output.is_prefix_of(self@.output));
                }
                Ok(self.scope.get(variable.name.as_str()))
            },
            Exp::Operator(op) => {
                let lhs = match self.run_exp(&op.lhs, arith, show) {
                    Ok(v) => v,
                    Err(e) => {
                        proof {
                            assert forall|ar: Arith, sh: Show|
                                computes(*arith, ar) && shows(*show, sh) implies eval(
                                exp_model(*exp),
                                s0.scope,
                                ar,
                                sh,
                            ) == eval(exp_model(*op.lhs), s0.scope, ar, sh) by {}
                        }
                        return Err(e);
                    },
                };
                let ghost s1 = self@;
                let rhs = match self.run_exp(&op.rhs, arith, show) {
                    Ok(v) => v,
                    Err(e) => {
                        proof {
                            assert forall|ar: Arith, sh: Show|
                                computes(*arith, ar) && shows(*show, sh) implies run_outcome(
                                Err::<Value, OmgError>(e),
                                s0,
                                self@,
                                eval(exp_model(*exp), s0.scope, ar, sh),
                            ) by {
                                let e1 = eval(exp_model(*op.lhs), s0.scope, ar, sh);
                                let e2 = eval(exp_model(*op.rhs), e1.1, ar, sh);
                                assert(e1.0 == Ok::<Value, RunFailure>(lhs));
                                assert(e1.1 == s1.scope);
                                assert(s1.output == s0.output + e1.2);
                                assert(s0.output + (e1.2 + e2.2) =~= s0.output + e1.2 + e2.2);
                            }
                        }
                        return Err(e);
                    },
                };
                let v = lhs.operate(op.op_type, &rhs, arith);
                proof {
                    assert(s0.output.is_prefix_of(self@.output)) by {
                        assert(self@.output.subrange(0, s0.output.len() as int) =~= s1.output.subrange(
                            0,
                            s0.output.len() as int,
                        ));
                    }
                    assert forall|ar: Arith, sh: Show|
                        computes(*arith, ar) && shows(*show, sh) implies run_outcome(
                        Ok::<Value, OmgError>(v),
                        s0,
                        self@,
                        eval(exp_model(*exp), s0.scope, ar, sh),
                    ) by {
                        let e1 = eval(exp_model(*op.lhs), s0.scope, ar, sh);
                        let e2 = eval(exp_model(*op.rhs), e1.1, ar, sh);
                        assert(e1.0 == Ok::<Value, RunFailure>(lhs));
                        assert(e1.1 == s1.scope);
                        assert(s1.output == s0.output + e1.2);
                        assert(e2.0 == Ok::<Value, RunFailure>(rhs));
                        assert(v == apply(op.op_type, lhs, rhs, ar));
                        assert(s0.output + (e1.2 + e2.2) =~= s0.output + e1.2 + e2.2);
                    }
                }
                Ok(v)
            },
        }
    }

    fn run_list<A: Fn(OpType, u64, u64) -> Value, S: Fn(u64) -> String>(
        &mut self,
        exps: &Vec<Exp>,
        arith: &A,
        show: &S,
    ) -> (r: Result<Vec<Value>, OmgError>)
        requires
            host_total(*arith, *show),
        ensures
            old(self)@.output.is_prefix_of(final(self)@.output),
            forall|ar: Arith, sh: Show|
                computes(*arith, ar) && shows(*show, sh) ==> list_outcome(
                    r,
                    old(self)@,
                    final(self)@,
                    eval_list(exps_model(exps@), 0, old(self)@.scope, ar, sh),
                ),
        decreases *exps, 0int,
    {
        let ghost s0 = self@;
        let ghost es = exps_model(exps@);
        let ghost mut printed: Seq<Seq<char>> = seq![];
        let mut values: Vec<Value> = Vec::new();
        let mut i: usize = 0;
        proof {
            assert(self@.output =~= s0.output + printed);
            assert forall|ar: Arith, sh: Show|
                computes(*arith, ar) && shows(*show, sh) implies eval_list(es, 0, s0.scope, ar, sh)
                == combine(values@, printed, eval_list(es, 0, self@.scope, ar, sh)) by {
                let rest = eval_list(es, 0, self@.scope, ar, sh);
                assert(printed + rest.2 =~= rest.2);
                match rest.0 {
                    Ok(vs) => {
                        assert(values@ + vs =~= vs);
                    },
                    Err(_) => {},
                }
            }
        }
        while i < exps.len()
            invariant
                i <= exps@.len(),
                es == exps_model(exps@),
                host_total(*arith, *show),
                s0 == old(self)@,
                s0.output.is_prefix_of(self@.output),
                self@.output == s0.output + printed,
                forall|ar: Arith, sh: Show|
                    computes(*arith, ar) && shows(*show, sh) ==> eval_list(es, 0, s0.scope, ar, sh)
                        == combine(values@, printed, eval_list(es, i as int, self@.scope, ar, sh)),
            decreases exps@.len() - i,
        {
            let ghost si = self@;
            let ghost vi = values@;
            assert(es[i as int] == exp_model(exps@[i as int]));
            let v = match self.run_exp(&exps[i], arith, show) {
                Ok(v) => v,
                Err(e) => {
                    proof {
                        assert(s0.output.is_prefix_of(self@.output)) by {
                            assert(self@.output.subrange(0, s0.output.len() as int)
                                =~= si.output.subrange(0, s0.output.len() as int));
                        }
                        assert forall|ar: Arith, sh: Show|
                            computes(*arith, ar) && shows(*show, sh) implies list_outcome(
                            Err::<Vec<Value>, OmgError>(e),
                            s0,
                            self@,
                            eval_list(es, 0, s0.scope, ar, sh),
                        ) by {
                            let ev = eval(es[i as int], si.scope, ar, sh);
                            assert(ev.0 is Err);
                            assert(eval_list(es, i as int, si.scope, ar, sh) == (
                                Err::<Seq<Value>, RunFailure>(ev.0->Err_0),
                                ev.1,
                                ev.2,
                            ));
                            assert(s0.output + printed + ev.2 =~= s0.output + (printed + ev.2));
                        }
                    }
                    return Err(e);
                },
            };
            values.push(v);
            proof {
                let p2 = self@.output.subrange(s0.output.len() as int, self@.output.len() as int);
                assert forall|ar: Arith, sh: Show|
                    computes(*arith, ar) && shows(*show, sh) implies eval_list(
                        es,
                        0,
                        s0.scope,
                        ar,
                        sh,
                    ) == combine(values@, p2, eval_list(es, i + 1, self@.scope, ar, sh)) by {
                    let ev = eval(es[i as int], si.scope, ar, sh);
                    let rest = eval_list(es, i + 1, self@.scope, ar, sh);
                    assert(self@.output =~= s0.output + (printed + ev.2));
                    assert(p2 =~= printed + ev.2);
                    assert(printed + (ev.2 + rest.2) =~= p2 + rest.2);
                    match rest.0 {
                        Ok(vs) => {
                            assert(vi + (seq![v] + vs) =~= values@ + vs);
                        },
                        Err(_) => {},
                    }
                }
                printed = p2;
                assert(self@.output =~= s0.output + printed);
            }
            i = i + 1;
        }
        proof {
            assert forall|ar: Arith, sh: Show|
                computes(*arith, ar) && shows(*show, sh) implies list_outcome(
                    Ok::<Vec<Value>, OmgError>(values),
                    s0,
                    self@,
                    eval_list(es, 0, s0.scope, ar, sh),
                ) by {
                assert(printed + Seq::<Seq<char>>::empty() =~= printed);
                assert(values@ + Seq::<Value>::empty() =~= values@);
            }
        }
        Ok(values)
    }
}

/// Evaluation keeps no state but the scope it is handed: two runtimes that
/// both start fresh, with only the native functions in scope, end with the
/// same value or failure, the same scope and the same printed lines for the
/// same tree, given the same number arithmetic and display.
pub proof fn lemma_fresh_runs_agree(
    e: SExp,
    first: RuntimeModel,
    second: RuntimeModel,
    ar: Arith,
    sh: Show,
)
    requires
        first.scope == natives(),
        second.scope == natives(),
    ensures
        eval(e, first.scope, ar, sh) == eval(e, second.scope, ar, sh),
        eval(e, first.scope, ar, sh).2 == eval(e, natives(), ar, sh).2,
{
}

} // verus!
