//! The tree-walking interpreter.
//!
//! A program executes statement by statement against a mutable
//! name-to-value environment.  Runtime values are double-precision
//! numbers, carried as their 64-bit encodings, or booleans, which the
//! comparison operators produce.  Whenever a value must become a number —
//! for storage, arithmetic or printing — a boolean coerces: true to 1.0
//! and false to 0.0.
//!
//! The interpreter itself decides everything except two things it cannot
//! compute on encodings: the double named by a literal's text, and the
//! result of the four arithmetic operators.  The caller hands both in as
//! functions on the encodings (`parse_num` and `arith`); comparison is
//! decided here, on the encodings, by `float_bits`.  Printed numbers are
//! collected, in order, as encodings in the interpreter's output buffer.
//!
//! A `while` loop runs under a caller-chosen step budget (`fuel`): each
//! iteration of each loop spends one step, and a program whose loops need
//! more steps stops with `Fault::StepLimit`.  Nothing else spends steps.
//!
//! What evaluation and execution mean is written down once, as the
//! relations `eval_rel` and `stmt_rel`: every public function here
//! promises its result, environment and output against them, and
//! `execute` promises a full trace of intermediate states, one per
//! top-level statement.

use crate::ast::{BinaryExpr, BinaryOp, Expression, Let, Program, Statement};
use crate::float_bits::{float_gt, float_lt, gt_bits, lt_bits, ONE_BITS, ZERO_BITS};
use vstd::prelude::*;

verus! {

broadcast use vstd::std_specs::vec::axiom_vec_index_decreases;

/// A runtime value: the encoding of a double, or a boolean.
#[derive(Debug, Clone, Copy, PartialEq, Eq, Structural)]
pub enum Value {
    Float(u64),
    Bool(bool),
}

/// An evaluation fault.  The first three are invariant violations that
/// abort execution at the point of failure; `StepLimit` reports an
/// exhausted loop budget.
#[derive(Debug, Clone, Copy, PartialEq, Eq, Structural)]
pub enum Fault {
    /// A `Variable` names no binding in the environment.
    UnboundVariable,
    /// A `Literal` carries text that does not name a double.
    MalformedLiteral,
    /// A `Unary` or `Call` node was reached: both parse but have no
    /// evaluation semantics.
    Unsupported,
    /// The step budget ran out inside a `while` loop.
    StepLimit,
}

/// The coercion of a value to the encoding of a double: true is 1.0,
/// false is 0.0, and a number is itself.
pub open spec fn coerce_bits(v: Value) -> u64 {
    match v {
        Value::Float(b) => b,
        Value::Bool(true) => ONE_BITS,
        Value::Bool(false) => ZERO_BITS,
    }
}

impl From<Value> for u64 {
    /// Coerces a value to the encoding of a double.
    fn from(v: Value) -> (r: u64) {
        match v {
            Value::Float(b) => b,
            Value::Bool(true) => ONE_BITS,
            Value::Bool(false) => ZERO_BITS,
        }
    }
}

impl vstd::std_specs::convert::FromSpecImpl<Value> for u64 {
    open spec fn obeys_from_spec() -> bool {
        true
    }

    open spec fn from_spec(v: Value) -> u64 {
        coerce_bits(v)
    }
}

/// Trigger marker for the intermediate values and faults bound by the
/// evaluation relation's existentials.  Always true; it only names the
/// witnesses so that a prover can introduce and eliminate them.
pub open spec fn witness_value(v: Value) -> bool {
    true
}

/// Trigger marker for the execution traces bound by `execute`'s
/// postcondition.
pub open spec fn witness_trace(t: Seq<(Map<Seq<char>, u64>, Seq<u64>, u64)>) -> bool {
    true
}

/// Trigger marker for the statement indices bound by `execute`'s
/// postcondition.
pub open spec fn witness_index(k: int) -> bool {
    true
}

/// What one operator makes of its two coerced operands: a comparison is
/// decided by the sign-magnitude order of the encodings, and an
/// arithmetic operator returns whatever the supplied arithmetic function
/// may return for these encodings.
pub open spec fn op_rel<FA: Fn(BinaryOp, u64, u64) -> u64>(
    op: BinaryOp,
    a: u64,
    b: u64,
    fa: FA,
    v: Value,
) -> bool {
    match op {
        BinaryOp::CmpL => v == Value::Bool(gt_bits(a, b)),
        BinaryOp::CmpR => v == Value::Bool(lt_bits(a, b)),
        _ => exists|bits: u64| v == Value::Float(bits) && #[trigger] call_ensures(
            fa,
            (op, a, b),
            bits,
        ),
    }
}

/// The evaluation relation: `r` is a possible outcome of evaluating `e`
/// under the environment `env`, when `fa` supplies the arithmetic and
/// `fp` the reading of literals.  A literal's text is read by `fp`; a
/// variable reads its binding or faults; `Unary` and `Call` fault; a
/// binary node evaluates its left operand first, then its right one,
/// aborts on the first fault, and otherwise combines the two coerced
/// results with `op_rel`.  Everything except what `fa` and `fp` decide
/// is fixed by `e` and `env`.
pub open spec fn eval_rel<FA: Fn(BinaryOp, u64, u64) -> u64, FP: Fn(String) -> Option<u64>>(
    e: Expression,
    env: Map<Seq<char>, u64>,
    fa: FA,
    fp: FP,
    r: Result<Value, Fault>,
) -> bool
    decreases e,
{
    match e {
        Expression::Literal(t) => (match r {
            Ok(v) => exists|b: u64| v == Value::Float(b) && #[trigger] call_ensures(
                fp,
                (t,),
                Some(b),
            ),
            Err(f) => f == Fault::MalformedLiteral && call_ensures(fp, (t,), None::<u64>),
        }),
        Expression::Variable(x) => {
            if env.contains_key(x@) {
                r == Ok::<Value, Fault>(Value::Float(env[x@]))
            } else {
                r == Err::<Value, Fault>(Fault::UnboundVariable)
            }
        },
        Expression::Unary(_) => r == Err::<Value, Fault>(Fault::Unsupported),
        Expression::Call(_, _) => r == Err::<Value, Fault>(Fault::Unsupported),
        Expression::Binary(b) => (match r {
            Ok(v) => exists|lv: Value, rv: Value|
                {
                    &&& #[trigger] witness_value(lv)
                    &&& #[trigger] witness_value(rv)
                    &&& eval_rel(b.lhs, env, fa, fp, Ok(lv))
                    &&& eval_rel(b.rhs, env, fa, fp, Ok(rv))
                    &&& op_rel(b.op, coerce_bits(lv), coerce_bits(rv), fa, v)
                },
            Err(f) => {
                ||| eval_rel(b.lhs, env, fa, fp, Err(f))
                ||| (exists|lv: Value|
                    {
                        &&& #[trigger] witness_value(lv)
                        &&& eval_rel(b.lhs, env, fa, fp, Ok(lv))
                        &&& eval_rel(b.rhs, env, fa, fp, Err(f))
                    })
            },
        }),
    }
}

/// The statement relation: executing `st` from environment `env0` and
/// output `out0` under the step budget `fuel` may end in environment
/// `env1`, output `out1` and result `r`.  A `let` binds the coerced
/// value of its expression, or leaves the state exactly untouched when
/// the evaluation faults; a `print` appends the coerced value; an `if`
/// or `while` whose condition is not the boolean true leaves the state
/// untouched — boolean false and every number alike — and one whose
/// condition faults propagates the fault unchanged.  When the condition
/// is the boolean true, the relation records only that: what the body
/// then does is governed statement by statement by `execute_statement`'s
/// own contract, and across a whole run by the trace in `execute`'s
/// contract.
pub open spec fn stmt_rel<FA: Fn(BinaryOp, u64, u64) -> u64, FP: Fn(String) -> Option<u64>>(
    st: Statement,
    env0: Map<Seq<char>, u64>,
    out0: Seq<u64>,
    fuel: u64,
    fa: FA,
    fp: FP,
    env1: Map<Seq<char>, u64>,
    out1: Seq<u64>,
    r: Result<u64, Fault>,
) -> bool {
    match st {
        Statement::Let(l) => {
            &&& out1 == out0
            &&& (match r {
                Ok(rem) => rem == fuel && exists|v: Value|
                    {
                        &&& #[trigger] witness_value(v)
                        &&& eval_rel(l.value, env0, fa, fp, Ok(v))
                        &&& env1 == env0.insert(l.variable@, coerce_bits(v))
                    },
                Err(f) => env1 == env0 && eval_rel(l.value, env0, fa, fp, Err(f)),
            })
        },
        Statement::Print(e) => {
            &&& env1 == env0
            &&& (match r {
                Ok(rem) => rem == fuel && exists|v: Value|
                    {
                        &&& #[trigger] witness_value(v)
                        &&& eval_rel(e, env0, fa, fp, Ok(v))
                        &&& out1 == out0.push(coerce_bits(v))
                    },
                Err(f) => out1 == out0 && eval_rel(e, env0, fa, fp, Err(f)),
            })
        },
        Statement::If(c) => {
            ||| (exists|v: Value|
                {
                    &&& #[trigger] witness_value(v)
                    &&& eval_rel(c.condition, env0, fa, fp, Ok(v))
                    &&& v != Value::Bool(true)
                    &&& r == Ok::<u64, Fault>(fuel)
                    &&& env1 == env0
                    &&& out1 == out0
                })
            ||| (r matches Err(f) && eval_rel(c.condition, env0, fa, fp, Err(f)) && env1 == env0
                && out1 == out0)
            ||| eval_rel(c.condition, env0, fa, fp, Ok(Value::Bool(true)))
        },
        Statement::While(w) => {
            ||| (exists|v: Value|
                {
                    &&& #[trigger] witness_value(v)
                    &&& eval_rel(w.condition, env0, fa, fp, Ok(v))
                    &&& v != Value::Bool(true)
                    &&& r == Ok::<u64, Fault>(fuel)
                    &&& env1 == env0
                    &&& out1 == out0
                })
            ||| (r matches Err(f) && eval_rel(w.condition, env0, fa, fp, Err(f)) && env1 == env0
                && out1 == out0)
            ||| eval_rel(w.condition, env0, fa, fp, Ok(Value::Bool(true)))
        },
    }
}

/// The mapping a sequence of bindings denotes: later bindings shadow
/// earlier ones.
pub closed spec fn map_of(entries: Seq<(String, u64)>) -> Map<Seq<char>, u64>
    decreases entries.len(),
{
    if entries.len() == 0 {
        Map::empty()
    } else {
        map_of(entries.drop_last()).insert(entries.last().0@, entries.last().1)
    }
}

/// The variable environment: a mapping from variable name to the
/// encoding of a stored double.  Booleans never live here: a bound
/// value was always coerced first.
pub struct Env {
    entries: Vec<(String, u64)>,
}

impl View for Env {
    type V = Map<Seq<char>, u64>;

    closed spec fn view(&self) -> Map<Seq<char>, u64> {
        map_of(self.entries@)
    }
}

/// Reads the newest binding of `name` among the first `i` entries.
fn get_from(entries: &Vec<(String, u64)>, name: &String, i: usize) -> (r: Option<u64>)
    requires
        i <= entries@.len(),
    ensures
        (match r {
            Some(b) => map_of(entries@.take(i as int)).contains_key(name@) && b == map_of(
                entries@.take(i as int),
            )[name@],
            None => !map_of(entries@.take(i as int)).contains_key(name@),
        }),
    decreases i,
{
    if i == 0 {
        assert(entries@.take(0).len() == 0);
        None
    } else {
        let entry = &entries[i - 1];
        proof {
            assert(entries@.take(i as int).drop_last() =~= entries@.take(i as int - 1));
            assert(entries@.take(i as int).last() == entries@[i as int - 1]);
        }
        if entry.0 == *name {
            Some(entry.1)
        } else {
            get_from(entries, name, i - 1)
        }
    }
}

impl Env {
    /// The empty environment.
    pub fn new() -> (r: Env)
        ensures
            r@ == Map::<Seq<char>, u64>::empty(),
    {
        Env { entries: Vec::new() }
    }

    /// Reads the value bound to `name`, if any.  Only the newest binding
    /// of a name is visible.
    pub fn get(&self, name: &String) -> (r: Option<u64>)
        ensures
            (match r {
                Some(b) => self@.contains_key(name@) && b == self@[name@],
                None => !self@.contains_key(name@),
            }),
    {
        let n = self.entries.len();
        proof {
            assert(self.entries@.take(n as int) =~= self.entries@);
        }
        get_from(&self.entries, name, n)
    }

    /// Binds or rebinds `name` to `val`.  A newer binding replaces the
    /// older one for every later read.
    pub fn set(&mut self, name: String, val: u64)
        ensures
            final(self)@ == old(self)@.insert(name@, val),
    {
        let ghost old_entries = self.entries@;
        self.entries.push((name, val));
        proof {
            assert(self.entries@.drop_last() =~= old_entries);
        }
    }
}

impl BinaryExpr {
    /// Evaluates a binary node: left operand first, then the right one,
    /// then the operator on the two results, each coerced to a number.
    /// The four arithmetic operators produce a number through `arith`;
    /// the two comparisons produce a boolean, decided here on the
    /// encodings.  The first fault in evaluation order aborts.
    pub fn eval<FA: Fn(BinaryOp, u64, u64) -> u64 + Copy, FP: Fn(String) -> Option<u64> + Copy>(
        &self,
        values: &Env,
        arith: FA,
        parse_num: FP,
    ) -> (r: Result<Value, Fault>)
        requires
            forall|args: (BinaryOp, u64, u64)| #[trigger] call_requires(arith, args),
            forall|args: (String,)| #[trigger] call_requires(parse_num, args),
        ensures
            (match r {
                Ok(v) => exists|lv: Value, rv: Value|
                    {
                        &&& #[trigger] witness_value(lv)
                        &&& #[trigger] witness_value(rv)
                        &&& eval_rel(self.lhs, values@, arith, parse_num, Ok(lv))
                        &&& eval_rel(self.rhs, values@, arith, parse_num, Ok(rv))
                        &&& op_rel(self.op, coerce_bits(lv), coerce_bits(rv), arith, v)
                    },
                Err(f) => {
                    &&& f != Fault::StepLimit
                    &&& ({
                        ||| eval_rel(self.lhs, values@, arith, parse_num, Err(f))
                        ||| (exists|lv: Value|
                            {
                                &&& #[trigger] witness_value(lv)
                                &&& eval_rel(self.lhs, values@, arith, parse_num, Ok(lv))
                                &&& eval_rel(self.rhs, values@, arith, parse_num, Err(f))
                            })
                    })
                },
            }),
        decreases self,
    {
        let lv = match self.lhs.eval(values, arith, parse_num) {
            Ok(v) => v,
            Err(f) => {
                return Err(f);
            },
        };
        let rv = match self.rhs.eval(values, arith, parse_num) {
            Ok(v) => v,
            Err(f) => {
                proof {
                    assert(witness_value(lv));
                    assert(eval_rel(self.lhs, values@, arith, parse_num, Ok(lv)));
                    assert(eval_rel(self.rhs, values@, arith, parse_num, Err::<Value, Fault>(f)));
                }
                return Err(f);
            },
        };
        let a = u64::from(lv);
        let b = u64::from(rv);
        proof {
            assert(witness_value(lv));
            assert(witness_value(rv));
            assert(eval_rel(self.lhs, values@, arith, parse_num, Ok(lv)));
            assert(eval_rel(self.rhs, values@, arith, parse_num, Ok(rv)));
        }
        match self.op {
            BinaryOp::CmpL => Ok(Value::Bool(float_gt(a, b))),
            BinaryOp::CmpR => Ok(Value::Bool(float_lt(a, b))),
            _ => {
                let bits = arith(self.op, a, b);
                proof {
                    assert(op_rel(self.op, coerce_bits(lv), coerce_bits(rv), arith, Value::Float(bits)));
                }
                Ok(Value::Float(bits))
            },
        }
    }
}

impl Expression {
    /// Evaluates an expression under the current environment.  A literal
    /// is turned into a number by `parse_num` only now, at evaluation
    /// time; a variable reads its newest binding; `Unary` and `Call`
    /// have no evaluation semantics and fault.
    pub fn eval<FA: Fn(BinaryOp, u64, u64) -> u64 + Copy, FP: Fn(String) -> Option<u64> + Copy>(
        &self,
        values: &Env,
        arith: FA,
        parse_num: FP,
    ) -> (r: Result<Value, Fault>)
        requires
            forall|args: (BinaryOp, u64, u64)| #[trigger] call_requires(arith, args),
            forall|args: (String,)| #[trigger] call_requires(parse_num, args),
        ensures
            eval_rel(*self, values@, arith, parse_num, r),
            (match r {
                Ok(_) => true,
                Err(f) => f != Fault::StepLimit,
            }),
        decreases self,
    {
        match self {
            Expression::Literal(lit) => {
                let t = lit.clone();
                match parse_num(t) {
                    Some(bits) => Ok(Value::Float(bits)),
                    None => Err(Fault::MalformedLiteral),
                }
            },
            Expression::Variable(name) => {
                match values.get(name) {
                    Some(bits) => Ok(Value::Float(bits)),
                    None => Err(Fault::UnboundVariable),
                }
            },
            Expression::Binary(b) => b.eval(values, arith, parse_num),
            Expression::Unary(_) => Err(Fault::Unsupported),
            Expression::Call(_, _) => Err(Fault::Unsupported),
        }
    }
}

/// The interpreter: one private environment and the output collected so
/// far, one instance per program run.
pub struct Interpreter {
    values: Env,
    out: Vec<u64>,
}

impl Default for Interpreter {
    /// A fresh interpreter: empty environment, no output.
    fn default() -> (r: Self)
        ensures
            r.env() == Map::<Seq<char>, u64>::empty(),
            r.log() == Seq::<u64>::empty(),
    {
        Interpreter { values: Env::new(), out: Vec::new() }
    }
}

impl Interpreter {
    /// The environment as a mapping, for specification.
    pub closed spec fn env(&self) -> Map<Seq<char>, u64> {
        self.values@
    }

    /// The output collected so far, for specification.
    pub closed spec fn log(&self) -> Seq<u64> {
        self.out@
    }

    /// The encodings of the numbers printed so far, in print order.
    pub fn output(&self) -> (r: &Vec<u64>)
        ensures
            r@ == self.log(),
    {
        &self.out
    }

    /// Reads the value currently bound to `name`, if any.
    pub fn value_of(&self, name: &String) -> (r: Option<u64>)
        ensures
            (match r {
                Some(b) => self.env().contains_key(name@) && b == self.env()[name@],
                None => !self.env().contains_key(name@),
            }),
    {
        self.values.get(name)
    }

    /// Executes one statement.  `fuel` bounds the loop steps still
    /// allowed; the steps left come back on success.
    ///
    /// A `let` evaluates under the current environment and binds the
    /// coerced number — or, when evaluation faults, leaves the
    /// environment exactly as it was.  An `if` or `while` runs its body
    /// only on the exact boolean true: boolean false and every number
    /// alike skip it.  A `print` appends the coerced number to the
    /// output.
    #[verifier::loop_isolation(false)]
    pub fn execute_statement<
        FA: Fn(BinaryOp, u64, u64) -> u64 + Copy,
        FP: Fn(String) -> Option<u64> + Copy,
    >(&mut self, statement: &Statement, arith: FA, parse_num: FP, fuel: u64) -> (r: Result<
        u64,
        Fault,
    >)
        requires
            forall|args: (BinaryOp, u64, u64)| #[trigger] call_requires(arith, args),
            forall|args: (String,)| #[trigger] call_requires(parse_num, args),
        ensures
            (match r {
                Ok(rem) => rem <= fuel,
                Err(_) => true,
            }),
            old(self).log().is_prefix_of(final(self).log()),
            stmt_rel(
                *statement,
                old(self).env(),
                old(self).log(),
                fuel,
                arith,
                parse_num,
                final(self).env(),
                final(self).log(),
                r,
            ),
        decreases fuel, statement,
    {
        match statement {
            Statement::Let(l) => {
                match l.value.eval(&self.values, arith, parse_num) {
                    Ok(v) => {
                        let b = u64::from(v);
                        self.values.set(l.variable.clone(), b);
                        proof {
                            assert(witness_value(v));
                            assert(eval_rel(l.value, old(self).env(), arith, parse_num, Ok(v)));
                            assert(self.env() == old(self).env().insert(
                                l.variable@,
                                coerce_bits(v),
                            ));
                        }
                        Ok(fuel)
                    },
                    Err(f) => Err(f),
                }
            },
            Statement::Print(e) => {
                match e.eval(&self.values, arith, parse_num) {
                    Ok(v) => {
                        let b = u64::from(v);
                        self.out.push(b);
                        proof {
                            assert(witness_value(v));
                            assert(eval_rel(*e, old(self).env(), arith, parse_num, Ok(v)));
                            assert(self.log() == old(self).log().push(coerce_bits(v)));
                        }
                        Ok(fuel)
                    },
                    Err(f) => Err(f),
                }
            },
            Statement::If(c) => {
                match c.condition.eval(&self.values, arith, parse_num) {
                    Ok(Value::Bool(true)) => {
                        let mut f = fuel;
                        let mut i: usize = 0;
                        while i < c.body.len()
                            invariant
                                forall|args: (BinaryOp, u64, u64)|
                                    #[trigger] call_requires(arith, args),
                                forall|args: (String,)| #[trigger] call_requires(parse_num, args),
                                i <= c.body.len(),
                                f <= fuel,
                                old(self).log().is_prefix_of(self.log()),
                            decreases c.body.len() - i,
                        {
                            match self.execute_statement(&c.body[i], arith, parse_num, f) {
                                Ok(nf) => {
                                    f = nf;
                                },
                                Err(e) => {
                                    return Err(e);
                                },
                            }
                            i = i + 1;
                        }
                        Ok(f)
                    },
                    Ok(v) => {
                        proof {
                            assert(witness_value(v));
                            assert(eval_rel(c.condition, old(self).env(), arith, parse_num, Ok(v)));
                        }
                        Ok(fuel)
                    },
                    Err(f) => Err(f),
                }
            },
            Statement::While(w) => {
                let mut f = fuel;
                let ghost mut entered: bool = false;
                loop
                    invariant
                        forall|args: (BinaryOp, u64, u64)| #[trigger] call_requires(arith, args),
                        forall|args: (String,)| #[trigger] call_requires(parse_num, args),
                        f <= fuel,
                        old(self).log().is_prefix_of(self.log()),
                        !entered ==> f == fuel && self.env() == old(self).env() && self.log()
                            == old(self).log(),
                        entered ==> eval_rel(
                            w.condition,
                            old(self).env(),
                            arith,
                            parse_num,
                            Ok(Value::Bool(true)),
                        ),
                    decreases f,
                {
                    match w.condition.eval(&self.values, arith, parse_num) {
                        Ok(Value::Bool(true)) => {
                            proof {
                                if !entered {
                                    assert(eval_rel(
                                        w.condition,
                                        old(self).env(),
                                        arith,
                                        parse_num,
                                        Ok(Value::Bool(true)),
                                    ));
                                }
                                entered = true;
                            }
                            if f == 0 {
                                return Err(Fault::StepLimit);
                            }
                            f = f - 1;
                            let ghost f_iter = f;
                            let mut i: usize = 0;
                            while i < w.body.len()
                                invariant
                                    forall|args: (BinaryOp, u64, u64)|
                                        #[trigger] call_requires(arith, args),
                                    forall|args: (String,)|
                                        #[trigger] call_requires(parse_num, args),
                                    i <= w.body.len(),
                                    f <= f_iter,
                                    f_iter < fuel,
                                    old(self).log().is_prefix_of(self.log()),
                                decreases w.body.len() - i,
                            {
                                match self.execute_statement(&w.body[i], arith, parse_num, f) {
                                    Ok(nf) => {
                                        f = nf;
                                    },
                                    Err(e) => {
                                        return Err(e);
                                    },
                                }
                                i = i + 1;
                            }
                        },
                        Ok(v) => {
                            proof {
                                if !entered {
                                    assert(witness_value(v));
                                    assert(eval_rel(
                                        w.condition,
                                        old(self).env(),
                                        arith,
                                        parse_num,
                                        Ok(v),
                                    ));
                                }
                            }
                            return Ok(f);
                        },
                        Err(e) => {
                            proof {
                                if !entered {
                                    assert(eval_rel(
                                        w.condition,
                                        old(self).env(),
                                        arith,
                                        parse_num,
                                        Err::<Value, Fault>(e),
                                    ));
                                }
                            }
                            return Err(e);
                        },
                    }
                }
            },
        }
    }

    /// Executes a program's top-level statements in order under this
    /// interpreter's environment.  `fuel` bounds the loop steps of the
    /// whole run.  An empty program does nothing.
    #[verifier::loop_isolation(false)]
    pub fn execute<
        FA: Fn(BinaryOp, u64, u64) -> u64 + Copy,
        FP: Fn(String) -> Option<u64> + Copy,
    >(&mut self, program: &Program, arith: FA, parse_num: FP, fuel: u64) -> (r: Result<(), Fault>)
        requires
            forall|args: (BinaryOp, u64, u64)| #[trigger] call_requires(arith, args),
            forall|args: (String,)| #[trigger] call_requires(parse_num, args),
        ensures
            old(self).log().is_prefix_of(final(self).log()),
            (match r {
                Ok(_) => exists|t: Seq<(Map<Seq<char>, u64>, Seq<u64>, u64)>|
                    {
                        &&& #[trigger] witness_trace(t)
                        &&& t.len() == program.body@.len() + 1
                        &&& t[0] == (old(self).env(), old(self).log(), fuel)
                        &&& t[t.len() - 1].0 == final(self).env()
                        &&& t[t.len() - 1].1 == final(self).log()
                        &&& forall|j: int|
                            0 <= j < program.body@.len() ==> #[trigger] stmt_rel(
                                program.body@[j],
                                t[j].0,
                                t[j].1,
                                t[j].2,
                                arith,
                                parse_num,
                                t[j + 1].0,
                                t[j + 1].1,
                                Ok(t[j + 1].2),
                            )
                    },
                Err(f2) => exists|t: Seq<(Map<Seq<char>, u64>, Seq<u64>, u64)>, k: int|
                    {
                        &&& #[trigger] witness_trace(t)
                        &&& #[trigger] witness_index(k)
                        &&& 0 <= k < program.body@.len()
                        &&& t.len() == k + 1
                        &&& t[0] == (old(self).env(), old(self).log(), fuel)
                        &&& forall|j: int|
                            0 <= j < k ==> #[trigger] stmt_rel(
                                program.body@[j],
                                t[j].0,
                                t[j].1,
                                t[j].2,
                                arith,
                                parse_num,
                                t[j + 1].0,
                                t[j + 1].1,
                                Ok(t[j + 1].2),
                            )
                        &&& stmt_rel(
                            program.body@[k],
                            t[k].0,
                            t[k].1,
                            t[k].2,
                            arith,
                            parse_num,
                            final(self).env(),
                            final(self).log(),
                            Err(f2),
                        )
                    },
            }),
    {
        let mut f = fuel;
        let mut i: usize = 0;
        let ghost mut trace: Seq<(Map<Seq<char>, u64>, Seq<u64>, u64)> = seq![
            (old(self).env(), old(self).log(), fuel),
        ];
        while i < program.body.len()
            invariant
                forall|args: (BinaryOp, u64, u64)| #[trigger] call_requires(arith, args),
                forall|args: (String,)| #[trigger] call_requires(parse_num, args),
                i <= program.body.len(),
                old(self).log().is_prefix_of(self.log()),
                trace.len() == i + 1,
                trace[0] == (old(self).env(), old(self).log(), fuel),
                trace[i as int].0 == self.env(),
                trace[i as int].1 == self.log(),
                trace[i as int].2 == f,
                forall|j: int|
                    0 <= j < i ==> #[trigger] stmt_rel(
                        program.body@[j],
                        trace[j].0,
                        trace[j].1,
                        trace[j].2,
                        arith,
                        parse_num,
                        trace[j + 1].0,
                        trace[j + 1].1,
                        Ok(trace[j + 1].2),
                    ),
            decreases program.body.len() - i,
        {
            match self.execute_statement(&program.body[i], arith, parse_num, f) {
                Ok(nf) => {
                    f = nf;
                    proof {
                        let ghost prev = trace;
                        trace = trace.push((self.env(), self.log(), nf));
                        assert forall|j: int| 0 <= j < i + 1 implies #[trigger] stmt_rel(
                            program.body@[j],
                            trace[j].0,
                            trace[j].1,
                            trace[j].2,
                            arith,
                            parse_num,
                            trace[j + 1].0,
                            trace[j + 1].1,
                            Ok(trace[j + 1].2),
                        ) by {
                            assert(trace[j] == prev[j]);
                            if j < i {
                                assert(trace[j + 1] == prev[j + 1]);
                            } else {
                                assert(trace[j + 1] == (self.env(), self.log(), nf));
                            }
                        }
                    }
                },
                Err(e) => {
                    proof {
                        assert(witness_trace(trace));
                        assert(witness_index(i as int));
                        assert(stmt_rel(
                            program.body@[i as int],
                            trace[i as int].0,
                            trace[i as int].1,
                            trace[i as int].2,
                            arith,
                            parse_num,
                            self.env(),
                            self.log(),
                            Err::<u64, Fault>(e),
                        ));
                    }
                    return Err(e);
                },
            }
            i = i + 1;
        }
        proof {
            assert(witness_trace(trace));
        }
        Ok(())
    }
}

/// Variable rebinding: a second binding of a name replaces the first.
/// After binding `name` to `v1` and then to `v2`, a read of `name` sees
/// only `v2`, and every other name is untouched by either binding.
/// This is the environment a pair of `let` statements on the same name
/// leaves behind, as `execute_statement` promises it, and `value_of`
/// reads exactly this mapping.
pub proof fn lemma_rebinding(env: Map<Seq<char>, u64>, name: Seq<char>, v1: u64, v2: u64)
    ensures
        env.insert(name, v1).insert(name, v2) == env.insert(name, v2),
        env.insert(name, v1).insert(name, v2)[name] == v2,
        forall|other: Seq<char>| #[trigger]
            env.insert(name, v1).insert(name, v2).contains_key(other) && other != name
                ==> env.contains_key(other) && env.insert(name, v1).insert(name, v2)[other]
                == env[other],
{
    assert(env.insert(name, v1).insert(name, v2) =~= env.insert(name, v2));
}

/// Variable rebinding across execution: when a `let` of a name runs to
/// completion, as `execute_statement` relates it, the environment
/// afterwards holds for that name exactly the newly bound value — any
/// prior binding is unreadable — and every other name is untouched.
pub proof fn lemma_rebinding_executed<
    FA: Fn(BinaryOp, u64, u64) -> u64,
    FP: Fn(String) -> Option<u64>,
>(
    l: Let,
    env0: Map<Seq<char>, u64>,
    out0: Seq<u64>,
    fuel: u64,
    fa: FA,
    fp: FP,
    env1: Map<Seq<char>, u64>,
    out1: Seq<u64>,
    rem: u64,
)
    requires
        stmt_rel(Statement::Let(Box::new(l)), env0, out0, fuel, fa, fp, env1, out1, Ok(rem)),
    ensures
        exists|v: Value|
            {
                &&& #[trigger] witness_value(v)
                &&& eval_rel(l.value, env0, fa, fp, Ok(v))
                &&& env1 == env0.insert(l.variable@, coerce_bits(v))
                &&& env1[l.variable@] == coerce_bits(v)
            },
        env1.contains_key(l.variable@),
        forall|other: Seq<char>|
            other != l.variable@ ==> (#[trigger] env1.contains_key(other)
                == env0.contains_key(other) && (env0.contains_key(other) ==> env1[other]
                == env0[other])),
{
    let v = choose|v: Value|
        {
            &&& #[trigger] witness_value(v)
            &&& eval_rel(l.value, env0, fa, fp, Ok(v))
            &&& env1 == env0.insert(l.variable@, coerce_bits(v))
        };
    assert(env1[l.variable@] == coerce_bits(v));
}

/// The boolean-to-number coercion rule: true becomes 1.0, false becomes
/// 0.0, and a number is unchanged.  The coercion is lossy and
/// one-directional: a stored or printed boolean is indistinguishable from
/// the double it became.
pub proof fn lemma_coercion()
    ensures
        coerce_bits(Value::Bool(true)) == ONE_BITS,
        coerce_bits(Value::Bool(false)) == ZERO_BITS,
        forall|b: u64| coerce_bits(Value::Float(b)) == b,
{
}

} // verus!
