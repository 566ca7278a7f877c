//! The tree-walking evaluator.
//!
//! Evaluation works on the AST of [`crate::parser`] under a [`State`] that
//! holds a stack of function-definition frames and a stack of parameter
//! frames.  Every evaluating function takes a fuel bound and reports
//! [`EvalError::OutOfFuel`] when a program recurses deeper than the bound;
//! for every terminating program a large enough bound gives the program's
//! own outcome.  What each function may return is stated by the `er_*`
//! relations: everything is pinned down exactly but the one random effect,
//! the shuffle in boolean-vector addition, of which only a permutation is
//! promised.

use crate::parser::{expr_view, exprs_view, push_char, CompV, Expr, ExprV, Ident, Op, VectorComponent};
use rand::seq::SliceRandom;
use vstd::prelude::*;

verus! {

/// A runtime value.
#[derive(Debug, PartialEq)]
pub enum Value {
    Text(String),
    Boolean(bool),
    Vector(Vec<i64>),
    Function(Expr),
    Empty,
}

/// The mathematical model of a runtime value.
pub enum ValueV {
    Text(Seq<char>),
    Boolean(bool),
    Vector(Seq<i64>),
    Function(ExprV),
    Empty,
}

pub open spec fn value_view(v: Value) -> ValueV
    decreases v,
{
    match v {
        Value::Text(s) => ValueV::Text(s@),
        Value::Boolean(b) => ValueV::Boolean(b),
        Value::Vector(xs) => ValueV::Vector(xs@),
        Value::Function(e) => ValueV::Function(expr_view(e)),
        Value::Empty => ValueV::Empty,
    }
}

/// Why an evaluation stopped.
#[derive(Debug, Clone, Copy, PartialEq, Eq, Structural)]
pub enum EvalError {
    /// A call names a function that no frame defines.
    UndefinedFunction,
    /// A parameter reference beyond the parameters in scope.
    UnboundParam,
    /// An addition over an operand pair it is not defined for.
    UnsupportedOperands,
    /// The fuel bound was exhausted before evaluation finished.
    OutOfFuel,
}

/// The mathematical model of the evaluator state: a stack of function
/// frames (each a list of name-to-body bindings, later bindings shadowing
/// earlier ones) and a stack of parameter frames.
pub struct StateV {
    pub funcs: Seq<Seq<(Seq<char>, ExprV)>>,
    pub params: Seq<Seq<ValueV>>,
}

pub open spec fn frame_view(f: Seq<(Ident, Expr)>) -> Seq<(Seq<char>, ExprV)> {
    f.map_values(|p: (Ident, Expr)| (p.0.0@, expr_view(p.1)))
}

pub open spec fn funcs_view(fs: Seq<Vec<(Ident, Expr)>>) -> Seq<Seq<(Seq<char>, ExprV)>> {
    fs.map_values(|f: Vec<(Ident, Expr)>| frame_view(f@))
}

pub open spec fn vals_view(vs: Seq<Value>) -> Seq<ValueV> {
    vs.map_values(|v: Value| value_view(v))
}

pub open spec fn params_view(ps: Seq<Vec<Value>>) -> Seq<Seq<ValueV>> {
    ps.map_values(|f: Vec<Value>| vals_view(f@))
}

/// The evaluator state.
pub struct State {
    functions: Vec<Vec<(Ident, Expr)>>,
    params: Vec<Vec<Value>>,
    rng: rand::rngs::SmallRng,
}

impl View for State {
    type V = StateV;

    closed spec fn view(&self) -> StateV {
        StateV { funcs: funcs_view(self.functions@), params: params_view(self.params@) }
    }
}

impl StateV {
    /// There is always an innermost function frame for definitions to land in.
    pub open spec fn wf(self) -> bool {
        self.funcs.len() >= 1
    }

    /// One empty function frame, no parameters.
    pub open spec fn init() -> StateV {
        StateV { funcs: seq![Seq::empty()], params: Seq::empty() }
    }
}

impl State {
    pub open spec fn wf(&self) -> bool {
        self@.wf()
    }
}

/// The random number generator behind boolean-vector addition.
#[verifier::external_type_specification]
#[verifier::external_body]
pub struct ExSmallRng(rand::rngs::SmallRng);

/// Relies on rand's SeedableRng::from_entropy: a fresh small generator
/// seeded from the system's entropy source.
#[verifier::external_body]
fn rng_from_entropy() -> rand::rngs::SmallRng {
    rand::SeedableRng::from_entropy()
}

/// Relies on rand's SeedableRng::seed_from_u64: a generator built from the
/// given seed.  Nothing is claimed of the numbers it yields.
#[verifier::external_body]
fn rng_from_seed(seed: u64) -> rand::rngs::SmallRng {
    rand::SeedableRng::seed_from_u64(seed)
}

/// Relies on rand's SliceRandom::shuffle: a Fisher-Yates shuffle in place,
/// so the result is a permutation of the input.
#[verifier::external_body]
fn shuffle_values(rng: &mut rand::rngs::SmallRng, v: &mut Vec<i64>)
    ensures
        final(v)@.to_multiset() == old(v)@.to_multiset(),
{
    v.shuffle(rng);
}

/// What grapheme-cluster reversal turns a string into; a pure function of
/// the characters alone.
pub uninterp spec fn grapheme_reversed(s: Seq<char>) -> Seq<char>;

/// Relies on unicode_reverse::reverse_grapheme_clusters_in_place: reverses
/// the string's grapheme clusters in place, a pure function of the
/// characters alone.
#[verifier::external_body]
fn reverse_graphemes(s: &mut String)
    ensures
        final(s)@ == grapheme_reversed(old(s)@),
{
    unicode_reverse::reverse_grapheme_clusters_in_place(s);
}

impl State {
    /// A state with one empty function frame, no parameters, and a
    /// generator seeded from the system.
    pub fn new() -> (r: Self)
        ensures
            r@ == StateV::init(),
            r.wf(),
    {
        let frame: Vec<(Ident, Expr)> = Vec::new();
        let mut functions: Vec<Vec<(Ident, Expr)>> = Vec::new();
        functions.push(frame);
        let r = State { functions, params: Vec::new(), rng: rng_from_entropy() };
        proof {
            assert(funcs_view(r.functions@) =~= seq![frame_view(Seq::empty())]);
            assert(frame_view(Seq::empty()) =~= Seq::<(Seq<char>, ExprV)>::empty());
            assert(params_view(r.params@) =~= Seq::<Seq<ValueV>>::empty());
            assert(r@ =~= StateV::init());
        }
        r
    }

    /// Like [`State::new`], but with the random generator seeded from the
    /// given value, for reproducible runs.
    pub fn new_seeded(seed: u64) -> (r: Self)
        ensures
            r@ == StateV::init(),
            r.wf(),
    {
        let frame: Vec<(Ident, Expr)> = Vec::new();
        let mut functions: Vec<Vec<(Ident, Expr)>> = Vec::new();
        functions.push(frame);
        let r = State { functions, params: Vec::new(), rng: rng_from_seed(seed) };
        proof {
            assert(funcs_view(r.functions@) =~= seq![frame_view(Seq::empty())]);
            assert(frame_view(Seq::empty()) =~= Seq::<(Seq<char>, ExprV)>::empty());
            assert(params_view(r.params@) =~= Seq::<Seq<ValueV>>::empty());
            assert(r@ =~= StateV::init());
        }
        r
    }
}


/// The size of an expression, the structural part of every termination
/// measure in the evaluator.
pub open spec fn esize(e: ExprV) -> nat
    decreases e,
{
    match e {
        ExprV::Scope(b) => 1 + esize(*b),
        ExprV::Op(l, _, r) => 1 + esize(*l) + esize(*r),
        ExprV::Conditional(c, su, f) => 1 + esize(*c) + esize(*su) + (match f {
            Some(b) => esize(*b),
            None => 0,
        }),
        ExprV::Definition(_, b) => 1 + esize(*b),
        ExprV::Call(_, args) => 1 + esize_list(args),
        ExprV::Param(_) => 1,
        ExprV::Text(_) => 1,
        ExprV::Vector(cs) => 1 + cs.len(),
        ExprV::WriteIO(b) => 1 + esize(*b),
        ExprV::ReadIO => 1,
    }
}

pub open spec fn esize_list(s: Seq<ExprV>) -> nat
    decreases s,
{
    if s.len() == 0 {
        0
    } else {
        1 + esize(s.first()) + esize_list(s.drop_first())
    }
}

/// The latest binding of `name` in one frame.
pub open spec fn lookup_in_frame(f: Seq<(Seq<char>, ExprV)>, name: Seq<char>) -> Option<ExprV>
    decreases f.len(),
{
    if f.len() == 0 {
        None
    } else if f.last().0 == name {
        Some(f.last().1)
    } else {
        lookup_in_frame(f.drop_last(), name)
    }
}

/// The innermost binding of `name` over the whole frame stack.
pub open spec fn lookup_fn(frames: Seq<Seq<(Seq<char>, ExprV)>>, name: Seq<char>) -> Option<ExprV>
    decreases frames.len(),
{
    if frames.len() == 0 {
        None
    } else {
        match lookup_in_frame(frames.last(), name) {
            Some(b) => Some(b),
            None => lookup_fn(frames.drop_last(), name),
        }
    }
}

/// All parameters in scope as one flat sequence, the innermost frame first.
pub open spec fn flat_params(ps: Seq<Seq<ValueV>>) -> Seq<ValueV>
    decreases ps.len(),
{
    if ps.len() == 0 {
        Seq::empty()
    } else {
        ps.last() + flat_params(ps.drop_last())
    }
}

/// A fresh empty function frame for a scope or a call body.
pub open spec fn push_frame(st: StateV) -> StateV {
    StateV { funcs: st.funcs.push(Seq::empty()), params: st.params }
}

/// Leaving a scope pops the frame it pushed.
pub open spec fn pop_frame(st: StateV) -> StateV {
    StateV { funcs: st.funcs.drop_last(), params: st.params }
}

/// Install a binding in the innermost function frame.
pub open spec fn define_fn(st: StateV, name: Seq<char>, body: ExprV) -> StateV {
    StateV {
        funcs: st.funcs.update(st.funcs.len() - 1, st.funcs.last().push((name, body))),
        params: st.params,
    }
}

/// Entering a call pushes an empty function frame and the argument frame.
pub open spec fn enter_call(st: StateV, args: Seq<ValueV>) -> StateV {
    StateV { funcs: st.funcs.push(Seq::empty()), params: st.params.push(args) }
}

/// Returning from a call pops both frames that entering it pushed.
pub open spec fn exit_call(st: StateV) -> StateV {
    StateV { funcs: st.funcs.drop_last(), params: st.params.drop_last() }
}

/// Evaluation leaves the frame structure as it found it: as many function
/// frames as before, and the same parameter stack.
pub open spec fn frames_ok(st: StateV, stf: StateV) -> bool {
    stf.funcs.len() == st.funcs.len() && stf.params == st.params
}

/// The frame discipline, stated of an outcome.
pub open spec fn out_frames_ok<T>(st: StateV, out: Result<(T, StateV), EvalError>) -> bool {
    match out {
        Ok((_, stf)) => frames_ok(st, stf),
        Err(_) => true,
    }
}

/// The bits of a signed value, as an unsigned value.
pub open spec fn i64_bits(c: i64) -> u64 {
    if c >= 0 {
        c as u64
    } else {
        (u64::MAX - ((-(c + 1)) as u64)) as u64
    }
}

/// A signed value with the bits of an unsigned one.
pub open spec fn u64_as_i64(n: u64) -> i64 {
    if n <= 0x7fff_ffff_ffff_ffff {
        n as i64
    } else {
        (-(((u64::MAX - n) as u64) as int) - 1) as i64
    }
}

/// One step of the truthiness fold over a vector.
pub open spec fn truthy_step(acc: u64, c: i64, i: u64) -> u64 {
    acc ^ vstd::wrapping::u64_specs::wrapping_mul(i64_bits(c) << (acc & 7), i)
}

pub open spec fn truthy_fold(cs: Seq<i64>, i: int, acc: u64) -> u64
    decreases crate::parser::gap(i, cs.len() as int),
{
    if 0 <= i < cs.len() {
        truthy_fold(cs, i + 1, truthy_step(acc, cs[i], i as u64))
    } else {
        acc
    }
}

/// A vector is truthy when the fixed fold over its contents comes out even.
pub open spec fn vector_truthy(cs: Seq<i64>) -> bool {
    truthy_fold(cs, 0, 3) % 2 == 0
}

/// A text is truthy when every character is `O` or `k`; empty text is.
pub open spec fn text_truthy(t: Seq<char>) -> bool {
    forall|i: int| 0 <= i < t.len() ==> t[i] == 'O' || t[i] == 'k'
}

pub open spec fn digit_char(d: nat) -> char {
    if d == 0 {
        '0'
    } else if d == 1 {
        '1'
    } else if d == 2 {
        '2'
    } else if d == 3 {
        '3'
    } else if d == 4 {
        '4'
    } else if d == 5 {
        '5'
    } else if d == 6 {
        '6'
    } else if d == 7 {
        '7'
    } else if d == 8 {
        '8'
    } else {
        '9'
    }
}

/// The decimal digits of an unsigned value.
pub open spec fn u64_digits(n: nat) -> Seq<char>
    decreases n,
{
    if n < 10 {
        seq![digit_char(n)]
    } else {
        u64_digits(n / 10).push(digit_char(n % 10))
    }
}

/// The decimal rendering of a signed value.
pub open spec fn i64_digits(n: i64) -> Seq<char> {
    if n >= 0 {
        u64_digits(n as nat)
    } else {
        seq!['-'] + u64_digits((-(n as int)) as nat)
    }
}

/// The decimal renderings of a vector's entries, with no separator.
pub open spec fn vec_digits(cs: Seq<i64>) -> Seq<char>
    decreases cs.len(),
{
    if cs.len() == 0 {
        Seq::empty()
    } else {
        i64_digits(cs.first()) + vec_digits(cs.drop_first())
    }
}

pub open spec fn elem_or_zero(s: Seq<i64>, i: int) -> i64 {
    if 0 <= i < s.len() {
        s[i]
    } else {
        0
    }
}

/// Elementwise wrapping addition, out to the longer operand.
pub open spec fn add_vectors(a: Seq<i64>, b: Seq<i64>) -> Seq<i64> {
    Seq::new(
        if a.len() >= b.len() {
            a.len()
        } else {
            b.len()
        },
        |i: int| vstd::wrapping::i64_specs::wrapping_add(elem_or_zero(a, i), elem_or_zero(b, i)),
    )
}

/// Drop the run of zeros at the end.
pub open spec fn trim_zeros(s: Seq<i64>) -> Seq<i64>
    decreases s.len(),
{
    if s.len() > 0 && s.last() == 0 {
        trim_zeros(s.drop_last())
    } else {
        s
    }
}

/// What a text coerces to: its length in Unicode scalar values (capped at
/// the largest signed value, which no real string reaches).
pub open spec fn text_measure(t: Seq<char>) -> i64 {
    if t.len() <= 0x7fff_ffff_ffff_ffff {
        t.len() as i64
    } else {
        0x7fff_ffff_ffff_ffff as i64
    }
}

/// What evaluating an expression yields: a value and the state after, or
/// an error.
pub type EOut = Result<(ValueV, StateV), EvalError>;

/// What a truthiness test yields.
pub type BOut = Result<(bool, StateV), EvalError>;

/// What coercion to vector contents yields.
pub type VOut = Result<(Seq<i64>, StateV), EvalError>;

/// What evaluating an argument list yields.
pub type LOut = Result<(Seq<ValueV>, StateV), EvalError>;

/// Trigger markers: trivially true predicates whose applications give the
/// solver the terms it needs to instantiate the existentials below.
pub open spec fn wit_st(w: StateV) -> bool {
    true
}

pub open spec fn wit_val(v: ValueV, w: StateV) -> bool {
    true
}

pub open spec fn wit_bool(b: bool, w: StateV) -> bool {
    true
}

pub open spec fn wit_ints(xs: Seq<i64>) -> bool {
    true
}

pub open spec fn wit_ints_st(xs: Seq<i64>, w: StateV) -> bool {
    true
}

pub open spec fn wit_vseq(vs: Seq<ValueV>) -> bool {
    true
}

pub open spec fn wit_vseq_st(vs: Seq<ValueV>, w: StateV) -> bool {
    true
}

/// The body of a scope evaluated under a pushed frame, which is popped
/// again afterwards.
pub open spec fn scope_body_ok(st: StateV, b: ExprV, fuel: nat, v: ValueV, stf: StateV) -> bool
    decreases fuel, 1nat, esize(b) + 1, 0nat,
{
    exists|st2: StateV|
        #![trigger wit_st(st2)]
        er_expr(push_frame(st), b, fuel, Ok((v, st2))) && stf == pop_frame(st2)
}

/// A vector literal's contents produced some sequence.
pub open spec fn vector_lit_ok(st: StateV, cs: Seq<CompV>, fuel: nat, v: ValueV, stf: StateV) -> bool
    decreases fuel, 1nat, cs.len() + 1, 0nat,
{
    exists|xs: Seq<i64>|
        #![trigger wit_ints(xs)]
        er_vector(st, cs, fuel, Ok((xs, stf))) && v == ValueV::Vector(xs)
}

/// What evaluating `e` under `st` with the given fuel may yield.  All of
/// evaluation is deterministic except the shuffle in boolean-vector
/// addition, so this is a relation: the one allowed outcome everywhere,
/// and any permutation there.
pub open spec fn er_expr(st: StateV, e: ExprV, fuel: nat, out: EOut) -> bool
    decreases fuel, 1nat, esize(e), 1nat,
{
    out_frames_ok(st, out) && match e {
        ExprV::Scope(b) => match out {
            Ok((v, stf)) => scope_body_ok(st, *b, fuel, v, stf),
            Err(err) => er_expr(push_frame(st), *b, fuel, Err(err)),
        },
        ExprV::Op(l, op, r) => er_op(st, *l, op, *r, fuel, out),
        ExprV::Conditional(c, su, f) => er_conditional(st, *c, *su, f, fuel, out),
        ExprV::Definition(name, body) => out == Ok::<(ValueV, StateV), EvalError>(
            (ValueV::Function(*body), define_fn(st, name, *body)),
        ),
        ExprV::Call(name, args) => er_call(st, name, args, fuel, out),
        ExprV::Param(k) => er_param(st, k, fuel, out),
        ExprV::Text(t) => out == Ok::<(ValueV, StateV), EvalError>((ValueV::Text(t), st)),
        ExprV::Vector(cs) => match out {
            Ok((v, stf)) => vector_lit_ok(st, cs, fuel, v, stf),
            Err(err) => er_vector(st, cs, fuel, Err(err)),
        },
        ExprV::WriteIO(_) => out == Ok::<(ValueV, StateV), EvalError>((ValueV::Empty, st)),
        ExprV::ReadIO => out == Ok::<(ValueV, StateV), EvalError>((ValueV::Empty, st)),
    }
}

/// Dispatch on the operator once both operands are values.
pub open spec fn er_op_after(st: StateV, v1: ValueV, op: Op, v2: ValueV, fuel: nat, out: EOut) -> bool
    decreases fuel, 0nat, 0nat, 1nat,
{
    match op {
        Op::Add => er_add(st, v1, v2, fuel, out),
        Op::Equ => out == Ok::<(ValueV, StateV), EvalError>((ValueV::Boolean(v1 == v2), st)),
        Op::Mul => out == Ok::<(ValueV, StateV), EvalError>((v1, st)),
        Op::Sub => out == Ok::<(ValueV, StateV), EvalError>((v1, st)),
    }
}

/// Both operands evaluated and the operator's rule produced the outcome.
pub open spec fn op_chain(st: StateV, l: ExprV, op: Op, r: ExprV, fuel: nat, out: EOut) -> bool
    decreases fuel, 1nat, esize(l) + esize(r), 1nat,
{
    exists|v1: ValueV, st1: StateV, v2: ValueV, st2: StateV|
        #![trigger wit_val(v1, st1), wit_val(v2, st2)]
        er_expr(st, l, fuel, Ok((v1, st1))) && er_expr(st1, r, fuel, Ok((v2, st2))) && er_op_after(
            st2,
            v1,
            op,
            v2,
            fuel,
            out,
        )
}

/// The left operand evaluated and the right one failed.
pub open spec fn op_err_rhs(st: StateV, l: ExprV, r: ExprV, fuel: nat, err: EvalError) -> bool
    decreases fuel, 1nat, esize(l) + esize(r), 1nat,
{
    exists|v1: ValueV, st1: StateV|
        #![trigger wit_val(v1, st1)]
        er_expr(st, l, fuel, Ok((v1, st1))) && er_expr(st1, r, fuel, Err(err))
}

/// A binary operation: the left operand, then the right, then the operator.
pub open spec fn er_op(st: StateV, l: ExprV, op: Op, r: ExprV, fuel: nat, out: EOut) -> bool
    decreases fuel, 1nat, esize(l) + esize(r), 3nat,
{
    out_frames_ok(st, out) && match out {
        Ok(_) => op_chain(st, l, op, r, fuel, out),
        Err(err) => er_expr(st, l, fuel, Err(err)) || op_err_rhs(st, l, r, fuel, err) || op_chain(
            st,
            l,
            op,
            r,
            fuel,
            Err(err),
        ),
    }
}

pub open spec fn opt_esize(f: Option<Box<ExprV>>) -> nat {
    match f {
        Some(b) => esize(*b),
        None => 0nat,
    }
}

/// The condition evaluated, its truthiness came out, and the branch that
/// picks produced the outcome (no else branch: the empty value).
pub open spec fn cond_chain(
    st: StateV,
    c: ExprV,
    su: ExprV,
    f: Option<Box<ExprV>>,
    fuel: nat,
    out: EOut,
) -> bool
    decreases fuel, 1nat, esize(c) + esize(su) + opt_esize(f), 1nat,
{
    exists|vc: ValueV, st1: StateV, b: bool, st2: StateV|
        #![trigger wit_val(vc, st1), wit_bool(b, st2)]
        er_expr(st, c, fuel, Ok((vc, st1))) && er_truthy(st1, vc, fuel, Ok((b, st2))) && (if b {
            er_expr(st2, su, fuel, out)
        } else {
            match f {
                Some(fe) => er_expr(st2, *fe, fuel, out),
                None => out == Ok::<(ValueV, StateV), EvalError>((ValueV::Empty, st2)),
            }
        })
}

/// The condition evaluated but the truthiness test failed.
pub open spec fn cond_err_truthy(st: StateV, c: ExprV, su: ExprV, fuel: nat, err: EvalError) -> bool
    decreases fuel, 1nat, esize(c) + esize(su), 1nat,
{
    exists|vc: ValueV, st1: StateV|
        #![trigger wit_val(vc, st1)]
        er_expr(st, c, fuel, Ok((vc, st1))) && er_truthy(st1, vc, fuel, Err(err))
}

/// A conditional: the condition, its truthiness, then one branch; a missing
/// else branch yields the empty value.
pub open spec fn er_conditional(
    st: StateV,
    c: ExprV,
    su: ExprV,
    f: Option<Box<ExprV>>,
    fuel: nat,
    out: EOut,
) -> bool
    decreases fuel, 1nat, esize(c) + esize(su) + opt_esize(f), 3nat,
{
    out_frames_ok(st, out) && match out {
        Ok(_) => cond_chain(st, c, su, f, fuel, out),
        Err(err) => er_expr(st, c, fuel, Err(err)) || cond_err_truthy(st, c, su, fuel, err)
            || cond_chain(st, c, su, f, fuel, Err(err)),
    }
}

/// The first argument evaluated and the rest followed.
pub open spec fn args_cons(st: StateV, args: Seq<ExprV>, fuel: nat, out: LOut) -> bool
    decreases fuel, 1nat, esize_list(args), 2nat,
{
    args.len() > 0 && match out {
        Ok((vs, stf)) => exists|v0: ValueV, st1: StateV, rest: Seq<ValueV>|
            #![trigger wit_val(v0, st1), wit_vseq(rest)]
            er_expr(st, args.first(), fuel, Ok((v0, st1))) && er_args(
                st1,
                args.drop_first(),
                fuel,
                Ok((rest, stf)),
            ) && vs == seq![v0] + rest,
        Err(err) => exists|v0: ValueV, st1: StateV|
            #![trigger wit_val(v0, st1)]
            er_expr(st, args.first(), fuel, Ok((v0, st1))) && er_args(
                st1,
                args.drop_first(),
                fuel,
                Err(err),
            ),
    }
}

/// The arguments of a call, evaluated left to right.
pub open spec fn er_args(st: StateV, args: Seq<ExprV>, fuel: nat, out: LOut) -> bool
    decreases fuel, 1nat, esize_list(args), 3nat,
{
    out_frames_ok(st, out) && match out {
        Ok((vs, stf)) => if args.len() == 0 {
            vs == Seq::<ValueV>::empty() && stf == st
        } else {
            args_cons(st, args, fuel, out)
        },
        Err(err) => args.len() > 0 && (er_expr(st, args.first(), fuel, Err(err)) || args_cons(
            st,
            args,
            fuel,
            out,
        )),
    }
}

/// The named function's body, evaluated under the frames a call pushes,
/// which returning pops again.
pub open spec fn call_body_ok(
    st1: StateV,
    vs: Seq<ValueV>,
    body: ExprV,
    f2: nat,
    v: ValueV,
    stf: StateV,
) -> bool
    decreases f2, 2nat, 0nat, 0nat,
{
    exists|st2: StateV|
        #![trigger wit_st(st2)]
        er_expr(enter_call(st1, vs), body, f2, Ok((v, st2))) && stf == exit_call(st2)
}

/// The arguments evaluated and the call proceeded on them.
pub open spec fn call_after_args(st: StateV, name: Seq<char>, args: Seq<ExprV>, fuel: nat, out: EOut) -> bool
    decreases fuel, 1nat, esize_list(args), 4nat,
{
    exists|vs: Seq<ValueV>, st1: StateV|
        #![trigger wit_vseq_st(vs, st1)]
        er_args(st, args, fuel, Ok((vs, st1))) && (match lookup_fn(st1.funcs, name) {
            None => out == Err::<(ValueV, StateV), EvalError>(EvalError::UndefinedFunction),
            Some(body) => if fuel == 0 {
                out == Err::<(ValueV, StateV), EvalError>(EvalError::OutOfFuel)
            } else {
                match out {
                    Ok((v, stf)) => call_body_ok(st1, vs, body, (fuel - 1) as nat, v, stf),
                    Err(err) => er_expr(enter_call(st1, vs), body, (fuel - 1) as nat, Err(err)),
                }
            },
        })
}

/// A call: the arguments, the innermost binding of the name, and the body
/// under the argument frame; the body's definitions die with the call.
pub open spec fn er_call(st: StateV, name: Seq<char>, args: Seq<ExprV>, fuel: nat, out: EOut) -> bool
    decreases fuel, 1nat, esize_list(args), 5nat,
{
    out_frames_ok(st, out) && match out {
        Ok(_) => call_after_args(st, name, args, fuel, out),
        Err(err) => er_args(st, args, fuel, Err(err)) || call_after_args(st, name, args, fuel, out),
    }
}

/// All parameters in scope coerced to one vector.
pub open spec fn param_all_ok(st: StateV, fuel: nat, v: ValueV, stf: StateV) -> bool
    decreases fuel, 0nat, flat_params(st.params).len() + 1, 0nat,
{
    exists|xs: Seq<i64>|
        #![trigger wit_ints(xs)]
        er_vecs(st, flat_params(st.params), fuel, Ok((xs, stf))) && v == ValueV::Vector(xs)
}

/// A parameter reference: index 0 stands for all parameters in scope,
/// coerced to one vector; from 1 on, the flattened parameter stack is
/// indexed, the innermost frame first.
pub open spec fn er_param(st: StateV, k: u64, fuel: nat, out: EOut) -> bool
    decreases fuel, 0nat, flat_params(st.params).len() + 1, 1nat,
{
    out_frames_ok(st, out) && if k == 0 {
        match out {
            Ok((v, stf)) => param_all_ok(st, fuel, v, stf),
            Err(err) => er_vecs(st, flat_params(st.params), fuel, Err(err)),
        }
    } else {
        if 1 <= k <= flat_params(st.params).len() {
            out == Ok::<(ValueV, StateV), EvalError>((flat_params(st.params)[k - 1], st))
        } else {
            out == Err::<(ValueV, StateV), EvalError>(EvalError::UnboundParam)
        }
    }
}

/// The first value coerced and the rest followed.
pub open spec fn vecs_cons(st: StateV, vals: Seq<ValueV>, fuel: nat, out: VOut) -> bool
    decreases fuel, 0nat, vals.len(), 1nat,
{
    vals.len() > 0 && match out {
        Ok((xs, stf)) => exists|x0: Seq<i64>, st1: StateV, rest: Seq<i64>|
            #![trigger wit_ints_st(x0, st1), wit_ints(rest)]
            er_vectorize(st, vals.first(), fuel, Ok((x0, st1))) && er_vecs(
                st1,
                vals.drop_first(),
                fuel,
                Ok((rest, stf)),
            ) && xs == x0 + rest,
        Err(err) => exists|x0: Seq<i64>, st1: StateV|
            #![trigger wit_ints_st(x0, st1)]
            er_vectorize(st, vals.first(), fuel, Ok((x0, st1))) && er_vecs(
                st1,
                vals.drop_first(),
                fuel,
                Err(err),
            ),
    }
}

/// Coercion of a list of values to vector contents, concatenated.
pub open spec fn er_vecs(st: StateV, vals: Seq<ValueV>, fuel: nat, out: VOut) -> bool
    decreases fuel, 0nat, vals.len(), 2nat,
{
    out_frames_ok(st, out) && match out {
        Ok((xs, stf)) => if vals.len() == 0 {
            xs == Seq::<i64>::empty() && stf == st
        } else {
            vecs_cons(st, vals, fuel, out)
        },
        Err(err) => vals.len() > 0 && (er_vectorize(st, vals.first(), fuel, Err(err)) || vecs_cons(
            st,
            vals,
            fuel,
            out,
        )),
    }
}

/// A function value evaluated and its outcome coerced on.
pub open spec fn vectorize_fn_chain(st: StateV, e: ExprV, f2: nat, out: VOut) -> bool
    decreases f2, 2nat, 0nat, 0nat,
{
    exists|v2: ValueV, st1: StateV|
        #![trigger wit_val(v2, st1)]
        er_expr(st, e, f2, Ok((v2, st1))) && er_vectorize(st1, v2, f2, out)
}

/// Coercion of one value to vector contents.
pub open spec fn er_vectorize(st: StateV, v: ValueV, fuel: nat, out: VOut) -> bool
    decreases fuel, 0nat, 0nat, 0nat,
{
    out_frames_ok(st, out) && match v {
        ValueV::Vector(xs) => out == Ok::<(Seq<i64>, StateV), EvalError>((xs, st)),
        ValueV::Boolean(b) => out == Ok::<(Seq<i64>, StateV), EvalError>(
            (
                if b {
                    seq![42i64]
                } else {
                    seq![7i64]
                },
                st,
            ),
        ),
        ValueV::Empty => out == Ok::<(Seq<i64>, StateV), EvalError>((seq![0i64], st)),
        ValueV::Text(t) => out == Ok::<(Seq<i64>, StateV), EvalError>((seq![text_measure(t)], st)),
        ValueV::Function(e) => if fuel == 0 {
            out == Err::<(Seq<i64>, StateV), EvalError>(EvalError::OutOfFuel)
        } else {
            (out is Err && er_expr(st, e, (fuel - 1) as nat, vout_err(out))) || vectorize_fn_chain(
                st,
                e,
                (fuel - 1) as nat,
                out,
            )
        },
    }
}

/// An error outcome carried over to expression evaluation; an `Ok` becomes
/// an impossible marker so the disjunct simply does not apply.
pub open spec fn vout_err(out: VOut) -> EOut {
    match out {
        Ok(_) => Ok((ValueV::Empty, StateV { funcs: Seq::empty(), params: Seq::empty() })),
        Err(err) => Err(err),
    }
}

/// A function value evaluated and the truthiness test went on.
pub open spec fn truthy_fn_chain(st: StateV, e: ExprV, f2: nat, out: BOut) -> bool
    decreases f2, 2nat, 0nat, 0nat,
{
    exists|v2: ValueV, st1: StateV|
        #![trigger wit_val(v2, st1)]
        er_expr(st, e, f2, Ok((v2, st1))) && er_truthy(st1, v2, f2, out)
}

pub open spec fn bout_err(out: BOut) -> EOut {
    match out {
        Ok(_) => Ok((ValueV::Empty, StateV { funcs: Seq::empty(), params: Seq::empty() })),
        Err(err) => Err(err),
    }
}

/// Truthiness of a value; a function value is evaluated and the test
/// recurses on the outcome.
pub open spec fn er_truthy(st: StateV, v: ValueV, fuel: nat, out: BOut) -> bool
    decreases fuel, 0nat, 0nat, 0nat,
{
    out_frames_ok(st, out) && match v {
        ValueV::Boolean(b) => out == Ok::<(bool, StateV), EvalError>((b, st)),
        ValueV::Vector(cs) => out == Ok::<(bool, StateV), EvalError>((vector_truthy(cs), st)),
        ValueV::Text(t) => out == Ok::<(bool, StateV), EvalError>((text_truthy(t), st)),
        ValueV::Empty => out == Ok::<(bool, StateV), EvalError>((false, st)),
        ValueV::Function(e) => if fuel == 0 {
            out == Err::<(bool, StateV), EvalError>(EvalError::OutOfFuel)
        } else {
            (out is Err && er_expr(st, e, (fuel - 1) as nat, bout_err(out))) || truthy_fn_chain(
                st,
                e,
                (fuel - 1) as nat,
                out,
            )
        },
    }
}

/// The head of a vector literal contributed a literal number.
pub open spec fn vec_lit_num(st: StateV, comps: Seq<CompV>, n: u64, fuel: nat, out: VOut) -> bool
    decreases fuel, 1nat, comps.len(), 1nat,
{
    comps.len() > 0 && match out {
        Ok((xs, stf)) => exists|rest: Seq<i64>|
            #![trigger wit_ints(rest)]
            er_vector(st, comps.drop_first(), fuel, Ok((rest, stf))) && xs == seq![u64_as_i64(n)]
                + rest,
        Err(err) => er_vector(st, comps.drop_first(), fuel, Err(err)),
    }
}

/// The head of a vector literal contributed a parameter's coerced value.
pub open spec fn vec_lit_param(st: StateV, comps: Seq<CompV>, k: u64, fuel: nat, out: VOut) -> bool
    decreases fuel, 1nat, comps.len(), 1nat,
{
    comps.len() > 0 && match out {
        Ok((xs, stf)) => exists|pv: ValueV, st1: StateV, x0: Seq<i64>, st2: StateV, rest: Seq<i64>|
            #![trigger wit_val(pv, st1), wit_ints_st(x0, st2), wit_ints(rest)]
            er_param(st, k, fuel, Ok((pv, st1))) && er_vectorize(st1, pv, fuel, Ok((x0, st2)))
                && er_vector(st2, comps.drop_first(), fuel, Ok((rest, stf))) && xs == x0 + rest,
        Err(err) => er_param(st, k, fuel, Err(err)) || (exists|pv: ValueV, st1: StateV|
            #![trigger wit_val(pv, st1)]
            er_param(st, k, fuel, Ok((pv, st1))) && er_vectorize(st1, pv, fuel, Err(err))) || (
        exists|pv: ValueV, st1: StateV, x0: Seq<i64>, st2: StateV|
            #![trigger wit_val(pv, st1), wit_ints_st(x0, st2)]
            er_param(st, k, fuel, Ok((pv, st1))) && er_vectorize(st1, pv, fuel, Ok((x0, st2)))
                && er_vector(st2, comps.drop_first(), fuel, Err(err))),
    }
}

/// The contents of a vector literal: numbers contribute themselves, and a
/// parameter component contributes its value coerced to vector contents.
pub open spec fn er_vector(st: StateV, comps: Seq<CompV>, fuel: nat, out: VOut) -> bool
    decreases fuel, 1nat, comps.len(), 2nat,
{
    out_frames_ok(st, out) && if comps.len() == 0 {
        out == Ok::<(Seq<i64>, StateV), EvalError>((Seq::empty(), st))
    } else {
        match comps.first() {
            CompV::Number(n) => vec_lit_num(st, comps, n, fuel, out),
            CompV::Param(k) => vec_lit_param(st, comps, k, fuel, out),
        }
    }
}

/// Some permutation of the given contents.
pub open spec fn shuffled_of(v: ValueV, xs: Seq<i64>) -> bool {
    exists|ys: Seq<i64>|
        #![trigger wit_ints(ys)]
        v == ValueV::Vector(ys) && ys.to_multiset() == xs.to_multiset()
}

/// A function operand evaluated and the addition went on with its value on
/// the left.
pub open spec fn add_fn_left(st: StateV, e: ExprV, bb: ValueV, f2: nat, out: EOut) -> bool
    decreases f2, 2nat, 0nat, 0nat,
{
    exists|v1: ValueV, st1: StateV|
        #![trigger wit_val(v1, st1)]
        er_expr(st, e, f2, Ok((v1, st1))) && er_add(st1, v1, bb, f2, out)
}

/// A function operand evaluated and the addition went on with its value on
/// the right.
pub open spec fn add_fn_right(st: StateV, aa: ValueV, e: ExprV, f2: nat, out: EOut) -> bool
    decreases f2, 2nat, 0nat, 0nat,
{
    exists|v2: ValueV, st1: StateV|
        #![trigger wit_val(v2, st1)]
        er_expr(st, e, f2, Ok((v2, st1))) && er_add(st1, aa, v2, f2, out)
}

pub open spec fn eout_err(out: EOut) -> EOut {
    match out {
        Ok(_) => Ok((ValueV::Empty, StateV { funcs: Seq::empty(), params: Seq::empty() })),
        Err(err) => Err(err),
    }
}

/// Addition, dispatched on the operand variants in a fixed order; the only
/// place randomness enters the language.
pub open spec fn er_add(st: StateV, a: ValueV, b: ValueV, fuel: nat, out: EOut) -> bool
    decreases fuel, 0nat, 0nat, 0nat,
{
    out_frames_ok(st, out) && match (a, b) {
        (ValueV::Boolean(x), ValueV::Boolean(y)) => out == Ok::<(ValueV, StateV), EvalError>(
            (ValueV::Boolean(x != y), st),
        ),
        (ValueV::Boolean(x), ValueV::Text(t)) => out == Ok::<(ValueV, StateV), EvalError>(
            (
                ValueV::Text(
                    if x {
                        grapheme_reversed(t)
                    } else {
                        t
                    },
                ),
                st,
            ),
        ),
        (ValueV::Text(t), ValueV::Boolean(x)) => out == Ok::<(ValueV, StateV), EvalError>(
            (
                ValueV::Text(
                    if !x {
                        grapheme_reversed(t)
                    } else {
                        t
                    },
                ),
                st,
            ),
        ),
        (ValueV::Boolean(x), ValueV::Vector(xs)) => if x {
            match out {
                Ok((v, stf)) => stf == st && shuffled_of(v, xs),
                Err(_) => false,
            }
        } else {
            out == Ok::<(ValueV, StateV), EvalError>((ValueV::Vector(xs), st))
        },
        (ValueV::Text(t1), ValueV::Text(t2)) => out == Ok::<(ValueV, StateV), EvalError>(
            (ValueV::Text(t1 + seq![' '] + t2), st),
        ),
        (ValueV::Text(t), ValueV::Vector(xs)) => out == Ok::<(ValueV, StateV), EvalError>(
            (ValueV::Text(t + vec_digits(xs)), st),
        ),
        (ValueV::Vector(xs), ValueV::Text(t)) => out == Ok::<(ValueV, StateV), EvalError>(
            (ValueV::Text(vec_digits(xs) + t), st),
        ),
        (ValueV::Vector(x), ValueV::Vector(y)) => out == Ok::<(ValueV, StateV), EvalError>(
            (ValueV::Vector(trim_zeros(add_vectors(x, y))), st),
        ),
        (ValueV::Function(e), bb) => if fuel == 0 {
            out == Err::<(ValueV, StateV), EvalError>(EvalError::OutOfFuel)
        } else {
            (out is Err && er_expr(st, e, (fuel - 1) as nat, eout_err(out))) || add_fn_left(
                st,
                e,
                bb,
                (fuel - 1) as nat,
                out,
            )
        },
        (aa, ValueV::Function(e)) => if fuel == 0 {
            out == Err::<(ValueV, StateV), EvalError>(EvalError::OutOfFuel)
        } else {
            (out is Err && er_expr(st, e, (fuel - 1) as nat, eout_err(out))) || add_fn_right(
                st,
                aa,
                e,
                (fuel - 1) as nat,
                out,
            )
        },
        (v, ValueV::Empty) => out == Ok::<(ValueV, StateV), EvalError>((v, st)),
        (ValueV::Empty, v) => out == Ok::<(ValueV, StateV), EvalError>((v, st)),
        _ => out == Err::<(ValueV, StateV), EvalError>(EvalError::UnsupportedOperands),
    }
}


fn clone_expr(e: &Expr) -> (r: Expr)
    ensures
        expr_view(r) == expr_view(*e),
    decreases *e,
{
    match e {
        Expr::Scope(b) => Expr::Scope(Box::new(clone_expr(b))),
        Expr::Op(l, op, rr) => Expr::Op(Box::new(clone_expr(l)), *op, Box::new(clone_expr(rr))),
        Expr::Conditional { condition, success, failure } => {
            let f: Option<Expr> = match &**failure {
                Some(fe) => Some(clone_expr(fe)),
                None => None,
            };
            Expr::Conditional {
                condition: Box::new(clone_expr(condition)),
                success: Box::new(clone_expr(success)),
                failure: Box::new(f),
            }
        },
        Expr::Definition(n, b) => Expr::Definition(Ident(n.0.clone()), Box::new(clone_expr(b))),
        Expr::Call(n, args) => {
            proof {
                assert(decreases_to!(*e => *args));
                assert(decreases_to!(*args => args@));
            }
            let mut v: Vec<Expr> = Vec::new();
            let mut i: usize = 0;
            while i < args.len()
                invariant
                    0 <= i <= args@.len(),
                    v@.len() == i,
                    decreases_to!(*e => args@),
                    forall|k: int| 0 <= k < i ==> expr_view(v@[k]) == expr_view(args@[k]),
                decreases args@.len() - i,
            {
                proof {
                    assert(decreases_to!(args@ => args@[i as int]));
                }
                let c = clone_expr(&args[i]);
                v.push(c);
                i = i + 1;
            }
            proof {
                crate::parser::lemma_exprs_view_len(v@);
                crate::parser::lemma_exprs_view_len(args@);
                assert(exprs_view(v@) =~= exprs_view(args@));
            }
            Expr::Call(Ident(n.0.clone()), v)
        },
        Expr::Param(p) => Expr::Param(*p),
        Expr::Text(s) => Expr::Text(s.clone()),
        Expr::Vector(cs) => {
            let mut v: Vec<VectorComponent> = Vec::new();
            let mut i: usize = 0;
            while i < cs.len()
                invariant
                    0 <= i <= cs@.len(),
                    v@ =~= cs@.take(i as int),
                decreases cs@.len() - i,
            {
                v.push(cs[i]);
                i = i + 1;
            }
            proof {
                assert(cs@.take(cs@.len() as int) =~= cs@);
            }
            Expr::Vector(v)
        },
        Expr::WriteIO(b) => Expr::WriteIO(Box::new(clone_expr(b))),
        Expr::ReadIO => Expr::ReadIO,
    }
}

fn clone_value(v: &Value) -> (r: Value)
    ensures
        value_view(r) == value_view(*v),
{
    match v {
        Value::Text(s) => Value::Text(s.clone()),
        Value::Boolean(b) => Value::Boolean(*b),
        Value::Vector(xs) => {
            let mut v2: Vec<i64> = Vec::new();
            let mut i: usize = 0;
            while i < xs.len()
                invariant
                    0 <= i <= xs@.len(),
                    v2@ =~= xs@.take(i as int),
                decreases xs@.len() - i,
            {
                v2.push(xs[i]);
                i = i + 1;
            }
            proof {
                assert(xs@.take(xs@.len() as int) =~= xs@);
            }
            Value::Vector(v2)
        },
        Value::Function(e) => Value::Function(clone_expr(e)),
        Value::Empty => Value::Empty,
    }
}

fn eq_i64_vecs(a: &Vec<i64>, b: &Vec<i64>) -> (r: bool)
    ensures
        r == (a@ == b@),
{
    if a.len() != b.len() {
        return false;
    }
    let mut i: usize = 0;
    while i < a.len()
        invariant
            0 <= i <= a@.len(),
            a@.len() == b@.len(),
            forall|k: int| 0 <= k < i ==> a@[k] == b@[k],
        decreases a@.len() - i,
    {
        if a[i] != b[i] {
            return false;
        }
        i = i + 1;
    }
    proof {
        assert(a@ =~= b@);
    }
    true
}

/// Whether two AST nodes are structurally identical.
#[verifier::loop_isolation(false)]
pub fn expr_eq(a: &Expr, b: &Expr) -> (r: bool)
    ensures
        r == (expr_view(*a) == expr_view(*b)),
    decreases *a,
{
    match a {
        Expr::Scope(x) => match b {
            Expr::Scope(y) => expr_eq(x, y),
            _ => false,
        },
        Expr::Op(l1, o1, r1) => match b {
            Expr::Op(l2, o2, r2) => *o1 == *o2 && expr_eq(l1, l2) && expr_eq(r1, r2),
            _ => false,
        },
        Expr::Conditional { condition: c1, success: s1, failure: f1 } => match b {
            Expr::Conditional { condition: c2, success: s2, failure: f2 } => {
                let fe = match (&**f1, &**f2) {
                    (Some(x), Some(y)) => expr_eq(x, y),
                    (None, None) => true,
                    _ => false,
                };
                fe && expr_eq(c1, c2) && expr_eq(s1, s2)
            },
            _ => false,
        },
        Expr::Definition(n1, b1) => match b {
            Expr::Definition(n2, b2) => n1.0 == n2.0 && expr_eq(b1, b2),
            _ => false,
        },
        Expr::Call(n1, a1) => match b {
            Expr::Call(n2, a2) => {
                proof {
                    crate::parser::lemma_exprs_view_len(a1@);
                    crate::parser::lemma_exprs_view_len(a2@);
                }
                if !(n1.0 == n2.0) {
                    return false;
                }
                if a1.len() != a2.len() {
                    return false;
                }
                let mut i: usize = 0;
                while i < a1.len()
                    invariant
                        0 <= i <= a1@.len(),
                        forall|k: int| 0 <= k < i ==> expr_view(a1@[k]) == expr_view(a2@[k]),
                    decreases a1@.len() - i,
                {
                    proof {
                        assert(decreases_to!(*a => *a1));
                        assert(decreases_to!(*a1 => a1@));
                        assert(decreases_to!(a1@ => a1@[i as int]));
                    }
                    let same = expr_eq(&a1[i], &a2[i]);
                    if !same {
                        proof {
                            assert(exprs_view(a1@)[i as int] != exprs_view(a2@)[i as int]);
                        }
                        return false;
                    }
                    i = i + 1;
                }
                proof {
                    assert(exprs_view(a1@) =~= exprs_view(a2@));
                }
                true
            },
            _ => false,
        },
        Expr::Param(p1) => match b {
            Expr::Param(p2) => p1.0 == p2.0,
            _ => false,
        },
        Expr::Text(t1) => match b {
            Expr::Text(t2) => *t1 == *t2,
            _ => false,
        },
        Expr::Vector(c1) => match b {
            Expr::Vector(c2) => {
                proof {
                    assert(c1@.map_values(|c: VectorComponent| crate::parser::comp_view(c)).len()
                        == c1@.len());
                    assert(c2@.map_values(|c: VectorComponent| crate::parser::comp_view(c)).len()
                        == c2@.len());
                }
                if c1.len() != c2.len() {
                    return false;
                }
                let mut i: usize = 0;
                while i < c1.len()
                    invariant
                        0 <= i <= c1@.len(),
                        forall|k: int| 0 <= k < i ==> crate::parser::comp_view(c1@[k])
                            == crate::parser::comp_view(c2@[k]),
                    decreases c1@.len() - i,
                {
                    let x = c1[i];
                    let y = c2[i];
                    let same = match (x, y) {
                        (VectorComponent::Number(n1), VectorComponent::Number(n2)) => n1 == n2,
                        (VectorComponent::Param(p1), VectorComponent::Param(p2)) => p1.0 == p2.0,
                        _ => false,
                    };
                    if !same {
                        proof {
                            let m1 = c1@.map_values(
                                |c: VectorComponent| crate::parser::comp_view(c),
                            );
                            let m2 = c2@.map_values(
                                |c: VectorComponent| crate::parser::comp_view(c),
                            );
                            assert(m1[i as int] != m2[i as int]);
                        }
                        return false;
                    }
                    i = i + 1;
                }
                proof {
                    assert(c1@.map_values(|c: VectorComponent| crate::parser::comp_view(c)) =~= c2@
                        .map_values(|c: VectorComponent| crate::parser::comp_view(c)));
                }
                true
            },
            _ => false,
        },
        Expr::WriteIO(x) => match b {
            Expr::WriteIO(y) => expr_eq(x, y),
            _ => false,
        },
        Expr::ReadIO => match b {
            Expr::ReadIO => true,
            _ => false,
        },
    }
}

/// Whether two values are equal: structural and variant-exact.
pub fn value_eq(a: &Value, b: &Value) -> (r: bool)
    ensures
        r == (value_view(*a) == value_view(*b)),
{
    match a {
        Value::Text(t1) => match b {
            Value::Text(t2) => *t1 == *t2,
            _ => false,
        },
        Value::Boolean(b1) => match b {
            Value::Boolean(b2) => b1 == b2,
            _ => false,
        },
        Value::Vector(x) => match b {
            Value::Vector(y) => eq_i64_vecs(x, y),
            _ => false,
        },
        Value::Function(e1) => match b {
            Value::Function(e2) => expr_eq(e1, e2),
            _ => false,
        },
        Value::Empty => match b {
            Value::Empty => true,
            _ => false,
        },
    }
}


proof fn lemma_esize_pos(e: ExprV)
    ensures
        esize(e) >= 1,
{
}

fn i64_bits_exec(c: i64) -> (r: u64)
    ensures
        r == i64_bits(c),
{
    if c >= 0 {
        c as u64
    } else {
        u64::MAX - ((-(c + 1)) as u64)
    }
}

fn u64_to_i64_wrap(n: u64) -> (r: i64)
    ensures
        r == u64_as_i64(n),
{
    if n <= 0x7fff_ffff_ffff_ffff {
        n as i64
    } else {
        -((u64::MAX - n) as i64) - 1
    }
}

/// The truthiness of a vector's contents: the fixed fold, taken modulo 2.
#[verifier::loop_isolation(false)]
fn vector_truthy_exec(cs: &Vec<i64>) -> (r: bool)
    ensures
        r == vector_truthy(cs@),
{
    let mut acc: u64 = 3;
    let mut i: usize = 0;
    while i < cs.len()
        invariant
            0 <= i <= cs@.len(),
            truthy_fold(cs@, 0, 3) == truthy_fold(cs@, i as int, acc),
        decreases cs@.len() - i,
    {
        let cur = i64_bits_exec(cs[i]);
        let sh: u64 = acc & 7;
        proof {
            assert(acc & 7 < 64u64) by (bit_vector);
        }
        let m = (cur << sh).wrapping_mul(i as u64);
        proof {
            assert(truthy_fold(cs@, i as int, acc) == truthy_fold(
                cs@,
                i + 1 as int,
                truthy_step(acc, cs@[i as int], i as u64),
            ));
        }
        acc = acc ^ m;
        i = i + 1;
    }
    acc % 2 == 0
}

/// Whether every character of the text is `O` or `k`.
#[verifier::loop_isolation(false)]
fn text_all_ok(t: &String) -> (r: bool)
    ensures
        r == text_truthy(t@),
{
    let s = t.as_str();
    let n = s.unicode_len();
    let mut i: usize = 0;
    while i < n
        invariant
            0 <= i <= n,
            n == t@.len(),
            forall|k: int| 0 <= k < i ==> t@[k] == 'O' || t@[k] == 'k',
        decreases n - i,
    {
        let c = s.get_char(i);
        if !(c == 'O' || c == 'k') {
            return false;
        }
        i = i + 1;
    }
    true
}

fn digit_to_char(d: u64) -> (r: char)
    requires
        d < 10,
    ensures
        r == digit_char(d as nat),
{
    if d == 0 {
        '0'
    } else if d == 1 {
        '1'
    } else if d == 2 {
        '2'
    } else if d == 3 {
        '3'
    } else if d == 4 {
        '4'
    } else if d == 5 {
        '5'
    } else if d == 6 {
        '6'
    } else if d == 7 {
        '7'
    } else if d == 8 {
        '8'
    } else {
        '9'
    }
}

fn u64_to_string(n: u64) -> (s: String)
    ensures
        s@ == u64_digits(n as nat),
    decreases n,
{
    if n < 10 {
        let mut s = String::new();
        push_char(&mut s, digit_to_char(n));
        proof {
            assert(s@ =~= seq![digit_char(n as nat)]);
        }
        s
    } else {
        let mut s = u64_to_string(n / 10);
        push_char(&mut s, digit_to_char(n % 10));
        s
    }
}

fn i64_to_string(n: i64) -> (s: String)
    ensures
        s@ == i64_digits(n),
{
    if n >= 0 {
        let s = u64_to_string(n as u64);
        s
    } else {
        let m: u64 = ((-(n + 1)) as u64) + 1;
        proof {
            assert(m as nat == (-(n as int)) as nat);
        }
        let mut s = String::new();
        push_char(&mut s, '-');
        let d = u64_to_string(m);
        s.append(d.as_str());
        proof {
            assert(s@ =~= seq!['-'] + u64_digits((-(n as int)) as nat));
        }
        s
    }
}

proof fn lemma_vec_digits_snoc(s: Seq<i64>, x: i64)
    ensures
        vec_digits(s.push(x)) == vec_digits(s) + i64_digits(x),
    decreases s.len(),
{
    if s.len() == 0 {
        assert(s.push(x).first() == x);
        assert(s.push(x).drop_first() =~= Seq::<i64>::empty());
        assert(i64_digits(x) + vec_digits(Seq::<i64>::empty()) =~= i64_digits(x));
        assert(vec_digits(s.push(x)) =~= i64_digits(x));
        assert(vec_digits(s) + i64_digits(x) =~= i64_digits(x));
    } else {
        lemma_vec_digits_snoc(s.drop_first(), x);
        assert(s.push(x).drop_first() =~= s.drop_first().push(x));
        assert(s.push(x).first() == s.first());
        assert(vec_digits(s.push(x)) =~= vec_digits(s) + i64_digits(x));
    }
}

/// The decimal renderings of the entries, with no separator.
#[verifier::loop_isolation(false)]
fn vec_to_string(xs: &Vec<i64>) -> (s: String)
    ensures
        s@ == vec_digits(xs@),
{
    let mut s = String::new();
    let mut i: usize = 0;
    proof {
        assert(xs@.take(0) =~= Seq::<i64>::empty());
    }
    while i < xs.len()
        invariant
            0 <= i <= xs@.len(),
            s@ == vec_digits(xs@.take(i as int)),
        decreases xs@.len() - i,
    {
        let d = i64_to_string(xs[i]);
        s.append(d.as_str());
        proof {
            assert(xs@.take(i + 1 as int) =~= xs@.take(i as int).push(xs@[i as int]));
            lemma_vec_digits_snoc(xs@.take(i as int), xs@[i as int]);
        }
        i = i + 1;
    }
    proof {
        assert(xs@.take(xs@.len() as int) =~= xs@);
    }
    s
}

/// Elementwise wrapping addition out to the longer operand, with the
/// trailing run of zeros dropped.
#[verifier::loop_isolation(false)]
fn add_vec_values(x: &Vec<i64>, y: &Vec<i64>) -> (r: Vec<i64>)
    ensures
        r@ == trim_zeros(add_vectors(x@, y@)),
{
    let n: usize = if x.len() >= y.len() {
        x.len()
    } else {
        y.len()
    };
    let mut res: Vec<i64> = Vec::new();
    let mut i: usize = 0;
    while i < n
        invariant
            0 <= i <= n,
            n as int == add_vectors(x@, y@).len(),
            res@ =~= add_vectors(x@, y@).take(i as int),
        decreases n - i,
    {
        let a: i64 = if i < x.len() {
            x[i]
        } else {
            0
        };
        let b: i64 = if i < y.len() {
            y[i]
        } else {
            0
        };
        res.push(a.wrapping_add(b));
        proof {
            assert(res@ =~= add_vectors(x@, y@).take(i + 1 as int));
        }
        i = i + 1;
    }
    proof {
        assert(add_vectors(x@, y@).take(n as int) =~= add_vectors(x@, y@));
    }
    loop
        invariant
            trim_zeros(add_vectors(x@, y@)) == trim_zeros(res@),
        decreases res@.len(),
    {
        if res.len() == 0 {
            return res;
        }
        let last = res[res.len() - 1];
        if last != 0 {
            return res;
        }
        res.pop();
    }
}

fn resolve_in_frame(f: &Vec<(Ident, Expr)>, name: &Ident) -> (r: Option<Expr>)
    ensures
        match r {
            Some(b) => lookup_in_frame(frame_view(f@), name.0@) == Some(expr_view(b)),
            None => lookup_in_frame(frame_view(f@), name.0@) is None,
        },
{
    let ghost fv = frame_view(f@);
    let mut j = f.len();
    proof {
        assert(fv.take(f@.len() as int) =~= fv);
    }
    loop
        invariant
            0 <= j <= f@.len(),
            fv == frame_view(f@),
            lookup_in_frame(fv, name.0@) == lookup_in_frame(fv.take(j as int), name.0@),
        decreases j,
    {
        if j == 0 {
            return None;
        }
        j = j - 1;
        let entry = &f[j];
        proof {
            assert(fv.take(j + 1 as int).last() == fv[j as int]);
            assert(fv.take(j + 1 as int).drop_last() =~= fv.take(j as int));
        }
        if entry.0.0 == name.0 {
            return Some(clone_expr(&entry.1));
        }
    }
}

fn resolve_fun(state: &State, name: &Ident) -> (r: Option<Expr>)
    ensures
        match r {
            Some(b) => lookup_fn(state@.funcs, name.0@) == Some(expr_view(b)),
            None => lookup_fn(state@.funcs, name.0@) is None,
        },
{
    let ghost gv = state@.funcs;
    let mut fi = state.functions.len();
    proof {
        assert(gv.take(state.functions@.len() as int) =~= gv);
    }
    loop
        invariant
            0 <= fi <= state.functions@.len(),
            gv == state@.funcs,
            gv.len() == state.functions@.len(),
            lookup_fn(gv, name.0@) == lookup_fn(gv.take(fi as int), name.0@),
        decreases fi,
    {
        if fi == 0 {
            return None;
        }
        fi = fi - 1;
        proof {
            assert(gv.take(fi + 1 as int).last() == gv[fi as int]);
            assert(gv.take(fi + 1 as int).drop_last() =~= gv.take(fi as int));
            assert(gv[fi as int] == frame_view(state.functions@[fi as int]@));
        }
        match resolve_in_frame(&state.functions[fi], name) {
            Some(b) => {
                return Some(b);
            },
            None => {},
        }
    }
}

/// Every parameter in scope, the innermost frame first, as one list.
fn flatten_params(state: &State) -> (r: Vec<Value>)
    ensures
        vals_view(r@) == flat_params(state@.params),
{
    let ghost pv = state@.params;
    let mut out: Vec<Value> = Vec::new();
    let mut fi = state.params.len();
    proof {
        assert(pv.take(state.params@.len() as int) =~= pv);
        assert(vals_view(out@) =~= Seq::<ValueV>::empty());
    }
    loop
        invariant
            0 <= fi <= state.params@.len(),
            pv == state@.params,
            pv.len() == state.params@.len(),
            vals_view(out@) + flat_params(pv.take(fi as int)) =~= flat_params(pv),
        decreases fi,
    {
        if fi == 0 {
            proof {
                assert(flat_params(pv.take(0)) =~= Seq::<ValueV>::empty());
                assert(vals_view(out@) =~= flat_params(pv));
            }
            return out;
        }
        fi = fi - 1;
        proof {
            assert(pv.take(fi + 1 as int).last() == pv[fi as int]);
            assert(pv.take(fi + 1 as int).drop_last() =~= pv.take(fi as int));
            assert(pv[fi as int] == vals_view(state.params@[fi as int]@));
        }
        let frame = &state.params[fi];
        let mut k: usize = 0;
        let ghost out0 = out@;
        while k < frame.len()
            invariant
                0 <= k <= frame@.len(),
                vals_view(out@) =~= vals_view(out0) + vals_view(frame@.take(k as int)),
            decreases frame@.len() - k,
        {
            let c = clone_value(&frame[k]);
            let ghost outprev = out@;
            out.push(c);
            proof {
                assert(frame@.take(k + 1 as int) =~= frame@.take(k as int).push(frame@[k as int]));
                assert(vals_view(frame@.take(k as int).push(frame@[k as int])) =~= vals_view(
                    frame@.take(k as int),
                ).push(value_view(frame@[k as int])));
                assert(vals_view(out@) =~= vals_view(outprev).push(value_view(frame@[k as int])));
            }
            k = k + 1;
        }
        proof {
            assert(frame@.take(frame@.len() as int) =~= frame@);
            assert(vals_view(out@) + flat_params(pv.take(fi as int)) =~= flat_params(pv));
        }
    }
}


proof fn lemma_scope_body_ok(st: StateV, b: ExprV, fuel: nat, v: ValueV, st2: StateV)
    requires
        er_expr(push_frame(st), b, fuel, Ok((v, st2))),
    ensures
        scope_body_ok(st, b, fuel, v, pop_frame(st2)),
{
    assert(wit_st(st2));
}

proof fn lemma_vector_lit_ok(st: StateV, cs: Seq<CompV>, fuel: nat, xs: Seq<i64>, stf: StateV)
    requires
        er_vector(st, cs, fuel, Ok((xs, stf))),
    ensures
        vector_lit_ok(st, cs, fuel, ValueV::Vector(xs), stf),
{
    assert(wit_ints(xs));
}

proof fn lemma_op_chain(
    st: StateV,
    l: ExprV,
    op: Op,
    r: ExprV,
    fuel: nat,
    v1: ValueV,
    st1: StateV,
    v2: ValueV,
    st2: StateV,
    out: EOut,
)
    requires
        er_expr(st, l, fuel, Ok((v1, st1))),
        er_expr(st1, r, fuel, Ok((v2, st2))),
        er_op_after(st2, v1, op, v2, fuel, out),
    ensures
        op_chain(st, l, op, r, fuel, out),
{
    assert(wit_val(v1, st1));
    assert(wit_val(v2, st2));
}

proof fn lemma_op_err_rhs(
    st: StateV,
    l: ExprV,
    r: ExprV,
    fuel: nat,
    v1: ValueV,
    st1: StateV,
    err: EvalError,
)
    requires
        er_expr(st, l, fuel, Ok((v1, st1))),
        er_expr(st1, r, fuel, Err(err)),
    ensures
        op_err_rhs(st, l, r, fuel, err),
{
    assert(wit_val(v1, st1));
}

proof fn lemma_cond_chain(
    st: StateV,
    c: ExprV,
    su: ExprV,
    f: Option<Box<ExprV>>,
    fuel: nat,
    vc: ValueV,
    st1: StateV,
    b: bool,
    st2: StateV,
    out: EOut,
)
    requires
        er_expr(st, c, fuel, Ok((vc, st1))),
        er_truthy(st1, vc, fuel, Ok((b, st2))),
        if b {
            er_expr(st2, su, fuel, out)
        } else {
            match f {
                Some(fe) => er_expr(st2, *fe, fuel, out),
                None => out == Ok::<(ValueV, StateV), EvalError>((ValueV::Empty, st2)),
            }
        },
    ensures
        cond_chain(st, c, su, f, fuel, out),
{
    assert(wit_val(vc, st1));
    assert(wit_bool(b, st2));
}

proof fn lemma_cond_err_truthy(
    st: StateV,
    c: ExprV,
    su: ExprV,
    fuel: nat,
    vc: ValueV,
    st1: StateV,
    err: EvalError,
)
    requires
        er_expr(st, c, fuel, Ok((vc, st1))),
        er_truthy(st1, vc, fuel, Err(err)),
    ensures
        cond_err_truthy(st, c, su, fuel, err),
{
    assert(wit_val(vc, st1));
}

proof fn lemma_args_cons_ok(
    st: StateV,
    args: Seq<ExprV>,
    fuel: nat,
    v0: ValueV,
    st1: StateV,
    rest: Seq<ValueV>,
    stf: StateV,
)
    requires
        args.len() > 0,
        er_expr(st, args.first(), fuel, Ok((v0, st1))),
        er_args(st1, args.drop_first(), fuel, Ok((rest, stf))),
    ensures
        args_cons(st, args, fuel, Ok((seq![v0] + rest, stf))),
{
    assert(wit_val(v0, st1));
    assert(wit_vseq(rest));
}

proof fn lemma_args_cons_err(
    st: StateV,
    args: Seq<ExprV>,
    fuel: nat,
    v0: ValueV,
    st1: StateV,
    err: EvalError,
)
    requires
        args.len() > 0,
        er_expr(st, args.first(), fuel, Ok((v0, st1))),
        er_args(st1, args.drop_first(), fuel, Err(err)),
    ensures
        args_cons(st, args, fuel, Err(err)),
{
    assert(wit_val(v0, st1));
}

proof fn lemma_call_body_ok(
    st1: StateV,
    vs: Seq<ValueV>,
    body: ExprV,
    f2: nat,
    v: ValueV,
    st2: StateV,
)
    requires
        er_expr(enter_call(st1, vs), body, f2, Ok((v, st2))),
    ensures
        call_body_ok(st1, vs, body, f2, v, exit_call(st2)),
{
    assert(wit_st(st2));
}

proof fn lemma_call_after_args(
    st: StateV,
    name: Seq<char>,
    args: Seq<ExprV>,
    fuel: nat,
    vs: Seq<ValueV>,
    st1: StateV,
    out: EOut,
)
    requires
        er_args(st, args, fuel, Ok((vs, st1))),
        match lookup_fn(st1.funcs, name) {
            None => out == Err::<(ValueV, StateV), EvalError>(EvalError::UndefinedFunction),
            Some(body) => if fuel == 0 {
                out == Err::<(ValueV, StateV), EvalError>(EvalError::OutOfFuel)
            } else {
                match out {
                    Ok((v, stf)) => call_body_ok(st1, vs, body, (fuel - 1) as nat, v, stf),
                    Err(err) => er_expr(enter_call(st1, vs), body, (fuel - 1) as nat, Err(err)),
                }
            },
        },
    ensures
        call_after_args(st, name, args, fuel, out),
{
    assert(wit_vseq_st(vs, st1));
}

proof fn lemma_param_all_ok(st: StateV, fuel: nat, xs: Seq<i64>, stf: StateV)
    requires
        er_vecs(st, flat_params(st.params), fuel, Ok((xs, stf))),
    ensures
        param_all_ok(st, fuel, ValueV::Vector(xs), stf),
{
    assert(wit_ints(xs));
}

proof fn lemma_vecs_cons_ok(
    st: StateV,
    vals: Seq<ValueV>,
    fuel: nat,
    x0: Seq<i64>,
    st1: StateV,
    rest: Seq<i64>,
    stf: StateV,
)
    requires
        vals.len() > 0,
        er_vectorize(st, vals.first(), fuel, Ok((x0, st1))),
        er_vecs(st1, vals.drop_first(), fuel, Ok((rest, stf))),
    ensures
        vecs_cons(st, vals, fuel, Ok((x0 + rest, stf))),
{
    assert(wit_ints_st(x0, st1));
    assert(wit_ints(rest));
}

proof fn lemma_vecs_cons_err(
    st: StateV,
    vals: Seq<ValueV>,
    fuel: nat,
    x0: Seq<i64>,
    st1: StateV,
    err: EvalError,
)
    requires
        vals.len() > 0,
        er_vectorize(st, vals.first(), fuel, Ok((x0, st1))),
        er_vecs(st1, vals.drop_first(), fuel, Err(err)),
    ensures
        vecs_cons(st, vals, fuel, Err(err)),
{
    assert(wit_ints_st(x0, st1));
}

proof fn lemma_vectorize_fn_chain(
    st: StateV,
    e: ExprV,
    f2: nat,
    v2: ValueV,
    st1: StateV,
    out: VOut,
)
    requires
        er_expr(st, e, f2, Ok((v2, st1))),
        er_vectorize(st1, v2, f2, out),
    ensures
        vectorize_fn_chain(st, e, f2, out),
{
    assert(wit_val(v2, st1));
}

proof fn lemma_truthy_fn_chain(st: StateV, e: ExprV, f2: nat, v2: ValueV, st1: StateV, out: BOut)
    requires
        er_expr(st, e, f2, Ok((v2, st1))),
        er_truthy(st1, v2, f2, out),
    ensures
        truthy_fn_chain(st, e, f2, out),
{
    assert(wit_val(v2, st1));
}

proof fn lemma_shuffled_of(ys: Seq<i64>, xs: Seq<i64>)
    requires
        ys.to_multiset() == xs.to_multiset(),
    ensures
        shuffled_of(ValueV::Vector(ys), xs),
{
    assert(wit_ints(ys));
}

proof fn lemma_add_fn_left(
    st: StateV,
    e: ExprV,
    bb: ValueV,
    f2: nat,
    v1: ValueV,
    st1: StateV,
    out: EOut,
)
    requires
        er_expr(st, e, f2, Ok((v1, st1))),
        er_add(st1, v1, bb, f2, out),
    ensures
        add_fn_left(st, e, bb, f2, out),
{
    assert(wit_val(v1, st1));
}

proof fn lemma_add_fn_right(
    st: StateV,
    aa: ValueV,
    e: ExprV,
    f2: nat,
    v2: ValueV,
    st1: StateV,
    out: EOut,
)
    requires
        er_expr(st, e, f2, Ok((v2, st1))),
        er_add(st1, aa, v2, f2, out),
    ensures
        add_fn_right(st, aa, e, f2, out),
{
    assert(wit_val(v2, st1));
}

proof fn lemma_vec_lit_num_ok(
    st: StateV,
    comps: Seq<CompV>,
    n: u64,
    fuel: nat,
    rest: Seq<i64>,
    stf: StateV,
)
    requires
        comps.len() > 0,
        er_vector(st, comps.drop_first(), fuel, Ok((rest, stf))),
    ensures
        vec_lit_num(st, comps, n, fuel, Ok((seq![u64_as_i64(n)] + rest, stf))),
{
    assert(wit_ints(rest));
}

proof fn lemma_vec_lit_param_ok(
    st: StateV,
    comps: Seq<CompV>,
    k: u64,
    fuel: nat,
    pv: ValueV,
    st1: StateV,
    x0: Seq<i64>,
    st2: StateV,
    rest: Seq<i64>,
    stf: StateV,
)
    requires
        comps.len() > 0,
        er_param(st, k, fuel, Ok((pv, st1))),
        er_vectorize(st1, pv, fuel, Ok((x0, st2))),
        er_vector(st2, comps.drop_first(), fuel, Ok((rest, stf))),
    ensures
        vec_lit_param(st, comps, k, fuel, Ok((x0 + rest, stf))),
{
    assert(wit_val(pv, st1));
    assert(wit_ints_st(x0, st2));
    assert(wit_ints(rest));
}

proof fn lemma_vec_lit_param_err2(
    st: StateV,
    comps: Seq<CompV>,
    k: u64,
    fuel: nat,
    pv: ValueV,
    st1: StateV,
    err: EvalError,
)
    requires
        comps.len() > 0,
        er_param(st, k, fuel, Ok((pv, st1))),
        er_vectorize(st1, pv, fuel, Err(err)),
    ensures
        vec_lit_param(st, comps, k, fuel, Err(err)),
{
    assert(wit_val(pv, st1));
}

proof fn lemma_vec_lit_param_err3(
    st: StateV,
    comps: Seq<CompV>,
    k: u64,
    fuel: nat,
    pv: ValueV,
    st1: StateV,
    x0: Seq<i64>,
    st2: StateV,
    err: EvalError,
)
    requires
        comps.len() > 0,
        er_param(st, k, fuel, Ok((pv, st1))),
        er_vectorize(st1, pv, fuel, Ok((x0, st2))),
        er_vector(st2, comps.drop_first(), fuel, Err(err)),
    ensures
        vec_lit_param(st, comps, k, fuel, Err(err)),
{
    assert(wit_val(pv, st1));
    assert(wit_ints_st(x0, st2));
}

/// The view of an optional else branch.
pub open spec fn opt_view(f: Option<Expr>) -> Option<Box<ExprV>> {
    match f {
        Some(e) => Some(Box::new(expr_view(e))),
        None => None,
    }
}

/// Top-level evaluation of a whole program.  What a multi-expression
/// program should yield is left open by the language, and this yields the
/// empty value without evaluating anything.
#[allow(unused_variables)]
pub fn interpret(state: &State, ast: &[Expr]) -> (v: Value)
    ensures
        value_view(v) == ValueV::Empty,
{
    Value::Empty
}

/// Evaluate one expression.  The outcome stands in the [`er_expr`]
/// relation to the state before the call and the state after it.
#[verifier::rlimit(50)]
#[verifier::spinoff_prover]
pub fn interpret_expr(state: &mut State, expr: &Expr, fuel: u64) -> (r: Result<Value, EvalError>)
    requires
        old(state).wf(),
    ensures
        final(state).wf(),
        match r {
            Ok(v) => er_expr(
                old(state)@,
                expr_view(*expr),
                fuel as nat,
                Ok((value_view(v), final(state)@)),
            ),
            Err(e) => er_expr(old(state)@, expr_view(*expr), fuel as nat, Err(e)),
        },
    decreases fuel, 1nat, esize(expr_view(*expr)), 0nat,
{
    let ghost st0 = state@;
    match expr {
        Expr::Scope(b) => {
            let nf: Vec<(Ident, Expr)> = Vec::new();
            state.functions.push(nf);
            proof {
                assert(frame_view(Seq::<(Ident, Expr)>::empty()) =~= Seq::<
                    (Seq<char>, ExprV),
                >::empty());
                assert(funcs_view(state.functions@) =~= st0.funcs.push(
                    Seq::<(Seq<char>, ExprV)>::empty(),
                ));
                assert(state@ == push_frame(st0));
            }
            match interpret_expr(state, b, fuel) {
                Ok(v) => {
                    let ghost st2 = state@;
                    let popped = state.functions.pop();
                    proof {
                        assert(funcs_view(state.functions@) =~= st2.funcs.drop_last());
                        assert(state@ == pop_frame(st2));
                        lemma_scope_body_ok(st0, expr_view(**b), fuel as nat, value_view(v), st2);
                    }
                    Ok(v)
                },
                Err(e) => {
                    if state.functions.len() > 1 {
                        let popped = state.functions.pop();
                    }
                    Err(e)
                },
            }
        },
        Expr::Op(l, op, r2) => interpret_op(state, l, op, r2, fuel),
        Expr::Conditional { condition, success, failure } => interpret_conditional(
            state,
            condition,
            success,
            failure,
            fuel,
        ),
        Expr::Definition(name, body) => {
            let v = interpret_definition(state, name, body);
            proof {
                assert(frames_ok(st0, state@));
            }
            Ok(v)
        },
        Expr::Call(name, args) => interpret_call(state, name, args, fuel),
        Expr::Param(p) => interpret_param(state, p.0, fuel),
        Expr::Text(t) => Ok(Value::Text(t.clone())),
        Expr::Vector(components) => {
            let r = interpret_vector(state, components, fuel);
            proof {
                if r is Ok {
                    lemma_vector_lit_ok(
                        st0,
                        components@.map_values(|c: VectorComponent| crate::parser::comp_view(c)),
                        fuel as nat,
                        r->Ok_0->Vector_0@,
                        state@,
                    );
                    assert(value_view(r->Ok_0) == ValueV::Vector(r->Ok_0->Vector_0@));
                }
            }
            r
        },
        Expr::WriteIO(_) => Ok(Value::Empty),
        Expr::ReadIO => Ok(Value::Empty),
    }
}

/// Evaluate a binary operation: left operand, right operand, then the
/// operator's own rule.
#[verifier::rlimit(50)]
#[verifier::spinoff_prover]
pub fn interpret_op(state: &mut State, lhs: &Expr, op: &Op, rhs: &Expr, fuel: u64) -> (r: Result<
    Value,
    EvalError,
>)
    requires
        old(state).wf(),
    ensures
        final(state).wf(),
        match r {
            Ok(v) => er_op(
                old(state)@,
                expr_view(*lhs),
                *op,
                expr_view(*rhs),
                fuel as nat,
                Ok((value_view(v), final(state)@)),
            ),
            Err(e) => er_op(old(state)@, expr_view(*lhs), *op, expr_view(*rhs), fuel as nat, Err(e)),
        },
    decreases fuel, 1nat, esize(expr_view(*lhs)) + esize(expr_view(*rhs)), 5nat,
{
    let ghost st0 = state@;
    let v1 = match interpret_expr(state, lhs, fuel) {
        Ok(v) => v,
        Err(e) => {
            return Err(e);
        },
    };
    let ghost v1v = value_view(v1);
    let ghost st1 = state@;
    let v2 = match interpret_expr(state, rhs, fuel) {
        Ok(v) => v,
        Err(e) => {
            proof {
                lemma_op_err_rhs(st0, expr_view(*lhs), expr_view(*rhs), fuel as nat, v1v, st1, e);
            }
            return Err(e);
        },
    };
    let ghost v2v = value_view(v2);
    let ghost st2 = state@;
    match op {
        Op::Add => {
            let r = interpret_addition(state, v1, v2, fuel);
            proof {
                let gout: EOut = match &r {
                    Ok(v) => Ok((value_view(*v), state@)),
                    Err(e) => Err(*e),
                };
                assert(er_op_after(st2, v1v, Op::Add, v2v, fuel as nat, gout));
                lemma_op_chain(
                    st0,
                    expr_view(*lhs),
                    Op::Add,
                    expr_view(*rhs),
                    fuel as nat,
                    v1v,
                    st1,
                    v2v,
                    st2,
                    gout,
                );
            }
            r
        },
        Op::Equ => {
            let b = value_eq(&v1, &v2);
            proof {
                assert(er_op_after(
                    st2,
                    v1v,
                    Op::Equ,
                    v2v,
                    fuel as nat,
                    Ok((ValueV::Boolean(v1v == v2v), st2)),
                ));
                lemma_op_chain(
                    st0,
                    expr_view(*lhs),
                    Op::Equ,
                    expr_view(*rhs),
                    fuel as nat,
                    v1v,
                    st1,
                    v2v,
                    st2,
                    Ok((ValueV::Boolean(v1v == v2v), st2)),
                );
            }
            Ok(Value::Boolean(b))
        },
        Op::Mul => {
            proof {
                assert(er_op_after(st2, v1v, Op::Mul, v2v, fuel as nat, Ok((v1v, st2))));
                lemma_op_chain(
                    st0,
                    expr_view(*lhs),
                    Op::Mul,
                    expr_view(*rhs),
                    fuel as nat,
                    v1v,
                    st1,
                    v2v,
                    st2,
                    Ok((v1v, st2)),
                );
            }
            Ok(v1)
        },
        Op::Sub => {
            proof {
                assert(er_op_after(st2, v1v, Op::Sub, v2v, fuel as nat, Ok((v1v, st2))));
                lemma_op_chain(
                    st0,
                    expr_view(*lhs),
                    Op::Sub,
                    expr_view(*rhs),
                    fuel as nat,
                    v1v,
                    st1,
                    v2v,
                    st2,
                    Ok((v1v, st2)),
                );
            }
            Ok(v1)
        },
    }
}

/// Addition, dispatched on the operand variants.
#[verifier::rlimit(50)]
#[verifier::spinoff_prover]
pub fn interpret_addition(state: &mut State, lhs: Value, rhs: Value, fuel: u64) -> (r: Result<
    Value,
    EvalError,
>)
    requires
        old(state).wf(),
    ensures
        final(state).wf(),
        match r {
            Ok(v) => er_add(
                old(state)@,
                value_view(lhs),
                value_view(rhs),
                fuel as nat,
                Ok((value_view(v), final(state)@)),
            ),
            Err(e) => er_add(old(state)@, value_view(lhs), value_view(rhs), fuel as nat, Err(e)),
        },
    decreases fuel, 0nat, 0nat, 1nat,
{
    let ghost st0 = state@;
    let ghost av = value_view(lhs);
    let ghost bv = value_view(rhs);
    match (lhs, rhs) {
        (Value::Boolean(x), Value::Boolean(y)) => Ok(Value::Boolean(x != y)),
        (Value::Boolean(x), Value::Text(t)) => {
            if x {
                let mut t2 = t;
                reverse_graphemes(&mut t2);
                Ok(Value::Text(t2))
            } else {
                Ok(Value::Text(t))
            }
        },
        (Value::Text(t), Value::Boolean(x)) => {
            if !x {
                let mut t2 = t;
                reverse_graphemes(&mut t2);
                Ok(Value::Text(t2))
            } else {
                Ok(Value::Text(t))
            }
        },
        (Value::Boolean(x), Value::Vector(xs)) => {
            if x {
                let ghost xs0 = xs@;
                let mut xs2 = xs;
                shuffle_values(&mut state.rng, &mut xs2);
                proof {
                    lemma_shuffled_of(xs2@, xs0);
                }
                Ok(Value::Vector(xs2))
            } else {
                Ok(Value::Vector(xs))
            }
        },
        (Value::Text(t1), Value::Text(t2)) => {
            let mut s = t1;
            push_char(&mut s, ' ');
            s.append(t2.as_str());
            proof {
                assert(s@ =~= av->Text_0 + seq![' '] + bv->Text_0);
            }
            Ok(Value::Text(s))
        },
        (Value::Text(t), Value::Vector(xs)) => {
            let mut s = t;
            let d = vec_to_string(&xs);
            s.append(d.as_str());
            Ok(Value::Text(s))
        },
        (Value::Vector(xs), Value::Text(t)) => {
            let mut s = vec_to_string(&xs);
            s.append(t.as_str());
            Ok(Value::Text(s))
        },
        (Value::Vector(x), Value::Vector(y)) => {
            let r = add_vec_values(&x, &y);
            Ok(Value::Vector(r))
        },
        (Value::Function(e), other) => {
            if fuel == 0 {
                return Err(EvalError::OutOfFuel);
            }
            let ghost otherv = value_view(other);
            let v1 = match interpret_expr(state, &e, fuel - 1) {
                Ok(v) => v,
                Err(er) => {
                    return Err(er);
                },
            };
            let ghost st_mid = state@;
            let ghost v1v = value_view(v1);
            let r = interpret_addition(state, v1, other, fuel - 1);
            proof {
                let gout: EOut = match &r {
                    Ok(v) => Ok((value_view(*v), state@)),
                    Err(er2) => Err(*er2),
                };
                lemma_add_fn_left(st0, expr_view(e), otherv, (fuel - 1) as nat, v1v, st_mid, gout);
            }
            r
        },
        (other, Value::Function(e)) => {
            if fuel == 0 {
                return Err(EvalError::OutOfFuel);
            }
            let ghost otherv = value_view(other);
            let v2 = match interpret_expr(state, &e, fuel - 1) {
                Ok(v) => v,
                Err(er) => {
                    return Err(er);
                },
            };
            let ghost st_mid = state@;
            let ghost v2v = value_view(v2);
            let r = interpret_addition(state, other, v2, fuel - 1);
            proof {
                let gout: EOut = match &r {
                    Ok(v) => Ok((value_view(*v), state@)),
                    Err(er2) => Err(*er2),
                };
                lemma_add_fn_right(st0, otherv, expr_view(e), (fuel - 1) as nat, v2v, st_mid, gout);
            }
            r
        },
        (v, Value::Empty) => Ok(v),
        (Value::Empty, v) => Ok(v),
        _ => Err(EvalError::UnsupportedOperands),
    }
}

/// Evaluate a conditional: the condition, its truthiness, then the branch
/// it picks; no else branch yields the empty value.
#[verifier::rlimit(50)]
#[verifier::spinoff_prover]
pub fn interpret_conditional(
    state: &mut State,
    condition: &Expr,
    success: &Expr,
    failure: &Option<Expr>,
    fuel: u64,
) -> (r: Result<Value, EvalError>)
    requires
        old(state).wf(),
    ensures
        final(state).wf(),
        match r {
            Ok(v) => er_conditional(
                old(state)@,
                expr_view(*condition),
                expr_view(*success),
                opt_view(*failure),
                fuel as nat,
                Ok((value_view(v), final(state)@)),
            ),
            Err(e) => er_conditional(
                old(state)@,
                expr_view(*condition),
                expr_view(*success),
                opt_view(*failure),
                fuel as nat,
                Err(e),
            ),
        },
    decreases fuel, 1nat, esize(expr_view(*condition)) + esize(expr_view(*success)) + (match opt_view(
        *failure,
    ) {
        Some(b) => esize(*b),
        None => 0nat,
    }), 5nat,
{
    let ghost st0 = state@;
    let cv = match interpret_expr(state, condition, fuel) {
        Ok(v) => v,
        Err(e) => {
            return Err(e);
        },
    };
    let ghost cvv = value_view(cv);
    let ghost st1 = state@;
    let b = match is_truthy(state, cv, fuel) {
        Ok(b) => b,
        Err(e) => {
            proof {
                lemma_cond_err_truthy(
                    st0,
                    expr_view(*condition),
                    expr_view(*success),
                    fuel as nat,
                    cvv,
                    st1,
                    e,
                );
            }
            return Err(e);
        },
    };
    let ghost st2 = state@;
    let r = if b {
        interpret_expr(state, success, fuel)
    } else {
        match failure {
            Some(f) => interpret_expr(state, f, fuel),
            None => Ok(Value::Empty),
        }
    };
    proof {
        let gout: EOut = match &r {
            Ok(v) => Ok((value_view(*v), state@)),
            Err(e) => Err(*e),
        };
        lemma_cond_chain(
            st0,
            expr_view(*condition),
            expr_view(*success),
            opt_view(*failure),
            fuel as nat,
            cvv,
            st1,
            b,
            st2,
            gout,
        );
    }
    r
}

/// Truthiness of a value; a function value is evaluated first.
#[verifier::rlimit(50)]
#[verifier::spinoff_prover]
pub fn is_truthy(state: &mut State, value: Value, fuel: u64) -> (r: Result<bool, EvalError>)
    requires
        old(state).wf(),
    ensures
        final(state).wf(),
        match r {
            Ok(b) => er_truthy(old(state)@, value_view(value), fuel as nat, Ok((b, final(state)@))),
            Err(e) => er_truthy(old(state)@, value_view(value), fuel as nat, Err(e)),
        },
    decreases fuel, 0nat, 0nat, 1nat,
{
    match value {
        Value::Boolean(b) => Ok(b),
        Value::Vector(c) => Ok(vector_truthy_exec(&c)),
        Value::Text(t) => Ok(text_all_ok(&t)),
        Value::Empty => Ok(false),
        Value::Function(e) => {
            let ghost st0 = state@;
            if fuel == 0 {
                return Err(EvalError::OutOfFuel);
            }
            let v2 = match interpret_expr(state, &e, fuel - 1) {
                Ok(v) => v,
                Err(er) => {
                    return Err(er);
                },
            };
            let ghost st_mid = state@;
            let ghost v2v = value_view(v2);
            let r = is_truthy(state, v2, fuel - 1);
            proof {
                let gout: BOut = match &r {
                    Ok(b) => Ok((*b, state@)),
                    Err(er2) => Err(*er2),
                };
                lemma_truthy_fn_chain(st0, expr_view(e), (fuel - 1) as nat, v2v, st_mid, gout);
            }
            r
        },
    }
}

/// Install a definition in the innermost frame; the value of a definition
/// is the defined function itself.
pub fn interpret_definition(state: &mut State, name: &Ident, body: &Expr) -> (v: Value)
    requires
        old(state).wf(),
    ensures
        final(state).wf(),
        final(state)@ == define_fn(old(state)@, name.0@, expr_view(*body)),
        value_view(v) == ValueV::Function(expr_view(*body)),
{
    let ghost st0 = state@;
    let stored = clone_expr(body);
    let returned = clone_expr(body);
    let n = Ident(name.0.clone());
    match state.functions.pop() {
        Some(mut frame) => {
            let ghost frame0 = frame@;
            frame.push((n, stored));
            state.functions.push(frame);
            proof {
                assert(frame_view(frame@) =~= frame_view(frame0).push(
                    (name.0@, expr_view(*body)),
                ));
                assert(funcs_view(state.functions@) =~= define_fn(
                    st0,
                    name.0@,
                    expr_view(*body),
                ).funcs);
            }
        },
        None => {
            proof {
                assert(false);
            }
        },
    }
    Value::Function(returned)
}

#[verifier::rlimit(50)]
#[verifier::spinoff_prover]
fn eval_args(state: &mut State, args: &Vec<Expr>, i: usize, fuel: u64) -> (r: Result<
    Vec<Value>,
    EvalError,
>)
    requires
        old(state).wf(),
        i <= args@.len(),
    ensures
        final(state).wf(),
        match r {
            Ok(vs) => er_args(
                old(state)@,
                exprs_view(args@).skip(i as int),
                fuel as nat,
                Ok((vals_view(vs@), final(state)@)),
            ),
            Err(e) => er_args(old(state)@, exprs_view(args@).skip(i as int), fuel as nat, Err(e)),
        },
    decreases fuel, 1nat, esize_list(exprs_view(args@).skip(i as int)), 3nat,
{
    let ghost st_entry = state@;
    proof {
        crate::parser::lemma_exprs_view_len(args@);
    }
    if i == args.len() {
        proof {
            assert(exprs_view(args@).skip(i as int) =~= Seq::<ExprV>::empty());
            assert(vals_view(Seq::<Value>::empty()) =~= Seq::<ValueV>::empty());
        }
        return Ok(Vec::new());
    }
    proof {
        assert(exprs_view(args@).skip(i as int).first() == expr_view(args@[i as int]));
        assert(exprs_view(args@).skip(i as int).drop_first() =~= exprs_view(args@).skip(
            i + 1 as int,
        ));
        lemma_esize_pos(expr_view(args@[i as int]));
    }
    let v0 = match interpret_expr(state, &args[i], fuel) {
        Ok(v) => v,
        Err(e) => {
            return Err(e);
        },
    };
    let ghost st_mid = state@;
    let ghost v0v = value_view(v0);
    let ghost gargs = exprs_view(args@).skip(i as int);
    match eval_args(state, args, i + 1, fuel) {
        Err(e) => {
            proof {
                lemma_args_cons_err(st_entry, gargs, fuel as nat, v0v, st_mid, e);
            }
            Err(e)
        },
        Ok(mut rest) => {
            let ghost r0 = rest@;
            rest.insert(0, v0);
            proof {
                assert(vals_view(rest@) =~= seq![v0v] + vals_view(r0));
                lemma_args_cons_ok(st_entry, gargs, fuel as nat, v0v, st_mid, vals_view(r0), state@);
            }
            Ok(rest)
        },
    }
}

/// Evaluate a call: the arguments left to right, then the named function's
/// body under a fresh parameter frame.
#[verifier::rlimit(50)]
#[verifier::spinoff_prover]
pub fn interpret_call(state: &mut State, name: &Ident, params: &Vec<Expr>, fuel: u64) -> (r: Result<
    Value,
    EvalError,
>)
    requires
        old(state).wf(),
    ensures
        final(state).wf(),
        match r {
            Ok(v) => er_call(
                old(state)@,
                name.0@,
                exprs_view(params@),
                fuel as nat,
                Ok((value_view(v), final(state)@)),
            ),
            Err(e) => er_call(old(state)@, name.0@, exprs_view(params@), fuel as nat, Err(e)),
        },
    decreases fuel, 1nat, esize_list(exprs_view(params@)), 5nat,
{
    let ghost st0 = state@;
    proof {
        assert(exprs_view(params@).skip(0) =~= exprs_view(params@));
    }
    let vals = match eval_args(state, params, 0, fuel) {
        Ok(vs) => vs,
        Err(e) => {
            return Err(e);
        },
    };
    let ghost st1 = state@;
    let ghost valsv0 = vals_view(vals@);
    let fun = resolve_fun(state, name);
    match fun {
        None => {
            proof {
                lemma_call_after_args(
                    st0,
                    name.0@,
                    exprs_view(params@),
                    fuel as nat,
                    valsv0,
                    st1,
                    Err(EvalError::UndefinedFunction),
                );
            }
            Err(EvalError::UndefinedFunction)
        },
        Some(body) => {
            if fuel == 0 {
                proof {
                    lemma_call_after_args(
                        st0,
                        name.0@,
                        exprs_view(params@),
                        fuel as nat,
                        valsv0,
                        st1,
                        Err(EvalError::OutOfFuel),
                    );
                }
                return Err(EvalError::OutOfFuel);
            }
            let nf: Vec<(Ident, Expr)> = Vec::new();
            let ghost valsv = vals_view(vals@);
            state.functions.push(nf);
            state.params.push(vals);
            proof {
                assert(frame_view(Seq::<(Ident, Expr)>::empty()) =~= Seq::<
                    (Seq<char>, ExprV),
                >::empty());
                assert(funcs_view(state.functions@) =~= st1.funcs.push(
                    Seq::<(Seq<char>, ExprV)>::empty(),
                ));
                assert(params_view(state.params@) =~= st1.params.push(valsv));
                assert(state@ == enter_call(st1, valsv));
            }
            match interpret_expr(state, &body, fuel - 1) {
                Ok(v) => {
                    let ghost st2 = state@;
                    let p1 = state.params.pop();
                    let p2 = state.functions.pop();
                    proof {
                        assert(params_view(state.params@) =~= st2.params.drop_last());
                        assert(funcs_view(state.functions@) =~= st2.funcs.drop_last());
                        assert(state@ == exit_call(st2));
                        assert(st2.params.drop_last() =~= st1.params);
                        lemma_call_body_ok(
                            st1,
                            valsv0,
                            expr_view(body),
                            (fuel - 1) as nat,
                            value_view(v),
                            st2,
                        );
                        lemma_call_after_args(
                            st0,
                            name.0@,
                            exprs_view(params@),
                            fuel as nat,
                            valsv0,
                            st1,
                            Ok((value_view(v), state@)),
                        );
                    }
                    Ok(v)
                },
                Err(e) => {
                    if state.params.len() > 0 {
                        let p1 = state.params.pop();
                    }
                    if state.functions.len() > 1 {
                        let p2 = state.functions.pop();
                    }
                    proof {
                        lemma_call_after_args(
                            st0,
                            name.0@,
                            exprs_view(params@),
                            fuel as nat,
                            valsv0,
                            st1,
                            Err(e),
                        );
                    }
                    Err(e)
                },
            }
        },
    }
}

#[verifier::rlimit(50)]
#[verifier::spinoff_prover]
fn vecs_list(state: &mut State, vals: &Vec<Value>, i: usize, fuel: u64) -> (r: Result<
    Vec<i64>,
    EvalError,
>)
    requires
        old(state).wf(),
        i <= vals@.len(),
    ensures
        final(state).wf(),
        match r {
            Ok(xs) => er_vecs(
                old(state)@,
                vals_view(vals@).skip(i as int),
                fuel as nat,
                Ok((xs@, final(state)@)),
            ),
            Err(e) => er_vecs(old(state)@, vals_view(vals@).skip(i as int), fuel as nat, Err(e)),
        },
    decreases fuel, 0nat, vals@.len() - i, 0nat,
{
    if i == vals.len() {
        proof {
            assert(vals_view(vals@).skip(i as int) =~= Seq::<ValueV>::empty());
        }
        return Ok(Vec::new());
    }
    proof {
        assert(vals_view(vals@).skip(i as int).first() == value_view(vals@[i as int]));
        assert(vals_view(vals@).skip(i as int).drop_first() =~= vals_view(vals@).skip(i + 1 as int));
    }
    let ghost st_entry = state@;
    let ghost gvals = vals_view(vals@).skip(i as int);
    let v0 = clone_value(&vals[i]);
    let mut x0 = match vectorize(state, v0, fuel) {
        Ok(x) => x,
        Err(e) => {
            return Err(e);
        },
    };
    let ghost st_mid = state@;
    let ghost x00 = x0@;
    match vecs_list(state, vals, i + 1, fuel) {
        Err(e) => {
            proof {
                lemma_vecs_cons_err(st_entry, gvals, fuel as nat, x00, st_mid, e);
            }
            Err(e)
        },
        Ok(mut rest) => {
            let ghost x0v = x0@;
            let ghost restv = rest@;
            x0.append(&mut rest);
            proof {
                assert(x0@ =~= x0v + restv);
                lemma_vecs_cons_ok(st_entry, gvals, fuel as nat, x00, st_mid, restv, state@);
            }
            Ok(x0)
        },
    }
}

/// Resolve a parameter reference: 0 yields all parameters in scope coerced
/// to one vector; from 1 on, the flattened parameter stack is indexed.
#[verifier::rlimit(50)]
#[verifier::spinoff_prover]
pub fn interpret_param(state: &mut State, param: u64, fuel: u64) -> (r: Result<Value, EvalError>)
    requires
        old(state).wf(),
    ensures
        final(state).wf(),
        match r {
            Ok(v) => er_param(old(state)@, param, fuel as nat, Ok((value_view(v), final(state)@))),
            Err(e) => er_param(old(state)@, param, fuel as nat, Err(e)),
        },
    decreases fuel, 0nat, flat_params(state@.params).len() + 1, 0nat,
{
    let ghost st0 = state@;
    let flat = flatten_params(state);
    if param == 0 {
        proof {
            assert(vals_view(flat@).skip(0) =~= vals_view(flat@));
        }
        match vecs_list(state, &flat, 0, fuel) {
            Ok(xs) => {
                proof {
                    lemma_param_all_ok(st0, fuel as nat, xs@, state@);
                }
                Ok(Value::Vector(xs))
            },
            Err(e) => Err(e),
        }
    } else {
        if param <= flat.len() as u64 {
            let idx = (param - 1) as usize;
            let mut flat2 = flat;
            let v = flat2.remove(idx);
            Ok(v)
        } else {
            Err(EvalError::UnboundParam)
        }
    }
}

/// Coerce one value to vector contents.
#[verifier::rlimit(50)]
#[verifier::spinoff_prover]
pub fn vectorize(state: &mut State, value: Value, fuel: u64) -> (r: Result<Vec<i64>, EvalError>)
    requires
        old(state).wf(),
    ensures
        final(state).wf(),
        match r {
            Ok(xs) => er_vectorize(
                old(state)@,
                value_view(value),
                fuel as nat,
                Ok((xs@, final(state)@)),
            ),
            Err(e) => er_vectorize(old(state)@, value_view(value), fuel as nat, Err(e)),
        },
    decreases fuel, 0nat, 0nat, 1nat,
{
    match value {
        Value::Vector(n) => Ok(n),
        Value::Boolean(b) => {
            let mut v: Vec<i64> = Vec::new();
            if b {
                v.push(42);
                proof {
                    assert(v@ =~= seq![42i64]);
                }
            } else {
                v.push(7);
                proof {
                    assert(v@ =~= seq![7i64]);
                }
            }
            Ok(v)
        },
        Value::Empty => {
            let mut v: Vec<i64> = Vec::new();
            v.push(0);
            proof {
                assert(v@ =~= seq![0i64]);
            }
            Ok(v)
        },
        Value::Text(t) => {
            let l = t.as_str().unicode_len();
            let m: i64 = if (l as u64) <= 0x7fff_ffff_ffff_ffff {
                l as i64
            } else {
                0x7fff_ffff_ffff_ffff
            };
            let mut v: Vec<i64> = Vec::new();
            v.push(m);
            proof {
                assert(v@ =~= seq![text_measure(t@)]);
            }
            Ok(v)
        },
        Value::Function(e) => {
            let ghost st0 = state@;
            if fuel == 0 {
                return Err(EvalError::OutOfFuel);
            }
            let v2 = match interpret_expr(state, &e, fuel - 1) {
                Ok(v) => v,
                Err(er) => {
                    return Err(er);
                },
            };
            let ghost st_mid = state@;
            let ghost v2v = value_view(v2);
            let r = vectorize(state, v2, fuel - 1);
            proof {
                let gout: VOut = match &r {
                    Ok(xs) => Ok((xs@, state@)),
                    Err(er2) => Err(*er2),
                };
                lemma_vectorize_fn_chain(st0, expr_view(e), (fuel - 1) as nat, v2v, st_mid, gout);
            }
            r
        },
    }
}

#[verifier::rlimit(50)]
#[verifier::spinoff_prover]
fn vec_comps(state: &mut State, parts: &Vec<VectorComponent>, i: usize, fuel: u64) -> (r: Result<
    Vec<i64>,
    EvalError,
>)
    requires
        old(state).wf(),
        i <= parts@.len(),
    ensures
        final(state).wf(),
        match r {
            Ok(xs) => er_vector(
                old(state)@,
                parts@.map_values(|c: VectorComponent| crate::parser::comp_view(c)).skip(i as int),
                fuel as nat,
                Ok((xs@, final(state)@)),
            ),
            Err(e) => er_vector(
                old(state)@,
                parts@.map_values(|c: VectorComponent| crate::parser::comp_view(c)).skip(i as int),
                fuel as nat,
                Err(e),
            ),
        },
    decreases fuel, 1nat, parts@.len() - i, 3nat,
{
    let ghost cv = parts@.map_values(|c: VectorComponent| crate::parser::comp_view(c));
    if i == parts.len() {
        proof {
            assert(cv.skip(i as int) =~= Seq::<CompV>::empty());
        }
        return Ok(Vec::new());
    }
    proof {
        assert(cv.skip(i as int).first() == crate::parser::comp_view(parts@[i as int]));
        assert(cv.skip(i as int).drop_first() =~= cv.skip(i + 1 as int));
    }
    let ghost st0 = state@;
    let ghost gcomps = cv.skip(i as int);
    match parts[i] {
        VectorComponent::Number(n) => {
            let x = u64_to_i64_wrap(n);
            match vec_comps(state, parts, i + 1, fuel) {
                Err(e) => {
                    proof {
                        assert(vec_lit_num(st0, gcomps, n, fuel as nat, Err(e)));
                    }
                    Err(e)
                },
                Ok(mut rest) => {
                    let ghost restv = rest@;
                    rest.insert(0, x);
                    proof {
                        assert(rest@ =~= seq![u64_as_i64(n)] + restv);
                        lemma_vec_lit_num_ok(st0, gcomps, n, fuel as nat, restv, state@);
                    }
                    Ok(rest)
                },
            }
        },
        VectorComponent::Param(p) => {
            let pv = match interpret_param(state, p.0, fuel) {
                Ok(v) => v,
                Err(e) => {
                    proof {
                        assert(vec_lit_param(st0, gcomps, p.0, fuel as nat, Err(e)));
                    }
                    return Err(e);
                },
            };
            let ghost pvv = value_view(pv);
            let ghost stp = state@;
            let mut x0 = match vectorize(state, pv, fuel) {
                Ok(x) => x,
                Err(e) => {
                    proof {
                        lemma_vec_lit_param_err2(st0, gcomps, p.0, fuel as nat, pvv, stp, e);
                    }
                    return Err(e);
                },
            };
            let ghost st_mid2 = state@;
            let ghost x00 = x0@;
            match vec_comps(state, parts, i + 1, fuel) {
                Err(e) => {
                    proof {
                        lemma_vec_lit_param_err3(
                            st0,
                            gcomps,
                            p.0,
                            fuel as nat,
                            pvv,
                            stp,
                            x00,
                            st_mid2,
                            e,
                        );
                    }
                    Err(e)
                },
                Ok(mut rest) => {
                    let ghost x0v = x0@;
                    let ghost restv = rest@;
                    x0.append(&mut rest);
                    proof {
                        assert(x0@ =~= x0v + restv);
                        lemma_vec_lit_param_ok(
                            st0,
                            gcomps,
                            p.0,
                            fuel as nat,
                            pvv,
                            stp,
                            x00,
                            st_mid2,
                            restv,
                            state@,
                        );
                    }
                    Ok(x0)
                },
            }
        },
    }
}

/// Evaluate a vector literal: numbers contribute themselves; a parameter
/// component contributes its value coerced to vector contents.
#[verifier::rlimit(50)]
#[verifier::spinoff_prover]
pub fn interpret_vector(state: &mut State, parts: &Vec<VectorComponent>, fuel: u64) -> (r: Result<
    Value,
    EvalError,
>)
    requires
        old(state).wf(),
    ensures
        final(state).wf(),
        match r {
            Ok(v) => v is Vector && er_vector(
                old(state)@,
                parts@.map_values(|c: VectorComponent| crate::parser::comp_view(c)),
                fuel as nat,
                Ok((v->Vector_0@, final(state)@)),
            ),
            Err(e) => er_vector(
                old(state)@,
                parts@.map_values(|c: VectorComponent| crate::parser::comp_view(c)),
                fuel as nat,
                Err(e),
            ),
        },
    decreases fuel, 1nat, parts@.len(), 5nat,
{
    proof {
        assert(parts@.map_values(|c: VectorComponent| crate::parser::comp_view(c)).skip(0)
            =~= parts@.map_values(|c: VectorComponent| crate::parser::comp_view(c)));
    }
    match vec_comps(state, parts, 0, fuel) {
        Ok(xs) => Ok(Value::Vector(xs)),
        Err(e) => Err(e),
    }
}
















/// The language's equality is reflexive: testing any value against itself
/// comes out true, whatever the state and fuel.
pub proof fn lemma_equality_reflexive(st: StateV, v: ValueV, fuel: nat)
    ensures
        er_op_after(st, v, Op::Equ, v, fuel, Ok((ValueV::Boolean(true), st))),
{
}

/// The language's equality is symmetric: swapping the operands allows
/// exactly the same outcomes.
pub proof fn lemma_equality_symmetric(st: StateV, a: ValueV, b: ValueV, fuel: nat, out: EOut)
    ensures
        er_op_after(st, a, Op::Equ, b, fuel, out) <==> er_op_after(st, b, Op::Equ, a, fuel, out),
{
}

/// The language's equality is variant-exact: equal values are of the same
/// variant, so no two values of different variants ever compare equal.
pub proof fn lemma_equality_variant_exact(a: ValueV, b: ValueV)
    ensures
        a == b ==> ((a is Text <==> b is Text) && (a is Boolean <==> b is Boolean) && (a is Vector
            <==> b is Vector) && (a is Function <==> b is Function) && (a is Empty
            <==> b is Empty)),
{
}

/// Two definitions with structurally identical bodies yield equal function
/// values, whatever their names and wherever they are evaluated.
pub proof fn lemma_identical_bodies_equal_functions(
    sta: StateV,
    stb: StateV,
    n1: Seq<char>,
    n2: Seq<char>,
    body: ExprV,
    fuel1: nat,
    fuel2: nat,
    v1: ValueV,
    v2: ValueV,
    sf1: StateV,
    sf2: StateV,
)
    requires
        er_expr(sta, ExprV::Definition(n1, Box::new(body)), fuel1, Ok((v1, sf1))),
        er_expr(stb, ExprV::Definition(n2, Box::new(body)), fuel2, Ok((v2, sf2))),
    ensures
        v1 == v2,
        v1 == ValueV::Function(body),
{
}

/// A vector is a right identity for the empty value: `Vector + Empty`
/// yields the vector unchanged, and nothing else.
pub proof fn lemma_vector_plus_empty(st: StateV, xs: Seq<i64>, fuel: nat, out: EOut)
    ensures
        er_add(st, ValueV::Vector(xs), ValueV::Empty, fuel, out) <==> out == Ok::<
            (ValueV, StateV),
            EvalError,
        >((ValueV::Vector(xs), st)),
{
}

/// The empty value is a left identity of addition for every value that is
/// not a function (a function operand is evaluated first, so what comes
/// out is the function's outcome, not the function value itself).
pub proof fn lemma_empty_plus_value(st: StateV, v: ValueV, fuel: nat, out: EOut)
    requires
        !(v is Function),
    ensures
        er_add(st, ValueV::Empty, v, fuel, out) <==> out == Ok::<(ValueV, StateV), EvalError>(
            (v, st),
        ),
{
}

/// Adding two booleans is exclusive-or, and nothing else.
pub proof fn lemma_boolean_addition(st: StateV, a: bool, b: bool, fuel: nat, out: EOut)
    ensures
        er_add(st, ValueV::Boolean(a), ValueV::Boolean(b), fuel, out) <==> out == Ok::<
            (ValueV, StateV),
            EvalError,
        >((ValueV::Boolean(a != b), st)),
{
}

} // verus!
