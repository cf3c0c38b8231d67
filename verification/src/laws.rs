//! The laws of the compiler, proved once and for all:
//!
//! - tokenization skips whitespace, and the compiled program depends on the
//!   input only through its token sequence, so whitespace between tokens is
//!   immaterial;
//! - blank input compiles to the empty program, whose value is zero;
//! - for every expression of the standard grammar — numbers, `+ - * /`,
//!   balanced parentheses, and negation applied to a product or a
//!   parenthesized expression — the compiler emits exactly the expression's
//!   postfix form under the usual precedence and left-associativity, with
//!   `-x` as `0 - x`.
use vstd::prelude::*;
use crate::token::{Lexeme, lex_prec};
use crate::chars::{spec_is_space, spec_is_digit, spec_is_number_char};
use crate::lexer::{spec_tokens, spec_tokens_at, lemma_num_end_is};
use crate::compile::{Step, step_of, apply, run, spec_compile_tokens, spec_compile, prog_safe, prog_depth};

verus! {

/// Whitespace before a token is skipped: tokenization from a whitespace
/// character is tokenization from just past it.
pub proof fn lemma_space_skipped(s: Seq<char>, i: int)
    requires
        0 <= i < s.len(),
        spec_is_space(s[i]),
    ensures
        spec_tokens_at(s, i) == spec_tokens_at(s, i + 1),
{
}

/// The compiled program depends on the input text only through its tokens:
/// two spellings of the same token sequence — in particular, the same
/// expression with whitespace inserted or removed between tokens — compile
/// to the same program.
pub proof fn lemma_whitespace_immaterial(s1: Seq<char>, s2: Seq<char>)
    requires
        spec_tokens(s1) == spec_tokens(s2),
    ensures
        spec_compile(s1) == spec_compile(s2),
{
}

proof fn lemma_blank_tokens(s: Seq<char>, i: int)
    requires
        0 <= i,
        forall|k: int| 0 <= k < s.len() ==> spec_is_space(s[k]),
    ensures
        spec_tokens_at(s, i) =~= Seq::<Lexeme>::empty(),
    decreases s.len() - i,
{
    if i < s.len() {
        lemma_blank_tokens(s, i + 1);
    }
}

/// Empty or whitespace-only input compiles to the empty program, which
/// evaluates to zero.
pub proof fn lemma_blank_input(s: Seq<char>)
    requires
        forall|k: int| 0 <= k < s.len() ==> spec_is_space(s[k]),
    ensures
        spec_compile(s) == Seq::<Step>::empty(),
{
    lemma_blank_tokens(s, 0);
}

/// An arithmetic expression. The grammar the evaluation law quantifies over
/// is the stratified one:
///
/// ```text
/// sum  ::= sum + term | sum - term | term
/// term ::= - prod | prod
/// prod ::= prod * atom | prod / atom | atom
/// atom ::= number | ( sum )
/// ```
///
/// captured by [`wf_sum`]; it yields every spelling in which precedence,
/// left-associativity and parentheses carry their standard meaning, with
/// negation standing where `+ -` operands do.
pub enum Exp {
    Num(Seq<char>),
    Neg(Box<Exp>),
    Add(Box<Exp>, Box<Exp>),
    Sub(Box<Exp>, Box<Exp>),
    Mul(Box<Exp>, Box<Exp>),
    Div(Box<Exp>, Box<Exp>),
    Group(Box<Exp>),
}

pub open spec fn wf_sum(e: Exp) -> bool
    decreases e, 3int,
{
    match e {
        Exp::Add(l, r) => wf_sum(*l) && wf_term(*r),
        Exp::Sub(l, r) => wf_sum(*l) && wf_term(*r),
        _ => wf_term(e),
    }
}

pub open spec fn wf_term(e: Exp) -> bool
    decreases e, 2int,
{
    match e {
        Exp::Neg(m) => wf_prod(*m),
        _ => wf_prod(e),
    }
}

pub open spec fn wf_prod(e: Exp) -> bool
    decreases e, 1int,
{
    match e {
        Exp::Mul(l, r) => wf_prod(*l) && wf_atom(*r),
        Exp::Div(l, r) => wf_prod(*l) && wf_atom(*r),
        _ => wf_atom(e),
    }
}

pub open spec fn wf_atom(e: Exp) -> bool
    decreases e, 0int,
{
    match e {
        Exp::Num(_) => true,
        Exp::Group(i) => wf_sum(*i),
        _ => false,
    }
}

/// The token spelling of an expression, parentheses written where the tree
/// has them.
pub open spec fn toks(e: Exp) -> Seq<Lexeme>
    decreases e,
{
    match e {
        Exp::Num(s) => seq![Lexeme::Number(s)],
        Exp::Neg(m) => seq![Lexeme::Minus] + toks(*m),
        Exp::Add(l, r) => toks(*l) + seq![Lexeme::Plus] + toks(*r),
        Exp::Sub(l, r) => toks(*l) + seq![Lexeme::Minus] + toks(*r),
        Exp::Mul(l, r) => toks(*l) + seq![Lexeme::Multiply] + toks(*r),
        Exp::Div(l, r) => toks(*l) + seq![Lexeme::Divide] + toks(*r),
        Exp::Group(i) => seq![Lexeme::LParen] + toks(*i) + seq![Lexeme::RParen],
    }
}

/// The postfix form of an expression: operands first, the operator after
/// both, negation spelled as zero minus the operand.
pub open spec fn rpn(e: Exp) -> Seq<Step>
    decreases e,
{
    match e {
        Exp::Num(s) => seq![Step::Literal(s)],
        Exp::Neg(m) => seq![Step::Zero] + rpn(*m) + seq![Step::Sub],
        Exp::Add(l, r) => rpn(*l) + rpn(*r) + seq![Step::Add],
        Exp::Sub(l, r) => rpn(*l) + rpn(*r) + seq![Step::Sub],
        Exp::Mul(l, r) => rpn(*l) + rpn(*r) + seq![Step::Mul],
        Exp::Div(l, r) => rpn(*l) + rpn(*r) + seq![Step::Div],
        Exp::Group(i) => rpn(*i),
    }
}

// What the machine emits while reading an expression, and what it leaves
// pending on the operator stack (bottom first), by grammar level. The
// emitted part plus the pending operators, popped top first, make up the
// expression's full postfix form.
spec fn pend_prod(e: Exp) -> Seq<Lexeme> {
    match e {
        Exp::Mul(_, _) => seq![Lexeme::Multiply],
        Exp::Div(_, _) => seq![Lexeme::Divide],
        _ => seq![],
    }
}

spec fn pend_term(e: Exp) -> Seq<Lexeme> {
    match e {
        Exp::Neg(m) => seq![Lexeme::Minus] + pend_prod(*m),
        _ => pend_prod(e),
    }
}

spec fn pend_sum(e: Exp) -> Seq<Lexeme> {
    match e {
        Exp::Add(_, r) => seq![Lexeme::Plus] + pend_term(*r),
        Exp::Sub(_, r) => seq![Lexeme::Minus] + pend_term(*r),
        _ => pend_term(e),
    }
}

spec fn emitted_prod(e: Exp) -> Seq<Step> {
    match e {
        Exp::Mul(l, r) => rpn(*l) + rpn(*r),
        Exp::Div(l, r) => rpn(*l) + rpn(*r),
        _ => rpn(e),
    }
}

spec fn emitted_term(e: Exp) -> Seq<Step> {
    match e {
        Exp::Neg(m) => seq![Step::Zero] + emitted_prod(*m),
        _ => emitted_prod(e),
    }
}

spec fn emitted_sum(e: Exp) -> Seq<Step> {
    match e {
        Exp::Add(l, r) => rpn(*l) + emitted_term(*r),
        Exp::Sub(l, r) => rpn(*l) + emitted_term(*r),
        _ => emitted_term(e),
    }
}

/// The instructions a stack of operators emits when popped top first.
spec fn popped(p: Seq<Lexeme>) -> Seq<Step>
    decreases p.len(),
{
    if p.len() == 0 {
        seq![]
    } else {
        seq![step_of(p.last())] + popped(p.drop_last())
    }
}

/// The precedence of the operator stack's top; zero on an empty stack.
spec fn top_prec(ops: Seq<Lexeme>) -> int {
    if ops.len() == 0 {
        0
    } else {
        lex_prec(ops.last())
    }
}

spec fn is_binop(l: Lexeme) -> bool {
    l is Plus || l is Minus || l is Multiply || l is Divide
}

proof fn lemma_popped_concat(a: Seq<Lexeme>, b: Seq<Lexeme>)
    ensures
        popped(a + b) == popped(b) + popped(a),
    decreases b.len(),
{
    if b.len() == 0 {
        assert(a + b =~= a);
        assert(popped(b) + popped(a) =~= popped(a));
    } else {
        assert((a + b).last() == b.last());
        assert((a + b).drop_last() =~= a + b.drop_last());
        lemma_popped_concat(a, b.drop_last());
        assert(seq![step_of(b.last())] + (popped(b.drop_last()) + popped(a)) =~= (seq![
            step_of(b.last()),
        ] + popped(b.drop_last())) + popped(a));
    }
}

proof fn lemma_popped_single(op: Lexeme)
    ensures
        popped(seq![op]) == seq![step_of(op)],
{
    assert(seq![op].drop_last() =~= Seq::<Lexeme>::empty());
    assert(popped(Seq::<Lexeme>::empty()) =~= Seq::<Step>::empty());
    assert(seq![step_of(op)] + popped(seq![op].drop_last()) =~= seq![step_of(op)]);
}

proof fn lemma_shape_prod(e: Exp)
    requires
        wf_prod(e),
    ensures
        emitted_prod(e) + popped(pend_prod(e)) == rpn(e),
        forall|k: int| 0 <= k < pend_prod(e).len() ==> lex_prec(#[trigger] pend_prod(e)[k]) == 2,
{
    match e {
        Exp::Mul(l, r) => {
            lemma_popped_single(Lexeme::Multiply);
            assert((rpn(*l) + rpn(*r)) + seq![Step::Mul] == rpn(e));
        },
        Exp::Div(l, r) => {
            lemma_popped_single(Lexeme::Divide);
            assert((rpn(*l) + rpn(*r)) + seq![Step::Div] == rpn(e));
        },
        _ => {
            assert(emitted_prod(e) + popped(pend_prod(e)) =~= rpn(e));
        },
    }
}

proof fn lemma_shape_term(e: Exp)
    requires
        wf_term(e),
    ensures
        emitted_term(e) + popped(pend_term(e)) == rpn(e),
        forall|k: int| 0 <= k < pend_term(e).len() ==> 1 <= lex_prec(#[trigger] pend_term(e)[k]) <= 2,
{
    match e {
        Exp::Neg(m) => {
            lemma_shape_prod(*m);
            lemma_popped_concat(seq![Lexeme::Minus], pend_prod(*m));
            lemma_popped_single(Lexeme::Minus);
            assert((seq![Step::Zero] + emitted_prod(*m)) + (popped(pend_prod(*m)) + seq![
                Step::Sub,
            ]) =~= seq![Step::Zero] + (emitted_prod(*m) + popped(pend_prod(*m))) + seq![
                Step::Sub,
            ]);
            assert(seq![Step::Zero] + rpn(*m) + seq![Step::Sub] == rpn(e));
            assert(forall|k: int|
                0 <= k < pend_term(e).len() ==> 1 <= lex_prec(#[trigger] pend_term(e)[k]) <= 2);
        },
        _ => {
            lemma_shape_prod(e);
        },
    }
}

proof fn lemma_shape_sum(e: Exp)
    requires
        wf_sum(e),
    ensures
        emitted_sum(e) + popped(pend_sum(e)) == rpn(e),
        forall|k: int| 0 <= k < pend_sum(e).len() ==> 1 <= lex_prec(#[trigger] pend_sum(e)[k]) <= 2,
{
    match e {
        Exp::Add(l, r) => {
            lemma_shape_term(*r);
            lemma_popped_concat(seq![Lexeme::Plus], pend_term(*r));
            lemma_popped_single(Lexeme::Plus);
            assert((rpn(*l) + emitted_term(*r)) + (popped(pend_term(*r)) + seq![Step::Add]) =~= rpn(
                *l,
            ) + (emitted_term(*r) + popped(pend_term(*r))) + seq![Step::Add]);
            assert(rpn(*l) + rpn(*r) + seq![Step::Add] == rpn(e));
            assert(forall|k: int|
                0 <= k < pend_sum(e).len() ==> 1 <= lex_prec(#[trigger] pend_sum(e)[k]) <= 2);
        },
        Exp::Sub(l, r) => {
            lemma_shape_term(*r);
            lemma_popped_concat(seq![Lexeme::Minus], pend_term(*r));
            lemma_popped_single(Lexeme::Minus);
            assert((rpn(*l) + emitted_term(*r)) + (popped(pend_term(*r)) + seq![Step::Sub]) =~= rpn(
                *l,
            ) + (emitted_term(*r) + popped(pend_term(*r))) + seq![Step::Sub]);
            assert(rpn(*l) + rpn(*r) + seq![Step::Sub] == rpn(e));
            assert(forall|k: int|
                0 <= k < pend_sum(e).len() ==> 1 <= lex_prec(#[trigger] pend_sum(e)[k]) <= 2);
        },
        _ => {
            lemma_shape_term(e);
        },
    }
}

/// An incoming operator of precedence at least as high as everything a
/// pending stack segment holds pops and emits the whole segment, then is
/// pushed.
proof fn lemma_run_flush(
    c: Lexeme,
    p: Seq<Lexeme>,
    ts: Seq<Lexeme>,
    out: Seq<Step>,
    depth: nat,
    ops: Seq<Lexeme>,
)
    requires
        is_binop(c),
        forall|k: int| 0 <= k < p.len() ==> lex_prec(#[trigger] p[k]) >= lex_prec(c),
        top_prec(ops) < lex_prec(c),
        depth >= p.len() + 1,
    ensures
        run(seq![c] + ts, out, depth, ops + p, false) == run(
            ts,
            out + popped(p),
            (depth - p.len()) as nat,
            ops.push(c),
            true,
        ),
    decreases p.len(),
{
    assert((seq![c] + ts)[0] == c);
    assert((seq![c] + ts).drop_first() =~= ts);
    if p.len() == 0 {
        assert(ops + p =~= ops);
        assert(out + popped(p) =~= out);
    } else {
        let q = p.drop_last();
        assert((ops + p).last() == p.last());
        assert((ops + p).drop_last() =~= ops + q);
        lemma_run_flush(c, q, ts, out.push(step_of(p.last())), (depth - 1) as nat, ops);
        assert(out.push(step_of(p.last())) + popped(q) =~= out + (seq![step_of(p.last())] + popped(
            q,
        )));
        assert(popped(p) == seq![step_of(p.last())] + popped(q));
    }
}

/// A close parenthesis pops and emits everything above the matching open
/// parenthesis, then discards it.
proof fn lemma_run_rparen(
    p: Seq<Lexeme>,
    ts: Seq<Lexeme>,
    out: Seq<Step>,
    depth: nat,
    ops: Seq<Lexeme>,
    b: bool,
)
    requires
        forall|k: int| 0 <= k < p.len() ==> lex_prec(#[trigger] p[k]) >= 1,
        depth >= p.len() + 1,
    ensures
        run(seq![Lexeme::RParen] + ts, out, depth, ops.push(Lexeme::LParen) + p, b) == run(
            ts,
            out + popped(p),
            (depth - p.len()) as nat,
            ops,
            false,
        ),
    decreases p.len(),
{
    assert((seq![Lexeme::RParen] + ts)[0] == Lexeme::RParen);
    assert((seq![Lexeme::RParen] + ts).drop_first() =~= ts);
    if p.len() == 0 {
        assert(ops.push(Lexeme::LParen) + p =~= ops.push(Lexeme::LParen));
        assert(ops.push(Lexeme::LParen).drop_last() =~= ops);
        assert(out + popped(p) =~= out);
    } else {
        let q = p.drop_last();
        assert((ops.push(Lexeme::LParen) + p).last() == p.last());
        assert(!(p.last() is LParen));
        assert((ops.push(Lexeme::LParen) + p).drop_last() =~= ops.push(Lexeme::LParen) + q);
        lemma_run_rparen(p.drop_last(), ts, out.push(step_of(p.last())), (depth - 1) as nat, ops, b);
        assert(out.push(step_of(p.last())) + popped(q) =~= out + (seq![step_of(p.last())] + popped(
            q,
        )));
        assert(popped(p) == seq![step_of(p.last())] + popped(q));
    }
}

/// Running out of tokens pops and emits every operator still pending.
proof fn lemma_run_drain(p: Seq<Lexeme>, out: Seq<Step>, depth: nat, b: bool)
    requires
        depth >= p.len() + 1,
    ensures
        run(Seq::<Lexeme>::empty(), out, depth, p, b) == out + popped(p),
    decreases p.len(),
{
    if p.len() == 0 {
        assert(out + popped(p) =~= out);
    } else {
        lemma_run_drain(p.drop_last(), out.push(step_of(p.last())), (depth - 1) as nat, b);
        assert(out.push(step_of(p.last())) + popped(p.drop_last()) =~= out + (seq![
            step_of(p.last()),
        ] + popped(p.drop_last())));
        assert(popped(p) == seq![step_of(p.last())] + popped(p.drop_last()));
    }
}

proof fn lemma_run_atom(
    e: Exp,
    ts: Seq<Lexeme>,
    out: Seq<Step>,
    depth: nat,
    ops: Seq<Lexeme>,
    b: bool,
)
    requires
        wf_atom(e),
    ensures
        run(toks(e) + ts, out, depth, ops, b) == run(ts, out + rpn(e), depth + 1, ops, false),
    decreases e, 0int,
{
    match e {
        Exp::Num(s) => {
            assert((toks(e) + ts)[0] == Lexeme::Number(s));
            assert((toks(e) + ts).drop_first() =~= ts);
            assert(out.push(Step::Literal(s)) =~= out + rpn(e));
        },
        Exp::Group(i) => {
            let mid = toks(*i) + (seq![Lexeme::RParen] + ts);
            assert(toks(e) + ts =~= seq![Lexeme::LParen] + mid);
            assert((seq![Lexeme::LParen] + mid)[0] == Lexeme::LParen);
            assert((seq![Lexeme::LParen] + mid).drop_first() =~= mid);
            lemma_run_sum(*i, seq![Lexeme::RParen] + ts, out, depth, ops.push(Lexeme::LParen));
            lemma_shape_sum(*i);
            lemma_run_rparen(
                pend_sum(*i),
                ts,
                out + emitted_sum(*i),
                depth + 1 + pend_sum(*i).len(),
                ops,
                false,
            );
            assert((out + emitted_sum(*i)) + popped(pend_sum(*i)) =~= out + (emitted_sum(*i)
                + popped(pend_sum(*i))));
        },
        _ => {},
    }
}

proof fn lemma_run_prod(
    e: Exp,
    ts: Seq<Lexeme>,
    out: Seq<Step>,
    depth: nat,
    ops: Seq<Lexeme>,
    b: bool,
)
    requires
        wf_prod(e),
        top_prec(ops) <= 1,
    ensures
        run(toks(e) + ts, out, depth, ops, b) == run(
            ts,
            out + emitted_prod(e),
            depth + 1 + pend_prod(e).len(),
            ops + pend_prod(e),
            false,
        ),
    decreases e, 1int,
{
    match e {
        Exp::Mul(l, r) => {
            lemma_run_prod_step(e, *l, *r, Lexeme::Multiply, ts, out, depth, ops, b);
            assert(ops + pend_prod(e) =~= ops.push(Lexeme::Multiply));
        },
        Exp::Div(l, r) => {
            lemma_run_prod_step(e, *l, *r, Lexeme::Divide, ts, out, depth, ops, b);
            assert(ops + pend_prod(e) =~= ops.push(Lexeme::Divide));
        },
        _ => {
            lemma_run_atom(e, ts, out, depth, ops, b);
            assert(ops + pend_prod(e) =~= ops);
            assert(out + emitted_prod(e) == out + rpn(e));
        },
    }
}

/// The shared step for both `prod` operators.
proof fn lemma_run_prod_step(
    e: Exp,
    l: Exp,
    r: Exp,
    c: Lexeme,
    ts: Seq<Lexeme>,
    out: Seq<Step>,
    depth: nat,
    ops: Seq<Lexeme>,
    b: bool,
)
    requires
        top_prec(ops) <= 1,
        e == Exp::Mul(Box::new(l), Box::new(r)) && c == Lexeme::Multiply || e == Exp::Div(
            Box::new(l),
            Box::new(r),
        ) && c == Lexeme::Divide,
        wf_prod(l),
        wf_atom(r),
    ensures
        run(toks(e) + ts, out, depth, ops, b) == run(
            ts,
            out + emitted_prod(e),
            depth + 2,
            ops.push(c),
            false,
        ),
    decreases e, 0int,
{
    let after = toks(r) + ts;
    assert(toks(e) + ts =~= toks(l) + (seq![c] + after));
    lemma_run_prod(l, seq![c] + after, out, depth, ops, b);
    lemma_shape_prod(l);
    lemma_run_flush(c, pend_prod(l), after, out + emitted_prod(l), depth + 1 + pend_prod(l).len(), ops);
    assert((out + emitted_prod(l)) + popped(pend_prod(l)) =~= out + (emitted_prod(l) + popped(
        pend_prod(l),
    )));
    lemma_run_atom(r, ts, out + rpn(l), depth + 1, ops.push(c), true);
    assert((out + rpn(l)) + rpn(r) =~= out + (rpn(l) + rpn(r)));
}

proof fn lemma_run_term(
    e: Exp,
    ts: Seq<Lexeme>,
    out: Seq<Step>,
    depth: nat,
    ops: Seq<Lexeme>,
    b: bool,
)
    requires
        wf_term(e),
        top_prec(ops) <= 1,
        e is Neg ==> b,
    ensures
        run(toks(e) + ts, out, depth, ops, b) == run(
            ts,
            out + emitted_term(e),
            depth + 1 + pend_term(e).len(),
            ops + pend_term(e),
            false,
        ),
    decreases e, 2int,
{
    match e {
        Exp::Neg(m) => {
            let inner = toks(*m) + ts;
            assert(toks(e) + ts =~= seq![Lexeme::Minus] + inner);
            assert((seq![Lexeme::Minus] + inner)[0] == Lexeme::Minus);
            assert((seq![Lexeme::Minus] + inner).drop_first() =~= inner);
            lemma_run_prod(*m, ts, out.push(Step::Zero), depth + 1, ops.push(Lexeme::Minus), false);
            assert(out.push(Step::Zero) + emitted_prod(*m) =~= out + (seq![Step::Zero]
                + emitted_prod(*m)));
            assert(ops.push(Lexeme::Minus) + pend_prod(*m) =~= ops + (seq![Lexeme::Minus]
                + pend_prod(*m)));
        },
        _ => {
            lemma_run_prod(e, ts, out, depth, ops, b);
        },
    }
}

proof fn lemma_run_sum(e: Exp, ts: Seq<Lexeme>, out: Seq<Step>, depth: nat, ops: Seq<Lexeme>)
    requires
        wf_sum(e),
        top_prec(ops) == 0,
    ensures
        run(toks(e) + ts, out, depth, ops, true) == run(
            ts,
            out + emitted_sum(e),
            depth + 1 + pend_sum(e).len(),
            ops + pend_sum(e),
            false,
        ),
    decreases e, 3int,
{
    match e {
        Exp::Add(l, r) => {
            lemma_run_sum_step(e, *l, *r, Lexeme::Plus, ts, out, depth, ops);
            assert(ops + pend_sum(e) =~= ops.push(Lexeme::Plus) + pend_term(*r));
        },
        Exp::Sub(l, r) => {
            lemma_run_sum_step(e, *l, *r, Lexeme::Minus, ts, out, depth, ops);
            assert(ops + pend_sum(e) =~= ops.push(Lexeme::Minus) + pend_term(*r));
        },
        _ => {
            lemma_run_term(e, ts, out, depth, ops, true);
        },
    }
}

/// The shared step for both `sum` operators.
proof fn lemma_run_sum_step(
    e: Exp,
    l: Exp,
    r: Exp,
    c: Lexeme,
    ts: Seq<Lexeme>,
    out: Seq<Step>,
    depth: nat,
    ops: Seq<Lexeme>,
)
    requires
        top_prec(ops) == 0,
        e == Exp::Add(Box::new(l), Box::new(r)) && c == Lexeme::Plus || e == Exp::Sub(
            Box::new(l),
            Box::new(r),
        ) && c == Lexeme::Minus,
        wf_sum(l),
        wf_term(r),
    ensures
        run(toks(e) + ts, out, depth, ops, true) == run(
            ts,
            out + (rpn(l) + emitted_term(r)),
            depth + 2 + pend_term(r).len(),
            ops.push(c) + pend_term(r),
            false,
        ),
    decreases e, 2int,
{
    let after = toks(r) + ts;
    assert(toks(e) + ts =~= toks(l) + (seq![c] + after));
    lemma_run_sum(l, seq![c] + after, out, depth, ops);
    lemma_shape_sum(l);
    lemma_run_flush(c, pend_sum(l), after, out + emitted_sum(l), depth + 1 + pend_sum(l).len(), ops);
    assert((out + emitted_sum(l)) + popped(pend_sum(l)) =~= out + (emitted_sum(l) + popped(
        pend_sum(l),
    )));
    lemma_run_term(r, ts, out + rpn(l), depth + 1, ops.push(c), true);
    assert((out + rpn(l)) + emitted_term(r) =~= out + (rpn(l) + emitted_term(r)));
}

/// THE evaluation law: every well-formed expression — numbers, the four
/// operators at their usual precedence and left-associativity, balanced
/// parentheses, negation where an operand of `+ -` stands — compiles to
/// exactly its postfix form. Running that form on a stack of numbers is
/// standard arithmetic evaluation, so the pass computes the standard value.
pub proof fn lemma_standard_evaluation(e: Exp)
    requires
        wf_sum(e),
    ensures
        spec_compile_tokens(toks(e)) == rpn(e),
{
    assert(toks(e) + Seq::<Lexeme>::empty() =~= toks(e));
    assert(top_prec(Seq::<Lexeme>::empty()) == 0);
    lemma_run_sum(e, Seq::<Lexeme>::empty(), Seq::<Step>::empty(), 0, Seq::<Lexeme>::empty());
    lemma_shape_sum(e);
    assert(Seq::<Lexeme>::empty() + pend_sum(e) =~= pend_sum(e));
    assert(Seq::<Step>::empty() + emitted_sum(e) =~= emitted_sum(e));
    lemma_run_drain(pend_sum(e), emitted_sum(e), (1 + pend_sum(e).len()) as nat, false);
}

/// The evaluation law carried back to input text: an input line that
/// tokenizes to the spelling of a well-formed expression compiles to the
/// expression's postfix form.
pub proof fn lemma_standard_evaluation_text(s: Seq<char>, e: Exp)
    requires
        wf_sum(e),
        spec_tokens(s) == toks(e),
    ensures
        spec_compile(s) == rpn(e),
{
    lemma_standard_evaluation(e);
}

/// The text a token is spelled with.
pub open spec fn lexeme_text(l: Lexeme) -> Seq<char> {
    match l {
        Lexeme::Number(s) => s,
        Lexeme::Plus => seq!['+'],
        Lexeme::Minus => seq!['-'],
        Lexeme::Multiply => seq!['*'],
        Lexeme::Divide => seq!['/'],
        Lexeme::LParen => seq!['('],
        Lexeme::RParen => seq![')'],
        Lexeme::Eof => seq![],
    }
}

/// A token the lexer can actually produce: a number is a nonempty digit-led
/// run of digits and `.`; the end marker is no token.
pub open spec fn valid_lexeme(l: Lexeme) -> bool {
    match l {
        Lexeme::Number(s) => s.len() >= 1 && spec_is_digit(s[0]) && forall|k: int|
            0 <= k < s.len() ==> spec_is_number_char(#[trigger] s[k]),
        Lexeme::Eof => false,
        _ => true,
    }
}

pub open spec fn all_space(w: Seq<char>) -> bool {
    forall|k: int| 0 <= k < w.len() ==> spec_is_space(#[trigger] w[k])
}

/// The spelling of a token sequence with a chosen run of whitespace before,
/// between and after the tokens: `gaps[k]` stands before `ls[k]`, and the
/// last gap closes the line.
pub open spec fn spaced(ls: Seq<Lexeme>, gaps: Seq<Seq<char>>) -> Seq<char>
    decreases ls.len(),
{
    if ls.len() == 0 {
        if gaps.len() > 0 {
            gaps[0]
        } else {
            seq![]
        }
    } else {
        gaps[0] + lexeme_text(ls[0]) + spaced(ls.drop_first(), gaps.drop_first())
    }
}

/// A legal choice of whitespace for a token sequence: one gap around every
/// token, each gap all whitespace, and at least one whitespace character
/// between two adjacent numbers, which would otherwise scan as one.
pub open spec fn spaceable(ls: Seq<Lexeme>, gaps: Seq<Seq<char>>) -> bool {
    &&& gaps.len() == ls.len() + 1
    &&& forall|k: int| 0 <= k < ls.len() ==> valid_lexeme(#[trigger] ls[k])
    &&& forall|k: int| 0 <= k < gaps.len() ==> all_space(#[trigger] gaps[k])
    &&& forall|k: int|
        #![trigger ls[k], ls[k + 1]]
        0 <= k < ls.len() - 1 && ls[k] is Number && ls[k + 1] is Number ==> gaps[k + 1].len() > 0
}

proof fn lemma_ws_run(s: Seq<char>, i: int, j: int)
    requires
        0 <= i <= j <= s.len(),
        forall|k: int| i <= k < j ==> spec_is_space(#[trigger] s[k]),
    ensures
        spec_tokens_at(s, i) == spec_tokens_at(s, j),
    decreases j - i,
{
    if i < j {
        lemma_ws_run(s, i + 1, j);
    }
}

proof fn lemma_number_step(s: Seq<char>, i: int, j: int)
    requires
        0 <= i < j <= s.len(),
        spec_is_digit(s[i]),
        forall|k: int| i <= k < j ==> spec_is_number_char(#[trigger] s[k]),
        j == s.len() || !spec_is_number_char(s[j]),
    ensures
        spec_tokens_at(s, i) == seq![Lexeme::Number(s.subrange(i, j))] + spec_tokens_at(s, j),
{
    lemma_num_end_is(s, i + 1, j);
}

/// A whitespace spelling of a token sequence tokenizes to exactly that
/// sequence, from position `i` of a string whose tail it is.
#[verifier::rlimit(60)]
proof fn lemma_spaced_tokens_at(s: Seq<char>, i: int, ls: Seq<Lexeme>, gaps: Seq<Seq<char>>)
    requires
        0 <= i <= s.len(),
        s.subrange(i, s.len() as int) == spaced(ls, gaps),
        spaceable(ls, gaps),
    ensures
        spec_tokens_at(s, i) == ls,
    decreases ls.len(),
{
    let tail = s.subrange(i, s.len() as int);
    if ls.len() == 0 {
        let g = gaps[0];
        assert(all_space(g));
        assert(tail == g);
        assert(forall|k: int| i <= k < s.len() ==> spec_is_space(#[trigger] s[k])) by {
            assert(forall|k: int|
                i <= k < s.len() ==> #[trigger] s[k] == tail[k - i] && spec_is_space(g[k - i]));
        }
        lemma_ws_run(s, i, s.len() as int);
        assert(spec_tokens_at(s, i) =~= ls);
    } else {
        let g = gaps[0];
        let t = lexeme_text(ls[0]);
        let ls2 = ls.drop_first();
        let gaps2 = gaps.drop_first();
        let rest = spaced(ls2, gaps2);
        assert(all_space(g));
        assert(valid_lexeme(ls[0]));
        assert(tail == g + t + rest);
        assert(tail.len() == g.len() + t.len() + rest.len());
        let a = i + g.len();
        let e = a + t.len();
        assert(forall|k: int| i <= k < s.len() ==> #[trigger] s[k] == tail[k - i]);
        assert(forall|k: int| i <= k < a ==> #[trigger] tail[k - i] == g[k - i]);
        assert(forall|k: int| a <= k < e ==> #[trigger] tail[k - i] == t[k - a]);
        assert(forall|k: int| e <= k < s.len() ==> #[trigger] tail[k - i] == rest[k - e]);
        assert(forall|k: int| i <= k < a ==> spec_is_space(#[trigger] s[k])) by {
            assert(forall|k: int| i <= k < a ==> #[trigger] s[k] == g[k - i]);
        }
        lemma_ws_run(s, i, a);
        assert(forall|k: int| a <= k < e ==> #[trigger] s[k] == t[k - a]);
        match ls[0] {
            Lexeme::Number(lit) => {
                // The spelling of what follows starts with whitespace, an
                // operator or a parenthesis, or the input ends: nothing that
                // could extend the number's run past `e`. Two adjacent
                // numbers are ruled out by `spaceable` unless whitespace
                // stands between them.
                assert(e == s.len() || !spec_is_number_char(s[e])) by {
                    if e < s.len() {
                        assert(s[e] == rest[0]);
                        assert(gaps2[0] == gaps[1]);
                        if gaps[1].len() > 0 {
                            if ls2.len() == 0 {
                                assert(rest == gaps2[0]);
                            } else {
                                assert(rest == gaps2[0] + lexeme_text(ls2[0]) + spaced(
                                    ls2.drop_first(),
                                    gaps2.drop_first(),
                                ));
                            }
                            assert(rest[0] == gaps[1][0]);
                            assert(all_space(gaps[1]));
                            assert(spec_is_space(rest[0]));
                            assert(!spec_is_number_char(rest[0]));
                        } else {
                            if ls2.len() == 0 {
                                assert(rest == gaps2[0]);
                                assert(rest.len() == 0);
                                assert(false);
                            }
                            assert(rest == gaps2[0] + lexeme_text(ls2[0]) + spaced(
                                ls2.drop_first(),
                                gaps2.drop_first(),
                            ));
                            assert(ls2[0] == ls[1]);
                            assert(valid_lexeme(ls[1]));
                            assert(!(ls2[0] is Number));
                            assert(lexeme_text(ls2[0]).len() > 0);
                            assert(rest[0] == lexeme_text(ls2[0])[0]);
                            assert(!spec_is_number_char(rest[0]));
                        }
                    }
                }
                assert(forall|k: int| a <= k < e ==> spec_is_number_char(#[trigger] s[k]));
                lemma_number_step(s, a, e);
                assert(s.subrange(a, e) =~= lit);
            },
            _ => {
                assert(s[a] == t[0]);
            },
        }
        assert(s.subrange(e, s.len() as int) =~= rest);
        lemma_spaced_tokens_at(s, e, ls2, gaps2);
        assert(seq![ls[0]] + ls2 =~= ls);
    }
}

/// A whitespace spelling of a token sequence tokenizes to exactly that
/// sequence.
pub proof fn lemma_spaced_tokens(ls: Seq<Lexeme>, gaps: Seq<Seq<char>>)
    requires
        spaceable(ls, gaps),
    ensures
        spec_tokens(spaced(ls, gaps)) == ls,
{
    let s = spaced(ls, gaps);
    assert(s.subrange(0, s.len() as int) =~= s);
    lemma_spaced_tokens_at(s, 0, ls, gaps);
}

/// Idempotence of whitespace: one token sequence, two choices of whitespace
/// before, between and after its tokens — the same compiled program either
/// way, hence the same value.
pub proof fn lemma_whitespace_choice(
    ls: Seq<Lexeme>,
    gaps1: Seq<Seq<char>>,
    gaps2: Seq<Seq<char>>,
)
    requires
        spaceable(ls, gaps1),
        spaceable(ls, gaps2),
    ensures
        spec_compile(spaced(ls, gaps1)) == spec_compile(spaced(ls, gaps2)),
{
    lemma_spaced_tokens(ls, gaps1);
    lemma_spaced_tokens(ls, gaps2);
}

proof fn lemma_safe_push_operand(p: Seq<Step>, d: nat, x: Step)
    requires
        x is Literal || x is Zero,
    ensures
        prog_safe(p.push(x), d) == prog_safe(p, d),
        prog_depth(p.push(x), d) == prog_depth(p, d) + 1,
    decreases p.len(),
{
    if p.len() == 0 {
        assert(p.push(x)[0] == x);
        assert(p.push(x).drop_first() =~= Seq::<Step>::empty());
        assert(prog_safe(Seq::<Step>::empty(), d + 1));
        assert(prog_depth(Seq::<Step>::empty(), d + 1) == d + 1);
    } else {
        assert(p.push(x)[0] == p[0]);
        assert(p.push(x).drop_first() =~= p.drop_first().push(x));
        match p[0] {
            Step::Literal(_) => lemma_safe_push_operand(p.drop_first(), d + 1, x),
            Step::Zero => lemma_safe_push_operand(p.drop_first(), d + 1, x),
            _ => {
                if d >= 2 {
                    lemma_safe_push_operand(p.drop_first(), (d - 1) as nat, x);
                } else {
                    lemma_safe_push_operand(p.drop_first(), d, x);
                }
            },
        }
    }
}

proof fn lemma_safe_push_op(p: Seq<Step>, d: nat, x: Step)
    requires
        !(x is Literal),
        !(x is Zero),
    ensures
        prog_safe(p.push(x), d) == (prog_safe(p, d) && prog_depth(p, d) >= 2),
        prog_depth(p.push(x), d) == (if prog_depth(p, d) >= 2 {
            (prog_depth(p, d) - 1) as nat
        } else {
            prog_depth(p, d)
        }),
    decreases p.len(),
{
    if p.len() == 0 {
        assert(p.push(x)[0] == x);
        assert(p.push(x).drop_first() =~= Seq::<Step>::empty());
        if d >= 2 {
            assert(prog_safe(Seq::<Step>::empty(), (d - 1) as nat));
            assert(prog_depth(Seq::<Step>::empty(), (d - 1) as nat) == d - 1);
        } else {
            assert(prog_depth(Seq::<Step>::empty(), d) == d);
        }
    } else {
        assert(p.push(x)[0] == p[0]);
        assert(p.push(x).drop_first() =~= p.drop_first().push(x));
        match p[0] {
            Step::Literal(_) => lemma_safe_push_op(p.drop_first(), d + 1, x),
            Step::Zero => lemma_safe_push_op(p.drop_first(), d + 1, x),
            _ => {
                if d >= 2 {
                    lemma_safe_push_op(p.drop_first(), (d - 1) as nat, x);
                } else {
                    lemma_safe_push_op(p.drop_first(), d, x);
                }
            },
        }
    }
}

proof fn lemma_run_safe(ts: Seq<Lexeme>, out: Seq<Step>, depth: nat, ops: Seq<Lexeme>, b: bool)
    requires
        prog_safe(out, 0),
        prog_depth(out, 0) == depth,
    ensures
        prog_safe(run(ts, out, depth, ops, b), 0),
    decreases ts.len(), ops.len(),
{
    if ts.len() == 0 {
        if ops.len() == 0 {
        } else {
            let applied = apply(out, depth, ops.last());
            if depth >= 2 {
                lemma_safe_push_op(out, 0, step_of(ops.last()));
            }
            lemma_run_safe(ts, applied.0, applied.1, ops.drop_last(), b);
        }
    } else {
        let t = ts[0];
        let rest = ts.drop_first();
        match t {
            Lexeme::Number(lit) => {
                lemma_safe_push_operand(out, 0, Step::Literal(lit));
                lemma_run_safe(rest, out.push(Step::Literal(lit)), depth + 1, ops, false);
            },
            Lexeme::LParen => {
                lemma_run_safe(rest, out, depth, ops.push(Lexeme::LParen), true);
            },
            Lexeme::RParen => {
                if ops.len() == 0 {
                    lemma_run_safe(rest, out, depth, ops, false);
                } else if ops.last() is LParen {
                    lemma_run_safe(rest, out, depth, ops.drop_last(), false);
                } else {
                    let applied = apply(out, depth, ops.last());
                    if depth >= 2 {
                        lemma_safe_push_op(out, 0, step_of(ops.last()));
                    }
                    lemma_run_safe(ts, applied.0, applied.1, ops.drop_last(), b);
                }
            },
            Lexeme::Eof => {
                lemma_run_safe(Seq::<Lexeme>::empty(), out, depth, ops, b);
            },
            _ => {
                if t is Minus && b {
                    lemma_safe_push_operand(out, 0, Step::Zero);
                    lemma_run_safe(
                        rest,
                        out.push(Step::Zero),
                        depth + 1,
                        ops.push(Lexeme::Minus),
                        false,
                    );
                } else if ops.len() > 0 && lex_prec(ops.last()) >= lex_prec(t) {
                    let applied = apply(out, depth, ops.last());
                    if depth >= 2 {
                        lemma_safe_push_op(out, 0, step_of(ops.last()));
                    }
                    lemma_run_safe(ts, applied.0, applied.1, ops.drop_last(), b);
                } else {
                    lemma_run_safe(rest, out, depth, ops.push(t), true);
                }
            },
        }
    }
}

/// Every compiled program is safe: run from an empty operand stack, its
/// arithmetic instructions always find the two operands they pop, so an
/// interpreter of compiled programs never underflows its stack.
pub proof fn lemma_compile_safe(s: Seq<char>)
    ensures
        prog_safe(spec_compile(s), 0),
{
    lemma_run_safe(spec_tokens(s), Seq::<Step>::empty(), 0, Seq::<Lexeme>::empty(), true);
}

} // verus!
