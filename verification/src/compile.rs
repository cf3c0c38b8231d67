//! The evaluator core: a single left-to-right pass of the shunting-yard
//! algorithm over the token stream, with unary minus rewritten to a
//! subtraction from zero.
//!
//! The pass is compiled rather than computed: where a direct two-stack
//! evaluation would push a number or apply an operator to the two topmost
//! operands, [`compile`] emits one postfix [`Instr`] and tracks how deep the
//! operand stack would be. Running the resulting program on a stack of
//! machine numbers therefore performs exactly the evaluation the algorithm
//! describes, while everything up to that arithmetic is verified here.
use vstd::prelude::*;
use vstd::string::StrSliceExecFns;
use crate::token::{Token, Lexeme, lex_prec};
use crate::lexer::{Lexer, spec_tokens};

verus! {

/// One instruction of a compiled program, interpreted over a stack of
/// numbers:
/// - `Literal(s)`: push the number the text `s` denotes (zero when `s` does
///   not parse);
/// - `Zero`: push zero (the implicit operand of a unary minus);
/// - `Add`, `Sub`, `Mul`, `Div`: pop the right then the left operand and push
///   `left op right`;
/// - `Paren`: pop two operands and push zero. It is emitted only when an
///   unmatched open parenthesis is drained from the operator stack over two
///   pending operands, the algorithm's silent fallback for that malformed
///   input.
///
/// An arithmetic instruction is emitted only where at least two operands are
/// pending, so running a compiled program never underflows its stack.
#[derive(Debug, Clone, PartialEq)]
pub enum Instr {
    Literal(String),
    Zero,
    Add,
    Sub,
    Mul,
    Div,
    Paren,
}

/// The mathematical view of an instruction.
pub enum Step {
    Literal(Seq<char>),
    Zero,
    Add,
    Sub,
    Mul,
    Div,
    Paren,
}

impl View for Instr {
    type V = Step;

    open spec fn view(&self) -> Step {
        match self {
            Instr::Literal(s) => Step::Literal(s@),
            Instr::Zero => Step::Zero,
            Instr::Add => Step::Add,
            Instr::Sub => Step::Sub,
            Instr::Mul => Step::Mul,
            Instr::Div => Step::Div,
            Instr::Paren => Step::Paren,
        }
    }
}

pub open spec fn prog_view(p: Seq<Instr>) -> Seq<Step> {
    p.map_values(|i: Instr| i@)
}

pub open spec fn ops_view(v: Seq<Token>) -> Seq<Lexeme> {
    v.map_values(|t: Token| t@)
}

/// The instruction a popped operator emits. Anything other than the four
/// arithmetic operators (only an open parenthesis can actually rest on the
/// operator stack) collapses its operands to zero.
pub open spec fn step_of(op: Lexeme) -> Step {
    match op {
        Lexeme::Plus => Step::Add,
        Lexeme::Minus => Step::Sub,
        Lexeme::Multiply => Step::Mul,
        Lexeme::Divide => Step::Div,
        _ => Step::Paren,
    }
}

/// Applying an operator popped off the operator stack: with two pending
/// operands it emits the operator's instruction, which nets one operand
/// away; with fewer it is a no-op and the operator is simply discarded.
pub open spec fn apply(out: Seq<Step>, depth: nat, op: Lexeme) -> (Seq<Step>, nat) {
    if depth >= 2 {
        (out.push(step_of(op)), (depth - 1) as nat)
    } else {
        (out, depth)
    }
}

/// The shunting-yard pass itself, one small step at a time, over the pending
/// token sequence `ts`, the program emitted so far `out`, the operand stack
/// depth `depth`, the operator stack `ops` and the unary-minus flag
/// `expects_operand`; the result is the complete emitted program.
///
/// - A number is emitted directly.
/// - An open parenthesis is pushed onto the operator stack.
/// - A close parenthesis applies operators until an open parenthesis is
///   uncovered, which is then discarded; an empty stack is tolerated.
/// - A minus where an operand is expected pushes an implicit zero operand
///   and itself, turning `-x` into `0 - x`.
/// - Any other operator first applies every stacked operator of at least its
///   own precedence (equal precedence is applied, which makes every operator
///   left-associative), then is pushed.
/// - An end marker, or running out of tokens, applies whatever operators are
///   left, open parentheses included.
pub open spec fn run(
    ts: Seq<Lexeme>,
    out: Seq<Step>,
    depth: nat,
    ops: Seq<Lexeme>,
    expects_operand: bool,
) -> Seq<Step>
    decreases ts.len(), ops.len(),
{
    if ts.len() == 0 {
        if ops.len() == 0 {
            out
        } else {
            let applied = apply(out, depth, ops.last());
            run(ts, applied.0, applied.1, ops.drop_last(), expects_operand)
        }
    } else {
        let t = ts[0];
        let rest = ts.drop_first();
        match t {
            Lexeme::Number(lit) => run(rest, out.push(Step::Literal(lit)), depth + 1, ops, false),
            Lexeme::LParen => run(rest, out, depth, ops.push(Lexeme::LParen), true),
            Lexeme::RParen => {
                if ops.len() == 0 {
                    run(rest, out, depth, ops, false)
                } else if ops.last() is LParen {
                    run(rest, out, depth, ops.drop_last(), false)
                } else {
                    let applied = apply(out, depth, ops.last());
                    run(ts, applied.0, applied.1, ops.drop_last(), expects_operand)
                }
            },
            Lexeme::Eof => run(Seq::<Lexeme>::empty(), out, depth, ops, expects_operand),
            _ => {
                if t is Minus && expects_operand {
                    run(rest, out.push(Step::Zero), depth + 1, ops.push(Lexeme::Minus), false)
                } else if ops.len() > 0 && lex_prec(ops.last()) >= lex_prec(t) {
                    let applied = apply(out, depth, ops.last());
                    run(ts, applied.0, applied.1, ops.drop_last(), expects_operand)
                } else {
                    run(rest, out, depth, ops.push(t), true)
                }
            },
        }
    }
}

/// Whether a program can run on a stack of `d` pending operands without
/// ever popping an empty stack: every arithmetic instruction stands where
/// at least two operands are pending.
pub open spec fn prog_safe(p: Seq<Step>, d: nat) -> bool
    decreases p.len(),
{
    if p.len() == 0 {
        true
    } else {
        match p[0] {
            Step::Literal(_) => prog_safe(p.drop_first(), d + 1),
            Step::Zero => prog_safe(p.drop_first(), d + 1),
            _ => d >= 2 && prog_safe(p.drop_first(), (d - 1) as nat),
        }
    }
}

/// The operand stack depth after running a program from `d` pending
/// operands (an arithmetic instruction without its two operands counts as
/// the no-op it would be).
pub open spec fn prog_depth(p: Seq<Step>, d: nat) -> nat
    decreases p.len(),
{
    if p.len() == 0 {
        d
    } else {
        match p[0] {
            Step::Literal(_) => prog_depth(p.drop_first(), d + 1),
            Step::Zero => prog_depth(p.drop_first(), d + 1),
            _ => prog_depth(p.drop_first(), if d >= 2 { (d - 1) as nat } else { d }),
        }
    }
}

/// The program a token sequence compiles to.
pub open spec fn spec_compile_tokens(ts: Seq<Lexeme>) -> Seq<Step> {
    run(ts, seq![], 0, seq![], true)
}

/// The program an input line compiles to.
pub open spec fn spec_compile(s: Seq<char>) -> Seq<Step> {
    spec_compile_tokens(spec_tokens(s))
}

pub proof fn lemma_prog_view_push(p: Seq<Instr>, x: Instr)
    ensures
        prog_view(p.push(x)) == prog_view(p).push(x@),
{
    assert(prog_view(p.push(x)) =~= prog_view(p).push(x@));
}

pub proof fn lemma_ops_view_push(v: Seq<Token>, t: Token)
    ensures
        ops_view(v.push(t)) == ops_view(v).push(t@),
{
    assert(ops_view(v.push(t)) =~= ops_view(v).push(t@));
}

pub proof fn lemma_ops_view_pop(v: Seq<Token>)
    requires
        v.len() > 0,
    ensures
        ops_view(v).len() == v.len(),
        ops_view(v.drop_last()) == ops_view(v).drop_last(),
        ops_view(v).last() == v.last()@,
{
    assert(ops_view(v.drop_last()) =~= ops_view(v).drop_last());
}

/// The precedence an operator token binds with; see [`lex_prec`].
pub fn precedence(op: &Token) -> (p: i32)
    ensures
        p as int == lex_prec(op@),
{
    match op {
        Token::Plus | Token::Minus => 1,
        Token::Multiply | Token::Divide => 2,
        _ => 0,
    }
}

/// Applies one operator the caller has popped off the operator stack: emits
/// its instruction when two operands are pending, otherwise discards it.
fn apply_op(op: Token, depth: &mut usize, out: &mut Vec<Instr>)
    ensures
        prog_view(final(out)@) == apply(prog_view(old(out)@), *old(depth) as nat, op@).0,
        *final(depth) as nat == apply(prog_view(old(out)@), *old(depth) as nat, op@).1,
{
    if *depth >= 2 {
        let instr = match op {
            Token::Plus => Instr::Add,
            Token::Minus => Instr::Sub,
            Token::Multiply => Instr::Mul,
            Token::Divide => Instr::Div,
            _ => Instr::Paren,
        };
        proof {
            lemma_prog_view_push(out@, instr);
        }
        out.push(instr);
        *depth = *depth - 1;
    }
}

/// Compiles one line of text to its postfix program: the exact sequence of
/// stack operations that the single-pass shunting-yard evaluation of the
/// line performs. Running the program on an empty stack of numbers and
/// taking the topmost value (zero when none is left) yields the line's
/// value.
pub fn compile(input: &str) -> (program: Vec<Instr>)
    ensures
        prog_view(program@) == spec_compile(input@),
{
    let n = input.unicode_len();
    let mut lexer = Lexer::new(input);
    let mut out: Vec<Instr> = Vec::new();
    let mut depth: usize = 0;
    let mut ops: Vec<Token> = Vec::new();
    let mut expects_operand = true;
    proof {
        assert(prog_view(out@) =~= Seq::<Step>::empty());
        assert(ops_view(ops@) =~= Seq::<Lexeme>::empty());
    }
    loop
        invariant_except_break
            run(
                lexer.remaining(),
                prog_view(out@),
                depth as nat,
                ops_view(ops@),
                expects_operand,
            ) == spec_compile(input@),
        invariant
            lexer.wf(),
            lexer.input@ == input@,
            n as nat == input@.len(),
            depth <= lexer.pos,
        ensures
            run(
                Seq::<Lexeme>::empty(),
                prog_view(out@),
                depth as nat,
                ops_view(ops@),
                expects_operand,
            ) == spec_compile(input@),
        decreases input@.len() - lexer.pos,
    {
        let token = lexer.next_token();
        let ghost tv = token@;
        proof {
            if !(tv is Eof) {
                assert((seq![tv] + lexer.remaining()).drop_first() =~= lexer.remaining());
                assert((seq![tv] + lexer.remaining())[0] == tv);
            }
        }
        match token {
            Token::Eof => {
                break ;
            },
            Token::Number(lit) => {
                proof {
                    lemma_prog_view_push(out@, Instr::Literal(lit));
                }
                out.push(Instr::Literal(lit));
                depth = depth + 1;
                expects_operand = false;
            },
            Token::LParen => {
                proof {
                    lemma_ops_view_push(ops@, Token::LParen);
                }
                ops.push(Token::LParen);
                expects_operand = true;
            },
            Token::RParen => {
                loop
                    invariant_except_break
                        run(
                            seq![Lexeme::RParen] + lexer.remaining(),
                            prog_view(out@),
                            depth as nat,
                            ops_view(ops@),
                            expects_operand,
                        ) == spec_compile(input@),
                    invariant
                        depth <= lexer.pos,
                    ensures
                        depth <= lexer.pos,
                        run(
                            lexer.remaining(),
                            prog_view(out@),
                            depth as nat,
                            ops_view(ops@),
                            false,
                        ) == spec_compile(input@),
                    decreases ops.len(),
                {
                    proof {
                        assert((seq![Lexeme::RParen] + lexer.remaining()).drop_first()
                            =~= lexer.remaining());
                        assert((seq![Lexeme::RParen] + lexer.remaining())[0] == Lexeme::RParen);
                    }
                    if ops.len() == 0 {
                        proof {
                            assert(ops_view(ops@).len() == 0);
                        }
                        break ;
                    }
                    proof {
                        lemma_ops_view_pop(ops@);
                    }
                    if matches!(ops[ops.len() - 1], Token::LParen) {
                        ops.pop();
                        break ;
                    }
                    let op = ops.pop().unwrap();
                    apply_op(op, &mut depth, &mut out);
                }
                expects_operand = false;
            },
            _ => {
                if expects_operand && matches!(token, Token::Minus) {
                    proof {
                        lemma_prog_view_push(out@, Instr::Zero);
                        lemma_ops_view_push(ops@, Token::Minus);
                    }
                    out.push(Instr::Zero);
                    depth = depth + 1;
                    ops.push(Token::Minus);
                    expects_operand = false;
                } else {
                    let p = precedence(&token);
                    loop
                        invariant
                            depth <= lexer.pos,
                            p as int == lex_prec(tv),
                            tv is Plus || tv is Minus || tv is Multiply || tv is Divide,
                            !(tv is Minus && expects_operand),
                            run(
                                seq![tv] + lexer.remaining(),
                                prog_view(out@),
                                depth as nat,
                                ops_view(ops@),
                                expects_operand,
                            ) == spec_compile(input@),
                        ensures
                            depth <= lexer.pos,
                            ops@.len() == 0 || lex_prec(ops_view(ops@).last()) < lex_prec(tv),
                            run(
                                seq![tv] + lexer.remaining(),
                                prog_view(out@),
                                depth as nat,
                                ops_view(ops@),
                                expects_operand,
                            ) == spec_compile(input@),
                        decreases ops.len(),
                    {
                        if ops.len() == 0 {
                            break ;
                        }
                        proof {
                            lemma_ops_view_pop(ops@);
                        }
                        if precedence(&ops[ops.len() - 1]) >= p {
                            let op = ops.pop().unwrap();
                            apply_op(op, &mut depth, &mut out);
                        } else {
                            break ;
                        }
                    }
                    proof {
                        lemma_ops_view_push(ops@, token);
                    }
                    ops.push(token);
                    expects_operand = true;
                }
            },
        }
    }
    while ops.len() > 0
        invariant
            run(
                Seq::<Lexeme>::empty(),
                prog_view(out@),
                depth as nat,
                ops_view(ops@),
                expects_operand,
            ) == spec_compile(input@),
        decreases ops.len(),
    {
        proof {
            lemma_ops_view_pop(ops@);
        }
        let op = ops.pop().unwrap();
        apply_op(op, &mut depth, &mut out);
    }
    out
}

} // verus!
