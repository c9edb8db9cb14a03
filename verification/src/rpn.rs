use crate::error::CompileError;
use crate::token::{
    spec_is_left_associative, spec_is_operator, spec_precedence, ParseToken, TokView,
};
use vstd::prelude::*;

verus! {

/// Whether the incoming token `t` forces the stack's top operator out:
/// the top is not an open paren, and it either binds strictly tighter or
/// binds as tight while `t` associates to the left.
pub open spec fn spec_should_pop(t: TokView, stack: Seq<TokView>) -> bool {
    stack.len() > 0 && {
        let top = stack.last();
        &&& !(top is OpenParen)
        &&& (spec_precedence(top) > spec_precedence(t) || (spec_precedence(top)
            >= spec_precedence(t) && spec_is_left_associative(t)))
    }
}

/// Operators popped for an incoming operator `t`, and the remaining stack;
/// the first popped element comes first in the output.
pub open spec fn pop_for_op(t: TokView, stack: Seq<TokView>) -> (Seq<TokView>, Seq<TokView>)
    decreases stack.len(),
{
    if spec_should_pop(t, stack) {
        let rec = pop_for_op(t, stack.drop_last());
        (seq![stack.last()] + rec.0, rec.1)
    } else {
        (Seq::empty(), stack)
    }
}

/// Elements popped down to (and including) the nearest open paren, which is
/// discarded: `(appended to output, remaining stack, open paren was found)`.
pub open spec fn pop_to_paren(stack: Seq<TokView>) -> (Seq<TokView>, Seq<TokView>, bool)
    decreases stack.len(),
{
    if stack.len() == 0 {
        (Seq::empty(), stack, false)
    } else if stack.last() is OpenParen {
        (Seq::empty(), stack.drop_last(), true)
    } else {
        let rec = pop_to_paren(stack.drop_last());
        (seq![stack.last()] + rec.0, rec.1, rec.2)
    }
}

/// One shunting-yard state away from the final postfix sequence: the input
/// from position `i` on, the operator stack (top last), and the output so far.
pub open spec fn rpn_from(input: Seq<TokView>, i: int, stack: Seq<TokView>, output: Seq<TokView>)
    -> Seq<TokView>
    decreases input.len() - i,
{
    if i < 0 || i >= input.len() {
        output + stack.reverse()
    } else {
        let t = input[i];
        let next_open = i + 1 < input.len() && input[i + 1] is OpenParen;
        if t is OpenParen {
            rpn_from(input, i + 1, stack.push(t), output)
        } else if t is CloseParen {
            let p = pop_to_paren(stack);
            if p.2 && p.1.len() > 0 && p.1.last() is Identifier {
                rpn_from(input, i + 1, p.1.drop_last(), output + p.0 + seq![p.1.last()])
            } else {
                rpn_from(input, i + 1, p.1, output + p.0)
            }
        } else if t is Comma {
            let p = pop_to_paren(stack);
            rpn_from(input, i + 1, p.1, output + p.0)
        } else if t is Identifier && next_open {
            rpn_from(input, i + 1, stack.push(TokView::OpenParen).push(t), output)
        } else if t is Identifier || t is Number {
            rpn_from(input, i + 1, stack, output.push(t))
        } else {
            let p = pop_for_op(t, stack);
            rpn_from(input, i + 1, p.1.push(t), output + p.0)
        }
    }
}

/// The postfix (reverse Polish) form of an infix token sequence, by the
/// shunting-yard algorithm extended with function-call heads: an identifier
/// immediately followed by an open paren is parked on the stack behind a
/// paren marker, and re-emitted right after its arguments.
pub open spec fn spec_rpn(input: Seq<TokView>) -> Seq<TokView> {
    rpn_from(input, 0, Seq::empty(), Seq::empty())
}

proof fn lemma_pop_for_op_shape(t: TokView, stack: Seq<TokView>)
    ensures
        pop_for_op(t, stack).0.len() + pop_for_op(t, stack).1.len() == stack.len(),
        forall|j: int|
            0 <= j < pop_for_op(t, stack).1.len() ==> #[trigger] pop_for_op(t, stack).1[j]
                == stack[j],
    decreases stack.len(),
{
    if spec_should_pop(t, stack) {
        lemma_pop_for_op_shape(t, stack.drop_last());
    }
}

proof fn lemma_rpn_from_length(input: Seq<TokView>, i: int, stack: Seq<TokView>, output: Seq<
    TokView,
>)
    requires
        0 <= i <= input.len(),
        forall|j: int|
            0 <= j < input.len() ==> ((#[trigger] input[j]) is Number || input[j] is Identifier
                || spec_is_operator(input[j])),
        forall|j: int| 0 <= j < stack.len() ==> !((#[trigger] stack[j]) is OpenParen),
    ensures
        rpn_from(input, i, stack, output).len() == output.len() + stack.len() + (input.len() - i),
    decreases input.len() - i,
{
    if i < input.len() {
        let t = input[i];
        if t is Identifier || t is Number {
            assert(!(i + 1 < input.len() && input[i + 1] is OpenParen));
            lemma_rpn_from_length(input, i + 1, stack, output.push(t));
        } else {
            let p = pop_for_op(t, stack);
            lemma_pop_for_op_shape(t, stack);
            assert forall|j: int| 0 <= j < p.1.push(t).len() implies !((#[trigger] p.1.push(t)[j])
                is OpenParen) by {
                if j < p.1.len() {
                    assert(p.1[j] == stack[j]);
                }
            }
            lemma_rpn_from_length(input, i + 1, p.1.push(t), output + p.0);
        }
    }
}

/// For an input of operands and operators alone — no parens, commas, or
/// assigns — the postfix form has exactly the input's length: every operand
/// and every operator reaches the output exactly once.
pub proof fn lemma_rpn_length_flat(input: Seq<TokView>)
    requires
        forall|j: int|
            0 <= j < input.len() ==> ((#[trigger] input[j]) is Number || input[j] is Identifier
                || spec_is_operator(input[j])),
    ensures
        spec_rpn(input).len() == input.len(),
{
    lemma_rpn_from_length(input, 0, Seq::empty(), Seq::empty());
}

fn should_pop(t: &ParseToken, stack: &Vec<ParseToken>) -> (r: bool)
    ensures
        r == spec_should_pop(t.deep_view(), stack.deep_view()),
{
    if stack.len() == 0 {
        false
    } else {
        let last = &stack[stack.len() - 1];
        proof {
            assert(stack.deep_view().last() == last.deep_view());
        }
        if last.is_open_paren() {
            false
        } else {
            let lp: u32 = last.precedence();
            let tp: u32 = t.precedence();
            lp > tp || (lp >= tp && t.is_left_associative())
        }
    }
}

/// Pops stack elements to the output until an open paren is popped and
/// discarded, or the stack runs out; says whether a paren was found.
fn pop_paren_run(stack: &mut Vec<ParseToken>, output: &mut Vec<ParseToken>) -> (found: bool)
    ensures
        ({
            let p = pop_to_paren(old(stack).deep_view());
            &&& final(stack).deep_view() == p.1
            &&& final(output).deep_view() == old(output).deep_view() + p.0
            &&& found == p.2
        }),
{
    let ghost st_pre = stack.deep_view();
    let ghost out_pre = output.deep_view();
    let ghost mut popped: Seq<TokView> = Seq::empty();
    let mut found = false;
    proof {
        assert(out_pre + popped =~= out_pre);
    }
    while !found && stack.len() > 0
        invariant
            output.deep_view() == out_pre + popped,
            !found ==> pop_to_paren(st_pre) == (popped + pop_to_paren(stack.deep_view()).0,
            pop_to_paren(stack.deep_view()).1, pop_to_paren(stack.deep_view()).2),
            found ==> pop_to_paren(st_pre) == (popped, stack.deep_view(), true),
        decreases stack.len(),
    {
        let ghost st_cur = stack.deep_view();
        let ghost out_cur = output.deep_view();
        let top = stack.pop().unwrap();
        proof {
            assert(stack.deep_view() =~= st_cur.drop_last());
            assert(top.deep_view() == st_cur.last());
        }
        if top.is_open_paren() {
            found = true;
            proof {
                assert(popped + Seq::<TokView>::empty() =~= popped);
            }
        } else {
            output.push(top);
            proof {
                assert(output.deep_view() =~= out_cur.push(st_cur.last()));
                popped = popped.push(st_cur.last());
                assert(popped.drop_last() + (seq![st_cur.last()] + pop_to_paren(
                    st_cur.drop_last(),
                ).0) =~= popped + pop_to_paren(st_cur.drop_last()).0);
            }
        }
    }
    proof {
        if !found {
            assert(stack.deep_view().len() == 0);
            assert(pop_to_paren(stack.deep_view()) == (
                Seq::<TokView>::empty(),
                stack.deep_view(),
                false,
            ));
            assert(popped + Seq::<TokView>::empty() =~= popped);
        }
    }
    found
}

/// Converts an infix expression to reverse Polish notation, in which the
/// expression can be evaluated by a single left-to-right pass over a value
/// stack.  Always succeeds; the `Result` is part of the pipeline's shape.
pub fn infix_to_rpn(expr: Vec<ParseToken>) -> (r: Result<Vec<ParseToken>, CompileError>)
    ensures
        r matches Ok(v) && v.deep_view() == spec_rpn(expr.deep_view()),
{
    let ghost input = expr.deep_view();
    let n: usize = expr.len();
    let mut output: Vec<ParseToken> = Vec::new();
    let mut stack: Vec<ParseToken> = Vec::new();
    let mut i: usize = 0;
    proof {
        assert(output.deep_view() =~= Seq::<TokView>::empty());
        assert(stack.deep_view() =~= Seq::<TokView>::empty());
    }
    while i < n
        invariant
            i <= n,
            n == expr@.len(),
            input == expr.deep_view(),
            spec_rpn(input) == rpn_from(input, i as int, stack.deep_view(), output.deep_view()),
        decreases n - i,
    {
        let ghost st_pre = stack.deep_view();
        let ghost out_pre = output.deep_view();
        let t = expr[i].dup();
        proof {
            assert(input[i as int] == expr@[i as int].deep_view());
            assert(t.deep_view() == input[i as int]);
        }
        let next_open = i + 1 < n && expr[i + 1].is_open_paren();
        proof {
            if i + 1 < n {
                assert(input[i as int + 1] == expr@[i as int + 1].deep_view());
                assert(expr[i as int + 1].deep_view() == input[i as int + 1]);
            }
            assert(next_open == (i + 1 < input.len() && input[i as int + 1] is OpenParen));
        }
        match t {
            ParseToken::OpenParen => {
                stack.push(t);
                proof {
                    assert(stack.deep_view() =~= st_pre.push(TokView::OpenParen));
                }
            },
            ParseToken::CloseParen => {
                let found = pop_paren_run(&mut stack, &mut output);
                let ghost p = pop_to_paren(st_pre);
                if found && stack.len() > 0 && stack[stack.len() - 1].is_identifier() {
                    let ghost st_mid = stack.deep_view();
                    let ghost out_mid = output.deep_view();
                    proof {
                        assert(stack.deep_view().last() == stack[stack.len() - 1].deep_view());
                    }
                    let id = stack.pop().unwrap();
                    output.push(id);
                    proof {
                        assert(stack.deep_view() =~= st_mid.drop_last());
                        assert(output.deep_view() =~= out_mid.push(st_mid.last()));
                        assert(output.deep_view() =~= out_pre + p.0 + seq![p.1.last()]);
                    }
                } else {
                    proof {
                        assert(!(p.2 && p.1.len() > 0 && p.1.last() is Identifier));
                    }
                }
            },
            ParseToken::Comma => {
                let _found = pop_paren_run(&mut stack, &mut output);
            },
            ParseToken::Identifier(_) => {
                if next_open {
                    stack.push(ParseToken::OpenParen);
                    stack.push(t);
                    proof {
                        assert(stack.deep_view() =~= st_pre.push(TokView::OpenParen).push(
                            input[i as int],
                        ));
                    }
                } else {
                    output.push(t);
                    proof {
                        assert(output.deep_view() =~= out_pre.push(input[i as int]));
                    }
                }
            },
            ParseToken::Number(_) => {
                output.push(t);
                proof {
                    assert(output.deep_view() =~= out_pre.push(input[i as int]));
                }
            },
            _ => {
                // an operator (or a stray assign): pop by precedence, then push
                let ghost tv = t.deep_view();
                let ghost mut popped: Seq<TokView> = Seq::empty();
                proof {
                    assert(output.deep_view() =~= out_pre + popped);
                }
                while should_pop(&t, &stack)
                    invariant
                        output.deep_view() == out_pre + popped,
                        pop_for_op(tv, st_pre) == (popped + pop_for_op(tv, stack.deep_view()).0,
                        pop_for_op(tv, stack.deep_view()).1),
                        tv == t.deep_view(),
                    decreases stack.len(),
                {
                    let ghost st_cur = stack.deep_view();
                    let ghost out_cur = output.deep_view();
                    let top = stack.pop().unwrap();
                    output.push(top);
                    proof {
                        assert(stack.deep_view() =~= st_cur.drop_last());
                        assert(output.deep_view() =~= out_cur.push(st_cur.last()));
                        popped = popped.push(st_cur.last());
                        assert(popped.drop_last() + (seq![st_cur.last()] + pop_for_op(
                            tv,
                            st_cur.drop_last(),
                        ).0) =~= popped + pop_for_op(tv, st_cur.drop_last()).0);
                    }
                }
                let ghost st_cur = stack.deep_view();
                proof {
                    assert(pop_for_op(tv, st_cur) == (Seq::<TokView>::empty(), st_cur));
                    assert(popped + Seq::<TokView>::empty() =~= popped);
                    assert(pop_for_op(tv, st_pre).0 == popped);
                    assert(pop_for_op(tv, st_pre).1 == st_cur);
                }
                stack.push(t);
                proof {
                    assert(stack.deep_view() =~= st_cur.push(tv));
                }
            },
        }
        i = i + 1;
    }
    while stack.len() > 0
        invariant
            spec_rpn(input) == output.deep_view() + stack.deep_view().reverse(),
        decreases stack.len(),
    {
        let ghost st_cur = stack.deep_view();
        let ghost out_cur = output.deep_view();
        let top = stack.pop().unwrap();
        output.push(top);
        proof {
            assert(stack.deep_view() =~= st_cur.drop_last());
            assert(output.deep_view() =~= out_cur.push(st_cur.last()));
            assert(st_cur.reverse() =~= seq![st_cur.last()] + st_cur.drop_last().reverse());
            assert(out_cur.push(st_cur.last()) + st_cur.drop_last().reverse() =~= out_cur
                + st_cur.reverse());
        }
    }
    proof {
        assert(output.deep_view() + stack.deep_view().reverse() =~= output.deep_view());
    }
    Ok(output)
}

/// An expression tree over operand tokens and binary operators: the shapes
/// an infix expression without function calls can take, with explicit
/// grouping.
pub enum AstView {
    Leaf(TokView),
    Bin(TokView, Box<AstView>, Box<AstView>),
}

/// Leaves are operands (literals or identifiers), inner nodes operators.
pub open spec fn wf_tree(t: AstView) -> bool
    decreases t,
{
    match t {
        AstView::Leaf(v) => v is Number || v is Identifier,
        AstView::Bin(o, l, r) => spec_is_operator(o) && wf_tree(*l) && wf_tree(*r),
    }
}

/// The tree rendered as infix tokens, each application parenthesized.
pub open spec fn infix_of(t: AstView) -> Seq<TokView>
    decreases t,
{
    match t {
        AstView::Leaf(v) => seq![v],
        AstView::Bin(o, l, r) => seq![TokView::OpenParen] + infix_of(*l) + seq![o] + infix_of(*r)
            + seq![TokView::CloseParen],
    }
}

/// The tree's postfix rendering: operands left to right, each operator
/// right after its two operands' renderings.
pub open spec fn postfix_of(t: AstView) -> Seq<TokView>
    decreases t,
{
    match t {
        AstView::Leaf(v) => seq![v],
        AstView::Bin(o, l, r) => postfix_of(*l) + postfix_of(*r) + seq![o],
    }
}

/// The tree's direct arithmetic value, under any interpretation `val` of
/// operand tokens and `opf` of operator applications.
pub open spec fn tree_val<V>(
    t: AstView,
    val: spec_fn(TokView) -> V,
    opf: spec_fn(TokView, V, V) -> V,
) -> V
    decreases t,
{
    match t {
        AstView::Leaf(v) => val(v),
        AstView::Bin(o, l, r) => opf(o, tree_val(*l, val, opf), tree_val(*r, val, opf)),
    }
}

/// A simple stack machine over a postfix stream, from token `i` on:
/// operands push their value, an operator applies to the two topmost
/// values (the right-hand operand on top).  `None` for a malformed stream
/// or a stack not left with exactly the result.
pub open spec fn eval_rpn_from<V>(
    ts: Seq<TokView>,
    i: int,
    stack: Seq<V>,
    val: spec_fn(TokView) -> V,
    opf: spec_fn(TokView, V, V) -> V,
) -> Option<V>
    decreases ts.len() - i,
{
    if i < 0 || i >= ts.len() {
        if stack.len() == 1 {
            Some(stack.last())
        } else {
            None
        }
    } else {
        let t = ts[i];
        if t is Number || t is Identifier {
            eval_rpn_from(ts, i + 1, stack.push(val(t)), val, opf)
        } else if spec_is_operator(t) {
            if stack.len() < 2 {
                None
            } else {
                let y = stack.last();
                let x = stack[stack.len() - 2];
                eval_rpn_from(ts, i + 1, stack.take(stack.len() - 2).push(opf(t, x, y)), val, opf)
            }
        } else {
            None
        }
    }
}

/// The value a whole postfix stream evaluates to.
pub open spec fn eval_rpn<V>(
    ts: Seq<TokView>,
    val: spec_fn(TokView) -> V,
    opf: spec_fn(TokView, V, V) -> V,
) -> Option<V> {
    eval_rpn_from(ts, 0, Seq::empty(), val, opf)
}

proof fn lemma_rpn_tree(
    input: Seq<TokView>,
    i: int,
    stack: Seq<TokView>,
    output: Seq<TokView>,
    t: AstView,
)
    requires
        wf_tree(t),
        0 <= i,
        i + infix_of(t).len() <= input.len(),
        input.subrange(i, i + infix_of(t).len()) == infix_of(t),
        i + infix_of(t).len() == input.len() || !(input[i + infix_of(t).len()] is OpenParen),
        stack.len() == 0 || !(stack.last() is Identifier),
    ensures
        rpn_from(input, i, stack, output) == rpn_from(
            input,
            i + infix_of(t).len(),
            stack,
            output + postfix_of(t),
        ),
    decreases t,
{
    assert forall|j: int| 0 <= j < infix_of(t).len() implies #[trigger] input[i + j] == infix_of(
        t,
    )[j] by {
        assert(input.subrange(i, i + infix_of(t).len())[j] == input[i + j]);
    }
    match t {
        AstView::Leaf(v) => {
            assert(input[i + 0] == infix_of(t)[0]);
            assert(input[i] == v);
            assert(output.push(v) =~= output + postfix_of(t));
        },
        AstView::Bin(o, l, r) => {
            let il = infix_of(*l);
            let ir = infix_of(*r);
            let n = infix_of(t).len();
            assert(n == 3 + il.len() + ir.len());
            assert(input[i + 0] == infix_of(t)[0]);
            assert(infix_of(t)[0] == TokView::OpenParen);
            let j1 = i + 1 + il.len();
            assert(input[i + (1 + il.len())] == infix_of(t)[1 + il.len() as int]);
            assert(infix_of(t)[1 + il.len() as int] == o);
            let j2 = j1 + 1 + ir.len();
            assert(input[i + (n - 1)] == infix_of(t)[n - 1]);
            assert(infix_of(t)[n - 1] == TokView::CloseParen);
            // the two sub-renderings sit at their offsets
            assert(input.subrange(i + 1, i + 1 + il.len()) =~= il) by {
                assert forall|j: int| 0 <= j < il.len() implies input.subrange(
                    i + 1,
                    i + 1 + il.len(),
                )[j] == il[j] by {
                    assert(input[i + (1 + j)] == infix_of(t)[1 + j]);
                    assert(infix_of(t)[1 + j] == il[j]);
                }
            }
            assert(input.subrange(j1 + 1, j1 + 1 + ir.len()) =~= ir) by {
                assert forall|j: int| 0 <= j < ir.len() implies input.subrange(
                    j1 + 1,
                    j1 + 1 + ir.len(),
                )[j] == ir[j] by {
                    assert(input[i + (2 + il.len() + j)] == infix_of(t)[2 + il.len() as int + j]);
                    assert(infix_of(t)[2 + il.len() as int + j] == ir[j]);
                }
            }
            // step: the open paren is pushed
            let s1 = stack.push(TokView::OpenParen);
            assert(rpn_from(input, i, stack, output) == rpn_from(input, i + 1, s1, output));
            // the left operand's rendering, with the paren on top
            lemma_rpn_tree(input, i + 1, s1, output, *l);
            let out1 = output + postfix_of(*l);
            // step: the operator finds the paren on top and pops nothing
            assert(!spec_should_pop(o, s1));
            assert(pop_for_op(o, s1) == (Seq::<TokView>::empty(), s1));
            let s2 = s1.push(o);
            assert(out1 + Seq::<TokView>::empty() =~= out1);
            assert(rpn_from(input, j1, s1, out1) == rpn_from(input, j1 + 1, s2, out1));
            // the right operand's rendering, with the operator on top
            lemma_rpn_tree(input, j1 + 1, s2, out1, *r);
            let out2 = out1 + postfix_of(*r);
            // step: the close paren pops the operator and discards the paren
            assert(s1.drop_last() =~= stack);
            assert(s2.drop_last() =~= s1);
            assert(pop_to_paren(s1) == (Seq::<TokView>::empty(), stack, true));
            assert(pop_to_paren(s2) == (
                seq![o] + Seq::<TokView>::empty(),
                stack,
                true,
            ));
            assert(!(pop_to_paren(s2).2 && pop_to_paren(s2).1.len() > 0 && pop_to_paren(
                s2,
            ).1.last() is Identifier));
            assert(rpn_from(input, j2, s2, out2) == rpn_from(
                input,
                j2 + 1,
                stack,
                out2 + (seq![o] + Seq::<TokView>::empty()),
            ));
            assert(out2 + (seq![o] + Seq::<TokView>::empty()) =~= output + postfix_of(t));
            assert(j2 + 1 == i + n);
        },
    }
}

proof fn lemma_eval_postfix<V>(
    ts: Seq<TokView>,
    i: int,
    stack: Seq<V>,
    t: AstView,
    val: spec_fn(TokView) -> V,
    opf: spec_fn(TokView, V, V) -> V,
)
    requires
        wf_tree(t),
        0 <= i,
        i + postfix_of(t).len() <= ts.len(),
        ts.subrange(i, i + postfix_of(t).len()) == postfix_of(t),
    ensures
        eval_rpn_from(ts, i, stack, val, opf) == eval_rpn_from(
            ts,
            i + postfix_of(t).len(),
            stack.push(tree_val(t, val, opf)),
            val,
            opf,
        ),
    decreases t,
{
    assert forall|j: int| 0 <= j < postfix_of(t).len() implies #[trigger] ts[i + j] == postfix_of(
        t,
    )[j] by {
        assert(ts.subrange(i, i + postfix_of(t).len())[j] == ts[i + j]);
    }
    match t {
        AstView::Leaf(v) => {
            assert(ts[i + 0] == postfix_of(t)[0]);
            assert(ts[i] == v);
        },
        AstView::Bin(o, l, r) => {
            let pl = postfix_of(*l);
            let pr = postfix_of(*r);
            let n = postfix_of(t).len();
            assert(n == pl.len() + pr.len() + 1);
            assert(ts.subrange(i, i + pl.len()) =~= pl) by {
                assert forall|j: int| 0 <= j < pl.len() implies ts.subrange(i, i + pl.len())[j]
                    == pl[j] by {
                    assert(ts[i + j] == postfix_of(t)[j]);
                    assert(postfix_of(t)[j] == pl[j]);
                }
            }
            let m1 = i + pl.len();
            assert(ts.subrange(m1, m1 + pr.len()) =~= pr) by {
                assert forall|j: int| 0 <= j < pr.len() implies ts.subrange(m1, m1 + pr.len())[j]
                    == pr[j] by {
                    assert(ts[i + (pl.len() + j)] == postfix_of(t)[pl.len() as int + j]);
                    assert(postfix_of(t)[pl.len() as int + j] == pr[j]);
                }
            }
            let m2 = m1 + pr.len();
            assert(ts[i + (n - 1)] == postfix_of(t)[n - 1]);
            assert(postfix_of(t)[n - 1] == o);
            let vl = tree_val(*l, val, opf);
            let vr = tree_val(*r, val, opf);
            lemma_eval_postfix(ts, i, stack, *l, val, opf);
            lemma_eval_postfix(ts, m1, stack.push(vl), *r, val, opf);
            let s2 = stack.push(vl).push(vr);
            assert(s2.len() >= 2);
            assert(s2.last() == vr);
            assert(s2[s2.len() - 2] == vl);
            assert(s2.take(s2.len() - 2) =~= stack);
            assert(eval_rpn_from(ts, m2, s2, val, opf) == eval_rpn_from(
                ts,
                m2 + 1,
                stack.push(opf(o, vl, vr)),
                val,
                opf,
            ));
            assert(m2 + 1 == i + n);
        },
    }
}

/// Round trip of conversion and evaluation: for every expression tree of
/// operands and binary operators — an input without function calls, with
/// explicit grouping — running the converter's postfix output through the
/// stack machine yields exactly the tree's direct arithmetic value, under
/// every interpretation of operand tokens and operator applications.
pub proof fn lemma_rpn_round_trip<V>(
    t: AstView,
    val: spec_fn(TokView) -> V,
    opf: spec_fn(TokView, V, V) -> V,
)
    requires
        wf_tree(t),
    ensures
        eval_rpn(spec_rpn(infix_of(t)), val, opf) == Some(tree_val(t, val, opf)),
{
    let inf = infix_of(t);
    assert(inf.subrange(0, inf.len() as int) =~= inf);
    lemma_rpn_tree(inf, 0, Seq::empty(), Seq::empty(), t);
    assert(spec_rpn(inf) == Seq::<TokView>::empty() + postfix_of(t) + Seq::<
        TokView,
    >::empty().reverse());
    assert(Seq::<TokView>::empty() + postfix_of(t) + Seq::<TokView>::empty().reverse()
        =~= postfix_of(t));
    let post = postfix_of(t);
    assert(post.subrange(0, post.len() as int) =~= post);
    lemma_eval_postfix(post, 0, Seq::<V>::empty(), t, val, opf);
    assert(Seq::<V>::empty().push(tree_val(t, val, opf)).len() == 1);
}

} // verus!
