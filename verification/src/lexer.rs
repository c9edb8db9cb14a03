use crate::error::{CompileError, ErrView};
use crate::token::{ParseToken, TokView};
use vstd::prelude::*;
use vstd::string::*;

verus! {

/// Characters skipped between tokens.
pub open spec fn is_space_char(c: char) -> bool {
    c == ' ' || c == '\t'
}

/// A decimal digit.
pub open spec fn is_digit_char(c: char) -> bool {
    48 <= c as u32 <= 57
}

/// A character that may continue a numeric literal.
pub open spec fn is_number_char(c: char) -> bool {
    c == '.' || is_digit_char(c)
}

/// An ASCII letter.
pub open spec fn is_letter_char(c: char) -> bool {
    (97 <= c as u32 <= 122) || (65 <= c as u32 <= 90)
}

/// A character that may begin an identifier.
pub open spec fn is_ident_start_char(c: char) -> bool {
    c == '_' || is_letter_char(c)
}

/// A character that may continue an identifier: alphanumeric or underscore.
pub open spec fn is_ident_char(c: char) -> bool {
    is_ident_start_char(c) || is_digit_char(c)
}

/// The token, if any, that a single punctuation character maps to.
pub open spec fn single_token(c: char) -> Option<TokView> {
    if c == '+' {
        Some(TokView::Add)
    } else if c == '-' {
        Some(TokView::Subtract)
    } else if c == '*' {
        Some(TokView::Multiply)
    } else if c == '/' {
        Some(TokView::Divide)
    } else if c == '^' {
        Some(TokView::Exponent)
    } else if c == '=' {
        Some(TokView::Assign)
    } else if c == ',' {
        Some(TokView::Comma)
    } else if c == '(' {
        Some(TokView::OpenParen)
    } else if c == ')' {
        Some(TokView::CloseParen)
    } else {
        None
    }
}

/// Length of the longest prefix of `s` made of numeric-literal characters.
pub open spec fn num_run(s: Seq<char>) -> nat
    decreases s.len(),
{
    if s.len() == 0 || !is_number_char(s[0]) {
        0
    } else {
        1 + num_run(s.drop_first())
    }
}

/// Length of the longest prefix of `s` made of identifier characters.
pub open spec fn ident_run(s: Seq<char>) -> nat
    decreases s.len(),
{
    if s.len() == 0 || !is_ident_char(s[0]) {
        0
    } else {
        1 + ident_run(s.drop_first())
    }
}

proof fn lemma_num_run_le(s: Seq<char>)
    ensures
        num_run(s) <= s.len(),
    decreases s.len(),
{
    if s.len() != 0 && is_number_char(s[0]) {
        lemma_num_run_le(s.drop_first());
    }
}

proof fn lemma_ident_run_le(s: Seq<char>)
    ensures
        ident_run(s) <= s.len(),
    decreases s.len(),
{
    if s.len() != 0 && is_ident_char(s[0]) {
        lemma_ident_run_le(s.drop_first());
    }
}

proof fn lemma_num_run_is(s: Seq<char>, k: int)
    requires
        0 <= k <= s.len(),
        forall|j: int| 0 <= j < k ==> is_number_char(s[j]),
        k == s.len() || !is_number_char(s[k]),
    ensures
        num_run(s) == k,
    decreases k,
{
    if k == 0 {
    } else {
        assert(is_number_char(s[0]));
        assert forall|j: int| 0 <= j < k - 1 implies is_number_char(#[trigger] s.drop_first()[j]) by {
            assert(s.drop_first()[j] == s[j + 1]);
        }
        if k < s.len() {
            assert(s.drop_first()[k - 1] == s[k]);
        }
        lemma_num_run_is(s.drop_first(), k - 1);
    }
}

proof fn lemma_ident_run_is(s: Seq<char>, k: int)
    requires
        0 <= k <= s.len(),
        forall|j: int| 0 <= j < k ==> is_ident_char(s[j]),
        k == s.len() || !is_ident_char(s[k]),
    ensures
        ident_run(s) == k,
    decreases k,
{
    if k == 0 {
    } else {
        assert(is_ident_char(s[0]));
        assert forall|j: int| 0 <= j < k - 1 implies is_ident_char(#[trigger] s.drop_first()[j]) by {
            assert(s.drop_first()[j] == s[j + 1]);
        }
        if k < s.len() {
            assert(s.drop_first()[k - 1] == s[k]);
        }
        lemma_ident_run_is(s.drop_first(), k - 1);
    }
}

/// Number of `.` characters in `t`.
pub open spec fn dots_in(t: Seq<char>) -> nat
    decreases t.len(),
{
    if t.len() == 0 {
        0
    } else {
        dots_in(t.drop_last()) + if t.last() == '.' {
            1 as nat
        } else {
            0 as nat
        }
    }
}

/// Number of decimal digits in `t`.
pub open spec fn digits_in(t: Seq<char>) -> nat
    decreases t.len(),
{
    if t.len() == 0 {
        0
    } else {
        digits_in(t.drop_last()) + if is_digit_char(t.last()) {
            1 as nat
        } else {
            0 as nat
        }
    }
}

/// A well-formed numeric literal: at most one dot and at least one digit.
/// (Over the digit-and-dot alphabet this is exactly the shape a decimal
/// number parser accepts; `10.4.5` and a lone `.` are malformed.)
pub open spec fn valid_number_text(t: Seq<char>) -> bool {
    dots_in(t) <= 1 && digits_in(t) >= 1
}

/// The token sequence of one source line, or the first lexing failure:
/// numeric literals and identifiers are maximal runs, punctuation maps to
/// single tokens, spaces and tabs separate, anything else is rejected.
pub open spec fn spec_tokenize(s: Seq<char>) -> Result<Seq<TokView>, ErrView>
    decreases s.len(),
    via spec_tokenize_decreases
{
    if s.len() == 0 {
        Ok(Seq::empty())
    } else {
        let c = s[0];
        if is_space_char(c) {
            spec_tokenize(s.drop_first())
        } else if is_number_char(c) {
            let n = 1 + num_run(s.drop_first());
            let lit = s.take(n as int);
            if valid_number_text(lit) {
                match spec_tokenize(s.skip(n as int)) {
                    Ok(ts) => Ok(seq![TokView::Number(lit)] + ts),
                    Err(e) => Err(e),
                }
            } else {
                Err(ErrView::InvalidNumberLiteral)
            }
        } else if is_ident_start_char(c) {
            let n = 1 + ident_run(s.drop_first());
            match spec_tokenize(s.skip(n as int)) {
                Ok(ts) => Ok(seq![TokView::Identifier(s.take(n as int))] + ts),
                Err(e) => Err(e),
            }
        } else {
            match single_token(c) {
                Some(t) => match spec_tokenize(s.drop_first()) {
                    Ok(ts) => Ok(seq![t] + ts),
                    Err(e) => Err(e),
                },
                None => Err(ErrView::InvalidCharacter(c)),
            }
        }
    }
}

#[via_fn]
proof fn spec_tokenize_decreases(s: Seq<char>) {
    if s.len() > 0 {
        lemma_num_run_le(s.drop_first());
        lemma_ident_run_le(s.drop_first());
    }
}

/// The lexer's invariant on its own output: a `Number` token always
/// carries a well-formed literal; a malformed numeral never becomes a
/// token.
pub proof fn lemma_tokenize_literals_wellformed(s: Seq<char>)
    ensures
        spec_tokenize(s) matches Ok(ts) ==> forall|i: int|
            0 <= i < ts.len() ==> ((#[trigger] ts[i]) is Number ==> valid_number_text(
                ts[i]->Number_0,
            )),
    decreases s.len(),
{
    if s.len() > 0 {
        let c = s[0];
        if is_space_char(c) {
            lemma_tokenize_literals_wellformed(s.drop_first());
        } else if is_number_char(c) {
            lemma_num_run_le(s.drop_first());
            let n = 1 + num_run(s.drop_first());
            let lit = s.take(n as int);
            lemma_tokenize_literals_wellformed(s.skip(n as int));
            if valid_number_text(lit) {
                match spec_tokenize(s.skip(n as int)) {
                    Ok(ts) => {
                        let all = seq![TokView::Number(lit)] + ts;
                        assert forall|i: int|
                            0 <= i < all.len() && (#[trigger] all[i]) is Number implies
                        valid_number_text(all[i]->Number_0) by {
                            if i > 0 {
                                assert(all[i] == ts[i - 1]);
                            }
                        }
                    },
                    Err(_) => {},
                }
            }
        } else if is_ident_start_char(c) {
            lemma_ident_run_le(s.drop_first());
            let n = 1 + ident_run(s.drop_first());
            lemma_tokenize_literals_wellformed(s.skip(n as int));
            match spec_tokenize(s.skip(n as int)) {
                Ok(ts) => {
                    let all = seq![TokView::Identifier(s.take(n as int))] + ts;
                    assert forall|i: int|
                        0 <= i < all.len() && (#[trigger] all[i]) is Number implies
                    valid_number_text(all[i]->Number_0) by {
                        assert(all[i] == ts[i - 1]);
                    }
                },
                Err(_) => {},
            }
        } else {
            lemma_tokenize_literals_wellformed(s.drop_first());
            match single_token(c) {
                Some(tk) => {
                    match spec_tokenize(s.drop_first()) {
                        Ok(ts) => {
                            let all = seq![tk] + ts;
                            assert(!(tk is Number));
                            assert forall|i: int|
                                0 <= i < all.len() && (#[trigger] all[i]) is Number implies
                            valid_number_text(all[i]->Number_0) by {
                                assert(all[i] == ts[i - 1]);
                            }
                        },
                        Err(_) => {},
                    }
                },
                None => {},
            }
        }
    }
}

/// The ghost value of a lexing result.
pub open spec fn tok_result_view(r: Result<Vec<ParseToken>, CompileError>) -> Result<
    Seq<TokView>,
    ErrView,
> {
    match r {
        Ok(v) => Ok(v.deep_view()),
        Err(e) => Err(e.deep_view()),
    }
}

/// Tokens already produced, combined with the outcome on the rest of the line.
pub open spec fn tok_combine(pre: Seq<TokView>, rest: Result<Seq<TokView>, ErrView>) -> Result<
    Seq<TokView>,
    ErrView,
> {
    match rest {
        Ok(ts) => Ok(pre + ts),
        Err(e) => Err(e),
    }
}

proof fn lemma_tok_combine_shift(pre: Seq<TokView>, t: TokView, r: Result<Seq<TokView>, ErrView>)
    ensures
        tok_combine(
            pre,
            match r {
                Ok(ts) => Ok(seq![t] + ts),
                Err(e) => Err(e),
            },
        ) == tok_combine(pre.push(t), r),
{
    match r {
        Ok(ts) => {
            assert(pre + (seq![t] + ts) =~= pre.push(t) + ts);
        },
        Err(_) => {},
    }
}

fn peek_num_char(source: &str, i: usize, n: usize) -> (r: bool)
    requires
        n == source@.len(),
        i <= n,
    ensures
        r == (i < source@.len() && is_number_char(source@[i as int])),
{
    if i < n {
        let c = source.get_char(i);
        c == '.' || (c as u32 >= 48 && c as u32 <= 57)
    } else {
        false
    }
}

fn peek_ident_char(source: &str, i: usize, n: usize) -> (r: bool)
    requires
        n == source@.len(),
        i <= n,
    ensures
        r == (i < source@.len() && is_ident_char(source@[i as int])),
{
    if i < n {
        let c = source.get_char(i);
        let u = c as u32;
        c == '_' || (u >= 97 && u <= 122) || (u >= 65 && u <= 90) || (u >= 48 && u <= 57)
    } else {
        false
    }
}

/// Lexes one source line into tokens.
///
/// Returns exactly what `spec_tokenize` says for the line's characters:
/// the token sequence on success, and on failure the first error, which is
/// `InvalidNumberLiteral` for a malformed numeric literal and
/// `InvalidCharacter` for a character that cannot begin any token.
pub fn tokenize(source: &str) -> (r: Result<Vec<ParseToken>, CompileError>)
    ensures
        tok_result_view(r) == spec_tokenize(source@),
{
    let ghost s = source@;
    let n: usize = source.unicode_len();
    let mut tokens: Vec<ParseToken> = Vec::new();
    let mut i: usize = 0;
    proof {
        assert(s.skip(0) =~= s);
        assert(tokens.deep_view() =~= Seq::<TokView>::empty());
        match spec_tokenize(s) {
            Ok(ts) => {
                assert(Seq::<TokView>::empty() + ts =~= ts);
            },
            Err(_) => {},
        }
    }
    while i < n
        invariant
            i <= n,
            n == s.len(),
            source@ == s,
            spec_tokenize(s) == tok_combine(tokens.deep_view(), spec_tokenize(s.skip(i as int))),
        decreases n - i,
    {
        let c = source.get_char(i);
        let ghost rest = s.skip(i as int);
        proof {
            assert(rest[0] == c);
            assert(rest.drop_first() =~= s.skip(i as int + 1));
        }
        if c == ' ' || c == '\t' {
            i = i + 1;
        } else if c == '.' || (c as u32 >= 48 && c as u32 <= 57) {
            let start: usize = i;
            let mut dots: usize = if c == '.' {
                1
            } else {
                0
            };
            let mut digits: usize = if c == '.' {
                0
            } else {
                1
            };
            i = i + 1;
            proof {
                let t = s.subrange(start as int, i as int);
                assert(t.len() == 1);
                assert(t.last() == c);
                assert(t.drop_last() =~= Seq::<char>::empty());
                assert(dots_in(t.drop_last()) == 0);
                assert(digits_in(t.drop_last()) == 0);
                assert(dots_in(t) == if c == '.' {
                    1 as nat
                } else {
                    0 as nat
                });
                assert(digits_in(t) == if is_digit_char(c) {
                    1 as nat
                } else {
                    0 as nat
                });
                assert(c == '.' ==> !is_digit_char(c));
                assert(!(c == '.') ==> is_digit_char(c));
            }
            while peek_num_char(source, i, n)
                invariant
                    start < i <= n,
                    n == s.len(),
                    source@ == s,
                    forall|j: int| start < j < i ==> is_number_char(s[j]),
                    dots <= i - start,
                    digits <= i - start,
                    dots == dots_in(s.subrange(start as int, i as int)),
                    digits == digits_in(s.subrange(start as int, i as int)),
                decreases n - i,
            {
                let cc = source.get_char(i);
                proof {
                    assert(s.subrange(start as int, i as int + 1).drop_last() =~= s.subrange(
                        start as int,
                        i as int,
                    ));
                    assert(s.subrange(start as int, i as int + 1).last() == cc);
                }
                if cc == '.' {
                    dots = dots + 1;
                } else {
                    digits = digits + 1;
                }
                i = i + 1;
            }
            proof {
                // the maximal run starting right after `start` ends at `i`
                assert forall|j: int| 0 <= j < i - start - 1 implies is_number_char(
                    #[trigger] s.skip(start as int + 1)[j],
                ) by {
                    assert(s.skip(start as int + 1)[j] == s[start as int + 1 + j]);
                }
                if i < n {
                    assert(s.skip(start as int + 1)[i - start - 1] == s[i as int]);
                }
                lemma_num_run_is(s.skip(start as int + 1), i - start - 1);
                assert(rest.drop_first() =~= s.skip(start as int + 1));
                assert(rest.take((i - start) as int) =~= s.subrange(start as int, i as int));
                assert(rest.skip((i - start) as int) =~= s.skip(i as int));
            }
            if dots > 1 || digits == 0 {
                proof {
                    assert(spec_tokenize(rest) == Err::<Seq<TokView>, ErrView>(
                        ErrView::InvalidNumberLiteral,
                    ));
                }
                return Err(CompileError::InvalidNumberLiteral);
            }
            let lit = source.substring_char(start, i);
            let owned = lit.to_owned();
            proof {
                let ghost pre = tokens.deep_view();
                lemma_tok_combine_shift(pre, TokView::Number(owned@), spec_tokenize(
                    s.skip(i as int),
                ));
                assert(pre.push(TokView::Number(owned@)) =~= pre.push(TokView::Number(owned@)));
            }
            let ghost pre = tokens.deep_view();
            tokens.push(ParseToken::Number(owned));
            proof {
                assert(tokens.deep_view() =~= pre.push(TokView::Number(
                    s.subrange(start as int, i as int),
                )));
            }
        } else if c == '_' || (c as u32 >= 97 && c as u32 <= 122) || (c as u32 >= 65 && c as u32
            <= 90) {
            let start: usize = i;
            i = i + 1;
            while peek_ident_char(source, i, n)
                invariant
                    start < i <= n,
                    n == s.len(),
                    source@ == s,
                    forall|j: int| start < j < i ==> is_ident_char(s[j]),
                decreases n - i,
            {
                i = i + 1;
            }
            proof {
                assert forall|j: int| 0 <= j < i - start - 1 implies is_ident_char(
                    #[trigger] s.skip(start as int + 1)[j],
                ) by {
                    assert(s.skip(start as int + 1)[j] == s[start as int + 1 + j]);
                }
                if i < n {
                    assert(s.skip(start as int + 1)[i - start - 1] == s[i as int]);
                }
                lemma_ident_run_is(s.skip(start as int + 1), i - start - 1);
                assert(rest.drop_first() =~= s.skip(start as int + 1));
                assert(rest.take((i - start) as int) =~= s.subrange(start as int, i as int));
                assert(rest.skip((i - start) as int) =~= s.skip(i as int));
            }
            let id = source.substring_char(start, i);
            let owned = id.to_owned();
            proof {
                let ghost pre = tokens.deep_view();
                lemma_tok_combine_shift(pre, TokView::Identifier(owned@), spec_tokenize(
                    s.skip(i as int),
                ));
            }
            let ghost pre = tokens.deep_view();
            tokens.push(ParseToken::Identifier(owned));
            proof {
                assert(tokens.deep_view() =~= pre.push(TokView::Identifier(
                    s.subrange(start as int, i as int),
                )));
            }
        } else {
            let tok = match c {
                '+' => ParseToken::Add,
                '-' => ParseToken::Subtract,
                '*' => ParseToken::Multiply,
                '/' => ParseToken::Divide,
                '^' => ParseToken::Exponent,
                '=' => ParseToken::Assign,
                ',' => ParseToken::Comma,
                '(' => ParseToken::OpenParen,
                ')' => ParseToken::CloseParen,
                _ => {
                    proof {
                        assert(spec_tokenize(rest) == Err::<Seq<TokView>, ErrView>(
                            ErrView::InvalidCharacter(c),
                        ));
                    }
                    return Err(CompileError::InvalidCharacter(c));
                },
            };
            proof {
                let ghost pre = tokens.deep_view();
                lemma_tok_combine_shift(pre, tok.deep_view(), spec_tokenize(s.skip(i as int + 1)));
            }
            let ghost pre = tokens.deep_view();
            let ghost tv = tok.deep_view();
            tokens.push(tok);
            proof {
                assert(tokens.deep_view() =~= pre.push(tv));
            }
            i = i + 1;
        }
    }
    proof {
        assert(s.skip(n as int) =~= Seq::<char>::empty());
        assert(tokens.deep_view() + Seq::<TokView>::empty() =~= tokens.deep_view());
    }
    Ok(tokens)
}

} // verus!
