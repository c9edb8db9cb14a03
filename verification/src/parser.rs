use crate::error::{CompileError, ErrView, ParseError, ParseErrView};
use crate::lexer::{spec_tokenize, tokenize};
use crate::rpn::{infix_to_rpn, spec_rpn};
use crate::text::string_eq;
use crate::token::{dup_range, ParseToken, TokView};
use vstd::prelude::*;
use vstd::string::*;

verus! {

/// A binding of a callable name: its parameter names in source order
/// (duplicates kept) and its body in postfix form.
#[derive(Debug)]
pub struct Declaration {
    pub name: String,
    pub args: Vec<String>,
    pub body: Vec<ParseToken>,
}

/// One statement of the source program: a declaration, or a bare expression
/// (in postfix form) evaluated in the implicit entry routine.
#[derive(Debug)]
pub enum Statement {
    Declaration(Declaration),
    Expression(Vec<ParseToken>),
}

/// Ghost mirror of `Declaration`.
pub struct DeclView {
    pub name: Seq<char>,
    pub args: Seq<Seq<char>>,
    pub body: Seq<TokView>,
}

/// Ghost mirror of `Statement`.
pub enum StmtView {
    Declaration(DeclView),
    Expression(Seq<TokView>),
}

impl DeepView for Declaration {
    type V = DeclView;

    open spec fn deep_view(&self) -> DeclView {
        DeclView { name: self.name@, args: self.args.deep_view(), body: self.body.deep_view() }
    }
}

impl View for Declaration {
    type V = DeclView;

    open spec fn view(&self) -> DeclView {
        self.deep_view()
    }
}

impl DeepView for Statement {
    type V = StmtView;

    open spec fn deep_view(&self) -> StmtView {
        match self {
            Statement::Declaration(d) => StmtView::Declaration(d.deep_view()),
            Statement::Expression(b) => StmtView::Expression(b.deep_view()),
        }
    }
}

impl View for Statement {
    type V = StmtView;

    open spec fn view(&self) -> StmtView {
        self.deep_view()
    }
}

fn vec_string_eq(a: &Vec<String>, b: &Vec<String>) -> (r: bool)
    ensures
        r == (a.deep_view() == b.deep_view()),
{
    if a.len() != b.len() {
        proof {
            assert(a.deep_view().len() != b.deep_view().len());
        }
        return false;
    }
    let n: usize = a.len();
    let mut i: usize = 0;
    while i < n
        invariant
            i <= n,
            n == a@.len(),
            n == b@.len(),
            forall|j: int| 0 <= j < i ==> a.deep_view()[j] == b.deep_view()[j],
        decreases n - i,
    {
        if !string_eq(&a[i], &b[i]) {
            proof {
                assert(a.deep_view()[i as int] == a@[i as int]@);
                assert(b.deep_view()[i as int] == b@[i as int]@);
            }
            return false;
        }
        proof {
            assert(a.deep_view()[i as int] == a@[i as int]@);
            assert(b.deep_view()[i as int] == b@[i as int]@);
        }
        i = i + 1;
    }
    proof {
        assert(a.deep_view() =~= b.deep_view());
    }
    true
}

fn vec_token_eq(a: &Vec<ParseToken>, b: &Vec<ParseToken>) -> (r: bool)
    ensures
        r == (a.deep_view() == b.deep_view()),
{
    if a.len() != b.len() {
        proof {
            assert(a.deep_view().len() != b.deep_view().len());
        }
        return false;
    }
    let n: usize = a.len();
    let mut i: usize = 0;
    while i < n
        invariant
            i <= n,
            n == a@.len(),
            n == b@.len(),
            forall|j: int| 0 <= j < i ==> a.deep_view()[j] == b.deep_view()[j],
        decreases n - i,
    {
        if !(a[i] == b[i]) {
            proof {
                assert(a.deep_view()[i as int] == a@[i as int].deep_view());
                assert(b.deep_view()[i as int] == b@[i as int].deep_view());
            }
            return false;
        }
        proof {
            assert(a.deep_view()[i as int] == a@[i as int].deep_view());
            assert(b.deep_view()[i as int] == b@[i as int].deep_view());
        }
        i = i + 1;
    }
    proof {
        assert(a.deep_view() =~= b.deep_view());
    }
    true
}

impl PartialEq for Declaration {
    fn eq(&self, other: &Declaration) -> (r: bool) {
        string_eq(&self.name, &other.name) && vec_string_eq(&self.args, &other.args)
            && vec_token_eq(&self.body, &other.body)
    }
}

impl vstd::std_specs::cmp::PartialEqSpecImpl for Declaration {
    open spec fn obeys_eq_spec() -> bool {
        true
    }

    open spec fn eq_spec(&self, other: &Declaration) -> bool {
        self.deep_view() == other.deep_view()
    }
}

impl PartialEq for Statement {
    fn eq(&self, other: &Statement) -> (r: bool) {
        match (self, other) {
            (Statement::Declaration(a), Statement::Declaration(b)) => a == b,
            (Statement::Expression(a), Statement::Expression(b)) => vec_token_eq(a, b),
            _ => false,
        }
    }
}

impl vstd::std_specs::cmp::PartialEqSpecImpl for Statement {
    open spec fn obeys_eq_spec() -> bool {
        true
    }

    open spec fn eq_spec(&self, other: &Statement) -> bool {
        self.deep_view() == other.deep_view()
    }
}

/// Index of the first newline at or after `from`, or the text's length.
pub open spec fn line_end(s: Seq<char>, from: int) -> int
    decreases s.len() - from,
{
    if 0 <= from < s.len() {
        if s[from] == '\n' {
            from
        } else {
            line_end(s, from + 1)
        }
    } else {
        s.len() as int
    }
}

proof fn lemma_line_end_bounds(s: Seq<char>, from: int)
    requires
        0 <= from <= s.len(),
    ensures
        from <= line_end(s, from) <= s.len(),
    decreases s.len() - from,
{
    if from < s.len() && s[from] != '\n' {
        lemma_line_end_bounds(s, from + 1);
    }
}

proof fn lemma_line_end_is(s: Seq<char>, from: int, e: int)
    requires
        0 <= from <= e <= s.len(),
        forall|j: int| from <= j < e ==> s[j] != '\n',
        e == s.len() || s[e] == '\n',
    ensures
        line_end(s, from) == e,
    decreases e - from,
{
    if from < e {
        lemma_line_end_is(s, from + 1, e);
    }
}

/// Index of the first `Assign` token at or after `from`, or the length.
pub open spec fn first_assign(ts: Seq<TokView>, from: int) -> int
    decreases ts.len() - from,
{
    if 0 <= from < ts.len() {
        if ts[from] is Assign {
            from
        } else {
            first_assign(ts, from + 1)
        }
    } else {
        ts.len() as int
    }
}

proof fn lemma_first_assign_is(ts: Seq<TokView>, k: int)
    requires
        0 <= k <= ts.len(),
        forall|j: int| 0 <= j < k ==> !(ts[j] is Assign),
        k == ts.len() || ts[k] is Assign,
    ensures
        first_assign(ts, 0) == k,
{
    lemma_first_assign_from(ts, 0, k);
}

proof fn lemma_first_assign_from(ts: Seq<TokView>, from: int, k: int)
    requires
        0 <= from <= k <= ts.len(),
        forall|j: int| from <= j < k ==> !(ts[j] is Assign),
        k == ts.len() || ts[k] is Assign,
    ensures
        first_assign(ts, from) == k,
    decreases k - from,
{
    if from < k {
        lemma_first_assign_from(ts, from + 1, k);
    }
}

/// Identifier names among `ts`, in order.
pub open spec fn ident_names(ts: Seq<TokView>) -> Seq<Seq<char>>
    decreases ts.len(),
{
    if ts.len() == 0 {
        Seq::empty()
    } else {
        ident_names(ts.drop_last()) + (match ts.last() {
            TokView::Identifier(n) => seq![n],
            _ => Seq::empty(),
        })
    }
}

/// Splits a declaration's left-hand side: its first token must be an
/// identifier (the declared name); every identifier after it, in order,
/// is a parameter name.  Anything else fails with `InvalidAssignment`.
pub open spec fn spec_split_decl(lhs: Seq<TokView>) -> Result<
    (Seq<char>, Seq<Seq<char>>),
    ErrView,
> {
    if lhs.len() == 0 {
        Err(ErrView::InvalidAssignment)
    } else {
        match lhs[0] {
            TokView::Identifier(name) => Ok((name, ident_names(lhs.skip(1)))),
            _ => Err(ErrView::InvalidAssignment),
        }
    }
}

/// The statement of one line's text, if any: a blank line (no tokens) makes
/// none; a line with an `=` makes a declaration from its two sides; any
/// other line is a bare expression converted to postfix form.
pub open spec fn spec_line_statement(lt: Seq<char>) -> Result<Option<StmtView>, ErrView> {
    match spec_tokenize(lt) {
        Err(e) => Err(e),
        Ok(toks) => {
            if toks.len() == 0 {
                Ok(None)
            } else {
                let k = first_assign(toks, 0);
                if k < toks.len() {
                    match spec_split_decl(toks.take(k)) {
                        Err(e) => Err(e),
                        Ok(na) => Ok(
                            Some(
                                StmtView::Declaration(
                                    DeclView {
                                        name: na.0,
                                        args: na.1,
                                        body: spec_rpn(toks.skip(k + 1)),
                                    },
                                ),
                            ),
                        ),
                    }
                } else {
                    Ok(Some(StmtView::Expression(spec_rpn(toks))))
                }
            }
        },
    }
}

/// The statements of a whole source text from position `from` on, where
/// `from` sits at the start of line number `line`; or the first failure,
/// annotated with its line number.
pub open spec fn spec_parse_from(s: Seq<char>, from: int, line: nat) -> Result<
    Seq<StmtView>,
    ParseErrView,
>
    decreases s.len() - from + 1,
    via spec_parse_from_decreases
{
    let e = line_end(s, from);
    match spec_line_statement(s.subrange(from, e)) {
        Err(err) => Err(ParseErrView { line, error: err }),
        Ok(opt) => {
            let rest = if e >= s.len() {
                Ok(Seq::empty())
            } else {
                spec_parse_from(s, e + 1, line + 1)
            };
            match rest {
                Err(p) => Err(p),
                Ok(ss) => Ok(
                    match opt {
                        Some(st) => seq![st] + ss,
                        None => ss,
                    },
                ),
            }
        },
    }
}

#[via_fn]
proof fn spec_parse_from_decreases(s: Seq<char>, from: int, line: nat) {
    if 0 <= from <= s.len() {
        lemma_line_end_bounds(s, from);
    }
}

/// The statements of a whole source text, one line per statement, blank
/// lines skipped; or the first failure with its 0-based line number.
pub open spec fn spec_parse(s: Seq<char>) -> Result<Seq<StmtView>, ParseErrView> {
    spec_parse_from(s, 0, 0)
}

/// The ghost value of a parsing result.
pub open spec fn parse_result_view(r: Result<Vec<Statement>, ParseError>) -> Result<
    Seq<StmtView>,
    ParseErrView,
> {
    match r {
        Ok(v) => Ok(v.deep_view()),
        Err(e) => Err(e.deep_view()),
    }
}

/// Statements already produced, combined with the outcome of the rest.
pub open spec fn parse_combine(
    pre: Seq<StmtView>,
    rest: Result<Seq<StmtView>, ParseErrView>,
) -> Result<Seq<StmtView>, ParseErrView> {
    match rest {
        Ok(ss) => Ok(pre + ss),
        Err(p) => Err(p),
    }
}

fn peek_not_nl(source: &str, i: usize, n: usize) -> (r: bool)
    requires
        n == source@.len(),
        i <= n,
    ensures
        r == (i < source@.len() && source@[i as int] != '\n'),
{
    if i < n {
        source.get_char(i) != '\n'
    } else {
        false
    }
}

/// Splits a declaration's left-hand side into its name and parameter names,
/// exactly as `spec_split_decl` says.
fn split_declaration(declaration: &Vec<ParseToken>) -> (r: Result<
    (String, Vec<String>),
    CompileError,
>)
    ensures
        match spec_split_decl(declaration.deep_view()) {
            Ok(na) => r matches Ok(p) && p.0@ == na.0 && p.1.deep_view() == na.1,
            Err(e) => r matches Err(err) && err.deep_view() == e,
        },
{
    let ghost lhs = declaration.deep_view();
    if declaration.len() == 0 {
        return Err(CompileError::InvalidAssignment);
    }
    proof {
        assert(lhs[0] == declaration@[0].deep_view());
    }
    let name = match &declaration[0] {
        ParseToken::Identifier(n) => n.clone(),
        _ => {
            return Err(CompileError::InvalidAssignment);
        },
    };
    let n: usize = declaration.len();
    let mut args: Vec<String> = Vec::new();
    let mut j: usize = 1;
    proof {
        assert(lhs.skip(1).subrange(0, 0) =~= Seq::<TokView>::empty());
        assert(args.deep_view() =~= ident_names(lhs.skip(1).subrange(0, 0)));
    }
    while j < n
        invariant
            1 <= j <= n,
            n == declaration@.len(),
            lhs == declaration.deep_view(),
            args.deep_view() == ident_names(lhs.skip(1).subrange(0, j - 1)),
        decreases n - j,
    {
        let ghost pre = args.deep_view();
        proof {
            assert(lhs.skip(1).subrange(0, j as int).drop_last() =~= lhs.skip(1).subrange(
                0,
                j - 1,
            ));
            assert(lhs.skip(1).subrange(0, j as int).last() == lhs[j as int]);
            assert(lhs[j as int] == declaration@[j as int].deep_view());
        }
        match &declaration[j] {
            ParseToken::Identifier(a) => {
                args.push(a.clone());
                proof {
                    assert(args.deep_view() =~= pre.push(declaration@[j as int].deep_view()->Identifier_0));
                    assert(args.deep_view() =~= ident_names(lhs.skip(1).subrange(0, j as int)));
                }
            },
            _ => {
                proof {
                    assert(pre + Seq::<Seq<char>>::empty() =~= pre);
                    assert(args.deep_view() =~= ident_names(lhs.skip(1).subrange(0, j as int)));
                }
            },
        }
        j = j + 1;
    }
    proof {
        assert(lhs.skip(1).subrange(0, n - 1) =~= lhs.skip(1));
    }
    Ok((name, args))
}

/// Parses a whole source text into statements, one line at a time: lex the
/// line, split a declaration at its first `=`, convert to postfix; a blank
/// line yields no statement.  The first failure is returned with its
/// 0-based line number, and nothing is produced.
pub fn parse(source: &str) -> (r: Result<Vec<Statement>, ParseError>)
    ensures
        parse_result_view(r) == spec_parse(source@),
{
    let ghost s = source@;
    let n: usize = source.unicode_len();
    let mut statements: Vec<Statement> = Vec::new();
    let mut start: usize = 0;
    let mut line: usize = 0;
    let mut done = false;
    proof {
        assert(statements.deep_view() =~= Seq::<StmtView>::empty());
        match spec_parse_from(s, 0, 0) {
            Ok(ss) => {
                assert(Seq::<StmtView>::empty() + ss =~= ss);
            },
            Err(_) => {},
        }
    }
    while !done
        invariant
            start <= n,
            line <= start,
            n == s.len(),
            source@ == s,
            !done ==> spec_parse(s) == parse_combine(
                statements.deep_view(),
                spec_parse_from(s, start as int, line as nat),
            ),
            done ==> spec_parse(s) == Ok::<Seq<StmtView>, ParseErrView>(statements.deep_view()),
        decreases n - start + (if done {
            0 as int
        } else {
            1 as int
        }),
    {
        let ghost stmts_pre = statements.deep_view();
        let mut e: usize = start;
        while peek_not_nl(source, e, n)
            invariant
                start <= e <= n,
                n == s.len(),
                source@ == s,
                forall|j: int| start <= j < e ==> s[j] != '\n',
            decreases n - e,
        {
            e = e + 1;
        }
        proof {
            lemma_line_end_is(s, start as int, e as int);
        }
        let lt = source.substring_char(start, e);
        let ghost ltv = s.subrange(start as int, e as int);
        proof {
            assert(lt@ == ltv);
        }
        match tokenize(lt) {
            Err(err) => {
                return Err(ParseError { line, error: err });
            },
            Ok(toks) => {
                let ghost toksv = toks.deep_view();
                if toks.len() > 0 {
                    let tn: usize = toks.len();
                    let mut k: usize = 0;
                    while k < tn && !toks[k].is_assign()
                        invariant
                            k <= tn,
                            tn == toks@.len(),
                            toksv == toks.deep_view(),
                            forall|j: int| 0 <= j < k ==> !(toksv[j] is Assign),
                        decreases tn - k,
                    {
                        proof {
                            assert(toksv[k as int] == toks@[k as int].deep_view());
                        }
                        k = k + 1;
                    }
                    proof {
                        if k < tn {
                            assert(toksv[k as int] == toks@[k as int].deep_view());
                        }
                        lemma_first_assign_is(toksv, k as int);
                    }
                    if k < tn {
                        let lhs = dup_range(&toks, 0, k);
                        let rhs = dup_range(&toks, k + 1, tn);
                        proof {
                            assert(lhs.deep_view() =~= toksv.take(k as int));
                            assert(rhs.deep_view() =~= toksv.skip(k as int + 1));
                        }
                        match split_declaration(&lhs) {
                            Err(err) => {
                                return Err(ParseError { line, error: err });
                            },
                            Ok((name, args)) => {
                                let ghost namev = name@;
                                let ghost argsv = args.deep_view();
                                let body = match infix_to_rpn(rhs) {
                                    Ok(b) => b,
                                    Err(_) => {
                                        proof {
                                            assert(false);
                                        }
                                        Vec::new()
                                    },
                                };
                                statements.push(
                                    Statement::Declaration(Declaration { name, args, body }),
                                );
                                proof {
                                    assert(statements.deep_view() =~= stmts_pre.push(
                                        StmtView::Declaration(
                                            DeclView {
                                                name: namev,
                                                args: argsv,
                                                body: spec_rpn(toksv.skip(k as int + 1)),
                                            },
                                        ),
                                    ));
                                }
                            },
                        }
                    } else {
                        let all = dup_range(&toks, 0, tn);
                        proof {
                            assert(all.deep_view() =~= toksv);
                        }
                        let body = match infix_to_rpn(all) {
                            Ok(b) => b,
                            Err(_) => {
                                proof {
                                    assert(false);
                                }
                                Vec::new()
                            },
                        };
                        statements.push(Statement::Expression(body));
                        proof {
                            assert(statements.deep_view() =~= stmts_pre.push(
                                StmtView::Expression(spec_rpn(toksv)),
                            ));
                        }
                    }
                }
            },
        }
        proof {
            let lres = spec_line_statement(ltv);
            assert(lres is Ok);
            let opt = lres->Ok_0;
            let opt_seq: Seq<StmtView> = match opt {
                Some(st) => seq![st],
                None => Seq::empty(),
            };
            assert(statements.deep_view() =~= stmts_pre + opt_seq);
        }
        if e >= n {
            done = true;
            proof {
                let lres = spec_line_statement(ltv);
                let opt = lres->Ok_0;
                let opt_seq: Seq<StmtView> = match opt {
                    Some(st) => seq![st],
                    None => Seq::empty(),
                };
                match opt {
                    Some(st) => {
                        assert(seq![st] + Seq::<StmtView>::empty() =~= opt_seq);
                    },
                    None => {},
                }
                assert(spec_parse_from(s, start as int, line as nat) == Ok::<
                    Seq<StmtView>,
                    ParseErrView,
                >(opt_seq));
                assert(statements.deep_view() == stmts_pre + opt_seq);
                assert(spec_parse(s) == Ok::<Seq<StmtView>, ParseErrView>(stmts_pre + opt_seq));
            }
        } else {
            proof {
                let lres = spec_line_statement(ltv);
                let opt = lres->Ok_0;
                let opt_seq: Seq<StmtView> = match opt {
                    Some(st) => seq![st],
                    None => Seq::empty(),
                };
                let rest = spec_parse_from(s, e as int + 1, (line + 1) as nat);
                match rest {
                    Ok(ss) => {
                        match opt {
                            Some(st) => {
                                assert(opt_seq + ss =~= seq![st] + ss);
                            },
                            None => {
                                assert(opt_seq + ss =~= ss);
                            },
                        }
                        assert(spec_parse_from(s, start as int, line as nat) == Ok::<
                            Seq<StmtView>,
                            ParseErrView,
                        >(opt_seq + ss));
                    },
                    Err(p) => {
                        assert(spec_parse_from(s, start as int, line as nat) == Err::<
                            Seq<StmtView>,
                            ParseErrView,
                        >(p));
                    },
                }
                lemma_parse_combine_shift(stmts_pre, opt_seq, rest);
                assert(statements.deep_view() == stmts_pre + opt_seq);
                assert(spec_parse(s) == parse_combine(statements.deep_view(), rest));
            }
            start = e + 1;
            line = line + 1;
        }
    }
    Ok(statements)
}

proof fn lemma_parse_combine_shift(
    pre: Seq<StmtView>,
    mid: Seq<StmtView>,
    r: Result<Seq<StmtView>, ParseErrView>,
)
    ensures
        parse_combine(
            pre,
            match r {
                Ok(ss) => Ok(mid + ss),
                Err(p) => Err(p),
            },
        ) == parse_combine(pre + mid, r),
{
    match r {
        Ok(ss) => {
            assert(pre + (mid + ss) =~= (pre + mid) + ss);
        },
        Err(_) => {},
    }
}

} // verus!
