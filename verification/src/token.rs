use vstd::prelude::*;

verus! {

/// A lexical token of the expression language.
///
/// `Number` carries the literal's source text (digits and at most one dot,
/// at least one digit): the pipeline never computes with the value, it only
/// checks the literal's shape and later prints it back into the emitted IR,
/// so the text itself is the faithful representation.
#[derive(Debug)]
pub enum ParseToken {
    Add,
    Subtract,
    Multiply,
    Divide,
    Exponent,
    Assign,
    OpenParen,
    CloseParen,
    Comma,
    Identifier(String),
    Number(String),
}

/// Ghost mirror of `ParseToken`, with text held as `Seq<char>`, so that
/// contracts can speak of whole token sequences by value.
pub enum TokView {
    Add,
    Subtract,
    Multiply,
    Divide,
    Exponent,
    Assign,
    OpenParen,
    CloseParen,
    Comma,
    Identifier(Seq<char>),
    Number(Seq<char>),
}

impl DeepView for ParseToken {
    type V = TokView;

    open spec fn deep_view(&self) -> TokView {
        match self {
            ParseToken::Add => TokView::Add,
            ParseToken::Subtract => TokView::Subtract,
            ParseToken::Multiply => TokView::Multiply,
            ParseToken::Divide => TokView::Divide,
            ParseToken::Exponent => TokView::Exponent,
            ParseToken::Assign => TokView::Assign,
            ParseToken::OpenParen => TokView::OpenParen,
            ParseToken::CloseParen => TokView::CloseParen,
            ParseToken::Comma => TokView::Comma,
            ParseToken::Identifier(s) => TokView::Identifier(s@),
            ParseToken::Number(s) => TokView::Number(s@),
        }
    }
}

impl View for ParseToken {
    type V = TokView;

    open spec fn view(&self) -> TokView {
        self.deep_view()
    }
}

/// An operator token: one of `+ - * / ^`.
pub open spec fn spec_is_operator(t: TokView) -> bool {
    match t {
        TokView::Add
        | TokView::Subtract
        | TokView::Multiply
        | TokView::Divide
        | TokView::Exponent => true,
        _ => false,
    }
}

/// Operator precedence: additive 2, multiplicative 3, exponent 4; every
/// structural token sits at 1 so it never wins a precedence comparison.
pub open spec fn spec_precedence(t: TokView) -> int {
    match t {
        TokView::Add | TokView::Subtract => 2,
        TokView::Multiply | TokView::Divide => 3,
        TokView::Exponent => 4,
        _ => 1,
    }
}

/// `+ - * /` associate to the left; `^` (and everything else) does not.
pub open spec fn spec_is_left_associative(t: TokView) -> bool {
    match t {
        TokView::Add | TokView::Subtract | TokView::Multiply | TokView::Divide => true,
        _ => false,
    }
}

impl ParseToken {
    /// Whether this token is one of the five arithmetic operators.
    pub fn is_operator(&self) -> (r: bool)
        ensures
            r == spec_is_operator(self@),
    {
        match self {
            ParseToken::Add
            | ParseToken::Subtract
            | ParseToken::Multiply
            | ParseToken::Divide
            | ParseToken::Exponent => true,
            _ => false,
        }
    }

    /// Whether this token is a numeric literal.
    pub fn is_number(&self) -> (r: bool)
        ensures
            r == (self@ is Number),
    {
        match self {
            ParseToken::Number(_) => true,
            _ => false,
        }
    }

    /// Whether this token is an identifier.
    pub fn is_identifier(&self) -> (r: bool)
        ensures
            r == (self@ is Identifier),
    {
        match self {
            ParseToken::Identifier(_) => true,
            _ => false,
        }
    }

    pub(crate) fn precedence(&self) -> (p: u32)
        ensures
            p as int == spec_precedence(self@),
    {
        match self {
            ParseToken::Add | ParseToken::Subtract => 2,
            ParseToken::Multiply | ParseToken::Divide => 3,
            ParseToken::Exponent => 4,
            _ => 1,
        }
    }

    pub(crate) fn is_left_associative(&self) -> (r: bool)
        ensures
            r == spec_is_left_associative(self@),
    {
        match self {
            ParseToken::Add
            | ParseToken::Subtract
            | ParseToken::Multiply
            | ParseToken::Divide => true,
            _ => false,
        }
    }

    pub(crate) fn is_open_paren(&self) -> (r: bool)
        ensures
            r == (self@ is OpenParen),
    {
        match self {
            ParseToken::OpenParen => true,
            _ => false,
        }
    }

    /// An owned copy of this token.
    pub fn dup(&self) -> (t: ParseToken)
        ensures
            t == *self,
    {
        match self {
            ParseToken::Add => ParseToken::Add,
            ParseToken::Subtract => ParseToken::Subtract,
            ParseToken::Multiply => ParseToken::Multiply,
            ParseToken::Divide => ParseToken::Divide,
            ParseToken::Exponent => ParseToken::Exponent,
            ParseToken::Assign => ParseToken::Assign,
            ParseToken::OpenParen => ParseToken::OpenParen,
            ParseToken::CloseParen => ParseToken::CloseParen,
            ParseToken::Comma => ParseToken::Comma,
            ParseToken::Identifier(s) => ParseToken::Identifier(s.clone()),
            ParseToken::Number(s) => ParseToken::Number(s.clone()),
        }
    }

    pub(crate) fn is_assign(&self) -> (r: bool)
        ensures
            r == (self@ is Assign),
    {
        match self {
            ParseToken::Assign => true,
            _ => false,
        }
    }
}

impl PartialEq for ParseToken {
    fn eq(&self, other: &ParseToken) -> (r: bool) {
        match (self, other) {
            (ParseToken::Add, ParseToken::Add) => true,
            (ParseToken::Subtract, ParseToken::Subtract) => true,
            (ParseToken::Multiply, ParseToken::Multiply) => true,
            (ParseToken::Divide, ParseToken::Divide) => true,
            (ParseToken::Exponent, ParseToken::Exponent) => true,
            (ParseToken::Assign, ParseToken::Assign) => true,
            (ParseToken::OpenParen, ParseToken::OpenParen) => true,
            (ParseToken::CloseParen, ParseToken::CloseParen) => true,
            (ParseToken::Comma, ParseToken::Comma) => true,
            (ParseToken::Identifier(a), ParseToken::Identifier(b)) => crate::text::string_eq(
                a,
                b,
            ),
            (ParseToken::Number(a), ParseToken::Number(b)) => crate::text::string_eq(a, b),
            _ => false,
        }
    }
}

impl vstd::std_specs::cmp::PartialEqSpecImpl for ParseToken {
    open spec fn obeys_eq_spec() -> bool {
        true
    }

    open spec fn eq_spec(&self, other: &ParseToken) -> bool {
        self.deep_view() == other.deep_view()
    }
}

/// An owned copy of the token range `[from, to)`.
pub(crate) fn dup_range(toks: &Vec<ParseToken>, from: usize, to: usize) -> (r: Vec<ParseToken>)
    requires
        from <= to <= toks@.len(),
    ensures
        r.deep_view() == toks.deep_view().subrange(from as int, to as int),
{
    let mut r: Vec<ParseToken> = Vec::new();
    let mut j: usize = from;
    while j < to
        invariant
            from <= j <= to <= toks@.len(),
            r.deep_view() == toks.deep_view().subrange(from as int, j as int),
        decreases to - j,
    {
        let ghost pre = r.deep_view();
        r.push(toks[j].dup());
        proof {
            assert(toks.deep_view()[j as int] == toks@[j as int].deep_view());
            assert(r.deep_view() =~= pre.push(toks.deep_view()[j as int]));
            assert(r.deep_view() =~= toks.deep_view().subrange(from as int, j as int + 1));
        }
        j = j + 1;
    }
    proof {
        assert(r.deep_view() =~= toks.deep_view().subrange(from as int, to as int));
    }
    r
}

/// A resolved operand for direct expression evaluation.  Part of the public
/// token vocabulary; the code-generating pipeline itself does not consume it.
pub enum EvalUnit {
    Number(String),
    Variable(String),
    Operation(String, i32),
}

} // verus!
