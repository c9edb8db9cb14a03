use crate::error::{CompileError, ErrView};
use crate::format::spec_program;
use crate::ir::{FuncView, Function, InstrView, Instruction, IrType, OpView, Operation};
use crate::parser::{Statement, StmtView};
use crate::text::{decimal, lemma_dec_injective, spec_dec, string_eq};
use crate::token::{dup_range, ParseToken, TokView};
use vstd::prelude::*;
use vstd::string::StringExecFns;

verus! {

/// The versioned IR name of source identifier `id` at version `v`: `%id_v`.
pub open spec fn spec_var_name(id: Seq<char>, v: nat) -> Seq<char> {
    "%"@ + id + "_"@ + spec_dec(v)
}

/// The IR name of temporary number `n`: `%_n`.
pub open spec fn spec_temp_name(n: nat) -> Seq<char> {
    "%_"@ + spec_dec(n)
}

fn var_name(identifier: &String, v: u64) -> (s: String)
    ensures
        s@ == spec_var_name(identifier@, v as nat),
{
    let mut s = String::from_str("%");
    s.append(identifier.as_str());
    s.append("_");
    let d = decimal(v);
    s.append(d.as_str());
    s
}

fn temp_name(n: u64) -> (s: String)
    ensures
        s@ == spec_temp_name(n as nat),
{
    let mut s = String::from_str("%_");
    let d = decimal(n);
    s.append(d.as_str());
    s
}

/// Ghost state of a `VariableCounter`: the count of issued temporaries and
/// the current version of each bound identifier.
pub struct CounterView {
    pub temp: nat,
    pub vars: Map<Seq<char>, nat>,
}

/// Compilation state scoped to one function body: a monotone temporary
/// counter, and a mapping from source identifier to its current version so
/// that every emitted IR name is assigned exactly once.
pub struct VariableCounter {
    tempcount: u64,
    pairs: Vec<(String, u64)>,
}

spec fn pairs_map(ps: Seq<(String, u64)>) -> Map<Seq<char>, nat>
    decreases ps.len(),
{
    if ps.len() == 0 {
        Map::empty()
    } else {
        pairs_map(ps.drop_last()).insert(ps.last().0@, ps.last().1 as nat)
    }
}

impl View for VariableCounter {
    type V = CounterView;

    closed spec fn view(&self) -> CounterView {
        CounterView { temp: self.tempcount as nat, vars: pairs_map(self.pairs@) }
    }
}

proof fn lemma_pairs_absent(ps: Seq<(String, u64)>, k: Seq<char>)
    requires
        forall|i: int| 0 <= i < ps.len() ==> (#[trigger] ps[i]).0@ != k,
    ensures
        !pairs_map(ps).contains_key(k),
    decreases ps.len(),
{
    if ps.len() > 0 {
        assert forall|i: int| 0 <= i < ps.drop_last().len() implies (#[trigger] ps.drop_last()[i]).0@
            != k by {
            assert(ps.drop_last()[i] == ps[i]);
        }
        lemma_pairs_absent(ps.drop_last(), k);
        assert(ps.last() == ps[ps.len() - 1]);
    }
}

proof fn lemma_pairs_found(ps: Seq<(String, u64)>, k: Seq<char>, i: int)
    requires
        0 <= i < ps.len(),
        ps[i].0@ == k,
        forall|j: int| i < j < ps.len() ==> (#[trigger] ps[j]).0@ != k,
    ensures
        pairs_map(ps).contains_key(k),
        pairs_map(ps)[k] == ps[i].1 as nat,
    decreases ps.len(),
{
    assert(ps.last() == ps[ps.len() - 1]);
    if i == ps.len() - 1 {
    } else {
        assert(ps.last().0@ != k);
        assert forall|j: int| i < j < ps.drop_last().len() implies (#[trigger] ps.drop_last()[j]).0@
            != k by {
            assert(ps.drop_last()[j] == ps[j]);
        }
        assert(ps.drop_last()[i] == ps[i]);
        lemma_pairs_found(ps.drop_last(), k, i);
    }
}

impl VariableCounter {
    /// A fresh counter: no temporaries issued, no identifiers bound.
    pub fn new() -> (c: VariableCounter)
        ensures
            c@.temp == 0,
            c@.vars == Map::<Seq<char>, nat>::empty(),
    {
        let c = VariableCounter { tempcount: 0, pairs: Vec::new() };
        proof {
            assert(c.pairs@ =~= Seq::<(String, u64)>::empty());
        }
        c
    }

    fn find_version(&self, identifier: &String) -> (r: Option<u64>)
        ensures
            match r {
                Some(v) => self@.vars.contains_key(identifier@) && self@.vars[identifier@]
                    == v as nat,
                None => !self@.vars.contains_key(identifier@),
            },
    {
        let n: usize = self.pairs.len();
        let mut i: usize = n;
        while i > 0
            invariant
                i <= n,
                n == self.pairs@.len(),
                forall|j: int| i <= j < n ==> (#[trigger] self.pairs@[j]).0@ != identifier@,
            decreases i,
        {
            i = i - 1;
            if string_eq(&self.pairs[i].0, identifier) {
                let v = self.pairs[i].1;
                proof {
                    lemma_pairs_found(self.pairs@, identifier@, i as int);
                }
                return Some(v);
            }
        }
        proof {
            lemma_pairs_absent(self.pairs@, identifier@);
        }
        None
    }

    /// The versioned name of `identifier`, binding it at version 0 if it was
    /// unbound; an already-bound identifier keeps its current version.
    pub fn next_var(&mut self, identifier: String) -> (r: String)
        ensures
            final(self)@.temp == old(self)@.temp,
            old(self)@.vars.contains_key(identifier@) ==> final(self)@.vars == old(self)@.vars
                && r@ == spec_var_name(identifier@, old(self)@.vars[identifier@]),
            !old(self)@.vars.contains_key(identifier@) ==> final(self)@.vars == old(
                self,
            )@.vars.insert(identifier@, 0) && r@ == spec_var_name(identifier@, 0),
    {
        match self.find_version(&identifier) {
            Some(v) => var_name(&identifier, v),
            None => {
                let r = var_name(&identifier, 0);
                let ghost ps = self.pairs@;
                self.pairs.push((identifier, 0));
                proof {
                    assert(self.pairs@.drop_last() =~= ps);
                    assert(self.pairs@.last().1 as nat == 0);
                }
                r
            },
        }
    }

    /// The current versioned name of `identifier`; fails with `NameError` if
    /// it was never bound.
    pub fn get(&self, identifier: String) -> (r: Result<String, CompileError>)
        ensures
            self@.vars.contains_key(identifier@) ==> (r matches Ok(name) && name@
                == spec_var_name(identifier@, self@.vars[identifier@])),
            !self@.vars.contains_key(identifier@) ==> (r matches Err(e) && e.deep_view()
                == ErrView::NameError(identifier@)),
    {
        match self.find_version(&identifier) {
            Some(v) => Ok(var_name(&identifier, v)),
            None => Err(CompileError::NameError(identifier)),
        }
    }

    /// The name of a fresh temporary, advancing the counter.
    pub fn next_temp(&mut self) -> (r: String)
        requires
            old(self)@.temp < u64::MAX,
        ensures
            final(self)@.temp == old(self)@.temp + 1,
            final(self)@.vars == old(self)@.vars,
            r@ == spec_temp_name(old(self)@.temp + 1),
    {
        self.tempcount = self.tempcount + 1;
        temp_name(self.tempcount)
    }

    /// The name of the most recently issued temporary.
    pub fn current_temp(&self) -> (r: String)
        ensures
            r@ == spec_temp_name(self@.temp),
    {
        temp_name(self.tempcount)
    }
}

/// Arities of the declarations compiled so far, by name; a redeclaration
/// replaces the earlier arity.  A call may only name a declaration from an
/// earlier line: neither recursion nor a forward reference resolves.
pub struct FnTable {
    entries: Vec<(String, usize)>,
}

spec fn entries_map(es: Seq<(String, usize)>) -> Map<Seq<char>, nat>
    decreases es.len(),
{
    if es.len() == 0 {
        Map::empty()
    } else {
        entries_map(es.drop_last()).insert(es.last().0@, es.last().1 as nat)
    }
}

impl View for FnTable {
    type V = Map<Seq<char>, nat>;

    closed spec fn view(&self) -> Map<Seq<char>, nat> {
        entries_map(self.entries@)
    }
}

proof fn lemma_entries_absent(es: Seq<(String, usize)>, k: Seq<char>)
    requires
        forall|i: int| 0 <= i < es.len() ==> (#[trigger] es[i]).0@ != k,
    ensures
        !entries_map(es).contains_key(k),
    decreases es.len(),
{
    if es.len() > 0 {
        assert forall|i: int| 0 <= i < es.drop_last().len() implies (#[trigger] es.drop_last()[i]).0@
            != k by {
            assert(es.drop_last()[i] == es[i]);
        }
        lemma_entries_absent(es.drop_last(), k);
        assert(es.last() == es[es.len() - 1]);
    }
}

proof fn lemma_entries_found(es: Seq<(String, usize)>, k: Seq<char>, i: int)
    requires
        0 <= i < es.len(),
        es[i].0@ == k,
        forall|j: int| i < j < es.len() ==> (#[trigger] es[j]).0@ != k,
    ensures
        entries_map(es).contains_key(k),
        entries_map(es)[k] == es[i].1 as nat,
    decreases es.len(),
{
    assert(es.last() == es[es.len() - 1]);
    if i == es.len() - 1 {
    } else {
        assert(es.last().0@ != k);
        assert forall|j: int| i < j < es.drop_last().len() implies (#[trigger] es.drop_last()[j]).0@
            != k by {
            assert(es.drop_last()[j] == es[j]);
        }
        assert(es.drop_last()[i] == es[i]);
        lemma_entries_found(es.drop_last(), k, i);
    }
}

impl FnTable {
    /// A table with no declarations.
    pub fn new() -> (t: FnTable)
        ensures
            t@ == Map::<Seq<char>, nat>::empty(),
    {
        let t = FnTable { entries: Vec::new() };
        proof {
            assert(t.entries@ =~= Seq::<(String, usize)>::empty());
        }
        t
    }

    /// Records a declaration's parameter count under its name.
    pub fn register(&mut self, name: String, arity: usize)
        ensures
            final(self)@ == old(self)@.insert(name@, arity as nat),
    {
        let ghost es = self.entries@;
        self.entries.push((name, arity));
        proof {
            assert(self.entries@.drop_last() =~= es);
        }
    }

    /// The declared arity of `name`, if any declaration bound it.
    pub fn lookup(&self, name: &String) -> (r: Option<usize>)
        ensures
            match r {
                Some(k) => self@.contains_key(name@) && self@[name@] == k as nat,
                None => !self@.contains_key(name@),
            },
    {
        let n: usize = self.entries.len();
        let mut i: usize = n;
        while i > 0
            invariant
                i <= n,
                n == self.entries@.len(),
                forall|j: int| i <= j < n ==> (#[trigger] self.entries@[j]).0@ != name@,
            decreases i,
        {
            i = i - 1;
            if string_eq(&self.entries[i].0, name) {
                let k = self.entries[i].1;
                proof {
                    lemma_entries_found(self.entries@, name@, i as int);
                }
                return Some(k);
            }
        }
        proof {
            lemma_entries_absent(self.entries@, name@);
        }
        None
    }
}

/// The instruction a single operator token emits, over resolved operands:
/// `^` lowers to a `$pow` call, the rest to their mnemonics.
pub open spec fn spec_op_of(t: TokView, x: Seq<char>, y: Seq<char>) -> OpView
    recommends
        crate::token::spec_is_operator(t),
{
    match t {
        TokView::Add => OpView::Add(x, y),
        TokView::Subtract => OpView::Sub(x, y),
        TokView::Multiply => OpView::Mul(x, y),
        TokView::Divide => OpView::Div(x, y),
        TokView::Exponent => OpView::Pow(x, y),
        _ => OpView::Add(x, y),
    }
}

fn make_op(t: &ParseToken, x: String, y: String) -> (op: Operation)
    requires
        crate::token::spec_is_operator(t.deep_view()),
    ensures
        op.deep_view() == spec_op_of(t.deep_view(), x@, y@),
{
    match t {
        ParseToken::Add => Operation::Add(x, y),
        ParseToken::Subtract => Operation::Sub(x, y),
        ParseToken::Multiply => Operation::Mul(x, y),
        ParseToken::Divide => Operation::Div(x, y),
        _ => Operation::Pow(x, y),
    }
}

/// One left-to-right pass of postfix evaluation into instructions, from
/// token `i` on: the value stack holds resolved names and literal texts;
/// a literal is pushed as it stands; an identifier resolves as a bound
/// variable first, then as a declared function (popping as many operands
/// as the declaration's arity); an operator pops its two operands (the
/// right-hand one on top) and emits a fresh temporary.  On success: the
/// emitted instructions, the final temporary count, and the name left on
/// top of the stack.  On failure: the error, with the temporary count at
/// that point.
pub open spec fn spec_eval(
    body: Seq<TokView>,
    i: int,
    temp: nat,
    vars: Map<Seq<char>, nat>,
    decls: Map<Seq<char>, nat>,
    stack: Seq<Seq<char>>,
    instrs: Seq<InstrView>,
) -> Result<(Seq<InstrView>, nat, Seq<char>), (ErrView, nat)>
    decreases body.len() - i,
{
    if i < 0 || i >= body.len() {
        if stack.len() == 0 {
            Err((ErrView::OperandError, temp))
        } else {
            Ok((instrs, temp, stack.last()))
        }
    } else {
        match body[i] {
            TokView::Number(text) => spec_eval(
                body,
                i + 1,
                temp,
                vars,
                decls,
                stack.push(text),
                instrs,
            ),
            TokView::Identifier(name) => {
                if vars.contains_key(name) {
                    spec_eval(
                        body,
                        i + 1,
                        temp,
                        vars,
                        decls,
                        stack.push(spec_var_name(name, vars[name])),
                        instrs,
                    )
                } else if decls.contains_key(name) {
                    let k = decls[name];
                    if stack.len() < k {
                        Err((ErrView::OperandError, temp))
                    } else {
                        let dest = spec_temp_name(temp + 1);
                        let args = stack.skip(stack.len() - k);
                        spec_eval(
                            body,
                            i + 1,
                            temp + 1,
                            vars,
                            decls,
                            stack.take(stack.len() - k).push(dest),
                            instrs.push(
                                InstrView {
                                    dest,
                                    assign_type: IrType::Double,
                                    op: OpView::Call(name, args),
                                },
                            ),
                        )
                    }
                } else {
                    Err((ErrView::NameError(name), temp))
                }
            },
            TokView::Add | TokView::Subtract | TokView::Multiply | TokView::Divide
                | TokView::Exponent => {
                if stack.len() < 2 {
                    Err((ErrView::OperandError, temp))
                } else {
                    let y = stack.last();
                    let x = stack[stack.len() - 2];
                    let dest = spec_temp_name(temp + 1);
                    spec_eval(
                        body,
                        i + 1,
                        temp + 1,
                        vars,
                        decls,
                        stack.take(stack.len() - 2).push(dest),
                        instrs.push(
                            InstrView {
                                dest,
                                assign_type: IrType::Double,
                                op: spec_op_of(body[i], x, y),
                            },
                        ),
                    )
                }
            },
            _ => Err((ErrView::InvalidToken(body[i]), temp)),
        }
    }
}

/// The temporary counter grows by at most one per remaining token.
proof fn lemma_eval_temp_bound(
    body: Seq<TokView>,
    i: int,
    temp: nat,
    vars: Map<Seq<char>, nat>,
    decls: Map<Seq<char>, nat>,
    stack: Seq<Seq<char>>,
    instrs: Seq<InstrView>,
)
    requires
        0 <= i <= body.len(),
    ensures
        match spec_eval(body, i, temp, vars, decls, stack, instrs) {
            Ok(t) => t.1 <= temp + (body.len() - i),
            Err(e) => e.1 <= temp + (body.len() - i),
        },
    decreases body.len() - i,
{
    if i < body.len() {
        match body[i] {
            TokView::Number(text) => {
                lemma_eval_temp_bound(body, i + 1, temp, vars, decls, stack.push(text), instrs);
            },
            TokView::Identifier(name) => {
                if vars.contains_key(name) {
                    lemma_eval_temp_bound(
                        body,
                        i + 1,
                        temp,
                        vars,
                        decls,
                        stack.push(spec_var_name(name, vars[name])),
                        instrs,
                    );
                } else if decls.contains_key(name) {
                    let k = decls[name];
                    if stack.len() >= k {
                        let dest = spec_temp_name(temp + 1);
                        let args = stack.skip(stack.len() - k);
                        lemma_eval_temp_bound(
                            body,
                            i + 1,
                            temp + 1,
                            vars,
                            decls,
                            stack.take(stack.len() - k).push(dest),
                            instrs.push(
                                InstrView {
                                    dest,
                                    assign_type: IrType::Double,
                                    op: OpView::Call(name, args),
                                },
                            ),
                        );
                    }
                }
            },
            TokView::Add | TokView::Subtract | TokView::Multiply | TokView::Divide
                | TokView::Exponent => {
                if stack.len() >= 2 {
                    let y = stack.last();
                    let x = stack[stack.len() - 2];
                    let dest = spec_temp_name(temp + 1);
                    lemma_eval_temp_bound(
                        body,
                        i + 1,
                        temp + 1,
                        vars,
                        decls,
                        stack.take(stack.len() - 2).push(dest),
                        instrs.push(
                            InstrView {
                                dest,
                                assign_type: IrType::Double,
                                op: spec_op_of(body[i], x, y),
                            },
                        ),
                    );
                }
            },
            _ => {},
        }
    }
}

/// Evaluates a postfix token stream into temporary-assignment instructions,
/// exactly as `spec_eval` says, against `counter`'s current state and the
/// declared arities in `decls`.  Returns the instructions and the resolved
/// name of the body's final value; the counter's bindings are unchanged,
/// its temporary count advanced once per emitted instruction.
pub fn compile_expr(
    expr: Vec<ParseToken>,
    counter: &mut VariableCounter,
    decls: &FnTable,
) -> (r: Result<(Vec<Instruction>, String), CompileError>)
    requires
        old(counter)@.temp + expr@.len() <= u64::MAX,
    ensures
        final(counter)@.vars == old(counter)@.vars,
        match spec_eval(
            expr.deep_view(),
            0,
            old(counter)@.temp,
            old(counter)@.vars,
            decls@,
            Seq::empty(),
            Seq::empty(),
        ) {
            Ok(t) => r matches Ok(p) && p.0.deep_view() == t.0 && final(counter)@.temp == t.1
                && p.1@ == t.2,
            Err(e) => r matches Err(err) && err.deep_view() == e.0 && final(counter)@.temp == e.1,
        },
{
    let ghost bodyv = expr.deep_view();
    let n: usize = expr.len();
    let mut instrs: Vec<Instruction> = Vec::new();
    let mut values: Vec<String> = Vec::new();
    let mut i: usize = 0;
    proof {
        assert(instrs.deep_view() =~= Seq::<InstrView>::empty());
        assert(values.deep_view() =~= Seq::<Seq<char>>::empty());
    }
    while i < n
        invariant
            i <= n,
            n == expr@.len(),
            bodyv == expr.deep_view(),
            counter@.vars == old(counter)@.vars,
            counter@.temp <= old(counter)@.temp + i,
            old(counter)@.temp + n <= u64::MAX,
            spec_eval(bodyv, 0, old(counter)@.temp, old(counter)@.vars, decls@, Seq::empty(), Seq::empty()) == spec_eval(
                bodyv,
                i as int,
                counter@.temp,
                old(counter)@.vars,
                decls@,
                values.deep_view(),
                instrs.deep_view(),
            ),
        decreases n - i,
    {
        let ghost st_pre = values.deep_view();
        let ghost in_pre = instrs.deep_view();
        let ghost tcur = counter@.temp;
        let t = expr[i].dup();
        proof {
            assert(bodyv[i as int] == expr@[i as int].deep_view());
        }
        match &t {
            ParseToken::Number(text) => {
                values.push(text.clone());
                proof {
                    assert(values.deep_view() =~= st_pre.push(text@));
                }
            },
            ParseToken::Identifier(name) => {
                match counter.get(name.clone()) {
                    Ok(resolved) => {
                        proof {
                            assert(resolved@ == spec_var_name(name@, old(counter)@.vars[name@]));
                        }
                        values.push(resolved);
                        proof {
                            assert(values.deep_view() =~= st_pre.push(
                                spec_var_name(name@, old(counter)@.vars[name@]),
                            ));
                        }
                    },
                    Err(_) => {
                        match decls.lookup(name) {
                            Some(k) => {
                                if values.len() < k {
                                    proof {
                                        assert(spec_eval(
                                            bodyv,
                                            i as int,
                                            tcur,
                                            old(counter)@.vars,
                                            decls@,
                                            st_pre,
                                            in_pre,
                                        ) == Err::<(Seq<InstrView>, nat, Seq<char>), (ErrView, nat)>((
                                            ErrView::OperandError,
                                            tcur,
                                        )));
                                    }
                                    return Err(CompileError::OperandError);
                                }
                                let at = values.len() - k;
                                let args = values.split_off(at);
                                let ghost argsv = args.deep_view();
                                proof {
                                    assert(argsv =~= st_pre.skip(st_pre.len() - k as int));
                                    assert(values.deep_view() =~= st_pre.take(
                                        st_pre.len() - k as int,
                                    ));
                                }
                                let dest = counter.next_temp();
                                let ghost namev = name@;
                                let instr = Instruction::new(
                                    dest.clone(),
                                    Operation::Call(name.clone(), args),
                                );
                                proof {
                                    assert(instr.deep_view() == (InstrView {
                                        dest: spec_temp_name(tcur + 1),
                                        assign_type: IrType::Double,
                                        op: OpView::Call(namev, argsv),
                                    }));
                                }
                                let ghost vals_mid = values.deep_view();
                                instrs.push(instr);
                                values.push(dest);
                                proof {
                                    assert(instrs.deep_view() =~= in_pre.push(
                                        InstrView {
                                            dest: spec_temp_name(tcur + 1),
                                            assign_type: IrType::Double,
                                            op: OpView::Call(namev, argsv),
                                        },
                                    ));
                                    assert(values.deep_view() =~= vals_mid.push(
                                        spec_temp_name(tcur + 1),
                                    ));
                                }
                            },
                            None => {
                                proof {
                                    assert(spec_eval(
                                        bodyv,
                                        i as int,
                                        tcur,
                                        old(counter)@.vars,
                                        decls@,
                                        st_pre,
                                        in_pre,
                                    ) == Err::<(Seq<InstrView>, nat, Seq<char>), (ErrView, nat)>((
                                        ErrView::NameError(name@),
                                        tcur,
                                    )));
                                }
                                return Err(CompileError::NameError(name.clone()));
                            },
                        }
                    },
                }
            },
            ParseToken::Add
            | ParseToken::Subtract
            | ParseToken::Multiply
            | ParseToken::Divide
            | ParseToken::Exponent => {
                if values.len() < 2 {
                    proof {
                        assert(spec_eval(bodyv, i as int, tcur, old(counter)@.vars, decls@, st_pre, in_pre)
                            == Err::<(Seq<InstrView>, nat, Seq<char>), (ErrView, nat)>((
                            ErrView::OperandError,
                            tcur,
                        )));
                    }
                    return Err(CompileError::OperandError);
                }
                let ghost y_s = st_pre.last();
                let ghost x_s = st_pre[st_pre.len() - 2];
                let y = values.pop().unwrap();
                let x = values.pop().unwrap();
                proof {
                    assert(y@ == y_s);
                    assert(x@ == x_s);
                    assert(values.deep_view() =~= st_pre.take(st_pre.len() - 2));
                }
                let dest = counter.next_temp();
                let op = make_op(&t, x, y);
                let instr = Instruction::new(dest.clone(), op);
                proof {
                    assert(instr.deep_view() == (InstrView {
                        dest: spec_temp_name(tcur + 1),
                        assign_type: IrType::Double,
                        op: spec_op_of(bodyv[i as int], x_s, y_s),
                    }));
                }
                let ghost vals_mid = values.deep_view();
                instrs.push(instr);
                values.push(dest);
                proof {
                    assert(instrs.deep_view() =~= in_pre.push(
                        InstrView {
                            dest: spec_temp_name(tcur + 1),
                            assign_type: IrType::Double,
                            op: spec_op_of(bodyv[i as int], x_s, y_s),
                        },
                    ));
                    assert(values.deep_view() =~= vals_mid.push(spec_temp_name(tcur + 1)));
                }
            },
            _ => {
                proof {
                    assert(spec_eval(bodyv, i as int, tcur, old(counter)@.vars, decls@, st_pre, in_pre)
                        == Err::<(Seq<InstrView>, nat, Seq<char>), (ErrView, nat)>((
                        ErrView::InvalidToken(bodyv[i as int]),
                        tcur,
                    )));
                }
                return Err(CompileError::InvalidToken(t));
            },
        }
        i = i + 1;
    }
    if values.len() == 0 {
        proof {
            assert(spec_eval(
                bodyv,
                n as int,
                counter@.temp,
                old(counter)@.vars,
                decls@,
                values.deep_view(),
                instrs.deep_view(),
            ) == Err::<(Seq<InstrView>, nat, Seq<char>), (ErrView, nat)>((
                ErrView::OperandError,
                counter@.temp,
            )));
        }
        return Err(CompileError::OperandError);
    }
    let result = values[values.len() - 1].clone();
    proof {
        assert(values.deep_view().last() == values@[values@.len() - 1]@);
    }
    Ok((instrs, result))
}

/// Tokens that the entry function's counter may consume: the total length
/// of all top-level expression bodies.
pub open spec fn spec_entry_load(ss: Seq<StmtView>) -> nat
    decreases ss.len(),
{
    if ss.len() == 0 {
        0
    } else {
        spec_entry_load(ss.drop_last()) + (match ss.last() {
            StmtView::Expression(b) => b.len(),
            StmtView::Declaration(_) => 0 as nat,
        })
    }
}

proof fn lemma_entry_load_mono(ss: Seq<StmtView>, i: int)
    requires
        0 <= i <= ss.len(),
    ensures
        spec_entry_load(ss.take(i)) <= spec_entry_load(ss),
    decreases ss.len() - i,
{
    if i == ss.len() {
        assert(ss.take(i) =~= ss);
    } else {
        assert(ss.take(i + 1).drop_last() =~= ss.take(i));
        assert(ss.take(i + 1).last() == ss[i]);
        lemma_entry_load_mono(ss, i + 1);
    }
}

/// Parameter names bound at version 0, in order.
pub open spec fn params_map(args: Seq<Seq<char>>) -> Map<Seq<char>, nat>
    decreases args.len(),
{
    if args.len() == 0 {
        Map::empty()
    } else {
        params_map(args.drop_last()).insert(args.last(), 0)
    }
}

proof fn lemma_params_map_zero(args: Seq<Seq<char>>)
    ensures
        forall|k: Seq<char>| #[trigger] params_map(args).contains_key(k) ==> params_map(args)[k]
            == 0,
    decreases args.len(),
{
    if args.len() > 0 {
        lemma_params_map_zero(args.drop_last());
        assert forall|k: Seq<char>| #[trigger] params_map(args).contains_key(k) implies params_map(
            args,
        )[k] == 0 by {
            if k != args.last() {
                assert(params_map(args.drop_last()).contains_key(k));
            }
        }
    }
}

/// Compilation of the statements from index `i` on: a declaration opens a
/// fresh counter, binds its parameters at version 0, evaluates its body
/// (the final name becomes the return value), records the new function and
/// its arity; an expression's code is appended to the entry function and
/// its final value discarded.
pub open spec fn spec_compile_stmts(
    stmts: Seq<StmtView>,
    i: int,
    main_temp: nat,
    main_instrs: Seq<InstrView>,
    funcs: Seq<FuncView>,
    decls: Map<Seq<char>, nat>,
) -> Result<(Seq<InstrView>, nat, Seq<FuncView>, Map<Seq<char>, nat>), ErrView>
    decreases stmts.len() - i,
{
    if i < 0 || i >= stmts.len() {
        Ok((main_instrs, main_temp, funcs, decls))
    } else {
        match stmts[i] {
            StmtView::Expression(body) => {
                match spec_eval(body, 0, main_temp, Map::empty(), decls, Seq::empty(), Seq::empty()) {
                    Ok(t) => spec_compile_stmts(stmts, i + 1, t.1, main_instrs + t.0, funcs, decls),
                    Err(e) => Err(e.0),
                }
            },
            StmtView::Declaration(d) => {
                match spec_eval(
                    d.body,
                    0,
                    0,
                    params_map(d.args),
                    decls,
                    Seq::empty(),
                    Seq::empty(),
                ) {
                    Ok(t) => spec_compile_stmts(
                        stmts,
                        i + 1,
                        main_temp,
                        main_instrs,
                        funcs.push(
                            FuncView {
                                export: false,
                                return_type: IrType::Double,
                                name: d.name,
                                args: d.args,
                                body: t.0,
                                return_val: t.2,
                            },
                        ),
                        decls.insert(d.name, d.args.len()),
                    ),
                    Err(e) => Err(e.0),
                }
            },
        }
    }
}

/// The emitted program text for a statement sequence, or the first
/// compilation failure.
pub open spec fn spec_compile(stmts: Seq<StmtView>) -> Result<Seq<char>, ErrView> {
    match spec_compile_stmts(stmts, 0, 0, Seq::empty(), Seq::empty(), Map::empty()) {
        Ok(t) => Ok(spec_program(t.0, t.2)),
        Err(e) => Err(e),
    }
}

fn dup_strings(v: &Vec<String>) -> (r: Vec<String>)
    ensures
        r.deep_view() == v.deep_view(),
{
    let n: usize = v.len();
    let mut r: Vec<String> = Vec::new();
    let mut j: usize = 0;
    proof {
        assert(r.deep_view() =~= v.deep_view().subrange(0, 0));
    }
    while j < n
        invariant
            j <= n,
            n == v@.len(),
            r.deep_view() == v.deep_view().subrange(0, j as int),
        decreases n - j,
    {
        let ghost pre = r.deep_view();
        r.push(v[j].clone());
        proof {
            assert(v.deep_view()[j as int] == v@[j as int]@);
            assert(r.deep_view() =~= pre.push(v.deep_view()[j as int]));
            assert(r.deep_view() =~= v.deep_view().subrange(0, j as int + 1));
        }
        j = j + 1;
    }
    proof {
        assert(r.deep_view() =~= v.deep_view());
    }
    r
}

/// Compiles parsed statements into the textual IR program, exactly as
/// `spec_compile` says: the fixed preamble, the exported entry function
/// collecting all top-level expression code, then one function per
/// declaration.  The bound on the expression load keeps the entry
/// function's temporary counter within its machine word.
pub fn compile(statements: Vec<Statement>) -> (r: Result<String, CompileError>)
    requires
        spec_entry_load(statements.deep_view()) <= u64::MAX,
    ensures
        match spec_compile(statements.deep_view()) {
            Ok(text) => r matches Ok(s) && s@ == text,
            Err(e) => r matches Err(err) && err.deep_view() == e,
        },
{
    let ghost sv = statements.deep_view();
    let mut main_instrs: Vec<Instruction> = Vec::new();
    let mut functions: Vec<Function> = Vec::new();
    let mut varcounter = VariableCounter::new();
    let mut table = FnTable::new();
    let n: usize = statements.len();
    let mut i: usize = 0;
    proof {
        assert(main_instrs.deep_view() =~= Seq::<InstrView>::empty());
        assert(functions.deep_view() =~= Seq::<FuncView>::empty());
    }
    while i < n
        invariant
            i <= n,
            n == statements@.len(),
            sv == statements.deep_view(),
            spec_entry_load(sv) <= u64::MAX,
            varcounter@.vars == Map::<Seq<char>, nat>::empty(),
            varcounter@.temp <= spec_entry_load(sv.take(i as int)),
            spec_compile_stmts(sv, 0, 0, Seq::empty(), Seq::empty(), Map::empty())
                == spec_compile_stmts(
                sv,
                i as int,
                varcounter@.temp,
                main_instrs.deep_view(),
                functions.deep_view(),
                table@,
            ),
        decreases n - i,
    {
        let ghost in_pre = main_instrs.deep_view();
        let ghost fs_pre = functions.deep_view();
        let ghost tcur = varcounter@.temp;
        proof {
            assert(sv[i as int] == statements@[i as int].deep_view());
            assert(sv.take(i as int + 1).drop_last() =~= sv.take(i as int));
            assert(sv.take(i as int + 1).last() == sv[i as int]);
            lemma_entry_load_mono(sv, i as int + 1);
        }
        match &statements[i] {
            Statement::Expression(body_ref) => {
                let body = dup_range(body_ref, 0, body_ref.len());
                proof {
                    assert(body.deep_view() =~= body_ref.deep_view());
                    assert(spec_entry_load(sv.take(i as int + 1)) == spec_entry_load(
                        sv.take(i as int),
                    ) + body_ref.deep_view().len());
                    assert(varcounter@.temp + body@.len() <= u64::MAX);
                }
                match compile_expr(body, &mut varcounter, &table) {
                    Ok((instrs, _result)) => {
                        proof {
                            lemma_eval_temp_bound(
                                body_ref.deep_view(),
                                0,
                                tcur,
                                Map::empty(),
                                table@,
                                Seq::empty(),
                                Seq::empty(),
                            );
                        }
                        let ghost iv = instrs.deep_view();
                        let mut instrs_m = instrs;
                        main_instrs.append(&mut instrs_m);
                        proof {
                            assert(main_instrs.deep_view() =~= in_pre + iv);
                        }
                    },
                    Err(e) => {
                        return Err(e);
                    },
                }
            },
            Statement::Declaration(d) => {
                let mut fcounter = VariableCounter::new();
                let ghost argsv = d.args.deep_view();
                let pn: usize = d.args.len();
                let mut j: usize = 0;
                proof {
                    assert(argsv.take(0) =~= Seq::<Seq<char>>::empty());
                }
                while j < pn
                    invariant
                        j <= pn,
                        pn == d.args@.len(),
                        argsv == d.args.deep_view(),
                        fcounter@.temp == 0,
                        fcounter@.vars == params_map(argsv.take(j as int)),
                    decreases pn - j,
                {
                    proof {
                        assert(argsv.take(j as int + 1).drop_last() =~= argsv.take(j as int));
                        assert(argsv.take(j as int + 1).last() == argsv[j as int]);
                        assert(argsv[j as int] == d.args@[j as int]@);
                        lemma_params_map_zero(argsv.take(j as int));
                    }
                    let ghost vars_pre = fcounter@.vars;
                    let _bound = fcounter.next_var(d.args[j].clone());
                    proof {
                        if vars_pre.contains_key(argsv[j as int]) {
                            assert(vars_pre.insert(argsv[j as int], 0) =~= vars_pre);
                        }
                        assert(fcounter@.vars =~= params_map(argsv.take(j as int + 1)));
                    }
                    j = j + 1;
                }
                proof {
                    assert(argsv.take(pn as int) =~= argsv);
                }
                let body = dup_range(&d.body, 0, d.body.len());
                proof {
                    assert(body.deep_view() =~= d.body.deep_view());
                    assert(body@.len() <= u64::MAX);
                }
                match compile_expr(body, &mut fcounter, &table) {
                    Ok((instrs, result)) => {
                        let mut f = Function::new(d.name.clone(), dup_strings(&d.args));
                        f.body = instrs;
                        f.return_val = result;
                        let ghost fv = f.deep_view();
                        functions.push(f);
                        table.register(d.name.clone(), pn);
                        proof {
                            assert(functions.deep_view() =~= fs_pre.push(fv));
                        }
                    },
                    Err(e) => {
                        return Err(e);
                    },
                }
            },
        }
        i = i + 1;
    }
    let ghost mi_dv = main_instrs.deep_view();
    proof {
        assert(spec_compile_stmts(sv, 0, 0, Seq::empty(), Seq::empty(), Map::empty()) == Ok::<
            (Seq<InstrView>, nat, Seq<FuncView>, Map<Seq<char>, nat>),
            ErrView,
        >((mi_dv, varcounter@.temp, functions.deep_view(), table@)));
    }
    let mut main_func = Function::new_main();
    main_func.body = main_instrs;
    let mut out = String::from_str("data $fmt = { b \"%2.4f\n\", b 0 }\n");
    out.append("export function $pow(d $x, d $y) d\n");
    out.append("\n");
    let main_text = main_func.render();
    out.append(main_text.as_str());
    out.append("\n");
    let ghost head = out@;
    let ghost fdv = functions.deep_view();
    let fn_count: usize = functions.len();
    let mut fi: usize = 0;
    proof {
        assert(fdv.take(0) =~= Seq::<FuncView>::empty());
        assert(out@ =~= head + crate::format::spec_funcs_text(fdv.take(0)));
    }
    while fi < fn_count
        invariant
            fi <= fn_count,
            fn_count == functions@.len(),
            fdv == functions.deep_view(),
            out@ == head + crate::format::spec_funcs_text(fdv.take(fi as int)),
        decreases fn_count - fi,
    {
        proof {
            assert(fdv.take(fi as int + 1).drop_last() =~= fdv.take(fi as int));
            assert(fdv.take(fi as int + 1).last() == fdv[fi as int]);
            assert(fdv[fi as int] == functions@[fi as int].deep_view());
        }
        if fi > 0 {
            out.append("\n");
        }
        let ft = functions[fi].render();
        out.append(ft.as_str());
        fi = fi + 1;
    }
    proof {
        assert(fdv.take(fn_count as int) =~= fdv);
        assert(out@ == spec_program(mi_dv, fdv));
    }
    Ok(out)
}

/// Temporary names are distinct for distinct counter values.
proof fn lemma_temp_name_injective(a: nat, b: nat)
    requires
        spec_temp_name(a) == spec_temp_name(b),
    ensures
        a == b,
{
    reveal_strlit("%_");
    assert(("%_"@).len() == 2);
    assert(spec_temp_name(a).len() == 2 + spec_dec(a).len());
    assert(spec_temp_name(b).len() == 2 + spec_dec(b).len());
    assert(spec_dec(a).len() == spec_dec(b).len());
    assert(spec_dec(a) =~= spec_dec(b)) by {
        assert forall|j: int| 0 <= j < spec_dec(a).len() implies spec_dec(a)[j] == spec_dec(
            b,
        )[j] by {
            assert(spec_temp_name(a)[2 + j] == spec_dec(a)[j]);
            assert(spec_temp_name(b)[2 + j] == spec_dec(b)[j]);
        }
    }
    lemma_dec_injective(a, b);
}

proof fn lemma_eval_dests(
    body: Seq<TokView>,
    i: int,
    temp: nat,
    vars: Map<Seq<char>, nat>,
    decls: Map<Seq<char>, nat>,
    stack: Seq<Seq<char>>,
    instrs: Seq<InstrView>,
    base: nat,
)
    requires
        0 <= i <= body.len(),
        base <= temp,
        instrs.len() == temp - base,
        forall|j: int| 0 <= j < instrs.len() ==> (#[trigger] instrs[j]).dest == spec_temp_name(
            (base + 1 + j) as nat,
        ),
    ensures
        match spec_eval(body, i, temp, vars, decls, stack, instrs) {
            Ok(t) => t.1 >= temp && t.0.len() == t.1 - base && (forall|j: int|
                0 <= j < t.0.len() ==> (#[trigger] t.0[j]).dest == spec_temp_name((base + 1 + j) as nat)),
            Err(_) => true,
        },
    decreases body.len() - i,
{
    if i < body.len() {
        match body[i] {
            TokView::Number(text) => {
                lemma_eval_dests(body, i + 1, temp, vars, decls, stack.push(text), instrs, base);
            },
            TokView::Identifier(name) => {
                if vars.contains_key(name) {
                    lemma_eval_dests(
                        body,
                        i + 1,
                        temp,
                        vars,
                        decls,
                        stack.push(spec_var_name(name, vars[name])),
                        instrs,
                        base,
                    );
                } else if decls.contains_key(name) {
                    let k = decls[name];
                    if stack.len() >= k {
                        let dest = spec_temp_name(temp + 1);
                        let args = stack.skip(stack.len() - k);
                        let instr = InstrView {
                            dest,
                            assign_type: IrType::Double,
                            op: OpView::Call(name, args),
                        };
                        assert forall|j: int| 0 <= j < instrs.push(instr).len() implies (
                        #[trigger] instrs.push(instr)[j]).dest == spec_temp_name((base + 1 + j) as nat) by {
                            if j < instrs.len() {
                                assert(instrs.push(instr)[j] == instrs[j]);
                            }
                        }
                        lemma_eval_dests(
                            body,
                            i + 1,
                            temp + 1,
                            vars,
                            decls,
                            stack.take(stack.len() - k).push(dest),
                            instrs.push(instr),
                            base,
                        );
                    }
                }
            },
            TokView::Add | TokView::Subtract | TokView::Multiply | TokView::Divide
                | TokView::Exponent => {
                if stack.len() >= 2 {
                    let y = stack.last();
                    let x = stack[stack.len() - 2];
                    let dest = spec_temp_name(temp + 1);
                    let instr = InstrView {
                        dest,
                        assign_type: IrType::Double,
                        op: spec_op_of(body[i], x, y),
                    };
                    assert forall|j: int| 0 <= j < instrs.push(instr).len() implies (
                    #[trigger] instrs.push(instr)[j]).dest == spec_temp_name((base + 1 + j) as nat) by {
                        if j < instrs.len() {
                            assert(instrs.push(instr)[j] == instrs[j]);
                        }
                    }
                    lemma_eval_dests(
                        body,
                        i + 1,
                        temp + 1,
                        vars,
                        decls,
                        stack.take(stack.len() - 2).push(dest),
                        instrs.push(instr),
                        base,
                    );
                }
            },
            _ => {},
        }
    }
}

/// Strict single assignment: the instructions the evaluator emits assign
/// the temporaries right after the counter's starting point, in order —
/// `%_(temp+1), %_(temp+2), ...` — so no destination name is ever
/// assigned twice.
pub proof fn lemma_eval_single_assignment(
    body: Seq<TokView>,
    temp: nat,
    vars: Map<Seq<char>, nat>,
    decls: Map<Seq<char>, nat>,
)
    ensures
        match spec_eval(body, 0, temp, vars, decls, Seq::empty(), Seq::empty()) {
            Ok(t) => t.0.len() == t.1 - temp && (forall|j: int|
                0 <= j < t.0.len() ==> (#[trigger] t.0[j]).dest == spec_temp_name((temp + 1 + j) as nat))
                && (forall|j: int, k: int|
                0 <= j < k < t.0.len() ==> t.0[j].dest != t.0[k].dest),
            Err(_) => true,
        },
{
    lemma_eval_dests(body, 0, temp, vars, decls, Seq::empty(), Seq::empty(), temp);
    match spec_eval(body, 0, temp, vars, decls, Seq::<Seq<char>>::empty(), Seq::<
        InstrView,
    >::empty()) {
        Ok(t) => {
            assert forall|j: int, k: int| 0 <= j < k < t.0.len() implies t.0[j].dest
                != t.0[k].dest by {
                if t.0[j].dest == t.0[k].dest {
                    lemma_temp_name_injective((temp + 1 + j) as nat, (temp + 1 + k) as nat);
                }
            }
        },
        Err(_) => {},
    }
}

/// Evaluating the postfix form of a sum of two literals emits exactly one
/// instruction — an `add` of the two literal texts into one fresh
/// temporary, which is the result — and raises no error, whatever the
/// counter state and declarations.
pub proof fn lemma_literal_add_one_instruction(
    a: Seq<char>,
    b: Seq<char>,
    temp: nat,
    vars: Map<Seq<char>, nat>,
    decls: Map<Seq<char>, nat>,
)
    ensures
        spec_eval(
            seq![TokView::Number(a), TokView::Number(b), TokView::Add],
            0,
            temp,
            vars,
            decls,
            Seq::empty(),
            Seq::empty(),
        ) == Ok::<(Seq<InstrView>, nat, Seq<char>), (ErrView, nat)>(
            (
                seq![
                    InstrView {
                        dest: spec_temp_name(temp + 1),
                        assign_type: IrType::Double,
                        op: OpView::Add(a, b),
                    },
                ],
                temp + 1,
                spec_temp_name(temp + 1),
            ),
        ),
{
    let body = seq![TokView::Number(a), TokView::Number(b), TokView::Add];
    let s1 = Seq::<Seq<char>>::empty().push(a);
    let s2 = s1.push(b);
    assert(spec_eval(body, 0, temp, vars, decls, Seq::empty(), Seq::empty()) == spec_eval(
        body,
        1,
        temp,
        vars,
        decls,
        s1,
        Seq::empty(),
    ));
    assert(spec_eval(body, 1, temp, vars, decls, s1, Seq::empty()) == spec_eval(
        body,
        2,
        temp,
        vars,
        decls,
        s2,
        Seq::empty(),
    ));
    let dest = spec_temp_name(temp + 1);
    let instr = InstrView { dest, assign_type: IrType::Double, op: OpView::Add(a, b) };
    assert(s2.last() == b);
    assert(s2[0] == a);
    assert(spec_eval(body, 2, temp, vars, decls, s2, Seq::empty()) == spec_eval(
        body,
        3,
        temp + 1,
        vars,
        decls,
        s2.take(0).push(dest),
        Seq::<InstrView>::empty().push(instr),
    ));
    assert(s2.take(0).push(dest).last() == dest);
    assert(Seq::<InstrView>::empty().push(instr) =~= seq![instr]);
}

/// An identifier that neither a binding nor a declaration resolves fails
/// with `NameError` carrying that identifier's name, and the temporary
/// counter stands where it stood.
pub proof fn lemma_unbound_identifier_fails(
    name: Seq<char>,
    temp: nat,
    vars: Map<Seq<char>, nat>,
    decls: Map<Seq<char>, nat>,
)
    requires
        !vars.contains_key(name),
        !decls.contains_key(name),
    ensures
        spec_eval(
            seq![TokView::Identifier(name)],
            0,
            temp,
            vars,
            decls,
            Seq::empty(),
            Seq::empty(),
        ) == Err::<(Seq<InstrView>, nat, Seq<char>), (ErrView, nat)>(
            (ErrView::NameError(name), temp),
        ),
{
}

/// Compiling a program whose one statement is an expression naming an
/// undeclared identifier fails with `NameError` carrying that name.
pub proof fn lemma_undeclared_expression_fails(name: Seq<char>)
    ensures
        spec_compile(seq![StmtView::Expression(seq![TokView::Identifier(name)])]) == Err::<
            Seq<char>,
            ErrView,
        >(ErrView::NameError(name)),
{
    let stmts = seq![StmtView::Expression(seq![TokView::Identifier(name)])];
    assert(!Map::<Seq<char>, nat>::empty().contains_key(name));
    lemma_unbound_identifier_fails(name, 0, Map::empty(), Map::empty());
    assert(spec_compile_stmts(stmts, 0, 0, Seq::empty(), Seq::empty(), Map::empty()) == Err::<
        (Seq<InstrView>, nat, Seq<FuncView>, Map<Seq<char>, nat>),
        ErrView,
    >(ErrView::NameError(name)));
}

} // verus!
