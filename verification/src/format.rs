use crate::ir::{FuncView, Function, InstrView, Instruction, IrType, OpView, Operation};
use vstd::prelude::*;
use vstd::string::StringExecFns;

verus! {

/// The IR's one-letter marker of a numeric kind.
pub open spec fn spec_type_text(t: IrType) -> Seq<char> {
    match t {
        IrType::Word => "w"@,
        IrType::Long => "l"@,
        IrType::Single => "s"@,
        IrType::Double => "d"@,
    }
}

/// Arguments rendered as `<pre>a` each, joined with `sep`.
pub open spec fn spec_args_text(args: Seq<Seq<char>>, pre: Seq<char>, sep: Seq<char>) -> Seq<char>
    decreases args.len(),
{
    if args.len() == 0 {
        Seq::empty()
    } else {
        spec_args_text(args.drop_last(), pre, sep) + (if args.len() == 1 {
            Seq::<char>::empty()
        } else {
            sep
        }) + pre + args.last()
    }
}

/// An operation's text: arithmetic renders as its mnemonic with both
/// operands; `^` as a call of the fixed `$pow` helper; a general call as
/// `call $f(d a, ...)`.
pub open spec fn spec_op_text(op: OpView) -> Seq<char> {
    match op {
        OpView::Add(x, y) => "add "@ + x + ", "@ + y,
        OpView::Sub(x, y) => "sub "@ + x + ", "@ + y,
        OpView::Mul(x, y) => "mul "@ + x + ", "@ + y,
        OpView::Div(x, y) => "div "@ + x + ", "@ + y,
        OpView::Pow(x, y) => "call $pow(d "@ + x + ", d "@ + y + ")"@,
        OpView::Call(f, args) => "call $"@ + f + "("@ + spec_args_text(args, "d "@, ", "@) + ")"@,
    }
}

/// An instruction's line: `\tdest =t operation\n`.
pub open spec fn spec_instr_text(i: InstrView) -> Seq<char> {
    "\t"@ + i.dest + " ="@ + spec_type_text(i.assign_type) + " "@ + spec_op_text(i.op) + "\n"@
}

/// The concatenated lines of an instruction sequence.
pub open spec fn spec_instrs_text(is: Seq<InstrView>) -> Seq<char>
    decreases is.len(),
{
    if is.len() == 0 {
        Seq::empty()
    } else {
        spec_instrs_text(is.drop_last()) + spec_instr_text(is.last())
    }
}

/// A whole function definition in the target IR's grammar:
/// `[export ]function t $name(d %p, ...) {\n@start\n<body>\tret v\n}\n`.
pub open spec fn spec_func_text(f: FuncView) -> Seq<char> {
    (if f.export {
        "export "@
    } else {
        Seq::<char>::empty()
    }) + "function "@ + spec_type_text(f.return_type) + " $"@ + f.name + "("@ + spec_args_text(
        f.args,
        "d %"@,
        ", "@,
    ) + ") {\n@start\n"@ + spec_instrs_text(f.body) + "\tret "@ + f.return_val + "\n}\n"@
}

/// Declared function definitions joined with blank separators.
pub open spec fn spec_funcs_text(fs: Seq<FuncView>) -> Seq<char>
    decreases fs.len(),
{
    if fs.len() == 0 {
        Seq::empty()
    } else {
        spec_funcs_text(fs.drop_last()) + (if fs.len() == 1 {
            Seq::<char>::empty()
        } else {
            "\n"@
        }) + spec_func_text(fs.last())
    }
}

/// The emitted program: the fixed data constant used for printing, the
/// exported signature of the exponentiation helper, the entry function
/// holding `main_body`, then every declared function.
pub open spec fn spec_program(main_body: Seq<InstrView>, fs: Seq<FuncView>) -> Seq<char> {
    "data $fmt = { b \"%2.4f\n\", b 0 }\n"@ + "export function $pow(d $x, d $y) d\n"@ + "\n"@
        + spec_func_text(
        FuncView {
            export: true,
            return_type: IrType::Word,
            name: "main"@,
            args: Seq::<Seq<char>>::empty(),
            body: main_body,
            return_val: "0"@,
        },
    ) + "\n"@ + spec_funcs_text(fs)
}

fn type_text(t: &IrType) -> (s: &'static str)
    ensures
        s@ == spec_type_text(*t),
{
    match t {
        IrType::Word => "w",
        IrType::Long => "l",
        IrType::Single => "s",
        IrType::Double => "d",
    }
}

fn args_text(args: &Vec<String>, pre: &str, sep: &str) -> (s: String)
    ensures
        s@ == spec_args_text(args.deep_view(), pre@, sep@),
{
    let ghost av = args.deep_view();
    let mut s = String::new();
    let n: usize = args.len();
    let mut i: usize = 0;
    proof {
        assert(av.subrange(0, 0) =~= Seq::<Seq<char>>::empty());
        assert(s@ =~= spec_args_text(av.subrange(0, 0), pre@, sep@));
    }
    while i < n
        invariant
            i <= n,
            n == args@.len(),
            av == args.deep_view(),
            s@ == spec_args_text(av.subrange(0, i as int), pre@, sep@),
        decreases n - i,
    {
        proof {
            assert(av.subrange(0, i as int + 1).drop_last() =~= av.subrange(0, i as int));
            assert(av.subrange(0, i as int + 1).last() == av[i as int]);
            assert(av[i as int] == args@[i as int]@);
        }
        if i > 0 {
            s.append(sep);
        }
        s.append(pre);
        s.append(args[i].as_str());
        i = i + 1;
    }
    proof {
        assert(av.subrange(0, n as int) =~= av);
    }
    s
}

impl Operation {
    /// This operation's text in the IR grammar.
    pub fn render(&self) -> (s: String)
        ensures
            s@ == spec_op_text(self.deep_view()),
    {
        match self {
            Operation::Add(x, y) => {
                let mut s = String::from_str("add ");
                s.append(x.as_str());
                s.append(", ");
                s.append(y.as_str());
                s
            },
            Operation::Sub(x, y) => {
                let mut s = String::from_str("sub ");
                s.append(x.as_str());
                s.append(", ");
                s.append(y.as_str());
                s
            },
            Operation::Mul(x, y) => {
                let mut s = String::from_str("mul ");
                s.append(x.as_str());
                s.append(", ");
                s.append(y.as_str());
                s
            },
            Operation::Div(x, y) => {
                let mut s = String::from_str("div ");
                s.append(x.as_str());
                s.append(", ");
                s.append(y.as_str());
                s
            },
            Operation::Pow(x, y) => {
                let mut s = String::from_str("call $pow(d ");
                s.append(x.as_str());
                s.append(", d ");
                s.append(y.as_str());
                s.append(")");
                s
            },
            Operation::Call(f, args) => {
                let mut s = String::from_str("call $");
                s.append(f.as_str());
                s.append("(");
                let a = args_text(args, "d ", ", ");
                s.append(a.as_str());
                s.append(")");
                s
            },
        }
    }
}

impl Instruction {
    /// This instruction's line in the IR grammar.
    pub fn render(&self) -> (s: String)
        ensures
            s@ == spec_instr_text(self.deep_view()),
    {
        let mut s = String::from_str("\t");
        s.append(self.dest.as_str());
        s.append(" =");
        s.append(type_text(&self.assign_type));
        s.append(" ");
        let o = self.op.render();
        s.append(o.as_str());
        s.append("\n");
        s
    }
}

impl Function {
    /// This function's whole definition in the IR grammar.  Rendering is a
    /// function of the value alone: rendering twice gives identical text.
    pub fn render(&self) -> (s: String)
        ensures
            s@ == spec_func_text(self.deep_view()),
    {
        let mut s = if self.export {
            String::from_str("export ")
        } else {
            String::new()
        };
        s.append("function ");
        s.append(type_text(&self.return_type));
        s.append(" $");
        s.append(self.name.as_str());
        s.append("(");
        let a = args_text(&self.args, "d %", ", ");
        s.append(a.as_str());
        s.append(") {\n@start\n");
        let ghost bv = self.body.deep_view();
        let n: usize = self.body.len();
        let mut i: usize = 0;
        let ghost head = s@;
        proof {
            assert(bv.subrange(0, 0) =~= Seq::<InstrView>::empty());
            assert(s@ + spec_instrs_text(bv.subrange(0, 0)) =~= s@);
        }
        while i < n
            invariant
                i <= n,
                n == self.body@.len(),
                bv == self.body.deep_view(),
                s@ == head + spec_instrs_text(bv.subrange(0, i as int)),
            decreases n - i,
        {
            proof {
                assert(bv.subrange(0, i as int + 1).drop_last() =~= bv.subrange(0, i as int));
                assert(bv.subrange(0, i as int + 1).last() == bv[i as int]);
                assert(bv[i as int] == self.body@[i as int].deep_view());
            }
            let line = self.body[i].render();
            s.append(line.as_str());
            i = i + 1;
        }
        proof {
            assert(bv.subrange(0, n as int) =~= bv);
        }
        s.append("\tret ");
        s.append(self.return_val.as_str());
        s.append("\n}\n");
        s
    }
}

/// Formatting is deterministic: the texts of two renderings of one function
/// value are byte-identical.
pub proof fn lemma_render_idempotent(f: FuncView, s1: Seq<char>, s2: Seq<char>)
    requires
        s1 == spec_func_text(f),
        s2 == spec_func_text(f),
    ensures
        s1 == s2,
{
}

} // verus!
