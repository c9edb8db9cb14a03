use vstd::prelude::*;
use vstd::string::StringExecFns;

verus! {

/// A numeric-kind marker of the target IR's closed type set.
#[derive(Debug, Clone, Copy, PartialEq, Eq, Structural)]
pub enum IrType {
    Word,
    Long,
    Single,
    Double,
}

/// An operation over already-resolved operand names or literal texts.
/// `^` lowers to a call of the fixed `$pow` helper; a general call carries
/// its arguments in left-to-right order.
#[derive(Debug)]
pub enum Operation {
    Add(String, String),
    Sub(String, String),
    Mul(String, String),
    Div(String, String),
    Pow(String, String),
    Call(String, Vec<String>),
}

/// Ghost mirror of `Operation`.
pub enum OpView {
    Add(Seq<char>, Seq<char>),
    Sub(Seq<char>, Seq<char>),
    Mul(Seq<char>, Seq<char>),
    Div(Seq<char>, Seq<char>),
    Pow(Seq<char>, Seq<char>),
    Call(Seq<char>, Seq<Seq<char>>),
}

impl DeepView for Operation {
    type V = OpView;

    open spec fn deep_view(&self) -> OpView {
        match self {
            Operation::Add(x, y) => OpView::Add(x@, y@),
            Operation::Sub(x, y) => OpView::Sub(x@, y@),
            Operation::Mul(x, y) => OpView::Mul(x@, y@),
            Operation::Div(x, y) => OpView::Div(x@, y@),
            Operation::Pow(x, y) => OpView::Pow(x@, y@),
            Operation::Call(f, args) => OpView::Call(f@, args.deep_view()),
        }
    }
}

impl View for Operation {
    type V = OpView;

    open spec fn view(&self) -> OpView {
        self.deep_view()
    }
}

/// One temporary-assignment instruction: a destination assigned once, its
/// numeric kind, and the operation producing it.
#[derive(Debug)]
pub struct Instruction {
    pub dest: String,
    pub assign_type: IrType,
    pub op: Operation,
}

/// Ghost mirror of `Instruction`.
pub struct InstrView {
    pub dest: Seq<char>,
    pub assign_type: IrType,
    pub op: OpView,
}

impl Instruction {
    /// An instruction assigning `op`'s result to `dest`; user values are
    /// always doubles.
    pub fn new(dest: String, op: Operation) -> (i: Instruction)
        ensures
            i@ == (InstrView { dest: dest@, assign_type: IrType::Double, op: op.deep_view() }),
    {
        Instruction { dest, assign_type: IrType::Double, op }
    }
}

impl DeepView for Instruction {
    type V = InstrView;

    open spec fn deep_view(&self) -> InstrView {
        InstrView { dest: self.dest@, assign_type: self.assign_type, op: self.op.deep_view() }
    }
}

impl View for Instruction {
    type V = InstrView;

    open spec fn view(&self) -> InstrView {
        self.deep_view()
    }
}

/// An emitted function: export marker, return kind, name (without the `$`
/// sigil), parameter names, instruction body, and the returned name or
/// literal.
#[derive(Debug)]
pub struct Function {
    pub export: bool,
    pub return_type: IrType,
    pub name: String,
    pub args: Vec<String>,
    pub body: Vec<Instruction>,
    pub return_val: String,
}

/// Ghost mirror of `Function`.
pub struct FuncView {
    pub export: bool,
    pub return_type: IrType,
    pub name: Seq<char>,
    pub args: Seq<Seq<char>>,
    pub body: Seq<InstrView>,
    pub return_val: Seq<char>,
}

impl DeepView for Function {
    type V = FuncView;

    open spec fn deep_view(&self) -> FuncView {
        FuncView {
            export: self.export,
            return_type: self.return_type,
            name: self.name@,
            args: self.args.deep_view(),
            body: self.body.deep_view(),
            return_val: self.return_val@,
        }
    }
}

impl View for Function {
    type V = FuncView;

    open spec fn view(&self) -> FuncView {
        self.deep_view()
    }
}

impl Function {
    /// A not-yet-exported function of doubles with the given name and
    /// parameters, and no body yet.
    pub fn new(name: String, args: Vec<String>) -> (f: Function)
        ensures
            f@ == (FuncView {
                export: false,
                return_type: IrType::Double,
                name: name@,
                args: args.deep_view(),
                body: Seq::<InstrView>::empty(),
                return_val: Seq::<char>::empty(),
            }),
    {
        let f = Function {
            export: false,
            return_type: IrType::Double,
            name,
            args,
            body: Vec::new(),
            return_val: String::new(),
        };
        proof {
            assert(f.body.deep_view() =~= Seq::<InstrView>::empty());
        }
        f
    }

    /// The implicit entry function: exported, returns an integer status of
    /// zero, and collects the program's top-level expression code.
    pub fn new_main() -> (f: Function)
        ensures
            f@ == (FuncView {
                export: true,
                return_type: IrType::Word,
                name: "main"@,
                args: Seq::<Seq<char>>::empty(),
                body: Seq::<InstrView>::empty(),
                return_val: "0"@,
            }),
    {
        let f = Function {
            export: true,
            return_type: IrType::Word,
            name: String::from_str("main"),
            args: Vec::new(),
            body: Vec::new(),
            return_val: String::from_str("0"),
        };
        proof {
            assert(f.args.deep_view() =~= Seq::<Seq<char>>::empty());
            assert(f.body.deep_view() =~= Seq::<InstrView>::empty());
        }
        f
    }
}

impl Default for Function {
    /// An empty, unexported function of doubles.
    fn default() -> (f: Function)
        ensures
            f@ == (FuncView {
                export: false,
                return_type: IrType::Double,
                name: Seq::<char>::empty(),
                args: Seq::<Seq<char>>::empty(),
                body: Seq::<InstrView>::empty(),
                return_val: Seq::<char>::empty(),
            }),
    {
        let f = Function {
            export: false,
            return_type: IrType::Double,
            name: String::new(),
            args: Vec::new(),
            body: Vec::new(),
            return_val: String::new(),
        };
        proof {
            assert(f.args.deep_view() =~= Seq::<Seq<char>>::empty());
            assert(f.body.deep_view() =~= Seq::<InstrView>::empty());
        }
        f
    }
}

} // verus!
