//! The lowered intermediate representation the code generator emits: an
//! SSA-style module of functions over one scalar numeric type, consumed by
//! a backend that turns it into machine code.
//!
//! Every instruction defines one value, named by its index in its body, so
//! an operand is simply the index of an earlier instruction.

use vstd::prelude::*;

verus! {

/// One value-defining instruction of a function body or of the entry body.
#[derive(Debug, PartialEq)]
pub enum Inst {
    /// The `i`-th parameter of the enclosing function, as `Param(i)`.
    Param(usize),
    /// A numeric constant, kept as the decimal digits of the literal.
    Const(String),
    Add(usize, usize),
    Sub(usize, usize),
    Mul(usize, usize),
    Div(usize, usize),
    Neg(usize),
    /// A call of the named function with the given argument values.
    Call(String, Vec<usize>),
}

/// The mathematical shape of an [`Inst`].
pub enum InstS {
    Param(usize),
    Const(Seq<char>),
    Add(usize, usize),
    Sub(usize, usize),
    Mul(usize, usize),
    Div(usize, usize),
    Neg(usize),
    Call(Seq<char>, Seq<usize>),
}

/// The mathematical shape of an instruction.
pub open spec fn view_inst(i: Inst) -> InstS {
    match i {
        Inst::Param(k) => InstS::Param(k),
        Inst::Const(d) => InstS::Const(d@),
        Inst::Add(a, b) => InstS::Add(a, b),
        Inst::Sub(a, b) => InstS::Sub(a, b),
        Inst::Mul(a, b) => InstS::Mul(a, b),
        Inst::Div(a, b) => InstS::Div(a, b),
        Inst::Neg(a) => InstS::Neg(a),
        Inst::Call(n, args) => InstS::Call(n@, args@),
    }
}

impl View for Inst {
    type V = InstS;

    open spec fn view(&self) -> InstS {
        view_inst(*self)
    }
}

/// The mathematical shape of an instruction body.
pub open spec fn view_insts(v: Seq<Inst>) -> Seq<InstS> {
    v.map_values(|i: Inst| view_inst(i))
}

/// One lowered function: its parameter names, its body, and which of the
/// body's values it returns.
#[derive(Debug, PartialEq)]
pub struct IrFunction {
    pub name: String,
    pub params: Vec<String>,
    pub body: Vec<Inst>,
    pub ret: usize,
}

/// The mathematical shape of an [`IrFunction`].
pub struct FunS {
    pub name: Seq<char>,
    pub params: Seq<Seq<char>>,
    pub body: Seq<InstS>,
    pub ret: usize,
}

/// The mathematical shape of a lowered function.
pub open spec fn view_fun(f: IrFunction) -> FunS {
    FunS {
        name: f.name@,
        params: f.params@.map_values(|p: String| p@),
        body: view_insts(f.body@),
        ret: f.ret,
    }
}

/// The mathematical shape of a list of lowered functions.
pub open spec fn view_funcs(v: Seq<IrFunction>) -> Seq<FunS> {
    v.map_values(|f: IrFunction| view_fun(f))
}

/// A whole lowered program: the declared functions, the body of the entry
/// function, and which of the entry body's values is the program's result,
/// to be reported by the backend's side-effecting print.
#[derive(Debug, PartialEq)]
pub struct Module {
    pub functions: Vec<IrFunction>,
    pub main_body: Vec<Inst>,
    pub result: usize,
}

/// The mathematical shape of a [`Module`].
pub struct ModuleS {
    pub functions: Seq<FunS>,
    pub main_body: Seq<InstS>,
    pub result: usize,
}

/// The mathematical shape of a lowered program.
pub open spec fn view_module(m: Module) -> ModuleS {
    ModuleS {
        functions: view_funcs(m.functions@),
        main_body: view_insts(m.main_body@),
        result: m.result,
    }
}

impl View for Module {
    type V = ModuleS;

    open spec fn view(&self) -> ModuleS {
        view_module(*self)
    }
}

/// The first fatal fault met while lowering a program. Lowering stops at
/// the first one: no partial module is ever handed out.
#[derive(Debug, PartialEq)]
pub enum SemanticError {
    /// A `fn` declaration reuses a name already declared.
    DuplicateFunction(String),
    /// The backend's verification refused a lowered function.
    MalformedFunction(String),
    /// A variable read that no binding in scope covers.
    UndefinedVariable(String),
    /// A call of a function that no declaration covers.
    UndefinedFunction(String),
    /// A call whose argument count differs from the declared parameter
    /// count: the name, the count declared, and the count supplied.
    ArityMismatch(String, usize, usize),
    /// The backend could not produce a value from a call.
    CallFailed,
}

/// The mathematical shape of a [`SemanticError`].
pub enum SemErrS {
    DuplicateFunction(Seq<char>),
    MalformedFunction(Seq<char>),
    UndefinedVariable(Seq<char>),
    UndefinedFunction(Seq<char>),
    ArityMismatch(Seq<char>, usize, usize),
    CallFailed,
}

/// The mathematical shape of a lowering fault.
pub open spec fn view_semerr(e: SemanticError) -> SemErrS {
    match e {
        SemanticError::DuplicateFunction(n) => SemErrS::DuplicateFunction(n@),
        SemanticError::MalformedFunction(n) => SemErrS::MalformedFunction(n@),
        SemanticError::UndefinedVariable(n) => SemErrS::UndefinedVariable(n@),
        SemanticError::UndefinedFunction(n) => SemErrS::UndefinedFunction(n@),
        SemanticError::ArityMismatch(n, want, got) => SemErrS::ArityMismatch(n@, want, got),
        SemanticError::CallFailed => SemErrS::CallFailed,
    }
}

impl View for SemanticError {
    type V = SemErrS;

    open spec fn view(&self) -> SemErrS {
        view_semerr(*self)
    }
}


// ---------------------------------------------------------------------------
// internal consistency of a lowered program
// ---------------------------------------------------------------------------

/// Every operand of the instruction names a value defined before position
/// `j` of its body, and a parameter read stays within the `nparams`
/// parameters of the enclosing function.
pub open spec fn inst_wf(i: InstS, j: int, nparams: int) -> bool {
    match i {
        InstS::Param(k) => k < nparams,
        InstS::Const(_) => true,
        InstS::Add(a, b) => a < j && b < j,
        InstS::Sub(a, b) => a < j && b < j,
        InstS::Mul(a, b) => a < j && b < j,
        InstS::Div(a, b) => a < j && b < j,
        InstS::Neg(a) => a < j,
        InstS::Call(_, ids) => forall|t: int| 0 <= t < ids.len() ==> ids[t] < j,
    }
}

/// Every instruction of the body is well-formed at its own position.
pub open spec fn body_wf(b: Seq<InstS>, nparams: int) -> bool {
    forall|j: int| 0 <= j < b.len() ==> inst_wf(#[trigger] b[j], j, nparams)
}

/// The function designates an existing return value, and its body reads
/// only earlier values and its own parameters.
pub open spec fn fun_wf(f: FunS) -> bool {
    body_wf(f.body, f.params.len() as int) && f.ret < f.body.len()
}

/// The lowered program is internally consistent: every body reads only
/// values already defined, the entry body reads no parameters, and each
/// designated result exists. A backend can therefore replay a module in one
/// forward pass, value by value.
pub open spec fn module_wf(m: ModuleS) -> bool {
    &&& forall|k: int| 0 <= k < m.functions.len() ==> fun_wf(#[trigger] m.functions[k])
    &&& body_wf(m.main_body, 0)
    &&& m.result < m.main_body.len()
}

} // verus!

