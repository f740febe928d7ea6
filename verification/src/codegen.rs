//! The code generator: one pass over the program tree that lowers it to a
//! [`Module`], threading a lexically scoped variable environment and a
//! global function table.
//!
//! Scoping rules, all stated by [`sp_run`] and [`sp_visit`]:
//! - a `let` binding extends the current environment functionally; a later
//!   binding of the same name shadows an earlier one without touching it;
//! - a function body sees a fresh environment holding only its parameters,
//!   never the bindings of the surrounding chain;
//! - the function table grows in declaration order, holds the entry
//!   function from the start, and admits no second declaration of a name;
//! - the walk ends at the first node that is no declaration: that node's
//!   value is the program's result and anything after it is never visited.
//!
//! The first fault aborts the whole walk: no partial module is handed out.

use vstd::prelude::*;

use crate::ast::{
    Expr, ExprS, chain_wf, lemma_no_decl_seq_index, lemma_view_expr_seq_index,
    lemma_view_expr_seq_len, no_decl, no_decl_seq, view_expr, view_expr_seq,
};
use crate::ir::{FunS, Inst, InstS, IrFunction, Module, ModuleS, SemErrS, SemanticError, body_wf,
    fun_wf, inst_wf, module_wf, view_fun, view_funcs, view_inst, view_insts, view_module};

verus! {

/// One entry of the function table: a declared name, how many parameters it
/// takes, and whether a call of it yields a value (the entry function does
/// not).
struct FnSig {
    name: String,
    arity: usize,
    has_value: bool,
}

/// The mathematical shape of an environment.
pub open spec fn view_env(v: Seq<(String, usize)>) -> Seq<(Seq<char>, usize)> {
    v.map_values(|p: (String, usize)| (p.0@, p.1))
}

/// The mathematical shape of a function table.
spec fn view_sigs(v: Seq<FnSig>) -> Seq<(Seq<char>, usize, bool)> {
    v.map_values(|f: FnSig| (f.name@, f.arity, f.has_value))
}

/// The value bound to `n`: the latest binding wins, so an inner binding
/// shadows an outer one of the same name.
pub open spec fn env_lookup(env: Seq<(Seq<char>, usize)>, n: Seq<char>) -> Option<usize>
    decreases env.len(),
{
    if env.len() == 0 {
        None
    } else if env.last().0 == n {
        Some(env.last().1)
    } else {
        env_lookup(env.drop_last(), n)
    }
}

/// Every binding of the environment names a value already defined below
/// `bound`.
pub open spec fn env_wf(env: Seq<(Seq<char>, usize)>, bound: int) -> bool {
    forall|k: int| 0 <= k < env.len() ==> (#[trigger] env[k]).1 < bound
}

/// A lookup in a well-formed environment yields a value below its bound.
proof fn lemma_env_lookup_bound(env: Seq<(Seq<char>, usize)>, n: Seq<char>, bound: int)
    requires
        env_wf(env, bound),
        env_lookup(env, n) is Some,
    ensures
        env_lookup(env, n)->Some_0 < bound,
    decreases env.len(),
{
    if env.len() > 0 && !(env.last().0 == n) {
        assert forall|k: int| 0 <= k < env.drop_last().len() implies (#[trigger] env.drop_last()[
            k
        ]).1 < bound by {
            assert(env.drop_last()[k] == env[k]);
        }
        lemma_env_lookup_bound(env.drop_last(), n, bound);
    }
}

/// The declared function named `n`, if any. Lowering admits each name once,
/// so at most one entry can match.
pub open spec fn sig_lookup(sigs: Seq<(Seq<char>, usize, bool)>, n: Seq<char>) -> Option<
    (Seq<char>, usize, bool),
>
    decreases sigs.len(),
{
    if sigs.len() == 0 {
        None
    } else if sigs.last().0 == n {
        Some(sigs.last())
    } else {
        sig_lookup(sigs.drop_last(), n)
    }
}

/// What lowering one plain expression does: the instructions after it, and
/// the value standing for the expression; or the first fault met. Lowering
/// is structural recursion, left to right, emitting one instruction per
/// operator and none for a variable.
pub open spec fn sp_visit(
    e: ExprS,
    env: Seq<(Seq<char>, usize)>,
    sigs: Seq<(Seq<char>, usize, bool)>,
    insts: Seq<InstS>,
) -> Result<(Seq<InstS>, usize), SemErrS>
    decreases e, 1int,
{
    match e {
        ExprS::Num(d, _) => Ok((insts.push(InstS::Const(d)), insts.len() as usize)),
        ExprS::Var(n, _) => match env_lookup(env, n) {
            Some(v) => Ok((insts, v)),
            None => Err(SemErrS::UndefinedVariable(n)),
        },
        ExprS::Neg(a, _) => match sp_visit(*a, env, sigs, insts) {
            Ok((i1, v1)) => Ok((i1.push(InstS::Neg(v1)), i1.len() as usize)),
            Err(er) => Err(er),
        },
        ExprS::Add(a, b, _) => match sp_visit(*a, env, sigs, insts) {
            Ok((i1, v1)) => match sp_visit(*b, env, sigs, i1) {
                Ok((i2, v2)) => Ok((i2.push(InstS::Add(v1, v2)), i2.len() as usize)),
                Err(er) => Err(er),
            },
            Err(er) => Err(er),
        },
        ExprS::Sub(a, b, _) => match sp_visit(*a, env, sigs, insts) {
            Ok((i1, v1)) => match sp_visit(*b, env, sigs, i1) {
                Ok((i2, v2)) => Ok((i2.push(InstS::Sub(v1, v2)), i2.len() as usize)),
                Err(er) => Err(er),
            },
            Err(er) => Err(er),
        },
        ExprS::Mul(a, b, _) => match sp_visit(*a, env, sigs, insts) {
            Ok((i1, v1)) => match sp_visit(*b, env, sigs, i1) {
                Ok((i2, v2)) => Ok((i2.push(InstS::Mul(v1, v2)), i2.len() as usize)),
                Err(er) => Err(er),
            },
            Err(er) => Err(er),
        },
        ExprS::Div(a, b, _) => match sp_visit(*a, env, sigs, insts) {
            Ok((i1, v1)) => match sp_visit(*b, env, sigs, i1) {
                Ok((i2, v2)) => Ok((i2.push(InstS::Div(v1, v2)), i2.len() as usize)),
                Err(er) => Err(er),
            },
            Err(er) => Err(er),
        },
        ExprS::Call((n, _), args, _) => match sig_lookup(sigs, n) {
            None => Err(SemErrS::UndefinedFunction(n)),
            Some(sig) => if args.len() != sig.1 {
                Err(SemErrS::ArityMismatch(n, sig.1, args.len() as usize))
            } else {
                match sp_visit_args(args, 0, env, sigs, insts, Seq::empty()) {
                    Err(er) => Err(er),
                    Ok((i1, ids)) => if !sig.2 {
                        Err(SemErrS::CallFailed)
                    } else {
                        Ok((i1.push(InstS::Call(n, ids)), i1.len() as usize))
                    },
                }
            },
        },
        // a declaration never stands inside a plain expression: every caller
        // establishes no_decl, so these two cases are out of reach
        ExprS::Let { .. } => arbitrary(),
        ExprS::Fn { .. } => arbitrary(),
    }
}

/// Lowers the arguments of a call from index `i` on, left to right,
/// collecting the value of each.
pub open spec fn sp_visit_args(
    args: Seq<ExprS>,
    i: int,
    env: Seq<(Seq<char>, usize)>,
    sigs: Seq<(Seq<char>, usize, bool)>,
    insts: Seq<InstS>,
    ids: Seq<usize>,
) -> Result<(Seq<InstS>, Seq<usize>), SemErrS>
    decreases args, args.len() - i,
{
    if i < 0 || args.len() <= i {
        Ok((insts, ids))
    } else {
        match sp_visit(args[i], env, sigs, insts) {
            Err(er) => Err(er),
            Ok((i1, v)) => sp_visit_args(args, i + 1, env, sigs, i1, ids.push(v)),
        }
    }
}

/// What walking the declaration chain does: each `fn` is checked against
/// the table, entered with a fresh environment of its parameters and
/// lowered; each `let` is lowered into the entry body and bound; the first
/// other node is lowered as the program's result and ends the walk.
pub open spec fn sp_run(
    e: ExprS,
    env: Seq<(Seq<char>, usize)>,
    sigs: Seq<(Seq<char>, usize, bool)>,
    funcs: Seq<FunS>,
    insts: Seq<InstS>,
) -> Result<ModuleS, SemErrS>
    decreases e, 2int,
{
    match e {
        ExprS::Fn { name, args, body, then, .. } => {
            if sig_lookup(sigs, name.0) is Some {
                Err(SemErrS::DuplicateFunction(name.0))
            } else {
                let sigs1 = sigs.push((name.0, args.len() as usize, true));
                let pinsts = Seq::new(args.len(), |i: int| InstS::Param(i as usize));
                let penv = Seq::new(args.len(), |i: int| (args[i].0, i as usize));
                match sp_visit(*body, penv, sigs1, pinsts) {
                    Err(er) => Err(er),
                    Ok((binsts, ret)) => {
                        let f = FunS {
                            name: name.0,
                            params: args.map_values(|p: (Seq<char>, crate::ast::Span)| p.0),
                            body: binsts,
                            ret,
                        };
                        sp_run(*then, env, sigs1, funcs.push(f), insts)
                    },
                }
            }
        },
        ExprS::Let { name, rhs, then, .. } => match sp_visit(*rhs, env, sigs, insts) {
            Err(er) => Err(er),
            Ok((insts1, v)) => sp_run(*then, env.push((name.0, v)), sigs, funcs, insts1),
        },
        _ => match sp_visit(e, env, sigs, insts) {
            Err(er) => Err(er),
            Ok((insts1, v)) => Ok(ModuleS { functions: funcs, main_body: insts1, result: v }),
        },
    }
}

/// What lowering a whole program yields: the walk of [`sp_run`], started
/// with an empty environment and a table holding only the entry function.
pub open spec fn sp_generate(prog: ExprS) -> Result<ModuleS, SemErrS> {
    sp_run(prog, Seq::empty(), seq![("main"@, 0usize, false)], Seq::empty(), Seq::empty())
}

/// Pushing an instruction and taking shapes commute.
proof fn lemma_view_insts_push(v: Seq<Inst>, i: Inst)
    ensures
        view_insts(v.push(i)) == view_insts(v).push(view_inst(i)),
{
    assert(view_insts(v.push(i)) =~= view_insts(v).push(view_inst(i)));
}

/// The value bound to `n` among the first `i` bindings of `vars`.
fn lookup_var(vars: &Vec<(String, usize)>, n: &String, i: usize) -> (r: Option<usize>)
    requires
        i <= vars@.len(),
    ensures
        r == env_lookup(view_env(vars@.take(i as int)), n@),
    decreases i,
{
    if i == 0 {
        proof {
            assert(view_env(vars@.take(0)) =~= Seq::<(Seq<char>, usize)>::empty());
        }
        None
    } else {
        proof {
            let v = view_env(vars@.take(i as int));
            assert(v.last() == (vars@[i - 1].0@, vars@[i - 1].1));
            assert(v.drop_last() =~= view_env(vars@.take(i - 1)));
        }
        if vars[i - 1].0 == *n {
            Some(vars[i - 1].1)
        } else {
            lookup_var(vars, n, i - 1)
        }
    }
}

/// The arity and value-ness of the declared function named `n`, among the
/// first `i` entries of the table.
fn lookup_sig(sigs: &Vec<FnSig>, n: &String, i: usize) -> (r: Option<(usize, bool)>)
    requires
        i <= sigs@.len(),
    ensures
        ({
            let o = sig_lookup(view_sigs(sigs@.take(i as int)), n@);
            match r {
                Some((arity, has_value)) => o is Some && o->Some_0.1 == arity && o->Some_0.2
                    == has_value,
                None => o is None,
            }
        }),
    decreases i,
{
    if i == 0 {
        proof {
            assert(view_sigs(sigs@.take(0)) =~= Seq::<(Seq<char>, usize, bool)>::empty());
        }
        None
    } else {
        proof {
            let v = view_sigs(sigs@.take(i as int));
            assert(v.last() == (sigs@[i - 1].name@, sigs@[i - 1].arity, sigs@[i - 1].has_value));
            assert(v.drop_last() =~= view_sigs(sigs@.take(i - 1)));
        }
        if sigs[i - 1].name == *n {
            Some((sigs[i - 1].arity, sigs[i - 1].has_value))
        } else {
            lookup_sig(sigs, n, i - 1)
        }
    }
}

/// Lowers one plain expression into `insts`, as [`sp_visit`] describes it.
fn visit_expr(
    e: &Expr,
    vars: &Vec<(String, usize)>,
    sigs: &Vec<FnSig>,
    insts: &mut Vec<Inst>,
) -> (r: Result<usize, SemanticError>)
    requires
        no_decl(view_expr(*e)),
    ensures
        ({
            let o = sp_visit(view_expr(*e), view_env(vars@), view_sigs(sigs@), view_insts(
                old(insts)@,
            ));
            match (r, o) {
                (Ok(v), Ok((si, sv))) => view_insts(final(insts)@) == si && v == sv,
                (Err(er), Err(ers)) => er@ == ers,
                _ => false,
            }
        }),
        ((r is Ok) && env_wf(view_env(vars@), old(insts)@.len() as int)) ==> final(insts)@.len() >= old(insts)@.len() && (forall|j: int|
            0 <= j < old(insts)@.len() ==> final(insts)@[j] == old(insts)@[j]) && (forall|j: int|
            old(insts)@.len() <= j < final(insts)@.len() ==> inst_wf(
                view_inst(final(insts)@[j]),
                j,
                0,
            )) && r->Ok_0 < final(insts)@.len(),
    decreases *e, 2int,
{
    match e {
        Expr::Num(d, _) => {
            let id = insts.len();
            let c = Inst::Const(d.clone());
            proof {
                lemma_view_insts_push(insts@, c);
            }
            insts.push(c);
            Ok(id)
        },
        Expr::Var(n, _) => {
            proof {
                assert(vars@.take(vars@.len() as int) =~= vars@);
            }
            match lookup_var(vars, n, vars.len()) {
                Some(v) => {
                    proof {
                        if env_wf(view_env(vars@), insts@.len() as int) {
                            lemma_env_lookup_bound(view_env(vars@), n@, insts@.len() as int);
                        }
                    }
                    Ok(v)
                },
                None => Err(SemanticError::UndefinedVariable(n.clone())),
            }
        },
        Expr::Neg(a, _) => match visit_expr(a, vars, sigs, insts) {
            Ok(v1) => {
                let id = insts.len();
                let c = Inst::Neg(v1);
                proof {
                    lemma_view_insts_push(insts@, c);
                }
                insts.push(c);
                Ok(id)
            },
            Err(er) => Err(er),
        },
        Expr::Add(a, b, _) => match visit_expr(a, vars, sigs, insts) {
            Ok(v1) => match visit_expr(b, vars, sigs, insts) {
                Ok(v2) => {
                    let id = insts.len();
                    let c = Inst::Add(v1, v2);
                    proof {
                        lemma_view_insts_push(insts@, c);
                    }
                    insts.push(c);
                    Ok(id)
                },
                Err(er) => Err(er),
            },
            Err(er) => Err(er),
        },
        Expr::Sub(a, b, _) => match visit_expr(a, vars, sigs, insts) {
            Ok(v1) => match visit_expr(b, vars, sigs, insts) {
                Ok(v2) => {
                    let id = insts.len();
                    let c = Inst::Sub(v1, v2);
                    proof {
                        lemma_view_insts_push(insts@, c);
                    }
                    insts.push(c);
                    Ok(id)
                },
                Err(er) => Err(er),
            },
            Err(er) => Err(er),
        },
        Expr::Mul(a, b, _) => match visit_expr(a, vars, sigs, insts) {
            Ok(v1) => match visit_expr(b, vars, sigs, insts) {
                Ok(v2) => {
                    let id = insts.len();
                    let c = Inst::Mul(v1, v2);
                    proof {
                        lemma_view_insts_push(insts@, c);
                    }
                    insts.push(c);
                    Ok(id)
                },
                Err(er) => Err(er),
            },
            Err(er) => Err(er),
        },
        Expr::Div(a, b, _) => match visit_expr(a, vars, sigs, insts) {
            Ok(v1) => match visit_expr(b, vars, sigs, insts) {
                Ok(v2) => {
                    let id = insts.len();
                    let c = Inst::Div(v1, v2);
                    proof {
                        lemma_view_insts_push(insts@, c);
                    }
                    insts.push(c);
                    Ok(id)
                },
                Err(er) => Err(er),
            },
            Err(er) => Err(er),
        },
        Expr::Call(name, args, _) => visit_call(name, args, vars, sigs, insts),
        Expr::Let { .. } => unreached(),
        Expr::Fn { .. } => unreached(),
    }
}

/// Checks a call against the function table, lowers its arguments and emits
/// the call, as the call case of [`sp_visit`] describes it.
fn visit_call(
    name: &(String, crate::ast::Span),
    args: &Vec<Expr>,
    vars: &Vec<(String, usize)>,
    sigs: &Vec<FnSig>,
    insts: &mut Vec<Inst>,
) -> (r: Result<usize, SemanticError>)
    requires
        no_decl_seq(view_expr_seq(args@)),
    ensures
        ({
            let o = sp_visit(
                ExprS::Call((name.0@, name.1), view_expr_seq(args@), None),
                view_env(vars@),
                view_sigs(sigs@),
                view_insts(old(insts)@),
            );
            match (r, o) {
                (Ok(v), Ok((si, sv))) => view_insts(final(insts)@) == si && v == sv,
                (Err(er), Err(ers)) => er@ == ers,
                _ => false,
            }
        }),
        ((r is Ok) && env_wf(view_env(vars@), old(insts)@.len() as int)) ==> final(insts)@.len() >= old(insts)@.len() && (forall|j: int|
            0 <= j < old(insts)@.len() ==> final(insts)@[j] == old(insts)@[j]) && (forall|j: int|
            old(insts)@.len() <= j < final(insts)@.len() ==> inst_wf(
                view_inst(final(insts)@[j]),
                j,
                0,
            )) && r->Ok_0 < final(insts)@.len(),
    decreases *args, args@.len() + 2,
{
    proof {
        assert(sigs@.take(sigs@.len() as int) =~= sigs@);
        lemma_view_expr_seq_len(args@);
    }
    match lookup_sig(sigs, &name.0, sigs.len()) {
        None => Err(SemanticError::UndefinedFunction(name.0.clone())),
        Some((arity, has_value)) => {
            if args.len() != arity {
                Err(SemanticError::ArityMismatch(name.0.clone(), arity, args.len()))
            } else {
                let mut ids: Vec<usize> = Vec::new();
                match visit_args(args, 0, vars, sigs, insts, &mut ids) {
                    Err(er) => Err(er),
                    Ok(()) => {
                        if !has_value {
                            Err(SemanticError::CallFailed)
                        } else {
                            let id = insts.len();
                            let c = Inst::Call(name.0.clone(), ids);
                            proof {
                                lemma_view_insts_push(insts@, c);
                            }
                            insts.push(c);
                            Ok(id)
                        }
                    },
                }
            }
        },
    }
}

/// Lowers the arguments from index `i` on, as [`sp_visit_args`] describes
/// them, appending each argument's value onto `ids`.
fn visit_args(
    args: &Vec<Expr>,
    i: usize,
    vars: &Vec<(String, usize)>,
    sigs: &Vec<FnSig>,
    insts: &mut Vec<Inst>,
    ids: &mut Vec<usize>,
) -> (r: Result<(), SemanticError>)
    requires
        i <= args@.len(),
        no_decl_seq(view_expr_seq(args@)),
    ensures
        ({
            let o = sp_visit_args(
                view_expr_seq(args@),
                i as int,
                view_env(vars@),
                view_sigs(sigs@),
                view_insts(old(insts)@),
                old(ids)@,
            );
            match (r, o) {
                (Ok(()), Ok((si, sids))) => view_insts(final(insts)@) == si && final(ids)@
                    == sids,
                (Err(er), Err(ers)) => er@ == ers,
                _ => false,
            }
        }),
        ((r is Ok) && env_wf(view_env(vars@), old(insts)@.len() as int)) ==> final(insts)@.len() >= old(insts)@.len() && (forall|j: int|
            0 <= j < old(insts)@.len() ==> final(insts)@[j] == old(insts)@[j]) && (forall|j: int|
            old(insts)@.len() <= j < final(insts)@.len() ==> inst_wf(
                view_inst(final(insts)@[j]),
                j,
                0,
            )),
        ((r is Ok) && env_wf(view_env(vars@), old(insts)@.len() as int) && (forall|t: int|
            0 <= t < old(ids)@.len() ==> old(ids)@[t] < old(insts)@.len())) ==> forall|t: int|
            0 <= t < final(ids)@.len() ==> final(ids)@[t] < final(insts)@.len(),
    decreases *args, args@.len() - i,
{
    proof {
        lemma_view_expr_seq_len(args@);
    }
    if i == args.len() {
        Ok(())
    } else {
        proof {
            lemma_view_expr_seq_index(args@, i as int);
            lemma_no_decl_seq_index(view_expr_seq(args@), i as int);
        }
        match visit_expr(&args[i], vars, sigs, insts) {
            Err(er) => Err(er),
            Ok(v) => {
                ids.push(v);
                visit_args(args, i + 1, vars, sigs, insts, ids)
            },
        }
    }
}

/// Walks the declaration chain, as [`sp_run`] describes it.
fn run(
    e: &Expr,
    vars: Vec<(String, usize)>,
    sigs: Vec<FnSig>,
    funcs: Vec<IrFunction>,
    insts: Vec<Inst>,
) -> (r: Result<Module, SemanticError>)
    requires
        chain_wf(view_expr(*e)),
        env_wf(view_env(vars@), insts@.len() as int),
        body_wf(view_insts(insts@), 0),
        forall|k: int| 0 <= k < funcs@.len() ==> fun_wf(#[trigger] view_funcs(funcs@)[k]),
    ensures
        ({
            let o = sp_run(view_expr(*e), view_env(vars@), view_sigs(sigs@), view_funcs(
                funcs@,
            ), view_insts(insts@));
            match (r, o) {
                (Ok(m), Ok(ms)) => view_module(m) == ms && module_wf(view_module(m)),
                (Err(er), Err(ers)) => er@ == ers,
                _ => false,
            }
        }),
    decreases *e, 3int,
{
    match e {
        Expr::Fn { name, args, body, then, .. } => {
            proof {
                assert(sigs@.take(sigs@.len() as int) =~= sigs@);
            }
            if lookup_sig(&sigs, &name.0, sigs.len()).is_some() {
                Err(SemanticError::DuplicateFunction(name.0.clone()))
            } else {
                let ghost argss = view_expr(*e)->Fn_args;
                let mut sigs1 = sigs;
                sigs1.push(FnSig { name: name.0.clone(), arity: args.len(), has_value: true });
                proof {
                    assert(view_sigs(sigs1@) =~= view_sigs(sigs@).push(
                        (name.0@, args@.len() as usize, true),
                    ));
                }
                let mut pinsts: Vec<Inst> = Vec::new();
                let mut penv: Vec<(String, usize)> = Vec::new();
                let mut pnames: Vec<String> = Vec::new();
                let mut j: usize = 0;
                while j < args.len()
                    invariant
                        j <= args@.len(),
                        argss == args@.map_values(|p: (String, crate::ast::Span)| (p.0@, p.1)),
                        view_insts(pinsts@) =~= Seq::new(
                            j as nat,
                            |i: int| InstS::Param(i as usize),
                        ),
                        view_env(penv@) =~= Seq::new(
                            j as nat,
                            |i: int| (argss[i].0, i as usize),
                        ),
                        pnames@.map_values(|p: String| p@) =~= Seq::new(
                            j as nat,
                            |i: int| argss[i].0,
                        ),
                    decreases args@.len() - j,
                {
                    let ghost pi0 = pinsts@;
                    let ghost pe0 = penv@;
                    let ghost pn0 = pnames@;
                    pinsts.push(Inst::Param(j));
                    let bound = (args[j].0.clone(), j);
                    penv.push(bound);
                    pnames.push(args[j].0.clone());
                    proof {
                        lemma_view_insts_push(pi0, Inst::Param(j));
                        assert(view_env(pe0.push(bound)) =~= view_env(pe0).push(
                            (bound.0@, bound.1),
                        ));
                        assert(pn0.push(args@[j as int].0).map_values(|p: String| p@)
                            =~= pn0.map_values(|p: String| p@).push(args@[j as int].0@));
                        assert(view_insts(pinsts@) =~= Seq::new(
                            (j + 1) as nat,
                            |i: int| InstS::Param(i as usize),
                        ));
                        assert(view_env(penv@) =~= Seq::new(
                            (j + 1) as nat,
                            |i: int| (argss[i].0, i as usize),
                        ));
                        assert(pnames@.map_values(|p: String| p@) =~= Seq::new(
                            (j + 1) as nat,
                            |i: int| argss[i].0,
                        ));
                    }
                    j = j + 1;
                }
                let ghost pi = pinsts@;
                proof {
                    assert forall|k: int| 0 <= k < view_insts(pi).len() implies inst_wf(
                        #[trigger] view_insts(pi)[k],
                        k,
                        argss.len() as int,
                    ) by {
                        assert(view_insts(pi)[k] == InstS::Param(k as usize));
                    }
                    assert(body_wf(view_insts(pi), argss.len() as int));
                    assert forall|k: int| 0 <= k < view_env(penv@).len() implies (#[trigger] view_env(
                        penv@,
                    )[k]).1 < pi.len() as int by {
                        assert(view_env(penv@)[k] == (argss[k].0, k as usize));
                    }
                    assert(env_wf(view_env(penv@), pi.len() as int));
                }
                let mut binsts = pinsts;
                match visit_expr(body, &penv, &sigs1, &mut binsts) {
                    Err(er) => Err(er),
                    Ok(ret) => {
                        let f = IrFunction { name: name.0.clone(), params: pnames, body: binsts, ret };
                        proof {
                            assert(view_fun(f).params =~= argss.map_values(
                                |p: (Seq<char>, crate::ast::Span)| p.0,
                            ));
                            assert(view_env(penv@) =~= Seq::new(
                                argss.len(),
                                |i: int| (argss[i].0, i as usize),
                            ));
                            assert(view_insts(pi) =~= Seq::new(
                                argss.len(),
                                |i: int| InstS::Param(i as usize),
                            ));
                            let n = argss.len() as int;
                            let bv = view_insts(binsts@);
                            assert forall|j: int| 0 <= j < bv.len() implies inst_wf(
                                #[trigger] bv[j],
                                j,
                                n,
                            ) by {
                                if j < pi.len() {
                                    assert(bv[j] == view_insts(pi)[j]);
                                    assert(view_insts(pi)[j] == InstS::Param(j as usize));
                                } else {
                                    assert(inst_wf(view_inst(binsts@[j]), j, 0));
                                }
                            }
                            assert(view_fun(f).params.len() == n);
                            assert(fun_wf(view_fun(f)));
                        }
                        let mut funcs1 = funcs;
                        proof {
                            assert(view_funcs(funcs@.push(f)) =~= view_funcs(funcs@).push(
                                view_fun(f),
                            ));
                        }
                        funcs1.push(f);
                        proof {
                            assert forall|k: int| 0 <= k < view_funcs(funcs1@).len() implies fun_wf(
                                #[trigger] view_funcs(funcs1@)[k],
                            ) by {
                                if k < funcs@.len() {
                                    assert(view_funcs(funcs1@)[k] == view_funcs(funcs@)[k]);
                                } else {
                                    assert(view_funcs(funcs1@)[k] == view_fun(f));
                                }
                            }
                        }
                        run(then, vars, sigs1, funcs1, insts)
                    },
                }
            }
        },
        Expr::Let { name, rhs, then, .. } => {
            let mut insts1 = insts;
            match visit_expr(rhs, &vars, &sigs, &mut insts1) {
                Err(er) => Err(er),
                Ok(v) => {
                    let mut vars1 = vars;
                    let ghost pre = vars1@;
                    proof {
                        assert(view_env(pre.push((name.0, v))) =~= view_env(pre).push(
                            (name.0@, v),
                        ));
                    }
                    vars1.push((name.0.clone(), v));
                    proof {
                        assert forall|j: int| 0 <= j < view_insts(insts1@).len() implies inst_wf(
                            #[trigger] view_insts(insts1@)[j],
                            j,
                            0,
                        ) by {
                            if j < insts@.len() {
                                assert(view_insts(insts1@)[j] == view_insts(insts@)[j]);
                            } else {
                                assert(inst_wf(view_inst(insts1@[j]), j, 0));
                            }
                        }
                        assert(body_wf(view_insts(insts1@), 0));
                        assert forall|k: int| 0 <= k < view_env(vars1@).len() implies (
                        #[trigger] view_env(vars1@)[k]).1 < insts1@.len() as int by {
                            if k < pre.len() {
                                assert(view_env(vars1@)[k] == view_env(pre)[k]);
                                assert(view_env(pre)[k].1 < insts@.len() as int);
                            } else {
                                assert(view_env(vars1@)[k] == (name.0@, v));
                            }
                        }
                        assert(env_wf(view_env(vars1@), insts1@.len() as int));
                    }
                    run(then, vars1, sigs, funcs, insts1)
                },
            }
        },
        _ => {
            let mut insts1 = insts;
            match visit_expr(e, &vars, &sigs, &mut insts1) {
                Err(er) => Err(er),
                Ok(v) => {
                    proof {
                        assert forall|j: int| 0 <= j < view_insts(insts1@).len() implies inst_wf(
                            #[trigger] view_insts(insts1@)[j],
                            j,
                            0,
                        ) by {
                            if j < insts@.len() {
                                assert(view_insts(insts1@)[j] == view_insts(insts@)[j]);
                            } else {
                                assert(inst_wf(view_inst(insts1@[j]), j, 0));
                            }
                        }
                        assert(body_wf(view_insts(insts1@), 0));
                    }
                    Ok(Module { functions: funcs, main_body: insts1, result: v })
                },
            }
        },
    }
}

/// Lowers program trees to modules; stateless, so a single associated
/// function is its whole surface.
pub struct LlvmGenerator;

impl LlvmGenerator {
    /// Lowers a whole program in one pass, as [`sp_generate`] describes it:
    /// the module holding every declared function and the entry body, or
    /// the first semantic fault.
    pub fn generate(program: &Expr) -> (r: Result<Module, SemanticError>)
        requires
            chain_wf(view_expr(*program)),
        ensures
            ({
                let o = sp_generate(view_expr(*program));
                match (r, o) {
                    (Ok(m), Ok(ms)) => view_module(m) == ms,
                    (Err(er), Err(ers)) => er@ == ers,
                    _ => false,
                }
            }),
    {
        let main_sig = FnSig { name: String::from_str("main"), arity: 0, has_value: false };
        let sigs = vec![main_sig];
        proof {
            assert(view_sigs(sigs@) =~= seq![("main"@, 0usize, false)]);
            assert(view_env(Seq::<(String, usize)>::empty()) =~= Seq::<
                (Seq<char>, usize),
            >::empty());
            assert(view_funcs(Seq::<IrFunction>::empty()) =~= Seq::<FunS>::empty());
            assert(view_insts(Seq::<Inst>::empty()) =~= Seq::<InstS>::empty());
        }
        run(program, Vec::new(), sigs, Vec::new(), Vec::new())
    }
}


/// Binding a name extends the environment functionally: the new name is
/// bound to the new value, and every other name keeps exactly the binding
/// it had. Shadowing therefore hides, and never destroys, an outer binding.
pub proof fn lemma_env_extension(env: Seq<(Seq<char>, usize)>, n: Seq<char>, v: usize, m: Seq<char>)
    ensures
        env_lookup(env.push((n, v)), n) == Some(v),
        m != n ==> env_lookup(env.push((n, v)), m) == env_lookup(env, m),
{
    assert(env.push((n, v)).drop_last() =~= env);
    assert(env.push((n, v)).last() == (n, v));
}

/// The fresh environment a function body is lowered under binds exactly the
/// function's parameter names: a name is visible inside the body if and only
/// if it is a parameter, so no `let` of the surrounding chain can reach in.
pub proof fn lemma_fn_env_binds_params_only(args: Seq<(Seq<char>, crate::ast::Span)>, v: Seq<char>)
    ensures
        env_lookup(Seq::new(args.len(), |i: int| (args[i].0, i as usize)), v) is Some <==> (exists|
            i: int,
        |
            0 <= i < args.len() && args[i].0 == v),
    decreases args.len(),
{
    let penv = Seq::new(args.len(), |i: int| (args[i].0, i as usize));
    if args.len() > 0 {
        let shorter = args.drop_last();
        lemma_fn_env_binds_params_only(shorter, v);
        assert(penv.drop_last() =~= Seq::new(shorter.len(), |i: int| (shorter[i].0, i as usize)));
        assert(penv.last() == (args[args.len() - 1].0, (args.len() - 1) as usize));
        if args.last().0 == v {
            assert(0 <= args.len() - 1 < args.len() && args[args.len() - 1].0 == v);
        } else if env_lookup(penv, v) is Some {
            let i = choose|i: int| 0 <= i < shorter.len() && shorter[i].0 == v;
            assert(args[i].0 == v);
        } else if exists|i: int| 0 <= i < args.len() && args[i].0 == v {
            let i = choose|i: int| 0 <= i < args.len() && args[i].0 == v;
            assert(shorter[i] == args[i]);
        }
    }
}

} // verus!

