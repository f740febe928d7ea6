//! The abstract syntax tree: pure data produced by the parser and consumed
//! by the code generator, with a source span on every node for diagnostics.

use vstd::prelude::*;

verus! {

/// A half-open range `[start, end)` of byte positions into the source text.
/// Spans are purely informational: they never affect what a program means.
#[derive(Clone, Copy, Debug, PartialEq, Eq, Structural)]
pub struct Span {
    pub start: usize,
    pub end: usize,
}

/// One expression or declaration node of the syntax tree.
///
/// A program is a chain of `Let`/`Fn` nodes ended by one trailing
/// expression; every composite node exclusively owns its children.
/// A numeric literal keeps the decimal digits it was written with: the
/// front end never computes with the scalar type, so the backend alone
/// turns the digits into a constant.
#[derive(Debug, PartialEq)]
pub enum Expr {
    Num(String, Option<Span>),
    Var(String, Option<Span>),
    Neg(Box<Expr>, Option<Span>),
    Add(Box<Expr>, Box<Expr>, Option<Span>),
    Sub(Box<Expr>, Box<Expr>, Option<Span>),
    Mul(Box<Expr>, Box<Expr>, Option<Span>),
    Div(Box<Expr>, Box<Expr>, Option<Span>),
    Call((String, Span), Vec<Expr>, Option<Span>),
    Let { name: (String, Span), rhs: Box<Expr>, then: Box<Expr>, span: Option<Span> },
    Fn {
        name: (String, Span),
        args: Vec<(String, Span)>,
        body: Box<Expr>,
        then: Box<Expr>,
        span: Option<Span>,
    },
}

/// The mathematical shape of an [`Expr`]: names become character sequences,
/// child lists become sequences. Contracts speak of this form.
pub enum ExprS {
    Num(Seq<char>, Option<Span>),
    Var(Seq<char>, Option<Span>),
    Neg(Box<ExprS>, Option<Span>),
    Add(Box<ExprS>, Box<ExprS>, Option<Span>),
    Sub(Box<ExprS>, Box<ExprS>, Option<Span>),
    Mul(Box<ExprS>, Box<ExprS>, Option<Span>),
    Div(Box<ExprS>, Box<ExprS>, Option<Span>),
    Call((Seq<char>, Span), Seq<ExprS>, Option<Span>),
    Let { name: (Seq<char>, Span), rhs: Box<ExprS>, then: Box<ExprS>, span: Option<Span> },
    Fn {
        name: (Seq<char>, Span),
        args: Seq<(Seq<char>, Span)>,
        body: Box<ExprS>,
        then: Box<ExprS>,
        span: Option<Span>,
    },
}

/// The mathematical shape of a syntax tree node.
pub open spec fn view_expr(e: Expr) -> ExprS
    decreases e,
{
    match e {
        Expr::Num(d, s) => ExprS::Num(d@, s),
        Expr::Var(n, s) => ExprS::Var(n@, s),
        Expr::Neg(a, s) => ExprS::Neg(Box::new(view_expr(*a)), s),
        Expr::Add(a, b, s) => ExprS::Add(Box::new(view_expr(*a)), Box::new(view_expr(*b)), s),
        Expr::Sub(a, b, s) => ExprS::Sub(Box::new(view_expr(*a)), Box::new(view_expr(*b)), s),
        Expr::Mul(a, b, s) => ExprS::Mul(Box::new(view_expr(*a)), Box::new(view_expr(*b)), s),
        Expr::Div(a, b, s) => ExprS::Div(Box::new(view_expr(*a)), Box::new(view_expr(*b)), s),
        Expr::Call(n, args, s) => ExprS::Call((n.0@, n.1), view_expr_seq(args@), s),
        Expr::Let { name, rhs, then, span } => ExprS::Let {
            name: (name.0@, name.1),
            rhs: Box::new(view_expr(*rhs)),
            then: Box::new(view_expr(*then)),
            span,
        },
        Expr::Fn { name, args, body, then, span } => ExprS::Fn {
            name: (name.0@, name.1),
            args: args@.map_values(|p: (String, Span)| (p.0@, p.1)),
            body: Box::new(view_expr(*body)),
            then: Box::new(view_expr(*then)),
            span,
        },
    }
}

/// The mathematical shape of each tree in a list of call arguments.
pub open spec fn view_expr_seq(s: Seq<Expr>) -> Seq<ExprS>
    decreases s,
{
    if s.len() == 0 {
        Seq::empty()
    } else {
        view_expr_seq(s.drop_last()).push(view_expr(s.last()))
    }
}

impl View for Expr {
    type V = ExprS;

    open spec fn view(&self) -> ExprS {
        view_expr(*self)
    }
}

/// `e` with its span field replaced by `sp`.
pub open spec fn with_span(e: ExprS, sp: Span) -> ExprS {
    match e {
        ExprS::Num(d, _) => ExprS::Num(d, Some(sp)),
        ExprS::Var(n, _) => ExprS::Var(n, Some(sp)),
        ExprS::Neg(a, _) => ExprS::Neg(a, Some(sp)),
        ExprS::Add(a, b, _) => ExprS::Add(a, b, Some(sp)),
        ExprS::Sub(a, b, _) => ExprS::Sub(a, b, Some(sp)),
        ExprS::Mul(a, b, _) => ExprS::Mul(a, b, Some(sp)),
        ExprS::Div(a, b, _) => ExprS::Div(a, b, Some(sp)),
        ExprS::Call(n, args, _) => ExprS::Call(n, args, Some(sp)),
        ExprS::Let { name, rhs, then, span: _ } => ExprS::Let { name, rhs, then, span: Some(sp) },
        ExprS::Fn { name, args, body, then, span: _ } => ExprS::Fn {
            name,
            args,
            body,
            then,
            span: Some(sp),
        },
    }
}

impl Expr {
    /// Fill the span field of a node of any variant: some parsing steps
    /// construct a node first and learn its full extent afterwards.
    pub fn set_span(&mut self, span: Span)
        ensures
            view_expr(*final(self)) == with_span(view_expr(*old(self)), span),
    {
        let mut taken = Expr::Num(String::new(), None);
        core::mem::swap(self, &mut taken);
        *self = match taken {
            Expr::Num(d, _) => Expr::Num(d, Some(span)),
            Expr::Var(n, _) => Expr::Var(n, Some(span)),
            Expr::Neg(a, _) => Expr::Neg(a, Some(span)),
            Expr::Add(a, b, _) => Expr::Add(a, b, Some(span)),
            Expr::Sub(a, b, _) => Expr::Sub(a, b, Some(span)),
            Expr::Mul(a, b, _) => Expr::Mul(a, b, Some(span)),
            Expr::Div(a, b, _) => Expr::Div(a, b, Some(span)),
            Expr::Call(n, args, _) => Expr::Call(n, args, Some(span)),
            Expr::Let { name, rhs, then, span: _ } => Expr::Let {
                name,
                rhs,
                then,
                span: Some(span),
            },
            Expr::Fn { name, args, body, then, span: _ } => Expr::Fn {
                name,
                args,
                body,
                then,
                span: Some(span),
            },
        };
    }
}


// ---------------------------------------------------------------------------
// the shape of a program
// ---------------------------------------------------------------------------

/// The subtree is a plain expression: no declaration stands inside it.
pub open spec fn no_decl(e: ExprS) -> bool
    decreases e,
{
    match e {
        ExprS::Num(_, _) => true,
        ExprS::Var(_, _) => true,
        ExprS::Neg(a, _) => no_decl(*a),
        ExprS::Add(a, b, _) => no_decl(*a) && no_decl(*b),
        ExprS::Sub(a, b, _) => no_decl(*a) && no_decl(*b),
        ExprS::Mul(a, b, _) => no_decl(*a) && no_decl(*b),
        ExprS::Div(a, b, _) => no_decl(*a) && no_decl(*b),
        ExprS::Call(_, args, _) => no_decl_seq(args),
        ExprS::Let { .. } => false,
        ExprS::Fn { .. } => false,
    }
}

/// Every tree of the list is a plain expression.
pub open spec fn no_decl_seq(es: Seq<ExprS>) -> bool
    decreases es,
{
    if es.len() == 0 {
        true
    } else {
        no_decl_seq(es.drop_last()) && no_decl(es.last())
    }
}

/// A program: a chain of `Let`/`Fn` declarations, each holding plain
/// expressions, ended by one plain expression.
pub open spec fn chain_wf(e: ExprS) -> bool
    decreases e,
{
    match e {
        ExprS::Let { rhs, then, .. } => no_decl(*rhs) && chain_wf(*then),
        ExprS::Fn { body, then, .. } => no_decl(*body) && chain_wf(*then),
        _ => no_decl(e),
    }
}

/// A list of plain expressions is plain at every index.
pub proof fn lemma_no_decl_seq_index(es: Seq<ExprS>, i: int)
    requires
        no_decl_seq(es),
        0 <= i < es.len(),
    ensures
        no_decl(es[i]),
    decreases es.len(),
{
    if i + 1 < es.len() {
        assert(es.drop_last()[i] == es[i]);
        lemma_no_decl_seq_index(es.drop_last(), i);
    }
}

/// Whether the subtree is a plain expression, free of declarations.
pub fn is_plain_expr(e: &Expr) -> (r: bool)
    ensures
        r == no_decl(e@),
    decreases *e, 1int,
{
    match e {
        Expr::Num(_, _) => true,
        Expr::Var(_, _) => true,
        Expr::Neg(a, _) => is_plain_expr(a),
        Expr::Add(a, b, _) => is_plain_expr(a) && is_plain_expr(b),
        Expr::Sub(a, b, _) => is_plain_expr(a) && is_plain_expr(b),
        Expr::Mul(a, b, _) => is_plain_expr(a) && is_plain_expr(b),
        Expr::Div(a, b, _) => is_plain_expr(a) && is_plain_expr(b),
        Expr::Call(_, args, _) => {
            let r = is_plain_args(args, 0);
            proof {
                assert(args@.skip(0) =~= args@);
            }
            r
        },
        Expr::Let { .. } => false,
        Expr::Fn { .. } => false,
    }
}

/// Whether every argument from index `i` on is a plain expression.
fn is_plain_args(args: &Vec<Expr>, i: usize) -> (r: bool)
    requires
        i <= args@.len(),
    ensures
        r == no_decl_seq(view_expr_seq(args@.skip(i as int))),
    decreases *args, args@.len() - i,
{
    if i == args.len() {
        proof {
            assert(view_expr_seq(args@.skip(i as int)) =~= Seq::<ExprS>::empty());
        }
        true
    } else {
        let head = is_plain_expr(&args[i]);
        let rest = if head {
            is_plain_args(args, i + 1)
        } else {
            false
        };
        proof {
            lemma_no_decl_skip(args@, i as int);
        }
        head && rest
    }
}

/// Unrolls [`no_decl_seq`] one tree from the front.
proof fn lemma_no_decl_skip(s: Seq<Expr>, i: int)
    requires
        0 <= i < s.len(),
    ensures
        no_decl_seq(view_expr_seq(s.skip(i))) == (no_decl(view_expr(s[i])) && no_decl_seq(
            view_expr_seq(s.skip(i + 1)),
        )),
    decreases s.len() - i,
{
    let tail = view_expr_seq(s.skip(i));
    if i + 1 == s.len() {
        assert(s.skip(i).drop_last() =~= s.skip(i + 1));
        assert(s.skip(i).last() == s[i]);
        assert(view_expr_seq(s.skip(i + 1)) =~= Seq::<ExprS>::empty());
        lemma_view_seq_unfold(s.skip(i));
    } else {
        lemma_view_seq_unfold(s.skip(i));
        lemma_view_seq_unfold(s.skip(i + 1));
        assert(s.skip(i).drop_last() =~= s.skip(i).take(s.len() - i - 1));
        lemma_no_decl_skip(s.drop_last(), i);
        assert(s.drop_last().skip(i) =~= s.skip(i).drop_last());
        assert(s.drop_last().skip(i + 1) =~= s.skip(i + 1).drop_last());
        assert(s.drop_last()[i] == s[i]);
        assert(s.skip(i).last() == s.last());
        assert(s.skip(i + 1).last() == s.last());
    }
}

/// Unrolls [`view_expr_seq`] at the back.
proof fn lemma_view_seq_unfold(s: Seq<Expr>)
    requires
        s.len() > 0,
    ensures
        view_expr_seq(s) == view_expr_seq(s.drop_last()).push(view_expr(s.last())),
        no_decl_seq(view_expr_seq(s)) == (no_decl_seq(view_expr_seq(s.drop_last())) && no_decl(
            view_expr(s.last()),
        )),
{
    let v = view_expr_seq(s);
    assert(v.drop_last() =~= view_expr_seq(s.drop_last()));
    assert(v.last() == view_expr(s.last()));
}

/// Whether the tree is a program: declarations on the spine only, ended by
/// one plain expression. The parser only ever returns such trees; a caller
/// that assembles a tree by hand can test it here before lowering it.
pub fn is_chain(e: &Expr) -> (r: bool)
    ensures
        r == chain_wf(e@),
    decreases *e, 2int,
{
    match e {
        Expr::Let { rhs, then, .. } => is_plain_expr(rhs) && is_chain(then),
        Expr::Fn { body, then, .. } => is_plain_expr(body) && is_chain(then),
        _ => is_plain_expr(e),
    }
}


/// A list of trees and its list of shapes have the same length.
pub proof fn lemma_view_expr_seq_len(s: Seq<Expr>)
    ensures
        view_expr_seq(s).len() == s.len(),
    decreases s.len(),
{
    if s.len() > 0 {
        lemma_view_expr_seq_len(s.drop_last());
    }
}

/// Taking shapes of a list of trees commutes with indexing.
pub proof fn lemma_view_expr_seq_index(s: Seq<Expr>, i: int)
    requires
        0 <= i < s.len(),
    ensures
        view_expr_seq(s).len() == s.len(),
        view_expr_seq(s)[i] == view_expr(s[i]),
    decreases s.len(),
{
    lemma_view_expr_seq_len(s);
    lemma_view_expr_seq_len(s.drop_last());
    if i < s.len() - 1 {
        lemma_view_expr_seq_index(s.drop_last(), i);
        assert(s.drop_last()[i] == s[i]);
    }
}


/// Pushing onto a list of plain expressions stays plain exactly when the
/// new tree is plain.
pub proof fn lemma_no_decl_seq_push(es: Seq<ExprS>, e: ExprS)
    ensures
        no_decl_seq(es.push(e)) == (no_decl_seq(es) && no_decl(e)),
{
    assert(es.push(e).drop_last() =~= es);
    assert(es.push(e).last() == e);
}

} // verus!



