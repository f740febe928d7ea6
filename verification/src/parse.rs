//! A precedence-climbing recursive-descent parser for the source grammar
//!
//! ```text
//! decl    := "let" IDENT "=" sum ";" decl
//!          | "fn" IDENT IDENT* "=" sum ";" decl
//!          | sum
//! sum     := product (("+" | "-") product)*
//! product := unary (("*" | "/") unary)*
//! unary   := "-"* atom
//! atom    := INT | "(" sum ")" | IDENT "(" sum ("," sum)* ","? ")" | IDENT
//! ```
//!
//! The parser never stops at the first mistake: every structural mismatch is
//! recorded with a span, the expected tokens and the byte actually found, and
//! parsing resumes as if the missing token had been present. The result is
//! the whole tree, or every error collected, never a partial mixture.
//!
//! Every parsing function is an exact mirror of a specification function on
//! the byte sequence, so what the parser returns is pinned down completely:
//! identical input yields an identical tree.

use vstd::prelude::*;

use crate::ast::{Expr, ExprS, Span, chain_wf, lemma_no_decl_seq_push, no_decl, no_decl_seq, view_expr, view_expr_seq};

verus! {

/// A token description that the parser can announce as expected.
#[derive(Clone, Copy, Debug, PartialEq, Eq, Structural)]
pub enum Expected {
    /// The start of an expression: an integer, `(`, a call or an identifier.
    Expr,
    /// An identifier that is not a keyword.
    Ident,
    /// The byte `=`.
    Equals,
    /// The byte `;`.
    Semicolon,
    /// The byte `)`.
    CloseParen,
    /// The byte `,`.
    Comma,
    /// The end of the input.
    Eof,
}

/// One structural mismatch: where it was met, what would have been accepted
/// there, and the byte actually found (`None` at the end of the input).
#[derive(Debug, PartialEq)]
pub struct SyntaxError {
    pub span: Span,
    pub expected: Vec<Expected>,
    pub found: Option<u8>,
}

/// The mathematical shape of a [`SyntaxError`].
pub struct ErrS {
    pub span: Span,
    pub expected: Seq<Expected>,
    pub found: Option<u8>,
}

impl View for SyntaxError {
    type V = ErrS;

    open spec fn view(&self) -> ErrS {
        ErrS { span: self.span, expected: self.expected@, found: self.found }
    }
}

/// The mathematical shape of a list of collected errors.
pub open spec fn view_errs(v: Seq<SyntaxError>) -> Seq<ErrS> {
    v.map_values(|e: SyntaxError| e@)
}

// ---------------------------------------------------------------------------
// byte classes of the grammar
// ---------------------------------------------------------------------------

/// Insignificant whitespace, skippable around every token.
pub open spec fn is_ws(b: u8) -> bool {
    b == 32 || b == 9 || b == 10 || b == 13 || b == 11 || b == 12
}

/// A decimal digit.
pub open spec fn is_digit(b: u8) -> bool {
    48 <= b && b <= 57
}

/// A byte that may open an identifier.
pub open spec fn is_ident_start(b: u8) -> bool {
    (97 <= b && b <= 122) || (65 <= b && b <= 90) || b == 95
}

/// A byte that may continue an identifier.
pub open spec fn is_ident_char(b: u8) -> bool {
    is_ident_start(b) || is_digit(b)
}

/// The bytes `s[a..b)` spell the keyword `let`.
pub open spec fn is_kw_let(s: Seq<u8>, a: int, b: int) -> bool {
    b - a == 3 && s[a] == 108 && s[a + 1] == 101 && s[a + 2] == 116
}

/// The bytes `s[a..b)` spell the keyword `fn`.
pub open spec fn is_kw_fn(s: Seq<u8>, a: int, b: int) -> bool {
    b - a == 2 && s[a] == 102 && s[a + 1] == 110
}

// ---------------------------------------------------------------------------
// runs of bytes, and the text they carry
// ---------------------------------------------------------------------------

/// How many whitespace bytes stand at `pos`.
pub open spec fn ws_run(s: Seq<u8>, pos: int) -> nat
    decreases s.len() - pos,
{
    if 0 <= pos && pos < s.len() && is_ws(s[pos]) {
        1 + ws_run(s, pos + 1)
    } else {
        0
    }
}

/// How many decimal digits stand at `pos`.
pub open spec fn digits_run(s: Seq<u8>, pos: int) -> nat
    decreases s.len() - pos,
{
    if 0 <= pos && pos < s.len() && is_digit(s[pos]) {
        1 + digits_run(s, pos + 1)
    } else {
        0
    }
}

/// How many identifier bytes stand at `pos`.
pub open spec fn ident_run(s: Seq<u8>, pos: int) -> nat
    decreases s.len() - pos,
{
    if 0 <= pos && pos < s.len() && is_ident_char(s[pos]) {
        1 + ident_run(s, pos + 1)
    } else {
        0
    }
}

/// The text of the bytes `s[a..b)`, one character per byte.
pub open spec fn chars_of(s: Seq<u8>, a: int, b: int) -> Seq<char> {
    s.subrange(a, b).map_values(|x: u8| x as char)
}

/// The span `[a, b)`.
pub open spec fn span2(a: int, b: int) -> Span {
    Span { start: a as usize, end: b as usize }
}

/// The error record for a mismatch met at `p`.
pub open spec fn err_at(s: Seq<u8>, p: int, expected: Seq<Expected>) -> ErrS {
    ErrS {
        span: if p < s.len() {
            span2(p, p + 1)
        } else {
            span2(s.len() as int, s.len() as int)
        },
        expected,
        found: if 0 <= p && p < s.len() {
            Some(s[p])
        } else {
            None
        },
    }
}


// ---------------------------------------------------------------------------
// what the spans of a parsed tree satisfy
// ---------------------------------------------------------------------------

/// The name `n` is exactly what `sp` slices out of the source.
pub open spec fn name_ok(n: Seq<char>, sp: Span, s: Seq<u8>) -> bool {
    sp.start <= sp.end && sp.end <= s.len() && n == chars_of(s, sp.start as int, sp.end as int)
}

/// The node carries some span that lies within the source.
pub open spec fn span_ok(sp: Option<Span>, s: Seq<u8>) -> bool {
    match sp {
        Some(v) => v.start <= v.end && v.end <= s.len(),
        None => false,
    }
}

/// The span the node carries, whatever its variant.
pub open spec fn span_of(e: ExprS) -> Option<Span> {
    match e {
        ExprS::Num(_, sp) => sp,
        ExprS::Var(_, sp) => sp,
        ExprS::Neg(_, sp) => sp,
        ExprS::Add(_, _, sp) => sp,
        ExprS::Sub(_, _, sp) => sp,
        ExprS::Mul(_, _, sp) => sp,
        ExprS::Div(_, _, sp) => sp,
        ExprS::Call(_, _, sp) => sp,
        ExprS::Let { span, .. } => span,
        ExprS::Fn { span, .. } => span,
    }
}

/// Every node of the tree carries a span that lies within the source, and
/// every literal and every name slices out of the source exactly the text
/// it was parsed from: the digits of a literal, the name of a variable
/// read, of a call, of a binder, of a parameter.
pub open spec fn spans_wf(e: ExprS, s: Seq<u8>) -> bool
    decreases e,
{
    match e {
        ExprS::Num(d, sp) => sp is Some && name_ok(d, sp->0, s),
        ExprS::Var(n, sp) => sp is Some && name_ok(n, sp->0, s),
        ExprS::Neg(a, sp) => span_ok(sp, s) && spans_wf(*a, s),
        ExprS::Add(a, b, sp) => span_ok(sp, s) && spans_wf(*a, s) && spans_wf(*b, s),
        ExprS::Sub(a, b, sp) => span_ok(sp, s) && spans_wf(*a, s) && spans_wf(*b, s),
        ExprS::Mul(a, b, sp) => span_ok(sp, s) && spans_wf(*a, s) && spans_wf(*b, s),
        ExprS::Div(a, b, sp) => span_ok(sp, s) && spans_wf(*a, s) && spans_wf(*b, s),
        ExprS::Call(n, args, sp) => span_ok(sp, s) && name_ok(n.0, n.1, s) && spans_wf_seq(
            args,
            s,
        ),
        ExprS::Let { name, rhs, then, span } => span_ok(span, s) && name_ok(name.0, name.1, s)
            && spans_wf(*rhs, s) && spans_wf(*then, s),
        ExprS::Fn { name, args, body, then, span } => span_ok(span, s) && name_ok(
            name.0,
            name.1,
            s,
        ) && params_wf(args, s) && spans_wf(*body, s) && spans_wf(*then, s),
    }
}

/// Every tree of the list satisfies [`spans_wf`].
pub open spec fn spans_wf_seq(es: Seq<ExprS>, s: Seq<u8>) -> bool
    decreases es,
{
    if es.len() == 0 {
        true
    } else {
        spans_wf_seq(es.drop_last(), s) && spans_wf(es.last(), s)
    }
}

/// Every parameter name slices out of the source exactly its own text.
pub open spec fn params_wf(ps: Seq<(Seq<char>, Span)>, s: Seq<u8>) -> bool
    decreases ps,
{
    if ps.len() == 0 {
        true
    } else {
        params_wf(ps.drop_last(), s) && name_ok(ps.last().0, ps.last().1, s)
    }
}

/// The node's span is some range within `[a, b]`.
pub open spec fn span_within(e: ExprS, a: int, b: int) -> bool {
    match span_of(e) {
        Some(sp) => a <= sp.start && sp.start <= sp.end && sp.end <= b,
        None => false,
    }
}

// ---------------------------------------------------------------------------
// executable scanning helpers
// ---------------------------------------------------------------------------

/// Relies on `String::push`: appends exactly the given character.
#[verifier::external_body]
fn push_char(s: &mut String, c: char)
    ensures
        final(s)@ == old(s)@.push(c),
{
    s.push(c);
}

/// The first position at or after `pos` that holds no whitespace.
fn skip_ws(s: &[u8], pos: usize) -> (r: usize)
    requires
        pos <= s@.len(),
    ensures
        r == pos + ws_run(s@, pos as int),
        pos <= r <= s@.len(),
{
    let mut cur: usize = pos;
    while cur < s.len() && (s[cur] == 32 || s[cur] == 9 || s[cur] == 10 || s[cur] == 13
        || s[cur] == 11 || s[cur] == 12)
        invariant
            pos <= cur <= s@.len(),
            pos + ws_run(s@, pos as int) == cur + ws_run(s@, cur as int),
        decreases s@.len() - cur,
    {
        cur = cur + 1;
    }
    cur
}

/// The end of the run of decimal digits that starts at `pos`.
fn scan_digits(s: &[u8], pos: usize) -> (r: usize)
    requires
        pos <= s@.len(),
    ensures
        r == pos + digits_run(s@, pos as int),
        pos <= r <= s@.len(),
{
    let mut cur: usize = pos;
    while cur < s.len() && 48 <= s[cur] && s[cur] <= 57
        invariant
            pos <= cur <= s@.len(),
            pos + digits_run(s@, pos as int) == cur + digits_run(s@, cur as int),
        decreases s@.len() - cur,
    {
        cur = cur + 1;
    }
    cur
}

/// The end of the run of identifier bytes that starts at `pos`.
fn scan_ident(s: &[u8], pos: usize) -> (r: usize)
    requires
        pos <= s@.len(),
    ensures
        r == pos + ident_run(s@, pos as int),
        pos <= r <= s@.len(),
{
    let mut cur: usize = pos;
    while cur < s.len() && ((97 <= s[cur] && s[cur] <= 122) || (65 <= s[cur] && s[cur]
        <= 90) || s[cur] == 95 || (48 <= s[cur] && s[cur] <= 57))
        invariant
            pos <= cur <= s@.len(),
            pos + ident_run(s@, pos as int) == cur + ident_run(s@, cur as int),
        decreases s@.len() - cur,
    {
        cur = cur + 1;
    }
    cur
}

/// The text of the bytes `s[a..b)` as an owned string.
fn take_string(s: &[u8], a: usize, b: usize) -> (r: String)
    requires
        a <= b && b <= s@.len(),
    ensures
        r@ == chars_of(s@, a as int, b as int),
{
    let mut r = String::new();
    let mut i: usize = a;
    while i < b
        invariant
            a <= i <= b <= s@.len(),
            r@ == chars_of(s@, a as int, i as int),
        decreases b - i,
    {
        push_char(&mut r, s[i] as char);
        proof {
            assert(chars_of(s@, a as int, i + 1 as int) =~= chars_of(s@, a as int, i as int).push(
                s@[i as int] as char,
            ));
        }
        i = i + 1;
    }
    r
}


// ---------------------------------------------------------------------------
// the grammar, as specification functions
//
// Each function takes the input, the position it starts at and the errors
// collected so far, and gives back what it parsed, how many bytes it
// consumed, and the errors after it. A mismatch of a required token is
// recorded and parsing resumes as if the token had been present, so the
// whole input is always explored and every independent mistake is reported.
// ---------------------------------------------------------------------------

/// The bytes left from `pos` on: the measure every parsing function shrinks.
pub open spec fn rem(s: Seq<u8>, pos: int) -> int {
    if pos <= s.len() {
        s.len() - pos
    } else {
        0
    }
}

/// The identifier standing at `pos` (after whitespace): its text, its span
/// and the bytes consumed from `pos`; `None` if a keyword or anything else
/// stands there.
pub open spec fn sp_ident(s: Seq<u8>, pos: int) -> Option<(Seq<char>, Span, nat)> {
    let w = ws_run(s, pos);
    let p = pos + w;
    if p < s.len() && is_ident_start(s[p]) {
        let e = p + 1 + ident_run(s, p + 1);
        if is_kw_let(s, p, e) || is_kw_fn(s, p, e) {
            None
        } else {
            Some((chars_of(s, p, e), span2(p, e), (e - pos) as nat))
        }
    } else {
        None
    }
}

/// A required identifier: on a mismatch the error is recorded and an empty
/// name standing at the mismatch takes its place.
pub open spec fn sp_binder(s: Seq<u8>, pos: int, errs: Seq<ErrS>) -> (
    (Seq<char>, Span),
    nat,
    Seq<ErrS>,
) {
    match sp_ident(s, pos) {
        Some((name, sp, c)) => ((name, sp), c, errs),
        None => {
            let p = pos + ws_run(s, pos);
            ((Seq::empty(), span2(p, p)), 0, errs.push(err_at(s, p, seq![Expected::Ident])))
        },
    }
}

/// A required punctuation byte: on a mismatch the error is recorded and
/// parsing resumes as if the byte had been present.
pub open spec fn sp_expect(s: Seq<u8>, pos: int, b: u8, what: Expected, errs: Seq<ErrS>) -> (
    nat,
    Seq<ErrS>,
) {
    let p = pos + ws_run(s, pos);
    if p < s.len() && s[p] == b {
        ((p + 1 - pos) as nat, errs)
    } else {
        (0, errs.push(err_at(s, p, seq![what])))
    }
}

/// An atom: an integer literal (a lone `0`, or a nonzero digit followed by
/// any digits), a parenthesized expression, a call, or a variable. On a
/// mismatch, nothing is consumed and a spanless `0` literal stands in.
pub open spec fn sp_atom(s: Seq<u8>, pos: int, errs: Seq<ErrS>) -> (ExprS, nat, Seq<ErrS>)
    decreases rem(s, pos), 2int,
{
    let w = ws_run(s, pos);
    let p = pos + w;
    if p < s.len() && is_digit(s[p]) {
        let e = if s[p] == 48 {
            p + 1
        } else {
            p + 1 + digits_run(s, p + 1)
        };
        (ExprS::Num(chars_of(s, p, e), Some(span2(p, e))), (e - pos) as nat, errs)
    } else if p < s.len() && s[p] == 40 {
        let (inner, c, errs1) = sp_sum(s, p + 1, errs);
        let q = p + 1 + c;
        let w2 = ws_run(s, q);
        let r = q + w2;
        if r < s.len() && s[r] == 41 {
            (inner, (r + 1 - pos) as nat, errs1)
        } else {
            (inner, (q - pos) as nat, errs1.push(err_at(s, r, seq![Expected::CloseParen])))
        }
    } else if p < s.len() && is_ident_start(s[p]) {
        let e = p + 1 + ident_run(s, p + 1);
        if is_kw_let(s, p, e) || is_kw_fn(s, p, e) {
            (ExprS::Num(seq!['0'], None), 0 as nat, errs.push(err_at(s, p, seq![Expected::Expr])))
        } else {
            let w2 = ws_run(s, e);
            let q = e + w2;
            if q < s.len() && s[q] == 40 {
                let (args, c, errs1) = sp_call_args(s, q + 1, errs);
                (
                    ExprS::Call(
                        (chars_of(s, p, e), span2(p, e)),
                        args,
                        Some(span2(p, q + 1 + c)),
                    ),
                    (q + 1 + c - pos) as nat,
                    errs1,
                )
            } else {
                (ExprS::Var(chars_of(s, p, e), Some(span2(p, e))), (e - pos) as nat, errs)
            }
        }
    } else {
        (ExprS::Num(seq!['0'], None), 0 as nat, errs.push(err_at(s, p, seq![Expected::Expr])))
    }
}

/// The arguments of a call, from just after the `(` to the closing `)`;
/// a trailing comma before the `)` is allowed.
pub open spec fn sp_call_args(s: Seq<u8>, pos: int, errs: Seq<ErrS>) -> (
    Seq<ExprS>,
    nat,
    Seq<ErrS>,
)
    decreases rem(s, pos), 9int,
{
    let w = ws_run(s, pos);
    let p = pos + w;
    if p < s.len() && s[p] == 41 {
        (Seq::empty(), (p + 1 - pos) as nat, errs)
    } else {
        sp_call_args_more(s, pos, Seq::empty(), errs)
    }
}

/// The remaining comma-separated arguments of a call.
pub open spec fn sp_call_args_more(
    s: Seq<u8>,
    pos: int,
    acc: Seq<ExprS>,
    errs: Seq<ErrS>,
) -> (Seq<ExprS>, nat, Seq<ErrS>)
    decreases rem(s, pos), 8int,
{
    let (a, c, errs1) = sp_sum(s, pos, errs);
    let acc1 = acc.push(a);
    let q = pos + c;
    let w = ws_run(s, q);
    let r = q + w;
    if r < s.len() && s[r] == 44 {
        let w2 = ws_run(s, r + 1);
        let t = r + 1 + w2;
        if t < s.len() && s[t] == 41 {
            (acc1, (t + 1 - pos) as nat, errs1)
        } else {
            let (rest, c2, errs2) = sp_call_args_more(s, r + 1, acc1, errs1);
            (rest, (r + 1 - pos) as nat + c2, errs2)
        }
    } else if r < s.len() && s[r] == 41 {
        (acc1, (r + 1 - pos) as nat, errs1)
    } else {
        (
            acc1,
            (q - pos) as nat,
            errs1.push(err_at(s, r, seq![Expected::Comma, Expected::CloseParen])),
        )
    }
}

/// Zero or more prefix `-`, folded onto the atom from the right.
pub open spec fn sp_unary(s: Seq<u8>, pos: int, errs: Seq<ErrS>) -> (ExprS, nat, Seq<ErrS>)
    decreases rem(s, pos), 3int,
{
    let w = ws_run(s, pos);
    let p = pos + w;
    if p < s.len() && s[p] == 45 {
        let (rhs, c, errs1) = sp_unary(s, p + 1, errs);
        let end = p + 1 + c;
        (ExprS::Neg(Box::new(rhs), Some(span2(p, end))), (end - pos) as nat, errs1)
    } else {
        sp_atom(s, pos, errs)
    }
}

/// A product: unary operands under left-associative `*` and `/`.
pub open spec fn sp_product(s: Seq<u8>, pos: int, errs: Seq<ErrS>) -> (ExprS, nat, Seq<ErrS>)
    decreases rem(s, pos), 4int,
{
    let (e0, c0, errs0) = sp_unary(s, pos, errs);
    let start = pos + ws_run(s, pos);
    let (e1, c1, errs1) = sp_product_more(s, e0, start, pos + c0, errs0);
    (e1, c0 + c1, errs1)
}

/// The remaining `* unary` / `/ unary` steps of a product, folded leftwards
/// onto `lhs`; `start` is where the whole product began.
pub open spec fn sp_product_more(
    s: Seq<u8>,
    lhs: ExprS,
    start: int,
    pos: int,
    errs: Seq<ErrS>,
) -> (ExprS, nat, Seq<ErrS>)
    decreases rem(s, pos), 1int,
{
    let w = ws_run(s, pos);
    let p = pos + w;
    if p < s.len() && (s[p] == 42 || s[p] == 47) {
        let (rhs, c, errs1) = sp_unary(s, p + 1, errs);
        let end = p + 1 + c;
        let node = if s[p] == 42 {
            ExprS::Mul(Box::new(lhs), Box::new(rhs), Some(span2(start, end)))
        } else {
            ExprS::Div(Box::new(lhs), Box::new(rhs), Some(span2(start, end)))
        };
        let (res, c2, errs2) = sp_product_more(s, node, start, end, errs1);
        (res, (end - pos) as nat + c2, errs2)
    } else {
        (lhs, 0 as nat, errs)
    }
}

/// A sum: products under left-associative `+` and `-`.
pub open spec fn sp_sum(s: Seq<u8>, pos: int, errs: Seq<ErrS>) -> (ExprS, nat, Seq<ErrS>)
    decreases rem(s, pos), 5int,
{
    let (e0, c0, errs0) = sp_product(s, pos, errs);
    let start = pos + ws_run(s, pos);
    let (e1, c1, errs1) = sp_sum_more(s, e0, start, pos + c0, errs0);
    (e1, c0 + c1, errs1)
}

/// The remaining `+ product` / `- product` steps of a sum, folded leftwards
/// onto `lhs`; `start` is where the whole sum began.
pub open spec fn sp_sum_more(s: Seq<u8>, lhs: ExprS, start: int, pos: int, errs: Seq<ErrS>) -> (
    ExprS,
    nat,
    Seq<ErrS>,
)
    decreases rem(s, pos), 1int,
{
    let w = ws_run(s, pos);
    let p = pos + w;
    if p < s.len() && (s[p] == 43 || s[p] == 45) {
        let (rhs, c, errs1) = sp_product(s, p + 1, errs);
        let end = p + 1 + c;
        let node = if s[p] == 43 {
            ExprS::Add(Box::new(lhs), Box::new(rhs), Some(span2(start, end)))
        } else {
            ExprS::Sub(Box::new(lhs), Box::new(rhs), Some(span2(start, end)))
        };
        let (res, c2, errs2) = sp_sum_more(s, node, start, end, errs1);
        (res, (end - pos) as nat + c2, errs2)
    } else {
        (lhs, 0 as nat, errs)
    }
}

/// The whitespace-separated parameter names of a function declaration.
pub open spec fn sp_params(
    s: Seq<u8>,
    pos: int,
    acc: Seq<(Seq<char>, Span)>,
    errs: Seq<ErrS>,
) -> (Seq<(Seq<char>, Span)>, nat, Seq<ErrS>)
    decreases rem(s, pos), 1int,
{
    match sp_ident(s, pos) {
        Some((name, sp, c)) => {
            let (rest, c2, errs2) = sp_params(s, pos + c, acc.push((name, sp)), errs);
            (rest, c + c2, errs2)
        },
        None => (acc, 0 as nat, errs),
    }
}

/// A declaration chain: `let`/`fn` declarations ended by one expression.
pub open spec fn sp_decl(s: Seq<u8>, pos: int, errs: Seq<ErrS>) -> (ExprS, nat, Seq<ErrS>)
    decreases rem(s, pos), 7int,
{
    let w = ws_run(s, pos);
    let p = pos + w;
    if p < s.len() && is_ident_start(s[p]) {
        let e = p + 1 + ident_run(s, p + 1);
        if is_kw_let(s, p, e) {
            let (name, c1, errs1) = sp_binder(s, e, errs);
            let q1 = e + c1;
            let (c2, errs2) = sp_expect(s, q1, 61, Expected::Equals, errs1);
            let q2 = q1 + c2;
            let (rhs, c3, errs3) = sp_sum(s, q2, errs2);
            let q3 = q2 + c3;
            let (c4, errs4) = sp_expect(s, q3, 59, Expected::Semicolon, errs3);
            let q4 = q3 + c4;
            let (then, c5, errs5) = sp_decl(s, q4, errs4);
            let q5 = q4 + c5;
            (
                ExprS::Let {
                    name,
                    rhs: Box::new(rhs),
                    then: Box::new(then),
                    span: Some(span2(p, q5)),
                },
                (q5 - pos) as nat,
                errs5,
            )
        } else if is_kw_fn(s, p, e) {
            let (name, c1, errs1) = sp_binder(s, e, errs);
            let q1 = e + c1;
            let (params, c2, errs2) = sp_params(s, q1, Seq::empty(), errs1);
            let q2 = q1 + c2;
            let (c3, errs3) = sp_expect(s, q2, 61, Expected::Equals, errs2);
            let q3 = q2 + c3;
            let (body, c4, errs4) = sp_sum(s, q3, errs3);
            let q4 = q3 + c4;
            let (c5, errs5) = sp_expect(s, q4, 59, Expected::Semicolon, errs4);
            let q5 = q4 + c5;
            let (then, c6, errs6) = sp_decl(s, q5, errs5);
            let q6 = q5 + c6;
            (
                ExprS::Fn {
                    name,
                    args: params,
                    body: Box::new(body),
                    then: Box::new(then),
                    span: Some(span2(p, q6)),
                },
                (q6 - pos) as nat,
                errs6,
            )
        } else {
            sp_sum(s, pos, errs)
        }
    } else {
        sp_sum(s, pos, errs)
    }
}

/// What parsing the whole input yields: the program tree if nothing was
/// mismatched, otherwise every error met, in source order.
pub open spec fn sp_parse(s: Seq<u8>) -> Result<ExprS, Seq<ErrS>> {
    let (e, c, errs) = sp_decl(s, 0, Seq::empty());
    let q = c + ws_run(s, c as int);
    let errs1 = if q < s.len() {
        errs.push(err_at(s, q as int, seq![Expected::Eof]))
    } else {
        errs
    };
    if errs1.len() == 0 {
        Ok(e)
    } else {
        Err(errs1)
    }
}


// ---------------------------------------------------------------------------
// the executable parser: each function returns exactly what its
// specification mirror says, so the whole parse is pinned down
// ---------------------------------------------------------------------------

/// Records the mismatch met at `pos`.
fn push_err(errs: &mut Vec<SyntaxError>, s: &[u8], pos: usize, expected: Vec<Expected>)
    requires
        pos <= s@.len(),
    ensures
        view_errs(final(errs)@) == view_errs(old(errs)@).push(
            err_at(s@, pos as int, expected@),
        ),
        final(errs)@.len() == old(errs)@.len() + 1,
{
    let span = if pos < s.len() {
        Span { start: pos, end: pos + 1 }
    } else {
        Span { start: s.len(), end: s.len() }
    };
    let found = if pos < s.len() {
        Some(s[pos])
    } else {
        None
    };
    let ghost before = errs@;
    errs.push(SyntaxError { span, expected, found });
    proof {
        assert(view_errs(errs@) =~= view_errs(before).push(err_at(s@, pos as int, expected@)));
    }
}

/// Whether the bytes `s[a..b)` spell a reserved keyword.
fn kw_at(s: &[u8], a: usize, b: usize) -> (r: bool)
    requires
        a <= b && b <= s@.len(),
    ensures
        r == (is_kw_let(s@, a as int, b as int) || is_kw_fn(s@, a as int, b as int)),
{
    (b - a == 3 && s[a] == 108 && s[a + 1] == 101 && s[a + 2] == 116) || (b - a == 2 && s[a]
        == 102 && s[a + 1] == 110)
}

/// The identifier standing at `pos`, if any, as [`sp_ident`] describes it.
fn parse_ident(s: &[u8], pos: usize) -> (r: Option<(String, Span, usize)>)
    requires
        pos <= s@.len(),
    ensures
        ({
            let o = sp_ident(s@, pos as int);
            match r {
                Some((n, sp, q)) => {
                    &&& o is Some
                    &&& n@ == o->Some_0.0
                    &&& sp == o->Some_0.1
                    &&& q == pos + o->Some_0.2
                    &&& pos <= q <= s@.len()
                    &&& name_ok(n@, sp, s@)
                },
                None => o is None,
            }
        }),
{
    let p = skip_ws(s, pos);
    if p < s.len() && ((97 <= s[p] && s[p] <= 122) || (65 <= s[p] && s[p] <= 90) || s[p] == 95) {
        let e = scan_ident(s, p + 1);
        if kw_at(s, p, e) {
            None
        } else {
            Some((take_string(s, p, e), Span { start: p, end: e }, e))
        }
    } else {
        None
    }
}

/// A required identifier, as [`sp_binder`] describes it.
fn parse_binder(s: &[u8], pos: usize, errs: &mut Vec<SyntaxError>) -> (r: ((String, Span), usize))
    requires
        pos <= s@.len(),
    ensures
        ({
            let (name, c, e2) = sp_binder(s@, pos as int, view_errs(old(errs)@));
            &&& r.0.0@ == name.0
            &&& r.0.1 == name.1
            &&& r.1 == pos + c
            &&& view_errs(final(errs)@) == e2
            &&& pos <= r.1 <= s@.len()
            &&& name_ok(r.0.0@, r.0.1, s@)
            &&& final(errs)@.len() >= old(errs)@.len()
        }),
{
    match parse_ident(s, pos) {
        Some((n, sp, q)) => ((n, sp), q),
        None => {
            let p = skip_ws(s, pos);
            let expected = vec![Expected::Ident];
            proof {
                assert(expected@ =~= seq![Expected::Ident]);
                assert(chars_of(s@, p as int, p as int) =~= Seq::<char>::empty());
            }
            push_err(errs, s, p, expected);
            ((String::new(), Span { start: p, end: p }), pos)
        },
    }
}

/// A required punctuation byte, as [`sp_expect`] describes it.
fn parse_expect(s: &[u8], pos: usize, b: u8, what: Expected, errs: &mut Vec<SyntaxError>) -> (r:
    usize)
    requires
        pos <= s@.len(),
    ensures
        ({
            let (c, e2) = sp_expect(s@, pos as int, b, what, view_errs(old(errs)@));
            &&& r == pos + c
            &&& view_errs(final(errs)@) == e2
            &&& pos <= r <= s@.len()
            &&& final(errs)@.len() >= old(errs)@.len()
        }),
{
    let p = skip_ws(s, pos);
    if p < s.len() && s[p] == b {
        p + 1
    } else {
        let expected = vec![what];
        proof {
            assert(expected@ =~= seq![what]);
        }
        push_err(errs, s, p, expected);
        pos
    }
}

/// An atom, as [`sp_atom`] describes it.
#[verifier::rlimit(100)]
#[verifier::spinoff_prover]
fn parse_atom(s: &[u8], pos: usize, errs: &mut Vec<SyntaxError>) -> (r: (Expr, usize))
    requires
        pos <= s@.len(),
    ensures
        ({
            let (es, c, e2) = sp_atom(s@, pos as int, view_errs(old(errs)@));
            &&& view_expr(r.0) == es
            &&& r.1 == pos + c
            &&& view_errs(final(errs)@) == e2
            &&& pos <= r.1 <= s@.len()
            &&& no_decl(view_expr(r.0))
            &&& final(errs)@.len() >= old(errs)@.len()
            &&& final(errs)@.len() == old(errs)@.len() ==> spans_wf(view_expr(r.0), s@)
                && span_within(view_expr(r.0), pos + ws_run(s@, pos as int), r.1 as int)
        }),
    decreases rem(s@, pos as int), 2int,
{
    let p = skip_ws(s, pos);
    if p < s.len() && 48 <= s[p] && s[p] <= 57 {
        let e = if s[p] == 48 {
            p + 1
        } else {
            scan_digits(s, p + 1)
        };
        (Expr::Num(take_string(s, p, e), Some(Span { start: p, end: e })), e)
    } else if p < s.len() && s[p] == 40 {
        let (inner, q) = parse_sum(s, p + 1, errs);
        let r2 = skip_ws(s, q);
        if r2 < s.len() && s[r2] == 41 {
            (inner, r2 + 1)
        } else {
            let expected = vec![Expected::CloseParen];
            proof {
                assert(expected@ =~= seq![Expected::CloseParen]);
            }
            push_err(errs, s, r2, expected);
            (inner, q)
        }
    } else if p < s.len() && ((97 <= s[p] && s[p] <= 122) || (65 <= s[p] && s[p] <= 90) || s[p]
        == 95) {
        let e = scan_ident(s, p + 1);
        if kw_at(s, p, e) {
            let expected = vec![Expected::Expr];
            proof {
                assert(expected@ =~= seq![Expected::Expr]);
                reveal_strlit("0");
                assert("0"@ =~= seq!['0']);
            }
            push_err(errs, s, p, expected);
            (Expr::Num(String::from_str("0"), None), pos)
        } else {
            let q = skip_ws(s, e);
            if q < s.len() && s[q] == 40 {
                let name = take_string(s, p, e);
                let mut args: Vec<Expr> = Vec::new();
                let end = parse_call_args(s, q + 1, &mut args, errs);
                proof {
                    assert(view_expr_seq(Seq::<Expr>::empty()) =~= Seq::<ExprS>::empty());
                }
                (
                    Expr::Call(
                        (name, Span { start: p, end: e }),
                        args,
                        Some(Span { start: p, end }),
                    ),
                    end,
                )
            } else {
                (Expr::Var(take_string(s, p, e), Some(Span { start: p, end: e })), e)
            }
        }
    } else {
        let expected = vec![Expected::Expr];
        proof {
            assert(expected@ =~= seq![Expected::Expr]);
            reveal_strlit("0");
            assert("0"@ =~= seq!['0']);
        }
        push_err(errs, s, p, expected);
        (Expr::Num(String::from_str("0"), None), pos)
    }
}

/// The arguments of a call, as [`sp_call_args`] describes them; `args` must
/// come in empty and leaves holding every parsed argument.
fn parse_call_args(s: &[u8], pos: usize, args: &mut Vec<Expr>, errs: &mut Vec<SyntaxError>) -> (r:
    usize)
    requires
        pos <= s@.len(),
        old(args)@.len() == 0,
    ensures
        ({
            let (aseq, c, e2) = sp_call_args(s@, pos as int, view_errs(old(errs)@));
            &&& view_expr_seq(final(args)@) == aseq
            &&& r == pos + c
            &&& view_errs(final(errs)@) == e2
            &&& pos <= r <= s@.len()
            &&& no_decl_seq(view_expr_seq(final(args)@))
            &&& final(errs)@.len() >= old(errs)@.len()
            &&& final(errs)@.len() == old(errs)@.len() ==> spans_wf_seq(
                view_expr_seq(final(args)@),
                s@,
            )
        }),
    decreases rem(s@, pos as int), 9int,
{
    let p = skip_ws(s, pos);
    proof {
        assert(view_expr_seq(args@) =~= Seq::<ExprS>::empty());
    }
    if p < s.len() && s[p] == 41 {
        p + 1
    } else {
        parse_call_args_more(s, pos, args, errs)
    }
}

/// The remaining comma-separated arguments, as [`sp_call_args_more`]
/// describes them, appended onto `args`.
fn parse_call_args_more(
    s: &[u8],
    pos: usize,
    args: &mut Vec<Expr>,
    errs: &mut Vec<SyntaxError>,
) -> (r: usize)
    requires
        pos <= s@.len(),
    ensures
        ({
            let (aseq, c, e2) = sp_call_args_more(
                s@,
                pos as int,
                view_expr_seq(old(args)@),
                view_errs(old(errs)@),
            );
            &&& view_expr_seq(final(args)@) == aseq
            &&& r == pos + c
            &&& view_errs(final(errs)@) == e2
            &&& pos <= r <= s@.len()
            &&& no_decl_seq(view_expr_seq(old(args)@)) ==> no_decl_seq(
                view_expr_seq(final(args)@),
            )
            &&& final(errs)@.len() >= old(errs)@.len()
            &&& (final(errs)@.len() == old(errs)@.len() && spans_wf_seq(
                view_expr_seq(old(args)@),
                s@,
            )) ==> spans_wf_seq(view_expr_seq(final(args)@), s@)
        }),
    decreases rem(s@, pos as int), 8int,
{
    let (a, q) = parse_sum(s, pos, errs);
    proof {
        lemma_view_expr_seq_push(args@, a);
        lemma_no_decl_seq_push(view_expr_seq(args@), view_expr(a));
        lemma_spans_wf_seq_push(view_expr_seq(args@), view_expr(a), s@);
    }
    args.push(a);
    let r2 = skip_ws(s, q);
    if r2 < s.len() && s[r2] == 44 {
        let t = skip_ws(s, r2 + 1);
        if t < s.len() && s[t] == 41 {
            t + 1
        } else {
            parse_call_args_more(s, r2 + 1, args, errs)
        }
    } else if r2 < s.len() && s[r2] == 41 {
        r2 + 1
    } else {
        let expected = vec![Expected::Comma, Expected::CloseParen];
        proof {
            assert(expected@ =~= seq![Expected::Comma, Expected::CloseParen]);
        }
        push_err(errs, s, r2, expected);
        q
    }
}

/// A unary chain, as [`sp_unary`] describes it.
fn parse_unary(s: &[u8], pos: usize, errs: &mut Vec<SyntaxError>) -> (r: (Expr, usize))
    requires
        pos <= s@.len(),
    ensures
        ({
            let (es, c, e2) = sp_unary(s@, pos as int, view_errs(old(errs)@));
            &&& view_expr(r.0) == es
            &&& r.1 == pos + c
            &&& view_errs(final(errs)@) == e2
            &&& pos <= r.1 <= s@.len()
            &&& no_decl(view_expr(r.0))
            &&& final(errs)@.len() >= old(errs)@.len()
            &&& final(errs)@.len() == old(errs)@.len() ==> spans_wf(view_expr(r.0), s@)
                && span_within(view_expr(r.0), pos + ws_run(s@, pos as int), r.1 as int)
        }),
    decreases rem(s@, pos as int), 3int,
{
    let p = skip_ws(s, pos);
    if p < s.len() && s[p] == 45 {
        let (rhs, end) = parse_unary(s, p + 1, errs);
        (Expr::Neg(Box::new(rhs), Some(Span { start: p, end })), end)
    } else {
        parse_atom(s, pos, errs)
    }
}

/// A product, as [`sp_product`] describes it.
fn parse_product(s: &[u8], pos: usize, errs: &mut Vec<SyntaxError>) -> (r: (Expr, usize))
    requires
        pos <= s@.len(),
    ensures
        ({
            let (es, c, e2) = sp_product(s@, pos as int, view_errs(old(errs)@));
            &&& view_expr(r.0) == es
            &&& r.1 == pos + c
            &&& view_errs(final(errs)@) == e2
            &&& pos <= r.1 <= s@.len()
            &&& no_decl(view_expr(r.0))
            &&& final(errs)@.len() >= old(errs)@.len()
            &&& final(errs)@.len() == old(errs)@.len() ==> spans_wf(view_expr(r.0), s@)
                && span_within(view_expr(r.0), pos + ws_run(s@, pos as int), r.1 as int)
        }),
    decreases rem(s@, pos as int), 4int,
{
    let (e0, q) = parse_unary(s, pos, errs);
    let start = skip_ws(s, pos);
    parse_product_more(s, e0, start, q, errs)
}

/// The remaining `*`/`/` steps, as [`sp_product_more`] describes them.
fn parse_product_more(
    s: &[u8],
    lhs: Expr,
    start: usize,
    pos: usize,
    errs: &mut Vec<SyntaxError>,
) -> (r: (Expr, usize))
    requires
        pos <= s@.len(),
        no_decl(view_expr(lhs)),
    ensures
        ({
            let (es, c, e2) = sp_product_more(
                s@,
                view_expr(lhs),
                start as int,
                pos as int,
                view_errs(old(errs)@),
            );
            &&& view_expr(r.0) == es
            &&& r.1 == pos + c
            &&& view_errs(final(errs)@) == e2
            &&& pos <= r.1 <= s@.len()
            &&& no_decl(view_expr(r.0))
            &&& final(errs)@.len() >= old(errs)@.len()
            &&& (final(errs)@.len() == old(errs)@.len() && spans_wf(view_expr(lhs), s@)
                && span_within(view_expr(lhs), start as int, pos as int)) ==> spans_wf(
                view_expr(r.0),
                s@,
            ) && span_within(view_expr(r.0), start as int, r.1 as int)
        }),
    decreases rem(s@, pos as int), 1int,
{
    let p = skip_ws(s, pos);
    if p < s.len() && (s[p] == 42 || s[p] == 47) {
        let op = s[p];
        let (rhs, end) = parse_unary(s, p + 1, errs);
        let node = if op == 42 {
            Expr::Mul(Box::new(lhs), Box::new(rhs), Some(Span { start, end }))
        } else {
            Expr::Div(Box::new(lhs), Box::new(rhs), Some(Span { start, end }))
        };
        parse_product_more(s, node, start, end, errs)
    } else {
        (lhs, pos)
    }
}

/// A sum, as [`sp_sum`] describes it.
fn parse_sum(s: &[u8], pos: usize, errs: &mut Vec<SyntaxError>) -> (r: (Expr, usize))
    requires
        pos <= s@.len(),
    ensures
        ({
            let (es, c, e2) = sp_sum(s@, pos as int, view_errs(old(errs)@));
            &&& view_expr(r.0) == es
            &&& r.1 == pos + c
            &&& view_errs(final(errs)@) == e2
            &&& pos <= r.1 <= s@.len()
            &&& no_decl(view_expr(r.0))
            &&& final(errs)@.len() >= old(errs)@.len()
            &&& final(errs)@.len() == old(errs)@.len() ==> spans_wf(view_expr(r.0), s@)
                && span_within(view_expr(r.0), pos + ws_run(s@, pos as int), r.1 as int)
        }),
    decreases rem(s@, pos as int), 5int,
{
    let (e0, q) = parse_product(s, pos, errs);
    let start = skip_ws(s, pos);
    parse_sum_more(s, e0, start, q, errs)
}

/// The remaining `+`/`-` steps, as [`sp_sum_more`] describes them.
fn parse_sum_more(
    s: &[u8],
    lhs: Expr,
    start: usize,
    pos: usize,
    errs: &mut Vec<SyntaxError>,
) -> (r: (Expr, usize))
    requires
        pos <= s@.len(),
        no_decl(view_expr(lhs)),
    ensures
        ({
            let (es, c, e2) = sp_sum_more(
                s@,
                view_expr(lhs),
                start as int,
                pos as int,
                view_errs(old(errs)@),
            );
            &&& view_expr(r.0) == es
            &&& r.1 == pos + c
            &&& view_errs(final(errs)@) == e2
            &&& pos <= r.1 <= s@.len()
            &&& no_decl(view_expr(r.0))
            &&& final(errs)@.len() >= old(errs)@.len()
            &&& (final(errs)@.len() == old(errs)@.len() && spans_wf(view_expr(lhs), s@)
                && span_within(view_expr(lhs), start as int, pos as int)) ==> spans_wf(
                view_expr(r.0),
                s@,
            ) && span_within(view_expr(r.0), start as int, r.1 as int)
        }),
    decreases rem(s@, pos as int), 1int,
{
    let p = skip_ws(s, pos);
    if p < s.len() && (s[p] == 43 || s[p] == 45) {
        let op = s[p];
        let (rhs, end) = parse_product(s, p + 1, errs);
        let node = if op == 43 {
            Expr::Add(Box::new(lhs), Box::new(rhs), Some(Span { start, end }))
        } else {
            Expr::Sub(Box::new(lhs), Box::new(rhs), Some(Span { start, end }))
        };
        parse_sum_more(s, node, start, end, errs)
    } else {
        (lhs, pos)
    }
}

/// The parameter names of a declaration, as [`sp_params`] describes them,
/// appended onto `params`.
fn parse_params(
    s: &[u8],
    pos: usize,
    params: &mut Vec<(String, Span)>,
    errs: &mut Vec<SyntaxError>,
) -> (r: usize)
    requires
        pos <= s@.len(),
    ensures
        ({
            let (pseq, c, e2) = sp_params(
                s@,
                pos as int,
                view_params(old(params)@),
                view_errs(old(errs)@),
            );
            &&& view_params(final(params)@) == pseq
            &&& r == pos + c
            &&& view_errs(final(errs)@) == e2
            &&& pos <= r <= s@.len()
            &&& final(errs)@.len() >= old(errs)@.len()
            &&& params_wf(view_params(old(params)@), s@) ==> params_wf(
                view_params(final(params)@),
                s@,
            )
        }),
    decreases rem(s@, pos as int), 1int,
{
    match parse_ident(s, pos) {
        Some((n, sp, q)) => {
            proof {
                assert(view_params(params@.push((n, sp))) =~= view_params(params@).push(
                    (n@, sp),
                ));
                lemma_params_wf_push(view_params(params@), (n@, sp), s@);
            }
            params.push((n, sp));
            parse_params(s, q, params, errs)
        },
        None => pos,
    }
}

/// A `let` declaration, as [`sp_let_decl`] describes it.
#[verifier::rlimit(60)]
#[verifier::spinoff_prover]
fn parse_let_decl(s: &[u8], pos: usize, p: usize, e: usize, errs: &mut Vec<SyntaxError>) -> (r: (
    Expr,
    usize,
))
    requires
        pos <= p < e <= s@.len(),
        p == pos + ws_run(s@, pos as int),
        is_ident_start(s@[p as int]),
        e == p + 1 + ident_run(s@, p as int + 1),
        is_kw_let(s@, p as int, e as int),
    ensures
        ({
            let (es, c, e2) = sp_decl(s@, pos as int, view_errs(old(errs)@));
            &&& view_expr(r.0) == es
            &&& r.1 == pos + c
            &&& view_errs(final(errs)@) == e2
            &&& pos <= r.1 <= s@.len()
            &&& chain_wf(view_expr(r.0))
            &&& final(errs)@.len() >= old(errs)@.len()
            &&& final(errs)@.len() == old(errs)@.len() ==> spans_wf(view_expr(r.0), s@)
                && span_within(view_expr(r.0), pos + ws_run(s@, pos as int), r.1 as int)
        }),
    decreases rem(s@, pos as int), 6int,
{
    let (name, q1) = parse_binder(s, e, errs);
    let q2 = parse_expect(s, q1, 61, Expected::Equals, errs);
    let (rhs, q3) = parse_sum(s, q2, errs);
    let q4 = parse_expect(s, q3, 59, Expected::Semicolon, errs);
    let (then, q5) = parse_decl(s, q4, errs);
    (
        Expr::Let {
            name,
            rhs: Box::new(rhs),
            then: Box::new(then),
            span: Some(Span { start: p, end: q5 }),
        },
        q5,
    )
}

/// A `fn` declaration, as [`sp_fn_decl`] describes it.
#[verifier::rlimit(60)]
#[verifier::spinoff_prover]
fn parse_fn_decl(s: &[u8], pos: usize, p: usize, e: usize, errs: &mut Vec<SyntaxError>) -> (r: (
    Expr,
    usize,
))
    requires
        pos <= p < e <= s@.len(),
        p == pos + ws_run(s@, pos as int),
        is_ident_start(s@[p as int]),
        e == p + 1 + ident_run(s@, p as int + 1),
        !is_kw_let(s@, p as int, e as int),
        is_kw_fn(s@, p as int, e as int),
    ensures
        ({
            let (es, c, e2) = sp_decl(s@, pos as int, view_errs(old(errs)@));
            &&& view_expr(r.0) == es
            &&& r.1 == pos + c
            &&& view_errs(final(errs)@) == e2
            &&& pos <= r.1 <= s@.len()
            &&& chain_wf(view_expr(r.0))
            &&& final(errs)@.len() >= old(errs)@.len()
            &&& final(errs)@.len() == old(errs)@.len() ==> spans_wf(view_expr(r.0), s@)
                && span_within(view_expr(r.0), pos + ws_run(s@, pos as int), r.1 as int)
        }),
    decreases rem(s@, pos as int), 6int,
{
    let (name, q1) = parse_binder(s, e, errs);
    let mut params: Vec<(String, Span)> = Vec::new();
    proof {
        assert(view_params(Seq::<(String, Span)>::empty()) =~= Seq::<(Seq<char>, Span)>::empty());
    }
    let q2 = parse_params(s, q1, &mut params, errs);
    let q3 = parse_expect(s, q2, 61, Expected::Equals, errs);
    let (body, q4) = parse_sum(s, q3, errs);
    let q5 = parse_expect(s, q4, 59, Expected::Semicolon, errs);
    let (then, q6) = parse_decl(s, q5, errs);
    (
        Expr::Fn {
            name,
            args: params,
            body: Box::new(body),
            then: Box::new(then),
            span: Some(Span { start: p, end: q6 }),
        },
        q6,
    )
}

/// A declaration chain, as [`sp_decl`] describes it.
#[verifier::rlimit(60)]
#[verifier::spinoff_prover]
fn parse_decl(s: &[u8], pos: usize, errs: &mut Vec<SyntaxError>) -> (r: (Expr, usize))
    requires
        pos <= s@.len(),
    ensures
        ({
            let (es, c, e2) = sp_decl(s@, pos as int, view_errs(old(errs)@));
            &&& view_expr(r.0) == es
            &&& r.1 == pos + c
            &&& view_errs(final(errs)@) == e2
            &&& pos <= r.1 <= s@.len()
            &&& chain_wf(view_expr(r.0))
            &&& final(errs)@.len() >= old(errs)@.len()
            &&& final(errs)@.len() == old(errs)@.len() ==> spans_wf(view_expr(r.0), s@)
                && span_within(view_expr(r.0), pos + ws_run(s@, pos as int), r.1 as int)
        }),
    decreases rem(s@, pos as int), 7int,
{
    let p = skip_ws(s, pos);
    if p < s.len() && ((97 <= s[p] && s[p] <= 122) || (65 <= s[p] && s[p] <= 90) || s[p] == 95) {
        let e = scan_ident(s, p + 1);
        if e - p == 3 && s[p] == 108 && s[p + 1] == 101 && s[p + 2] == 116 {
            parse_let_decl(s, pos, p, e, errs)
        } else if e - p == 2 && s[p] == 102 && s[p + 1] == 110 {
            parse_fn_decl(s, pos, p, e, errs)
        } else {
            parse_sum(s, pos, errs)
        }
    } else {
        parse_sum(s, pos, errs)
    }
}

/// The mathematical shape of a parameter list.
pub open spec fn view_params(v: Seq<(String, Span)>) -> Seq<(Seq<char>, Span)> {
    v.map_values(|p: (String, Span)| (p.0@, p.1))
}

/// The mathematical shape of what [`parser`] returns.
pub open spec fn view_parse_result(r: Result<Expr, Vec<SyntaxError>>) -> Result<
    ExprS,
    Seq<ErrS>,
> {
    match r {
        Ok(e) => Ok(view_expr(e)),
        Err(v) => Err(view_errs(v@)),
    }
}

/// Pushing onto a well-spanned list stays well-spanned exactly when the
/// new tree is.
proof fn lemma_spans_wf_seq_push(es: Seq<ExprS>, e: ExprS, s: Seq<u8>)
    ensures
        spans_wf_seq(es.push(e), s) == (spans_wf_seq(es, s) && spans_wf(e, s)),
{
    assert(es.push(e).drop_last() =~= es);
    assert(es.push(e).last() == e);
}

/// Pushing onto a well-formed parameter list stays well-formed exactly when
/// the new name is.
proof fn lemma_params_wf_push(ps: Seq<(Seq<char>, Span)>, q: (Seq<char>, Span), s: Seq<u8>)
    ensures
        params_wf(ps.push(q), s) == (params_wf(ps, s) && name_ok(q.0, q.1, s)),
{
    assert(ps.push(q).drop_last() =~= ps);
    assert(ps.push(q).last() == q);
}

/// Pushing a tree onto a list and taking shapes commute.
proof fn lemma_view_expr_seq_push(s: Seq<Expr>, e: Expr)
    ensures
        view_expr_seq(s.push(e)) == view_expr_seq(s).push(view_expr(e)),
{
    assert(s.push(e).drop_last() =~= s);
    assert(s.push(e).last() == e);
    assert(view_expr_seq(s.push(e)) =~= view_expr_seq(s).push(view_expr(e)));
}

/// Parses a whole program: the tree of the single parse the grammar admits,
/// or every syntax error met, in source order, never both and never neither.
///
/// Parsing is deterministic: the result is a function of the input bytes
/// alone, as the equation with [`sp_parse`] states.
pub fn parser(src: &[u8]) -> (r: Result<Expr, Vec<SyntaxError>>)
    ensures
        view_parse_result(r) == sp_parse(src@),
        r is Ok ==> chain_wf(view_expr(r->Ok_0)),
        r is Ok ==> spans_wf(view_expr(r->Ok_0), src@),
{
    let mut errs: Vec<SyntaxError> = Vec::new();
    proof {
        assert(view_errs(Seq::<SyntaxError>::empty()) =~= Seq::<ErrS>::empty());
    }
    let (e, c) = parse_decl(src, 0, &mut errs);
    let q = skip_ws(src, c);
    if q < src.len() {
        let expected = vec![Expected::Eof];
        proof {
            assert(expected@ =~= seq![Expected::Eof]);
        }
        push_err(&mut errs, src, q, expected);
    }
    if errs.len() == 0 {
        proof {
            assert(view_errs(errs@) =~= Seq::<ErrS>::empty());
        }
        Ok(e)
    } else {
        Err(errs)
    }
}


/// Parsing is deterministic: equal inputs parse to structurally identical
/// results, spans, collected errors and all. Together with the contract of
/// [`parser`], which returns exactly `sp_parse` of its input, two runs of
/// the parser on one text can never disagree.
pub proof fn lemma_parse_deterministic(s1: Seq<u8>, s2: Seq<u8>)
    requires
        s1 == s2,
    ensures
        sp_parse(s1) == sp_parse(s2),
{
}

} // verus!



