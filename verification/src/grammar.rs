//! The parser as mathematics: what each parsing routine yields from a position
//! in a token sequence.  Positions may run past the last token; every read there
//! sees the end-of-input token.

use vstd::prelude::*;
use crate::lexer::{LexTokenType, TokenView, lex};
use crate::ast::{ASTUnaryType, ASTBinaryType, ASTDataType, ASTData, ExprView, ParamView, NodeView};

verus! {

/// The token at `p`; past the end, the last token.
pub open spec fn token_at(t: Seq<TokenView>, p: int) -> TokenView {
    if 0 <= p < t.len() {
        t[p]
    } else {
        t.last()
    }
}

pub open spec fn ty_at(t: Seq<TokenView>, p: int) -> LexTokenType {
    token_at(t, p).ty
}

/// What is left to read from `p`.
pub open spec fn measure(t: Seq<TokenView>, p: int) -> int {
    if p < t.len() {
        t.len() - p
    } else {
        0
    }
}

pub open spec fn prefix_bp(ty: ASTUnaryType) -> u8 {
    match ty {
        ASTUnaryType::Plus | ASTUnaryType::Minus | ASTUnaryType::Negation | ASTUnaryType::PreDec
        | ASTUnaryType::PreInc => 12,
        _ => 0,
    }
}

/// Left and right binding powers of the operators, tightest last: assignment,
/// comparison, the conditional, sums, products; calls and indexing bind tightest.  The
/// right power of a call is the one its arguments are parsed with.
pub open spec fn infix_bp(ty: LexTokenType) -> (u8, u8) {
    match ty {
        LexTokenType::Assign => (2, 1),
        LexTokenType::LessThan | LexTokenType::BiggerThan | LexTokenType::LessEqual => (3, 4),
        LexTokenType::Question => (4, 3),
        LexTokenType::Plus | LexTokenType::Minus => (5, 6),
        LexTokenType::Asterisk | LexTokenType::Div => (7, 8),
        LexTokenType::LParen => (13, 2),
        LexTokenType::LSquare => (13, 13),
        _ => (0, 0),
    }
}

/// The token types that continue an expression.
pub open spec fn is_infix_operator(ty: LexTokenType) -> bool {
    match ty {
        LexTokenType::Plus | LexTokenType::Minus | LexTokenType::Asterisk | LexTokenType::Div
        | LexTokenType::LessThan | LexTokenType::BiggerThan | LexTokenType::LessEqual
        | LexTokenType::Assign | LexTokenType::LSquare | LexTokenType::Question | LexTokenType::LParen => true,
        _ => false,
    }
}

/// The token types that join two operands.
pub open spec fn is_binary_operator(ty: LexTokenType) -> bool {
    match ty {
        LexTokenType::Plus | LexTokenType::Minus | LexTokenType::Asterisk | LexTokenType::Div
        | LexTokenType::LessThan | LexTokenType::BiggerThan | LexTokenType::LessEqual
        | LexTokenType::Assign => true,
        _ => false,
    }
}

pub open spec fn binary_type_of(ty: LexTokenType) -> ASTBinaryType {
    match ty {
        LexTokenType::Plus => ASTBinaryType::Add,
        LexTokenType::Minus => ASTBinaryType::Sub,
        LexTokenType::Asterisk => ASTBinaryType::Mult,
        LexTokenType::Div => ASTBinaryType::Div,
        LexTokenType::LessThan => ASTBinaryType::LessThan,
        LexTokenType::BiggerThan => ASTBinaryType::BiggerThan,
        LexTokenType::LessEqual => ASTBinaryType::LessEqual,
        _ => ASTBinaryType::Assignment,
    }
}

// ---------------------------------------------------------------------------
// Expressions.  Each routine yields the position it stops at and its result.
// ---------------------------------------------------------------------------

pub open spec fn s_parse_unary(t: Seq<TokenView>, p: int, ty: ASTUnaryType) -> (int, Option<ExprView>)
    decreases measure(t, p), 4int,
{
    if p < t.len() {
        let (p1, e) = s_parse_expression(t, p + 1, prefix_bp(ty));
        match e {
            None => (p1, None),
            Some(e) => (p1, Some(ExprView::Unary(ty, Box::new(e)))),
        }
    } else {
        (p, None)
    }
}

pub open spec fn s_parse_prefix(t: Seq<TokenView>, p: int) -> (int, Option<ExprView>)
    decreases measure(t, p), 5int,
{
    let tok = token_at(t, p);
    match tok.ty {
        LexTokenType::Identifier => (p + 1, Some(ExprView::Identifier(tok.literal))),
        LexTokenType::Numeral => (p + 1, Some(ExprView::Numeral(tok.literal))),
        LexTokenType::Negation => s_parse_unary(t, p, ASTUnaryType::Negation),
        LexTokenType::Plus => s_parse_unary(t, p, ASTUnaryType::Plus),
        LexTokenType::Minus => s_parse_unary(t, p, ASTUnaryType::Minus),
        LexTokenType::PlusPlus => s_parse_unary(t, p, ASTUnaryType::PreInc),
        LexTokenType::MinusMinus => s_parse_unary(t, p, ASTUnaryType::PreDec),
        _ => (p, None),
    }
}

pub open spec fn s_parse_binary(
    t: Seq<TokenView>,
    p: int,
    lhs: ExprView,
    min_bp: u8,
    ty: ASTBinaryType,
) -> (int, Option<ExprView>)
    decreases measure(t, p), 6int,
{
    if p < t.len() {
        let (p1, r) = s_parse_expression(t, p + 1, min_bp);
        match r {
            None => (p1, None),
            Some(r) => (p1, Some(ExprView::Binary(ty, Box::new(lhs), Box::new(r)))),
        }
    } else {
        (p, None)
    }
}

pub open spec fn s_parse_indexing(t: Seq<TokenView>, p: int, lhs: ExprView, min_bp: u8) -> (int, Option<ExprView>)
    decreases measure(t, p), 6int,
{
    if p < t.len() {
        let (p1, r) = s_parse_expression(t, p + 1, min_bp);
        match r {
            None => (p1, None),
            Some(r) => if ty_at(t, p1) == LexTokenType::RSquare {
                (p1 + 1, Some(ExprView::Binary(ASTBinaryType::Indexing, Box::new(lhs), Box::new(r))))
            } else {
                (p1, None)
            },
        }
    } else {
        (p, None)
    }
}

pub open spec fn s_parse_conditional(t: Seq<TokenView>, p: int, lhs: ExprView, min_bp: u8) -> (int, Option<ExprView>)
    decreases measure(t, p), 6int,
{
    if p < t.len() {
        let (p1, then_e) = s_parse_expression(t, p + 1, min_bp);
        match then_e {
            None => (p1, None),
            Some(then_e) => if ty_at(t, p1) != LexTokenType::Colon {
                (p1, None)
            } else if p <= p1 {
                let (p2, or_e) = s_parse_expression(t, p1 + 1, min_bp);
                match or_e {
                    None => (p2, None),
                    Some(or_e) => (p2, Some(ExprView::Conditional(Box::new(lhs), Box::new(then_e), Box::new(or_e)))),
                }
            } else {
                (p1, None)
            },
        }
    } else {
        (p, None)
    }
}

/// The arguments of an invocation from `q`, after `acc`.
pub open spec fn s_invocation_args(t: Seq<TokenView>, q: int, acc: Seq<ExprView>, min_bp: u8) -> (int, Option<Seq<ExprView>>)
    decreases measure(t, q), 10int,
{
    if ty_at(t, q) == LexTokenType::RParen {
        (q + 1, Some(acc))
    } else {
        let (q1, e) = s_parse_expression(t, q, min_bp);
        match e {
            None => (q1, None),
            Some(e) => if ty_at(t, q1) == LexTokenType::Comma {
                if q <= q1 && q < t.len() {
                    s_invocation_args(t, q1 + 1, acc.push(e), min_bp)
                } else {
                    (q1, None)
                }
            } else if ty_at(t, q1) == LexTokenType::RParen {
                (q1 + 1, Some(acc.push(e)))
            } else {
                (q1, None)
            },
        }
    }
}

pub open spec fn s_parse_invocation(t: Seq<TokenView>, p: int, lhs: ExprView, min_bp: u8) -> (int, Option<ExprView>)
    decreases measure(t, p), 6int,
{
    if p < t.len() {
        let (p1, args) = s_invocation_args(t, p + 1, Seq::empty(), min_bp);
        match args {
            None => (p1, None),
            Some(args) => (p1, Some(ExprView::Invocation(Box::new(lhs), args))),
        }
    } else {
        (p, None)
    }
}

pub open spec fn s_parse_infix(t: Seq<TokenView>, p: int, lhs: ExprView, min_bp: u8, ty: LexTokenType) -> (int, Option<ExprView>)
    decreases measure(t, p), 7int,
{
    if is_binary_operator(ty) {
        s_parse_binary(t, p, lhs, min_bp, binary_type_of(ty))
    } else if ty == LexTokenType::LSquare {
        s_parse_indexing(t, p, lhs, min_bp)
    } else if ty == LexTokenType::Question {
        s_parse_conditional(t, p, lhs, min_bp)
    } else if ty == LexTokenType::LParen {
        s_parse_invocation(t, p, lhs, min_bp)
    } else {
        (p, Some(ExprView::Null))
    }
}

/// The operator loop of an expression whose left operand `lhs` ends at `p`.
pub open spec fn s_expression_tail(t: Seq<TokenView>, p: int, lhs: ExprView, min_bp: u8) -> (int, Option<ExprView>)
    decreases measure(t, p), 8int,
{
    let ty = ty_at(t, p);
    let (lbp, rbp) = infix_bp(ty);
    if lbp < min_bp || !is_infix_operator(ty) {
        (p, Some(lhs))
    } else {
        let (p2, r) = s_parse_infix(t, p, lhs, rbp, ty);
        match r {
            None => (p2, None),
            Some(e) => if p < p2 && p < t.len() {
                s_expression_tail(t, p2, e, min_bp)
            } else {
                (p2, None)
            },
        }
    }
}

pub open spec fn s_parse_expression(t: Seq<TokenView>, p: int, min_bp: u8) -> (int, Option<ExprView>)
    decreases measure(t, p), 9int,
{
    let (p1, lhs) = s_parse_prefix(t, p);
    match lhs {
        None => (p1, None),
        Some(lhs) => if p <= p1 {
            s_expression_tail(t, p1, lhs, min_bp)
        } else {
            (p1, None)
        },
    }
}

// ---------------------------------------------------------------------------
// Laws of expressions.
// ---------------------------------------------------------------------------

/// The identifier whose token is at `i`.
pub open spec fn ident_at(t: Seq<TokenView>, i: int) -> ExprView {
    ExprView::Identifier(token_at(t, i).literal)
}

/// `a op1 b op2 c`, three identifiers joined by two binary operators and followed by a
/// token that continues no expression, groups to the right exactly where `op2` binds at
/// least as tightly as the right side of `op1`: products before sums, sums before
/// comparisons, assignments to the right, operators of one level to the left.
pub proof fn lemma_binary_grouping(t: Seq<TokenView>, p: int)
    requires
        0 <= p,
        p + 5 < t.len(),
        ty_at(t, p) == LexTokenType::Identifier,
        ty_at(t, p + 2) == LexTokenType::Identifier,
        ty_at(t, p + 4) == LexTokenType::Identifier,
        is_binary_operator(ty_at(t, p + 1)),
        is_binary_operator(ty_at(t, p + 3)),
        !is_infix_operator(ty_at(t, p + 5)),
    ensures
        ({
            let op1 = binary_type_of(ty_at(t, p + 1));
            let op2 = binary_type_of(ty_at(t, p + 3));
            let (a, b, c) = (ident_at(t, p), ident_at(t, p + 2), ident_at(t, p + 4));
            s_parse_expression(t, p, 0) == (
                p + 5,
                Some(
                    if infix_bp(ty_at(t, p + 3)).0 >= infix_bp(ty_at(t, p + 1)).1 {
                        ExprView::Binary(op1, Box::new(a), Box::new(ExprView::Binary(op2, Box::new(b), Box::new(c))))
                    } else {
                        ExprView::Binary(op2, Box::new(ExprView::Binary(op1, Box::new(a), Box::new(b))), Box::new(c))
                    },
                ),
            )
        }),
{
    let ty1 = ty_at(t, p + 1);
    let ty2 = ty_at(t, p + 3);
    let op1 = binary_type_of(ty1);
    let op2 = binary_type_of(ty2);
    let (a, b, c) = (ident_at(t, p), ident_at(t, p + 2), ident_at(t, p + 4));
    let r1 = infix_bp(ty1).1;
    let r2 = infix_bp(ty2).1;
    assert(s_parse_prefix(t, p) == (p + 1, Some(a)));
    assert(s_parse_prefix(t, p + 2) == (p + 3, Some(b)));
    assert(s_parse_prefix(t, p + 4) == (p + 5, Some(c)));
    assert(s_parse_expression(t, p + 4, r2) == (p + 5, Some(c)));
    if infix_bp(ty2).0 >= r1 {
        let bc = ExprView::Binary(op2, Box::new(b), Box::new(c));
        assert(s_parse_binary(t, p + 3, b, r2, op2) == (p + 5, Some(bc)));
        assert(s_parse_infix(t, p + 3, b, r2, ty2) == (p + 5, Some(bc)));
        assert(s_expression_tail(t, p + 5, bc, r1) == (p + 5, Some(bc)));
        assert(s_expression_tail(t, p + 3, b, r1) == (p + 5, Some(bc)));
        assert(s_parse_expression(t, p + 2, r1) == (p + 5, Some(bc)));
        let abc = ExprView::Binary(op1, Box::new(a), Box::new(bc));
        assert(s_parse_binary(t, p + 1, a, r1, op1) == (p + 5, Some(abc)));
        assert(s_parse_infix(t, p + 1, a, r1, ty1) == (p + 5, Some(abc)));
        assert(s_expression_tail(t, p + 5, abc, 0) == (p + 5, Some(abc)));
        assert(s_expression_tail(t, p + 1, a, 0) == (p + 5, Some(abc)));
    } else {
        assert(s_expression_tail(t, p + 3, b, r1) == (p + 3, Some(b)));
        assert(s_parse_expression(t, p + 2, r1) == (p + 3, Some(b)));
        let ab = ExprView::Binary(op1, Box::new(a), Box::new(b));
        assert(s_parse_binary(t, p + 1, a, r1, op1) == (p + 3, Some(ab)));
        assert(s_parse_infix(t, p + 1, a, r1, ty1) == (p + 3, Some(ab)));
        let abc = ExprView::Binary(op2, Box::new(ab), Box::new(c));
        assert(s_parse_binary(t, p + 3, ab, r2, op2) == (p + 5, Some(abc)));
        assert(s_parse_infix(t, p + 3, ab, r2, ty2) == (p + 5, Some(abc)));
        assert(s_expression_tail(t, p + 5, abc, 0) == (p + 5, Some(abc)));
        assert(s_expression_tail(t, p + 3, ab, 0) == (p + 5, Some(abc)));
        assert(s_expression_tail(t, p + 1, a, 0) == (p + 5, Some(abc)));
    }
}

/// `f(a) op b` is the call of `f` with `a`, joined by the operator `op` to `b`: a call
/// binds tighter than every binary operator.
pub proof fn lemma_call_binds_tightest(t: Seq<TokenView>, p: int)
    requires
        0 <= p,
        p + 6 < t.len(),
        ty_at(t, p) == LexTokenType::Identifier,
        ty_at(t, p + 1) == LexTokenType::LParen,
        ty_at(t, p + 2) == LexTokenType::Identifier,
        ty_at(t, p + 3) == LexTokenType::RParen,
        is_binary_operator(ty_at(t, p + 4)),
        ty_at(t, p + 5) == LexTokenType::Identifier,
        !is_infix_operator(ty_at(t, p + 6)),
    ensures
        s_parse_expression(t, p, 0) == (
            p + 6,
            Some(
                ExprView::Binary(
                    binary_type_of(ty_at(t, p + 4)),
                    Box::new(ExprView::Invocation(Box::new(ident_at(t, p)), seq![ident_at(t, p + 2)])),
                    Box::new(ident_at(t, p + 5)),
                ),
            ),
        ),
{
    let f = ident_at(t, p);
    let a = ident_at(t, p + 2);
    let b = ident_at(t, p + 5);
    let ty = ty_at(t, p + 4);
    let op = binary_type_of(ty);
    let r = infix_bp(ty).1;
    assert(s_parse_prefix(t, p) == (p + 1, Some(f)));
    assert(s_parse_prefix(t, p + 2) == (p + 3, Some(a)));
    assert(s_expression_tail(t, p + 3, a, 2) == (p + 3, Some(a)));
    assert(s_parse_expression(t, p + 2, 2) == (p + 3, Some(a)));
    assert(Seq::<ExprView>::empty().push(a) =~= seq![a]);
    assert(s_invocation_args(t, p + 2, Seq::empty(), 2) == (p + 4, Some(seq![a])));
    let call = ExprView::Invocation(Box::new(f), seq![a]);
    assert(s_parse_invocation(t, p + 1, f, 2) == (p + 4, Some(call)));
    assert(s_parse_infix(t, p + 1, f, 2, LexTokenType::LParen) == (p + 4, Some(call)));
    assert(s_parse_prefix(t, p + 5) == (p + 6, Some(b)));
    assert(s_parse_expression(t, p + 5, r) == (p + 6, Some(b)));
    let whole = ExprView::Binary(op, Box::new(call), Box::new(b));
    assert(s_parse_binary(t, p + 4, call, r, op) == (p + 6, Some(whole)));
    assert(s_parse_infix(t, p + 4, call, r, ty) == (p + 6, Some(whole)));
    assert(s_expression_tail(t, p + 6, whole, 0) == (p + 6, Some(whole)));
    assert(s_expression_tail(t, p + 4, call, 0) == (p + 6, Some(whole)));
    assert(s_expression_tail(t, p + 1, f, 0) == (p + 6, Some(whole)));
}

/// Whether a token type ends an expression here: a semicolon or the end of input.
pub open spec fn ends_expression(ty: LexTokenType) -> bool {
    ty == LexTokenType::Semi || ty == LexTokenType::EOF
}

/// The operation that the operator token `ty` denotes, written out for the four
/// arithmetic operators.
pub open spec fn arith_op_named(ty: LexTokenType) -> ASTBinaryType {
    if ty == LexTokenType::Plus {
        ASTBinaryType::Add
    } else if ty == LexTokenType::Minus {
        ASTBinaryType::Sub
    } else if ty == LexTokenType::Asterisk {
        ASTBinaryType::Mult
    } else {
        ASTBinaryType::Div
    }
}

pub open spec fn is_sum_token(ty: LexTokenType) -> bool {
    ty == LexTokenType::Plus || ty == LexTokenType::Minus
}

pub open spec fn is_product_token(ty: LexTokenType) -> bool {
    ty == LexTokenType::Asterisk || ty == LexTokenType::Div
}

pub open spec fn is_comparison_token(ty: LexTokenType) -> bool {
    ty == LexTokenType::LessThan || ty == LexTokenType::BiggerThan || ty == LexTokenType::LessEqual
}

/// `a op1 b op2 c` with three identifiers, ended by `;` or the end of input.
pub open spec fn three_operands(t: Seq<TokenView>, p: int) -> bool {
    &&& 0 <= p
    &&& p + 5 < t.len()
    &&& ty_at(t, p) == LexTokenType::Identifier
    &&& ty_at(t, p + 2) == LexTokenType::Identifier
    &&& ty_at(t, p + 4) == LexTokenType::Identifier
    &&& ends_expression(ty_at(t, p + 5))
}

/// `(a op1 b) op2 c`.
pub open spec fn grouped_left(t: Seq<TokenView>, p: int, op1: ASTBinaryType, op2: ASTBinaryType) -> (int, Option<ExprView>) {
    (
        p + 5,
        Some(
            ExprView::Binary(
                op2,
                Box::new(ExprView::Binary(op1, Box::new(ident_at(t, p)), Box::new(ident_at(t, p + 2)))),
                Box::new(ident_at(t, p + 4)),
            ),
        ),
    )
}

/// `a op1 (b op2 c)`.
pub open spec fn grouped_right(t: Seq<TokenView>, p: int, op1: ASTBinaryType, op2: ASTBinaryType) -> (int, Option<ExprView>) {
    (
        p + 5,
        Some(
            ExprView::Binary(
                op1,
                Box::new(ident_at(t, p)),
                Box::new(ExprView::Binary(op2, Box::new(ident_at(t, p + 2)), Box::new(ident_at(t, p + 4)))),
            ),
        ),
    )
}

/// Operators of one level group to the left: `a * b / c` is `(a * b) / c`, `a / b * c`
/// is `(a / b) * c`, and likewise for `+` and `-`.
pub proof fn lemma_same_level_groups_left(t: Seq<TokenView>, p: int)
    requires
        three_operands(t, p),
        (is_product_token(ty_at(t, p + 1)) && is_product_token(ty_at(t, p + 3))) || (is_sum_token(ty_at(t, p + 1))
            && is_sum_token(ty_at(t, p + 3))),
    ensures
        s_parse_expression(t, p, 0) == grouped_left(t, p, arith_op_named(ty_at(t, p + 1)), arith_op_named(ty_at(t, p + 3))),
{
    lemma_binary_grouping(t, p);
}

/// The comparison that the token type `ty` denotes, written out for `<`, `>` and `<=`.
pub open spec fn comparison_named(ty: LexTokenType) -> ASTBinaryType {
    if ty == LexTokenType::LessThan {
        ASTBinaryType::LessThan
    } else if ty == LexTokenType::BiggerThan {
        ASTBinaryType::BiggerThan
    } else {
        ASTBinaryType::LessEqual
    }
}

/// Comparisons group to the left too: `a < b <= c` is `(a < b) <= c`.
pub proof fn lemma_comparisons_group_left(t: Seq<TokenView>, p: int)
    requires
        three_operands(t, p),
        is_comparison_token(ty_at(t, p + 1)),
        is_comparison_token(ty_at(t, p + 3)),
    ensures
        s_parse_expression(t, p, 0) == grouped_left(t, p, comparison_named(ty_at(t, p + 1)), comparison_named(ty_at(t, p + 3))),
{
    lemma_binary_grouping(t, p);
}

/// Products bind tighter than sums: `a + b * c` is `a + (b * c)` and `a * b + c` is
/// `(a * b) + c`, for every choice of `+`/`-` and `*`/`/`.
pub proof fn lemma_products_before_sums(t: Seq<TokenView>, p: int)
    requires
        three_operands(t, p),
    ensures
        is_sum_token(ty_at(t, p + 1)) && is_product_token(ty_at(t, p + 3)) ==> s_parse_expression(t, p, 0)
            == grouped_right(t, p, arith_op_named(ty_at(t, p + 1)), arith_op_named(ty_at(t, p + 3))),
        is_product_token(ty_at(t, p + 1)) && is_sum_token(ty_at(t, p + 3)) ==> s_parse_expression(t, p, 0)
            == grouped_left(t, p, arith_op_named(ty_at(t, p + 1)), arith_op_named(ty_at(t, p + 3))),
{
    if (is_sum_token(ty_at(t, p + 1)) || is_product_token(ty_at(t, p + 1))) && (is_sum_token(ty_at(t, p + 3))
        || is_product_token(ty_at(t, p + 3))) {
        lemma_binary_grouping(t, p);
    }
}

/// Arithmetic binds tighter than comparison: `a < b + c` is `a < (b + c)` and `a * b <= c`
/// is `(a * b) <= c`.
pub proof fn lemma_arithmetic_before_comparison(t: Seq<TokenView>, p: int)
    requires
        three_operands(t, p),
    ensures
        ty_at(t, p + 1) == LexTokenType::LessThan && (is_sum_token(ty_at(t, p + 3)) || is_product_token(ty_at(t, p + 3)))
            ==> s_parse_expression(t, p, 0) == grouped_right(t, p, ASTBinaryType::LessThan, arith_op_named(ty_at(t, p + 3))),
        (is_sum_token(ty_at(t, p + 1)) || is_product_token(ty_at(t, p + 1))) && ty_at(t, p + 3) == LexTokenType::LessEqual
            ==> s_parse_expression(t, p, 0) == grouped_left(t, p, arith_op_named(ty_at(t, p + 1)), ASTBinaryType::LessEqual),
{
    if (ty_at(t, p + 1) == LexTokenType::LessThan && (is_sum_token(ty_at(t, p + 3)) || is_product_token(ty_at(t, p + 3))))
        || ((is_sum_token(ty_at(t, p + 1)) || is_product_token(ty_at(t, p + 1))) && ty_at(t, p + 3)
        == LexTokenType::LessEqual) {
        lemma_binary_grouping(t, p);
    }
}

/// Assignments group to the right: `a = b = c` is `a = (b = c)`.
pub proof fn lemma_assignment_groups_right(t: Seq<TokenView>, p: int)
    requires
        three_operands(t, p),
        ty_at(t, p + 1) == LexTokenType::Assign,
        ty_at(t, p + 3) == LexTokenType::Assign,
    ensures
        s_parse_expression(t, p, 0) == grouped_right(t, p, ASTBinaryType::Assignment, ASTBinaryType::Assignment),
{
    lemma_binary_grouping(t, p);
}

/// A prefix minus takes its operand only: `-a op b` is `(-a) op b` for each arithmetic
/// operator.
pub proof fn lemma_negation_takes_operand_only(t: Seq<TokenView>, p: int)
    requires
        0 <= p,
        p + 4 < t.len(),
        ty_at(t, p) == LexTokenType::Minus,
        ty_at(t, p + 1) == LexTokenType::Identifier,
        is_sum_token(ty_at(t, p + 2)) || is_product_token(ty_at(t, p + 2)),
        ty_at(t, p + 3) == LexTokenType::Identifier,
        ends_expression(ty_at(t, p + 4)),
    ensures
        s_parse_expression(t, p, 0) == (
            p + 4,
            Some(
                ExprView::Binary(
                    arith_op_named(ty_at(t, p + 2)),
                    Box::new(ExprView::Unary(ASTUnaryType::Minus, Box::new(ident_at(t, p + 1)))),
                    Box::new(ident_at(t, p + 3)),
                ),
            ),
        ),
{
    let a = ident_at(t, p + 1);
    let b = ident_at(t, p + 3);
    let ty = ty_at(t, p + 2);
    let op = arith_op_named(ty);
    let r = infix_bp(ty).1;
    assert(binary_type_of(ty) == op);
    assert(s_parse_prefix(t, p + 1) == (p + 2, Some(a)));
    assert(s_expression_tail(t, p + 2, a, 12) == (p + 2, Some(a)));
    assert(s_parse_expression(t, p + 1, 12) == (p + 2, Some(a)));
    let neg = ExprView::Unary(ASTUnaryType::Minus, Box::new(a));
    assert(s_parse_unary(t, p, ASTUnaryType::Minus) == (p + 2, Some(neg)));
    assert(s_parse_prefix(t, p) == (p + 2, Some(neg)));
    assert(s_parse_prefix(t, p + 3) == (p + 4, Some(b)));
    assert(s_parse_expression(t, p + 3, r) == (p + 4, Some(b)));
    let whole = ExprView::Binary(op, Box::new(neg), Box::new(b));
    assert(s_parse_binary(t, p + 2, neg, r, op) == (p + 4, Some(whole)));
    assert(s_parse_infix(t, p + 2, neg, r, ty) == (p + 4, Some(whole)));
    assert(s_expression_tail(t, p + 4, whole, 0) == (p + 4, Some(whole)));
    assert(s_expression_tail(t, p + 2, neg, 0) == (p + 4, Some(whole)));
}

// ---------------------------------------------------------------------------
// Types, names, parameters, and simple statements.
// ---------------------------------------------------------------------------

pub open spec fn s_try_parse_type(t: Seq<TokenView>, p: int) -> (int, Option<ASTData>) {
    let (p1, explicit) = if ty_at(t, p) == LexTokenType::Signed {
        (p + 1, Some(true))
    } else if ty_at(t, p) == LexTokenType::Unsigned {
        (p + 1, Some(false))
    } else {
        (p, None::<bool>)
    };
    let cur = ty_at(t, p1);
    let (p2, dty) = if cur == LexTokenType::Void {
        (p1, Some(ASTDataType::Void))
    } else if cur == LexTokenType::Char {
        (p1, Some(ASTDataType::Char))
    } else if cur == LexTokenType::Short {
        (p1, Some(ASTDataType::Short))
    } else if cur == LexTokenType::Int {
        (p1, Some(ASTDataType::Int))
    } else if cur == LexTokenType::Long {
        if ty_at(t, p1 + 1) == LexTokenType::Long {
            (p1 + 1, Some(ASTDataType::LongLong))
        } else {
            (p1, Some(ASTDataType::Long))
        }
    } else if cur == LexTokenType::Float {
        (p1, Some(ASTDataType::Float))
    } else if cur == LexTokenType::Double {
        (p1, Some(ASTDataType::Double))
    } else if explicit is Some {
        (p1, Some(ASTDataType::Int))
    } else {
        (p1, None::<ASTDataType>)
    };
    match dty {
        None => (p2, None),
        Some(d) => {
            let p3 = if explicit is None || ty_at(t, p2) != LexTokenType::Identifier {
                p2 + 1
            } else {
                p2
            };
            let p4 = if (d == ASTDataType::Short || d == ASTDataType::Long || d == ASTDataType::LongLong)
                && ty_at(t, p3) == LexTokenType::Int {
                p3 + 1
            } else {
                p3
            };
            let signed = match explicit {
                Some(b) => b,
                None => true,
            };
            (p4, Some(ASTData { signed, ty: d }))
        },
    }
}

pub open spec fn s_try_parse_identifier(t: Seq<TokenView>, p: int) -> (int, Option<Seq<char>>) {
    if ty_at(t, p) == LexTokenType::Identifier {
        (p + 1, Some(token_at(t, p).literal))
    } else {
        (p, None)
    }
}

/// The parameters from `p`, after `acc`, up to the closing parenthesis.
pub open spec fn s_params_tail(t: Seq<TokenView>, p: int, acc: Seq<ParamView>) -> (int, Option<Seq<ParamView>>)
    decreases measure(t, p),
{
    let (p1, ty) = s_try_parse_type(t, p);
    match ty {
        None => (p1, None),
        Some(ty) => {
            let (p2, name) = s_try_parse_identifier(t, p1);
            match name {
                None => (p2, None),
                Some(name) => {
                    let acc2 = acc.push(ParamView { ty, name });
                    if ty_at(t, p2) == LexTokenType::Comma {
                        if p < p2 && p < t.len() {
                            s_params_tail(t, p2 + 1, acc2)
                        } else {
                            (p2, None)
                        }
                    } else if ty_at(t, p2) == LexTokenType::RParen {
                        (p2 + 1, Some(acc2))
                    } else {
                        (p2, None)
                    }
                },
            }
        },
    }
}

pub open spec fn s_try_parse_func_params(t: Seq<TokenView>, p: int) -> (int, Option<Seq<ParamView>>) {
    if ty_at(t, p) != LexTokenType::LParen {
        (p, None)
    } else if ty_at(t, p + 1) == LexTokenType::RParen {
        (p + 2, Some(Seq::empty()))
    } else {
        s_params_tail(t, p + 1, Seq::empty())
    }
}

pub open spec fn s_try_parse_expression_statement(t: Seq<TokenView>, p: int) -> (int, Option<NodeView>) {
    let (p1, e) = s_parse_expression(t, p, 0);
    match e {
        None => (p1, None),
        Some(e) => if ty_at(t, p1) == LexTokenType::Semi {
            (p1 + 1, Some(NodeView::Expression(e)))
        } else {
            (p1, None)
        },
    }
}

pub open spec fn s_try_parse_var(t: Seq<TokenView>, p: int) -> (int, Option<NodeView>) {
    let (p1, ty) = s_try_parse_type(t, p);
    match ty {
        None => (p1, None),
        Some(ty) => {
            let (p2, name) = s_try_parse_identifier(t, p1);
            match name {
                None => (p2, None),
                Some(name) => {
                    let (p3, ok, init) = if ty_at(t, p2) == LexTokenType::Assign {
                        let (p3, e) = s_parse_expression(t, p2 + 1, 0);
                        (p3, e is Some, e)
                    } else {
                        (p2, true, None)
                    };
                    if !ok {
                        (p3, None)
                    } else if ty_at(t, p3) == LexTokenType::Semi {
                        (p3 + 1, Some(NodeView::Var(ty, name, init)))
                    } else {
                        (p3, None)
                    }
                },
            }
        },
    }
}

// ---------------------------------------------------------------------------
// Statements.  Here the state is the position and the checkpoint; `None`
// stands for a parse that does not complete (a malformed `while`).
// ---------------------------------------------------------------------------

pub open spec fn s_parse_current(t: Seq<TokenView>, p: int, cp: int) -> Option<(int, int, NodeView)>
    decreases measure(t, p), 4int,
{
    if ty_at(t, p) == LexTokenType::While {
        match s_try_parse_while(t, p, cp) {
            None => None,
            Some((p1, c1, r)) => match r {
                Some(n) => Some((p1, c1, n)),
                None => None,
            },
        }
    } else if ty_at(t, p) == LexTokenType::If {
        match s_try_parse_if(t, p, cp) {
            None => None,
            Some((p1, c1, r)) => match r {
                Some(n) => Some((p1, c1, n)),
                None => None,
            },
        }
    } else if ty_at(t, p) == LexTokenType::Return {
        match s_try_parse_return(t, p) {
            (p1, Some(n)) => Some((p1, cp, n)),
            _ => None,
        }
    } else if ty_at(t, p) == LexTokenType::EOF {
        Some((p, cp, NodeView::EOF))
    } else {
        let (p1, v) = s_try_parse_var(t, p);
        match v {
            Some(n) => Some((p1, p, n)),
            None => match s_try_parse_func(t, p, p) {
                None => None,
                Some((p2, c2, f)) => match f {
                    Some(n) => Some((p2, c2, n)),
                    None => {
                        let (p3, e) = s_try_parse_expression_statement(t, c2);
                        match e {
                            Some(n) => Some((p3, c2, n)),
                            None => Some((p3, c2, NodeView::EOF)),
                        }
                    },
                },
            },
        }
    }
}

pub open spec fn s_try_parse_func(t: Seq<TokenView>, p: int, cp: int) -> Option<(int, int, Option<NodeView>)>
    decreases measure(t, p), 3int,
{
    let (p1, ty) = s_try_parse_type(t, p);
    match ty {
        None => Some((p1, cp, None)),
        Some(ty) => {
            let (p2, name) = s_try_parse_identifier(t, p1);
            match name {
                None => Some((p2, cp, None)),
                Some(name) => {
                    let (p3, params) = s_try_parse_func_params(t, p2);
                    match params {
                        None => Some((p3, cp, None)),
                        Some(params) => if p < p3 && p < t.len() {
                            match s_try_parse_block(t, p3, cp) {
                                None => None,
                                Some((p4, c4, b)) => match b {
                                    None => Some((p4, c4, None)),
                                    Some(body) => Some((p4, c4, Some(NodeView::Func(ty, name, params, body)))),
                                },
                            }
                        } else {
                            None
                        },
                    }
                },
            }
        },
    }
}

pub open spec fn s_try_parse_block(t: Seq<TokenView>, p: int, cp: int) -> Option<(int, int, Option<Seq<NodeView>>)>
    decreases measure(t, p), 2int,
{
    if ty_at(t, p) != LexTokenType::LBrace {
        Some((p, cp, None))
    } else if p < t.len() {
        s_block_tail(t, p + 1, cp, Seq::empty())
    } else {
        None
    }
}

/// The statements of a block from `p`, after `acc`, up to the closing brace.
pub open spec fn s_block_tail(t: Seq<TokenView>, p: int, cp: int, acc: Seq<NodeView>) -> Option<(int, int, Option<Seq<NodeView>>)>
    decreases measure(t, p), 6int,
{
    if ty_at(t, p) == LexTokenType::RBrace {
        Some((p + 1, cp, Some(acc)))
    } else {
        match s_parse_current(t, p, cp) {
            None => None,
            Some((p1, c1, n)) => if n is EOF {
                Some((p1, c1, None))
            } else if p < p1 && p < t.len() {
                s_block_tail(t, p1, c1, acc.push(n))
            } else {
                None
            },
        }
    }
}

pub open spec fn s_try_parse_statement_block(t: Seq<TokenView>, p: int, cp: int) -> Option<(int, int, Option<Seq<NodeView>>)>
    decreases measure(t, p), 5int,
{
    if ty_at(t, p) == LexTokenType::LBrace {
        s_try_parse_block(t, p, cp)
    } else {
        match s_parse_current(t, p, cp) {
            None => None,
            Some((p1, c1, n)) => Some((p1, c1, Some(seq![n]))),
        }
    }
}

pub open spec fn s_try_parse_while(t: Seq<TokenView>, p: int, cp: int) -> Option<(int, int, Option<NodeView>)>
    decreases measure(t, p), 3int,
{
    if ty_at(t, p) != LexTokenType::While {
        Some((p, cp, None))
    } else if ty_at(t, p + 1) != LexTokenType::LParen {
        Some((p + 1, cp, None))
    } else {
        let (p2, c) = s_parse_expression(t, p + 2, 0);
        match c {
            None => Some((p2, cp, None)),
            Some(c) => if ty_at(t, p2) != LexTokenType::RParen {
                Some((p2, cp, None))
            } else if p < p2 + 1 && p < t.len() {
                match s_try_parse_statement_block(t, p2 + 1, cp) {
                    None => None,
                    Some((p3, c3, b)) => match b {
                        None => Some((p3, c3, None)),
                        Some(body) => Some((p3, c3, Some(NodeView::While(c, body)))),
                    },
                }
            } else {
                None
            },
        }
    }
}

pub open spec fn s_try_parse_if(t: Seq<TokenView>, p: int, cp: int) -> Option<(int, int, Option<NodeView>)>
    decreases measure(t, p), 3int,
{
    if ty_at(t, p) != LexTokenType::If {
        Some((p, cp, None))
    } else if ty_at(t, p + 1) != LexTokenType::LParen {
        Some((p + 1, cp, None))
    } else {
        let (p2, c) = s_parse_expression(t, p + 2, 0);
        match c {
            None => Some((p2, cp, None)),
            Some(c) => if ty_at(t, p2) != LexTokenType::RParen {
                Some((p2, cp, None))
            } else if p < p2 + 1 && p < t.len() {
                match s_try_parse_statement_block(t, p2 + 1, cp) {
                    None => None,
                    Some((p3, c3, b)) => match b {
                        None => Some((p3, c3, None)),
                        Some(then_body) => if ty_at(t, p3) != LexTokenType::Else {
                            Some((p3, c3, Some(NodeView::If(c, then_body, Seq::empty()))))
                        } else if p < p3 + 1 {
                            match s_try_parse_statement_block(t, p3 + 1, c3) {
                                None => None,
                                Some((p4, c4, e)) => match e {
                                    None => Some((p4, c4, None)),
                                    Some(else_body) => Some((p4, c4, Some(NodeView::If(c, then_body, else_body)))),
                                },
                            }
                        } else {
                            None
                        },
                    },
                }
            } else {
                None
            },
        }
    }
}

/// A `return` statement at `p`, with or without a value.
pub open spec fn s_try_parse_return(t: Seq<TokenView>, p: int) -> (int, Option<NodeView>) {
    if ty_at(t, p) != LexTokenType::Return {
        (p, None)
    } else if ty_at(t, p + 1) == LexTokenType::Semi {
        (p + 2, Some(NodeView::Return(None)))
    } else {
        let (p1, e) = s_parse_expression(t, p + 1, 0);
        match e {
            None => (p1, None),
            Some(e) => if ty_at(t, p1) == LexTokenType::Semi {
                (p1 + 1, Some(NodeView::Return(Some(e))))
            } else {
                (p1, None)
            },
        }
    }
}

/// The top-level statements from `p`, after `acc`; `None` where a statement does not
/// complete or where one consumes nothing (the parse would then not terminate).
pub open spec fn s_parse_program(t: Seq<TokenView>, p: int, cp: int, acc: Seq<NodeView>) -> Option<Seq<NodeView>>
    decreases measure(t, p),
{
    if ty_at(t, p) == LexTokenType::EOF {
        Some(acc)
    } else {
        match s_parse_current(t, p, cp) {
            None => None,
            Some((p1, c1, n)) => if p < p1 && p < t.len() {
                s_parse_program(t, p1, c1, acc.push(n))
            } else {
                None
            },
        }
    }
}

/// The syntax tree of a token sequence, a root node holding the top-level statements.
pub open spec fn parse_tokens(t: Seq<TokenView>) -> Option<NodeView> {
    match s_parse_program(t, 0, 0, Seq::empty()) {
        None => None,
        Some(stmts) => Some(NodeView::Root(stmts)),
    }
}

/// The tree that a parser over the tokens of `s` builds from the start is the syntax tree
/// of `s`: a constructor from source text and one from that tree start alike.
pub proof fn lemma_parse_source_is_parse(s: Seq<char>)
    requires
        lex(s) is Some,
        s_parse_program(lex(s).unwrap(), 0, 0, Seq::empty()) is Some,
    ensures
        parse_source(s) == Some(NodeView::Root(s_parse_program(lex(s).unwrap(), 0, 0, Seq::empty()).unwrap())),
{
}

/// The syntax tree of a source text.
pub open spec fn parse_source(s: Seq<char>) -> Option<NodeView> {
    match lex(s) {
        None => None,
        Some(t) => parse_tokens(t),
    }
}

} // verus!
