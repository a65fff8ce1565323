use vstd::prelude::*;
use crate::lexer::{LexToken, LexTokenType, Lexer, TokenView, token_views, lex};
use crate::grammar::{
    token_at, ty_at, measure, prefix_bp, infix_bp, is_infix_operator, s_parse_unary, s_parse_prefix,
    s_parse_binary, s_parse_indexing,
    s_parse_conditional, s_invocation_args, s_parse_invocation, s_parse_infix,
    s_expression_tail, s_parse_expression, s_try_parse_type, s_try_parse_identifier,
    s_params_tail, s_try_parse_func_params, s_try_parse_expression_statement, s_try_parse_var,
    s_parse_current, s_try_parse_func, s_try_parse_block, s_block_tail,
    s_try_parse_statement_block, s_try_parse_while, s_try_parse_if, s_try_parse_return, s_parse_program,
};
pub use crate::ast::{
    ASTRoot, ASTIdentifier, ASTNumeral, ASTUnaryType, ASTUnary, ASTBinaryType, ASTBinary,
    ASTConditional, ASTInvocation, ASTExpression, ASTDataType, ASTData, ASTVar, ASTFuncParam,
    ASTFunc, ASTWhile, ASTIf, ASTReturn, ASTNodeType, ASTNode, ExprView, ParamView, NodeView,
};
use crate::ast::{exprs_view, nodes_view, params_view, lemma_exprs_view_push, lemma_nodes_view_push};

verus! {

pub open spec fn opt_expr_view(o: Option<ASTExpression>) -> Option<ExprView> {
    match o {
        Some(e) => Some(e@),
        None => None,
    }
}

pub open spec fn opt_node_view(o: Option<ASTNode>) -> Option<NodeView> {
    match o {
        Some(n) => Some(n@),
        None => None,
    }
}

pub open spec fn opt_nodes_view(o: Option<Vec<ASTNode>>) -> Option<Seq<NodeView>> {
    match o {
        Some(ns) => Some(nodes_view(ns@)),
        None => None,
    }
}

pub open spec fn opt_opt_node_view(o: Option<Option<ASTNode>>) -> Option<Option<NodeView>> {
    match o {
        Some(n) => Some(opt_node_view(n)),
        None => None,
    }
}

pub open spec fn opt_opt_nodes_view(o: Option<Option<Vec<ASTNode>>>) -> Option<Option<Seq<NodeView>>> {
    match o {
        Some(ns) => Some(opt_nodes_view(ns)),
        None => None,
    }
}

/// A statement routine's result against the grammar's: `None` exactly where the grammar
/// gives none, and otherwise the position, checkpoint and result that it gives.
pub open spec fn stmt_matches<T>(g: Option<(int, int, T)>, r: Option<T>, p: int, c: int) -> bool {
    match r {
        None => g is None,
        Some(x) => g == Some((p, c, x)),
    }
}

pub open spec fn opt_params_view(o: Option<Vec<ASTFuncParam>>) -> Option<Seq<ParamView>> {
    match o {
        Some(ps) => Some(params_view(ps@)),
        None => None,
    }
}

pub open spec fn opt_ident_view(o: Option<ASTIdentifier>) -> Option<Seq<char>> {
    match o {
        Some(i) => Some(i.literal@),
        None => None,
    }
}

/// How far a parse from `p` can move the position: reading past the last token
/// happens only once per prefix operator, so twice the number of tokens bounds it.
pub open spec fn reach(t: Seq<TokenView>, p: int) -> int {
    if p <= t.len() {
        2 * t.len() - p
    } else {
        p
    }
}

proof fn lemma_reach_mono(t: Seq<TokenView>, p0: int, p: int)
    requires
        0 <= p0 <= p <= reach(t, p0),
    ensures
        reach(t, p) <= reach(t, p0),
{
}

proof fn lemma_not_eof(t: Seq<TokenView>, p: int)
    requires
        t.len() >= 1,
        t.last().ty == LexTokenType::EOF,
        0 <= p,
        ty_at(t, p) != LexTokenType::EOF,
    ensures
        p + 1 < t.len(),
{
}

pub struct Parser {
    tokens: Vec<LexToken>,
    pos: usize,
    checkpoint: usize,
}

impl Parser {
    /// The tokens being parsed.
    pub closed spec fn toks(&self) -> Seq<TokenView> {
        token_views(self.tokens@)
    }

    /// The position of the current token.
    pub closed spec fn position(&self) -> int {
        self.pos as int
    }

    /// The position that a failed statement attempt returns to.
    pub closed spec fn saved(&self) -> int {
        self.checkpoint as int
    }

    pub closed spec fn wf(&self) -> bool {
        &&& self.tokens@.len() >= 1
        &&& self.tokens@.last().ty == LexTokenType::EOF
        &&& 2 * self.tokens@.len() < usize::MAX
        &&& self.pos <= 2 * self.tokens@.len()
        &&& self.checkpoint <= 2 * self.tokens@.len()
    }

    /// What every parsing routine keeps: the tokens, and a position that moves forward
    /// within reach.
    pub closed spec fn moves(a: &Parser, b: &Parser) -> bool {
        &&& b.wf()
        &&& b.tokens == a.tokens
        &&& a.pos <= b.pos <= reach(a.toks(), a.pos as int)
    }

    /// The routine read the token at its start, which was not the end of input.
    pub closed spec fn consumed(a: &Parser, b: &Parser) -> bool {
        &&& a.pos + 1 < a.tokens@.len()
        &&& a.pos < b.pos
    }

    proof fn lemma_views(&self)
        requires
            self.wf(),
        ensures
            self.toks().len() == self.tokens@.len(),
            forall|i: int| 0 <= i < self.tokens@.len() ==> #[trigger] self.toks()[i] == self.tokens@[i]@,
            self.toks().last().ty == LexTokenType::EOF,
    {
    }

    /// A parser over the tokens of `s`; `None` where `s` cannot be tokenized.
    pub fn try_new(s: &str) -> (p: Option<Self>)
        requires
            s@.len() < usize::MAX / 4,
        ensures
            p is None <==> lex(s@) is None,
            p is Some ==> p.unwrap().wf() && p.unwrap().toks() == lex(s@).unwrap() && p.unwrap().position() == 0
                && p.unwrap().saved() == 0,
    {
        let mut lexer = Lexer::new(s);
        let tokens = lexer.try_read()?;
        proof {
            crate::lexer::lemma_lex_shape(s@, 0);
        }
        Some(Self { tokens, pos: 0, checkpoint: 0 })
    }

    pub fn new(s: &str) -> (p: Self)
        requires
            s@.len() < usize::MAX / 4,
            lex(s@) is Some,
        ensures
            p.wf(),
            p.toks() == lex(s@).unwrap(),
            p.position() == 0,
            p.saved() == 0,
    {
        Self::try_new(s).unwrap()
    }

    fn set_pos(&mut self, pos: usize)
        ensures
            final(self).tokens == old(self).tokens,
            final(self).checkpoint == old(self).checkpoint,
            final(self).pos == pos,
    {
        self.pos = pos;
    }

    fn set_checkpoint(&mut self, pos: usize)
        ensures
            final(self).tokens == old(self).tokens,
            final(self).pos == old(self).pos,
            final(self).checkpoint == pos,
    {
        self.checkpoint = pos;
    }

    fn return_checkpoint(&mut self)
        ensures
            final(self).tokens == old(self).tokens,
            final(self).checkpoint == old(self).checkpoint,
            final(self).pos == old(self).checkpoint,
    {
        self.set_pos(self.checkpoint);
    }

    fn token_at(&self, pos: usize) -> (t: &LexToken)
        requires
            self.wf(),
        ensures
            t@ == token_at(self.toks(), pos as int),
    {
        proof {
            self.lemma_views();
        }
        if pos >= self.tokens.len() {
            return &self.tokens[self.tokens.len() - 1];
        }
        &self.tokens[pos]
    }

    fn current(&self) -> (t: &LexToken)
        requires
            self.wf(),
        ensures
            t@ == token_at(self.toks(), self.pos as int),
    {
        self.token_at(self.pos)
    }

    fn read(&mut self)
        requires
            old(self).wf(),
            old(self).pos < 2 * old(self).tokens@.len(),
        ensures
            final(self).wf(),
            final(self).tokens == old(self).tokens,
            final(self).checkpoint == old(self).checkpoint,
            final(self).pos == old(self).pos + 1,
    {
        self.pos += 1;
    }

    fn peek(&self) -> (t: &LexToken)
        requires
            self.wf(),
        ensures
            t@ == token_at(self.toks(), self.pos + 1),
    {
        self.token_at(self.pos + 1)
    }

    /// Reads the current token when it has type `ty`.
    fn try_predict_current(&mut self, ty: LexTokenType) -> (found: bool)
        requires
            old(self).wf(),
            ty != LexTokenType::EOF,
        ensures
            final(self).wf(),
            final(self).tokens == old(self).tokens,
            final(self).checkpoint == old(self).checkpoint,
            found == (ty_at(old(self).toks(), old(self).pos as int) == ty),
            found ==> final(self).pos == old(self).pos + 1 && old(self).pos + 1 < old(self).tokens@.len(),
            !found ==> final(self).pos == old(self).pos,
    {
        if self.current().ty == ty {
            proof {
                self.lemma_views();
                lemma_not_eof(self.toks(), self.pos as int);
            }
            self.read();
            true
        } else {
            false
        }
    }

    /// Reads the current token when the next one has type `ty`.
    fn try_parse_peek(&mut self, ty: LexTokenType) -> (found: bool)
        requires
            old(self).wf(),
            ty != LexTokenType::EOF,
        ensures
            final(self).wf(),
            final(self).tokens == old(self).tokens,
            final(self).checkpoint == old(self).checkpoint,
            found == (ty_at(old(self).toks(), old(self).pos + 1) == ty),
            found ==> final(self).pos == old(self).pos + 1 && old(self).pos + 2 < old(self).tokens@.len(),
            !found ==> final(self).pos == old(self).pos,
    {
        if self.peek().ty == ty {
            proof {
                self.lemma_views();
                lemma_not_eof(self.toks(), self.pos + 1);
            }
            self.read();
            true
        } else {
            false
        }
    }

    fn try_parse_identifier(&mut self) -> (id: Option<ASTIdentifier>)
        requires
            old(self).wf(),
        ensures
            Self::moves(old(self), final(self)),
            final(self).checkpoint == old(self).checkpoint,
            (final(self).pos as int, opt_ident_view(id)) == s_try_parse_identifier(old(self).toks(), old(self).pos as int),
            id is Some ==> Self::consumed(old(self), final(self)),
    {
        let current = self.current();

        match current.ty {
            LexTokenType::Identifier => {
                let literal = current.literal.clone();
                proof {
                    self.lemma_views();
                    lemma_not_eof(self.toks(), self.pos as int);
                }
                self.read();

                Some(ASTIdentifier { literal })
            },
            _ => None,
        }
    }

    fn prefix_binding_power(&self, ty: ASTUnaryType) -> (bp: u8)
        ensures
            bp == prefix_bp(ty),
    {
        match ty {
            ASTUnaryType::Plus | ASTUnaryType::Minus | ASTUnaryType::Negation | ASTUnaryType::PreDec
            | ASTUnaryType::PreInc => 12,
            _ => 0,
        }
    }

    fn infix_binding_power(&self, ty: LexTokenType) -> (bp: (u8, u8))
        ensures
            bp == infix_bp(ty),
    {
        match ty {
            LexTokenType::Assign => (2, 1),
            LexTokenType::LessThan | LexTokenType::BiggerThan | LexTokenType::LessEqual => (3, 4),
            LexTokenType::Question => (4, 3),
            LexTokenType::Plus | LexTokenType::Minus => (5, 6),
            LexTokenType::Asterisk | LexTokenType::Div => (7, 8),
            LexTokenType::LParen => (13, 2),
            LexTokenType::LSquare => (13, 13),
            _ => (0, 0),
        }
    }

    fn is_infix_operator(ty: LexTokenType) -> (b: bool)
        ensures
            b == is_infix_operator(ty),
    {
        match ty {
            LexTokenType::Plus | LexTokenType::Minus | LexTokenType::Asterisk | LexTokenType::Div
            | LexTokenType::LessThan | LexTokenType::BiggerThan | LexTokenType::LessEqual
            | LexTokenType::Assign | LexTokenType::LSquare | LexTokenType::Question | LexTokenType::LParen => true,
            _ => false,
        }
    }

    fn parse_unary(&mut self, ty: ASTUnaryType) -> (res: Option<ASTExpression>)
        requires
            old(self).wf(),
            old(self).pos + 1 < old(self).tokens@.len(),
        ensures
            Self::moves(old(self), final(self)),
            final(self).checkpoint == old(self).checkpoint,
            final(self).pos < reach(old(self).toks(), old(self).pos as int),
            old(self).pos < final(self).pos,
            (final(self).pos as int, opt_expr_view(res)) == s_parse_unary(old(self).toks(), old(self).pos as int, ty),
        decreases measure(old(self).toks(), old(self).pos as int), 4int,
    {
        proof {
            self.lemma_views();
        }
        self.read();
        let bp = self.prefix_binding_power(ty);
        let expr = self.parse_expression(bp)?;

        Some(ASTExpression::Unary(ASTUnary { ty, expr: Box::new(expr) }))
    }

    fn parse_prefix(&mut self) -> (res: Option<ASTExpression>)
        requires
            old(self).wf(),
        ensures
            Self::moves(old(self), final(self)),
            final(self).checkpoint == old(self).checkpoint,
            (final(self).pos as int, opt_expr_view(res)) == s_parse_prefix(old(self).toks(), old(self).pos as int),
            res is Some ==> Self::consumed(old(self), final(self)),
        decreases measure(old(self).toks(), old(self).pos as int), 5int,
    {
        proof {
            self.lemma_views();
        }
        let ghost t = self.toks();
        let ghost p0 = self.pos as int;
        let ty = self.current().ty;
        if ty != LexTokenType::EOF {
            proof {
                lemma_not_eof(t, p0);
            }
        }
        match ty {
            LexTokenType::Identifier => {
                let literal = self.current().literal.clone();
                self.read();
                Some(ASTExpression::Identifier(ASTIdentifier { literal }))
            },
            LexTokenType::Numeral => {
                let literal = self.current().literal.clone();
                self.read();
                Some(ASTExpression::Numeral(ASTNumeral { literal }))
            },
            LexTokenType::Negation => self.parse_unary(ASTUnaryType::Negation),
            LexTokenType::Plus => self.parse_unary(ASTUnaryType::Plus),
            LexTokenType::Minus => self.parse_unary(ASTUnaryType::Minus),
            LexTokenType::PlusPlus => self.parse_unary(ASTUnaryType::PreInc),
            LexTokenType::MinusMinus => self.parse_unary(ASTUnaryType::PreDec),
            _ => None,
        }
    }

    fn parse_binary_expression(&mut self, lhs: ASTExpression, min_bp: u8, ty: ASTBinaryType) -> (res: Option<ASTExpression>)
        requires
            old(self).wf(),
            old(self).pos + 1 < old(self).tokens@.len(),
        ensures
            Self::moves(old(self), final(self)),
            final(self).checkpoint == old(self).checkpoint,
            old(self).pos < final(self).pos,
            (final(self).pos as int, opt_expr_view(res)) == s_parse_binary(old(self).toks(), old(self).pos as int, lhs@, min_bp, ty),
        decreases measure(old(self).toks(), old(self).pos as int), 6int,
    {
        proof {
            self.lemma_views();
        }
        self.read();
        let rhs = self.parse_expression(min_bp)?;

        Some(ASTExpression::Binary(ASTBinary { ty, left: Box::new(lhs), right: Box::new(rhs) }))
    }

    fn parse_indexing_expression(&mut self, lhs: ASTExpression, min_bp: u8) -> (res: Option<ASTExpression>)
        requires
            old(self).wf(),
            old(self).pos + 1 < old(self).tokens@.len(),
        ensures
            Self::moves(old(self), final(self)),
            final(self).checkpoint == old(self).checkpoint,
            old(self).pos < final(self).pos,
            (final(self).pos as int, opt_expr_view(res)) == s_parse_indexing(old(self).toks(), old(self).pos as int, lhs@, min_bp),
        decreases measure(old(self).toks(), old(self).pos as int), 6int,
    {
        proof {
            self.lemma_views();
        }
        let ghost p0 = self.pos as int;
        self.read();
        proof {
            lemma_reach_mono(self.toks(), p0, p0 + 1);
        }
        let rhs = self.parse_expression(min_bp)?;

        if !self.try_predict_current(LexTokenType::RSquare) {
            return None;
        }

        Some(ASTExpression::Binary(ASTBinary { ty: ASTBinaryType::Indexing, left: Box::new(lhs), right: Box::new(rhs) }))
    }

    fn parse_conditional_expression(&mut self, lhs: ASTExpression, min_bp: u8) -> (res: Option<ASTExpression>)
        requires
            old(self).wf(),
            old(self).pos + 1 < old(self).tokens@.len(),
        ensures
            Self::moves(old(self), final(self)),
            final(self).checkpoint == old(self).checkpoint,
            old(self).pos < final(self).pos,
            (final(self).pos as int, opt_expr_view(res)) == s_parse_conditional(old(self).toks(), old(self).pos as int, lhs@, min_bp),
        decreases measure(old(self).toks(), old(self).pos as int), 6int,
    {
        proof {
            self.lemma_views();
        }
        let ghost p0 = self.pos as int;
        self.read();
        proof {
            lemma_reach_mono(self.toks(), p0, p0 + 1);
        }

        let then_expr = self.parse_expression(min_bp)?;
        let ghost p1 = self.pos as int;
        if !self.try_predict_current(LexTokenType::Colon) {
            return None;
        }
        proof {
            lemma_reach_mono(self.toks(), p0, p1 + 1);
        }

        let or = self.parse_expression(min_bp)?;

        Some(ASTExpression::Conditional(ASTConditional { cond: Box::new(lhs), then_expr: Box::new(then_expr), or: Box::new(or) }))
    }

    fn parse_invocation_expression(&mut self, lhs: ASTExpression, min_bp: u8) -> (res: Option<ASTExpression>)
        requires
            old(self).wf(),
            old(self).pos + 1 < old(self).tokens@.len(),
        ensures
            Self::moves(old(self), final(self)),
            final(self).checkpoint == old(self).checkpoint,
            old(self).pos < final(self).pos,
            (final(self).pos as int, opt_expr_view(res)) == s_parse_invocation(old(self).toks(), old(self).pos as int, lhs@, min_bp),
        decreases measure(old(self).toks(), old(self).pos as int), 6int,
    {
        proof {
            self.lemma_views();
        }
        let ghost t = self.toks();
        let ghost p0 = self.pos as int;
        self.read();

        let mut params: Vec<ASTExpression> = Vec::new();
        let ghost target = s_invocation_args(t, p0 + 1, Seq::empty(), min_bp);
        assert(exprs_view(params@) =~= Seq::<ExprView>::empty());

        loop
            invariant_except_break
                self.wf(),
                self.tokens == old(self).tokens,
                self.toks() == t,
                t == old(self).toks(),
                p0 == old(self).pos,
                p0 + 1 < t.len(),
                target == s_invocation_args(t, p0 + 1, Seq::empty(), min_bp),
                self.checkpoint == old(self).checkpoint,
                p0 < self.pos <= reach(t, p0),
                s_invocation_args(t, self.pos as int, exprs_view(params@), min_bp) == target,
            ensures
                self.wf(),
                self.tokens == old(self).tokens,
                self.checkpoint == old(self).checkpoint,
                p0 < self.pos <= reach(t, p0),
                target == (self.pos as int, Some(exprs_view(params@))),
            decreases measure(t, self.pos as int),
        {
            let ghost q = self.pos as int;
            if self.try_predict_current(LexTokenType::RParen) {
                proof {
                    lemma_reach_mono(t, p0, q);
                }
                break;
            }
            proof {
                lemma_reach_mono(t, p0, q);
            }
            let e = match self.parse_expression(min_bp) {
                Some(e) => e,
                None => {
                    return None;
                },
            };
            proof {
                lemma_exprs_view_push(params@, e);
            }
            let ghost q1 = self.pos as int;
            params.push(e);
            if !self.try_predict_current(LexTokenType::Comma) {
                if !self.try_predict_current(LexTokenType::RParen) {
                    return None;
                }
                proof {
                    lemma_reach_mono(t, p0, q1);
                }
                break;
            }
            proof {
                lemma_reach_mono(t, p0, q1);
            }
        }

        Some(ASTExpression::Invocation(ASTInvocation { left: Box::new(lhs), params: params }))
    }

    fn parse_infix_expression(&mut self, lhs: ASTExpression, min_bp: u8, ty: LexTokenType) -> (res: Option<ASTExpression>)
        requires
            old(self).wf(),
            ty == ty_at(old(self).toks(), old(self).pos as int),
        ensures
            Self::moves(old(self), final(self)),
            final(self).checkpoint == old(self).checkpoint,
            is_infix_operator(ty) ==> old(self).pos < final(self).pos,
            (final(self).pos as int, opt_expr_view(res)) == s_parse_infix(old(self).toks(), old(self).pos as int, lhs@, min_bp, ty),
        decreases measure(old(self).toks(), old(self).pos as int), 7int,
    {
        proof {
            self.lemma_views();
            if ty != LexTokenType::EOF {
                lemma_not_eof(self.toks(), self.pos as int);
            }
        }
        match ty {
            LexTokenType::Plus => self.parse_binary_expression(lhs, min_bp, ASTBinaryType::Add),
            LexTokenType::Minus => self.parse_binary_expression(lhs, min_bp, ASTBinaryType::Sub),
            LexTokenType::Asterisk => self.parse_binary_expression(lhs, min_bp, ASTBinaryType::Mult),
            LexTokenType::Div => self.parse_binary_expression(lhs, min_bp, ASTBinaryType::Div),
            LexTokenType::LessThan => self.parse_binary_expression(lhs, min_bp, ASTBinaryType::LessThan),
            LexTokenType::BiggerThan => self.parse_binary_expression(lhs, min_bp, ASTBinaryType::BiggerThan),
            LexTokenType::LessEqual => self.parse_binary_expression(lhs, min_bp, ASTBinaryType::LessEqual),
            LexTokenType::Assign => self.parse_binary_expression(lhs, min_bp, ASTBinaryType::Assignment),
            LexTokenType::LSquare => self.parse_indexing_expression(lhs, min_bp),
            LexTokenType::Question => self.parse_conditional_expression(lhs, min_bp),
            LexTokenType::LParen => self.parse_invocation_expression(lhs, min_bp),
            _ => Some(ASTExpression::Null),
        }
    }

    fn get_default_signedness(&self, ty: ASTDataType) -> (signed: bool)
        ensures
            signed,
    {
        true
    }

    /// Parses a data type such as `unsigned long long int`.
    pub fn try_parse_type(&mut self) -> (res: Option<ASTData>)
        requires
            old(self).wf(),
        ensures
            Self::moves(old(self), final(self)),
            final(self).saved() == old(self).saved(),
            (final(self).position(), res) == s_try_parse_type(old(self).toks(), old(self).position()),
            res is Some ==> Self::consumed(old(self), final(self)),
    {
        proof {
            self.lemma_views();
        }
        let ghost t = self.toks();
        let ghost p0 = self.pos as int;
        let explicit_signed: Option<bool> = if self.try_predict_current(LexTokenType::Signed) {
            Some(true)
        } else if self.try_predict_current(LexTokenType::Unsigned) {
            Some(false)
        } else {
            None
        };
        let ghost p1 = self.pos as int;

        let cur = self.current().ty;
        if cur != LexTokenType::EOF {
            proof {
                lemma_not_eof(t, p1);
            }
        }
        let ty = match cur {
            LexTokenType::Void => ASTDataType::Void,
            LexTokenType::Char => ASTDataType::Char,
            LexTokenType::Short => ASTDataType::Short,
            LexTokenType::Int => ASTDataType::Int,
            LexTokenType::Long => {
                if self.try_parse_peek(LexTokenType::Long) {
                    ASTDataType::LongLong
                } else {
                    ASTDataType::Long
                }
            },
            LexTokenType::Float => ASTDataType::Float,
            LexTokenType::Double => ASTDataType::Double,
            _ => {
                if explicit_signed.is_some() {
                    ASTDataType::Int
                } else {
                    return None;
                }
            },
        };

        if explicit_signed.is_none() || self.current().ty != LexTokenType::Identifier {
            self.read();
        }

        if ty == ASTDataType::Short || ty == ASTDataType::Long || ty == ASTDataType::LongLong {
            let _ = self.try_predict_current(LexTokenType::Int);
        }

        let signed = match explicit_signed {
            Some(b) => b,
            None => self.get_default_signedness(ty),
        };

        Some(ASTData { signed, ty })
    }

    /// Parses a parenthesized list of parameters such as `(int a, char b)`.
    pub fn try_parse_func_params(&mut self) -> (res: Option<Vec<ASTFuncParam>>)
        requires
            old(self).wf(),
        ensures
            Self::moves(old(self), final(self)),
            final(self).saved() == old(self).saved(),
            (final(self).position(), opt_params_view(res)) == s_try_parse_func_params(old(self).toks(), old(self).position()),
            res is Some ==> Self::consumed(old(self), final(self)),
    {
        proof {
            self.lemma_views();
        }
        let ghost t = self.toks();
        let ghost p0 = self.pos as int;
        if !self.try_predict_current(LexTokenType::LParen) {
            return None;
        }
        let mut params: Vec<ASTFuncParam> = Vec::new();
        assert(params_view(params@) =~= Seq::<ParamView>::empty());

        if self.try_predict_current(LexTokenType::RParen) {
            return Some(params);
        }
        let ghost target = s_params_tail(t, p0 + 1, Seq::empty());

        loop
            invariant_except_break
                self.wf(),
                self.tokens == old(self).tokens,
                self.toks() == t,
                t == old(self).toks(),
                p0 == old(self).pos,
                p0 + 1 < t.len(),
                ty_at(t, p0) == LexTokenType::LParen,
                ty_at(t, p0 + 1) != LexTokenType::RParen,
                target == s_params_tail(t, p0 + 1, Seq::empty()),
                self.checkpoint == old(self).checkpoint,
                p0 < self.pos <= reach(t, p0),
                s_params_tail(t, self.pos as int, params_view(params@)) == target,
            ensures
                self.wf(),
                self.tokens == old(self).tokens,
                self.checkpoint == old(self).checkpoint,
                p0 < self.pos <= reach(t, p0),
                p0 + 1 < t.len(),
                s_try_parse_func_params(t, p0) == (self.pos as int, Some(params_view(params@))),
            decreases measure(t, self.pos as int),
        {
            let ghost q = self.pos as int;
            proof {
                lemma_reach_mono(t, p0, q);
            }
            let ty = match self.try_parse_type() {
                Some(ty) => ty,
                None => return None,
            };
            let ghost q1 = self.pos as int;
            proof {
                lemma_reach_mono(t, p0, q1);
            }
            let name = match self.try_parse_identifier() {
                Some(name) => name,
                None => return None,
            };
            let ghost q2 = self.pos as int;
            proof {
                lemma_reach_mono(t, p0, q2);
            }
            let param = ASTFuncParam { ty, name };
            let ghost before = params@;
            params.push(param);
            assert(params_view(params@) =~= params_view(before).push(ParamView { ty, name: param.name.literal@ }));

            if !self.try_predict_current(LexTokenType::Comma) {
                if !self.try_predict_current(LexTokenType::RParen) {
                    return None;
                }
                break;
            }
        }

        Some(params)
    }

    fn try_parse_expression_statement(&mut self) -> (res: Option<ASTNode>)
        requires
            old(self).wf(),
        ensures
            Self::moves(old(self), final(self)),
            final(self).checkpoint == old(self).checkpoint,
            (final(self).pos as int, opt_node_view(res)) == s_try_parse_expression_statement(old(self).toks(), old(self).pos as int),
            res is Some ==> Self::consumed(old(self), final(self)),
    {
        let ghost t = self.toks();
        let ghost p0 = self.pos as int;
        let expr = self.parse_expression(0)?;
        if !self.try_predict_current(LexTokenType::Semi) {
            return None;
        }

        Some(ASTNode::new(ASTNodeType::Expression(expr)))
    }

    fn try_parse_var(&mut self) -> (res: Option<ASTNode>)
        requires
            old(self).wf(),
        ensures
            Self::moves(old(self), final(self)),
            final(self).checkpoint == old(self).checkpoint,
            (final(self).pos as int, opt_node_view(res)) == s_try_parse_var(old(self).toks(), old(self).pos as int),
            res is Some ==> Self::consumed(old(self), final(self)),
    {
        let ghost t = self.toks();
        let ghost p0 = self.pos as int;
        let ty = self.try_parse_type()?;
        let ghost p1 = self.pos as int;
        proof {
            lemma_reach_mono(t, p0, p1);
        }
        let name = self.try_parse_identifier()?;
        let ghost p2 = self.pos as int;
        proof {
            lemma_reach_mono(t, p0, p2);
        }

        let initializer = if self.try_predict_current(LexTokenType::Assign) {
            proof {
                lemma_reach_mono(t, p0, p2 + 1);
            }
            match self.parse_expression(0) {
                Some(e) => Some(e),
                None => return None,
            }
        } else {
            None
        };
        let ghost p3 = self.pos as int;
        proof {
            lemma_reach_mono(t, p0, p3);
        }

        if !self.try_predict_current(LexTokenType::Semi) {
            return None;
        }

        Some(ASTNode::new(ASTNodeType::Var(ASTVar { ty, name, initializer })))
    }

    /// The checkpoint is kept, or it is a position between the start and the end.
    pub closed spec fn keeps_checkpoint(a: &Parser, b: &Parser) -> bool {
        b.checkpoint == a.checkpoint || a.pos <= b.checkpoint <= b.pos
    }

    fn try_parse_block(&mut self) -> (res: Option<Option<Vec<ASTNode>>>)
        requires
            old(self).wf(),
        ensures
            Self::moves(old(self), final(self)),
            Self::keeps_checkpoint(old(self), final(self)),
            stmt_matches(
                s_try_parse_block(old(self).toks(), old(self).pos as int, old(self).checkpoint as int),
                opt_opt_nodes_view(res),
                final(self).pos as int,
                final(self).checkpoint as int,
            ),
            res matches Some(Some(_)) ==> Self::consumed(old(self), final(self)),
        decreases measure(old(self).toks(), old(self).pos as int), 2int,
    {
        let ghost t = self.toks();
        let ghost p0 = self.pos as int;
        let ghost c0 = self.checkpoint as int;
        if !self.try_predict_current(LexTokenType::LBrace) {
            return Some(None);
        }

        let mut body: Vec<ASTNode> = Vec::new();
        assert(nodes_view(body@) =~= Seq::<NodeView>::empty());
        let ghost target = s_try_parse_block(t, p0, c0);

        loop
            invariant_except_break
                self.wf(),
                self.tokens == old(self).tokens,
                self.toks() == t,
                t == old(self).toks(),
                p0 == old(self).pos,
                c0 == old(self).checkpoint,
                p0 + 1 < t.len(),
                target == s_try_parse_block(t, p0, c0),
                p0 < self.pos <= reach(t, p0),
                self.checkpoint == c0 || p0 <= self.checkpoint <= self.pos,
                s_block_tail(t, self.pos as int, self.checkpoint as int, nodes_view(body@)) == target,
            ensures
                self.wf(),
                self.tokens == old(self).tokens,
                p0 < self.pos <= reach(t, p0),
                p0 + 1 < t.len(),
                self.checkpoint == c0 || p0 <= self.checkpoint <= self.pos,
                target == Some((self.pos as int, self.checkpoint as int, Some(nodes_view(body@)))),
            decreases measure(t, self.pos as int),
        {
            let ghost q = self.pos as int;
            proof {
                lemma_reach_mono(t, p0, q);
            }
            if self.try_predict_current(LexTokenType::RBrace) {
                break;
            }
            let node = match self.parse_current() {
                Some(n) => n,
                None => {
                    return None;
                },
            };
            if matches!(node.ty, ASTNodeType::EOF) {
                return Some(None);
            }
            let ghost before = body@;
            body.push(node);
            proof {
                lemma_nodes_view_push(before, node);
            }
        }

        Some(Some(body))
    }

    fn try_parse_func(&mut self) -> (res: Option<Option<ASTNode>>)
        requires
            old(self).wf(),
        ensures
            Self::moves(old(self), final(self)),
            Self::keeps_checkpoint(old(self), final(self)),
            stmt_matches(
                s_try_parse_func(old(self).toks(), old(self).pos as int, old(self).checkpoint as int),
                opt_opt_node_view(res),
                final(self).pos as int,
                final(self).checkpoint as int,
            ),
            res matches Some(Some(_)) ==> Self::consumed(old(self), final(self)),
        decreases measure(old(self).toks(), old(self).pos as int), 3int,
    {
        let ghost t = self.toks();
        let ghost p0 = self.pos as int;
        let ty = match self.try_parse_type() {
            Some(ty) => ty,
            None => return Some(None),
        };
        let ghost p1 = self.pos as int;
        proof {
            lemma_reach_mono(t, p0, p1);
        }
        let name = match self.try_parse_identifier() {
            Some(name) => name,
            None => return Some(None),
        };
        let ghost p2 = self.pos as int;
        proof {
            lemma_reach_mono(t, p0, p2);
        }
        let params = match self.try_parse_func_params() {
            Some(params) => params,
            None => return Some(None),
        };
        let ghost p3 = self.pos as int;
        proof {
            lemma_reach_mono(t, p0, p3);
        }
        let body = match self.try_parse_block() {
            None => return None,
            Some(None) => return Some(None),
            Some(Some(body)) => body,
        };

        Some(Some(ASTNode::new(ASTNodeType::Func(ASTFunc { ty, name, params, body }))))
    }

    fn try_parse_statement_block(&mut self) -> (res: Option<Option<Vec<ASTNode>>>)
        requires
            old(self).wf(),
        ensures
            Self::moves(old(self), final(self)),
            Self::keeps_checkpoint(old(self), final(self)),
            stmt_matches(
                s_try_parse_statement_block(old(self).toks(), old(self).pos as int, old(self).checkpoint as int),
                opt_opt_nodes_view(res),
                final(self).pos as int,
                final(self).checkpoint as int,
            ),
        decreases measure(old(self).toks(), old(self).pos as int), 5int,
    {
        if self.current().ty == LexTokenType::LBrace {
            self.try_parse_block()
        } else {
            let node = match self.parse_current() {
                Some(n) => n,
                None => {
                    return None;
                },
            };
            let mut body: Vec<ASTNode> = Vec::new();
            body.push(node);
            proof {
                lemma_nodes_view_push(Seq::empty(), node);
                assert(Seq::<ASTNode>::empty().push(node) =~= body@);
                assert(nodes_view(Seq::<ASTNode>::empty()) =~= Seq::<NodeView>::empty());
                assert(nodes_view(body@) =~= seq![node@]);
            }
            Some(Some(body))
        }
    }

    fn try_parse_while(&mut self) -> (res: Option<Option<ASTNode>>)
        requires
            old(self).wf(),
        ensures
            Self::moves(old(self), final(self)),
            Self::keeps_checkpoint(old(self), final(self)),
            stmt_matches(
                s_try_parse_while(old(self).toks(), old(self).pos as int, old(self).checkpoint as int),
                opt_opt_node_view(res),
                final(self).pos as int,
                final(self).checkpoint as int,
            ),
            res matches Some(Some(_)) ==> Self::consumed(old(self), final(self)),
        decreases measure(old(self).toks(), old(self).pos as int), 3int,
    {
        let ghost t = self.toks();
        let ghost p0 = self.pos as int;
        if !self.try_predict_current(LexTokenType::While) {
            return Some(None);
        }
        if !self.try_predict_current(LexTokenType::LParen) {
            return Some(None);
        }
        proof {
            lemma_reach_mono(t, p0, p0 + 2);
        }

        let cond = match self.parse_expression(0) {
            Some(c) => c,
            None => return Some(None),
        };
        let ghost p2 = self.pos as int;

        if !self.try_predict_current(LexTokenType::RParen) {
            return Some(None);
        }
        proof {
            lemma_reach_mono(t, p0, p2 + 1);
        }

        let body = match self.try_parse_statement_block() {
            None => return None,
            Some(None) => return Some(None),
            Some(Some(body)) => body,
        };

        Some(Some(ASTNode::new(ASTNodeType::While(ASTWhile { cond, body }))))
    }

    fn try_parse_if(&mut self) -> (res: Option<Option<ASTNode>>)
        requires
            old(self).wf(),
        ensures
            Self::moves(old(self), final(self)),
            Self::keeps_checkpoint(old(self), final(self)),
            stmt_matches(
                s_try_parse_if(old(self).toks(), old(self).pos as int, old(self).checkpoint as int),
                opt_opt_node_view(res),
                final(self).pos as int,
                final(self).checkpoint as int,
            ),
            res matches Some(Some(_)) ==> Self::consumed(old(self), final(self)),
        decreases measure(old(self).toks(), old(self).pos as int), 3int,
    {
        let ghost t = self.toks();
        let ghost p0 = self.pos as int;
        if !self.try_predict_current(LexTokenType::If) {
            return Some(None);
        }
        if !self.try_predict_current(LexTokenType::LParen) {
            return Some(None);
        }
        proof {
            lemma_reach_mono(t, p0, p0 + 2);
        }

        let cond = match self.parse_expression(0) {
            Some(c) => c,
            None => return Some(None),
        };
        let ghost p2 = self.pos as int;

        if !self.try_predict_current(LexTokenType::RParen) {
            return Some(None);
        }
        proof {
            lemma_reach_mono(t, p0, p2 + 1);
        }

        let then_body = match self.try_parse_statement_block() {
            None => return None,
            Some(None) => return Some(None),
            Some(Some(body)) => body,
        };
        let ghost p3 = self.pos as int;
        proof {
            lemma_reach_mono(t, p0, p3);
        }
        let else_body = if self.try_predict_current(LexTokenType::Else) {
            proof {
                lemma_reach_mono(t, p0, p3 + 1);
            }
            match self.try_parse_statement_block() {
                None => return None,
                Some(None) => return Some(None),
                Some(Some(body)) => body,
            }
        } else {
            let v: Vec<ASTNode> = Vec::new();
            assert(nodes_view(v@) =~= Seq::<NodeView>::empty());
            v
        };

        Some(Some(ASTNode::new(ASTNodeType::If(ASTIf { cond, then_body, else_body }))))
    }

    fn try_parse_return(&mut self) -> (res: Option<ASTNode>)
        requires
            old(self).wf(),
        ensures
            Self::moves(old(self), final(self)),
            final(self).checkpoint == old(self).checkpoint,
            (final(self).pos as int, opt_node_view(res)) == s_try_parse_return(old(self).toks(), old(self).pos as int),
            res is Some ==> Self::consumed(old(self), final(self)),
    {
        let ghost t = self.toks();
        let ghost p0 = self.pos as int;
        if !self.try_predict_current(LexTokenType::Return) {
            return None;
        }
        if self.try_predict_current(LexTokenType::Semi) {
            return Some(ASTNode::new(ASTNodeType::Return(ASTReturn { value: None })));
        }
        proof {
            lemma_reach_mono(t, p0, p0 + 1);
        }
        let e = self.parse_expression(0)?;
        let ghost p1 = self.pos as int;
        proof {
            lemma_reach_mono(t, p0, p1);
        }
        if !self.try_predict_current(LexTokenType::Semi) {
            return None;
        }
        Some(ASTNode::new(ASTNodeType::Return(ASTReturn { value: Some(e) })))
    }

    /// Parses one statement; `None` where the parse cannot complete (a `while`, `if`
    /// or `return` that does not parse).
    fn parse_current(&mut self) -> (node: Option<ASTNode>)
        requires
            old(self).wf(),
        ensures
            Self::moves(old(self), final(self)),
            Self::keeps_checkpoint(old(self), final(self)),
            stmt_matches(
                s_parse_current(old(self).toks(), old(self).pos as int, old(self).checkpoint as int),
                opt_node_view(node),
                final(self).pos as int,
                final(self).checkpoint as int,
            ),
            node matches Some(n) && !(n@ is EOF) ==> Self::consumed(old(self), final(self)),
        decreases measure(old(self).toks(), old(self).pos as int), 4int,
    {
        let ghost t = self.toks();
        let ghost p0 = self.pos as int;
        match self.current().ty {
            LexTokenType::While => {
                return match self.try_parse_while() {
                    Some(Some(n)) => Some(n),
                    _ => None,
                };
            },
            LexTokenType::If => {
                return match self.try_parse_if() {
                    Some(Some(n)) => Some(n),
                    _ => None,
                };
            },
            LexTokenType::Return => {
                return self.try_parse_return();
            },
            LexTokenType::EOF => return Some(ASTNode::new(ASTNodeType::EOF)),
            _ => (),
        };

        self.set_checkpoint(self.pos);
        if let Some(node) = self.try_parse_var() {
            return Some(node);
        }
        self.return_checkpoint();
        match self.try_parse_func() {
            None => {
                return None;
            },
            Some(Some(node)) => {
                return Some(node);
            },
            Some(None) => {},
        }
        self.return_checkpoint();
        let ghost c2 = self.checkpoint as int;
        proof {
            lemma_reach_mono(t, p0, c2);
        }
        if let Some(node) = self.try_parse_expression_statement() {
            return Some(node);
        }

        Some(ASTNode::new(ASTNodeType::EOF))
    }

    /// Whether parsing from here reads a whole program: every statement completes
    /// and moves forward.
    pub open spec fn parse_completes(&self) -> bool {
        s_parse_program(self.toks(), self.position(), self.saved(), Seq::empty()) is Some
    }

    /// Parses the statements up to the end of input into a root node; `None` where a
    /// statement does not complete or one reads nothing (the loop would not end).
    pub fn try_parse(&mut self) -> (root: Option<ASTNode>)
        requires
            old(self).wf(),
        ensures
            final(self).wf(),
            root is None <==> !old(self).parse_completes(),
            root is Some ==> root.unwrap()@ == NodeView::Root(
                s_parse_program(old(self).toks(), old(self).position(), old(self).saved(), Seq::empty()).unwrap(),
            ),
    {
        let ghost t = self.toks();
        let ghost target = s_parse_program(t, self.pos as int, self.checkpoint as int, Seq::empty());
        let mut root = ASTRoot { statements: Vec::new() };
        assert(nodes_view(root.statements@) =~= Seq::<NodeView>::empty());

        while self.current().ty != LexTokenType::EOF
            invariant
                self.wf(),
                self.toks() == t,
                target == s_parse_program(t, old(self).pos as int, old(self).checkpoint as int, Seq::empty()),
                t == old(self).toks(),
                s_parse_program(t, self.pos as int, self.checkpoint as int, nodes_view(root.statements@)) == target,
            decreases measure(t, self.pos as int),
        {
            let before_pos = self.pos;
            let cur = match self.parse_current() {
                Some(n) => n,
                None => {
                    return None;
                },
            };
            if self.pos <= before_pos {
                return None;
            }
            let ghost before = root.statements@;
            root.statements.push(cur);
            proof {
                self.lemma_views();
                lemma_nodes_view_push(before, cur);
            }
        }

        Some(ASTNode::new(ASTNodeType::Root(root)))
    }

    /// Parses the statements up to the end of input into a root node.
    pub fn parse(&mut self) -> (root: ASTNode)
        requires
            old(self).wf(),
            old(self).parse_completes(),
        ensures
            final(self).wf(),
            root@ == NodeView::Root(
                s_parse_program(old(self).toks(), old(self).position(), old(self).saved(), Seq::empty()).unwrap(),
            ),
    {
        self.try_parse().unwrap()
    }

    /// Parses an expression whose operators bind at least as tightly as `min_bp`.
    pub fn parse_expression(&mut self, min_bp: u8) -> (res: Option<ASTExpression>)
        requires
            old(self).wf(),
        ensures
            Self::moves(old(self), final(self)),
            final(self).saved() == old(self).saved(),
            (final(self).position(), opt_expr_view(res)) == s_parse_expression(old(self).toks(), old(self).position(), min_bp),
            res is Some ==> Self::consumed(old(self), final(self)),
        decreases measure(old(self).toks(), old(self).position()), 9int,
    {
        let ghost t = self.toks();
        let ghost p0 = self.pos as int;
        let mut lhs = self.parse_prefix()?;
        let ghost target = s_parse_expression(t, p0, min_bp);

        loop
            invariant_except_break
                self.wf(),
                self.tokens == old(self).tokens,
                self.toks() == t,
                t == old(self).toks(),
                p0 == old(self).pos,
                self.checkpoint == old(self).checkpoint,
                p0 < self.pos <= reach(t, p0),
                p0 + 1 < t.len(),
                target == s_parse_expression(t, p0, min_bp),
                s_expression_tail(t, self.pos as int, lhs@, min_bp) == target,
            ensures
                self.wf(),
                self.tokens == old(self).tokens,
                self.checkpoint == old(self).checkpoint,
                p0 < self.pos <= reach(t, p0),
                p0 + 1 < t.len(),
                target == (self.pos as int, Some(lhs@)),
            decreases measure(t, self.pos as int),
        {
            let ghost q = self.pos as int;
            let ty = self.current().ty;
            let (lbp, rbp) = self.infix_binding_power(ty);
            if lbp < min_bp || !Self::is_infix_operator(ty) {
                break;
            }
            proof {
                self.lemma_views();
                lemma_not_eof(t, q);
                lemma_reach_mono(t, p0, q);
            }
            lhs = self.parse_infix_expression(lhs, rbp, ty)?;
        }

        Some(lhs)
    }
}

} // verus!
