use vstd::prelude::*;

verus! {

#[derive(Debug, Clone, PartialEq, Eq, PartialOrd, Ord)]
pub struct ASTRoot {
    pub statements: Vec<ASTNode>,
}

#[derive(Debug, Clone, PartialEq, Eq, PartialOrd, Ord)]
pub struct ASTIdentifier {
    pub literal: String,
}

#[derive(Debug, Clone, PartialEq, Eq, PartialOrd, Ord)]
pub struct ASTNumeral {
    pub literal: String,
}

#[derive(Debug, Clone, Copy, PartialEq, Eq, Structural, PartialOrd, Ord)]
pub enum ASTUnaryType {
    Negation,
    Plus,
    Minus,
    PreInc,
    PreDec,
    PostInc,
    PostDec,
}

#[derive(Debug, Clone, PartialEq, Eq, PartialOrd, Ord)]
pub struct ASTUnary {
    pub ty: ASTUnaryType,
    pub expr: Box<ASTExpression>,
}

#[derive(Debug, Clone, Copy, PartialEq, Eq, Structural, PartialOrd, Ord)]
pub enum ASTBinaryType {
    Add,
    Sub,
    Mult,
    Div,
    LessThan,
    BiggerThan,
    LessEqual,
    Indexing,
    Assignment,
}

#[derive(Debug, Clone, PartialEq, Eq, PartialOrd, Ord)]
pub struct ASTBinary {
    pub ty: ASTBinaryType,
    pub left: Box<ASTExpression>,
    pub right: Box<ASTExpression>,
}

#[derive(Debug, Clone, PartialEq, Eq, PartialOrd, Ord)]
pub struct ASTConditional {
    pub cond: Box<ASTExpression>,
    pub then_expr: Box<ASTExpression>,
    pub or: Box<ASTExpression>,
}

#[derive(Debug, Clone, PartialEq, Eq, PartialOrd, Ord)]
pub struct ASTInvocation {
    pub left: Box<ASTExpression>,
    pub params: Vec<ASTExpression>,
}

#[derive(Debug, PartialEq, Eq, PartialOrd, Ord)]
pub enum ASTExpression {
    Null,
    Identifier(ASTIdentifier),
    Numeral(ASTNumeral),
    Unary(ASTUnary),
    Binary(ASTBinary),
    Conditional(ASTConditional),
    Invocation(ASTInvocation),
}

#[derive(Debug, Clone, Copy, PartialEq, Eq, Structural, PartialOrd, Ord)]
pub enum ASTDataType {
    Void,
    Char,
    Short,
    Int,
    Long,
    LongLong,
    Float,
    Double,
}

#[derive(Debug, Clone, Copy, PartialEq, Eq, Structural, PartialOrd, Ord)]
pub struct ASTData {
    pub signed: bool,
    pub ty: ASTDataType,
}

#[derive(Debug, Clone, PartialEq, Eq, PartialOrd, Ord)]
pub struct ASTVar {
    pub ty: ASTData,
    pub name: ASTIdentifier,
    pub initializer: Option<ASTExpression>,
}

#[derive(Debug, Clone, PartialEq, Eq, PartialOrd, Ord)]
pub struct ASTFuncParam {
    pub ty: ASTData,
    pub name: ASTIdentifier,
}

#[derive(Debug, Clone, PartialEq, Eq, PartialOrd, Ord)]
pub struct ASTFunc {
    pub ty: ASTData,
    pub name: ASTIdentifier,
    pub params: Vec<ASTFuncParam>,
    pub body: Vec<ASTNode>,
}

#[derive(Debug, Clone, PartialEq, Eq, PartialOrd, Ord)]
pub struct ASTWhile {
    pub cond: ASTExpression,
    pub body: Vec<ASTNode>,
}

#[derive(Debug, Clone, PartialEq, Eq, PartialOrd, Ord)]
pub struct ASTIf {
    pub cond: ASTExpression,
    pub then_body: Vec<ASTNode>,
    pub else_body: Vec<ASTNode>,
}

#[derive(Debug, Clone, PartialEq, Eq, PartialOrd, Ord)]
pub struct ASTReturn {
    pub value: Option<ASTExpression>,
}

#[derive(Debug, Clone, PartialEq, Eq, PartialOrd, Ord)]
pub enum ASTNodeType {
    Root(ASTRoot),
    Var(ASTVar),
    Func(ASTFunc),
    Expression(ASTExpression),
    While(ASTWhile),
    If(ASTIf),
    Return(ASTReturn),
    EOF,
}

#[derive(Debug, PartialEq, Eq, PartialOrd, Ord)]
pub struct ASTNode {
    pub ty: ASTNodeType,
}

impl ASTNode {
    pub fn new(ty: ASTNodeType) -> (n: Self)
        ensures
            n.ty == ty,
    {
        ASTNode { ty }
    }
}

// ---------------------------------------------------------------------------
// The mathematical content of syntax trees: names become character sequences.
// ---------------------------------------------------------------------------

pub enum ExprView {
    Null,
    Identifier(Seq<char>),
    Numeral(Seq<char>),
    Unary(ASTUnaryType, Box<ExprView>),
    Binary(ASTBinaryType, Box<ExprView>, Box<ExprView>),
    Conditional(Box<ExprView>, Box<ExprView>, Box<ExprView>),
    Invocation(Box<ExprView>, Seq<ExprView>),
}

pub struct ParamView {
    pub ty: ASTData,
    pub name: Seq<char>,
}

pub enum NodeView {
    Root(Seq<NodeView>),
    Var(ASTData, Seq<char>, Option<ExprView>),
    Func(ASTData, Seq<char>, Seq<ParamView>, Seq<NodeView>),
    Expression(ExprView),
    While(ExprView, Seq<NodeView>),
    If(ExprView, Seq<NodeView>, Seq<NodeView>),
    Return(Option<ExprView>),
    EOF,
}

pub open spec fn expr_view(e: ASTExpression) -> ExprView
    decreases e, 0int,
{
    match e {
        ASTExpression::Null => ExprView::Null,
        ASTExpression::Identifier(i) => ExprView::Identifier(i.literal@),
        ASTExpression::Numeral(n) => ExprView::Numeral(n.literal@),
        ASTExpression::Unary(u) => ExprView::Unary(u.ty, Box::new(expr_view(*u.expr))),
        ASTExpression::Binary(b) => ExprView::Binary(
            b.ty,
            Box::new(expr_view(*b.left)),
            Box::new(expr_view(*b.right)),
        ),
        ASTExpression::Conditional(c) => ExprView::Conditional(
            Box::new(expr_view(*c.cond)),
            Box::new(expr_view(*c.then_expr)),
            Box::new(expr_view(*c.or)),
        ),
        ASTExpression::Invocation(inv) => ExprView::Invocation(
            Box::new(expr_view(*inv.left)),
            exprs_view(inv.params@),
        ),
    }
}

pub open spec fn exprs_view(es: Seq<ASTExpression>) -> Seq<ExprView>
    decreases es, 1int,
{
    if es.len() == 0 {
        Seq::empty()
    } else {
        exprs_view(es.drop_last()).push(expr_view(es.last()))
    }
}

pub open spec fn params_view(ps: Seq<ASTFuncParam>) -> Seq<ParamView> {
    ps.map_values(|p: ASTFuncParam| ParamView { ty: p.ty, name: p.name.literal@ })
}

pub open spec fn node_view(n: ASTNode) -> NodeView
    decreases n, 0int,
{
    match n.ty {
        ASTNodeType::Root(r) => NodeView::Root(nodes_view(r.statements@)),
        ASTNodeType::Var(v) => NodeView::Var(
            v.ty,
            v.name.literal@,
            match v.initializer {
                Some(e) => Some(expr_view(e)),
                None => None,
            },
        ),
        ASTNodeType::Func(f) => NodeView::Func(
            f.ty,
            f.name.literal@,
            params_view(f.params@),
            nodes_view(f.body@),
        ),
        ASTNodeType::Expression(e) => NodeView::Expression(expr_view(e)),
        ASTNodeType::While(w) => NodeView::While(expr_view(w.cond), nodes_view(w.body@)),
        ASTNodeType::If(i) => NodeView::If(expr_view(i.cond), nodes_view(i.then_body@), nodes_view(i.else_body@)),
        ASTNodeType::Return(r) => NodeView::Return(
            match r.value {
                Some(e) => Some(expr_view(e)),
                None => None,
            },
        ),
        ASTNodeType::EOF => NodeView::EOF,
    }
}

pub open spec fn nodes_view(ns: Seq<ASTNode>) -> Seq<NodeView>
    decreases ns, 1int,
{
    if ns.len() == 0 {
        Seq::empty()
    } else {
        nodes_view(ns.drop_last()).push(node_view(ns.last()))
    }
}

impl View for ASTExpression {
    type V = ExprView;

    open spec fn view(&self) -> ExprView {
        expr_view(*self)
    }
}

impl View for ASTNode {
    type V = NodeView;

    open spec fn view(&self) -> NodeView {
        node_view(*self)
    }
}

impl View for ASTFuncParam {
    type V = ParamView;

    open spec fn view(&self) -> ParamView {
        ParamView { ty: self.ty, name: self.name.literal@ }
    }
}

pub proof fn lemma_exprs_view_push(es: Seq<ASTExpression>, e: ASTExpression)
    ensures
        exprs_view(es.push(e)) == exprs_view(es).push(expr_view(e)),
{
    assert(es.push(e).drop_last() =~= es);
}

pub proof fn lemma_exprs_view_index(es: Seq<ASTExpression>, i: int)
    requires
        0 <= i < es.len(),
    ensures
        exprs_view(es).len() == es.len(),
        exprs_view(es)[i] == expr_view(es[i]),
    decreases es.len(),
{
    lemma_exprs_view_len(es);
    if i < es.len() - 1 {
        lemma_exprs_view_index(es.drop_last(), i);
    }
}

pub proof fn lemma_exprs_view_len(es: Seq<ASTExpression>)
    ensures
        exprs_view(es).len() == es.len(),
    decreases es.len(),
{
    if es.len() > 0 {
        lemma_exprs_view_len(es.drop_last());
    }
}

pub proof fn lemma_nodes_view_push(ns: Seq<ASTNode>, n: ASTNode)
    ensures
        nodes_view(ns.push(n)) == nodes_view(ns).push(node_view(n)),
{
    assert(ns.push(n).drop_last() =~= ns);
}

pub proof fn lemma_nodes_view_index(ns: Seq<ASTNode>, i: int)
    requires
        0 <= i < ns.len(),
    ensures
        nodes_view(ns).len() == ns.len(),
        nodes_view(ns)[i] == node_view(ns[i]),
    decreases ns.len(),
{
    lemma_nodes_view_len(ns);
    if i < ns.len() - 1 {
        lemma_nodes_view_index(ns.drop_last(), i);
    }
}

pub proof fn lemma_nodes_view_len(ns: Seq<ASTNode>)
    ensures
        nodes_view(ns).len() == ns.len(),
    decreases ns.len(),
{
    if ns.len() > 0 {
        lemma_nodes_view_len(ns.drop_last());
    }
}

// ---------------------------------------------------------------------------
// Copies of syntax trees.
// ---------------------------------------------------------------------------

/// A copy of an expression with the same content.
pub fn clone_expr(e: &ASTExpression) -> (r: ASTExpression)
    ensures
        r@ == e@,
    decreases e, 0int,
{
    match e {
        ASTExpression::Null => ASTExpression::Null,
        ASTExpression::Identifier(i) => ASTExpression::Identifier(ASTIdentifier { literal: i.literal.clone() }),
        ASTExpression::Numeral(n) => ASTExpression::Numeral(ASTNumeral { literal: n.literal.clone() }),
        ASTExpression::Unary(u) => ASTExpression::Unary(ASTUnary { ty: u.ty, expr: Box::new(clone_expr(&u.expr)) }),
        ASTExpression::Binary(b) => ASTExpression::Binary(
            ASTBinary { ty: b.ty, left: Box::new(clone_expr(&b.left)), right: Box::new(clone_expr(&b.right)) },
        ),
        ASTExpression::Conditional(c) => ASTExpression::Conditional(
            ASTConditional {
                cond: Box::new(clone_expr(&c.cond)),
                then_expr: Box::new(clone_expr(&c.then_expr)),
                or: Box::new(clone_expr(&c.or)),
            },
        ),
        ASTExpression::Invocation(inv) => ASTExpression::Invocation(
            ASTInvocation { left: Box::new(clone_expr(&inv.left)), params: clone_exprs(&inv.params) },
        ),
    }
}

/// Copies of a list of expressions with the same content.
pub fn clone_exprs(es: &Vec<ASTExpression>) -> (r: Vec<ASTExpression>)
    ensures
        exprs_view(r@) == exprs_view(es@),
    decreases es, 1int,
{
    let mut r: Vec<ASTExpression> = Vec::new();
    let mut i: usize = 0;
    while i < es.len()
        invariant
            i <= es.len(),
            exprs_view(r@) == exprs_view(es@.subrange(0, i as int)),
        decreases es.len() - i,
    {
        proof {
            assert(decreases_to!(es => es@[i as int]));
        }
        let c = clone_expr(&es[i]);
        let ghost before = r@;
        r.push(c);
        proof {
            lemma_exprs_view_push(before, c);
            lemma_exprs_view_push(es@.subrange(0, i as int), es@[i as int]);
            assert(es@.subrange(0, i as int).push(es@[i as int]) =~= es@.subrange(0, i + 1));
        }
        i += 1;
    }
    assert(es@.subrange(0, i as int) =~= es@);
    r
}

/// Copies of a list of parameters with the same content.
pub fn clone_params(ps: &Vec<ASTFuncParam>) -> (r: Vec<ASTFuncParam>)
    ensures
        params_view(r@) == params_view(ps@),
{
    let mut r: Vec<ASTFuncParam> = Vec::new();
    let mut i: usize = 0;
    while i < ps.len()
        invariant
            i <= ps.len(),
            r@.len() == i,
            forall|k: int| 0 <= k < i ==> (#[trigger] r@[k])@ == ps@[k]@,
        decreases ps.len() - i,
    {
        let p = &ps[i];
        r.push(ASTFuncParam { ty: p.ty, name: ASTIdentifier { literal: p.name.literal.clone() } });
        i += 1;
    }
    assert(params_view(r@) =~= params_view(ps@));
    r
}

/// A copy of a statement with the same content.
pub fn clone_node(n: &ASTNode) -> (r: ASTNode)
    ensures
        r@ == n@,
    decreases n, 0int,
{
    let ty = match &n.ty {
        ASTNodeType::Root(root) => ASTNodeType::Root(ASTRoot { statements: clone_nodes(&root.statements) }),
        ASTNodeType::Var(v) => ASTNodeType::Var(
            ASTVar {
                ty: v.ty,
                name: ASTIdentifier { literal: v.name.literal.clone() },
                initializer: match &v.initializer {
                    Some(e) => Some(clone_expr(e)),
                    None => None,
                },
            },
        ),
        ASTNodeType::Func(f) => ASTNodeType::Func(
            ASTFunc {
                ty: f.ty,
                name: ASTIdentifier { literal: f.name.literal.clone() },
                params: clone_params(&f.params),
                body: clone_nodes(&f.body),
            },
        ),
        ASTNodeType::Expression(e) => ASTNodeType::Expression(clone_expr(e)),
        ASTNodeType::While(w) => ASTNodeType::While(
            ASTWhile { cond: clone_expr(&w.cond), body: clone_nodes(&w.body) },
        ),
        ASTNodeType::If(i) => ASTNodeType::If(
            ASTIf {
                cond: clone_expr(&i.cond),
                then_body: clone_nodes(&i.then_body),
                else_body: clone_nodes(&i.else_body),
            },
        ),
        ASTNodeType::Return(r) => ASTNodeType::Return(
            ASTReturn {
                value: match &r.value {
                    Some(e) => Some(clone_expr(e)),
                    None => None,
                },
            },
        ),
        ASTNodeType::EOF => ASTNodeType::EOF,
    };
    ASTNode { ty }
}

/// Copies of a list of statements with the same content.
pub fn clone_nodes(ns: &Vec<ASTNode>) -> (r: Vec<ASTNode>)
    ensures
        nodes_view(r@) == nodes_view(ns@),
    decreases ns, 1int,
{
    let mut r: Vec<ASTNode> = Vec::new();
    let mut i: usize = 0;
    while i < ns.len()
        invariant
            i <= ns.len(),
            nodes_view(r@) == nodes_view(ns@.subrange(0, i as int)),
        decreases ns.len() - i,
    {
        proof {
            assert(decreases_to!(ns => ns@[i as int]));
        }
        let c = clone_node(&ns[i]);
        let ghost before = r@;
        r.push(c);
        proof {
            lemma_nodes_view_push(before, c);
            lemma_nodes_view_push(ns@.subrange(0, i as int), ns@[i as int]);
            assert(ns@.subrange(0, i as int).push(ns@[i as int]) =~= ns@.subrange(0, i + 1));
        }
        i += 1;
    }
    assert(ns@.subrange(0, i as int) =~= ns@);
    r
}

impl Clone for ASTExpression {
    fn clone(&self) -> (r: Self)
        ensures
            r@ == self@,
    {
        clone_expr(self)
    }
}

impl Clone for ASTNode {
    fn clone(&self) -> (r: Self)
        ensures
            r@ == self@,
    {
        clone_node(self)
    }
}

} // verus!
