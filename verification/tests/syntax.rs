use c_wasm_interpreter::parser::{
    ASTBinaryType, ASTDataType, ASTUnaryType, ASTExpression, ASTIdentifier, ASTNode, ASTNodeType, ASTRoot, Parser,
};

fn statements(src: &str) -> Vec<ASTNode> {
    match Parser::new(src).parse().ty {
        ASTNodeType::Root(root) => root.statements,
        _ => panic!("Expected a root node"),
    }
}

#[test]
fn assignment_is_right_associative() {
    let res = Parser::new("a = b = 1").parse_expression(0).unwrap();
    match res {
        ASTExpression::Binary(outer) => {
            assert_eq!(outer.ty, ASTBinaryType::Assignment);
            assert!(matches!(*outer.left, ASTExpression::Identifier(_)));
            match *outer.right {
                ASTExpression::Binary(inner) => assert_eq!(inner.ty, ASTBinaryType::Assignment),
                _ => panic!("Expected a nested assignment"),
            }
        }
        _ => panic!("Expected an assignment"),
    }
}

#[test]
fn comparison_binds_looser_than_sum() {
    let res = Parser::new("a < b + c").parse_expression(0).unwrap();
    match res {
        ASTExpression::Binary(b) => {
            assert_eq!(b.ty, ASTBinaryType::LessThan);
            assert!(matches!(*b.right, ASTExpression::Binary(_)));
        }
        _ => panic!("Expected a comparison"),
    }
}

#[test]
fn subtraction_is_left_associative() {
    let res = Parser::new("a - b - c").parse_expression(0).unwrap();
    match res {
        ASTExpression::Binary(b) => {
            assert_eq!(b.ty, ASTBinaryType::Sub);
            assert!(matches!(*b.left, ASTExpression::Binary(_)));
            assert!(matches!(*b.right, ASTExpression::Identifier(_)));
        }
        _ => panic!("Expected a subtraction"),
    }
}

#[test]
fn expression_stops_at_non_operator() {
    let mut p = Parser::new("x ; y");
    let res = p.parse_expression(0).unwrap();
    assert_eq!(res, ASTExpression::Identifier(ASTIdentifier { literal: "x".into() }));
}

#[test]
fn expression_needs_an_operand() {
    assert!(Parser::new(")").parse_expression(0).is_none());
    assert!(Parser::new("a +").parse_expression(0).is_none());
    assert!(Parser::new("a[1").parse_expression(0).is_none());
    assert!(Parser::new("a ? b").parse_expression(0).is_none());
}

#[test]
fn type_forms() {
    let t = Parser::new("short int").try_parse_type().unwrap();
    assert_eq!((t.signed, t.ty), (true, ASTDataType::Short));
    let t = Parser::new("unsigned x").try_parse_type().unwrap();
    assert_eq!((t.signed, t.ty), (false, ASTDataType::Int));
    let t = Parser::new("long").try_parse_type().unwrap();
    assert_eq!(t.ty, ASTDataType::Long);
    assert!(Parser::new("x").try_parse_type().is_none());
}

#[test]
fn params_forms() {
    assert_eq!(Parser::new("()").try_parse_func_params().unwrap().len(), 0);
    assert!(Parser::new("(int)").try_parse_func_params().is_none());
    assert!(Parser::new("(int a int b)").try_parse_func_params().is_none());
    let ps = Parser::new("(char c)").try_parse_func_params().unwrap();
    assert_eq!(ps[0].name.literal, "c");
    assert_eq!(ps[0].ty.ty, ASTDataType::Char);
}

#[test]
fn statements_in_order() {
    let st = statements("int a; a = 2; void f() { } while (a) { a = 0; }");
    assert_eq!(st.len(), 4);
    assert!(matches!(st[0].ty, ASTNodeType::Var(_)));
    assert!(matches!(st[1].ty, ASTNodeType::Expression(_)));
    assert!(matches!(st[2].ty, ASTNodeType::Func(_)));
    assert!(matches!(st[3].ty, ASTNodeType::While(_)));
}

#[test]
fn malformed_statement_becomes_end_marker() {
    let st = statements("a + b c = 1;");
    assert_eq!(st.len(), 2);
    assert!(matches!(st[0].ty, ASTNodeType::EOF));
    assert!(matches!(st[1].ty, ASTNodeType::Expression(_)));
}

#[test]
fn parse_that_cannot_complete() {
    assert!(Parser::new(")").try_parse().is_none());
    assert!(Parser::new("while (a").try_parse().is_none());
    assert!(Parser::try_new("\"").is_none());
    assert!(Parser::new("int a;").try_parse().is_some());
}

#[test]
fn unclosed_function_resumes_at_inner_checkpoint() {
    let st = statements("void f() { int a = 1;");
    assert_eq!(st.len(), 2);
    assert!(matches!(st[0].ty, ASTNodeType::EOF));
    assert!(matches!(st[1].ty, ASTNodeType::Var(_)));
}

#[test]
fn prefix_operator_binds_its_operand_only() {
    let res = Parser::new("-a + b").parse_expression(0).unwrap();
    match res {
        ASTExpression::Binary(b) => {
            assert_eq!(b.ty, ASTBinaryType::Add);
            match *b.left {
                ASTExpression::Unary(u) => assert_eq!(u.ty, ASTUnaryType::Minus),
                _ => panic!("Expected a negation"),
            }
            assert_eq!(*b.right, ASTExpression::Identifier(ASTIdentifier { literal: "b".into() }));
        }
        _ => panic!("Expected a sum"),
    }
    let st = statements("int a = -1;");
    assert_eq!(st.len(), 1);
    assert!(matches!(st[0].ty, ASTNodeType::Var(_)));
}

#[test]
fn calls_bind_tighter_than_operators() {
    let res = Parser::new("f(1) + f(n - 2) * 3").parse_expression(0).unwrap();
    match res {
        ASTExpression::Binary(b) => {
            assert_eq!(b.ty, ASTBinaryType::Add);
            match *b.left {
                ASTExpression::Invocation(inv) => assert_eq!(inv.params.len(), 1),
                _ => panic!("Expected a call"),
            }
            match *b.right {
                ASTExpression::Binary(m) => {
                    assert_eq!(m.ty, ASTBinaryType::Mult);
                    assert!(matches!(*m.left, ASTExpression::Invocation(_)));
                }
                _ => panic!("Expected a product"),
            }
        }
        _ => panic!("Expected a sum"),
    }
}

#[test]
fn conditional_binds_tighter_than_comparison() {
    let res = Parser::new("a < b ? c : d").parse_expression(0).unwrap();
    match res {
        ASTExpression::Binary(b) => {
            assert_eq!(b.ty, ASTBinaryType::LessThan);
            assert!(matches!(*b.right, ASTExpression::Conditional(_)));
        }
        _ => panic!("Expected a comparison"),
    }
}

#[test]
fn index_and_arguments_bind_as_before() {
    assert!(Parser::new("x[a + 1]").parse_expression(0).is_none());
    assert!(Parser::new("c ? a = 1 : 2").parse_expression(0).is_none());
    let res = Parser::new("f(a = 1)").parse_expression(0).unwrap();
    match res {
        ASTExpression::Invocation(inv) => assert!(matches!(inv.params[0], ASTExpression::Binary(_))),
        _ => panic!("Expected a call"),
    }
    assert!(Parser::new("(a)").parse_expression(0).is_none());
}

#[test]
fn if_and_return_statements() {
    let st = statements("if (a) b = 1; else { b = 2; c = 3; } return; return a + 1;");
    assert_eq!(st.len(), 3);
    match &st[0].ty {
        ASTNodeType::If(i) => {
            assert_eq!(i.then_body.len(), 1);
            assert_eq!(i.else_body.len(), 2);
        }
        _ => panic!("Expected an if statement"),
    }
    assert!(matches!(&st[1].ty, ASTNodeType::Return(r) if r.value.is_none()));
    assert!(matches!(&st[2].ty, ASTNodeType::Return(r) if r.value.is_some()));
    assert!(Parser::new("if (a b = 1;").try_parse().is_none());
    assert!(Parser::new("return a").try_parse().is_none());
}

#[test]
fn empty_program_is_an_empty_root() {
    let root = Parser::new("").parse();
    assert_eq!(root, ASTNode::new(ASTNodeType::Root(ASTRoot { statements: vec![] })));
}
