use c_wasm_interpreter::parser::{ASTBinaryType, ASTDataType, ASTExpression, ASTNode, ASTNodeType, ASTUnaryType, Parser};

#[test]
fn test1() {
    let s = "int main() { int a = 1; }";

    let mut parser = Parser::new(s);
    let root = parser.parse();

    if let ASTNodeType::Root(root) = root.ty {
        assert!(matches!(root.statements[0].ty, ASTNodeType::Func(_)));
    } else {
        panic!("Not root!");
    }
}

#[test]
fn simple_type() {
    let mut parser = Parser::new("unsigned long long int");
    let res = parser.try_parse_type().unwrap();

    assert_eq!(res.signed, false);
    assert_eq!(res.ty, ASTDataType::LongLong);

    let mut parser = Parser::new("signed");
    let res = parser.try_parse_type().unwrap();

    assert_eq!(res.signed, true);
    assert_eq!(res.ty, ASTDataType::Int);
}

#[test]
fn simple_func_params() {
    let mut parser = Parser::new("(long long s, unsigned char a, unsigned c)");
    let res = parser.try_parse_func_params().unwrap();

    assert_eq!(res.len(), 3);
}

#[test]
fn simple_expr_addmult() {
    let mut parser = Parser::new("x + y * c");
    let res = parser.parse_expression(0).unwrap();

    if let ASTExpression::Binary(binary) = res {
        assert_eq!(binary.ty, ASTBinaryType::Add);
    } else {
        panic!("Not a binary expression");
    }

    let mut parser = Parser::new("x * y + c");
    let res = parser.parse_expression(0).unwrap();

    if let ASTExpression::Binary(binary) = res {
        assert_eq!(binary.ty, ASTBinaryType::Add);
    } else {
        panic!("Not a binary expression");
    }
}

#[test]
fn simple_test_prepostfix() {
    let mut parser = Parser::new("-2[x]");
    let res = parser.parse_expression(0).unwrap();

    if let ASTExpression::Unary(unary) = res {
        assert_eq!(unary.ty, ASTUnaryType::Minus);

        if let ASTExpression::Binary(inner) = *unary.expr {
            assert_eq!(inner.ty, ASTBinaryType::Indexing);
        } else {
            panic!("Not an inner unary expression");
        }
    } else {
        panic!("Not a unary expression");
    }
}

#[test]
fn simple_test_conditional() {
    let mut parser = Parser::new("c * a ? o + 1 ? 2 : 1 : 3");
    let res = parser.parse_expression(0).unwrap();

    if let ASTExpression::Conditional(cond) = res {
        if let ASTExpression::Conditional(inner) = *cond.then_expr {
            assert!(matches!(*inner.cond, ASTExpression::Binary(_)));
        } else {
            panic!("Not an inner conditional expression");
        }
    } else {
        panic!("Not a conditional expression");
    }
}

fn get_first_node(res: ASTNode) -> ASTNode {
    match res.ty {
        ASTNodeType::Root(root) => root.statements[0].clone(),
        _ => panic!("Expected a root node"),
    }
}

#[test]
fn simple_test_while_single() {
    let mut parser = Parser::new("while (1 + 1) a = a + 1;");
    let res = parser.parse();
    let node = get_first_node(res);

    match node.ty {
        ASTNodeType::While(wh) => {
            assert_eq!(wh.body.len(), 1);
        }
        _ => panic!("Expected a while node"),
    };
}

#[test]
fn simple_test_while_mult() {
    let mut parser = Parser::new("while (1) { int a = 2; b = b + 1; }");
    let res = parser.parse();
    let node = get_first_node(res);

    match node.ty {
        ASTNodeType::While(wh) => {
            assert_eq!(wh.body.len(), 2);
        }
        _ => panic!("Expected a while node"),
    };
}

#[test]
fn simple_test_func() {
    let mut parser = Parser::new("void b() { int a = c + 1; }");
    let res = parser.parse();
    let node = get_first_node(res);

    match node.ty {
        ASTNodeType::Func(func) => {
            assert_eq!(func.ty.ty, ASTDataType::Void);
            assert_eq!(func.name.literal, "b");
            assert_eq!(func.params.len(), 0);
            assert_eq!(func.body.len(), 1);
        }
        _ => panic!("Expected a function node"),
    };
}

#[test]
fn simple_test_invocation() {
    let mut parser = Parser::new("d(24, c, a + b)");
    let res = parser.parse_expression(0).unwrap();

    if let ASTExpression::Invocation(inv) = res {
        assert_eq!(inv.params.len(), 3);
    } else {
        panic!("Not an invocation expression");
    }
}
