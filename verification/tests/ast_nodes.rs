use pirtm::ast::Expr;

#[test]
fn test_transcendental_ast_nodes_can_be_constructed() {
    let sin_node = Expr::Sin(Box::new(Expr::Literal(1)));
    let cos_node = Expr::Cos(Box::new(Expr::Literal(1)));
    let log_node = Expr::Log(Box::new(Expr::Literal(1)));

    assert!(matches!(sin_node, Expr::Sin(_)));
    assert!(matches!(cos_node, Expr::Cos(_)));
    assert!(matches!(log_node, Expr::Log(_)));
}
