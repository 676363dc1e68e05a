use noir_compute::expr::{b, binary_expr, col, i, lit, unary_expr, Expr, ExprOp, NoirType};

#[test]
fn noir_type_availability() {
    assert!(NoirType::NaN().is_na());
    assert!(NoirType::Missing().is_na());
    assert!(!NoirType::Int32(1).is_na());
    assert!(NoirType::NaN().is_nan());
    assert!(!NoirType::Missing().is_nan());
    assert!(NoirType::Missing().is_none());
    assert!(!NoirType::NaN().is_none());
}

#[test]
fn noir_type_or_fills_missing() {
    assert_eq!(NoirType::Missing().or(&NoirType::Int32(4)), NoirType::Int32(4));
    assert_eq!(NoirType::Int32(1).or(&NoirType::Int32(4)), NoirType::Int32(1));
    assert_eq!(NoirType::NaN().or(&NoirType::Int32(4)), NoirType::NaN());
}

#[test]
fn expression_builders() {
    let e = col(0).gt(i(3)).and(b(true));
    assert_eq!(
        e,
        binary_expr(
            binary_expr(col(0), ExprOp::Gt, lit(NoirType::Int32(3))),
            ExprOp::And,
            Expr::Literal(NoirType::Bool(true))
        )
    );
    assert_eq!(col(1).abs(), unary_expr(ExprOp::Abs, Expr::NthColumn(1)));
    let copy = e.clone();
    assert_eq!(copy, e);
    assert_eq!(
        col(2).modulo(i(2)).eq(i(0)),
        binary_expr(
            binary_expr(col(2), ExprOp::Mod, i(2)),
            ExprOp::Eq,
            i(0)
        )
    );
}

#[test]
fn expression_operator_names() {
    let pairs = [
        (col(0).neq(i(1)), ExprOp::NotEq),
        (col(0).or(i(1)), ExprOp::Or),
        (col(0).xor(i(1)), ExprOp::Xor),
        (col(0).lt(i(1)), ExprOp::Lt),
        (col(0).lte(i(1)), ExprOp::LtEq),
        (col(0).gte(i(1)), ExprOp::GtEq),
    ];
    for (e, op) in pairs {
        assert_eq!(e, binary_expr(col(0), op, i(1)));
    }
    let unaries = [
        (col(0).floor(), ExprOp::Floor),
        (col(0).ceil(), ExprOp::Ceil),
        (col(0).sqrt(), ExprOp::Sqrt),
        (col(0).round(), ExprOp::Round),
    ];
    for (e, op) in unaries {
        assert_eq!(e, unary_expr(op, col(0)));
    }
}
