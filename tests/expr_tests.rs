use loki::expr::{LinearExpr, LinearExprOp, LinearizedExpr};
use loki::expression_utils::{constant, reg};

#[test]
fn constant_is_masked() {
    let c = constant(0x1ff, 8);
    assert_eq!(c.get_constant_val(), 0xff);
    assert_eq!(c.size(), 8);
}

#[test]
fn binary_layout_is_postfix() {
    let e = loki::expression_utils::add(reg("a", 8), constant(3, 8), 8);
    assert_eq!(e.len(), 3);
    assert_eq!(e.op().op, LinearExprOp::Add);
    assert_eq!(e.0[0], LinearExpr::new(LinearExprOp::Reg("a".to_string()), 8));
    assert_eq!(e.0[1], LinearExpr::new(LinearExprOp::Const(3), 8));
}

#[test]
fn unique_vars_keep_first_use_order() {
    let e = loki::expression_utils::add(
        loki::expression_utils::add(reg("b", 8), reg("a", 8), 8),
        reg("b", 8),
        8,
    );
    let vars = e.get_unique_vars();
    assert_eq!(vars.len(), 2);
    assert_eq!(vars[0], reg("b", 8));
    assert_eq!(vars[1], reg("a", 8));
    assert_eq!(e.num_unique_vars(), 2);
    assert_eq!(e.get_vars().len(), 3);
}

#[test]
fn replace_var_renames_every_use() {
    let mut e = loki::expression_utils::add(reg("a", 8), reg("a", 8), 8);
    e.replace_var(&reg("a", 8), &reg("z", 8));
    assert!(e.contains_var_name("z"));
    assert!(!e.contains_var_name("a"));
    let mut f = loki::expression_utils::add(reg("a", 8), reg("b", 8), 8);
    f.replace_var_with_constant(&reg("a", 8), &constant(7, 8));
    assert_eq!(f.0[0], LinearExpr::new(LinearExprOp::Const(7), 8));
}

#[test]
fn placeholder_detection() {
    let nt = LinearizedExpr::from_linear_expr(LinearizedExpr::gen_non_terminal(8));
    assert!(nt.is_non_terminal());
    assert!(!reg("a", 8).is_non_terminal());
}

#[test]
fn replace_at_pos_splices() {
    let mut e = loki::expression_utils::add(reg("a", 8), reg("b", 8), 8);
    let r = loki::expression_utils::not(reg("c", 8), 8);
    e.replace_at_pos(1, &r);
    assert_eq!(e.len(), 4);
    assert_eq!(e.0[2].op, LinearExprOp::Not);
}
