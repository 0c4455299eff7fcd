use cosette::evaluate::shared::{DataType, Expr, Predicate, VL};
use cosette::pipeline::syntax::{decimal_text, AppHead, Relation, UExpr};
use cosette::pipeline::vector::PersistentVec;

fn var_app(t: usize) -> UExpr {
    UExpr::App(AppHead::Var(VL(t)), PersistentVec::<Expr>::from_vec(vec![Expr::Var(VL(0))]))
}

#[test]
fn zero_is_neutral_for_addition() {
    assert!(matches!(UExpr::Zero + var_app(1), UExpr::App(AppHead::Var(VL(1)), _)));
    assert!(matches!(var_app(2) + UExpr::Zero, UExpr::App(AppHead::Var(VL(2)), _)));
    assert!(matches!(UExpr::Zero + UExpr::Zero, UExpr::Zero));
    assert!(matches!(UExpr::Zero + Box::new(UExpr::One), UExpr::One));
}

#[test]
fn one_is_neutral_for_multiplication() {
    assert!(matches!(UExpr::One * var_app(1), UExpr::App(AppHead::Var(VL(1)), _)));
    assert!(matches!(var_app(2) * UExpr::One, UExpr::App(AppHead::Var(VL(2)), _)));
    assert!(matches!(UExpr::One * Box::new(UExpr::Zero), UExpr::Zero));
}

#[test]
fn addition_and_multiplication_build_nodes() {
    match var_app(1) + var_app(2) {
        UExpr::Add(a, b) => {
            assert!(matches!(*a, UExpr::App(AppHead::Var(VL(1)), _)));
            assert!(matches!(*b, UExpr::App(AppHead::Var(VL(2)), _)));
        },
        _ => panic!("expected an addition"),
    }
    assert!(matches!(UExpr::Zero * UExpr::One, UExpr::Zero));
    match UExpr::Zero * UExpr::Zero {
        UExpr::Mul(a, b) => {
            assert!(matches!(*a, UExpr::Zero));
            assert!(matches!(*b, UExpr::Zero));
        },
        _ => panic!("expected a multiplication"),
    }
    assert!(matches!(UExpr::One + UExpr::One, UExpr::Add(_, _)));
}

#[test]
fn compound_assignment() {
    let mut u = UExpr::Zero;
    u += var_app(3);
    assert!(matches!(u, UExpr::App(AppHead::Var(VL(3)), _)));
    u += var_app(4);
    assert!(matches!(u, UExpr::Add(_, _)));
    let mut m = UExpr::One;
    m *= var_app(5);
    assert!(matches!(m, UExpr::App(AppHead::Var(VL(5)), _)));
    m *= UExpr::One;
    assert!(matches!(m, UExpr::App(AppHead::Var(VL(5)), _)));
}

#[test]
fn negation_wraps() {
    match !UExpr::One {
        UExpr::Not(inner) => assert!(matches!(*inner, UExpr::One)),
        _ => panic!("expected a negation"),
    }
}

#[test]
fn sum_squash_and_application() {
    let scopes = PersistentVec::<DataType>::from_vec(vec![DataType::Int, DataType::Text]);
    match UExpr::sum(scopes, Box::new(UExpr::One)) {
        UExpr::Sum(s, body) => {
            assert_eq!(s.to_vec(), vec![DataType::Int, DataType::Text]);
            assert!(matches!(*body, UExpr::One));
        },
        _ => panic!("expected a summation"),
    }
    assert!(matches!(UExpr::squash(Box::new(UExpr::Zero)), UExpr::Squash(b) if matches!(*b, UExpr::Zero)));
    let rel = Relation(PersistentVec::<DataType>::from_vec(vec![DataType::Boolean]), Box::new(UExpr::One));
    let args = PersistentVec::<Expr>::from_vec(vec![Expr::Var(VL(0))]);
    match rel.app(args) {
        UExpr::App(AppHead::Lam(tys, body), args) => {
            assert_eq!(tys.to_vec(), vec![DataType::Boolean]);
            assert!(matches!(*body, UExpr::One));
            assert_eq!(args.len(), 1);
        },
        _ => panic!("expected an application of a lambda"),
    }
    let rel = Relation(PersistentVec::<DataType>::from_vec(vec![]), Box::new(UExpr::Zero));
    let u = UExpr::app(rel, PersistentVec::<Expr>::from_vec(vec![]));
    assert!(matches!(u, UExpr::App(AppHead::Lam(_, b), _) if matches!(*b, UExpr::Zero)));
}

#[test]
fn predicates_and_higher_order_heads() {
    let p = UExpr::Pred(Predicate::Eq(Expr::Var(VL(0)), Expr::Var(VL(1))));
    assert!(matches!(p * UExpr::One, UExpr::Pred(Predicate::Eq(_, _))));
    let inner = Relation(PersistentVec::<DataType>::from_vec(vec![DataType::Int]), Box::new(UExpr::One));
    let head = AppHead::HOp("count".to_string(), vec![], Box::new(inner));
    let u = UExpr::App(head, PersistentVec::<Expr>::from_vec(vec![]));
    assert!(matches!(u, UExpr::App(AppHead::HOp(ref name, _, _), _) if name == "count"));
}

fn scopes(v: Vec<DataType>) -> PersistentVec<DataType> {
    PersistentVec::<DataType>::from_vec(v)
}

#[test]
fn text_of_constants_and_operators() {
    assert_eq!(UExpr::Zero.text(), "0");
    assert_eq!(UExpr::One.text(), "1");
    let add = UExpr::Add(Box::new(UExpr::One), Box::new(UExpr::Zero));
    assert_eq!(add.text(), "(1 + 0)");
    let mul = UExpr::Mul(Box::new(UExpr::Zero), Box::new(UExpr::One));
    assert_eq!(mul.text(), "(0 × 1)");
    assert_eq!(UExpr::squash(Box::new(UExpr::One)).text(), "‖1‖");
    assert_eq!((!UExpr::Zero).text(), "¬(0)");
}

#[test]
fn text_of_summations_indents_the_body() {
    let inner = UExpr::sum(scopes(vec![DataType::Int]), Box::new(UExpr::One));
    assert_eq!(inner.text(), "∑ [Int] {\n\t1\n}");
    let outer = UExpr::sum(scopes(vec![DataType::Text, DataType::Varchar(Some(10))]), Box::new(inner));
    assert_eq!(outer.text(), "∑ [Text, Varchar(Some(10))] {\n\t∑ [Int] {\n\t\t1\n\t}\n}");
}

#[test]
fn text_of_predicates_and_applications() {
    let p = UExpr::Pred(Predicate::Eq(Expr::Var(VL(0)), Expr::Var(VL(1))));
    assert_eq!(p.text(), "⟦Eq(Var(VL(0)), Var(VL(1)))⟧");
    let args = PersistentVec::<Expr>::from_vec(vec![Expr::Var(VL(0)), Expr::Op("f".to_string(), vec![])]);
    let app = UExpr::App(AppHead::Var(VL(12)), args);
    assert_eq!(app.text(), "#12(Var(VL(0)), Op(\"f\", []))");
    let lam = Relation(scopes(vec![DataType::Int]), Box::new(UExpr::One));
    let u = lam.app(PersistentVec::<Expr>::from_vec(vec![Expr::Var(VL(3))]));
    assert_eq!(u.text(), "(λ [Int]\n\t1)\n(Var(VL(3)))");
    let empty = UExpr::App(AppHead::Var(VL(0)), PersistentVec::<Expr>::from_vec(vec![]));
    assert_eq!(empty.text(), "#0()");
}

#[test]
fn text_of_heads() {
    assert_eq!(AppHead::Var(VL(7)).text(), "#7");
    assert_eq!(AppHead::Var(VL(1234567)).text(), "#1234567");
    let lam = AppHead::Lam(scopes(vec![]), Box::new(UExpr::Zero + UExpr::One));
    assert_eq!(lam.text(), "(λ []\n\t1)\n");
    let rel = Relation(scopes(vec![DataType::Int]), Box::new(UExpr::One));
    let hop = AppHead::HOp("count".to_string(), vec![Expr::Var(VL(1))], Box::new(rel));
    assert_eq!(hop.text(), "count(Var(VL(1)), (λ [Int]\n\t1)\n)\n");
}

#[test]
fn decimal_numerals() {
    assert_eq!(decimal_text(0), "0");
    assert_eq!(decimal_text(9), "9");
    assert_eq!(decimal_text(10), "10");
    assert_eq!(decimal_text(usize::MAX), usize::MAX.to_string());
}

#[test]
fn clones_are_equal_u_expressions() {
    let body = UExpr::Pred(Predicate::Like(Expr::Var(VL(0)), "a%".to_string()));
    let u = UExpr::sum(scopes(vec![DataType::Int]), Box::new(body)) * UExpr::Not(Box::new(UExpr::One));
    let c = u.clone();
    assert_eq!(c, u);
    assert_eq!(c.text(), u.text());
    let rel = Relation(scopes(vec![DataType::Int]), Box::new(UExpr::One));
    let h = AppHead::HOp("max".to_string(), vec![Expr::Var(VL(2))], Box::new(rel.clone()));
    assert_eq!(h.clone(), h);
    assert_eq!(rel.clone(), rel);
    assert!(UExpr::Zero < UExpr::One);
}
