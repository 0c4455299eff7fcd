use std::collections::HashMap;

use cosette::evaluate::shared::{DataType, Entry, Env, Expr, Predicate, Schema, VL};

fn op(name: &str, args: Vec<Expr>) -> Expr {
    Expr::Op(name.to_string(), args)
}

fn table(l: usize, primary: Option<usize>) -> Entry {
    let schema = Schema { types: vec!["int".to_string()], primary, foreign: HashMap::new() };
    Entry::new_table(VL(l), schema)
}

#[test]
fn entry_constructors_and_var() {
    let v = Entry::new_value(VL(3), DataType::Int);
    assert!(matches!(v, Entry::Value(VL(3), DataType::Int)));
    assert_eq!(v.var(), VL(3));
    let t = table(7, Some(0));
    assert!(matches!(&t, Entry::Table(VL(7), s) if s.primary == Some(0)));
    assert_eq!(t.var(), VL(7));
}

#[test]
fn env_new_size_get() {
    let env = Env::new(vec![1u32, 2, 3]);
    assert_eq!(env.size(), 3);
    assert_eq!(*env.get(VL(0)), 1);
    assert_eq!(*env.get(VL(2)), 3);
    let empty: Env<u32> = Env::new(vec![]);
    assert_eq!(empty.size(), 0);
}

#[test]
fn introduce_then_get_reads_the_new_entry() {
    let mut env = Env::new(vec![10u32, 20]);
    env.introduce(30);
    assert_eq!(env.size(), 3);
    assert_eq!(*env.get(VL(2)), 30);
    assert_eq!(*env.get(VL(0)), 10);
    assert_eq!(*env.get(VL(1)), 20);
}

#[test]
fn extend_appends_in_order() {
    let mut env = Env::new(vec![1u32]);
    env.extend(vec![2, 3, 4]);
    let all: Vec<u32> = env.entries.iter().copied().collect();
    assert_eq!(all, vec![1, 2, 3, 4]);
    env.extend(vec![]);
    assert_eq!(env.size(), 4);
}

#[test]
fn append_leaves_the_receiver_unchanged() {
    let env = Env::new(vec![1u32, 2]);
    let longer = env.append(vec![3, 4]);
    assert_eq!(env.size(), 2);
    let all: Vec<u32> = longer.entries.iter().copied().collect();
    assert_eq!(all, vec![1, 2, 3, 4]);
}

#[test]
fn get_var_schema_and_type() {
    let env = Env::new(vec![table(5, Some(1)), Entry::new_value(VL(9), DataType::Varchar(Some(10)))]);
    assert_eq!(env.get_var(VL(0)), VL(5));
    assert_eq!(env.get_var(VL(1)), VL(9));
    assert_eq!(env.get_schema(VL(0)).primary, Some(1));
    assert_eq!(env.get_schema(VL(0)).types, vec!["int".to_string()]);
    assert_eq!(*env.get_type(VL(1)), DataType::Varchar(Some(10)));
}

#[test]
fn eval_args_looks_up_each_level() {
    let env = Env::new(vec![table(4, None), table(8, None), table(2, None)]);
    assert_eq!(env.eval_args(vec![VL(2), VL(0), VL(2)]), vec![VL(2), VL(4), VL(2)]);
    assert_eq!(env.eval_args(vec![]), vec![]);
}

#[test]
fn eval_expr_renames_nested_variables() {
    let env = Env::new(vec![table(10, None), Entry::new_value(VL(11), DataType::Int)]);
    let e = op("f", vec![Expr::Var(VL(1)), op("g", vec![Expr::Var(VL(0)), op("c", vec![])])]);
    let r = env.eval_expr(e);
    assert_eq!(r, op("f", vec![Expr::Var(VL(11)), op("g", vec![Expr::Var(VL(10)), op("c", vec![])])]));
}

#[test]
fn eval_expr_in_identity_environment_is_identity() {
    let env = Env::new(vec![table(0, None), table(1, None)]);
    let e = op("+", vec![Expr::Var(VL(1)), Expr::Var(VL(0))]);
    assert_eq!(env.eval_expr(e.clone()), e);
}

#[test]
fn eval_expr_twice_is_composed_lookup() {
    let env1 = Env::new(vec![table(1, None), table(0, None)]);
    let env2 = Env::new(vec![table(7, None), table(8, None)]);
    let e = op("h", vec![Expr::Var(VL(0)), Expr::Var(VL(1))]);
    let twice = env2.eval_expr(env1.eval_expr(e));
    assert_eq!(twice, op("h", vec![Expr::Var(VL(8)), Expr::Var(VL(7))]));
}

#[test]
fn eval_pred_covers_every_form() {
    let env = Env::new(vec![table(3, None), table(4, None)]);
    match env.eval_pred(Predicate::Eq(Expr::Var(VL(0)), Expr::Var(VL(1)))) {
        Predicate::Eq(a, b) => {
            assert_eq!(a, Expr::Var(VL(3)));
            assert_eq!(b, Expr::Var(VL(4)));
        },
        _ => panic!("wrong form"),
    }
    match env.eval_pred(Predicate::Pred("p".to_string(), vec![Expr::Var(VL(1)), op("k", vec![])])) {
        Predicate::Pred(r, args) => {
            assert_eq!(r, "p");
            assert_eq!(args, vec![Expr::Var(VL(4)), op("k", vec![])]);
        },
        _ => panic!("wrong form"),
    }
    match env.eval_pred(Predicate::Like(Expr::Var(VL(0)), "a%".to_string())) {
        Predicate::Like(v, s) => {
            assert_eq!(v, Expr::Var(VL(3)));
            assert_eq!(s, "a%");
        },
        _ => panic!("wrong form"),
    }
}

#[test]
fn eval_sch_renames_foreign_keys_only() {
    let env = Env::new(vec![table(20, None), table(30, None)]);
    let mut foreign = HashMap::new();
    foreign.insert(0usize, VL(1));
    foreign.insert(2usize, VL(0));
    let schema = Schema { types: vec!["int".into(), "text".into(), "int".into()], primary: Some(2), foreign };
    let r = env.eval_sch(schema);
    assert_eq!(r.types, vec!["int".to_string(), "text".to_string(), "int".to_string()]);
    assert_eq!(r.primary, Some(2));
    assert_eq!(r.foreign.len(), 2);
    assert_eq!(r.foreign[&0], VL(30));
    assert_eq!(r.foreign[&2], VL(20));
}

#[test]
fn clones_are_equal() {
    let ty = DataType::Array(Box::new(DataType::Custom("color".into())));
    assert_eq!(ty.clone(), ty);
    let e = op("f", vec![Expr::Var(VL(2)), op("g", vec![])]);
    assert_eq!(e.clone(), e);
    let mut foreign = HashMap::new();
    foreign.insert(1usize, VL(5));
    let s = Schema { types: vec!["a".into()], primary: None, foreign };
    let c = s.clone();
    assert_eq!(c.types, s.types);
    assert_eq!(c.primary, s.primary);
    assert_eq!(c.foreign, s.foreign);
    let entry = Entry::new_value(VL(1), DataType::Decimal(Some(10), Some(2)));
    assert!(matches!(entry.clone(), Entry::Value(VL(1), DataType::Decimal(Some(10), Some(2)))));
}

#[test]
fn append_is_clone_then_extend() {
    let env = Env::new(vec![table(1, None), Entry::new_value(VL(2), DataType::Int)]);
    let appended = env.append(vec![table(3, Some(0))]);
    let mut extended = env.clone();
    extended.extend(vec![table(3, Some(0))]);
    assert_eq!(appended.size(), extended.size());
    for i in 0..appended.size() {
        assert_eq!(appended.get_var(VL(i)), extended.get_var(VL(i)));
    }
    assert_eq!(appended.get_schema(VL(2)).primary, extended.get_schema(VL(2)).primary);
    assert_eq!(*appended.get_type(VL(1)), DataType::Int);
    assert_eq!(env.size(), 2);
}
