use std::cell::Cell;

use cosette::evaluate::shared::DataType;
use cosette::pipeline::unify::{
    perm_equiv, related_pairs, replace_all, smt_input, smt_verdict, unify_multiset, unify_pointwise,
    unify_relation, unify_scoped, MAX_CANDIDATES,
};
use cosette::pipeline::vector::PersistentVec;

fn types(v: Vec<DataType>) -> PersistentVec<DataType> {
    PersistentVec::<DataType>::from_vec(v)
}

#[test]
fn perm_equiv_ignores_order() {
    let a = types(vec![DataType::Int, DataType::Text, DataType::Int, DataType::Custom("x".into())]);
    let b = types(vec![DataType::Custom("x".into()), DataType::Int, DataType::Int, DataType::Text]);
    assert!(perm_equiv(&a, &b));
    assert!(perm_equiv(&b, &a));
    assert!(perm_equiv(&a, &a));
    // the arguments are left as they were
    assert_eq!(b.to_vec()[0], DataType::Custom("x".into()));
}

#[test]
fn perm_equiv_is_transitive() {
    let a = types(vec![DataType::Int, DataType::Text, DataType::Blob(3)]);
    let b = types(vec![DataType::Blob(3), DataType::Int, DataType::Text]);
    let c = types(vec![DataType::Text, DataType::Blob(3), DataType::Int]);
    assert!(perm_equiv(&a, &b) && perm_equiv(&b, &c) && perm_equiv(&a, &c));
    assert!(!perm_equiv(&a, &types(vec![DataType::Text, DataType::Blob(4), DataType::Int])));
}

#[test]
fn perm_equiv_counts_multiplicities() {
    let a = types(vec![DataType::Int, DataType::Int, DataType::Text]);
    let b = types(vec![DataType::Int, DataType::Text, DataType::Text]);
    assert!(!perm_equiv(&a, &b));
    let c = types(vec![DataType::Int, DataType::Text]);
    assert!(!perm_equiv(&a, &c));
    assert!(perm_equiv(&types(vec![]), &types(vec![])));
}

#[test]
fn persistent_vec_round_trip() {
    let v = types(vec![DataType::Date, DataType::Array(Box::new(DataType::Int))]);
    assert_eq!(v.len(), 2);
    assert_eq!(v.to_vec(), vec![DataType::Date, DataType::Array(Box::new(DataType::Int))]);
    assert_eq!(types(vec![]).len(), 0);
}

#[test]
fn pointwise_requires_equal_lengths_and_all_pairs() {
    let eq = |a: &u32, b: &u32| a == b;
    assert!(unify_pointwise(&eq, &vec![1, 2, 3], &vec![1, 2, 3]));
    assert!(!unify_pointwise(&eq, &vec![1, 2], &vec![1, 2, 3]));
    assert!(!unify_pointwise(&eq, &vec![1, 5, 3], &vec![1, 2, 3]));
    assert!(unify_pointwise(&eq, &Vec::<u32>::new(), &vec![]));
}

#[test]
fn pointwise_stops_at_the_first_failure() {
    let calls = Cell::new(0u32);
    let eq = |a: &u32, b: &u32| {
        calls.set(calls.get() + 1);
        a == b
    };
    assert!(!unify_pointwise(&eq, &vec![9, 2, 3], &vec![1, 2, 3]));
    assert_eq!(calls.get(), 1);
}

#[test]
fn multiset_matches_in_any_order() {
    let eq = |a: &u32, b: &u32| a == b;
    assert!(unify_multiset(&eq, &vec![1, 2, 2, 3], &vec![2, 3, 1, 2]));
    assert!(!unify_multiset(&eq, &vec![1, 2, 2], &vec![2, 1, 1]));
    assert!(!unify_multiset(&eq, &vec![1], &vec![1, 1]));
    assert!(unify_multiset(&eq, &Vec::<u32>::new(), &vec![]));
}

#[test]
fn multiset_matching_is_greedy() {
    // 10 unifies with both 0 and 1, 11 only with 0: the first term takes 0,
    // and the second finds no partner left.
    let rel = |a: &u32, b: &u32| (*a == 10) || (*a == 11 && *b == 0);
    assert!(!unify_multiset(&rel, &vec![10, 11], &vec![0, 1]));
    assert!(unify_multiset(&rel, &vec![11, 10], &vec![0, 1]));
}

#[test]
fn related_pairs_in_lexicographic_order() {
    let same_parity = |a: &u32, b: &u32| a % 2 == b % 2;
    let pairs = related_pairs(&same_parity, &vec![1, 2, 3, 4, 5]);
    assert_eq!(pairs, vec![(0, 2), (0, 4), (1, 3), (2, 4)]);
    assert_eq!(related_pairs(&same_parity, &vec![7]), vec![]);
    let calls = Cell::new(0u32);
    let count = |_: &u32, _: &u32| {
        calls.set(calls.get() + 1);
        false
    };
    assert_eq!(related_pairs(&count, &vec![1, 2, 3, 4]), vec![]);
    assert_eq!(calls.get(), 6);
}

#[test]
fn replace_all_is_left_to_right_without_overlap() {
    let chars = |s: &str| s.chars().collect::<Vec<char>>();
    assert_eq!(replace_all(&chars("aaa"), &chars("aa"), &chars("b")), chars("ba"));
    assert_eq!(replace_all(&chars("x and y and z"), &chars(" and"), &chars(" true")), chars("x true y true z"));
    assert_eq!(replace_all(&chars(""), &chars("a"), &chars("b")), chars(""));
    assert_eq!(replace_all(&chars("abc"), &chars("abcd"), &chars("z")), chars("abc"));
}

#[test]
fn smt_input_rewrites_the_dump() {
    let dump = "; \n(set-info :status )\n(assert (and (or a b) (= (* x y) (+ x y)) x and y or z))\n";
    let expected = "(set-logic ALL)\n\n(assert (and (or a b) (= (* 1 x y) (+ 0 x y)) x true y false z))\n";
    assert_eq!(smt_input(dump), expected);
}

#[test]
fn smt_input_keeps_a_dump_without_the_status_header() {
    assert_eq!(smt_input("(check-sat)\n"), "(set-logic ALL)\n(check-sat)\n");
    assert_eq!(smt_input(""), "(set-logic ALL)\n");
}

#[test]
fn smt_verdict_reads_unsat() {
    assert!(smt_verdict("unsat\n"));
    assert!(smt_verdict("warning: x\nunsat\n"));
    assert!(!smt_verdict("sat\n"));
    assert!(!smt_verdict("unsat"));
    assert!(!smt_verdict("unknown\n"));
    assert!(!smt_verdict(""));
}

#[test]
fn relations_unify_only_with_the_same_scopes() {
    let eq = |a: &u32, b: &u32| a == b;
    let t1 = types(vec![DataType::Int, DataType::Text]);
    let t2 = types(vec![DataType::Int, DataType::Text]);
    let t3 = types(vec![DataType::Text, DataType::Int]);
    assert!(unify_relation(&eq, &t1, &5, &t2, &5));
    assert!(!unify_relation(&eq, &t1, &5, &t2, &6));
    assert!(!unify_relation(&eq, &t1, &5, &t3, &5));
}

#[test]
fn scoped_terms_try_at_most_the_first_candidates() {
    let a = types(vec![DataType::Int, DataType::Text]);
    let b = types(vec![DataType::Text, DataType::Int]);
    let c = types(vec![DataType::Int, DataType::Int]);
    let calls = Cell::new(0usize);
    let is_seven = |x: &u32| {
        calls.set(calls.get() + 1);
        *x == 7
    };
    assert!(unify_scoped(&is_seven, &a, &b, &vec![1, 7, 7]));
    assert_eq!(calls.get(), 2);
    calls.set(0);
    assert!(!unify_scoped(&is_seven, &a, &c, &vec![7]));
    assert_eq!(calls.get(), 0);
    let mut late: Vec<u32> = vec![0; MAX_CANDIDATES];
    late.push(7);
    assert!(!unify_scoped(&is_seven, &a, &b, &late));
    assert_eq!(calls.get(), MAX_CANDIDATES);
    late[MAX_CANDIDATES - 1] = 7;
    assert!(unify_scoped(&is_seven, &a, &b, &late));
}
