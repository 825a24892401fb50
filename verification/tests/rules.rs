use warp::dims::DimMap;
use warp::fused::{
    axpy_patterns, m1mul_patterns, sprop_patterns, udf_rename_allowed, udf_rename_pattern,
};
use warp::math::Math;
use warp::rules::{
    agg_mmul_pattern, dim_subst_target, fresh_seed, la_add_pattern, la_bind_allowed,
    la_bind_pattern, la_mat_pattern, la_mmul_pattern, la_mul_pattern, la_sall_pattern,
    la_scol_pattern, la_srow_pattern, la_trans_pattern, pull_mul_pattern, push_mul_pattern,
    ra_add_patterns, ra_bind_patterns, ra_mul_patterns, ra_rmmul_patterns, ra_sum_patterns,
    subst_agg_body, subst_bind_pattern, sum_ia_pattern, Target,
};
use warp::schema::Schema;

fn dims(pairs: &[(&str, usize)]) -> DimMap {
    let mut m = DimMap::new();
    for (k, v) in pairs {
        m.insert(k.to_string(), *v);
    }
    m
}

fn s(x: &str) -> String {
    x.to_string()
}

#[test]
fn la_mul_fresh_names() {
    assert_eq!(
        la_mul_pattern(10, 20, 10, 20, 5),
        "(b- vmul_i5 vmul_j5 (* (b+ vmul_i5 vmul_j5 ?x) (b+ vmul_i5 vmul_j5 ?y)))"
    );
    assert_eq!(
        la_mul_pattern(1, 20, 10, 20, 976526),
        "(b- vmul_i5 vmul_j5 (* (b+ _ vmul_j5 ?x) (b+ vmul_i5 vmul_j5 ?y)))"
    );
    assert_eq!(
        la_mul_pattern(1, 1, 1, 1, 0),
        "(b- _ _ (* (b+ _ _ ?x) (b+ _ _ ?y)))"
    );
}

#[test]
fn la_add_fresh_names() {
    assert_eq!(
        la_add_pattern(10, 1, 10, 20, 42),
        "(b- vadd_i42 vadd_j42 (+ (b+ vadd_i42 _ ?x) (b+ vadd_i42 vadd_j42 ?y)))"
    );
}

#[test]
fn la_mat_binds() {
    assert_eq!(la_mat_pattern(10, 1, 7), "(b- vmat_i7 _ (mat ?x (dim vmat_i7 ?i) (dim _ ?j) (nnz ?z)))");
    assert_eq!(
        la_mat_pattern(10, 20, 7),
        "(b- vmat_i7 vmat_j7 (mat ?x (dim vmat_i7 ?i) (dim vmat_j7 ?j) (nnz ?z)))"
    );
}

#[test]
fn la_mmul_sums_shared_axis() {
    assert_eq!(
        la_mmul_pattern(10, 20, 20, 5, 3),
        "(b- vmmul_i3 vmmul_k3 (sum (dim vmmul_j3 20) (* (b+ vmmul_i3 vmmul_j3 ?x) (b+ vmmul_j3 vmmul_k3 ?y))))"
    );
    assert_eq!(
        la_mmul_pattern(10, 1, 1, 5, 3),
        "(b- vmmul_i3 vmmul_k3 (* (b+ vmmul_i3 _ ?x) (b+ _ vmmul_k3 ?y)))"
    );
}

#[test]
fn la_aggregates() {
    assert_eq!(la_trans_pattern(10, 20, 1), "(b- vtrans_j1 vtrans_i1 (b+ vtrans_i1 vtrans_j1 ?a))");
    assert_eq!(la_trans_pattern(1, 20, 1), "(b- vtrans_j1 _ (b+ _ vtrans_j1 ?a))");
    assert_eq!(
        la_srow_pattern(10, 20, 2),
        "(b- vsrow_i2 _ (sum (dim vsrow_j2 20) (b+ vsrow_i2 vsrow_j2 ?a)))"
    );
    assert_eq!(
        la_scol_pattern(10, 20, 2),
        "(b- _ vsrow_j2 (sum (dim vsrow_i2 10) (b+ vsrow_i2 vsrow_j2 ?a)))"
    );
    assert_eq!(
        la_sall_pattern(10, 20, 2),
        "(b- _ _ (sum (dim vsall_i2 10) (sum (dim vsall_j2 20) (b+ vsall_i2 vsall_j2 ?a))))"
    );
}

#[test]
fn la_bind_renames() {
    assert_eq!(
        la_bind_pattern(&s("a"), &s("b"), &s("c"), &s("d"), &dims(&[("a", 10)])),
        "(subst (dim d 1) (dim b 1) (subst (dim c 10) (dim a 10) ?x))"
    );
    assert!(!la_bind_allowed(&s("a"), &s("b"), &s("c"), &s("_")));
    assert!(!la_bind_allowed(&s("a"), &s("b"), &s("_"), &s("d")));
    assert!(la_bind_allowed(&s("_"), &s("_"), &s("_"), &s("_")));
    assert!(la_bind_allowed(&s("a"), &s("b"), &s("c"), &s("d")));
}

#[test]
fn sum_and_mul_moves() {
    assert_eq!(sum_ia_pattern(&s("k"), 10, &dims(&[("i", 3)])), Some(s("(* ?a (lit 10))")));
    assert_eq!(sum_ia_pattern(&s("k"), 10, &dims(&[("k", 10)])), None);
    assert_eq!(pull_mul_pattern(&s("k"), &dims(&[("i", 3)])), Some(s("(* ?a (sum ?i ?b))")));
    assert_eq!(pull_mul_pattern(&s("k"), &dims(&[("k", 3)])), None);
    assert_eq!(push_mul_pattern(&s("k"), 10, &dims(&[("i", 3)]), 9), "(sum ?i (* ?a ?b))");
    assert_eq!(
        push_mul_pattern(&s("k"), 10, &dims(&[("k", 10)]), 9),
        "(sum (dim v9 10) (* ?a (subst (dim v9 10) ?i ?b)))"
    );
}

#[test]
fn agg_mmul_needs_one_shared() {
    let a = dims(&[("i", 2), ("j", 3)]);
    let b = dims(&[("j", 3), ("k", 4)]);
    assert_eq!(agg_mmul_pattern(&a, &b, &s("j")), Some(s("(rm* ?a ?b)")));
    assert_eq!(agg_mmul_pattern(&a, &b, &s("k")), None);
    assert_eq!(agg_mmul_pattern(&a, &a, &s("j")), None);
    let c = dims(&[("i", 2), ("j", 3), ("l", 5)]);
    assert_eq!(agg_mmul_pattern(&c, &b, &s("j")), None);
}

#[test]
fn subst_choices() {
    assert_eq!(subst_bind_pattern(1, 1, 2), "(b+ ?j ?l ?e)");
    assert_eq!(subst_bind_pattern(2, 1, 2), "(b+ ?k ?j ?e)");
    assert_eq!(subst_bind_pattern(3, 1, 2), "(b+ ?k ?l ?e)");
    assert_eq!(dim_subst_target(0, 1, 1, 2), Target::Class(0));
    assert_eq!(dim_subst_target(0, 1, 3, 2), Target::Node(Math::Dim([3, 2])));
    assert_eq!(subst_agg_body(0, 1, 1, 5), None);
    assert_eq!(subst_agg_body(0, 1, 2, 5), Some(Math::Sub([0, 1, 5])));
}

#[test]
fn ra_binds() {
    let one = Some(Schema::Schm(dims(&[("i", 10)])));
    assert_eq!(ra_bind_patterns(&one), vec![s("(b+ i _ (b- i _ ?e))"), s("(b+ _ i (b- _ i ?e))")]);
    let none = Some(Schema::Schm(dims(&[])));
    assert_eq!(ra_bind_patterns(&none), vec![s("(b+ _ _ (b- _ _ ?e))"), s("(b+ _ _ (b- _ _ ?e))")]);
    let two = ra_bind_patterns(&Some(Schema::Schm(dims(&[("i", 10), ("j", 3)]))));
    let ij = vec![s("(b+ i j (b- i j ?e))"), s("(b+ j i (b- j i ?e))")];
    let ji = vec![s("(b+ j i (b- j i ?e))"), s("(b+ i j (b- i j ?e))")];
    assert!(two == ij || two == ji);
    assert!(ra_bind_patterns(&Some(Schema::Schm(dims(&[("i", 1), ("j", 1), ("k", 1)])))).is_empty());
    assert!(ra_bind_patterns(&Some(Schema::Mat(2, 2))).is_empty());
    assert!(ra_bind_patterns(&None).is_empty());
}

#[test]
fn ra_adds_and_sums() {
    assert_eq!(
        ra_add_patterns(&dims(&[("i", 10)])),
        vec![s("(b+ i _ (l+ (b- i _ ?a) (b- i _ ?b)))"), s("(b+ _ i (l+ (b- _ i ?a) (b- _ i ?b)))")]
    );
    assert!(ra_add_patterns(&dims(&[("i", 1), ("j", 1), ("k", 1)])).is_empty());
    assert_eq!(
        ra_sum_patterns(&s("k"), &dims(&[("j", 3)])),
        vec![s("(b+ _ j (scol (b- k j ?x)))"), s("(b+ j _ (srow (b- j k ?x)))")]
    );
    assert!(ra_sum_patterns(&s("k"), &dims(&[("i", 2), ("j", 3)])).is_empty());
}

#[test]
fn ra_muls() {
    let a = dims(&[("i", 10)]);
    let b = dims(&[("i", 10)]);
    let r = ra_mul_patterns(&dims(&[("i", 10)]), &a, &b);
    assert_eq!(r, vec![s("(b+ i _ (l* (b- i _ ?a) (b- i _ ?b)))"), s("(b+ _ i (l* (b- _ i ?a) (b- _ i ?b)))")]);
    let a = dims(&[("i", 10)]);
    let b = dims(&[("j", 5)]);
    let r = ra_mul_patterns(&dims(&[("i", 10), ("j", 5)]), &a, &b);
    assert_eq!(r, vec![s("(b+ i j (m* (b- i _ ?a) (b- _ j ?b)))")]);
    let big = dims(&[("i", 1), ("j", 1), ("k", 1)]);
    assert!(ra_mul_patterns(&big, &a, &b).is_empty());
}

#[test]
fn ra_rmmuls() {
    let a = dims(&[("i", 2), ("j", 3)]);
    let b = dims(&[("j", 3), ("k", 4)]);
    let mul = dims(&[("i", 2), ("k", 4)]);
    let (x, y) = ra_rmmul_patterns(&mul, &a, &b);
    assert_eq!(x, "(b+ i k (m* (b- i j ?a) (b- j k ?b)))");
    assert_eq!(y, "(b+ k i (m* (b- k j ?b) (b- j i ?a)))");
}

#[test]
fn fresh_seed_repeats() {
    let a = fresh_seed(&vec![1, 2]);
    assert_eq!(a, fresh_seed(&vec![1, 2]));
    assert_ne!(a, fresh_seed(&vec![2, 1]));
}

#[test]
fn fused_calls() {
    let x = dims(&[("i", 3), ("j", 4)]);
    let r = axpy_patterns(&x, &dims(&[]), &dims(&[("i", 3), ("j", 4)]));
    let ij = s("(b+ i j (udf axpy (b- i j ?x) (b- _ _ ?p) (b- i j ?y)))");
    let ji = s("(b+ j i (udf axpy (b- j i ?x) (b- _ _ ?p) (b- j i ?y)))");
    assert!(r == vec![ij.clone(), ji.clone()] || r == vec![ji, ij]);
    assert!(axpy_patterns(&x, &dims(&[("k", 2)]), &x).is_empty());
    assert!(axpy_patterns(&x, &dims(&[]), &dims(&[("i", 3), ("j", 5)])).is_empty());
    assert_eq!(
        sprop_patterns(&dims(&[("i", 3)])),
        vec![s("(b+ i _ (udf sprop (b- i _ ?x)))"), s("(b+ _ i (udf sprop (b- _ i ?x)))")]
    );
    assert_eq!(
        m1mul_patterns(&dims(&[])),
        vec![
            s("(b+ _ _ (udf m1mul (b- _ _ ?x) (b- _ _ ?y)))"),
            s("(b+ _ _ (udf m1mul (b- _ _ ?x) (b- _ _ ?y)))")
        ]
    );
    assert!(m1mul_patterns(&dims(&[("i", 1), ("j", 1), ("k", 1)])).is_empty());
}

#[test]
fn fused_call_renaming() {
    let x = dims(&[("c", 5)]);
    let y = dims(&[("a", 5), ("b", 6)]);
    assert!(udf_rename_allowed(&s("c"), &s("_"), &s("a"), &s("b"), &x, &y));
    assert_eq!(
        udf_rename_pattern(&s("a"), &s("b"), &s("c"), &s("_"), &s("a"), &s("b"), &x, &y),
        "(b+ ?i ?j (udf ?o (b- ?i _ (subst (dim ?i 5) (dim ?k 5) ?x)) (b- ?i ?j ?y)))"
    );
    let z = dims(&[("c", 5), ("d", 7)]);
    assert_eq!(
        udf_rename_pattern(&s("a"), &s("b"), &s("c"), &s("d"), &s("a"), &s("b"), &z, &y),
        "(b+ ?i ?j (udf ?o (b- ?i ?j (subst (dim ?j 7) (dim ?l 7) (subst (dim ?i 5) (dim ?k 5) ?x))) (b- ?i ?j ?y)))"
    );
    assert!(!udf_rename_allowed(&s("c"), &s("_"), &s("a"), &s("b"), &dims(&[]), &y));
}
