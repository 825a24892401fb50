use warp::analysis::{merge_nnz, shapes_compatible, Derived, Meta, NnzRule};
use warp::dims::DimMap;
use warp::math::{build_la_math, dml_op, node_children, trans_op_cost, Math};
use warp::saturate::{Saturation, NODE_LIMIT};
use warp::schema::{get_vol, MetaInfo, Schema};
use warp::show::push_decimal;
use warp::text::{chars_of, parse_u32_at};

fn name(n: &str) -> MetaInfo {
    MetaInfo { schema: Some(Schema::Name(n.to_string())), nnz: Some(1) }
}

fn as_info(d: Derived) -> MetaInfo {
    let nnz = match d.nnz {
        NnzRule::Known(z) => z,
        _ => None,
    };
    MetaInfo { schema: d.schema, nnz }
}

fn dims(pairs: &[(&str, usize)]) -> DimMap {
    let mut m = DimMap::new();
    for (k, v) in pairs {
        m.insert(k.to_string(), *v);
    }
    m
}

#[test]
fn dims_ok_is_symmetric() {
    for &(a, b, c, d) in &[(10, 20, 1, 20), (1, 1, 4, 5), (10, 20, 20, 10), (3, 1, 3, 7)] {
        assert_eq!(shapes_compatible(a, b, c, d), shapes_compatible(c, d, a, b));
    }
}

#[test]
fn transpose_twice_gives_shape_back() {
    let x = MetaInfo { schema: Some(Schema::Mat(7, 3)), nnz: None };
    let t = as_info(Meta::make(&Math::LTrs([0]), &vec![x]));
    let tt = Meta::make(&Math::LTrs([1]), &vec![t]);
    assert_eq!(tt.schema.as_ref().unwrap().get_mat(), (&7, &3));
}

#[test]
fn unbind_after_bind_gives_shape_back() {
    for &(r, c) in &[(7, 3), (1, 3), (7, 1), (1, 1)] {
        let x = MetaInfo { schema: Some(Schema::Mat(r, c)), nnz: Some(2) };
        let b = as_info(Meta::make(&Math::Bind([0, 1, 2]), &vec![name("i"), name("j"), x]));
        let u = Meta::make(&Math::Ubnd([0, 1, 3]), &vec![name("i"), name("j"), b]);
        assert_eq!(u.schema.as_ref().unwrap().get_mat(), (&r, &c));
        assert_eq!(u.nnz, NnzRule::Known(Some(2)));
    }
}

#[test]
fn bind_keeps_cells() {
    let x = MetaInfo { schema: Some(Schema::Mat(7, 3)), nnz: None };
    let v = get_vol(&x);
    let b = as_info(Meta::make(&Math::Bind([0, 1, 2]), &vec![name("i"), name("j"), x]));
    assert_eq!(get_vol(&b), v);
}

#[test]
fn sum_divides_cells() {
    let body = MetaInfo { schema: Some(Schema::Schm(dims(&[("i", 4), ("j", 6)]))), nnz: None };
    let whole = get_vol(&body);
    let i = MetaInfo { schema: Some(Schema::Dims("i".to_string(), 4)), nnz: None };
    let s = as_info(Meta::make(&Math::Agg([0, 1]), &vec![i, body]));
    assert_eq!(get_vol(&s) * 4, whole);
}

#[test]
fn rename_keeps_cells() {
    let body = MetaInfo { schema: Some(Schema::Schm(dims(&[("i", 4), ("j", 6)]))), nnz: None };
    let whole = get_vol(&body);
    let e = MetaInfo { schema: Some(Schema::Dims("k".to_string(), 4)), nnz: None };
    let v = MetaInfo { schema: Some(Schema::Dims("i".to_string(), 4)), nnz: None };
    let s = as_info(Meta::make(&Math::Sub([0, 1, 2]), &vec![e, v, body]));
    assert_eq!(get_vol(&s), whole);
}

#[test]
fn merge_nnz_is_a_semilattice() {
    let vals = [None, Some(0), Some(3), Some(9)];
    for &a in &vals {
        assert_eq!(merge_nnz(a, a), a);
        for &b in &vals {
            assert_eq!(merge_nnz(a, b), merge_nnz(b, a));
            for &c in &vals {
                assert_eq!(merge_nnz(a, merge_nnz(b, c)), merge_nnz(merge_nnz(a, b), c));
            }
        }
    }
}

#[test]
fn union_of_schemas() {
    let a = Schema::Schm(dims(&[("i", 1), ("j", 2)]));
    let b = Schema::Schm(dims(&[("i", 5), ("k", 3)]));
    let u = a.union(&b);
    let m = u.get_schm();
    assert_eq!(m.len(), 3);
    assert_eq!(m.get(&"i".to_string()), Some(5));
    assert_eq!(m.get(&"j".to_string()), Some(2));
    assert_eq!(m.get(&"k".to_string()), Some(3));
    let same = a.union(&a);
    assert!(same.same_as(&a));
}

#[test]
fn la_names_round_trip() {
    for op in ["r(t)", "b(*)", "b(+)", "b(-)", "ba(+*)", "ua(+R)", "ua(+C)", "ua(+RC)"] {
        let m = build_la_math(op, &[4, 5]);
        assert_eq!(dml_op(&m), op);
    }
    assert_eq!(node_children(&build_la_math("ba(+*)", &[4, 5])), vec![4, 5]);
    assert_eq!(dml_op(&Math::Add([1, 2])), "UNKNOWN OP");
}

#[test]
fn decimal_text_round_trip() {
    for n in [0u32, 7, 10, 4294967295] {
        let mut s = String::new();
        push_decimal(&mut s, n as u64);
        let v = chars_of(&s);
        assert_eq!(parse_u32_at(&v, 0, v.len()), Some(n));
    }
}

#[test]
fn translation_costs() {
    assert_eq!(trans_op_cost(&Math::LAdd([0, 1])), 100);
    assert_eq!(trans_op_cost(&Math::Sub([0, 1, 2])), 100);
    assert_eq!(trans_op_cost(&Math::Bind([0, 1, 2])), 10);
    assert_eq!(trans_op_cost(&Math::Add([0, 1])), 1);
    assert_eq!(trans_op_cost(&Math::Udf(vec![0])), 1);
}

#[test]
fn dim_map_operations() {
    let mut m = DimMap::new();
    assert!(m.is_empty());
    m.insert("i".to_string(), 3);
    m.insert("j".to_string(), 4);
    m.insert("i".to_string(), 5);
    assert_eq!(m.len(), 2);
    assert_eq!(m.get(&"i".to_string()), Some(5));
    assert!(m.contains_key(&"j".to_string()));
    assert_eq!(m.volume(), Some(20));
    assert_eq!(m.remove(&"i".to_string()), Some(5));
    assert_eq!(m.remove(&"i".to_string()), None);
    assert_eq!(m.keys(), vec!["j".to_string()]);
    let mut n = dims(&[("j", 4)]);
    assert!(n.same_as(&m));
    n.extend(&dims(&[("j", 9), ("k", 2)]));
    assert_eq!(n.get(&"j".to_string()), Some(9));
    assert_eq!(n.len(), 2);
    assert!(!n.same_as(&m));
    let huge = dims(&[("a", usize::MAX), ("b", 2)]);
    assert_eq!(huge.volume(), None);
    assert_eq!(DimMap::new().volume(), Some(1));
}

#[test]
fn saturation_stops_early_when_nothing_applies() {
    let mut s = Saturation::new(5);
    assert!(s.begin_round());
    assert!(s.record(3, 10));
    assert!(s.record(0, 12));
    assert!(s.end_round());
    assert!(s.begin_round());
    assert!(s.record(0, 12));
    assert!(!s.end_round());
    assert!(!s.begin_round());
}

#[test]
fn saturation_runs_below_iters() {
    let mut s = Saturation::new(3);
    let mut rounds = 0;
    while s.begin_round() {
        rounds += 1;
        assert!(s.record(1, 1));
        if !s.end_round() {
            break;
        }
    }
    assert_eq!(rounds, 2);
    assert_eq!(s.round(), 3);
    assert!(!Saturation::new(1).begin_round());
}

#[test]
fn saturation_stops_at_node_limit() {
    let mut s = Saturation::new(10);
    assert!(s.begin_round());
    assert!(s.record(1, NODE_LIMIT));
    assert!(!s.record(1, NODE_LIMIT + 1));
    assert!(!s.begin_round());
}

#[test]
fn saturation_stops_when_rules_add_nothing_in_a_round() {
    let mut s = Saturation::new(10);
    let mut rounds = 0;
    let added_per_round = [2, 1, 0, 5];
    for added in added_per_round {
        if !s.begin_round() {
            break;
        }
        rounds += 1;
        assert!(s.record(added, 100));
        if !s.end_round() {
            break;
        }
    }
    assert_eq!(rounds, 3);
}
