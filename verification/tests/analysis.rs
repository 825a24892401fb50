use warp::analysis::{dag_cost, dims_ok, shapes_compatible, merge_nnz, udf_meta, Derived, Meta, NnzRule};
use warp::dims::DimMap;
use warp::math::Math;
use warp::schema::{get_vol, MetaInfo, Schema};

fn dims(pairs: &[(&str, usize)]) -> DimMap {
    let mut m = DimMap::new();
    for (k, v) in pairs {
        m.insert(k.to_string(), *v);
    }
    m
}

fn info(schema: Option<Schema>, nnz: Option<usize>) -> MetaInfo {
    MetaInfo { schema, nnz }
}

fn mat(r: usize, c: usize) -> MetaInfo {
    info(Some(Schema::Mat(r, c)), None)
}

fn rel(pairs: &[(&str, usize)], nnz: Option<usize>) -> MetaInfo {
    info(Some(Schema::Schm(dims(pairs))), nnz)
}

fn name(n: &str) -> MetaInfo {
    info(Some(Schema::Name(n.to_string())), Some(1))
}

fn dim(n: &str, s: usize) -> MetaInfo {
    info(Some(Schema::Dims(n.to_string(), s)), None)
}

fn size(s: usize) -> MetaInfo {
    info(Some(Schema::Size(s)), Some(1))
}

fn shape(d: &Derived) -> (usize, usize) {
    let (r, c) = d.schema.as_ref().unwrap().get_mat();
    (*r, *c)
}

fn sizes(d: &Derived) -> Vec<(String, usize)> {
    let m = d.schema.as_ref().unwrap().get_schm();
    let mut v: Vec<(String, usize)> =
        m.keys().into_iter().map(|k| { let n = m.get(&k).unwrap(); (k, n) }).collect();
    v.sort();
    v
}

fn pairs(p: &[(&str, usize)]) -> Vec<(String, usize)> {
    let mut v: Vec<(String, usize)> = p.iter().map(|(k, n)| (k.to_string(), *n)).collect();
    v.sort();
    v
}

#[test]
fn dims_ok_shapes() {
    dims_ok(10, 20, 1, 20);
    dims_ok(1, 1, 7, 3);
    assert!(shapes_compatible(10, 20, 10, 20));
    assert!(shapes_compatible(10, 20, 1, 20));
    assert!(shapes_compatible(10, 20, 10, 1));
    assert!(shapes_compatible(10, 20, 1, 1));
    assert!(shapes_compatible(1, 1, 7, 3));
    assert!(!shapes_compatible(10, 20, 20, 10));
    assert!(!shapes_compatible(10, 20, 5, 20));
}

#[test]
fn make_elementwise_broadcasts() {
    let d = Meta::make(&Math::LAdd([0, 1]), &vec![mat(10, 20), mat(1, 20)]);
    assert_eq!(shape(&d), (10, 20));
    assert_eq!(d.nnz, NnzRule::Known(None));
    let d = Meta::make(&Math::LMul([0, 1]), &vec![mat(1, 1), mat(4, 5)]);
    assert_eq!(shape(&d), (4, 5));
}

#[test]
fn make_la_shapes() {
    assert_eq!(shape(&Meta::make(&Math::MMul([0, 1]), &vec![mat(10, 20), mat(20, 5)])), (10, 5));
    assert_eq!(shape(&Meta::make(&Math::LTrs([0]), &vec![mat(10, 20)])), (20, 10));
    assert_eq!(shape(&Meta::make(&Math::Srow([0]), &vec![mat(10, 20)])), (10, 1));
    assert_eq!(shape(&Meta::make(&Math::Scol([0]), &vec![mat(10, 20)])), (1, 20));
    assert_eq!(shape(&Meta::make(&Math::Sall([0]), &vec![mat(10, 20)])), (1, 1));
    assert_eq!(shape(&Meta::make(&Math::LLit([0]), &vec![size(3)])), (1, 1));
    let d = Meta::make(&Math::LMat([0, 1, 2, 3]), &vec![name("x"), size(10), size(20), size(7)]);
    assert_eq!(shape(&d), (10, 20));
    assert_eq!(d.nnz, NnzRule::Known(Some(1)));
}

#[test]
fn make_bind_and_unbind() {
    let x = info(Some(Schema::Mat(10, 1)), Some(7));
    let b = Meta::make(&Math::Bind([0, 1, 2]), &vec![name("i"), name("j"), x]);
    assert_eq!(sizes(&b), pairs(&[("i", 10)]));
    assert_eq!(b.nnz, NnzRule::Known(Some(7)));
    let u = Meta::make(&Math::Ubnd([0, 1, 2]), &vec![name("i"), name("j"), rel(&[("i", 10)], Some(7))]);
    assert_eq!(shape(&u), (10, 1));
    assert_eq!(u.nnz, NnzRule::Known(Some(7)));
}

#[test]
fn make_relational() {
    let m = Meta::make(&Math::Mat([0, 1, 2, 3]), &vec![name("x"), dim("i", 10), dim("j", 1), size(5)]);
    assert_eq!(sizes(&m), pairs(&[("i", 10)]));
    assert_eq!(m.nnz, NnzRule::Known(Some(1)));
    let a = Meta::make(&Math::Agg([0, 1]), &vec![dim("i", 10), rel(&[("i", 10), ("j", 3)], Some(100))]);
    assert_eq!(sizes(&a), pairs(&[("j", 3)]));
    assert_eq!(a.nnz, NnzRule::Known(Some(3)));
    let s = Meta::make(&Math::Add([0, 1]), &vec![rel(&[("i", 10)], None), rel(&[("j", 3)], None)]);
    assert_eq!(sizes(&s), pairs(&[("i", 10), ("j", 3)]));
    assert_eq!(s.nnz, NnzRule::ScaledBySparsity(Some(30)));
    let r = Meta::make(
        &Math::RMMul([0, 1]),
        &vec![rel(&[("i", 2), ("j", 3)], None), rel(&[("j", 3), ("k", 4)], None)],
    );
    assert_eq!(sizes(&r), pairs(&[("i", 2), ("k", 4)]));
    assert_eq!(r.nnz, NnzRule::Known(Some(8)));
    let l = Meta::make(&Math::Lit([0]), &vec![size(2)]);
    assert_eq!(sizes(&l), pairs(&[]));
    assert_eq!(l.nnz, NnzRule::Known(Some(1)));
}

#[test]
fn make_subst() {
    let s = Meta::make(&Math::Sub([0, 1, 2]), &vec![dim("k", 10), dim("i", 10), rel(&[("i", 10), ("j", 2)], Some(4))]);
    assert_eq!(sizes(&s), pairs(&[("k", 10), ("j", 2)]));
    assert_eq!(s.nnz, NnzRule::Known(Some(4)));
    let d = Meta::make(&Math::Sub([0, 1, 2]), &vec![dim("k", 10), dim("i", 10), dim("i", 10)]);
    let (n, z) = d.schema.as_ref().unwrap().get_dims();
    assert_eq!((n.as_str(), *z), ("k", 10));
    let d = Meta::make(&Math::Sub([0, 1, 2]), &vec![dim("k", 10), dim("i", 10), dim("j", 4)]);
    let (n, z) = d.schema.as_ref().unwrap().get_dims();
    assert_eq!((n.as_str(), *z), ("j", 4));
}

#[test]
fn make_leaves() {
    let n = Meta::make(&Math::Num(5), &vec![]);
    assert_eq!(*n.schema.as_ref().unwrap().get_size(), 5);
    assert_eq!(n.nnz, NnzRule::Known(Some(1)));
    let z = Meta::make(&Math::Num(0), &vec![]);
    assert_eq!(z.nnz, NnzRule::Known(Some(0)));
    let neg = Meta::make(&Math::Num(-3), &vec![]);
    assert_eq!(*neg.schema.as_ref().unwrap().get_size(), 0);
    let s = Meta::make(&Math::Str("abc".to_string()), &vec![]);
    assert_eq!(s.schema.as_ref().unwrap().get_name(), "abc");
    let v = Meta::make(&Math::Var([0]), &vec![name("x")]);
    assert_eq!(v.nnz, NnzRule::Known(Some(1)));
    let z = Meta::make(&Math::Nnz([0]), &vec![size(42)]);
    assert!(z.schema.is_none());
    assert_eq!(z.nnz, NnzRule::Known(Some(42)));
    let d = Meta::make(&Math::Dim([0, 1]), &vec![name("i"), size(9)]);
    let (n, s) = d.schema.as_ref().unwrap().get_dims();
    assert_eq!((n.as_str(), *s), ("i", 9));
    let w = Meta::make(&Math::TWrite("out".to_string()), &vec![]);
    assert!(w.schema.is_none());
}

#[test]
fn make_udf_call() {
    let d = Meta::make(&Math::Udf(vec![0, 1]), &vec![name("u(nrow)"), mat(3, 4)]);
    assert_eq!(shape(&d), (1, 1));
    assert_eq!(d.nnz, NnzRule::Known(Some(1)));
}

#[test]
fn udf_meta_cases() {
    let d = udf_meta("axpy", &vec![mat(3, 4), mat(1, 1), mat(3, 4)]);
    assert_eq!(shape(&d), (3, 4));
    assert_eq!(d.nnz, NnzRule::ScaledBySparsity(Some(12)));
    let d = udf_meta("b(/)", &vec![mat(1, 4), mat(3, 4)]);
    assert_eq!(shape(&d), (3, 4));
    assert_eq!(d.nnz, NnzRule::ScaledBySparsity(Some(12)));
    let d = udf_meta("m1mul", &vec![mat(3, 4), mat(3, 1)]);
    assert_eq!(shape(&d), (3, 4));
    assert_eq!(d.nnz, NnzRule::Known(None));
    let d = udf_meta("ua(minR)", &vec![mat(3, 4)]);
    assert_eq!(shape(&d), (3, 1));
    assert_eq!(d.nnz, NnzRule::RoundedSparsityTimes(3));
    let d = udf_meta("r(diag)", &vec![info(Some(Schema::Mat(3, 1)), Some(2))]);
    assert_eq!(shape(&d), (3, 3));
    assert_eq!(d.nnz, NnzRule::Known(Some(2)));
    let d = udf_meta("u(ncol)", &vec![mat(3, 4)]);
    assert_eq!(shape(&d), (1, 1));
    let x = info(Some(Schema::Mat(3, 4)), Some(5));
    let d = udf_meta("u(exp)", &vec![x]);
    assert_eq!(shape(&d), (3, 4));
    assert_eq!(d.nnz, NnzRule::Known(Some(5)));
    let args = vec![info(Some(Schema::Mat(9, 9)), Some(6)), mat(1, 1), mat(1, 1), mat(1, 1), mat(1, 1), size(2), size(3)];
    let d = udf_meta("rix", &args);
    assert_eq!(shape(&d), (2, 3));
    assert_eq!(d.nnz, NnzRule::Known(Some(6)));
    let mut args8 = vec![info(Some(Schema::Mat(9, 9)), Some(6))];
    for _ in 0..5 {
        args8.push(mat(1, 1));
    }
    args8.push(size(4));
    args8.push(size(5));
    let d = udf_meta("lix", &args8);
    assert_eq!(shape(&d), (4, 5));
}

#[test]
fn merge_keeps_smaller_nnz() {
    let mut m = Meta;
    let mut a = info(Some(Schema::Mat(2, 2)), Some(5));
    let r = m.merge(&mut a, info(Some(Schema::Mat(2, 2)), Some(3)));
    assert_eq!(a.nnz, Some(3));
    assert_eq!(r, (true, false));
    let mut a = info(None, Some(3));
    let r = m.merge(&mut a, info(None, None));
    assert_eq!(a.nnz, Some(3));
    assert_eq!(r, (false, true));
    let mut a = info(None, None);
    assert_eq!(m.merge(&mut a, info(None, None)), (false, false));
}

#[test]
fn merge_nnz_values() {
    assert_eq!(merge_nnz(Some(3), Some(5)), Some(3));
    assert_eq!(merge_nnz(Some(5), Some(3)), Some(3));
    assert_eq!(merge_nnz(None, Some(5)), Some(5));
    assert_eq!(merge_nnz(None, None), None);
}

#[test]
fn volumes_and_cost() {
    assert_eq!(get_vol(&mat(3, 4)), 12);
    assert_eq!(get_vol(&rel(&[], None)), 1);
    assert_eq!(get_vol(&rel(&[("i", 2), ("j", 5)], None)), 10);
    assert_eq!(get_vol(&name("x")), 0);
    assert_eq!(get_vol(&info(None, None)), 0);
    let classes = vec![rel(&[("i", 10)], None), rel(&[("i", 2), ("j", 3)], Some(4)), mat(3, 3), name("x")];
    assert_eq!(dag_cost(&classes), 14);
    assert_eq!(dag_cost(&vec![]), 0);
}
