use warp::analysis::{Meta, NnzRule};
use warp::dims::DimMap;
use warp::math::Math;
use warp::schema::{MetaInfo, Schema};

fn info(schema: Schema) -> MetaInfo {
    MetaInfo { schema: Some(schema), nnz: None }
}

fn known(n: &Math, kids: Vec<MetaInfo>) -> MetaInfo {
    let d = Meta::make(n, &kids);
    let nnz = match d.nnz {
        NnzRule::Known(z) => z,
        _ => None,
    };
    MetaInfo { schema: d.schema, nnz }
}

fn name(n: &str) -> MetaInfo {
    info(Schema::Name(n.to_string()))
}

fn mat(r: usize, c: usize) -> MetaInfo {
    info(Schema::Mat(r, c))
}

fn bound(i: &str, j: &str, m: MetaInfo) -> MetaInfo {
    known(&Math::Bind([0, 1, 2]), vec![name(i), name(j), m])
}

fn unbound(i: &str, j: &str, m: MetaInfo) -> MetaInfo {
    known(&Math::Ubnd([0, 1, 2]), vec![name(i), name(j), m])
}

fn summed(i: &str, n: usize, m: MetaInfo) -> MetaInfo {
    known(&Math::Agg([0, 1]), vec![info(Schema::Dims(i.to_string(), n)), m])
}

fn shape(m: &MetaInfo) -> (usize, usize) {
    let (r, c) = m.schema.as_ref().unwrap().get_mat();
    (*r, *c)
}

fn rel(pairs: &[(&str, usize)]) -> MetaInfo {
    let mut d = DimMap::new();
    for (k, v) in pairs {
        d.insert(k.to_string(), *v);
    }
    info(Schema::Schm(d))
}

fn same_rel(a: &MetaInfo, b: &MetaInfo) -> bool {
    a.schema.as_ref().unwrap().same_as(b.schema.as_ref().unwrap())
}

#[test]
fn cell_product_translation_keeps_shape() {
    // (b- vmul_i5 vmul_j5 (* (b+ _ vmul_j5 ?x) (b+ vmul_i5 vmul_j5 ?y))) for 1x20 and 10x20
    let bx = bound("_", "vmul_j5", mat(1, 20));
    let by = bound("vmul_i5", "vmul_j5", mat(10, 20));
    let cell = known(&Math::Mul([0, 1]), vec![bx, by]);
    let back = unbound("vmul_i5", "vmul_j5", cell);
    let la = known(&Math::LMul([0, 1]), vec![mat(1, 20), mat(10, 20)]);
    assert_eq!(shape(&back), shape(&la));
    assert_eq!(shape(&back), (10, 20));
}

#[test]
fn transpose_translation_keeps_shape() {
    let back = unbound("vtrans_j1", "vtrans_i1", bound("vtrans_i1", "vtrans_j1", mat(10, 20)));
    assert_eq!(shape(&back), (20, 10));
}

#[test]
fn sums_translation_keep_shape() {
    let a = || bound("vsrow_i2", "vsrow_j2", mat(10, 20));
    assert_eq!(shape(&unbound("vsrow_i2", "_", summed("vsrow_j2", 20, a()))), (10, 1));
    assert_eq!(shape(&unbound("_", "vsrow_j2", summed("vsrow_i2", 10, a()))), (1, 20));
    let b = bound("vsall_i2", "vsall_j2", mat(10, 20));
    let total = summed("vsall_i2", 10, summed("vsall_j2", 20, b));
    assert_eq!(shape(&unbound("_", "_", total)), (1, 1));
}

#[test]
fn matrix_product_translation_keeps_shape() {
    let x = bound("vmmul_i3", "vmmul_j3", mat(10, 20));
    let y = bound("vmmul_j3", "vmmul_k3", mat(20, 5));
    let body = known(&Math::Mul([0, 1]), vec![x, y]);
    let back = unbound("vmmul_i3", "vmmul_k3", summed("vmmul_j3", 20, body));
    assert_eq!(shape(&back), (10, 5));
}

#[test]
fn matrix_read_translation_keeps_shape() {
    let dim_i = known(&Math::Dim([0, 1]), vec![name("vmat_i7"), info(Schema::Size(10))]);
    let dim_j = known(&Math::Dim([0, 1]), vec![name("_"), info(Schema::Size(1))]);
    let nnz = known(&Math::Nnz([0]), vec![info(Schema::Size(4))]);
    let m = known(&Math::Mat([0, 1, 2, 3]), vec![name("x"), dim_i, dim_j, nnz]);
    assert_eq!(shape(&unbound("vmat_i7", "_", m)), (10, 1));
}

#[test]
fn ra_bind_keeps_schema() {
    let e = rel(&[("i", 10), ("j", 5)]);
    let back = bound("j", "i", unbound("j", "i", rel(&[("i", 10), ("j", 5)])));
    assert!(same_rel(&back, &e));
    let one = rel(&[("i", 10)]);
    assert!(same_rel(&bound("_", "i", unbound("_", "i", rel(&[("i", 10)]))), &one));
}

#[test]
fn ra_sum_keeps_schema() {
    let s = summed("i", 10, rel(&[("i", 10), ("j", 5)]));
    let col = known(&Math::Scol([0]), vec![unbound("i", "j", rel(&[("i", 10), ("j", 5)]))]);
    assert!(same_rel(&bound("_", "j", col), &s));
    let row = known(&Math::Srow([0]), vec![unbound("j", "i", rel(&[("i", 10), ("j", 5)]))]);
    assert!(same_rel(&bound("j", "_", row), &s));
}

#[test]
fn ra_add_keeps_schema() {
    let sum = known(&Math::Add([0, 1]), vec![rel(&[("i", 10), ("j", 5)]), rel(&[("i", 10)])]);
    let la = known(
        &Math::LAdd([0, 1]),
        vec![unbound("i", "j", rel(&[("i", 10), ("j", 5)])), unbound("i", "j", rel(&[("i", 10)]))],
    );
    assert!(same_rel(&bound("i", "j", la), &sum));
}

fn lit(n: i32) -> MetaInfo {
    known(&Math::Lit([0]), vec![known(&Math::Num(n), vec![])])
}

fn times(a: MetaInfo, b: MetaInfo) -> MetaInfo {
    known(&Math::Mul([0, 1]), vec![a, b])
}

fn plus(a: MetaInfo, b: MetaInfo) -> MetaInfo {
    known(&Math::Add([0, 1]), vec![a, b])
}

fn dims_info(i: &str, n: usize) -> MetaInfo {
    info(Schema::Dims(i.to_string(), n))
}

fn renamed(e: MetaInfo, v: MetaInfo, m: MetaInfo) -> MetaInfo {
    known(&Math::Sub([0, 1, 2]), vec![e, v, m])
}

#[test]
fn sum_over_missing_dimension_scales() {
    let l = summed("k", 10, rel(&[("i", 3)]));
    let r = times(rel(&[("i", 3)]), lit(10));
    assert!(same_rel(&l, &r));
}

#[test]
fn factor_moves_through_sum() {
    let a = || rel(&[("i", 3)]);
    let b = || rel(&[("k", 4), ("j", 5)]);
    assert!(same_rel(&summed("k", 4, times(a(), b())), &times(a(), summed("k", 4, b()))));
    let b2 = || rel(&[("i", 3), ("j", 5)]);
    let l = summed("v9", 3, times(a(), renamed(dims_info("v9", 3), dims_info("i", 3), b2())));
    assert!(same_rel(&l, &times(a(), summed("i", 3, b2()))));
}

#[test]
fn sum_of_product_is_relational_matrix_product() {
    let a = || rel(&[("i", 2), ("j", 3)]);
    let b = || rel(&[("j", 3), ("k", 4)]);
    let rm = known(&Math::RMMul([0, 1]), vec![a(), b()]);
    assert!(same_rel(&rm, &summed("j", 3, times(a(), b()))));
}

#[test]
fn sums_and_products_commute_and_associate() {
    let a = || rel(&[("i", 2), ("j", 3)]);
    let b = || rel(&[("j", 3), ("k", 4)]);
    let c = || rel(&[("l", 5)]);
    assert!(same_rel(&plus(a(), b()), &plus(b(), a())));
    assert!(same_rel(&times(a(), b()), &times(b(), a())));
    assert!(same_rel(&plus(a(), plus(b(), c())), &plus(plus(a(), b()), c())));
    assert!(same_rel(&times(a(), times(b(), c())), &times(times(a(), b()), c())));
}

#[test]
fn renaming_commutes_with_sums() {
    let body = || rel(&[("i", 3), ("w", 4)]);
    let l = renamed(dims_info("e", 3), dims_info("i", 3), summed("w", 4, body()));
    let r = summed("w", 4, renamed(dims_info("e", 3), dims_info("i", 3), body()));
    assert!(same_rel(&l, &r));
    assert!(same_rel(&l, &rel(&[("e", 3)])));
}

#[test]
fn renaming_through_a_binder() {
    let l = renamed(dims_info("j", 3), dims_info("k", 3), bound("k", "l", mat(3, 4)));
    assert!(same_rel(&l, &bound("j", "l", mat(3, 4))));
    let l = renamed(dims_info("j", 4), dims_info("l", 4), bound("k", "l", mat(3, 4)));
    assert!(same_rel(&l, &bound("k", "j", mat(3, 4))));
}

#[test]
fn ra_mul_keeps_schema() {
    let a = || rel(&[("i", 10)]);
    let b = || rel(&[("i", 10), ("j", 5)]);
    let prod = times(a(), b());
    let cell = known(&Math::LMul([0, 1]), vec![unbound("i", "_", a()), unbound("i", "j", b())]);
    assert!(same_rel(&bound("i", "j", cell), &prod));
    let c = || rel(&[("j", 5)]);
    let outer = known(&Math::MMul([0, 1]), vec![unbound("i", "_", a()), unbound("_", "j", c())]);
    assert!(same_rel(&bound("i", "j", outer), &times(a(), c())));
}

#[test]
fn ra_matrix_product_keeps_schema() {
    let a = || rel(&[("i", 2), ("j", 3)]);
    let b = || rel(&[("j", 3), ("k", 4)]);
    let rm = known(&Math::RMMul([0, 1]), vec![a(), b()]);
    let mm = known(&Math::MMul([0, 1]), vec![unbound("i", "j", a()), unbound("j", "k", b())]);
    assert!(same_rel(&bound("i", "k", mm), &rm));
}

#[test]
fn rebinding_is_renaming() {
    let x = || rel(&[("i", 2), ("j", 3)]);
    let l = bound("k", "l", unbound("i", "j", x()));
    let r = renamed(dims_info("l", 3), dims_info("j", 3), renamed(dims_info("k", 2), dims_info("i", 2), x()));
    assert!(same_rel(&l, &r));
}

fn llit(n: i32) -> MetaInfo {
    known(&Math::LLit([0]), vec![known(&Math::Num(n), vec![])])
}

fn size(n: usize) -> MetaInfo {
    MetaInfo { schema: Some(Schema::Size(n)), nnz: Some(1) }
}

fn mat_read(i: &str, n: usize, j: &str, m: usize) -> MetaInfo {
    let di = known(&Math::Dim([0, 1]), vec![name(i), size(n)]);
    let dj = known(&Math::Dim([0, 1]), vec![name(j), size(m)]);
    let z = known(&Math::Nnz([0]), vec![size(6)]);
    known(&Math::Mat([0, 1, 2, 3]), vec![name("x"), di, dj, z])
}

#[test]
fn fixed_linear_algebra_rewrites_keep_shape() {
    let neg = known(&Math::LMul([0, 1]), vec![llit(-1), mat(3, 4)]);
    let sum = known(&Math::LAdd([0, 1]), vec![mat(3, 1), neg]);
    let diff = known(&Math::LMin([0, 1]), vec![mat(3, 1), mat(3, 4)]);
    assert_eq!(shape(&sum), shape(&diff));
    assert_eq!(shape(&unbound("i", "j", lit(5))), shape(&llit(5)));
    assert!(same_rel(&bound("i", "j", llit(5)), &lit(5)));
    let rs = known(&Math::Srow([0]), vec![known(&Math::Scol([0]), vec![mat(3, 4)])]);
    assert_eq!(shape(&rs), (1, 1));
    assert_eq!(shape(&unbound("j", "i", bound("i", "j", mat(3, 4)))), (4, 3));
    let sq = known(&Math::Udf(vec![0, 1, 2]), vec![name("b(^)"), mat(3, 4), llit(2)]);
    assert_eq!(shape(&sq), shape(&known(&Math::LMul([0, 1]), vec![mat(3, 4), mat(3, 4)])));
}

#[test]
fn matrix_read_is_bound_read() {
    let lm = known(&Math::LMat([0, 1, 2, 3]), vec![name("x"), size(3), size(4), size(6)]);
    assert!(same_rel(&mat_read("i", 3, "j", 4), &bound("i", "j", lm)));
}

#[test]
fn fixed_renaming_rewrites_keep_schema() {
    assert!(same_rel(&summed("_", 1, rel(&[("i", 3)])), &rel(&[("i", 3)])));
    assert!(same_rel(&renamed(dims_info("e", 3), dims_info("i", 3), lit(2)), &lit(2)));
    assert!(same_rel(&renamed(dims_info("_", 3), dims_info("_", 4), rel(&[("i", 3)])), &rel(&[("i", 3)])));
    let l = renamed(dims_info("e", 3), dims_info("i", 3), plus(rel(&[("i", 3)]), rel(&[("j", 2)])));
    let r = plus(
        renamed(dims_info("e", 3), dims_info("i", 3), rel(&[("i", 3)])),
        renamed(dims_info("e", 3), dims_info("i", 3), rel(&[("j", 2)])),
    );
    assert!(same_rel(&l, &r));
    let dim_i = known(&Math::Dim([0, 1]), vec![name("i"), size(3)]);
    let dim_j = known(&Math::Dim([0, 1]), vec![name("j"), size(4)]);
    let z = known(&Math::Nnz([0]), vec![size(6)]);
    let m2 = known(
        &Math::Mat([0, 1, 2, 3]),
        vec![
            name("x"),
            renamed(dims_info("e", 3), dims_info("i", 3), dim_i),
            renamed(dims_info("e", 3), dims_info("i", 3), dim_j),
            z,
        ],
    );
    assert!(same_rel(&renamed(dims_info("e", 3), dims_info("i", 3), mat_read("i", 3, "j", 4)), &m2));
}

#[test]
fn fixed_relational_rewrites_keep_schema() {
    let m = || mat_read("w", 5, "w", 5);
    let ind = known(&Math::Ind([0, 1]), vec![rel(&[("i", 3)]), m()]);
    assert!(same_rel(&summed("w", 5, times(ind, m())), &rel(&[("i", 3)])));
    assert!(same_rel(&plus(rel(&[("i", 3)]), rel(&[("i", 3)])), &times(lit(2), rel(&[("i", 3)]))));
    let a = || rel(&[("i", 3)]);
    let b = || rel(&[("j", 4)]);
    let c = || rel(&[("i", 3), ("k", 2)]);
    assert!(same_rel(&times(a(), plus(b(), c())), &plus(times(a(), b()), times(a(), c()))));
    assert!(same_rel(&plus(times(b(), a()), a()), &times(plus(b(), lit(1)), a())));
    let s = summed("i", 3, plus(a(), c()));
    assert!(same_rel(&s, &plus(summed("i", 3, a()), summed("i", 3, c()))));
    assert!(same_rel(&summed("i", 3, summed("k", 2, c())), &summed("k", 2, summed("i", 3, c()))));
}
