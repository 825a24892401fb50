//! Properties of the library that span several functions or hold for all inputs.
use vstd::prelude::*;
use crate::analysis::{
    DerivedView, NnzRule, bcast, dims_compatible, has_mat, made, make_spec, min_nnz, rename_dim,
    bound_schema, size_or_one,
};
use crate::dims::map_vol;
use crate::hop::{HopOpView, parse_op_spec, is_la_name, parse_hop_ok, parsed_u32s, hop_meta, parse_hop_spec};
use crate::show::{dag_line_ok, dag_line_spec, decimal, decimal_roundtrip, id_list, lemma_decimal_digits, op_text};
use crate::text::{is_digit, lemma_split_concat, lemma_split_single, parse_u32_spec, split_seq};
use crate::math::{Id, Math, children, dml_name, is_la_op, la_node, la_op_arity, reveal_la_names, trans_cost};
use crate::schema::{MetaInfoView, SchemaView, schema_vol};
use crate::rules::{agg_mmul_ok, binder, fresh_text, la_mmul_text, named_dims, own, pair_of_keys, size_text};

verus! {

/// The analysis data that a derivation fixes without sparsities: its schema, and its
/// number of non-zeros where that is known outright.
pub open spec fn known_info(d: DerivedView) -> MetaInfoView {
    MetaInfoView {
        schema: d.schema,
        nnz: match d.nnz {
            NnzRule::Known(z) => z,
            _ => None,
        },
    }
}

/// The data of a name.
pub open spec fn name_info(n: Seq<char>) -> MetaInfoView {
    MetaInfoView { schema: Some(SchemaView::Name(n)), nnz: Some(1) }
}

/// The data of a matrix of `r` rows and `c` columns with `z` non-zeros.
pub open spec fn mat_info(r: usize, c: usize, z: Option<usize>) -> MetaInfoView {
    MetaInfoView { schema: Some(SchemaView::Mat(r, c)), nnz: z }
}

/// Whether two shapes can be combined cell by cell does not depend on their order.
pub proof fn dims_ok_symmetric(x_i: usize, x_j: usize, y_i: usize, y_j: usize)
    ensures
        dims_compatible(x_i, x_j, y_i, y_j) == dims_compatible(y_i, y_j, x_i, x_j),
{
}

/// The shape of a cell-by-cell sum, difference or product of two compatible matrices
/// does not depend on the order of the operands.
pub proof fn elementwise_shape_symmetric(a: MetaInfoView, b: MetaInfoView, x: Id, y: Id)
    requires
        has_mat(a),
        has_mat(b),
        dims_compatible(
            crate::analysis::krows(a),
            crate::analysis::kcols(a),
            crate::analysis::krows(b),
            crate::analysis::kcols(b),
        ),
    ensures
        make_spec(Math::LAdd([x, y]), seq![a, b]).schema == make_spec(
            Math::LAdd([y, x]),
            seq![b, a],
        ).schema,
        make_spec(Math::LMul([x, y]), seq![a, b]).schema == make_spec(
            Math::LMul([y, x]),
            seq![b, a],
        ).schema,
        make_spec(Math::LMin([x, y]), seq![a, b]).schema == make_spec(
            Math::LMin([y, x]),
            seq![b, a],
        ).schema,
{
}

/// Transposing a matrix twice gives back its shape.
pub proof fn transpose_twice(r: usize, c: usize, z: Option<usize>, x: Id, y: Id)
    ensures
        known_info(
            make_spec(Math::LTrs([y]), seq![known_info(make_spec(Math::LTrs([x]), seq![mat_info(r, c, z)]))]),
        ).schema == Some(SchemaView::Mat(r, c)),
{
}

/// Binding the rows and columns of a matrix to two different names and unbinding
/// them again gives back the matrix's shape and non-zeros.
pub proof fn unbind_after_bind(
    i: Seq<char>,
    j: Seq<char>,
    r: usize,
    c: usize,
    z: Option<usize>,
    ni: Id,
    nj: Id,
    x: Id,
    b: Id,
)
    requires
        i != j,
    ensures
        ({
            let bound = known_info(
                make_spec(Math::Bind([ni, nj, x]), seq![name_info(i), name_info(j), mat_info(r, c, z)]),
            );
            known_info(make_spec(Math::Ubnd([ni, nj, b]), seq![name_info(i), name_info(j), bound]))
                == mat_info(r, c, z)
        }),
{
    let s = bound_schema(i, r, j, c);
    assert(size_or_one(s, i) == r);
    assert(size_or_one(s, j) == c);
}

/// Binding the rows and columns of a matrix to two different names keeps its number of
/// cells.
pub proof fn bind_keeps_volume(
    i: Seq<char>,
    j: Seq<char>,
    r: usize,
    c: usize,
    z: Option<usize>,
    ni: Id,
    nj: Id,
    x: Id,
)
    requires
        i != j,
    ensures
        schema_vol(
            make_spec(
                Math::Bind([ni, nj, x]),
                seq![name_info(i), name_info(j), mat_info(r, c, z)],
            ).schema.unwrap(),
        ) == r * c,
{
    let s0 = Map::<Seq<char>, usize>::empty();
    assert(map_vol(s0) == 1) by {
        assert(s0.len() == 0);
    }
    let s1 = if r != 1 {
        s0.insert(i, r)
    } else {
        s0
    };
    if r != 1 {
        crate::dims::lemma_vol_of_insert(s0, i, r);
    }
    assert(map_vol(s1) == r);
    if c != 1 {
        assert(!s1.dom().contains(j));
        crate::dims::lemma_vol_of_insert(s1, j, c);
        assert(map_vol(s1.insert(j, c)) == c * r);
        assert(c * r == r * c) by (nonlinear_arith);
    }
}

/// Summing a relation over one of its dimensions divides its number of cells by the
/// size of that dimension.
pub proof fn sum_divides_volume(s: Map<Seq<char>, usize>, k: Seq<char>)
    requires
        s.dom().finite(),
        s.dom().contains(k),
    ensures
        map_vol(s) == s[k] * map_vol(s.remove(k)),
{
    crate::dims::lemma_vol_of_remove(s, k);
}

/// Renaming a dimension to a name the relation does not use keeps its number of cells.
pub proof fn rename_keeps_volume(s: Map<Seq<char>, usize>, v: Seq<char>, e: Seq<char>)
    requires
        s.dom().finite(),
        !s.dom().contains(e) || e == v,
    ensures
        map_vol(rename_dim(s, v, e)) == map_vol(s),
{
    if s.dom().contains(v) {
        crate::dims::lemma_vol_of_remove(s, v);
        let t = s.remove(v);
        assert(!t.dom().contains(e));
        crate::dims::lemma_vol_of_insert(t, e, s[v]);
    }
}

/// Merging numbers of non-zeros does not depend on the order of the classes.
pub proof fn merge_nnz_commutative(a: Option<usize>, b: Option<usize>)
    ensures
        min_nnz(a, b) == min_nnz(b, a),
{
}

/// Merging numbers of non-zeros does not depend on how merges are grouped.
pub proof fn merge_nnz_associative(a: Option<usize>, b: Option<usize>, c: Option<usize>)
    ensures
        min_nnz(min_nnz(a, b), c) == min_nnz(a, min_nnz(b, c)),
{
}

/// Merging a number of non-zeros with itself changes nothing.
pub proof fn merge_nnz_idempotent(a: Option<usize>)
    ensures
        min_nnz(a, a) == a,
{
}

/// The union of a relation schema with itself is that schema.
pub proof fn union_idempotent(s: Map<Seq<char>, usize>)
    ensures
        s.union_prefer_right(s) == s,
{
    assert(s.union_prefer_right(s) =~= s);
}

/// The dimensions of a union of relation schemas are those of either.
pub proof fn union_dims(a: Map<Seq<char>, usize>, b: Map<Seq<char>, usize>)
    ensures
        a.union_prefer_right(b).dom() == a.dom().union(b.dom()),
{
    assert(a.union_prefer_right(b).dom() =~= a.dom().union(b.dom()));
}

/// The HOP name of a linear-algebra operator node names an operator of the node's arity,
/// and building the node for that name from the node's operands gives the node back.
pub proof fn la_name_roundtrip(n: Math)
    requires
        is_la_op(n),
    ensures
        la_op_arity(dml_name(n)) == Some(children(n).len()),
        la_node(dml_name(n), children(n)) == n,
{
    reveal_la_names();
    match n {
        Math::LAdd(a) => assert([a@[0], a@[1]] =~= a),
        Math::LMin(a) => assert([a@[0], a@[1]] =~= a),
        Math::LMul(a) => assert([a@[0], a@[1]] =~= a),
        Math::MMul(a) => assert([a@[0], a@[1]] =~= a),
        Math::LTrs(a) => assert([a@[0]] =~= a),
        Math::Srow(a) => assert([a@[0]] =~= a),
        Math::Scol(a) => assert([a@[0]] =~= a),
        Math::Sall(a) => assert([a@[0]] =~= a),
        _ => {},
    }
}

/// Reading back the HOP name of a linear-algebra operator node gives that operator.
pub proof fn la_name_parses_back(n: Math)
    requires
        is_la_op(n),
    ensures
        is_la_name(dml_name(n)),
        parse_op_spec(dml_name(n)) == HopOpView::Op(dml_name(n)),
{
}

// ---- translation to relations keeps shapes ------------------------------------------

/// The data of `(b+ i j x)` for a matrix `x` with data `m`.
pub open spec fn bound(i: Seq<char>, j: Seq<char>, m: MetaInfoView) -> MetaInfoView {
    known_info(make_spec(Math::Bind([0, 0, 0]), seq![name_info(i), name_info(j), m]))
}

/// The data of `(b- i j x)` for a relation `x` with data `m`.
pub open spec fn unbound(i: Seq<char>, j: Seq<char>, m: MetaInfoView) -> MetaInfoView {
    known_info(make_spec(Math::Ubnd([0, 0, 0]), seq![name_info(i), name_info(j), m]))
}

/// The data of `(dim i n)`, the size written as the pattern language writes it.
pub open spec fn dim_data(i: Seq<char>, n: usize) -> MetaInfoView {
    known_info(
        make_spec(
            Math::Dim([0, 0]),
            seq![name_info(i), known_info(make_spec(Math::Num(n as i32), Seq::empty()))],
        ),
    )
}

/// The data of `(sum (dim i n) x)` for a relation `x` with data `m`.
pub open spec fn summed(i: Seq<char>, n: usize, m: MetaInfoView) -> MetaInfoView {
    known_info(make_spec(Math::Agg([0, 0]), seq![dim_data(i, n), m]))
}

/// The data of `(* x y)` for relations `x`, `y` with data `a`, `b`.
pub open spec fn times(a: MetaInfoView, b: MetaInfoView) -> MetaInfoView {
    known_info(make_spec(Math::Mul([0, 0]), seq![a, b]))
}

/// Fresh names made from prefixes of one length that differ somewhere are distinct,
/// and neither is the wildcard.
proof fn lemma_fresh_distinct(p: Seq<char>, q: Seq<char>, h: u64, k: int)
    requires
        p.len() == q.len(),
        p.len() >= 2,
        0 <= k < p.len(),
        p[k] != q[k],
    ensures
        fresh_text(p, h) != fresh_text(q, h),
        fresh_text(p, h) != "_"@,
        fresh_text(q, h) != "_"@,
{
    reveal_strlit("_");
    assert(fresh_text(p, h)[k] == p[k]);
    assert(fresh_text(q, h)[k] == q[k]);
    assert(fresh_text(p, h).len() >= 2);
    assert(fresh_text(q, h).len() >= 2);
}

/// The schema of `(b+ xi xj x)` for a matrix of `r`×`c` where `xi`, `xj` are the
/// binders of its axes for two fresh names.
proof fn lemma_bound_fresh(fi: Seq<char>, fj: Seq<char>, r: usize, c: usize, z: Option<usize>)
    requires
        fi != fj,
        fi != "_"@,
        fj != "_"@,
    ensures
        ({
            let s = kschm_of(bound(binder(r as int, fi), binder(c as int, fj), mat_info(r, c, z)));
            &&& s.dom() == (if r != 1 { set![fi] } else { Set::empty() }).union(
                if c != 1 { set![fj] } else { Set::empty() },
            )
            &&& r != 1 ==> s[fi] == r
            &&& c != 1 ==> s[fj] == c
            &&& bound(binder(r as int, fi), binder(c as int, fj), mat_info(r, c, z)).schema is Some
            &&& bound(binder(r as int, fi), binder(c as int, fj), mat_info(r, c, z)).schema.unwrap() is Schm
        }),
{
    let s = kschm_of(bound(binder(r as int, fi), binder(c as int, fj), mat_info(r, c, z)));
    assert(s.dom() =~= (if r != 1 { set![fi] } else { Set::empty() }).union(
        if c != 1 { set![fj] } else { Set::empty() },
    ));
}

/// The dimension sizes of a relation's data (none for any other).
pub open spec fn kschm_of(m: MetaInfoView) -> Map<Seq<char>, usize> {
    crate::analysis::kschm(m)
}

/// Translating a cell-by-cell sum (`add`) or product of two compatible matrices to
/// relations keeps its shape: `(b- I J (OP (b+ XI XJ ?x) (b+ YI YJ ?y)))`, with the
/// names that [`crate::rules::la_add_pattern`] and [`crate::rules::la_mul_pattern`]
/// choose, has by the analysis the shape of the matrix operation.
pub proof fn elementwise_translation_keeps_shape(
    add: bool,
    x_i: usize,
    x_j: usize,
    y_i: usize,
    y_j: usize,
    h: u64,
    zx: Option<usize>,
    zy: Option<usize>,
)
    requires
        dims_compatible(x_i, x_j, y_i, y_j),
    ensures
        ({
            let p = if add {
                "vadd"@
            } else {
                "vmul"@
            };
            let fi = fresh_text(p + "_i"@, h);
            let fj = fresh_text(p + "_j"@, h);
            let x = mat_info(x_i, x_j, zx);
            let y = mat_info(y_i, y_j, zy);
            let bx = bound(binder(x_i as int, fi), binder(x_j as int, fj), x);
            let by = bound(binder(y_i as int, fi), binder(y_j as int, fj), y);
            let cell = known_info(
                make_spec(
                    if add {
                        Math::Add([0, 0])
                    } else {
                        Math::Mul([0, 0])
                    },
                    seq![bx, by],
                ),
            );
            unbound(binder(x_i * y_i, fi), binder(x_j * y_j, fj), cell).schema == make_spec(
                if add {
                    Math::LAdd([0, 0])
                } else {
                    Math::LMul([0, 0])
                },
                seq![x, y],
            ).schema
        }),
{
    reveal_strlit("vadd");
    reveal_strlit("vmul");
    reveal_strlit("_i");
    reveal_strlit("_j");
    let p = if add {
        "vadd"@
    } else {
        "vmul"@
    };
    let pi = p + "_i"@;
    let pj = p + "_j"@;
    assert(pi[5] == 'i' && pj[5] == 'j');
    lemma_fresh_distinct(pi, pj, h, 5);
    let fi = fresh_text(pi, h);
    let fj = fresh_text(pj, h);
    let x = mat_info(x_i, x_j, zx);
    let y = mat_info(y_i, y_j, zy);
    lemma_bound_fresh(fi, fj, x_i, x_j, zx);
    lemma_bound_fresh(fi, fj, y_i, y_j, zy);
    let bx = bound(binder(x_i as int, fi), binder(x_j as int, fj), x);
    let by = bound(binder(y_i as int, fi), binder(y_j as int, fj), y);
    let m = kschm_of(bx).union_prefer_right(kschm_of(by));
    assert(x_i * y_i == 1 <==> (x_i == 1 && y_i == 1)) by (nonlinear_arith);
    assert(x_j * y_j == 1 <==> (x_j == 1 && y_j == 1)) by (nonlinear_arith);
    assert(size_or_one(m, binder(x_i * y_i, fi)) == bcast(x_i, y_i));
    assert(size_or_one(m, binder(x_j * y_j, fj)) == bcast(x_j, y_j));
}

/// Translating a transpose to relations keeps its shape: `(b- J I (b+ I J ?a))`, with
/// the names that [`crate::rules::la_trans_pattern`] chooses, has the transposed shape.
pub proof fn transpose_translation_keeps_shape(a_i: usize, a_j: usize, h: u64, z: Option<usize>)
    ensures
        ({
            let i = binder(a_i as int, fresh_text("vtrans_i"@, h));
            let j = binder(a_j as int, fresh_text("vtrans_j"@, h));
            let a = mat_info(a_i, a_j, z);
            unbound(j, i, bound(i, j, a)).schema == make_spec(Math::LTrs([0]), seq![a]).schema
        }),
{
    reveal_strlit("vtrans_i");
    reveal_strlit("vtrans_j");
    assert("vtrans_i"@[7] != "vtrans_j"@[7]);
    lemma_fresh_distinct("vtrans_i"@, "vtrans_j"@, h, 7);
    lemma_bound_fresh(fresh_text("vtrans_i"@, h), fresh_text("vtrans_j"@, h), a_i, a_j, z);
}

/// Translating row sums to relations keeps their shape:
/// `(b- I _ (sum (dim J a_j) (b+ I J ?a)))`, with the names that
/// [`crate::rules::la_srow_pattern`] chooses, is an `a_i`×1 matrix.
pub proof fn row_sums_translation_keeps_shape(a_i: usize, a_j: usize, h: u64, z: Option<usize>)
    ensures
        ({
            let i = binder(a_i as int, fresh_text("vsrow_i"@, h));
            let j = binder(a_j as int, fresh_text("vsrow_j"@, h));
            let a = mat_info(a_i, a_j, z);
            unbound(i, "_"@, summed(j, a_j, bound(i, j, a))).schema == make_spec(
                Math::Srow([0]),
                seq![a],
            ).schema
        }),
{
    reveal_strlit("vsrow_i");
    reveal_strlit("vsrow_j");
    reveal_strlit("_");
    assert("vsrow_i"@[6] != "vsrow_j"@[6]);
    lemma_fresh_distinct("vsrow_i"@, "vsrow_j"@, h, 6);
    let fi = fresh_text("vsrow_i"@, h);
    let fj = fresh_text("vsrow_j"@, h);
    lemma_bound_fresh(fi, fj, a_i, a_j, z);
    let s = kschm_of(bound(binder(a_i as int, fi), binder(a_j as int, fj), mat_info(a_i, a_j, z)));
    let r = s.remove(binder(a_j as int, fj));
    assert(r.dom() =~= (if a_i != 1 { set![fi] } else { Set::empty() }));
    assert(size_or_one(r, binder(a_i as int, fi)) == a_i);
    assert(size_or_one(r, "_"@) == 1);
}

/// Translating column sums to relations keeps their shape:
/// `(b- _ J (sum (dim I a_i) (b+ I J ?a)))`, with the names that
/// [`crate::rules::la_scol_pattern`] chooses, is a 1×`a_j` matrix.
pub proof fn column_sums_translation_keeps_shape(a_i: usize, a_j: usize, h: u64, z: Option<usize>)
    ensures
        ({
            let i = binder(a_i as int, fresh_text("vsrow_i"@, h));
            let j = binder(a_j as int, fresh_text("vsrow_j"@, h));
            let a = mat_info(a_i, a_j, z);
            unbound("_"@, j, summed(i, a_i, bound(i, j, a))).schema == make_spec(
                Math::Scol([0]),
                seq![a],
            ).schema
        }),
{
    reveal_strlit("vsrow_i");
    reveal_strlit("vsrow_j");
    reveal_strlit("_");
    assert("vsrow_i"@[6] != "vsrow_j"@[6]);
    lemma_fresh_distinct("vsrow_i"@, "vsrow_j"@, h, 6);
    let fi = fresh_text("vsrow_i"@, h);
    let fj = fresh_text("vsrow_j"@, h);
    lemma_bound_fresh(fi, fj, a_i, a_j, z);
    let s = kschm_of(bound(binder(a_i as int, fi), binder(a_j as int, fj), mat_info(a_i, a_j, z)));
    let r = s.remove(binder(a_i as int, fi));
    assert(r.dom() =~= (if a_j != 1 { set![fj] } else { Set::empty() }));
    assert(size_or_one(r, binder(a_j as int, fj)) == a_j);
    assert(size_or_one(r, "_"@) == 1);
}

/// Translating the sum of all cells to relations keeps its shape:
/// `(b- _ _ (sum (dim I a_i) (sum (dim J a_j) (b+ I J ?a))))`, with the names that
/// [`crate::rules::la_sall_pattern`] chooses, is a 1×1 matrix.
pub proof fn total_sum_translation_keeps_shape(a_i: usize, a_j: usize, h: u64, z: Option<usize>)
    ensures
        ({
            let i = binder(a_i as int, fresh_text("vsall_i"@, h));
            let j = binder(a_j as int, fresh_text("vsall_j"@, h));
            let a = mat_info(a_i, a_j, z);
            unbound("_"@, "_"@, summed(i, a_i, summed(j, a_j, bound(i, j, a)))).schema == make_spec(
                Math::Sall([0]),
                seq![a],
            ).schema
        }),
{
    reveal_strlit("vsall_i");
    reveal_strlit("vsall_j");
    reveal_strlit("_");
    assert("vsall_i"@[6] != "vsall_j"@[6]);
    lemma_fresh_distinct("vsall_i"@, "vsall_j"@, h, 6);
    let fi = fresh_text("vsall_i"@, h);
    let fj = fresh_text("vsall_j"@, h);
    lemma_bound_fresh(fi, fj, a_i, a_j, z);
    let s = kschm_of(bound(binder(a_i as int, fi), binder(a_j as int, fj), mat_info(a_i, a_j, z)));
    let r = s.remove(binder(a_j as int, fj)).remove(binder(a_i as int, fi));
    assert(r.dom() =~= Set::<Seq<char>>::empty());
    assert(size_or_one(r, "_"@) == 1);
}

/// Translating a matrix product to relations keeps its shape: the binders, product and
/// sum over the shared axis that [`crate::rules::la_mmul_pattern`] writes give, for an
/// `x_i`×`x_j` and a `x_j`×`y_k` matrix, an `x_i`×`y_k` matrix.
pub proof fn matrix_product_translation_keeps_shape(
    x_i: usize,
    x_j: usize,
    y_j: usize,
    y_k: usize,
    h: u64,
    zx: Option<usize>,
    zy: Option<usize>,
)
    requires
        x_j == y_j,
    ensures
        ({
            let fi = fresh_text("vmmul_i"@, h);
            let fj = fresh_text("vmmul_j"@, h);
            let fk = fresh_text("vmmul_k"@, h);
            let x = mat_info(x_i, x_j, zx);
            let y = mat_info(y_j, y_k, zy);
            let body = times(
                bound(binder(x_i as int, fi), binder(x_j as int, fj), x),
                bound(binder(y_j as int, fj), binder(y_k as int, fk), y),
            );
            let rel = if x_j * y_j == 1 {
                body
            } else {
                summed(fj, x_j, body)
            };
            unbound(binder(x_i as int, fi), binder(y_k as int, fk), rel).schema == make_spec(
                Math::MMul([0, 0]),
                seq![x, y],
            ).schema
        }),
{
    reveal_strlit("vmmul_i");
    reveal_strlit("vmmul_j");
    reveal_strlit("vmmul_k");
    assert("vmmul_i"@[6] != "vmmul_j"@[6]);
    assert("vmmul_i"@[6] != "vmmul_k"@[6]);
    assert("vmmul_j"@[6] != "vmmul_k"@[6]);
    lemma_fresh_distinct("vmmul_i"@, "vmmul_j"@, h, 6);
    lemma_fresh_distinct("vmmul_i"@, "vmmul_k"@, h, 6);
    lemma_fresh_distinct("vmmul_j"@, "vmmul_k"@, h, 6);
    let fi = fresh_text("vmmul_i"@, h);
    let fj = fresh_text("vmmul_j"@, h);
    let fk = fresh_text("vmmul_k"@, h);
    lemma_bound_fresh(fi, fj, x_i, x_j, zx);
    lemma_bound_fresh(fj, fk, y_j, y_k, zy);
    let bx = kschm_of(bound(binder(x_i as int, fi), binder(x_j as int, fj), mat_info(x_i, x_j, zx)));
    let by = kschm_of(bound(binder(y_j as int, fj), binder(y_k as int, fk), mat_info(y_j, y_k, zy)));
    let m = bx.union_prefer_right(by);
    assert(x_j * y_j == 1 <==> x_j == 1) by (nonlinear_arith)
        requires
            x_j == y_j,
    ;
    let r = if x_j == 1 {
        m
    } else {
        m.remove(fj)
    };
    assert(!r.dom().contains(fj) || x_j == 1);
    assert(size_or_one(r, binder(x_i as int, fi)) == x_i);
    assert(size_or_one(r, binder(y_k as int, fk)) == y_k);
}

/// Translating a matrix read to relations keeps its shape:
/// `(b- I J (mat ?x (dim I ?i) (dim J ?j) (nnz ?z)))`, with the names that
/// [`crate::rules::la_mat_pattern`] chooses from the sizes `n`, `m` of `?i`, `?j`, is
/// an `n`×`m` matrix.
pub proof fn matrix_read_translation_keeps_shape(
    x: MetaInfoView,
    n: usize,
    m: usize,
    sn: Option<usize>,
    sm: Option<usize>,
    zz: MetaInfoView,
    h: u64,
)
    ensures
        ({
            let i = binder(n as int, fresh_text("vmat_i"@, h));
            let j = binder(m as int, fresh_text("vmat_j"@, h));
            let size_i = MetaInfoView { schema: Some(SchemaView::Size(n)), nnz: sn };
            let size_j = MetaInfoView { schema: Some(SchemaView::Size(m)), nnz: sm };
            let dim_i = known_info(make_spec(Math::Dim([0, 0]), seq![name_info(i), size_i]));
            let dim_j = known_info(make_spec(Math::Dim([0, 0]), seq![name_info(j), size_j]));
            let nnz = known_info(make_spec(Math::Nnz([0]), seq![zz]));
            let rel = known_info(make_spec(Math::Mat([0, 0, 0, 0]), seq![x, dim_i, dim_j, nnz]));
            unbound(i, j, rel).schema == make_spec(
                Math::LMat([0, 0, 0, 0]),
                seq![x, size_i, size_j, zz],
            ).schema
        }),
{
    reveal_strlit("vmat_i");
    reveal_strlit("vmat_j");
    assert("vmat_i"@[5] != "vmat_j"@[5]);
    lemma_fresh_distinct("vmat_i"@, "vmat_j"@, h, 5);
    let fi = fresh_text("vmat_i"@, h);
    let fj = fresh_text("vmat_j"@, h);
    let s = bound_schema(binder(n as int, fi), n, binder(m as int, fj), m);
    assert(size_or_one(s, binder(n as int, fi)) == n);
    assert(size_or_one(s, binder(m as int, fj)) == m);
}

// ---- translation back to linear algebra keeps schemas ------------------------------

/// The data of a relation with dimension sizes `s`.
pub open spec fn rel_info(s: Map<Seq<char>, usize>, z: Option<usize>) -> MetaInfoView {
    MetaInfoView { schema: Some(SchemaView::Schm(s)), nnz: z }
}

/// Whether `s` is a relation schema as the analysis builds them: finite, without the
/// wildcard `_` and without dimensions of size 1.
pub open spec fn plain_schema(s: Map<Seq<char>, usize>) -> bool {
    &&& s.dom().finite()
    &&& !s.dom().contains("_"@)
    &&& forall|k: Seq<char>| #[trigger] s.dom().contains(k) ==> s[k] != 1
}

proof fn lemma_pair_of_keys(s: Map<Seq<char>, usize>, i: Seq<char>, j: Seq<char>)
    requires
        plain_schema(s),
        pair_of_keys(s, i, j),
    ensures
        s.dom() =~= (if i == "_"@ { Set::empty() } else { set![i] }).union(
            if j == "_"@ { Set::empty() } else { set![j] },
        ),
        i == "_"@ ==> j == "_"@,
        i != "_"@ && j != "_"@ ==> i != j,
{
    reveal_strlit("_");
    if s.len() == 0 {
        assert(s.dom() =~= Set::empty());
    }
}

/// Binding the matrix of a relation of at most two dimensions to the names that
/// [`crate::rules::ra_bind_patterns`] chooses gives the relation's schema back, either
/// way round.
pub proof fn ra_bind_keeps_schema(s: Map<Seq<char>, usize>, i: Seq<char>, j: Seq<char>, z: Option<usize>)
    requires
        plain_schema(s),
        pair_of_keys(s, i, j),
    ensures
        bound(i, j, unbound(i, j, rel_info(s, z))).schema == Some(SchemaView::Schm(s)),
        bound(j, i, unbound(j, i, rel_info(s, z))).schema == Some(SchemaView::Schm(s)),
{
    lemma_pair_of_keys(s, i, j);
    let a = bound_schema(i, size_or_one(s, i), j, size_or_one(s, j));
    let b = bound_schema(j, size_or_one(s, j), i, size_or_one(s, i));
    assert(a =~= s);
    assert(b =~= s);
}

/// Summing a relation over a dimension, where at most one dimension is left, is the
/// column sums (and the row sums) of its matrix, bound again: the two rewrites that
/// [`crate::rules::ra_sum_patterns`] writes keep the schema of the sum.
pub proof fn ra_sum_keeps_schema(
    x: Map<Seq<char>, usize>,
    i: Seq<char>,
    n: usize,
    j: Seq<char>,
    z: Option<usize>,
)
    requires
        plain_schema(x),
        pair_of_keys(x.remove(i), j, "_"@),
    ensures
        ({
            let e = rel_info(x, z);
            let s = summed(i, n, e).schema;
            &&& bound(
                "_"@,
                j,
                known_info(make_spec(Math::Scol([0]), seq![unbound(i, j, e)])),
            ).schema == s
            &&& bound(
                j,
                "_"@,
                known_info(make_spec(Math::Srow([0]), seq![unbound(j, i, e)])),
            ).schema == s
        }),
{
    reveal_strlit("_");
    let r = x.remove(i);
    assert(plain_schema(r));
    lemma_pair_of_keys(r, j, "_"@);
    let c = size_or_one(x, j);
    let a = bound_schema("_"@, 1, j, c);
    let b = bound_schema(j, c, "_"@, 1);
    assert(a =~= r);
    assert(b =~= r);
}

/// A sum of two relations whose dimensions agree in size, with at most two dimensions
/// together, is the sum of their matrices bound again, either way round (the rewrites
/// that [`crate::rules::ra_add_patterns`] writes), where the matrices can be added.
pub proof fn ra_add_keeps_schema(
    a: Map<Seq<char>, usize>,
    b: Map<Seq<char>, usize>,
    i: Seq<char>,
    j: Seq<char>,
    za: Option<usize>,
    zb: Option<usize>,
)
    requires
        plain_schema(a),
        plain_schema(b),
        forall|k: Seq<char>| a.dom().contains(k) && b.dom().contains(k) ==> a[k] == b[k],
        pair_of_keys(a.union_prefer_right(b), i, j),
        dims_compatible(size_or_one(a, i), size_or_one(a, j), size_or_one(b, i), size_or_one(b, j)),
        dims_compatible(size_or_one(a, j), size_or_one(a, i), size_or_one(b, j), size_or_one(b, i)),
    ensures
        ({
            let ea = rel_info(a, za);
            let eb = rel_info(b, zb);
            let s = known_info(make_spec(Math::Add([0, 0]), seq![ea, eb])).schema;
            &&& bound(
                i,
                j,
                known_info(
                    make_spec(Math::LAdd([0, 0]), seq![unbound(i, j, ea), unbound(i, j, eb)]),
                ),
            ).schema == s
            &&& bound(
                j,
                i,
                known_info(
                    make_spec(Math::LAdd([0, 0]), seq![unbound(j, i, ea), unbound(j, i, eb)]),
                ),
            ).schema == s
        }),
{
    reveal_strlit("_");
    let u = a.union_prefer_right(b);
    assert(u.dom() =~= a.dom().union(b.dom()));
    assert forall|k: Seq<char>| #[trigger] u.dom().contains(k) implies u[k] != 1 by {
        if b.dom().contains(k) {
            assert(u[k] == b[k]);
        } else {
            assert(u[k] == a[k]);
        }
    }
    assert(plain_schema(u));
    lemma_pair_of_keys(u, i, j);
    let ri = bcast(size_or_one(a, i), size_or_one(b, i));
    let rj = bcast(size_or_one(a, j), size_or_one(b, j));
    assert(bound_schema(i, ri, j, rj) =~= u);
    assert(bound_schema(j, rj, i, ri) =~= u);
}

// ---- relational rewrites keep schemas ------------------------------------------------

/// The data of `(lit n)`.
pub open spec fn lit_data(n: i32) -> MetaInfoView {
    known_info(make_spec(Math::Lit([0]), seq![known_info(make_spec(Math::Num(n), Seq::empty()))]))
}

/// The data of `(+ x y)` for relations `x`, `y` with data `a`, `b`.
pub open spec fn plus(a: MetaInfoView, b: MetaInfoView) -> MetaInfoView {
    known_info(make_spec(Math::Add([0, 0]), seq![a, b]))
}

/// The data of `(subst e v x)` for dimensions `e`, `v` with data `de`, `dv` and a
/// relation `x` with data `m`.
pub open spec fn renamed(de: MetaInfoView, dv: MetaInfoView, m: MetaInfoView) -> MetaInfoView {
    known_info(make_spec(Math::Sub([0, 0, 0]), seq![de, dv, m]))
}

/// The data of a dimension `(dim i n)` as the analysis derives it.
pub open spec fn dims_info(i: Seq<char>, n: usize) -> MetaInfoView {
    MetaInfoView { schema: Some(SchemaView::Dims(i, n)), nnz: None }
}

/// Whether two relation schemas agree on the sizes of the dimensions they share.
pub open spec fn agree(a: Map<Seq<char>, usize>, b: Map<Seq<char>, usize>) -> bool {
    forall|k: Seq<char>| a.dom().contains(k) && b.dom().contains(k) ==> a[k] == b[k]
}

/// Summing over a dimension that a relation lacks multiplies it by the dimension's
/// size without changing its schema: `(sum (dim k n) a)` and `(* a (lit n))` (the
/// rewrite of [`crate::rules::sum_ia_pattern`]) have the same schema.
pub proof fn sum_over_missing_dimension_keeps_schema(
    a: Map<Seq<char>, usize>,
    k: Seq<char>,
    n: usize,
    z: Option<usize>,
)
    requires
        !a.dom().contains(k),
    ensures
        summed(k, n, rel_info(a, z)).schema == times(rel_info(a, z), lit_data(n as i32)).schema,
{
    assert(a.remove(k) =~= a);
    assert(a.union_prefer_right(Map::empty()) =~= a);
}

/// A factor without the summed dimension moves in and out of a sum:
/// `(sum (dim k n) (* a b))` and `(* a (sum (dim k n) b))` (the rewrites of
/// [`crate::rules::pull_mul_pattern`] and [`crate::rules::push_mul_pattern`]) have the
/// same schema.
pub proof fn factor_outside_sum_keeps_schema(
    a: Map<Seq<char>, usize>,
    b: Map<Seq<char>, usize>,
    k: Seq<char>,
    n: usize,
    za: Option<usize>,
    zb: Option<usize>,
)
    requires
        !a.dom().contains(k),
    ensures
        summed(k, n, times(rel_info(a, za), rel_info(b, zb))).schema == times(
            rel_info(a, za),
            summed(k, n, rel_info(b, zb)),
        ).schema,
{
    assert(a.union_prefer_right(b).remove(k) =~= a.union_prefer_right(b.remove(k)));
}

/// A factor that has the summed dimension moves into the sum once the sum's dimension
/// is renamed to a fresh one `f`: `(sum (dim f n) (* a (subst (dim f n) (dim i m) b)))`
/// (the other rewrite of [`crate::rules::push_mul_pattern`]) has the schema of
/// `(* a (sum (dim i m) b))`.
pub proof fn factor_into_renamed_sum_keeps_schema(
    a: Map<Seq<char>, usize>,
    b: Map<Seq<char>, usize>,
    i: Seq<char>,
    m: usize,
    f: Seq<char>,
    n: usize,
    za: Option<usize>,
    zb: Option<usize>,
)
    requires
        !a.dom().contains(f),
        !b.dom().contains(f),
    ensures
        summed(
            f,
            n,
            times(rel_info(a, za), renamed(dim_data(f, n), dims_info(i, m), rel_info(b, zb))),
        ).schema == times(rel_info(a, za), summed(i, m, rel_info(b, zb))).schema,
{
    let rb = rename_dim(b, i, f);
    assert(a.union_prefer_right(rb).remove(f) =~= a.union_prefer_right(b.remove(i)));
}

/// A sum over `j` of a product of relations that share exactly `j` (and have two
/// dimensions at most) is their relational matrix product: `(sum (dim j n) (* a b))`
/// and `(rm* a b)` (the rewrite of [`crate::rules::agg_mmul_pattern`]) have the same
/// schema, whichever shared dimension the analysis contracts.
pub proof fn sum_of_product_is_matrix_product(
    a: Map<Seq<char>, usize>,
    b: Map<Seq<char>, usize>,
    j: Seq<char>,
    n: usize,
    za: Option<usize>,
    zb: Option<usize>,
    r: DerivedView,
)
    requires
        agg_mmul_ok(a, b, j),
        made(Math::RMMul([0, 0]), seq![rel_info(a, za), rel_info(b, zb)], r),
    ensures
        r.schema == summed(j, n, times(rel_info(a, za), rel_info(b, zb))).schema,
{
    let ka = rel_info(a, za);
    let kb = rel_info(b, zb);
    let c = choose|c: Seq<char>|
        #![trigger crate::analysis::kschm(ka).dom().contains(c), crate::analysis::kschm(kb).dom().contains(c)]
        crate::analysis::kschm(ka).dom().contains(c) && crate::analysis::kschm(kb).dom().contains(c)
            && {
            let s = crate::analysis::kschm(ka).union_prefer_right(crate::analysis::kschm(kb)).remove(c);
            r == DerivedView {
                schema: Some(SchemaView::Schm(s)),
                nnz: NnzRule::Known(Some(map_vol(s) as usize)),
            }
        };
    assert(a.dom().intersect(b.dom()).contains(c));
}

/// Sums and products of relations that agree on their shared dimensions do not depend
/// on the order of the operands (the commutativity rewrites keep the schema).
pub proof fn sum_and_product_commute(
    a: Map<Seq<char>, usize>,
    b: Map<Seq<char>, usize>,
    za: Option<usize>,
    zb: Option<usize>,
)
    requires
        agree(a, b),
    ensures
        plus(rel_info(a, za), rel_info(b, zb)).schema == plus(rel_info(b, zb), rel_info(a, za)).schema,
        times(rel_info(a, za), rel_info(b, zb)).schema == times(rel_info(b, zb), rel_info(a, za)).schema,
{
    assert(a.union_prefer_right(b) =~= b.union_prefer_right(a));
}

/// Sums and products of relations do not depend on how they are grouped (the
/// associativity rewrites keep the schema).
pub proof fn sum_and_product_associate(
    a: Map<Seq<char>, usize>,
    b: Map<Seq<char>, usize>,
    c: Map<Seq<char>, usize>,
    za: Option<usize>,
    zb: Option<usize>,
    zc: Option<usize>,
)
    ensures
        plus(rel_info(a, za), plus(rel_info(b, zb), rel_info(c, zc))).schema == plus(
            plus(rel_info(a, za), rel_info(b, zb)),
            rel_info(c, zc),
        ).schema,
        times(rel_info(a, za), times(rel_info(b, zb), rel_info(c, zc))).schema == times(
            times(rel_info(a, za), rel_info(b, zb)),
            rel_info(c, zc),
        ).schema,
{
    assert(a.union_prefer_right(b.union_prefer_right(c)) =~= a.union_prefer_right(b).union_prefer_right(c));
}

/// Renaming `v` to `e` commutes with summing over another dimension `w`:
/// `(subst e v (sum w body))` and `(sum w (subst e v body))` (the rewrite of
/// [`crate::rules::subst_agg_body`]) have the same schema where `w` is neither `v` nor
/// `e`; and where `w` is `v`, `(subst e v (sum v body))` has the schema of
/// `(sum v body)`.
pub proof fn rename_commutes_with_sum(
    body: Map<Seq<char>, usize>,
    e: Seq<char>,
    ne: usize,
    v: Seq<char>,
    nv: usize,
    w: Seq<char>,
    nw: usize,
    z: Option<usize>,
)
    ensures
        w != v && w != e ==> renamed(dims_info(e, ne), dims_info(v, nv), summed(w, nw, rel_info(body, z))).schema
            == summed(w, nw, renamed(dims_info(e, ne), dims_info(v, nv), rel_info(body, z))).schema,
        w == v ==> renamed(dims_info(e, ne), dims_info(v, nv), summed(w, nw, rel_info(body, z))).schema
            == summed(w, nw, rel_info(body, z)).schema,
{
    if w != v && w != e {
        assert(rename_dim(body.remove(w), v, e) =~= rename_dim(body, v, e).remove(w));
    }
}

/// Renaming a dimension inside a binder renames the binder's name instead:
/// `(subst (dim j m) (dim i n) (b+ k l x))` has the schema of `(b+ j l x)` where `i`
/// is `k`, of `(b+ k j x)` where `i` is `l`, and of `(b+ k l x)` otherwise (the
/// rewrite of [`crate::rules::subst_bind_pattern`]), for distinct names.
pub proof fn rename_through_binder(
    i: Seq<char>,
    n: usize,
    j: Seq<char>,
    m: usize,
    k: Seq<char>,
    l: Seq<char>,
    r: usize,
    c: usize,
    z: Option<usize>,
)
    requires
        k != l,
        j != k,
        j != l,
    ensures
        ({
            let x = mat_info(r, c, z);
            let lhs = renamed(dims_info(j, m), dims_info(i, n), bound(k, l, x)).schema;
            &&& i == k ==> lhs == bound(j, l, x).schema
            &&& i == l ==> lhs == bound(k, j, x).schema
            &&& i != k && i != l ==> lhs == bound(k, l, x).schema
        }),
{
    let s = bound_schema(k, r, l, c);
    if i == k {
        assert(rename_dim(s, i, j) =~= bound_schema(j, r, l, c));
    } else if i == l {
        assert(rename_dim(s, i, j) =~= bound_schema(k, r, j, c));
    } else {
        assert(rename_dim(s, i, j) =~= s);
    }
}

/// The data of `(l* x y)` for matrices `x`, `y` with data `a`, `b`.
pub open spec fn cell_times(a: MetaInfoView, b: MetaInfoView) -> MetaInfoView {
    known_info(make_spec(Math::LMul([0, 0]), seq![a, b]))
}

/// The data of `(m* x y)` for matrices `x`, `y` with data `a`, `b`.
pub open spec fn mat_times(a: MetaInfoView, b: MetaInfoView) -> MetaInfoView {
    known_info(make_spec(Math::MMul([0, 0]), seq![a, b]))
}

/// A product of two relations that agree on their shared dimensions, with at most two
/// dimensions together, keeps its schema when written as linear algebra the way
/// [`crate::rules::ra_mul_patterns`] writes it: where the dimensions of one are among
/// the other's, as a cell-by-cell product of the matrices (either way round); else as
/// the outer product of a column and a row.
pub proof fn ra_mul_keeps_schema(
    a: Map<Seq<char>, usize>,
    b: Map<Seq<char>, usize>,
    i: Seq<char>,
    j: Seq<char>,
    x: Seq<char>,
    y: Seq<char>,
    za: Option<usize>,
    zb: Option<usize>,
)
    requires
        plain_schema(a),
        plain_schema(b),
        agree(a, b),
        pair_of_keys(a.union_prefer_right(b), i, j),
    ensures
        ({
            let ea = rel_info(a, za);
            let eb = rel_info(b, zb);
            let sa = named_dims(a);
            let sb = named_dims(b);
            let s = times(ea, eb).schema;
            &&& (sa.subset_of(sb) || sb.subset_of(sa)) ==> bound(
                i,
                j,
                cell_times(unbound(own(sa, i), own(sa, j), ea), unbound(own(sb, i), own(sb, j), eb)),
            ).schema == s && bound(
                j,
                i,
                cell_times(unbound(own(sa, j), own(sa, i), ea), unbound(own(sb, j), own(sb, i), eb)),
            ).schema == s
            &&& (!(sa.subset_of(sb) || sb.subset_of(sa)) && sa.contains(x) && sb.contains(y))
                ==> bound(x, y, mat_times(unbound(x, "_"@, ea), unbound("_"@, y, eb))).schema == s
        }),
{
    reveal_strlit("_");
    let u = a.union_prefer_right(b);
    assert(u.dom() =~= a.dom().union(b.dom()));
    assert forall|k: Seq<char>| #[trigger] u.dom().contains(k) implies u[k] != 1 by {
        if b.dom().contains(k) {
            assert(u[k] == b[k]);
        } else {
            assert(u[k] == a[k]);
        }
    }
    assert(plain_schema(u));
    lemma_pair_of_keys(u, i, j);
    let sa = named_dims(a);
    let sb = named_dims(b);
    assert(sa =~= a.dom());
    assert(sb =~= b.dom());
    if sa.subset_of(sb) || sb.subset_of(sa) {
        let ai = size_or_one(a, own(sa, i));
        let aj = size_or_one(a, own(sa, j));
        let bi = size_or_one(b, own(sb, i));
        let bj = size_or_one(b, own(sb, j));
        assert(size_or_one(a, "_"@) == 1);
        assert(size_or_one(b, "_"@) == 1);
        assert(bound_schema(i, bcast(ai, bi), j, bcast(aj, bj)) =~= u);
        assert(bound_schema(j, bcast(aj, bj), i, bcast(ai, bi)) =~= u);
    } else if sa.contains(x) && sb.contains(y) {
        let k1 = choose|k: Seq<char>| sa.contains(k) && !sb.contains(k);
        let k2 = choose|k: Seq<char>| sb.contains(k) && !sa.contains(k);
        assert(a.dom() =~= set![x]) by {
            assert forall|k: Seq<char>| a.dom().contains(k) implies k == x by {
                assert(u.dom().contains(k) && u.dom().contains(k2) && u.dom().contains(x));
            }
        }
        assert(b.dom() =~= set![y]) by {
            assert forall|k: Seq<char>| b.dom().contains(k) implies k == y by {
                assert(u.dom().contains(k) && u.dom().contains(k1) && u.dom().contains(y));
            }
        }
        assert(size_or_one(a, "_"@) == 1);
        assert(size_or_one(b, "_"@) == 1);
        assert(bound_schema(x, a[x], y, b[y]) =~= u);
    }
}

/// A relational matrix product of `a` over dimensions `i`, `j` and `b` over `j`, `k`
/// keeps its schema when written as the matrix product that
/// [`crate::rules::ra_rmmul_patterns`] writes, `(b+ i k (m* (b- i j a) (b- j k b)))`.
pub proof fn ra_matrix_product_keeps_schema(
    a: Map<Seq<char>, usize>,
    b: Map<Seq<char>, usize>,
    i: Seq<char>,
    j: Seq<char>,
    k: Seq<char>,
    za: Option<usize>,
    zb: Option<usize>,
    r: DerivedView,
)
    requires
        plain_schema(a),
        plain_schema(b),
        i != j,
        j != k,
        i != k,
        a.dom() == set![i, j],
        b.dom() == set![j, k],
        a[j] == b[j],
        made(Math::RMMul([0, 0]), seq![rel_info(a, za), rel_info(b, zb)], r),
    ensures
        r.schema == bound(
            i,
            k,
            mat_times(unbound(i, j, rel_info(a, za)), unbound(j, k, rel_info(b, zb))),
        ).schema,
{
    let ka = rel_info(a, za);
    let kb = rel_info(b, zb);
    let c = choose|c: Seq<char>|
        #![trigger crate::analysis::kschm(ka).dom().contains(c), crate::analysis::kschm(kb).dom().contains(c)]
        crate::analysis::kschm(ka).dom().contains(c) && crate::analysis::kschm(kb).dom().contains(c)
            && {
            let s = crate::analysis::kschm(ka).union_prefer_right(crate::analysis::kschm(kb)).remove(c);
            r == DerivedView {
                schema: Some(SchemaView::Schm(s)),
                nnz: NnzRule::Known(Some(map_vol(s) as usize)),
            }
        };
    assert(a.dom().contains(c) && b.dom().contains(c));
    assert(c == j);
    assert(a.union_prefer_right(b).remove(j) =~= bound_schema(i, a[i], k, b[k]));
}

/// Rebinding a matrix whose relation has exactly the dimensions `i`, `j` to new names
/// `k`, `l` is renaming: `(b+ k l (b- i j x))` and
/// `(subst (dim l nj) (dim j nj) (subst (dim k ni) (dim i ni) x))` (the rewrite of
/// [`crate::rules::la_bind_pattern`]) have the same schema, for distinct names.
pub proof fn rebinding_is_renaming(
    x: Map<Seq<char>, usize>,
    i: Seq<char>,
    j: Seq<char>,
    k: Seq<char>,
    l: Seq<char>,
    z: Option<usize>,
)
    requires
        plain_schema(x),
        x.dom() == set![i, j],
        i != j,
        k != l,
        k != j,
    ensures
        ({
            let e = rel_info(x, z);
            let ni = size_or_one(x, i);
            let nj = size_or_one(x, j);
            bound(k, l, unbound(i, j, e)).schema == renamed(
                dims_info(l, nj),
                dims_info(j, nj),
                renamed(dims_info(k, ni), dims_info(i, ni), e),
            ).schema
        }),
{
    let r1 = rename_dim(x, i, k);
    assert(r1.dom().contains(j));
    assert(rename_dim(r1, j, l) =~= bound_schema(k, x[i], l, x[j]));
}

// ---- what the HOP reader takes from a written line -------------------------------

/// Each number of `ids` in decimal.
pub open spec fn decimals(ids: Seq<Id>) -> Seq<Seq<char>> {
    ids.map_values(|c: Id| decimal(c as nat))
}

proof fn lemma_id_list_chars(ids: Seq<Id>)
    ensures
        forall|k: int|
            0 <= k < id_list(ids).len() ==> is_digit(#[trigger] id_list(ids)[k]) || id_list(ids)[k]
                == ',',
    decreases ids.len(),
{
    if ids.len() > 0 {
        let d = ids.drop_last();
        lemma_id_list_chars(d);
        lemma_decimal_digits(ids.last() as nat);
        let a = id_list(d);
        let b = decimal(ids.last() as nat);
        assert forall|k: int|
            0 <= k < id_list(ids).len() implies is_digit(#[trigger] id_list(ids)[k]) || id_list(
            ids,
        )[k] == ',' by {
            if k < a.len() {
                assert(id_list(ids)[k] == a[k]);
            } else if k < a.len() + b.len() {
                assert(id_list(ids)[k] == b[k - a.len()]);
            }
        }
    }
}

proof fn lemma_no_sep_in_digits(s: Seq<char>, sep: char)
    requires
        !is_digit(sep),
        forall|k: int| 0 <= k < s.len() ==> is_digit(#[trigger] s[k]),
    ensures
        !s.contains(sep),
{
}

/// Splitting a list of ids, followed by a text `t` without commas, at its commas gives
/// each id in decimal, then `t`.
proof fn lemma_split_id_list(ids: Seq<Id>, t: Seq<char>)
    requires
        !t.contains(','),
    ensures
        split_seq(id_list(ids) + t, ',') == decimals(ids).push(t),
    decreases ids.len(),
{
    if ids.len() == 0 {
        assert(id_list(ids) + t =~= t);
        lemma_split_single(t, ',');
        assert(decimals(ids).push(t) =~= seq![t]);
    } else {
        let d = ids.drop_last();
        let x = decimal(ids.last() as nat);
        lemma_decimal_digits(ids.last() as nat);
        lemma_no_sep_in_digits(x, ',');
        lemma_split_id_list(d, x);
        assert(id_list(ids) + t =~= (id_list(d) + x).push(',') + t);
        lemma_split_concat(id_list(d) + x, t, ',');
        lemma_split_single(t, ',');
        assert(decimals(d).push(x) + seq![t] =~= decimals(ids).push(t));
    }
}

proof fn lemma_parse_decimals(ids: Seq<Id>)
    requires
        forall|k: int| 0 <= k < ids.len() ==> #[trigger] ids[k] <= u32::MAX,
    ensures
        parsed_u32s(decimals(ids)) == ids.map_values(|c: Id| c as u32),
    decreases ids.len(),
{
    if ids.len() > 0 {
        let d = ids.drop_last();
        lemma_parse_decimals(d);
        assert(decimals(ids).drop_last() =~= decimals(d));
        assert(decimals(ids).last() == decimal(ids.last() as nat));
        decimal_roundtrip(ids.last() as u32);
        assert(ids.map_values(|c: Id| c as u32) =~= d.map_values(|c: Id| c as u32).push(
            ids.last() as u32,
        ));
    } else {
        assert(ids.map_values(|c: Id| c as u32) =~= Seq::<u32>::empty());
    }
}

/// What the HOP reader takes from the line that [`crate::show::dag_line`] writes for a
/// linear-algebra operator: its second field reads back as the e-class id, its third
/// as the operator, and its fourth as the operands. The line leaves the metadata field
/// empty, so [`crate::hop::parse_hop`] does not accept it as a whole.
pub proof fn dag_line_fields_read_back(id: Id, n: Math, first: Math)
    requires
        is_la_op(n),
        id <= u32::MAX,
        forall|k: int| 0 <= k < children(n).len() ==> #[trigger] children(n)[k] <= u32::MAX,
    ensures
        ({
            let f = split_seq(dag_line_spec(id, n, first).unwrap(), ';');
            &&& f.len() >= 5
            &&& parse_u32_spec(f[1]) == Some(id as u32)
            &&& parse_op_spec(f[2]) == HopOpView::Op(dml_name(n))
            &&& parsed_u32s(split_seq(f[3], ',')) == children(n).map_values(|c: Id| c as u32)
            &&& !parse_hop_ok(dag_line_spec(id, n, first).unwrap())
        }),
{
    reveal_strlit("0,0;");
    reveal_strlit("0,0");
    reveal_strlit(";");
    reveal_strlit(";;M;D;;;;;");
    reveal_strlit(";M;D;;;;;");
    reveal_strlit("M;D;;;;;");
    reveal_strlit("b(+)");
    reveal_strlit("b(-)");
    reveal_strlit("b(*)");
    reveal_strlit("ba(+*)");
    reveal_strlit("r(t)");
    reveal_strlit("ua(+R)");
    reveal_strlit("ua(+C)");
    reveal_strlit("ua(+RC)");
    let a = "0,0"@;
    let dd = decimal(id as nat);
    let nn = dml_name(n);
    let ll = id_list(children(n));
    let rr = ";M;D;;;;;"@;
    let line = dag_line_spec(id, n, first).unwrap();
    assert(line =~= a.push(';') + (dd.push(';') + (nn.push(';') + (ll.push(';') + rr))));
    lemma_decimal_digits(id as nat);
    lemma_no_sep_in_digits(dd, ';');
    lemma_id_list_chars(children(n));
    assert(!ll.contains(';')) by {
        if ll.contains(';') {
            let k = choose|k: int| 0 <= k < ll.len() && ll[k] == ';';
            assert(is_digit(ll[k]) || ll[k] == ',');
        }
    }
    assert(!a.contains(';')) by {
        if a.contains(';') {
            let k = choose|k: int| 0 <= k < a.len() && a[k] == ';';
        }
    }
    assert(!nn.contains(';')) by {
        if nn.contains(';') {
            let k = choose|k: int| 0 <= k < nn.len() && nn[k] == ';';
        }
    }
    lemma_split_concat(ll, rr, ';');
    lemma_split_concat(nn, ll.push(';') + rr, ';');
    lemma_split_concat(dd, nn.push(';') + (ll.push(';') + rr), ';');
    lemma_split_concat(a, dd.push(';') + (nn.push(';') + (ll.push(';') + rr)), ';');
    lemma_split_single(a, ';');
    lemma_split_single(dd, ';');
    lemma_split_single(nn, ';');
    lemma_split_single(ll, ';');
    let f = split_seq(line, ';');
    let fr = split_seq(rr, ';');
    assert(f =~= seq![a] + (seq![dd] + (seq![nn] + (seq![ll] + fr))));
    assert(f[1] == dd);
    assert(f[2] == nn);
    assert(f[3] == ll);
    decimal_roundtrip(id as u32);
    crate::laws::la_name_parses_back(n);
    lemma_split_id_list(children(n), Seq::empty());
    assert(ll + Seq::<char>::empty() =~= ll);
    let pieces = decimals(children(n)).push(Seq::<char>::empty());
    assert(pieces.drop_last() =~= decimals(children(n)));
    lemma_parse_decimals(children(n));
    assert(f[4] =~= Seq::<char>::empty()) by {
        assert(rr =~= Seq::<char>::empty().push(';') + "M;D;;;;;"@);
        lemma_split_concat(Seq::<char>::empty(), "M;D;;;;;"@, ';');
        lemma_split_single(Seq::<char>::empty(), ';');
    }
    lemma_split_single(Seq::<char>::empty(), ',');
}

// ---- the fixed rewrites keep schemas ---------------------------------------------

/// The data of `(llit n)`.
pub open spec fn llit_data(n: i32) -> MetaInfoView {
    known_info(make_spec(Math::LLit([0]), seq![known_info(make_spec(Math::Num(n), Seq::empty()))]))
}

/// The data of a number `n` used as a size.
pub open spec fn size_data(n: usize) -> MetaInfoView {
    MetaInfoView { schema: Some(SchemaView::Size(n)), nnz: Some(1) }
}

/// The data of `(dim i n)` for a name `i` and a size `n`.
pub open spec fn dim_of(i: Seq<char>, n: usize) -> MetaInfoView {
    known_info(make_spec(Math::Dim([0, 0]), seq![name_info(i), size_data(n)]))
}

/// The data of `(mat x (dim i n) (dim j m) (nnz z))`.
pub open spec fn mat_data(x: MetaInfoView, i: Seq<char>, n: usize, j: Seq<char>, m: usize, z: MetaInfoView) -> MetaInfoView {
    known_info(
        make_spec(
            Math::Mat([0, 0, 0, 0]),
            seq![x, dim_of(i, n), dim_of(j, m), known_info(make_spec(Math::Nnz([0]), seq![z]))],
        ),
    )
}

/// The data of `(lmat x n m z)`.
pub open spec fn lmat_data(x: MetaInfoView, n: usize, m: usize, z: MetaInfoView) -> MetaInfoView {
    known_info(make_spec(Math::LMat([0, 0, 0, 0]), seq![x, size_data(n), size_data(m), z]))
}

/// A difference of matrices is a sum with the negated second operand (the rewrites
/// `la-minus` and `ra-minus`): `(l- a b)` and `(l+ a (l* (llit -1) b))` have one shape.
pub proof fn difference_is_sum_of_negation(r: usize, c: usize, s: usize, d: usize, za: Option<usize>, zb: Option<usize>)
    ensures
        known_info(
            make_spec(
                Math::LAdd([0, 0]),
                seq![mat_info(r, c, za), cell_times(llit_data(-1i32), mat_info(s, d, zb))],
            ),
        ).schema == make_spec(Math::LMin([0, 0]), seq![mat_info(r, c, za), mat_info(s, d, zb)]).schema,
{
}

/// A literal keeps its shape through binders, whatever the names (the rewrites
/// `la-lit-bind`, `la-lit-ubnd`, `ra-unbind-lit` and `ra_lit`): `(b- i j (lit n))` has
/// the shape of `(llit n)`, and `(b+ i j (llit n))` the schema of `(lit n)`.
pub proof fn literal_through_binders(i: Seq<char>, j: Seq<char>, n: i32)
    ensures
        unbound(i, j, lit_data(n)).schema == llit_data(n).schema,
        bound(i, j, llit_data(n)).schema == lit_data(n).schema,
{
    assert(bound_schema(i, 1, j, 1) =~= Map::<Seq<char>, usize>::empty());
}

/// Row sums of column sums, and column sums of row sums, are the total sum (the
/// rewrites `ra_sall` and `ra_sall2`).
pub proof fn nested_sums_are_total(r: usize, c: usize, z: Option<usize>)
    ensures
        known_info(
            make_spec(Math::Srow([0]), seq![known_info(make_spec(Math::Scol([0]), seq![mat_info(r, c, z)]))]),
        ).schema == make_spec(Math::Sall([0]), seq![mat_info(r, c, z)]).schema,
        known_info(
            make_spec(Math::Scol([0]), seq![known_info(make_spec(Math::Srow([0]), seq![mat_info(r, c, z)]))]),
        ).schema == make_spec(Math::Sall([0]), seq![mat_info(r, c, z)]).schema,
{
}

/// A relational matrix read is the bound linear-algebra read (the rewrites `ra_mat1` and
/// `la-mat-bind`): `(mat x (dim i n) (dim j m) (nnz z))` and `(b+ i j (lmat x n m z))`
/// have the same schema.
pub proof fn matrix_read_is_bound_read(x: MetaInfoView, i: Seq<char>, n: usize, j: Seq<char>, m: usize, z: MetaInfoView)
    ensures
        mat_data(x, i, n, j, m, z).schema == bound(i, j, lmat_data(x, n, m, z)).schema,
{
}

/// Binding a matrix and unbinding it with the names swapped is its transpose (the
/// rewrite `ra_transpose`), for two different names.
pub proof fn swapped_unbinding_is_transpose(i: Seq<char>, j: Seq<char>, r: usize, c: usize, z: Option<usize>)
    requires
        i != j,
    ensures
        unbound(j, i, bound(i, j, mat_info(r, c, z))).schema == make_spec(Math::LTrs([0]), seq![mat_info(r, c, z)]).schema,
{
    let s = bound_schema(i, r, j, c);
    assert(size_or_one(s, i) == r);
    assert(size_or_one(s, j) == c);
}

/// Summing over the wildcard dimension of size 1 changes nothing and is a product
/// with the literal 1 (the rewrites `sum_d1` and `sum_`), for a relation without a
/// wildcard dimension.
pub proof fn sum_over_wildcard(s: Map<Seq<char>, usize>, z: Option<usize>)
    requires
        !s.dom().contains("_"@),
    ensures
        summed("_"@, 1, rel_info(s, z)).schema == rel_info(s, z).schema,
        summed("_"@, 1, rel_info(s, z)).schema == times(lit_data(1), rel_info(s, z)).schema,
{
    reveal_strlit("_");
    assert(s.remove("_"@) =~= s);
    assert(Map::<Seq<char>, usize>::empty().union_prefer_right(s) =~= s);
}

/// Squaring a matrix by the power function is the cell-by-cell product with itself
/// (the rewrite `la-sq`): `(udf b(^) x (llit 2))` and `(l* x x)` have one shape.
pub proof fn square_is_self_product(call: Math, op: MetaInfoView, r: usize, c: usize, z: Option<usize>)
    requires
        call is Udf,
        op == name_info("b(^)"@),
    ensures
        known_info(make_spec(call, seq![op, mat_info(r, c, z), llit_data(2)])).schema
            == cell_times(mat_info(r, c, z), mat_info(r, c, z)).schema,
{
    reveal_strlit("b(^)");
    reveal_strlit("axpy");
    reveal_strlit("b(/)");
    reveal_strlit("m1mul");
    reveal_strlit("rix");
    reveal_strlit("lix");
    reveal_strlit("r(diag)");
    reveal_strlit("u(ncol)");
    reveal_strlit("u(nrow)");
    reveal_strlit("ua(minR)");
    let k = seq![op, mat_info(r, c, z), llit_data(2)];
    assert(k.skip(1)[0] == mat_info(r, c, z));
    assert("b(^)"@ != "axpy"@ && "b(^)"@ != "b(/)"@ && "b(^)"@ != "m1mul"@ && "b(^)"@ != "rix"@
        && "b(^)"@ != "lix"@ && "b(^)"@ != "u(ncol)"@ && "b(^)"@ != "u(nrow)"@) by {
        assert("b(^)"@.len() != "axpy"@.len() || "b(^)"@[0] != "axpy"@[0]);
        assert("b(^)"@[2] != "b(/)"@[2]);
    }
    assert("b(^)"@ != "r(diag)"@ && "b(^)"@ != "ua(minR)"@) by {
        assert("b(^)"@.len() != "r(diag)"@.len());
        assert("b(^)"@.len() != "ua(minR)"@.len());
    }
}

/// Renaming inside a literal or a variable changes nothing (the rewrites `subst-lit`
/// and `subst-var`).
pub proof fn rename_in_scalar(e: MetaInfoView, v: MetaInfoView, n: i32, x: MetaInfoView)
    requires
        v.schema matches Some(SchemaView::Dims(_, _)),
    ensures
        renamed(e, v, lit_data(n)).schema == lit_data(n).schema,
        renamed(e, v, known_info(make_spec(Math::Var([0]), seq![x]))).schema == known_info(
            make_spec(Math::Var([0]), seq![x]),
        ).schema,
{
}

/// Renaming the wildcard to itself changes nothing (the rewrite `subst-wild`).
pub proof fn rename_wildcard(i: usize, j: usize, s: Map<Seq<char>, usize>, z: Option<usize>)
    ensures
        renamed(dims_info("_"@, i), dims_info("_"@, j), rel_info(s, z)).schema == rel_info(s, z).schema,
{
    assert(rename_dim(s, "_"@, "_"@) =~= s);
}

/// Renaming `v` to a name `e` that neither operand uses distributes over sums and
/// products of relations that agree on their shared dimensions (the rewrites
/// `subst-+` and `subst-*`).
pub proof fn rename_distributes(
    a: Map<Seq<char>, usize>,
    b: Map<Seq<char>, usize>,
    e: Seq<char>,
    ne: usize,
    v: Seq<char>,
    nv: usize,
    za: Option<usize>,
    zb: Option<usize>,
)
    requires
        agree(a, b),
        e == v || (!a.dom().contains(e) && !b.dom().contains(e)),
    ensures
        renamed(dims_info(e, ne), dims_info(v, nv), plus(rel_info(a, za), rel_info(b, zb))).schema
            == plus(
            renamed(dims_info(e, ne), dims_info(v, nv), rel_info(a, za)),
            renamed(dims_info(e, ne), dims_info(v, nv), rel_info(b, zb)),
        ).schema,
        renamed(dims_info(e, ne), dims_info(v, nv), times(rel_info(a, za), rel_info(b, zb))).schema
            == times(
            renamed(dims_info(e, ne), dims_info(v, nv), rel_info(a, za)),
            renamed(dims_info(e, ne), dims_info(v, nv), rel_info(b, zb)),
        ).schema,
{
    let u = a.union_prefer_right(b);
    assert(rename_dim(u, v, e) =~= rename_dim(a, v, e).union_prefer_right(rename_dim(b, v, e)));
}

/// Renaming `v` to `e` in a matrix read renames its dimensions (the rewrite
/// `subst-matrix`): `(subst e v (mat a i j z))` and
/// `(mat a (subst e v i) (subst e v j) z)` have the same schema, for different
/// dimension names, a new name `e` of the renamed dimension's size.
pub proof fn rename_in_matrix_read(
    x: MetaInfoView,
    i: Seq<char>,
    n: usize,
    j: Seq<char>,
    m: usize,
    zz: MetaInfoView,
    e: Seq<char>,
    ne: usize,
    v: Seq<char>,
    nv: usize,
)
    requires
        i != j,
        e == v || (e != i && e != j),
        v == i ==> ne == n,
        v == j ==> ne == m,
    ensures
        ({
            let de = dims_info(e, ne);
            let dv = dims_info(v, nv);
            let nz = known_info(make_spec(Math::Nnz([0]), seq![zz]));
            renamed(de, dv, mat_data(x, i, n, j, m, zz)).schema == known_info(
                make_spec(
                    Math::Mat([0, 0, 0, 0]),
                    seq![x, renamed(de, dv, dim_of(i, n)), renamed(de, dv, dim_of(j, m)), nz],
                ),
            ).schema
        }),
{
    let s = bound_schema(i, n, j, m);
    let i2 = if i == v { e } else { i };
    let j2 = if j == v { e } else { j };
    assert(rename_dim(s, v, e) =~= bound_schema(i2, n, j2, m));
}

/// Summing away the dimension of an identity-like index keeps the indexed relation
/// (the rewrite `trivial-id`): `(sum w (* (ind x (mat i w w n)) (mat i w w n)))` has the
/// schema of `x` where `x` does not have `w`.
pub proof fn trivial_index_sum(
    x: Map<Seq<char>, usize>,
    zx: Option<usize>,
    name: MetaInfoView,
    w: Seq<char>,
    nw: usize,
    zz: MetaInfoView,
)
    requires
        !x.dom().contains(w),
    ensures
        ({
            let m = mat_data(name, w, nw, w, nw, zz);
            let ind = known_info(make_spec(Math::Ind([0, 0]), seq![rel_info(x, zx), m]));
            summed(w, nw, times(ind, m)).schema == rel_info(x, zx).schema
        }),
{
    let mw = bound_schema(w, nw, w, nw);
    assert(x.union_prefer_right(mw).union_prefer_right(mw).remove(w) =~= x);
}

/// A relation added to itself is twice it (the rewrite `add-2-mul`).
pub proof fn double_is_product(s: Map<Seq<char>, usize>, z: Option<usize>)
    ensures
        plus(rel_info(s, z), rel_info(s, z)).schema == times(lit_data(2), rel_info(s, z)).schema,
{
    assert(s.union_prefer_right(s) =~= s);
    assert(Map::<Seq<char>, usize>::empty().union_prefer_right(s) =~= s);
}

/// Products distribute over sums of relations that agree on their shared dimensions,
/// on either side (the rewrites `distribute-lft-in`, `distribute-rgt-in`,
/// `distribute-lft-out`, `distribute-rgt-out`); and `b * a + a` is `(b + 1) * a`,
/// `a + c * a` is `(c + 1) * a` (`distribute-lft1-in`, `distribute-rgt1-in`).
pub proof fn products_distribute(
    a: Map<Seq<char>, usize>,
    b: Map<Seq<char>, usize>,
    c: Map<Seq<char>, usize>,
    za: Option<usize>,
    zb: Option<usize>,
    zc: Option<usize>,
)
    requires
        agree(a, b),
        agree(a, c),
        agree(b, c),
    ensures
        ({
            let ea = rel_info(a, za);
            let eb = rel_info(b, zb);
            let ec = rel_info(c, zc);
            &&& times(ea, plus(eb, ec)).schema == plus(times(ea, eb), times(ea, ec)).schema
            &&& times(ea, plus(eb, ec)).schema == plus(times(eb, ea), times(ec, ea)).schema
            &&& plus(times(eb, ea), ea).schema == times(plus(eb, lit_data(1)), ea).schema
            &&& plus(ea, times(ec, ea)).schema == times(plus(ec, lit_data(1)), ea).schema
        }),
{
    let e = Map::<Seq<char>, usize>::empty();
    assert(a.union_prefer_right(b.union_prefer_right(c)) =~= a.union_prefer_right(b).union_prefer_right(
        a.union_prefer_right(c),
    ));
    assert(a.union_prefer_right(b.union_prefer_right(c)) =~= b.union_prefer_right(a).union_prefer_right(
        c.union_prefer_right(a),
    ));
    assert(b.union_prefer_right(a).union_prefer_right(a) =~= b.union_prefer_right(e).union_prefer_right(a));
    assert(a.union_prefer_right(c.union_prefer_right(a)) =~= c.union_prefer_right(e).union_prefer_right(a));
}

/// Sums distribute over sums, and two sums can be swapped (the rewrites `pullup-add`,
/// `pushdown-add` and `swap-agg`).
pub proof fn sums_distribute_and_swap(
    a: Map<Seq<char>, usize>,
    b: Map<Seq<char>, usize>,
    i: Seq<char>,
    n: usize,
    j: Seq<char>,
    m: usize,
    za: Option<usize>,
    zb: Option<usize>,
)
    ensures
        summed(i, n, plus(rel_info(a, za), rel_info(b, zb))).schema == plus(
            summed(i, n, rel_info(a, za)),
            summed(i, n, rel_info(b, zb)),
        ).schema,
        summed(i, n, summed(j, m, rel_info(a, za))).schema == summed(j, m, summed(i, n, rel_info(a, za))).schema,
{
    assert(a.union_prefer_right(b).remove(i) =~= a.remove(i).union_prefer_right(b.remove(i)));
    assert(a.remove(j).remove(i) =~= a.remove(i).remove(j));
}

// ---- what the operations are for ----------------------------------------------------

/// Summing a relation never creates non-zeros: where the summed body has `z` known
/// non-zeros, the sum has as many as `z` or the number of cells left after the sum,
/// whichever is smaller (it never exceeds either); where the body's are unknown, so
/// are the sum's.
pub proof fn sum_nonzeros_bounded(n: Math, k: Seq<MetaInfoView>)
    requires
        n is Agg,
        crate::analysis::make_defined(n, k),
    ensures
        ({
            let left = crate::analysis::kschm(k[1]).remove(crate::analysis::kdim_name(k[0]));
            let d = make_spec(n, k);
            &&& d.schema == Some(SchemaView::Schm(left))
            &&& match (k[1].nnz, d.nnz) {
                (Some(z), NnzRule::Known(Some(r))) => r <= z && r <= map_vol(left) && (r == z || r
                    == map_vol(left)),
                (None, NnzRule::Known(None)) => true,
                _ => false,
            }
        }),
{
    let left = crate::analysis::kschm(k[1]).remove(crate::analysis::kdim_name(k[0]));
    crate::dims::lemma_map_vol_nonneg(left);
}

/// A row or column count of 0 or -1 in a HOP line's metadata, or none at all, is read
/// as 1; a positive count is read as it is. Where the non-zeros are given as -1 they
/// are rows times columns so read.
pub proof fn unknown_counts_read_as_one(s: Seq<char>)
    requires
        parse_hop_ok(s),
    ensures
        ({
            let m = hop_meta(s);
            let h = parse_hop_spec(s);
            &&& (m[0] is None || m[0] == Some(0i32) || m[0] == Some(-1i32)) ==> h.row == 1
            &&& (m[1] is None || m[1] == Some(0i32) || m[1] == Some(-1i32)) ==> h.col == 1
            &&& (m[0] matches Some(x) && x > 0) ==> h.row == m[0].unwrap()
            &&& (m[1] matches Some(x) && x > 0) ==> h.col == m[1].unwrap()
            &&& ((m[0] is None || m[0] == Some(0i32) || m[0] == Some(-1i32)) && (m[1] is None || m[1]
                == Some(0i32) || m[1] == Some(-1i32)) && m[4] == Some(-1i32)) ==> h.nnz == Some(1i32)
            &&& (m[0] matches Some(x) && x > 0) && (m[1] matches Some(y) && y > 0) && m[4] == Some(
                -1i32,
            ) ==> h.nnz == Some((m[0].unwrap() * m[1].unwrap()) as i32)
        }),
{
    let m = hop_meta(s);
    let h = parse_hop_spec(s);
    assert((m[0] is None || m[0] == Some(0i32) || m[0] == Some(-1i32)) ==> h.row == 1);
    assert((m[0] matches Some(x) && x > 0) ==> h.row == m[0].unwrap());
}

/// Translation prefers relational nodes: every linear-algebra operator (`m*` among
/// them), matrix read, matrix literal and substitution costs 100, each binder 10, and
/// every other node 1.
pub proof fn linear_algebra_costs_most(n: Math)
    ensures
        (is_la_op(n) || n is LMat || n is LLit || n is Sub) ==> trans_cost(n) == 100,
        (n is Bind || n is Ubnd) ==> trans_cost(n) == 10,
        !(is_la_op(n) || n is LMat || n is LLit || n is Sub || n is Bind || n is Ubnd) ==> trans_cost(n) == 1,
        trans_cost(n) == 1 || trans_cost(n) == 10 || trans_cost(n) == 100,
{
}

/// The fields of a HOP line `0,0;ID;NAME;IDS;;M;D;;;;;`: the id, the name and the
/// listed ids read back.
proof fn lemma_line_fields(id: Id, name: Seq<char>, ids: Seq<Id>)
    requires
        !name.contains(';'),
        id <= u32::MAX,
        forall|k: int| 0 <= k < ids.len() ==> #[trigger] ids[k] <= u32::MAX,
    ensures
        ({
            let line = "0,0;"@ + decimal(id as nat) + ";"@ + name + ";"@ + id_list(ids) + ";;M;D;;;;;"@;
            let f = split_seq(line, ';');
            &&& f.len() >= 5
            &&& parse_u32_spec(f[1]) == Some(id as u32)
            &&& f[2] == name
            &&& parsed_u32s(split_seq(f[3], ',')) == ids.map_values(|c: Id| c as u32)
        }),
{
    reveal_strlit("0,0;");
    reveal_strlit("0,0");
    reveal_strlit(";");
    reveal_strlit(";;M;D;;;;;");
    reveal_strlit(";M;D;;;;;");
    let a = "0,0"@;
    let dd = decimal(id as nat);
    let ll = id_list(ids);
    let rr = ";M;D;;;;;"@;
    let line = "0,0;"@ + dd + ";"@ + name + ";"@ + ll + ";;M;D;;;;;"@;
    assert(line =~= a.push(';') + (dd.push(';') + (name.push(';') + (ll.push(';') + rr))));
    lemma_decimal_digits(id as nat);
    lemma_no_sep_in_digits(dd, ';');
    lemma_id_list_chars(ids);
    assert(!ll.contains(';')) by {
        if ll.contains(';') {
            let k = choose|k: int| 0 <= k < ll.len() && ll[k] == ';';
            assert(is_digit(ll[k]) || ll[k] == ',');
        }
    }
    assert(!a.contains(';')) by {
        if a.contains(';') {
            let k = choose|k: int| 0 <= k < a.len() && a[k] == ';';
        }
    }
    lemma_split_concat(ll, rr, ';');
    lemma_split_concat(name, ll.push(';') + rr, ';');
    lemma_split_concat(dd, name.push(';') + (ll.push(';') + rr), ';');
    lemma_split_concat(a, dd.push(';') + (name.push(';') + (ll.push(';') + rr)), ';');
    lemma_split_single(a, ';');
    lemma_split_single(dd, ';');
    lemma_split_single(name, ';');
    lemma_split_single(ll, ';');
    let f = split_seq(line, ';');
    let fr = split_seq(rr, ';');
    assert(f =~= seq![a] + (seq![dd] + (seq![name] + (seq![ll] + fr))));
    assert(f[1] == dd);
    assert(f[2] == name);
    assert(f[3] == ll);
    decimal_roundtrip(id as u32);
    lemma_split_id_list(ids, Seq::empty());
    assert(ll + Seq::<char>::empty() =~= ll);
    let pieces = decimals(ids).push(Seq::<char>::empty());
    assert(pieces.drop_last() =~= decimals(ids));
    lemma_parse_decimals(ids);
    lemma_split_single(Seq::<char>::empty(), ',');
}

/// The HOP line written for a call of a user-defined function reads back field by
/// field: the e-class id, the function's name, and as inputs the call's operands after
/// the name — for `rix` the five operands `1..6`, for `lix` the six operands `1..7`,
/// for any other function all of them, in order.
pub proof fn call_line_fields_read_back(id: Id, n: Math, first: Math)
    requires
        n is Udf,
        first is Str,
        dag_line_ok(n, first),
        !op_text(first).contains(';'),
        id <= u32::MAX,
        forall|k: int| 0 <= k < children(n).len() ==> #[trigger] children(n)[k] <= u32::MAX,
    ensures
        ({
            let args = children(n);
            let op = op_text(first);
            let f = split_seq(dag_line_spec(id, n, first).unwrap(), ';');
            let inputs = parsed_u32s(split_seq(f[3], ','));
            &&& f.len() >= 5
            &&& parse_u32_spec(f[1]) == Some(id as u32)
            &&& f[2] == op
            &&& op == "rix"@ ==> inputs.len() == 5 && forall|q: int|
                0 <= q < 5 ==> #[trigger] inputs[q] == args[q + 1] as u32
            &&& op == "lix"@ ==> inputs.len() == 6 && forall|q: int|
                0 <= q < 6 ==> #[trigger] inputs[q] == args[q + 1] as u32
            &&& (op != "rix"@ && op != "lix"@) ==> inputs.len() + 1 == args.len() && forall|q: int|
                0 <= q < inputs.len() ==> #[trigger] inputs[q] == args[q + 1] as u32
        }),
{
    reveal_strlit("rix");
    reveal_strlit("lix");
    assert("rix"@[0] != "lix"@[0]);
    let args = children(n);
    let op = op_text(first);
    let listed = crate::show::udf_listed(op, args);
    assert forall|k: int| 0 <= k < listed.len() implies #[trigger] listed[k] <= u32::MAX by {
        assert(listed[k] == args[k + 1]);
    }
    lemma_line_fields(id, op, listed);
    assert(dag_line_spec(id, n, first).unwrap() =~= "0,0;"@ + decimal(id as nat) + ";"@ + op + ";"@
        + id_list(listed) + ";;M;D;;;;;"@);
    let f = split_seq(dag_line_spec(id, n, first).unwrap(), ';');
    let inputs = parsed_u32s(split_seq(f[3], ','));
    assert(inputs == listed.map_values(|c: Id| c as u32));
    assert forall|q: int| 0 <= q < inputs.len() implies #[trigger] inputs[q] == args[q + 1] as u32 by {
        assert(inputs[q] == listed[q] as u32);
        assert(listed[q] == args[q + 1]);
    }
    assert(inputs.len() == listed.len());
    if op == "rix"@ {
        assert(args.len() >= 6);
        assert(listed.len() == 5);
    } else if op == "lix"@ {
        assert(args.len() >= 7);
        assert(listed.len() == 6);
    } else {
        assert(args.len() >= 1);
        assert(listed.len() + 1 == args.len());
    }
}

/// Whether `p` occurs in `t`.
pub open spec fn has_infix(t: Seq<char>, p: Seq<char>) -> bool {
    exists|a: int| 0 <= a && a + p.len() <= t.len() && #[trigger] t.subrange(a, a + p.len()) == p
}

/// No character of `t` is `c`.
pub open spec fn lacks(t: Seq<char>, c: char) -> bool {
    forall|q: int| 0 <= q < t.len() ==> #[trigger] t[q] != c
}

proof fn lemma_fresh_lacks(p: Seq<char>, h: u64, c: char)
    requires
        lacks(p, c),
        !is_digit(c),
    ensures
        lacks(fresh_text(p, h), c),
{
    let d = decimal((h % 976521) as nat);
    lemma_decimal_digits((h % 976521) as nat);
    assert forall|q: int| 0 <= q < fresh_text(p, h).len() implies #[trigger] fresh_text(p, h)[q] != c by {
        if q >= p.len() {
            assert(fresh_text(p, h)[q] == d[q - p.len()]);
        }
    }
}

proof fn lemma_binder_lacks(n: int, f: Seq<char>, c: char)
    requires
        lacks(f, c),
        lacks("_"@, c),
    ensures
        lacks(binder(n, f), c),
{
}

/// A matrix product, translated to relations, sums over its shared axis exactly when
/// that axis is longer than 1, whatever the sizes of the other axes: the text of
/// [`crate::rules::la_mmul_pattern`] then holds the sum `(sum (dim J x_j) ...)` over the
/// fresh name `J` of the shared axis, and otherwise holds no sum at all.
pub proof fn matrix_product_sums_shared_axis(x_i: usize, x_j: usize, y_j: usize, y_k: usize, h: u64)
    requires
        x_j == y_j,
    ensures
        has_infix(la_mmul_text(x_i, x_j, y_j, y_k, h), "(sum "@) <==> x_j != 1,
        x_j != 1 ==> has_infix(
            la_mmul_text(x_i, x_j, y_j, y_k, h),
            "(sum (dim "@ + fresh_text("vmmul_j"@, h) + " "@ + size_text(x_j) + ") "@,
        ),
{
    reveal_strlit("(sum ");
    reveal_strlit("(sum (dim ");
    reveal_strlit(" (sum (dim ");
    reveal_strlit("(b- ");
    reveal_strlit(" ");
    reveal_strlit(")");
    reveal_strlit("))");
    reveal_strlit(") ");
    reveal_strlit("(* (b+ ");
    reveal_strlit(" ?x) (b+ ");
    reveal_strlit(" ?y))");
    reveal_strlit("_");
    reveal_strlit("vmmul_i");
    reveal_strlit("vmmul_j");
    reveal_strlit("vmmul_k");
    let t = la_mmul_text(x_i, x_j, y_j, y_k, h);
    let fi = fresh_text("vmmul_i"@, h);
    let fj = fresh_text("vmmul_j"@, h);
    let fk = fresh_text("vmmul_k"@, h);
    let i = binder(x_i as int, fi);
    let k = binder(y_k as int, fk);
    let body = "(* (b+ "@ + binder(x_i as int, fi) + " "@ + binder(x_j as int, fj) + " ?x) (b+ "@
        + binder(y_j as int, fj) + " "@ + binder(y_k as int, fk) + " ?y))"@;
    assert(x_j * y_j == 1 <==> x_j == 1) by (nonlinear_arith)
        requires
            x_j == y_j,
    ;
    if x_j != 1 {
        let needle = "(sum (dim "@ + fj + " "@ + size_text(x_j) + ") "@;
        let pre = "(b- "@ + i + " "@ + k + " "@;
        let rest = body + "))"@;
        assert(t =~= pre + needle + rest);
        assert(t.subrange(pre.len() as int, (pre.len() + needle.len()) as int) =~= needle);
        let small = "(sum "@;
        assert(t.subrange(pre.len() as int, (pre.len() + small.len()) as int) =~= small);
    } else {
        assert(lacks("vmmul_i"@, 's'));
        assert(lacks("vmmul_j"@, 's'));
        assert(lacks("vmmul_k"@, 's'));
        assert(lacks("_"@, 's'));
        lemma_fresh_lacks("vmmul_i"@, h, 's');
        lemma_fresh_lacks("vmmul_j"@, h, 's');
        lemma_fresh_lacks("vmmul_k"@, h, 's');
        assert forall|q: int| 0 <= q < t.len() implies #[trigger] t[q] != 's' by {
            lemma_binder_lacks(x_i as int, fi, 's');
            lemma_binder_lacks(x_j as int, fj, 's');
            lemma_binder_lacks(y_j as int, fj, 's');
            lemma_binder_lacks(y_k as int, fk, 's');
            lemma_binder_lacks(x_i as int, fi, 's');
            assert(lacks("(b- "@, 's'));
            assert(lacks(" "@, 's'));
            assert(lacks("(* (b+ "@, 's'));
            assert(lacks(" ?x) (b+ "@, 's'));
            assert(lacks(" ?y))"@, 's'));
            assert(lacks(")"@, 's'));
            lemma_lacks_concat("(b- "@ + i + " "@ + k + " "@, body + ")"@, 's');
            lemma_lacks_concat("(b- "@ + i + " "@ + k, " "@, 's');
            lemma_lacks_concat("(b- "@ + i + " "@, k, 's');
            lemma_lacks_concat("(b- "@ + i, " "@, 's');
            lemma_lacks_concat("(b- "@, i, 's');
            lemma_lacks_concat(body, ")"@, 's');
            lemma_lacks_concat(
                "(* (b+ "@ + binder(x_i as int, fi) + " "@ + binder(x_j as int, fj) + " ?x) (b+ "@
                    + binder(y_j as int, fj) + " "@ + binder(y_k as int, fk),
                " ?y))"@,
                's',
            );
            lemma_lacks_concat(
                "(* (b+ "@ + binder(x_i as int, fi) + " "@ + binder(x_j as int, fj) + " ?x) (b+ "@
                    + binder(y_j as int, fj) + " "@,
                binder(y_k as int, fk),
                's',
            );
            lemma_lacks_concat(
                "(* (b+ "@ + binder(x_i as int, fi) + " "@ + binder(x_j as int, fj) + " ?x) (b+ "@
                    + binder(y_j as int, fj),
                " "@,
                's',
            );
            lemma_lacks_concat(
                "(* (b+ "@ + binder(x_i as int, fi) + " "@ + binder(x_j as int, fj) + " ?x) (b+ "@,
                binder(y_j as int, fj),
                's',
            );
            lemma_lacks_concat(
                "(* (b+ "@ + binder(x_i as int, fi) + " "@ + binder(x_j as int, fj),
                " ?x) (b+ "@,
                's',
            );
            lemma_lacks_concat("(* (b+ "@ + binder(x_i as int, fi) + " "@, binder(x_j as int, fj), 's');
            lemma_lacks_concat("(* (b+ "@ + binder(x_i as int, fi), " "@, 's');
            lemma_lacks_concat("(* (b+ "@, binder(x_i as int, fi), 's');
        }
        if has_infix(t, "(sum "@) {
            let a = choose|a: int| 0 <= a && a + "(sum "@.len() <= t.len() && #[trigger] t.subrange(
                a,
                a + "(sum "@.len(),
            ) == "(sum "@;
            assert(t.subrange(a, a + 5)[1] == 's');
            assert(t[a + 1] == 's');
        }
    }
}

proof fn lemma_lacks_concat(a: Seq<char>, b: Seq<char>, c: char)
    requires
        lacks(a, c),
        lacks(b, c),
    ensures
        lacks(a + b, c),
{
    assert forall|q: int| 0 <= q < (a + b).len() implies #[trigger] (a + b)[q] != c by {
        if q < a.len() {
            assert((a + b)[q] == a[q]);
        } else {
            assert((a + b)[q] == b[q - a.len()]);
        }
    }
}

} // verus!
