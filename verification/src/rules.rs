//! The rewrites that depend on schemas: what each one adds, written in the pattern
//! language of the e-graph. `?x` names the class that the left side matched as `x`.
//!
//! Translating linear algebra to relations binds the rows and columns of a matrix to
//! dimension names. A size-1 axis is bound to the wildcard `_`; the other axes to
//! fresh names, made of a prefix and a number that the caller derives from the
//! matched classes.
use vstd::prelude::*;
use vstd::string::StringExecFns;
use std::collections::hash_map::DefaultHasher;
use std::hash::{Hash, Hasher};
use crate::dims::DimMap;
use crate::math::{Id, Math};
use crate::show::{decimal, push_decimal, push_signed, signed_decimal};

verus! {

/// A fresh dimension name: `prefix` followed by `h` modulo 976521 in decimal.
pub open spec fn fresh_text(prefix: Seq<char>, h: u64) -> Seq<char> {
    prefix + decimal((h % 976521) as nat)
}

/// The name an axis of size `n` is bound to: `_` for size 1, else `fresh`.
pub open spec fn binder(n: int, fresh: Seq<char>) -> Seq<char> {
    if n == 1 {
        "_"@
    } else {
        fresh
    }
}

/// A size as the pattern language writes it: as an `i32`.
pub open spec fn size_text(n: usize) -> Seq<char> {
    signed_decimal((n as i32) as int)
}

fn fresh(prefix: &str, h: u64) -> (r: String)
    ensures
        r@ == fresh_text(prefix@, h),
{
    let mut s = prefix.to_owned();
    push_decimal(&mut s, h % 976521);
    s
}

fn bind_name(n: usize, fresh: &String) -> (r: String)
    ensures
        r@ == binder(n as int, fresh@),
{
    if n == 1 {
        "_".to_owned()
    } else {
        fresh.clone()
    }
}

fn push_size(s: &mut String, n: usize)
    ensures
        final(s)@ == old(s)@ + size_text(n),
{
    push_signed(s, (n as i32) as i64);
}

/// `(b- I J (OP (b+ XI XJ ?x) (b+ YI YJ ?y)))`: a cell-by-cell operation `op` on two
/// matrices, as relations.
pub open spec fn elementwise_text(
    op: Seq<char>,
    i: Seq<char>,
    j: Seq<char>,
    xi: Seq<char>,
    xj: Seq<char>,
    yi: Seq<char>,
    yj: Seq<char>,
) -> Seq<char> {
    "(b- "@ + i + " "@ + j + " ("@ + op + " (b+ "@ + xi + " "@ + xj + " ?x) (b+ "@ + yi + " "@
        + yj + " ?y)))"@
}

/// The translation of a cell-by-cell operation `op` (`*` or `+`) on an `x_i`×`x_j` and a
/// `y_i`×`y_j` matrix, with fresh names from `prefix` (`vmul` or `vadd`).
pub open spec fn elementwise_pattern(
    op: Seq<char>,
    prefix: Seq<char>,
    x_i: usize,
    x_j: usize,
    y_i: usize,
    y_j: usize,
    h: u64,
) -> Seq<char> {
    let fi = fresh_text(prefix + "_i"@, h);
    let fj = fresh_text(prefix + "_j"@, h);
    elementwise_text(
        op,
        binder(x_i * y_i, fi),
        binder(x_j * y_j, fj),
        binder(x_i as int, fi),
        binder(x_j as int, fj),
        binder(y_i as int, fi),
        binder(y_j as int, fj),
    )
}

fn elementwise(
    op: &str,
    prefix_i: &str,
    prefix_j: &str,
    x_i: usize,
    x_j: usize,
    y_i: usize,
    y_j: usize,
    h: u64,
) -> (r: String)
    requires
        x_i * y_i <= usize::MAX,
        x_j * y_j <= usize::MAX,
    ensures
        r@ == elementwise_text(
            op@,
            binder(x_i * y_i, fresh_text(prefix_i@, h)),
            binder(x_j * y_j, fresh_text(prefix_j@, h)),
            binder(x_i as int, fresh_text(prefix_i@, h)),
            binder(x_j as int, fresh_text(prefix_j@, h)),
            binder(y_i as int, fresh_text(prefix_i@, h)),
            binder(y_j as int, fresh_text(prefix_j@, h)),
        ),
{
    let fi = fresh(prefix_i, h);
    let fj = fresh(prefix_j, h);
    let i = bind_name(x_i * y_i, &fi);
    let j = bind_name(x_j * y_j, &fj);
    let xi = bind_name(x_i, &fi);
    let xj = bind_name(x_j, &fj);
    let yi = bind_name(y_i, &fi);
    let yj = bind_name(y_j, &fj);
    let mut s = "(b- ".to_owned();
    s.append(i.as_str());
    s.append(" ");
    s.append(j.as_str());
    s.append(" (");
    s.append(op);
    s.append(" (b+ ");
    s.append(xi.as_str());
    s.append(" ");
    s.append(xj.as_str());
    s.append(" ?x) (b+ ");
    s.append(yi.as_str());
    s.append(" ");
    s.append(yj.as_str());
    s.append(" ?y)))");
    s
}

/// The translation of a cell-by-cell product of an `x_i`×`x_j` and a `y_i`×`y_j`
/// matrix (`l*`).
pub fn la_mul_pattern(x_i: usize, x_j: usize, y_i: usize, y_j: usize, h: u64) -> (r: String)
    requires
        x_i * y_i <= usize::MAX,
        x_j * y_j <= usize::MAX,
    ensures
        r@ == elementwise_pattern("*"@, "vmul"@, x_i, x_j, y_i, y_j, h),
{
    proof {
        reveal_strlit("vmul");
        reveal_strlit("vmul_i");
        reveal_strlit("vmul_j");
        reveal_strlit("_i");
        reveal_strlit("_j");
        assert("vmul"@ + "_i"@ =~= "vmul_i"@);
        assert("vmul"@ + "_j"@ =~= "vmul_j"@);
    }
    elementwise("*", "vmul_i", "vmul_j", x_i, x_j, y_i, y_j, h)
}

/// The translation of a cell-by-cell sum of an `x_i`×`x_j` and a `y_i`×`y_j` matrix
/// (`l+`).
pub fn la_add_pattern(x_i: usize, x_j: usize, y_i: usize, y_j: usize, h: u64) -> (r: String)
    requires
        x_i * y_i <= usize::MAX,
        x_j * y_j <= usize::MAX,
    ensures
        r@ == elementwise_pattern("+"@, "vadd"@, x_i, x_j, y_i, y_j, h),
{
    proof {
        reveal_strlit("vadd");
        reveal_strlit("vadd_i");
        reveal_strlit("vadd_j");
        reveal_strlit("_i");
        reveal_strlit("_j");
        assert("vadd"@ + "_i"@ =~= "vadd_i"@);
        assert("vadd"@ + "_j"@ =~= "vadd_j"@);
    }
    elementwise("+", "vadd_i", "vadd_j", x_i, x_j, y_i, y_j, h)
}


/// The translation of a matrix read whose rows and columns have sizes `n` and `m`:
/// `(b- I J (mat ?x (dim I ?i) (dim J ?j) (nnz ?z)))`.
pub open spec fn la_mat_text(n: usize, m: usize, h: u64) -> Seq<char> {
    let i = binder(n as int, fresh_text("vmat_i"@, h));
    let j = binder(m as int, fresh_text("vmat_j"@, h));
    "(b- "@ + i + " "@ + j + " (mat ?x (dim "@ + i + " ?i) (dim "@ + j + " ?j) (nnz ?z)))"@
}

/// The translation of a matrix read with `n` rows and `m` columns (see [`la_mat_text`]).
pub fn la_mat_pattern(n: usize, m: usize, h: u64) -> (r: String)
    ensures
        r@ == la_mat_text(n, m, h),
{
    let i = bind_name(n, &fresh("vmat_i", h));
    let j = bind_name(m, &fresh("vmat_j", h));
    let mut s = "(b- ".to_owned();
    s.append(i.as_str());
    s.append(" ");
    s.append(j.as_str());
    s.append(" (mat ?x (dim ");
    s.append(i.as_str());
    s.append(" ?i) (dim ");
    s.append(j.as_str());
    s.append(" ?j) (nnz ?z)))");
    s
}

/// The translation of the matrix product of an `x_i`×`x_j` and a `y_j`×`y_k` matrix:
/// both bound, multiplied cell by cell, and summed over the shared axis unless it has
/// size 1 on both sides.
pub open spec fn la_mmul_text(x_i: usize, x_j: usize, y_j: usize, y_k: usize, h: u64) -> Seq<char> {
    let fi = fresh_text("vmmul_i"@, h);
    let fj = fresh_text("vmmul_j"@, h);
    let fk = fresh_text("vmmul_k"@, h);
    let i = binder(x_i as int, fi);
    let k = binder(y_k as int, fk);
    let body = "(* (b+ "@ + binder(x_i as int, fi) + " "@ + binder(x_j as int, fj) + " ?x) (b+ "@
        + binder(y_j as int, fj) + " "@ + binder(y_k as int, fk) + " ?y))"@;
    if x_j * y_j == 1 {
        "(b- "@ + i + " "@ + k + " "@ + body + ")"@
    } else {
        "(b- "@ + i + " "@ + k + " (sum (dim "@ + fj + " "@ + size_text(x_j) + ") "@ + body + "))"@
    }
}

/// The translation of a matrix product (`m*`, see [`la_mmul_text`]).
pub fn la_mmul_pattern(x_i: usize, x_j: usize, y_j: usize, y_k: usize, h: u64) -> (r: String)
    requires
        x_j * y_j <= usize::MAX,
    ensures
        r@ == la_mmul_text(x_i, x_j, y_j, y_k, h),
{
    let fi = fresh("vmmul_i", h);
    let fj = fresh("vmmul_j", h);
    let fk = fresh("vmmul_k", h);
    let xi = bind_name(x_i, &fi);
    let xj = bind_name(x_j, &fj);
    let yj = bind_name(y_j, &fj);
    let yk = bind_name(y_k, &fk);
    let mut body = "(* (b+ ".to_owned();
    body.append(xi.as_str());
    body.append(" ");
    body.append(xj.as_str());
    body.append(" ?x) (b+ ");
    body.append(yj.as_str());
    body.append(" ");
    body.append(yk.as_str());
    body.append(" ?y))");
    let mut s = "(b- ".to_owned();
    s.append(xi.as_str());
    s.append(" ");
    s.append(yk.as_str());
    if x_j * y_j == 1 {
        s.append(" ");
        s.append(body.as_str());
        s.append(")");
    } else {
        s.append(" (sum (dim ");
        s.append(fj.as_str());
        s.append(" ");
        push_size(&mut s, x_j);
        s.append(") ");
        s.append(body.as_str());
        s.append("))");
    }
    s
}

/// The translation of the transpose of an `a_i`×`a_j` matrix: bind it and unbind it
/// with the names swapped, `(b- J I (b+ I J ?a))`.
pub open spec fn la_trans_text(a_i: usize, a_j: usize, h: u64) -> Seq<char> {
    let i = binder(a_i as int, fresh_text("vtrans_i"@, h));
    let j = binder(a_j as int, fresh_text("vtrans_j"@, h));
    "(b- "@ + j + " "@ + i + " (b+ "@ + i + " "@ + j + " ?a))"@
}

/// The translation of a transpose (see [`la_trans_text`]).
pub fn la_trans_pattern(a_i: usize, a_j: usize, h: u64) -> (r: String)
    ensures
        r@ == la_trans_text(a_i, a_j, h),
{
    let i = bind_name(a_i, &fresh("vtrans_i", h));
    let j = bind_name(a_j, &fresh("vtrans_j", h));
    let mut s = "(b- ".to_owned();
    s.append(j.as_str());
    s.append(" ");
    s.append(i.as_str());
    s.append(" (b+ ");
    s.append(i.as_str());
    s.append(" ");
    s.append(j.as_str());
    s.append(" ?a))");
    s
}

/// The translation of the row sums of an `a_i`×`a_j` matrix: sum the bound matrix over
/// its column dimension, `(b- I _ (sum (dim J a_j) (b+ I J ?a)))`.
pub open spec fn la_srow_text(a_i: usize, a_j: usize, h: u64) -> Seq<char> {
    let i = binder(a_i as int, fresh_text("vsrow_i"@, h));
    let j = binder(a_j as int, fresh_text("vsrow_j"@, h));
    "(b- "@ + i + " _ (sum (dim "@ + j + " "@ + size_text(a_j) + ") (b+ "@ + i + " "@ + j
        + " ?a)))"@
}

/// The translation of row sums (see [`la_srow_text`]).
pub fn la_srow_pattern(a_i: usize, a_j: usize, h: u64) -> (r: String)
    ensures
        r@ == la_srow_text(a_i, a_j, h),
{
    let i = bind_name(a_i, &fresh("vsrow_i", h));
    let j = bind_name(a_j, &fresh("vsrow_j", h));
    let mut s = "(b- ".to_owned();
    s.append(i.as_str());
    s.append(" _ (sum (dim ");
    s.append(j.as_str());
    s.append(" ");
    push_size(&mut s, a_j);
    s.append(") (b+ ");
    s.append(i.as_str());
    s.append(" ");
    s.append(j.as_str());
    s.append(" ?a)))");
    s
}

/// The translation of the column sums of an `a_i`×`a_j` matrix: sum the bound matrix
/// over its row dimension, `(b- _ J (sum (dim I a_i) (b+ I J ?a)))`. (The fresh names
/// share their prefix with row sums.)
pub open spec fn la_scol_text(a_i: usize, a_j: usize, h: u64) -> Seq<char> {
    let i = binder(a_i as int, fresh_text("vsrow_i"@, h));
    let j = binder(a_j as int, fresh_text("vsrow_j"@, h));
    "(b- _ "@ + j + " (sum (dim "@ + i + " "@ + size_text(a_i) + ") (b+ "@ + i + " "@ + j
        + " ?a)))"@
}

/// The translation of column sums (see [`la_scol_text`]).
pub fn la_scol_pattern(a_i: usize, a_j: usize, h: u64) -> (r: String)
    ensures
        r@ == la_scol_text(a_i, a_j, h),
{
    let i = bind_name(a_i, &fresh("vsrow_i", h));
    let j = bind_name(a_j, &fresh("vsrow_j", h));
    let mut s = "(b- _ ".to_owned();
    s.append(j.as_str());
    s.append(" (sum (dim ");
    s.append(i.as_str());
    s.append(" ");
    push_size(&mut s, a_i);
    s.append(") (b+ ");
    s.append(i.as_str());
    s.append(" ");
    s.append(j.as_str());
    s.append(" ?a)))");
    s
}

/// The translation of the sum of all cells of an `a_i`×`a_j` matrix:
/// `(b- _ _ (sum (dim I a_i) (sum (dim J a_j) (b+ I J ?a))))`.
pub open spec fn la_sall_text(a_i: usize, a_j: usize, h: u64) -> Seq<char> {
    let i = binder(a_i as int, fresh_text("vsall_i"@, h));
    let j = binder(a_j as int, fresh_text("vsall_j"@, h));
    "(b- _ _ (sum (dim "@ + i + " "@ + size_text(a_i) + ") (sum (dim "@ + j + " "@ + size_text(
        a_j,
    ) + ") (b+ "@ + i + " "@ + j + " ?a))))"@
}

/// The translation of a sum of all cells (see [`la_sall_text`]).
pub fn la_sall_pattern(a_i: usize, a_j: usize, h: u64) -> (r: String)
    ensures
        r@ == la_sall_text(a_i, a_j, h),
{
    let i = bind_name(a_i, &fresh("vsall_i", h));
    let j = bind_name(a_j, &fresh("vsall_j", h));
    let mut s = "(b- _ _ (sum (dim ".to_owned();
    s.append(i.as_str());
    s.append(" ");
    push_size(&mut s, a_i);
    s.append(") (sum (dim ");
    s.append(j.as_str());
    s.append(" ");
    push_size(&mut s, a_j);
    s.append(") (b+ ");
    s.append(i.as_str());
    s.append(" ");
    s.append(j.as_str());
    s.append(" ?a))))");
    s
}

/// The size of dimension `i` in `s`, or 1 where `s` lacks it.
pub open spec fn size_in(s: Map<Seq<char>, usize>, i: Seq<char>) -> usize {
    if s.dom().contains(i) {
        s[i]
    } else {
        1
    }
}

/// Whether rebinding (`(b+ K L (b- I J ?x))`) may be rewritten: an axis unbound from a
/// name cannot be bound to the wildcard.
pub open spec fn la_bind_ok(i: Seq<char>, j: Seq<char>, k: Seq<char>, l: Seq<char>) -> bool {
    (l == "_"@ ==> j == "_"@) && (k == "_"@ ==> i == "_"@)
}

/// Rebinding as renaming: `(subst (dim L n_j) (dim J n_j) (subst (dim K n_i) (dim I n_i) ?x))`
/// where `n_i`, `n_j` are the sizes of `I`, `J` in the relation `x` (1 where it lacks them).
pub open spec fn la_bind_text(
    i: Seq<char>,
    j: Seq<char>,
    k: Seq<char>,
    l: Seq<char>,
    x: Map<Seq<char>, usize>,
) -> Seq<char> {
    let ni = size_text(size_in(x, i));
    let nj = size_text(size_in(x, j));
    "(subst (dim "@ + l + " "@ + nj + ") (dim "@ + j + " "@ + nj + ") (subst (dim "@ + k + " "@
        + ni + ") (dim "@ + i + " "@ + ni + ") ?x))"@
}

/// Rebinding as renaming (see [`la_bind_text`]).
pub fn la_bind_pattern(i: &String, j: &String, k: &String, l: &String, x: &DimMap) -> (r: String)
    requires
        la_bind_ok(i@, j@, k@, l@),
    ensures
        r@ == la_bind_text(i@, j@, k@, l@, x@),
{
    let x_i = match x.get(i) {
        Some(v) => v,
        None => 1,
    };
    let x_j = match x.get(j) {
        Some(v) => v,
        None => 1,
    };
    let mut s = "(subst (dim ".to_owned();
    s.append(l.as_str());
    s.append(" ");
    push_size(&mut s, x_j);
    s.append(") (dim ");
    s.append(j.as_str());
    s.append(" ");
    push_size(&mut s, x_j);
    s.append(") (subst (dim ");
    s.append(k.as_str());
    s.append(" ");
    push_size(&mut s, x_i);
    s.append(") (dim ");
    s.append(i.as_str());
    s.append(" ");
    push_size(&mut s, x_i);
    s.append(") ?x))");
    s
}

/// Whether rebinding may be rewritten (see [`la_bind_ok`]).
pub fn la_bind_allowed(i: &String, j: &String, k: &String, l: &String) -> (r: bool)
    ensures
        r == la_bind_ok(i@, j@, k@, l@),
{
    let wc = "_".to_owned();
    (*l != wc || *j == wc) && (*k != wc || *i == wc)
}


/// Summing a relation over a dimension `k` (of size `n`) that it does not have
/// multiplies it by `n`: `(* ?a (lit n))`; no rewrite where it has `k`.
pub fn sum_ia_pattern(k: &String, n: usize, body: &DimMap) -> (r: Option<String>)
    ensures
        r matches Some(t) ==> t@ == "(* ?a (lit "@ + size_text(n) + "))"@,
        r is None <==> body@.dom().contains(k@),
{
    if body.contains_key(k) {
        None
    } else {
        let mut s = "(* ?a (lit ".to_owned();
        push_size(&mut s, n);
        s.append("))");
        Some(s)
    }
}

/// A factor `a` without the summed dimension `k` moves out of the sum:
/// `(* ?a (sum ?i ?b))`; no rewrite where `a` has `k`.
pub fn pull_mul_pattern(k: &String, a: &DimMap) -> (r: Option<String>)
    ensures
        r matches Some(t) ==> t@ == "(* ?a (sum ?i ?b))"@,
        r is None <==> a@.dom().contains(k@),
{
    if a.contains_key(k) {
        None
    } else {
        Some("(* ?a (sum ?i ?b))".to_owned())
    }
}

/// A factor `a` moves into a sum over dimension `i_s` (of size `i_n`): as it is where
/// `a` lacks `i_s`, `(sum ?i (* ?a ?b))`; else the sum's dimension is renamed to a
/// fresh `v<h>` first, `(sum (dim F n) (* ?a (subst (dim F n) ?i ?b)))`.
pub open spec fn push_mul_text(i_s: Seq<char>, i_n: usize, a: Map<Seq<char>, usize>, h: u64) -> Seq<
    char,
> {
    if !a.dom().contains(i_s) {
        "(sum ?i (* ?a ?b))"@
    } else {
        let f = fresh_text("v"@, h);
        let n = size_text(i_n);
        "(sum (dim "@ + f + " "@ + n + ") (* ?a (subst (dim "@ + f + " "@ + n + ") ?i ?b)))"@
    }
}

/// Moving a factor into a sum (see [`push_mul_text`]).
pub fn push_mul_pattern(i_s: &String, i_n: usize, a: &DimMap, h: u64) -> (r: String)
    ensures
        r@ == push_mul_text(i_s@, i_n, a@, h),
{
    if !a.contains_key(i_s) {
        "(sum ?i (* ?a ?b))".to_owned()
    } else {
        let f = fresh("v", h);
        let mut s = "(sum (dim ".to_owned();
        s.append(f.as_str());
        s.append(" ");
        push_size(&mut s, i_n);
        s.append(") (* ?a (subst (dim ");
        s.append(f.as_str());
        s.append(" ");
        push_size(&mut s, i_n);
        s.append(") ?i ?b)))");
        s
    }
}

/// Whether a sum over `j` of a product of `a` and `b` is a matrix product: both have
/// two dimensions at most and `j` is the only one they share.
pub open spec fn agg_mmul_ok(a: Map<Seq<char>, usize>, b: Map<Seq<char>, usize>, j: Seq<char>) -> bool {
    a.len() <= 2 && b.len() <= 2 && a.dom().intersect(b.dom()) == set![j]
}

/// A sum over `j` of a product is a relational matrix product, `(rm* ?a ?b)`, where
/// [`agg_mmul_ok`] holds; no rewrite otherwise.
pub fn agg_mmul_pattern(a: &DimMap, b: &DimMap, j: &String) -> (r: Option<String>)
    ensures
        r matches Some(t) ==> t@ == "(rm* ?a ?b)"@,
        r is Some <==> agg_mmul_ok(a@, b@, j@),
{
    let an = a.len();
    let bn = b.len();
    if an > 2 || bn > 2 {
        return None;
    }
    let ka = a.keys();
    let mut shared: Vec<String> = Vec::new();
    let ghost mut src: Seq<int> = Seq::empty();
    let mut q: usize = 0;
    while q < ka.len()
        invariant
            q <= ka.len(),
            ka.len() == a@.len(),
            forall|p: int| 0 <= p < ka.len() ==> a@.dom().contains(#[trigger] ka@[p]@),
            forall|k: Seq<char>|
                #[trigger] a@.dom().contains(k) ==> exists|p: int| 0 <= p < ka.len() && ka@[p]@ == k,
            forall|p: int, t: int|
                0 <= p < ka.len() && 0 <= t < ka.len() && p != t ==> #[trigger] ka@[p]@
                    != #[trigger] ka@[t]@,
            src.len() == shared.len(),
            forall|t: int|
                0 <= t < shared.len() ==> 0 <= #[trigger] src[t] < q && shared@[t]@ == ka@[src[t]]@
                    && b@.dom().contains(ka@[src[t]]@),
            forall|t: int, u: int| 0 <= t < u < shared.len() ==> #[trigger] src[t] < #[trigger] src[u],
            forall|p: int|
                0 <= p < q && b@.dom().contains(#[trigger] ka@[p]@) ==> exists|t: int|
                    0 <= t < shared.len() && src[t] == p,
        decreases ka.len() - q,
    {
        let ghost old_src = src;
        if b.contains_key(&ka[q]) {
            shared.push(ka[q].clone());
            proof {
                src = src.push(q as int);
            }
        }
        proof {
            assert forall|p: int| 0 <= p < q + 1 && b@.dom().contains(#[trigger] ka@[p]@) implies exists|t: int|
                0 <= t < shared.len() && src[t] == p by {
                if p == q {
                    assert(src[src.len() - 1] == p);
                } else {
                    let t = choose|t: int| 0 <= t < old_src.len() && old_src[t] == p;
                    assert(src[t] == old_src[t]);
                }
            }
        }
        q += 1;
    }
    let ghost inter = a@.dom().intersect(b@.dom());
    let ok = shared.len() == 1 && shared[0] == *j;
    proof {
        assert forall|k: Seq<char>| inter.contains(k) implies exists|t: int|
            0 <= t < shared.len() && shared@[t]@ == k by {
            let p = choose|p: int| 0 <= p < ka.len() && ka@[p]@ == k;
            let t = choose|t: int| 0 <= t < shared.len() && src[t] == p;
            assert(shared@[t]@ == k);
        }
        if ok {
            assert forall|k: Seq<char>| inter.contains(k) <==> set![j@].contains(k) by {
                if inter.contains(k) {
                    let t = choose|t: int| 0 <= t < shared.len() && shared@[t]@ == k;
                }
                if k == j@ {
                    assert(shared@[0]@ == ka@[src[0]]@);
                }
            }
            assert(inter =~= set![j@]);
        } else if inter == set![j@] {
            assert(inter.contains(j@));
            let t = choose|t: int| 0 <= t < shared.len() && shared@[t]@ == j@;
            if shared.len() >= 2 {
                let u: int = if t == 0 { 1 } else { 0 };
                assert(src[t] != src[u]);
                assert(shared@[u]@ != shared@[t]@);
                assert(inter.contains(shared@[u]@));
            }
        }
    }
    if ok {
        Some("(rm* ?a ?b)".to_owned())
    } else {
        None
    }
}


/// Where renaming `(subst ?e (dim ?v ?m) (dim ?i ?n))` leads: to the class of `?e`
/// itself, or to a node to add.
#[derive(Debug, PartialEq, Eq)]
pub enum Target {
    /// The existing class with this id.
    Class(Id),
    /// A new node.
    Node(Math),
}

/// Renaming `v` to `e` in the dimension node `(dim i n)`: the dimension renamed where
/// `i` is `v` itself, else the dimension unchanged.
pub fn dim_subst_target(e: Id, v: Id, i: Id, n: Id) -> (r: Target)
    ensures
        r == (if i == v {
            Target::Class(e)
        } else {
            Target::Node(Math::Dim([i, n]))
        }),
{
    if i == v {
        Target::Class(e)
    } else {
        Target::Node(Math::Dim([i, n]))
    }
}

/// Renaming `v1` to `e` in a sum over `v2` of `body`: a sum over the renamed dimension
/// itself is left as it is, `(sum v2 body)`; any other sum renames inside its body,
/// `(sum v2 (subst e v1 body))`. Gives the body node to add in that case.
pub fn subst_agg_body(e: Id, v1: Id, v2: Id, body: Id) -> (r: Option<Math>)
    ensures
        r == (if v1 == v2 {
            None
        } else {
            Some(Math::Sub([e, v1, body]))
        }),
{
    if v1 == v2 {
        None
    } else {
        Some(Math::Sub([e, v1, body]))
    }
}

/// Feeds `ids` to `state`, by std's `Hash` for a slice of `u32`
/// (`<[u32] as Hash>::hash`). Nothing is stated of what it writes: that depends on the
/// machine (byte order, width of the length).
#[verifier::external_body]
fn hash_ids(ids: &[u32], state: &mut DefaultHasher) {
    ids.hash(state);
}

/// The number from which the fresh names of a rewrite are made: the hash of the ids of
/// the matched classes, by std's `DefaultHasher`. It is the same for the same ids in one
/// process; nothing more is stated of it.
pub fn fresh_seed(ids: &Vec<u32>) -> (r: u64) {
    let mut state = DefaultHasher::new();
    hash_ids(ids.as_slice(), &mut state);
    state.finish()
}

/// Renaming into a binder: where the renamed dimension `?i` is the binder's row name
/// `?k`, the row is bound to `?j`; where it is the column name `?l`, the column is;
/// else the binder stays.
pub fn subst_bind_pattern(i: usize, k: usize, l: usize) -> (r: &'static str)
    ensures
        r@ == (if i == k {
            "(b+ ?j ?l ?e)"@
        } else if i == l {
            "(b+ ?k ?j ?e)"@
        } else {
            "(b+ ?k ?l ?e)"@
        }),
{
    if i == k {
        "(b+ ?j ?l ?e)"
    } else if i == l {
        "(b+ ?k ?j ?e)"
    } else {
        "(b+ ?k ?l ?e)"
    }
}

/// The names `i`, `j` list the (at most two) dimensions of `m` in some order, `_`
/// standing in for missing ones.
pub open spec fn pair_of_keys(m: Map<Seq<char>, usize>, i: Seq<char>, j: Seq<char>) -> bool {
    ||| (m.len() == 0 && i == "_"@ && j == "_"@)
    ||| (m.len() == 1 && m.dom() == set![i] && j == "_"@)
    ||| (m.len() == 2 && i != j && m.dom() == set![i, j])
}

pub(crate) fn first_two_keys(m: &DimMap) -> (r: (String, String))
    requires
        m@.len() <= 2,
    ensures
        pair_of_keys(m@, r.0@, r.1@),
{
    let ks = m.keys();
    let n = m.len();
    proof {
        reveal_strlit("_");
    }
    if n == 0 {
        ("_".to_owned(), "_".to_owned())
    } else if n == 1 {
        let i = ks[0].clone();
        proof {
            assert forall|k: Seq<char>| m@.dom().contains(k) <==> set![i@].contains(k) by {
                if m@.dom().contains(k) {
                    let p = choose|p: int| 0 <= p < ks.len() && ks@[p]@ == k;
                }
            }
            assert(m@.dom() =~= set![i@]);
        }
        (i, "_".to_owned())
    } else {
        let i = ks[0].clone();
        let j = ks[1].clone();
        proof {
            assert forall|k: Seq<char>| m@.dom().contains(k) <==> set![i@, j@].contains(k) by {
                if m@.dom().contains(k) {
                    let p = choose|p: int| 0 <= p < ks.len() && ks@[p]@ == k;
                }
            }
            assert(m@.dom() =~= set![i@, j@]);
        }
        (i, j)
    }
}

/// `(b+ I J (b- I J ?e))`: a relation with (at most) dimensions `I`, `J` as a bound matrix.
pub open spec fn ra_bind_text(i: Seq<char>, j: Seq<char>) -> Seq<char> {
    "(b+ "@ + i + " "@ + j + " (b- "@ + i + " "@ + j + " ?e))"@
}

fn ra_bind_one(i: &String, j: &String) -> (r: String)
    ensures
        r@ == ra_bind_text(i@, j@),
{
    let mut s = "(b+ ".to_owned();
    s.append(i.as_str());
    s.append(" ");
    s.append(j.as_str());
    s.append(" (b- ");
    s.append(i.as_str());
    s.append(" ");
    s.append(j.as_str());
    s.append(" ?e))");
    s
}

/// A relation with two dimensions at most is its matrix, bound: both ways round; none
/// for a relation with more, or for any other schema.
pub fn ra_bind_patterns(e: &Option<crate::schema::Schema>) -> (r: Vec<String>)
    ensures
        match *e {
            Some(crate::schema::Schema::Schm(m)) if m@.len() <= 2 => exists|i: Seq<char>, j: Seq<char>|
                pair_of_keys(m@, i, j) && r@.len() == 2 && r@[0]@ == ra_bind_text(i, j) && r@[1]@
                    == ra_bind_text(j, i),
            _ => r@.len() == 0,
        },
{
    let mut r: Vec<String> = Vec::new();
    match e {
        Some(crate::schema::Schema::Schm(m)) => {
            if m.len() <= 2 {
                let (i, j) = first_two_keys(m);
                r.push(ra_bind_one(&i, &j));
                r.push(ra_bind_one(&j, &i));
                assert(pair_of_keys(m@, i@, j@) && r@[0]@ == ra_bind_text(i@, j@));
            }
        },
        _ => {},
    }
    r
}

/// `(b+ I J (l+ (b- I J ?a) (b- I J ?b)))`: a sum of relations as a sum of matrices.
pub open spec fn ra_add_text(i: Seq<char>, j: Seq<char>) -> Seq<char> {
    "(b+ "@ + i + " "@ + j + " (l+ (b- "@ + i + " "@ + j + " ?a) (b- "@ + i + " "@ + j
        + " ?b)))"@
}

fn ra_add_one(i: &String, j: &String) -> (r: String)
    ensures
        r@ == ra_add_text(i@, j@),
{
    let mut s = "(b+ ".to_owned();
    s.append(i.as_str());
    s.append(" ");
    s.append(j.as_str());
    s.append(" (l+ (b- ");
    s.append(i.as_str());
    s.append(" ");
    s.append(j.as_str());
    s.append(" ?a) (b- ");
    s.append(i.as_str());
    s.append(" ");
    s.append(j.as_str());
    s.append(" ?b)))");
    s
}

/// A sum of relations whose result has schema `sum` (two dimensions at most) is a sum
/// of matrices, both ways round; none where the result has more dimensions.
pub fn ra_add_patterns(sum: &DimMap) -> (r: Vec<String>)
    ensures
        sum@.len() <= 2 ==> exists|i: Seq<char>, j: Seq<char>|
            pair_of_keys(sum@, i, j) && r@.len() == 2 && r@[0]@ == ra_add_text(i, j) && r@[1]@
                == ra_add_text(j, i),
        sum@.len() > 2 ==> r@.len() == 0,
{
    let mut r: Vec<String> = Vec::new();
    if sum.len() <= 2 {
        let (i, j) = first_two_keys(sum);
        r.push(ra_add_one(&i, &j));
        r.push(ra_add_one(&j, &i));
        assert(pair_of_keys(sum@, i@, j@) && r@[0]@ == ra_add_text(i@, j@));
    }
    r
}

/// `(b+ _ J (scol (b- I J ?x)))` and `(b+ J _ (srow (b- J I ?x)))`: a sum over `I`
/// as column sums and as row sums.
pub open spec fn ra_sum_texts(i: Seq<char>, j: Seq<char>) -> (Seq<char>, Seq<char>) {
    (
        "(b+ _ "@ + j + " (scol (b- "@ + i + " "@ + j + " ?x)))"@,
        "(b+ "@ + j + " _ (srow (b- "@ + j + " "@ + i + " ?x)))"@,
    )
}

/// A sum over dimension `i_s` whose result has schema `sum` (one dimension at most) is
/// the column sums and the row sums of a matrix; none where the result has more.
pub fn ra_sum_patterns(i_s: &String, sum: &DimMap) -> (r: Vec<String>)
    ensures
        sum@.len() <= 1 ==> exists|j: Seq<char>|
            pair_of_keys(sum@, j, "_"@) && r@.len() == 2 && r@[0]@ == ra_sum_texts(i_s@, j).0
                && r@[1]@ == ra_sum_texts(i_s@, j).1,
        sum@.len() > 1 ==> r@.len() == 0,
{
    let mut r: Vec<String> = Vec::new();
    if sum.len() <= 1 {
        let (j, _) = first_two_keys(sum);
        let mut a = "(b+ _ ".to_owned();
        a.append(j.as_str());
        a.append(" (scol (b- ");
        a.append(i_s.as_str());
        a.append(" ");
        a.append(j.as_str());
        a.append(" ?x)))");
        let mut b = "(b+ ".to_owned();
        b.append(j.as_str());
        b.append(" _ (srow (b- ");
        b.append(j.as_str());
        b.append(" ");
        b.append(i_s.as_str());
        b.append(" ?x)))");
        r.push(a);
        r.push(b);
        assert(pair_of_keys(sum@, j@, "_"@));
    }
    r
}


/// The dimension names of `m` other than the wildcard `_`.
pub open spec fn named_dims(m: Map<Seq<char>, usize>) -> Set<Seq<char>> {
    m.dom().remove("_"@)
}

/// `x` is some member of `s`, or `_` where `s` is empty.
pub open spec fn picked(s: Set<Seq<char>>, x: Seq<char>) -> bool {
    s.contains(x) || (x == "_"@ && forall|k: Seq<char>| !s.contains(k))
}

/// Some dimension of `a` that `b` lacks (skipping `_` if `skip_wc`), or `_` where
/// there is none.
fn some_key_outside(a: &DimMap, b: &DimMap, skip_wc: bool) -> (r: String)
    ensures
        picked(
            if skip_wc {
                a@.dom().difference(b@.dom()).remove("_"@)
            } else {
                a@.dom().difference(b@.dom())
            },
            r@,
        ),
{
    let ghost set = if skip_wc {
        a@.dom().difference(b@.dom()).remove("_"@)
    } else {
        a@.dom().difference(b@.dom())
    };
    let ks = a.keys();
    let wc = "_".to_owned();
    let mut q: usize = 0;
    while q < ks.len()
        invariant
            q <= ks.len(),
            wc@ == "_"@,
            set == (if skip_wc {
                a@.dom().difference(b@.dom()).remove("_"@)
            } else {
                a@.dom().difference(b@.dom())
            }),
            forall|p: int| 0 <= p < ks.len() ==> a@.dom().contains(#[trigger] ks@[p]@),
            forall|k: Seq<char>|
                #[trigger] a@.dom().contains(k) ==> exists|p: int| 0 <= p < ks.len() && ks@[p]@ == k,
            forall|p: int| 0 <= p < q ==> !set.contains(#[trigger] ks@[p]@),
        decreases ks.len() - q,
    {
        if !b.contains_key(&ks[q]) && !(skip_wc && ks[q] == wc) {
            return ks[q].clone();
        }
        q += 1;
    }
    proof {
        reveal_strlit("_");
        assert forall|k: Seq<char>| !set.contains(k) by {
            if set.contains(k) {
                let p = choose|p: int| 0 <= p < ks.len() && ks@[p]@ == k;
            }
        }
    }
    wc
}

/// Whether the named dimensions of `a` are among those of `b`.
fn named_subset(a: &DimMap, b: &DimMap) -> (r: bool)
    ensures
        r == named_dims(a@).subset_of(named_dims(b@)),
{
    let ks = a.keys();
    let wc = "_".to_owned();
    let mut q: usize = 0;
    while q < ks.len()
        invariant
            q <= ks.len(),
            wc@ == "_"@,
            forall|p: int| 0 <= p < ks.len() ==> a@.dom().contains(#[trigger] ks@[p]@),
            forall|k: Seq<char>|
                #[trigger] a@.dom().contains(k) ==> exists|p: int| 0 <= p < ks.len() && ks@[p]@ == k,
            forall|p: int|
                0 <= p < q && #[trigger] ks@[p]@ != "_"@ ==> b@.dom().contains(ks@[p]@),
        decreases ks.len() - q,
    {
        if ks[q] != wc && !b.contains_key(&ks[q]) {
            assert(named_dims(a@).contains(ks@[q as int]@));
            return false;
        }
        q += 1;
    }
    proof {
        assert forall|k: Seq<char>| named_dims(a@).contains(k) implies named_dims(b@).contains(k) by {
            let p = choose|p: int| 0 <= p < ks.len() && ks@[p]@ == k;
        }
    }
    true
}

/// The name `x` if `s` has it, else `_`.
pub open spec fn own(s: Set<Seq<char>>, x: Seq<char>) -> Seq<char> {
    if s.contains(x) {
        x
    } else {
        "_"@
    }
}

/// `(b+ I J (l* (b- AI AJ ?a) (b- BI BJ ?b)))`: a product as a cell-by-cell product.
pub open spec fn ra_lmul_text(
    i: Seq<char>,
    j: Seq<char>,
    ai: Seq<char>,
    aj: Seq<char>,
    bi: Seq<char>,
    bj: Seq<char>,
) -> Seq<char> {
    "(b+ "@ + i + " "@ + j + " (l* (b- "@ + ai + " "@ + aj + " ?a) (b- "@ + bi + " "@ + bj
        + " ?b)))"@
}

/// `(b+ I J (m* (b- I _ ?a) (b- _ J ?b)))`: a product as an outer product.
pub open spec fn ra_outer_text(i: Seq<char>, j: Seq<char>) -> Seq<char> {
    "(b+ "@ + i + " "@ + j + " (m* (b- "@ + i + " _ ?a) (b- _ "@ + j + " ?b)))"@
}

fn ra_lmul_one(i: &String, j: &String, ai: &String, aj: &String, bi: &String, bj: &String) -> (r:
    String)
    ensures
        r@ == ra_lmul_text(i@, j@, ai@, aj@, bi@, bj@),
{
    let mut s = "(b+ ".to_owned();
    s.append(i.as_str());
    s.append(" ");
    s.append(j.as_str());
    s.append(" (l* (b- ");
    s.append(ai.as_str());
    s.append(" ");
    s.append(aj.as_str());
    s.append(" ?a) (b- ");
    s.append(bi.as_str());
    s.append(" ");
    s.append(bj.as_str());
    s.append(" ?b)))");
    s
}

fn own_exec(m: &DimMap, x: &String) -> (r: String)
    ensures
        r@ == own(named_dims(m@), x@),
{
    proof {
        reveal_strlit("_");
    }
    let wc = "_".to_owned();
    if *x != wc && m.contains_key(x) {
        x.clone()
    } else {
        wc
    }
}

/// A product of relations `a` and `b` whose result has schema `mul` (two dimensions at
/// most) as linear algebra: where the named dimensions of one are among the other's, a
/// cell-by-cell product, both ways round; else an outer product over a dimension of
/// each. None where the result has more dimensions.
pub fn ra_mul_patterns(mul: &DimMap, a: &DimMap, b: &DimMap) -> (r: Vec<String>)
    ensures
        mul@.len() > 2 ==> r@.len() == 0,
        mul@.len() <= 2 ==> exists|i: Seq<char>, j: Seq<char>|
            #![trigger pair_of_keys(mul@, i, j)]
            pair_of_keys(mul@, i, j) && {
                let sa = named_dims(a@);
                let sb = named_dims(b@);
                if sa.subset_of(sb) || sb.subset_of(sa) {
                    r@.len() == 2 && r@[0]@ == ra_lmul_text(
                        i,
                        j,
                        own(sa, i),
                        own(sa, j),
                        own(sb, i),
                        own(sb, j),
                    ) && r@[1]@ == ra_lmul_text(j, i, own(sa, j), own(sa, i), own(sb, j), own(sb, i))
                } else {
                    exists|x: Seq<char>, y: Seq<char>|
                        sa.contains(x) && sb.contains(y) && r@.len() == 1 && r@[0]@ == ra_outer_text(
                            x,
                            y,
                        )
                }
            },
{
    let mut r: Vec<String> = Vec::new();
    if mul.len() > 2 {
        return r;
    }
    let (i, j) = first_two_keys(mul);
    let ghost sa = named_dims(a@);
    let ghost sb = named_dims(b@);
    if named_subset(a, b) || named_subset(b, a) {
        let ai = own_exec(a, &i);
        let aj = own_exec(a, &j);
        let bi = own_exec(b, &i);
        let bj = own_exec(b, &j);
        r.push(ra_lmul_one(&i, &j, &ai, &aj, &bi, &bj));
        r.push(ra_lmul_one(&j, &i, &aj, &ai, &bj, &bi));
        assert(pair_of_keys(mul@, i@, j@));
    } else {
        let empty = DimMap::new();
        let x = some_key_outside(a, &empty, true);
        let y = some_key_outside(b, &empty, true);
        proof {
            assert(a@.dom().difference(empty@.dom()).remove("_"@) =~= sa);
            assert(b@.dom().difference(empty@.dom()).remove("_"@) =~= sb);
            if !sa.contains(x@) {
                assert(sa.subset_of(sb));
            }
            if !sb.contains(y@) {
                assert(sb.subset_of(sa));
            }
        }
        let mut s = "(b+ ".to_owned();
        s.append(x.as_str());
        s.append(" ");
        s.append(y.as_str());
        s.append(" (m* (b- ");
        s.append(x.as_str());
        s.append(" _ ?a) (b- _ ");
        s.append(y.as_str());
        s.append(" ?b)))");
        r.push(s);
        assert(pair_of_keys(mul@, i@, j@));
        assert(sa.contains(x@) && sb.contains(y@) && r@[0]@ == ra_outer_text(x@, y@));
    }
    r
}

/// `(b+ I K (m* (b- I J ?a) (b- J K ?b)))` and `(b+ K I (m* (b- K J ?b) (b- J I ?a)))`:
/// a relational matrix product as a matrix product, both ways round.
pub open spec fn ra_rmmul_texts(i: Seq<char>, j: Seq<char>, k: Seq<char>) -> (Seq<char>, Seq<char>) {
    (
        "(b+ "@ + i + " "@ + k + " (m* (b- "@ + i + " "@ + j + " ?a) (b- "@ + j + " "@ + k
            + " ?b)))"@,
        "(b+ "@ + k + " "@ + i + " (m* (b- "@ + k + " "@ + j + " ?b) (b- "@ + j + " "@ + i
            + " ?a)))"@,
    )
}

/// A relational matrix product of `a` and `b` with result schema `mul` as a matrix
/// product: `I` is a dimension of `a` only, `K` one of `b` only, `J` one of `a` that the
/// result lacks (each `_` where there is none).
pub fn ra_rmmul_patterns(mul: &DimMap, a: &DimMap, b: &DimMap) -> (r: (String, String))
    ensures
        exists|i: Seq<char>, j: Seq<char>, k: Seq<char>|
            picked(a@.dom().difference(b@.dom()), i) && picked(b@.dom().difference(a@.dom()), k)
                && picked(a@.dom().difference(mul@.dom()), j) && r.0@ == ra_rmmul_texts(i, j, k).0
                && r.1@ == ra_rmmul_texts(i, j, k).1,
{
    let i = some_key_outside(a, b, false);
    let k = some_key_outside(b, a, false);
    let j = some_key_outside(a, mul, false);
    let mut s1 = "(b+ ".to_owned();
    s1.append(i.as_str());
    s1.append(" ");
    s1.append(k.as_str());
    s1.append(" (m* (b- ");
    s1.append(i.as_str());
    s1.append(" ");
    s1.append(j.as_str());
    s1.append(" ?a) (b- ");
    s1.append(j.as_str());
    s1.append(" ");
    s1.append(k.as_str());
    s1.append(" ?b)))");
    let mut s2 = "(b+ ".to_owned();
    s2.append(k.as_str());
    s2.append(" ");
    s2.append(i.as_str());
    s2.append(" (m* (b- ");
    s2.append(k.as_str());
    s2.append(" ");
    s2.append(j.as_str());
    s2.append(" ?b) (b- ");
    s2.append(j.as_str());
    s2.append(" ");
    s2.append(i.as_str());
    s2.append(" ?a)))");
    proof {
        assert(s1@ == ra_rmmul_texts(i@, j@, k@).0);
        assert(s2@ == ra_rmmul_texts(i@, j@, k@).1);
    }
    (s1, s2)
}

} // verus!
