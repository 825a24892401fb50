//! The schema analysis: what a node's schema and number of non-zeros are, given
//! those of its operands.
use vstd::prelude::*;
use crate::dims::{DimMap, map_vol};
use crate::math::{Math, children};
use crate::schema::{Schema, SchemaView, MetaInfo, MetaInfoView, get_vol, info_vol};
use crate::text::eq_lit;

verus! {

/// Whether matrices of shapes `x_i`×`x_j` and `y_i`×`y_j` can be combined cell by
/// cell: the shapes are equal, or one of them broadcasts along a row, a column or
/// as a scalar.
pub open spec fn dims_compatible(x_i: usize, x_j: usize, y_i: usize, y_j: usize) -> bool {
    (x_i == y_i && x_j == y_j) || (x_i == y_i && y_j == 1) || (x_i == y_i && x_j == 1) || (
    x_i == 1 && x_j == y_j) || (y_i == 1 && x_j == y_j) || (x_i == 1 && x_j == 1) || (y_i == 1
        && y_j == 1)
}

/// Whether matrices of shapes `x_i`×`x_j` and `y_i`×`y_j` can be combined cell by cell
/// (see [`dims_compatible`]).
pub fn shapes_compatible(x_i: usize, x_j: usize, y_i: usize, y_j: usize) -> (r: bool)
    ensures
        r == dims_compatible(x_i, x_j, y_i, y_j),
{
    (x_i == y_i && x_j == y_j) || (x_i == y_i && y_j == 1) || (x_i == y_i && x_j == 1) || (x_i
        == 1 && x_j == y_j) || (y_i == 1 && x_j == y_j) || (x_i == 1 && x_j == 1) || (y_i == 1
        && y_j == 1)
}

/// The check that two matrices combined cell by cell have compatible shapes (see
/// [`dims_compatible`]): it does nothing, and may only be called on such shapes. To
/// ask whether they are, call [`shapes_compatible`].
pub fn dims_ok(x_i: usize, x_j: usize, y_i: usize, y_j: usize)
    requires
        dims_compatible(x_i, x_j, y_i, y_j),
{
}

/// The extent of a cell-by-cell result along one axis: `a` unless it is 1, then `b`.
pub open spec fn bcast(a: usize, b: usize) -> usize {
    if a == 1 {
        b
    } else {
        a
    }
}

/// How the number of non-zeros of a node follows from its operands.
#[derive(Debug, Clone, Copy, PartialEq, Eq)]
pub enum NnzRule {
    /// It is this (or unknown, for `None`).
    Known(Option<usize>),
    /// It is the node's sparsity times this volume, rounded, where the sparsity is
    /// known; `None` stands for a volume beyond `usize::MAX`.
    ScaledBySparsity(Option<usize>),
    /// It is the node's sparsity, rounded, times this number of rows.
    RoundedSparsityTimes(usize),
}

/// What the analysis derives for a node: its schema and how its number of non-zeros
/// follows. (Sparsities are fractions, and are left to the caller.)
#[derive(Debug)]
pub struct Derived {
    pub schema: Option<Schema>,
    pub nnz: NnzRule,
}

/// The mathematical value of a [`Derived`].
pub ghost struct DerivedView {
    pub schema: Option<SchemaView>,
    pub nnz: NnzRule,
}

impl View for Derived {
    type V = DerivedView;

    open spec fn view(&self) -> DerivedView {
        DerivedView {
            schema: match self.schema {
                Some(s) => Some(s@),
                None => None,
            },
            nnz: self.nnz,
        }
    }
}

// ---- what the operands' data hold -------------------------------------------------

pub open spec fn has_schm(k: MetaInfoView) -> bool {
    k.schema matches Some(SchemaView::Schm(_))
}

pub open spec fn has_dims(k: MetaInfoView) -> bool {
    k.schema matches Some(SchemaView::Dims(_, _))
}

pub open spec fn has_name(k: MetaInfoView) -> bool {
    k.schema matches Some(SchemaView::Name(_))
}

pub open spec fn has_size(k: MetaInfoView) -> bool {
    k.schema matches Some(SchemaView::Size(_))
}

pub open spec fn has_mat(k: MetaInfoView) -> bool {
    k.schema matches Some(SchemaView::Mat(_, _))
}

pub open spec fn kschm(k: MetaInfoView) -> Map<Seq<char>, usize> {
    match k.schema {
        Some(SchemaView::Schm(m)) => m,
        _ => Map::empty(),
    }
}

pub open spec fn kdim_name(k: MetaInfoView) -> Seq<char> {
    match k.schema {
        Some(SchemaView::Dims(n, _)) => n,
        _ => Seq::empty(),
    }
}

pub open spec fn kdim_size(k: MetaInfoView) -> usize {
    match k.schema {
        Some(SchemaView::Dims(_, s)) => s,
        _ => 0,
    }
}

pub open spec fn kname(k: MetaInfoView) -> Seq<char> {
    match k.schema {
        Some(SchemaView::Name(n)) => n,
        _ => Seq::empty(),
    }
}

pub open spec fn ksize(k: MetaInfoView) -> usize {
    match k.schema {
        Some(SchemaView::Size(s)) => s,
        _ => 0,
    }
}

pub open spec fn krows(k: MetaInfoView) -> usize {
    match k.schema {
        Some(SchemaView::Mat(r, _)) => r,
        _ => 0,
    }
}

pub open spec fn kcols(k: MetaInfoView) -> usize {
    match k.schema {
        Some(SchemaView::Mat(_, c)) => c,
        _ => 0,
    }
}

/// The schema of a relation whose named dimensions `i` and `j` have sizes `n` and `m`;
/// a size-1 dimension is left out.
pub open spec fn bound_schema(i: Seq<char>, n: usize, j: Seq<char>, m: usize) -> Map<
    Seq<char>,
    usize,
> {
    let s0 = Map::<Seq<char>, usize>::empty();
    let s1 = if n != 1 {
        s0.insert(i, n)
    } else {
        s0
    };
    if m != 1 {
        s1.insert(j, m)
    } else {
        s1
    }
}

/// The size of dimension `i` in `s`, or 1 where `s` lacks it.
pub open spec fn size_or_one(s: Map<Seq<char>, usize>, i: Seq<char>) -> usize {
    if s.dom().contains(i) {
        s[i]
    } else {
        1
    }
}

/// `s` with dimension `v` renamed to `e`.
pub open spec fn rename_dim(s: Map<Seq<char>, usize>, v: Seq<char>, e: Seq<char>) -> Map<
    Seq<char>,
    usize,
> {
    if s.dom().contains(v) {
        s.remove(v).insert(e, s[v])
    } else {
        s
    }
}

// ---- user-defined functions --------------------------------------------------------

/// The functions whose result has the data of their first argument.
pub open spec fn is_passthrough_udf(op: Seq<char>) -> bool {
    op == "b(^)"@ || op == "b(min)"@ || op == "b(&)"@ || op == "u(sqrt)"@ || op == "b(!=)"@
        || op == "b(==)"@ || op == "b(>)"@ || op == "b(>=)"@ || op == "b(<)"@ || op == "b(<=)"@
        || op == "u(exp)"@ || op == "u(log)"@ || op == "sprop"@ || op == "selp"@
}

/// Whether the analysis is defined for the function `op` on arguments with data `a`.
pub open spec fn udf_defined(op: Seq<char>, a: Seq<MetaInfoView>) -> bool {
    if op == "axpy"@ {
        a.len() >= 3 && has_mat(a[0]) && a[1].schema is Some && has_mat(a[2])
    } else if op == "b(/)"@ || op == "m1mul"@ {
        a.len() >= 2 && has_mat(a[0]) && has_mat(a[1]) && dims_compatible(
            krows(a[0]),
            kcols(a[0]),
            krows(a[1]),
            kcols(a[1]),
        )
    } else if op == "rix"@ {
        a.len() >= 7 && has_size(a[5]) && has_size(a[6])
    } else if op == "lix"@ {
        a.len() >= 8 && has_size(a[6]) && has_size(a[7])
    } else if op == "r(diag)"@ {
        a.len() >= 1 && has_mat(a[0]) && krows(a[0]) * krows(a[0]) <= usize::MAX && krows(a[0])
            * krows(a[0]) * kcols(a[0]) <= usize::MAX && krows(a[0]) * krows(a[0]) * kcols(a[0])
            * kcols(a[0]) <= usize::MAX
    } else if op == "u(ncol)"@ || op == "u(nrow)"@ {
        true
    } else if op == "ua(minR)"@ {
        a.len() >= 1 && has_mat(a[0])
    } else if is_passthrough_udf(op) {
        a.len() >= 1
    } else {
        false
    }
}

/// `Some(p)` where `p` fits in a `usize`, else `None`.
pub open spec fn fit(p: int) -> Option<usize> {
    if 0 <= p <= usize::MAX {
        Some(p as usize)
    } else {
        None
    }
}

/// What the analysis derives for the function `op` on arguments with data `a`.
pub open spec fn udf_spec(op: Seq<char>, a: Seq<MetaInfoView>) -> DerivedView {
    if op == "axpy"@ {
        DerivedView {
            schema: Some(SchemaView::Mat(krows(a[0]), kcols(a[0]))),
            nnz: NnzRule::ScaledBySparsity(fit(krows(a[0]) * kcols(a[0]))),
        }
    } else if op == "b(/)"@ || op == "m1mul"@ {
        let row = bcast(krows(a[0]), krows(a[1]));
        let col = bcast(kcols(a[0]), kcols(a[1]));
        DerivedView {
            schema: Some(SchemaView::Mat(row, col)),
            nnz: if op == "b(/)"@ {
                NnzRule::ScaledBySparsity(fit(row * col))
            } else {
                NnzRule::Known(None)
            },
        }
    } else if op == "rix"@ {
        DerivedView {
            schema: Some(SchemaView::Mat(ksize(a[5]), ksize(a[6]))),
            nnz: NnzRule::Known(a[0].nnz),
        }
    } else if op == "lix"@ {
        DerivedView {
            schema: Some(SchemaView::Mat(ksize(a[6]), ksize(a[7]))),
            nnz: NnzRule::Known(a[0].nnz),
        }
    } else if op == "r(diag)"@ {
        let n = (krows(a[0]) * kcols(a[0])) as usize;
        DerivedView { schema: Some(SchemaView::Mat(n, n)), nnz: NnzRule::Known(a[0].nnz) }
    } else if op == "u(ncol)"@ || op == "u(nrow)"@ {
        DerivedView { schema: Some(SchemaView::Mat(1, 1)), nnz: NnzRule::Known(Some(1)) }
    } else if op == "ua(minR)"@ {
        DerivedView {
            schema: Some(SchemaView::Mat(krows(a[0]), 1)),
            nnz: NnzRule::RoundedSparsityTimes(krows(a[0])),
        }
    } else {
        DerivedView { schema: a[0].schema, nnz: NnzRule::Known(a[0].nnz) }
    }
}

// ---- nodes ------------------------------------------------------------------------

/// Whether the analysis is defined for node `n` whose operands have data `k`.
pub open spec fn make_defined(n: Math, k: Seq<MetaInfoView>) -> bool {
    k.len() == children(n).len() && match n {
        Math::Ind(_) | Math::Add(_) | Math::Mul(_) => has_schm(k[0]) && has_schm(k[1]),
        Math::Agg(_) => has_dims(k[0]) && has_schm(k[1]) && map_vol(
            kschm(k[1]).remove(kdim_name(k[0])),
        ) <= usize::MAX,
        Math::RMMul(_) => has_schm(k[0]) && has_schm(k[1]) && (exists|j: Seq<char>|
            kschm(k[0]).dom().contains(j) && kschm(k[1]).dom().contains(j)) && (forall|j: Seq<
            char,
        >|
            kschm(k[0]).dom().contains(j) && kschm(k[1]).dom().contains(j) ==> map_vol(
                kschm(k[0]).union_prefer_right(kschm(k[1])).remove(j),
            ) <= usize::MAX),
        Math::Mat(_) => has_dims(k[1]) && has_dims(k[2]) && k[3].nnz is Some && kdim_size(k[1])
            * kdim_size(k[2]) <= usize::MAX,
        Math::Dim(_) => has_name(k[0]) && has_size(k[1]),
        Math::Sub(_) => has_dims(k[0]) && has_dims(k[1]) && kdim_size(k[0]) == kdim_size(k[1])
            && (has_schm(k[2]) || has_dims(k[2])),
        Math::Nnz(_) => has_size(k[0]),
        Math::Udf(_) => k.len() >= 1 && has_name(k[0]) && udf_defined(
            kname(k[0]),
            k.skip(1),
        ),
        Math::LMat(_) => has_size(k[1]) && has_size(k[2]),
        Math::LMin(_) | Math::LAdd(_) | Math::LMul(_) => has_mat(k[0]) && has_mat(k[1])
            && dims_compatible(krows(k[0]), kcols(k[0]), krows(k[1]), kcols(k[1])),
        Math::MMul(_) => has_mat(k[0]) && has_mat(k[1]) && kcols(k[0]) == krows(k[1]),
        Math::LTrs(_) | Math::Srow(_) | Math::Scol(_) => has_mat(k[0]),
        Math::Bind(_) => has_name(k[0]) && has_name(k[1]) && has_mat(k[2]),
        Math::Ubnd(_) => has_name(k[0]) && has_name(k[1]) && has_schm(k[2]),
        _ => true,
    }
}

/// What the analysis derives for node `n` whose operands have data `k`
/// (for `RMMul`, see [`made`]).
pub open spec fn make_spec(n: Math, k: Seq<MetaInfoView>) -> DerivedView {
    match n {
        Math::Ind(_) | Math::Add(_) | Math::Mul(_) => {
            let s = kschm(k[0]).union_prefer_right(kschm(k[1]));
            DerivedView {
                schema: Some(SchemaView::Schm(s)),
                nnz: NnzRule::ScaledBySparsity(fit(map_vol(s))),
            }
        },
        Math::Agg(_) => {
            let s = kschm(k[1]).remove(kdim_name(k[0]));
            let vol = map_vol(s) as usize;
            DerivedView {
                schema: Some(SchemaView::Schm(s)),
                nnz: NnzRule::Known(
                    match k[1].nnz {
                        Some(z) => Some(
                            if vol <= z {
                                vol
                            } else {
                                z
                            },
                        ),
                        None => None,
                    },
                ),
            }
        },
        Math::Lit(_) => DerivedView {
            schema: Some(SchemaView::Schm(Map::empty())),
            nnz: NnzRule::Known(k[0].nnz),
        },
        Math::Mat(_) => DerivedView {
            schema: Some(
                SchemaView::Schm(
                    bound_schema(kdim_name(k[1]), kdim_size(k[1]), kdim_name(k[2]), kdim_size(k[2])),
                ),
            ),
            nnz: NnzRule::Known(k[3].nnz),
        },
        Math::Dim(_) => DerivedView {
            schema: Some(SchemaView::Dims(kname(k[0]), ksize(k[1]))),
            nnz: NnzRule::Known(None),
        },
        Math::Sub(_) => DerivedView {
            schema: Some(
                match k[2].schema {
                    Some(SchemaView::Schm(s)) => SchemaView::Schm(
                        rename_dim(s, kdim_name(k[1]), kdim_name(k[0])),
                    ),
                    _ => if kdim_name(k[2]) == kdim_name(k[1]) {
                        SchemaView::Dims(kdim_name(k[0]), kdim_size(k[0]))
                    } else {
                        SchemaView::Dims(kdim_name(k[2]), kdim_size(k[2]))
                    },
                },
            ),
            nnz: NnzRule::Known(k[2].nnz),
        },
        Math::Var(_) => DerivedView {
            schema: Some(SchemaView::Schm(Map::empty())),
            nnz: NnzRule::Known(Some(1)),
        },
        Math::Num(v) => DerivedView {
            schema: Some(
                SchemaView::Size(
                    if v > 0 {
                        v as usize
                    } else {
                        0
                    },
                ),
            ),
            nnz: NnzRule::Known(
                Some(
                    if v == 0 {
                        0
                    } else {
                        1
                    },
                ),
            ),
        },
        Math::Nnz(_) => DerivedView { schema: None, nnz: NnzRule::Known(Some(ksize(k[0]))) },
        Math::Str(s) => DerivedView {
            schema: Some(SchemaView::Name(s@)),
            nnz: NnzRule::Known(Some(1)),
        },
        Math::Udf(_) => udf_spec(kname(k[0]), k.skip(1)),
        Math::LMat(_) => DerivedView {
            schema: Some(SchemaView::Mat(ksize(k[1]), ksize(k[2]))),
            nnz: NnzRule::Known(k[3].nnz),
        },
        Math::LMin(_) | Math::LAdd(_) | Math::LMul(_) => DerivedView {
            schema: Some(
                SchemaView::Mat(bcast(krows(k[0]), krows(k[1])), bcast(kcols(k[0]), kcols(k[1]))),
            ),
            nnz: NnzRule::Known(None),
        },
        Math::MMul(_) => DerivedView {
            schema: Some(SchemaView::Mat(krows(k[0]), kcols(k[1]))),
            nnz: NnzRule::Known(None),
        },
        Math::LTrs(_) => DerivedView {
            schema: Some(SchemaView::Mat(kcols(k[0]), krows(k[0]))),
            nnz: NnzRule::Known(None),
        },
        Math::Srow(_) => DerivedView {
            schema: Some(SchemaView::Mat(krows(k[0]), 1)),
            nnz: NnzRule::Known(None),
        },
        Math::Scol(_) => DerivedView {
            schema: Some(SchemaView::Mat(1, kcols(k[0]))),
            nnz: NnzRule::Known(None),
        },
        Math::Sall(_) | Math::LLit(_) => DerivedView {
            schema: Some(SchemaView::Mat(1, 1)),
            nnz: NnzRule::Known(None),
        },
        Math::Bind(_) => DerivedView {
            schema: Some(
                SchemaView::Schm(
                    bound_schema(kname(k[0]), krows(k[2]), kname(k[1]), kcols(k[2])),
                ),
            ),
            nnz: NnzRule::Known(k[2].nnz),
        },
        Math::Ubnd(_) => DerivedView {
            schema: Some(
                SchemaView::Mat(
                    size_or_one(kschm(k[2]), kname(k[0])),
                    size_or_one(kschm(k[2]), kname(k[1])),
                ),
            ),
            nnz: NnzRule::Known(k[2].nnz),
        },
        Math::TWrite(_) => DerivedView { schema: None, nnz: NnzRule::Known(None) },
        // RMMul: see `made`
        _ => DerivedView { schema: None, nnz: NnzRule::Known(None) },
    }
}

/// Whether `r` is what the analysis derives for node `n` whose operands have data `k`.
///
/// For a relational matrix product the contracted dimension is one that both
/// operands have: the result has all dimensions of both but that one, and is dense.
pub open spec fn made(n: Math, k: Seq<MetaInfoView>, r: DerivedView) -> bool {
    if n is RMMul {
        exists|j: Seq<char>|
            #![trigger kschm(k[0]).dom().contains(j), kschm(k[1]).dom().contains(j)]
            kschm(k[0]).dom().contains(j) && kschm(k[1]).dom().contains(j) && {
                let s = kschm(k[0]).union_prefer_right(kschm(k[1])).remove(j);
                r == DerivedView {
                    schema: Some(SchemaView::Schm(s)),
                    nnz: NnzRule::Known(Some(map_vol(s) as usize)),
                }
            }
    } else {
        r == make_spec(n, k)
    }
}


/// The data of each of `s`.
pub open spec fn views(s: Seq<MetaInfo>) -> Seq<MetaInfoView> {
    s.map_values(|m: MetaInfo| m@)
}

// ---- reading the operands' data ----------------------------------------------------

fn k_schm(k: &MetaInfo) -> (r: &DimMap)
    requires
        has_schm(k@),
    ensures
        kschm(k@) == r@,
{
    match &k.schema {
        Some(s) => s.get_schm(),
        None => vstd::pervasive::unreached(),
    }
}

fn k_dims(k: &MetaInfo) -> (r: (&String, usize))
    requires
        has_dims(k@),
    ensures
        kdim_name(k@) == r.0@,
        kdim_size(k@) == r.1,
{
    match &k.schema {
        Some(s) => {
            let (n, z) = s.get_dims();
            (n, *z)
        },
        None => vstd::pervasive::unreached(),
    }
}

fn k_name(k: &MetaInfo) -> (r: &String)
    requires
        has_name(k@),
    ensures
        kname(k@) == r@,
{
    match &k.schema {
        Some(s) => s.get_name(),
        None => vstd::pervasive::unreached(),
    }
}

fn k_size(k: &MetaInfo) -> (r: usize)
    requires
        has_size(k@),
    ensures
        ksize(k@) == r,
{
    match &k.schema {
        Some(s) => *s.get_size(),
        None => vstd::pervasive::unreached(),
    }
}

fn k_mat(k: &MetaInfo) -> (r: (usize, usize))
    requires
        has_mat(k@),
    ensures
        krows(k@) == r.0,
        kcols(k@) == r.1,
{
    match &k.schema {
        Some(s) => {
            let (a, b) = s.get_mat();
            (*a, *b)
        },
        None => vstd::pervasive::unreached(),
    }
}

fn clone_schema(s: &Option<Schema>) -> (r: Option<Schema>)
    ensures
        (match r {
            Some(x) => Some(x@),
            None => None,
        }) == (match *s {
            Some(x) => Some(x@),
            None => None::<SchemaView>,
        }),
{
    match s {
        Some(x) => Some(x.clone()),
        None => None,
    }
}

fn checked_product(a: usize, b: usize) -> (r: Option<usize>)
    ensures
        r == fit(a * b),
{
    proof {
        assert(a * b >= 0) by (nonlinear_arith);
    }
    a.checked_mul(b)
}

/// The schema of a relation whose dimensions `i` and `j` have sizes `n` and `m`
/// (see [`bound_schema`]).
fn bind_dims(i: &String, n: usize, j: &String, m: usize) -> (r: DimMap)
    ensures
        r@ == bound_schema(i@, n, j@, m),
{
    let mut s = DimMap::new();
    if n != 1 {
        s.insert(i.clone(), n);
    }
    if m != 1 {
        s.insert(j.clone(), m);
    }
    s
}

/// The analysis of a call of the user-defined function `op` on arguments with data
/// `children`: the result's schema and how its number of non-zeros follows.
pub fn udf_meta(op: &str, children: &Vec<MetaInfo>) -> (r: Derived)
    requires
        udf_defined(op@, views(children@)),
    ensures
        r@ == udf_spec(op@, views(children@)),
{
    let ghost a = views(children@);
    if eq_lit(op, "axpy") {
        let (x_i, x_j) = k_mat(&children[0]);
        Derived { schema: Some(Schema::Mat(x_i, x_j)), nnz: NnzRule::ScaledBySparsity(checked_product(x_i, x_j)) }
    } else if eq_lit(op, "b(/)") || eq_lit(op, "m1mul") {
        let (x_i, x_j) = k_mat(&children[0]);
        let (y_i, y_j) = k_mat(&children[1]);
        let row = if x_i == 1 { y_i } else { x_i };
        let col = if x_j == 1 { y_j } else { x_j };
        let nnz = if eq_lit(op, "b(/)") {
            NnzRule::ScaledBySparsity(checked_product(row, col))
        } else {
            NnzRule::Known(None)
        };
        Derived { schema: Some(Schema::Mat(row, col)), nnz }
    } else if eq_lit(op, "rix") {
        let row = k_size(&children[5]);
        let col = k_size(&children[6]);
        Derived { schema: Some(Schema::Mat(row, col)), nnz: NnzRule::Known(children[0].nnz) }
    } else if eq_lit(op, "lix") {
        let row = k_size(&children[6]);
        let col = k_size(&children[7]);
        Derived { schema: Some(Schema::Mat(row, col)), nnz: NnzRule::Known(children[0].nnz) }
    } else if eq_lit(op, "r(diag)") {
        let (x_i, x_j) = k_mat(&children[0]);
        proof {
            assert(x_i * x_j <= x_i * x_i * x_j * x_j) by (nonlinear_arith);
        }
        let n = x_i * x_j;
        Derived { schema: Some(Schema::Mat(n, n)), nnz: NnzRule::Known(children[0].nnz) }
    } else if eq_lit(op, "u(ncol)") || eq_lit(op, "u(nrow)") {
        Derived { schema: Some(Schema::Mat(1, 1)), nnz: NnzRule::Known(Some(1)) }
    } else if eq_lit(op, "ua(minR)") {
        let (x_i, _x_j) = k_mat(&children[0]);
        Derived { schema: Some(Schema::Mat(x_i, 1)), nnz: NnzRule::RoundedSparsityTimes(x_i) }
    } else {
        Derived { schema: clone_schema(&children[0].schema), nnz: NnzRule::Known(children[0].nnz) }
    }
}


fn is_schm(k: &MetaInfo) -> (r: bool)
    ensures
        r == has_schm(k@),
{
    match &k.schema {
        Some(Schema::Schm(_)) => true,
        _ => false,
    }
}

fn is_dims(k: &MetaInfo) -> (r: bool)
    ensures
        r == has_dims(k@),
{
    match &k.schema {
        Some(Schema::Dims(_, _)) => true,
        _ => false,
    }
}

fn is_name(k: &MetaInfo) -> (r: bool)
    ensures
        r == has_name(k@),
{
    match &k.schema {
        Some(Schema::Name(_)) => true,
        _ => false,
    }
}

fn is_size(k: &MetaInfo) -> (r: bool)
    ensures
        r == has_size(k@),
{
    match &k.schema {
        Some(Schema::Size(_)) => true,
        _ => false,
    }
}

fn is_mat(k: &MetaInfo) -> (r: bool)
    ensures
        r == has_mat(k@),
{
    match &k.schema {
        Some(Schema::Mat(_, _)) => true,
        _ => false,
    }
}

/// Whether the function `op` passes the data of its first argument through (see
/// [`is_passthrough_udf`]).
pub fn is_passthrough(op: &str) -> (r: bool)
    ensures
        r == is_passthrough_udf(op@),
{
    eq_lit(op, "b(^)") || eq_lit(op, "b(min)") || eq_lit(op, "b(&)") || eq_lit(op, "u(sqrt)")
        || eq_lit(op, "b(!=)") || eq_lit(op, "b(==)") || eq_lit(op, "b(>)") || eq_lit(op, "b(>=)")
        || eq_lit(op, "b(<)") || eq_lit(op, "b(<=)") || eq_lit(op, "u(exp)") || eq_lit(op, "u(log)")
        || eq_lit(op, "sprop") || eq_lit(op, "selp")
}

/// Whether the analysis is defined for the function `op` on arguments with data
/// `children` (see [`udf_defined`]).
pub fn udf_ok(op: &str, children: &Vec<MetaInfo>) -> (r: bool)
    ensures
        r == udf_defined(op@, views(children@)),
{
    let ghost a = views(children@);
    let n = children.len();
    if eq_lit(op, "axpy") {
        n >= 3 && is_mat(&children[0]) && children[1].schema.is_some() && is_mat(&children[2])
    } else if eq_lit(op, "b(/)") || eq_lit(op, "m1mul") {
        if n >= 2 && is_mat(&children[0]) && is_mat(&children[1]) {
            let (x_i, x_j) = k_mat(&children[0]);
            let (y_i, y_j) = k_mat(&children[1]);
            shapes_compatible(x_i, x_j, y_i, y_j)
        } else {
            false
        }
    } else if eq_lit(op, "rix") {
        n >= 7 && is_size(&children[5]) && is_size(&children[6])
    } else if eq_lit(op, "lix") {
        n >= 8 && is_size(&children[6]) && is_size(&children[7])
    } else if eq_lit(op, "r(diag)") {
        if n >= 1 && is_mat(&children[0]) {
            let (x_i, x_j) = k_mat(&children[0]);
            match x_i.checked_mul(x_i) {
                Some(p) => match p.checked_mul(x_j) {
                    Some(q) => q.checked_mul(x_j).is_some(),
                    None => false,
                },
                None => false,
            }
        } else {
            false
        }
    } else if eq_lit(op, "u(ncol)") || eq_lit(op, "u(nrow)") {
        true
    } else if eq_lit(op, "ua(minR)") {
        n >= 1 && is_mat(&children[0])
    } else if is_passthrough(op) {
        n >= 1
    } else {
        false
    }
}

/// Whether a relational matrix product of relations with schemas `a` and `b` can be
/// analysed: they share a dimension, and whichever shared dimension is contracted, the
/// result's volume fits in a `usize`.
fn rmmul_fits(a: &DimMap, b: &DimMap) -> (r: bool)
    ensures
        r == ((exists|j: Seq<char>| a@.dom().contains(j) && b@.dom().contains(j)) && (forall|
            j: Seq<char>,
        |
            a@.dom().contains(j) && b@.dom().contains(j) ==> map_vol(
                a@.union_prefer_right(b@).remove(j),
            ) <= usize::MAX)),
{
    let keys = a.keys();
    let mut u = a.clone();
    u.extend(b);
    let mut found = false;
    let mut i: usize = 0;
    while i < keys.len()
        invariant
            i <= keys.len(),
            u@ == a@.union_prefer_right(b@),
            forall|q: int| 0 <= q < keys.len() ==> a@.dom().contains(#[trigger] keys@[q]@),
            forall|k: Seq<char>|
                #[trigger] a@.dom().contains(k) ==> exists|q: int| 0 <= q < keys.len() && keys@[q]@ == k,
            found == (exists|q: int| 0 <= q < i && b@.dom().contains(#[trigger] keys@[q]@)),
            forall|q: int|
                0 <= q < i && b@.dom().contains(#[trigger] keys@[q]@) ==> map_vol(
                    a@.union_prefer_right(b@).remove(keys@[q]@),
                ) <= usize::MAX,
        decreases keys.len() - i,
    {
        if b.contains_key(&keys[i]) {
            let mut t = u.clone();
            t.remove(&keys[i]);
            if t.volume().is_none() {
                return false;
            }
            found = true;
            proof {
                assert(b@.dom().contains(keys@[i as int]@));
            }
        }
        i += 1;
    }
    proof {
        if found {
            let q = choose|q: int| 0 <= q < keys.len() && b@.dom().contains(#[trigger] keys@[q]@);
            assert(a@.dom().contains(keys@[q]@));
        } else {
            assert forall|j: Seq<char>| !(a@.dom().contains(j) && b@.dom().contains(j)) by {
                if a@.dom().contains(j) {
                    let q = choose|q: int| 0 <= q < keys.len() && keys@[q]@ == j;
                    assert(!b@.dom().contains(keys@[q]@));
                }
            }
        }
        assert forall|j: Seq<char>|
            a@.dom().contains(j) && b@.dom().contains(j) implies map_vol(
            a@.union_prefer_right(b@).remove(j),
        ) <= usize::MAX by {
            let q = choose|q: int| 0 <= q < keys.len() && keys@[q]@ == j;
            assert(b@.dom().contains(keys@[q]@));
        }
    }
    found
}

/// The first dimension name of `a` that `b` has too.
fn first_common_key(a: &DimMap, b: &DimMap) -> (r: Option<String>)
    ensures
        match r {
            Some(j) => a@.dom().contains(j@) && b@.dom().contains(j@),
            None => forall|j: Seq<char>| !(a@.dom().contains(j) && b@.dom().contains(j)),
        },
{
    let keys = a.keys();
    let mut i: usize = 0;
    while i < keys.len()
        invariant
            i <= keys.len(),
            forall|q: int| 0 <= q < keys.len() ==> a@.dom().contains(#[trigger] keys@[q]@),
            forall|k: Seq<char>|
                #[trigger] a@.dom().contains(k) ==> exists|q: int| 0 <= q < keys.len() && keys@[q]@ == k,
            forall|q: int| 0 <= q < i ==> !b@.dom().contains(#[trigger] keys@[q]@),
        decreases keys.len() - i,
    {
        if b.contains_key(&keys[i]) {
            return Some(keys[i].clone());
        }
        i += 1;
    }
    proof {
        assert forall|j: Seq<char>| !(a@.dom().contains(j) && b@.dom().contains(j)) by {
            if a@.dom().contains(j) {
                let q = choose|q: int| 0 <= q < keys.len() && keys@[q]@ == j;
                assert(!b@.dom().contains(keys@[q]@));
            }
        }
    }
    None
}

/// The schema analysis of e-graph nodes.
#[derive(Debug, Clone, Copy, Default)]
pub struct Meta;

/// The smaller of two known numbers of non-zeros; a known one wins over an unknown one.
pub open spec fn min_nnz(a: Option<usize>, b: Option<usize>) -> Option<usize> {
    match (a, b) {
        (Some(x), Some(y)) => Some(
            if x <= y {
                x
            } else {
                y
            },
        ),
        (Some(x), None) => Some(x),
        (None, Some(y)) => Some(y),
        (None, None) => None,
    }
}

/// The smaller of two known numbers of non-zeros (see [`min_nnz`]).
pub fn merge_nnz(a: Option<usize>, b: Option<usize>) -> (r: Option<usize>)
    ensures
        r == min_nnz(a, b),
{
    match (a, b) {
        (Some(x), Some(y)) => Some(if x <= y { x } else { y }),
        (Some(x), None) => Some(x),
        (None, Some(y)) => Some(y),
        (None, None) => None,
    }
}

/// The sum of [`class_cost`] over `s`.
pub open spec fn total_cost(s: Seq<MetaInfoView>) -> int
    decreases s.len(),
{
    if s.len() == 0 {
        0
    } else {
        total_cost(s.drop_last()) + class_cost(s.last())
    }
}

/// The cost of an e-class in a plan: the number of non-zeros of a relation (its
/// volume where that is unknown); nothing for any other expression.
pub open spec fn class_cost(m: MetaInfoView) -> int {
    if has_schm(m) {
        match m.nnz {
            Some(z) => z as int,
            None => info_vol(m),
        }
    } else {
        0
    }
}

proof fn lemma_total_cost_prefix(s: Seq<MetaInfoView>, i: int)
    requires
        0 <= i <= s.len(),
        forall|q: int| 0 <= q < s.len() ==> class_cost(#[trigger] s[q]) >= 0,
    ensures
        0 <= total_cost(s.take(i)) <= total_cost(s),
    decreases s.len(),
{
    if s.len() > 0 {
        let d = s.drop_last();
        assert forall|q: int| 0 <= q < d.len() implies class_cost(#[trigger] d[q]) >= 0 by {
            assert(d[q] == s[q]);
        }
        if i == s.len() {
            assert(s.take(i) =~= s);
            lemma_total_cost_prefix(d, d.len() as int);
            assert(d.take(d.len() as int) =~= d);
        } else {
            lemma_total_cost_prefix(d, i);
            assert(d.take(i) =~= s.take(i));
            assert(class_cost(s[s.len() - 1]) >= 0);
        }
    }
}

/// The cost of a plan whose e-classes have data `classes`: the sum of their
/// [`class_cost`]s; `None` where the volume of a relation or the sum exceeds
/// `usize::MAX`.
pub fn try_dag_cost(classes: &Vec<MetaInfo>) -> (r: Option<usize>)
    ensures
        r is Some <==> (forall|q: int|
            0 <= q < classes.len() && has_schm(#[trigger] classes@[q]@) ==> info_vol(classes@[q]@)
                <= usize::MAX) && total_cost(views(classes@)) <= usize::MAX,
        r matches Some(c) ==> c == total_cost(views(classes@)),
{
    let ghost s = views(classes@);
    proof {
        assert forall|q: int| 0 <= q < s.len() implies class_cost(#[trigger] s[q]) >= 0 by {
            let m = s[q];
            if has_schm(m) && m.nnz is None {
                crate::dims::lemma_map_vol_nonneg(kschm(m));
            }
        }
    }
    let mut sum: usize = 0;
    let mut i: usize = 0;
    while i < classes.len()
        invariant
            i <= classes.len(),
            s == views(classes@),
            forall|q: int| 0 <= q < s.len() ==> class_cost(#[trigger] s[q]) >= 0,
            forall|q: int|
                0 <= q < i && has_schm(#[trigger] classes@[q]@) ==> info_vol(classes@[q]@)
                    <= usize::MAX,
            sum == total_cost(s.take(i as int)),
        decreases classes.len() - i,
    {
        let c = &classes[i];
        let ghost m = c@;
        proof {
            assert(s[i as int] == m);
            assert(s.take(i + 1).drop_last() =~= s.take(i as int));
            lemma_total_cost_prefix(s, i + 1);
        }
        let cost = match &c.schema {
            Some(Schema::Schm(d)) => match d.volume() {
                Some(v) => match c.nnz {
                    Some(z) => z,
                    None => v,
                },
                None => {
                    return None;
                },
            },
            _ => 0,
        };
        sum = match sum.checked_add(cost) {
            Some(x) => x,
            None => {
                return None;
            },
        };
        i += 1;
    }
    proof {
        assert(s.take(classes.len() as int) =~= s);
    }
    Some(sum)
}

/// The cost of a plan whose e-classes have data `classes`: the sum of their
/// [`class_cost`]s.
pub fn dag_cost(classes: &Vec<MetaInfo>) -> (r: usize)
    requires
        forall|q: int|
            0 <= q < classes.len() && has_schm(#[trigger] classes@[q]@) ==> info_vol(classes@[q]@)
                <= usize::MAX,
        total_cost(views(classes@)) <= usize::MAX,
    ensures
        r == total_cost(views(classes@)),
{
    match try_dag_cost(classes) {
        Some(c) => c,
        None => vstd::pervasive::unreached(),
    }
}

/// Whether the analysis is defined for node `enode` whose operands have data `kids`
/// (see [`make_defined`]).
pub fn make_ok(enode: &Math, kids: &Vec<MetaInfo>) -> (r: bool)
    ensures
        r == make_defined(*enode, views(kids@)),
{
    let ghost k = views(kids@);
    let c = crate::math::node_children(enode);
    if kids.len() != c.len() {
        return false;
    }
    proof {
        assert forall|q: int| 0 <= q < kids.len() implies #[trigger] k[q] == kids@[q]@ by {}
    }
    match enode {
        Math::Ind(_) | Math::Add(_) | Math::Mul(_) => is_schm(&kids[0]) && is_schm(&kids[1]),
        Math::Agg(_) => {
            if is_dims(&kids[0]) && is_schm(&kids[1]) {
                let (name, _) = k_dims(&kids[0]);
                let mut s = k_schm(&kids[1]).clone();
                s.remove(name);
                s.volume().is_some()
            } else {
                false
            }
        },
        Math::RMMul(_) => {
            if is_schm(&kids[0]) && is_schm(&kids[1]) {
                rmmul_fits(k_schm(&kids[0]), k_schm(&kids[1]))
            } else {
                false
            }
        },
        Math::Mat(_) => {
            if is_dims(&kids[1]) && is_dims(&kids[2]) && kids[3].nnz.is_some() {
                let (_, n) = k_dims(&kids[1]);
                let (_, m) = k_dims(&kids[2]);
                n.checked_mul(m).is_some()
            } else {
                false
            }
        },
        Math::Dim(_) => is_name(&kids[0]) && is_size(&kids[1]),
        Math::Sub(_) => {
            if is_dims(&kids[0]) && is_dims(&kids[1]) && (is_schm(&kids[2]) || is_dims(&kids[2])) {
                let (_, e_n) = k_dims(&kids[0]);
                let (_, v_n) = k_dims(&kids[1]);
                e_n == v_n
            } else {
                false
            }
        },
        Math::Nnz(_) => is_size(&kids[0]),
        Math::Udf(_) => {
            if kids.len() >= 1 && is_name(&kids[0]) {
                let mut args: Vec<MetaInfo> = Vec::new();
                let mut i: usize = 1;
                while i < kids.len()
                    invariant
                        1 <= i <= kids.len(),
                        args.len() == i - 1,
                        forall|q: int| 0 <= q < args.len() ==> (#[trigger] args@[q])@ == kids@[q + 1]@,
                    decreases kids.len() - i,
                {
                    args.push(kids[i].clone());
                    i += 1;
                }
                proof {
                    assert(views(args@) =~= k.skip(1));
                }
                udf_ok(k_name(&kids[0]).as_str(), &args)
            } else {
                false
            }
        },
        Math::LMat(_) => is_size(&kids[1]) && is_size(&kids[2]),
        Math::LMin(_) | Math::LAdd(_) | Math::LMul(_) => {
            if is_mat(&kids[0]) && is_mat(&kids[1]) {
                let (x_i, x_j) = k_mat(&kids[0]);
                let (y_i, y_j) = k_mat(&kids[1]);
                shapes_compatible(x_i, x_j, y_i, y_j)
            } else {
                false
            }
        },
        Math::MMul(_) => {
            if is_mat(&kids[0]) && is_mat(&kids[1]) {
                let (_, x_j) = k_mat(&kids[0]);
                let (y_i, _) = k_mat(&kids[1]);
                x_j == y_i
            } else {
                false
            }
        },
        Math::LTrs(_) | Math::Srow(_) | Math::Scol(_) => is_mat(&kids[0]),
        Math::Bind(_) => is_name(&kids[0]) && is_name(&kids[1]) && is_mat(&kids[2]),
        Math::Ubnd(_) => is_name(&kids[0]) && is_name(&kids[1]) && is_schm(&kids[2]),
        _ => true,
    }
}

impl Meta {
/// The schema analysis of node `enode` whose operands have data `kids` (in the order of
/// the operands): the node's schema and how its number of non-zeros follows.
pub fn make(enode: &Math, kids: &Vec<MetaInfo>) -> (r: Derived)
    requires
        make_defined(*enode, views(kids@)),
    ensures
        made(*enode, views(kids@), r@),
{
    let ghost k = views(kids@);
    match enode {
        Math::Ind(_) | Math::Add(_) | Math::Mul(_) => {
            let mut s = k_schm(&kids[0]).clone();
            s.extend(k_schm(&kids[1]));
            let vol = s.volume();
            Derived { schema: Some(Schema::Schm(s)), nnz: NnzRule::ScaledBySparsity(vol) }
        },
        Math::Agg(_) => {
            let (name, _) = k_dims(&kids[0]);
            let mut s = k_schm(&kids[1]).clone();
            s.remove(name);
            let vol = match s.volume() {
                Some(v) => v,
                None => 0,
            };
            let nnz = match kids[1].nnz {
                Some(z) => Some(if vol <= z { vol } else { z }),
                None => None,
            };
            Derived { schema: Some(Schema::Schm(s)), nnz: NnzRule::Known(nnz) }
        },
        Math::RMMul(_) => {
            let xs0 = k_schm(&kids[0]);
            let ys = k_schm(&kids[1]);
            let j = match first_common_key(xs0, ys) {
                Some(j) => j,
                None => vstd::pervasive::unreached(),
            };
            let mut xs = xs0.clone();
            xs.extend(ys);
            xs.remove(&j);
            let vol = match xs.volume() {
                Some(v) => v,
                None => 0,
            };
            Derived { schema: Some(Schema::Schm(xs)), nnz: NnzRule::Known(Some(vol)) }
        },
        Math::Lit(_) => Derived {
            schema: Some(Schema::Schm(DimMap::new())),
            nnz: NnzRule::Known(kids[0].nnz),
        },
        Math::Mat(_) => {
            let (i, n) = k_dims(&kids[1]);
            let (j, m) = k_dims(&kids[2]);
            Derived {
                schema: Some(Schema::Schm(bind_dims(i, n, j, m))),
                nnz: NnzRule::Known(kids[3].nnz),
            }
        },
        Math::Dim(_) => {
            let name = k_name(&kids[0]).clone();
            let size = k_size(&kids[1]);
            Derived { schema: Some(Schema::Dims(name, size)), nnz: NnzRule::Known(None) }
        },
        Math::Sub(_) => {
            let (e_i, e_n) = k_dims(&kids[0]);
            let (v_i, _v_n) = k_dims(&kids[1]);
            let schema = match &kids[2].schema {
                Some(Schema::Schm(b)) => {
                    let mut res = b.clone();
                    match res.remove(v_i) {
                        Some(m) => {
                            res.insert(e_i.clone(), m);
                        },
                        None => {
                            assert(b@.remove(v_i@) =~= b@);
                        },
                    }
                    Schema::Schm(res)
                },
                Some(Schema::Dims(body_i, body_n)) => {
                    if *body_i == *v_i {
                        Schema::Dims(e_i.clone(), e_n)
                    } else {
                        Schema::Dims(body_i.clone(), *body_n)
                    }
                },
                _ => vstd::pervasive::unreached(),
            };
            Derived { schema: Some(schema), nnz: NnzRule::Known(kids[2].nnz) }
        },
        Math::Var(_) => Derived {
            schema: Some(Schema::Schm(DimMap::new())),
            nnz: NnzRule::Known(Some(1)),
        },
        Math::Num(v) => {
            let size: usize = if *v > 0 { *v as usize } else { 0 };
            Derived {
                schema: Some(Schema::Size(size)),
                nnz: NnzRule::Known(Some(if *v == 0 { 0 } else { 1 })),
            }
        },
        Math::Nnz(_) => Derived { schema: None, nnz: NnzRule::Known(Some(k_size(&kids[0]))) },
        Math::Str(s) => Derived {
            schema: Some(Schema::Name(s.clone())),
            nnz: NnzRule::Known(Some(1)),
        },
        Math::Udf(_) => {
            let op = k_name(&kids[0]);
            let mut args: Vec<MetaInfo> = Vec::new();
            let mut i: usize = 1;
            while i < kids.len()
                invariant
                    1 <= i <= kids.len(),
                    args.len() == i - 1,
                    forall|q: int| 0 <= q < args.len() ==> (#[trigger] args@[q])@ == kids@[q + 1]@,
                decreases kids.len() - i,
            {
                args.push(kids[i].clone());
                i += 1;
            }
            proof {
                assert(views(args@) =~= k.skip(1));
            }
            udf_meta(op.as_str(), &args)
        },
        Math::LMat(_) => {
            let row = k_size(&kids[1]);
            let col = k_size(&kids[2]);
            Derived { schema: Some(Schema::Mat(row, col)), nnz: NnzRule::Known(kids[3].nnz) }
        },
        Math::LMin(_) | Math::LAdd(_) | Math::LMul(_) => {
            let (x_i, x_j) = k_mat(&kids[0]);
            let (y_i, y_j) = k_mat(&kids[1]);
            let row = if x_i == 1 { y_i } else { x_i };
            let col = if x_j == 1 { y_j } else { x_j };
            Derived { schema: Some(Schema::Mat(row, col)), nnz: NnzRule::Known(None) }
        },
        Math::MMul(_) => {
            let (x_i, _x_j) = k_mat(&kids[0]);
            let (_y_i, y_j) = k_mat(&kids[1]);
            Derived { schema: Some(Schema::Mat(x_i, y_j)), nnz: NnzRule::Known(None) }
        },
        Math::LTrs(_) => {
            let (x_i, x_j) = k_mat(&kids[0]);
            Derived { schema: Some(Schema::Mat(x_j, x_i)), nnz: NnzRule::Known(None) }
        },
        Math::Srow(_) => {
            let (x_i, _x_j) = k_mat(&kids[0]);
            Derived { schema: Some(Schema::Mat(x_i, 1)), nnz: NnzRule::Known(None) }
        },
        Math::Scol(_) => {
            let (_x_i, x_j) = k_mat(&kids[0]);
            Derived { schema: Some(Schema::Mat(1, x_j)), nnz: NnzRule::Known(None) }
        },
        Math::Sall(_) | Math::LLit(_) => Derived {
            schema: Some(Schema::Mat(1, 1)),
            nnz: NnzRule::Known(None),
        },
        Math::Bind(_) => {
            let i = k_name(&kids[0]);
            let j = k_name(&kids[1]);
            let (x_row, x_col) = k_mat(&kids[2]);
            Derived {
                schema: Some(Schema::Schm(bind_dims(i, x_row, j, x_col))),
                nnz: NnzRule::Known(kids[2].nnz),
            }
        },
        Math::Ubnd(_) => {
            let i = k_name(&kids[0]);
            let j = k_name(&kids[1]);
            let x = k_schm(&kids[2]);
            let row = match x.get(i) {
                Some(v) => v,
                None => 1,
            };
            let col = match x.get(j) {
                Some(v) => v,
                None => 1,
            };
            Derived { schema: Some(Schema::Mat(row, col)), nnz: NnzRule::Known(kids[2].nnz) }
        },
        Math::TWrite(_) => Derived { schema: None, nnz: NnzRule::Known(None) },
    }
}

/// The schema analysis of node `enode` whose operands have data `kids` (see
/// [`Meta::make`]), or `None` where it is not defined (see [`make_defined`]).
pub fn try_make(enode: &Math, kids: &Vec<MetaInfo>) -> (r: Option<Derived>)
    ensures
        r is Some == make_defined(*enode, views(kids@)),
        r matches Some(d) ==> made(*enode, views(kids@), d@),
{
    if make_ok(enode, kids) {
        Some(Self::make(enode, kids))
    } else {
        None
    }
}

/// Merges the data `b` of an e-class into the data `a` of the class it joins, which
/// has the same schema: the schema stays, the number of non-zeros becomes the smaller
/// known one. Tells whether `a` changed and whether the result differs from `b`.
pub fn merge(&mut self, a: &mut MetaInfo, b: MetaInfo) -> (r: (bool, bool))
    requires
        old(a)@.schema == b@.schema,
    ensures
        final(a)@ == (MetaInfoView { schema: old(a)@.schema, nnz: min_nnz(old(a)@.nnz, b@.nnz) }),
        r.0 == (old(a)@.nnz != min_nnz(old(a)@.nnz, b@.nnz)),
        r.1 == (b@.nnz != min_nnz(old(a)@.nnz, b@.nnz)),
{
    let nnz = merge_nnz(a.nnz, b.nnz);
    let a_changed = a.nnz != nnz;
    let b_differs = b.nnz != nnz;
    a.nnz = nnz;
    (a_changed, b_differs)
}
}

} // verus!
