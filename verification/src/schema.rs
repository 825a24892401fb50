//! What the analysis knows of an expression: its schema and its number of non-zeros.
use vstd::prelude::*;
use crate::dims::{DimMap, map_vol};

verus! {

/// The shape of an expression.
///
/// Relational expressions have a `Schm`, the sizes of their named dimensions;
/// linear-algebra expressions have a `Mat` shape (rows, columns). A `Dims` is one
/// named dimension with its size, a `Name` a dimension or operator name, and a
/// `Size` a literal size.
#[derive(Debug)]
pub enum Schema {
    Schm(DimMap),
    Dims(String, usize),
    Name(String),
    Size(usize),
    Mat(usize, usize),
}

/// The mathematical value of a [`Schema`].
pub ghost enum SchemaView {
    Schm(Map<Seq<char>, usize>),
    Dims(Seq<char>, usize),
    Name(Seq<char>),
    Size(usize),
    Mat(usize, usize),
}

impl View for Schema {
    type V = SchemaView;

    open spec fn view(&self) -> SchemaView {
        match self {
            Schema::Schm(m) => SchemaView::Schm(m@),
            Schema::Dims(n, s) => SchemaView::Dims(n@, *s),
            Schema::Name(n) => SchemaView::Name(n@),
            Schema::Size(s) => SchemaView::Size(*s),
            Schema::Mat(r, c) => SchemaView::Mat(*r, *c),
        }
    }
}

/// The number of cells of an expression of shape `s`: the product of the sizes of a
/// relation, rows times columns of a matrix, and 0 for every other shape.
pub open spec fn schema_vol(s: SchemaView) -> int {
    match s {
        SchemaView::Schm(m) => map_vol(m),
        SchemaView::Mat(r, c) => r * c,
        _ => 0,
    }
}

impl Schema {
    /// The dimension sizes of a relation schema.
    pub fn get_schm(&self) -> (r: &DimMap)
        requires
            self is Schm,
        ensures
            self@ == SchemaView::Schm(r@),
    {
        match self {
            Schema::Schm(s) => s,
            _ => vstd::pervasive::unreached(),
        }
    }

    /// The name and size of a dimension.
    pub fn get_dims(&self) -> (r: (&String, &usize))
        requires
            self is Dims,
        ensures
            self@ == SchemaView::Dims(r.0@, *r.1),
    {
        match self {
            Schema::Dims(i, n) => (i, n),
            _ => vstd::pervasive::unreached(),
        }
    }

    /// A name.
    pub fn get_name(&self) -> (r: &String)
        requires
            self is Name,
        ensures
            self@ == SchemaView::Name(r@),
    {
        match self {
            Schema::Name(n) => n,
            _ => vstd::pervasive::unreached(),
        }
    }

    /// A literal size.
    pub fn get_size(&self) -> (r: &usize)
        requires
            self is Size,
        ensures
            self@ == SchemaView::Size(*r),
    {
        match self {
            Schema::Size(s) => s,
            _ => vstd::pervasive::unreached(),
        }
    }

    /// The rows and columns of a matrix.
    pub fn get_mat(&self) -> (r: (&usize, &usize))
        requires
            self is Mat,
        ensures
            self@ == SchemaView::Mat(*r.0, *r.1),
    {
        match self {
            Schema::Mat(i, j) => (i, j),
            _ => vstd::pervasive::unreached(),
        }
    }

    /// The union of two relation schemas; where both have a dimension, `other`'s size wins.
    pub fn union(&self, other: &Self) -> (r: Self)
        requires
            self is Schm,
            other is Schm,
        ensures
            r@ == SchemaView::Schm(self.get_schm_view().union_prefer_right(other.get_schm_view())),
    {
        let mut res = self.get_schm().clone();
        res.extend(other.get_schm());
        Schema::Schm(res)
    }

    /// The dimension sizes of a relation schema (the empty map for another shape).
    pub open spec fn get_schm_view(&self) -> Map<Seq<char>, usize> {
        match self@ {
            SchemaView::Schm(m) => m,
            _ => Map::empty(),
        }
    }

    /// Whether two schemas are the same shape.
    pub fn same_as(&self, other: &Self) -> (r: bool)
        ensures
            r == (self@ == other@),
    {
        match (self, other) {
            (Schema::Schm(a), Schema::Schm(b)) => a.same_as(b),
            (Schema::Dims(a, n), Schema::Dims(b, m)) => *a == *b && *n == *m,
            (Schema::Name(a), Schema::Name(b)) => *a == *b,
            (Schema::Size(a), Schema::Size(b)) => *a == *b,
            (Schema::Mat(a, b), Schema::Mat(c, d)) => *a == *c && *b == *d,
            _ => false,
        }
    }
}

impl Clone for Schema {
    fn clone(&self) -> (r: Self)
        ensures
            r@ == self@,
    {
        match self {
            Schema::Schm(m) => Schema::Schm(m.clone()),
            Schema::Dims(n, s) => Schema::Dims(n.clone(), *s),
            Schema::Name(n) => Schema::Name(n.clone()),
            Schema::Size(s) => Schema::Size(*s),
            Schema::Mat(r, c) => Schema::Mat(*r, *c),
        }
    }
}

/// The part of the analysis data of an e-class that is made of whole numbers and
/// names: the schema, if known, and the number of non-zeros, if known.
#[derive(Debug)]
pub struct MetaInfo {
    pub schema: Option<Schema>,
    pub nnz: Option<usize>,
}

/// The mathematical value of a [`MetaInfo`].
pub ghost struct MetaInfoView {
    pub schema: Option<SchemaView>,
    pub nnz: Option<usize>,
}

impl View for MetaInfo {
    type V = MetaInfoView;

    open spec fn view(&self) -> MetaInfoView {
        MetaInfoView {
            schema: match self.schema {
                Some(s) => Some(s@),
                None => None,
            },
            nnz: self.nnz,
        }
    }
}

impl Clone for MetaInfo {
    fn clone(&self) -> (r: Self)
        ensures
            r@ == self@,
    {
        MetaInfo {
            schema: match &self.schema {
                Some(s) => Some(s.clone()),
                None => None,
            },
            nnz: self.nnz,
        }
    }
}

/// The number of cells of an expression with analysis data `m`: 0 where the schema
/// is unknown.
pub open spec fn info_vol(m: MetaInfoView) -> int {
    match m.schema {
        Some(s) => schema_vol(s),
        None => 0,
    }
}

/// The number of cells of an expression: the product of the dimension sizes of a
/// relation, rows times columns of a matrix, 0 for any other or an unknown shape.
pub fn get_vol(m: &MetaInfo) -> (r: usize)
    requires
        info_vol(m@) <= usize::MAX,
    ensures
        r == info_vol(m@),
{
    match &m.schema {
        Some(Schema::Schm(s)) => {
            let v = s.volume();
            assert(m@.schema == Some(SchemaView::Schm(s@)));
            match v {
                Some(v) => v,
                None => 0,
            }
        },
        Some(Schema::Mat(r, c)) => {
            assert(info_vol(m@) == *r * *c);
            *r * *c
        },
        Some(_) => {
            assert(info_vol(m@) == 0);
            0
        },
        None => 0,
    }
}

} // verus!
