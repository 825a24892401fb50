//! HOP lines: the plan format of the host system, one operator per line.
//!
//! A line holds `;`-separated fields: field 1 is the operator's id, field 2 the
//! operator, field 3 the `,`-separated ids of its inputs and field 4 `,`-separated
//! metadata (rows, columns, ..., non-zeros as the fifth).
use vstd::prelude::*;
use crate::text::{
    chars_of, eq_lit, float_text, is_float_text, parse_i32_at, parse_i32_spec, parse_u32_at,
    parse_u32_spec, second_word, second_word_exec, split_ranges, split_seq, starts_with_lit,
    sub_chars, substring,
};

verus! {

/// The operator of a HOP line.
#[derive(Debug)]
pub enum HopOp {
    /// A literal (`LiteralOp <value>`); the text of its value.
    Num(String),
    /// A read of a variable (`TRead <name>`).
    Var(String),
    /// A write of a variable (`TWrite <name>`).
    Write(String),
    /// Any other operator, taken as a user-defined function.
    Udf(String),
    /// One of the linear-algebra operators `r(t)`, `b(*)`, `b(+)`, `b(-)`, `ba(+*)`,
    /// `ua(+R)`, `ua(+C)`, `ua(+RC)`.
    Op(String),
}

/// One parsed HOP line.
#[derive(Debug)]
pub struct Hop {
    id: u32,
    op: HopOp,
    children: Vec<u32>,
    row: u32,
    col: u32,
    nnz: Option<i32>,
}

/// The mathematical value of a [`HopOp`].
pub ghost enum HopOpView {
    Num(Seq<char>),
    Var(Seq<char>),
    Write(Seq<char>),
    Udf(Seq<char>),
    Op(Seq<char>),
}

impl View for HopOp {
    type V = HopOpView;

    open spec fn view(&self) -> HopOpView {
        match self {
            HopOp::Num(s) => HopOpView::Num(s@),
            HopOp::Var(s) => HopOpView::Var(s@),
            HopOp::Write(s) => HopOpView::Write(s@),
            HopOp::Udf(s) => HopOpView::Udf(s@),
            HopOp::Op(s) => HopOpView::Op(s@),
        }
    }
}

/// The mathematical value of a [`Hop`].
pub ghost struct HopView {
    pub id: u32,
    pub op: HopOpView,
    pub children: Seq<u32>,
    pub row: u32,
    pub col: u32,
    pub nnz: Option<i32>,
}

impl View for Hop {
    type V = HopView;

    closed spec fn view(&self) -> HopView {
        HopView {
            id: self.id,
            op: self.op@,
            children: self.children@,
            row: self.row,
            col: self.col,
            nnz: self.nnz,
        }
    }
}

impl Hop {
    /// The operator's id.
    pub fn id(&self) -> (r: u32)
        ensures
            r == self@.id,
    {
        self.id
    }

    /// The operator.
    pub fn op(&self) -> (r: &HopOp)
        ensures
            r@ == self@.op,
    {
        &self.op
    }

    /// The ids of the inputs.
    pub fn children(&self) -> (r: &Vec<u32>)
        ensures
            r@ == self@.children,
    {
        &self.children
    }

    /// The number of rows.
    pub fn row(&self) -> (r: u32)
        ensures
            r == self@.row,
    {
        self.row
    }

    /// The number of columns.
    pub fn col(&self) -> (r: u32)
        ensures
            r == self@.col,
    {
        self.col
    }

    /// The number of non-zeros, if given.
    pub fn nnz(&self) -> (r: Option<i32>)
        ensures
            r == self@.nnz,
    {
        self.nnz
    }
}

/// Whether `s` is one of the linear-algebra operator names.
pub open spec fn is_la_name(s: Seq<char>) -> bool {
    s == "r(t)"@ || s == "b(*)"@ || s == "b(+)"@ || s == "b(-)"@ || s == "ba(+*)"@ || s
        == "ua(+R)"@ || s == "ua(+C)"@ || s == "ua(+RC)"@
}

/// Whether `s` starts with `p`.
pub open spec fn has_prefix(s: Seq<char>, p: Seq<char>) -> bool {
    p.len() <= s.len() && s.subrange(0, p.len() as int) == p
}

/// Whether `s` is a literal, read or write, which needs a second word.
pub open spec fn needs_word(s: Seq<char>) -> bool {
    !is_la_name(s) && (has_prefix(s, "LiteralOp"@) || has_prefix(s, "TRead"@) || has_prefix(
        s,
        "TWrite"@,
    ))
}

/// The second word of `s` (empty where there is none).
pub open spec fn word2(s: Seq<char>) -> Seq<char> {
    match second_word(s) {
        Some((a, b)) => s.subrange(a, b),
        None => Seq::empty(),
    }
}

/// Whether [`parse_op`] accepts `s`: a literal, read or write needs a second word, and
/// a literal's is a floating-point number (see [`float_text`]).
pub open spec fn parse_op_ok(s: Seq<char>) -> bool {
    &&& needs_word(s) ==> second_word(s) is Some
    &&& (!is_la_name(s) && has_prefix(s, "LiteralOp"@)) ==> float_text(word2(s))
}

/// The operator that the text `s` denotes.
pub open spec fn parse_op_spec(s: Seq<char>) -> HopOpView {
    if is_la_name(s) {
        HopOpView::Op(s)
    } else if has_prefix(s, "LiteralOp"@) {
        HopOpView::Num(word2(s))
    } else if has_prefix(s, "TRead"@) {
        HopOpView::Var(word2(s))
    } else if has_prefix(s, "TWrite"@) {
        HopOpView::Write(word2(s))
    } else {
        HopOpView::Udf(s)
    }
}

fn is_la_name_exec(s: &str) -> (r: bool)
    ensures
        r == is_la_name(s@),
{
    eq_lit(s, "r(t)") || eq_lit(s, "b(*)") || eq_lit(s, "b(+)") || eq_lit(s, "b(-)") || eq_lit(
        s,
        "ba(+*)",
    ) || eq_lit(s, "ua(+R)") || eq_lit(s, "ua(+C)") || eq_lit(s, "ua(+RC)")
}

/// The second word of `s`.
fn second_word_string(s: &str, v: &Vec<char>) -> (r: String)
    requires
        v@ == s@,
        second_word(s@) is Some,
    ensures
        r@ == word2(s@),
{
    match second_word_exec(v) {
        Some((a, b)) => substring(s, a, b),
        None => vstd::pervasive::unreached(),
    }
}

/// The operator of a HOP line: one of the eight linear-algebra operators, a literal
/// (`LiteralOp <value>`), a read (`TRead <name>`), a write (`TWrite <name>`), or else
/// a user-defined function of that name.
pub fn parse_op(s: &str) -> (r: HopOp)
    requires
        parse_op_ok(s@),
    ensures
        r@ == parse_op_spec(s@),
{
    let v = chars_of(s);
    if is_la_name_exec(s) {
        HopOp::Op(s.to_owned())
    } else if starts_with_lit(&v, "LiteralOp") {
        HopOp::Num(second_word_string(s, &v))
    } else if starts_with_lit(&v, "TRead") {
        HopOp::Var(second_word_string(s, &v))
    } else if starts_with_lit(&v, "TWrite") {
        HopOp::Write(second_word_string(s, &v))
    } else {
        HopOp::Udf(s.to_owned())
    }
}


/// The numbers among `ps` that parse as `u32`, in order (the others are dropped).
pub open spec fn parsed_u32s(ps: Seq<Seq<char>>) -> Seq<u32>
    decreases ps.len(),
{
    if ps.len() == 0 {
        Seq::empty()
    } else {
        let r = parsed_u32s(ps.drop_last());
        match parse_u32_spec(ps.last()) {
            Some(x) => r.push(x),
            None => r,
        }
    }
}

/// The metadata of HOP line `s`: its fifth field split at `,`, each piece parsed as
/// an `i32` where it is one.
pub open spec fn hop_meta(s: Seq<char>) -> Seq<Option<i32>> {
    split_seq(split_seq(s, ';')[4], ',').map_values(|p: Seq<char>| parse_i32_spec(p))
}

/// A row or column count from the metadata: 0, -1 or a missing number stand for 1.
pub open spec fn dim_or_one(m: Option<i32>) -> i32 {
    let x = match m {
        Some(x) => x,
        None => 0,
    };
    if x == 0 || x == -1 {
        1
    } else {
        x
    }
}

/// Whether [`parse_hop`] accepts the line `s`: it has five fields at least, an `u32`
/// id, an operator that [`parse_op`] accepts and five metadata pieces at least; where
/// the non-zeros are given as -1, rows times columns must fit in an `i32`.
pub open spec fn parse_hop_ok(s: Seq<char>) -> bool {
    let f = split_seq(s, ';');
    &&& f.len() >= 5
    &&& parse_u32_spec(f[1]) is Some
    &&& parse_op_ok(f[2])
    &&& hop_meta(s).len() >= 5
    &&& hop_meta(s)[4] == Some(-1i32) ==> i32::MIN <= dim_or_one(hop_meta(s)[0]) * dim_or_one(
        hop_meta(s)[1],
    ) <= i32::MAX
}

/// The operator that HOP line `s` describes.
///
/// Rows and columns of 0 or -1 (or not given) become 1; non-zeros given as -1
/// become rows times columns. Input ids that are not numbers are dropped.
pub open spec fn parse_hop_spec(s: Seq<char>) -> HopView {
    let f = split_seq(s, ';');
    let meta = hop_meta(s);
    let row = dim_or_one(meta[0]);
    let col = dim_or_one(meta[1]);
    HopView {
        id: parse_u32_spec(f[1]).unwrap(),
        op: parse_op_spec(f[2]),
        children: parsed_u32s(split_seq(f[3], ',')),
        row: row as u32,
        col: col as u32,
        nnz: if meta[4] == Some(-1i32) {
            Some((row * col) as i32)
        } else {
            meta[4]
        },
    }
}

/// The `u32` numbers among the `,`-separated pieces of `v`.
fn parse_children(v: &Vec<char>) -> (r: Vec<u32>)
    ensures
        r@ == parsed_u32s(split_seq(v@, ',')),
{
    let rs = split_ranges(v, ',');
    let ghost ps = split_seq(v@, ',');
    let mut r: Vec<u32> = Vec::new();
    let mut i: usize = 0;
    proof {
        assert(ps.take(0) =~= Seq::<Seq<char>>::empty());
    }
    while i < rs.len()
        invariant
            i <= rs.len(),
            rs@.len() == ps.len(),
            ps == split_seq(v@, ','),
            forall|q: int|
                0 <= q < rs@.len() ==> (#[trigger] rs@[q]).0 <= rs@[q].1 <= v@.len()
                    && v@.subrange(rs@[q].0 as int, rs@[q].1 as int) == ps[q],
            r@ == parsed_u32s(ps.take(i as int)),
        decreases rs.len() - i,
    {
        let (a, b) = rs[i];
        proof {
            assert(ps.take(i + 1).drop_last() =~= ps.take(i as int));
            assert(ps.take(i + 1).last() == ps[i as int]);
        }
        match parse_u32_at(v, a, b) {
            Some(x) => r.push(x),
            None => {},
        }
        i += 1;
    }
    proof {
        assert(ps.take(ps.len() as int) =~= ps);
    }
    r
}

/// Each `,`-separated piece of `v`, parsed as an `i32` where it is one.
fn parse_meta(v: &Vec<char>) -> (r: Vec<Option<i32>>)
    ensures
        r@ == split_seq(v@, ',').map_values(|p: Seq<char>| parse_i32_spec(p)),
{
    let rs = split_ranges(v, ',');
    let ghost ps = split_seq(v@, ',');
    let mut r: Vec<Option<i32>> = Vec::new();
    let mut i: usize = 0;
    while i < rs.len()
        invariant
            i <= rs.len(),
            rs@.len() == ps.len(),
            ps == split_seq(v@, ','),
            forall|q: int|
                0 <= q < rs@.len() ==> (#[trigger] rs@[q]).0 <= rs@[q].1 <= v@.len()
                    && v@.subrange(rs@[q].0 as int, rs@[q].1 as int) == ps[q],
            r@.len() == i,
            forall|q: int| 0 <= q < i ==> #[trigger] r@[q] == parse_i32_spec(ps[q]),
        decreases rs.len() - i,
    {
        let (a, b) = rs[i];
        r.push(parse_i32_at(v, a, b));
        i += 1;
    }
    proof {
        assert(r@ =~= ps.map_values(|p: Seq<char>| parse_i32_spec(p)));
    }
    r
}

fn dim_or_one_exec(m: Option<i32>) -> (r: i32)
    ensures
        r == dim_or_one(m),
{
    let x = match m {
        Some(x) => x,
        None => 0,
    };
    if x == 0 || x == -1 {
        1
    } else {
        x
    }
}

/// The operator of a HOP line, or `None` where [`parse_op`] would not accept it.
pub fn try_parse_op(s: &str) -> (r: Option<HopOp>)
    ensures
        r is Some == parse_op_ok(s@),
        r matches Some(op) ==> op@ == parse_op_spec(s@),
{
    let v = chars_of(s);
    let needs = !is_la_name_exec(s) && (starts_with_lit(&v, "LiteralOp") || starts_with_lit(
        &v,
        "TRead",
    ) || starts_with_lit(&v, "TWrite"));
    if needs && second_word_exec(&v).is_none() {
        return None;
    }
    if !is_la_name_exec(s) && starts_with_lit(&v, "LiteralOp") {
        let w = second_word_string(s, &v);
        if !is_float_text(w.as_str()) {
            return None;
        }
    }
    Some(parse_op(s))
}

/// Parses one HOP line (see [`parse_hop_spec`]), or gives `None` where [`parse_hop`]
/// would not accept it.
pub fn try_parse_hop(s: &str) -> (r: Option<Hop>)
    ensures
        r is Some == parse_hop_ok(s@),
        r matches Some(h) ==> h@ == parse_hop_spec(s@),
{
    let v = chars_of(s);
    let f = split_ranges(&v, ';');
    let ghost fs = split_seq(s@, ';');
    if f.len() < 5 {
        return None;
    }
    let id = match parse_u32_at(&v, f[1].0, f[1].1) {
        Some(id) => id,
        None => return None,
    };
    let op_str = substring(s, f[2].0, f[2].1);
    let op = match try_parse_op(op_str.as_str()) {
        Some(op) => op,
        None => return None,
    };
    let children = parse_children(&sub_chars(&v, f[3].0, f[3].1));
    let meta = parse_meta(&sub_chars(&v, f[4].0, f[4].1));
    if meta.len() < 5 {
        return None;
    }
    let row = dim_or_one_exec(meta[0]);
    let col = dim_or_one_exec(meta[1]);
    let nnz = if meta[4] == Some(-1i32) {
        match row.checked_mul(col) {
            Some(p) => Some(p),
            None => return None,
        }
    } else {
        meta[4]
    };
    Some(Hop { id, op, children, row: row as u32, col: col as u32, nnz })
}

/// Parses one HOP line (see [`parse_hop_spec`]).
pub fn parse_hop(s: &str) -> (r: Hop)
    requires
        parse_hop_ok(s@),
    ensures
        r@ == parse_hop_spec(s@),
{
    match try_parse_hop(s) {
        Some(h) => h,
        None => vstd::pervasive::unreached(),
    }
}

} // verus!
