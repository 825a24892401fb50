//! Rewrites that turn relational expressions into calls of fused user-defined
//! functions (`axpy`, `sprop`, `m1mul`), and the renaming of the operands of such a
//! call to the dimensions it is bound to.
use vstd::prelude::*;
use vstd::string::StringExecFns;
use crate::dims::DimMap;
use crate::rules::pair_of_keys;
use crate::show::{decimal, push_decimal};

verus! {

/// `(b+ I J (udf axpy (b- I J ?x) (b- _ _ ?p) (b- I J ?y)))`.
pub open spec fn axpy_text(i: Seq<char>, j: Seq<char>) -> Seq<char> {
    "(b+ "@ + i + " "@ + j + " (udf axpy (b- "@ + i + " "@ + j + " ?x) (b- _ _ ?p) (b- "@ + i
        + " "@ + j + " ?y)))"@
}

/// `(b+ I J (udf sprop (b- I J ?x)))`.
pub open spec fn sprop_text(i: Seq<char>, j: Seq<char>) -> Seq<char> {
    "(b+ "@ + i + " "@ + j + " (udf sprop (b- "@ + i + " "@ + j + " ?x)))"@
}

/// `(b+ I J (udf m1mul (b- I J ?x) (b- I J ?y)))`.
pub open spec fn m1mul_text(i: Seq<char>, j: Seq<char>) -> Seq<char> {
    "(b+ "@ + i + " "@ + j + " (udf m1mul (b- "@ + i + " "@ + j + " ?x) (b- "@ + i + " "@ + j
        + " ?y)))"@
}

fn axpy_one(i: &String, j: &String) -> (r: String)
    ensures
        r@ == axpy_text(i@, j@),
{
    let mut s = "(b+ ".to_owned();
    s.append(i.as_str());
    s.append(" ");
    s.append(j.as_str());
    s.append(" (udf axpy (b- ");
    s.append(i.as_str());
    s.append(" ");
    s.append(j.as_str());
    s.append(" ?x) (b- _ _ ?p) (b- ");
    s.append(i.as_str());
    s.append(" ");
    s.append(j.as_str());
    s.append(" ?y)))");
    s
}

fn sprop_one(i: &String, j: &String) -> (r: String)
    ensures
        r@ == sprop_text(i@, j@),
{
    let mut s = "(b+ ".to_owned();
    s.append(i.as_str());
    s.append(" ");
    s.append(j.as_str());
    s.append(" (udf sprop (b- ");
    s.append(i.as_str());
    s.append(" ");
    s.append(j.as_str());
    s.append(" ?x)))");
    s
}

fn m1mul_one(i: &String, j: &String) -> (r: String)
    ensures
        r@ == m1mul_text(i@, j@),
{
    let mut s = "(b+ ".to_owned();
    s.append(i.as_str());
    s.append(" ");
    s.append(j.as_str());
    s.append(" (udf m1mul (b- ");
    s.append(i.as_str());
    s.append(" ");
    s.append(j.as_str());
    s.append(" ?x) (b- ");
    s.append(i.as_str());
    s.append(" ");
    s.append(j.as_str());
    s.append(" ?y)))");
    s
}

/// `x + p * y` for a scalar `p` and two relations `x`, `y` of the same two dimensions
/// and sizes is a call of `axpy` on their matrices, both ways round; no rewrite
/// otherwise.
pub fn axpy_patterns(x: &DimMap, p: &DimMap, y: &DimMap) -> (r: Vec<String>)
    ensures
        (p@.len() == 0 && x@.len() == 2 && x@ == y@) ==> exists|i: Seq<char>, j: Seq<char>|
            pair_of_keys(x@, i, j) && r@.len() == 2 && r@[0]@ == axpy_text(i, j) && r@[1]@
                == axpy_text(j, i),
        !(p@.len() == 0 && x@.len() == 2 && x@ == y@) ==> r@.len() == 0,
{
    let mut r: Vec<String> = Vec::new();
    if p.is_empty() && x.len() == 2 && x.same_as(y) {
        let (i, j) = crate::rules::first_two_keys(x);
        r.push(axpy_one(&i, &j));
        r.push(axpy_one(&j, &i));
    }
    r
}

/// `x * (1 - x)` for a relation `x` of two dimensions at most is a call of `sprop` on
/// its matrix, both ways round; no rewrite for more dimensions.
pub fn sprop_patterns(x: &DimMap) -> (r: Vec<String>)
    ensures
        x@.len() <= 2 ==> exists|i: Seq<char>, j: Seq<char>|
            pair_of_keys(x@, i, j) && r@.len() == 2 && r@[0]@ == sprop_text(i, j) && r@[1]@
                == sprop_text(j, i),
        x@.len() > 2 ==> r@.len() == 0,
{
    let mut r: Vec<String> = Vec::new();
    if x.len() <= 2 {
        let (i, j) = crate::rules::first_two_keys(x);
        r.push(sprop_one(&i, &j));
        r.push(sprop_one(&j, &i));
    }
    r
}

/// `1 - x * y` whose product has schema `mul` (two dimensions at most) is a call of
/// `m1mul` on the matrices, both ways round; no rewrite for more dimensions.
pub fn m1mul_patterns(mul: &DimMap) -> (r: Vec<String>)
    ensures
        mul@.len() <= 2 ==> exists|i: Seq<char>, j: Seq<char>|
            pair_of_keys(mul@, i, j) && r@.len() == 2 && r@[0]@ == m1mul_text(i, j) && r@[1]@
                == m1mul_text(j, i),
        mul@.len() > 2 ==> r@.len() == 0,
{
    let mut r: Vec<String> = Vec::new();
    if mul.len() <= 2 {
        let (i, j) = crate::rules::first_two_keys(mul);
        r.push(m1mul_one(&i, &j));
        r.push(m1mul_one(&j, &i));
    }
    r
}

/// `body` with the dimension that the pattern variable `from` names renamed to the one
/// `to` names, both of size `n`: `(subst (dim TO n) (dim FROM n) BODY)`.
pub open spec fn renamed_text(to: Seq<char>, from: Seq<char>, n: usize, body: Seq<char>) -> Seq<char> {
    "(subst (dim "@ + to + " "@ + decimal(n as nat) + ") (dim "@ + from + " "@ + decimal(n as nat)
        + ") "@ + body + ")"@
}

/// One operand `var` of a call bound to `I`, `J`, where it was unbound from the names
/// `a`, `b` (pattern variables `va`, `vb`) and has dimension sizes `s`: each axis
/// renamed to the call's unless it is the wildcard or already the call's name.
pub open spec fn renamed_operand(
    var: Seq<char>,
    a: Seq<char>,
    b: Seq<char>,
    va: Seq<char>,
    vb: Seq<char>,
    i: Seq<char>,
    j: Seq<char>,
    s: Map<Seq<char>, usize>,
) -> Seq<char> {
    let first = if a == "_"@ || a == i {
        var
    } else {
        renamed_text("?i"@, va, s[a], var)
    };
    if b == "_"@ || b == j {
        first
    } else {
        renamed_text("?j"@, vb, s[b], first)
    }
}

/// The binder of an axis unbound from `a`: `_` for the wildcard, else `v`.
pub open spec fn axis_var(a: Seq<char>, v: Seq<char>) -> Seq<char> {
    if a == "_"@ {
        "_"@
    } else {
        v
    }
}

/// `(b+ ?i ?j (udf ?o (b- XI XJ X') (b- YI YJ Y')))` for a call
/// `(b+ ?i ?j (udf ?o (b- ?k ?l ?x) (b- ?m ?n ?y)))` whose binder names are `i`, `j`
/// and whose operands were unbound from `k`, `l` and `m`, `n`: each operand renamed to
/// the call's names (see [`renamed_operand`]).
pub open spec fn udf_rename_text(
    i: Seq<char>,
    j: Seq<char>,
    k: Seq<char>,
    l: Seq<char>,
    m: Seq<char>,
    n: Seq<char>,
    x: Map<Seq<char>, usize>,
    y: Map<Seq<char>, usize>,
) -> Seq<char> {
    "(b+ ?i ?j (udf ?o (b- "@ + axis_var(k, "?i"@) + " "@ + axis_var(l, "?j"@) + " "@
        + renamed_operand("?x"@, k, l, "?k"@, "?l"@, i, j, x) + ") (b- "@ + axis_var(m, "?i"@) + " "@
        + axis_var(n, "?j"@) + " "@ + renamed_operand("?y"@, m, n, "?m"@, "?n"@, i, j, y) + ")))"@
}

/// Whether the operands have the names they were unbound from: each axis that is not
/// the wildcard is a dimension of its operand.
pub open spec fn udf_rename_ok(
    k: Seq<char>,
    l: Seq<char>,
    m: Seq<char>,
    n: Seq<char>,
    x: Map<Seq<char>, usize>,
    y: Map<Seq<char>, usize>,
) -> bool {
    &&& k != "_"@ ==> x.dom().contains(k)
    &&& l != "_"@ ==> x.dom().contains(l)
    &&& m != "_"@ ==> y.dom().contains(m)
    &&& n != "_"@ ==> y.dom().contains(n)
}

fn push_renamed(s: &mut String, to: &str, from: &str, n: usize, body: &String)
    ensures
        final(s)@ == old(s)@ + renamed_text(to@, from@, n, body@),
{
    let ghost start = s@;
    s.append("(subst (dim ");
    s.append(to);
    s.append(" ");
    push_decimal(s, n as u64);
    s.append(") (dim ");
    s.append(from);
    s.append(" ");
    push_decimal(s, n as u64);
    s.append(") ");
    s.append(body.as_str());
    s.append(")");
    proof {
        assert(s@ =~= start + renamed_text(to@, from@, n, body@));
    }
}

fn renamed_operand_exec(
    var: &str,
    a: &String,
    b: &String,
    va: &str,
    vb: &str,
    i: &String,
    j: &String,
    s: &DimMap,
) -> (r: String)
    requires
        a@ != "_"@ ==> s@.dom().contains(a@),
        b@ != "_"@ ==> s@.dom().contains(b@),
    ensures
        r@ == renamed_operand(var@, a@, b@, va@, vb@, i@, j@, s@),
{
    let wc = "_".to_owned();
    proof {
        reveal_strlit("_");
    }
    let first = if *a == wc || *a == *i {
        var.to_owned()
    } else {
        let n = match s.get(a) {
            Some(n) => n,
            None => vstd::pervasive::unreached(),
        };
        let mut t = String::new();
        push_renamed(&mut t, "?i", va, n, &var.to_owned());
        proof {
            assert(t@ =~= renamed_text("?i"@, va@, s@[a@], var@));
        }
        t
    };
    if *b == wc || *b == *j {
        first
    } else {
        let n = match s.get(b) {
            Some(n) => n,
            None => vstd::pervasive::unreached(),
        };
        let mut t = String::new();
        push_renamed(&mut t, "?j", vb, n, &first);
        proof {
            assert(t@ =~= renamed_text("?j"@, vb@, s@[b@], first@));
        }
        t
    }
}

fn axis_var_exec(a: &String, v: &str) -> (r: String)
    ensures
        r@ == axis_var(a@, v@),
{
    proof {
        reveal_strlit("_");
    }
    if *a == "_".to_owned() {
        "_".to_owned()
    } else {
        v.to_owned()
    }
}

/// Renaming the operands of a fused call to the dimensions it is bound to (see
/// [`udf_rename_text`]).
pub fn udf_rename_pattern(
    i: &String,
    j: &String,
    k: &String,
    l: &String,
    m: &String,
    n: &String,
    x: &DimMap,
    y: &DimMap,
) -> (r: String)
    requires
        udf_rename_ok(k@, l@, m@, n@, x@, y@),
    ensures
        r@ == udf_rename_text(i@, j@, k@, l@, m@, n@, x@, y@),
{
    let sx = renamed_operand_exec("?x", k, l, "?k", "?l", i, j, x);
    let sy = renamed_operand_exec("?y", m, n, "?m", "?n", i, j, y);
    let mut s = "(b+ ?i ?j (udf ?o (b- ".to_owned();
    s.append(axis_var_exec(k, "?i").as_str());
    s.append(" ");
    s.append(axis_var_exec(l, "?j").as_str());
    s.append(" ");
    s.append(sx.as_str());
    s.append(") (b- ");
    s.append(axis_var_exec(m, "?i").as_str());
    s.append(" ");
    s.append(axis_var_exec(n, "?j").as_str());
    s.append(" ");
    s.append(sy.as_str());
    s.append(")))");
    s
}

/// Whether the operands have the names they were unbound from (see
/// [`udf_rename_ok`]).
pub fn udf_rename_allowed(
    k: &String,
    l: &String,
    m: &String,
    n: &String,
    x: &DimMap,
    y: &DimMap,
) -> (r: bool)
    ensures
        r == udf_rename_ok(k@, l@, m@, n@, x@, y@),
{
    proof {
        reveal_strlit("_");
    }
    let wc = "_".to_owned();
    (*k == wc || x.contains_key(k)) && (*l == wc || x.contains_key(l)) && (*m == wc
        || y.contains_key(m)) && (*n == wc || y.contains_key(n))
}

} // verus!
