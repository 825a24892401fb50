//! The expression language: linear-algebra (LA) and relational (RA) operators.
use vstd::prelude::*;
use crate::text::eq_lit;

verus! {

/// The identifier of an e-class (or of an earlier node in a plan).
pub type Id = usize;

/// One node of an expression; operands are referred to by [`Id`].
///
/// The first group is the linear-algebra language, the second the relational one.
/// `Udf` is a call of a named operator: its first operand is the name, the others
/// its arguments.
#[derive(Debug, PartialEq, Eq)]
pub enum Math {
    LMat([Id; 4]),
    LAdd([Id; 2]),
    LMin([Id; 2]),
    LMul([Id; 2]),
    MMul([Id; 2]),
    LTrs([Id; 1]),
    Srow([Id; 1]),
    Scol([Id; 1]),
    Sall([Id; 1]),
    Bind([Id; 3]),
    Ubnd([Id; 3]),
    LLit([Id; 1]),
    Udf(Vec<Id>),
    Add([Id; 2]),
    Mul([Id; 2]),
    Agg([Id; 2]),
    RMMul([Id; 2]),
    Lit([Id; 1]),
    Var([Id; 1]),
    Mat([Id; 4]),
    Dim([Id; 2]),
    Nnz([Id; 1]),
    Sub([Id; 3]),
    Ind([Id; 2]),
    Num(i32),
    Str(String),
    TWrite(String),
}

/// The operands of a node, in order.
pub open spec fn children(n: Math) -> Seq<Id> {
    match n {
        Math::LMat(a) | Math::Mat(a) => a@,
        Math::LAdd(a) | Math::LMin(a) | Math::LMul(a) | Math::MMul(a) | Math::Add(a)
        | Math::Mul(a) | Math::Agg(a) | Math::RMMul(a) | Math::Dim(a) | Math::Ind(a) => a@,
        Math::LTrs(a) | Math::Srow(a) | Math::Scol(a) | Math::Sall(a) | Math::LLit(a)
        | Math::Lit(a) | Math::Var(a) | Math::Nnz(a) => a@,
        Math::Bind(a) | Math::Ubnd(a) | Math::Sub(a) => a@,
        Math::Udf(v) => v@,
        Math::Num(_) | Math::Str(_) | Math::TWrite(_) => Seq::empty(),
    }
}

/// The HOP name of a linear-algebra operator node; `"UNKNOWN OP"` for any other.
pub open spec fn dml_name(n: Math) -> Seq<char> {
    match n {
        Math::LAdd(_) => "b(+)"@,
        Math::LMin(_) => "b(-)"@,
        Math::LMul(_) => "b(*)"@,
        Math::MMul(_) => "ba(+*)"@,
        Math::LTrs(_) => "r(t)"@,
        Math::Srow(_) => "ua(+R)"@,
        Math::Scol(_) => "ua(+C)"@,
        Math::Sall(_) => "ua(+RC)"@,
        _ => "UNKNOWN OP"@,
    }
}

/// Whether `n` is one of the eight operators that HOP names: `b(+)`, `b(-)`, `b(*)`,
/// `ba(+*)`, `r(t)`, `ua(+R)`, `ua(+C)` and `ua(+RC)`.
pub open spec fn is_la_op(n: Math) -> bool {
    n is LAdd || n is LMin || n is LMul || n is MMul || n is LTrs || n is Srow || n is Scol
        || n is Sall
}

/// How many operands the operator that HOP calls `op` takes; `None` for a name it
/// does not know.
pub open spec fn la_op_arity(op: Seq<char>) -> Option<nat> {
    if op == "r(t)"@ || op == "ua(+R)"@ || op == "ua(+C)"@ || op == "ua(+RC)"@ {
        Some(1)
    } else if op == "b(*)"@ || op == "b(+)"@ || op == "b(-)"@ || op == "ba(+*)"@ {
        Some(2)
    } else {
        None
    }
}

/// The node for the HOP operator `op` applied to `c`.
pub open spec fn la_node(op: Seq<char>, c: Seq<Id>) -> Math {
    if op == "r(t)"@ {
        Math::LTrs([c[0]])
    } else if op == "b(*)"@ {
        Math::LMul([c[0], c[1]])
    } else if op == "b(+)"@ {
        Math::LAdd([c[0], c[1]])
    } else if op == "b(-)"@ {
        Math::LMin([c[0], c[1]])
    } else if op == "ba(+*)"@ {
        Math::MMul([c[0], c[1]])
    } else if op == "ua(+R)"@ {
        Math::Srow([c[0]])
    } else if op == "ua(+C)"@ {
        Math::Scol([c[0]])
    } else {
        Math::Sall([c[0]])
    }
}

/// The HOP name of a linear-algebra operator node, `"UNKNOWN OP"` for any other node.
pub fn dml_op(op: &Math) -> (r: &'static str)
    ensures
        r@ == dml_name(*op),
{
    match op {
        Math::LAdd(..) => "b(+)",
        Math::LMin(..) => "b(-)",
        Math::LMul(..) => "b(*)",
        Math::MMul(..) => "ba(+*)",
        Math::LTrs(..) => "r(t)",
        Math::Srow(..) => "ua(+R)",
        Math::Scol(..) => "ua(+C)",
        Math::Sall(..) => "ua(+RC)",
        _ => "UNKNOWN OP",
    }
}

/// The HOP operator names are pairwise distinct.
pub proof fn reveal_la_names()
    ensures
        "r(t)"@ != "b(*)"@, "r(t)"@ != "b(+)"@, "r(t)"@ != "b(-)"@, "r(t)"@ != "ba(+*)"@,
        "ua(+R)"@ != "b(*)"@, "ua(+R)"@ != "b(+)"@, "ua(+R)"@ != "b(-)"@, "ua(+R)"@ != "ba(+*)"@,
        "ua(+C)"@ != "b(*)"@, "ua(+C)"@ != "b(+)"@, "ua(+C)"@ != "b(-)"@, "ua(+C)"@ != "ba(+*)"@,
        "ua(+RC)"@ != "b(*)"@, "ua(+RC)"@ != "b(+)"@, "ua(+RC)"@ != "b(-)"@, "ua(+RC)"@ != "ba(+*)"@,
        "r(t)"@ != "ua(+R)"@, "r(t)"@ != "ua(+C)"@, "r(t)"@ != "ua(+RC)"@,
        "ua(+R)"@ != "ua(+C)"@, "ua(+R)"@ != "ua(+RC)"@, "ua(+C)"@ != "ua(+RC)"@,
        "b(*)"@ != "b(+)"@, "b(*)"@ != "b(-)"@, "b(*)"@ != "ba(+*)"@,
        "b(+)"@ != "b(-)"@, "b(+)"@ != "ba(+*)"@, "b(-)"@ != "ba(+*)"@,
        "UNKNOWN OP"@ != "r(t)"@,
{
    reveal_strlit("r(t)");
    reveal_strlit("b(*)");
    reveal_strlit("b(+)");
    reveal_strlit("b(-)");
    reveal_strlit("ba(+*)");
    reveal_strlit("ua(+R)");
    reveal_strlit("ua(+C)");
    reveal_strlit("ua(+RC)");
    reveal_strlit("UNKNOWN OP");
    assert("r(t)"@[0] != "b(*)"@[0]);
    assert("r(t)"@[0] != "b(+)"@[0]);
    assert("r(t)"@[0] != "b(-)"@[0]);
    assert("b(*)"@[2] != "b(+)"@[2]);
    assert("b(*)"@[2] != "b(-)"@[2]);
    assert("b(+)"@[2] != "b(-)"@[2]);
    assert("ua(+R)"@[4] != "ua(+C)"@[4]);
    assert("ua(+RC)"@.len() != "ba(+*)"@.len());
    assert("ua(+RC)"@.len() != "ua(+R)"@.len());
    assert("ua(+RC)"@.len() != "ua(+C)"@.len());
}

/// The node for the HOP linear-algebra operator `op_str` over the operands `children`.
pub fn build_la_math(op_str: &str, children: &[Id]) -> (r: Math)
    requires
        la_op_arity(op_str@) is Some,
        children@.len() >= la_op_arity(op_str@).unwrap(),
    ensures
        r == la_node(op_str@, children@),
{
    proof {
        reveal_la_names();
    }
    if eq_lit(op_str, "r(t)") {
        Math::LTrs([children[0]])
    } else if eq_lit(op_str, "b(*)") {
        Math::LMul([children[0], children[1]])
    } else if eq_lit(op_str, "b(+)") {
        Math::LAdd([children[0], children[1]])
    } else if eq_lit(op_str, "b(-)") {
        Math::LMin([children[0], children[1]])
    } else if eq_lit(op_str, "ba(+*)") {
        Math::MMul([children[0], children[1]])
    } else if eq_lit(op_str, "ua(+R)") {
        Math::Srow([children[0]])
    } else if eq_lit(op_str, "ua(+C)") {
        Math::Scol([children[0]])
    } else {
        Math::Sall([children[0]])
    }
}

/// The fixed cost of a node when plans are translated to relational algebra:
/// linear-algebra operators, linear-algebra literals and substitutions are
/// expensive, binders cheaper, and every other node (relational operators, calls of
/// user-defined functions, names and numbers) cheapest.
pub open spec fn trans_cost(op: Math) -> u32 {
    match op {
        Math::LMat(..) | Math::LAdd(..) | Math::LMin(..) | Math::LMul(..) | Math::MMul(..)
        | Math::LTrs(..) | Math::Srow(..) | Math::Scol(..) | Math::Sall(..) | Math::LLit(..)
        | Math::Sub(..) => 100,
        Math::Bind(..) | Math::Ubnd(..) => 10,
        _ => 1,
    }
}

/// The fixed part of the translation cost of a node (see [`trans_cost`]); the cost of
/// a node is this plus the costs of its operands.
pub fn trans_op_cost(op: &Math) -> (r: u32)
    ensures
        r == trans_cost(*op),
{
    match op {
        Math::LMat(..) | Math::LAdd(..) | Math::LMin(..) | Math::LMul(..) | Math::MMul(..)
        | Math::LTrs(..) | Math::Srow(..) | Math::Scol(..) | Math::Sall(..) | Math::LLit(..)
        | Math::Sub(..) => 100,
        Math::Bind(..) | Math::Ubnd(..) => 10,
        _ => 1,
    }
}

/// The operands of a node, in order.
pub fn node_children(n: &Math) -> (r: Vec<Id>)
    ensures
        r@ == children(*n),
{
    match n {
        Math::LMat(a) | Math::Mat(a) => vec![a[0], a[1], a[2], a[3]],
        Math::LAdd(a) | Math::LMin(a) | Math::LMul(a) | Math::MMul(a) | Math::Add(a)
        | Math::Mul(a) | Math::Agg(a) | Math::RMMul(a) | Math::Dim(a) | Math::Ind(a) => vec![a[0], a[1]],
        Math::LTrs(a) | Math::Srow(a) | Math::Scol(a) | Math::Sall(a) | Math::LLit(a)
        | Math::Lit(a) | Math::Var(a) | Math::Nnz(a) => vec![a[0]],
        Math::Bind(a) | Math::Ubnd(a) | Math::Sub(a) => vec![a[0], a[1], a[2]],
        Math::Udf(v) => v.clone(),
        Math::Num(_) | Math::Str(_) | Math::TWrite(_) => Vec::new(),
    }
}

} // verus!
