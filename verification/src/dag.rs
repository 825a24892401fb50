//! Loading a HOP plan: which nodes a text of HOP lines adds to an e-graph, and in
//! what order.
use vstd::prelude::*;
use std::collections::HashMap;
use crate::hop::{Hop, HopOp, HopOpView, HopView, parse_hop_ok, parse_hop_spec, try_parse_hop};
use crate::math::{Id, Math, children, la_node, la_op_arity, build_la_math};
use crate::text::{chars_of, line_ranges, lines_spec, substring};

verus! {

/// One node that a HOP line adds; operands are the positions of earlier steps.
#[derive(Debug)]
pub enum DagStep {
    /// A literal `(llit <value>)`, given by the text of its value.
    Literal(String),
    /// A matrix read `(lmat <name> <rows> <columns> <non-zeros>)`.
    Matrix(String, u32, u32, i32),
    /// A write of a variable; it is a root of the plan.
    Write(String),
    /// A call of a user-defined function on the results of earlier steps.
    Udf(String, Vec<usize>),
    /// A linear-algebra operator on the results of earlier steps.
    Op(Math),
}

/// The mathematical value of a [`DagStep`].
pub ghost enum DagStepView {
    Literal(Seq<char>),
    Matrix(Seq<char>, u32, u32, i32),
    Write(Seq<char>),
    Udf(Seq<char>, Seq<usize>),
    Op(Math),
}

impl View for DagStep {
    type V = DagStepView;

    open spec fn view(&self) -> DagStepView {
        match self {
            DagStep::Literal(t) => DagStepView::Literal(t@),
            DagStep::Matrix(x, r, c, z) => DagStepView::Matrix(x@, *r, *c, *z),
            DagStep::Write(x) => DagStepView::Write(x@),
            DagStep::Udf(x, a) => DagStepView::Udf(x@, a@),
            DagStep::Op(m) => DagStepView::Op(*m),
        }
    }
}

/// The nodes that a text of HOP lines adds, in order, and the positions of its roots
/// (the writes).
#[derive(Debug)]
pub struct DagPlan {
    pub steps: Vec<DagStep>,
    pub roots: Vec<usize>,
}

/// The state of loading: the steps so far, where the latest line with each id put
/// its node, and the roots so far.
pub ghost struct PlanState {
    pub steps: Seq<DagStepView>,
    pub ids: Map<u32, usize>,
    pub roots: Seq<usize>,
}

/// The positions of the nodes of the lines with ids `c`.
pub open spec fn map_ids(ids: Map<u32, usize>, c: Seq<u32>) -> Seq<usize> {
    c.map_values(|x: u32| ids[x])
}

/// Whether the line `h` can be loaded when the lines before it put their nodes at
/// `ids`: a read gives its non-zeros, the inputs of a function or an operator are
/// loaded already, and an operator has all the inputs it takes.
pub open spec fn step_ok(h: HopView, ids: Map<u32, usize>) -> bool {
    match h.op {
        HopOpView::Var(_) => h.nnz is Some,
        HopOpView::Udf(_) => forall|q: int|
            0 <= q < h.children.len() ==> ids.dom().contains(#[trigger] h.children[q]),
        HopOpView::Op(s) => (forall|q: int|
            0 <= q < h.children.len() ==> ids.dom().contains(#[trigger] h.children[q]))
            && la_op_arity(s) is Some && h.children.len() >= la_op_arity(s).unwrap(),
        _ => true,
    }
}

/// The node that line `h` adds when the lines before it put their nodes at `ids`.
pub open spec fn step_of(h: HopView, ids: Map<u32, usize>) -> DagStepView {
    match h.op {
        HopOpView::Num(t) => DagStepView::Literal(t),
        HopOpView::Var(x) => DagStepView::Matrix(x, h.row, h.col, h.nnz.unwrap()),
        HopOpView::Write(x) => DagStepView::Write(x),
        HopOpView::Udf(x) => DagStepView::Udf(x, map_ids(ids, h.children)),
        HopOpView::Op(s) => DagStepView::Op(la_node(s, map_ids(ids, h.children))),
    }
}

/// The state after loading the lines `ls` in order.
pub open spec fn plan_spec(ls: Seq<Seq<char>>) -> PlanState
    decreases ls.len(),
{
    if ls.len() == 0 {
        PlanState { steps: Seq::empty(), ids: Map::empty(), roots: Seq::empty() }
    } else {
        let st = plan_spec(ls.drop_last());
        let h = parse_hop_spec(ls.last());
        let idx = st.steps.len() as usize;
        PlanState {
            steps: st.steps.push(step_of(h, st.ids)),
            ids: st.ids.insert(h.id, idx),
            roots: if h.op is Write {
                st.roots.push(idx)
            } else {
                st.roots
            },
        }
    }
}

/// Whether every line of `ls` parses and can be loaded after the ones before it.
pub open spec fn plan_ok(ls: Seq<Seq<char>>) -> bool
    decreases ls.len(),
{
    if ls.len() == 0 {
        true
    } else {
        plan_ok(ls.drop_last()) && parse_hop_ok(ls.last()) && step_ok(
            parse_hop_spec(ls.last()),
            plan_spec(ls.drop_last()).ids,
        )
    }
}

proof fn lemma_plan_len(ls: Seq<Seq<char>>)
    ensures
        plan_spec(ls).steps.len() == ls.len(),
        forall|k: u32| #[trigger] plan_spec(ls).ids.dom().contains(k) ==> plan_spec(ls).ids[k] < ls.len(),
    decreases ls.len(),
{
    if ls.len() > 0 {
        lemma_plan_len(ls.drop_last());
    }
}

proof fn lemma_plan_ok_prefix(ls: Seq<Seq<char>>, i: int)
    requires
        0 <= i <= ls.len(),
        plan_ok(ls),
    ensures
        plan_ok(ls.take(i)),
    decreases ls.len(),
{
    if i < ls.len() {
        assert(ls.drop_last().take(i) =~= ls.take(i));
        lemma_plan_ok_prefix(ls.drop_last(), i);
    } else {
        assert(ls.take(i) =~= ls);
    }
}

/// The positions of the earlier steps that a step uses.
pub open spec fn operands(d: DagStepView) -> Seq<usize> {
    match d {
        DagStepView::Udf(_, a) => a,
        DagStepView::Op(m) => children(m),
        _ => Seq::empty(),
    }
}

/// Loading a plan puts every step after the steps it uses, so adding the steps in
/// order to an e-graph always finds their operands there.
pub proof fn plan_operands_come_first(ls: Seq<Seq<char>>)
    requires
        plan_ok(ls),
    ensures
        forall|p: int, q: int|
            0 <= p < plan_spec(ls).steps.len() && 0 <= q < operands(
                plan_spec(ls).steps[p],
            ).len() ==> #[trigger] operands(plan_spec(ls).steps[p])[q] < p,
    decreases ls.len(),
{
    if ls.len() > 0 {
        let d = ls.drop_last();
        plan_operands_come_first(d);
        lemma_plan_len(d);
        let st = plan_spec(d);
        let h = parse_hop_spec(ls.last());
        let n = st.steps.len();
        let last = step_of(h, st.ids);
        assert forall|q: int| 0 <= q < operands(last).len() implies #[trigger] operands(last)[q] < n by {
            let c = map_ids(st.ids, h.children);
            match h.op {
                HopOpView::Udf(_) => {
                    assert(st.ids.dom().contains(h.children[q]));
                },
                HopOpView::Op(s) => {
                    crate::math::reveal_la_names();
                    assert(st.ids.dom().contains(h.children[0]));
                    if h.children.len() >= 2 {
                        assert(st.ids.dom().contains(h.children[1]));
                    }
                },
                _ => {},
            }
        }
        assert forall|p: int, q: int|
            0 <= p < plan_spec(ls).steps.len() && 0 <= q < operands(plan_spec(ls).steps[p]).len()
            implies #[trigger] operands(plan_spec(ls).steps[p])[q] < p by {
            if p < n {
                assert(plan_spec(ls).steps[p] == st.steps[p]);
                assert(operands(st.steps[p])[q] < p);
            } else {
                assert(plan_spec(ls).steps[p] == last);
            }
        }
    }
}

/// The roots of a loaded plan are exactly its writes.
pub proof fn plan_roots_are_writes(ls: Seq<Seq<char>>)
    requires
        ls.len() <= usize::MAX,
    ensures
        forall|q: int|
            0 <= q < plan_spec(ls).roots.len() ==> #[trigger] plan_spec(ls).roots[q] < plan_spec(
                ls,
            ).steps.len() && plan_spec(ls).steps[plan_spec(ls).roots[q] as int] is Write,
        forall|p: int|
            0 <= p < plan_spec(ls).steps.len() && #[trigger] plan_spec(ls).steps[p] is Write
                ==> plan_spec(ls).roots.contains(p as usize),
    decreases ls.len(),
{
    if ls.len() > 0 {
        let d = ls.drop_last();
        plan_roots_are_writes(d);
        lemma_plan_len(d);
        let st = plan_spec(d);
        let h = parse_hop_spec(ls.last());
        let n = st.steps.len();
        let cur = plan_spec(ls);
        assert forall|q: int| 0 <= q < cur.roots.len() implies #[trigger] cur.roots[q] < cur.steps.len()
            && cur.steps[cur.roots[q] as int] is Write by {
            if q < st.roots.len() {
                assert(cur.roots[q] == st.roots[q]);
                assert(cur.steps[st.roots[q] as int] == st.steps[st.roots[q] as int]);
            } else {
                assert(h.op is Write);
                assert(cur.roots[q] == n as usize);
                assert(cur.steps[n as int] == step_of(h, st.ids));
            }
        }
        assert forall|p: int| 0 <= p < cur.steps.len() && #[trigger] cur.steps[p] is Write implies cur.roots.contains(
            p as usize,
        ) by {
            if p < n {
                assert(cur.steps[p] == st.steps[p]);
                let q = choose|q: int| 0 <= q < st.roots.len() && st.roots[q] == p as usize;
                assert(cur.roots[q] == p as usize);
            } else {
                assert(cur.roots.last() == p as usize);
            }
        }
    }
}

/// The positions of the nodes of the input lines `c`.
fn lookup_ids(ids: &HashMap<u32, usize>, c: &Vec<u32>) -> (r: Vec<usize>)
    requires
        forall|q: int| 0 <= q < c.len() ==> ids@.dom().contains(#[trigger] c@[q]),
    ensures
        r@ == map_ids(ids@, c@),
{
    broadcast use vstd::std_specs::hash::group_hash_axioms;
    let mut r: Vec<usize> = Vec::new();
    let mut i: usize = 0;
    while i < c.len()
        invariant
            i <= c.len(),
            forall|q: int| 0 <= q < c.len() ==> ids@.dom().contains(#[trigger] c@[q]),
            r@.len() == i,
            forall|q: int| 0 <= q < i ==> #[trigger] r@[q] == ids@[c@[q]],
        decreases c.len() - i,
    {
        let x = c[i];
        assert(ids@.dom().contains(c@[i as int]));
        match ids.get(&x) {
            Some(p) => r.push(*p),
            None => vstd::pervasive::unreached(),
        }
        i += 1;
    }
    assert(r@ =~= map_ids(ids@, c@));
    r
}

fn all_known(ids: &HashMap<u32, usize>, c: &Vec<u32>) -> (r: bool)
    ensures
        r == forall|q: int| 0 <= q < c.len() ==> ids@.dom().contains(#[trigger] c@[q]),
{
    broadcast use vstd::std_specs::hash::group_hash_axioms;
    let mut i: usize = 0;
    while i < c.len()
        invariant
            i <= c.len(),
            forall|q: int| 0 <= q < i ==> ids@.dom().contains(#[trigger] c@[q]),
        decreases c.len() - i,
    {
        if !ids.contains_key(&c[i]) {
            return false;
        }
        i += 1;
    }
    true
}

fn la_arity(s: &String) -> (r: Option<usize>)
    ensures
        match r {
            Some(n) => la_op_arity(s@) == Some(n as nat),
            None => la_op_arity(s@) is None,
        },
{
    proof {
        crate::math::reveal_la_names();
    }
    let t = s.as_str();
    if crate::text::eq_lit(t, "r(t)") || crate::text::eq_lit(t, "ua(+R)") || crate::text::eq_lit(
        t,
        "ua(+C)",
    ) || crate::text::eq_lit(t, "ua(+RC)") {
        Some(1)
    } else if crate::text::eq_lit(t, "b(*)") || crate::text::eq_lit(t, "b(+)")
        || crate::text::eq_lit(t, "b(-)") || crate::text::eq_lit(t, "ba(+*)") {
        Some(2)
    } else {
        None
    }
}

/// The plan that the HOP text `s` describes, one step per line (see [`plan_spec`]),
/// or `None` where a line does not parse or cannot be loaded (see [`plan_ok`]).
pub fn load_dag(s: &str) -> (r: Option<DagPlan>)
    ensures
        r is Some == plan_ok(lines_spec(s@)),
        r matches Some(p) ==> p.steps@.map_values(|d: DagStep| d@) == plan_spec(lines_spec(s@)).steps
            && p.roots@ == plan_spec(lines_spec(s@)).roots,
{
    broadcast use vstd::std_specs::hash::group_hash_axioms;
    let v = chars_of(s);
    let lr = line_ranges(&v);
    let ghost ls = lines_spec(s@);
    let mut ids: HashMap<u32, usize> = HashMap::new();
    let mut steps: Vec<DagStep> = Vec::new();
    let mut roots: Vec<usize> = Vec::new();
    let mut i: usize = 0;
    proof {
        assert(ls.take(0) =~= Seq::<Seq<char>>::empty());
        assert(steps@.map_values(|d: DagStep| d@) =~= Seq::<DagStepView>::empty());
        assert(ids@ =~= Map::<u32, usize>::empty());
    }
    while i < lr.len()
        invariant
            i <= lr.len(),
            lr@.len() == ls.len(),
            ls == lines_spec(s@),
            v@ == s@,
            forall|q: int|
                0 <= q < lr@.len() ==> (#[trigger] lr@[q]).0 <= lr@[q].1 <= v@.len() && v@.subrange(
                    lr@[q].0 as int,
                    lr@[q].1 as int,
                ) == ls[q],
            plan_ok(ls.take(i as int)),
            steps@.map_values(|d: DagStep| d@) == plan_spec(ls.take(i as int)).steps,
            ids@ == plan_spec(ls.take(i as int)).ids,
            roots@ == plan_spec(ls.take(i as int)).roots,
            steps@.len() == i,
        decreases lr.len() - i,
    {
        let ghost pre = ls.take(i as int);
        let ghost st = plan_spec(pre);
        proof {
            assert(ls.take(i + 1).drop_last() =~= pre);
            assert(ls.take(i + 1).last() == ls[i as int]);
            lemma_plan_len(pre);
        }
        let line = substring(s, lr[i].0, lr[i].1);
        let h: Hop = match try_parse_hop(line.as_str()) {
            Some(h) => h,
            None => {
                proof {
                    if plan_ok(ls) {
                        lemma_plan_ok_prefix(ls, i + 1);
                    }
                }
                return None;
            },
        };
        let ghost hv = h@;
        let idx = steps.len();
        let step = match h.op() {
            HopOp::Num(t) => DagStep::Literal(t.clone()),
            HopOp::Var(x) => match h.nnz() {
                Some(z) => DagStep::Matrix(x.clone(), h.row(), h.col(), z),
                None => {
                    proof {
                        if plan_ok(ls) {
                            lemma_plan_ok_prefix(ls, i + 1);
                        }
                    }
                    return None;
                },
            },
            HopOp::Write(x) => DagStep::Write(x.clone()),
            HopOp::Udf(x) => {
                if !all_known(&ids, h.children()) {
                    proof {
                        if plan_ok(ls) {
                            lemma_plan_ok_prefix(ls, i + 1);
                        }
                    }
                    return None;
                }
                DagStep::Udf(x.clone(), lookup_ids(&ids, h.children()))
            },
            HopOp::Op(x) => {
                let ok = all_known(&ids, h.children()) && match la_arity(x) {
                    Some(n) => h.children().len() >= n,
                    None => false,
                };
                if !ok {
                    proof {
                        if plan_ok(ls) {
                            lemma_plan_ok_prefix(ls, i + 1);
                        }
                    }
                    return None;
                }
                let c = lookup_ids(&ids, h.children());
                DagStep::Op(build_la_math(x.as_str(), c.as_slice()))
            },
        };
        proof {
            assert(step@ == step_of(hv, st.ids));
        }
        let is_write = match h.op() {
            HopOp::Write(_) => true,
            _ => false,
        };
        steps.push(step);
        ids.insert(h.id(), idx);
        if is_write {
            roots.push(idx);
        }
        proof {
            assert(steps@.map_values(|d: DagStep| d@) =~= st.steps.push(step_of(hv, st.ids)));
            assert(ids@ =~= st.ids.insert(hv.id, idx));
        }
        i += 1;
    }
    proof {
        assert(ls.take(lr.len() as int) =~= ls);
    }
    Some(DagPlan { steps, roots })
}

} // verus!
