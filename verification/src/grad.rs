use std::collections::HashMap;

use vstd::prelude::*;

use crate::batch::{dim_range, dot_val, kept_dims, kept_upto, one_id, push_range, reduce_val};
use crate::emit::graph_wf;
use crate::graph::{copy_shape, Dtype, NodeV, OpKind, OpKindV, Val, ValV};
use crate::strs::str_eq;
use crate::trace::{
    broadcast_along_val, compare_val, constant_val, convert_val, emit_val, ewise_val, grows, reshape_val,
    select_val, unary_val, zero_text, zeros_val, GraphV, TraceError, TraceErrorV, Tracer, kind_copy, nodes_view,
};

verus! {

/// The traced value of node `id`.
pub open spec fn val_of(g: GraphV, id: usize) -> ValV {
    ValV { id, shape: g.nodes[id as int].shape, dtype: g.nodes[id as int].dtype }
}

/// The positions among the first `n` that are not in `dims`.
pub open spec fn free_axes(n: nat, dims: Seq<usize>) -> Seq<usize> {
    kept_upto(dim_range(0, n as int), dims, seq![], n as int)
}

/// A small whole number as MLIR writes it for an element type: `int_text` for integers,
/// `float_text` for the others.
pub open spec fn number_lit(dtype: Dtype, int_text: Seq<char>, float_text: Seq<char>) -> Seq<char> {
    match dtype {
        Dtype::I32 | Dtype::I64 | Dtype::U32 => int_text,
        _ => float_text,
    }
}

/// The contributions of a product's cotangent: each operand receives it times the other.
pub open spec fn mul_grad(g: GraphV, a: ValV, b: ValV, gv: ValV) -> Result<(GraphV, Seq<(usize, ValV)>), TraceErrorV> {
    match ewise_val(g, "multiply"@, gv, b) {
        Err(e) => Err(e),
        Ok((g1, da)) => match ewise_val(g1, "multiply"@, gv, a) {
            Err(e) => Err(e),
            Ok((g2, db)) => Ok((g2, seq![(a.id, da), (b.id, db)])),
        },
    }
}

/// The contributions of a quotient's cotangent: the dividend receives it over the divisor,
/// the divisor minus it times the quotient over the divisor.
pub open spec fn div_grad(g: GraphV, out: ValV, a: ValV, b: ValV, gv: ValV) -> Result<(GraphV, Seq<(usize, ValV)>), TraceErrorV> {
    match ewise_val(g, "divide"@, gv, b) {
        Err(e) => Err(e),
        Ok((g1, da)) => match ewise_val(g1, "multiply"@, gv, out) {
            Err(e) => Err(e),
            Ok((g2, g_out)) => match ewise_val(g2, "divide"@, g_out, b) {
                Err(e) => Err(e),
                Ok((g3, quotient)) => {
                    let (g4, db) = unary_val(g3, "negate"@, quotient);
                    Ok((g4, seq![(a.id, da), (b.id, db)]))
                },
            },
        },
    }
}

/// The contributions of a maximum's or minimum's cotangent: it flows to the operand chosen,
/// by the comparison in direction `dir`, and zeros to the other.
pub open spec fn minmax_grad(g: GraphV, dir: Seq<char>, a: ValV, b: ValV, gv: ValV) -> (GraphV, Seq<(usize, ValV)>) {
    let (g1, pred) = compare_val(g, dir, a, b);
    let (g2, zero) = zeros_val(g1, gv.shape, gv.dtype);
    let (g3, da) = select_val(g2, pred, gv, zero);
    let (g4, db) = select_val(g3, pred, zero, gv);
    (g4, seq![(a.id, da), (b.id, db)])
}

/// The contributions to the operands `a` and `b` of an elementwise operation from the
/// cotangent `gv` of its value `out`.
pub open spec fn ewise_grad(g: GraphV, name: Seq<char>, out: ValV, a: ValV, b: ValV, gv: ValV) -> Result<
    (GraphV, Seq<(usize, ValV)>),
    TraceErrorV,
> {
    if name == "add"@ {
        Ok((g, seq![(a.id, gv), (b.id, gv)]))
    } else if name == "subtract"@ {
        let (g1, db) = unary_val(g, "negate"@, gv);
        Ok((g1, seq![(a.id, gv), (b.id, db)]))
    } else if name == "multiply"@ {
        mul_grad(g, a, b, gv)
    } else if name == "divide"@ {
        div_grad(g, out, a, b, gv)
    } else if name == "maximum"@ {
        Ok(minmax_grad(g, "GE"@, a, b, gv))
    } else if name == "minimum"@ {
        Ok(minmax_grad(g, "LE"@, a, b, gv))
    } else {
        Err(TraceError::NoGradient(name))
    }
}

/// The contribution of a square root's cotangent: it over twice the root.
pub open spec fn sqrt_grad(g: GraphV, dtype: Dtype, out: ValV, gv: ValV) -> Result<(GraphV, ValV), TraceErrorV> {
    let (g1, two) = constant_val(g, number_lit(dtype, "2"@, "2.0"@), dtype);
    match ewise_val(g1, "multiply"@, two, out) {
        Err(e) => Err(e),
        Ok((g2, denom)) => ewise_val(g2, "divide"@, gv, denom),
    }
}

/// The contribution of a hyperbolic tangent's cotangent: it times one minus the square of
/// the tangent.
pub open spec fn tanh_grad(g: GraphV, dtype: Dtype, out: ValV, gv: ValV) -> Result<(GraphV, ValV), TraceErrorV> {
    let (g1, one) = constant_val(g, number_lit(dtype, "1"@, "1.0"@), dtype);
    match ewise_val(g1, "multiply"@, out, out) {
        Err(e) => Err(e),
        Ok((g2, squared)) => match ewise_val(g2, "subtract"@, one, squared) {
            Err(e) => Err(e),
            Ok((g3, sech2)) => ewise_val(g3, "multiply"@, gv, sech2),
        },
    }
}

/// The contribution of a cosine's cotangent: minus it times the sine of the operand.
pub open spec fn cos_grad(g: GraphV, a: ValV, gv: ValV) -> Result<(GraphV, ValV), TraceErrorV> {
    let (g1, sn) = unary_val(g, "sine"@, a);
    match ewise_val(g1, "multiply"@, gv, sn) {
        Err(e) => Err(e),
        Ok((g2, gs)) => Ok(unary_val(g2, "negate"@, gs)),
    }
}

/// The contribution to the operand `a` of an elementwise unary operation of element type
/// `dtype` from the cotangent `gv` of its value `out`.
pub open spec fn unary_grad(g: GraphV, name: Seq<char>, dtype: Dtype, out: ValV, a: ValV, gv: ValV) -> Result<
    (GraphV, ValV),
    TraceErrorV,
> {
    if name == "negate"@ {
        Ok(unary_val(g, "negate"@, gv))
    } else if name == "exponential"@ {
        ewise_val(g, "multiply"@, gv, out)
    } else if name == "log"@ {
        ewise_val(g, "divide"@, gv, a)
    } else if name == "sqrt"@ {
        sqrt_grad(g, dtype, out, gv)
    } else if name == "tanh"@ {
        tanh_grad(g, dtype, out, gv)
    } else if name == "sine"@ {
        let (g1, c) = unary_val(g, "cosine"@, a);
        ewise_val(g1, "multiply"@, gv, c)
    } else if name == "cosine"@ {
        cos_grad(g, a, gv)
    } else {
        Err(TraceError::NoGradient(name))
    }
}

/// The contributions to the operands `ins` (from the `j`-th on) of a concatenation along
/// `dim`: the slice of the cotangent each operand covers, from `offset` on.
pub open spec fn concat_grad(g: GraphV, gv: ValV, ins: Seq<usize>, dim: usize, j: int, offset: int) -> (
    GraphV,
    Seq<(usize, ValV)>,
)
    decreases ins.len() - j,
{
    if j < 0 || j >= ins.len() {
        (g, seq![])
    } else {
        let shape = g.nodes[ins[j] as int].shape;
        let extent = shape[dim as int];
        let (g1, piece) = emit_val(
            g,
            NodeV {
                kind: OpKindV::Slice(dim, offset as usize, (offset + extent) as usize),
                inputs: seq![gv.id],
                shape,
                dtype: gv.dtype,
            },
        );
        let (g2, rest) = concat_grad(g1, gv, ins, dim, j + 1, offset + extent);
        (g2, seq![(ins[j], piece)] + rest)
    }
}

proof fn lemma_extent_sum_nonneg(nodes: Seq<NodeV>, ins: Seq<usize>, dim: usize, j: int)
    ensures
        extent_sum(nodes, ins, dim, j) >= 0,
    decreases ins.len() - j,
{
    if 0 <= j < ins.len() {
        lemma_extent_sum_nonneg(nodes, ins, dim, j + 1);
    }
}

/// The sum of the sizes along `dim` of the operands `ins` from the `j`-th on.
pub open spec fn extent_sum(nodes: Seq<NodeV>, ins: Seq<usize>, dim: usize, j: int) -> int
    decreases ins.len() - j,
{
    if j < 0 || j >= ins.len() {
        0
    } else {
        nodes[ins[j] as int].shape[dim as int] + extent_sum(nodes, ins, dim, j + 1)
    }
}

/// The contribution to the operand of a slice along `dim` from `start` to `limit`: the
/// cotangent padded with zeros before and after to the operand's shape.
pub open spec fn slice_grad(g: GraphV, in_shape: Seq<usize>, dim: usize, start: usize, limit: usize, gv: ValV) -> (
    GraphV,
    ValV,
) {
    let g1 = if start > 0 {
        zeros_val(g, in_shape.update(dim as int, start), gv.dtype).0
    } else {
        g
    };
    let before = if start > 0 {
        seq![zeros_val(g, in_shape.update(dim as int, start), gv.dtype).1.id]
    } else {
        Seq::<usize>::empty()
    };
    let tail = (in_shape[dim as int] - limit) as usize;
    let g2 = if limit < in_shape[dim as int] {
        zeros_val(g1, in_shape.update(dim as int, tail), gv.dtype).0
    } else {
        g1
    };
    let after = if limit < in_shape[dim as int] {
        seq![zeros_val(g1, in_shape.update(dim as int, tail), gv.dtype).1.id]
    } else {
        Seq::<usize>::empty()
    };
    let parts = before + seq![gv.id] + after;
    if parts.len() == 1 {
        (g2, gv)
    } else {
        emit_val(g2, NodeV { kind: OpKindV::Concat(dim), inputs: parts, shape: in_shape, dtype: gv.dtype })
    }
}

/// The contributions to the operands of a (batched) product of matrices and vectors with
/// `k` batch dimensions, where the operands have `fa` and `fb` dimensions of their own: the
/// cotangent times the other operand.
pub open spec fn dot_mat_grad(g: GraphV, a: ValV, b: ValV, k: nat, fa: int, fb: int, gv: ValV) -> (
    GraphV,
    Seq<(usize, ValV)>,
) {
    let batch = dim_range(0, k as int);
    if fa == 2 && fb == 2 {
        let (g1, da) = dot_val(g, gv, b, batch, batch, seq![(k + 1) as usize], seq![(k + 1) as usize]);
        let (g2, db) = dot_val(g1, a, gv, batch, batch, seq![k as usize], seq![k as usize]);
        (g2, seq![(a.id, da), (b.id, db)])
    } else if fa == 1 && fb == 2 {
        let (g1, da) = dot_val(g, b, gv, batch, batch, seq![(k + 1) as usize], seq![k as usize]);
        let (g2, db) = dot_val(g1, a, gv, batch, batch, seq![], seq![]);
        (g2, seq![(a.id, da), (b.id, db)])
    } else {
        let (g1, da) = dot_val(g, gv, b, batch, batch, seq![], seq![]);
        let (g2, db) = dot_val(g1, a, gv, batch, batch, seq![k as usize], seq![k as usize]);
        (g2, seq![(a.id, da), (b.id, db)])
    }
}

/// The cotangent broadcast over an operand's shape along the `k` batch dimensions (as it is
/// without any).
pub open spec fn over_batch(g: GraphV, gv: ValV, shape: Seq<usize>, k: nat) -> (GraphV, ValV) {
    if k == 0 {
        (g, gv)
    } else {
        broadcast_along_val(g, gv, shape, dim_range(0, k as int))
    }
}

/// The contributions to the operands of any other product: the cotangent, broadcast over
/// the batch dimensions, times the other operand elementwise.
pub open spec fn dot_ew_grad(g: GraphV, a: ValV, b: ValV, k: nat, gv: ValV) -> Result<(GraphV, Seq<(usize, ValV)>), TraceErrorV> {
    let (g1, gb) = over_batch(g, gv, b.shape, k);
    let (g2, ga) = over_batch(g1, gv, a.shape, k);
    match ewise_val(g2, "multiply"@, gb, b) {
        Err(e) => Err(e),
        Ok((g3, da)) => match ewise_val(g3, "multiply"@, ga, a) {
            Err(e) => Err(e),
            Ok((g4, db)) => Ok((g4, seq![(a.id, da), (b.id, db)])),
        },
    }
}

/// The contributions to the operands of a dot product with `k` batch dimensions from the
/// cotangent `gv`; only a product contracting the last dimension of the left operand with
/// the first free one of the right has a rule.
pub open spec fn dot_grad(g: GraphV, a: ValV, b: ValV, k: nat, lc: Seq<usize>, rc: Seq<usize>, gv: ValV) -> Result<
    (GraphV, Seq<(usize, ValV)>),
    TraceErrorV,
> {
    if lc != seq![(a.shape.len() - 1) as usize] || rc != seq![k as usize] {
        Err(TraceError::MatmulGradient)
    } else {
        let fa = a.shape.len() - k;
        let fb = b.shape.len() - k;
        if (fa == 2 && fb == 2) || (fa == 1 && fb == 2) || (fa == 2 && fb == 1) {
            Ok(dot_mat_grad(g, a, b, k, fa, fb, gv))
        } else {
            dot_ew_grad(g, a, b, k, gv)
        }
    }
}

/// The contribution to the operand `a` of a conversion, broadcast, reshape, reduction or
/// slice from the cotangent `gv` of its value `out`: converted back, summed over the
/// broadcast dimensions, reshaped back, broadcast over the reduced dimensions, or padded
/// with zeros.
pub open spec fn simple_grad(g: GraphV, kind: OpKindV, out: ValV, a: ValV, gv: ValV) -> (GraphV, ValV) {
    match kind {
        OpKindV::Convert => convert_val(g, gv, a.dtype),
        OpKindV::Broadcast(dims) => reduce_val(g, "add"@, zero_text(gv.dtype), gv, free_axes(out.shape.len(), dims)),
        OpKindV::Reshape => reshape_val(g, gv, a.shape),
        OpKindV::Reduce(_, axes) => broadcast_along_val(g, gv, a.shape, free_axes(a.shape.len(), axes)),
        OpKindV::Slice(dim, start, limit) => slice_grad(g, a.shape, dim, start, limit, gv),
        _ => (g, gv),
    }
}

/// The contributions of a selection's cotangent: it flows to the value chosen by the
/// predicate `p`, and zeros to the other.
pub open spec fn select_grad(g: GraphV, p: ValV, on_true: usize, on_false: usize, gv: ValV) -> (GraphV, Seq<(usize, ValV)>) {
    let (g1, zero) = zeros_val(g, gv.shape, gv.dtype);
    let (g2, dt) = select_val(g1, p, gv, zero);
    let (g3, df) = select_val(g2, p, zero, gv);
    (g3, seq![(on_true, dt), (on_false, df)])
}

/// Whether an operation contributes nothing to its operands: inputs, constants and
/// comparisons.
pub open spec fn constant_like(k: OpKindV) -> bool {
    k is Input || k is Iota || k is Constant || k is DenseConst || k is Compare
}

/// The contributions of the cotangent `gv` of node `id` to its operands: the node's
/// gradient rule.
#[verifier::opaque]
pub open spec fn vjp_val(g: GraphV, id: usize, gv: ValV) -> Result<(GraphV, Seq<(usize, ValV)>), TraceErrorV> {
    let node = g.nodes[id as int];
    let ins = node.inputs;
    let out = val_of(g, id);
    if constant_like(node.kind) {
        Ok((g, seq![]))
    } else {
        match node.kind {
            OpKindV::Convert | OpKindV::Broadcast(_) | OpKindV::Reshape | OpKindV::Reduce(_, _) | OpKindV::Slice(
                _,
                _,
                _,
            ) => {
                let (g1, da) = simple_grad(g, node.kind, out, val_of(g, ins[0]), gv);
                Ok((g1, seq![(ins[0], da)]))
            },
            OpKindV::Ewise(name) => ewise_grad(g, name, out, val_of(g, ins[0]), val_of(g, ins[1]), gv),
            OpKindV::Unary(name) => match unary_grad(g, name, node.dtype, out, val_of(g, ins[0]), gv) {
                Err(e) => Err(e),
                Ok((g1, da)) => Ok((g1, seq![(ins[0], da)])),
            },
            OpKindV::Concat(dim) => Ok(concat_grad(g, gv, ins, dim, 0, 0)),
            OpKindV::Dot(lb, _, lc, rc) => dot_grad(g, val_of(g, ins[0]), val_of(g, ins[1]), lb.len(), lc, rc, gv),
            OpKindV::Select => Ok(select_grad(g, val_of(g, ins[0]), ins[1], ins[2], gv)),
            _ => Err(TraceError::NoGradientRule),
        }
    }
}

/// What a gradient rule of the tracer `t0`, leaving the tracer `t1`, gives for node `id`
/// and cotangent `g`.
pub open spec fn vjp_post(t0: Tracer, t1: Tracer, id: usize, g: Val, r: Result<Vec<(usize, Val)>, TraceError>) -> bool {
    &&& t1.wf()
    &&& match vjp_val(t0.graph(), id, g@) {
        Ok((gr, cs)) => r matches Ok(v) && contribs_view(v@) == cs && t1.graph() == gr,
        Err(e) => r matches Err(re) && re@ == e,
    }
    &&& t1.inputs == t0.inputs
    &&& t1.rng == t0.rng
    &&& grows(t0.nodes@, t1.nodes@)
    &&& g.id < t0.nodes@.len() ==> (r matches Ok(v) ==> contribs_below(v@, t1.nodes@.len() as int))
    &&& graph_wf(t0.nodes@) && g.id < t0.nodes@.len() ==> graph_wf(t1.nodes@)
}


/// The cotangents of a map from node ids to traced values, as specifications see them.
pub open spec fn cot_view(m: Map<usize, Val>) -> Map<usize, ValV> {
    m.map_values(|v: Val| v@)
}

/// The smallest id among the values `ts`.
pub open spec fn min_id(ts: Seq<ValV>) -> int
    decreases ts.len(),
{
    if ts.len() == 0 {
        0
    } else if ts.len() == 1 {
        ts[0].id as int
    } else if (ts.last().id as int) < min_id(ts.drop_last()) {
        ts.last().id as int
    } else {
        min_id(ts.drop_last())
    }
}

/// The cotangents after adding the contributions `cs` (from the `j`-th on): a contribution
/// to a node that has a cotangent is added to it, otherwise it becomes the cotangent.
pub open spec fn merge_val(g: GraphV, cot: Map<usize, ValV>, cs: Seq<(usize, ValV)>, j: int) -> Result<
    (GraphV, Map<usize, ValV>),
    TraceErrorV,
>
    decreases cs.len() - j,
{
    if j < 0 || j >= cs.len() {
        Ok((g, cot))
    } else if cot.contains_key(cs[j].0) {
        match ewise_val(g, "add"@, cot[cs[j].0], cs[j].1) {
            Err(e) => Err(e),
            Ok((g1, m)) => merge_val(g1, cot.insert(cs[j].0, m), cs, j + 1),
        }
    } else {
        merge_val(g, cot.insert(cs[j].0, cs[j].1), cs, j + 1)
    }
}

/// The cotangents after the backward sweep over the nodes from `id` down to (not including)
/// `stop`: each node that has a cotangent passes it to its operands by its rule.
pub open spec fn sweep_val(g: GraphV, cot: Map<usize, ValV>, id: int, stop: int) -> Result<
    (GraphV, Map<usize, ValV>),
    TraceErrorV,
>
    decreases id - stop,
{
    if id <= stop {
        Ok((g, cot))
    } else if !cot.contains_key(id as usize) {
        sweep_val(g, cot, id - 1, stop)
    } else if !grad_ready(g, id as usize, cot[id as usize]) {
        Err(TraceError::GradientNotReady)
    } else {
        match vjp_val(g, id as usize, cot[id as usize]) {
            Err(e) => Err(e),
            Ok((g1, cs)) => match merge_val(g1, cot, cs, 0) {
                Err(e) => Err(e),
                Ok((g2, cot2)) => sweep_val(g2, cot2, id - 1, stop),
            },
        }
    }
}

/// The gradients of the targets from `j` on: their cotangents, or zeros for a target the
/// sweep did not reach.
pub open spec fn grads_val(g: GraphV, cot: Map<usize, ValV>, ts: Seq<ValV>, j: int) -> (GraphV, Seq<ValV>)
    decreases ts.len() - j,
{
    if j < 0 || j >= ts.len() {
        (g, seq![])
    } else if cot.contains_key(ts[j].id) {
        let (g2, rest) = grads_val(g, cot, ts, j + 1);
        (g2, seq![cot[ts[j].id]] + rest)
    } else {
        let (g1, z) = zeros_val(g, ts[j].shape, ts[j].dtype);
        let (g2, rest) = grads_val(g1, cot, ts, j + 1);
        (g2, seq![z] + rest)
    }
}

/// Reverse-mode differentiation of `y`, whose cotangent is `seed`, with respect to the
/// targets: a sweep from `y` down to just above the earliest target, then each target's
/// gradient.
pub open spec fn backward_val(g: GraphV, y: ValV, ts: Seq<ValV>, seed: ValV) -> Result<(GraphV, Seq<ValV>), TraceErrorV> {
    match sweep_val(g, map![y.id => seed], y.id as int, min_id(ts)) {
        Err(e) => Err(e),
        Ok((g1, cot)) => Ok(grads_val(g1, cot, ts, 0)),
    }
}

pub open spec fn vals_view(s: Seq<Val>) -> Seq<ValV> {
    Seq::new(s.len(), |i: int| s[i]@)
}

/// Differentiating a value with respect to itself gives the seed, and traces nothing.
pub proof fn law_backward_self(g: GraphV, y: ValV, seed: ValV)
    ensures
        backward_val(g, y, seq![y], seed) == Ok::<(GraphV, Seq<ValV>), TraceErrorV>((g, seq![seed])),
{
    assert(min_id(seq![y]) == y.id as int);
    let cot = map![y.id => seed];
    assert(cot.contains_key(y.id));
    assert(grads_val(g, cot, seq![y], 1) == (g, Seq::<ValV>::empty()));
    assert(seq![seed] + Seq::<ValV>::empty() =~= seq![seed]);
}

/// Whether the gradient rule of node `id` can run on the cotangent `gv` without failing on
/// an index: the node and its operands exist, it has the operands its rule reads, and the
/// dimensions its rule reads exist.
#[verifier::opaque]
pub open spec fn grad_ready(g: GraphV, id: usize, gv: ValV) -> bool {
    let node = g.nodes[id as int];
    let ins = node.inputs;
    &&& id < g.nodes.len()
    &&& forall|j: int| 0 <= j < ins.len() ==> #[trigger] ins[j] < g.nodes.len()
    &&& match node.kind {
        OpKindV::Ewise(_) => ins.len() >= 2,
        OpKindV::Unary(_) => ins.len() >= 1,
        OpKindV::Convert => ins.len() >= 1,
        OpKindV::Broadcast(_) => ins.len() >= 1,
        OpKindV::Reshape => ins.len() >= 1,
        OpKindV::Reduce(_, _) => ins.len() >= 1,
        OpKindV::Select => ins.len() >= 3,
        OpKindV::Slice(dim, _, _) => ins.len() >= 1 && dim < g.nodes[ins[0] as int].shape.len(),
        OpKindV::Concat(dim) => {
            &&& forall|j: int| 0 <= j < ins.len() ==> dim < #[trigger] g.nodes[ins[j] as int].shape.len()
            &&& extent_sum(g.nodes, ins, dim, 0) <= usize::MAX
        },
        OpKindV::Dot(lb, _, lc, rc) => {
            let sa = g.nodes[ins[0] as int].shape;
            let sb = g.nodes[ins[1] as int].shape;
            &&& ins.len() >= 2
            &&& sa.len() >= 1
            &&& (lc == seq![(sa.len() - 1) as usize] && rc == seq![lb.len() as usize]) ==> {
                &&& sa.len() >= lb.len()
                &&& sb.len() >= lb.len()
                &&& (sa.len() - lb.len() == 2 && (sb.len() - lb.len() == 2 || sb.len() - lb.len() == 1))
                    ==> gv.shape.len() >= lb.len()
            }
        },
        _ => true,
    }
}

pub open spec fn contribs_view(v: Seq<(usize, Val)>) -> Seq<(usize, ValV)> {
    Seq::new(v.len(), |i: int| (v[i].0, v[i].1@))
}

/// Whether every contribution is a node of a graph of `n` nodes.
pub open spec fn contribs_below(v: Seq<(usize, Val)>, n: int) -> bool {
    forall|i: int| 0 <= i < v.len() ==> (#[trigger] v[i]).1.id < n
}

fn val_copy(v: &Val) -> (r: Val)
    ensures
        r@ == v@,
{
    Val { id: v.id, shape: copy_shape(v.shape.as_slice()), dtype: v.dtype }
}

fn pair2(a: usize, va: Val, b: usize, vb: Val) -> (r: Vec<(usize, Val)>)
    ensures
        contribs_view(r@) == seq![(a, va@), (b, vb@)],
        r@.len() == 2,
        r@[0].1 == va,
        r@[1].1 == vb,
{
    let mut r: Vec<(usize, Val)> = Vec::new();
    r.push((a, va));
    r.push((b, vb));
    assert(contribs_view(r@) =~= seq![(a, va@), (b, vb@)]);
    r
}

fn single(a: usize, va: Val) -> (r: Vec<(usize, Val)>)
    ensures
        contribs_view(r@) == seq![(a, va@)],
        r@.len() == 1,
        r@[0].1 == va,
{
    let mut r: Vec<(usize, Val)> = Vec::new();
    r.push((a, va));
    assert(contribs_view(r@) =~= seq![(a, va@)]);
    r
}

/// A small whole number as MLIR writes it for an element type.
pub(crate) fn number_literal(dtype: Dtype, int_text: &str, float_text: &str) -> (s: String)
    ensures
        s@ == number_lit(dtype, int_text@, float_text@),
{
    match dtype {
        Dtype::I32 | Dtype::I64 | Dtype::U32 => int_text.to_owned(),
        _ => float_text.to_owned(),
    }
}

impl Tracer {
    fn mul_rule(&mut self, a: &Val, b: &Val, g: &Val) -> (r: Result<Vec<(usize, Val)>, TraceError>)
        requires
            old(self).wf(),
        ensures
            final(self).wf(),
            match mul_grad(old(self).graph(), a@, b@, g@) {
                Ok((gr, cs)) => r matches Ok(v) && contribs_view(v@) == cs && final(self).graph() == gr,
                Err(e) => r matches Err(re) && re@ == e,
            },
            final(self).inputs == old(self).inputs,
            final(self).rng == old(self).rng,
            grows(old(self).nodes@, final(self).nodes@),
            r matches Ok(v) ==> contribs_below(v@, final(self).nodes@.len() as int),
            graph_wf(old(self).nodes@) && a.id < old(self).nodes@.len() && b.id < old(self).nodes@.len() && g.id
                < old(self).nodes@.len() ==> graph_wf(final(self).nodes@),
    {
        let da = match self.ewise("multiply", val_copy(g), val_copy(b)) {
            Err(e) => {
                return Err(e);
            },
            Ok(v) => v,
        };
        let db = match self.ewise("multiply", val_copy(g), val_copy(a)) {
            Err(e) => {
                return Err(e);
            },
            Ok(v) => v,
        };
        Ok(pair2(a.id, da, b.id, db))
    }

    fn div_rule(&mut self, out: &Val, a: &Val, b: &Val, g: &Val) -> (r: Result<Vec<(usize, Val)>, TraceError>)
        requires
            old(self).wf(),
        ensures
            final(self).wf(),
            match div_grad(old(self).graph(), out@, a@, b@, g@) {
                Ok((gr, cs)) => r matches Ok(v) && contribs_view(v@) == cs && final(self).graph() == gr,
                Err(e) => r matches Err(re) && re@ == e,
            },
            final(self).inputs == old(self).inputs,
            final(self).rng == old(self).rng,
            grows(old(self).nodes@, final(self).nodes@),
            r matches Ok(v) ==> contribs_below(v@, final(self).nodes@.len() as int),
            graph_wf(old(self).nodes@) && out.id < old(self).nodes@.len() && b.id < old(self).nodes@.len() && g.id
                < old(self).nodes@.len() ==> graph_wf(final(self).nodes@),
    {
        let da = match self.ewise("divide", val_copy(g), val_copy(b)) {
            Err(e) => {
                return Err(e);
            },
            Ok(v) => v,
        };
        let g_out = match self.ewise("multiply", val_copy(g), val_copy(out)) {
            Err(e) => {
                return Err(e);
            },
            Ok(v) => v,
        };
        let quotient = match self.ewise("divide", g_out, val_copy(b)) {
            Err(e) => {
                return Err(e);
            },
            Ok(v) => v,
        };
        let db = self.unary("negate", &quotient);
        Ok(pair2(a.id, da, b.id, db))
    }

    fn minmax_rule(&mut self, dir: &str, a: &Val, b: &Val, g: &Val) -> (r: Vec<(usize, Val)>)
        requires
            old(self).wf(),
        ensures
            final(self).wf(),
            (final(self).graph(), contribs_view(r@)) == minmax_grad(old(self).graph(), dir@, a@, b@, g@),
            final(self).inputs == old(self).inputs,
            final(self).rng == old(self).rng,
            grows(old(self).nodes@, final(self).nodes@),
            contribs_below(r@, final(self).nodes@.len() as int),
            graph_wf(old(self).nodes@) && a.id < old(self).nodes@.len() && b.id < old(self).nodes@.len() && g.id
                < old(self).nodes@.len() ==> graph_wf(final(self).nodes@),
    {
        let pred = self.compare(dir, a, b);
        let zero = self.zeros_like(g);
        let da = self.select(&pred, g, &zero);
        let db = self.select(&pred, &zero, g);
        pair2(a.id, da, b.id, db)
    }

    /// The gradient rule of an elementwise operation.
    fn ewise_rule(&mut self, name: &String, out: &Val, a: &Val, b: &Val, g: &Val) -> (r: Result<Vec<(usize, Val)>, TraceError>)
        requires
            old(self).wf(),
        ensures
            final(self).wf(),
            match ewise_grad(old(self).graph(), name@, out@, a@, b@, g@) {
                Ok((gr, cs)) => r matches Ok(v) && contribs_view(v@) == cs && final(self).graph() == gr,
                Err(e) => r matches Err(re) && re@ == e,
            },
            final(self).inputs == old(self).inputs,
            final(self).rng == old(self).rng,
            grows(old(self).nodes@, final(self).nodes@),
            a.id < old(self).nodes@.len() && b.id < old(self).nodes@.len() && g.id < old(self).nodes@.len() ==> (r matches Ok(
                v,
            ) ==> contribs_below(v@, final(self).nodes@.len() as int)),
            graph_wf(old(self).nodes@) && out.id < old(self).nodes@.len() && a.id < old(self).nodes@.len() && b.id
                < old(self).nodes@.len() && g.id < old(self).nodes@.len() ==> graph_wf(final(self).nodes@),
    {
        if str_eq(name.as_str(), "add") {
            return Ok(pair2(a.id, val_copy(g), b.id, val_copy(g)));
        }
        if str_eq(name.as_str(), "subtract") {
            let db = self.unary("negate", g);
            return Ok(pair2(a.id, val_copy(g), b.id, db));
        }
        if str_eq(name.as_str(), "multiply") {
            return self.mul_rule(a, b, g);
        }
        if str_eq(name.as_str(), "divide") {
            return self.div_rule(out, a, b, g);
        }
        if str_eq(name.as_str(), "maximum") {
            return Ok(self.minmax_rule("GE", a, b, g));
        }
        if str_eq(name.as_str(), "minimum") {
            return Ok(self.minmax_rule("LE", a, b, g));
        }
        Err(TraceError::NoGradient(name.clone()))
    }
}

impl Tracer {
    fn sqrt_rule(&mut self, dtype: Dtype, out: &Val, g: &Val) -> (r: Result<Val, TraceError>)
        requires
            old(self).wf(),
        ensures
            final(self).wf(),
            match sqrt_grad(old(self).graph(), dtype, out@, g@) {
                Ok((gr, v)) => r matches Ok(rv) && rv@ == v && final(self).graph() == gr,
                Err(e) => r matches Err(re) && re@ == e,
            },
            final(self).inputs == old(self).inputs,
            final(self).rng == old(self).rng,
            grows(old(self).nodes@, final(self).nodes@),
            r matches Ok(rv) ==> rv.id < final(self).nodes@.len(),
            graph_wf(old(self).nodes@) && out.id < old(self).nodes@.len() && g.id < old(self).nodes@.len()
                ==> graph_wf(final(self).nodes@),
    {
        let two = self.constant(number_literal(dtype, "2", "2.0"), dtype);
        let denom = match self.ewise("multiply", two, val_copy(out)) {
            Err(e) => {
                return Err(e);
            },
            Ok(v) => v,
        };
        self.ewise("divide", val_copy(g), denom)
    }

    fn tanh_rule(&mut self, dtype: Dtype, out: &Val, g: &Val) -> (r: Result<Val, TraceError>)
        requires
            old(self).wf(),
        ensures
            final(self).wf(),
            match tanh_grad(old(self).graph(), dtype, out@, g@) {
                Ok((gr, v)) => r matches Ok(rv) && rv@ == v && final(self).graph() == gr,
                Err(e) => r matches Err(re) && re@ == e,
            },
            final(self).inputs == old(self).inputs,
            final(self).rng == old(self).rng,
            grows(old(self).nodes@, final(self).nodes@),
            r matches Ok(rv) ==> rv.id < final(self).nodes@.len(),
            graph_wf(old(self).nodes@) && out.id < old(self).nodes@.len() && g.id < old(self).nodes@.len()
                ==> graph_wf(final(self).nodes@),
    {
        let one = self.constant(number_literal(dtype, "1", "1.0"), dtype);
        let squared = match self.ewise("multiply", val_copy(out), val_copy(out)) {
            Err(e) => {
                return Err(e);
            },
            Ok(v) => v,
        };
        let sech2 = match self.ewise("subtract", one, squared) {
            Err(e) => {
                return Err(e);
            },
            Ok(v) => v,
        };
        self.ewise("multiply", val_copy(g), sech2)
    }

    fn cos_rule(&mut self, a: &Val, g: &Val) -> (r: Result<Val, TraceError>)
        requires
            old(self).wf(),
        ensures
            final(self).wf(),
            match cos_grad(old(self).graph(), a@, g@) {
                Ok((gr, v)) => r matches Ok(rv) && rv@ == v && final(self).graph() == gr,
                Err(e) => r matches Err(re) && re@ == e,
            },
            final(self).inputs == old(self).inputs,
            final(self).rng == old(self).rng,
            grows(old(self).nodes@, final(self).nodes@),
            r matches Ok(rv) ==> rv.id < final(self).nodes@.len(),
            graph_wf(old(self).nodes@) && a.id < old(self).nodes@.len() && g.id < old(self).nodes@.len()
                ==> graph_wf(final(self).nodes@),
    {
        let sn = self.unary("sine", a);
        let gs = match self.ewise("multiply", val_copy(g), sn) {
            Err(e) => {
                return Err(e);
            },
            Ok(v) => v,
        };
        Ok(self.unary("negate", &gs))
    }

    /// The gradient rule of an elementwise unary operation.
    fn unary_rule(&mut self, name: &String, dtype: Dtype, out: &Val, a: &Val, g: &Val) -> (r: Result<Val, TraceError>)
        requires
            old(self).wf(),
        ensures
            final(self).wf(),
            match unary_grad(old(self).graph(), name@, dtype, out@, a@, g@) {
                Ok((gr, v)) => r matches Ok(rv) && rv@ == v && final(self).graph() == gr,
                Err(e) => r matches Err(re) && re@ == e,
            },
            final(self).inputs == old(self).inputs,
            final(self).rng == old(self).rng,
            grows(old(self).nodes@, final(self).nodes@),
            r matches Ok(rv) ==> rv.id < final(self).nodes@.len(),
            graph_wf(old(self).nodes@) && out.id < old(self).nodes@.len() && a.id < old(self).nodes@.len() && g.id
                < old(self).nodes@.len() ==> graph_wf(final(self).nodes@),
    {
        if str_eq(name.as_str(), "negate") {
            return Ok(self.unary("negate", g));
        }
        if str_eq(name.as_str(), "exponential") {
            return self.ewise("multiply", val_copy(g), val_copy(out));
        }
        if str_eq(name.as_str(), "log") {
            return self.ewise("divide", val_copy(g), val_copy(a));
        }
        if str_eq(name.as_str(), "sqrt") {
            return self.sqrt_rule(dtype, out, g);
        }
        if str_eq(name.as_str(), "tanh") {
            return self.tanh_rule(dtype, out, g);
        }
        if str_eq(name.as_str(), "sine") {
            let c = self.unary("cosine", a);
            return self.ewise("multiply", val_copy(g), c);
        }
        if str_eq(name.as_str(), "cosine") {
            return self.cos_rule(a, g);
        }
        Err(TraceError::NoGradient(name.clone()))
    }
}

impl OpKind {
    /// Whether the operation contributes nothing to its operands.
    pub fn is_constant_like(&self) -> (b: bool)
        ensures
            b == constant_like(self@),
    {
        match self {
            OpKind::Input | OpKind::Iota | OpKind::Constant(_) | OpKind::DenseConst(_) | OpKind::Compare(_) => true,
            _ => false,
        }
    }
}

fn range_ids(lo: usize, hi: usize) -> (r: Vec<usize>)
    requires
        lo <= hi,
    ensures
        r@ == dim_range(lo as int, hi as int),
{
    let mut r: Vec<usize> = Vec::new();
    push_range(&mut r, lo, hi);
    assert(r@ =~= dim_range(lo as int, hi as int));
    r
}

/// The positions among the first `n` that are not in `dims`.
fn free_axes_of(n: usize, dims: &Vec<usize>) -> (r: Vec<usize>)
    ensures
        r@ == free_axes(n as nat, dims@),
{
    let all = range_ids(0, n);
    let none: Vec<usize> = Vec::new();
    assert(none@ =~= seq![]);
    kept_dims(all.as_slice(), dims, &none)
}

impl Tracer {
    /// The gradient rule of a slice.
    fn slice_rule(&mut self, in_shape: &Vec<usize>, dim: usize, start: usize, limit: usize, g: &Val) -> (r: Val)
        requires
            old(self).wf(),
            dim < in_shape@.len(),
        ensures
            final(self).wf(),
            (final(self).graph(), r@) == slice_grad(old(self).graph(), in_shape@, dim, start, limit, g@),
            final(self).inputs == old(self).inputs,
            final(self).rng == old(self).rng,
            grows(old(self).nodes@, final(self).nodes@),
            g.id < old(self).nodes@.len() ==> r.id < final(self).nodes@.len(),
            graph_wf(old(self).nodes@) && g.id < old(self).nodes@.len() ==> graph_wf(final(self).nodes@),
    {
        let ghost g0 = self.graph();
        let mut parts: Vec<usize> = Vec::new();
        if start > 0 {
            let mut shape = copy_shape(in_shape.as_slice());
            shape[dim] = start;
            let z = self.zeros(shape.as_slice(), g.dtype);
            parts.push(z.id);
        }
        let ghost g1 = self.graph();
        parts.push(g.id);
        if limit < in_shape[dim] {
            let mut shape = copy_shape(in_shape.as_slice());
            shape[dim] = in_shape[dim] - limit;
            let z = self.zeros(shape.as_slice(), g.dtype);
            parts.push(z.id);
        }
        assert(parts@.len() == 1 ==> start == 0 && !(limit < in_shape@[dim as int]));
        if parts.len() == 1 {
            return val_copy(g);
        }
        let ghost before: Seq<usize> = if start > 0 {
            seq![zeros_val(g0, in_shape@.update(dim as int, start), g.dtype).1.id]
        } else {
            Seq::<usize>::empty()
        };
        let ghost after: Seq<usize> = if limit < in_shape@[dim as int] {
            seq![zeros_val(g1, in_shape@.update(dim as int, (in_shape@[dim as int] - limit) as usize), g.dtype).1.id]
        } else {
            Seq::<usize>::empty()
        };
        assert(parts@ =~= before + seq![g.id] + after);
        self.emit(OpKind::Concat(dim), parts, copy_shape(in_shape.as_slice()), g.dtype)
    }

    /// The gradient rule of a concatenation along `dim` of the operands `ins`.
    fn concat_rule(&mut self, g: &Val, ins: &Vec<usize>, dim: usize) -> (r: Vec<(usize, Val)>)
        requires
            old(self).wf(),
            forall|j: int|
                0 <= j < ins@.len() ==> #[trigger] ins@[j] < old(self).nodes@.len() && dim
                    < old(self).nodes@[ins@[j] as int].shape@.len(),
            extent_sum(old(self).graph().nodes, ins@, dim, 0) <= usize::MAX,
        ensures
            final(self).wf(),
            (final(self).graph(), contribs_view(r@)) == concat_grad(old(self).graph(), g@, ins@, dim, 0, 0),
            final(self).inputs == old(self).inputs,
            final(self).rng == old(self).rng,
            grows(old(self).nodes@, final(self).nodes@),
            contribs_below(r@, final(self).nodes@.len() as int),
            graph_wf(old(self).nodes@) && g.id < old(self).nodes@.len() ==> graph_wf(final(self).nodes@),
    {
        let ghost g0 = self.graph();
        let mut out: Vec<(usize, Val)> = Vec::new();
        let mut offset: usize = 0;
        let mut j: usize = 0;
        assert(contribs_view(out@) =~= seq![]);
        while j < ins.len()
            invariant
                j <= ins@.len(),
                self.wf(),
                g0 == old(self).graph(),
                self.inputs == old(self).inputs,
                self.rng == old(self).rng,
                grows(old(self).nodes@, self.nodes@),
                forall|q: int|
                    0 <= q < ins@.len() ==> #[trigger] ins@[q] < old(self).nodes@.len() && dim
                        < old(self).nodes@[ins@[q] as int].shape@.len(),
                offset + extent_sum(g0.nodes, ins@, dim, j as int) == extent_sum(g0.nodes, ins@, dim, 0),
                extent_sum(g0.nodes, ins@, dim, 0) <= usize::MAX,
                concat_grad(g0, g@, ins@, dim, 0, 0).0 == concat_grad(self.graph(), g@, ins@, dim, j as int, offset as int).0,
                concat_grad(g0, g@, ins@, dim, 0, 0).1 == contribs_view(out@) + concat_grad(
                    self.graph(),
                    g@,
                    ins@,
                    dim,
                    j as int,
                    offset as int,
                ).1,
                contribs_below(out@, self.nodes@.len() as int),
                graph_wf(old(self).nodes@) && g.id < old(self).nodes@.len() ==> graph_wf(self.nodes@),
            decreases ins.len() - j,
        {
            let input_id = ins[j];
            assert(ins@[j as int] < old(self).nodes@.len());
            assert(self.nodes@[input_id as int] == old(self).nodes@[input_id as int]);
            assert(self.graph().nodes[input_id as int] == g0.nodes[input_id as int]);
            let shape = copy_shape(self.nodes[input_id].shape.as_slice());
            let extent = shape[dim];
            assert(extent_sum(g0.nodes, ins@, dim, j as int) == extent + extent_sum(g0.nodes, ins@, dim, j + 1));
            proof {
                lemma_extent_sum_nonneg(g0.nodes, ins@, dim, j + 1);
            }
            let ghost gj = self.graph();
            let ghost old_out = out@;
            let piece = self.emit(OpKind::Slice(dim, offset, offset + extent), one_id(g.id), shape, g.dtype);
            let ghost pv = piece@;
            out.push((input_id, piece));
            assert(contribs_view(out@) =~= contribs_view(old_out).push((input_id, pv)));
            let ghost rest = concat_grad(self.graph(), g@, ins@, dim, j + 1, (offset + extent) as int).1;
            assert(contribs_view(old_out) + (seq![(input_id, pv)] + rest) =~= contribs_view(out@) + rest);
            offset = offset + extent;
            j = j + 1;
        }
        out
    }

    /// The gradient rule of a product of matrices and vectors.
    fn dot_mat_rule(&mut self, a: &Val, b: &Val, k: usize, fa: usize, fb: usize, g: &Val) -> (r: Vec<(usize, Val)>)
        requires
            old(self).wf(),
            (fa == 2 && fb == 2) || (fa == 1 && fb == 2) || (fa == 2 && fb == 1),
            a.shape.len() == k + fa,
            b.shape.len() == k + fb,
            fa == 2 ==> g.shape@.len() >= k,
        ensures
            final(self).wf(),
            (final(self).graph(), contribs_view(r@)) == dot_mat_grad(old(self).graph(), a@, b@, k as nat, fa as int, fb as int, g@),
            final(self).inputs == old(self).inputs,
            final(self).rng == old(self).rng,
            grows(old(self).nodes@, final(self).nodes@),
            contribs_below(r@, final(self).nodes@.len() as int),
            graph_wf(old(self).nodes@) && a.id < old(self).nodes@.len() && b.id < old(self).nodes@.len() && g.id
                < old(self).nodes@.len() ==> graph_wf(final(self).nodes@),
    {
        if fa == 2 && fb == 2 {
            let da = self.dot(g, b, range_ids(0, k), range_ids(0, k), one_id(k + 1), one_id(k + 1));
            let db = self.dot(a, g, range_ids(0, k), range_ids(0, k), one_id(k), one_id(k));
            pair2(a.id, da, b.id, db)
        } else if fa == 1 && fb == 2 {
            let da = self.dot(b, g, range_ids(0, k), range_ids(0, k), one_id(k + 1), one_id(k));
            let e1: Vec<usize> = Vec::new();
            let e2: Vec<usize> = Vec::new();
            assert(e1@ =~= seq![]);
            assert(e2@ =~= seq![]);
            let db = self.dot(a, g, range_ids(0, k), range_ids(0, k), e1, e2);
            pair2(a.id, da, b.id, db)
        } else {
            let e1: Vec<usize> = Vec::new();
            let e2: Vec<usize> = Vec::new();
            assert(e1@ =~= seq![]);
            assert(e2@ =~= seq![]);
            let da = self.dot(g, b, range_ids(0, k), range_ids(0, k), e1, e2);
            let db = self.dot(a, g, range_ids(0, k), range_ids(0, k), one_id(k), one_id(k));
            pair2(a.id, da, b.id, db)
        }
    }

    /// The cotangent broadcast over `shape` along `k` batch dimensions.
    fn over_batch_val(&mut self, g: &Val, shape: &Vec<usize>, k: usize) -> (r: Val)
        requires
            old(self).wf(),
        ensures
            final(self).wf(),
            (final(self).graph(), r@) == over_batch(old(self).graph(), g@, shape@, k as nat),
            final(self).inputs == old(self).inputs,
            final(self).rng == old(self).rng,
            grows(old(self).nodes@, final(self).nodes@),
            g.id < old(self).nodes@.len() ==> r.id < final(self).nodes@.len(),
            graph_wf(old(self).nodes@) && g.id < old(self).nodes@.len() ==> graph_wf(final(self).nodes@),
    {
        if k == 0 {
            val_copy(g)
        } else {
            self.broadcast_along(g, shape.as_slice(), range_ids(0, k))
        }
    }

    /// The gradient rule of any other dot product.
    fn dot_ew_rule(&mut self, a: &Val, b: &Val, k: usize, g: &Val) -> (r: Result<Vec<(usize, Val)>, TraceError>)
        requires
            old(self).wf(),
        ensures
            final(self).wf(),
            match dot_ew_grad(old(self).graph(), a@, b@, k as nat, g@) {
                Ok((gr, cs)) => r matches Ok(v) && contribs_view(v@) == cs && final(self).graph() == gr,
                Err(e) => r matches Err(re) && re@ == e,
            },
            final(self).inputs == old(self).inputs,
            final(self).rng == old(self).rng,
            grows(old(self).nodes@, final(self).nodes@),
            r matches Ok(v) ==> contribs_below(v@, final(self).nodes@.len() as int),
            graph_wf(old(self).nodes@) && a.id < old(self).nodes@.len() && b.id < old(self).nodes@.len() && g.id
                < old(self).nodes@.len() ==> graph_wf(final(self).nodes@),
    {
        let gb = self.over_batch_val(g, &b.shape, k);
        let ga = self.over_batch_val(g, &a.shape, k);
        let da = match self.ewise("multiply", gb, val_copy(b)) {
            Err(e) => {
                return Err(e);
            },
            Ok(v) => v,
        };
        let db = match self.ewise("multiply", ga, val_copy(a)) {
            Err(e) => {
                return Err(e);
            },
            Ok(v) => v,
        };
        Ok(pair2(a.id, da, b.id, db))
    }

    /// The gradient rule of a dot product with `k` batch dimensions.
    fn dot_rule(&mut self, a: &Val, b: &Val, k: usize, lc: &Vec<usize>, rc: &Vec<usize>, g: &Val) -> (r: Result<
        Vec<(usize, Val)>,
        TraceError,
    >)
        requires
            old(self).wf(),
            a.shape@.len() >= 1,
            (lc@ == seq![(a.shape@.len() - 1) as usize] && rc@ == seq![k]) ==> {
                &&& a.shape@.len() >= k
                &&& b.shape@.len() >= k
                &&& (a.shape@.len() - k == 2 && (b.shape@.len() - k == 2 || b.shape@.len() - k == 1))
                    ==> g.shape@.len() >= k
            },
        ensures
            final(self).wf(),
            match dot_grad(old(self).graph(), a@, b@, k as nat, lc@, rc@, g@) {
                Ok((gr, cs)) => r matches Ok(v) && contribs_view(v@) == cs && final(self).graph() == gr,
                Err(e) => r matches Err(re) && re@ == e,
            },
            final(self).inputs == old(self).inputs,
            final(self).rng == old(self).rng,
            grows(old(self).nodes@, final(self).nodes@),
            r matches Ok(v) ==> contribs_below(v@, final(self).nodes@.len() as int),
            graph_wf(old(self).nodes@) && a.id < old(self).nodes@.len() && b.id < old(self).nodes@.len() && g.id
                < old(self).nodes@.len() ==> graph_wf(final(self).nodes@),
    {
        let last = a.shape.len() - 1;
        if !(lc.len() == 1 && lc[0] == last && rc.len() == 1 && rc[0] == k) {
            assert(lc@ != seq![last] || rc@ != seq![k]) by {
                if lc@ == seq![last] && rc@ == seq![k] {
                    assert(lc@[0] == last);
                    assert(rc@[0] == k);
                }
            }
            return Err(TraceError::MatmulGradient);
        }
        assert(lc@ =~= seq![last]);
        assert(rc@ =~= seq![k]);
        let fa = a.shape.len() - k;
        let fb = b.shape.len() - k;
        if (fa == 2 && fb == 2) || (fa == 1 && fb == 2) || (fa == 2 && fb == 1) {
            Ok(self.dot_mat_rule(a, b, k, fa, fb, g))
        } else {
            self.dot_ew_rule(a, b, k, g)
        }
    }
}

impl Tracer {
    /// The rules of the unary kinds that always succeed: a conversion, a broadcast, a
    /// reshape, a reduction and a slice.
    fn simple_arm(&mut self, kind: &OpKind, out: &Val, a: &Val, g: &Val) -> (r: Val)
        requires
            old(self).wf(),
            kind is Convert || kind is Broadcast || kind is Reshape || kind is Reduce || kind is Slice,
            kind matches OpKind::Slice(dim, _, _) ==> dim < a.shape@.len(),
        ensures
            final(self).wf(),
            (final(self).graph(), r@) == simple_grad(old(self).graph(), kind@, out@, a@, g@),
            final(self).inputs == old(self).inputs,
            final(self).rng == old(self).rng,
            grows(old(self).nodes@, final(self).nodes@),
            g.id < old(self).nodes@.len() ==> r.id < final(self).nodes@.len(),
            graph_wf(old(self).nodes@) && g.id < old(self).nodes@.len() ==> graph_wf(final(self).nodes@),
    {
        match kind {
            OpKind::Convert => self.convert(g, a.dtype),
            OpKind::Broadcast(dims) => {
                let axes = free_axes_of(out.shape.len(), dims);
                proof {
                    reveal_strlit("add");
                }
                assert("add"@ =~= seq!['a', 'd', 'd']);
                self.reduce_sum(g, axes.as_slice())
            },
            OpKind::Reshape => self.reshape(g, copy_shape(a.shape.as_slice())),
            OpKind::Reduce(_, axes) => {
                let kept = free_axes_of(a.shape.len(), axes);
                self.broadcast_along(g, a.shape.as_slice(), kept)
            },
            OpKind::Slice(dim, start, limit) => self.slice_rule(&a.shape, *dim, *start, *limit, g),
            _ => {
                assert(false);
                val_copy(g)
            },
        }
    }

    /// The rule of a selection.
    fn select_arm(&mut self, p: &Val, on_true: usize, on_false: usize, g: &Val) -> (r: Vec<(usize, Val)>)
        requires
            old(self).wf(),
        ensures
            final(self).wf(),
            (final(self).graph(), contribs_view(r@)) == select_grad(old(self).graph(), p@, on_true, on_false, g@),
            final(self).inputs == old(self).inputs,
            final(self).rng == old(self).rng,
            grows(old(self).nodes@, final(self).nodes@),
            contribs_below(r@, final(self).nodes@.len() as int),
            graph_wf(old(self).nodes@) && p.id < old(self).nodes@.len() && g.id < old(self).nodes@.len()
                ==> graph_wf(final(self).nodes@),
    {
        let zero = self.zeros_like(g);
        let dt = self.select(p, g, &zero);
        let df = self.select(p, &zero, g);
        pair2(on_true, dt, on_false, df)
    }

    /// The rule of node `id` where it is a conversion, broadcast, reshape, reduction or slice.
    #[verifier::rlimit(60)]
    fn simple_node(&mut self, id: usize, g: &Val) -> (r: Result<Vec<(usize, Val)>, TraceError>)
        requires
            old(self).wf(),
            grad_ready(old(self).graph(), id, g@),
            ({
                let k = old(self).graph().nodes[id as int].kind;
                k is Convert || k is Broadcast || k is Reshape || k is Reduce || k is Slice
            }),
        ensures
            vjp_post(*old(self), *final(self), id, *g, r),
    {
        proof {
            reveal(vjp_val);
            reveal(grad_ready);
        }
        let ghost g0 = self.graph();
        assert(g0.nodes[id as int] == self.nodes@[id as int]@);
        let kind = kind_copy(&self.nodes[id].kind);
        let in0 = self.nodes[id].inputs[0];
        let out = self.val(id);
        let a = self.val(in0);
        let da = self.simple_arm(&kind, &out, &a, g);
        Ok(single(in0, da))
    }

    /// The rule of node `id` where it is an elementwise operation.
    fn ewise_node(&mut self, id: usize, g: &Val) -> (r: Result<Vec<(usize, Val)>, TraceError>)
        requires
            old(self).wf(),
            grad_ready(old(self).graph(), id, g@),
            old(self).graph().nodes[id as int].kind is Ewise,
        ensures
            vjp_post(*old(self), *final(self), id, *g, r),
    {
        proof {
            reveal(vjp_val);
            reveal(grad_ready);
        }
        let ghost g0 = self.graph();
        assert(g0.nodes[id as int] == self.nodes@[id as int]@);
        let kind = kind_copy(&self.nodes[id].kind);
        let in0 = self.nodes[id].inputs[0];
        let in1 = self.nodes[id].inputs[1];
        let out = self.val(id);
        let a = self.val(in0);
        let b = self.val(in1);
        match &kind {
            OpKind::Ewise(name) => self.ewise_rule(name, &out, &a, &b, g),
            _ => {
                assert(false);
                Err(TraceError::NoGradientRule)
            },
        }
    }

    /// The rule of node `id` where it is an elementwise unary operation.
    fn unary_node(&mut self, id: usize, g: &Val) -> (r: Result<Vec<(usize, Val)>, TraceError>)
        requires
            old(self).wf(),
            grad_ready(old(self).graph(), id, g@),
            old(self).graph().nodes[id as int].kind is Unary,
        ensures
            vjp_post(*old(self), *final(self), id, *g, r),
    {
        proof {
            reveal(vjp_val);
            reveal(grad_ready);
        }
        let ghost g0 = self.graph();
        assert(g0.nodes[id as int] == self.nodes@[id as int]@);
        let kind = kind_copy(&self.nodes[id].kind);
        let in0 = self.nodes[id].inputs[0];
        let dtype = self.nodes[id].dtype;
        let out = self.val(id);
        let a = self.val(in0);
        match &kind {
            OpKind::Unary(name) => match self.unary_rule(name, dtype, &out, &a, g) {
                Err(e) => Err(e),
                Ok(da) => Ok(single(in0, da)),
            },
            _ => {
                assert(false);
                Err(TraceError::NoGradientRule)
            },
        }
    }

    /// The rule of node `id` where it is a concatenation.
    fn concat_node(&mut self, id: usize, g: &Val) -> (r: Result<Vec<(usize, Val)>, TraceError>)
        requires
            old(self).wf(),
            grad_ready(old(self).graph(), id, g@),
            old(self).graph().nodes[id as int].kind is Concat,
        ensures
            vjp_post(*old(self), *final(self), id, *g, r),
    {
        proof {
            reveal(vjp_val);
            reveal(grad_ready);
        }
        let ghost g0 = self.graph();
        assert(g0.nodes[id as int] == self.nodes@[id as int]@);
        let kind = kind_copy(&self.nodes[id].kind);
        let ins = copy_shape(self.nodes[id].inputs.as_slice());
        match kind {
            OpKind::Concat(dim) => {
                assert(ins@ == g0.nodes[id as int].inputs);
                assert forall|j: int| 0 <= j < ins@.len() implies #[trigger] ins@[j] < self.nodes@.len() && dim
                    < self.nodes@[ins@[j] as int].shape@.len() by {
                    assert(dim < g0.nodes[ins@[j] as int].shape.len());
                    assert(g0.nodes[ins@[j] as int] == self.nodes@[ins@[j] as int]@);
                }
                Ok(self.concat_rule(g, &ins, dim))
            },
            _ => {
                assert(false);
                Err(TraceError::NoGradientRule)
            },
        }
    }

    /// The rule of node `id` where it is a dot product.
    fn dot_node(&mut self, id: usize, g: &Val) -> (r: Result<Vec<(usize, Val)>, TraceError>)
        requires
            old(self).wf(),
            grad_ready(old(self).graph(), id, g@),
            old(self).graph().nodes[id as int].kind is Dot,
        ensures
            vjp_post(*old(self), *final(self), id, *g, r),
    {
        proof {
            reveal(vjp_val);
            reveal(grad_ready);
        }
        let ghost g0 = self.graph();
        assert(g0.nodes[id as int] == self.nodes@[id as int]@);
        let kind = kind_copy(&self.nodes[id].kind);
        let in0 = self.nodes[id].inputs[0];
        let in1 = self.nodes[id].inputs[1];
        let a = self.val(in0);
        let b = self.val(in1);
        match &kind {
            OpKind::Dot(lb, _, lc, rc) => self.dot_rule(&a, &b, lb.len(), lc, rc, g),
            _ => {
                assert(false);
                Err(TraceError::NoGradientRule)
            },
        }
    }

    /// The rule of node `id` where it is a selection.
    fn select_node(&mut self, id: usize, g: &Val) -> (r: Result<Vec<(usize, Val)>, TraceError>)
        requires
            old(self).wf(),
            grad_ready(old(self).graph(), id, g@),
            old(self).graph().nodes[id as int].kind is Select,
        ensures
            vjp_post(*old(self), *final(self), id, *g, r),
    {
        proof {
            reveal(vjp_val);
            reveal(grad_ready);
        }
        let ghost g0 = self.graph();
        assert(g0.nodes[id as int] == self.nodes@[id as int]@);
        let in0 = self.nodes[id].inputs[0];
        let in1 = self.nodes[id].inputs[1];
        let in2 = self.nodes[id].inputs[2];
        let p = self.val(in0);
        Ok(self.select_arm(&p, in1, in2, g))
    }

    /// The contributions of the cotangent `g` of node `id` to the node's operands, by the
    /// node's gradient rule: pairs of an operand and what flows to it. On an error the
    /// tracer may keep nodes the rule traced before it failed.
    pub fn vjp(&mut self, id: usize, g: &Val) -> (r: Result<Vec<(usize, Val)>, TraceError>)
        requires
            old(self).wf(),
            grad_ready(old(self).graph(), id, g@),
        ensures
            final(self).wf(),
            match vjp_val(old(self).graph(), id, g@) {
                Ok((gr, cs)) => r matches Ok(v) && contribs_view(v@) == cs && final(self).graph() == gr,
                Err(e) => r matches Err(re) && re@ == e,
            },
            final(self).inputs == old(self).inputs,
            final(self).rng == old(self).rng,
            grows(old(self).nodes@, final(self).nodes@),
            g.id < old(self).nodes@.len() ==> (r matches Ok(v) ==> contribs_below(v@, final(self).nodes@.len() as int)),
            graph_wf(old(self).nodes@) && g.id < old(self).nodes@.len() ==> graph_wf(final(self).nodes@),
    {
        proof {
            reveal(vjp_val);
            reveal(grad_ready);
        }
        let ghost g0 = self.graph();
        assert(g0.nodes[id as int] == self.nodes@[id as int]@);
        let kind = kind_copy(&self.nodes[id].kind);
        if kind.is_constant_like() {
            let v: Vec<(usize, Val)> = Vec::new();
            assert(contribs_view(v@) =~= seq![]);
            return Ok(v);
        }
        let r = match &kind {
            OpKind::Convert | OpKind::Broadcast(_) | OpKind::Reshape | OpKind::Reduce(_, _) | OpKind::Slice(_, _, _) => {
                self.simple_node(id, g)
            },
            OpKind::Ewise(_) => self.ewise_node(id, g),
            OpKind::Unary(_) => self.unary_node(id, g),
            OpKind::Concat(_) => self.concat_node(id, g),
            OpKind::Dot(_, _, _, _) => self.dot_node(id, g),
            OpKind::Select => self.select_node(id, g),
            _ => {
                return Err(TraceError::NoGradientRule);
            },
        };
        r
    }
}

impl Tracer {
    /// The cotangents after adding the contributions `cs`.
    fn merge(&mut self, cot: &mut HashMap<usize, Val>, cs: &Vec<(usize, Val)>) -> (r: Result<(), TraceError>)
        requires
            old(self).wf(),
        ensures
            final(self).wf(),
            match merge_val(old(self).graph(), cot_view(old(cot)@), contribs_view(cs@), 0) {
                Ok((g, m)) => r is Ok && final(self).graph() == g && cot_view(final(cot)@) == m,
                Err(e) => r matches Err(re) && re@ == e,
            },
            final(self).inputs == old(self).inputs,
            final(self).rng == old(self).rng,
            grows(old(self).nodes@, final(self).nodes@),
    {
        let ghost g0 = self.graph();
        let ghost cot0 = cot_view(cot@);
        let ghost csv = contribs_view(cs@);
        let mut j: usize = 0;
        while j < cs.len()
            invariant
                j <= cs@.len(),
                csv == contribs_view(cs@),
                self.wf(),
                self.inputs == old(self).inputs,
                self.rng == old(self).rng,
                grows(old(self).nodes@, self.nodes@),
                g0 == old(self).graph(),
                cot0 == cot_view(old(cot)@),
                merge_val(g0, cot0, csv, 0) == merge_val(self.graph(), cot_view(cot@), csv, j as int),
            decreases cs.len() - j,
        {
            let iid = cs[j].0;
            let c = val_copy(&cs[j].1);
            assert(csv[j as int] == (iid, c@));
            let merged = match cot.get(&iid) {
                Some(prev) => {
                    assert(cot_view(cot@).contains_key(iid) && cot_view(cot@)[iid] == prev@);
                    match self.ewise("add", val_copy(prev), c) {
                        Err(e) => {
                            return Err(e);
                        },
                        Ok(m) => m,
                    }
                },
                None => {
                    assert(!cot_view(cot@).contains_key(iid));
                    c
                },
            };
            let ghost before = cot@;
            let ghost mv = merged@;
            cot.insert(iid, merged);
            assert(cot_view(cot@) =~= cot_view(before).insert(iid, mv));
            j = j + 1;
        }
        Ok(())
    }


    /// One step of the backward sweep at node `id`.
    fn sweep_step(&mut self, cot: &mut HashMap<usize, Val>, id: usize, stop: usize) -> (r: Result<(), TraceError>)
        requires
            old(self).wf(),
            id > stop,
        ensures
            final(self).wf(),
            final(self).inputs == old(self).inputs,
            final(self).rng == old(self).rng,
            grows(old(self).nodes@, final(self).nodes@),
            match r {
                Ok(()) => sweep_val(old(self).graph(), cot_view(old(cot)@), id as int, stop as int) == sweep_val(
                    final(self).graph(),
                    cot_view(final(cot)@),
                    id - 1,
                    stop as int,
                ),
                Err(e) => sweep_val(old(self).graph(), cot_view(old(cot)@), id as int, stop as int) == Err::<
                    (GraphV, Map<usize, ValV>),
                    TraceErrorV,
                >(e@),
            },
    {
        match cot.get(&id) {
            None => {
                assert(!cot_view(cot@).contains_key(id));
                Ok(())
            },
            Some(gv) => {
                assert(cot_view(cot@).contains_key(id) && cot_view(cot@)[id] == gv@);
                let g = val_copy(gv);
                if !self.grad_ready_check(id, &g) {
                    return Err(TraceError::GradientNotReady);
                }
                let contribs = match self.vjp(id, &g) {
                    Err(e) => {
                        return Err(e);
                    },
                    Ok(v) => v,
                };
                self.merge(cot, &contribs)
            },
        }
    }

    /// Reverse-mode differentiation: the gradients of `y`, whose cotangent is `seed`, with
    /// respect to each of the targets, by a backward sweep of the gradient rules from `y`
    /// down to just above the earliest target; a target the sweep does not reach gets
    /// zeros. On an error the tracer may keep nodes traced before it.
    pub fn backward(&mut self, y: &Val, targets: &[Val], seed: Val) -> (r: Result<Vec<Val>, TraceError>)
        requires
            old(self).wf(),
            targets@.len() >= 1,
        ensures
            final(self).wf(),
            match backward_val(old(self).graph(), y@, vals_view(targets@), seed@) {
                Ok((g, vs)) => r matches Ok(v) && vals_view(v@) == vs && final(self).graph() == g,
                Err(e) => r matches Err(re) && re@ == e,
            },
            final(self).inputs == old(self).inputs,
            final(self).rng == old(self).rng,
            grows(old(self).nodes@, final(self).nodes@),
    {
        let ghost g0 = self.graph();
        let ghost ts = vals_view(targets@);
        let mut cot: HashMap<usize, Val> = HashMap::new();
        let ghost seedv = seed@;
        cot.insert(y.id, seed);
        assert(cot_view(cot@) =~= map![y.id => seedv]);
        let mut stop: usize = targets[0].id;
        let mut t: usize = 1;
        assert(ts.take(1) =~= seq![ts[0]]);
        while t < targets.len()
            invariant
                1 <= t <= targets@.len(),
                ts == vals_view(targets@),
                stop as int == min_id(ts.take(t as int)),
            decreases targets.len() - t,
        {
            assert(ts.take(t + 1).drop_last() =~= ts.take(t as int));
            if targets[t].id < stop {
                stop = targets[t].id;
            }
            t = t + 1;
        }
        assert(ts.take(t as int) =~= ts);
        let ghost start = cot_view(cot@);
        let mut id: usize = y.id;
        while id > stop
            invariant
                self.wf(),
                self.inputs == old(self).inputs,
                self.rng == old(self).rng,
                grows(old(self).nodes@, self.nodes@),
                g0 == old(self).graph(),
                ts == vals_view(targets@),
                stop as int == min_id(ts),
                seedv == seed@,
                start == map![y.id => seedv],
                sweep_val(g0, start, y.id as int, stop as int) == sweep_val(self.graph(), cot_view(cot@), id as int, stop as int),
            decreases id,
        {
            match self.sweep_step(&mut cot, id, stop) {
                Err(e) => {
                    return Err(e);
                },
                Ok(()) => {},
            }
            id = id - 1;
        }
        let ghost g1 = self.graph();
        let ghost cot1 = cot_view(cot@);
        let mut out: Vec<Val> = Vec::new();
        let mut j: usize = 0;
        assert(vals_view(out@) =~= seq![]);
        while j < targets.len()
            invariant
                j <= targets@.len(),
                ts == vals_view(targets@),
                self.wf(),
                self.inputs == old(self).inputs,
                self.rng == old(self).rng,
                grows(old(self).nodes@, self.nodes@),
                cot1 == cot_view(cot@),
                grads_val(g1, cot1, ts, 0).0 == grads_val(self.graph(), cot1, ts, j as int).0,
                grads_val(g1, cot1, ts, 0).1 == vals_view(out@) + grads_val(self.graph(), cot1, ts, j as int).1,
            decreases targets.len() - j,
        {
            let target = &targets[j];
            assert(ts[j as int] == target@);
            let ghost before = out@;
            let v = match cot.get(&target.id) {
                Some(c) => {
                    assert(cot1.contains_key(target.id) && cot1[target.id] == c@);
                    val_copy(c)
                },
                None => {
                    assert(!cot1.contains_key(target.id));
                    self.zeros_like(target)
                },
            };
            let ghost vv = v@;
            out.push(v);
            assert(vals_view(out@) =~= vals_view(before).push(vv));
            let ghost rest = grads_val(self.graph(), cot1, ts, j + 1).1;
            assert(vals_view(before) + (seq![vv] + rest) =~= vals_view(out@) + rest);
            j = j + 1;
        }
        assert(vals_view(out@) + grads_val(self.graph(), cot1, ts, j as int).1 =~= vals_view(out@));
        Ok(out)
    }
}


proof fn lemma_extent_sum_mono(nodes: Seq<NodeV>, ins: Seq<usize>, dim: usize, j: int, k: int)
    requires
        0 <= j <= k,
        forall|m: int| 0 <= m < ins.len() ==> dim < #[trigger] nodes[ins[m] as int].shape.len(),
    ensures
        extent_sum(nodes, ins, dim, j) >= extent_sum(nodes, ins, dim, k),
        extent_sum(nodes, ins, dim, k) >= 0,
    decreases ins.len() - j,
{
    if j < ins.len() {
        if j < k {
            lemma_extent_sum_mono(nodes, ins, dim, j + 1, k);
        } else {
            lemma_extent_sum_mono(nodes, ins, dim, j + 1, k + 1);
        }
    }
}

impl Tracer {
    /// Whether the operands of a concatenation all have dimension `dim`, and their extents
    /// along it sum to at most `usize::MAX`.
    fn concat_ready(&self, ins: &Vec<usize>, dim: usize) -> (r: bool)
        requires
            forall|j: int| 0 <= j < ins@.len() ==> #[trigger] ins@[j] < self.nodes@.len(),
        ensures
            r == ((forall|j: int| 0 <= j < ins@.len() ==> dim < #[trigger] self.graph().nodes[ins@[j] as int].shape.len())
                && extent_sum(self.graph().nodes, ins@, dim, 0) <= usize::MAX),
    {
        let ghost nodes = self.graph().nodes;
        let mut j: usize = 0;
        while j < ins.len()
            invariant
                j <= ins@.len(),
                nodes == self.graph().nodes,
                forall|m: int| 0 <= m < ins@.len() ==> #[trigger] ins@[m] < self.nodes@.len(),
                forall|m: int| 0 <= m < j ==> dim < #[trigger] nodes[ins@[m] as int].shape.len(),
            decreases ins.len() - j,
        {
            if dim >= self.nodes[ins[j]].shape.len() {
                assert(nodes[ins@[j as int] as int].shape == self.nodes@[ins@[j as int] as int].shape@);
                return false;
            }
            j = j + 1;
        }
        let mut acc: usize = 0;
        let mut k: usize = ins.len();
        while k > 0
            invariant
                k <= ins@.len(),
                nodes == self.graph().nodes,
                forall|m: int| 0 <= m < ins@.len() ==> #[trigger] ins@[m] < self.nodes@.len(),
                forall|m: int| 0 <= m < ins@.len() ==> dim < #[trigger] nodes[ins@[m] as int].shape.len(),
                acc == extent_sum(nodes, ins@, dim, k as int),
            decreases k,
        {
            let ghost m = (k - 1) as int;
            assert(nodes[ins@[m] as int].shape == self.nodes@[ins@[m] as int].shape@);
            let e = self.nodes[ins[k - 1]].shape[dim];
            if acc > usize::MAX - e {
                proof {
                    lemma_extent_sum_mono(nodes, ins@, dim, 0, m);
                }
                return false;
            }
            acc = acc + e;
            k = k - 1;
        }
        true
    }

    /// Whether the gradient rule of node `id` can run on the cotangent `gv`.
    pub fn grad_ready_check(&self, id: usize, gv: &Val) -> (r: bool)
        ensures
            r == grad_ready(self.graph(), id, gv@),
    {
        reveal(grad_ready);
        let ghost g = self.graph();
        let n = self.nodes.len();
        if id >= n {
            return false;
        }
        let node = &self.nodes[id];
        let ins = &node.inputs;
        assert(g.nodes[id as int] == node@);
        let mut j: usize = 0;
        while j < ins.len()
            invariant
                j <= ins@.len(),
                n == self.nodes@.len(),
                g == self.graph(),
                g.nodes.len() == n,
                id < n,
                g.nodes[id as int].inputs == ins@,
                forall|m: int| 0 <= m < j ==> #[trigger] ins@[m] < n,
            decreases ins.len() - j,
        {
            if ins[j] >= n {
                assert(g.nodes[id as int].inputs[j as int] >= g.nodes.len());
                proof {
                    reveal(grad_ready);
                }
                return false;
            }
            j = j + 1;
        }
        match &node.kind {
            OpKind::Ewise(_) => ins.len() >= 2,
            OpKind::Unary(_) => ins.len() >= 1,
            OpKind::Convert => ins.len() >= 1,
            OpKind::Broadcast(_) => ins.len() >= 1,
            OpKind::Reshape => ins.len() >= 1,
            OpKind::Reduce(_, _) => ins.len() >= 1,
            OpKind::Select => ins.len() >= 3,
            OpKind::Slice(dim, _, _) => {
                if ins.len() < 1 {
                    return false;
                }
                assert(g.nodes[ins@[0] as int].shape == self.nodes@[ins@[0] as int].shape@);
                *dim < self.nodes[ins[0]].shape.len()
            },
            OpKind::Concat(dim) => self.concat_ready(ins, *dim),
            OpKind::Dot(lb, _, lc, rc) => {
                if ins.len() < 2 {
                    return false;
                }
                let sa = &self.nodes[ins[0]].shape;
                let sb = &self.nodes[ins[1]].shape;
                assert(g.nodes[ins@[0] as int].shape == sa@);
                assert(g.nodes[ins@[1] as int].shape == sb@);
                if sa.len() < 1 {
                    return false;
                }
                let matmul = lc.len() == 1 && lc[0] == sa.len() - 1 && rc.len() == 1 && rc[0] == lb.len();
                assert(matmul == (lc@ == seq![(sa@.len() - 1) as usize] && rc@ == seq![lb@.len() as usize])) by {
                    if lc@.len() == 1 {
                        assert(lc@ == seq![lc@[0]] ==> true);
                        if lc@[0] == sa@.len() - 1 {
                            assert(lc@ =~= seq![(sa@.len() - 1) as usize]);
                        }
                    }
                    if rc@.len() == 1 && rc@[0] == lb@.len() {
                        assert(rc@ =~= seq![lb@.len() as usize]);
                    }
                }
                if !matmul {
                    return true;
                }
                if sa.len() < lb.len() || sb.len() < lb.len() {
                    return false;
                }
                let ka = sa.len() - lb.len();
                let kb = sb.len() - lb.len();
                if ka == 2 && (kb == 2 || kb == 1) {
                    gv.shape.len() >= lb.len()
                } else {
                    true
                }
            },
            _ => true,
        }
    }
}

} // verus!
