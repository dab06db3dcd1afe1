use vstd::prelude::*;

use crate::algos::{cumsum_spec, iota_along_val};
use crate::batch::{bmatmul_val, per_of};
use crate::grad::{cos_grad, number_lit};
use crate::lexer::{Tok, TokV};
use crate::parser::{cmp_dir, p_add_sub, p_expr, tok_at, ExprV};
use crate::text::{best_from, rank_of};
use crate::image::{lemma_unfilter_len, paeth_spec, recon_byte, unfilter};
use crate::graph::{BValV, Dtype, NodeV, OpKindV, ValV};
use crate::trace::{
    broadcast_val, constant_val, convert_val, dtype_align, emit_val, ewise_val, graph_ok,
    law_emit_answers, select_val, shape_align, unary_val, zero_text, zeros_val, GraphV,
};

verus! {

/// Whether `g2` keeps every node of `g` at its id, as a graph the tracer accepts.
pub open spec fn extends(g: GraphV, g2: GraphV) -> bool {
    &&& graph_ok(g2)
    &&& g.nodes.len() <= g2.nodes.len()
    &&& forall|i: int| 0 <= i < g.nodes.len() ==> #[trigger] g2.nodes[i] == g.nodes[i]
}

/// What a comparison of direction `d` says of `a` and `b`: `LT` is `a < b`, `GT` is
/// `a > b`, `LE` is `a <= b`, `GE` is `a >= b`, `EQ` is `a == b` and `NE` is `a != b`.
pub open spec fn compare_holds(d: Seq<char>, a: int, b: int) -> bool {
    if d == seq!['L', 'T'] {
        a < b
    } else if d == seq!['G', 'T'] {
        a > b
    } else if d == seq!['L', 'E'] {
        a <= b
    } else if d == seq!['G', 'E'] {
        a >= b
    } else if d == seq!['E', 'Q'] {
        a == b
    } else if d == seq!['N', 'E'] {
        a != b
    } else {
        false
    }
}

proof fn lemma_extends_trans(a: GraphV, b: GraphV, c: GraphV)
    requires
        extends(a, b),
        extends(b, c),
    ensures
        extends(a, c),
{
    assert forall|i: int| 0 <= i < a.nodes.len() implies #[trigger] c.nodes[i] == a.nodes[i] by {
        assert(c.nodes[i] == b.nodes[i]);
    }
}

proof fn lemma_emit(g: GraphV, n: NodeV)
    requires
        graph_ok(g),
        g.nodes.len() < usize::MAX,
    ensures
        extends(g, emit_val(g, n).0),
        emit_val(g, n).0.nodes.len() <= g.nodes.len() + 1,
        emit_val(g, n).1.id < emit_val(g, n).0.nodes.len(),
        emit_val(g, n).0.nodes[emit_val(g, n).1.id as int] == n,
        emit_val(g, n).1.shape == n.shape,
        emit_val(g, n).1.dtype == n.dtype,
{
    law_emit_answers(g, n);
    let g2 = emit_val(g, n).0;
    assert forall|i: int| 0 <= i < g.nodes.len() implies #[trigger] g2.nodes[i] == g.nodes[i] by {
        assert(g2.nodes.take(g.nodes.len() as int)[i] == g2.nodes[i]);
    }
}

proof fn lemma_convert(g: GraphV, v: ValV, dtype: Dtype)
    requires
        graph_ok(g),
        g.nodes.len() < usize::MAX,
    ensures
        extends(g, convert_val(g, v, dtype).0),
        convert_val(g, v, dtype).0.nodes.len() <= g.nodes.len() + 1,
        convert_val(g, v, dtype).1.shape == v.shape,
{
    if v.dtype != dtype {
        lemma_emit(g, NodeV { kind: OpKindV::Convert, inputs: seq![v.id], shape: v.shape, dtype });
    }
}

proof fn lemma_broadcast(g: GraphV, v: ValV, shape: Seq<usize>)
    requires
        graph_ok(g),
        g.nodes.len() < usize::MAX,
    ensures
        extends(g, broadcast_val(g, v, shape).0),
        broadcast_val(g, v, shape).0.nodes.len() <= g.nodes.len() + 1,
        broadcast_val(g, v, shape).1.id < broadcast_val(g, v, shape).0.nodes.len(),
        broadcast_val(g, v, shape).0.nodes[broadcast_val(g, v, shape).1.id as int].kind is Broadcast,
        broadcast_val(g, v, shape).0.nodes[broadcast_val(g, v, shape).1.id as int].inputs == seq![v.id],
{
    lemma_emit(
        g,
        NodeV {
            kind: OpKindV::Broadcast(crate::trace::trailing_dims(v.shape.len(), shape.len())),
            inputs: seq![v.id],
            shape,
            dtype: v.dtype,
        },
    );
}

proof fn lemma_ewise(g: GraphV, name: Seq<char>, a: ValV, b: ValV)
    requires
        graph_ok(g),
        g.nodes.len() + 3 <= usize::MAX,
    ensures
        ewise_val(g, name, a, b) matches Ok((g2, v)) ==> {
            &&& extends(g, g2)
            &&& g2.nodes.len() <= g.nodes.len() + 3
            &&& v.id < g2.nodes.len()
            &&& g2.nodes[v.id as int].kind == OpKindV::Ewise(name)
        },
{
    if ewise_val(g, name, a, b) is Ok {
        let (g1, a1, b1) = dtype_align(g, a, b);
        if a.dtype != b.dtype {
            if a.shape.len() == 0 {
                lemma_convert(g, a, b.dtype);
            } else {
                lemma_convert(g, b, a.dtype);
            }
        }
        let (g2, a2, b2) = shape_align(g1, a1, b1);
        if a1.shape != b1.shape {
            if a1.shape.len() <= b1.shape.len() && crate::graph::ends_with(b1.shape, a1.shape) {
                lemma_broadcast(g1, a1, b1.shape);
            } else {
                lemma_broadcast(g1, b1, a1.shape);
            }
            lemma_extends_trans(g, g1, g2);
        }
        let n = NodeV { kind: OpKindV::Ewise(name), inputs: seq![a2.id, b2.id], shape: a2.shape, dtype: a2.dtype };
        lemma_emit(g2, n);
        lemma_extends_trans(g, g2, emit_val(g2, n).0);
    }
}

/// The gradient rule of a cosine: the contribution to its operand `a` from the cotangent
/// `gv` is minus the product of `gv` and the sine of `a`, since the derivative of `cos x`
/// is `-sin x`. The result is a negation node whose operand is the product of `gv` with
/// a sine node of `a`.
pub proof fn law_cos_grad(g: GraphV, a: ValV, gv: ValV)
    requires
        graph_ok(g),
        g.nodes.len() + 8 <= usize::MAX,
    ensures
        cos_grad(g, a, gv) matches Ok((g2, c)) ==> {
            let (g1, sn) = unary_val(g, "sine"@, a);
            let prod = ewise_val(g1, "multiply"@, gv, sn);
            &&& prod is Ok
            &&& g2.nodes[sn.id as int] == (NodeV {
                kind: OpKindV::Unary("sine"@),
                inputs: seq![a.id],
                shape: a.shape,
                dtype: a.dtype,
            })
            &&& g2.nodes[prod->Ok_0.1.id as int].kind == OpKindV::Ewise("multiply"@)
            &&& g2.nodes[c.id as int] == (NodeV {
                kind: OpKindV::Unary("negate"@),
                inputs: seq![prod->Ok_0.1.id],
                shape: prod->Ok_0.1.shape,
                dtype: prod->Ok_0.1.dtype,
            })
        },
{
    let sn_node = NodeV { kind: OpKindV::Unary("sine"@), inputs: seq![a.id], shape: a.shape, dtype: a.dtype };
    lemma_emit(g, sn_node);
    let (g1, sn) = unary_val(g, "sine"@, a);
    lemma_ewise(g1, "multiply"@, gv, sn);
    if let Ok((gp, pv)) = ewise_val(g1, "multiply"@, gv, sn) {
        lemma_extends_trans(g, g1, gp);
        let neg = NodeV { kind: OpKindV::Unary("negate"@), inputs: seq![pv.id], shape: pv.shape, dtype: pv.dtype };
        lemma_emit(gp, neg);
        let g2 = emit_val(gp, neg).0;
        assert(g2.nodes[sn.id as int] == gp.nodes[sn.id as int]);
        assert(gp.nodes[sn.id as int] == g1.nodes[sn.id as int]);
        assert(g2.nodes[pv.id as int] == gp.nodes[pv.id as int]);
    }
}


proof fn lemma_iota_along(g: GraphV, shape: Seq<usize>, dim: usize, dtype: Dtype)
    requires
        graph_ok(g),
        g.nodes.len() + 3 <= usize::MAX,
        dim < shape.len(),
    ensures
        extends(g, iota_along_val(g, shape, dim, dtype).0),
        iota_along_val(g, shape, dim, dtype).0.nodes.len() <= g.nodes.len() + 3,
{
    let n0 = NodeV { kind: OpKindV::Iota, inputs: seq![], shape: seq![shape[dim as int]], dtype: Dtype::F32 };
    lemma_emit(g, n0);
    let (g1, idx) = emit_val(g, n0);
    lemma_convert(g1, idx, dtype);
    let (g2, idx2) = convert_val(g1, idx, dtype);
    lemma_extends_trans(g, g1, g2);
    if shape.len() != 1 {
        let nb = NodeV { kind: OpKindV::Broadcast(seq![dim]), inputs: seq![idx2.id], shape, dtype: idx2.dtype };
        lemma_emit(g2, nb);
        lemma_extends_trans(g, g2, emit_val(g2, nb).0);
    }
}

/// The running sums of a vector `v` of `n` elements are its product with the lower
/// triangle of ones: the `n` by `n` matrix whose entry `(i, j)` is 1 exactly when
/// `j <= i` and 0 otherwise, so that entry `i` of the sums takes `v[j]` for every
/// `j <= i`, `v[i]` itself included. The triangle is a selection, by the comparison of
/// the column position `j` with the row position `i`, between broadcast ones and
/// broadcast zeros; the function returns the graph before the product, the triangle,
/// the comparison's node and direction, and the nodes of the ones and the zeros.
pub proof fn law_cumsum_inclusive(g: GraphV, v: BValV) -> (r: (GraphV, ValV, int, Seq<char>, int, int))
    requires
        graph_ok(g),
        g.nodes.len() + 16 <= usize::MAX,
        per_of(v).len() == 1,
    ensures
        ({
            let (gt, tri, m, d, o, z) = r;
            let n = per_of(v)[0];
            let dt = v.val.dtype;
            let (g1, ri) = iota_along_val(g, seq![n, n], 0, dt);
            let (g2, ci) = iota_along_val(g1, seq![n, n], 1, dt);
            &&& cumsum_spec(g, v) == bmatmul_val(gt, BValV { val: tri, bdims: 0 }, v)
            &&& extends(g2, gt)
            &&& 0 <= tri.id < gt.nodes.len()
            &&& gt.nodes[tri.id as int].kind == OpKindV::Select
            &&& gt.nodes[tri.id as int].inputs == seq![m as usize, o as usize, z as usize]
            &&& 0 <= m < gt.nodes.len() && 0 <= o < gt.nodes.len() && 0 <= z < gt.nodes.len()
            &&& gt.nodes[m] == (NodeV { kind: OpKindV::Compare(d), inputs: seq![ci.id, ri.id], shape: seq![n, n], dtype: Dtype::I1 })
            &&& forall|i: int, j: int| compare_holds(d, j, i) <==> j <= i
            &&& gt.nodes[o].kind is Broadcast && gt.nodes[o].inputs.len() == 1
            &&& gt.nodes[gt.nodes[o].inputs[0] as int].kind == OpKindV::Constant(number_lit(dt, "1"@, "1.0"@))
            &&& gt.nodes[z].kind is Broadcast && gt.nodes[z].inputs.len() == 1
            &&& gt.nodes[gt.nodes[z].inputs[0] as int].kind == OpKindV::Constant(zero_text(dt))
        }),
{
    reveal_strlit("LE");
    let n = per_of(v)[0];
    let dt = v.val.dtype;
    lemma_iota_along(g, seq![n, n], 0, dt);
    let (g1, ri) = iota_along_val(g, seq![n, n], 0, dt);
    lemma_iota_along(g1, seq![n, n], 1, dt);
    let (g2, ci) = iota_along_val(g1, seq![n, n], 1, dt);
    let mn = NodeV { kind: OpKindV::Compare("LE"@), inputs: seq![ci.id, ri.id], shape: seq![n, n], dtype: Dtype::I1 };
    lemma_emit(g2, mn);
    let (g3, mask) = emit_val(g2, mn);
    let cn = NodeV { kind: OpKindV::Constant(number_lit(dt, "1"@, "1.0"@)), inputs: seq![], shape: seq![], dtype: dt };
    lemma_emit(g3, cn);
    let (g4, one) = constant_val(g3, number_lit(dt, "1"@, "1.0"@), dt);
    lemma_broadcast(g4, one, seq![n, n]);
    let (g5, one_b) = broadcast_val(g4, one, seq![n, n]);
    let zn = NodeV { kind: OpKindV::Constant(zero_text(dt)), inputs: seq![], shape: seq![], dtype: dt };
    lemma_emit(g5, zn);
    let (g5a, zc) = constant_val(g5, zero_text(dt), dt);
    lemma_broadcast(g5a, zc, seq![n, n]);
    let (g6, zero_b) = zeros_val(g5, seq![n, n], dt);
    let sn = NodeV {
        kind: OpKindV::Select,
        inputs: seq![mask.id, one_b.id, zero_b.id],
        shape: one_b.shape,
        dtype: one_b.dtype,
    };
    lemma_emit(g6, sn);
    let (g7, tri) = select_val(g6, mask, one_b, zero_b);
    lemma_extends_trans(g2, g3, g4);
    lemma_extends_trans(g2, g4, g5);
    lemma_extends_trans(g2, g5, g5a);
    lemma_extends_trans(g2, g5a, g6);
    lemma_extends_trans(g2, g6, g7);
    lemma_extends_trans(g3, g4, g5);
    lemma_extends_trans(g3, g5, g5a);
    lemma_extends_trans(g3, g5a, g6);
    lemma_extends_trans(g3, g6, g7);
    lemma_extends_trans(g4, g5, g5a);
    lemma_extends_trans(g4, g5a, g6);
    lemma_extends_trans(g4, g6, g7);
    lemma_extends_trans(g5, g5a, g6);
    lemma_extends_trans(g5, g6, g7);
    lemma_extends_trans(g5a, g6, g7);
    assert(g7.nodes[mask.id as int] == mn);
    assert(g7.nodes[one.id as int] == cn);
    assert(g7.nodes[zc.id as int] == zn);
    assert(cumsum_spec(g, v) == bmatmul_val(g7, BValV { val: tri, bdims: 0 }, v));
    assert(extends(g2, g7));
    assert(g7.nodes[tri.id as int].kind == OpKindV::Select);
    assert(g7.nodes[one_b.id as int].kind is Broadcast);
    assert(g7.nodes[one_b.id as int].inputs == seq![one.id]);
    assert(g7.nodes[zero_b.id as int].inputs == seq![zc.id]);
    assert("LE"@ =~= seq!['L', 'E']);
    assert(seq!['L', 'E'][1] != seq!['L', 'T'][1]);
    assert(seq!['L', 'E'][0] != seq!['G', 'T'][0]);
    assert(forall|i: int, j: int| compare_holds("LE"@, j, i) <==> j <= i);
    (g7, tri, mask.id as int, "LE"@, one_b.id as int, zero_b.id as int)
}


/// What a comparison token of the source says of its operands `a` and `b`: `<` that
/// `a < b`, `>` that `a > b`, `<=` that `a <= b`, `>=` that `a >= b`, `==` that `a == b`
/// and `!=` that `a != b`.
pub open spec fn token_holds(t: TokV, a: int, b: int) -> bool {
    match t {
        Tok::Lt => a < b,
        Tok::Gt => a > b,
        Tok::Le => a <= b,
        Tok::Ge => a >= b,
        Tok::EqEq => a == b,
        Tok::Ne => a != b,
        _ => false,
    }
}

/// Whether a token is one of the six comparisons.
pub open spec fn is_comparison(t: TokV) -> bool {
    t is Lt || t is Gt || t is Le || t is Ge || t is EqEq || t is Ne
}

/// The parser gives each comparison token the direction with its meaning: the traced
/// comparison holds of two numbers exactly when the source comparison does, and only the
/// six comparison tokens name a direction.
pub proof fn law_comparison_directions(t: TokV, a: int, b: int)
    ensures
        cmp_dir(Some(t)) is Some <==> is_comparison(t),
        cmp_dir(Some(t)) matches Some(d) ==> (compare_holds(d, a, b) <==> token_holds(t, a, b)),
{
    assert(seq!['L', 'T'][0] != seq!['G', 'T'][0]);
    assert(seq!['L', 'E'][1] != seq!['L', 'T'][1]);
    assert(seq!['L', 'E'][0] != seq!['G', 'T'][0]);
    assert(seq!['G', 'E'][1] != seq!['G', 'T'][1]);
    assert(seq!['G', 'E'][0] != seq!['L', 'T'][0]);
    assert(seq!['G', 'E'][0] != seq!['L', 'E'][0]);
    assert(seq!['E', 'Q'][0] != seq!['L', 'T'][0]);
    assert(seq!['E', 'Q'][0] != seq!['G', 'T'][0]);
    assert(seq!['E', 'Q'][0] != seq!['L', 'E'][0]);
    assert(seq!['E', 'Q'][0] != seq!['G', 'E'][0]);
    assert(seq!['N', 'E'][0] != seq!['L', 'T'][0]);
    assert(seq!['N', 'E'][0] != seq!['G', 'T'][0]);
    assert(seq!['N', 'E'][0] != seq!['L', 'E'][0]);
    assert(seq!['N', 'E'][0] != seq!['G', 'E'][0]);
    assert(seq!['N', 'E'][0] != seq!['E', 'Q'][0]);
}


/// The merge rank of the adjacent pair of `parts` at `q`.
pub open spec fn pair_rank(ranks: Seq<(Seq<char>, Seq<char>)>, parts: Seq<Seq<char>>, q: int) -> Option<nat> {
    rank_of(ranks, parts[q], parts[q + 1])
}

/// Whether `best` is the leftmost lowest-ranked pair among the pairs before `p`.
pub open spec fn best_before(
    ranks: Seq<(Seq<char>, Seq<char>)>,
    parts: Seq<Seq<char>>,
    p: int,
    best: Option<(nat, int)>,
) -> bool {
    match best {
        None => forall|q: int| 0 <= q < p && q + 1 < parts.len() ==> #[trigger] pair_rank(ranks, parts, q) is None,
        Some((r, b)) => {
            &&& 0 <= b < p
            &&& b + 1 < parts.len()
            &&& pair_rank(ranks, parts, b) == Some(r)
            &&& forall|q: int|
                0 <= q < p && q + 1 < parts.len() ==> (#[trigger] pair_rank(ranks, parts, q) matches Some(rq) ==> r <= rq)
            &&& forall|q: int| 0 <= q < b ==> (#[trigger] pair_rank(ranks, parts, q) matches Some(rq) ==> r < rq)
        },
    }
}

proof fn lemma_best_before(
    ranks: Seq<(Seq<char>, Seq<char>)>,
    parts: Seq<Seq<char>>,
    p: int,
    best: Option<(nat, int)>,
)
    requires
        0 <= p,
        best_before(ranks, parts, p, best),
    ensures
        best_before(ranks, parts, parts.len() as int, best_from(parts, ranks, p, best)),
    decreases parts.len() - p,
{
    if p + 1 >= parts.len() {
        assert(best_from(parts, ranks, p, best) == best);
        match best {
            None => {
                assert forall|q: int| 0 <= q < parts.len() && q + 1 < parts.len() implies #[trigger] pair_rank(ranks, parts, q)
                    is None by {
                    assert(q < p);
                }
            },
            Some((r, b)) => {
                assert forall|q: int|
                    0 <= q < parts.len() && q + 1 < parts.len() implies (#[trigger] pair_rank(ranks, parts, q) matches Some(
                    rq) ==> r <= rq) by {
                    assert(q < p);
                }
            },
        }
    } else {
        let nb = match rank_of(ranks, parts[p], parts[p + 1]) {
            Some(r) => match best {
                Some((br, bp)) => if r < br { Some((r, p)) } else { best },
                None => Some((r, p)),
            },
            None => best,
        };
        assert(best_from(parts, ranks, p, best) == best_from(parts, ranks, p + 1, nb));
        assert(pair_rank(ranks, parts, p) == rank_of(ranks, parts[p], parts[p + 1]));
        match nb {
            None => {
                assert forall|q: int| 0 <= q < p + 1 && q + 1 < parts.len() implies #[trigger] pair_rank(ranks, parts, q)
                    is None by {
                    if q < p {
                        assert(best is None);
                    }
                }
            },
            Some((r, b)) => {
                assert forall|q: int|
                    0 <= q < p + 1 && q + 1 < parts.len() implies (#[trigger] pair_rank(ranks, parts, q) matches Some(
                    rq) ==> r <= rq) by {
                    if q < p {
                        match best {
                            Some((br, bp)) => {
                                assert(pair_rank(ranks, parts, q) matches Some(rq) ==> br <= rq);
                            },
                            None => {},
                        }
                    }
                }
                assert forall|q: int| 0 <= q < b implies (#[trigger] pair_rank(ranks, parts, q) matches Some(rq) ==> r < rq) by {
                    if b == p && q < p {
                        match best {
                            Some((br, bp)) => {
                                assert(pair_rank(ranks, parts, q) matches Some(rq) ==> br <= rq);
                            },
                            None => {
                                assert(pair_rank(ranks, parts, q) is None);
                            },
                        }
                    }
                }
            },
        }
        lemma_best_before(ranks, parts, p + 1, nb);
    }
}

/// The pair a byte-level BPE merge step joins: among the adjacent pairs that have a merge
/// rank, one of the lowest rank, and of those the leftmost; no pair is joined only when
/// no adjacent pair has a rank.
pub proof fn law_best_pair(parts: Seq<Seq<char>>, ranks: Seq<(Seq<char>, Seq<char>)>)
    ensures
        match best_from(parts, ranks, 0, None) {
            Some((r, p)) => {
                &&& 0 <= p && p + 1 < parts.len()
                &&& rank_of(ranks, parts[p], parts[p + 1]) == Some(r)
                &&& forall|q: int|
                    0 <= q && q + 1 < parts.len() ==> (#[trigger] rank_of(ranks, parts[q], parts[q + 1]) matches Some(rq)
                        ==> r <= rq)
                &&& forall|q: int| 0 <= q < p ==> (#[trigger] rank_of(ranks, parts[q], parts[q + 1]) matches Some(rq) ==> r < rq)
            },
            None => forall|q: int| 0 <= q && q + 1 < parts.len() ==> #[trigger] rank_of(ranks, parts[q], parts[q + 1]) is None,
        },
{
    lemma_best_before(ranks, parts, 0, None);
    let res = best_from(parts, ranks, 0, None);
    match res {
        Some((r, p)) => {
            assert forall|q: int|
                0 <= q && q + 1 < parts.len() implies (#[trigger] rank_of(ranks, parts[q], parts[q + 1]) matches Some(rq)
                ==> r <= rq) by {
                assert(pair_rank(ranks, parts, q) == rank_of(ranks, parts[q], parts[q + 1]));
            }
            assert forall|q: int| 0 <= q < p implies (#[trigger] rank_of(ranks, parts[q], parts[q + 1]) matches Some(rq)
                ==> r < rq) by {
                assert(pair_rank(ranks, parts, q) == rank_of(ranks, parts[q], parts[q + 1]));
            }
        },
        None => {
            assert forall|q: int| 0 <= q && q + 1 < parts.len() implies #[trigger] rank_of(ranks, parts[q], parts[q + 1])
                is None by {
                assert(pair_rank(ranks, parts, q) == rank_of(ranks, parts[q], parts[q + 1]));
            }
        },
    }
}


proof fn lemma_unfilter_prefix(raw: Seq<u8>, stride: int, bpp: int, yy: nat, xx: nat, y: int, x: int)
    requires
        stride >= 1,
        xx <= stride,
        0 <= y,
        0 <= x < stride,
        y < yy || (y == yy && x < xx),
        unfilter(raw, stride, bpp, yy, xx) is Ok,
    ensures
        unfilter(raw, stride, bpp, y as nat, (x + 1) as nat) is Ok,
        unfilter(raw, stride, bpp, y as nat, (x + 1) as nat)->Ok_0 == unfilter(raw, stride, bpp, yy, xx)->Ok_0.take(
            y * stride + x + 1,
        ),
    decreases yy, xx,
{
    if xx == 0 {
        lemma_unfilter_prefix(raw, stride, bpp, (yy - 1) as nat, stride as nat, y, x);
    } else {
        let out = unfilter(raw, stride, bpp, yy, xx)->Ok_0;
        lemma_unfilter_len(raw, stride, bpp, yy, xx);
        lemma_unfilter_len(raw, stride, bpp, yy, (xx - 1) as nat);
        let prev = unfilter(raw, stride, bpp, yy, (xx - 1) as nat)->Ok_0;
        assert(out == prev.push(out.last()));
        if y == yy && x == xx - 1 {
            assert(out.take(y * stride + x + 1) =~= out);
        } else {
            lemma_unfilter_prefix(raw, stride, bpp, yy, (xx - 1) as nat, y, x);
            if y < yy {
                assert(y * stride + stride <= yy * stride) by (nonlinear_arith)
                    requires
                        y + 1 <= yy,
                        stride >= 1,
                ;
            }
            assert(y * stride + x + 1 <= yy * stride + xx - 1);
            assert(prev.take(y * stride + x + 1) =~= out.take(y * stride + x + 1));
        }
    }
}

/// Decoding a PNG reverses each scanline's filter as the PNG specification defines it:
/// each reconstructed byte is the filtered byte plus, modulo 256, nothing (type 0), the
/// byte to its left (type 1), the byte above (type 2), the floor of the mean of those
/// two (type 3), or their Paeth predictor with the byte above-left (type 4); the left and
/// above bytes are reconstructed ones, `bpp` bytes back and one row up, and 0 off the
/// image.
pub proof fn law_png_filters(raw: Seq<u8>, stride: int, bpp: int, h: nat, y: int, x: int)
    requires
        stride >= 1,
        bpp >= 1,
        0 <= y < h,
        0 <= x < stride,
        unfilter(raw, stride, bpp, h, 0) is Ok,
    ensures
        ({
            let out = unfilter(raw, stride, bpp, h, 0)->Ok_0;
            let i = y * stride + x;
            let f = raw[y * (stride + 1)];
            let cur = raw[y * (stride + 1) + 1 + x] as int;
            let left: int = if x >= bpp { out[i - bpp] as int } else { 0 };
            let up: int = if y > 0 { out[i - stride] as int } else { 0 };
            let corner: int = if x >= bpp && y > 0 { out[i - stride - bpp] as int } else { 0 };
            &&& 0 <= i < out.len()
            &&& f <= 4
            &&& f == 0 ==> out[i] as int == cur
            &&& f == 1 ==> out[i] as int == (cur + left) % 256
            &&& f == 2 ==> out[i] as int == (cur + up) % 256
            &&& f == 3 ==> out[i] as int == (cur + (left + up) / 2) % 256
            &&& f == 4 ==> out[i] as int == (cur + paeth_spec(left, up, corner)) % 256
        }),
{
    let out = unfilter(raw, stride, bpp, h, 0)->Ok_0;
    lemma_unfilter_prefix(raw, stride, bpp, h, 0, y, x);
    lemma_unfilter_len(raw, stride, bpp, h, 0);
    lemma_unfilter_len(raw, stride, bpp, y as nat, x as nat);
    lemma_unfilter_len(raw, stride, bpp, y as nat, (x + 1) as nat);
    let i = y * stride + x;
    assert(i + 1 <= h * stride) by (nonlinear_arith)
        requires
            0 <= y < h,
            0 <= x < stride,
            i == y * stride + x,
    ;
    assert(0 <= i) by (nonlinear_arith)
        requires
            0 <= y,
            0 <= x,
            stride >= 1,
            i == y * stride + x,
    ;
    let u = unfilter(raw, stride, bpp, y as nat, (x + 1) as nat)->Ok_0;
    let lines = unfilter(raw, stride, bpp, y as nat, x as nat)->Ok_0;
    assert(u == out.take(i + 1));
    assert(lines.len() == i);
    assert(u == lines.push(u[i]));
    assert(lines =~= out.take(i));
    assert(recon_byte(raw, lines, stride, bpp, y, x) == Some(u[i]));
    if y > 0 {
        assert(i >= stride + x) by (nonlinear_arith)
            requires
                y >= 1,
                x >= 0,
                stride >= 1,
                i == y * stride + x,
        ;
        assert(lines[i - stride] == out[i - stride]);
        if x >= bpp {
            assert(lines[i - stride - bpp] == out[i - stride - bpp]);
        }
    }
    if x >= bpp {
        assert(lines[i - bpp] == out[i - bpp]);
    }
}


/// A comparison in the source parses to a comparison of the two sums around its token,
/// in their order, whose direction holds of two numbers exactly when the token does.
pub proof fn law_parse_comparison(toks: Seq<TokV>, pos: int, a: int, b: int)
    ensures
        match p_add_sub(toks, pos) {
            Ok((l, p1)) => match tok_at(toks, p1) {
                Some(t) => (is_comparison(t) && pos <= p1 <= toks.len()) ==> match p_add_sub(toks, p1 + 1) {
                    Ok((r, p2)) => p_expr(toks, pos) matches Ok((ExprV::Cmp(d, lb, rb), q)) && *lb == l && *rb == r && q == p2
                        && (compare_holds(d, a, b) <==> token_holds(t, a, b)),
                    Err(_) => true,
                },
                None => true,
            },
            Err(_) => true,
        },
{
    if let Ok((l, p1)) = p_add_sub(toks, pos) {
        if let Some(t) = tok_at(toks, p1) {
            law_comparison_directions(t, a, b);
        }
    }
}

} // verus!
