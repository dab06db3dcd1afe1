use vstd::prelude::*;

use crate::emit::graph_wf;
use crate::graph::{
    broadcast_shape, broadcast_spec, copy_shape, law_broadcast_covers, per_shape, shapes_equal, BVal, BValV, Dtype,
    NodeV, OpKind, OpKindV, Val, ValV,
};
use crate::graph::texts_view;
use crate::trace::{
    broadcast_along_val, constant_val, convert_val, emit_val, reshape_val, unary_val, zero_text, GraphV, TraceError,
    TraceErrorV, Tracer, grows,
};

verus! {

/// The shape of one batch element of a batched value.
pub open spec fn per_of(v: BValV) -> Seq<usize> {
    v.val.shape.skip(v.bdims as int)
}

/// Of two batched values, the one with more batch dimensions (the first on a tie).
pub open spec fn deeper(a: BValV, b: BValV) -> BValV {
    if a.bdims >= b.bdims {
        a
    } else {
        b
    }
}

/// The batch dimensions two values are traced under: those of the deeper one.
pub open spec fn prefix_of(a: BValV, b: BValV) -> Seq<usize> {
    deeper(a, b).val.shape.take(deeper(a, b).bdims as int)
}

/// The positions `lo` up to (not including) `hi`.
pub open spec fn dim_range(lo: int, hi: int) -> Seq<usize> {
    Seq::new((hi - lo) as nat, |i: int| (lo + i) as usize)
}

/// The value broadcast to the batch dimensions `prefix` followed by the element shape
/// `per`: its batch dimensions land first, its element dimensions on the trailing ones. A
/// value already of that shape is itself.
pub open spec fn align_val(g: GraphV, v: BValV, prefix: Seq<usize>, per: Seq<usize>) -> (GraphV, ValV) {
    if v.val.shape == prefix + per {
        (g, v.val)
    } else {
        broadcast_along_val(
            g,
            v.val,
            prefix + per,
            dim_range(0, v.bdims as int) + dim_range(
                prefix.len() + per.len() - per_of(v).len(),
                (prefix.len() + per.len()) as int,
            ),
        )
    }
}

/// The dimensions of `s` among its first `n` whose positions are in neither `x` nor `y`.
pub open spec fn kept_upto(s: Seq<usize>, x: Seq<usize>, y: Seq<usize>, n: int) -> Seq<usize>
    decreases n,
{
    if n <= 0 {
        seq![]
    } else if x.contains((n - 1) as usize) || y.contains((n - 1) as usize) {
        kept_upto(s, x, y, n - 1)
    } else {
        kept_upto(s, x, y, n - 1).push(s[n - 1])
    }
}

/// The dimensions of `s` at the positions `idx`.
pub open spec fn picked(s: Seq<usize>, idx: Seq<usize>) -> Seq<usize> {
    Seq::new(idx.len(), |i: int| s[idx[i] as int])
}

/// The shape of a dot product: the batch dimensions, then the free dimensions of the left
/// operand, then those of the right one.
pub open spec fn dot_shape(
    a: Seq<usize>,
    b: Seq<usize>,
    lb: Seq<usize>,
    rb: Seq<usize>,
    lc: Seq<usize>,
    rc: Seq<usize>,
) -> Seq<usize> {
    picked(a, lb) + kept_upto(a, lb, lc, a.len() as int) + kept_upto(b, rb, rc, b.len() as int)
}

pub open spec fn dot_val(
    g: GraphV,
    a: ValV,
    b: ValV,
    lb: Seq<usize>,
    rb: Seq<usize>,
    lc: Seq<usize>,
    rc: Seq<usize>,
) -> (GraphV, ValV) {
    emit_val(
        g,
        NodeV { kind: OpKindV::Dot(lb, rb, lc, rc), inputs: seq![a.id, b.id], shape: dot_shape(a.shape, b.shape, lb, rb, lc, rc), dtype: a.dtype },
    )
}

/// A reduction over `axes`, starting from the literal `init`; no axes leave the value as
/// it is.
pub open spec fn reduce_val(g: GraphV, reducer: Seq<char>, init: Seq<char>, v: ValV, axes: Seq<usize>) -> (GraphV, ValV) {
    if axes.len() == 0 {
        (g, v)
    } else {
        let (g1, c) = constant_val(g, init, v.dtype);
        emit_val(
            g1,
            NodeV {
                kind: OpKindV::Reduce(reducer, axes),
                inputs: seq![v.id, c.id],
                shape: kept_upto(v.shape, axes, seq![], v.shape.len() as int),
                dtype: v.dtype,
            },
        )
    }
}


/// The operands in one element type: a value whose elements are scalars takes the other's
/// type.
pub open spec fn bdtype_align(g: GraphV, a: BValV, b: BValV) -> (GraphV, BValV, BValV) {
    if a.val.dtype == b.val.dtype {
        (g, a, b)
    } else if per_of(a).len() == 0 {
        (
            convert_val(g, a.val, b.val.dtype).0,
            BValV { val: convert_val(g, a.val, b.val.dtype).1, bdims: a.bdims },
            b,
        )
    } else {
        (
            convert_val(g, b.val, a.val.dtype).0,
            a,
            BValV { val: convert_val(g, b.val, a.val.dtype).1, bdims: b.bdims },
        )
    }
}

/// Two batched operands brought to one element type and one shape: the batch dimensions of
/// the deeper one followed by the broadcast of their element shapes. Also gives those batch
/// dimensions and that element shape.
pub open spec fn balign_val(g: GraphV, a: BValV, b: BValV) -> Result<
    (GraphV, ValV, ValV, Seq<usize>, Seq<usize>),
    TraceErrorV,
> {
    if !(a.val.dtype == b.val.dtype || per_of(a).len() == 0 || per_of(b).len() == 0) {
        Err(TraceError::DtypeMismatch(a.val.dtype, b.val.dtype))
    } else if broadcast_spec(per_of(a), per_of(b)) is None {
        Err(TraceError::ShapeMismatch(per_of(a), per_of(b)))
    } else {
        let (g1, a1, b1) = bdtype_align(g, a, b);
        let per = broadcast_spec(per_of(a), per_of(b))->0;
        let prefix = prefix_of(a, b);
        let (g2, av) = align_val(g1, a1, prefix, per);
        let (g3, bv) = align_val(g2, b1, prefix, per);
        Ok((g3, av, bv, prefix, per))
    }
}

/// A batched elementwise operation, on operands that are not booleans.
pub open spec fn bewise_val(g: GraphV, name: Seq<char>, a: BValV, b: BValV) -> Result<(GraphV, BValV), TraceErrorV> {
    if a.val.dtype == Dtype::I1 || b.val.dtype == Dtype::I1 {
        Err(TraceError::BooleanArithmetic(name))
    } else {
        match balign_val(g, a, b) {
            Err(e) => Err(e),
            Ok((g1, av, bv, prefix, per)) => {
                let (g2, v) = emit_val(
                    g1,
                    NodeV { kind: OpKindV::Ewise(name), inputs: seq![av.id, bv.id], shape: prefix + per, dtype: av.dtype },
                );
                Ok((g2, BValV { val: v, bdims: prefix.len() as usize }))
            },
        }
    }
}

/// A batched comparison, on operands that are not booleans.
pub open spec fn bcompare_val(g: GraphV, dir: Seq<char>, a: BValV, b: BValV) -> Result<(GraphV, BValV), TraceErrorV> {
    if a.val.dtype == Dtype::I1 || b.val.dtype == Dtype::I1 {
        Err(TraceError::BooleanComparison)
    } else {
        match balign_val(g, a, b) {
            Err(e) => Err(e),
            Ok((g1, av, bv, prefix, per)) => {
                let (g2, v) = emit_val(
                    g1,
                    NodeV { kind: OpKindV::Compare(dir), inputs: seq![av.id, bv.id], shape: prefix + per, dtype: Dtype::I1 },
                );
                Ok((g2, BValV { val: v, bdims: prefix.len() as usize }))
            },
        }
    }
}

/// Whether a batched value's batch dimensions are among its dimensions.
pub open spec fn bval_ok(v: BValV) -> bool {
    v.bdims <= v.val.shape.len()
}


/// The batch dimensions of a matrix shape: all but its last two.
pub open spec fn mat_batch(p: Seq<usize>) -> Seq<usize> {
    p.take(p.len() - 2)
}

/// The matrix dimensions of a shape: its last two.
pub open spec fn mat_core(p: Seq<usize>) -> Seq<usize> {
    p.skip(p.len() - 2)
}

/// The batch dimensions two matrix shapes share: those of the one that has any.
pub open spec fn shared_batch(pa: Seq<usize>, pb: Seq<usize>) -> Seq<usize> {
    if mat_batch(pa).len() == 0 {
        mat_batch(pb)
    } else {
        mat_batch(pa)
    }
}

/// Where an operand's dimensions land when it is lifted for a batched matrix product: its
/// batch dimensions first, then its element dimensions from `k` on where it has matrix batch
/// dimensions of its own, else its matrix dimensions from `nb` on.
pub open spec fn lift_dims(v: BValV, k: int, nb: int, has_batch: bool) -> Seq<usize> {
    if has_batch {
        dim_range(0, v.bdims as int) + dim_range(k, k + per_of(v).len())
    } else {
        dim_range(0, v.bdims as int) + dim_range(nb, nb + 2)
    }
}

pub open spec fn max_dims(a: usize, b: usize) -> usize {
    if a >= b {
        a
    } else {
        b
    }
}

/// A matrix product whose operands have matrix batch dimensions: both must be matrices,
/// their batch dimensions agree (or one has none) and their contracted dimensions match.
pub open spec fn batched_matmul_val(g: GraphV, a: BValV, b: BValV) -> Result<(GraphV, BValV), TraceErrorV> {
    let pa = per_of(a);
    let pb = per_of(b);
    if pa.len() == 1 || pb.len() == 1 {
        Err(TraceError::MatmulNotMatrices(pa, pb))
    } else if !(mat_batch(pa).len() == 0 || mat_batch(pb).len() == 0 || mat_batch(pa) == mat_batch(pb)) {
        Err(TraceError::MatmulBatchMismatch(pa, pb))
    } else if mat_core(pa)[1] != mat_core(pb)[0] {
        Err(TraceError::MatmulContraction(pa, pb))
    } else {
        let per_batch = shared_batch(pa, pb);
        let prefix = prefix_of(a, b);
        let k = prefix.len() as int;
        let nb = k + per_batch.len();
        let (g1, av) = broadcast_along_val(g, a.val, prefix + per_batch + mat_core(pa), lift_dims(a, k, nb, pa.len() > 2));
        let (g2, bv) = broadcast_along_val(g1, b.val, prefix + per_batch + mat_core(pb), lift_dims(b, k, nb, pb.len() > 2));
        let (g3, v) = dot_val(g2, av, bv, dim_range(0, nb), dim_range(0, nb), seq![(nb + 1) as usize], seq![nb as usize]);
        Ok((g3, BValV { val: v, bdims: max_dims(a.bdims, b.bdims) }))
    }
}

/// A batched matrix product: operands of one element type, neither a scalar; vectors and
/// matrices contract the last dimension of the left operand with the first of the right.
pub open spec fn bmatmul_val(g: GraphV, a: BValV, b: BValV) -> Result<(GraphV, BValV), TraceErrorV> {
    let pa = per_of(a);
    let pb = per_of(b);
    if a.val.dtype != b.val.dtype {
        Err(TraceError::MatmulDtype(a.val.dtype, b.val.dtype))
    } else if pa.len() == 0 || pb.len() == 0 {
        Err(TraceError::MatmulRank(pa, pb))
    } else if pa.len() > 2 || pb.len() > 2 {
        batched_matmul_val(g, a, b)
    } else if pa.last() != pb[0] {
        Err(TraceError::MatmulContraction(pa, pb))
    } else if a.bdims == 0 && b.bdims == 0 {
        let (g1, v) = dot_val(g, a.val, b.val, seq![], seq![], seq![(pa.len() - 1) as usize], seq![0usize]);
        Ok((g1, BValV { val: v, bdims: 0 }))
    } else {
        let prefix = prefix_of(a, b);
        let k = prefix.len() as int;
        let (g1, av) = align_val(g, a, prefix, pa);
        let (g2, bv) = align_val(g1, b, prefix, pb);
        let (g3, v) = dot_val(g2, av, bv, dim_range(0, k), dim_range(0, k), seq![(k + pa.len() - 1) as usize], seq![k as usize]);
        Ok((g3, BValV { val: v, bdims: k as usize }))
    }
}


pub open spec fn bvals_view(s: Seq<BVal>) -> Seq<BValV> {
    Seq::new(s.len(), |i: int| s[i]@)
}

pub open spec fn vals_view(s: Seq<Val>) -> Seq<ValV> {
    Seq::new(s.len(), |i: int| s[i]@)
}

pub open spec fn ids_of(s: Seq<ValV>) -> Seq<usize> {
    Seq::new(s.len(), |i: int| s[i].id)
}

/// The first element, from `i` on, whose element shape or type is not `inner` or `dtype`,
/// as the error it gives.
pub open spec fn stack_mismatch(vals: Seq<BValV>, inner: Seq<usize>, dtype: Dtype, i: int) -> Option<TraceErrorV>
    decreases vals.len() - i,
{
    if i < 0 || i >= vals.len() {
        None
    } else if per_of(vals[i]) != inner {
        Some(TraceError::StackShapes(inner, per_of(vals[i])))
    } else if vals[i].val.dtype != dtype {
        Some(TraceError::StackDtypes(dtype, vals[i].val.dtype))
    } else {
        stack_mismatch(vals, inner, dtype, i + 1)
    }
}

/// The literals of the first `n` elements, where each is an unbatched constant: a scalar
/// constant gives its literal, a dense constant its literals.
pub open spec fn const_texts(nodes: Seq<NodeV>, vals: Seq<BValV>, n: int) -> Option<Seq<Seq<char>>>
    decreases n,
{
    if n <= 0 {
        Some(seq![])
    } else {
        match const_texts(nodes, vals, n - 1) {
            None => None,
            Some(prev) => if vals[n - 1].bdims != 0 {
                None
            } else {
                match nodes[vals[n - 1].val.id as int].kind {
                    OpKindV::Constant(t) => Some(prev.push(t)),
                    OpKindV::DenseConst(ts) => Some(prev + ts),
                    _ => None,
                }
            },
        }
    }
}

/// The last of the first `n` elements with the most batch dimensions.
pub open spec fn deepest_upto(vals: Seq<BValV>, n: int) -> int
    decreases n,
{
    if n <= 1 {
        0
    } else if vals[n - 1].bdims >= vals[deepest_upto(vals, n - 1)].bdims {
        n - 1
    } else {
        deepest_upto(vals, n - 1)
    }
}

/// The first `n` elements, each aligned to the batch dimensions `prefix` and reshaped to one
/// row.
pub open spec fn rows_val(
    g: GraphV,
    vals: Seq<BValV>,
    prefix: Seq<usize>,
    inner: Seq<usize>,
    row_shape: Seq<usize>,
    n: int,
) -> (GraphV, Seq<ValV>)
    decreases n,
{
    if n <= 0 {
        (g, seq![])
    } else {
        let (g1, rows) = rows_val(g, vals, prefix, inner, row_shape, n - 1);
        let (g2, aligned) = align_val(g1, vals[n - 1], prefix, inner);
        let (g3, row) = reshape_val(g2, aligned, row_shape);
        (g3, rows.push(row))
    }
}

/// An array literal of its elements: all must share the element shape and type of the
/// first. Unbatched constants fold into one dense constant; otherwise each element is
/// aligned to the batch dimensions of the deepest, made a row, and the rows are
/// concatenated (a single row stands alone).
pub open spec fn stack_val(g: GraphV, vals: Seq<BValV>) -> Result<(GraphV, BValV), TraceErrorV> {
    let inner = per_of(vals[0]);
    let dtype = vals[0].val.dtype;
    if stack_mismatch(vals, inner, dtype, 1) is Some {
        Err(stack_mismatch(vals, inner, dtype, 1)->0)
    } else if const_texts(g.nodes, vals, vals.len() as int) is Some {
        let (g1, v) = emit_val(
            g,
            NodeV {
                kind: OpKindV::DenseConst(const_texts(g.nodes, vals, vals.len() as int)->0),
                inputs: seq![],
                shape: seq![vals.len() as usize] + inner,
                dtype,
            },
        );
        Ok((g1, BValV { val: v, bdims: 0 }))
    } else {
        let d = vals[deepest_upto(vals, vals.len() as int)];
        let prefix = d.val.shape.take(d.bdims as int);
        let k = prefix.len();
        let (g1, rows) = rows_val(g, vals, prefix, inner, prefix.push(1) + inner, vals.len() as int);
        if rows.len() == 1 {
            Ok((g1, BValV { val: rows[0], bdims: k as usize }))
        } else {
            let (g2, v) = emit_val(
                g1,
                NodeV { kind: OpKindV::Concat(k as usize), inputs: ids_of(rows), shape: prefix.push(vals.len() as usize) + inner, dtype },
            );
            Ok((g2, BValV { val: v, bdims: k as usize }))
        }
    }
}

proof fn lemma_const_texts_none(nodes: Seq<NodeV>, vals: Seq<BValV>, n: int, m: int)
    requires
        n <= m,
        const_texts(nodes, vals, n) is None,
    ensures
        const_texts(nodes, vals, m) is None,
    decreases m - n,
{
    if n < m {
        lemma_const_texts_none(nodes, vals, n, m - 1);
    }
}

proof fn lemma_rows_len(g: GraphV, vals: Seq<BValV>, prefix: Seq<usize>, inner: Seq<usize>, row_shape: Seq<usize>, n: int)
    requires
        n >= 0,
    ensures
        rows_val(g, vals, prefix, inner, row_shape, n).1.len() == n,
    decreases n,
{
    if n > 0 {
        lemma_rows_len(g, vals, prefix, inner, row_shape, n - 1);
    }
}


proof fn lemma_stack_ok(vals: Seq<BValV>, inner: Seq<usize>, dtype: Dtype, i: int)
    requires
        0 <= i,
        stack_mismatch(vals, inner, dtype, i) is None,
    ensures
        forall|j: int| i <= j < vals.len() ==> per_of(#[trigger] vals[j]) == inner && vals[j].val.dtype == dtype,
    decreases vals.len() - i,
{
    if i < vals.len() {
        lemma_stack_ok(vals, inner, dtype, i + 1);
    }
}

proof fn lemma_deepest(vals: Seq<BValV>, n: int)
    requires
        1 <= n,
    ensures
        0 <= deepest_upto(vals, n) < n,
    decreases n,
{
    if n > 1 {
        lemma_deepest(vals, n - 1);
    }
}

proof fn lemma_align_shape(g: GraphV, v: BValV, prefix: Seq<usize>, per: Seq<usize>)
    ensures
        align_val(g, v, prefix, per).1.shape == prefix + per,
        align_val(g, v, prefix, per).1.dtype == v.val.dtype,
{
}


proof fn lemma_kept_one(s: Seq<usize>, k: int, c: int, n: int)
    requires
        0 <= k <= c < s.len(),
        0 <= n <= s.len(),
        s.len() <= usize::MAX,
    ensures
        kept_upto(s, dim_range(0, k), seq![c as usize], n) == (if n <= k {
            Seq::<usize>::empty()
        } else if n <= c {
            s.subrange(k, n)
        } else {
            s.subrange(k, c) + s.subrange(c + 1, n)
        }),
    decreases n,
{
    if n > 0 {
        lemma_kept_one(s, k, c, n - 1);
        let x = dim_range(0, k);
        if n - 1 < k {
            assert(x[n - 1] == (n - 1) as usize);
            assert(x.contains((n - 1) as usize));
        } else {
            assert(!x.contains((n - 1) as usize)) by {
                if x.contains((n - 1) as usize) {
                    let i = choose|i: int| 0 <= i < x.len() && x[i] == (n - 1) as usize;
                    assert(x[i] == i as usize);
                }
            }
            if n - 1 == c {
                assert(seq![c as usize].contains((n - 1) as usize)) by {
                    assert(seq![c as usize][0] == (n - 1) as usize);
                }
                assert(s.subrange(k, c) + s.subrange(c + 1, n) =~= s.subrange(k, c));
            } else {
                let one = seq![c as usize];
                assert(!one.contains((n - 1) as usize)) by {
                    if one.contains((n - 1) as usize) {
                        let i = choose|i: int| 0 <= i < one.len() && #[trigger] one[i] == (n - 1) as usize;
                        assert(one[i] == c as usize);
                    }
                }
                if n <= c {
                    assert(s.subrange(k, n) =~= s.subrange(k, n - 1).push(s[n - 1]));
                } else if n - 1 == c + 1 {
                    assert(s.subrange(k, c) + s.subrange(c + 1, n) =~= s.subrange(k, c).push(s[n - 1]));
                } else {
                    assert(s.subrange(k, c) + s.subrange(c + 1, n) =~= (s.subrange(k, c) + s.subrange(c + 1, n - 1)).push(
                        s[n - 1],
                    ));
                }
            }
        }
    }
}

/// The matrix product of vectors and matrices contracts the last dimension of the left
/// operand with the first of the right: its element shape is the left one without its
/// last dimension followed by the right one without its first, under the batch dimensions
/// of the deeper operand.
pub proof fn law_matmul_shape(g: GraphV, a: BValV, b: BValV)
    requires
        bval_ok(a),
        bval_ok(b),
        a.val.shape.len() + b.val.shape.len() <= usize::MAX,
        per_of(a).len() <= 2,
        per_of(b).len() <= 2,
        bmatmul_val(g, a, b) is Ok,
    ensures
        bmatmul_val(g, a, b)->Ok_0.1.val.shape == prefix_of(a, b) + per_of(a).drop_last() + per_of(b).skip(1),
        bmatmul_val(g, a, b)->Ok_0.1.bdims == prefix_of(a, b).len(),
{
    let pa = per_of(a);
    let pb = per_of(b);
    let prefix = prefix_of(a, b);
    let k = prefix.len() as int;
    if a.bdims == 0 && b.bdims == 0 {
        assert(prefix =~= Seq::<usize>::empty());
        assert(a.val.shape =~= pa);
        assert(b.val.shape =~= pb);
        assert(seq![] =~= dim_range(0, 0));
        lemma_kept_one(a.val.shape, 0, pa.len() - 1, a.val.shape.len() as int);
        lemma_kept_one(b.val.shape, 0, 0, b.val.shape.len() as int);
        assert(picked(a.val.shape, seq![]) =~= Seq::<usize>::empty());
        assert(a.val.shape.subrange(0, pa.len() - 1) + a.val.shape.subrange(pa.len() as int, pa.len() as int)
            =~= pa.drop_last());
        assert(b.val.shape.subrange(0, 0) + b.val.shape.subrange(1, pb.len() as int) =~= pb.skip(1));
    } else {
        let (g1, av) = align_val(g, a, prefix, pa);
        let (g2, bv) = align_val(g1, b, prefix, pb);
        lemma_align_shape(g, a, prefix, pa);
        lemma_align_shape(g1, b, prefix, pb);
        let sa = prefix + pa;
        let sb = prefix + pb;
        lemma_kept_one(sa, k, k + pa.len() - 1, sa.len() as int);
        lemma_kept_one(sb, k, k, sb.len() as int);
        assert(picked(sa, dim_range(0, k)) =~= prefix);
        assert(sa.subrange(k, k + pa.len() - 1) + sa.subrange(k + pa.len(), sa.len() as int) =~= pa.drop_last());
        assert(sb.subrange(k, k) + sb.subrange(k + 1, sb.len() as int) =~= pb.skip(1));
    }
}


/// Aligned operands share one shape, the batch dimensions followed by the broadcast of the
/// element shapes, and one element type.
pub proof fn law_balign_shapes(g: GraphV, a: BValV, b: BValV)
    requires
        balign_val(g, a, b) is Ok,
    ensures
        balign_val(g, a, b)->Ok_0.4 == broadcast_spec(per_of(a), per_of(b))->0,
        balign_val(g, a, b)->Ok_0.3 == prefix_of(a, b),
        balign_val(g, a, b)->Ok_0.1.shape == prefix_of(a, b) + balign_val(g, a, b)->Ok_0.4,
        balign_val(g, a, b)->Ok_0.2.shape == prefix_of(a, b) + balign_val(g, a, b)->Ok_0.4,
        balign_val(g, a, b)->Ok_0.1.dtype == balign_val(g, a, b)->Ok_0.2.dtype,
{
    let (g1, a1, b1) = bdtype_align(g, a, b);
    let per = broadcast_spec(per_of(a), per_of(b))->0;
    let prefix = prefix_of(a, b);
    lemma_align_shape(g1, a1, prefix, per);
    let (g2, av) = align_val(g1, a1, prefix, per);
    lemma_align_shape(g2, b1, prefix, per);
}

/// Whether `x` is among `v`.
fn has_id(v: &Vec<usize>, x: usize) -> (r: bool)
    ensures
        r == v@.contains(x),
{
    let mut i: usize = 0;
    while i < v.len()
        invariant
            i <= v@.len(),
            forall|k: int| 0 <= k < i ==> v@[k] != x,
        decreases v.len() - i,
    {
        if v[i] == x {
            assert(v@[i as int] == x);
            return true;
        }
        i = i + 1;
    }
    false
}

/// `a` followed by `b`.
fn concat_dims(a: &[usize], b: &[usize]) -> (r: Vec<usize>)
    ensures
        r@ == a@ + b@,
{
    let mut r = copy_shape(a);
    let mut i: usize = 0;
    while i < b.len()
        invariant
            i <= b@.len(),
            r@ == a@ + b@.take(i as int),
        decreases b.len() - i,
    {
        r.push(b[i]);
        assert(b@.take(i + 1) =~= b@.take(i as int).push(b@[i as int]));
        i = i + 1;
    }
    assert(b@.take(i as int) =~= b@);
    r
}

/// The positions `lo` up to `hi`, appended to `out`.
pub(crate) fn push_range(out: &mut Vec<usize>, lo: usize, hi: usize)
    requires
        lo <= hi,
    ensures
        final(out)@ == old(out)@ + dim_range(lo as int, hi as int),
{
    let ghost start = out@;
    let mut i = lo;
    while i < hi
        invariant
            lo <= i <= hi,
            out@ == start + dim_range(lo as int, i as int),
        decreases hi - i,
    {
        out.push(i);
        assert(dim_range(lo as int, i + 1) =~= dim_range(lo as int, i as int).push(i));
        i = i + 1;
    }
}

/// The dimensions of `s` whose positions are in neither `x` nor `y`.
pub(crate) fn kept_dims(s: &[usize], x: &Vec<usize>, y: &Vec<usize>) -> (r: Vec<usize>)
    ensures
        r@ == kept_upto(s@, x@, y@, s@.len() as int),
{
    let mut r: Vec<usize> = Vec::new();
    let mut i: usize = 0;
    while i < s.len()
        invariant
            i <= s@.len(),
            r@ == kept_upto(s@, x@, y@, i as int),
        decreases s.len() - i,
    {
        if !has_id(x, i) && !has_id(y, i) {
            r.push(s[i]);
        }
        i = i + 1;
    }
    r
}

impl Tracer {
    /// The batch dimensions two values are traced under: those of the deeper one.
    pub fn batch_prefix(a: &BVal, b: &BVal) -> (r: Vec<usize>)
        requires
            deeper(a@, b@).bdims <= deeper(a@, b@).val.shape.len(),
        ensures
            r@ == prefix_of(a@, b@),
    {
        let deep = if a.bdims >= b.bdims {
            a
        } else {
            b
        };
        let mut r: Vec<usize> = Vec::new();
        let mut i: usize = 0;
        while i < deep.bdims
            invariant
                i <= deep.bdims <= deep.val.shape@.len(),
                r@ == deep.val.shape@.take(i as int),
            decreases deep.bdims - i,
        {
            r.push(deep.val.shape[i]);
            assert(deep.val.shape@.take(i + 1) =~= deep.val.shape@.take(i as int).push(deep.val.shape@[i as int]));
            i = i + 1;
        }
        r
    }

    /// The value broadcast to the batch dimensions `prefix` and the element shape `per`.
    pub fn align(&mut self, v: &BVal, prefix: &[usize], per: &[usize]) -> (r: Val)
        requires
            old(self).wf(),
            v.bdims <= v.val.shape@.len(),
            per_of(v@).len() <= per@.len(),
            prefix@.len() + per@.len() <= usize::MAX,
        ensures
            final(self).wf(),
            (final(self).graph(), r@) == align_val(old(self).graph(), v@, prefix@, per@),
            final(self).inputs == old(self).inputs,
            final(self).rng == old(self).rng,
            v.val.id < old(self).nodes@.len() ==> r.id < final(self).nodes@.len(),
            grows(old(self).nodes@, final(self).nodes@),
            graph_wf(old(self).nodes@) && v.val.id < old(self).nodes@.len() ==> graph_wf(final(self).nodes@),
    {
        let target = concat_dims(prefix, per);
        if shapes_equal(v.val.shape.as_slice(), target.as_slice()) {
            return Val { id: v.val.id, shape: copy_shape(v.val.shape.as_slice()), dtype: v.val.dtype };
        }
        let own = v.val.shape.len() - v.bdims;
        let offset = per.len() - own;
        let mut dims: Vec<usize> = Vec::new();
        push_range(&mut dims, 0, v.bdims);
        push_range(&mut dims, prefix.len() + offset, prefix.len() + per.len());
        assert(dims@ =~= dim_range(0, v.bdims as int) + dim_range(
            prefix@.len() + per@.len() - per_of(v@).len(),
            (prefix@.len() + per@.len()) as int,
        ));
        self.broadcast_along(&v.val, target.as_slice(), dims)
    }

    /// The dot product of `a` and `b` with batch dimensions `lb`, `rb` and contracted
    /// dimensions `lc`, `rc`.
    pub fn dot(&mut self, a: &Val, b: &Val, lb: Vec<usize>, rb: Vec<usize>, lc: Vec<usize>, rc: Vec<usize>) -> (r: Val)
        requires
            old(self).wf(),
            forall|i: int| 0 <= i < lb@.len() ==> #[trigger] lb@[i] < a.shape@.len(),
        ensures
            final(self).wf(),
            (final(self).graph(), r@) == dot_val(old(self).graph(), a@, b@, lb@, rb@, lc@, rc@),
            final(self).inputs == old(self).inputs,
            final(self).rng == old(self).rng,
            r.id < final(self).nodes@.len(),
            grows(old(self).nodes@, final(self).nodes@),
            graph_wf(old(self).nodes@) && a.id < old(self).nodes@.len() && b.id < old(self).nodes@.len()
                ==> graph_wf(final(self).nodes@),
    {
        let mut shape: Vec<usize> = Vec::new();
        let mut i: usize = 0;
        while i < lb.len()
            invariant
                i <= lb@.len(),
                forall|j: int| 0 <= j < lb@.len() ==> #[trigger] lb@[j] < a.shape@.len(),
                shape@ == picked(a.shape@, lb@.take(i as int)),
            decreases lb.len() - i,
        {
            shape.push(a.shape[lb[i]]);
            assert(picked(a.shape@, lb@.take(i + 1)) =~= picked(a.shape@, lb@.take(i as int)).push(
                a.shape@[lb@[i as int] as int],
            ));
            i = i + 1;
        }
        assert(lb@.take(i as int) =~= lb@);
        let free_a = kept_dims(a.shape.as_slice(), &lb, &lc);
        let free_b = kept_dims(b.shape.as_slice(), &rb, &rc);
        let shape = concat_dims(shape.as_slice(), free_a.as_slice());
        let shape = concat_dims(shape.as_slice(), free_b.as_slice());
        let mut ins: Vec<usize> = Vec::new();
        ins.push(a.id);
        ins.push(b.id);
        assert(ins@ =~= seq![a.id, b.id]);
        self.emit(OpKind::Dot(lb, rb, lc, rc), ins, shape, a.dtype)
    }

    /// A reduction of `v` over `axes` with the operation `reducer`, starting from the
    /// literal `init`.
    pub fn reduce(&mut self, reducer: &str, init: String, v: &Val, axes: &[usize]) -> (r: Val)
        requires
            old(self).wf(),
        ensures
            final(self).wf(),
            (final(self).graph(), r@) == reduce_val(old(self).graph(), reducer@, init@, v@, axes@),
            final(self).inputs == old(self).inputs,
            final(self).rng == old(self).rng,
            v.id < old(self).nodes@.len() ==> r.id < final(self).nodes@.len(),
            grows(old(self).nodes@, final(self).nodes@),
            graph_wf(old(self).nodes@) && v.id < old(self).nodes@.len() ==> graph_wf(final(self).nodes@),
    {
        if axes.len() == 0 {
            return Val { id: v.id, shape: copy_shape(v.shape.as_slice()), dtype: v.dtype };
        }
        let c = self.constant(init, v.dtype);
        let axes_v = copy_shape(axes);
        let empty: Vec<usize> = Vec::new();
        let out_shape = kept_dims(v.shape.as_slice(), &axes_v, &empty);
        assert(empty@ =~= seq![]);
        let mut ins: Vec<usize> = Vec::new();
        ins.push(v.id);
        ins.push(c.id);
        assert(ins@ =~= seq![v.id, c.id]);
        self.emit(OpKind::Reduce(reducer.to_owned(), axes_v), ins, out_shape, v.dtype)
    }

    /// The sum of `v` over `axes`.
    pub fn reduce_sum(&mut self, v: &Val, axes: &[usize]) -> (r: Val)
        requires
            old(self).wf(),
        ensures
            final(self).wf(),
            (final(self).graph(), r@) == reduce_val(old(self).graph(), seq!['a', 'd', 'd'], zero_text(v.dtype), v@, axes@),
            final(self).inputs == old(self).inputs,
            final(self).rng == old(self).rng,
            v.id < old(self).nodes@.len() ==> r.id < final(self).nodes@.len(),
            grows(old(self).nodes@, final(self).nodes@),
            graph_wf(old(self).nodes@) && v.id < old(self).nodes@.len() ==> graph_wf(final(self).nodes@),
    {
        proof {
            reveal_strlit("add");
        }
        assert("add"@ =~= seq!['a', 'd', 'd']);
        self.reduce("add", crate::trace::zero_literal(v.dtype), v, axes)
    }

    /// An elementwise unary operation on a batched value.
    pub fn bunary(&mut self, name: &str, v: &BVal) -> (r: BVal)
        requires
            old(self).wf(),
        ensures
            final(self).wf(),
            (final(self).graph(), r@.val) == unary_val(old(self).graph(), name@, v@.val),
            r.bdims == v.bdims,
            final(self).inputs == old(self).inputs,
            final(self).rng == old(self).rng,
            r.val.id < final(self).nodes@.len(),
            grows(old(self).nodes@, final(self).nodes@),
            graph_wf(old(self).nodes@) && v.val.id < old(self).nodes@.len() ==> graph_wf(final(self).nodes@),
    {
        BVal { val: self.unary(name, &v.val), bdims: v.bdims }
    }
}

impl Tracer {
    /// Two batched operands brought to one element type and one shape, with the batch
    /// dimensions and element shape they share. On an error nothing is traced.
    pub fn balign(&mut self, a: BVal, b: BVal) -> (r: Result<(Val, Val, Vec<usize>, Vec<usize>), TraceError>)
        requires
            old(self).wf(),
            bval_ok(a@),
            bval_ok(b@),
            a.val.shape@.len() + b.val.shape@.len() <= usize::MAX,
        ensures
            final(self).wf(),
            match balign_val(old(self).graph(), a@, b@) {
                Ok((g, av, bv, prefix, per)) => r matches Ok((x, y, p, q)) && x@ == av && y@ == bv && p@ == prefix
                    && q@ == per && final(self).graph() == g,
                Err(e) => r matches Err(re) && re@ == e && final(self).nodes == old(self).nodes
                    && final(self).interned == old(self).interned,
            },
            final(self).inputs == old(self).inputs,
            final(self).rng == old(self).rng,
            grows(old(self).nodes@, final(self).nodes@),
            a.val.id < old(self).nodes@.len() && b.val.id < old(self).nodes@.len() ==> (r matches Ok((x, y, _, _))
                ==> x.id < final(self).nodes@.len() && y.id < final(self).nodes@.len()),
            graph_wf(old(self).nodes@) && a.val.id < old(self).nodes@.len() && b.val.id < old(self).nodes@.len()
                ==> graph_wf(final(self).nodes@),
    {
        let ghost g0 = self.graph();
        let ghost a0 = a@;
        let ghost b0 = b@;
        let ghost valid = a.val.id < self.nodes@.len() && b.val.id < self.nodes@.len();
        let ghost wf0 = graph_wf(self.nodes@) && valid;
        let pa = per_shape(&a);
        let pb = per_shape(&b);
        if !(a.val.dtype == b.val.dtype || pa.len() == 0 || pb.len() == 0) {
            return Err(TraceError::DtypeMismatch(a.val.dtype, b.val.dtype));
        }
        let per = match broadcast_shape(pa.as_slice(), pb.as_slice()) {
            None => {
                return Err(TraceError::ShapeMismatch(pa, pb));
            },
            Some(p) => p,
        };
        proof {
            law_broadcast_covers(pa@, pb@);
        }
        let prefix = Self::batch_prefix(&a, &b);
        assert(prefix@.len() + per@.len() <= a.val.shape@.len() + b.val.shape@.len());
        let (a, b) = if a.val.dtype == b.val.dtype {
            (a, b)
        } else if pa.len() == 0 {
            let v = self.convert(&a.val, b.val.dtype);
            (BVal { val: v, bdims: a.bdims }, b)
        } else {
            let v = self.convert(&b.val, a.val.dtype);
            (a, BVal { val: v, bdims: b.bdims })
        };
        assert((self.graph(), a@, b@) == bdtype_align(g0, a0, b0));
        assert(per_of(a@) == per_of(a0) && per_of(b@) == per_of(b0));
        let av = self.align(&a, prefix.as_slice(), per.as_slice());
        let bv = self.align(&b, prefix.as_slice(), per.as_slice());
        assert(wf0 ==> graph_wf(self.nodes@));
        assert(valid ==> av.id < self.nodes@.len() && bv.id < self.nodes@.len());
        Ok((av, bv, prefix, per))
    }

    /// A batched elementwise operation `name` on two operands that are not booleans.
    pub fn bewise(&mut self, name: &str, a: BVal, b: BVal) -> (r: Result<BVal, TraceError>)
        requires
            old(self).wf(),
            bval_ok(a@),
            bval_ok(b@),
            a.val.shape@.len() + b.val.shape@.len() <= usize::MAX,
        ensures
            final(self).wf(),
            match bewise_val(old(self).graph(), name@, a@, b@) {
                Ok((g, v)) => r matches Ok(rv) && rv@ == v && final(self).graph() == g,
                Err(e) => r matches Err(re) && re@ == e && final(self).nodes == old(self).nodes
                    && final(self).interned == old(self).interned,
            },
            final(self).inputs == old(self).inputs,
            final(self).rng == old(self).rng,
            grows(old(self).nodes@, final(self).nodes@),
            r matches Ok(rv) ==> rv.val.id < final(self).nodes@.len(),
            graph_wf(old(self).nodes@) && a.val.id < old(self).nodes@.len() && b.val.id < old(self).nodes@.len()
                ==> graph_wf(final(self).nodes@),
    {
        if a.val.dtype == Dtype::I1 || b.val.dtype == Dtype::I1 {
            return Err(TraceError::BooleanArithmetic(name.to_owned()));
        }
        let (av, bv, prefix, per) = match self.balign(a, b) {
            Err(e) => {
                return Err(e);
            },
            Ok(x) => x,
        };
        let shape = concat_dims(prefix.as_slice(), per.as_slice());
        let dtype = av.dtype;
        let mut ins: Vec<usize> = Vec::new();
        ins.push(av.id);
        ins.push(bv.id);
        assert(ins@ =~= seq![av.id, bv.id]);
        let val = self.emit(OpKind::Ewise(name.to_owned()), ins, shape, dtype);
        Ok(BVal { val, bdims: prefix.len() })
    }

    /// A batched comparison in direction `dir` of two operands that are not booleans.
    pub fn bcompare(&mut self, dir: &str, a: BVal, b: BVal) -> (r: Result<BVal, TraceError>)
        requires
            old(self).wf(),
            bval_ok(a@),
            bval_ok(b@),
            a.val.shape@.len() + b.val.shape@.len() <= usize::MAX,
        ensures
            final(self).wf(),
            match bcompare_val(old(self).graph(), dir@, a@, b@) {
                Ok((g, v)) => r matches Ok(rv) && rv@ == v && final(self).graph() == g,
                Err(e) => r matches Err(re) && re@ == e && final(self).nodes == old(self).nodes
                    && final(self).interned == old(self).interned,
            },
            final(self).inputs == old(self).inputs,
            final(self).rng == old(self).rng,
            grows(old(self).nodes@, final(self).nodes@),
            r matches Ok(rv) ==> rv.val.id < final(self).nodes@.len(),
            graph_wf(old(self).nodes@) && a.val.id < old(self).nodes@.len() && b.val.id < old(self).nodes@.len()
                ==> graph_wf(final(self).nodes@),
    {
        if a.val.dtype == Dtype::I1 || b.val.dtype == Dtype::I1 {
            return Err(TraceError::BooleanComparison);
        }
        let (av, bv, prefix, per) = match self.balign(a, b) {
            Err(e) => {
                return Err(e);
            },
            Ok(x) => x,
        };
        let shape = concat_dims(prefix.as_slice(), per.as_slice());
        let mut ins: Vec<usize> = Vec::new();
        ins.push(av.id);
        ins.push(bv.id);
        assert(ins@ =~= seq![av.id, bv.id]);
        let val = self.emit(OpKind::Compare(dir.to_owned()), ins, shape, Dtype::I1);
        Ok(BVal { val, bdims: prefix.len() })
    }
}

/// The dimensions of `s` from `lo` up to `hi`.
fn sub_dims(s: &[usize], lo: usize, hi: usize) -> (r: Vec<usize>)
    requires
        lo <= hi <= s@.len(),
    ensures
        r@ == s@.subrange(lo as int, hi as int),
{
    let mut r: Vec<usize> = Vec::new();
    let mut i = lo;
    while i < hi
        invariant
            lo <= i <= hi <= s@.len(),
            r@ == s@.subrange(lo as int, i as int),
        decreases hi - i,
    {
        r.push(s[i]);
        assert(s@.subrange(lo as int, i + 1) =~= s@.subrange(lo as int, i as int).push(s@[i as int]));
        i = i + 1;
    }
    r
}

pub(crate) fn one_id(a: usize) -> (v: Vec<usize>)
    ensures
        v@ == seq![a],
{
    let mut v: Vec<usize> = Vec::new();
    v.push(a);
    assert(v@ =~= seq![a]);
    v
}

impl Tracer {
    /// A matrix product with matrix batch dimensions.
    fn batched_matmul(&mut self, a: BVal, b: BVal) -> (r: Result<BVal, TraceError>)
        requires
            old(self).wf(),
            bval_ok(a@),
            bval_ok(b@),
            a.val.shape@.len() + b.val.shape@.len() <= usize::MAX,
            per_of(a@).len() >= 1,
            per_of(b@).len() >= 1,
        ensures
            final(self).wf(),
            match batched_matmul_val(old(self).graph(), a@, b@) {
                Ok((g, v)) => r matches Ok(rv) && rv@ == v && final(self).graph() == g,
                Err(e) => r matches Err(re) && re@ == e && final(self).nodes == old(self).nodes
                    && final(self).interned == old(self).interned,
            },
            final(self).inputs == old(self).inputs,
            final(self).rng == old(self).rng,
            grows(old(self).nodes@, final(self).nodes@),
            r matches Ok(rv) ==> rv.val.id < final(self).nodes@.len(),
            graph_wf(old(self).nodes@) && a.val.id < old(self).nodes@.len() && b.val.id < old(self).nodes@.len()
                ==> graph_wf(final(self).nodes@),
    {
        let pa = per_shape(&a);
        let pb = per_shape(&b);
        if pa.len() == 1 || pb.len() == 1 {
            return Err(TraceError::MatmulNotMatrices(pa, pb));
        }
        let ba = sub_dims(pa.as_slice(), 0, pa.len() - 2);
        let bb = sub_dims(pb.as_slice(), 0, pb.len() - 2);
        assert(ba@ =~= mat_batch(pa@));
        assert(bb@ =~= mat_batch(pb@));
        if !(ba.len() == 0 || bb.len() == 0 || shapes_equal(ba.as_slice(), bb.as_slice())) {
            return Err(TraceError::MatmulBatchMismatch(pa, pb));
        }
        let core_a = sub_dims(pa.as_slice(), pa.len() - 2, pa.len());
        let core_b = sub_dims(pb.as_slice(), pb.len() - 2, pb.len());
        assert(core_a@ =~= mat_core(pa@));
        assert(core_b@ =~= mat_core(pb@));
        if core_a[1] != core_b[0] {
            return Err(TraceError::MatmulContraction(pa, pb));
        }
        let per_batch = if ba.len() == 0 {
            bb
        } else {
            ba
        };
        let prefix = Self::batch_prefix(&a, &b);
        let k = prefix.len();
        let nb = k + per_batch.len();
        let ghost valid = a.val.id < self.nodes@.len() && b.val.id < self.nodes@.len();
        let ghost wf0 = graph_wf(self.nodes@) && valid;
        let target_a = concat_dims(concat_dims(prefix.as_slice(), per_batch.as_slice()).as_slice(), core_a.as_slice());
        let mut dims_a: Vec<usize> = Vec::new();
        push_range(&mut dims_a, 0, a.bdims);
        if pa.len() > 2 {
            push_range(&mut dims_a, k, k + pa.len());
        } else {
            push_range(&mut dims_a, nb, nb + 2);
        }
        assert(dims_a@ =~= lift_dims(a@, k as int, nb as int, pa@.len() > 2));
        let av = self.broadcast_along(&a.val, target_a.as_slice(), dims_a);
        let target_b = concat_dims(concat_dims(prefix.as_slice(), per_batch.as_slice()).as_slice(), core_b.as_slice());
        let mut dims_b: Vec<usize> = Vec::new();
        push_range(&mut dims_b, 0, b.bdims);
        if pb.len() > 2 {
            push_range(&mut dims_b, k, k + pb.len());
        } else {
            push_range(&mut dims_b, nb, nb + 2);
        }
        assert(dims_b@ =~= lift_dims(b@, k as int, nb as int, pb@.len() > 2));
        let bv = self.broadcast_along(&b.val, target_b.as_slice(), dims_b);
        let mut batch: Vec<usize> = Vec::new();
        push_range(&mut batch, 0, nb);
        let mut batch2: Vec<usize> = Vec::new();
        push_range(&mut batch2, 0, nb);
        assert(batch@ =~= dim_range(0, nb as int));
        assert(batch2@ =~= dim_range(0, nb as int));
        assert(wf0 ==> graph_wf(self.nodes@) && av.id < self.nodes@.len() && bv.id < self.nodes@.len());
        let val = self.dot(&av, &bv, batch, batch2, one_id(nb + 1), one_id(nb));
        let bdims = if a.bdims >= b.bdims {
            a.bdims
        } else {
            b.bdims
        };
        Ok(BVal { val, bdims })
    }

    /// A batched matrix product.
    pub fn bmatmul(&mut self, a: BVal, b: BVal) -> (r: Result<BVal, TraceError>)
        requires
            old(self).wf(),
            bval_ok(a@),
            bval_ok(b@),
            a.val.shape@.len() + b.val.shape@.len() <= usize::MAX,
        ensures
            final(self).wf(),
            match bmatmul_val(old(self).graph(), a@, b@) {
                Ok((g, v)) => r matches Ok(rv) && rv@ == v && final(self).graph() == g,
                Err(e) => r matches Err(re) && re@ == e && final(self).nodes == old(self).nodes
                    && final(self).interned == old(self).interned,
            },
            final(self).inputs == old(self).inputs,
            final(self).rng == old(self).rng,
            grows(old(self).nodes@, final(self).nodes@),
            r matches Ok(rv) ==> rv.val.id < final(self).nodes@.len(),
            graph_wf(old(self).nodes@) && a.val.id < old(self).nodes@.len() && b.val.id < old(self).nodes@.len()
                ==> graph_wf(final(self).nodes@),
    {
        if a.val.dtype != b.val.dtype {
            return Err(TraceError::MatmulDtype(a.val.dtype, b.val.dtype));
        }
        let pa = per_shape(&a);
        let pb = per_shape(&b);
        if pa.len() == 0 || pb.len() == 0 {
            return Err(TraceError::MatmulRank(pa, pb));
        }
        if pa.len() > 2 || pb.len() > 2 {
            return self.batched_matmul(a, b);
        }
        if pa[pa.len() - 1] != pb[0] {
            return Err(TraceError::MatmulContraction(pa, pb));
        }
        let ghost valid = a.val.id < self.nodes@.len() && b.val.id < self.nodes@.len();
        let ghost wf0 = graph_wf(self.nodes@) && valid;
        if a.bdims == 0 && b.bdims == 0 {
            let e1: Vec<usize> = Vec::new();
            let e2: Vec<usize> = Vec::new();
            assert(e1@ =~= seq![]);
            assert(e2@ =~= seq![]);
            let val = self.dot(&a.val, &b.val, e1, e2, one_id(pa.len() - 1), one_id(0));
            return Ok(BVal { val, bdims: 0 });
        }
        let prefix = Self::batch_prefix(&a, &b);
        let k = prefix.len();
        let av = self.align(&a, prefix.as_slice(), pa.as_slice());
        let bv = self.align(&b, prefix.as_slice(), pb.as_slice());
        proof {
            lemma_align_shape(old(self).graph(), a@, prefix@, pa@);
        }
        let mut batch: Vec<usize> = Vec::new();
        push_range(&mut batch, 0, k);
        let mut batch2: Vec<usize> = Vec::new();
        push_range(&mut batch2, 0, k);
        assert(batch@ =~= dim_range(0, k as int));
        assert(batch2@ =~= dim_range(0, k as int));
        assert(wf0 ==> graph_wf(self.nodes@) && av.id < self.nodes@.len() && bv.id < self.nodes@.len());
        let val = self.dot(&av, &bv, batch, batch2, one_id(k + pa.len() - 1), one_id(k));
        Ok(BVal { val, bdims: k })
    }
}

/// `more` appended to `texts`.
fn extend_texts(texts: &mut Vec<String>, more: &Vec<String>)
    ensures
        texts_view(final(texts)@) == texts_view(old(texts)@) + texts_view(more@),
{
    let ghost start = texts_view(texts@);
    let mut i: usize = 0;
    while i < more.len()
        invariant
            i <= more@.len(),
            texts_view(texts@) == start + texts_view(more@).take(i as int),
        decreases more.len() - i,
    {
        let ghost before = texts@;
        texts.push(more[i].clone());
        assert(texts_view(texts@) =~= texts_view(before).push(more@[i as int]@));
        assert(texts_view(more@).take(i + 1) =~= texts_view(more@).take(i as int).push(more@[i as int]@));
        i = i + 1;
    }
    assert(texts_view(more@).take(i as int) =~= texts_view(more@));
}

impl Tracer {
    /// An array literal of the values `vals`.
    pub fn stack(&mut self, vals: Vec<BVal>) -> (r: Result<BVal, TraceError>)
        requires
            old(self).wf(),
            vals@.len() >= 1,
            forall|i: int|
                0 <= i < vals@.len() ==> bval_ok(#[trigger] vals@[i]@) && vals@[i].val.id < old(self).nodes@.len()
                    && vals@[i].val.shape@.len() < usize::MAX,
        ensures
            final(self).wf(),
            match stack_val(old(self).graph(), bvals_view(vals@)) {
                Ok((g, v)) => r matches Ok(rv) && rv@ == v && final(self).graph() == g,
                Err(e) => r matches Err(re) && re@ == e && final(self).nodes == old(self).nodes
                    && final(self).interned == old(self).interned,
            },
            final(self).inputs == old(self).inputs,
            final(self).rng == old(self).rng,
            grows(old(self).nodes@, final(self).nodes@),
            r matches Ok(rv) ==> rv.val.id < final(self).nodes@.len(),
            graph_wf(old(self).nodes@) && const_texts(old(self).graph().nodes, bvals_view(vals@), vals@.len() as int)
                is None ==> graph_wf(final(self).nodes@),
    {
        let ghost g0 = self.graph();
        let ghost vs = bvals_view(vals@);
        let ghost wf0 = graph_wf(self.nodes@);
        assert(vs[0] == vals@[0]@);
        let inner = per_shape(&vals[0]);
        let dtype = vals[0].val.dtype;
        let mut i: usize = 1;
        while i < vals.len()
            invariant
                1 <= i <= vals@.len(),
                vs == bvals_view(vals@),
                inner@ == per_of(vs[0]),
                dtype == vs[0].val.dtype,
                forall|j2: int|
                    0 <= j2 < vals@.len() ==> bval_ok(#[trigger] vals@[j2]@) && vals@[j2].val.id < old(self).nodes@.len()
                        && vals@[j2].val.shape@.len() < usize::MAX,
                self.nodes == old(self).nodes,
                self.interned == old(self).interned,
                self.inputs == old(self).inputs,
                self.rng == old(self).rng,
                old(self).wf(),
                stack_mismatch(vs, inner@, dtype, 1) == stack_mismatch(vs, inner@, dtype, i as int),
            decreases vals.len() - i,
        {
            assert(vs[i as int] == vals@[i as int]@);
            assert(bval_ok(vals@[i as int]@));
            let p = per_shape(&vals[i]);
            if !shapes_equal(inner.as_slice(), p.as_slice()) {
                return Err(TraceError::StackShapes(inner, p));
            }
            if vals[i].val.dtype != dtype {
                return Err(TraceError::StackDtypes(dtype, vals[i].val.dtype));
            }
            i = i + 1;
        }
        proof {
            lemma_stack_ok(vs, inner@, dtype, 1);
        }
        let mut texts: Vec<String> = Vec::new();
        let mut all_const = true;
        let mut j: usize = 0;
        assert(texts_view(texts@) =~= seq![]);
        while j < vals.len() && all_const
            invariant
                j <= vals@.len(),
                vs == bvals_view(vals@),
                g0 == self.graph(),
                inner@ == per_of(vs[0]),
                dtype == vs[0].val.dtype,
                forall|j2: int| 1 <= j2 < vs.len() ==> per_of(#[trigger] vs[j2]) == inner@,
                forall|j2: int|
                    0 <= j2 < vals@.len() ==> bval_ok(#[trigger] vals@[j2]@) && vals@[j2].val.id < old(self).nodes@.len()
                        && vals@[j2].val.shape@.len() < usize::MAX,
                self.nodes == old(self).nodes,
                self.interned == old(self).interned,
                self.inputs == old(self).inputs,
                self.rng == old(self).rng,
                old(self).wf(),
                all_const ==> const_texts(g0.nodes, vs, j as int) == Some(texts_view(texts@)),
                !all_const ==> const_texts(g0.nodes, vs, j as int) is None,
            decreases vals.len() - j,
        {
            let v = &vals[j];
            assert(vs[j as int] == vals@[j as int]@);
            if v.bdims != 0 {
                all_const = false;
            } else {
                assert(v.val.id < self.nodes@.len());
                let node = &self.nodes[v.val.id];
                assert(g0.nodes[v.val.id as int] == node@);
                match &node.kind {
                    OpKind::Constant(t) => {
                        let ghost before = texts@;
                        texts.push(t.clone());
                        assert(texts_view(texts@) =~= texts_view(before).push(t@));
                    },
                    OpKind::DenseConst(ts) => {
                        extend_texts(&mut texts, ts);
                    },
                    _ => {
                        all_const = false;
                    },
                }
            }
            j = j + 1;
        }
        if all_const {
            let mut shape: Vec<usize> = Vec::new();
            shape.push(vals.len());
            let shape = concat_dims(shape.as_slice(), inner.as_slice());
            assert(shape@ =~= seq![vals@.len() as usize] + inner@);
            let no_inputs: Vec<usize> = Vec::new();
            assert(no_inputs@ =~= seq![]);
            let val = self.emit(OpKind::DenseConst(texts), no_inputs, shape, dtype);
            return Ok(BVal { val, bdims: 0 });
        }
        proof {
            lemma_const_texts_none(g0.nodes, vs, j as int, vals@.len() as int);
        }
        let mut d: usize = 0;
        let mut m: usize = 1;
        while m < vals.len()
            invariant
                1 <= m <= vals@.len(),
                vs == bvals_view(vals@),
                d == deepest_upto(vs, m as int),
                d < m,
            decreases vals.len() - m,
        {
            assert(vs[m as int] == vals@[m as int]@);
            assert(vs[d as int] == vals@[d as int]@);
            if vals[m].bdims >= vals[d].bdims {
                d = m;
            }
            m = m + 1;
        }
        assert(vs[d as int] == vals@[d as int]@);
        assert(bval_ok(vals@[d as int]@));
        let prefix = sub_dims(vals[d].val.shape.as_slice(), 0, vals[d].bdims);
        assert(prefix@ =~= vs[d as int].val.shape.take(vs[d as int].bdims as int));
        let k = prefix.len();
        assert(per_of(vs[d as int]) == inner@);
        let mut one: Vec<usize> = Vec::new();
        one.push(1);
        let row_shape = concat_dims(concat_dims(prefix.as_slice(), one.as_slice()).as_slice(), inner.as_slice());
        assert(row_shape@ =~= prefix@.push(1) + inner@);
        let mut rows: Vec<Val> = Vec::new();
        let mut q: usize = 0;
        assert(vals_view(rows@) =~= seq![]);
        while q < vals.len()
            invariant
                q <= vals@.len(),
                vs == bvals_view(vals@),
                self.wf(),
                (self.graph(), vals_view(rows@)) == rows_val(g0, vs, prefix@, inner@, row_shape@, q as int),
                self.inputs == old(self).inputs,
                self.rng == old(self).rng,
                grows(old(self).nodes@, self.nodes@),
                forall|j2: int|
                    0 <= j2 < vals@.len() ==> bval_ok(#[trigger] vals@[j2]@) && vals@[j2].val.id < old(self).nodes@.len()
                        && vals@[j2].val.shape@.len() < usize::MAX,
                forall|j2: int| 1 <= j2 < vs.len() ==> per_of(#[trigger] vs[j2]) == inner@,
                inner@ == per_of(vs[0]),
                prefix@.len() + inner@.len() <= usize::MAX,
                rows@.len() == q,
                forall|j2: int| 0 <= j2 < rows@.len() ==> (#[trigger] rows@[j2]).id < self.nodes@.len(),
                wf0 ==> graph_wf(self.nodes@),
                wf0 == graph_wf(old(self).nodes@),
            decreases vals.len() - q,
        {
            assert(vs[q as int] == vals@[q as int]@);
            assert(per_of(vals@[q as int]@) == inner@);
            let aligned = self.align(&vals[q], prefix.as_slice(), inner.as_slice());
            let row = self.reshape(&aligned, copy_shape(row_shape.as_slice()));
            let ghost before = rows@;
            rows.push(row);
            assert(vals_view(rows@) =~= vals_view(before).push(row@));
            q = q + 1;
        }
        proof {
            lemma_rows_len(g0, vs, prefix@, inner@, row_shape@, vals@.len() as int);
        }
        if rows.len() == 1 {
            assert(vals_view(rows@)[0] == rows@[0]@);
            let row = rows.pop().unwrap();
            return Ok(BVal { val: row, bdims: k });
        }
        let mut ids: Vec<usize> = Vec::new();
        let mut t: usize = 0;
        while t < rows.len()
            invariant
                t <= rows@.len(),
                ids@ == ids_of(vals_view(rows@)).take(t as int),
            decreases rows.len() - t,
        {
            ids.push(rows[t].id);
            assert(ids_of(vals_view(rows@)).take(t + 1) =~= ids_of(vals_view(rows@)).take(t as int).push(rows@[t as int].id));
            t = t + 1;
        }
        assert(ids_of(vals_view(rows@)).take(t as int) =~= ids_of(vals_view(rows@)));
        let mut count: Vec<usize> = Vec::new();
        count.push(vals.len());
        let shape = concat_dims(concat_dims(prefix.as_slice(), count.as_slice()).as_slice(), inner.as_slice());
        assert(shape@ =~= prefix@.push(vals@.len() as usize) + inner@);
        proof {
            assert forall|x: int| 0 <= x < ids@.len() implies #[trigger] ids@[x] < self.nodes@.len() by {
                assert(ids@[x] == rows@[x].id);
            }
        }
        let val = self.emit(OpKind::Concat(k), ids, shape, dtype);
        Ok(BVal { val, bdims: k })
    }
}

} // verus!
