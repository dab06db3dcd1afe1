use vstd::prelude::*;

use crate::batch::{bmatmul_val, bval_ok, dim_range, per_of, push_range, reduce_val};
use crate::emit::graph_wf;
use crate::grad::number_lit;
use crate::graph::{copy_shape, per_shape, BVal, BValV, Dtype, NodeV, OpKind, OpKindV, Val, ValV};
use crate::strs::{decimal_chars, decimal_text, string_from_chars};
use crate::trace::{
    broadcast_along_val, broadcast_val, constant_val, convert_val, emit_val, reshape_val, select_val, zeros_val,
    grows, GraphV, TraceError, TraceErrorV, Tracer,
};

verus! {

/// Positions along dimension `dim` of `shape`, counted in element type `dtype`.
pub open spec fn iota_along_val(g: GraphV, shape: Seq<usize>, dim: usize, dtype: Dtype) -> (GraphV, ValV) {
    let (g1, idx) = emit_val(g, NodeV { kind: OpKindV::Iota, inputs: seq![], shape: seq![shape[dim as int]], dtype: Dtype::F32 });
    let (g2, idx2) = convert_val(g1, idx, dtype);
    if shape.len() == 1 {
        (g2, idx2)
    } else {
        broadcast_along_val(g2, idx2, shape, seq![dim])
    }
}

/// A batched vector sorted (ascending, as the sort operation orders).
pub open spec fn sort_spec(g: GraphV, v: BValV) -> Result<(GraphV, BValV), TraceErrorV> {
    if per_of(v).len() != 1 {
        Err(TraceError::NotVector("sort"@, per_of(v)))
    } else {
        let (g1, val) = emit_val(
            g,
            NodeV { kind: OpKindV::Sort { axis: v.bdims, num: 1 }, inputs: seq![v.val.id], shape: v.val.shape, dtype: v.val.dtype },
        );
        Ok((g1, BValV { val, bdims: v.bdims }))
    }
}

/// The positions that sort a batched vector: its positions sorted along with it.
pub open spec fn argsort_spec(g: GraphV, v: BValV) -> Result<(GraphV, BValV), TraceErrorV> {
    if per_of(v).len() != 1 {
        Err(TraceError::NotVector("argsort"@, per_of(v)))
    } else {
        let (g1, idx) = iota_along_val(g, v.val.shape, v.bdims, Dtype::F32);
        let (g2, s) = emit_val(
            g1,
            NodeV {
                kind: OpKindV::Sort { axis: v.bdims, num: 2 },
                inputs: seq![v.val.id, idx.id],
                shape: v.val.shape,
                dtype: v.val.dtype,
            },
        );
        let (g3, val) = emit_val(g2, NodeV { kind: OpKindV::Proj(1), inputs: seq![s.id], shape: v.val.shape, dtype: Dtype::F32 });
        Ok((g3, BValV { val, bdims: v.bdims }))
    }
}

/// The running sums of a batched vector: its product with the lower triangle of ones.
pub open spec fn cumsum_spec(g: GraphV, v: BValV) -> Result<(GraphV, BValV), TraceErrorV> {
    if per_of(v).len() != 1 {
        Err(TraceError::NotVector("cumsum"@, per_of(v)))
    } else {
        let n = per_of(v)[0];
        let dt = v.val.dtype;
        let (g1, ri) = iota_along_val(g, seq![n, n], 0, dt);
        let (g2, ci) = iota_along_val(g1, seq![n, n], 1, dt);
        let (g3, mask) = emit_val(
            g2,
            NodeV { kind: OpKindV::Compare("LE"@), inputs: seq![ci.id, ri.id], shape: seq![n, n], dtype: Dtype::I1 },
        );
        let (g4, one) = constant_val(g3, number_lit(dt, "1"@, "1.0"@), dt);
        let (g5, one_b) = broadcast_val(g4, one, seq![n, n]);
        let (g6, zero_b) = zeros_val(g5, seq![n, n], dt);
        let (g7, tri) = select_val(g6, mask, one_b, zero_b);
        bmatmul_val(g7, BValV { val: tri, bdims: 0 }, v)
    }
}

fn two_dims(a: usize, b: usize) -> (v: Vec<usize>)
    ensures
        v@ == seq![a, b],
{
    let mut v: Vec<usize> = Vec::new();
    v.push(a);
    v.push(b);
    assert(v@ =~= seq![a, b]);
    v
}

fn one_dim(a: usize) -> (v: Vec<usize>)
    ensures
        v@ == seq![a],
{
    let mut v: Vec<usize> = Vec::new();
    v.push(a);
    assert(v@ =~= seq![a]);
    v
}

impl Tracer {
    /// Positions along dimension `dim` of `shape`, in element type `dtype`.
    pub fn iota_along(&mut self, shape: &[usize], dim: usize, dtype: Dtype) -> (r: Val)
        requires
            old(self).wf(),
            dim < shape@.len(),
        ensures
            final(self).wf(),
            (final(self).graph(), r@) == iota_along_val(old(self).graph(), shape@, dim, dtype),
            final(self).inputs == old(self).inputs,
            final(self).rng == old(self).rng,
            grows(old(self).nodes@, final(self).nodes@),
            r.id < final(self).nodes@.len(),
            graph_wf(old(self).nodes@) ==> graph_wf(final(self).nodes@),
    {
        let no_inputs: Vec<usize> = Vec::new();
        assert(no_inputs@ =~= seq![]);
        let idx = self.emit(OpKind::Iota, no_inputs, one_dim(shape[dim]), Dtype::F32);
        let idx = self.convert(&idx, dtype);
        if shape.len() == 1 {
            return idx;
        }
        self.broadcast_along(&idx, shape, one_dim(dim))
    }

    /// A batched vector sorted.
    pub fn sort_val(&mut self, v: BVal) -> (r: Result<BVal, TraceError>)
        requires
            old(self).wf(),
            bval_ok(v@),
        ensures
            final(self).wf(),
            match sort_spec(old(self).graph(), v@) {
                Ok((g, b)) => r matches Ok(rb) && rb@ == b && final(self).graph() == g,
                Err(e) => r matches Err(re) && re@ == e && final(self).nodes == old(self).nodes
                    && final(self).interned == old(self).interned,
            },
            final(self).inputs == old(self).inputs,
            final(self).rng == old(self).rng,
            grows(old(self).nodes@, final(self).nodes@),
            r matches Ok(rb) ==> rb.val.id < final(self).nodes@.len(),
            graph_wf(old(self).nodes@) && v.val.id < old(self).nodes@.len() ==> graph_wf(final(self).nodes@),
    {
        let per = per_shape(&v);
        if per.len() != 1 {
            proof {
                reveal_strlit("sort");
            }
            return Err(TraceError::NotVector("sort".to_owned(), per));
        }
        let val = self.emit(
            OpKind::Sort { axis: v.bdims, num: 1 },
            one_dim(v.val.id),
            copy_shape(v.val.shape.as_slice()),
            v.val.dtype,
        );
        Ok(BVal { val, bdims: v.bdims })
    }

    /// The positions that sort a batched vector.
    pub fn argsort_val(&mut self, v: BVal) -> (r: Result<BVal, TraceError>)
        requires
            old(self).wf(),
            bval_ok(v@),
        ensures
            final(self).wf(),
            match argsort_spec(old(self).graph(), v@) {
                Ok((g, b)) => r matches Ok(rb) && rb@ == b && final(self).graph() == g,
                Err(e) => r matches Err(re) && re@ == e && final(self).nodes == old(self).nodes
                    && final(self).interned == old(self).interned,
            },
            final(self).inputs == old(self).inputs,
            final(self).rng == old(self).rng,
            grows(old(self).nodes@, final(self).nodes@),
            r matches Ok(rb) ==> rb.val.id < final(self).nodes@.len(),
    {
        let per = per_shape(&v);
        if per.len() != 1 {
            return Err(TraceError::NotVector("argsort".to_owned(), per));
        }
        let shape = copy_shape(v.val.shape.as_slice());
        let idx = self.iota_along(shape.as_slice(), v.bdims, Dtype::F32);
        let s = self.emit(
            OpKind::Sort { axis: v.bdims, num: 2 },
            two_dims(v.val.id, idx.id),
            copy_shape(shape.as_slice()),
            v.val.dtype,
        );
        let val = self.emit(OpKind::Proj(1), one_dim(s.id), shape, Dtype::F32);
        Ok(BVal { val, bdims: v.bdims })
    }

    /// The running sums of a batched vector.
    pub fn cumsum_val(&mut self, v: BVal) -> (r: Result<BVal, TraceError>)
        requires
            old(self).wf(),
            bval_ok(v@),
            v.val.shape@.len() + 2 <= usize::MAX,
        ensures
            final(self).wf(),
            match cumsum_spec(old(self).graph(), v@) {
                Ok((g, b)) => r matches Ok(rb) && rb@ == b && final(self).graph() == g,
                Err(e) => r matches Err(re) && re@ == e,
            },
            final(self).inputs == old(self).inputs,
            final(self).rng == old(self).rng,
            grows(old(self).nodes@, final(self).nodes@),
            r matches Ok(rb) ==> rb.val.id < final(self).nodes@.len(),
            graph_wf(old(self).nodes@) && v.val.id < old(self).nodes@.len() ==> graph_wf(final(self).nodes@),
    {
        let per = per_shape(&v);
        if per.len() != 1 {
            return Err(TraceError::NotVector("cumsum".to_owned(), per));
        }
        let n = per[0];
        let dt = v.val.dtype;
        let square = two_dims(n, n);
        let ri = self.iota_along(square.as_slice(), 0, dt);
        let ci = self.iota_along(square.as_slice(), 1, dt);
        let mask = self.emit(OpKind::Compare("LE".to_owned()), two_dims(ci.id, ri.id), two_dims(n, n), Dtype::I1);
        let one = self.constant(crate::grad::number_literal(dt, "1", "1.0"), dt);
        let one_b = self.broadcast(&one, square.as_slice());
        let zero_b = self.zeros(square.as_slice(), dt);
        let tri = self.select(&mask, &one_b, &zero_b);
        self.bmatmul(BVal { val: tri, bdims: 0 }, v)
    }
}

} // verus!
