use vstd::prelude::*;

verus! {

/// Element types a traced value can carry.
#[derive(Debug, Clone, Copy, PartialEq, Eq, Structural)]
pub enum Dtype {
    F32,
    F64,
    I1,
    I32,
    I64,
    U32,
}

/// The MLIR spelling of each element type.
pub open spec fn dtype_name_spec(d: Dtype) -> Seq<char> {
    match d {
        Dtype::F32 => seq!['f', '3', '2'],
        Dtype::F64 => seq!['f', '6', '4'],
        Dtype::I1 => seq!['i', '1'],
        Dtype::I32 => seq!['i', '3', '2'],
        Dtype::I64 => seq!['i', '6', '4'],
        Dtype::U32 => seq!['u', 'i', '3', '2'],
    }
}

impl Dtype {
    pub fn name(self) -> (s: &'static str)
        ensures
            s@ == dtype_name_spec(self),
    {
        match self {
            Dtype::F32 => {
                proof { reveal_strlit("f32"); }
                "f32"
            },
            Dtype::F64 => {
                proof { reveal_strlit("f64"); }
                "f64"
            },
            Dtype::I1 => {
                proof { reveal_strlit("i1"); }
                "i1"
            },
            Dtype::I32 => {
                proof { reveal_strlit("i32"); }
                "i32"
            },
            Dtype::I64 => {
                proof { reveal_strlit("i64"); }
                "i64"
            },
            Dtype::U32 => {
                proof { reveal_strlit("ui32"); }
                "ui32"
            },
        }
    }
}

/// A traced value: its node id, shape and element type.
#[derive(Debug, Clone)]
pub struct Val {
    pub id: usize,
    pub shape: Vec<usize>,
    pub dtype: Dtype,
}

/// A traced value as specifications see it.
pub struct ValV {
    pub id: usize,
    pub shape: Seq<usize>,
    pub dtype: Dtype,
}

impl View for Val {
    type V = ValV;

    open spec fn view(&self) -> ValV {
        ValV { id: self.id, shape: self.shape@, dtype: self.dtype }
    }
}

/// A traced value whose leading `bdims` dimensions are batch dimensions.
#[derive(Debug, Clone)]
pub struct BVal {
    pub val: Val,
    pub bdims: usize,
}

/// A batched value as specifications see it.
pub struct BValV {
    pub val: ValV,
    pub bdims: usize,
}

impl View for BVal {
    type V = BValV;

    open spec fn view(&self) -> BValV {
        BValV { val: self.val@, bdims: self.bdims }
    }
}

/// The shape of one batch element: the dimensions after the batch dimensions.
pub fn per_shape(v: &BVal) -> (r: Vec<usize>)
    requires
        v.bdims <= v.val.shape@.len(),
    ensures
        r@ == v.val.shape@.skip(v.bdims as int),
{
    let mut r: Vec<usize> = Vec::new();
    let mut i: usize = v.bdims;
    while i < v.val.shape.len()
        invariant
            v.bdims <= i <= v.val.shape@.len(),
            r@ == v.val.shape@.subrange(v.bdims as int, i as int),
        decreases v.val.shape.len() - i,
    {
        r.push(v.val.shape[i]);
        i = i + 1;
    }
    r
}

/// Where a program input comes from.
#[derive(Debug, Clone)]
pub enum InputSource {
    Npy(String),
    Safetensors(String, String),
    Csv(String, String),
    Image(String),
    Audio(String),
    Text(String),
    Tokens(String, String),
    Seed,
    Live(String),
}

/// Whether `a` ends with `b`.
pub open spec fn ends_with(a: Seq<usize>, b: Seq<usize>) -> bool {
    b.len() <= a.len() && a.skip(a.len() - b.len()) == b
}

/// The shape two operands broadcast to, aligning trailing dimensions: equal shapes
/// stay, otherwise the longer one wins when it ends with the shorter one, and any other
/// pair does not broadcast.
pub open spec fn broadcast_spec(a: Seq<usize>, b: Seq<usize>) -> Option<Seq<usize>> {
    if a == b {
        Some(a)
    } else if a.len() <= b.len() && ends_with(b, a) {
        Some(b)
    } else if b.len() < a.len() && ends_with(a, b) {
        Some(a)
    } else {
        None
    }
}

pub(crate) fn shapes_equal(a: &[usize], b: &[usize]) -> (r: bool)
    ensures
        r == (a@ == b@),
{
    if a.len() != b.len() {
        return false;
    }
    let mut i: usize = 0;
    while i < a.len()
        invariant
            a@.len() == b@.len(),
            i <= a@.len(),
            a@.take(i as int) == b@.take(i as int),
        decreases a.len() - i,
    {
        if a[i] != b[i] {
            assert(a@[i as int] != b@[i as int]);
            return false;
        }
        assert(a@.take(i + 1) =~= a@.take(i as int).push(a@[i as int]));
        assert(b@.take(i + 1) =~= b@.take(i as int).push(b@[i as int]));
        i = i + 1;
    }
    assert(a@ =~= a@.take(i as int));
    assert(b@ =~= b@.take(i as int));
    true
}

pub(crate) fn shape_ends_with(a: &[usize], b: &[usize]) -> (r: bool)
    ensures
        r == ends_with(a@, b@),
{
    if b.len() > a.len() {
        return false;
    }
    let off = a.len() - b.len();
    let mut i: usize = 0;
    while i < b.len()
        invariant
            off + b.len() == a.len(),
            i <= b@.len(),
            forall|k: int| 0 <= k < i ==> a@[off + k] == b@[k],
        decreases b.len() - i,
    {
        if a[off + i] != b[i] {
            assert(a@.skip(off as int)[i as int] != b@[i as int]);
            return false;
        }
        i = i + 1;
    }
    assert(a@.skip(off as int) =~= b@);
    true
}

pub(crate) fn copy_shape(a: &[usize]) -> (r: Vec<usize>)
    ensures
        r@ == a@,
{
    let mut r: Vec<usize> = Vec::new();
    let mut i: usize = 0;
    while i < a.len()
        invariant
            i <= a@.len(),
            r@ == a@.take(i as int),
        decreases a.len() - i,
    {
        r.push(a[i]);
        assert(a@.take(i + 1) =~= a@.take(i as int).push(a@[i as int]));
        i = i + 1;
    }
    assert(a@.take(i as int) =~= a@);
    r
}

/// The broadcast shape of two operands, or `None` on a shape mismatch.
pub fn broadcast_shape(a: &[usize], b: &[usize]) -> (r: Option<Vec<usize>>)
    ensures
        r matches Some(v) ==> broadcast_spec(a@, b@) == Some(v@),
        r is None <==> broadcast_spec(a@, b@) is None,
{
    if shapes_equal(a, b) {
        Some(copy_shape(a))
    } else if a.len() <= b.len() && shape_ends_with(b, a) {
        Some(copy_shape(b))
    } else if b.len() < a.len() && shape_ends_with(a, b) {
        Some(copy_shape(a))
    } else {
        None
    }
}

/// Broadcasting does not depend on the order of the operands.
pub proof fn law_broadcast_symmetric(a: Seq<usize>, b: Seq<usize>)
    ensures
        broadcast_spec(a, b) == broadcast_spec(b, a),
{
    if a.len() == b.len() && ends_with(b, a) {
        assert(b.skip(0) =~= b);
    }
    if a.len() == b.len() && ends_with(a, b) {
        assert(a.skip(0) =~= a);
    }
}

/// A broadcast shape ends with both operand shapes, and broadcasting it again with either
/// operand gives it back.
pub proof fn law_broadcast_covers(a: Seq<usize>, b: Seq<usize>)
    requires
        broadcast_spec(a, b) is Some,
    ensures
        ends_with(broadcast_spec(a, b)->0, a),
        ends_with(broadcast_spec(a, b)->0, b),
        broadcast_spec(a, broadcast_spec(a, b)->0) == broadcast_spec(a, b),
        broadcast_spec(b, broadcast_spec(a, b)->0) == broadcast_spec(a, b),
{
    assert(a.skip(0) =~= a);
    assert(b.skip(0) =~= b);
    law_broadcast_symmetric(a, b);
}

/// The length of a value that is one vector per batch element, or `None` for any other
/// per-element shape.
pub fn vector_only(v: &BVal) -> (r: Option<usize>)
    requires
        v.bdims <= v.val.shape@.len(),
    ensures
        r == (if v.val.shape@.len() == v.bdims + 1 {
            Some(v.val.shape@[v.bdims as int])
        } else {
            None::<usize>
        }),
{
    let per = per_shape(v);
    if per.len() != 1 {
        return None;
    }
    Some(per[0])
}


/// The operation of a graph node. A scalar constant holds its literal as MLIR writes it,
/// and a dense constant the literal of each element in row-major order. Texts are `String`
/// and id lists `Vec<usize>` in running code; specifications see them as sequences.
#[derive(Debug)]
pub enum OpKind<S = String, V = Vec<usize>, W = Vec<String>> {
    Input,
    Iota,
    Constant(S),
    DenseConst(W),
    Ewise(S),
    Unary(S),
    Convert,
    Broadcast(V),
    Reshape,
    Reduce(S, V),
    Transpose(V),
    Dot(V, V, V, V),
    Compare(S),
    Select,
    Sort { axis: usize, num: usize },
    Gather(usize),
    Scatter,
    Concat(usize),
    Slice(usize, usize, usize),
    DynUpdateSlice,
    IterArg,
    Proj(usize),
    Barrier,
    While { iter_args: V, results: V, body: V, limit: usize, cond: Option<(V, usize)> },
}

pub type OpKindV = OpKind<Seq<char>, Seq<usize>, Seq<Seq<char>>>;

pub open spec fn texts_view(v: Seq<String>) -> Seq<Seq<char>> {
    Seq::new(v.len(), |i: int| v[i]@)
}

pub open spec fn cond_view(c: Option<(Vec<usize>, usize)>) -> Option<(Seq<usize>, usize)> {
    match c {
        Some((ids, out)) => Some((ids@, out)),
        None => None,
    }
}

impl View for OpKind {
    type V = OpKindV;

    open spec fn view(&self) -> OpKindV {
        match self {
            OpKind::Input => OpKind::Input,
            OpKind::Iota => OpKind::Iota,
            OpKind::Constant(t) => OpKind::Constant(t@),
            OpKind::DenseConst(ts) => OpKind::DenseConst(texts_view(ts@)),
            OpKind::Ewise(n) => OpKind::Ewise(n@),
            OpKind::Unary(n) => OpKind::Unary(n@),
            OpKind::Convert => OpKind::Convert,
            OpKind::Broadcast(d) => OpKind::Broadcast(d@),
            OpKind::Reshape => OpKind::Reshape,
            OpKind::Reduce(n, d) => OpKind::Reduce(n@, d@),
            OpKind::Transpose(p) => OpKind::Transpose(p@),
            OpKind::Dot(a, b, c, d) => OpKind::Dot(a@, b@, c@, d@),
            OpKind::Compare(d) => OpKind::Compare(d@),
            OpKind::Select => OpKind::Select,
            OpKind::Sort { axis, num } => OpKind::Sort { axis: *axis, num: *num },
            OpKind::Gather(d) => OpKind::Gather(*d),
            OpKind::Scatter => OpKind::Scatter,
            OpKind::Concat(d) => OpKind::Concat(*d),
            OpKind::Slice(a, b, c) => OpKind::Slice(*a, *b, *c),
            OpKind::DynUpdateSlice => OpKind::DynUpdateSlice,
            OpKind::IterArg => OpKind::IterArg,
            OpKind::Proj(k) => OpKind::Proj(*k),
            OpKind::Barrier => OpKind::Barrier,
            OpKind::While { iter_args, results, body, limit, cond } => OpKind::While {
                iter_args: iter_args@,
                results: results@,
                body: body@,
                limit: *limit,
                cond: cond_view(*cond),
            },
        }
    }
}

/// A node of the traced graph: its operation, operand node ids, result shape and
/// element type.
#[derive(Debug)]
pub struct Node {
    pub kind: OpKind,
    pub inputs: Vec<usize>,
    pub shape: Vec<usize>,
    pub dtype: Dtype,
}

/// A node as specifications see it.
pub struct NodeV {
    pub kind: OpKindV,
    pub inputs: Seq<usize>,
    pub shape: Seq<usize>,
    pub dtype: Dtype,
}

impl View for Node {
    type V = NodeV;

    open spec fn view(&self) -> NodeV {
        NodeV { kind: self.kind@, inputs: self.inputs@, shape: self.shape@, dtype: self.dtype }
    }
}

} // verus!
