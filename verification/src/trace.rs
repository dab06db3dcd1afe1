use vstd::prelude::*;

use crate::emit::{graph_wf, ids_below, inputs_before, node_ok};
use crate::graph::{
    broadcast_spec, copy_shape, ends_with, shape_ends_with, shapes_equal, texts_view, Dtype, InputSource, Node, NodeV,
    OpKind, OpKindV, Val, ValV,
};
use crate::strs::str_eq;

verus! {

/// The splitmix64 output mixing of a state.
pub open spec fn splitmix_mix(state: u64) -> u64 {
    let z1 = (state ^ (state >> 30u64)).wrapping_mul(0xBF58476D1CE4E5B9u64);
    let z2 = (z1 ^ (z1 >> 27u64)).wrapping_mul(0x94D049BB133111EBu64);
    z2 ^ (z2 >> 31u64)
}

/// The graph-building state of the tracer: the graph traced so far, where its inputs come
/// from, the state of its random number generator and, for each open region (the program,
/// then each loop body being traced), the nodes that a later identical request reuses.
pub struct Tracer {
    pub nodes: Vec<Node>,
    pub inputs: Vec<(InputSource, usize)>,
    pub rng: u64,
    pub interned: Vec<Vec<usize>>,
}

/// The traced graph as specifications see it: its nodes and the interning regions.
pub struct GraphV {
    pub nodes: Seq<NodeV>,
    pub frames: Seq<Seq<usize>>,
}

pub open spec fn nodes_view(s: Seq<Node>) -> Seq<NodeV> {
    Seq::new(s.len(), |i: int| s[i]@)
}

pub open spec fn frames_view(s: Seq<Vec<usize>>) -> Seq<Seq<usize>> {
    Seq::new(s.len(), |i: int| s[i]@)
}

/// Whether a graph state is well formed: a region is open and every node a region records
/// exists.
pub open spec fn graph_ok(g: GraphV) -> bool {
    &&& g.frames.len() >= 1
    &&& forall|f: int, k: int|
        0 <= f < g.frames.len() && 0 <= k < g.frames[f].len() ==> #[trigger] g.frames[f][k] < g.nodes.len()
}

impl Tracer {
    pub open spec fn graph(&self) -> GraphV {
        GraphV { nodes: nodes_view(self.nodes@), frames: frames_view(self.interned@) }
    }

    pub open spec fn wf(&self) -> bool {
        graph_ok(self.graph())
    }
}

/// Whether the nodes `new` extend the nodes `old`: every old node is still there, at its
/// id.
pub open spec fn grows(old: Seq<Node>, new: Seq<Node>) -> bool {
    old.len() <= new.len() && forall|i: int| 0 <= i < old.len() ==> new[i] == old[i]
}

/// Whether identical requests for a node of this kind share one node. Inputs, loop
/// arguments, projections, barriers, loops and sorts are always new.
pub open spec fn internable(k: OpKindV) -> bool {
    !(k is Input || k is IterArg || k is Proj || k is Barrier || k is While || k is Sort)
}

/// The first node recorded in `frame`, from position `k` on, that equals `n`.
pub open spec fn find_in_frame(nodes: Seq<NodeV>, frame: Seq<usize>, n: NodeV, k: int) -> Option<usize>
    decreases frame.len() - k,
{
    if k < 0 || k >= frame.len() {
        None
    } else if nodes[frame[k] as int] == n {
        Some(frame[k])
    } else {
        find_in_frame(nodes, frame, n, k + 1)
    }
}

/// A node equal to `n` recorded in a region, searching from the innermost region out.
pub open spec fn find_interned(nodes: Seq<NodeV>, frames: Seq<Seq<usize>>, n: NodeV) -> Option<usize>
    decreases frames.len(),
{
    if frames.len() == 0 {
        None
    } else {
        match find_in_frame(nodes, frames.last(), n, 0) {
            Some(id) => Some(id),
            None => find_interned(nodes, frames.drop_last(), n),
        }
    }
}

/// The graph after a request for the node `n`, and the id of the node that answers it: an
/// equal node already recorded where `n` is internable, else `n` appended (and recorded in
/// the innermost region where it is internable).
pub open spec fn emit_spec(g: GraphV, n: NodeV) -> (GraphV, usize) {
    if internable(n.kind) && find_interned(g.nodes, g.frames, n) is Some {
        (g, find_interned(g.nodes, g.frames, n)->0)
    } else if internable(n.kind) {
        (
            GraphV {
                nodes: g.nodes.push(n),
                frames: g.frames.update(g.frames.len() - 1, g.frames.last().push(g.nodes.len() as usize)),
            },
            g.nodes.len() as usize,
        )
    } else {
        (GraphV { nodes: g.nodes.push(n), frames: g.frames }, g.nodes.len() as usize)
    }
}

/// The same, with the traced value that answers the request.
pub open spec fn emit_val(g: GraphV, n: NodeV) -> (GraphV, ValV) {
    (emit_spec(g, n).0, ValV { id: emit_spec(g, n).1, shape: n.shape, dtype: n.dtype })
}


/// The value converted to `dtype`; a value already of that type is itself.
pub open spec fn convert_val(g: GraphV, v: ValV, dtype: Dtype) -> (GraphV, ValV) {
    if v.dtype == dtype {
        (g, v)
    } else {
        emit_val(g, NodeV { kind: OpKindV::Convert, inputs: seq![v.id], shape: v.shape, dtype })
    }
}

/// The last `k` of `n` dimensions.
pub open spec fn trailing_dims(k: nat, n: nat) -> Seq<usize> {
    Seq::new(k, |i: int| (n - k + i) as usize)
}

/// The value broadcast to `shape`, its dimensions landing on `dims`.
pub open spec fn broadcast_along_val(g: GraphV, v: ValV, shape: Seq<usize>, dims: Seq<usize>) -> (GraphV, ValV) {
    emit_val(g, NodeV { kind: OpKindV::Broadcast(dims), inputs: seq![v.id], shape, dtype: v.dtype })
}

/// The value broadcast to `shape`, aligning its dimensions with the trailing ones.
pub open spec fn broadcast_val(g: GraphV, v: ValV, shape: Seq<usize>) -> (GraphV, ValV) {
    broadcast_along_val(g, v, shape, trailing_dims(v.shape.len(), shape.len()))
}

pub open spec fn unary_val(g: GraphV, name: Seq<char>, v: ValV) -> (GraphV, ValV) {
    emit_val(g, NodeV { kind: OpKindV::Unary(name), inputs: seq![v.id], shape: v.shape, dtype: v.dtype })
}

pub open spec fn reshape_val(g: GraphV, v: ValV, shape: Seq<usize>) -> (GraphV, ValV) {
    emit_val(g, NodeV { kind: OpKindV::Reshape, inputs: seq![v.id], shape, dtype: v.dtype })
}

/// A comparison gives booleans of the first operand's shape.
pub open spec fn compare_val(g: GraphV, dir: Seq<char>, a: ValV, b: ValV) -> (GraphV, ValV) {
    emit_val(g, NodeV { kind: OpKindV::Compare(dir), inputs: seq![a.id, b.id], shape: a.shape, dtype: Dtype::I1 })
}

/// A selection takes the shape and type of its values.
pub open spec fn select_val(g: GraphV, pred: ValV, on_true: ValV, on_false: ValV) -> (GraphV, ValV) {
    emit_val(
        g,
        NodeV {
            kind: OpKindV::Select,
            inputs: seq![pred.id, on_true.id, on_false.id],
            shape: on_true.shape,
            dtype: on_true.dtype,
        },
    )
}

/// A scalar constant with the literal `lit`.
pub open spec fn constant_val(g: GraphV, lit: Seq<char>, dtype: Dtype) -> (GraphV, ValV) {
    emit_val(g, NodeV { kind: OpKindV::Constant(lit), inputs: seq![], shape: seq![], dtype })
}

/// How MLIR writes zero for each element type: integers as `0`, the others as `0.0`.
pub open spec fn zero_text(dtype: Dtype) -> Seq<char> {
    match dtype {
        Dtype::I32 | Dtype::I64 | Dtype::U32 => seq!['0'],
        _ => seq!['0', '.', '0'],
    }
}

/// Zeros of a shape: a scalar zero, broadcast unless the shape is a scalar's.
pub open spec fn zeros_val(g: GraphV, shape: Seq<usize>, dtype: Dtype) -> (GraphV, ValV) {
    let (g1, z) = constant_val(g, zero_text(dtype), dtype);
    if shape.len() == 0 {
        (g1, z)
    } else {
        broadcast_val(g1, z, shape)
    }
}

/// Why an operation cannot be traced on its operands. Shapes are `Vec<usize>` and names
/// `String` in running code, sequences in specifications.
#[derive(Debug, PartialEq)]
pub enum TraceError<V = Vec<usize>, S = String> {
    /// The element types differ and neither operand is a scalar.
    DtypeMismatch(Dtype, Dtype),
    /// The shapes do not broadcast.
    ShapeMismatch(V, V),
    /// Arithmetic, named, on a boolean operand.
    BooleanArithmetic(S),
    /// A comparison with a boolean operand.
    BooleanComparison,
    /// Matrix product operands of different element types.
    MatmulDtype(Dtype, Dtype),
    /// A matrix product with a scalar operand.
    MatmulRank(V, V),
    /// Matrix product operands whose contracted dimensions differ.
    MatmulContraction(V, V),
    /// A matrix product with batch dimensions where an operand is a vector.
    MatmulNotMatrices(V, V),
    /// Matrix product operands whose batch dimensions differ.
    MatmulBatchMismatch(V, V),
    /// Array elements of different shapes.
    StackShapes(V, V),
    /// Array elements of different element types.
    StackDtypes(Dtype, Dtype),
    /// An elementwise operation, named, without a gradient rule.
    NoGradient(S),
    /// An operation kind without a gradient rule.
    NoGradientRule,
    /// A gradient through a dot product that is not a (batched) matrix product.
    MatmulGradient,
    /// An operation, named, that takes a vector, on a value of another element shape.
    NotVector(S, V),
    /// An operation, named, that needs rank 1 or more, on a scalar.
    ScalarArgument(S),
    /// A one-hot encoding of a value of rank above 1.
    OneHotRank(V),
    /// A one-hot encoding of depth 0.
    OneHotDepth,
    /// A lookup in a value of rank other than 1 or 2.
    TakeRank(V),
    /// A lookup with indices of rank above 1.
    TakeIndices(V),
    /// A value whose batch dimensions, node or rank the tracer cannot use.
    Unusable,
    /// Records with different numbers of fields, combined elementwise.
    RecordFieldCount(usize, usize),
    /// A field, named, that one record of an elementwise pair lacks.
    MissingField(S),
    /// A field access, named, on a record without that field.
    NoField(S),
    /// A field access, named, on a tensor.
    FieldOnTensor(S),
    /// A string literal outside the one place that takes it.
    StringLiteral,
    /// A name bound to nothing.
    Undefined(S),
    /// A function, named, used as a value.
    FunctionValue(S),
    /// An array literal without elements.
    EmptyArray,
    /// An array literal with a record element.
    RecordElement,
    /// A comparison with a record operand.
    RecordComparison,
    /// A call, named, of a value.
    NotCallable(S),
    /// A call of a function, named, with a number of arguments other than its parameters.
    Arity(S, usize, usize),
    /// Calls nested deeper than the tracer was allowed.
    CallDepth,
    /// A call of a name, given, that is neither a declared function nor a built-in the
    /// tracer knows.
    Builtin(S),
    /// A built-in, named, called with a number of arguments, given, that it does not take.
    BuiltinArgs(S, usize),
    /// A built-in, named, given a record where it takes a tensor.
    RecordArgument(S),
    /// A built-in, named, that cannot take booleans, given a boolean tensor.
    BooleanArgument(S),
    /// A selection whose condition is not boolean.
    ConditionNotBoolean,
    /// A built-in, named, whose argument must be a number literal of at most ten
    /// characters, possibly negated.
    NotLiteral(S),
    /// A built-in, named, whose argument must be a whole, non-negative number literal.
    NotCount(S),
    /// A range with a step of zero.
    StepZero,
    /// A range without elements, or with more than a count can hold.
    EmptyRange,
    /// A built-in, named, whose argument must be a path string literal.
    PathLiteral(S),
    /// A load of an image, at the path given, in a format other than png.
    ConvertToPng(S),
    /// A load of compressed audio, at the path given, rather than wav.
    ConvertToWav(S),
    /// A load of a file, at the path given, whose contents the program runner reads.
    LoadFile(S),
    /// A gradient rule, at a node, that cannot run there: its node, its operands or the
    /// dimensions it reads are missing.
    GradientNotReady,
    /// A loop, which this tracer does not trace.
    LoopNotTraced,
}

impl View for TraceError {
    type V = TraceError<Seq<usize>, Seq<char>>;

    open spec fn view(&self) -> TraceError<Seq<usize>, Seq<char>> {
        match self {
            TraceError::DtypeMismatch(a, b) => TraceError::DtypeMismatch(*a, *b),
            TraceError::ShapeMismatch(a, b) => TraceError::ShapeMismatch(a@, b@),
            TraceError::BooleanArithmetic(n) => TraceError::BooleanArithmetic(n@),
            TraceError::BooleanComparison => TraceError::BooleanComparison,
            TraceError::MatmulDtype(a, b) => TraceError::MatmulDtype(*a, *b),
            TraceError::MatmulRank(a, b) => TraceError::MatmulRank(a@, b@),
            TraceError::MatmulContraction(a, b) => TraceError::MatmulContraction(a@, b@),
            TraceError::MatmulNotMatrices(a, b) => TraceError::MatmulNotMatrices(a@, b@),
            TraceError::MatmulBatchMismatch(a, b) => TraceError::MatmulBatchMismatch(a@, b@),
            TraceError::StackShapes(a, b) => TraceError::StackShapes(a@, b@),
            TraceError::StackDtypes(a, b) => TraceError::StackDtypes(*a, *b),
            TraceError::NoGradient(n) => TraceError::NoGradient(n@),
            TraceError::NoGradientRule => TraceError::NoGradientRule,
            TraceError::MatmulGradient => TraceError::MatmulGradient,
            TraceError::NotVector(n, p) => TraceError::NotVector(n@, p@),
            TraceError::ScalarArgument(n) => TraceError::ScalarArgument(n@),
            TraceError::OneHotRank(p) => TraceError::OneHotRank(p@),
            TraceError::OneHotDepth => TraceError::OneHotDepth,
            TraceError::TakeRank(p) => TraceError::TakeRank(p@),
            TraceError::TakeIndices(p) => TraceError::TakeIndices(p@),
            TraceError::Unusable => TraceError::Unusable,
            TraceError::RecordFieldCount(a, b) => TraceError::RecordFieldCount(*a, *b),
            TraceError::MissingField(n) => TraceError::MissingField(n@),
            TraceError::NoField(n) => TraceError::NoField(n@),
            TraceError::FieldOnTensor(n) => TraceError::FieldOnTensor(n@),
            TraceError::StringLiteral => TraceError::StringLiteral,
            TraceError::Undefined(n) => TraceError::Undefined(n@),
            TraceError::FunctionValue(n) => TraceError::FunctionValue(n@),
            TraceError::EmptyArray => TraceError::EmptyArray,
            TraceError::RecordElement => TraceError::RecordElement,
            TraceError::RecordComparison => TraceError::RecordComparison,
            TraceError::NotCallable(n) => TraceError::NotCallable(n@),
            TraceError::Arity(n, a, b) => TraceError::Arity(n@, *a, *b),
            TraceError::CallDepth => TraceError::CallDepth,
            TraceError::Builtin(n) => TraceError::Builtin(n@),
            TraceError::LoopNotTraced => TraceError::LoopNotTraced,
            TraceError::BuiltinArgs(n, k) => TraceError::BuiltinArgs(n@, *k),
            TraceError::RecordArgument(n) => TraceError::RecordArgument(n@),
            TraceError::BooleanArgument(n) => TraceError::BooleanArgument(n@),
            TraceError::ConditionNotBoolean => TraceError::ConditionNotBoolean,
            TraceError::GradientNotReady => TraceError::GradientNotReady,
            TraceError::NotLiteral(n) => TraceError::NotLiteral(n@),
            TraceError::NotCount(n) => TraceError::NotCount(n@),
            TraceError::StepZero => TraceError::StepZero,
            TraceError::EmptyRange => TraceError::EmptyRange,
            TraceError::PathLiteral(n) => TraceError::PathLiteral(n@),
            TraceError::ConvertToPng(n) => TraceError::ConvertToPng(n@),
            TraceError::ConvertToWav(n) => TraceError::ConvertToWav(n@),
            TraceError::LoadFile(n) => TraceError::LoadFile(n@),
        }
    }
}

pub type TraceErrorV = TraceError<Seq<usize>, Seq<char>>;

/// Operands of one element type: a scalar operand takes the other's type.
pub open spec fn dtype_align(g: GraphV, a: ValV, b: ValV) -> (GraphV, ValV, ValV) {
    if a.dtype == b.dtype {
        (g, a, b)
    } else if a.shape.len() == 0 {
        (convert_val(g, a, b.dtype).0, convert_val(g, a, b.dtype).1, b)
    } else {
        (convert_val(g, b, a.dtype).0, a, convert_val(g, b, a.dtype).1)
    }
}

/// Operands of one shape: the operand whose shape the other ends with is broadcast to it.
pub open spec fn shape_align(g: GraphV, a: ValV, b: ValV) -> (GraphV, ValV, ValV) {
    if a.shape == b.shape {
        (g, a, b)
    } else if a.shape.len() <= b.shape.len() && ends_with(b.shape, a.shape) {
        (broadcast_val(g, a, b.shape).0, broadcast_val(g, a, b.shape).1, b)
    } else {
        (broadcast_val(g, b, a.shape).0, a, broadcast_val(g, b, a.shape).1)
    }
}

/// An elementwise operation on two operands: their element types must agree unless one is
/// a scalar, and their shapes must broadcast; the operands are aligned, then combined.
pub open spec fn ewise_val(g: GraphV, name: Seq<char>, a: ValV, b: ValV) -> Result<(GraphV, ValV), TraceErrorV> {
    if !(a.dtype == b.dtype || a.shape.len() == 0 || b.shape.len() == 0) {
        Err(TraceError::DtypeMismatch(a.dtype, b.dtype))
    } else if broadcast_spec(a.shape, b.shape) is None {
        Err(TraceError::ShapeMismatch(a.shape, b.shape))
    } else {
        let (g1, a1, b1) = dtype_align(g, a, b);
        let (g2, a2, b2) = shape_align(g1, a1, b1);
        Ok(
            emit_val(
                g2,
                NodeV { kind: OpKindV::Ewise(name), inputs: seq![a2.id, b2.id], shape: a2.shape, dtype: a2.dtype },
            ),
        )
    }
}

proof fn lemma_find_in_frame(nodes: Seq<NodeV>, frame: Seq<usize>, n: NodeV, k: int)
    requires
        forall|j: int| 0 <= j < frame.len() ==> #[trigger] frame[j] < nodes.len(),
    ensures
        find_in_frame(nodes, frame, n, k) matches Some(id) ==> id < nodes.len() && nodes[id as int] == n,
    decreases frame.len() - k,
{
    if 0 <= k < frame.len() && nodes[frame[k] as int] != n {
        lemma_find_in_frame(nodes, frame, n, k + 1);
    }
}

/// What an interning lookup finds is a node equal to the request.
proof fn lemma_find_interned(nodes: Seq<NodeV>, frames: Seq<Seq<usize>>, n: NodeV)
    requires
        forall|f: int, k: int| 0 <= f < frames.len() && 0 <= k < frames[f].len() ==> #[trigger] frames[f][k] < nodes.len(),
    ensures
        find_interned(nodes, frames, n) matches Some(id) ==> id < nodes.len() && nodes[id as int] == n,
    decreases frames.len(),
{
    if frames.len() > 0 {
        let last = frames.last();
        assert forall|j: int| 0 <= j < last.len() implies #[trigger] last[j] < nodes.len() by {
            assert(frames[frames.len() - 1][j] < nodes.len());
        }
        lemma_find_in_frame(nodes, last, n, 0);
        let rest = frames.drop_last();
        assert forall|f: int, k: int| 0 <= f < rest.len() && 0 <= k < rest[f].len() implies #[trigger] rest[f][k]
            < nodes.len() by {
            assert(frames[f][k] < nodes.len());
        }
        lemma_find_interned(nodes, rest, n);
    }
}

/// Whether two id lists are equal.
fn usizes_eq(a: &Vec<usize>, b: &Vec<usize>) -> (r: bool)
    ensures
        r == (a@ == b@),
{
    if a.len() != b.len() {
        return false;
    }
    let mut i: usize = 0;
    while i < a.len()
        invariant
            i <= a@.len(),
            a@.len() == b@.len(),
            forall|k: int| 0 <= k < i ==> a@[k] == b@[k],
        decreases a.len() - i,
    {
        if a[i] != b[i] {
            return false;
        }
        i = i + 1;
    }
    assert(a@ =~= b@);
    true
}

/// Whether two lists of texts are equal.
fn texts_eq(a: &Vec<String>, b: &Vec<String>) -> (r: bool)
    ensures
        r == (texts_view(a@) == texts_view(b@)),
{
    if a.len() != b.len() {
        assert(texts_view(a@).len() != texts_view(b@).len());
        return false;
    }
    let mut i: usize = 0;
    while i < a.len()
        invariant
            i <= a@.len(),
            a@.len() == b@.len(),
            forall|k: int| 0 <= k < i ==> a@[k]@ == b@[k]@,
        decreases a.len() - i,
    {
        if !str_eq(a[i].as_str(), b[i].as_str()) {
            assert(texts_view(a@)[i as int] != texts_view(b@)[i as int]);
            return false;
        }
        i = i + 1;
    }
    assert(texts_view(a@) =~= texts_view(b@));
    true
}

/// Whether two loop conditions are equal.
fn cond_eq(a: &Option<(Vec<usize>, usize)>, b: &Option<(Vec<usize>, usize)>) -> (r: bool)
    ensures
        r == (crate::graph::cond_view(*a) == crate::graph::cond_view(*b)),
{
    match (a, b) {
        (Some((x, i)), Some((y, j))) => *i == *j && usizes_eq(x, y),
        (None, None) => true,
        _ => false,
    }
}

/// Whether two operations are equal.
fn kind_eq(a: &OpKind, b: &OpKind) -> (r: bool)
    ensures
        r == (a@ == b@),
{
    match (a, b) {
        (OpKind::Input, OpKind::Input) => true,
        (OpKind::Iota, OpKind::Iota) => true,
        (OpKind::Constant(x), OpKind::Constant(y)) => str_eq(x.as_str(), y.as_str()),
        (OpKind::DenseConst(x), OpKind::DenseConst(y)) => texts_eq(x, y),
        (OpKind::Ewise(x), OpKind::Ewise(y)) => str_eq(x.as_str(), y.as_str()),
        (OpKind::Unary(x), OpKind::Unary(y)) => str_eq(x.as_str(), y.as_str()),
        (OpKind::Convert, OpKind::Convert) => true,
        (OpKind::Broadcast(x), OpKind::Broadcast(y)) => usizes_eq(x, y),
        (OpKind::Reshape, OpKind::Reshape) => true,
        (OpKind::Reduce(x, d), OpKind::Reduce(y, e)) => str_eq(x.as_str(), y.as_str()) && usizes_eq(d, e),
        (OpKind::Transpose(x), OpKind::Transpose(y)) => usizes_eq(x, y),
        (OpKind::Dot(a1, a2, a3, a4), OpKind::Dot(b1, b2, b3, b4)) => usizes_eq(a1, b1) && usizes_eq(a2, b2)
            && usizes_eq(a3, b3) && usizes_eq(a4, b4),
        (OpKind::Compare(x), OpKind::Compare(y)) => str_eq(x.as_str(), y.as_str()),
        (OpKind::Select, OpKind::Select) => true,
        (OpKind::Sort { axis: a1, num: n1 }, OpKind::Sort { axis: a2, num: n2 }) => *a1 == *a2 && *n1 == *n2,
        (OpKind::Gather(x), OpKind::Gather(y)) => *x == *y,
        (OpKind::Scatter, OpKind::Scatter) => true,
        (OpKind::Concat(x), OpKind::Concat(y)) => *x == *y,
        (OpKind::Slice(a1, a2, a3), OpKind::Slice(b1, b2, b3)) => *a1 == *b1 && *a2 == *b2 && *a3 == *b3,
        (OpKind::DynUpdateSlice, OpKind::DynUpdateSlice) => true,
        (OpKind::IterArg, OpKind::IterArg) => true,
        (OpKind::Proj(x), OpKind::Proj(y)) => *x == *y,
        (OpKind::Barrier, OpKind::Barrier) => true,
        (
            OpKind::While { iter_args: a1, results: a2, body: a3, limit: a4, cond: a5 },
            OpKind::While { iter_args: b1, results: b2, body: b3, limit: b4, cond: b5 },
        ) => *a4 == *b4 && usizes_eq(a1, b1) && usizes_eq(a2, b2) && usizes_eq(a3, b3) && cond_eq(a5, b5),
        _ => false,
    }
}


fn ids_copy(v: &Vec<usize>) -> (r: Vec<usize>)
    ensures
        r@ == v@,
{
    copy_shape(v.as_slice())
}

fn texts_copy(v: &Vec<String>) -> (r: Vec<String>)
    ensures
        texts_view(r@) == texts_view(v@),
{
    let mut r: Vec<String> = Vec::new();
    let mut i: usize = 0;
    while i < v.len()
        invariant
            i <= v@.len(),
            texts_view(r@) == texts_view(v@).take(i as int),
        decreases v.len() - i,
    {
        let ghost before = r@;
        r.push(v[i].clone());
        assert(texts_view(r@) =~= texts_view(before).push(v@[i as int]@));
        assert(texts_view(v@).take(i + 1) =~= texts_view(v@).take(i as int).push(v@[i as int]@));
        i = i + 1;
    }
    assert(texts_view(v@).take(i as int) =~= texts_view(v@));
    r
}

/// A copy of an operation.
pub fn kind_copy(k: &OpKind) -> (r: OpKind)
    ensures
        r@ == k@,
{
    match k {
        OpKind::Input => OpKind::Input,
        OpKind::Iota => OpKind::Iota,
        OpKind::Constant(t) => OpKind::Constant(t.clone()),
        OpKind::DenseConst(ts) => OpKind::DenseConst(texts_copy(ts)),
        OpKind::Ewise(n) => OpKind::Ewise(n.clone()),
        OpKind::Unary(n) => OpKind::Unary(n.clone()),
        OpKind::Convert => OpKind::Convert,
        OpKind::Broadcast(d) => OpKind::Broadcast(ids_copy(d)),
        OpKind::Reshape => OpKind::Reshape,
        OpKind::Reduce(n, d) => OpKind::Reduce(n.clone(), ids_copy(d)),
        OpKind::Transpose(p) => OpKind::Transpose(ids_copy(p)),
        OpKind::Dot(a, b, c, d) => OpKind::Dot(ids_copy(a), ids_copy(b), ids_copy(c), ids_copy(d)),
        OpKind::Compare(d) => OpKind::Compare(d.clone()),
        OpKind::Select => OpKind::Select,
        OpKind::Sort { axis, num } => OpKind::Sort { axis: *axis, num: *num },
        OpKind::Gather(d) => OpKind::Gather(*d),
        OpKind::Scatter => OpKind::Scatter,
        OpKind::Concat(d) => OpKind::Concat(*d),
        OpKind::Slice(a, b, c) => OpKind::Slice(*a, *b, *c),
        OpKind::DynUpdateSlice => OpKind::DynUpdateSlice,
        OpKind::IterArg => OpKind::IterArg,
        OpKind::Proj(k) => OpKind::Proj(*k),
        OpKind::Barrier => OpKind::Barrier,
        OpKind::While { iter_args, results, body, limit, cond } => OpKind::While {
            iter_args: ids_copy(iter_args),
            results: ids_copy(results),
            body: ids_copy(body),
            limit: *limit,
            cond: match cond {
                Some((ids, out)) => Some((ids_copy(ids), *out)),
                None => None,
            },
        },
    }
}

/// Whether a node is the one requested.
fn node_is(n: &Node, kind: &OpKind, inputs: &Vec<usize>, shape: &Vec<usize>, dtype: Dtype) -> (r: bool)
    ensures
        r == (n@ == (NodeV { kind: kind@, inputs: inputs@, shape: shape@, dtype })),
{
    n.dtype == dtype && kind_eq(&n.kind, kind) && usizes_eq(&n.inputs, inputs) && usizes_eq(&n.shape, shape)
}

/// The node recorded in a region that equals the request, searching from the innermost
/// region out.
fn find_node(
    nodes: &Vec<Node>,
    frames: &Vec<Vec<usize>>,
    kind: &OpKind,
    inputs: &Vec<usize>,
    shape: &Vec<usize>,
    dtype: Dtype,
) -> (r: Option<usize>)
    requires
        forall|f: int, k: int|
            0 <= f < frames@.len() && 0 <= k < frames@[f]@.len() ==> #[trigger] frames@[f]@[k] < nodes@.len(),
    ensures
        r == find_interned(
            nodes_view(nodes@),
            frames_view(frames@),
            NodeV { kind: kind@, inputs: inputs@, shape: shape@, dtype },
        ),
{
    let ghost nv = NodeV { kind: kind@, inputs: inputs@, shape: shape@, dtype };
    let ghost nsv = nodes_view(nodes@);
    let ghost fsv = frames_view(frames@);
    let mut f = frames.len();
    assert(fsv.take(f as int) =~= fsv);
    while f > 0
        invariant
            f <= frames@.len(),
            nv == (NodeV { kind: kind@, inputs: inputs@, shape: shape@, dtype }),
            nsv == nodes_view(nodes@),
            fsv == frames_view(frames@),
            forall|g: int, k: int|
                0 <= g < frames@.len() && 0 <= k < frames@[g]@.len() ==> #[trigger] frames@[g]@[k] < nodes@.len(),
            find_interned(nsv, fsv, nv) == find_interned(nsv, fsv.take(f as int), nv),
        decreases f,
    {
        let frame = &frames[f - 1];
        let ghost fr = frame@;
        assert(fsv.take(f as int).last() == fr);
        assert(fsv.take(f as int).drop_last() =~= fsv.take(f - 1));
        assert(find_interned(nsv, fsv, nv) == (match find_in_frame(nsv, fr, nv, 0) {
            Some(id) => Some(id),
            None => find_interned(nsv, fsv.take(f - 1), nv),
        }));
        let mut k: usize = 0;
        while k < frame.len()
            invariant
                k <= fr.len(),
                fr == frame@,
                fsv == frames_view(frames@),
                nv == (NodeV { kind: kind@, inputs: inputs@, shape: shape@, dtype }),
                nsv == nodes_view(nodes@),
                find_interned(nsv, fsv, nv) == (match find_in_frame(nsv, fr, nv, 0) {
                    Some(id) => Some(id),
                    None => find_interned(nsv, fsv.take(f - 1), nv),
                }),
                forall|j: int| 0 <= j < fr.len() ==> #[trigger] fr[j] < nodes@.len(),
                find_in_frame(nsv, fr, nv, 0) == find_in_frame(nsv, fr, nv, k as int),
            decreases frame.len() - k,
        {
            let id = frame[k];
            assert(fr[k as int] < nodes@.len());
            assert(nsv[id as int] == nodes@[id as int]@);
            let same = node_is(&nodes[id], kind, inputs, shape, dtype);
            if same {
                return Some(id);
            }
            k = k + 1;
        }
        f = f - 1;
    }
    None
}

impl Tracer {
    /// A tracer with an empty graph, one open region and the given generator state.
    pub fn new(rng: u64) -> (t: Tracer)
        ensures
            t.wf(),
            t.nodes@.len() == 0,
            t.inputs@.len() == 0,
            t.rng == rng,
            t.graph().frames == seq![Seq::<usize>::empty()],
    {
        let mut interned: Vec<Vec<usize>> = Vec::new();
        interned.push(Vec::new());
        let t = Tracer { nodes: Vec::new(), inputs: Vec::new(), rng, interned };
        assert(t.graph().frames =~= seq![Seq::<usize>::empty()]);
        t
    }

    /// The traced value of node `id`.
    pub fn val(&self, id: usize) -> (r: Val)
        requires
            id < self.nodes@.len(),
        ensures
            r@ == (ValV { id, shape: self.nodes@[id as int].shape@, dtype: self.nodes@[id as int].dtype }),
    {
        let node = &self.nodes[id];
        Val { id, shape: copy_shape(node.shape.as_slice()), dtype: node.dtype }
    }

    /// Requests a node: an identical internable node already recorded in an open region
    /// answers it; otherwise the node is appended, and recorded in the innermost region if
    /// it is internable.
    pub fn emit(&mut self, kind: OpKind, inputs: Vec<usize>, shape: Vec<usize>, dtype: Dtype) -> (r: Val)
        requires
            old(self).wf(),
        ensures
            final(self).wf(),
            (final(self).graph(), r@) == emit_val(
                old(self).graph(),
                NodeV { kind: kind@, inputs: inputs@, shape: shape@, dtype },
            ),
            r.id < final(self).nodes@.len(),
            grows(old(self).nodes@, final(self).nodes@),
            final(self).inputs == old(self).inputs,
            final(self).rng == old(self).rng,
            graph_wf(old(self).nodes@) && ids_below(inputs@, old(self).nodes@.len() as int) && node_ok(
                old(self).nodes@.push(Node { kind, inputs, shape, dtype }),
                old(self).nodes@.len() as int,
            ) ==> graph_wf(final(self).nodes@),
    {
        let ghost g = self.graph();
        let ghost nv = NodeV { kind: kind@, inputs: inputs@, shape: shape@, dtype };
        let ghost pushed = Node { kind, inputs, shape, dtype };
        let internable = match &kind {
            OpKind::Input | OpKind::IterArg | OpKind::Proj(_) | OpKind::Barrier | OpKind::While { .. }
            | OpKind::Sort { .. } => false,
            _ => true,
        };
        assert(internable == crate::trace::internable(kind@));
        proof {
            assert forall|f: int, k: int|
                0 <= f < self.interned@.len() && 0 <= k < self.interned@[f]@.len() implies #[trigger] self.interned@[f]@[k]
                < self.nodes@.len() by {
                assert(g.frames[f][k] < g.nodes.len());
            }
            lemma_find_interned(g.nodes, g.frames, nv);
        }
        if internable {
            match find_node(&self.nodes, &self.interned, &kind, &inputs, &shape, dtype) {
                Some(id) => {
                    return self.val(id);
                },
                None => {},
            }
        }
        let id = self.nodes.len();
        let out_shape = copy_shape(shape.as_slice());
        self.nodes.push(Node { kind, inputs, shape, dtype });
        if internable {
            let mut frame = self.interned.pop().unwrap();
            frame.push(id);
            self.interned.push(frame);
        }
        proof {
            assert(self.graph().nodes =~= g.nodes.push(nv));
            if internable {
                assert(self.graph().frames =~= g.frames.update(g.frames.len() - 1, g.frames.last().push(id)));
            } else {
                assert(self.graph().frames =~= g.frames);
            }
            let ng = self.graph();
            assert forall|f: int, k: int| 0 <= f < ng.frames.len() && 0 <= k < ng.frames[f].len() implies #[trigger] ng.frames[f][k]
                < ng.nodes.len() by {
                if f < g.frames.len() - 1 || !internable || k < g.frames[f].len() {
                    assert(g.frames[f][k] < g.nodes.len());
                }
            }
            if graph_wf(old(self).nodes@) && ids_below(pushed.inputs@, id as int) && node_ok(
                old(self).nodes@.push(pushed),
                id as int,
            ) {
                law_append_keeps_graph_wf(old(self).nodes@, pushed);
            }
        }
        Val { id, shape: out_shape, dtype }
    }
}


fn ids1(a: usize) -> (v: Vec<usize>)
    ensures
        v@ == seq![a],
{
    let mut v: Vec<usize> = Vec::new();
    v.push(a);
    assert(v@ =~= seq![a]);
    v
}

fn ids2(a: usize, b: usize) -> (v: Vec<usize>)
    ensures
        v@ == seq![a, b],
{
    let mut v: Vec<usize> = Vec::new();
    v.push(a);
    v.push(b);
    assert(v@ =~= seq![a, b]);
    v
}

fn ids3(a: usize, b: usize, c: usize) -> (v: Vec<usize>)
    ensures
        v@ == seq![a, b, c],
{
    let mut v: Vec<usize> = Vec::new();
    v.push(a);
    v.push(b);
    v.push(c);
    assert(v@ =~= seq![a, b, c]);
    v
}

/// How MLIR writes zero for an element type.
pub(crate) fn zero_literal(dtype: Dtype) -> (s: String)
    ensures
        s@ == zero_text(dtype),
{
    match dtype {
        Dtype::I32 | Dtype::I64 | Dtype::U32 => {
            proof {
                reveal_strlit("0");
            }
            let s = "0".to_owned();
            assert(s@ =~= seq!['0']);
            s
        },
        _ => {
            proof {
                reveal_strlit("0.0");
            }
            let s = "0.0".to_owned();
            assert(s@ =~= seq!['0', '.', '0']);
            s
        },
    }
}

impl Tracer {
    /// A program input fed at run time under `key`.
    pub fn live_input(&mut self, key: String, shape: Vec<usize>, dtype: Dtype) -> (r: Val)
        requires
            old(self).wf(),
        ensures
            final(self).wf(),
            (final(self).graph(), r@) == emit_val(
                old(self).graph(),
                NodeV { kind: OpKindV::Input, inputs: seq![], shape: shape@, dtype },
            ),
            final(self).inputs@ == old(self).inputs@.push((InputSource::Live(key), r.id)),
            final(self).rng == old(self).rng,
            r.id < final(self).nodes@.len(),
            grows(old(self).nodes@, final(self).nodes@),
            graph_wf(old(self).nodes@) ==> graph_wf(final(self).nodes@),
    {
        let val = self.emit(OpKind::Input, Vec::new(), shape, dtype);
        self.inputs.push((InputSource::Live(key), val.id));
        val
    }

    /// A scalar constant with the literal `lit`.
    pub fn constant(&mut self, lit: String, dtype: Dtype) -> (r: Val)
        requires
            old(self).wf(),
        ensures
            final(self).wf(),
            (final(self).graph(), r@) == constant_val(old(self).graph(), lit@, dtype),
            final(self).inputs == old(self).inputs,
            final(self).rng == old(self).rng,
            r.id < final(self).nodes@.len(),
            grows(old(self).nodes@, final(self).nodes@),
            graph_wf(old(self).nodes@) ==> graph_wf(final(self).nodes@),
    {
        self.emit(OpKind::Constant(lit), Vec::new(), Vec::new(), dtype)
    }

    /// The value converted to `dtype`, or the value itself where it has that type.
    pub fn convert(&mut self, v: &Val, dtype: Dtype) -> (r: Val)
        requires
            old(self).wf(),
        ensures
            final(self).wf(),
            (final(self).graph(), r@) == convert_val(old(self).graph(), v@, dtype),
            final(self).inputs == old(self).inputs,
            final(self).rng == old(self).rng,
            v.id < old(self).nodes@.len() ==> r.id < final(self).nodes@.len(),
            grows(old(self).nodes@, final(self).nodes@),
            graph_wf(old(self).nodes@) && v.id < old(self).nodes@.len() ==> graph_wf(final(self).nodes@),
    {
        if v.dtype == dtype {
            return Val { id: v.id, shape: copy_shape(v.shape.as_slice()), dtype: v.dtype };
        }
        self.emit(OpKind::Convert, ids1(v.id), copy_shape(v.shape.as_slice()), dtype)
    }

    /// The value broadcast to `shape`, its dimensions landing on `dims`.
    pub fn broadcast_along(&mut self, v: &Val, shape: &[usize], dims: Vec<usize>) -> (r: Val)
        requires
            old(self).wf(),
        ensures
            final(self).wf(),
            (final(self).graph(), r@) == broadcast_along_val(old(self).graph(), v@, shape@, dims@),
            final(self).inputs == old(self).inputs,
            final(self).rng == old(self).rng,
            r.id < final(self).nodes@.len(),
            grows(old(self).nodes@, final(self).nodes@),
            graph_wf(old(self).nodes@) && v.id < old(self).nodes@.len() ==> graph_wf(final(self).nodes@),
    {
        self.emit(OpKind::Broadcast(dims), ids1(v.id), copy_shape(shape), v.dtype)
    }

    /// The value broadcast to `shape`, aligning its dimensions with the trailing ones.
    pub fn broadcast(&mut self, v: &Val, shape: &[usize]) -> (r: Val)
        requires
            old(self).wf(),
            v.shape@.len() <= shape@.len(),
        ensures
            final(self).wf(),
            (final(self).graph(), r@) == broadcast_val(old(self).graph(), v@, shape@),
            final(self).inputs == old(self).inputs,
            final(self).rng == old(self).rng,
            r.id < final(self).nodes@.len(),
            grows(old(self).nodes@, final(self).nodes@),
            graph_wf(old(self).nodes@) && v.id < old(self).nodes@.len() ==> graph_wf(final(self).nodes@),
    {
        let offset = shape.len() - v.shape.len();
        let mut dims: Vec<usize> = Vec::new();
        let mut i = offset;
        while i < shape.len()
            invariant
                offset <= i <= shape@.len(),
                offset == shape@.len() - v.shape@.len(),
                dims@ == trailing_dims(v.shape@.len(), shape@.len()).take(i - offset),
            decreases shape.len() - i,
        {
            dims.push(i);
            assert(trailing_dims(v.shape@.len(), shape@.len()).take(i - offset + 1) =~= trailing_dims(
                v.shape@.len(),
                shape@.len(),
            ).take(i - offset).push(i));
            i = i + 1;
        }
        assert(trailing_dims(v.shape@.len(), shape@.len()).take(i - offset) =~= trailing_dims(
            v.shape@.len(),
            shape@.len(),
        ));
        self.broadcast_along(v, shape, dims)
    }

    /// An elementwise unary operation.
    pub fn unary(&mut self, name: &str, v: &Val) -> (r: Val)
        requires
            old(self).wf(),
        ensures
            final(self).wf(),
            (final(self).graph(), r@) == unary_val(old(self).graph(), name@, v@),
            final(self).inputs == old(self).inputs,
            final(self).rng == old(self).rng,
            r.id < final(self).nodes@.len(),
            grows(old(self).nodes@, final(self).nodes@),
            graph_wf(old(self).nodes@) && v.id < old(self).nodes@.len() ==> graph_wf(final(self).nodes@),
    {
        self.emit(OpKind::Unary(name.to_owned()), ids1(v.id), copy_shape(v.shape.as_slice()), v.dtype)
    }

    /// The value with a new shape.
    pub fn reshape(&mut self, v: &Val, shape: Vec<usize>) -> (r: Val)
        requires
            old(self).wf(),
        ensures
            final(self).wf(),
            (final(self).graph(), r@) == reshape_val(old(self).graph(), v@, shape@),
            final(self).inputs == old(self).inputs,
            final(self).rng == old(self).rng,
            r.id < final(self).nodes@.len(),
            grows(old(self).nodes@, final(self).nodes@),
            graph_wf(old(self).nodes@) && v.id < old(self).nodes@.len() ==> graph_wf(final(self).nodes@),
    {
        self.emit(OpKind::Reshape, ids1(v.id), shape, v.dtype)
    }

    /// An elementwise comparison in direction `dir`.
    pub fn compare(&mut self, dir: &str, a: &Val, b: &Val) -> (r: Val)
        requires
            old(self).wf(),
        ensures
            final(self).wf(),
            (final(self).graph(), r@) == compare_val(old(self).graph(), dir@, a@, b@),
            final(self).inputs == old(self).inputs,
            final(self).rng == old(self).rng,
            r.id < final(self).nodes@.len(),
            grows(old(self).nodes@, final(self).nodes@),
            graph_wf(old(self).nodes@) && a.id < old(self).nodes@.len() && b.id < old(self).nodes@.len()
                ==> graph_wf(final(self).nodes@),
    {
        self.emit(OpKind::Compare(dir.to_owned()), ids2(a.id, b.id), copy_shape(a.shape.as_slice()), Dtype::I1)
    }

    /// An elementwise choice between two values.
    pub fn select(&mut self, pred: &Val, on_true: &Val, on_false: &Val) -> (r: Val)
        requires
            old(self).wf(),
        ensures
            final(self).wf(),
            (final(self).graph(), r@) == select_val(old(self).graph(), pred@, on_true@, on_false@),
            final(self).inputs == old(self).inputs,
            final(self).rng == old(self).rng,
            r.id < final(self).nodes@.len(),
            grows(old(self).nodes@, final(self).nodes@),
            graph_wf(old(self).nodes@) && pred.id < old(self).nodes@.len() && on_true.id < old(self).nodes@.len()
                && on_false.id < old(self).nodes@.len() ==> graph_wf(final(self).nodes@),
    {
        self.emit(
            OpKind::Select,
            ids3(pred.id, on_true.id, on_false.id),
            copy_shape(on_true.shape.as_slice()),
            on_true.dtype,
        )
    }

    /// Zeros of a shape and element type.
    pub fn zeros(&mut self, shape: &[usize], dtype: Dtype) -> (r: Val)
        requires
            old(self).wf(),
        ensures
            final(self).wf(),
            (final(self).graph(), r@) == zeros_val(old(self).graph(), shape@, dtype),
            final(self).inputs == old(self).inputs,
            final(self).rng == old(self).rng,
            r.id < final(self).nodes@.len(),
            grows(old(self).nodes@, final(self).nodes@),
            graph_wf(old(self).nodes@) ==> graph_wf(final(self).nodes@),
    {
        let zero = self.constant(zero_literal(dtype), dtype);
        if shape.len() == 0 {
            zero
        } else {
            self.broadcast(&zero, shape)
        }
    }

    /// Zeros of the shape and element type of `v`.
    pub fn zeros_like(&mut self, v: &Val) -> (r: Val)
        requires
            old(self).wf(),
        ensures
            final(self).wf(),
            (final(self).graph(), r@) == zeros_val(old(self).graph(), v.shape@, v.dtype),
            final(self).inputs == old(self).inputs,
            final(self).rng == old(self).rng,
            r.id < final(self).nodes@.len(),
            grows(old(self).nodes@, final(self).nodes@),
            graph_wf(old(self).nodes@) ==> graph_wf(final(self).nodes@),
    {
        let shape = copy_shape(v.shape.as_slice());
        self.zeros(shape.as_slice(), v.dtype)
    }
}


impl Tracer {
    /// An elementwise binary operation. The element types must agree unless one operand is
    /// a scalar, which is then converted to the other's type; the shapes must broadcast,
    /// and the operand whose shape the other ends with is broadcast to it. On an error
    /// nothing is traced.
    pub fn ewise(&mut self, name: &str, a: Val, b: Val) -> (r: Result<Val, TraceError>)
        requires
            old(self).wf(),
        ensures
            final(self).wf(),
            match ewise_val(old(self).graph(), name@, a@, b@) {
                Ok((g, v)) => r matches Ok(rv) && rv@ == v && final(self).graph() == g,
                Err(e) => r matches Err(re) && re@ == e && final(self).nodes == old(self).nodes
                    && final(self).interned == old(self).interned,
            },
            final(self).inputs == old(self).inputs,
            final(self).rng == old(self).rng,
            r matches Ok(rv) ==> rv.id < final(self).nodes@.len(),
            grows(old(self).nodes@, final(self).nodes@),
            graph_wf(old(self).nodes@) && a.id < old(self).nodes@.len() && b.id < old(self).nodes@.len()
                ==> graph_wf(final(self).nodes@),
    {
        if !(a.dtype == b.dtype || a.shape.len() == 0 || b.shape.len() == 0) {
            return Err(TraceError::DtypeMismatch(a.dtype, b.dtype));
        }
        let equal = shapes_equal(a.shape.as_slice(), b.shape.as_slice());
        let a_into_b = a.shape.len() <= b.shape.len() && shape_ends_with(b.shape.as_slice(), a.shape.as_slice());
        let b_into_a = b.shape.len() < a.shape.len() && shape_ends_with(a.shape.as_slice(), b.shape.as_slice());
        if !(equal || a_into_b || b_into_a) {
            return Err(TraceError::ShapeMismatch(a.shape, b.shape));
        }
        let ghost g0 = self.graph();
        let ghost av = a@;
        let ghost bv = b@;
        let ghost wf0 = graph_wf(self.nodes@) && a.id < self.nodes@.len() && b.id < self.nodes@.len();
        let (a, b) = if a.dtype == b.dtype {
            (a, b)
        } else if a.shape.len() == 0 {
            let a1 = self.convert(&a, b.dtype);
            (a1, b)
        } else {
            let b1 = self.convert(&b, a.dtype);
            (a, b1)
        };
        assert((self.graph(), a@, b@) == dtype_align(g0, av, bv));
        assert(wf0 ==> graph_wf(self.nodes@) && a.id < self.nodes@.len() && b.id < self.nodes@.len());
        let ghost g1 = self.graph();
        let ghost av1 = a@;
        let ghost bv1 = b@;
        let (a, b) = if equal {
            (a, b)
        } else if a_into_b {
            let shape = copy_shape(b.shape.as_slice());
            let a2 = self.broadcast(&a, shape.as_slice());
            (a2, b)
        } else {
            let shape = copy_shape(a.shape.as_slice());
            let b2 = self.broadcast(&b, shape.as_slice());
            (a, b2)
        };
        assert((self.graph(), a@, b@) == shape_align(g1, av1, bv1));
        assert(wf0 ==> graph_wf(self.nodes@) && a.id < self.nodes@.len() && b.id < self.nodes@.len());
        let shape = copy_shape(a.shape.as_slice());
        let dtype = a.dtype;
        Ok(self.emit(OpKind::Ewise(name.to_owned()), ids2(a.id, b.id), shape, dtype))
    }
}


proof fn lemma_find_in_pushed_frame(nodes: Seq<NodeV>, frame: Seq<usize>, n: NodeV, k: int)
    requires
        0 <= k <= frame.len(),
        nodes.len() < usize::MAX,
        forall|j: int| 0 <= j < frame.len() ==> #[trigger] frame[j] < nodes.len(),
        find_in_frame(nodes, frame, n, k) is None,
    ensures
        find_in_frame(nodes.push(n), frame.push(nodes.len() as usize), n, k) == Some(nodes.len() as usize),
    decreases frame.len() - k,
{
    let f2 = frame.push(nodes.len() as usize);
    let n2 = nodes.push(n);
    if k < frame.len() {
        assert(f2[k] == frame[k]);
        assert(n2[frame[k] as int] == nodes[frame[k] as int]);
        lemma_find_in_pushed_frame(nodes, frame, n, k + 1);
    } else {
        assert(f2[k] == nodes.len() as usize);
        assert(n2[nodes.len() as int] == n);
    }
}

/// Interning: once a request for an internable node is answered, the same request again
/// changes nothing and is answered by the same node.
pub proof fn law_emit_interns(g: GraphV, n: NodeV)
    requires
        graph_ok(g),
        internable(n.kind),
        g.nodes.len() < usize::MAX,
    ensures
        emit_spec(emit_spec(g, n).0, n) == emit_spec(g, n),
{
    if find_interned(g.nodes, g.frames, n) is None {
        let last = g.frames.last();
        assert forall|j: int| 0 <= j < last.len() implies #[trigger] last[j] < g.nodes.len() by {
            assert(g.frames[g.frames.len() - 1][j] < g.nodes.len());
        }
        lemma_find_in_pushed_frame(g.nodes, last, n, 0);
        let g2 = emit_spec(g, n).0;
        assert(g2.frames.last() == last.push(g.nodes.len() as usize));
        assert(g2.nodes == g.nodes.push(n));
    }
}

/// A request is answered by a node equal to it; the nodes already in the graph stay as
/// they are, at most one node is added, and the state stays well formed.
pub proof fn law_emit_answers(g: GraphV, n: NodeV)
    requires
        graph_ok(g),
        g.nodes.len() < usize::MAX,
    ensures
        graph_ok(emit_spec(g, n).0),
        emit_spec(g, n).1 < emit_spec(g, n).0.nodes.len(),
        emit_spec(g, n).0.nodes[emit_spec(g, n).1 as int] == n,
        emit_spec(g, n).0.nodes.take(g.nodes.len() as int) == g.nodes,
        emit_spec(g, n).0.nodes.len() <= g.nodes.len() + 1,
{
    lemma_find_interned(g.nodes, g.frames, n);
    let g2 = emit_spec(g, n).0;
    assert(g2.nodes.take(g.nodes.len() as int) =~= g.nodes);
    assert forall|f: int, k: int| 0 <= f < g2.frames.len() && 0 <= k < g2.frames[f].len() implies #[trigger] g2.frames[f][k]
        < g2.nodes.len() by {
        if f < g.frames.len() - 1 || k < g.frames[f].len() {
            assert(g.frames[f][k] < g.nodes.len());
        }
    }
}

/// An elementwise operation that succeeds gives the broadcast shape of its operands, and the
/// element type of the operands, or of the non-scalar operand where they differ.
pub proof fn law_ewise_shape(g: GraphV, name: Seq<char>, a: ValV, b: ValV)
    requires
        ewise_val(g, name, a, b) is Ok,
    ensures
        broadcast_spec(a.shape, b.shape) is Some,
        ewise_val(g, name, a, b)->Ok_0.1.shape == broadcast_spec(a.shape, b.shape)->0,
        ewise_val(g, name, a, b)->Ok_0.1.dtype == (if a.dtype != b.dtype && a.shape.len() == 0 {
            b.dtype
        } else {
            a.dtype
        }),
{
    let (g1, a1, b1) = dtype_align(g, a, b);
    assert(a1.shape == a.shape && b1.shape == b.shape);
}

/// Appending a node whose operands come before it and that the emitter accepts keeps a
/// graph one the emitter can write.
pub proof fn law_append_keeps_graph_wf(nodes: Seq<Node>, x: Node)
    requires
        graph_wf(nodes),
        ids_below(x.inputs@, nodes.len() as int),
        node_ok(nodes.push(x), nodes.len() as int),
    ensures
        graph_wf(nodes.push(x)),
{
    let n2 = nodes.push(x);
    assert forall|id: int, k: int| 0 <= id < n2.len() && 0 <= k < n2[id].inputs@.len() implies #[trigger] n2[id].inputs@[k]
        < id by {
        if id < nodes.len() {
            assert(nodes[id].inputs@[k] < id);
        }
    }
    assert(inputs_before(n2));
    assert forall|id: int| 0 <= id < n2.len() implies #[trigger] node_ok(n2, id) by {
        if id < nodes.len() {
            assert(node_ok(nodes, id));
            assert(n2[id] == nodes[id]);
            let ins = nodes[id].inputs@;
            if ins.len() >= 1 {
                assert(ins[0] < id);
                assert(n2[ins[0] as int] == nodes[ins[0] as int]);
            }
        }
    }
}

impl Tracer {
    /// One step of the random number generator (splitmix64): the state advances by the
    /// golden-ratio increment and the new state, mixed, is the output.
    pub fn next_u64(&mut self) -> (r: u64)
        ensures
            final(self).rng == old(self).rng.wrapping_add(0x9E3779B97F4A7C15u64),
            r == splitmix_mix(final(self).rng),
            final(self).nodes == old(self).nodes,
            final(self).inputs == old(self).inputs,
            final(self).interned == old(self).interned,
    {
        self.rng = self.rng.wrapping_add(0x9E3779B97F4A7C15);
        let mut z = self.rng;
        z = (z ^ (z >> 30)).wrapping_mul(0xBF58476D1CE4E5B9);
        z = (z ^ (z >> 27)).wrapping_mul(0x94D049BB133111EB);
        z ^ (z >> 31)
    }
}

} // verus!
