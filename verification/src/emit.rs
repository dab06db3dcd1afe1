use vstd::prelude::*;

use crate::graph::{dtype_name_spec, Dtype, Node, OpKind, Val};
use crate::runtime::{fits_at, nested_at, nested_text, prod_from};
use crate::table::strings_view;
use crate::strs::{decimal_chars, decimal_text, push_chars, push_str_chars, string_from_chars};

verus! {

/// Each dimension followed by an `x`.
pub open spec fn dims_x(shape: Seq<usize>) -> Seq<char>
    decreases shape.len(),
{
    if shape.len() == 0 {
        seq![]
    } else {
        decimal_chars(shape[0] as nat) + seq!['x'] + dims_x(shape.skip(1))
    }
}

pub proof fn lemma_dims_x_push(shape: Seq<usize>, i: int)
    requires
        0 <= i < shape.len(),
    ensures
        dims_x(shape.take(i + 1)) == dims_x(shape.take(i)) + decimal_chars(shape[i] as nat) + seq!['x'],
    decreases i,
{
    if i == 0 {
        assert(shape.take(1).skip(1) =~= Seq::<usize>::empty());
        assert(shape.take(0) =~= Seq::<usize>::empty());
        assert(dims_x(shape.take(1)) =~= decimal_chars(shape[0] as nat) + seq!['x']);
    } else {
        let t = shape.skip(1);
        lemma_dims_x_push(t, i - 1);
        assert(shape.take(i + 1).skip(1) =~= t.take(i));
        assert(shape.take(i).skip(1) =~= t.take(i - 1));
        assert(t[i - 1] == shape[i]);
        assert(shape.take(i + 1)[0] == shape[0] && shape.take(i)[0] == shape[0]);
        assert(dims_x(shape.take(i + 1)) =~= dims_x(shape.take(i)) + decimal_chars(shape[i] as nat) + seq![
            'x',
        ]);
    }
}

pub open spec fn tensor_prefix() -> Seq<char> {
    seq!['t', 'e', 'n', 's', 'o', 'r', '<']
}

/// The MLIR type of a tensor: `tensor<` then each dimension followed by `x`, then the
/// element type and `>`.
pub open spec fn tensor_type_spec(shape: Seq<usize>, dtype: Dtype) -> Seq<char> {
    tensor_prefix() + dims_x(shape) + dtype_name_spec(dtype) + seq!['>']
}

/// Appends each dimension followed by an `x`.
pub fn push_dims_x(out: &mut Vec<char>, shape: &[usize])
    ensures
        final(out)@ == old(out)@ + dims_x(shape@),
{
    let mut i: usize = 0;
    assert(shape@.take(0) =~= Seq::<usize>::empty());
    while i < shape.len()
        invariant
            i <= shape@.len(),
            out@ == old(out)@ + dims_x(shape@.take(i as int)),
        decreases shape.len() - i,
    {
        proof {
            lemma_dims_x_push(shape@, i as int);
        }
        let d = decimal_text(shape[i]);
        push_chars(out, d.as_slice());
        out.push('x');
        assert(out@ =~= old(out)@ + dims_x(shape@.take(i + 1)));
        i = i + 1;
    }
    assert(shape@.take(i as int) =~= shape@);
}

/// The MLIR type of a tensor of the given shape and element type.
pub fn tensor_type(shape: &[usize], dtype: Dtype) -> (s: String)
    ensures
        s@ == tensor_type_spec(shape@, dtype),
{
    let mut out: Vec<char> = Vec::new();
    push_str_chars(&mut out, "tensor<");
    proof {
        reveal_strlit("tensor<");
    }
    push_dims_x(&mut out, shape);
    push_str_chars(&mut out, dtype.name());
    out.push('>');
    assert(out@ =~= tensor_type_spec(shape@, dtype));
    string_from_chars(out.as_slice())
}

/// Numbers written in decimal and separated by `, `.
pub open spec fn join_spec(xs: Seq<usize>) -> Seq<char>
    decreases xs.len(),
{
    if xs.len() == 0 {
        seq![]
    } else if xs.len() == 1 {
        decimal_chars(xs[0] as nat)
    } else {
        join_spec(xs.drop_last()) + seq![',', ' '] + decimal_chars(xs.last() as nat)
    }
}

/// The numbers written in decimal, separated by `, `.
pub fn join(xs: &[usize]) -> (s: String)
    ensures
        s@ == join_spec(xs@),
{
    let mut out: Vec<char> = Vec::new();
    let mut i: usize = 0;
    assert(xs@.take(0) =~= Seq::<usize>::empty());
    while i < xs.len()
        invariant
            i <= xs@.len(),
            out@ == join_spec(xs@.take(i as int)),
        decreases xs.len() - i,
    {
        assert(xs@.take(i + 1).drop_last() =~= xs@.take(i as int));
        if i > 0 {
            out.push(',');
            out.push(' ');
        }
        let d = decimal_text(xs[i]);
        push_chars(&mut out, d.as_slice());
        assert(out@ =~= join_spec(xs@.take(i + 1)));
        i = i + 1;
    }
    assert(xs@.take(i as int) =~= xs@);
    string_from_chars(out.as_slice())
}


/// Appends the MLIR type of a tensor.
pub fn push_tensor_type(out: &mut Vec<char>, shape: &[usize], dtype: Dtype)
    ensures
        final(out)@ == old(out)@ + tensor_type_spec(shape@, dtype),
{
    out.push('t');
    out.push('e');
    out.push('n');
    out.push('s');
    out.push('o');
    out.push('r');
    out.push('<');
    push_dims_x(out, shape);
    push_str_chars(out, dtype.name());
    out.push('>');
    assert(out@ =~= old(out)@ + tensor_type_spec(shape@, dtype));
}

/// Appends the numbers written in decimal, separated by `, `.
pub fn push_join(out: &mut Vec<char>, xs: &[usize])
    ensures
        final(out)@ == old(out)@ + join_spec(xs@),
{
    let s = join(xs);
    push_str_chars(out, s.as_str());
}

/// Pieces of text joined by `sep`.
pub open spec fn join_with(ps: Seq<Seq<char>>, sep: Seq<char>) -> Seq<char>
    decreases ps.len(),
{
    if ps.len() == 0 {
        seq![]
    } else if ps.len() == 1 {
        ps[0]
    } else {
        join_with(ps.drop_last(), sep) + sep + ps.last()
    }
}

/// Appends pieces of text joined by `sep`.
pub fn push_pieces(out: &mut Vec<char>, pieces: &Vec<Vec<char>>, sep: &[char])
    ensures
        final(out)@ == old(out)@ + join_with(pieces@.map_values(|p: Vec<char>| p@), sep@),
{
    let ghost ps = pieces@.map_values(|p: Vec<char>| p@);
    let mut i: usize = 0;
    assert(ps.take(0) =~= Seq::<Seq<char>>::empty());
    while i < pieces.len()
        invariant
            ps == pieces@.map_values(|p: Vec<char>| p@),
            i <= pieces@.len(),
            out@ == old(out)@ + join_with(ps.take(i as int), sep@),
        decreases pieces.len() - i,
    {
        assert(ps.take(i + 1).drop_last() =~= ps.take(i as int));
        if i > 0 {
            push_chars(out, sep);
        }
        push_chars(out, pieces[i].as_slice());
        assert(out@ =~= old(out)@ + join_with(ps.take(i + 1), sep@));
        i = i + 1;
    }
    assert(ps.take(i as int) =~= ps);
}

/// `%` and a number: the name of an SSA value.
pub open spec fn percent(id: int) -> Seq<char> {
    seq!['%'] + decimal_chars(id as nat)
}

/// How many results the node a projection reads from has.
pub open spec fn result_count(kind: OpKind) -> nat {
    match kind {
        OpKind::While { iter_args, .. } => iter_args@.len(),
        OpKind::Sort { num, .. } => num as nat,
        _ => 0,
    }
}

/// The name a node's value goes by: a barrier is its operand, a projection is a result
/// of its multi-result operand (`%w#k`, or `%w` when there is one result), any other node
/// is `%id`.
pub open spec fn val_name(nodes: Seq<Node>, id: int) -> Seq<char>
    decreases id,
{
    if 0 <= id < nodes.len() && nodes[id].inputs@.len() > 0 && 0 <= nodes[id].inputs@[0] < id {
        let w = nodes[id].inputs@[0] as int;
        match nodes[id].kind {
            OpKind::Barrier => val_name(nodes, w),
            OpKind::Proj(k) => if result_count(nodes[w].kind) == 1 {
                percent(w)
            } else {
                percent(w) + seq!['#'] + decimal_chars(k as nat)
            },
            _ => percent(id),
        }
    } else {
        percent(id)
    }
}

/// The type of node `id`.
pub open spec fn node_type(nodes: Seq<Node>, id: int) -> Seq<char> {
    tensor_type_spec(nodes[id].shape@, nodes[id].dtype)
}

/// The ids `a`, `a + 1`, ... up to `b`, exclusive.
pub open spec fn id_range(a: nat, b: nat) -> Seq<usize> {
    Seq::new(if a <= b { (b - a) as nat } else { 0 }, |i: int| (a + i) as usize)
}

/// Whether the operands of every node come before it.
pub open spec fn inputs_before(nodes: Seq<Node>) -> bool {
    forall|id: int, k: int|
        0 <= id < nodes.len() && 0 <= k < nodes[id].inputs@.len() ==> #[trigger] nodes[id].inputs@[k] < id
}

/// Whether a list of ids stays below `bound`.
pub open spec fn ids_below(ids: Seq<usize>, bound: int) -> bool {
    forall|k: int| 0 <= k < ids.len() ==> #[trigger] ids[k] < bound
}

/// What the emitter needs of node `id`: enough operands for its operation, a projection
/// reading a while or sort, a gather operand with a dimension, a dense constant with
/// enough elements for its shape, and a while whose parts come before it.
pub open spec fn node_ok(nodes: Seq<Node>, id: int) -> bool {
    let n = nodes[id];
    let ins = n.inputs@;
    match n.kind {
        OpKind::Barrier => ins.len() >= 1,
        OpKind::Proj(_) => ins.len() >= 1 && (nodes[ins[0] as int].kind is While || nodes[ins[0] as int].kind is Sort),
        OpKind::Gather(_) => ins.len() >= 2 && nodes[ins[0] as int].shape@.len() >= 1,
        OpKind::Ewise(_) => ins.len() >= 2,
        OpKind::Reduce(_, _) => ins.len() >= 2,
        OpKind::Dot(_, _, _, _) => ins.len() >= 2,
        OpKind::Compare(_) => ins.len() >= 2,
        OpKind::Unary(_) => ins.len() >= 1,
        OpKind::Convert => ins.len() >= 1,
        OpKind::Broadcast(_) => ins.len() >= 1,
        OpKind::Reshape => ins.len() >= 1,
        OpKind::Transpose(_) => ins.len() >= 1,
        OpKind::Slice(_, _, _) => ins.len() >= 1,
        OpKind::Select => ins.len() >= 3,
        OpKind::DenseConst(vals) => {
            &&& fits_at(n.shape@, 0, vals@.len())
            &&& forall|d: int| 0 <= d <= n.shape@.len() ==> #[trigger] prod_from(n.shape@, d) <= usize::MAX
        },
        OpKind::Sort { num, .. } => ins.len() >= num && ins.len() >= 1 && 2 * num <= usize::MAX,
        OpKind::While { iter_args, results, body, limit, cond } => {
            &&& iter_args@.len() >= 1
            &&& ids_below(iter_args@, id)
            &&& ids_below(results@, id)
            &&& ids_below(body@, id)
            &&& limit < id
            &&& (cond matches Some((cn, cv)) ==> ids_below(cn@, id) && cv < id)
        },
        _ => true,
    }
}

/// A graph the emitter can write: operands before their nodes, and every node as
/// `node_ok` asks.
pub open spec fn graph_wf(nodes: Seq<Node>) -> bool {
    &&& inputs_before(nodes)
    &&& forall|id: int| 0 <= id < nodes.len() ==> #[trigger] node_ok(nodes, id)
}

/// The name of a node's value.
fn value_name(nodes: &Vec<Node>, id: usize) -> (v: Vec<char>)
    requires
        graph_wf(nodes@),
        id < nodes@.len(),
    ensures
        v@ == val_name(nodes@, id as int),
    decreases id,
{
    let node = &nodes[id];
    if node.inputs.len() > 0 {
        let w = node.inputs[0];
        assert(nodes@[id as int].inputs@[0] < id);
        match &node.kind {
            OpKind::Barrier => {
                return value_name(nodes, w);
            },
            OpKind::Proj(k) => {
                let count: usize = match &nodes[w].kind {
                    OpKind::While { iter_args, .. } => iter_args.len(),
                    OpKind::Sort { num, .. } => *num,
                    _ => 0,
                };
                let mut v: Vec<char> = Vec::new();
                v.push('%');
                let d = decimal_text(w);
                push_chars(&mut v, d.as_slice());
                if count != 1 {
                    v.push('#');
                    let kd = decimal_text(*k);
                    push_chars(&mut v, kd.as_slice());
                }
                return v;
            },
            _ => {},
        }
    }
    let mut v: Vec<char> = Vec::new();
    v.push('%');
    let d = decimal_text(id);
    push_chars(&mut v, d.as_slice());
    v
}


/// The name of operand `i` of node `id`.
pub open spec fn arg_name(nodes: Seq<Node>, id: int, i: int) -> Seq<char> {
    val_name(nodes, nodes[id].inputs@[i] as int)
}

/// The type of operand `i` of node `id`.
pub open spec fn arg_type(nodes: Seq<Node>, id: int, i: int) -> Seq<char> {
    node_type(nodes, nodes[id].inputs@[i] as int)
}

/// The names of all operands of node `id`, separated by `, `.
pub open spec fn arg_names(nodes: Seq<Node>, id: int) -> Seq<char> {
    join_with(Seq::new(nodes[id].inputs@.len(), |i: int| arg_name(nodes, id, i)), seq![',', ' '])
}

/// The types of all operands of node `id`, separated by `, `.
pub open spec fn arg_types(nodes: Seq<Node>, id: int) -> Seq<char> {
    join_with(Seq::new(nodes[id].inputs@.len(), |i: int| arg_type(nodes, id, i)), seq![',', ' '])
}

/// The dimension-number prefix of a gather of `window` rows.
pub open spec fn gather_dims(operand: Seq<usize>, out_rank: nat, window: usize) -> Seq<char> {
    if window == 1 {
        (if operand.len() > 1 {
            "offset_dims = ["@ + join_spec(id_range(1, operand.len())) + "], "@
        } else {
            seq![]
        }) + "collapsed_slice_dims = [0], "@
    } else {
        "offset_dims = ["@ + join_spec(id_range(1, out_rank)) + "], "@
    }
}

/// The range of dimension `d` a slice keeps.
pub open spec fn slice_range(d: int, e: usize, dim: usize, start: usize, limit: usize) -> Seq<char> {
    if d == dim {
        decimal_chars(start as nat) + seq![':'] + decimal_chars(limit as nat)
    } else {
        seq!['0', ':'] + decimal_chars(e as nat)
    }
}

/// The batching part of a dot product.
pub open spec fn batching_text(lb: Seq<usize>, rb: Seq<usize>) -> Seq<char> {
    if lb.len() == 0 {
        seq![]
    } else {
        "batching_dims = ["@ + join_spec(lb) + "] x ["@ + join_spec(rb) + "], "@
    }
}

/// The StableHLO text of a single-result node, after `%id = `.
#[verifier::opaque]
pub open spec fn node_text_spec(nodes: Seq<Node>, id: int) -> Seq<char> {
    let node = nodes[id];
    let out = node_type(nodes, id);
    match node.kind {
        OpKind::Gather(w) => {
            let operand = nodes[node.inputs@[0] as int].shape@;
            "\"stablehlo.gather\"("@ + arg_name(nodes, id, 0) + seq![',', ' '] + arg_name(nodes, id, 1)
                + ") {dimension_numbers = #stablehlo.gather<"@ + gather_dims(operand, node.shape@.len(), w)
                + "start_index_map = [0], index_vector_dim = 1>, indices_are_sorted = false, slice_sizes = array<i64: "@
                + join_spec(seq![w] + operand.skip(1)) + ">} : ("@ + arg_type(nodes, id, 0) + seq![',', ' ']
                + arg_type(nodes, id, 1) + ") -> "@ + out
        },
        OpKind::Iota => "stablehlo.iota dim = 0 : "@ + out,
        OpKind::Constant(lit) => "stablehlo.constant dense<"@ + lit@ + "> : "@ + out,
        OpKind::DenseConst(vals) => "stablehlo.constant dense<"@ + nested_at(
            strings_view(vals@),
            node.shape@,
            seq![',', ' '],
            0,
            0,
        ) + "> : "@ + out,
        OpKind::Ewise(name) => "stablehlo."@ + name@ + seq![' '] + arg_name(nodes, id, 0) + seq![',', ' ']
            + arg_name(nodes, id, 1) + " : "@ + out,
        OpKind::Unary(name) => "stablehlo."@ + name@ + seq![' '] + arg_name(nodes, id, 0) + " : "@ + out,
        OpKind::Convert => "stablehlo.convert "@ + arg_name(nodes, id, 0) + " : ("@ + arg_type(nodes, id, 0)
            + ") -> "@ + out,
        OpKind::Broadcast(dims) => "stablehlo.broadcast_in_dim "@ + arg_name(nodes, id, 0) + ", dims = ["@
            + join_spec(dims@) + "] : ("@ + arg_type(nodes, id, 0) + ") -> "@ + out,
        OpKind::Reshape => "stablehlo.reshape "@ + arg_name(nodes, id, 0) + " : ("@ + arg_type(nodes, id, 0)
            + ") -> "@ + out,
        OpKind::Concat(dim) => "stablehlo.concatenate "@ + arg_names(nodes, id) + ", dim = "@ + decimal_chars(
            dim as nat,
        ) + " : ("@ + arg_types(nodes, id) + ") -> "@ + out,
        OpKind::Transpose(perm) => "stablehlo.transpose "@ + arg_name(nodes, id, 0) + ", dims = ["@ + join_spec(
            perm@,
        ) + "] : ("@ + arg_type(nodes, id, 0) + ") -> "@ + out,
        OpKind::Reduce(reducer, axes) => "stablehlo.reduce("@ + arg_name(nodes, id, 0) + " init: "@ + arg_name(
            nodes,
            id,
            1,
        ) + ") applies stablehlo."@ + reducer@ + " across dimensions = ["@ + join_spec(axes@) + "] : ("@
            + arg_type(nodes, id, 0) + seq![',', ' '] + arg_type(nodes, id, 1) + ") -> "@ + out,
        OpKind::Dot(lb, rb, lc, rc) => "stablehlo.dot_general "@ + arg_name(nodes, id, 0) + seq![',', ' ']
            + arg_name(nodes, id, 1) + seq![',', ' '] + batching_text(lb@, rb@) + "contracting_dims = ["@
            + join_spec(lc@) + "] x ["@ + join_spec(rc@) + "] : ("@ + arg_type(nodes, id, 0) + seq![',', ' ']
            + arg_type(nodes, id, 1) + ") -> "@ + out,
        OpKind::Compare(dir) => "stablehlo.compare "@ + dir@ + seq![',', ' '] + arg_name(nodes, id, 0) + seq![
            ',',
            ' ',
        ] + arg_name(nodes, id, 1) + " : ("@ + arg_type(nodes, id, 0) + seq![',', ' '] + arg_type(nodes, id, 1)
            + ") -> "@ + out,
        OpKind::Select => "stablehlo.select "@ + arg_name(nodes, id, 0) + seq![',', ' '] + arg_name(nodes, id, 1)
            + seq![',', ' '] + arg_name(nodes, id, 2) + " : "@ + arg_type(nodes, id, 0) + seq![',', ' '] + out,
        OpKind::DynUpdateSlice => "stablehlo.dynamic_update_slice "@ + arg_names(nodes, id) + " : ("@ + arg_types(
            nodes,
            id,
        ) + ") -> "@ + out,
        OpKind::Slice(dim, start, limit) => {
            let in_shape = nodes[node.inputs@[0] as int].shape@;
            "stablehlo.slice "@ + arg_name(nodes, id, 0) + " ["@ + join_with(
                Seq::new(in_shape.len(), |d: int| slice_range(d, in_shape[d], dim, start, limit)),
                seq![',', ' '],
            ) + "] : ("@ + arg_type(nodes, id, 0) + ") -> "@ + out
        },
        _ => seq![],
    }
}


/// Whether a node is written as `%id = <node text>`: every operation but the parameters,
/// loop binders, name aliases and the region-writing operations.
pub open spec fn single_line(kind: OpKind) -> bool {
    !(kind is Input || kind is IterArg || kind is Proj || kind is Barrier || kind is While || kind is Sort
        || kind is Scatter)
}

fn push_arg_name(out: &mut Vec<char>, nodes: &Vec<Node>, id: usize, i: usize)
    requires
        graph_wf(nodes@),
        id < nodes@.len(),
        i < nodes@[id as int].inputs@.len(),
    ensures
        final(out)@ == old(out)@ + arg_name(nodes@, id as int, i as int),
{
    let w = nodes[id].inputs[i];
    assert(nodes@[id as int].inputs@[i as int] < id);
    let v = value_name(nodes, w);
    push_chars(out, v.as_slice());
}

fn push_arg_type(out: &mut Vec<char>, nodes: &Vec<Node>, id: usize, i: usize)
    requires
        graph_wf(nodes@),
        id < nodes@.len(),
        i < nodes@[id as int].inputs@.len(),
    ensures
        final(out)@ == old(out)@ + arg_type(nodes@, id as int, i as int),
{
    let w = nodes[id].inputs[i];
    assert(nodes@[id as int].inputs@[i as int] < id);
    push_tensor_type(out, nodes[w].shape.as_slice(), nodes[w].dtype);
}

fn push_arg_list(out: &mut Vec<char>, nodes: &Vec<Node>, id: usize, types: bool)
    requires
        graph_wf(nodes@),
        id < nodes@.len(),
    ensures
        final(out)@ == old(out)@ + (if types { arg_types(nodes@, id as int) } else { arg_names(nodes@, id as int) }),
{
    let ghost want = if types {
        Seq::new(nodes@[id as int].inputs@.len(), |i: int| arg_type(nodes@, id as int, i))
    } else {
        Seq::new(nodes@[id as int].inputs@.len(), |i: int| arg_name(nodes@, id as int, i))
    };
    let mut pieces: Vec<Vec<char>> = Vec::new();
    let mut i: usize = 0;
    let n = nodes[id].inputs.len();
    while i < n
        invariant
            graph_wf(nodes@),
            id < nodes@.len(),
            n == nodes@[id as int].inputs@.len(),
            want == (if types {
                Seq::new(nodes@[id as int].inputs@.len(), |i: int| arg_type(nodes@, id as int, i))
            } else {
                Seq::new(nodes@[id as int].inputs@.len(), |i: int| arg_name(nodes@, id as int, i))
            }),
            i <= n,
            pieces@.map_values(|p: Vec<char>| p@) == want.take(i as int),
        decreases n - i,
    {
        let mut piece: Vec<char> = Vec::new();
        if types {
            push_arg_type(&mut piece, nodes, id, i);
        } else {
            push_arg_name(&mut piece, nodes, id, i);
        }
        assert(piece@ =~= want[i as int]);
        let ghost before = pieces@;
        pieces.push(piece);
        assert(pieces@ == before.push(piece));
        assert(want.take(i + 1) =~= want.take(i as int).push(want[i as int]));
        assert(pieces@.map_values(|p: Vec<char>| p@) =~= before.map_values(|p: Vec<char>| p@).push(piece@));
        i = i + 1;
    }
    assert(want.take(i as int) =~= want);
    let sep: [char; 2] = [',', ' '];
    assert(sep@ =~= seq![',', ' ']);
    push_pieces(out, &pieces, &sep);
}

/// Appends the numbers `a` up to `b`, exclusive, separated by `, `.
fn push_range(out: &mut Vec<char>, a: usize, b: usize)
    ensures
        final(out)@ == old(out)@ + join_spec(id_range(a as nat, b as nat)),
{
    let mut v: Vec<usize> = Vec::new();
    let mut k: usize = a;
    if b < a {
        assert(id_range(a as nat, b as nat) =~= Seq::<usize>::empty());
        push_join(out, v.as_slice());
        return;
    }
    while k < b
        invariant
            a <= k <= b,
            v@ == id_range(a as nat, k as nat),
        decreases b - k,
    {
        v.push(k);
        assert(v@ =~= id_range(a as nat, (k + 1) as nat));
        k = k + 1;
    }
    push_join(out, v.as_slice());
}


/// Appends the texts of the elements of a dense constant laid out by its shape.
fn push_dense(out: &mut Vec<char>, vals: &Vec<String>, shape: &[usize])
    requires
        fits_at(shape@, 0, vals@.len()),
        forall|d: int| 0 <= d <= shape@.len() ==> #[trigger] prod_from(shape@, d) <= usize::MAX,
    ensures
        final(out)@ == old(out)@ + nested_at(strings_view(vals@), shape@, seq![',', ' '], 0, 0),
{
    let sep: [char; 2] = [',', ' '];
    assert(sep@ =~= seq![',', ' ']);
    let t = nested_text(vals, shape, &sep);
    push_str_chars(out, t.as_str());
}

fn push_gather_dims(out: &mut Vec<char>, operand: &[usize], out_rank: usize, w: usize)
    ensures
        final(out)@ == old(out)@ + gather_dims(operand@, out_rank as nat, w),
{
    if w == 1 {
        if operand.len() > 1 {
            push_str_chars(out, "offset_dims = [");
            push_range(out, 1, operand.len());
            push_str_chars(out, "], ");
        }
        push_str_chars(out, "collapsed_slice_dims = [0], ");
    } else {
        push_str_chars(out, "offset_dims = [");
        push_range(out, 1, out_rank);
        push_str_chars(out, "], ");
    }
    assert(out@ =~= old(out)@ + gather_dims(operand@, out_rank as nat, w));
}

fn gather_sizes(operand: &[usize], w: usize) -> (sizes: Vec<usize>)
    requires
        operand@.len() >= 1,
    ensures
        sizes@ == seq![w] + operand@.skip(1),
{
    let mut sizes: Vec<usize> = Vec::new();
    sizes.push(w);
    let mut k: usize = 1;
    while k < operand.len()
        invariant
            1 <= k <= operand@.len(),
            sizes@ == seq![w] + operand@.subrange(1, k as int),
        decreases operand.len() - k,
    {
        sizes.push(operand[k]);
        assert(sizes@ =~= seq![w] + operand@.subrange(1, k + 1));
        k = k + 1;
    }
    assert(sizes@ =~= seq![w] + operand@.skip(1));
    sizes
}

fn text_gather(nodes: &Vec<Node>, id: usize) -> (v: Vec<char>)
    requires
        graph_wf(nodes@),
        id < nodes@.len(),
        nodes@[id as int].kind is Gather,
    ensures
        v@ == node_text_spec(nodes@, id as int),
{
    let ghost ns = nodes@;
    let node = &nodes[id];
    assert(node_ok(ns, id as int));
    proof {
        reveal(node_text_spec);
    }
    let mut out: Vec<char> = Vec::new();
    match &node.kind {
        OpKind::Gather(w) => {
            let op = node.inputs[0];
            assert(ns[id as int].inputs@[0] < id);
            let operand = &nodes[op].shape;
            push_str_chars(&mut out, "\"stablehlo.gather\"(");
            push_arg_name(&mut out, nodes, id, 0);
            out.push(',');
            out.push(' ');
            push_arg_name(&mut out, nodes, id, 1);
            push_str_chars(&mut out, ") {dimension_numbers = #stablehlo.gather<");
            push_gather_dims(&mut out, operand.as_slice(), node.shape.len(), *w);
            push_str_chars(
                &mut out,
                "start_index_map = [0], index_vector_dim = 1>, indices_are_sorted = false, slice_sizes = array<i64: ",
            );
            let sizes = gather_sizes(operand.as_slice(), *w);
            push_join(&mut out, sizes.as_slice());
            push_str_chars(&mut out, ">} : (");
            push_arg_type(&mut out, nodes, id, 0);
            out.push(',');
            out.push(' ');
            push_arg_type(&mut out, nodes, id, 1);
            push_str_chars(&mut out, ") -> ");
            assert(out@ + node_type(ns, id as int) =~= node_text_spec(ns, id as int));
                },
        _ => {
            return out;
        },
    }
    let ghost head = out@;
    push_tensor_type(&mut out, node.shape.as_slice(), node.dtype);
    assert(out@ == head + node_type(ns, id as int));
    out
}

fn text_iota(nodes: &Vec<Node>, id: usize) -> (v: Vec<char>)
    requires
        graph_wf(nodes@),
        id < nodes@.len(),
        nodes@[id as int].kind is Iota,
    ensures
        v@ == node_text_spec(nodes@, id as int),
{
    let ghost ns = nodes@;
    let node = &nodes[id];
    assert(node_ok(ns, id as int));
    proof {
        reveal(node_text_spec);
    }
    let mut out: Vec<char> = Vec::new();
    match &node.kind {
        OpKind::Iota => {
            push_str_chars(&mut out, "stablehlo.iota dim = 0 : ");
            assert(out@ + node_type(ns, id as int) =~= node_text_spec(ns, id as int));
                },
        _ => {
            return out;
        },
    }
    let ghost head = out@;
    push_tensor_type(&mut out, node.shape.as_slice(), node.dtype);
    assert(out@ == head + node_type(ns, id as int));
    out
}

fn text_constant(nodes: &Vec<Node>, id: usize) -> (v: Vec<char>)
    requires
        graph_wf(nodes@),
        id < nodes@.len(),
        nodes@[id as int].kind is Constant,
    ensures
        v@ == node_text_spec(nodes@, id as int),
{
    let ghost ns = nodes@;
    let node = &nodes[id];
    assert(node_ok(ns, id as int));
    proof {
        reveal(node_text_spec);
    }
    let mut out: Vec<char> = Vec::new();
    match &node.kind {
        OpKind::Constant(lit) => {
            push_str_chars(&mut out, "stablehlo.constant dense<");
            push_str_chars(&mut out, lit.as_str());
            push_str_chars(&mut out, "> : ");
            assert(out@ + node_type(ns, id as int) =~= node_text_spec(ns, id as int));
                },
        _ => {
            return out;
        },
    }
    let ghost head = out@;
    push_tensor_type(&mut out, node.shape.as_slice(), node.dtype);
    assert(out@ == head + node_type(ns, id as int));
    out
}

fn text_dense_const(nodes: &Vec<Node>, id: usize) -> (v: Vec<char>)
    requires
        graph_wf(nodes@),
        id < nodes@.len(),
        nodes@[id as int].kind is DenseConst,
    ensures
        v@ == node_text_spec(nodes@, id as int),
{
    let ghost ns = nodes@;
    let node = &nodes[id];
    assert(node_ok(ns, id as int));
    proof {
        reveal(node_text_spec);
    }
    let mut out: Vec<char> = Vec::new();
    match &node.kind {
        OpKind::DenseConst(vals) => {
            push_str_chars(&mut out, "stablehlo.constant dense<");
            push_dense(&mut out, vals, node.shape.as_slice());
            push_str_chars(&mut out, "> : ");
            assert(out@ + node_type(ns, id as int) =~= node_text_spec(ns, id as int));
                },
        _ => {
            return out;
        },
    }
    let ghost head = out@;
    push_tensor_type(&mut out, node.shape.as_slice(), node.dtype);
    assert(out@ == head + node_type(ns, id as int));
    out
}

fn text_ewise(nodes: &Vec<Node>, id: usize) -> (v: Vec<char>)
    requires
        graph_wf(nodes@),
        id < nodes@.len(),
        nodes@[id as int].kind is Ewise,
    ensures
        v@ == node_text_spec(nodes@, id as int),
{
    let ghost ns = nodes@;
    let node = &nodes[id];
    assert(node_ok(ns, id as int));
    proof {
        reveal(node_text_spec);
    }
    let mut out: Vec<char> = Vec::new();
    match &node.kind {
        OpKind::Ewise(name) => {
            push_str_chars(&mut out, "stablehlo.");
            push_str_chars(&mut out, name.as_str());
            out.push(' ');
            push_arg_name(&mut out, nodes, id, 0);
            out.push(',');
            out.push(' ');
            push_arg_name(&mut out, nodes, id, 1);
            push_str_chars(&mut out, " : ");
            assert(out@ + node_type(ns, id as int) =~= node_text_spec(ns, id as int));
                },
        _ => {
            return out;
        },
    }
    let ghost head = out@;
    push_tensor_type(&mut out, node.shape.as_slice(), node.dtype);
    assert(out@ == head + node_type(ns, id as int));
    out
}

fn text_unary(nodes: &Vec<Node>, id: usize) -> (v: Vec<char>)
    requires
        graph_wf(nodes@),
        id < nodes@.len(),
        nodes@[id as int].kind is Unary,
    ensures
        v@ == node_text_spec(nodes@, id as int),
{
    let ghost ns = nodes@;
    let node = &nodes[id];
    assert(node_ok(ns, id as int));
    proof {
        reveal(node_text_spec);
    }
    let mut out: Vec<char> = Vec::new();
    match &node.kind {
        OpKind::Unary(name) => {
            push_str_chars(&mut out, "stablehlo.");
            push_str_chars(&mut out, name.as_str());
            out.push(' ');
            push_arg_name(&mut out, nodes, id, 0);
            push_str_chars(&mut out, " : ");
            assert(out@ + node_type(ns, id as int) =~= node_text_spec(ns, id as int));
                },
        _ => {
            return out;
        },
    }
    let ghost head = out@;
    push_tensor_type(&mut out, node.shape.as_slice(), node.dtype);
    assert(out@ == head + node_type(ns, id as int));
    out
}

fn text_convert(nodes: &Vec<Node>, id: usize) -> (v: Vec<char>)
    requires
        graph_wf(nodes@),
        id < nodes@.len(),
        nodes@[id as int].kind is Convert,
    ensures
        v@ == node_text_spec(nodes@, id as int),
{
    let ghost ns = nodes@;
    let node = &nodes[id];
    assert(node_ok(ns, id as int));
    proof {
        reveal(node_text_spec);
    }
    let mut out: Vec<char> = Vec::new();
    match &node.kind {
        OpKind::Convert => {
            push_str_chars(&mut out, "stablehlo.convert ");
            push_arg_name(&mut out, nodes, id, 0);
            push_str_chars(&mut out, " : (");
            push_arg_type(&mut out, nodes, id, 0);
            push_str_chars(&mut out, ") -> ");
            assert(out@ + node_type(ns, id as int) =~= node_text_spec(ns, id as int));
                },
        _ => {
            return out;
        },
    }
    let ghost head = out@;
    push_tensor_type(&mut out, node.shape.as_slice(), node.dtype);
    assert(out@ == head + node_type(ns, id as int));
    out
}

fn text_broadcast(nodes: &Vec<Node>, id: usize) -> (v: Vec<char>)
    requires
        graph_wf(nodes@),
        id < nodes@.len(),
        nodes@[id as int].kind is Broadcast,
    ensures
        v@ == node_text_spec(nodes@, id as int),
{
    let ghost ns = nodes@;
    let node = &nodes[id];
    assert(node_ok(ns, id as int));
    proof {
        reveal(node_text_spec);
    }
    let mut out: Vec<char> = Vec::new();
    match &node.kind {
        OpKind::Broadcast(dims) => {
            push_str_chars(&mut out, "stablehlo.broadcast_in_dim ");
            push_arg_name(&mut out, nodes, id, 0);
            push_str_chars(&mut out, ", dims = [");
            push_join(&mut out, dims.as_slice());
            push_str_chars(&mut out, "] : (");
            push_arg_type(&mut out, nodes, id, 0);
            push_str_chars(&mut out, ") -> ");
            assert(out@ + node_type(ns, id as int) =~= node_text_spec(ns, id as int));
                },
        _ => {
            return out;
        },
    }
    let ghost head = out@;
    push_tensor_type(&mut out, node.shape.as_slice(), node.dtype);
    assert(out@ == head + node_type(ns, id as int));
    out
}

fn text_reshape(nodes: &Vec<Node>, id: usize) -> (v: Vec<char>)
    requires
        graph_wf(nodes@),
        id < nodes@.len(),
        nodes@[id as int].kind is Reshape,
    ensures
        v@ == node_text_spec(nodes@, id as int),
{
    let ghost ns = nodes@;
    let node = &nodes[id];
    assert(node_ok(ns, id as int));
    proof {
        reveal(node_text_spec);
    }
    let mut out: Vec<char> = Vec::new();
    match &node.kind {
        OpKind::Reshape => {
            push_str_chars(&mut out, "stablehlo.reshape ");
            push_arg_name(&mut out, nodes, id, 0);
            push_str_chars(&mut out, " : (");
            push_arg_type(&mut out, nodes, id, 0);
            push_str_chars(&mut out, ") -> ");
            assert(out@ + node_type(ns, id as int) =~= node_text_spec(ns, id as int));
                },
        _ => {
            return out;
        },
    }
    let ghost head = out@;
    push_tensor_type(&mut out, node.shape.as_slice(), node.dtype);
    assert(out@ == head + node_type(ns, id as int));
    out
}

fn text_concat(nodes: &Vec<Node>, id: usize) -> (v: Vec<char>)
    requires
        graph_wf(nodes@),
        id < nodes@.len(),
        nodes@[id as int].kind is Concat,
    ensures
        v@ == node_text_spec(nodes@, id as int),
{
    let ghost ns = nodes@;
    let node = &nodes[id];
    assert(node_ok(ns, id as int));
    proof {
        reveal(node_text_spec);
    }
    let mut out: Vec<char> = Vec::new();
    match &node.kind {
        OpKind::Concat(dim) => {
            push_str_chars(&mut out, "stablehlo.concatenate ");
            push_arg_list(&mut out, nodes, id, false);
            push_str_chars(&mut out, ", dim = ");
            let d = decimal_text(*dim);
            push_chars(&mut out, d.as_slice());
            push_str_chars(&mut out, " : (");
            push_arg_list(&mut out, nodes, id, true);
            push_str_chars(&mut out, ") -> ");
            assert(out@ + node_type(ns, id as int) =~= node_text_spec(ns, id as int));
                },
        _ => {
            return out;
        },
    }
    let ghost head = out@;
    push_tensor_type(&mut out, node.shape.as_slice(), node.dtype);
    assert(out@ == head + node_type(ns, id as int));
    out
}

fn text_transpose(nodes: &Vec<Node>, id: usize) -> (v: Vec<char>)
    requires
        graph_wf(nodes@),
        id < nodes@.len(),
        nodes@[id as int].kind is Transpose,
    ensures
        v@ == node_text_spec(nodes@, id as int),
{
    let ghost ns = nodes@;
    let node = &nodes[id];
    assert(node_ok(ns, id as int));
    proof {
        reveal(node_text_spec);
    }
    let mut out: Vec<char> = Vec::new();
    match &node.kind {
        OpKind::Transpose(perm) => {
            push_str_chars(&mut out, "stablehlo.transpose ");
            push_arg_name(&mut out, nodes, id, 0);
            push_str_chars(&mut out, ", dims = [");
            push_join(&mut out, perm.as_slice());
            push_str_chars(&mut out, "] : (");
            push_arg_type(&mut out, nodes, id, 0);
            push_str_chars(&mut out, ") -> ");
            assert(out@ + node_type(ns, id as int) =~= node_text_spec(ns, id as int));
                },
        _ => {
            return out;
        },
    }
    let ghost head = out@;
    push_tensor_type(&mut out, node.shape.as_slice(), node.dtype);
    assert(out@ == head + node_type(ns, id as int));
    out
}

fn text_reduce(nodes: &Vec<Node>, id: usize) -> (v: Vec<char>)
    requires
        graph_wf(nodes@),
        id < nodes@.len(),
        nodes@[id as int].kind is Reduce,
    ensures
        v@ == node_text_spec(nodes@, id as int),
{
    let ghost ns = nodes@;
    let node = &nodes[id];
    assert(node_ok(ns, id as int));
    proof {
        reveal(node_text_spec);
    }
    let mut out: Vec<char> = Vec::new();
    match &node.kind {
        OpKind::Reduce(reducer, axes) => {
            push_str_chars(&mut out, "stablehlo.reduce(");
            push_arg_name(&mut out, nodes, id, 0);
            push_str_chars(&mut out, " init: ");
            push_arg_name(&mut out, nodes, id, 1);
            push_str_chars(&mut out, ") applies stablehlo.");
            push_str_chars(&mut out, reducer.as_str());
            push_str_chars(&mut out, " across dimensions = [");
            push_join(&mut out, axes.as_slice());
            push_str_chars(&mut out, "] : (");
            push_arg_type(&mut out, nodes, id, 0);
            out.push(',');
            out.push(' ');
            push_arg_type(&mut out, nodes, id, 1);
            push_str_chars(&mut out, ") -> ");
            assert(out@ + node_type(ns, id as int) =~= node_text_spec(ns, id as int));
                },
        _ => {
            return out;
        },
    }
    let ghost head = out@;
    push_tensor_type(&mut out, node.shape.as_slice(), node.dtype);
    assert(out@ == head + node_type(ns, id as int));
    out
}

fn push_batching(out: &mut Vec<char>, lb: &[usize], rb: &[usize])
    ensures
        final(out)@ == old(out)@ + batching_text(lb@, rb@),
{
    if lb.len() > 0 {
        push_str_chars(out, "batching_dims = [");
        push_join(out, lb);
        push_str_chars(out, "] x [");
        push_join(out, rb);
        push_str_chars(out, "], ");
    }
    assert(out@ =~= old(out)@ + batching_text(lb@, rb@));
}

fn text_dot(nodes: &Vec<Node>, id: usize) -> (v: Vec<char>)
    requires
        graph_wf(nodes@),
        id < nodes@.len(),
        nodes@[id as int].kind is Dot,
    ensures
        v@ == node_text_spec(nodes@, id as int),
{
    let ghost ns = nodes@;
    let node = &nodes[id];
    assert(node_ok(ns, id as int));
    proof {
        reveal(node_text_spec);
    }
    let mut out: Vec<char> = Vec::new();
    match &node.kind {
        OpKind::Dot(lb, rb, lc, rc) => {
            push_str_chars(&mut out, "stablehlo.dot_general ");
            push_arg_name(&mut out, nodes, id, 0);
            out.push(',');
            out.push(' ');
            push_arg_name(&mut out, nodes, id, 1);
            out.push(',');
            out.push(' ');
            push_batching(&mut out, lb.as_slice(), rb.as_slice());
            push_str_chars(&mut out, "contracting_dims = [");
            push_join(&mut out, lc.as_slice());
            push_str_chars(&mut out, "] x [");
            push_join(&mut out, rc.as_slice());
            push_str_chars(&mut out, "] : (");
            push_arg_type(&mut out, nodes, id, 0);
            out.push(',');
            out.push(' ');
            push_arg_type(&mut out, nodes, id, 1);
            push_str_chars(&mut out, ") -> ");
            assert(out@ + node_type(ns, id as int) =~= node_text_spec(ns, id as int));
                },
        _ => {
            return out;
        },
    }
    let ghost head = out@;
    push_tensor_type(&mut out, node.shape.as_slice(), node.dtype);
    assert(out@ == head + node_type(ns, id as int));
    out
}

fn text_compare(nodes: &Vec<Node>, id: usize) -> (v: Vec<char>)
    requires
        graph_wf(nodes@),
        id < nodes@.len(),
        nodes@[id as int].kind is Compare,
    ensures
        v@ == node_text_spec(nodes@, id as int),
{
    let ghost ns = nodes@;
    let node = &nodes[id];
    assert(node_ok(ns, id as int));
    proof {
        reveal(node_text_spec);
    }
    let mut out: Vec<char> = Vec::new();
    match &node.kind {
        OpKind::Compare(dir) => {
            push_str_chars(&mut out, "stablehlo.compare ");
            push_str_chars(&mut out, dir.as_str());
            out.push(',');
            out.push(' ');
            push_arg_name(&mut out, nodes, id, 0);
            out.push(',');
            out.push(' ');
            push_arg_name(&mut out, nodes, id, 1);
            push_str_chars(&mut out, " : (");
            push_arg_type(&mut out, nodes, id, 0);
            out.push(',');
            out.push(' ');
            push_arg_type(&mut out, nodes, id, 1);
            push_str_chars(&mut out, ") -> ");
            assert(out@ + node_type(ns, id as int) =~= node_text_spec(ns, id as int));
                },
        _ => {
            return out;
        },
    }
    let ghost head = out@;
    push_tensor_type(&mut out, node.shape.as_slice(), node.dtype);
    assert(out@ == head + node_type(ns, id as int));
    out
}

fn text_select(nodes: &Vec<Node>, id: usize) -> (v: Vec<char>)
    requires
        graph_wf(nodes@),
        id < nodes@.len(),
        nodes@[id as int].kind is Select,
    ensures
        v@ == node_text_spec(nodes@, id as int),
{
    let ghost ns = nodes@;
    let node = &nodes[id];
    assert(node_ok(ns, id as int));
    proof {
        reveal(node_text_spec);
    }
    let mut out: Vec<char> = Vec::new();
    match &node.kind {
        OpKind::Select => {
            push_str_chars(&mut out, "stablehlo.select ");
            push_arg_name(&mut out, nodes, id, 0);
            out.push(',');
            out.push(' ');
            push_arg_name(&mut out, nodes, id, 1);
            out.push(',');
            out.push(' ');
            push_arg_name(&mut out, nodes, id, 2);
            push_str_chars(&mut out, " : ");
            push_arg_type(&mut out, nodes, id, 0);
            out.push(',');
            out.push(' ');
            assert(out@ + node_type(ns, id as int) =~= node_text_spec(ns, id as int));
                },
        _ => {
            return out;
        },
    }
    let ghost head = out@;
    push_tensor_type(&mut out, node.shape.as_slice(), node.dtype);
    assert(out@ == head + node_type(ns, id as int));
    out
}

fn text_dyn_update_slice(nodes: &Vec<Node>, id: usize) -> (v: Vec<char>)
    requires
        graph_wf(nodes@),
        id < nodes@.len(),
        nodes@[id as int].kind is DynUpdateSlice,
    ensures
        v@ == node_text_spec(nodes@, id as int),
{
    let ghost ns = nodes@;
    let node = &nodes[id];
    assert(node_ok(ns, id as int));
    proof {
        reveal(node_text_spec);
    }
    let mut out: Vec<char> = Vec::new();
    match &node.kind {
        OpKind::DynUpdateSlice => {
            push_str_chars(&mut out, "stablehlo.dynamic_update_slice ");
            push_arg_list(&mut out, nodes, id, false);
            push_str_chars(&mut out, " : (");
            push_arg_list(&mut out, nodes, id, true);
            push_str_chars(&mut out, ") -> ");
            assert(out@ + node_type(ns, id as int) =~= node_text_spec(ns, id as int));
                },
        _ => {
            return out;
        },
    }
    let ghost head = out@;
    push_tensor_type(&mut out, node.shape.as_slice(), node.dtype);
    assert(out@ == head + node_type(ns, id as int));
    out
}

fn text_slice(nodes: &Vec<Node>, id: usize) -> (v: Vec<char>)
    requires
        graph_wf(nodes@),
        id < nodes@.len(),
        nodes@[id as int].kind is Slice,
    ensures
        v@ == node_text_spec(nodes@, id as int),
{
    let ghost ns = nodes@;
    let node = &nodes[id];
    assert(node_ok(ns, id as int));
    proof {
        reveal(node_text_spec);
    }
    let mut out: Vec<char> = Vec::new();
    match &node.kind {
        OpKind::Slice(dim, start, limit) => {
            let op = node.inputs[0];
            assert(ns[id as int].inputs@[0] < id);
            let in_shape = &nodes[op].shape;
            push_str_chars(&mut out, "stablehlo.slice ");
            push_arg_name(&mut out, nodes, id, 0);
            push_str_chars(&mut out, " [");
            let ghost want = Seq::new(in_shape@.len(), |d: int| slice_range(d, in_shape@[d], *dim, *start, *limit));
            let mut pieces: Vec<Vec<char>> = Vec::new();
            let mut d: usize = 0;
            while d < in_shape.len()
                invariant
                    d <= in_shape@.len(),
                    want == Seq::new(in_shape@.len(), |d: int| slice_range(d, in_shape@[d], *dim, *start, *limit)),
                    pieces@.map_values(|p: Vec<char>| p@) == want.take(d as int),
                decreases in_shape.len() - d,
            {
                let mut piece: Vec<char> = Vec::new();
                if d == *dim {
                    let a = decimal_text(*start);
                    push_chars(&mut piece, a.as_slice());
                    piece.push(':');
                    let b = decimal_text(*limit);
                    push_chars(&mut piece, b.as_slice());
                } else {
                    piece.push('0');
                    piece.push(':');
                    let e = decimal_text(in_shape[d]);
                    push_chars(&mut piece, e.as_slice());
                }
                assert(piece@ =~= want[d as int]);
                let ghost before = pieces@;
                pieces.push(piece);
                assert(want.take(d + 1) =~= want.take(d as int).push(want[d as int]));
                assert(pieces@.map_values(|p: Vec<char>| p@) =~= before.map_values(|p: Vec<char>| p@).push(
                    piece@,
                ));
                d = d + 1;
            }
            assert(want.take(d as int) =~= want);
            let sep: [char; 2] = [',', ' '];
            assert(sep@ =~= seq![',', ' ']);
            push_pieces(&mut out, &pieces, &sep);
            push_str_chars(&mut out, "] : (");
            push_arg_type(&mut out, nodes, id, 0);
            push_str_chars(&mut out, ") -> ");
            assert(out@ + node_type(ns, id as int) =~= node_text_spec(ns, id as int));
                },
        _ => {
            return out;
        },
    }
    let ghost head = out@;
    push_tensor_type(&mut out, node.shape.as_slice(), node.dtype);
    assert(out@ == head + node_type(ns, id as int));
    out
}

/// The StableHLO text of a single-result node, after `%id = `.
pub fn node_text(nodes: &Vec<Node>, id: usize) -> (v: Vec<char>)
    requires
        graph_wf(nodes@),
        id < nodes@.len(),
        single_line(nodes@[id as int].kind),
    ensures
        v@ == node_text_spec(nodes@, id as int),
{
    match &nodes[id].kind {
        OpKind::Gather(..) => text_gather(nodes, id),
        OpKind::Iota => text_iota(nodes, id),
        OpKind::Constant(..) => text_constant(nodes, id),
        OpKind::DenseConst(..) => text_dense_const(nodes, id),
        OpKind::Ewise(..) => text_ewise(nodes, id),
        OpKind::Unary(..) => text_unary(nodes, id),
        OpKind::Convert => text_convert(nodes, id),
        OpKind::Broadcast(..) => text_broadcast(nodes, id),
        OpKind::Reshape => text_reshape(nodes, id),
        OpKind::Concat(..) => text_concat(nodes, id),
        OpKind::Transpose(..) => text_transpose(nodes, id),
        OpKind::Reduce(..) => text_reduce(nodes, id),
        OpKind::Dot(..) => text_dot(nodes, id),
        OpKind::Compare(..) => text_compare(nodes, id),
        OpKind::Select => text_select(nodes, id),
        OpKind::DynUpdateSlice => text_dyn_update_slice(nodes, id),
        OpKind::Slice(..) => text_slice(nodes, id),
        _ => Vec::new(),
    }
}


pub open spec fn spaces(n: nat) -> Seq<char> {
    Seq::new(n, |i: int| ' ')
}

/// The name a multi-result operation binds: `%id`, or `%id:count` for several results.
pub open spec fn head_name(id: int, count: nat) -> Seq<char> {
    if count == 1 {
        percent(id)
    } else {
        percent(id) + seq![':'] + decimal_chars(count)
    }
}

/// The scalar type of operand `i` of node `id`.
pub open spec fn arg_scalar(nodes: Seq<Node>, id: int, i: int) -> Seq<char> {
    tensor_type_spec(seq![], nodes[nodes[id].inputs@[i] as int].dtype)
}

/// The block parameters of a sort comparator: two scalars per operand.
pub open spec fn sort_params(nodes: Seq<Node>, id: int, num: nat) -> Seq<char> {
    join_with(
        Seq::new(
            2 * num,
            |k: int| "%s"@ + decimal_chars(id as nat) + seq!['_'] + decimal_chars(k as nat) + seq![':', ' '] + arg_scalar(
                nodes,
                id,
                k / 2,
            ),
        ),
        seq![',', ' '],
    )
}

pub open spec fn sort_line1(nodes: Seq<Node>, id: int, ind: Seq<char>, num: usize) -> Seq<char> {
    ind + head_name(id, num as nat) + " = \"stablehlo.sort\"("@ + arg_names(nodes, id) + ") ({\n"@
}

pub open spec fn sort_line2(nodes: Seq<Node>, id: int, ind: Seq<char>, num: usize) -> Seq<char> {
    ind + "^bb0("@ + sort_params(nodes, id, num as nat) + "):\n"@
}

pub open spec fn sort_line3(nodes: Seq<Node>, id: int, ind: Seq<char>) -> Seq<char> {
    let i = decimal_chars(id as nat);
    let scalar = arg_scalar(nodes, id, 0);
    ind + "  %c"@ + i + " = stablehlo.compare LT, %s"@ + i + "_0, %s"@ + i + "_1 : ("@ + scalar + seq![',', ' ']
        + scalar + ") -> tensor<i1>\n"@
}

pub open spec fn return_cond_line(id: int, ind: Seq<char>) -> Seq<char> {
    ind + "  stablehlo.return %c"@ + decimal_chars(id as nat) + " : tensor<i1>\n"@
}

pub open spec fn sort_line5(nodes: Seq<Node>, id: int, ind: Seq<char>, axis: usize) -> Seq<char> {
    ind + "}) {dimension = "@ + decimal_chars(axis as nat) + " : i64, is_stable = true} : ("@ + arg_types(nodes, id)
        + ") -> ("@ + arg_types(nodes, id) + ")\n"@
}

/// The lines of a sort node, indented by `ind`: the call, the comparator block comparing
/// the first operand ascending, and the sort attributes.
pub open spec fn sort_text(nodes: Seq<Node>, id: int, ind: Seq<char>, axis: usize, num: usize) -> Seq<char> {
    sort_line1(nodes, id, ind, num) + sort_line2(nodes, id, ind, num) + sort_line3(nodes, id, ind)
        + return_cond_line(id, ind) + sort_line5(nodes, id, ind, axis)
}

/// The update-window part of a scatter.
pub open spec fn scatter_windows(rank: nat) -> Seq<char> {
    if rank > 1 {
        "update_window_dims = ["@ + join_spec(id_range(1, rank)) + "], "@
    } else {
        seq![]
    }
}

pub open spec fn scatter_line1(nodes: Seq<Node>, id: int, ind: Seq<char>) -> Seq<char> {
    ind + percent(id) + " = \"stablehlo.scatter\"("@ + arg_names(nodes, id) + ") ({\n"@
}

pub open spec fn scatter_line2(id: int, ind: Seq<char>, scalar: Seq<char>) -> Seq<char> {
    let i = decimal_chars(id as nat);
    ind + "^bb0(%u"@ + i + "_0: "@ + scalar + ", %u"@ + i + "_1: "@ + scalar + "):\n"@
}

pub open spec fn scatter_line3(id: int, ind: Seq<char>, scalar: Seq<char>) -> Seq<char> {
    let i = decimal_chars(id as nat);
    ind + "  %a"@ + i + " = stablehlo.add %u"@ + i + "_0, %u"@ + i + "_1 : "@ + scalar + seq!['\n']
}

pub open spec fn scatter_line4(id: int, ind: Seq<char>, scalar: Seq<char>) -> Seq<char> {
    ind + "  stablehlo.return %a"@ + decimal_chars(id as nat) + " : "@ + scalar + seq!['\n']
}

pub open spec fn scatter_line5(nodes: Seq<Node>, id: int, ind: Seq<char>) -> Seq<char> {
    ind + "}) {indices_are_sorted = false, scatter_dimension_numbers = #stablehlo.scatter<"@ + scatter_windows(
        nodes[id].shape@.len(),
    )
        + "inserted_window_dims = [0], scatter_dims_to_operand_dims = [0], index_vector_dim = 1>, unique_indices = false} : ("@
        + arg_types(nodes, id) + ") -> "@ + node_type(nodes, id) + seq!['\n']
}

/// The lines of a scatter node, indented by `ind`: the call, the combining block that
/// adds an update to the operand, and the scatter attributes.
pub open spec fn scatter_text(nodes: Seq<Node>, id: int, ind: Seq<char>) -> Seq<char> {
    let scalar = tensor_type_spec(seq![], nodes[id].dtype);
    scatter_line1(nodes, id, ind) + scatter_line2(id, ind, scalar) + scatter_line3(id, ind, scalar) + scatter_line4(
        id,
        ind,
        scalar,
    ) + scatter_line5(nodes, id, ind)
}

/// The names of the given nodes' values, separated by `, `.
pub open spec fn value_names(nodes: Seq<Node>, ids: Seq<usize>) -> Seq<char> {
    join_with(Seq::new(ids.len(), |k: int| val_name(nodes, ids[k] as int)), seq![',', ' '])
}

/// The types of the given nodes, separated by `, `.
pub open spec fn value_types(nodes: Seq<Node>, ids: Seq<usize>) -> Seq<char> {
    join_with(Seq::new(ids.len(), |k: int| node_type(nodes, ids[k] as int)), seq![',', ' '])
}

/// The loop binders of a while: each iteration argument bound to its initial operand.
pub open spec fn while_binders(nodes: Seq<Node>, id: int, iter_args: Seq<usize>) -> Seq<char> {
    let ins = nodes[id].inputs@;
    let n = if iter_args.len() <= ins.len() { iter_args.len() } else { ins.len() };
    join_with(
        Seq::new(n, |k: int| percent(iter_args[k] as int) + " = "@ + val_name(nodes, ins[k] as int)),
        seq![',', ' '],
    )
}

/// The lines of the nodes `ids`, indented by `indent`; a while's regions only hold nodes
/// below it, and `lim` bounds the node ids a region may hold.
pub open spec fn region_text(nodes: Seq<Node>, ids: Seq<usize>, indent: nat, lim: int) -> Seq<char>
    decreases lim, 1int, ids.len(),
{
    if ids.len() == 0 {
        seq![]
    } else {
        region_text(nodes, ids.drop_last(), indent, lim) + item_text(nodes, ids.last() as int, indent, lim)
    }
}

/// The lines of node `id`, indented by `indent`: nothing for parameters, loop binders and
/// name aliases, the region form for while, sort and scatter, else `%id = ` and its text.
pub open spec fn item_text(nodes: Seq<Node>, id: int, indent: nat, lim: int) -> Seq<char>
    decreases lim, 0int, 0nat,
{
    if 0 <= id < nodes.len() {
        match nodes[id].kind {
            OpKind::Input => seq![],
            OpKind::IterArg => seq![],
            OpKind::Proj(_) => seq![],
            OpKind::Barrier => seq![],
            OpKind::While { body, cond, .. } => if id < lim {
                while_assemble(
                    nodes,
                    id,
                    indent,
                    match cond {
                        Some((cn, _)) => region_text(nodes, cn@, indent + 2, id),
                        None => seq![],
                    },
                    region_text(nodes, body@, indent + 2, id),
                )
            } else {
                seq![]
            },
            OpKind::Sort { axis, num } => sort_text(nodes, id, spaces(indent), axis, num),
            OpKind::Scatter => scatter_text(nodes, id, spaces(indent)),
            _ => spaces(indent) + percent(id) + " = "@ + node_text_spec(nodes, id) + seq!['\n'],
        }
    } else {
        seq![]
    }
}

pub open spec fn while_line1(nodes: Seq<Node>, id: int, ind: Seq<char>, iter_args: Seq<usize>) -> Seq<char> {
    ind + head_name(id, iter_args.len()) + " = stablehlo.while("@ + while_binders(nodes, id, iter_args) + ") : "@
        + value_types(nodes, iter_args) + seq!['\n']
}

pub open spec fn counter_line(nodes: Seq<Node>, id: int, ind: Seq<char>, counter: usize, limit: usize) -> Seq<char> {
    let t = node_type(nodes, counter as int);
    ind + "  %c"@ + decimal_chars(id as nat) + " = stablehlo.compare LT, "@ + percent(counter as int) + seq![',', ' ']
        + val_name(nodes, limit as int) + " : ("@ + t + seq![',', ' '] + t + ") -> tensor<i1>\n"@
}

pub open spec fn cond_return_line(nodes: Seq<Node>, ind: Seq<char>, cv: usize) -> Seq<char> {
    ind + "  stablehlo.return "@ + val_name(nodes, cv as int) + " : tensor<i1>\n"@
}

pub open spec fn while_return_line(nodes: Seq<Node>, ind: Seq<char>, results: Seq<usize>, iter_args: Seq<usize>) -> Seq<
    char,
> {
    ind + "  stablehlo.return "@ + value_names(nodes, results) + " : "@ + value_types(nodes, iter_args) + seq!['\n']
}

/// The lines of a while node, given the text of its condition region (when it has one)
/// and of its body region: its binders, then the condition region and its result (or a
/// comparison of the counter with the limit), then the body and the values it carries on.
pub open spec fn while_assemble(nodes: Seq<Node>, id: int, indent: nat, cond_region: Seq<char>, body_region: Seq<char>) -> Seq<
    char,
> {
    match nodes[id].kind {
        OpKind::While { iter_args, results, limit, cond, .. } => {
            let ind = spaces(indent);
            let cond_part = match cond {
                Some((_, cv)) => cond_region + cond_return_line(nodes, ind, cv),
                None => counter_line(nodes, id, ind, iter_args@[0], limit) + return_cond_line(id, ind),
            };
            while_line1(nodes, id, ind, iter_args@) + ind + " cond {\n"@ + cond_part + ind + " } do {\n"@ + body_region
                + while_return_line(nodes, ind, results@, iter_args@) + ind + " }\n"@
        },
        _ => seq![],
    }
}


fn push_spaces(out: &mut Vec<char>, n: usize)
    ensures
        final(out)@ == old(out)@ + spaces(n as nat),
{
    let mut k: usize = 0;
    while k < n
        invariant
            k <= n,
            out@ == old(out)@ + spaces(k as nat),
        decreases n - k,
    {
        out.push(' ');
        assert(out@ =~= old(out)@ + spaces((k + 1) as nat));
        k = k + 1;
    }
}

fn push_decimal(out: &mut Vec<char>, n: usize)
    ensures
        final(out)@ == old(out)@ + decimal_chars(n as nat),
{
    let d = decimal_text(n);
    push_chars(out, d.as_slice());
}

fn push_percent(out: &mut Vec<char>, id: usize)
    ensures
        final(out)@ == old(out)@ + percent(id as int),
{
    out.push('%');
    push_decimal(out, id);
    assert(out@ =~= old(out)@ + percent(id as int));
}

fn push_head_name(out: &mut Vec<char>, id: usize, count: usize)
    ensures
        final(out)@ == old(out)@ + head_name(id as int, count as nat),
{
    push_percent(out, id);
    if count != 1 {
        out.push(':');
        push_decimal(out, count);
    }
    assert(out@ =~= old(out)@ + head_name(id as int, count as nat));
}

fn push_sort_params(out: &mut Vec<char>, nodes: &Vec<Node>, id: usize, num: usize)
    requires
        graph_wf(nodes@),
        id < nodes@.len(),
        num <= nodes@[id as int].inputs@.len(),
        2 * num <= usize::MAX,
    ensures
        final(out)@ == old(out)@ + sort_params(nodes@, id as int, num as nat),
{
    let ghost want = Seq::new(
        2 * num as nat,
        |k: int| "%s"@ + decimal_chars(id as nat) + seq!['_'] + decimal_chars(k as nat) + seq![':', ' '] + arg_scalar(
            nodes@,
            id as int,
            k / 2,
        ),
    );
    let mut pieces: Vec<Vec<char>> = Vec::new();
    let mut k: usize = 0;
    while k < 2 * num
        invariant
            graph_wf(nodes@),
            id < nodes@.len(),
            num <= nodes@[id as int].inputs@.len(),
            2 * num <= usize::MAX,
            k <= 2 * num,
            want == Seq::new(
                2 * num as nat,
                |k: int| "%s"@ + decimal_chars(id as nat) + seq!['_'] + decimal_chars(k as nat) + seq![':', ' ']
                    + arg_scalar(nodes@, id as int, k / 2),
            ),
            pieces@.map_values(|p: Vec<char>| p@) == want.take(k as int),
        decreases 2 * num - k,
    {
        let mut piece: Vec<char> = Vec::new();
        push_str_chars(&mut piece, "%s");
        push_decimal(&mut piece, id);
        piece.push('_');
        push_decimal(&mut piece, k);
        piece.push(':');
        piece.push(' ');
        push_arg_scalar(&mut piece, nodes, id, k / 2);
        assert(piece@ =~= want[k as int]);
        let ghost before = pieces@;
        pieces.push(piece);
        assert(want.take(k + 1) =~= want.take(k as int).push(want[k as int]));
        assert(pieces@.map_values(|p: Vec<char>| p@) =~= before.map_values(|p: Vec<char>| p@).push(piece@));
        k = k + 1;
    }
    assert(want.take(k as int) =~= want);
    let sep: [char; 2] = [',', ' '];
    assert(sep@ =~= seq![',', ' ']);
    push_pieces(out, &pieces, &sep);
}

fn push_arg_scalar(out: &mut Vec<char>, nodes: &Vec<Node>, id: usize, i: usize)
    requires
        graph_wf(nodes@),
        id < nodes@.len(),
        i < nodes@[id as int].inputs@.len(),
    ensures
        final(out)@ == old(out)@ + arg_scalar(nodes@, id as int, i as int),
{
    let w = nodes[id].inputs[i];
    assert(nodes@[id as int].inputs@[i as int] < id);
    let e: [usize; 0] = [];
    assert(e@ =~= Seq::<usize>::empty());
    push_tensor_type(out, &e, nodes[w].dtype);
}

fn push_return_cond(out: &mut Vec<char>, id: usize, indent: usize)
    ensures
        final(out)@ == old(out)@ + return_cond_line(id as int, spaces(indent as nat)),
{
    push_spaces(out, indent);
    push_str_chars(out, "  stablehlo.return %c");
    push_decimal(out, id);
    push_str_chars(out, " : tensor<i1>\n");
    assert(out@ =~= old(out)@ + return_cond_line(id as int, spaces(indent as nat)));
}

fn sort_line1_exec(out: &mut Vec<char>, nodes: &Vec<Node>, id: usize, indent: usize, num: usize)
    requires
        graph_wf(nodes@),
        id < nodes@.len(),
    ensures
        final(out)@ == old(out)@ + sort_line1(nodes@, id as int, spaces(indent as nat), num),
{
    push_spaces(out, indent);
    push_head_name(out, id, num);
    push_str_chars(out, " = \"stablehlo.sort\"(");
    push_arg_list(out, nodes, id, false);
    push_str_chars(out, ") ({\n");
    assert(out@ =~= old(out)@ + sort_line1(nodes@, id as int, spaces(indent as nat), num));
}

fn sort_line2_exec(out: &mut Vec<char>, nodes: &Vec<Node>, id: usize, indent: usize, num: usize)
    requires
        graph_wf(nodes@),
        id < nodes@.len(),
        num <= nodes@[id as int].inputs@.len(),
        2 * num <= usize::MAX,
    ensures
        final(out)@ == old(out)@ + sort_line2(nodes@, id as int, spaces(indent as nat), num),
{
    push_spaces(out, indent);
    push_str_chars(out, "^bb0(");
    push_sort_params(out, nodes, id, num);
    push_str_chars(out, "):\n");
    assert(out@ =~= old(out)@ + sort_line2(nodes@, id as int, spaces(indent as nat), num));
}

fn sort_line3_exec(out: &mut Vec<char>, nodes: &Vec<Node>, id: usize, indent: usize)
    requires
        graph_wf(nodes@),
        id < nodes@.len(),
        nodes@[id as int].inputs@.len() >= 1,
    ensures
        final(out)@ == old(out)@ + sort_line3(nodes@, id as int, spaces(indent as nat)),
{
    push_spaces(out, indent);
    push_str_chars(out, "  %c");
    push_decimal(out, id);
    push_str_chars(out, " = stablehlo.compare LT, %s");
    push_decimal(out, id);
    push_str_chars(out, "_0, %s");
    push_decimal(out, id);
    push_str_chars(out, "_1 : (");
    push_arg_scalar(out, nodes, id, 0);
    out.push(',');
    out.push(' ');
    push_arg_scalar(out, nodes, id, 0);
    push_str_chars(out, ") -> tensor<i1>\n");
    assert(out@ =~= old(out)@ + sort_line3(nodes@, id as int, spaces(indent as nat)));
}

fn sort_line5_exec(out: &mut Vec<char>, nodes: &Vec<Node>, id: usize, indent: usize, axis: usize)
    requires
        graph_wf(nodes@),
        id < nodes@.len(),
    ensures
        final(out)@ == old(out)@ + sort_line5(nodes@, id as int, spaces(indent as nat), axis),
{
    push_spaces(out, indent);
    push_str_chars(out, "}) {dimension = ");
    push_decimal(out, axis);
    push_str_chars(out, " : i64, is_stable = true} : (");
    push_arg_list(out, nodes, id, true);
    push_str_chars(out, ") -> (");
    push_arg_list(out, nodes, id, true);
    push_str_chars(out, ")\n");
    assert(out@ =~= old(out)@ + sort_line5(nodes@, id as int, spaces(indent as nat), axis));
}

/// Appends the lines of a sort node.
fn write_sort(out: &mut Vec<char>, nodes: &Vec<Node>, id: usize, indent: usize)
    requires
        graph_wf(nodes@),
        id < nodes@.len(),
        nodes@[id as int].kind is Sort,
    ensures
        match nodes@[id as int].kind {
            OpKind::Sort { axis, num } => final(out)@ == old(out)@ + sort_text(
                nodes@,
                id as int,
                spaces(indent as nat),
                axis,
                num,
            ),
            _ => true,
        },
{
    assert(node_ok(nodes@, id as int));
    match &nodes[id].kind {
        OpKind::Sort { axis, num } => {
            let ghost ind = spaces(indent as nat);
            let ghost s0 = out@;
            sort_line1_exec(out, nodes, id, indent, *num);
            sort_line2_exec(out, nodes, id, indent, *num);
            sort_line3_exec(out, nodes, id, indent);
            push_return_cond(out, id, indent);
            sort_line5_exec(out, nodes, id, indent, *axis);
            assert(out@ =~= s0 + sort_text(nodes@, id as int, ind, *axis, *num));
        },
        _ => {},
    }
}

fn scatter_scalar_line(out: &mut Vec<char>, id: usize, indent: usize, scalar: &Vec<char>, which: u8)
    requires
        which < 3,
    ensures
        final(out)@ == old(out)@ + (if which == 0 {
            scatter_line2(id as int, spaces(indent as nat), scalar@)
        } else if which == 1 {
            scatter_line3(id as int, spaces(indent as nat), scalar@)
        } else {
            scatter_line4(id as int, spaces(indent as nat), scalar@)
        }),
{
    push_spaces(out, indent);
    if which == 0 {
        push_str_chars(out, "^bb0(%u");
        push_decimal(out, id);
        push_str_chars(out, "_0: ");
        push_chars(out, scalar.as_slice());
        push_str_chars(out, ", %u");
        push_decimal(out, id);
        push_str_chars(out, "_1: ");
        push_chars(out, scalar.as_slice());
        push_str_chars(out, "):\n");
        assert(out@ =~= old(out)@ + scatter_line2(id as int, spaces(indent as nat), scalar@));
    } else if which == 1 {
        push_str_chars(out, "  %a");
        push_decimal(out, id);
        push_str_chars(out, " = stablehlo.add %u");
        push_decimal(out, id);
        push_str_chars(out, "_0, %u");
        push_decimal(out, id);
        push_str_chars(out, "_1 : ");
        push_chars(out, scalar.as_slice());
        out.push('\n');
        assert(out@ =~= old(out)@ + scatter_line3(id as int, spaces(indent as nat), scalar@));
    } else {
        push_str_chars(out, "  stablehlo.return %a");
        push_decimal(out, id);
        push_str_chars(out, " : ");
        push_chars(out, scalar.as_slice());
        out.push('\n');
        assert(out@ =~= old(out)@ + scatter_line4(id as int, spaces(indent as nat), scalar@));
    }
}

fn scatter_line1_exec(out: &mut Vec<char>, nodes: &Vec<Node>, id: usize, indent: usize)
    requires
        graph_wf(nodes@),
        id < nodes@.len(),
    ensures
        final(out)@ == old(out)@ + scatter_line1(nodes@, id as int, spaces(indent as nat)),
{
    push_spaces(out, indent);
    push_percent(out, id);
    push_str_chars(out, " = \"stablehlo.scatter\"(");
    push_arg_list(out, nodes, id, false);
    push_str_chars(out, ") ({\n");
    assert(out@ =~= old(out)@ + scatter_line1(nodes@, id as int, spaces(indent as nat)));
}

fn scatter_line5_exec(out: &mut Vec<char>, nodes: &Vec<Node>, id: usize, indent: usize)
    requires
        graph_wf(nodes@),
        id < nodes@.len(),
    ensures
        final(out)@ == old(out)@ + scatter_line5(nodes@, id as int, spaces(indent as nat)),
{
    let node = &nodes[id];
    push_spaces(out, indent);
    push_str_chars(out, "}) {indices_are_sorted = false, scatter_dimension_numbers = #stablehlo.scatter<");
    if node.shape.len() > 1 {
        push_str_chars(out, "update_window_dims = [");
        push_range(out, 1, node.shape.len());
        push_str_chars(out, "], ");
    }
    push_str_chars(
        out,
        "inserted_window_dims = [0], scatter_dims_to_operand_dims = [0], index_vector_dim = 1>, unique_indices = false} : (",
    );
    push_arg_list(out, nodes, id, true);
    push_str_chars(out, ") -> ");
    push_tensor_type(out, node.shape.as_slice(), node.dtype);
    out.push('\n');
    assert(out@ =~= old(out)@ + scatter_line5(nodes@, id as int, spaces(indent as nat)));
}

/// Appends the lines of a scatter node.
fn write_scatter(out: &mut Vec<char>, nodes: &Vec<Node>, id: usize, indent: usize)
    requires
        graph_wf(nodes@),
        id < nodes@.len(),
    ensures
        final(out)@ == old(out)@ + scatter_text(nodes@, id as int, spaces(indent as nat)),
{
    let e: [usize; 0] = [];
    assert(e@ =~= Seq::<usize>::empty());
    let mut scalar: Vec<char> = Vec::new();
    push_tensor_type(&mut scalar, &e, nodes[id].dtype);
    let ghost s0 = out@;
    scatter_line1_exec(out, nodes, id, indent);
    scatter_scalar_line(out, id, indent, &scalar, 0);
    scatter_scalar_line(out, id, indent, &scalar, 1);
    scatter_scalar_line(out, id, indent, &scalar, 2);
    scatter_line5_exec(out, nodes, id, indent);
    assert(out@ =~= s0 + scatter_text(nodes@, id as int, spaces(indent as nat)));
}


/// Appends the names (or the types) of the values of `ids`, separated by `, `.
fn push_value_list(out: &mut Vec<char>, nodes: &Vec<Node>, ids: &Vec<usize>, types: bool)
    requires
        graph_wf(nodes@),
        ids_below(ids@, nodes@.len() as int),
    ensures
        final(out)@ == old(out)@ + (if types { value_types(nodes@, ids@) } else { value_names(nodes@, ids@) }),
{
    let ghost want = if types {
        Seq::new(ids@.len(), |k: int| node_type(nodes@, ids@[k] as int))
    } else {
        Seq::new(ids@.len(), |k: int| val_name(nodes@, ids@[k] as int))
    };
    let mut pieces: Vec<Vec<char>> = Vec::new();
    let mut k: usize = 0;
    while k < ids.len()
        invariant
            graph_wf(nodes@),
            ids_below(ids@, nodes@.len() as int),
            want == (if types {
                Seq::new(ids@.len(), |k: int| node_type(nodes@, ids@[k] as int))
            } else {
                Seq::new(ids@.len(), |k: int| val_name(nodes@, ids@[k] as int))
            }),
            k <= ids@.len(),
            pieces@.map_values(|p: Vec<char>| p@) == want.take(k as int),
        decreases ids.len() - k,
    {
        let w = ids[k];
        assert(ids@[k as int] < nodes@.len());
        let mut piece: Vec<char> = Vec::new();
        if types {
            push_tensor_type(&mut piece, nodes[w].shape.as_slice(), nodes[w].dtype);
        } else {
            let v = value_name(nodes, w);
            push_chars(&mut piece, v.as_slice());
        }
        assert(piece@ =~= want[k as int]);
        let ghost before = pieces@;
        pieces.push(piece);
        assert(want.take(k + 1) =~= want.take(k as int).push(want[k as int]));
        assert(pieces@.map_values(|p: Vec<char>| p@) =~= before.map_values(|p: Vec<char>| p@).push(piece@));
        k = k + 1;
    }
    assert(want.take(k as int) =~= want);
    let sep: [char; 2] = [',', ' '];
    assert(sep@ =~= seq![',', ' ']);
    push_pieces(out, &pieces, &sep);
}

/// Appends the loop binders of a while.
fn push_binders(out: &mut Vec<char>, nodes: &Vec<Node>, id: usize, iter_args: &Vec<usize>)
    requires
        graph_wf(nodes@),
        id < nodes@.len(),
        ids_below(iter_args@, nodes@.len() as int),
    ensures
        final(out)@ == old(out)@ + while_binders(nodes@, id as int, iter_args@),
{
    let ins = &nodes[id].inputs;
    let n: usize = if iter_args.len() <= ins.len() {
        iter_args.len()
    } else {
        ins.len()
    };
    let ghost want = Seq::new(
        n as nat,
        |k: int| percent(iter_args@[k] as int) + " = "@ + val_name(nodes@, ins@[k] as int),
    );
    let mut pieces: Vec<Vec<char>> = Vec::new();
    let mut k: usize = 0;
    while k < n
        invariant
            graph_wf(nodes@),
            id < nodes@.len(),
            *ins == nodes@[id as int].inputs,
            n <= iter_args@.len(),
            n <= ins@.len(),
            want == Seq::new(
                n as nat,
                |k: int| percent(iter_args@[k] as int) + " = "@ + val_name(nodes@, ins@[k] as int),
            ),
            k <= n,
            pieces@.map_values(|p: Vec<char>| p@) == want.take(k as int),
        decreases n - k,
    {
        let mut piece: Vec<char> = Vec::new();
        push_percent(&mut piece, iter_args[k]);
        push_str_chars(&mut piece, " = ");
        assert(ins@[k as int] < id);
        let v = value_name(nodes, ins[k]);
        push_chars(&mut piece, v.as_slice());
        assert(piece@ =~= want[k as int]);
        let ghost before = pieces@;
        pieces.push(piece);
        assert(want.take(k + 1) =~= want.take(k as int).push(want[k as int]));
        assert(pieces@.map_values(|p: Vec<char>| p@) =~= before.map_values(|p: Vec<char>| p@).push(piece@));
        k = k + 1;
    }
    assert(want.take(k as int) =~= want);
    let sep: [char; 2] = [',', ' '];
    assert(sep@ =~= seq![',', ' ']);
    push_pieces(out, &pieces, &sep);
}

fn while_line1_exec(out: &mut Vec<char>, nodes: &Vec<Node>, id: usize, indent: usize, iter_args: &Vec<usize>)
    requires
        graph_wf(nodes@),
        id < nodes@.len(),
        ids_below(iter_args@, nodes@.len() as int),
    ensures
        final(out)@ == old(out)@ + while_line1(nodes@, id as int, spaces(indent as nat), iter_args@),
{
    push_spaces(out, indent);
    push_head_name(out, id, iter_args.len());
    push_str_chars(out, " = stablehlo.while(");
    push_binders(out, nodes, id, iter_args);
    push_str_chars(out, ") : ");
    push_value_list(out, nodes, iter_args, true);
    out.push('\n');
    assert(out@ =~= old(out)@ + while_line1(nodes@, id as int, spaces(indent as nat), iter_args@));
}

fn counter_line_exec(out: &mut Vec<char>, nodes: &Vec<Node>, id: usize, indent: usize, counter: usize, limit: usize)
    requires
        graph_wf(nodes@),
        counter < nodes@.len(),
        limit < nodes@.len(),
    ensures
        final(out)@ == old(out)@ + counter_line(nodes@, id as int, spaces(indent as nat), counter, limit),
{
    let mut t: Vec<char> = Vec::new();
    push_tensor_type(&mut t, nodes[counter].shape.as_slice(), nodes[counter].dtype);
    push_spaces(out, indent);
    push_str_chars(out, "  %c");
    push_decimal(out, id);
    push_str_chars(out, " = stablehlo.compare LT, ");
    push_percent(out, counter);
    out.push(',');
    out.push(' ');
    let v = value_name(nodes, limit);
    push_chars(out, v.as_slice());
    push_str_chars(out, " : (");
    push_chars(out, t.as_slice());
    out.push(',');
    out.push(' ');
    push_chars(out, t.as_slice());
    push_str_chars(out, ") -> tensor<i1>\n");
    assert(out@ =~= old(out)@ + counter_line(nodes@, id as int, spaces(indent as nat), counter, limit));
}

fn cond_return_exec(out: &mut Vec<char>, nodes: &Vec<Node>, indent: usize, cv: usize)
    requires
        graph_wf(nodes@),
        cv < nodes@.len(),
    ensures
        final(out)@ == old(out)@ + cond_return_line(nodes@, spaces(indent as nat), cv),
{
    push_spaces(out, indent);
    push_str_chars(out, "  stablehlo.return ");
    let v = value_name(nodes, cv);
    push_chars(out, v.as_slice());
    push_str_chars(out, " : tensor<i1>\n");
    assert(out@ =~= old(out)@ + cond_return_line(nodes@, spaces(indent as nat), cv));
}

fn while_return_exec(out: &mut Vec<char>, nodes: &Vec<Node>, indent: usize, results: &Vec<usize>, iter_args: &Vec<usize>)
    requires
        graph_wf(nodes@),
        ids_below(results@, nodes@.len() as int),
        ids_below(iter_args@, nodes@.len() as int),
    ensures
        final(out)@ == old(out)@ + while_return_line(nodes@, spaces(indent as nat), results@, iter_args@),
{
    push_spaces(out, indent);
    push_str_chars(out, "  stablehlo.return ");
    push_value_list(out, nodes, results, false);
    push_str_chars(out, " : ");
    push_value_list(out, nodes, iter_args, true);
    out.push('\n');
    assert(out@ =~= old(out)@ + while_return_line(nodes@, spaces(indent as nat), results@, iter_args@));
}

fn push_indented(out: &mut Vec<char>, indent: usize, text: &str)
    ensures
        final(out)@ == old(out)@ + spaces(indent as nat) + text@,
{
    push_spaces(out, indent);
    push_str_chars(out, text);
}

proof fn lemma_ids_below_mono(ids: Seq<usize>, a: int, b: int)
    requires
        ids_below(ids, a),
        a <= b,
    ensures
        ids_below(ids, b),
{
}

/// Appends the condition region of a while node: its nodes and result, or a comparison
/// of the counter with the limit.
fn write_cond(
    out: &mut Vec<char>,
    nodes: &Vec<Node>,
    id: usize,
    indent: usize,
    lim: usize,
    counter: usize,
    limit: usize,
    cond: &Option<(Vec<usize>, usize)>,
)
    requires
        graph_wf(nodes@),
        id < lim,
        lim <= nodes@.len(),
        indent + 2 * lim <= usize::MAX,
        counter < id,
        limit < id,
        cond matches Some((cn, cv)) ==> ids_below(cn@, id as int) && cv < id,
    ensures
        final(out)@ == old(out)@ + match cond {
            Some((cn, cv)) => region_text(nodes@, cn@, (indent + 2) as nat, id as int) + cond_return_line(
                nodes@,
                spaces(indent as nat),
                *cv,
            ),
            None => counter_line(nodes@, id as int, spaces(indent as nat), counter, limit) + return_cond_line(
                id as int,
                spaces(indent as nat),
            ),
        },
    decreases lim, 0int, 0int,
{
    let ghost s0 = out@;
    match cond {
        Some((cn, cv)) => {
            write_region(out, nodes, cn, indent + 2, id);
            cond_return_exec(out, nodes, indent, *cv);
        },
        None => {
            counter_line_exec(out, nodes, id, indent, counter, limit);
            push_return_cond(out, id, indent);
        },
    }
}

/// Appends the lines of a while node.
#[verifier::rlimit(40)]
fn write_while(out: &mut Vec<char>, nodes: &Vec<Node>, id: usize, indent: usize, lim: usize)
    requires
        graph_wf(nodes@),
        id < lim,
        lim <= nodes@.len(),
        indent + 2 * lim <= usize::MAX,
        nodes@[id as int].kind is While,
    ensures
        final(out)@ == old(out)@ + item_text(nodes@, id as int, indent as nat, lim as int),
    decreases lim, 0int, 1int,
{
    assert(node_ok(nodes@, id as int));
    match &nodes[id].kind {
        OpKind::While { iter_args, results, body, limit, cond } => {
            proof {
                lemma_ids_below_mono(iter_args@, id as int, nodes@.len() as int);
                lemma_ids_below_mono(results@, id as int, nodes@.len() as int);
            }
            assert(iter_args@[0] < id);
            let ghost ind = spaces(indent as nat);
            let ghost cond_region = match cond {
                Some((cn, _)) => region_text(nodes@, cn@, (indent + 2) as nat, id as int),
                None => seq![],
            };
            let ghost s0 = out@;
            while_line1_exec(out, nodes, id, indent, iter_args);
            push_indented(out, indent, " cond {\n");
            let ghost s1 = out@;
            write_cond(out, nodes, id, indent, lim, iter_args[0], *limit, cond);
            let ghost s2 = out@;
            write_body(out, nodes, id, indent, body, results, iter_args);
            let ghost cond_part = match cond {
                Some((_, cv)) => cond_region + cond_return_line(nodes@, ind, *cv),
                None => counter_line(nodes@, id as int, ind, iter_args@[0], *limit) + return_cond_line(id as int, ind),
            };
            assert(s2 == s1 + cond_part);
            assert(out@ =~= s0 + while_assemble(
                nodes@,
                id as int,
                indent as nat,
                cond_region,
                region_text(nodes@, body@, (indent + 2) as nat, id as int),
            ));
        },
        _ => {},
    }
}

/// Appends the body region of a while node and its closing lines.
fn write_body(
    out: &mut Vec<char>,
    nodes: &Vec<Node>,
    id: usize,
    indent: usize,
    body: &Vec<usize>,
    results: &Vec<usize>,
    iter_args: &Vec<usize>,
)
    requires
        graph_wf(nodes@),
        id < nodes@.len(),
        indent + 2 * id + 2 <= usize::MAX,
        ids_below(body@, id as int),
        ids_below(results@, nodes@.len() as int),
        ids_below(iter_args@, nodes@.len() as int),
    ensures
        final(out)@ == old(out)@ + spaces(indent as nat) + " } do {\n"@ + region_text(
            nodes@,
            body@,
            (indent + 2) as nat,
            id as int,
        ) + while_return_line(nodes@, spaces(indent as nat), results@, iter_args@) + spaces(indent as nat)
            + " }\n"@,
    decreases id, 3int, 0int,
{
    push_indented(out, indent, " } do {\n");
    write_region(out, nodes, body, indent + 2, id);
    while_return_exec(out, nodes, indent, results, iter_args);
    push_indented(out, indent, " }\n");
    assert(out@ =~= old(out)@ + spaces(indent as nat) + " } do {\n"@ + region_text(
        nodes@,
        body@,
        (indent + 2) as nat,
        id as int,
    ) + while_return_line(nodes@, spaces(indent as nat), results@, iter_args@) + spaces(indent as nat) + " }\n"@);
}

/// Appends the lines of node `id`.
fn write_item(out: &mut Vec<char>, nodes: &Vec<Node>, id: usize, indent: usize, lim: usize)
    requires
        graph_wf(nodes@),
        id < lim,
        lim <= nodes@.len(),
        indent + 2 * lim <= usize::MAX,
    ensures
        final(out)@ == old(out)@ + item_text(nodes@, id as int, indent as nat, lim as int),
    decreases lim, 1int, 0int,
{
    match &nodes[id].kind {
        OpKind::Input => {},
        OpKind::IterArg => {},
        OpKind::Proj(_) => {},
        OpKind::Barrier => {},
        OpKind::While { .. } => {
            write_while(out, nodes, id, indent, lim);
        },
        OpKind::Sort { .. } => {
            write_sort(out, nodes, id, indent);
        },
        OpKind::Scatter => {
            write_scatter(out, nodes, id, indent);
        },
        _ => {
            let ghost s0 = out@;
            push_spaces(out, indent);
            push_percent(out, id);
            push_str_chars(out, " = ");
            let t = node_text(nodes, id);
            push_chars(out, t.as_slice());
            out.push('\n');
            assert(out@ =~= s0 + item_text(nodes@, id as int, indent as nat, lim as int));
        },
    }
}

/// Appends the lines of the nodes `ids`, in order.
fn write_region(out: &mut Vec<char>, nodes: &Vec<Node>, ids: &Vec<usize>, indent: usize, lim: usize)
    requires
        graph_wf(nodes@),
        ids_below(ids@, lim as int),
        lim <= nodes@.len(),
        indent + 2 * lim <= usize::MAX,
    ensures
        final(out)@ == old(out)@ + region_text(nodes@, ids@, indent as nat, lim as int),
    decreases lim, 2int, ids@.len(),
{
    let mut i: usize = 0;
    assert(ids@.take(0) =~= Seq::<usize>::empty());
    while i < ids.len()
        invariant
            graph_wf(nodes@),
            ids_below(ids@, lim as int),
            lim <= nodes@.len(),
            indent + 2 * lim <= usize::MAX,
            i <= ids@.len(),
            out@ == old(out)@ + region_text(nodes@, ids@.take(i as int), indent as nat, lim as int),
        decreases ids.len() - i,
    {
        assert(ids@.take(i + 1).drop_last() =~= ids@.take(i as int));
        assert(ids@[i as int] < lim);
        write_item(out, nodes, ids[i], indent, lim);
        i = i + 1;
    }
    assert(ids@.take(i as int) =~= ids@);
}


/// Whether an operation is a while whose body or condition region holds node `x`.
pub open spec fn claims(kind: OpKind, x: usize) -> bool {
    match kind {
        OpKind::While { body, cond, .. } => body@.contains(x) || (cond matches Some((cn, _)) && cn@.contains(x)),
        _ => false,
    }
}

/// Whether one of the first `i` nodes is a while whose regions hold node `x`.
pub open spec fn claimed_before(nodes: Seq<Node>, i: int, x: usize) -> bool {
    exists|id: int| 0 <= id < i && #[trigger] claims(nodes[id].kind, x)
}

/// The nodes below `k` that no while region holds, in order: the top level of the module.
pub open spec fn top_ids(nodes: Seq<Node>, k: int) -> Seq<usize>
    decreases k,
{
    if k <= 0 {
        seq![]
    } else {
        top_ids(nodes, k - 1) + (if claimed_before(nodes, nodes.len() as int, (k - 1) as usize) {
            seq![]
        } else {
            seq![(k - 1) as usize]
        })
    }
}

/// The parameters of `@main`: each input node's name and type.
pub open spec fn params_text(nodes: Seq<Node>, params: Seq<usize>) -> Seq<char> {
    join_with(
        Seq::new(params.len(), |k: int| percent(params[k] as int) + seq![':', ' '] + node_type(nodes, params[k] as int)),
        seq![',', ' '],
    )
}

/// The types of the outputs, separated by `, `.
pub open spec fn output_types(outs: Seq<Val>) -> Seq<char> {
    join_with(Seq::new(outs.len(), |k: int| tensor_type_spec(outs[k].shape@, outs[k].dtype)), seq![',', ' '])
}

/// The names of the outputs, separated by `, `.
pub open spec fn output_names(nodes: Seq<Node>, outs: Seq<Val>) -> Seq<char> {
    join_with(Seq::new(outs.len(), |k: int| val_name(nodes, outs[k].id as int)), seq![',', ' '])
}

/// The StableHLO module of a traced program: `@main` takes the parameter nodes, holds
/// every node that no while region holds, and returns the outputs.
pub open spec fn module_spec(nodes: Seq<Node>, params: Seq<usize>, outs: Seq<Val>) -> Seq<char> {
    let signature = if outs.len() == 0 { seq![] } else { " -> ("@ + output_types(outs) + seq![')'] };
    let ret = if outs.len() == 0 {
        "    return\n"@
    } else {
        "    return "@ + output_names(nodes, outs) + " : "@ + output_types(outs) + seq!['\n']
    };
    "module {\n"@ + "  func.func @main("@ + params_text(nodes, params) + seq![')'] + signature + " {\n"@
        + region_text(nodes, top_ids(nodes, nodes.len() as int), 4, nodes.len() as int) + ret + "  }\n}\n"@
}

/// Whether one of the first `j` ids is `x`.
pub open spec fn among(ids: Seq<usize>, j: int, x: int) -> bool {
    exists|k: int| 0 <= k < j && #[trigger] ids[k] as int == x
}

/// Marks every node of `ids`.
fn mark_all(marks: &mut Vec<bool>, ids: &Vec<usize>)
    requires
        forall|k: int| 0 <= k < ids@.len() ==> #[trigger] ids@[k] < old(marks)@.len(),
    ensures
        final(marks)@.len() == old(marks)@.len(),
        forall|x: int| 0 <= x < old(marks)@.len() ==> #[trigger] final(marks)@[x] == (old(marks)@[x] || ids@.contains(x as usize)),
{
    let mut j: usize = 0;
    while j < ids.len()
        invariant
            forall|k: int| 0 <= k < ids@.len() ==> #[trigger] ids@[k] < old(marks)@.len(),
            marks@.len() == old(marks)@.len(),
            j <= ids@.len(),
            forall|x: int| 0 <= x < marks@.len() ==> #[trigger] marks@[x] == (old(marks)@[x] || among(ids@, j as int, x)),
        decreases ids.len() - j,
    {
        let x = ids[j];
        marks.set(x, true);
        assert forall|y: int| 0 <= y < marks@.len() implies #[trigger] marks@[y] == (old(marks)@[y] || among(ids@, j + 1, y)) by {
            if y == x {
                assert(ids@[j as int] as int == y);
            }
            if among(ids@, j + 1, y) && !among(ids@, j as int, y) {
                let k = choose|k: int| 0 <= k < j + 1 && #[trigger] ids@[k] as int == y;
                assert(k == j);
            }
        }
        j = j + 1;
    }
    let m = marks.len();
    assert forall|x: int| 0 <= x < m implies #[trigger] among(ids@, j as int, x) == ids@.contains(x as usize) by {
        if among(ids@, j as int, x) {
            let k = choose|k: int| 0 <= k < j && #[trigger] ids@[k] as int == x;
            assert(ids@[k] == x as usize);
        }
        if ids@.contains(x as usize) {
            let k = choose|k: int| 0 <= k < ids@.len() && ids@[k] == x as usize;
            assert(ids@[k] as int == x);
        }
    }
}

/// Which nodes a while region holds.
fn claimed_nodes(nodes: &Vec<Node>) -> (marks: Vec<bool>)
    requires
        graph_wf(nodes@),
    ensures
        marks@.len() == nodes@.len(),
        forall|x: int| 0 <= x < nodes@.len() ==> #[trigger] marks@[x] == claimed_before(nodes@, nodes@.len() as int, x as usize),
{
    let n = nodes.len();
    let mut marks: Vec<bool> = Vec::new();
    let mut k: usize = 0;
    while k < n
        invariant
            n == nodes@.len(),
            k <= n,
            marks@.len() == k,
            forall|x: int| 0 <= x < k ==> #[trigger] marks@[x] == false,
        decreases n - k,
    {
        marks.push(false);
        k = k + 1;
    }
    let mut i: usize = 0;
    while i < n
        invariant
            graph_wf(nodes@),
            n == nodes@.len(),
            i <= n,
            marks@.len() == n,
            forall|x: int| 0 <= x < n ==> #[trigger] marks@[x] == claimed_before(nodes@, i as int, x as usize),
        decreases n - i,
    {
        let ghost before = marks@;
        assert(node_ok(nodes@, i as int));
        match &nodes[i].kind {
            OpKind::While { body, cond, .. } => {
                mark_all(&mut marks, body);
                match cond {
                    Some((cn, _)) => {
                        mark_all(&mut marks, cn);
                    },
                    None => {},
                }
            },
            _ => {},
        }
        assert forall|x: int| 0 <= x < n implies #[trigger] marks@[x] == claimed_before(nodes@, i + 1, x as usize) by {
            if claims(nodes@[i as int].kind, x as usize) {
                assert(claimed_before(nodes@, i + 1, x as usize));
            }
            if claimed_before(nodes@, i + 1, x as usize) && !claims(nodes@[i as int].kind, x as usize) {
                let id = choose|id: int| 0 <= id < i + 1 && #[trigger] claims(nodes@[id].kind, x as usize);
                assert(id < i);
                assert(claimed_before(nodes@, i as int, x as usize));
            }
            if claimed_before(nodes@, i as int, x as usize) {
                let id = choose|id: int| 0 <= id < i && #[trigger] claims(nodes@[id].kind, x as usize);
                assert(claimed_before(nodes@, i + 1, x as usize));
            }
        }
        i = i + 1;
    }
    marks
}

/// Appends the parameters of `@main`.
fn push_params(out: &mut Vec<char>, nodes: &Vec<Node>, params: &Vec<usize>)
    requires
        ids_below(params@, nodes@.len() as int),
    ensures
        final(out)@ == old(out)@ + params_text(nodes@, params@),
{
    let ghost want = Seq::new(
        params@.len(),
        |k: int| percent(params@[k] as int) + seq![':', ' '] + node_type(nodes@, params@[k] as int),
    );
    let mut pieces: Vec<Vec<char>> = Vec::new();
    let mut k: usize = 0;
    while k < params.len()
        invariant
            ids_below(params@, nodes@.len() as int),
            want == Seq::new(
                params@.len(),
                |k: int| percent(params@[k] as int) + seq![':', ' '] + node_type(nodes@, params@[k] as int),
            ),
            k <= params@.len(),
            pieces@.map_values(|p: Vec<char>| p@) == want.take(k as int),
        decreases params.len() - k,
    {
        let w = params[k];
        assert(params@[k as int] < nodes@.len());
        let mut piece: Vec<char> = Vec::new();
        push_percent(&mut piece, w);
        piece.push(':');
        piece.push(' ');
        push_tensor_type(&mut piece, nodes[w].shape.as_slice(), nodes[w].dtype);
        assert(piece@ =~= want[k as int]);
        let ghost before = pieces@;
        pieces.push(piece);
        assert(want.take(k + 1) =~= want.take(k as int).push(want[k as int]));
        assert(pieces@.map_values(|p: Vec<char>| p@) =~= before.map_values(|p: Vec<char>| p@).push(piece@));
        k = k + 1;
    }
    assert(want.take(k as int) =~= want);
    let sep: [char; 2] = [',', ' '];
    assert(sep@ =~= seq![',', ' ']);
    push_pieces(out, &pieces, &sep);
}

/// Appends the names (or types) of the outputs.
fn push_outputs(out: &mut Vec<char>, nodes: &Vec<Node>, outs: &[Val], types: bool)
    requires
        graph_wf(nodes@),
        forall|k: int| 0 <= k < outs@.len() ==> #[trigger] outs@[k].id < nodes@.len(),
    ensures
        final(out)@ == old(out)@ + (if types { output_types(outs@) } else { output_names(nodes@, outs@) }),
{
    let ghost want = if types {
        Seq::new(outs@.len(), |k: int| tensor_type_spec(outs@[k].shape@, outs@[k].dtype))
    } else {
        Seq::new(outs@.len(), |k: int| val_name(nodes@, outs@[k].id as int))
    };
    let mut pieces: Vec<Vec<char>> = Vec::new();
    let mut k: usize = 0;
    while k < outs.len()
        invariant
            graph_wf(nodes@),
            forall|k: int| 0 <= k < outs@.len() ==> #[trigger] outs@[k].id < nodes@.len(),
            want == (if types {
                Seq::new(outs@.len(), |k: int| tensor_type_spec(outs@[k].shape@, outs@[k].dtype))
            } else {
                Seq::new(outs@.len(), |k: int| val_name(nodes@, outs@[k].id as int))
            }),
            k <= outs@.len(),
            pieces@.map_values(|p: Vec<char>| p@) == want.take(k as int),
        decreases outs.len() - k,
    {
        let mut piece: Vec<char> = Vec::new();
        if types {
            push_tensor_type(&mut piece, outs[k].shape.as_slice(), outs[k].dtype);
        } else {
            assert(outs@[k as int].id < nodes@.len());
            let v = value_name(nodes, outs[k].id);
            push_chars(&mut piece, v.as_slice());
        }
        assert(piece@ =~= want[k as int]);
        let ghost before = pieces@;
        pieces.push(piece);
        assert(want.take(k + 1) =~= want.take(k as int).push(want[k as int]));
        assert(pieces@.map_values(|p: Vec<char>| p@) =~= before.map_values(|p: Vec<char>| p@).push(piece@));
        k = k + 1;
    }
    assert(want.take(k as int) =~= want);
    let sep: [char; 2] = [',', ' '];
    assert(sep@ =~= seq![',', ' ']);
    push_pieces(out, &pieces, &sep);
}

/// The StableHLO module of a traced program: `@main` takes the parameter nodes, holds
/// every node that no while region holds, in id order, and returns the outputs.
pub fn build_module(nodes: &Vec<Node>, params: &Vec<usize>, outputs: &[Val]) -> (s: String)
    requires
        graph_wf(nodes@),
        ids_below(params@, nodes@.len() as int),
        forall|k: int| 0 <= k < outputs@.len() ==> #[trigger] outputs@[k].id < nodes@.len(),
        4 + 2 * nodes@.len() <= usize::MAX,
    ensures
        s@ == module_spec(nodes@, params@, outputs@),
{
    let n = nodes.len();
    let marks = claimed_nodes(nodes);
    let mut top: Vec<usize> = Vec::new();
    let mut k: usize = 0;
    while k < n
        invariant
            n == nodes@.len(),
            marks@.len() == n,
            forall|x: int| 0 <= x < n ==> #[trigger] marks@[x] == claimed_before(nodes@, n as int, x as usize),
            k <= n,
            top@ == top_ids(nodes@, k as int),
            ids_below(top@, k as int),
        decreases n - k,
    {
        if !marks[k] {
            top.push(k);
        }
        assert(top@ =~= top_ids(nodes@, k + 1));
        k = k + 1;
    }
    let mut out: Vec<char> = Vec::new();
    push_str_chars(&mut out, "module {\n");
    push_str_chars(&mut out, "  func.func @main(");
    push_params(&mut out, nodes, params);
    out.push(')');
    if outputs.len() > 0 {
        push_str_chars(&mut out, " -> (");
        push_outputs(&mut out, nodes, outputs, true);
        out.push(')');
    }
    push_str_chars(&mut out, " {\n");
    let ghost s0 = out@;
    write_region(&mut out, nodes, &top, 4, n);
    let ghost s1 = out@;
    if outputs.len() == 0 {
        push_str_chars(&mut out, "    return\n");
    } else {
        push_str_chars(&mut out, "    return ");
        push_outputs(&mut out, nodes, outputs, false);
        push_str_chars(&mut out, " : ");
        push_outputs(&mut out, nodes, outputs, true);
        out.push('\n');
    }
    push_str_chars(&mut out, "  }\n}\n");
    assert(out@ =~= module_spec(nodes@, params@, outputs@));
    string_from_chars(out.as_slice())
}

} // verus!
