use vstd::prelude::*;

use crate::batch::vals_view;
use crate::emit::{build_module, graph_wf, ids_below, inputs_before, module_spec, node_ok};
use crate::graph::{BVal, BValV, Node, NodeV, OpKind, Val, ValV};
use crate::lexer::{lex, lex_from, LexError, TokV};
use crate::parser::{p_program, ParseError, Parser, SrcV};
use crate::runtime::{fits_at, inner_at, prod_from};
use crate::trace::{nodes_view, GraphV, TraceError, TraceErrorV, Tracer};
use crate::tracing::{bval_copy, lemma_tfields_index, tfields_view, trace_spec, tval_view, TVal, TValV};

verus! {

/// How deep calls of a program's functions may nest while it is compiled.
pub const CALL_DEPTH: usize = 256;

/// The state of the generator a compiled program starts from.
pub const SEED: u64 = 0x243F6A8885A308D3;

/// Why a program does not compile.
#[derive(Debug)]
pub enum CompileError<P = ParseError, T = TraceError> {
    Lex(LexError),
    Parse(P),
    Trace(T),
    /// A traced graph the emitter cannot write: a dense constant of rank above two, or
    /// a graph or output the emitter's bounds do not admit.
    Unemittable,
}

pub type CompileErrorV = CompileError<ParseError<Seq<char>>, TraceErrorV>;

impl View for CompileError {
    type V = CompileErrorV;

    open spec fn view(&self) -> CompileErrorV {
        match self {
            CompileError::Lex(e) => CompileError::Lex(*e),
            CompileError::Parse(e) => CompileError::Parse(e@),
            CompileError::Trace(e) => CompileError::Trace(e@),
            CompileError::Unemittable => CompileError::Unemittable,
        }
    }
}

/// A compiled program: its traced graph, the values it outputs, and its StableHLO text.
pub struct Compiled {
    pub nodes: Vec<Node>,
    pub outputs: Vec<Val>,
    pub module: String,
}

/// The source the parser reads, from the lexer's tokens with their lines and columns.
pub open spec fn lexed_src(l: Seq<(TokV, nat, nat)>) -> SrcV {
    SrcV {
        toks: Seq::new(l.len(), |k: int| l[k].0),
        cols: Seq::new(l.len(), |k: int| l[k].2 as usize),
        lines: Seq::new(l.len(), |k: int| l[k].1 as usize),
    }
}

/// The graph of a fresh tracer.
pub open spec fn empty_graph() -> GraphV {
    GraphV { nodes: seq![], frames: seq![Seq::<usize>::empty()] }
}

/// The tensors of a value, in order: the value itself, or the tensors of each field.
pub open spec fn leaves(v: TValV) -> Seq<BValV>
    decreases v, 0int,
{
    match v {
        TValV::Tensor(b) => seq![b],
        TValV::Record(fs) => leaves_fields(fs, 0),
    }
}

pub open spec fn leaves_fields(fs: Seq<(Seq<char>, TValV)>, i: int) -> Seq<BValV>
    decreases fs, fs.len() - i,
{
    if i < 0 || i >= fs.len() {
        seq![]
    } else {
        leaves(fs[i].1) + leaves_fields(fs, i + 1)
    }
}

/// The values of batched values.
pub open spec fn out_vals(s: Seq<BValV>) -> Seq<ValV> {
    Seq::new(s.len(), |k: int| s[k].val)
}

/// Lexing, parsing and tracing a program's text: the graph and the output tensors, or
/// why not.
pub open spec fn compile_spec(src: Seq<char>) -> Result<(GraphV, Seq<BValV>), CompileErrorV> {
    match lex_from(src, 0, 1, 1) {
        Err(e) => Err(CompileError::Lex(e)),
        Ok(l) => match p_program(lexed_src(l), 0, seq![], seq![]) {
            Err(e) => Err(CompileError::Parse(e)),
            Ok(pv) => match trace_spec(empty_graph(), pv.main, seq![], pv.fns, CALL_DEPTH as nat) {
                Err(e) => Err(CompileError::Trace(e)),
                Ok((g, v)) => Ok((g, leaves(v))),
            },
        },
    }
}

/// Whether `n` literals lay out a dense constant of `shape`: a rank of at most two, with
/// at least as many literals as elements.
pub open spec fn dense_ready(shape: Seq<usize>, n: nat) -> bool {
    if shape.len() == 0 {
        n >= 1
    } else if shape.len() == 1 {
        shape[0] <= n
    } else if shape.len() == 2 {
        &&& shape[0] * shape[1] <= usize::MAX
        &&& shape[0] * (if shape[1] == 0 { 1 } else { shape[1] as int }) <= n
    } else {
        false
    }
}

/// What the emitter needs of node `id`, on the node views.
pub open spec fn node_ready(ns: Seq<NodeV>, id: int) -> bool {
    let n = ns[id];
    let ins = n.inputs;
    match n.kind {
        OpKind::Barrier => ins.len() >= 1,
        OpKind::Proj(_) => ins.len() >= 1 && (ns[ins[0] as int].kind is While || ns[ins[0] as int].kind is Sort),
        OpKind::Gather(_) => ins.len() >= 2 && ns[ins[0] as int].shape.len() >= 1,
        OpKind::Ewise(_) => ins.len() >= 2,
        OpKind::Reduce(_, _) => ins.len() >= 2,
        OpKind::Dot(_, _, _, _) => ins.len() >= 2,
        OpKind::Compare(_) => ins.len() >= 2,
        OpKind::Unary(_) => ins.len() >= 1,
        OpKind::Convert => ins.len() >= 1,
        OpKind::Broadcast(_) => ins.len() >= 1,
        OpKind::Reshape => ins.len() >= 1,
        OpKind::Transpose(_) => ins.len() >= 1,
        OpKind::Slice(_, _, _) => ins.len() >= 1,
        OpKind::Select => ins.len() >= 3,
        OpKind::DenseConst(vals) => dense_ready(n.shape, vals.len()),
        OpKind::Sort { num, .. } => ins.len() >= num && ins.len() >= 1 && 2 * num <= usize::MAX,
        OpKind::While { iter_args, results, body, limit, cond } => {
            &&& iter_args.len() >= 1
            &&& ids_below(iter_args, id)
            &&& ids_below(results, id)
            &&& ids_below(body, id)
            &&& limit < id
            &&& (cond matches Some((cn, cv)) ==> ids_below(cn, id) && cv < id)
        },
        _ => true,
    }
}

/// Whether the emitter can write a graph: operands before their nodes, and each node
/// ready.
pub open spec fn emit_ready(ns: Seq<NodeV>) -> bool {
    &&& forall|id: int, k: int| 0 <= id < ns.len() && 0 <= k < ns[id].inputs.len() ==> #[trigger] ns[id].inputs[k] < id
    &&& forall|id: int| 0 <= id < ns.len() ==> #[trigger] node_ready(ns, id)
}

proof fn lemma_dense_fits(shape: Seq<usize>, n: nat)
    requires
        dense_ready(shape, n),
    ensures
        fits_at(shape, 0, n),
        forall|d: int| 0 <= d <= shape.len() ==> #[trigger] prod_from(shape, d) <= usize::MAX,
{
    reveal_with_fuel(prod_from, 3);
    reveal_with_fuel(fits_at, 3);
    if shape.len() == 2 {
        assert(prod_from(shape, 2) == 1);
        assert(prod_from(shape, 1) == shape[1] as nat * prod_from(shape, 2));
        assert(prod_from(shape, 1) == shape[1]);
        assert(prod_from(shape, 0) == shape[0] * shape[1]);
        assert(inner_at(shape, 1) == 1);
        assert(inner_at(shape, 0) == (if shape[1] == 0 { 1 } else { shape[1] as nat }));
        assert(fits_at(shape, 2, 1));
        assert(fits_at(shape, 1, inner_at(shape, 0)));
    } else if shape.len() == 1 {
        assert(prod_from(shape, 1) == 1);
        assert(inner_at(shape, 0) == 1);
        assert(fits_at(shape, 1, 1));
    }
}

/// A graph the emitter can write, on the node views, is one it can write.
pub proof fn lemma_ready_wf(nodes: Seq<Node>)
    requires
        emit_ready(nodes_view(nodes)),
    ensures
        graph_wf(nodes),
{
    let ns = nodes_view(nodes);
    assert forall|id: int, k: int| 0 <= id < nodes.len() && 0 <= k < nodes[id].inputs@.len() implies #[trigger] nodes[id].inputs@[k]
        < id by {
        assert(ns[id] == nodes[id]@);
        assert(ns[id].inputs[k] < id);
    }
    assert(inputs_before(nodes));
    assert forall|id: int| 0 <= id < nodes.len() implies #[trigger] node_ok(nodes, id) by {
        assert(ns[id] == nodes[id]@);
        assert(node_ready(ns, id));
        let ins = nodes[id].inputs@;
        if ins.len() >= 1 {
            assert(ins[0] < id);
            assert(ns[ins[0] as int] == nodes[ins[0] as int]@);
        }
        match nodes[id].kind {
            OpKind::DenseConst(vals) => {
                lemma_dense_fits(nodes[id].shape@, vals@.len());
            },
            _ => {},
        }
    }
}

/// Whether every id of a list is below `bound`.
fn all_below(ids: &Vec<usize>, bound: usize) -> (r: bool)
    ensures
        r == ids_below(ids@, bound as int),
{
    let mut k: usize = 0;
    while k < ids.len()
        invariant
            k <= ids@.len(),
            forall|m: int| 0 <= m < k ==> #[trigger] ids@[m] < bound,
        decreases ids.len() - k,
    {
        if ids[k] >= bound {
            return false;
        }
        k = k + 1;
    }
    true
}

fn dense_ready_check(shape: &Vec<usize>, n: usize) -> (r: bool)
    ensures
        r == dense_ready(shape@, n as nat),
{
    if shape.len() == 0 {
        n >= 1
    } else if shape.len() == 1 {
        shape[0] <= n
    } else if shape.len() == 2 {
        let a = shape[0];
        let b = shape[1];
        let p = a.checked_mul(b);
        let inner = if b == 0 { 1 } else { b };
        let q = a.checked_mul(inner);
        match (p, q) {
            (Some(_), Some(q)) => q <= n,
            (None, _) => false,
            (Some(_), None) => false,
        }
    } else {
        false
    }
}

/// Whether node `id` is ready, its operands already known to come before it.
fn node_ready_check(nodes: &Vec<Node>, id: usize) -> (r: bool)
    requires
        id < nodes@.len(),
        forall|k: int| 0 <= k < nodes@[id as int].inputs@.len() ==> #[trigger] nodes@[id as int].inputs@[k] < id,
    ensures
        r == node_ready(nodes_view(nodes@), id as int),
{
    let ghost ns = nodes_view(nodes@);
    let node = &nodes[id];
    let ins = &node.inputs;
    assert(ns[id as int] == node@);
    if ins.len() >= 1 {
        assert(ns[ins@[0] as int] == nodes@[ins@[0] as int]@);
    }
    match &node.kind {
        OpKind::Barrier => ins.len() >= 1,
        OpKind::Proj(_) => {
            if ins.len() < 1 {
                return false;
            }
            match &nodes[ins[0]].kind {
                OpKind::While { .. } => true,
                OpKind::Sort { .. } => true,
                _ => false,
            }
        },
        OpKind::Gather(_) => ins.len() >= 2 && nodes[ins[0]].shape.len() >= 1,
        OpKind::Ewise(_) => ins.len() >= 2,
        OpKind::Reduce(_, _) => ins.len() >= 2,
        OpKind::Dot(_, _, _, _) => ins.len() >= 2,
        OpKind::Compare(_) => ins.len() >= 2,
        OpKind::Unary(_) => ins.len() >= 1,
        OpKind::Convert => ins.len() >= 1,
        OpKind::Broadcast(_) => ins.len() >= 1,
        OpKind::Reshape => ins.len() >= 1,
        OpKind::Transpose(_) => ins.len() >= 1,
        OpKind::Slice(_, _, _) => ins.len() >= 1,
        OpKind::Select => ins.len() >= 3,
        OpKind::DenseConst(vals) => dense_ready_check(&node.shape, vals.len()),
        OpKind::Sort { num, .. } => ins.len() >= *num && ins.len() >= 1 && *num <= usize::MAX / 2,
        OpKind::While { iter_args, results, body, limit, cond } => {
            let c = match cond {
                Some((cn, cv)) => all_below(cn, id) && *cv < id,
                None => true,
            };
            iter_args.len() >= 1 && all_below(iter_args, id) && all_below(results, id) && all_below(body, id) && *limit
                < id && c
        },
        _ => true,
    }
}

/// Whether the emitter can write a graph.
pub fn emit_ready_check(nodes: &Vec<Node>) -> (r: bool)
    ensures
        r == emit_ready(nodes_view(nodes@)),
{
    let ghost ns = nodes_view(nodes@);
    let mut id: usize = 0;
    while id < nodes.len()
        invariant
            ns == nodes_view(nodes@),
            id <= nodes@.len(),
            forall|j: int, k: int| 0 <= j < id && 0 <= k < ns[j].inputs.len() ==> #[trigger] ns[j].inputs[k] < j,
            forall|j: int| 0 <= j < id ==> #[trigger] node_ready(ns, j),
        decreases nodes.len() - id,
    {
        let ins = &nodes[id].inputs;
        assert(ns[id as int] == nodes@[id as int]@);
        let mut k: usize = 0;
        while k < ins.len()
            invariant
                ns == nodes_view(nodes@),
                id < nodes@.len(),
                ns.len() == nodes@.len(),
                ns[id as int].inputs == ins@,
                k <= ins@.len(),
                forall|m: int| 0 <= m < k ==> #[trigger] ins@[m] < id,
            decreases ins.len() - k,
        {
            if ins[k] >= id {
                assert(ns[id as int].inputs[k as int] >= id);
                return false;
            }
            k = k + 1;
        }
        if !node_ready_check(nodes, id) {
            return false;
        }
        id = id + 1;
    }
    true
}

/// The tensors of a value, in order.
pub fn leaves_of(v: &TVal) -> (r: Vec<BVal>)
    ensures
        crate::batch::bvals_view(r@) == leaves(tval_view(*v)),
    decreases v, 0int,
{
    match v {
        TVal::Tensor(b) => {
            let mut out: Vec<BVal> = Vec::new();
            out.push(bval_copy(b));
            assert(crate::batch::bvals_view(out@) =~= seq![b@]);
            out
        },
        TVal::Record(fs) => {
            proof {
                assert(decreases_to!(*v => (*v)->Record_0));
            }
            leaves_fields_of(fs, 0)
        },
    }
}


fn leaves_fields_of(fs: &Vec<(String, TVal)>, i: usize) -> (r: Vec<BVal>)
    requires
        i <= fs@.len(),
    ensures
        crate::batch::bvals_view(r@) == leaves_fields(tfields_view(fs@), i as int),
    decreases fs, fs@.len() - i,
{
    proof {
        lemma_tfields_index(fs@);
    }
    if i >= fs.len() {
        let out: Vec<BVal> = Vec::new();
        assert(crate::batch::bvals_view(out@) =~= seq![]);
        return out;
    }
    proof {
        assert(decreases_to!(*fs => fs@));
        assert(decreases_to!(fs@ => fs@[i as int]));
        assert(decreases_to!(fs@[i as int] => fs@[i as int].1));
    }
    let mut first = leaves_of(&fs[i].1);
    let rest = leaves_fields_of(fs, i + 1);
    let ghost a = first@;
    let mut k: usize = 0;
    while k < rest.len()
        invariant
            k <= rest@.len(),
            crate::batch::bvals_view(first@) == crate::batch::bvals_view(a) + crate::batch::bvals_view(rest@.take(k as int)),
        decreases rest.len() - k,
    {
        let ghost before = first@;
        first.push(bval_copy(&rest[k]));
        assert(crate::batch::bvals_view(first@) =~= crate::batch::bvals_view(before).push(rest@[k as int]@));
        assert(crate::batch::bvals_view(rest@.take(k + 1)) =~= crate::batch::bvals_view(rest@.take(k as int)).push(rest@[k as int]@));
        k = k + 1;
    }
    assert(rest@.take(k as int) =~= rest@);
    first
}

/// The values of batched values.
fn vals_of(bs: &Vec<BVal>) -> (r: Vec<Val>)
    ensures
        vals_view(r@) == out_vals(crate::batch::bvals_view(bs@)),
{
    let mut out: Vec<Val> = Vec::new();
    let mut k: usize = 0;
    while k < bs.len()
        invariant
            k <= bs@.len(),
            out@.len() == k,
            forall|m: int| 0 <= m < k ==> (#[trigger] out@[m])@ == bs@[m].val@,
        decreases bs.len() - k,
    {
        out.push(bval_copy(&bs[k]).val);
        k = k + 1;
    }
    assert(vals_view(out@) =~= out_vals(crate::batch::bvals_view(bs@)));
    out
}

/// Whether the emitter can write a graph and outputs of these ids.
pub open spec fn emittable(g: GraphV, outs: Seq<BValV>) -> bool {
    &&& emit_ready(g.nodes)
    &&& forall|k: int| 0 <= k < outs.len() ==> #[trigger] outs[k].val.id < g.nodes.len()
    &&& 4 + 2 * g.nodes.len() <= usize::MAX
}

/// Compiles a program's text: lexes, parses and traces it, and writes the StableHLO text
/// of its graph, whose outputs are the tensors of the program's value.
#[verifier::rlimit(60)]
pub fn compile_program(src: &str) -> (r: Result<Compiled, CompileError>)
    requires
        src@.len() < usize::MAX,
    ensures
        match compile_spec(src@) {
            Err(e) => r matches Err(x) && x@ == e,
            Ok((g, outs)) => if emittable(g, outs) {
                r matches Ok(c) && nodes_view(c.nodes@) == g.nodes && vals_view(c.outputs@) == out_vals(outs) && c.module@
                    == module_spec(c.nodes@, seq![], c.outputs@)
            } else {
                r matches Err(x) && x@ == CompileError::<ParseError<Seq<char>>, TraceErrorV>::Unemittable
            },
        },
{
    let lx = match lex(src) {
        Err(e) => {
            return Err(CompileError::Lex(e));
        },
        Ok(lx) => lx,
    };
    let ghost l = crate::lexer::lexed_view(lx);
    let mut p = Parser { toks: lx.toks, cols: lx.cols, lines: lx.lines, pos: 0 };
    proof {
        assert(p.src().toks =~= lexed_src(l).toks);
        assert(p.src().cols =~= lexed_src(l).cols);
        assert(p.src().lines =~= lexed_src(l).lines);
        assert(p.src() == lexed_src(l));
    }
    let prog = match p.program() {
        Err(e) => {
            return Err(CompileError::Parse(e));
        },
        Ok(prog) => prog,
    };
    let mut t = Tracer::new(SEED);
    assert(t.graph().nodes =~= empty_graph().nodes);
    assert(t.graph() == empty_graph());
    let env: Vec<(String, TVal)> = Vec::new();
    assert(tfields_view(env@) =~= seq![]);
    let v = match t.trace(&prog.main, &env, &prog, CALL_DEPTH) {
        Err(e) => {
            return Err(CompileError::Trace(e));
        },
        Ok(v) => v,
    };
    let bs = leaves_of(&v);
    let outs = vals_of(&bs);
    let ghost ov = crate::batch::bvals_view(bs@);
    let mut ok = emit_ready_check(&t.nodes) && t.nodes.len() <= (usize::MAX - 4) / 2;
    assert(vals_view(outs@).len() == outs@.len());
    assert(out_vals(ov).len() == ov.len());
    let mut k: usize = 0;
    while k < outs.len()
        invariant
            k <= outs@.len(),
            vals_view(outs@) == out_vals(ov),
            ok ==> forall|m: int| 0 <= m < k ==> #[trigger] ov[m].val.id < t.nodes@.len(),
            ok ==> emit_ready(nodes_view(t.nodes@)) && 4 + 2 * t.nodes@.len() <= usize::MAX,
            !ok ==> !(emit_ready(nodes_view(t.nodes@)) && 4 + 2 * t.nodes@.len() <= usize::MAX && forall|m: int|
                0 <= m < ov.len() ==> #[trigger] ov[m].val.id < t.nodes@.len()),
            ov.len() == outs@.len(),
        decreases outs.len() - k,
    {
        assert(out_vals(ov)[k as int] == ov[k as int].val);
        assert(vals_view(outs@)[k as int] == outs@[k as int]@);
        if outs[k].id >= t.nodes.len() {
            assert(ov[k as int].val.id >= t.nodes@.len());
            ok = false;
        }
        k = k + 1;
    }
    if !ok {
        return Err(CompileError::Unemittable);
    }
    proof {
        lemma_ready_wf(t.nodes@);
        assert forall|m: int| 0 <= m < outs@.len() implies #[trigger] outs@[m].id < t.nodes@.len() by {
            assert(vals_view(outs@)[m] == out_vals(ov)[m]);
            assert(out_vals(ov)[m] == ov[m].val);
            assert(vals_view(outs@)[m] == outs@[m]@);
            assert(m < k);
            assert(ov[m].val.id < t.nodes@.len());
        }
    }
    let params: Vec<usize> = Vec::new();
    assert(params@ =~= seq![]);
    let module = build_module(&t.nodes, &params, outs.as_slice());
    Ok(Compiled { nodes: t.nodes, outputs: outs, module })
}

} // verus!
