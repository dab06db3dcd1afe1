use vector::emit::build_module;
use vector::graph::{Dtype, OpKind, Val};
use vector::trace::{TraceError, Tracer};

fn kind_name(k: &OpKind) -> String {
    match k {
        OpKind::Input => "input".to_string(),
        OpKind::Constant(t) => format!("constant {}", t),
        OpKind::Convert => "convert".to_string(),
        OpKind::Broadcast(d) => format!("broadcast {:?}", d),
        OpKind::Ewise(n) => format!("ewise {}", n),
        OpKind::Unary(n) => format!("unary {}", n),
        OpKind::Reshape => "reshape".to_string(),
        OpKind::Compare(d) => format!("compare {}", d),
        OpKind::Select => "select".to_string(),
        _ => "other".to_string(),
    }
}

fn kinds(t: &Tracer) -> Vec<String> {
    t.nodes.iter().map(|n| kind_name(&n.kind)).collect()
}

#[test]
fn constants_are_interned_inputs_are_not() {
    let mut t = Tracer::new(7);
    let a = t.constant("1.0".to_string(), Dtype::F32);
    let b = t.constant("1.0".to_string(), Dtype::F32);
    assert_eq!(a.id, b.id);
    let c = t.constant("1.0".to_string(), Dtype::I64);
    assert_ne!(a.id, c.id);
    assert_eq!(t.nodes.len(), 2);
    let x = t.live_input("x".to_string(), vec![2], Dtype::F32);
    let y = t.live_input("x".to_string(), vec![2], Dtype::F32);
    assert_ne!(x.id, y.id);
    assert_eq!(t.inputs.len(), 2);
    assert_eq!(t.inputs[1].1, y.id);
    assert_eq!(t.nodes.len(), 4);
    let n1 = t.unary("exp", &x);
    let n2 = t.unary("exp", &x);
    assert_eq!(n1.id, n2.id);
    assert_eq!(t.rng, 7);
}

#[test]
fn traced_graph_emits() {
    let mut t = Tracer::new(0);
    let x = t.live_input("x".to_string(), vec![2], Dtype::F32);
    let one = t.constant("1.0".to_string(), Dtype::F32);
    let out = t.ewise("add", x, one).unwrap();
    assert_eq!(kinds(&t), vec!["input", "constant 1.0", "broadcast []", "ewise add"]);
    assert_eq!(t.nodes[3].inputs, vec![0, 2]);
    assert_eq!(out.shape, vec![2]);
    let m = build_module(&t.nodes, &vec![0], &[out]);
    assert_eq!(
        m,
        "module {\n  func.func @main(%0: tensor<2xf32>) -> (tensor<2xf32>) {\n    %1 = stablehlo.constant dense<1.0> : tensor<f32>\n    %2 = stablehlo.broadcast_in_dim %1, dims = [] : (tensor<f32>) -> tensor<2xf32>\n    %3 = stablehlo.add %0, %2 : tensor<2xf32>\n    return %3 : tensor<2xf32>\n  }\n}\n"
    );
}

#[test]
fn ewise_aligns_types_and_shapes() {
    let mut t = Tracer::new(0);
    let m = t.live_input("m".to_string(), vec![4, 3], Dtype::F32);
    let row = t.live_input("r".to_string(), vec![3], Dtype::F32);
    let s = t.ewise("multiply", row.clone(), m.clone()).unwrap();
    assert_eq!(s.shape, vec![4, 3]);
    assert_eq!(kinds(&t)[2], "broadcast [1]");
    assert_eq!(t.nodes[3].inputs, vec![2, 0]);

    let k = t.constant("2".to_string(), Dtype::I64);
    let before = t.nodes.len();
    let p = t.ewise("add", m.clone(), k.clone()).unwrap();
    assert_eq!(p.dtype, Dtype::F32);
    assert_eq!(p.shape, vec![4, 3]);
    assert_eq!(kinds(&t)[before..].to_vec(), vec!["convert", "broadcast []", "ewise add"]);

    let q = t.ewise("add", k, m.clone()).unwrap();
    assert_eq!(q.dtype, Dtype::F32);
    let before = t.nodes.len();
    let same = t.ewise("add", m.clone(), m.clone()).unwrap();
    assert_eq!(kinds(&t)[before..].to_vec(), vec!["ewise add"]);
    assert_eq!(same.shape, vec![4, 3]);
}

#[test]
fn ewise_errors_trace_nothing() {
    let mut t = Tracer::new(0);
    let a = t.live_input("a".to_string(), vec![2, 3], Dtype::F32);
    let b = t.live_input("b".to_string(), vec![2], Dtype::F32);
    let c = t.live_input("c".to_string(), vec![3], Dtype::I64);
    let n = t.nodes.len();
    assert_eq!(t.ewise("add", a.clone(), b.clone()).unwrap_err(), TraceError::ShapeMismatch(vec![2, 3], vec![2]));
    assert_eq!(t.ewise("add", a.clone(), c.clone()).unwrap_err(), TraceError::DtypeMismatch(Dtype::F32, Dtype::I64));
    assert_eq!(t.nodes.len(), n);
}

#[test]
fn zeros_and_other_ops() {
    let mut t = Tracer::new(0);
    let z = t.zeros(&[2], Dtype::I64);
    assert_eq!(kinds(&t), vec!["constant 0", "broadcast []"]);
    assert_eq!(z.shape, vec![2]);
    let s = t.zeros(&[], Dtype::F32);
    assert_eq!(kind_name(&t.nodes[s.id].kind), "constant 0.0");
    let x = t.live_input("x".to_string(), vec![2], Dtype::F32);
    let zl = t.zeros_like(&x);
    assert_eq!(zl.shape, vec![2]);
    assert_eq!(zl.dtype, Dtype::F32);
    let c = t.compare("LT", &x, &zl);
    assert_eq!(c.dtype, Dtype::I1);
    let sel = t.select(&c, &x, &zl);
    assert_eq!(t.nodes[sel.id].inputs, vec![c.id, x.id, zl.id]);
    let r = t.reshape(&sel, vec![1, 2]);
    assert_eq!(r.shape, vec![1, 2]);
    let same = t.convert(&r, Dtype::F32);
    assert_eq!(same.id, r.id);
    let conv = t.convert(&r, Dtype::I32);
    assert_eq!(conv.dtype, Dtype::I32);
    assert_eq!(conv.shape, vec![1, 2]);
    let v: Val = t.val(conv.id);
    assert_eq!(v.shape, vec![1, 2]);
    let b = t.broadcast(&x, &[3, 2]);
    assert_eq!(kind_name(&t.nodes[b.id].kind), "broadcast [1]");
}
