use vector::graph::{BVal, Dtype, OpKind, Val};
use vector::trace::{TraceError, Tracer};

fn kind_name(k: &OpKind) -> String {
    match k {
        OpKind::Input => "input".to_string(),
        OpKind::Constant(t) => format!("constant {}", t),
        OpKind::Broadcast(d) => format!("broadcast {:?}", d),
        OpKind::Ewise(n) => format!("ewise {}", n),
        OpKind::Unary(n) => format!("unary {}", n),
        OpKind::Dot(a, b, c, d) => format!("dot {:?} {:?} {:?} {:?}", a, b, c, d),
        OpKind::Reduce(n, a) => format!("reduce {} {:?}", n, a),
        OpKind::Concat(d) => format!("concat {}", d),
        OpKind::Slice(d, a, b) => format!("slice {} {} {}", d, a, b),
        OpKind::Select => "select".to_string(),
        _ => "other".to_string(),
    }
}

fn kind_of(t: &Tracer, v: &Val) -> String {
    kind_name(&t.nodes[v.id].kind)
}

fn ones(t: &mut Tracer, shape: &[usize]) -> Val {
    let one = t.constant("1.0".to_string(), Dtype::F32);
    if shape.is_empty() {
        one
    } else {
        t.broadcast(&one, shape)
    }
}

#[test]
fn square_gradient_merges_both_contributions() {
    let mut t = Tracer::new(0);
    let x = t.live_input("x".to_string(), vec![3], Dtype::F32);
    let y = t.ewise("multiply", x.clone(), x.clone()).unwrap();
    let seed = ones(&mut t, &[3]);
    let grads = t.backward(&y, &[x.clone()], seed.clone()).unwrap();
    assert_eq!(grads.len(), 1);
    assert_eq!(grads[0].shape, vec![3]);
    assert_eq!(kind_of(&t, &grads[0]), "ewise add");
    let parts = t.nodes[grads[0].id].inputs.clone();
    assert_eq!(parts.len(), 2);
    assert_eq!(parts[0], parts[1]);
    assert_eq!(t.nodes[parts[0]].inputs, vec![seed.id, x.id]);
}

#[test]
fn gradient_of_a_value_by_itself_is_the_seed() {
    let mut t = Tracer::new(0);
    let x = t.live_input("x".to_string(), vec![2], Dtype::F32);
    let seed = ones(&mut t, &[2]);
    let n = t.nodes.len();
    let grads = t.backward(&x, &[x.clone()], seed.clone()).unwrap();
    assert_eq!(grads[0].id, seed.id);
    assert_eq!(t.nodes.len(), n);
}

#[test]
fn unreached_targets_get_zeros() {
    let mut t = Tracer::new(0);
    let z = t.live_input("z".to_string(), vec![2], Dtype::F32);
    let x = t.live_input("x".to_string(), vec![2], Dtype::F32);
    let y = t.unary("exponential", &x);
    let seed = ones(&mut t, &[2]);
    let grads = t.backward(&y, &[z.clone(), x.clone()], seed).unwrap();
    assert_eq!(kind_of(&t, &grads[0]), "broadcast []");
    assert_eq!(grads[0].shape, vec![2]);
    assert_eq!(kind_of(&t, &grads[1]), "ewise multiply");
    assert_eq!(t.nodes[grads[1].id].inputs[1], y.id);
}

#[test]
fn unary_and_elementwise_rules() {
    let mut t = Tracer::new(0);
    let x = t.live_input("x".to_string(), vec![2], Dtype::F32);
    let w = t.live_input("w".to_string(), vec![2], Dtype::F32);
    let g = ones(&mut t, &[2]);
    let s = t.unary("sqrt", &x);
    let c = t.vjp(s.id, &g).unwrap();
    assert_eq!(c.len(), 1);
    assert_eq!(c[0].0, x.id);
    assert_eq!(kind_of(&t, &c[0].1), "ewise divide");
    let q = t.ewise("divide", x.clone(), w.clone()).unwrap();
    let c = t.vjp(q.id, &g).unwrap();
    assert_eq!((c[0].0, c[1].0), (x.id, w.id));
    assert_eq!(kind_of(&t, &c[1].1), "unary negate");
    let m = t.ewise("maximum", x.clone(), w.clone()).unwrap();
    let c = t.vjp(m.id, &g).unwrap();
    assert_eq!(kind_of(&t, &c[0].1), "select");
    let d = t.ewise("subtract", x.clone(), w.clone()).unwrap();
    let c = t.vjp(d.id, &g).unwrap();
    assert_eq!(c[0].1.id, g.id);
    assert_eq!(kind_of(&t, &c[1].1), "unary negate");
    let p = t.ewise("power", x.clone(), w.clone()).unwrap();
    assert_eq!(t.vjp(p.id, &g).unwrap_err(), TraceError::NoGradient("power".to_string()));
    let tr = t.emit(OpKind::Transpose(vec![0]), vec![x.id], vec![2], Dtype::F32);
    assert_eq!(t.vjp(tr.id, &g).unwrap_err(), TraceError::NoGradientRule);
    let c = t.vjp(x.id, &g).unwrap();
    assert!(c.is_empty());
}

#[test]
fn matmul_broadcast_and_slice_rules() {
    let mut t = Tracer::new(0);
    let a = t.live_input("a".to_string(), vec![2, 3], Dtype::F32);
    let b = t.live_input("b".to_string(), vec![3, 4], Dtype::F32);
    let p = t.bmatmul(BVal { val: a.clone(), bdims: 0 }, BVal { val: b.clone(), bdims: 0 }).unwrap();
    let g = ones(&mut t, &[2, 4]);
    let c = t.vjp(p.val.id, &g).unwrap();
    assert_eq!(c[0].1.shape, vec![2, 3]);
    assert_eq!(c[1].1.shape, vec![3, 4]);
    assert_eq!(kind_of(&t, &c[0].1), "dot [] [] [1] [1]");
    assert_eq!(kind_of(&t, &c[1].1), "dot [] [] [0] [0]");

    let r = t.live_input("r".to_string(), vec![3], Dtype::F32);
    let br = t.broadcast(&r, &[2, 3]);
    let g = ones(&mut t, &[2, 3]);
    let c = t.vjp(br.id, &g).unwrap();
    assert_eq!(c[0].1.shape, vec![3]);
    assert_eq!(kind_of(&t, &c[0].1), "reduce add [0]");

    let x = t.live_input("x".to_string(), vec![3], Dtype::F32);
    let sl = t.emit(OpKind::Slice(0, 1, 2), vec![x.id], vec![1], Dtype::F32);
    let g = ones(&mut t, &[1]);
    let c = t.vjp(sl.id, &g).unwrap();
    assert_eq!(c[0].1.shape, vec![3]);
    assert_eq!(kind_of(&t, &c[0].1), "concat 0");
    assert_eq!(t.nodes[c[0].1.id].inputs.len(), 3);

    let y = t.live_input("y".to_string(), vec![2], Dtype::F32);
    let cat = t.emit(OpKind::Concat(0), vec![x.id, y.id], vec![5], Dtype::F32);
    let g = ones(&mut t, &[5]);
    let c = t.vjp(cat.id, &g).unwrap();
    assert_eq!(kind_of(&t, &c[0].1), "slice 0 0 3");
    assert_eq!(kind_of(&t, &c[1].1), "slice 0 3 5");
    assert_eq!(c[1].1.shape, vec![2]);
}
