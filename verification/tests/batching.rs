use vector::graph::{BVal, Dtype, OpKind, Val};
use vector::trace::{TraceError, Tracer};

fn kind_name(k: &OpKind) -> String {
    match k {
        OpKind::Input => "input".to_string(),
        OpKind::Constant(t) => format!("constant {}", t),
        OpKind::DenseConst(ts) => format!("dense {:?}", ts),
        OpKind::Convert => "convert".to_string(),
        OpKind::Broadcast(d) => format!("broadcast {:?}", d),
        OpKind::Ewise(n) => format!("ewise {}", n),
        OpKind::Reshape => "reshape".to_string(),
        OpKind::Compare(d) => format!("compare {}", d),
        OpKind::Dot(a, b, c, d) => format!("dot {:?} {:?} {:?} {:?}", a, b, c, d),
        OpKind::Reduce(n, a) => format!("reduce {} {:?}", n, a),
        OpKind::Concat(d) => format!("concat {}", d),
        _ => "other".to_string(),
    }
}

fn input(t: &mut Tracer, name: &str, shape: Vec<usize>, dtype: Dtype, bdims: usize) -> BVal {
    let val = t.live_input(name.to_string(), shape, dtype);
    BVal { val, bdims }
}

fn last_kind(t: &Tracer, v: &Val) -> String {
    kind_name(&t.nodes[v.id].kind)
}

#[test]
fn batched_elementwise_aligns_batch_and_element_dims() {
    let mut t = Tracer::new(0);
    let a = input(&mut t, "a", vec![5, 3], Dtype::F32, 1);
    let b = input(&mut t, "b", vec![3], Dtype::F32, 0);
    let (av, bv, prefix, per) = t.balign(a.clone(), b.clone()).unwrap();
    assert_eq!(av.id, a.val.id);
    assert_eq!(prefix, vec![5]);
    assert_eq!(per, vec![3]);
    assert_eq!(bv.shape, vec![5, 3]);
    assert_eq!(last_kind(&t, &bv), "broadcast [1]");
    let s = t.bewise("add", a.clone(), b.clone()).unwrap();
    assert_eq!(s.bdims, 1);
    assert_eq!(s.val.shape, vec![5, 3]);
    let c = t.bcompare("GT", a.clone(), b.clone()).unwrap();
    assert_eq!(c.val.dtype, Dtype::I1);
    assert_eq!(t.bewise("add", c.clone(), a.clone()).unwrap_err(), TraceError::BooleanArithmetic("add".to_string()));
    assert_eq!(t.bcompare("LT", a.clone(), c).unwrap_err(), TraceError::BooleanComparison);
    let u = t.bunary("negate", &a);
    assert_eq!(u.bdims, 1);
    let w = input(&mut t, "w", vec![5, 4], Dtype::F32, 1);
    assert_eq!(t.bewise("add", a, w).unwrap_err(), TraceError::ShapeMismatch(vec![3], vec![4]));
}

#[test]
fn matrix_products() {
    let mut t = Tracer::new(0);
    let a = input(&mut t, "a", vec![2, 3], Dtype::F32, 0);
    let b = input(&mut t, "b", vec![3, 4], Dtype::F32, 0);
    let p = t.bmatmul(a.clone(), b.clone()).unwrap();
    assert_eq!(p.val.shape, vec![2, 4]);
    assert_eq!(p.bdims, 0);
    assert_eq!(last_kind(&t, &p.val), "dot [] [] [1] [0]");

    let x = input(&mut t, "x", vec![7, 2, 3], Dtype::F32, 1);
    let q = t.bmatmul(x, b.clone()).unwrap();
    assert_eq!(q.val.shape, vec![7, 2, 4]);
    assert_eq!(q.bdims, 1);
    assert_eq!(last_kind(&t, &q.val), "dot [0] [0] [2] [1]");

    let m = input(&mut t, "m", vec![5, 2, 3], Dtype::F32, 0);
    let r = t.bmatmul(m.clone(), b.clone()).unwrap();
    assert_eq!(r.val.shape, vec![5, 2, 4]);
    assert_eq!(r.bdims, 0);
    assert_eq!(last_kind(&t, &r.val), "dot [0] [0] [2] [1]");

    let v = input(&mut t, "v", vec![3], Dtype::F32, 0);
    let mv = t.bmatmul(a.clone(), v.clone()).unwrap();
    assert_eq!(mv.val.shape, vec![2]);

    let bad = input(&mut t, "bad", vec![2, 4], Dtype::F32, 0);
    assert_eq!(t.bmatmul(a.clone(), bad).unwrap_err(), TraceError::MatmulContraction(vec![2, 3], vec![2, 4]));
    let s = input(&mut t, "s", vec![], Dtype::F32, 0);
    assert_eq!(t.bmatmul(a.clone(), s).unwrap_err(), TraceError::MatmulRank(vec![2, 3], vec![]));
    let i = input(&mut t, "i", vec![3, 4], Dtype::I64, 0);
    assert_eq!(t.bmatmul(a.clone(), i).unwrap_err(), TraceError::MatmulDtype(Dtype::F32, Dtype::I64));
    assert_eq!(t.bmatmul(m.clone(), v).unwrap_err(), TraceError::MatmulNotMatrices(vec![5, 2, 3], vec![3]));
    let other = input(&mut t, "o", vec![6, 3, 4], Dtype::F32, 0);
    assert_eq!(t.bmatmul(m, other).unwrap_err(), TraceError::MatmulBatchMismatch(vec![5, 2, 3], vec![6, 3, 4]));
}

#[test]
fn array_literals_stack() {
    let mut t = Tracer::new(0);
    let one = t.constant("1.0".to_string(), Dtype::F32);
    let two = t.constant("2.0".to_string(), Dtype::F32);
    let c = t.stack(vec![BVal { val: one, bdims: 0 }, BVal { val: two, bdims: 0 }]).unwrap();
    assert_eq!(c.val.shape, vec![2]);
    assert_eq!(last_kind(&t, &c.val), "dense [\"1.0\", \"2.0\"]");
    let nested = t.stack(vec![c.clone(), c.clone()]).unwrap();
    assert_eq!(nested.val.shape, vec![2, 2]);
    assert_eq!(last_kind(&t, &nested.val), "dense [\"1.0\", \"2.0\", \"1.0\", \"2.0\"]");

    let x = input(&mut t, "x", vec![3], Dtype::F32, 0);
    let y = input(&mut t, "y", vec![4, 3], Dtype::F32, 1);
    let s = t.stack(vec![x.clone(), y.clone()]).unwrap();
    assert_eq!(s.val.shape, vec![4, 2, 3]);
    assert_eq!(s.bdims, 1);
    assert_eq!(last_kind(&t, &s.val), "concat 1");
    let single = t.stack(vec![x.clone()]).unwrap();
    assert_eq!(single.val.shape, vec![1, 3]);
    assert_eq!(last_kind(&t, &single.val), "reshape");

    let z = input(&mut t, "z", vec![4], Dtype::F32, 0);
    assert_eq!(t.stack(vec![x.clone(), z]).unwrap_err(), TraceError::StackShapes(vec![3], vec![4]));
    let n = input(&mut t, "n", vec![3], Dtype::I64, 0);
    assert_eq!(t.stack(vec![x, n]).unwrap_err(), TraceError::StackDtypes(Dtype::F32, Dtype::I64));
}

#[test]
fn reductions_and_dots() {
    let mut t = Tracer::new(0);
    let v = t.live_input("v".to_string(), vec![2, 3], Dtype::F32);
    let s = t.reduce_sum(&v, &[1]);
    assert_eq!(s.shape, vec![2]);
    assert_eq!(last_kind(&t, &s), "reduce add [1]");
    assert_eq!(kind_name(&t.nodes[t.nodes[s.id].inputs[1]].kind), "constant 0.0");
    let same = t.reduce_sum(&v, &[]);
    assert_eq!(same.id, v.id);
    let m = t.reduce("maximum", "-inf".to_string(), &v, &[0, 1]);
    assert_eq!(m.shape, Vec::<usize>::new());
    let d = t.dot(&v, &v, vec![0], vec![0], vec![1], vec![1]);
    assert_eq!(d.shape, vec![2]);
    let a = BVal { val: v.clone(), bdims: 1 };
    let b = BVal { val: t.live_input("w".to_string(), vec![3, 2, 3], Dtype::F32), bdims: 2 };
    assert_eq!(Tracer::batch_prefix(&a, &b), vec![3, 2]);
    assert_eq!(Tracer::batch_prefix(&a, &a), vec![2]);
}
