use vector::emit::{build_module, node_text};
use vector::graph::{BVal, Dtype, Node, OpKind, Val};
use vector::runtime::format_typed;
use vector::safetensors::{check_leaf, field_component, field_path, SaveError};

fn node(kind: OpKind, inputs: Vec<usize>, shape: Vec<usize>, dtype: Dtype) -> Node {
    Node { kind, inputs, shape, dtype }
}

fn text(nodes: &Vec<Node>, id: usize) -> String {
    node_text(nodes, id).into_iter().collect()
}

#[test]
fn straight_line_module() {
    let nodes = vec![
        node(OpKind::Input, vec![], vec![2], Dtype::F32),
        node(OpKind::Constant("1.0".to_string()), vec![], vec![], Dtype::F32),
        node(OpKind::Broadcast(vec![]), vec![1], vec![2], Dtype::F32),
        node(OpKind::Ewise("add".to_string()), vec![0, 2], vec![2], Dtype::F32),
    ];
    let out = Val { id: 3, shape: vec![2], dtype: Dtype::F32 };
    let m = build_module(&nodes, &vec![0], &[out]);
    assert_eq!(
        m,
        "module {\n  func.func @main(%0: tensor<2xf32>) -> (tensor<2xf32>) {\n    %1 = stablehlo.constant dense<1.0> : tensor<f32>\n    %2 = stablehlo.broadcast_in_dim %1, dims = [] : (tensor<f32>) -> tensor<2xf32>\n    %3 = stablehlo.add %0, %2 : tensor<2xf32>\n    return %3 : tensor<2xf32>\n  }\n}\n"
    );
}

#[test]
fn counting_loop_module() {
    let i64s = |kind: OpKind, inputs: Vec<usize>| node(kind, inputs, vec![], Dtype::I64);
    let nodes = vec![
        i64s(OpKind::Constant("0".to_string()), vec![]),
        i64s(OpKind::Constant("10".to_string()), vec![]),
        i64s(OpKind::IterArg, vec![]),
        i64s(OpKind::Constant("1".to_string()), vec![]),
        i64s(OpKind::Ewise("add".to_string()), vec![2, 3]),
        i64s(OpKind::While { iter_args: vec![2], results: vec![4], body: vec![3, 4], limit: 1, cond: None }, vec![0]),
        i64s(OpKind::Proj(0), vec![5]),
    ];
    let out = Val { id: 6, shape: vec![], dtype: Dtype::I64 };
    let m = build_module(&nodes, &vec![], &[out]);
    assert_eq!(
        m,
        "module {\n  func.func @main() -> (tensor<i64>) {\n    %0 = stablehlo.constant dense<0> : tensor<i64>\n    %1 = stablehlo.constant dense<10> : tensor<i64>\n    %5 = stablehlo.while(%2 = %0) : tensor<i64>\n     cond {\n      %c5 = stablehlo.compare LT, %2, %1 : (tensor<i64>, tensor<i64>) -> tensor<i1>\n      stablehlo.return %c5 : tensor<i1>\n     } do {\n      %3 = stablehlo.constant dense<1> : tensor<i64>\n      %4 = stablehlo.add %2, %3 : tensor<i64>\n      stablehlo.return %4 : tensor<i64>\n     }\n    return %5 : tensor<i64>\n  }\n}\n"
    );
}

#[test]
fn sort_module() {
    let nodes = vec![
        node(OpKind::Input, vec![], vec![3], Dtype::F32),
        node(OpKind::Sort { axis: 0, num: 1 }, vec![0], vec![3], Dtype::F32),
        node(OpKind::Proj(0), vec![1], vec![3], Dtype::F32),
    ];
    let out = Val { id: 2, shape: vec![3], dtype: Dtype::F32 };
    let m = build_module(&nodes, &vec![0], &[out]);
    assert_eq!(
        m,
        "module {\n  func.func @main(%0: tensor<3xf32>) -> (tensor<3xf32>) {\n    %1 = \"stablehlo.sort\"(%0) ({\n    ^bb0(%s1_0: tensor<f32>, %s1_1: tensor<f32>):\n      %c1 = stablehlo.compare LT, %s1_0, %s1_1 : (tensor<f32>, tensor<f32>) -> tensor<i1>\n      stablehlo.return %c1 : tensor<i1>\n    }) {dimension = 0 : i64, is_stable = true} : (tensor<3xf32>) -> (tensor<3xf32>)\n    return %1 : tensor<3xf32>\n  }\n}\n"
    );
}

#[test]
fn empty_module() {
    let nodes: Vec<Node> = vec![];
    assert_eq!(build_module(&nodes, &vec![], &[]), "module {\n  func.func @main() {\n    return\n  }\n}\n");
}

#[test]
fn node_texts() {
    let nodes = vec![
        node(OpKind::Input, vec![], vec![4, 3], Dtype::F32),
        node(OpKind::Input, vec![], vec![2], Dtype::I32),
        node(OpKind::Gather(1), vec![0, 1], vec![2, 3], Dtype::F32),
        node(OpKind::Dot(vec![0], vec![0], vec![2], vec![1]), vec![0, 0], vec![4], Dtype::F32),
        node(OpKind::Slice(0, 1, 3), vec![0], vec![2, 3], Dtype::F32),
        node(OpKind::Input, vec![], vec![4, 3], Dtype::I1),
        node(OpKind::Select, vec![5, 0, 0], vec![4, 3], Dtype::F32),
        node(OpKind::DenseConst(vec!["1.0".to_string(), "2.0".to_string()]), vec![], vec![2], Dtype::F32),
        node(OpKind::Barrier, vec![3], vec![4], Dtype::F32),
        node(OpKind::Unary("exponential".to_string()), vec![8], vec![4], Dtype::F32),
        node(OpKind::Reduce("add".to_string(), vec![1]), vec![0, 7], vec![4], Dtype::F32),
        node(OpKind::Concat(0), vec![1, 1], vec![4], Dtype::I32),
    ];
    assert_eq!(
        text(&nodes, 2),
        "\"stablehlo.gather\"(%0, %1) {dimension_numbers = #stablehlo.gather<offset_dims = [1], collapsed_slice_dims = [0], start_index_map = [0], index_vector_dim = 1>, indices_are_sorted = false, slice_sizes = array<i64: 1, 3>} : (tensor<4x3xf32>, tensor<2xi32>) -> tensor<2x3xf32>"
    );
    assert_eq!(
        text(&nodes, 3),
        "stablehlo.dot_general %0, %0, batching_dims = [0] x [0], contracting_dims = [2] x [1] : (tensor<4x3xf32>, tensor<4x3xf32>) -> tensor<4xf32>"
    );
    assert_eq!(text(&nodes, 4), "stablehlo.slice %0 [1:3, 0:3] : (tensor<4x3xf32>) -> tensor<2x3xf32>");
    assert_eq!(text(&nodes, 6), "stablehlo.select %5, %0, %0 : tensor<4x3xi1>, tensor<4x3xf32>");
    assert_eq!(text(&nodes, 7), "stablehlo.constant dense<[1.0, 2.0]> : tensor<2xf32>");
    assert_eq!(text(&nodes, 9), "stablehlo.exponential %3 : tensor<4xf32>");
    assert_eq!(
        text(&nodes, 10),
        "stablehlo.reduce(%0 init: %7) applies stablehlo.add across dimensions = [1] : (tensor<4x3xf32>, tensor<2xf32>) -> tensor<4xf32>"
    );
    assert_eq!(text(&nodes, 11), "stablehlo.concatenate %1, %1, dim = 0 : (tensor<2xi32>, tensor<2xi32>) -> tensor<4xi32>");
}

#[test]
fn printed_tensors() {
    let items: Vec<String> = (1..=6).map(|v| v.to_string()).collect();
    assert_eq!(format_typed(&items, &[2, 3]), "[[1, 2, 3], [4, 5, 6]]");
    assert_eq!(format_typed(&vec!["7".to_string()], &[]), "7");
    assert_eq!(format_typed(&vec![], &[0]), "[]");
}

#[test]
fn tensor_names_as_fields() {
    assert_eq!(
        field_path("layers.0.weight"),
        Some(vec!["layers".to_string(), "_0".to_string(), "weight".to_string()])
    );
    assert_eq!(field_path("a..b"), None);
    assert_eq!(field_component("x-y"), None);
    assert_eq!(field_component("bias"), Some("bias".to_string()));
}

#[test]
fn saved_leaves() {
    let leaf = |dtype: Dtype, bdims: usize| BVal { val: Val { id: 0, shape: vec![2], dtype }, bdims };
    assert_eq!(check_leaf(&leaf(Dtype::F32, 0)), Ok(()));
    assert_eq!(check_leaf(&leaf(Dtype::I1, 0)), Err(SaveError::Booleans));
    assert_eq!(check_leaf(&leaf(Dtype::F64, 1)), Err(SaveError::InsideVmap));
}
