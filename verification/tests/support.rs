use vector::emit::{join, tensor_type};
use vector::graph::{broadcast_shape, per_shape, vector_only, BVal, Dtype, Val};
use vector::net::is_url;
use vector::parser::Op;
use vector::plot::{escape, FigureSpec};
use vector::repl::unbalanced;
use vector::runtime::{backend_path, cache_paths, hex16_text, plugin_file};
use vector::strs::{parse_usize, split_by, trim_chars};
use vector::trace::Tracer;

fn bval(shape: Vec<usize>, bdims: usize) -> BVal {
    BVal { val: Val { id: 0, shape, dtype: Dtype::F32 }, bdims }
}

#[test]
fn broadcasting_matches_trailing_dimensions() {
    assert_eq!(broadcast_shape(&[2, 3], &[3]), Some(vec![2, 3]));
    assert_eq!(broadcast_shape(&[3], &[2, 3]), Some(vec![2, 3]));
    assert_eq!(broadcast_shape(&[2, 3], &[2, 3]), Some(vec![2, 3]));
    assert_eq!(broadcast_shape(&[], &[4]), Some(vec![4]));
    assert_eq!(broadcast_shape(&[2, 3], &[2]), None);
    assert_eq!(broadcast_shape(&[1, 3], &[2, 3]), None);
}

#[test]
fn broadcasting_is_symmetric() {
    let shapes: Vec<Vec<usize>> = vec![vec![], vec![3], vec![2, 3], vec![4, 2, 3], vec![2], vec![3, 3]];
    for a in &shapes {
        for b in &shapes {
            assert_eq!(broadcast_shape(a, b), broadcast_shape(b, a));
        }
    }
}

#[test]
fn batch_element_shapes() {
    assert_eq!(per_shape(&bval(vec![5, 2, 3], 1)), vec![2, 3]);
    assert_eq!(per_shape(&bval(vec![5, 2], 0)), vec![5, 2]);
    assert_eq!(vector_only(&bval(vec![5, 4], 1)), Some(4));
    assert_eq!(vector_only(&bval(vec![5, 2, 3], 1)), None);
    assert_eq!(vector_only(&bval(vec![7], 0)), Some(7));
}

#[test]
fn mlir_tensor_types() {
    assert_eq!(tensor_type(&[2, 3], Dtype::F32), "tensor<2x3xf32>");
    assert_eq!(tensor_type(&[], Dtype::I1), "tensor<i1>");
    assert_eq!(tensor_type(&[10], Dtype::U32), "tensor<10xui32>");
    assert_eq!(Dtype::I64.name(), "i64");
    assert_eq!(Dtype::F64.name(), "f64");
    assert_eq!(join(&[1, 22, 333]), "1, 22, 333");
    assert_eq!(join(&[]), "");
}

#[test]
fn operator_names() {
    assert_eq!(Op::Add.name(), "add");
    assert_eq!(Op::Sub.name(), "subtract");
    assert_eq!(Op::Mul.name(), "multiply");
    assert_eq!(Op::Div.name(), "divide");
}

#[test]
fn plugin_and_cache_paths() {
    assert_eq!(plugin_file("cpu", false), "libpjrt_cpu.so");
    assert_eq!(plugin_file("metal", true), "libpjrt_metal.dylib");
    assert_eq!(backend_path("/home/u", "cuda", false), "/home/u/.vector/libpjrt_cuda.so");
    let (mlir, exec) = cache_paths("/h", "abc");
    assert_eq!(mlir, "/h/.vector/cache/e71fa2190541574b.mlir");
    assert_eq!(exec, "/h/.vector/cache/e71fa2190541574b.exec");
    let hex: String = hex16_text(0x1234_abcd).into_iter().collect();
    assert_eq!(hex, "000000001234abcd");
}

#[test]
fn splitmix_steps() {
    let mut t = Tracer::new(0);
    let out = t.next_u64();
    assert_eq!(t.rng, 0x9e37_79b9_7f4a_7c15);
    assert_eq!(out, 0xe220_a839_7b1d_cdaf);
    t.next_u64();
    assert_eq!(t.rng, 0x9e37_79b9_7f4a_7c15u64.wrapping_mul(2));
    assert!(t.nodes.is_empty());
}

#[test]
fn svg_escaping() {
    assert_eq!(escape("a<b & \"c\">"), "a&lt;b &amp; &quot;c&quot;&gt;");
    assert_eq!(escape("plain"), "plain");
    let f = FigureSpec::default();
    assert!(f.path.is_none() && f.title.is_none() && f.xlabel.is_none() && f.ylabel.is_none());
    assert!(f.series.is_empty());
}

#[test]
fn urls() {
    assert!(is_url("http://example.com/a.npy"));
    assert!(is_url("https://example.com"));
    assert!(!is_url("ftp://example.com"));
    assert!(!is_url("data/http://x"));
}

#[test]
fn open_brackets_continue_a_chunk() {
    assert!(unbalanced("f(x"));
    assert!(!unbalanced("f(x)"));
    assert!(!unbalanced("s = \"(\""));
    assert!(!unbalanced("x # ("));
    assert!(unbalanced("a = [1,\n2"));
    assert!(!unbalanced("x)"));
    assert!(unbalanced("{ \"}\""));
}

#[test]
fn text_helpers() {
    let cs: Vec<char> = "  a b \t".chars().collect();
    assert_eq!(trim_chars(&cs), vec!['a', ' ', 'b']);
    let digits: Vec<char> = "120".chars().collect();
    assert_eq!(parse_usize(&digits), Some(120));
    let bad: Vec<char> = "1x".chars().collect();
    assert_eq!(parse_usize(&bad), None);
    let s: Vec<char> = "a, b, c".chars().collect();
    let sep: Vec<char> = ", ".chars().collect();
    let parts: Vec<String> = split_by(&s, &sep).into_iter().map(|p| p.into_iter().collect()).collect();
    assert_eq!(parts, vec!["a", "b", "c"]);
}
