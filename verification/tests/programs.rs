use vector::compile::{compile_program, CompileError};
use vector::runtime::{cache_paths, fetch_target, url_extension, FetchError};
use vector::graph::{Dtype, OpKind};
use vector::lexer::LexError;
use vector::table::TableError;
use vector::lexer::lex;
use vector::parser::{Parser, Program};
use vector::trace::{TraceError, Tracer};
use vector::tracing::{float_text_of, TVal};

fn program(src: &str) -> Program {
    let l = match lex(src) {
        Ok(l) => l,
        Err(e) => panic!("lex error {:?}", e),
    };
    let mut p = Parser { toks: l.toks, cols: l.cols, lines: l.lines, pos: 0 };
    p.program().unwrap()
}

fn traced(src: &str, depth: usize) -> (Tracer, Result<TVal, TraceError>) {
    let prog = program(src);
    let mut t = Tracer::new(0);
    let r = t.trace(&prog.main, &Vec::new(), &prog, depth);
    (t, r)
}

fn kind_name(k: &OpKind) -> String {
    match k {
        OpKind::Constant(t) => format!("constant {}", t),
        OpKind::Ewise(n) => format!("ewise {}", n),
        OpKind::Unary(n) => format!("unary {}", n),
        OpKind::Compare(d) => format!("compare {}", d),
        _ => "other".to_string(),
    }
}

fn kinds(t: &Tracer) -> Vec<String> {
    t.nodes.iter().map(|n| kind_name(&n.kind)).collect()
}

fn tensor_id(v: &TVal) -> usize {
    match v {
        TVal::Tensor(b) => b.val.id,
        TVal::Record(_) => panic!("a record"),
    }
}

fn err(src: &str) -> TraceError {
    traced(src, 8).1.unwrap_err()
}

#[test]
fn number_literals_become_float_constants() {
    assert_eq!(float_text_of("2"), "2.0");
    assert_eq!(float_text_of("2."), "2.0");
    assert_eq!(float_text_of("2.5"), "2.5");
    let (t, r) = traced("1 + 2", 8);
    assert_eq!(kinds(&t), vec!["constant 1.0", "constant 2.0", "ewise add"]);
    assert_eq!(tensor_id(&r.unwrap()), 2);
    assert_eq!(t.nodes[2].inputs, vec![0, 1]);
    assert_eq!(t.nodes[2].dtype, Dtype::F32);
}

#[test]
fn negation_pi_and_comparison() {
    let (t, r) = traced("-2", 8);
    assert_eq!(kinds(&t), vec!["constant 2.0", "unary negate"]);
    assert_eq!(tensor_id(&r.unwrap()), 1);
    let (t, r) = traced("pi", 8);
    assert_eq!(kinds(&t), vec!["constant 3.141592653589793"]);
    assert_eq!(tensor_id(&r.unwrap()), 0);
    let (t, r) = traced("1 < 2", 8);
    assert_eq!(kinds(&t), vec!["constant 1.0", "constant 2.0", "compare LT"]);
    assert_eq!(t.nodes[2].dtype, Dtype::I1);
    assert_eq!(tensor_id(&r.unwrap()), 2);
}

#[test]
fn documented_inequality_of_arrays_traces() {
    let (t, r) = traced("[1.0, 2.0] != [1.0, 3.0]", 8);
    let id = tensor_id(&r.unwrap());
    assert_eq!(id, t.nodes.len() - 1);
    assert_eq!(kind_name(&t.nodes[id].kind), "compare NE");
    assert_eq!(t.nodes[id].shape, vec![2]);
    assert_eq!(t.nodes[id].dtype, Dtype::I1);
}

#[test]
fn later_bindings_hide_earlier_ones() {
    let (t, r) = traced("x = 1\nx = 2\nx", 8);
    assert_eq!(kinds(&t), vec!["constant 1.0", "constant 2.0"]);
    assert_eq!(tensor_id(&r.unwrap()), 1);
}

#[test]
fn functions_bind_their_parameters() {
    let (t, r) = traced("fn sq(a):\n    a * a\nsq(3)", 8);
    assert_eq!(kinds(&t), vec!["constant 3.0", "ewise multiply"]);
    assert_eq!(t.nodes[1].inputs, vec![0, 0]);
    assert_eq!(tensor_id(&r.unwrap()), 1);
    let (_, r) = traced("fn one(a):\n    a\none(1)", 0);
    assert_eq!(r.unwrap_err(), TraceError::CallDepth);
    let (_, r) = traced("fn one(a):\n    a\none(1)", 1);
    assert!(r.is_ok());
    assert_eq!(err("fn f(a):\n    f(a)\nf(1)"), TraceError::CallDepth);
}

#[test]
fn records_combine_field_by_field() {
    let (t, r) = traced("{a: 1, b: 2} * 3", 8);
    assert_eq!(
        kinds(&t),
        vec!["constant 1.0", "constant 2.0", "constant 3.0", "ewise multiply", "ewise multiply"]
    );
    match r.unwrap() {
        TVal::Record(fs) => {
            assert_eq!(fs.len(), 2);
            assert_eq!(fs[0].0, "a");
            assert_eq!(fs[1].0, "b");
            assert_eq!(tensor_id(&fs[0].1), 3);
            assert_eq!(tensor_id(&fs[1].1), 4);
        }
        TVal::Tensor(_) => panic!("a tensor"),
    }
    let (_, r) = traced("r = {a: 1, b: 2}\nr.b", 8);
    assert_eq!(tensor_id(&r.unwrap()), 1);
    let (t, r) = traced("{a: 1, b: 2} + {b: 3, a: 4}", 8);
    match r.unwrap() {
        TVal::Record(fs) => {
            assert_eq!(t.nodes[tensor_id(&fs[0].1)].inputs, vec![0, 3]);
            assert_eq!(t.nodes[tensor_id(&fs[1].1)].inputs, vec![1, 2]);
        }
        TVal::Tensor(_) => panic!("a tensor"),
    }
}

#[test]
fn tracing_errors() {
    assert_eq!(err("\"s\""), TraceError::StringLiteral);
    assert_eq!(err("y"), TraceError::Undefined("y".to_string()));
    assert_eq!(err("fn f(a):\n    a\nf"), TraceError::FunctionValue("f".to_string()));
    assert_eq!(err("fn f(a, b):\n    a\nf(1)"), TraceError::Arity("f".to_string(), 2, 1));
    assert_eq!(err("g(1)"), TraceError::Builtin("g".to_string()));
    assert_eq!(err("x = 1\nx(2)"), TraceError::NotCallable("x".to_string()));
    assert_eq!(err("{a: 1} < 2"), TraceError::RecordComparison);
    assert_eq!(err("{a: 1}.c"), TraceError::NoField("c".to_string()));
    assert_eq!(err("(1).a"), TraceError::FieldOnTensor("a".to_string()));
    assert_eq!(err("[]"), TraceError::EmptyArray);
    assert_eq!(err("[{a: 1}]"), TraceError::RecordElement);
    assert_eq!(err("{a: 1, b: 2} + {a: 3}"), TraceError::RecordFieldCount(2, 1));
    assert_eq!(err("{a: 1} + {b: 2}"), TraceError::MissingField("a".to_string()));
}

#[test]
fn elementwise_builtins() {
    let (t, r) = traced("exp(1)", 8);
    assert_eq!(kinds(&t), vec!["constant 1.0", "unary exponential"]);
    assert_eq!(tensor_id(&r.unwrap()), 1);
    let (t, _) = traced("sin(1) + cos(1) + sqrt(1)", 8);
    assert_eq!(
        kinds(&t),
        vec!["constant 1.0", "unary sine", "unary cosine", "ewise add", "unary sqrt", "ewise add"]
    );
    let (t, r) = traced("maximum(1, 2)", 8);
    assert_eq!(kinds(&t), vec!["constant 1.0", "constant 2.0", "ewise maximum"]);
    assert_eq!(tensor_id(&r.unwrap()), 2);
    let (t, _) = traced("pow(2, 3)", 8);
    assert_eq!(kinds(&t), vec!["constant 2.0", "constant 3.0", "ewise power"]);
    let (t, r) = traced("abs({a: -1})", 8);
    assert_eq!(kinds(&t), vec!["constant 1.0", "unary negate", "unary abs"]);
    match r.unwrap() {
        TVal::Record(fs) => assert_eq!(tensor_id(&fs[0].1), 2),
        TVal::Tensor(_) => panic!("a tensor"),
    }
}

#[test]
fn mod_takes_the_sign_of_the_divisor() {
    let (t, r) = traced("mod(7, 2)", 8);
    assert_eq!(
        kinds(&t),
        vec!["constant 7.0", "constant 2.0", "ewise divide", "unary floor", "ewise multiply", "ewise subtract"]
    );
    assert_eq!(t.nodes[2].inputs, vec![0, 1]);
    assert_eq!(t.nodes[3].inputs, vec![2]);
    assert_eq!(t.nodes[4].inputs, vec![3, 1]);
    assert_eq!(t.nodes[5].inputs, vec![0, 4]);
    assert_eq!(tensor_id(&r.unwrap()), 5);
}

#[test]
fn matmul_and_vector_builtins() {
    let (t, r) = traced("matmul([[1, 2], [3, 4]], [[1], [1]])", 8);
    let id = tensor_id(&r.unwrap());
    assert_eq!(t.nodes[id].shape, vec![2, 1]);
    let (t, r) = traced("sort([3, 1, 2])", 8);
    let id = tensor_id(&r.unwrap());
    assert_eq!(id, t.nodes.len() - 1);
    assert_eq!(t.nodes[id].shape, vec![3]);
    let (t, r) = traced("cumsum([1, 2])", 8);
    let id = tensor_id(&r.unwrap());
    assert_eq!(t.nodes[id].shape, vec![2]);
    assert_eq!(t.nodes[id].dtype, Dtype::F32);
}

#[test]
fn builtin_errors() {
    assert_eq!(err("exp(1, 2)"), TraceError::BuiltinArgs("exp".to_string(), 2));
    assert_eq!(err("mod(1)"), TraceError::BuiltinArgs("mod".to_string(), 1));
    assert_eq!(err("matmul({a: 1}, 1)"), TraceError::RecordArgument("matmul".to_string()));
    assert_eq!(err("sort({a: 1})"), TraceError::RecordArgument("sort".to_string()));
    assert_eq!(err("sort([1, 2] < 3)"), TraceError::BooleanArgument("sort".to_string()));
    assert_eq!(err("sort(1)"), TraceError::NotVector("sort".to_string(), vec![]));
    assert_eq!(err("no_such_builtin(0, 1, 5)"), TraceError::Builtin("no_such_builtin".to_string()));
    assert_eq!(err("exp(y)"), TraceError::Undefined("y".to_string()));
}

#[test]
fn conversions_between_float_types() {
    let (t, r) = traced("f64(1)", 8);
    let id = tensor_id(&r.unwrap());
    assert_eq!(id, 1);
    assert_eq!(t.nodes[1].dtype, Dtype::F64);
    assert_eq!(t.nodes[1].inputs, vec![0]);
    let (t, r) = traced("f32(1)", 8);
    assert_eq!(tensor_id(&r.unwrap()), 0);
    assert_eq!(t.nodes.len(), 1);
    assert_eq!(err("f64(1, 2)"), TraceError::BuiltinArgs("f64".to_string(), 2));
}

#[test]
fn binding_then_reading_back_traces_as_the_expression() {
    let (t1, r1) = traced("x = 1 + 2\nx", 8);
    let (t2, r2) = traced("1 + 2", 8);
    assert_eq!(kinds(&t1), kinds(&t2));
    assert_eq!(tensor_id(&r1.unwrap()), tensor_id(&r2.unwrap()));
    let (t, r) = traced("1\n2", 8);
    assert_eq!(kinds(&t), vec!["constant 1.0", "constant 2.0"]);
    assert_eq!(tensor_id(&r.unwrap()), 1);
}

#[test]
fn where_selects_between_branches() {
    let (t, r) = traced("where([1.0, 2.0] != [1.0, 3.0], 1.0, 0.0)", 8);
    let id = tensor_id(&r.unwrap());
    assert_eq!(id, t.nodes.len() - 1);
    assert_eq!(t.nodes[id].shape, vec![2]);
    assert_eq!(t.nodes[id].dtype, Dtype::F32);
    let cond = t.nodes[id].inputs[0];
    assert_eq!(kind_name(&t.nodes[cond].kind), "compare NE");
    assert_eq!(err("where(1, 1, 0)"), TraceError::ConditionNotBoolean);
    assert_eq!(err("where(1 < 2, 1 < 2, 0)"), TraceError::BooleanArgument("where".to_string()));
    assert_eq!(err("where([1, 2] < 3, [1, 2, 3], 0)"), TraceError::ShapeMismatch(vec![3], vec![2]));
    assert_eq!(err("where(1 < 2, 1)"), TraceError::BuiltinArgs("where".to_string(), 2));
    assert_eq!(err("where({a: 1}, 1, 0)"), TraceError::RecordArgument("where".to_string()));
}

fn shape_of(src: &str) -> Vec<usize> {
    let (t, r) = traced(src, 8);
    t.nodes[tensor_id(&r.unwrap())].shape.clone()
}

fn constants(t: &Tracer) -> Vec<String> {
    t.nodes
        .iter()
        .filter_map(|n| match &n.kind {
            OpKind::Constant(c) => Some(c.clone()),
            _ => None,
        })
        .collect()
}

#[test]
fn ranges_from_literals() {
    assert_eq!(shape_of("arange(5)"), vec![5]);
    assert_eq!(shape_of("arange(2, 5)"), vec![3]);
    assert_eq!(shape_of("arange(1, 2, 0.25)"), vec![4]);
    assert_eq!(shape_of("arange(3, 0, -1)"), vec![3]);
    assert_eq!(shape_of("arange(0, 1, 0.3)"), vec![4]);
    let (t, r) = traced("arange(1, 2, 0.25)", 8);
    let id = tensor_id(&r.unwrap());
    assert_eq!(kind_name(&t.nodes[id].kind), "ewise add");
    assert_eq!(constants(&t), vec!["0.25", "1.0"]);
    let (t, _) = traced("arange(3, 0, -1)", 8);
    assert_eq!(constants(&t), vec!["-1.0", "3.0"]);
    assert_eq!(err("arange(1, 1)"), TraceError::EmptyRange);
    assert_eq!(err("arange(5, 1)"), TraceError::EmptyRange);
    assert_eq!(err("arange(0, 5, 0)"), TraceError::StepZero);
    assert_eq!(err("arange()"), TraceError::BuiltinArgs("arange".to_string(), 0));
    assert_eq!(err("arange(12345678901)"), TraceError::NotLiteral("arange".to_string()));
}

#[test]
fn linspace_includes_both_ends() {
    let (t, r) = traced("linspace(0, 1, 5)", 8);
    let id = tensor_id(&r.unwrap());
    assert_eq!(t.nodes[id].shape, vec![5]);
    assert_eq!(t.nodes[id].dtype, Dtype::F32);
    assert_eq!(constants(&t), vec!["1.0", "0.0", "4.0"]);
    assert_eq!(shape_of("linspace(2, 2, 1)"), vec![1]);
    assert_eq!(err("linspace(0, 1, 0)"), TraceError::EmptyRange);
    assert_eq!(err("linspace(0, 1, 2.5)"), TraceError::NotCount("linspace".to_string()));
    assert_eq!(err("linspace(0, 1)"), TraceError::BuiltinArgs("linspace".to_string(), 2));
}

#[test]
fn zeros_and_len() {
    assert_eq!(shape_of("zeros(2, 3)"), vec![2, 3]);
    assert_eq!(shape_of("zeros(4.0)"), vec![4]);
    assert_eq!(err("zeros(2.5)"), TraceError::NotCount("zeros".to_string()));
    assert_eq!(err("zeros(-1)"), TraceError::NotCount("zeros".to_string()));
    let (t, r) = traced("len([1, 2, 3])", 8);
    let id = tensor_id(&r.unwrap());
    assert_eq!(kind_name(&t.nodes[id].kind), "constant 3.0");
    assert_eq!(err("len(1)"), TraceError::ScalarArgument("len".to_string()));
    assert_eq!(err("len({a: 1})"), TraceError::RecordArgument("len".to_string()));
}

#[test]
fn loads_the_tracer_decides() {
    assert_eq!(err("load(\"photo.jpg\")"), TraceError::ConvertToPng("photo.jpg".to_string()));
    assert_eq!(err("load(\"photo.jpeg\")"), TraceError::ConvertToPng("photo.jpeg".to_string()));
    assert_eq!(err("load(\"song.mp3\")"), TraceError::ConvertToWav("song.mp3".to_string()));
    assert_eq!(err("load(\"data.npy\")"), TraceError::LoadFile("data.npy".to_string()));
    assert_eq!(err("load(1)"), TraceError::PathLiteral("load".to_string()));
}

#[test]
fn programs_compile_to_stablehlo() {
    let c = match compile_program("x = 1 + 2\nx * x") {
        Ok(c) => c,
        Err(e) => panic!("not compiled: {:?}", e),
    };
    assert_eq!(c.outputs.len(), 1);
    assert_eq!(c.outputs[0].id, 3);
    assert!(c.module.starts_with("module {\n"));
    assert!(c.module.contains("stablehlo.add %0, %1 : tensor<f32>"));
    assert!(c.module.contains("stablehlo.multiply %2, %2 : tensor<f32>"));
    assert!(c.module.contains("return %3 : tensor<f32>"));
    let c = match compile_program("{a: 1, b: [1, 2]}") {
        Ok(c) => c,
        Err(e) => panic!("not compiled: {:?}", e),
    };
    assert_eq!(c.outputs.len(), 2);
    assert_eq!(c.outputs[1].shape, vec![2]);
    assert!(matches!(compile_program("a ! b"), Err(CompileError::Lex(_))));
    assert!(matches!(compile_program(""), Err(CompileError::Parse(_))));
    assert!(matches!(compile_program("y"), Err(CompileError::Trace(TraceError::Undefined(_)))));
}

#[test]
fn error_messages() {
    assert_eq!(
        TraceError::ShapeMismatch(vec![2], vec![3, 4]).message(),
        "shape mismatch: [2] vs [3, 4] (broadcast aligns trailing dims)"
    );
    assert_eq!(TraceError::DtypeMismatch(Dtype::F32, Dtype::F64).message(), "dtype mismatch: f32 vs f64");
    assert_eq!(TraceError::Arity("f".to_string(), 2, 1).message(), "arity mismatch: f expects 2 args, got 1");
    assert_eq!(TraceError::Undefined("y".to_string()).message(), "undefined: y");
    assert_eq!(TraceError::StepZero.message(), "range step must be nonzero");
    assert_eq!(err("(1).a").message(), "field access '.a' on a tensor");
    assert_eq!(LexError::UnexpectedChar('$').message(), "unexpected character: $");
    assert_eq!(LexError::UnterminatedString.message(), "unterminated string literal");
    assert_eq!(TableError::RowWidth(3, 2, 4).message("a.csv"), "a.csv: row 3 has 2 fields, expected 4");
    assert_eq!(TableError::Empty.message("a.csv"), "a.csv is empty");
    assert_eq!(
        TableError::EmptyCell(2, "x".to_string()).message("a.csv"),
        "a.csv: row 2, column x is empty"
    );
}

#[test]
fn download_targets() {
    use_fetch();
}

fn use_fetch() {
    let p = fetch_target("/h", "https://x.org/data/a.npy?raw=1").unwrap();
    assert!(p.starts_with("/h/.vector/downloads/"));
    assert!(p.ends_with(".npy"));
    assert_eq!(p.len(), "/h/.vector/downloads/".len() + 16 + 4);
    let (m, _) = cache_paths("/h", "https://x.org/data/a.npy?raw=1");
    assert_eq!(&p["/h/.vector/downloads/".len().."/h/.vector/downloads/".len() + 16], &m["/h/.vector/cache/".len().."/h/.vector/cache/".len() + 16]);
    assert!(fetch_target("/h", "https://x.org/f.tar.gz#top").unwrap().ends_with(".gz"));
    assert_eq!(
        fetch_target("/h", "https://x.org/data").unwrap_err(),
        FetchError::UnknownFormat("https://x.org/data".to_string())
    );
    assert!(fetch_target("/h", "https://x.org/a.b/c").is_err());
    assert_eq!(url_extension("https://x.org/a.b/c.png?x=y.z"), "png");
}
