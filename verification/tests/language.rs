use vector::graph::Dtype;
use vector::json::{parse_json, Json, JsonError};
use vector::lexer::{lex, LexError, Tok};
use vector::serve::{
    content_length, error_body, outputs_json, parse_signature, parse_tensor_type, port_text, request_inputs,
    request_method, signature_json, tensor_json, Port, PortError, RequestError, SigError,
};
use vector::table::{column_name, parse_rows, read_table_text, Column, TableError};

#[test]
fn json_values_parse() {
    let v = parse_json(b" {\"a\": [1, -2.5e3, true, false, null, \"x\\u00e9\\n\"], \"b\": {}} ").unwrap();
    let Json::Obj(fields) = v else { panic!("not an object") };
    assert_eq!(fields.len(), 2);
    assert_eq!(fields[0].0, "a");
    let Json::Arr(items) = &fields[0].1 else { panic!("not an array") };
    assert_eq!(items.len(), 6);
    assert!(matches!(&items[0], Json::Num(t) if t == b"1"));
    assert!(matches!(&items[1], Json::Num(t) if t == b"-2.5e3"));
    assert!(matches!(&items[2], Json::Bool(true)));
    assert!(matches!(&items[3], Json::Bool(false)));
    assert!(matches!(&items[4], Json::Null));
    assert!(matches!(&items[5], Json::Str(s) if s == "x\u{e9}\n"));
    assert_eq!(fields[1].0, "b");
    assert!(matches!(&fields[1].1, Json::Obj(f) if f.is_empty()));
}

#[test]
fn json_surrogate_pairs_join() {
    let v = parse_json(b"\"\\ud83d\\ude00\"").unwrap();
    assert!(matches!(v, Json::Str(s) if s == "\u{1F600}"));
}

#[test]
fn json_errors() {
    assert_eq!(parse_json(b"").err(), Some(JsonError::UnexpectedEnd));
    assert_eq!(parse_json(b"[1, 2").err(), Some(JsonError::UnexpectedEnd));
    assert_eq!(parse_json(b"nul").err(), Some(JsonError::UnknownLiteral));
    assert_eq!(parse_json(b"[1 2]").err(), Some(JsonError::ExpectedCommaOrBracket));
    assert_eq!(parse_json(b"{\"a\":1 \"b\":2}").err(), Some(JsonError::ExpectedCommaOrBrace));
    assert_eq!(parse_json(b"\"\\q\"").err(), Some(JsonError::UnknownEscape));
    assert_eq!(parse_json(b"\"\\u12g4\"").err(), Some(JsonError::BadUnicodeEscape));
    assert_eq!(parse_json(b"{1:2}").err(), Some(JsonError::Expected(b'"')));
    assert_eq!(parse_json(b"\"\xff\"").err(), Some(JsonError::InvalidUtf8));
}

#[test]
fn lexer_tokens_and_positions() {
    let lx = lex("fn f(x) = x + 1.5 # note\nfor i in 0..3").unwrap();
    let s = |t: &str| t.to_string();
    assert_eq!(
        lx.toks,
        vec![
            Tok::Fn,
            Tok::Ident(s("f")),
            Tok::LParen,
            Tok::Ident(s("x")),
            Tok::RParen,
            Tok::Eq,
            Tok::Ident(s("x")),
            Tok::Plus,
            Tok::Num(s("1.5")),
            Tok::For,
            Tok::Ident(s("i")),
            Tok::In,
            Tok::Num(s("0")),
            Tok::DotDot,
            Tok::Num(s("3")),
        ]
    );
    assert_eq!(lx.lines, vec![1, 1, 1, 1, 1, 1, 1, 1, 1, 2, 2, 2, 2, 2, 2]);
    assert_eq!(lx.cols, vec![1, 4, 5, 6, 7, 9, 11, 13, 15, 1, 5, 7, 10, 11, 13]);
}

#[test]
fn lexer_operators_and_strings() {
    let lx = lex("a<=b>=c<d>e.f \"hi there\" [x, y]: {} - * /").unwrap();
    let s = |t: &str| t.to_string();
    assert_eq!(
        lx.toks,
        vec![
            Tok::Ident(s("a")),
            Tok::Le,
            Tok::Ident(s("b")),
            Tok::Ge,
            Tok::Ident(s("c")),
            Tok::Lt,
            Tok::Ident(s("d")),
            Tok::Gt,
            Tok::Ident(s("e")),
            Tok::Dot,
            Tok::Ident(s("f")),
            Tok::Str(s("hi there")),
            Tok::LBracket,
            Tok::Ident(s("x")),
            Tok::Comma,
            Tok::Ident(s("y")),
            Tok::RBracket,
            Tok::Colon,
            Tok::LBrace,
            Tok::RBrace,
            Tok::Minus,
            Tok::Star,
            Tok::Slash,
        ]
    );
}

#[test]
fn lexer_errors() {
    assert_eq!(lex("x = \"open").err(), Some(LexError::UnterminatedString));
    assert_eq!(lex("\"a\nb\"").err(), Some(LexError::UnterminatedString));
    assert_eq!(lex("a ? b").err(), Some(LexError::UnexpectedChar('?')));
    assert!(lex("").unwrap().toks.is_empty());
}

#[test]
fn tensor_types_parse() {
    let p = parse_tensor_type("tensor<2x3xf32>").unwrap();
    assert_eq!((p.shape, p.dtype), (vec![2, 3], Dtype::F32));
    let p = parse_tensor_type(" tensor<f64> ").unwrap();
    assert_eq!((p.shape, p.dtype), (vec![], Dtype::F64));
    assert_eq!(parse_tensor_type("tensor<4xi32>").err(), Some(PortError::UnservableDtype("i32".to_string())));
    assert_eq!(
        parse_tensor_type("tensor<ax2xf32>").err(),
        Some(PortError::UnrecognizedType("tensor<ax2xf32>".to_string()))
    );
    assert_eq!(parse_tensor_type("vec<2xf32>").err(), Some(PortError::UnrecognizedType("vec<2xf32>".to_string())));
}

#[test]
fn port_texts() {
    assert_eq!(port_text(&Port { shape: vec![2, 3], dtype: Dtype::F32 }), "2x3xf32");
    assert_eq!(port_text(&Port { shape: vec![], dtype: Dtype::F64 }), "f64");
}

#[test]
fn main_signature_is_read() {
    let mlir = "module @m {\n  func.func @main(%arg0: tensor<2xf32>, %arg1: tensor<f64>) -> (tensor<2x2xf32>, tensor<f64>) {\n  }\n}\n";
    let (ins, outs) = parse_signature(mlir).unwrap();
    assert_eq!(ins.len(), 2);
    assert_eq!((ins[0].shape.clone(), ins[0].dtype), (vec![2], Dtype::F32));
    assert_eq!((ins[1].shape.clone(), ins[1].dtype), (vec![], Dtype::F64));
    assert_eq!(outs.len(), 2);
    assert_eq!((outs[0].shape.clone(), outs[0].dtype), (vec![2, 2], Dtype::F32));
    assert_eq!((outs[1].shape.clone(), outs[1].dtype), (vec![], Dtype::F64));
    let (ins, outs) = parse_signature("func.func @main() {").unwrap();
    assert!(ins.is_empty() && outs.is_empty());
}

#[test]
fn signature_errors() {
    assert_eq!(parse_signature("func.func @other() {").err(), Some(SigError::NoMain));
    assert_eq!(parse_signature("func.func @main {").err(), Some(SigError::Malformed));
    assert_eq!(parse_signature("func.func @main(%a) {").err(), Some(SigError::Malformed));
    assert_eq!(
        parse_signature("func.func @main(%a: tensor<2xi1>) {").err(),
        Some(SigError::Port(PortError::UnservableDtype("i1".to_string())))
    );
}

#[test]
fn csv_rows_split() {
    let rows = parse_rows("a,b\r\n\"x,y\",\"say \"\"hi\"\"\"\n\n3,\n").unwrap();
    assert_eq!(
        rows,
        vec![
            vec!["a".to_string(), "b".to_string()],
            vec!["x,y".to_string(), "say \"hi\"".to_string()],
            vec!["3".to_string(), "".to_string()],
        ]
    );
    assert_eq!(parse_rows("last").unwrap(), vec![vec!["last".to_string()]]);
    assert_eq!(parse_rows("\"open\n"), Err(TableError::UnterminatedQuote));
}

#[test]
fn column_names() {
    assert_eq!(column_name(" 3d point "), Some("_3d_point".to_string()));
    assert_eq!(column_name("price($)"), Some("price___".to_string()));
    assert_eq!(column_name("__"), None);
    assert_eq!(column_name("  "), None);
}

#[test]
fn table_columns_are_numbers_or_codes() {
    let t = read_table_text("x,label\n1.5, a\n-2e3,b\n inf ,a\n").unwrap();
    assert_eq!(t.names, vec!["x".to_string(), "label".to_string()]);
    assert_eq!(t.columns.len(), 2);
    match &t.columns[0] {
        Column::Numbers(v) => assert_eq!(v, &vec!["1.5".to_string(), "-2e3".to_string(), "inf".to_string()]),
        Column::Codes(_) => panic!("expected numbers"),
    }
    match &t.columns[1] {
        Column::Codes(c) => assert_eq!(c, &vec![0, 1, 2]),
        Column::Numbers(_) => panic!("expected codes"),
    }
    let t = read_table_text("k\nred\nblue\nred\n").unwrap();
    match &t.columns[0] {
        Column::Codes(c) => assert_eq!(c, &vec![0, 1, 0]),
        Column::Numbers(_) => panic!("expected codes"),
    }
}

#[test]
fn table_errors() {
    assert_eq!(read_table_text("").err(), Some(TableError::Empty));
    assert_eq!(read_table_text("a,b\n").err(), Some(TableError::NoDataRows));
    assert_eq!(read_table_text("a,!!\n1,2\n").err(), Some(TableError::BadHeader("!!".to_string())));
    assert_eq!(read_table_text("a,a\n1,2\n").err(), Some(TableError::DuplicateColumn("a".to_string())));
    assert_eq!(read_table_text("a,b\n1,2\n3\n").err(), Some(TableError::RowWidth(3, 1, 2)));
    assert_eq!(read_table_text("a,b\n1,2\n3, \n").err(), Some(TableError::EmptyCell(3, "b".to_string())));
    assert_eq!(read_table_text("a\n\"1\n").err(), Some(TableError::UnterminatedQuote));
}

#[test]
fn inference_requests() {
    let ports = vec![Port { shape: vec![2], dtype: Dtype::F32 }, Port { shape: vec![2, 1], dtype: Dtype::F64 }];
    let got = request_inputs(b"{\"inputs\": [[1, 2], [[3], [4.5]]]}", &ports).unwrap();
    assert_eq!(got, vec![vec![b"1".to_vec(), b"2".to_vec()], vec![b"3".to_vec(), b"4.5".to_vec()]]);
    assert_eq!(request_inputs(b"[1]", &ports), Err(RequestError::NotObject));
    assert_eq!(request_inputs(b"{\"x\": 1}", &ports), Err(RequestError::NoInputs));
    assert_eq!(request_inputs(b"{\"inputs\": [[1, 2]]}", &ports), Err(RequestError::InputCount(2, 1)));
    assert_eq!(request_inputs(b"{\"inputs\": [[1, 2, 3], [[3], [4]]]}", &ports), Err(RequestError::Length(3, 2)));
    assert_eq!(request_inputs(b"{\"inputs\": [[1, \"a\"], [[3], [4]]]}", &ports), Err(RequestError::NotNumbers));
    assert!(matches!(request_inputs(b"{\"inputs\": ", &ports), Err(RequestError::Json(_))));
}

#[test]
fn http_pieces() {
    let ins = vec![Port { shape: vec![2], dtype: Dtype::F32 }];
    let outs = vec![Port { shape: vec![], dtype: Dtype::F64 }];
    assert_eq!(signature_json(&ins, &outs), "{\"inputs\":[\"2xf32\"],\"outputs\":[\"f64\"]}");
    assert_eq!(content_length("Content-Length: 42\r\n"), Some(42));
    assert_eq!(content_length("CONTENT-LENGTH:7"), Some(7));
    assert_eq!(content_length("content-length: abc"), Some(0));
    assert_eq!(content_length("Host: example"), None);
    assert_eq!(request_method("POST / HTTP/1.1\r\n"), "POST");
    assert_eq!(request_method("  GET /"), "GET");
    assert_eq!(request_method(""), "");
    assert_eq!(error_body("bad \"x\" \\ y"), "{\"error\":\"bad \\\"x\\\" \\\\ y\"}");
    let items: Vec<String> = ["1", "2", "3", "4"].iter().map(|s| s.to_string()).collect();
    assert_eq!(tensor_json(&items, &[2, 2]), "[[1,2],[3,4]]");
    assert_eq!(outputs_json(&vec!["[1]".to_string(), "2".to_string()]), "{\"outputs\":[[1],2]}");
}
