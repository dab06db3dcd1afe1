use vstd::prelude::*;

pub mod algos;
pub mod audio;
pub mod batch;
pub mod checks;
pub mod compile;
pub mod grad;
pub mod emit;
pub mod graph;
pub mod image;
pub mod inflate;
pub mod json;
pub mod laws;
pub mod lexer;
pub mod literals;
pub mod messages;
pub mod net;
pub mod npy;
pub mod parser;
pub mod plot;
pub mod repl;
pub mod runtime;
pub mod safetensors;
pub mod serve;
pub mod strs;
pub mod table;
pub mod text;
pub mod tracing;
pub mod trace;

verus! {
}
