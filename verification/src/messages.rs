use vstd::prelude::*;

use crate::emit::{join_spec, push_join};
use crate::graph::dtype_name_spec;
use crate::lexer::LexError;
use crate::strs::{decimal_chars, decimal_text, push_chars, push_str_chars, string_from_chars};
use crate::table::TableError;
use crate::trace::{TraceError, TraceErrorV};

verus! {

/// A shape as messages write it: `[2, 3]`.
pub open spec fn shape_text(s: Seq<usize>) -> Seq<char> {
    seq!['['] + join_spec(s) + seq![']']
}

fn push_shape(out: &mut Vec<char>, s: &[usize])
    ensures
        final(out)@ == old(out)@ + shape_text(s@),
{
    let ghost start = out@;
    out.push('[');
    push_join(out, s);
    out.push(']');
    assert(out@ =~= start + shape_text(s@));
}

/// What a tracing error says.
pub open spec fn trace_message(e: TraceErrorV) -> Seq<char> {
    match e {
        TraceError::DtypeMismatch(a, b) => Seq::<char>::empty() + "dtype mismatch: "@ + dtype_name_spec(a) + " vs "@ + dtype_name_spec(b),
        TraceError::ShapeMismatch(a, b) => Seq::<char>::empty() + "shape mismatch: "@ + shape_text(a) + " vs "@ + shape_text(b) + " (broadcast aligns trailing dims)"@,
        TraceError::BooleanArithmetic(n) => Seq::<char>::empty() + "arithmetic on booleans: "@ + n,
        TraceError::BooleanComparison => Seq::<char>::empty() + "cannot compare booleans"@,
        TraceError::MatmulDtype(a, b) => Seq::<char>::empty() + "matmul dtype mismatch: "@ + dtype_name_spec(a) + " vs "@ + dtype_name_spec(b),
        TraceError::MatmulRank(a, b) => Seq::<char>::empty() + "matmul needs rank >= 1, got "@ + shape_text(a) + " vs "@ + shape_text(b),
        TraceError::MatmulContraction(a, b) => Seq::<char>::empty() + "matmul contraction mismatch: "@ + shape_text(a) + " vs "@ + shape_text(b),
        TraceError::MatmulNotMatrices(a, b) => Seq::<char>::empty() + "matmul with batch dimensions expects matrices, got "@ + shape_text(a) + " vs "@ + shape_text(b),
        TraceError::MatmulBatchMismatch(a, b) => Seq::<char>::empty() + "matmul batch dimensions mismatch: "@ + shape_text(a) + " vs "@ + shape_text(b),
        TraceError::StackShapes(a, b) => Seq::<char>::empty() + "array literal has inconsistent shapes: "@ + shape_text(a) + " vs "@ + shape_text(b),
        TraceError::StackDtypes(a, b) => Seq::<char>::empty() + "array literal has inconsistent dtypes: "@ + dtype_name_spec(a) + " vs "@ + dtype_name_spec(b),
        TraceError::NoGradient(n) => Seq::<char>::empty() + "no gradient rule for "@ + n,
        TraceError::NoGradientRule => Seq::<char>::empty() + "no gradient rule for this operation"@,
        TraceError::MatmulGradient => Seq::<char>::empty() + "higher-order gradients through matmul aren't supported yet"@,
        TraceError::NotVector(n, p) => Seq::<char>::empty() + n + " expects a vector, got shape "@ + shape_text(p) + " (use vmap for batches)"@,
        TraceError::ScalarArgument(n) => Seq::<char>::empty() + n + " expects rank >= 1, got a scalar"@,
        TraceError::OneHotRank(p) => Seq::<char>::empty() + "one_hot expects a scalar or vector, got shape "@ + shape_text(p),
        TraceError::OneHotDepth => Seq::<char>::empty() + "one_hot depth must be positive"@,
        TraceError::TakeRank(p) => Seq::<char>::empty() + "take expects rank 1 or 2, got shape "@ + shape_text(p),
        TraceError::TakeIndices(p) => Seq::<char>::empty() + "take indices must be a scalar or vector, got shape "@ + shape_text(p),
        TraceError::Unusable => Seq::<char>::empty() + "a value whose batch dimensions, node or rank the tracer cannot use"@,
        TraceError::RecordFieldCount(a, b) => Seq::<char>::empty() + "record fields mismatch: "@ + decimal_chars(a as nat) + " vs "@ + decimal_chars(b as nat) + " fields"@,
        TraceError::MissingField(n) => Seq::<char>::empty() + "record fields mismatch: missing field '"@ + n + "'"@,
        TraceError::NoField(n) => Seq::<char>::empty() + "record has no field '"@ + n + "'"@,
        TraceError::FieldOnTensor(n) => Seq::<char>::empty() + "field access '."@ + n + "' on a tensor"@,
        TraceError::StringLiteral => Seq::<char>::empty() + "string literals are only valid as the argument of load"@,
        TraceError::Undefined(n) => Seq::<char>::empty() + "undefined: "@ + n,
        TraceError::FunctionValue(n) => Seq::<char>::empty() + "'"@ + n + "' is a function; first-class functions aren't supported yet"@,
        TraceError::EmptyArray => Seq::<char>::empty() + "empty array literal"@,
        TraceError::RecordElement => Seq::<char>::empty() + "array literal element cannot be a record"@,
        TraceError::RecordComparison => Seq::<char>::empty() + "comparison operand cannot be a record"@,
        TraceError::NotCallable(n) => Seq::<char>::empty() + "value is not callable (only module instances can be applied): "@ + n,
        TraceError::Arity(n, a, b) => Seq::<char>::empty() + "arity mismatch: "@ + n + " expects "@ + decimal_chars(a as nat) + " args, got "@ + decimal_chars(b as nat),
        TraceError::CallDepth => Seq::<char>::empty() + "calls nest too deeply"@,
        TraceError::Builtin(n) => Seq::<char>::empty() + "undefined function: "@ + n,
        TraceError::LoopNotTraced => Seq::<char>::empty() + "loops are not traced here"@,
        TraceError::BuiltinArgs(n, k) => Seq::<char>::empty() + n + " does not take "@ + decimal_chars(k as nat) + " args"@,
        TraceError::RecordArgument(n) => Seq::<char>::empty() + n + " cannot be a record"@,
        TraceError::BooleanArgument(n) => Seq::<char>::empty() + "cannot "@ + n + " booleans"@,
        TraceError::ConditionNotBoolean => Seq::<char>::empty() + "where condition must be a comparison"@,
        TraceError::GradientNotReady => Seq::<char>::empty() + "a gradient rule cannot run on its node"@,
        TraceError::NotLiteral(n) => Seq::<char>::empty() + n + " arguments must be number literals"@,
        TraceError::NotCount(n) => Seq::<char>::empty() + n + " must be a non-negative integer literal"@,
        TraceError::StepZero => Seq::<char>::empty() + "range step must be nonzero"@,
        TraceError::EmptyRange => Seq::<char>::empty() + "range is empty"@,
        TraceError::PathLiteral(n) => Seq::<char>::empty() + n + " expects a file path string literal"@,
        TraceError::ConvertToPng(n) => Seq::<char>::empty() + "jpeg isn't supported; convert to png: "@ + n,
        TraceError::ConvertToWav(n) => Seq::<char>::empty() + "compressed audio isn't supported; convert to wav (pcm): "@ + n,
        TraceError::LoadFile(n) => Seq::<char>::empty() + "the program runner reads "@ + n,
    }
}

impl TraceError {
    /// What the error says.
    pub fn message(&self) -> (s: String)
        ensures
            s@ == trace_message(self@),
    {
        let mut out: Vec<char> = Vec::new();
        match self {
            TraceError::DtypeMismatch(a, b) => {
                push_str_chars(&mut out, "dtype mismatch: ");
                push_str_chars(&mut out, a.name());
                push_str_chars(&mut out, " vs ");
                push_str_chars(&mut out, b.name());
            },
            TraceError::ShapeMismatch(a, b) => {
                push_str_chars(&mut out, "shape mismatch: ");
                push_shape(&mut out, a.as_slice());
                push_str_chars(&mut out, " vs ");
                push_shape(&mut out, b.as_slice());
                push_str_chars(&mut out, " (broadcast aligns trailing dims)");
            },
            TraceError::BooleanArithmetic(n) => {
                push_str_chars(&mut out, "arithmetic on booleans: ");
                push_str_chars(&mut out, n.as_str());
            },
            TraceError::BooleanComparison => {
                push_str_chars(&mut out, "cannot compare booleans");
            },
            TraceError::MatmulDtype(a, b) => {
                push_str_chars(&mut out, "matmul dtype mismatch: ");
                push_str_chars(&mut out, a.name());
                push_str_chars(&mut out, " vs ");
                push_str_chars(&mut out, b.name());
            },
            TraceError::MatmulRank(a, b) => {
                push_str_chars(&mut out, "matmul needs rank >= 1, got ");
                push_shape(&mut out, a.as_slice());
                push_str_chars(&mut out, " vs ");
                push_shape(&mut out, b.as_slice());
            },
            TraceError::MatmulContraction(a, b) => {
                push_str_chars(&mut out, "matmul contraction mismatch: ");
                push_shape(&mut out, a.as_slice());
                push_str_chars(&mut out, " vs ");
                push_shape(&mut out, b.as_slice());
            },
            TraceError::MatmulNotMatrices(a, b) => {
                push_str_chars(&mut out, "matmul with batch dimensions expects matrices, got ");
                push_shape(&mut out, a.as_slice());
                push_str_chars(&mut out, " vs ");
                push_shape(&mut out, b.as_slice());
            },
            TraceError::MatmulBatchMismatch(a, b) => {
                push_str_chars(&mut out, "matmul batch dimensions mismatch: ");
                push_shape(&mut out, a.as_slice());
                push_str_chars(&mut out, " vs ");
                push_shape(&mut out, b.as_slice());
            },
            TraceError::StackShapes(a, b) => {
                push_str_chars(&mut out, "array literal has inconsistent shapes: ");
                push_shape(&mut out, a.as_slice());
                push_str_chars(&mut out, " vs ");
                push_shape(&mut out, b.as_slice());
            },
            TraceError::StackDtypes(a, b) => {
                push_str_chars(&mut out, "array literal has inconsistent dtypes: ");
                push_str_chars(&mut out, a.name());
                push_str_chars(&mut out, " vs ");
                push_str_chars(&mut out, b.name());
            },
            TraceError::NoGradient(n) => {
                push_str_chars(&mut out, "no gradient rule for ");
                push_str_chars(&mut out, n.as_str());
            },
            TraceError::NoGradientRule => {
                push_str_chars(&mut out, "no gradient rule for this operation");
            },
            TraceError::MatmulGradient => {
                push_str_chars(&mut out, "higher-order gradients through matmul aren't supported yet");
            },
            TraceError::NotVector(n, p) => {
                push_str_chars(&mut out, n.as_str());
                push_str_chars(&mut out, " expects a vector, got shape ");
                push_shape(&mut out, p.as_slice());
                push_str_chars(&mut out, " (use vmap for batches)");
            },
            TraceError::ScalarArgument(n) => {
                push_str_chars(&mut out, n.as_str());
                push_str_chars(&mut out, " expects rank >= 1, got a scalar");
            },
            TraceError::OneHotRank(p) => {
                push_str_chars(&mut out, "one_hot expects a scalar or vector, got shape ");
                push_shape(&mut out, p.as_slice());
            },
            TraceError::OneHotDepth => {
                push_str_chars(&mut out, "one_hot depth must be positive");
            },
            TraceError::TakeRank(p) => {
                push_str_chars(&mut out, "take expects rank 1 or 2, got shape ");
                push_shape(&mut out, p.as_slice());
            },
            TraceError::TakeIndices(p) => {
                push_str_chars(&mut out, "take indices must be a scalar or vector, got shape ");
                push_shape(&mut out, p.as_slice());
            },
            TraceError::Unusable => {
                push_str_chars(&mut out, "a value whose batch dimensions, node or rank the tracer cannot use");
            },
            TraceError::RecordFieldCount(a, b) => {
                push_str_chars(&mut out, "record fields mismatch: ");
                push_chars(&mut out, decimal_text(*a).as_slice());
                push_str_chars(&mut out, " vs ");
                push_chars(&mut out, decimal_text(*b).as_slice());
                push_str_chars(&mut out, " fields");
            },
            TraceError::MissingField(n) => {
                push_str_chars(&mut out, "record fields mismatch: missing field '");
                push_str_chars(&mut out, n.as_str());
                push_str_chars(&mut out, "'");
            },
            TraceError::NoField(n) => {
                push_str_chars(&mut out, "record has no field '");
                push_str_chars(&mut out, n.as_str());
                push_str_chars(&mut out, "'");
            },
            TraceError::FieldOnTensor(n) => {
                push_str_chars(&mut out, "field access '.");
                push_str_chars(&mut out, n.as_str());
                push_str_chars(&mut out, "' on a tensor");
            },
            TraceError::StringLiteral => {
                push_str_chars(&mut out, "string literals are only valid as the argument of load");
            },
            TraceError::Undefined(n) => {
                push_str_chars(&mut out, "undefined: ");
                push_str_chars(&mut out, n.as_str());
            },
            TraceError::FunctionValue(n) => {
                push_str_chars(&mut out, "'");
                push_str_chars(&mut out, n.as_str());
                push_str_chars(&mut out, "' is a function; first-class functions aren't supported yet");
            },
            TraceError::EmptyArray => {
                push_str_chars(&mut out, "empty array literal");
            },
            TraceError::RecordElement => {
                push_str_chars(&mut out, "array literal element cannot be a record");
            },
            TraceError::RecordComparison => {
                push_str_chars(&mut out, "comparison operand cannot be a record");
            },
            TraceError::NotCallable(n) => {
                push_str_chars(&mut out, "value is not callable (only module instances can be applied): ");
                push_str_chars(&mut out, n.as_str());
            },
            TraceError::Arity(n, a, b) => {
                push_str_chars(&mut out, "arity mismatch: ");
                push_str_chars(&mut out, n.as_str());
                push_str_chars(&mut out, " expects ");
                push_chars(&mut out, decimal_text(*a).as_slice());
                push_str_chars(&mut out, " args, got ");
                push_chars(&mut out, decimal_text(*b).as_slice());
            },
            TraceError::CallDepth => {
                push_str_chars(&mut out, "calls nest too deeply");
            },
            TraceError::Builtin(n) => {
                push_str_chars(&mut out, "undefined function: ");
                push_str_chars(&mut out, n.as_str());
            },
            TraceError::LoopNotTraced => {
                push_str_chars(&mut out, "loops are not traced here");
            },
            TraceError::BuiltinArgs(n, k) => {
                push_str_chars(&mut out, n.as_str());
                push_str_chars(&mut out, " does not take ");
                push_chars(&mut out, decimal_text(*k).as_slice());
                push_str_chars(&mut out, " args");
            },
            TraceError::RecordArgument(n) => {
                push_str_chars(&mut out, n.as_str());
                push_str_chars(&mut out, " cannot be a record");
            },
            TraceError::BooleanArgument(n) => {
                push_str_chars(&mut out, "cannot ");
                push_str_chars(&mut out, n.as_str());
                push_str_chars(&mut out, " booleans");
            },
            TraceError::ConditionNotBoolean => {
                push_str_chars(&mut out, "where condition must be a comparison");
            },
            TraceError::GradientNotReady => {
                push_str_chars(&mut out, "a gradient rule cannot run on its node");
            },
            TraceError::NotLiteral(n) => {
                push_str_chars(&mut out, n.as_str());
                push_str_chars(&mut out, " arguments must be number literals");
            },
            TraceError::NotCount(n) => {
                push_str_chars(&mut out, n.as_str());
                push_str_chars(&mut out, " must be a non-negative integer literal");
            },
            TraceError::StepZero => {
                push_str_chars(&mut out, "range step must be nonzero");
            },
            TraceError::EmptyRange => {
                push_str_chars(&mut out, "range is empty");
            },
            TraceError::PathLiteral(n) => {
                push_str_chars(&mut out, n.as_str());
                push_str_chars(&mut out, " expects a file path string literal");
            },
            TraceError::ConvertToPng(n) => {
                push_str_chars(&mut out, "jpeg isn't supported; convert to png: ");
                push_str_chars(&mut out, n.as_str());
            },
            TraceError::ConvertToWav(n) => {
                push_str_chars(&mut out, "compressed audio isn't supported; convert to wav (pcm): ");
                push_str_chars(&mut out, n.as_str());
            },
            TraceError::LoadFile(n) => {
                push_str_chars(&mut out, "the program runner reads ");
                push_str_chars(&mut out, n.as_str());
            },
        }
        string_from_chars(out.as_slice())
    }
}

/// What a lexing error says.
pub open spec fn lex_message(e: LexError) -> Seq<char> {
    match e {
        LexError::UnterminatedString => Seq::<char>::empty() + "unterminated string literal"@,
        LexError::UnexpectedChar(c) => Seq::<char>::empty() + "unexpected character: "@ + seq![c],
        LexError::MalformedNumber => Seq::<char>::empty() + "malformed number: more than one decimal point"@,
    }
}

impl LexError {
    /// What the error says.
    pub fn message(&self) -> (s: String)
        ensures
            s@ == lex_message(*self),
    {
        let mut out: Vec<char> = Vec::new();
        match self {
            LexError::UnterminatedString => {
                push_str_chars(&mut out, "unterminated string literal");
            },
            LexError::UnexpectedChar(c) => {
                push_str_chars(&mut out, "unexpected character: ");
                let ghost before = out@;
                out.push(*c);
                assert(out@ =~= before + seq![*c]);
            },
            LexError::MalformedNumber => {
                push_str_chars(&mut out, "malformed number: more than one decimal point");
            },
        }
        string_from_chars(out.as_slice())
    }
}

/// What a table error says of the file at `path`.
pub open spec fn table_message(e: TableError<Seq<char>>, path: Seq<char>) -> Seq<char> {
    match e {
        TableError::UnterminatedQuote => Seq::<char>::empty() + path + " has an unterminated quote"@,
        TableError::Empty => Seq::<char>::empty() + path + " is empty"@,
        TableError::NoDataRows => Seq::<char>::empty() + path + " has no data rows"@,
        TableError::BadHeader(h) => Seq::<char>::empty() + path + ": column header '"@ + h + "' is not usable as a field name"@,
        TableError::DuplicateColumn(n) => Seq::<char>::empty() + path + ": duplicate column "@ + n,
        TableError::RowWidth(r, got, want) => Seq::<char>::empty() + path + ": row "@ + decimal_chars(r as nat) + " has "@
            + decimal_chars(got as nat) + " fields, expected "@ + decimal_chars(want as nat),
        TableError::EmptyCell(r, n) => Seq::<char>::empty() + path + ": row "@ + decimal_chars(r as nat) + ", column "@ + n
            + " is empty"@,
    }
}

impl TableError {
    /// What the error says of the file at `path`.
    pub fn message(&self, path: &str) -> (s: String)
        ensures
            s@ == table_message(self@, path@),
    {
        let mut out: Vec<char> = Vec::new();
        push_str_chars(&mut out, path);
        match self {
            TableError::UnterminatedQuote => {
                push_str_chars(&mut out, " has an unterminated quote");
            },
            TableError::Empty => {
                push_str_chars(&mut out, " is empty");
            },
            TableError::NoDataRows => {
                push_str_chars(&mut out, " has no data rows");
            },
            TableError::BadHeader(h) => {
                push_str_chars(&mut out, ": column header '");
                push_str_chars(&mut out, h.as_str());
                push_str_chars(&mut out, "' is not usable as a field name");
            },
            TableError::DuplicateColumn(n) => {
                push_str_chars(&mut out, ": duplicate column ");
                push_str_chars(&mut out, n.as_str());
            },
            TableError::RowWidth(r, got, want) => {
                push_str_chars(&mut out, ": row ");
                push_chars(&mut out, decimal_text(*r).as_slice());
                push_str_chars(&mut out, " has ");
                push_chars(&mut out, decimal_text(*got).as_slice());
                push_str_chars(&mut out, " fields, expected ");
                push_chars(&mut out, decimal_text(*want).as_slice());
            },
            TableError::EmptyCell(r, n) => {
                push_str_chars(&mut out, ": row ");
                push_chars(&mut out, decimal_text(*r).as_slice());
                push_str_chars(&mut out, ", column ");
                push_str_chars(&mut out, n.as_str());
                push_str_chars(&mut out, " is empty");
            },
        }
        string_from_chars(out.as_slice())
    }
}

} // verus!
