use vstd::prelude::*;

use crate::lexer::{Tok, TokV};
use crate::strs::{chars_of, digits_value, is_digit_char, lemma_digits_value_mono, str_eq};
use crate::table::strings_view;

verus! {

/// The arithmetic operators of the language.
#[derive(Debug, Clone, Copy, PartialEq, Eq, Structural)]
pub enum Op {
    Add,
    Sub,
    Mul,
    Div,
}

/// The StableHLO elementwise operation of each operator.
pub open spec fn op_name_spec(op: Op) -> Seq<char> {
    match op {
        Op::Add => seq!['a', 'd', 'd'],
        Op::Sub => seq!['s', 'u', 'b', 't', 'r', 'a', 'c', 't'],
        Op::Mul => seq!['m', 'u', 'l', 't', 'i', 'p', 'l', 'y'],
        Op::Div => seq!['d', 'i', 'v', 'i', 'd', 'e'],
    }
}

impl Op {
    /// The StableHLO elementwise operation the operator traces to.
    pub fn name(self) -> (s: &'static str)
        ensures
            s@ == op_name_spec(self),
    {
        match self {
            Op::Add => {
                proof {
                    reveal_strlit("add");
                }
                "add"
            },
            Op::Sub => {
                proof {
                    reveal_strlit("subtract");
                }
                "subtract"
            },
            Op::Mul => {
                proof {
                    reveal_strlit("multiply");
                }
                "multiply"
            },
            Op::Div => {
                proof {
                    reveal_strlit("divide");
                }
                "divide"
            },
        }
    }
}


/// An expression of the language. Literal and name texts are `String` here.
#[derive(Debug, PartialEq)]
pub enum Expr {
    /// A number literal, as written.
    Num(String),
    Str(String),
    Arr(Vec<Expr>),
    RecordLit(Vec<(String, Expr)>),
    Field(Box<Expr>, String),
    Var(String),
    Neg(Box<Expr>),
    Bin(Op, Box<Expr>, Box<Expr>),
    /// A comparison: its direction (`LT`, `GT`, `LE`, `GE`, `EQ` or `NE`) and operands.
    Cmp(String, Box<Expr>, Box<Expr>),
    Let(String, Box<Expr>, Box<Expr>),
    /// A loop: variable, range start and end, body statements (each bound to a name or
    /// not), and the expression after the loop.
    For(String, usize, usize, Vec<(Option<String>, Expr)>, Box<Expr>),
    Call(String, Vec<Expr>),
    /// One expression, then the rest.
    Then(Box<Expr>, Box<Expr>),
}

/// An expression as specifications see it.
pub enum ExprV {
    Num(Seq<char>),
    Str(Seq<char>),
    Arr(Seq<ExprV>),
    RecordLit(Seq<(Seq<char>, ExprV)>),
    Field(Box<ExprV>, Seq<char>),
    Var(Seq<char>),
    Neg(Box<ExprV>),
    Bin(Op, Box<ExprV>, Box<ExprV>),
    Cmp(Seq<char>, Box<ExprV>, Box<ExprV>),
    Let(Seq<char>, Box<ExprV>, Box<ExprV>),
    For(Seq<char>, usize, usize, Seq<(Option<Seq<char>>, ExprV)>, Box<ExprV>),
    Call(Seq<char>, Seq<ExprV>),
    Then(Box<ExprV>, Box<ExprV>),
}

pub open spec fn expr_view(e: Expr) -> ExprV
    decreases e,
{
    match e {
        Expr::Num(t) => ExprV::Num(t@),
        Expr::Str(t) => ExprV::Str(t@),
        Expr::Arr(items) => ExprV::Arr(exprs_view(items@)),
        Expr::RecordLit(fields) => ExprV::RecordLit(named_view(fields@)),
        Expr::Field(b, n) => ExprV::Field(Box::new(expr_view(*b)), n@),
        Expr::Var(n) => ExprV::Var(n@),
        Expr::Neg(b) => ExprV::Neg(Box::new(expr_view(*b))),
        Expr::Bin(op, a, b) => ExprV::Bin(op, Box::new(expr_view(*a)), Box::new(expr_view(*b))),
        Expr::Cmp(d, a, b) => ExprV::Cmp(d@, Box::new(expr_view(*a)), Box::new(expr_view(*b))),
        Expr::Let(n, a, b) => ExprV::Let(n@, Box::new(expr_view(*a)), Box::new(expr_view(*b))),
        Expr::For(v, a, b, stmts, rest) => ExprV::For(v@, a, b, stmts_view(stmts@), Box::new(expr_view(*rest))),
        Expr::Call(n, args) => ExprV::Call(n@, exprs_view(args@)),
        Expr::Then(a, b) => ExprV::Then(Box::new(expr_view(*a)), Box::new(expr_view(*b))),
    }
}

pub open spec fn exprs_view(s: Seq<Expr>) -> Seq<ExprV>
    decreases s,
{
    if s.len() == 0 {
        seq![]
    } else {
        exprs_view(s.drop_last()).push(expr_view(s.last()))
    }
}

pub open spec fn named_view(s: Seq<(String, Expr)>) -> Seq<(Seq<char>, ExprV)>
    decreases s,
{
    if s.len() == 0 {
        seq![]
    } else {
        named_view(s.drop_last()).push((s.last().0@, expr_view(s.last().1)))
    }
}

pub open spec fn opt_name(n: Option<String>) -> Option<Seq<char>> {
    match n {
        Some(s) => Some(s@),
        None => None,
    }
}

pub open spec fn stmts_view(s: Seq<(Option<String>, Expr)>) -> Seq<(Option<Seq<char>>, ExprV)>
    decreases s,
{
    if s.len() == 0 {
        seq![]
    } else {
        stmts_view(s.drop_last()).push((opt_name(s.last().0), expr_view(s.last().1)))
    }
}

/// What the parser expected where it found something else.
#[derive(Debug, Clone, Copy, PartialEq, Eq, Structural)]
pub enum Want {
    FunctionName,
    LParenAfterName,
    Parameter,
    RParenOrComma,
    ColonAfterParameters,
    BindingName,
    LoopVariable,
    InAfterVariable,
    RangeStart,
    DotDot,
    RangeEnd,
    ColonAfterRange,
    FieldNameAfterDot,
    RParen,
    RBracketOrComma,
    RecordFieldName,
    ColonAfterField,
    RBraceOrComma,
}

/// Why a program does not parse; names are `String` in running code and `Seq<char>` in
/// specifications.
#[derive(Debug, Clone, PartialEq)]
pub enum ParseError<S = String> {
    /// What was expected, and the token found instead (none at the end).
    Expected(Want, Option<Tok<S>>),
    /// An integer literal was expected (a range bound), and this was found.
    NotInteger(Want, Option<Tok<S>>),
    UnexpectedToken(Option<Tok<S>>),
    DuplicateFunction(S),
    /// A function declared without parameters.
    NoParameters(S),
    /// A binding with nothing after it.
    BindingWithoutBody(S),
    ForBodyNotIndented,
    ForWithoutBody,
    DuplicateField(S),
    EmptyRecord,
    NoExpressions,
}

pub open spec fn opt_tok_view(t: Option<Tok>) -> Option<TokV> {
    match t {
        Some(k) => Some(k@),
        None => None,
    }
}

impl View for ParseError<String> {
    type V = ParseError<Seq<char>>;

    open spec fn view(&self) -> ParseError<Seq<char>> {
        match self {
            ParseError::Expected(w, t) => ParseError::Expected(*w, opt_tok_view(*t)),
            ParseError::NotInteger(w, t) => ParseError::NotInteger(*w, opt_tok_view(*t)),
            ParseError::UnexpectedToken(t) => ParseError::UnexpectedToken(opt_tok_view(*t)),
            ParseError::DuplicateFunction(s) => ParseError::DuplicateFunction(s@),
            ParseError::NoParameters(s) => ParseError::NoParameters(s@),
            ParseError::BindingWithoutBody(s) => ParseError::BindingWithoutBody(s@),
            ParseError::ForBodyNotIndented => ParseError::ForBodyNotIndented,
            ParseError::ForWithoutBody => ParseError::ForWithoutBody,
            ParseError::DuplicateField(s) => ParseError::DuplicateField(s@),
            ParseError::EmptyRecord => ParseError::EmptyRecord,
            ParseError::NoExpressions => ParseError::NoExpressions,
        }
    }
}


/// The token at `pos`, if there is one.
pub open spec fn tok_at(toks: Seq<TokV>, pos: int) -> Option<TokV> {
    if 0 <= pos < toks.len() {
        Some(toks[pos])
    } else {
        None
    }
}

/// A name at `pos`, and the position after it.
pub open spec fn ident_at(toks: Seq<TokV>, pos: int, want: Want) -> Result<(Seq<char>, int), ParseError<Seq<char>>> {
    match tok_at(toks, pos) {
        Some(Tok::Ident(s)) => Ok((s, pos + 1)),
        t => Err(ParseError::Expected(want, t)),
    }
}

/// The position after the token `t` at `pos`.
pub open spec fn expect_at(toks: Seq<TokV>, pos: int, t: TokV, want: Want) -> Result<int, ParseError<Seq<char>>> {
    if tok_at(toks, pos) == Some(t) {
        Ok(pos + 1)
    } else {
        Err(ParseError::Expected(want, tok_at(toks, pos)))
    }
}

/// The direction a comparison token names.
pub open spec fn cmp_dir(t: Option<TokV>) -> Option<Seq<char>> {
    match t {
        Some(Tok::Lt) => Some(seq!['L', 'T']),
        Some(Tok::Gt) => Some(seq!['G', 'T']),
        Some(Tok::Le) => Some(seq!['L', 'E']),
        Some(Tok::Ge) => Some(seq!['G', 'E']),
        Some(Tok::EqEq) => Some(seq!['E', 'Q']),
        Some(Tok::Ne) => Some(seq!['N', 'E']),
        _ => None,
    }
}

/// Whether `p` lies between `pos` and the end: the parse moved forward. Parses only move
/// forward; the checks on it keep the definitions well founded.
pub open spec fn forward(toks: Seq<TokV>, pos: int, p: int) -> bool {
    pos <= p <= toks.len()
}

/// An expression at `pos`: a sum, optionally compared with another.
pub open spec fn p_expr(toks: Seq<TokV>, pos: int) -> Result<(ExprV, int), ParseError<Seq<char>>>
    decreases toks.len() - pos, 9int,
{
    match p_add_sub(toks, pos) {
        Err(e) => Err(e),
        Ok((lhs, p1)) => match cmp_dir(tok_at(toks, p1)) {
            None => Ok((lhs, p1)),
            Some(dir) => if forward(toks, pos, p1) {
                match p_add_sub(toks, p1 + 1) {
                    Err(e) => Err(e),
                    Ok((rhs, p2)) => Ok((ExprV::Cmp(dir, Box::new(lhs), Box::new(rhs)), p2)),
                }
            } else {
                Ok((lhs, p1))
            },
        },
    }
}

/// Terms joined by `+` and `-`, left to right.
pub open spec fn p_add_sub(toks: Seq<TokV>, pos: int) -> Result<(ExprV, int), ParseError<Seq<char>>>
    decreases toks.len() - pos, 8int,
{
    match p_mul_div(toks, pos) {
        Err(e) => Err(e),
        Ok((lhs, p1)) => if forward(toks, pos, p1) {
            p_add_rest(toks, lhs, p1)
        } else {
            Ok((lhs, p1))
        },
    }
}

pub open spec fn add_op(t: Option<TokV>) -> Option<Op> {
    match t {
        Some(Tok::Plus) => Some(Op::Add),
        Some(Tok::Minus) => Some(Op::Sub),
        _ => None,
    }
}

pub open spec fn mul_op(t: Option<TokV>) -> Option<Op> {
    match t {
        Some(Tok::Star) => Some(Op::Mul),
        Some(Tok::Slash) => Some(Op::Div),
        _ => None,
    }
}

/// More `+` and `-` terms after `lhs`.
pub open spec fn p_add_rest(toks: Seq<TokV>, lhs: ExprV, pos: int) -> Result<(ExprV, int), ParseError<Seq<char>>>
    decreases toks.len() - pos, 6int,
{
    match add_op(tok_at(toks, pos)) {
        None => Ok((lhs, pos)),
        Some(op) => match p_mul_div(toks, pos + 1) {
            Err(e) => Err(e),
            Ok((rhs, p2)) => if forward(toks, pos + 1, p2) {
                p_add_rest(toks, ExprV::Bin(op, Box::new(lhs), Box::new(rhs)), p2)
            } else {
                Ok((ExprV::Bin(op, Box::new(lhs), Box::new(rhs)), p2))
            },
        },
    }
}

/// Factors joined by `*` and `/`, left to right.
pub open spec fn p_mul_div(toks: Seq<TokV>, pos: int) -> Result<(ExprV, int), ParseError<Seq<char>>>
    decreases toks.len() - pos, 7int,
{
    match p_unary(toks, pos) {
        Err(e) => Err(e),
        Ok((lhs, p1)) => if forward(toks, pos, p1) {
            p_mul_rest(toks, lhs, p1)
        } else {
            Ok((lhs, p1))
        },
    }
}

/// More `*` and `/` factors after `lhs`.
pub open spec fn p_mul_rest(toks: Seq<TokV>, lhs: ExprV, pos: int) -> Result<(ExprV, int), ParseError<Seq<char>>>
    decreases toks.len() - pos, 4int,
{
    match mul_op(tok_at(toks, pos)) {
        None => Ok((lhs, pos)),
        Some(op) => match p_unary(toks, pos + 1) {
            Err(e) => Err(e),
            Ok((rhs, p2)) => if forward(toks, pos + 1, p2) {
                p_mul_rest(toks, ExprV::Bin(op, Box::new(lhs), Box::new(rhs)), p2)
            } else {
                Ok((ExprV::Bin(op, Box::new(lhs), Box::new(rhs)), p2))
            },
        },
    }
}

/// A factor, negated by each leading `-`.
pub open spec fn p_unary(toks: Seq<TokV>, pos: int) -> Result<(ExprV, int), ParseError<Seq<char>>>
    decreases toks.len() - pos, 5int,
{
    if tok_at(toks, pos) == Some(Tok::<Seq<char>>::Minus) {
        match p_unary(toks, pos + 1) {
            Err(e) => Err(e),
            Ok((e, p)) => Ok((ExprV::Neg(Box::new(e)), p)),
        }
    } else {
        p_postfix(toks, pos)
    }
}

/// An atom followed by field accesses.
pub open spec fn p_postfix(toks: Seq<TokV>, pos: int) -> Result<(ExprV, int), ParseError<Seq<char>>>
    decreases toks.len() - pos, 3int,
{
    match p_atom(toks, pos) {
        Err(e) => Err(e),
        Ok((e, p1)) => if forward(toks, pos, p1) {
            p_fields_after(toks, e, p1)
        } else {
            Ok((e, p1))
        },
    }
}

/// Field accesses `.name` after `e`.
pub open spec fn p_fields_after(toks: Seq<TokV>, e: ExprV, pos: int) -> Result<(ExprV, int), ParseError<Seq<char>>>
    decreases toks.len() - pos, 1int,
{
    if tok_at(toks, pos) == Some(Tok::<Seq<char>>::Dot) {
        match ident_at(toks, pos + 1, Want::FieldNameAfterDot) {
            Err(err) => Err(err),
            Ok((name, p)) => p_fields_after(toks, ExprV::Field(Box::new(e), name), p),
        }
    } else {
        Ok((e, pos))
    }
}

/// A comma-separated list of expressions up to `close`, which ends it; `want` names the
/// closing token in errors.
pub open spec fn p_list(toks: Seq<TokV>, pos: int, close: TokV, want: Want) -> Result<
    (Seq<ExprV>, int),
    ParseError<Seq<char>>,
>
    decreases toks.len() - pos, 10int,
{
    if tok_at(toks, pos) == Some(close) {
        Ok((seq![], pos + 1))
    } else {
        match p_expr(toks, pos) {
            Err(e) => Err(e),
            Ok((first, p1)) => if forward(toks, pos, p1) {
                p_list_rest(toks, seq![first], p1, close, want)
            } else {
                Ok((seq![first], p1))
            },
        }
    }
}

/// The rest of a list after the items `acc`: `, item` repeated, then `close`.
pub open spec fn p_list_rest(toks: Seq<TokV>, acc: Seq<ExprV>, pos: int, close: TokV, want: Want) -> Result<
    (Seq<ExprV>, int),
    ParseError<Seq<char>>,
>
    decreases toks.len() - pos, 0int,
{
    if tok_at(toks, pos) == Some(Tok::<Seq<char>>::Comma) {
        match p_expr(toks, pos + 1) {
            Err(e) => Err(e),
            Ok((item, p1)) => if forward(toks, pos + 1, p1) {
                p_list_rest(toks, acc.push(item), p1, close, want)
            } else {
                Ok((acc.push(item), p1))
            },
        }
    } else {
        match expect_at(toks, pos, close, want) {
            Err(e) => Err(e),
            Ok(p) => Ok((acc, p)),
        }
    }
}

/// Whether a record already has a field of this name.
pub open spec fn has_field(fields: Seq<(Seq<char>, ExprV)>, name: Seq<char>) -> bool {
    exists|i: int| 0 <= i < fields.len() && #[trigger] fields[i].0 == name
}

/// Record fields `name: value` separated by commas, after the fields `acc`.
pub open spec fn p_record(toks: Seq<TokV>, acc: Seq<(Seq<char>, ExprV)>, pos: int) -> Result<
    (Seq<(Seq<char>, ExprV)>, int),
    ParseError<Seq<char>>,
>
    decreases toks.len() - pos, 0int,
{
    match ident_at(toks, pos, Want::RecordFieldName) {
        Err(e) => Err(e),
        Ok((name, p1)) => if has_field(acc, name) {
            Err(ParseError::DuplicateField(name))
        } else {
            match expect_at(toks, p1, Tok::Colon, Want::ColonAfterField) {
                Err(e) => Err(e),
                Ok(p2) => match p_expr(toks, p2) {
                    Err(e) => Err(e),
                    Ok((v, p3)) => if tok_at(toks, p3) == Some(Tok::<Seq<char>>::Comma) && forward(toks, pos, p3) {
                        p_record(toks, acc.push((name, v)), p3 + 1)
                    } else {
                        Ok((acc.push((name, v)), p3))
                    },
                },
            }
        },
    }
}

/// A literal, a name or call, a parenthesized expression, an array or a record.
pub open spec fn p_atom(toks: Seq<TokV>, pos: int) -> Result<(ExprV, int), ParseError<Seq<char>>>
    decreases toks.len() - pos, 2int,
{
    match tok_at(toks, pos) {
        Some(Tok::Num(n)) => Ok((ExprV::Num(n), pos + 1)),
        Some(Tok::Str(s)) => Ok((ExprV::Str(s), pos + 1)),
        Some(Tok::Ident(s)) => if tok_at(toks, pos + 1) == Some(Tok::<Seq<char>>::LParen) {
            match p_list(toks, pos + 2, Tok::RParen, Want::RParenOrComma) {
                Err(e) => Err(e),
                Ok((args, p)) => Ok((ExprV::Call(s, args), p)),
            }
        } else {
            Ok((ExprV::Var(s), pos + 1))
        },
        Some(Tok::LParen) => match p_expr(toks, pos + 1) {
            Err(e) => Err(e),
            Ok((e, p1)) => match expect_at(toks, p1, Tok::RParen, Want::RParen) {
                Err(err) => Err(err),
                Ok(p2) => Ok((e, p2)),
            },
        },
        Some(Tok::LBracket) => match p_list(toks, pos + 1, Tok::RBracket, Want::RBracketOrComma) {
            Err(e) => Err(e),
            Ok((items, p)) => Ok((ExprV::Arr(items), p)),
        },
        Some(Tok::LBrace) => if tok_at(toks, pos + 1) == Some(Tok::<Seq<char>>::RBrace) {
            Err(ParseError::EmptyRecord)
        } else {
            match p_record(toks, seq![], pos + 1) {
                Err(e) => Err(e),
                Ok((fields, p1)) => match expect_at(toks, p1, Tok::RBrace, Want::RBraceOrComma) {
                    Err(e) => Err(e),
                    Ok(p2) => Ok((ExprV::RecordLit(fields), p2)),
                },
            }
        },
        t => Err(ParseError::UnexpectedToken(t)),
    }
}


/// A declared function: its parameters and body.
#[derive(Debug, PartialEq)]
pub struct Decl {
    pub params: Vec<String>,
    pub body: Expr,
}

/// A parsed program: its functions, in the order they are declared, and its main
/// expression, which joins every top-level expression in order.
#[derive(Debug, PartialEq)]
pub struct Program {
    pub fns: Vec<(String, Decl)>,
    pub main: Expr,
}

pub struct DeclV {
    pub params: Seq<Seq<char>>,
    pub body: ExprV,
}

pub struct ProgramV {
    pub fns: Seq<(Seq<char>, DeclV)>,
    pub main: ExprV,
}

pub open spec fn decl_view(d: Decl) -> DeclV {
    DeclV { params: strings_view(d.params@), body: expr_view(d.body) }
}

pub open spec fn decls_view(s: Seq<(String, Decl)>) -> Seq<(Seq<char>, DeclV)> {
    Seq::new(s.len(), |i: int| (s[i].0@, decl_view(s[i].1)))
}

pub open spec fn program_view(p: Program) -> ProgramV {
    ProgramV { fns: decls_view(p.fns@), main: expr_view(p.main) }
}

/// Whether no two functions share a name.
pub open spec fn distinct_names(fns: Seq<(Seq<char>, DeclV)>) -> bool {
    forall|i: int, j: int| 0 <= i < j < fns.len() ==> #[trigger] fns[i].0 != #[trigger] fns[j].0
}

/// The tokens of a program with the column and the line each starts at.
pub struct SrcV {
    pub toks: Seq<TokV>,
    pub cols: Seq<usize>,
    pub lines: Seq<usize>,
}

/// Whether every token has a column and a line.
pub open spec fn src_ok(s: SrcV) -> bool {
    s.toks.len() <= s.cols.len() && s.toks.len() <= s.lines.len()
}

/// The column recorded at `pos`, or `dflt` where none is.
pub open spec fn col_or(s: SrcV, pos: int, dflt: int) -> int {
    if 0 <= pos < s.cols.len() {
        s.cols[pos] as int
    } else {
        dflt
    }
}

/// The line of the token before `pos`, or 0 at the start.
pub open spec fn prev_line(s: SrcV, pos: int) -> int {
    if pos > 0 {
        s.lines[pos - 1] as int
    } else {
        0
    }
}

/// Whether a body indented at `indent` goes on at `pos`: a token is there, it does not
/// start a function, and it stands on the line of the token before it or at the body's
/// indentation or deeper.
pub open spec fn continues(s: SrcV, pos: int, indent: int) -> bool {
    match tok_at(s.toks, pos) {
        None => false,
        Some(Tok::Fn) => false,
        Some(_) => s.lines[pos] == prev_line(s, pos) || s.cols[pos] >= indent,
    }
}

/// The name a binding `name =` at `pos` binds, if one starts there.
pub open spec fn binding_at(toks: Seq<TokV>, pos: int) -> Option<Seq<char>> {
    match tok_at(toks, pos) {
        Some(Tok::Ident(n)) => if tok_at(toks, pos + 1) == Some(Tok::<Seq<char>>::Eq) {
            Some(n)
        } else {
            None
        },
        _ => None,
    }
}

/// Where the expression of a statement at `pos` starts: after `name =`, if it binds one.
pub open spec fn value_start(toks: Seq<TokV>, pos: int) -> int {
    if binding_at(toks, pos) is Some {
        pos + 2
    } else {
        pos
    }
}

/// How many decimal digits stand at the start of `t` from `k` on.
pub open spec fn lead_digits(t: Seq<char>, k: int) -> nat
    decreases t.len() - k,
{
    if 0 <= k < t.len() && is_digit_char(t[k]) {
        1 + lead_digits(t, k + 1)
    } else {
        0
    }
}

/// The bound below which the language's numbers, doubles, hold every whole number.
pub open spec fn whole_limit() -> nat {
    0x20_0000_0000_0000
}

/// The whole number a literal's text gives: digits, optionally a dot and zeros, below
/// `whole_limit()` and fitting a `usize`.
pub open spec fn whole_text(t: Seq<char>) -> Option<nat> {
    let d = lead_digits(t, 0) as int;
    if d > 0 && (d == t.len() || (t[d] == '.' && forall|k: int| d < k < t.len() ==> t[k] == '0'))
        && digits_value(t.take(d)) < whole_limit() && digits_value(t.take(d)) <= usize::MAX {
        Some(digits_value(t.take(d)))
    } else {
        None
    }
}

/// A whole-number literal at `pos` (a range bound), and the position after it.
pub open spec fn whole_at(toks: Seq<TokV>, pos: int, want: Want) -> Result<(nat, int), ParseError<Seq<char>>> {
    match tok_at(toks, pos) {
        Some(Tok::Num(t)) => match whole_text(t) {
            Some(n) => Ok((n, pos + 1)),
            None => Err(ParseError::NotInteger(want, Some(Tok::Num(t)))),
        },
        t => Err(ParseError::NotInteger(want, t)),
    }
}

/// The statements of a loop body indented at `col`, from `pos` on, after the statements
/// `acc`.
pub open spec fn p_stmts(s: SrcV, col: int, pos: int, acc: Seq<(Option<Seq<char>>, ExprV)>) -> Result<
    (Seq<(Option<Seq<char>>, ExprV)>, int),
    ParseError<Seq<char>>,
>
    decreases s.toks.len() - pos,
{
    match p_expr(s.toks, value_start(s.toks, pos)) {
        Err(e) => Err(e),
        Ok((v, p1)) => if continues(s, p1, col) && forward(s.toks, pos + 1, p1) {
            p_stmts(s, col, p1, acc.push((binding_at(s.toks, pos), v)))
        } else {
            Ok((acc.push((binding_at(s.toks, pos), v)), p1))
        },
    }
}

/// The head `for name in start..end:` of a loop at `pos`: the variable, the bounds and the
/// position after the colon.
pub open spec fn for_head(toks: Seq<TokV>, pos: int) -> Result<(Seq<char>, nat, nat, int), ParseError<Seq<char>>> {
    match ident_at(toks, pos + 1, Want::LoopVariable) {
        Err(e) => Err(e),
        Ok((var, p1)) => match expect_at(toks, p1, Tok::In, Want::InAfterVariable) {
            Err(e) => Err(e),
            Ok(p2) => match whole_at(toks, p2, Want::RangeStart) {
                Err(e) => Err(e),
                Ok((start, p3)) => match expect_at(toks, p3, Tok::DotDot, Want::DotDot) {
                    Err(e) => Err(e),
                    Ok(p4) => match whole_at(toks, p4, Want::RangeEnd) {
                        Err(e) => Err(e),
                        Ok((end, p5)) => match expect_at(toks, p5, Tok::Colon, Want::ColonAfterRange) {
                            Err(e) => Err(e),
                            Ok(p6) => Ok((var, start, end, p6)),
                        },
                    },
                },
            },
        },
    }
}

/// A body indented at `indent`, at `pos`: a loop, a binding and the body after it, or an
/// expression and, where the body goes on, the rest after it.
pub open spec fn p_body(s: SrcV, indent: int, pos: int) -> Result<(ExprV, int), ParseError<Seq<char>>>
    decreases s.toks.len() - pos, 1int,
{
    if tok_at(s.toks, pos) == Some(Tok::<Seq<char>>::For) {
        p_for(s, indent, pos)
    } else {
        match binding_at(s.toks, pos) {
            Some(name) => match p_expr(s.toks, pos + 2) {
                Err(e) => Err(e),
                Ok((value, p1)) => if continues(s, p1, indent) && forward(s.toks, pos + 1, p1) {
                    match p_body(s, indent, p1) {
                        Err(e) => Err(e),
                        Ok((rest, p2)) => Ok((ExprV::Let(name, Box::new(value), Box::new(rest)), p2)),
                    }
                } else {
                    Err(ParseError::BindingWithoutBody(name))
                },
            },
            None => match p_expr(s.toks, pos) {
                Err(e) => Err(e),
                Ok((e, p1)) => if continues(s, p1, indent) && forward(s.toks, pos + 1, p1) {
                    match p_body(s, indent, p1) {
                        Err(err) => Err(err),
                        Ok((rest, p2)) => Ok((ExprV::Then(Box::new(e), Box::new(rest)), p2)),
                    }
                } else {
                    Ok((e, p1))
                },
            },
        }
    }
}

/// A loop at `pos`: its head, its statements, indented past the `for`, and the body
/// after it, which must go on at `indent`.
pub open spec fn p_for(s: SrcV, indent: int, pos: int) -> Result<(ExprV, int), ParseError<Seq<char>>>
    decreases s.toks.len() - pos, 0int,
{
    match for_head(s.toks, pos) {
        Err(e) => Err(e),
        Ok((var, start, end, p6)) => if col_or(s, p6, 0) <= s.cols[pos] {
            Err(ParseError::ForBodyNotIndented)
        } else {
            match p_stmts(s, col_or(s, p6, 0), p6, seq![]) {
                Err(e) => Err(e),
                Ok((stmts, p7)) => if continues(s, p7, indent) && forward(s.toks, pos + 1, p7) {
                    match p_body(s, indent, p7) {
                        Err(e) => Err(e),
                        Ok((rest, p8)) => Ok(
                            (ExprV::For(var, start as usize, end as usize, stmts, Box::new(rest)), p8),
                        ),
                    }
                } else {
                    Err(ParseError::ForWithoutBody)
                },
            }
        },
    }
}

/// Parameters `name` separated by commas, after the parameters `acc`.
pub open spec fn p_params(toks: Seq<TokV>, pos: int, acc: Seq<Seq<char>>) -> Result<(Seq<Seq<char>>, int), ParseError<Seq<char>>>
    decreases toks.len() - pos,
{
    match ident_at(toks, pos, Want::Parameter) {
        Err(e) => Err(e),
        Ok((n, p)) => if tok_at(toks, p) == Some(Tok::<Seq<char>>::Comma) && forward(toks, pos, p) {
            p_params(toks, p + 1, acc.push(n))
        } else {
            Ok((acc.push(n), p))
        },
    }
}

/// The parameter list at `pos`, up to (not past) the closing parenthesis.
pub open spec fn p_param_list(toks: Seq<TokV>, pos: int) -> Result<(Seq<Seq<char>>, int), ParseError<Seq<char>>> {
    if tok_at(toks, pos) == Some(Tok::<Seq<char>>::RParen) {
        Ok((seq![], pos))
    } else {
        p_params(toks, pos, seq![])
    }
}

/// A function declaration at `pos` (at its `fn`): its name, declaration and the position
/// after its body.
pub open spec fn p_decl(s: SrcV, pos: int) -> Result<(Seq<char>, DeclV, int), ParseError<Seq<char>>> {
    match ident_at(s.toks, pos + 1, Want::FunctionName) {
        Err(e) => Err(e),
        Ok((name, p1)) => match expect_at(s.toks, p1, Tok::LParen, Want::LParenAfterName) {
            Err(e) => Err(e),
            Ok(p2) => match p_param_list(s.toks, p2) {
                Err(e) => Err(e),
                Ok((params, p3)) => match expect_at(s.toks, p3, Tok::RParen, Want::RParenOrComma) {
                    Err(e) => Err(e),
                    Ok(p4) => match expect_at(s.toks, p4, Tok::Colon, Want::ColonAfterParameters) {
                        Err(e) => Err(e),
                        Ok(p5) => if params.len() == 0 {
                            Err(ParseError::NoParameters(name))
                        } else {
                            match p_body(s, col_or(s, p5, 1), p5) {
                                Err(e) => Err(e),
                                Ok((body, p6)) => Ok((name, DeclV { params, body }, p6)),
                            }
                        },
                    },
                },
            },
        },
    }
}

/// `b` appended to the end of the expression `a`: after the last statement of its bindings,
/// sequences and loops.
pub open spec fn joined(a: ExprV, b: ExprV) -> ExprV
    decreases a,
{
    match a {
        ExprV::Let(n, v, body) => ExprV::Let(n, v, Box::new(joined(*body, b))),
        ExprV::Then(first, rest) => ExprV::Then(first, Box::new(joined(*rest, b))),
        ExprV::For(var, st, en, stmts, rest) => ExprV::For(var, st, en, stmts, Box::new(joined(*rest, b))),
        other => ExprV::Then(Box::new(other), Box::new(b)),
    }
}

/// The top-level expressions joined in order, if there is any.
pub open spec fn join_all(ms: Seq<ExprV>) -> Option<ExprV>
    decreases ms.len(),
{
    if ms.len() == 0 {
        None
    } else if ms.len() == 1 {
        Some(ms[0])
    } else {
        match join_all(ms.drop_last()) {
            Some(m) => Some(joined(m, ms.last())),
            None => None,
        }
    }
}

/// Whether a function of this name is among `fns`.
pub open spec fn has_decl(fns: Seq<(Seq<char>, DeclV)>, name: Seq<char>) -> bool {
    exists|i: int| 0 <= i < fns.len() && #[trigger] fns[i].0 == name
}

/// The program from `pos` on, after the functions `fns` and top-level expressions `mains`.
pub open spec fn p_program(s: SrcV, pos: int, fns: Seq<(Seq<char>, DeclV)>, mains: Seq<ExprV>) -> Result<
    ProgramV,
    ParseError<Seq<char>>,
>
    decreases s.toks.len() - pos,
{
    match tok_at(s.toks, pos) {
        None => match join_all(mains) {
            None => Err(ParseError::NoExpressions),
            Some(main) => Ok(ProgramV { fns, main }),
        },
        Some(Tok::Fn) => match p_decl(s, pos) {
            Err(e) => Err(e),
            Ok((name, d, p)) => if has_decl(fns, name) {
                Err(ParseError::DuplicateFunction(name))
            } else if forward(s.toks, pos + 1, p) {
                p_program(s, p, fns.push((name, d)), mains)
            } else {
                Err(ParseError::NoExpressions)
            },
        },
        Some(_) => match p_body(s, s.cols[pos] as int, pos) {
            Err(e) => Err(e),
            Ok((e, p)) => if forward(s.toks, pos + 1, p) {
                p_program(s, p, fns, mains.push(e))
            } else {
                Err(ParseError::NoExpressions)
            },
        },
    }
}

pub open spec fn toks_view(v: Seq<Tok>) -> Seq<TokV> {
    Seq::new(v.len(), |i: int| v[i]@)
}

/// Whether a running parse `r` gave what the specification `s` says, ending at or after
/// `lo`.
pub open spec fn parsed(r: Result<(Expr, usize), ParseError>, s: Result<(ExprV, int), ParseError<Seq<char>>>, lo: int, len: int) -> bool {
    match s {
        Ok((v, p)) => r matches Ok((e, q)) && expr_view(e) == v && q == p && lo <= p <= len,
        Err(err) => r matches Err(e2) && e2@ == err,
    }
}

/// The same for a list of expressions.
pub open spec fn listed(r: Result<(Vec<Expr>, usize), ParseError>, s: Result<(Seq<ExprV>, int), ParseError<Seq<char>>>, lo: int, len: int) -> bool {
    match s {
        Ok((v, p)) => r matches Ok((items, q)) && exprs_view(items@) == v && q == p && lo <= p <= len,
        Err(err) => r matches Err(e2) && e2@ == err,
    }
}

/// The same for loop statements.
pub open spec fn stmted(r: Result<(Vec<(Option<String>, Expr)>, usize), ParseError>, s: Result<(Seq<(Option<Seq<char>>, ExprV)>, int), ParseError<Seq<char>>>, lo: int, len: int) -> bool {
    match s {
        Ok((v, p)) => r matches Ok((items, q)) && stmts_view(items@) == v && q == p && lo <= p <= len,
        Err(err) => r matches Err(e2) && e2@ == err,
    }
}

pub open spec fn src_view(toks: Seq<Tok>, cols: Seq<usize>, lines: Seq<usize>) -> SrcV {
    SrcV { toks: toks_view(toks), cols, lines }
}

/// The same for record fields.
pub open spec fn fielded(r: Result<(Vec<(String, Expr)>, usize), ParseError>, s: Result<(Seq<(Seq<char>, ExprV)>, int), ParseError<Seq<char>>>, lo: int, len: int) -> bool {
    match s {
        Ok((v, p)) => r matches Ok((items, q)) && named_view(items@) == v && q == p && lo <= p <= len,
        Err(err) => r matches Err(e2) && e2@ == err,
    }
}

proof fn lemma_exprs_view_push(s: Seq<Expr>, e: Expr)
    ensures
        exprs_view(s.push(e)) == exprs_view(s).push(expr_view(e)),
{
    assert(s.push(e).drop_last() =~= s);
}

proof fn lemma_named_view_push(s: Seq<(String, Expr)>, f: (String, Expr))
    ensures
        named_view(s.push(f)) == named_view(s).push((f.0@, expr_view(f.1))),
{
    assert(s.push(f).drop_last() =~= s);
}

proof fn lemma_stmts_view_push(s: Seq<(Option<String>, Expr)>, f: (Option<String>, Expr))
    ensures
        stmts_view(s.push(f)) == stmts_view(s).push((opt_name(f.0), expr_view(f.1))),
{
    assert(s.push(f).drop_last() =~= s);
}

proof fn lemma_lead_digits(t: Seq<char>, k: int)
    requires
        0 <= k <= t.len(),
    ensures
        k + lead_digits(t, k) <= t.len(),
        forall|i: int| k <= i < k + lead_digits(t, k) ==> is_digit_char(#[trigger] t[i]),
    decreases t.len() - k,
{
    if k < t.len() && is_digit_char(t[k]) {
        lemma_lead_digits(t, k + 1);
    }
}

proof fn lemma_named_view_index(s: Seq<(String, Expr)>)
    ensures
        named_view(s).len() == s.len(),
        forall|i: int| 0 <= i < s.len() ==> (#[trigger] named_view(s)[i]).0 == s[i].0@,
    decreases s.len(),
{
    if s.len() > 0 {
        lemma_named_view_index(s.drop_last());
    }
}

/// A copy of a token.
pub fn tok_copy(t: &Tok) -> (r: Tok)
    ensures
        r@ == t@,
{
    match t {
        Tok::Num(s) => Tok::Num(s.clone()),
        Tok::Str(s) => Tok::Str(s.clone()),
        Tok::Ident(s) => Tok::Ident(s.clone()),
        Tok::Fn => Tok::Fn,
        Tok::For => Tok::For,
        Tok::In => Tok::In,
        Tok::DotDot => Tok::DotDot,
        Tok::Eq => Tok::Eq,
        Tok::Lt => Tok::Lt,
        Tok::Gt => Tok::Gt,
        Tok::Le => Tok::Le,
        Tok::Ge => Tok::Ge,
        Tok::EqEq => Tok::EqEq,
        Tok::Ne => Tok::Ne,
        Tok::Plus => Tok::Plus,
        Tok::Minus => Tok::Minus,
        Tok::Star => Tok::Star,
        Tok::Slash => Tok::Slash,
        Tok::LParen => Tok::LParen,
        Tok::RParen => Tok::RParen,
        Tok::LBracket => Tok::LBracket,
        Tok::RBracket => Tok::RBracket,
        Tok::LBrace => Tok::LBrace,
        Tok::RBrace => Tok::RBrace,
        Tok::Comma => Tok::Comma,
        Tok::Colon => Tok::Colon,
        Tok::Dot => Tok::Dot,
    }
}

/// The token at `pos`, copied, if there is one.
fn tok_opt(toks: &Vec<Tok>, pos: usize) -> (r: Option<Tok>)
    ensures
        opt_tok_view(r) == tok_at(toks_view(toks@), pos as int),
{
    if pos < toks.len() {
        Some(tok_copy(&toks[pos]))
    } else {
        None
    }
}

/// The name at `pos`.
fn ident(toks: &Vec<Tok>, pos: usize, want: Want) -> (r: Result<(String, usize), ParseError>)
    ensures
        match ident_at(toks_view(toks@), pos as int, want) {
            Ok((n, p)) => r matches Ok((s, q)) && s@ == n && q == p && p <= toks@.len(),
            Err(e) => r matches Err(e2) && e2@ == e,
        },
        r matches Ok((s, q)) ==> q == pos + 1 && q <= toks.len(),
{
    if pos < toks.len() {
        match &toks[pos] {
            Tok::Ident(s) => {
                return Ok((s.clone(), pos + 1));
            },
            _ => {},
        }
    }
    Err(ParseError::Expected(want, tok_opt(toks, pos)))
}

/// Whether the token at `pos` is a simple token of the same kind as `t`.
fn tok_is(toks: &Vec<Tok>, pos: usize, t: &Tok) -> (b: bool)
    requires
        !(t is Num || t is Str || t is Ident),
    ensures
        b == (tok_at(toks_view(toks@), pos as int) == Some(t@)),
        b ==> pos < toks.len(),
{
    if pos >= toks.len() {
        return false;
    }
    let k = &toks[pos];
    match (k, t) {
        (Tok::Fn, Tok::Fn) => true,
        (Tok::For, Tok::For) => true,
        (Tok::In, Tok::In) => true,
        (Tok::DotDot, Tok::DotDot) => true,
        (Tok::Eq, Tok::Eq) => true,
        (Tok::Lt, Tok::Lt) => true,
        (Tok::Gt, Tok::Gt) => true,
        (Tok::Le, Tok::Le) => true,
        (Tok::Ge, Tok::Ge) => true,
        (Tok::EqEq, Tok::EqEq) => true,
        (Tok::Ne, Tok::Ne) => true,
        (Tok::Plus, Tok::Plus) => true,
        (Tok::Minus, Tok::Minus) => true,
        (Tok::Star, Tok::Star) => true,
        (Tok::Slash, Tok::Slash) => true,
        (Tok::LParen, Tok::LParen) => true,
        (Tok::RParen, Tok::RParen) => true,
        (Tok::LBracket, Tok::LBracket) => true,
        (Tok::RBracket, Tok::RBracket) => true,
        (Tok::LBrace, Tok::LBrace) => true,
        (Tok::RBrace, Tok::RBrace) => true,
        (Tok::Comma, Tok::Comma) => true,
        (Tok::Colon, Tok::Colon) => true,
        (Tok::Dot, Tok::Dot) => true,
        _ => false,
    }
}

/// The position after the simple token `t` at `pos`.
fn expect(toks: &Vec<Tok>, pos: usize, t: &Tok, want: Want) -> (r: Result<usize, ParseError>)
    requires
        !(t is Num || t is Str || t is Ident),
    ensures
        match expect_at(toks_view(toks@), pos as int, t@, want) {
            Ok(p) => r == Ok::<usize, ParseError>(p as usize) && p <= toks@.len(),
            Err(e) => r matches Err(e2) && e2@ == e,
        },
        r matches Ok(q) ==> q == pos + 1 && q <= toks.len(),
{
    if pos < toks.len() && tok_is(toks, pos, t) {
        Ok(pos + 1)
    } else {
        Err(ParseError::Expected(want, tok_opt(toks, pos)))
    }
}

/// Whether a field of this name is among `fields`.
fn has_name(fields: &Vec<(String, Expr)>, name: &String) -> (b: bool)
    ensures
        b == has_field(named_view(fields@), name@),
{
    proof {
        lemma_named_view_index(fields@);
    }
    let mut i: usize = 0;
    while i < fields.len()
        invariant
            i <= fields@.len(),
            named_view(fields@).len() == fields@.len(),
            forall|k: int| 0 <= k < fields@.len() ==> (#[trigger] named_view(fields@)[k]).0 == fields@[k].0@,
            forall|k: int| 0 <= k < i ==> (#[trigger] named_view(fields@)[k]).0 != name@,
        decreases fields.len() - i,
    {
        if str_eq(fields[i].0.as_str(), name.as_str()) {
            assert(named_view(fields@)[i as int].0 == name@);
            return true;
        }
        i = i + 1;
    }
    false
}

/// An expression at `pos`.
fn expr_at(toks: &Vec<Tok>, pos: usize) -> (r: Result<(Expr, usize), ParseError>)
    requires
        pos <= toks.len(),
    ensures
        parsed(r, p_expr(toks_view(toks@), pos as int), pos + 1, toks@.len() as int),
    decreases toks@.len() - pos, 9int,
{
    let (lhs, p1) = match add_sub_at(toks, pos) {
        Err(e) => {
            return Err(e);
        },
        Ok(x) => x,
    };
    let dir = if tok_is(toks, p1, &Tok::Lt) {
        proof {
            reveal_strlit("LT");
        }
        let d = "LT".to_owned();
        assert(d@ =~= seq!['L', 'T']);
        d
    } else if tok_is(toks, p1, &Tok::Gt) {
        proof {
            reveal_strlit("GT");
        }
        let d = "GT".to_owned();
        assert(d@ =~= seq!['G', 'T']);
        d
    } else if tok_is(toks, p1, &Tok::Le) {
        proof {
            reveal_strlit("LE");
        }
        let d = "LE".to_owned();
        assert(d@ =~= seq!['L', 'E']);
        d
    } else if tok_is(toks, p1, &Tok::Ge) {
        proof {
            reveal_strlit("GE");
        }
        let d = "GE".to_owned();
        assert(d@ =~= seq!['G', 'E']);
        d
    } else if tok_is(toks, p1, &Tok::EqEq) {
        proof {
            reveal_strlit("EQ");
        }
        let d = "EQ".to_owned();
        assert(d@ =~= seq!['E', 'Q']);
        d
    } else if tok_is(toks, p1, &Tok::Ne) {
        proof {
            reveal_strlit("NE");
        }
        let d = "NE".to_owned();
        assert(d@ =~= seq!['N', 'E']);
        d
    } else {
        return Ok((lhs, p1));
    };
    match add_sub_at(toks, p1 + 1) {
        Err(e) => Err(e),
        Ok((rhs, p2)) => Ok((Expr::Cmp(dir, Box::new(lhs), Box::new(rhs)), p2)),
    }
}

/// Terms joined by `+` and `-` at `pos`.
fn add_sub_at(toks: &Vec<Tok>, pos: usize) -> (r: Result<(Expr, usize), ParseError>)
    requires
        pos <= toks.len(),
    ensures
        parsed(r, p_add_sub(toks_view(toks@), pos as int), pos + 1, toks@.len() as int),
    decreases toks@.len() - pos, 8int,
{
    match mul_div_at(toks, pos) {
        Err(e) => Err(e),
        Ok((lhs, p1)) => add_rest(toks, lhs, p1),
    }
}

/// More `+` and `-` terms after `lhs`.
fn add_rest(toks: &Vec<Tok>, lhs: Expr, pos: usize) -> (r: Result<(Expr, usize), ParseError>)
    requires
        pos <= toks.len(),
    ensures
        parsed(r, p_add_rest(toks_view(toks@), expr_view(lhs), pos as int), pos as int, toks@.len() as int),
    decreases toks@.len() - pos, 6int,
{
    let op = if tok_is(toks, pos, &Tok::Plus) {
        Op::Add
    } else if tok_is(toks, pos, &Tok::Minus) {
        Op::Sub
    } else {
        return Ok((lhs, pos));
    };
    match mul_div_at(toks, pos + 1) {
        Err(e) => Err(e),
        Ok((rhs, p2)) => add_rest(toks, Expr::Bin(op, Box::new(lhs), Box::new(rhs)), p2),
    }
}

/// Factors joined by `*` and `/` at `pos`.
fn mul_div_at(toks: &Vec<Tok>, pos: usize) -> (r: Result<(Expr, usize), ParseError>)
    requires
        pos <= toks.len(),
    ensures
        parsed(r, p_mul_div(toks_view(toks@), pos as int), pos + 1, toks@.len() as int),
    decreases toks@.len() - pos, 7int,
{
    match unary_at(toks, pos) {
        Err(e) => Err(e),
        Ok((lhs, p1)) => mul_rest(toks, lhs, p1),
    }
}

/// More `*` and `/` factors after `lhs`.
fn mul_rest(toks: &Vec<Tok>, lhs: Expr, pos: usize) -> (r: Result<(Expr, usize), ParseError>)
    requires
        pos <= toks.len(),
    ensures
        parsed(r, p_mul_rest(toks_view(toks@), expr_view(lhs), pos as int), pos as int, toks@.len() as int),
    decreases toks@.len() - pos, 4int,
{
    let op = if tok_is(toks, pos, &Tok::Star) {
        Op::Mul
    } else if tok_is(toks, pos, &Tok::Slash) {
        Op::Div
    } else {
        return Ok((lhs, pos));
    };
    match unary_at(toks, pos + 1) {
        Err(e) => Err(e),
        Ok((rhs, p2)) => mul_rest(toks, Expr::Bin(op, Box::new(lhs), Box::new(rhs)), p2),
    }
}

/// A factor at `pos`, negated by each leading `-`.
fn unary_at(toks: &Vec<Tok>, pos: usize) -> (r: Result<(Expr, usize), ParseError>)
    requires
        pos <= toks.len(),
    ensures
        parsed(r, p_unary(toks_view(toks@), pos as int), pos + 1, toks@.len() as int),
    decreases toks@.len() - pos, 5int,
{
    if tok_is(toks, pos, &Tok::Minus) {
        match unary_at(toks, pos + 1) {
            Err(e) => Err(e),
            Ok((e, p)) => Ok((Expr::Neg(Box::new(e)), p)),
        }
    } else {
        postfix_at(toks, pos)
    }
}

/// An atom at `pos` and the field accesses after it.
fn postfix_at(toks: &Vec<Tok>, pos: usize) -> (r: Result<(Expr, usize), ParseError>)
    requires
        pos <= toks.len(),
    ensures
        parsed(r, p_postfix(toks_view(toks@), pos as int), pos + 1, toks@.len() as int),
    decreases toks@.len() - pos, 3int,
{
    match atom_at(toks, pos) {
        Err(e) => Err(e),
        Ok((e, p1)) => fields_after(toks, e, p1),
    }
}

/// Field accesses `.name` after `e`.
fn fields_after(toks: &Vec<Tok>, e: Expr, pos: usize) -> (r: Result<(Expr, usize), ParseError>)
    requires
        pos <= toks.len(),
    ensures
        parsed(r, p_fields_after(toks_view(toks@), expr_view(e), pos as int), pos as int, toks@.len() as int),
    decreases toks@.len() - pos, 1int,
{
    if tok_is(toks, pos, &Tok::Dot) {
        match ident(toks, pos + 1, Want::FieldNameAfterDot) {
            Err(err) => Err(err),
            Ok((name, p)) => fields_after(toks, Expr::Field(Box::new(e), name), p),
        }
    } else {
        Ok((e, pos))
    }
}

/// A comma-separated list of expressions at `pos`, up to `close`.
fn list_at(toks: &Vec<Tok>, pos: usize, close: &Tok, want: Want) -> (r: Result<(Vec<Expr>, usize), ParseError>)
    requires
        pos <= toks.len(),
        !(close is Num || close is Str || close is Ident),
    ensures
        listed(r, p_list(toks_view(toks@), pos as int, close@, want), pos + 1, toks@.len() as int),
    decreases toks@.len() - pos, 10int,
{
    if tok_is(toks, pos, close) {
        return Ok((Vec::new(), pos + 1));
    }
    match expr_at(toks, pos) {
        Err(e) => Err(e),
        Ok((first, p1)) => {
            let ghost f = first;
            let mut acc: Vec<Expr> = Vec::new();
            acc.push(first);
            proof {
                lemma_exprs_view_push(Seq::empty(), f);
                assert(acc@ =~= Seq::<Expr>::empty().push(f));
                assert(exprs_view(Seq::<Expr>::empty()) =~= seq![]);
            }
            list_rest(toks, acc, p1, close, want)
        },
    }
}

/// The rest of a list after the items `acc`.
fn list_rest(toks: &Vec<Tok>, acc: Vec<Expr>, pos: usize, close: &Tok, want: Want) -> (r: Result<(Vec<Expr>, usize), ParseError>)
    requires
        pos <= toks.len(),
        !(close is Num || close is Str || close is Ident),
    ensures
        listed(r, p_list_rest(toks_view(toks@), exprs_view(acc@), pos as int, close@, want), pos as int, toks@.len() as int),
    decreases toks@.len() - pos, 0int,
{
    if tok_is(toks, pos, &Tok::Comma) {
        match expr_at(toks, pos + 1) {
            Err(e) => Err(e),
            Ok((item, p1)) => {
                let ghost before = acc@;
                let ghost it = item;
                let mut acc = acc;
                acc.push(item);
                proof {
                    lemma_exprs_view_push(before, it);
                }
                list_rest(toks, acc, p1, close, want)
            },
        }
    } else {
        match expect(toks, pos, close, want) {
            Err(e) => Err(e),
            Ok(p) => Ok((acc, p)),
        }
    }
}

/// Record fields at `pos`, after the fields `acc`.
fn record_at(toks: &Vec<Tok>, acc: Vec<(String, Expr)>, pos: usize) -> (r: Result<(Vec<(String, Expr)>, usize), ParseError>)
    requires
        pos <= toks.len(),
    ensures
        fielded(r, p_record(toks_view(toks@), named_view(acc@), pos as int), pos + 1, toks@.len() as int),
    decreases toks@.len() - pos, 0int,
{
    let (name, p1) = match ident(toks, pos, Want::RecordFieldName) {
        Err(e) => {
            return Err(e);
        },
        Ok(x) => x,
    };
    if has_name(&acc, &name) {
        return Err(ParseError::DuplicateField(name));
    }
    let p2 = match expect(toks, p1, &Tok::Colon, Want::ColonAfterField) {
        Err(e) => {
            return Err(e);
        },
        Ok(p) => p,
    };
    let (v, p3) = match expr_at(toks, p2) {
        Err(e) => {
            return Err(e);
        },
        Ok(x) => x,
    };
    let ghost before = acc@;
    let ghost field = (name, v);
    let mut acc = acc;
    acc.push((name, v));
    proof {
        lemma_named_view_push(before, field);
    }
    if tok_is(toks, p3, &Tok::Comma) {
        record_at(toks, acc, p3 + 1)
    } else {
        Ok((acc, p3))
    }
}

/// An atom at `pos`: a literal, a name or call, a parenthesized expression, an array or a
/// record.
fn atom_at(toks: &Vec<Tok>, pos: usize) -> (r: Result<(Expr, usize), ParseError>)
    requires
        pos <= toks.len(),
    ensures
        parsed(r, p_atom(toks_view(toks@), pos as int), pos + 1, toks@.len() as int),
    decreases toks@.len() - pos, 2int,
{
    if pos >= toks.len() {
        return Err(ParseError::UnexpectedToken(None));
    }
    match &toks[pos] {
        Tok::Num(n) => Ok((Expr::Num(n.clone()), pos + 1)),
        Tok::Str(s) => Ok((Expr::Str(s.clone()), pos + 1)),
        Tok::Ident(s) => {
            if tok_is(toks, pos + 1, &Tok::LParen) {
                match list_at(toks, pos + 2, &Tok::RParen, Want::RParenOrComma) {
                    Err(e) => Err(e),
                    Ok((args, p)) => Ok((Expr::Call(s.clone(), args), p)),
                }
            } else {
                Ok((Expr::Var(s.clone()), pos + 1))
            }
        },
        Tok::LParen => match expr_at(toks, pos + 1) {
            Err(e) => Err(e),
            Ok((e, p1)) => match expect(toks, p1, &Tok::RParen, Want::RParen) {
                Err(err) => Err(err),
                Ok(p2) => Ok((e, p2)),
            },
        },
        Tok::LBracket => match list_at(toks, pos + 1, &Tok::RBracket, Want::RBracketOrComma) {
            Err(e) => Err(e),
            Ok((items, p)) => Ok((Expr::Arr(items), p)),
        },
        Tok::LBrace => {
            if tok_is(toks, pos + 1, &Tok::RBrace) {
                return Err(ParseError::EmptyRecord);
            }
            match record_at(toks, Vec::new(), pos + 1) {
                Err(e) => Err(e),
                Ok((fields, p1)) => match expect(toks, p1, &Tok::RBrace, Want::RBraceOrComma) {
                    Err(e) => Err(e),
                    Ok(p2) => Ok((Expr::RecordLit(fields), p2)),
                },
            }
        },
        _ => Err(ParseError::UnexpectedToken(Some(tok_copy(&toks[pos])))),
    }
}

/// The whole number a literal's text gives.
fn whole_value(text: &String) -> (r: Option<usize>)
    ensures
        match whole_text(text@) {
            Some(n) => r == Some(n as usize),
            None => r is None,
        },
{
    let t = chars_of(text.as_str());
    let ghost g = t@;
    proof {
        lemma_lead_digits(g, 0);
    }
    let mut d: usize = 0;
    while d < t.len() && '0' <= t[d] && t[d] <= '9'
        invariant
            d <= g.len(),
            g == t@,
            g == text@,
            lead_digits(g, 0) == d + lead_digits(g, d as int),
        decreases t.len() - d,
    {
        d = d + 1;
    }
    assert(lead_digits(g, d as int) == 0);
    if d == 0 {
        return None;
    }
    if d < t.len() {
        if t[d] != '.' {
            return None;
        }
        let mut k = d + 1;
        while k < t.len()
            invariant
                d < k <= g.len(),
                g == t@,
                g == text@,
            g == text@,
                lead_digits(g, 0) == d,
                forall|j: int| d < j < k ==> g[j] == '0',
            decreases t.len() - k,
        {
            if t[k] != '0' {
                assert(g[k as int] != '0');
                assert(whole_text(g) is None);
                return None;
            }
            k = k + 1;
        }
    }
    let ghost lead = g.take(d as int);
    assert(forall|i: int| 0 <= i < lead.len() ==> is_digit_char(#[trigger] lead[i]));
    let mut v: u64 = 0;
    let mut i: usize = 0;
    while i < d
        invariant
            i <= d <= g.len(),
            g == t@,
            g == text@,
            lead_digits(g, 0) == d,
            lead == g.take(d as int),
            forall|j: int| 0 <= j < lead.len() ==> is_digit_char(#[trigger] lead[j]),
            v == digits_value(g.take(i as int)),
            v < whole_limit(),
        decreases d - i,
    {
        assert(g.take(i + 1).drop_last() =~= g.take(i as int));
        assert(is_digit_char(lead[i as int]));
        let digit = (t[i] as u32 - 48) as u64;
        let nv = v * 10 + digit;
        if nv >= 0x20_0000_0000_0000 {
            proof {
                lemma_digits_value_mono(lead, i + 1, d as int);
                assert(lead.take(i + 1) =~= g.take(i + 1));
                assert(lead.take(d as int) =~= lead);
                assert(digits_value(g.take(d as int)) >= whole_limit());
                assert(whole_text(g) is None);
            }
            return None;
        }
        v = nv;
        i = i + 1;
    }
    if v > usize::MAX as u64 {
        return None;
    }
    Some(v as usize)
}

/// A whole-number literal at `pos`, and the position after it.
fn whole_int(toks: &Vec<Tok>, pos: usize, want: Want) -> (r: Result<(usize, usize), ParseError>)
    ensures
        match whole_at(toks_view(toks@), pos as int, want) {
            Ok((n, p)) => r == Ok::<(usize, usize), ParseError>((n as usize, p as usize)) && p <= toks.len(),
            Err(e) => r matches Err(e2) && e2@ == e,
        },
{
    if pos < toks.len() {
        match &toks[pos] {
            Tok::Num(t) => {
                return match whole_value(t) {
                    Some(n) => Ok((n, pos + 1)),
                    None => Err(ParseError::NotInteger(want, Some(Tok::Num(t.clone())))),
                };
            },
            _ => {},
        }
    }
    Err(ParseError::NotInteger(want, tok_opt(toks, pos)))
}

/// The name a binding at `pos` binds, if one starts there.
fn binding(toks: &Vec<Tok>, pos: usize) -> (r: Option<String>)
    ensures
        opt_name(r) == binding_at(toks_view(toks@), pos as int),
        r is Some ==> pos + 2 <= toks.len(),
{
    if pos < toks.len() {
        match &toks[pos] {
            Tok::Ident(n) => {
                if tok_is(toks, pos + 1, &Tok::Eq) {
                    return Some(n.clone());
                }
            },
            _ => {},
        }
    }
    None
}

/// Whether a body indented at `indent` goes on at `pos`.
fn continues_at(toks: &Vec<Tok>, cols: &Vec<usize>, lines: &Vec<usize>, pos: usize, indent: usize) -> (b: bool)
    requires
        toks.len() <= cols.len(),
        toks.len() <= lines.len(),
    ensures
        b == continues(src_view(toks@, cols@, lines@), pos as int, indent as int),
        b ==> pos < toks.len(),
{
    if pos >= toks.len() || tok_is(toks, pos, &Tok::Fn) {
        return false;
    }
    let prev: usize = if pos > 0 {
        lines[pos - 1]
    } else {
        0
    };
    lines[pos] == prev || cols[pos] >= indent
}

/// The statements of a loop body indented at `col`, from `pos` on, after `acc`.
fn stmts_at(
    toks: &Vec<Tok>,
    cols: &Vec<usize>,
    lines: &Vec<usize>,
    col: usize,
    pos: usize,
    acc: Vec<(Option<String>, Expr)>,
) -> (r: Result<(Vec<(Option<String>, Expr)>, usize), ParseError>)
    requires
        toks.len() <= cols.len(),
        toks.len() <= lines.len(),
        pos <= toks.len(),
    ensures
        stmted(r, p_stmts(src_view(toks@, cols@, lines@), col as int, pos as int, stmts_view(acc@)), pos + 1, toks.len() as int),
    decreases toks.len() - pos,
{
    let name = binding(toks, pos);
    let start = if name.is_some() {
        pos + 2
    } else {
        pos
    };
    match expr_at(toks, start) {
        Err(e) => Err(e),
        Ok((v, p1)) => {
            let ghost before = acc@;
            let ghost item = (name, v);
            let mut acc = acc;
            acc.push((name, v));
            proof {
                lemma_stmts_view_push(before, item);
            }
            if continues_at(toks, cols, lines, p1, col) {
                stmts_at(toks, cols, lines, col, p1, acc)
            } else {
                Ok((acc, p1))
            }
        },
    }
}

/// The head of a loop at `pos`: the variable, the bounds and the position after the colon.
fn for_head_at(toks: &Vec<Tok>, pos: usize) -> (r: Result<(String, usize, usize, usize), ParseError>)
    requires
        pos < toks.len(),
    ensures
        match for_head(toks_view(toks@), pos as int) {
            Ok((v, a, b, p)) => r matches Ok((v2, a2, b2, q)) && v2@ == v && a2 == a && b2 == b && q == p
                && q == pos + 7 && q <= toks.len(),
            Err(e) => r matches Err(e2) && e2@ == e,
        },
{
    let (var, p1) = match ident(toks, pos + 1, Want::LoopVariable) {
        Err(e) => {
            return Err(e);
        },
        Ok(x) => x,
    };
    let p2 = match expect(toks, p1, &Tok::In, Want::InAfterVariable) {
        Err(e) => {
            return Err(e);
        },
        Ok(p) => p,
    };
    let (start, p3) = match whole_int(toks, p2, Want::RangeStart) {
        Err(e) => {
            return Err(e);
        },
        Ok(x) => x,
    };
    let p4 = match expect(toks, p3, &Tok::DotDot, Want::DotDot) {
        Err(e) => {
            return Err(e);
        },
        Ok(p) => p,
    };
    let (end, p5) = match whole_int(toks, p4, Want::RangeEnd) {
        Err(e) => {
            return Err(e);
        },
        Ok(x) => x,
    };
    match expect(toks, p5, &Tok::Colon, Want::ColonAfterRange) {
        Err(e) => Err(e),
        Ok(p6) => Ok((var, start, end, p6)),
    }
}

/// A body indented at `indent`, at `pos`.
fn body_at(toks: &Vec<Tok>, cols: &Vec<usize>, lines: &Vec<usize>, indent: usize, pos: usize) -> (r: Result<(Expr, usize), ParseError>)
    requires
        toks.len() <= cols.len(),
        toks.len() <= lines.len(),
        pos <= toks.len(),
    ensures
        parsed(r, p_body(src_view(toks@, cols@, lines@), indent as int, pos as int), pos + 1, toks.len() as int),
    decreases toks.len() - pos, 1int,
{
    if tok_is(toks, pos, &Tok::For) {
        return for_at(toks, cols, lines, indent, pos);
    }
    match binding(toks, pos) {
        Some(name) => match expr_at(toks, pos + 2) {
            Err(e) => Err(e),
            Ok((value, p1)) => {
                if continues_at(toks, cols, lines, p1, indent) {
                    match body_at(toks, cols, lines, indent, p1) {
                        Err(e) => Err(e),
                        Ok((rest, p2)) => Ok((Expr::Let(name, Box::new(value), Box::new(rest)), p2)),
                    }
                } else {
                    Err(ParseError::BindingWithoutBody(name))
                }
            },
        },
        None => match expr_at(toks, pos) {
            Err(e) => Err(e),
            Ok((e, p1)) => {
                if continues_at(toks, cols, lines, p1, indent) {
                    match body_at(toks, cols, lines, indent, p1) {
                        Err(err) => Err(err),
                        Ok((rest, p2)) => Ok((Expr::Then(Box::new(e), Box::new(rest)), p2)),
                    }
                } else {
                    Ok((e, p1))
                }
            },
        },
    }
}

/// A loop at `pos`, then the body after it.
fn for_at(toks: &Vec<Tok>, cols: &Vec<usize>, lines: &Vec<usize>, indent: usize, pos: usize) -> (r: Result<(Expr, usize), ParseError>)
    requires
        toks.len() <= cols.len(),
        toks.len() <= lines.len(),
        pos < toks.len(),
    ensures
        parsed(r, p_for(src_view(toks@, cols@, lines@), indent as int, pos as int), pos + 1, toks.len() as int),
    decreases toks.len() - pos, 0int,
{
    let for_col = cols[pos];
    let (var, start, end, p6) = match for_head_at(toks, pos) {
        Err(e) => {
            return Err(e);
        },
        Ok(x) => x,
    };
    let body_col: usize = if p6 < cols.len() {
        cols[p6]
    } else {
        0
    };
    if body_col <= for_col {
        return Err(ParseError::ForBodyNotIndented);
    }
    let ghost empty: Seq<(Option<String>, Expr)> = seq![];
    assert(stmts_view(empty) =~= seq![]);
    let (stmts, p7) = match stmts_at(toks, cols, lines, body_col, p6, Vec::new()) {
        Err(e) => {
            return Err(e);
        },
        Ok(x) => x,
    };
    if !continues_at(toks, cols, lines, p7, indent) {
        return Err(ParseError::ForWithoutBody);
    }
    match body_at(toks, cols, lines, indent, p7) {
        Err(e) => Err(e),
        Ok((rest, p8)) => Ok((Expr::For(var, start, end, stmts, Box::new(rest)), p8)),
    }
}

/// The parameter list at `pos`, up to the closing parenthesis.
fn params_at(toks: &Vec<Tok>, pos: usize) -> (r: Result<(Vec<String>, usize), ParseError>)
    requires
        pos <= toks.len(),
    ensures
        match p_param_list(toks_view(toks@), pos as int) {
            Ok((ps, p)) => r matches Ok((v, q)) && strings_view(v@) == ps && q == p && pos <= p <= toks.len(),
            Err(e) => r matches Err(e2) && e2@ == e,
        },
{
    let ghost tv = toks_view(toks@);
    if tok_is(toks, pos, &Tok::RParen) {
        let v: Vec<String> = Vec::new();
        assert(strings_view(v@) =~= seq![]);
        return Ok((v, pos));
    }
    let mut acc: Vec<String> = Vec::new();
    let mut p = pos;
    assert(strings_view(acc@) =~= seq![]);
    loop
        invariant
            pos <= p <= toks.len(),
            tv == toks_view(toks@),
            p_param_list(tv, pos as int) == p_params(tv, p as int, strings_view(acc@)),
        decreases toks.len() - p,
    {
        match ident(toks, p, Want::Parameter) {
            Err(e) => {
                return Err(e);
            },
            Ok((n, q)) => {
                let ghost before = acc@;
                let ghost nv = n@;
                acc.push(n);
                assert(strings_view(acc@) =~= strings_view(before).push(nv));
                if tok_is(toks, q, &Tok::Comma) {
                    p = q + 1;
                } else {
                    return Ok((acc, q));
                }
            },
        }
    }
}

/// A function declaration at `pos`, at its `fn`.
fn decl_at(toks: &Vec<Tok>, cols: &Vec<usize>, lines: &Vec<usize>, pos: usize) -> (r: Result<(String, Decl, usize), ParseError>)
    requires
        toks.len() <= cols.len(),
        toks.len() <= lines.len(),
        pos < toks.len(),
    ensures
        match p_decl(src_view(toks@, cols@, lines@), pos as int) {
            Ok((n, d, p)) => r matches Ok((n2, d2, q)) && n2@ == n && decl_view(d2) == d && q == p && pos < p
                <= toks.len(),
            Err(e) => r matches Err(e2) && e2@ == e,
        },
{
    let (name, p1) = match ident(toks, pos + 1, Want::FunctionName) {
        Err(e) => {
            return Err(e);
        },
        Ok(x) => x,
    };
    let p2 = match expect(toks, p1, &Tok::LParen, Want::LParenAfterName) {
        Err(e) => {
            return Err(e);
        },
        Ok(p) => p,
    };
    let (params, p3) = match params_at(toks, p2) {
        Err(e) => {
            return Err(e);
        },
        Ok(x) => x,
    };
    let p4 = match expect(toks, p3, &Tok::RParen, Want::RParenOrComma) {
        Err(e) => {
            return Err(e);
        },
        Ok(p) => p,
    };
    let p5 = match expect(toks, p4, &Tok::Colon, Want::ColonAfterParameters) {
        Err(e) => {
            return Err(e);
        },
        Ok(p) => p,
    };
    if params.len() == 0 {
        return Err(ParseError::NoParameters(name));
    }
    let indent: usize = if p5 < cols.len() {
        cols[p5]
    } else {
        1
    };
    match body_at(toks, cols, lines, indent, p5) {
        Err(e) => Err(e),
        Ok((body, p6)) => Ok((name, Decl { params, body }, p6)),
    }
}

/// Whether a function of this name is among `fns`.
fn has_decl_named(fns: &Vec<(String, Decl)>, name: &String) -> (b: bool)
    ensures
        b == has_decl(decls_view(fns@), name@),
{
    let mut i: usize = 0;
    while i < fns.len()
        invariant
            i <= fns@.len(),
            forall|k: int| 0 <= k < i ==> (#[trigger] decls_view(fns@)[k]).0 != name@,
        decreases fns.len() - i,
    {
        if str_eq(fns[i].0.as_str(), name.as_str()) {
            assert(decls_view(fns@)[i as int].0 == name@);
            return true;
        }
        i = i + 1;
    }
    false
}

/// `b` appended to the end of the expression `a`.
fn join_main(a: Expr, b: Expr) -> (r: Expr)
    ensures
        expr_view(r) == joined(expr_view(a), expr_view(b)),
    decreases a,
{
    match a {
        Expr::Let(name, value, body) => Expr::Let(name, value, Box::new(join_main(*body, b))),
        Expr::Then(first, rest) => Expr::Then(first, Box::new(join_main(*rest, b))),
        Expr::For(var, start, end, stmts, rest) => Expr::For(var, start, end, stmts, Box::new(join_main(*rest, b))),
        other => Expr::Then(Box::new(other), Box::new(b)),
    }
}

/// The program from `pos` on, and the position at its end.
fn program_from(toks: &Vec<Tok>, cols: &Vec<usize>, lines: &Vec<usize>, start: usize) -> (r: Result<(Program, usize), ParseError>)
    requires
        toks.len() <= cols.len(),
        toks.len() <= lines.len(),
    ensures
        match p_program(src_view(toks@, cols@, lines@), start as int, seq![], seq![]) {
            Ok(pv) => r matches Ok((prog, q)) && program_view(prog) == pv && q == toks.len() && distinct_names(pv.fns),
            Err(e) => r matches Err(e2) && e2@ == e,
        },
{
    let ghost s = src_view(toks@, cols@, lines@);
    if start > toks.len() {
        return Err(ParseError::NoExpressions);
    }
    let mut pos = start;
    let mut fns: Vec<(String, Decl)> = Vec::new();
    let mut main: Option<Expr> = None;
    let ghost mut mains: Seq<ExprV> = seq![];
    assert(decls_view(fns@) =~= seq![]);
    while pos < toks.len()
        invariant
            toks.len() <= cols.len(),
            toks.len() <= lines.len(),
            pos <= toks.len(),
            s == src_view(toks@, cols@, lines@),
            p_program(s, start as int, seq![], seq![]) == p_program(s, pos as int, decls_view(fns@), mains),
            distinct_names(decls_view(fns@)),
            main is None <==> mains.len() == 0,
            main matches Some(m) ==> join_all(mains) == Some(expr_view(m)),
        decreases toks.len() - pos,
    {
        if tok_is(toks, pos, &Tok::Fn) {
            match decl_at(toks, cols, lines, pos) {
                Err(e) => {
                    return Err(e);
                },
                Ok((name, d, p)) => {
                    if has_decl_named(&fns, &name) {
                        return Err(ParseError::DuplicateFunction(name));
                    }
                    let ghost before = fns@;
                    let ghost entry = (name@, decl_view(d));
                    fns.push((name, d));
                    assert(decls_view(fns@) =~= decls_view(before).push(entry));
                    pos = p;
                }
            }
        } else {
            let indent = cols[pos];
            match body_at(toks, cols, lines, indent, pos) {
                Err(e) => {
                    return Err(e);
                },
                Ok((e, p)) => {
                    let ghost ev = expr_view(e);
                    proof {
                        assert(mains.push(ev).drop_last() =~= mains);
                        mains = mains.push(ev);
                    }
                    main = match main {
                        None => Some(e),
                        Some(m) => Some(join_main(m, e)),
                    };
                    pos = p;
                },
            }
        }
    }
    match main {
        None => Err(ParseError::NoExpressions),
        Some(m) => Ok((Program { fns, main: m }, pos)),
    }
}

/// A parser over the tokens of a program, with the column and the line each token starts
/// at, and the position it has reached.
pub struct Parser {
    pub toks: Vec<Tok>,
    pub cols: Vec<usize>,
    pub lines: Vec<usize>,
    pub pos: usize,
}

impl Parser {
    pub open spec fn src(&self) -> SrcV {
        src_view(self.toks@, self.cols@, self.lines@)
    }

    /// Parses the program from the current position to the end: function declarations and
    /// the top-level expressions, which join into the main expression. On success the
    /// position is at the end; on an error it is left where it was.
    pub fn program(&mut self) -> (r: Result<Program, ParseError>)
        requires
            src_ok(old(self).src()),
        ensures
            final(self).toks == old(self).toks,
            final(self).cols == old(self).cols,
            final(self).lines == old(self).lines,
            match p_program(old(self).src(), old(self).pos as int, seq![], seq![]) {
                Ok(pv) => r matches Ok(prog) && program_view(prog) == pv && final(self).pos == old(self).toks.len(),
                Err(e) => r matches Err(e2) && e2@ == e && final(self).pos == old(self).pos,
            },
            r matches Ok(prog) ==> distinct_names(program_view(prog).fns),
    {
        match program_from(&self.toks, &self.cols, &self.lines, self.pos) {
            Ok((prog, q)) => {
                self.pos = q;
                Ok(prog)
            },
            Err(e) => Err(e),
        }
    }
}

} // verus!
