use vstd::prelude::*;

use crate::strs::{chars_of, string_from_chars};

verus! {

/// A token of the language. Literal and name tokens carry their text: `String` in
/// running code, `Seq<char>` in specifications. A number keeps its digits as written.
#[derive(Debug, Clone, PartialEq)]
pub enum Tok<S = String> {
    Num(S),
    Str(S),
    Ident(S),
    Fn,
    For,
    In,
    DotDot,
    Eq,
    Lt,
    Gt,
    Le,
    Ge,
    /// `==`.
    EqEq,
    /// `!=`.
    Ne,
    Plus,
    Minus,
    Star,
    Slash,
    LParen,
    RParen,
    LBracket,
    RBracket,
    LBrace,
    RBrace,
    Comma,
    Colon,
    Dot,
}

/// A token as specifications see it.
pub type TokV = Tok<Seq<char>>;

impl View for Tok<String> {
    type V = TokV;

    open spec fn view(&self) -> TokV {
        match self {
            Tok::Num(s) => Tok::Num(s@),
            Tok::Str(s) => Tok::Str(s@),
            Tok::Ident(s) => Tok::Ident(s@),
            Tok::Fn => Tok::Fn,
            Tok::For => Tok::For,
            Tok::In => Tok::In,
            Tok::DotDot => Tok::DotDot,
            Tok::Eq => Tok::Eq,
            Tok::Lt => Tok::Lt,
            Tok::Gt => Tok::Gt,
            Tok::Le => Tok::Le,
            Tok::Ge => Tok::Ge,
            Tok::EqEq => Tok::EqEq,
            Tok::Ne => Tok::Ne,
            Tok::Plus => Tok::Plus,
            Tok::Minus => Tok::Minus,
            Tok::Star => Tok::Star,
            Tok::Slash => Tok::Slash,
            Tok::LParen => Tok::LParen,
            Tok::RParen => Tok::RParen,
            Tok::LBracket => Tok::LBracket,
            Tok::RBracket => Tok::RBracket,
            Tok::LBrace => Tok::LBrace,
            Tok::RBrace => Tok::RBrace,
            Tok::Comma => Tok::Comma,
            Tok::Colon => Tok::Colon,
            Tok::Dot => Tok::Dot,
        }
    }
}

/// The tokens of a source text, each with its line and column (both from 1).
pub struct Lexed {
    pub toks: Vec<Tok>,
    pub cols: Vec<usize>,
    pub lines: Vec<usize>,
}

/// Why a source text does not lex.
#[derive(Debug, Clone, Copy, PartialEq, Eq, Structural)]
pub enum LexError {
    /// A string literal runs into the end of its line or of the text.
    UnterminatedString,
    /// A character that starts no token.
    UnexpectedChar(char),
    /// A number with more than one decimal point.
    MalformedNumber,
}

/// Whether a number's text has more than one decimal point.
pub open spec fn two_points(t: Seq<char>) -> bool {
    exists|a: int, b: int| 0 <= a < b < t.len() && t[a] == '.' && t[b] == '.'
}

pub open spec fn is_digit(c: char) -> bool {
    '0' <= c && c <= '9'
}

pub open spec fn is_alpha(c: char) -> bool {
    ('a' <= c && c <= 'z') || ('A' <= c && c <= 'Z')
}

pub open spec fn is_word(c: char) -> bool {
    is_digit(c) || is_alpha(c) || c == '_'
}

/// Whether the character at `k` continues a number: a digit, or a dot not followed by
/// another dot.
pub open spec fn in_number(cs: Seq<char>, k: int) -> bool {
    is_digit(cs[k]) || (cs[k] == '.' && !(k + 1 < cs.len() && cs[k + 1] == '.'))
}

/// How many characters from `j` stay on the current line.
pub open spec fn comment_len(cs: Seq<char>, j: int) -> nat
    decreases cs.len() - j,
{
    if j < 0 || j >= cs.len() || cs[j] == '\n' {
        0
    } else {
        1 + comment_len(cs, j + 1)
    }
}

/// How many characters from `j` belong to a string literal's body.
pub open spec fn string_len(cs: Seq<char>, j: int) -> nat
    decreases cs.len() - j,
{
    if j < 0 || j >= cs.len() || cs[j] == '"' || cs[j] == '\n' {
        0
    } else {
        1 + string_len(cs, j + 1)
    }
}

/// How many characters from `j` continue a number.
pub open spec fn number_len(cs: Seq<char>, j: int) -> nat
    decreases cs.len() - j,
{
    if j < 0 || j >= cs.len() || !in_number(cs, j) {
        0
    } else {
        1 + number_len(cs, j + 1)
    }
}

/// How many characters from `j` continue a name.
pub open spec fn word_len(cs: Seq<char>, j: int) -> nat
    decreases cs.len() - j,
{
    if j < 0 || j >= cs.len() || !is_word(cs[j]) {
        0
    } else {
        1 + word_len(cs, j + 1)
    }
}

pub proof fn lemma_comment_len(cs: Seq<char>, j: int)
    requires
        0 <= j <= cs.len(),
    ensures
        j + comment_len(cs, j) <= cs.len(),
    decreases cs.len() - j,
{
    if j < cs.len() && cs[j] != '\n' {
        lemma_comment_len(cs, j + 1);
    }
}

pub proof fn lemma_string_len(cs: Seq<char>, j: int)
    requires
        0 <= j <= cs.len(),
    ensures
        j + string_len(cs, j) <= cs.len(),
    decreases cs.len() - j,
{
    if j < cs.len() && cs[j] != '"' && cs[j] != '\n' {
        lemma_string_len(cs, j + 1);
    }
}

pub proof fn lemma_number_len(cs: Seq<char>, j: int)
    requires
        0 <= j <= cs.len(),
    ensures
        j + number_len(cs, j) <= cs.len(),
    decreases cs.len() - j,
{
    if j < cs.len() && in_number(cs, j) {
        lemma_number_len(cs, j + 1);
    }
}

pub proof fn lemma_word_len(cs: Seq<char>, j: int)
    requires
        0 <= j <= cs.len(),
    ensures
        j + word_len(cs, j) <= cs.len(),
    decreases cs.len() - j,
{
    if j < cs.len() && is_word(cs[j]) {
        lemma_word_len(cs, j + 1);
    }
}

/// A name, or the keyword it spells.
pub open spec fn word_tok(w: Seq<char>) -> TokV {
    if w == seq!['f', 'n'] {
        Tok::Fn
    } else if w == seq!['f', 'o', 'r'] {
        Tok::For
    } else if w == seq!['i', 'n'] {
        Tok::In
    } else {
        Tok::Ident(w)
    }
}

/// The token of a one-character punctuation mark.
pub open spec fn punct_tok(c: char) -> Option<TokV> {
    if c == '-' {
        Some(Tok::Minus)
    } else if c == '+' {
        Some(Tok::Plus)
    } else if c == '*' {
        Some(Tok::Star)
    } else if c == '/' {
        Some(Tok::Slash)
    } else if c == '(' {
        Some(Tok::LParen)
    } else if c == ')' {
        Some(Tok::RParen)
    } else if c == '[' {
        Some(Tok::LBracket)
    } else if c == ']' {
        Some(Tok::RBracket)
    } else if c == '{' {
        Some(Tok::LBrace)
    } else if c == '}' {
        Some(Tok::RBrace)
    } else if c == ',' {
        Some(Tok::Comma)
    } else if c == ':' {
        Some(Tok::Colon)
    } else if c == '=' {
        Some(Tok::Eq)
    } else {
        None
    }
}

/// `t` at (`line`, `col`) in front of the tokens of `rest`.
pub open spec fn emit(t: TokV, line: nat, col: nat, rest: Result<Seq<(TokV, nat, nat)>, LexError>) -> Result<
    Seq<(TokV, nat, nat)>,
    LexError,
> {
    match rest {
        Ok(r) => Ok(seq![(t, line, col)] + r),
        Err(e) => Err(e),
    }
}

/// The tokens of `cs` from index `i`, where the lexer stands at `line` and `col`.
pub open spec fn lex_from(cs: Seq<char>, i: nat, line: nat, col: nat) -> Result<
    Seq<(TokV, nat, nat)>,
    LexError,
>
    decreases cs.len() - i,
{
    if i >= cs.len() {
        Ok(seq![])
    } else {
        let j = i as int;
        let c = cs[j];
        let next_eq = j + 1 < cs.len() && cs[j + 1] == '=';
        if c == ' ' || c == '\t' {
            lex_from(cs, i + 1, line, col + 1)
        } else if c == '\r' {
            lex_from(cs, i + 1, line, col)
        } else if c == '\n' {
            lex_from(cs, i + 1, line + 1, 1)
        } else if c == '#' {
            let n = 1 + comment_len(cs, j + 1);
            proof {
                lemma_comment_len(cs, j + 1);
            }
            lex_from(cs, i + n, line, col + n)
        } else if c == '"' {
            let n = string_len(cs, j + 1);
            proof {
                lemma_string_len(cs, j + 1);
            }
            if j + 1 + n >= cs.len() || cs[j + 1 + n] != '"' {
                Err(LexError::UnterminatedString)
            } else {
                emit(Tok::Str(cs.subrange(j + 1, j + 1 + n)), line, col, lex_from(cs, i + n + 2, line, col + n + 2))
            }
        } else if is_digit(c) {
            let n = 1 + number_len(cs, j + 1);
            proof {
                lemma_number_len(cs, j + 1);
            }
            if two_points(cs.subrange(j, j + n)) {
                Err(LexError::MalformedNumber)
            } else {
                emit(Tok::Num(cs.subrange(j, j + n)), line, col, lex_from(cs, i + n, line, col + n))
            }
        } else if is_alpha(c) || c == '_' {
            let n = 1 + word_len(cs, j + 1);
            proof {
                lemma_word_len(cs, j + 1);
            }
            emit(word_tok(cs.subrange(j, j + n)), line, col, lex_from(cs, i + n, line, col + n))
        } else if c == '<' {
            if next_eq {
                emit(Tok::Le, line, col, lex_from(cs, i + 2, line, col + 2))
            } else {
                emit(Tok::Lt, line, col, lex_from(cs, i + 1, line, col + 1))
            }
        } else if c == '>' {
            if next_eq {
                emit(Tok::Ge, line, col, lex_from(cs, i + 2, line, col + 2))
            } else {
                emit(Tok::Gt, line, col, lex_from(cs, i + 1, line, col + 1))
            }
        } else if c == '=' && next_eq {
            emit(Tok::EqEq, line, col, lex_from(cs, i + 2, line, col + 2))
        } else if c == '!' && next_eq {
            emit(Tok::Ne, line, col, lex_from(cs, i + 2, line, col + 2))
        } else if c == '.' {
            if j + 1 < cs.len() && cs[j + 1] == '.' {
                emit(Tok::DotDot, line, col, lex_from(cs, i + 2, line, col + 2))
            } else {
                emit(Tok::Dot, line, col, lex_from(cs, i + 1, line, col + 1))
            }
        } else {
            match punct_tok(c) {
                Some(t) => emit(t, line, col, lex_from(cs, i + 1, line, col + 1)),
                None => Err(LexError::UnexpectedChar(c)),
            }
        }
    }
}

/// The tokens a `Lexed` holds, each with its line and column.
pub open spec fn lexed_view(lx: Lexed) -> Seq<(TokV, nat, nat)> {
    Seq::new(lx.toks@.len(), |k: int| (lx.toks@[k]@, lx.lines@[k] as nat, lx.cols@[k] as nat))
}

/// `acc` in front of the tokens of `rest`.
pub open spec fn after(acc: Seq<(TokV, nat, nat)>, rest: Result<Seq<(TokV, nat, nat)>, LexError>) -> Result<
    Seq<(TokV, nat, nat)>,
    LexError,
> {
    match rest {
        Ok(r) => Ok(acc + r),
        Err(e) => Err(e),
    }
}

proof fn lemma_after_emit(
    acc: Seq<(TokV, nat, nat)>,
    t: TokV,
    line: nat,
    col: nat,
    rest: Result<Seq<(TokV, nat, nat)>, LexError>,
)
    ensures
        after(acc, emit(t, line, col, rest)) == after(acc.push((t, line, col)), rest),
{
    if let Ok(r) = rest {
        assert(acc + (seq![(t, line, col)] + r) =~= acc.push((t, line, col)) + r);
    }
}

fn scan_comment(cs: &Vec<char>, j: usize) -> (k: usize)
    requires
        j <= cs@.len(),
    ensures
        k == j + comment_len(cs@, j as int),
        k <= cs@.len(),
{
    let mut k = j;
    while k < cs.len() && cs[k] != '\n'
        invariant
            j <= k <= cs@.len(),
            j + comment_len(cs@, j as int) == k + comment_len(cs@, k as int),
        decreases cs.len() - k,
    {
        k = k + 1;
    }
    k
}

fn scan_string(cs: &Vec<char>, j: usize) -> (k: usize)
    requires
        j <= cs@.len(),
    ensures
        k == j + string_len(cs@, j as int),
        k <= cs@.len(),
{
    let mut k = j;
    while k < cs.len() && cs[k] != '"' && cs[k] != '\n'
        invariant
            j <= k <= cs@.len(),
            j + string_len(cs@, j as int) == k + string_len(cs@, k as int),
        decreases cs.len() - k,
    {
        k = k + 1;
    }
    k
}

fn number_char(cs: &Vec<char>, k: usize) -> (r: bool)
    requires
        k < cs.len(),
    ensures
        r == in_number(cs@, k as int),
{
    let c = cs[k];
    ('0' <= c && c <= '9') || (c == '.' && !(k + 1 < cs.len() && cs[k + 1] == '.'))
}

fn scan_number(cs: &Vec<char>, j: usize) -> (k: usize)
    requires
        j <= cs@.len(),
    ensures
        k == j + number_len(cs@, j as int),
        k <= cs@.len(),
{
    let mut k = j;
    while k < cs.len() && number_char(cs, k)
        invariant
            j <= k <= cs@.len(),
            j + number_len(cs@, j as int) == k + number_len(cs@, k as int),
        decreases cs.len() - k,
    {
        k = k + 1;
    }
    k
}

/// Whether the characters from `i` up to `k` hold more than one decimal point.
fn has_two_points(cs: &Vec<char>, i: usize, k: usize) -> (r: bool)
    requires
        i <= k <= cs@.len(),
    ensures
        r == two_points(cs@.subrange(i as int, k as int)),
{
    let ghost t = cs@.subrange(i as int, k as int);
    let mut first: Option<usize> = None;
    let mut m = i;
    while m < k
        invariant
            i <= m <= k <= cs@.len(),
            t == cs@.subrange(i as int, k as int),
            match first {
                None => forall|a: int| 0 <= a < m - i ==> t[a] != '.',
                Some(f) => i <= f < m && t[f - i] == '.' && forall|a: int| 0 <= a < m - i && a != f - i ==> t[a] != '.',
            },
        decreases k - m,
    {
        if cs[m] == '.' {
            match first {
                Some(f) => {
                    assert(t[f - i] == '.' && t[m - i] == '.');
                    return true;
                },
                None => {
                    first = Some(m);
                },
            }
        }
        m = m + 1;
    }
    assert(!two_points(t)) by {
        if two_points(t) {
            let (a, b) = choose|a: int, b: int| 0 <= a < b < t.len() && t[a] == '.' && t[b] == '.';
        }
    }
    false
}

fn word_char(c: char) -> (r: bool)
    ensures
        r == is_word(c),
{
    ('0' <= c && c <= '9') || ('a' <= c && c <= 'z') || ('A' <= c && c <= 'Z') || c == '_'
}

fn scan_word(cs: &Vec<char>, j: usize) -> (k: usize)
    requires
        j <= cs@.len(),
    ensures
        k == j + word_len(cs@, j as int),
        k <= cs@.len(),
{
    let mut k = j;
    while k < cs.len() && word_char(cs[k])
        invariant
            j <= k <= cs@.len(),
            j + word_len(cs@, j as int) == k + word_len(cs@, k as int),
        decreases cs.len() - k,
    {
        k = k + 1;
    }
    k
}

fn word_token(cs: &Vec<char>, from: usize, to: usize) -> (t: Tok)
    requires
        from <= to <= cs@.len(),
    ensures
        t@ == word_tok(cs@.subrange(from as int, to as int)),
{
    let ghost w = cs@.subrange(from as int, to as int);
    let n = to - from;
    if n == 2 && cs[from] == 'f' && cs[from + 1] == 'n' {
        assert(w =~= seq!['f', 'n']);
        Tok::Fn
    } else if n == 3 && cs[from] == 'f' && cs[from + 1] == 'o' && cs[from + 2] == 'r' {
        assert(w =~= seq!['f', 'o', 'r']);
        Tok::For
    } else if n == 2 && cs[from] == 'i' && cs[from + 1] == 'n' {
        assert(w =~= seq!['i', 'n']);
        Tok::In
    } else {
        assert(w != seq!['f', 'n']) by {
            if w == seq!['f', 'n'] {
                assert(w.len() == 2 && w[0] == 'f' && w[1] == 'n');
                assert(w[0] == cs@[from as int] && w[1] == cs@[from + 1]);
            }
        }
        assert(w != seq!['f', 'o', 'r']) by {
            if w == seq!['f', 'o', 'r'] {
                assert(w.len() == 3 && w[0] == 'f' && w[1] == 'o' && w[2] == 'r');
                assert(w[0] == cs@[from as int] && w[1] == cs@[from + 1] && w[2] == cs@[from + 2]);
            }
        }
        assert(w != seq!['i', 'n']) by {
            if w == seq!['i', 'n'] {
                assert(w.len() == 2 && w[0] == 'i' && w[1] == 'n');
                assert(w[0] == cs@[from as int] && w[1] == cs@[from + 1]);
            }
        }
        Tok::Ident(string_from_chars(vstd::slice::slice_subrange(cs.as_slice(), from, to)))
    }
}

fn punct(c: char) -> (t: Option<Tok>)
    ensures
        match t {
            Some(t) => punct_tok(c) == Some(t@),
            None => punct_tok(c) is None,
        },
{
    if c == '-' {
        Some(Tok::Minus)
    } else if c == '+' {
        Some(Tok::Plus)
    } else if c == '*' {
        Some(Tok::Star)
    } else if c == '/' {
        Some(Tok::Slash)
    } else if c == '(' {
        Some(Tok::LParen)
    } else if c == ')' {
        Some(Tok::RParen)
    } else if c == '[' {
        Some(Tok::LBracket)
    } else if c == ']' {
        Some(Tok::RBracket)
    } else if c == '{' {
        Some(Tok::LBrace)
    } else if c == '}' {
        Some(Tok::RBrace)
    } else if c == ',' {
        Some(Tok::Comma)
    } else if c == ':' {
        Some(Tok::Colon)
    } else if c == '=' {
        Some(Tok::Eq)
    } else {
        None
    }
}

fn push_tok(lx: &mut Lexed, t: Tok, line: usize, col: usize)
    requires
        old(lx).toks@.len() == old(lx).lines@.len(),
        old(lx).toks@.len() == old(lx).cols@.len(),
    ensures
        final(lx).toks@.len() == final(lx).lines@.len(),
        final(lx).toks@.len() == final(lx).cols@.len(),
        lexed_view(*final(lx)) == lexed_view(*old(lx)).push((t@, line as nat, col as nat)),
{
    lx.toks.push(t);
    lx.lines.push(line);
    lx.cols.push(col);
    assert(lexed_view(*lx) =~= lexed_view(*old(lx)).push((t@, line as nat, col as nat)));
}

/// The token, if any, that starts at index `i` (blanks, line ends and comments give
/// none), with the index, line and column after it.
#[verifier::rlimit(40)]
fn lex_step(cs: &Vec<char>, i: usize, line: usize, col: usize) -> (r: Result<
    (Option<Tok>, usize, usize, usize),
    LexError,
>)
    requires
        i < cs@.len(),
        cs@.len() < usize::MAX,
        1 <= line <= i + 1,
        1 <= col <= i + 1,
    ensures
        match r {
            Ok((t, i2, l2, c2)) => {
                &&& i < i2 <= cs@.len()
                &&& 1 <= l2 <= i2 + 1
                &&& 1 <= c2 <= i2 + 1
                &&& lex_from(cs@, i as nat, line as nat, col as nat) == match t {
                    Some(t) => emit(t@, line as nat, col as nat, lex_from(cs@, i2 as nat, l2 as nat, c2 as nat)),
                    None => lex_from(cs@, i2 as nat, l2 as nat, c2 as nat),
                }
            },
            Err(e) => lex_from(cs@, i as nat, line as nat, col as nat) == Err::<Seq<(TokV, nat, nat)>, LexError>(e),
        },
{
    let c = cs[i];
    let next_eq = i + 1 < cs.len() && cs[i + 1] == '=';
    if c == ' ' || c == '\t' {
        Ok((None, i + 1, line, col + 1))
    } else if c == '\r' {
        Ok((None, i + 1, line, col))
    } else if c == '\n' {
        Ok((None, i + 1, line + 1, 1))
    } else if c == '#' {
        let k = scan_comment(cs, i + 1);
        Ok((None, k, line, col + (k - i)))
    } else if c == '"' {
        let k = scan_string(cs, i + 1);
        if k >= cs.len() || cs[k] != '"' {
            return Err(LexError::UnterminatedString);
        }
        let body = string_from_chars(vstd::slice::slice_subrange(cs.as_slice(), i + 1, k));
        Ok((Some(Tok::Str(body)), k + 1, line, col + (k + 1 - i)))
    } else if '0' <= c && c <= '9' {
        let k = scan_number(cs, i + 1);
        if has_two_points(cs, i, k) {
            return Err(LexError::MalformedNumber);
        }
        let text = string_from_chars(vstd::slice::slice_subrange(cs.as_slice(), i, k));
        Ok((Some(Tok::Num(text)), k, line, col + (k - i)))
    } else if ('a' <= c && c <= 'z') || ('A' <= c && c <= 'Z') || c == '_' {
        let k = scan_word(cs, i + 1);
        let t = word_token(cs, i, k);
        Ok((Some(t), k, line, col + (k - i)))
    } else if c == '<' {
        if next_eq {
            Ok((Some(Tok::Le), i + 2, line, col + 2))
        } else {
            Ok((Some(Tok::Lt), i + 1, line, col + 1))
        }
    } else if c == '>' {
        if next_eq {
            Ok((Some(Tok::Ge), i + 2, line, col + 2))
        } else {
            Ok((Some(Tok::Gt), i + 1, line, col + 1))
        }
    } else if c == '=' && next_eq {
        Ok((Some(Tok::EqEq), i + 2, line, col + 2))
    } else if c == '!' && next_eq {
        Ok((Some(Tok::Ne), i + 2, line, col + 2))
    } else if c == '.' {
        if i + 1 < cs.len() && cs[i + 1] == '.' {
            Ok((Some(Tok::DotDot), i + 2, line, col + 2))
        } else {
            Ok((Some(Tok::Dot), i + 1, line, col + 1))
        }
    } else {
        match punct(c) {
            Some(t) => Ok((Some(t), i + 1, line, col + 1)),
            None => Err(LexError::UnexpectedChar(c)),
        }
    }
}

/// Splits a source text into tokens with their positions: `#` starts a comment to the end
/// of the line, string literals stay on one line, a number is a run of digits and single
/// dots, and `fn`, `for` and `in` are keywords.
pub fn lex(src: &str) -> (r: Result<Lexed, LexError>)
    requires
        src@.len() < usize::MAX,
    ensures
        match r {
            Ok(lx) => {
                &&& lx.toks@.len() == lx.lines@.len()
                &&& lx.toks@.len() == lx.cols@.len()
                &&& lex_from(src@, 0, 1, 1) == Ok::<Seq<(TokV, nat, nat)>, LexError>(lexed_view(lx))
            },
            Err(e) => lex_from(src@, 0, 1, 1) == Err::<Seq<(TokV, nat, nat)>, LexError>(e),
        },
{
    let cs = chars_of(src);
    let ghost g = cs@;
    let mut lx = Lexed { toks: Vec::new(), cols: Vec::new(), lines: Vec::new() };
    let mut i: usize = 0;
    let mut line: usize = 1;
    let mut col: usize = 1;
    assert(lexed_view(lx) =~= Seq::<(TokV, nat, nat)>::empty());
    assert(after(lexed_view(lx), lex_from(g, 0, 1, 1)) == lex_from(g, 0, 1, 1)) by {
        if let Ok(v) = lex_from(g, 0, 1, 1) {
            assert(lexed_view(lx) + v =~= v);
        }
    }
    while i < cs.len()
        invariant
            g == cs@,
            g == src@,
            g.len() < usize::MAX,
            i <= g.len(),
            1 <= line <= i + 1,
            1 <= col <= i + 1,
            lx.toks@.len() == lx.lines@.len(),
            lx.toks@.len() == lx.cols@.len(),
            lex_from(g, 0, 1, 1) == after(lexed_view(lx), lex_from(g, i as nat, line as nat, col as nat)),
        decreases cs.len() - i,
    {
        match lex_step(&cs, i, line, col) {
            Err(e) => {
                return Err(e);
            },
            Ok((t, i2, l2, c2)) => {
                match t {
                    Some(t) => {
                        proof {
                            lemma_after_emit(lexed_view(lx), t@, line as nat, col as nat, lex_from(g, i2 as nat, l2 as nat, c2 as nat));
                        }
                        push_tok(&mut lx, t, line, col);
                    },
                    None => {},
                }
                i = i2;
                line = l2;
                col = c2;
            },
        }
    }
    assert(lexed_view(lx) + seq![] =~= lexed_view(lx));
    Ok(lx)
}


/// Whether no token stands on a line before `line`, lines never decrease from one token
/// to the next, and every column is at least 1.
pub open spec fn positions_ok(toks: Seq<(TokV, nat, nat)>, line: nat) -> bool {
    &&& forall|k: int| 0 <= k < toks.len() ==> (#[trigger] toks[k]).1 >= line && toks[k].2 >= 1
    &&& forall|k: int, m: int| 0 <= k <= m < toks.len() ==> (#[trigger] toks[k]).1 <= (#[trigger] toks[m]).1
}

proof fn lemma_positions_emit(line: nat, col: nat, rest: Result<Seq<(TokV, nat, nat)>, LexError>)
    requires
        col >= 1,
        rest matches Ok(r) ==> positions_ok(r, line),
    ensures
        forall|t: TokV| #[trigger] emit(t, line, col, rest) matches Ok(all) ==> positions_ok(all, line),
{
    assert forall|t: TokV| (#[trigger] emit(t, line, col, rest)) is Ok implies positions_ok(emit(t, line, col, rest)->Ok_0, line) by {
        if let Ok(r) = rest {
            let all = seq![(t, line, col)] + r;
            assert(emit(t, line, col, rest)->Ok_0 == all);
            assert forall|k: int, m: int| 0 <= k <= m < all.len() implies (#[trigger] all[k]).1 <= (#[trigger] all[m]).1 by {
                if k > 0 {
                    assert(all[k] == r[k - 1] && all[m] == r[m - 1]);
                } else if m > 0 {
                    assert(all[m] == r[m - 1]);
                }
            }
            assert forall|k: int| 0 <= k < all.len() implies (#[trigger] all[k]).1 >= line && all[k].2 >= 1 by {
                if k > 0 {
                    assert(all[k] == r[k - 1]);
                }
            }
        }
    }
}

/// The lines and columns the lexer gives its tokens: no token stands before the line the
/// lexer starts on, lines never decrease from one token to the next, and every column is
/// at least 1 when the lexer starts at a column of at least 1.
pub proof fn law_lex_positions(cs: Seq<char>, i: nat, line: nat, col: nat)
    requires
        col >= 1,
    ensures
        lex_from(cs, i, line, col) matches Ok(toks) ==> positions_ok(toks, line),
    decreases cs.len() - i,
{
    if i < cs.len() {
        let j = i as int;
        let c = cs[j];
        if c == ' ' || c == '\t' {
            law_lex_positions(cs, i + 1, line, col + 1);
        } else if c == '\r' {
            law_lex_positions(cs, i + 1, line, col);
        } else if c == '\n' {
            law_lex_positions(cs, i + 1, line + 1, 1);
        } else if c == '#' {
            lemma_comment_len(cs, j + 1);
            let n = 1 + comment_len(cs, j + 1);
            law_lex_positions(cs, (i + n) as nat, line, (col + n) as nat);
        } else if c == '"' {
            lemma_string_len(cs, j + 1);
            let n = string_len(cs, j + 1);
            if !(j + 1 + n >= cs.len() || cs[j + 1 + n] != '"') {
                law_lex_positions(cs, (i + n + 2) as nat, line, (col + n + 2) as nat);
                lemma_positions_emit(line, col, lex_from(cs, (i + n + 2) as nat, line, (col + n + 2) as nat));
            }
        } else if is_digit(c) {
            lemma_number_len(cs, j + 1);
            let n = 1 + number_len(cs, j + 1);
            law_lex_positions(cs, (i + n) as nat, line, (col + n) as nat);
            lemma_positions_emit(line, col, lex_from(cs, (i + n) as nat, line, (col + n) as nat));
        } else if is_alpha(c) || c == '_' {
            lemma_word_len(cs, j + 1);
            let n = 1 + word_len(cs, j + 1);
            law_lex_positions(cs, (i + n) as nat, line, (col + n) as nat);
            lemma_positions_emit(line, col, lex_from(cs, (i + n) as nat, line, (col + n) as nat));
        } else {
            law_lex_positions(cs, i + 1, line, col + 1);
            lemma_positions_emit(line, col, lex_from(cs, i + 1, line, col + 1));
            if i + 2 <= cs.len() {
                law_lex_positions(cs, i + 2, line, col + 2);
                lemma_positions_emit(line, col, lex_from(cs, i + 2, line, col + 2));
            }
        }
    }
}


/// How many line ends `cs[a..b]` holds.
pub open spec fn newlines(cs: Seq<char>, a: int, b: int) -> nat
    decreases b - a,
{
    if b <= a {
        0
    } else {
        newlines(cs, a, b - 1) + (if cs[b - 1] == '\n' { 1nat } else { 0nat })
    }
}

/// Whether each token's line is `line` plus the line ends between `i` and some position
/// at or after `i`.
pub open spec fn lines_count(cs: Seq<char>, i: int, line: nat, toks: Seq<(TokV, nat, nat)>) -> bool {
    forall|k: int|
        0 <= k < toks.len() ==> exists|p: int| i <= p && #[trigger] newlines(cs, i, p) + line == (#[trigger] toks[k]).1
}

proof fn lemma_newlines_split(cs: Seq<char>, a: int, b: int, c: int)
    requires
        a <= b <= c,
    ensures
        newlines(cs, a, c) == newlines(cs, a, b) + newlines(cs, b, c),
    decreases c - b,
{
    if b < c {
        lemma_newlines_split(cs, a, b, c - 1);
    }
}

proof fn lemma_no_newlines(cs: Seq<char>, a: int, b: int)
    requires
        forall|k: int| a <= k < b ==> cs[k] != '\n',
    ensures
        newlines(cs, a, b) == 0,
    decreases b - a,
{
    if b > a {
        lemma_no_newlines(cs, a, b - 1);
    }
}

proof fn lemma_comment_no_newline(cs: Seq<char>, j: int)
    ensures
        forall|k: int| j <= k < j + comment_len(cs, j) ==> cs[k] != '\n',
    decreases cs.len() - j,
{
    if !(j < 0 || j >= cs.len() || cs[j] == '\n') {
        lemma_comment_no_newline(cs, j + 1);
    }
}

proof fn lemma_string_no_newline(cs: Seq<char>, j: int)
    ensures
        forall|k: int| j <= k < j + string_len(cs, j) ==> cs[k] != '\n',
    decreases cs.len() - j,
{
    if !(j < 0 || j >= cs.len() || cs[j] == '"' || cs[j] == '\n') {
        lemma_string_no_newline(cs, j + 1);
    }
}

proof fn lemma_number_no_newline(cs: Seq<char>, j: int)
    ensures
        forall|k: int| j <= k < j + number_len(cs, j) ==> cs[k] != '\n',
    decreases cs.len() - j,
{
    if !(j < 0 || j >= cs.len() || !in_number(cs, j)) {
        lemma_number_no_newline(cs, j + 1);
    }
}

proof fn lemma_word_no_newline(cs: Seq<char>, j: int)
    ensures
        forall|k: int| j <= k < j + word_len(cs, j) ==> cs[k] != '\n',
    decreases cs.len() - j,
{
    if !(j < 0 || j >= cs.len() || !is_word(cs[j])) {
        lemma_word_no_newline(cs, j + 1);
    }
}

/// Tokens lexed from `i2`, counted from `line2`, with `line2` the line of `i` plus the line
/// ends between `i` and `i2`, count their lines from `i` too.
proof fn lemma_lines_shift(cs: Seq<char>, i: int, i2: int, line: nat, line2: nat, rest: Result<Seq<(TokV, nat, nat)>, LexError>)
    requires
        i <= i2,
        line2 == line + newlines(cs, i, i2),
        rest matches Ok(r) ==> lines_count(cs, i2, line2, r),
    ensures
        rest matches Ok(r) ==> lines_count(cs, i, line, r),
{
    if let Ok(r) = rest {
        assert forall|k: int| 0 <= k < r.len() implies exists|p: int| i <= p && #[trigger] newlines(cs, i, p) + line == (
        #[trigger] r[k]).1 by {
            let p = choose|p: int| i2 <= p && #[trigger] newlines(cs, i2, p) + line2 == r[k].1;
            lemma_newlines_split(cs, i, i2, p);
            assert(newlines(cs, i, p) + line == r[k].1);
        }
    }
}

/// A token at `i`, on `line`, in front of tokens that count their lines from `i`.
proof fn lemma_lines_emit(cs: Seq<char>, i: int, line: nat, col: nat, rest: Result<Seq<(TokV, nat, nat)>, LexError>)
    requires
        0 <= i < cs.len(),
        cs[i] != '\n',
        rest matches Ok(r) ==> lines_count(cs, i, line, r),
    ensures
        forall|t: TokV| (#[trigger] emit(t, line, col, rest)) is Ok ==> lines_count(cs, i, line, emit(t, line, col, rest)->Ok_0),
{
    assert forall|t: TokV| (#[trigger] emit(t, line, col, rest)) is Ok implies lines_count(cs, i, line, emit(t, line, col, rest)->Ok_0) by {
        if let Ok(r) = rest {
            let all = seq![(t, line, col)] + r;
            assert(emit(t, line, col, rest)->Ok_0 == all);
            assert forall|k: int| 0 <= k < all.len() implies exists|p: int| i <= p && #[trigger] newlines(cs, i, p) + line == (
            #[trigger] all[k]).1 by {
                if k == 0 {
                    assert(newlines(cs, i, i) + line == all[0].1);
                } else {
                    assert(all[k] == r[k - 1]);
                    let p = choose|p: int| i <= p && #[trigger] newlines(cs, i, p) + line == r[k - 1].1;
                    assert(newlines(cs, i, p) + line == all[k].1);
                }
            }
        }
    }
}

/// Each token's line is the line the lexer starts on plus the line ends between where
/// it starts and some position at or after that.
pub proof fn law_lex_lines(cs: Seq<char>, i: nat, line: nat, col: nat)
    ensures
        lex_from(cs, i, line, col) matches Ok(toks) ==> lines_count(cs, i as int, line, toks),
    decreases cs.len() - i,
{
    if i < cs.len() {
        let j = i as int;
        let c = cs[j];
        if c == ' ' || c == '\t' || c == '\r' {
            let col2: nat = if c == '\r' { col } else { col + 1 };
            law_lex_lines(cs, i + 1, line, col2);
            lemma_no_newlines(cs, j, j + 1);
            lemma_lines_shift(cs, j, j + 1, line, line, lex_from(cs, i + 1, line, col2));
        } else if c == '\n' {
            law_lex_lines(cs, i + 1, line + 1, 1);
            assert(newlines(cs, j, j) == 0);
            assert(newlines(cs, j, j + 1) == 1);
            lemma_lines_shift(cs, j, j + 1, line, line + 1, lex_from(cs, i + 1, line + 1, 1));
        } else if c == '#' {
            lemma_comment_len(cs, j + 1);
            lemma_comment_no_newline(cs, j + 1);
            let n = 1 + comment_len(cs, j + 1);
            law_lex_lines(cs, (i + n) as nat, line, (col + n) as nat);
            lemma_no_newlines(cs, j, j + n);
            lemma_lines_shift(cs, j, j + n, line, line, lex_from(cs, (i + n) as nat, line, (col + n) as nat));
        } else if c == '"' {
            lemma_string_len(cs, j + 1);
            lemma_string_no_newline(cs, j + 1);
            let n = string_len(cs, j + 1);
            if !(j + 1 + n >= cs.len() || cs[j + 1 + n] != '"') {
                law_lex_lines(cs, (i + n + 2) as nat, line, (col + n + 2) as nat);
                lemma_no_newlines(cs, j, j + n + 2);
                lemma_lines_shift(cs, j, j + n + 2, line, line, lex_from(cs, (i + n + 2) as nat, line, (col + n + 2) as nat));
                lemma_lines_emit(cs, j, line, col, lex_from(cs, (i + n + 2) as nat, line, (col + n + 2) as nat));
            }
        } else if is_digit(c) {
            lemma_number_len(cs, j + 1);
            lemma_number_no_newline(cs, j + 1);
            let n = 1 + number_len(cs, j + 1);
            law_lex_lines(cs, (i + n) as nat, line, (col + n) as nat);
            lemma_no_newlines(cs, j, j + n);
            lemma_lines_shift(cs, j, j + n, line, line, lex_from(cs, (i + n) as nat, line, (col + n) as nat));
            lemma_lines_emit(cs, j, line, col, lex_from(cs, (i + n) as nat, line, (col + n) as nat));
        } else if is_alpha(c) || c == '_' {
            lemma_word_len(cs, j + 1);
            lemma_word_no_newline(cs, j + 1);
            let n = 1 + word_len(cs, j + 1);
            law_lex_lines(cs, (i + n) as nat, line, (col + n) as nat);
            lemma_no_newlines(cs, j, j + n);
            lemma_lines_shift(cs, j, j + n, line, line, lex_from(cs, (i + n) as nat, line, (col + n) as nat));
            lemma_lines_emit(cs, j, line, col, lex_from(cs, (i + n) as nat, line, (col + n) as nat));
        } else {
            law_lex_lines(cs, i + 1, line, col + 1);
            lemma_no_newlines(cs, j, j + 1);
            lemma_lines_shift(cs, j, j + 1, line, line, lex_from(cs, i + 1, line, col + 1));
            lemma_lines_emit(cs, j, line, col, lex_from(cs, i + 1, line, col + 1));
            if i + 2 <= cs.len() && cs[j + 1] != '\n' {
                law_lex_lines(cs, i + 2, line, col + 2);
                lemma_no_newlines(cs, j, j + 2);
                lemma_lines_shift(cs, j, j + 2, line, line, lex_from(cs, i + 2, line, col + 2));
                lemma_lines_emit(cs, j, line, col, lex_from(cs, i + 2, line, col + 2));
            }
        }
    }
}

} // verus!
