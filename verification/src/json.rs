use vstd::prelude::*;
use vstd::utf8::*;

use crate::strs::string_from_chars;

verus! {

/// A JSON value. Numbers keep their text.
pub enum Json {
    Str(String),
    Num(Vec<u8>),
    Bool(bool),
    Null,
    Arr(Vec<Json>),
    Obj(Vec<(String, Json)>),
}

/// A JSON value as specifications see it.
pub enum JsonV {
    Str(Seq<char>),
    Num(Seq<u8>),
    Bool(bool),
    Null,
    Arr(Seq<JsonV>),
    Obj(Seq<(Seq<char>, JsonV)>),
}

pub open spec fn json_view(j: Json) -> JsonV
    decreases j,
{
    match j {
        Json::Str(s) => JsonV::Str(s@),
        Json::Num(n) => JsonV::Num(n@),
        Json::Bool(b) => JsonV::Bool(b),
        Json::Null => JsonV::Null,
        Json::Arr(items) => JsonV::Arr(items_view(items@)),
        Json::Obj(fields) => JsonV::Obj(fields_view(fields@)),
    }
}

pub open spec fn items_view(s: Seq<Json>) -> Seq<JsonV>
    decreases s,
{
    if s.len() == 0 {
        seq![]
    } else {
        items_view(s.drop_last()).push(json_view(s.last()))
    }
}

pub open spec fn fields_view(s: Seq<(String, Json)>) -> Seq<(Seq<char>, JsonV)>
    decreases s,
{
    if s.len() == 0 {
        seq![]
    } else {
        fields_view(s.drop_last()).push((s.last().0@, json_view(s.last().1)))
    }
}

/// Why a JSON text does not parse.
#[derive(Debug, Clone, Copy, PartialEq, Eq, Structural)]
pub enum JsonError {
    UnexpectedEnd,
    /// A byte other than the one the grammar needs here.
    Expected(u8),
    UnknownLiteral,
    BadNumber,
    /// A `\u` escape that is not four hex digits or names no character.
    BadUnicodeEscape,
    UnknownEscape,
    InvalidUtf8,
    ExpectedCommaOrBracket,
    ExpectedCommaOrBrace,
}

pub open spec fn is_ws(c: u8) -> bool {
    c == 32 || c == 9 || c == 10 || c == 13
}

/// How many blanks start at `p`.
pub open spec fn ws_len(b: Seq<u8>, p: int) -> nat
    decreases b.len() - p,
{
    if 0 <= p < b.len() && is_ws(b[p]) {
        1 + ws_len(b, p + 1)
    } else {
        0
    }
}

pub proof fn lemma_ws_len(b: Seq<u8>, p: int)
    requires
        0 <= p <= b.len(),
    ensures
        p + ws_len(b, p) <= b.len(),
        p + ws_len(b, p) < b.len() ==> !is_ws(b[p + ws_len(b, p)]),
    decreases b.len() - p,
{
    if p < b.len() && is_ws(b[p]) {
        lemma_ws_len(b, p + 1);
    }
}

pub open spec fn is_digit_byte(c: u8) -> bool {
    48 <= c <= 57
}

/// The bytes a number is scanned over.
pub open spec fn is_num_byte(c: u8) -> bool {
    is_digit_byte(c) || c == 45 || c == 43 || c == 46 || c == 101 || c == 69
}

/// How many number bytes start at `p`.
pub open spec fn num_len(b: Seq<u8>, p: int) -> nat
    decreases b.len() - p,
{
    if 0 <= p < b.len() && is_num_byte(b[p]) {
        1 + num_len(b, p + 1)
    } else {
        0
    }
}

pub proof fn lemma_num_len(b: Seq<u8>, p: int)
    requires
        0 <= p <= b.len(),
    ensures
        p + num_len(b, p) <= b.len(),
    decreases b.len() - p,
{
    if p < b.len() && is_num_byte(b[p]) {
        lemma_num_len(b, p + 1);
    }
}

/// How many digits start at `p`.
pub open spec fn digit_len(t: Seq<u8>, p: int) -> nat
    decreases t.len() - p,
{
    if 0 <= p < t.len() && is_digit_byte(t[p]) {
        1 + digit_len(t, p + 1)
    } else {
        0
    }
}

/// The decimal floating-point syntax a number's text must have: an optional sign, digits
/// with at most one dot and at least one digit, then optionally `e` or `E`, an optional
/// sign and at least one digit.
pub open spec fn float_syntax(t: Seq<u8>) -> bool {
    let s: int = if t.len() > 0 && (t[0] == 43 || t[0] == 45) { 1 } else { 0 };
    let d1 = digit_len(t, s);
    let a = s + d1;
    let has_dot = a < t.len() && t[a] == 46;
    let d2: nat = if has_dot { digit_len(t, a + 1) } else { 0 };
    let m = if has_dot { a + 1 + d2 } else { a };
    &&& d1 + d2 > 0
    &&& (m == t.len() || {
        &&& (t[m] == 101 || t[m] == 69)
        &&& {
            let es: int = if m + 1 < t.len() && (t[m + 1] == 43 || t[m + 1] == 45) { 1 } else { 0 };
            let d3 = digit_len(t, m + 1 + es);
            d3 > 0 && m + 1 + es + d3 == t.len()
        }
    })
}

pub open spec fn is_hex_byte(c: u8) -> bool {
    is_digit_byte(c) || (97 <= c <= 102) || (65 <= c <= 70)
}

pub open spec fn hex_value(c: u8) -> nat {
    if is_digit_byte(c) {
        (c - 48) as nat
    } else if 97 <= c <= 102 {
        (c - 87) as nat
    } else {
        (c - 55) as nat
    }
}

/// The value of the `n` hex digits at `p`, failing at the first missing or non-hex byte.
pub open spec fn hex_digits(b: Seq<u8>, p: int, n: nat) -> Result<nat, JsonError>
    decreases n,
{
    if n == 0 {
        Ok(0)
    } else {
        match hex_digits(b, p, (n - 1) as nat) {
            Err(e) => Err(e),
            Ok(v) => {
                let q = p + n - 1;
                if q >= b.len() {
                    Err(JsonError::UnexpectedEnd)
                } else if !is_hex_byte(b[q]) {
                    Err(JsonError::BadUnicodeEscape)
                } else {
                    Ok(v * 16 + hex_value(b[q]))
                }
            },
        }
    }
}

/// Whether a number names a `char`.
pub open spec fn is_char_value(cp: u32) -> bool {
    cp <= 0x10FFFF && (cp < 0xD800 || cp > 0xDFFF)
}

/// The code point a surrogate pair stands for, computed in 32-bit wrapping arithmetic.
pub open spec fn pair_value(hi: u32, lo: u32) -> u32 {
    let h: int = 0x10000 + (hi - 0xD800) * 1024;
    let l: int = if lo >= 0xDC00 { lo - 0xDC00 } else { lo - 0xDC00 + 0x1_0000_0000 };
    if h + l >= 0x1_0000_0000 { (h + l - 0x1_0000_0000) as u32 } else { (h + l) as u32 }
}

/// The bytes a `\u` escape whose hex digits start at `p` stands for, and where it ends.
/// A high surrogate must be followed, blanks allowed, by `\` and `u` and four more digits.
pub open spec fn unicode_escape(b: Seq<u8>, p: int) -> Result<(Seq<u8>, int), JsonError> {
    match hex_digits(b, p, 4) {
        Err(e) => Err(e),
        Ok(hi) => {
            if 0xD800 <= hi <= 0xDBFF {
                let q = p + 4 + ws_len(b, p + 4);
                if q >= b.len() {
                    Err(JsonError::UnexpectedEnd)
                } else if b[q] != 92 {
                    Err(JsonError::Expected(92))
                } else {
                    let r = q + 1 + ws_len(b, q + 1);
                    if r >= b.len() {
                        Err(JsonError::UnexpectedEnd)
                    } else if b[r] != 117 {
                        Err(JsonError::Expected(117))
                    } else {
                        match hex_digits(b, r + 1, 4) {
                            Err(e) => Err(e),
                            Ok(lo) => {
                                let cp = pair_value(hi as u32, lo as u32);
                                if is_char_value(cp) {
                                    Ok((encode_scalar(cp), r + 5))
                                } else {
                                    Err(JsonError::BadUnicodeEscape)
                                }
                            },
                        }
                    }
                }
            } else if is_char_value(hi as u32) {
                Ok((encode_scalar(hi as u32), p + 4))
            } else {
                Err(JsonError::BadUnicodeEscape)
            }
        },
    }
}

pub proof fn lemma_hex_digits(b: Seq<u8>, p: int, n: nat)
    ensures
        hex_digits(b, p, n) matches Ok(v) ==> (n > 0 ==> p + n <= b.len()) && v < pow16(n),
    decreases n,
{
    if n > 0 {
        lemma_hex_digits(b, p, (n - 1) as nat);
    }
}

pub open spec fn pow16(n: nat) -> nat
    decreases n,
{
    if n == 0 { 1 } else { 16 * pow16((n - 1) as nat) }
}

pub proof fn lemma_unicode_escape(b: Seq<u8>, p: int)
    requires
        0 <= p,
    ensures
        unicode_escape(b, p) matches Ok((s, q)) ==> p + 4 <= q <= b.len(),
{
    lemma_hex_digits(b, p, 4);
    if p + 4 <= b.len() {
        lemma_ws_len(b, p + 4);
        let q = p + 4 + ws_len(b, p + 4);
        if q < b.len() {
            lemma_ws_len(b, q + 1);
            lemma_hex_digits(b, q + 1 + ws_len(b, q + 1) + 1, 4);
        }
    }
}

/// The bytes of a string literal's body from `p` to its closing quote, after `out`, and
/// the index after the quote.
pub open spec fn string_body(b: Seq<u8>, p: int, out: Seq<u8>) -> Result<(Seq<u8>, int), JsonError>
    decreases b.len() - p,
{
    if p < 0 || p >= b.len() {
        Err(JsonError::UnexpectedEnd)
    } else {
        let c = b[p];
        if c == 34 {
            Ok((out, p + 1))
        } else if c == 92 {
            if p + 1 >= b.len() {
                Err(JsonError::UnexpectedEnd)
            } else {
                let e = b[p + 1];
                if e == 34 || e == 92 || e == 47 {
                    string_body(b, p + 2, out.push(e))
                } else if e == 98 {
                    string_body(b, p + 2, out.push(8))
                } else if e == 102 {
                    string_body(b, p + 2, out.push(12))
                } else if e == 110 {
                    string_body(b, p + 2, out.push(10))
                } else if e == 114 {
                    string_body(b, p + 2, out.push(13))
                } else if e == 116 {
                    string_body(b, p + 2, out.push(9))
                } else if e == 117 {
                    match unicode_escape(b, p + 2) {
                        Err(err) => Err(err),
                        Ok((bytes, q)) => {
                            proof {
                                lemma_unicode_escape(b, p + 2);
                            }
                            string_body(b, q, out + bytes)
                        },
                    }
                } else {
                    Err(JsonError::UnknownEscape)
                }
            }
        } else {
            string_body(b, p + 1, out.push(c))
        }
    }
}

/// A string literal, blanks allowed before it, and the index after it.
pub open spec fn json_string(b: Seq<u8>, p: int) -> Result<(Seq<char>, int), JsonError> {
    let q = p + ws_len(b, p);
    if q < 0 || q >= b.len() {
        Err(JsonError::UnexpectedEnd)
    } else if b[q] != 34 {
        Err(JsonError::Expected(34))
    } else {
        match string_body(b, q + 1, seq![]) {
            Err(e) => Err(e),
            Ok((bytes, r)) => if valid_utf8(bytes) {
                Ok((decode_utf8(bytes), r))
            } else {
                Err(JsonError::InvalidUtf8)
            },
        }
    }
}

pub proof fn lemma_string_body(b: Seq<u8>, p: int, out: Seq<u8>)
    ensures
        string_body(b, p, out) matches Ok((s, q)) ==> p < q <= b.len(),
    decreases b.len() - p,
{
    if 0 <= p < b.len() {
        let c = b[p];
        if c == 92 && p + 1 < b.len() {
            let e = b[p + 1];
            if e == 34 || e == 92 || e == 47 {
                lemma_string_body(b, p + 2, out.push(e));
            } else if e == 98 {
                lemma_string_body(b, p + 2, out.push(8));
            } else if e == 102 {
                lemma_string_body(b, p + 2, out.push(12));
            } else if e == 110 {
                lemma_string_body(b, p + 2, out.push(10));
            } else if e == 114 {
                lemma_string_body(b, p + 2, out.push(13));
            } else if e == 116 {
                lemma_string_body(b, p + 2, out.push(9));
            } else if e == 117 {
                lemma_unicode_escape(b, p + 2);
                if let Ok((bytes, q)) = unicode_escape(b, p + 2) {
                    lemma_string_body(b, q, out + bytes);
                }
            }
        } else if c != 34 && c != 92 {
            lemma_string_body(b, p + 1, out.push(c));
        }
    }
}

pub proof fn lemma_json_string(b: Seq<u8>, p: int)
    requires
        0 <= p <= b.len(),
    ensures
        json_string(b, p) matches Ok((s, q)) ==> p < q <= b.len(),
{
    lemma_ws_len(b, p);
    lemma_string_body(b, p + ws_len(b, p) + 1, seq![]);
}

/// Whether `word` is spelled at `p`.
pub open spec fn spelled_at(b: Seq<u8>, p: int, word: Seq<u8>) -> bool {
    p + word.len() <= b.len() && b.subrange(p, p + word.len()) == word
}

pub open spec fn word_true() -> Seq<u8> {
    seq![116u8, 114, 117, 101]
}

pub open spec fn word_false() -> Seq<u8> {
    seq![102u8, 97, 108, 115, 101]
}

pub open spec fn word_null() -> Seq<u8> {
    seq![110u8, 117, 108, 108]
}

/// A literal word at `q` and the value it stands for.
pub open spec fn json_literal(b: Seq<u8>, q: int, word: Seq<u8>, v: JsonV) -> Result<(JsonV, int), JsonError> {
    if spelled_at(b, q, word) {
        Ok((v, q + word.len()))
    } else {
        Err(JsonError::UnknownLiteral)
    }
}

/// A JSON value, blanks allowed before it, and the index after it.
pub open spec fn json_value(b: Seq<u8>, p: int) -> Result<(JsonV, int), JsonError>
    decreases b.len() - p, 1int,
{
    let q = p + ws_len(b, p);
    if p < 0 || q >= b.len() {
        Err(JsonError::UnexpectedEnd)
    } else {
        let c = b[q];
        if c == 34 {
            match json_string(b, q) {
                Err(e) => Err(e),
                Ok((s, r)) => Ok((JsonV::Str(s), r)),
            }
        } else if c == 123 {
            let r = q + 1 + ws_len(b, q + 1);
            proof {
                lemma_ws_len(b, q + 1);
            }
            if r >= b.len() {
                Err(JsonError::UnexpectedEnd)
            } else if b[r] == 125 {
                Ok((JsonV::Obj(seq![]), r + 1))
            } else {
                json_fields(b, r, seq![])
            }
        } else if c == 91 {
            let r = q + 1 + ws_len(b, q + 1);
            proof {
                lemma_ws_len(b, q + 1);
            }
            if r >= b.len() {
                Err(JsonError::UnexpectedEnd)
            } else if b[r] == 93 {
                Ok((JsonV::Arr(seq![]), r + 1))
            } else {
                json_items(b, r, seq![])
            }
        } else if c == 116 {
            json_literal(b, q, word_true(), JsonV::Bool(true))
        } else if c == 102 {
            json_literal(b, q, word_false(), JsonV::Bool(false))
        } else if c == 110 {
            json_literal(b, q, word_null(), JsonV::Null)
        } else {
            let t = b.subrange(q, q + num_len(b, q));
            if float_syntax(t) {
                Ok((JsonV::Num(t), q + num_len(b, q)))
            } else {
                Err(JsonError::BadNumber)
            }
        }
    }
}

/// The items of an array from `p` (after its `[` or a `,`), after `acc`.
pub open spec fn json_items(b: Seq<u8>, p: int, acc: Seq<JsonV>) -> Result<(JsonV, int), JsonError>
    decreases b.len() - p, 2int,
{
    if p < 0 || p > b.len() {
        Err(JsonError::UnexpectedEnd)
    } else {
        match json_value(b, p) {
            Err(e) => Err(e),
            Ok((v, p1)) => {
                let p2 = p1 + ws_len(b, p1);
                if p1 < p || p2 >= b.len() {
                    Err(JsonError::UnexpectedEnd)
                } else if b[p2] == 44 {
                    json_items(b, p2 + 1, acc.push(v))
                } else if b[p2] == 93 {
                    Ok((JsonV::Arr(acc.push(v)), p2 + 1))
                } else {
                    Err(JsonError::ExpectedCommaOrBracket)
                }
            },
        }
    }
}

/// The fields of an object from `p` (after its `{` or a `,`), after `acc`.
pub open spec fn json_fields(b: Seq<u8>, p: int, acc: Seq<(Seq<char>, JsonV)>) -> Result<
    (JsonV, int),
    JsonError,
>
    decreases b.len() - p, 2int,
{
    if p < 0 || p > b.len() {
        Err(JsonError::UnexpectedEnd)
    } else {
        match json_string(b, p) {
            Err(e) => Err(e),
            Ok((key, p1)) => {
                proof {
                    lemma_json_string(b, p);
                    lemma_ws_len(b, p1);
                }
                let p2 = p1 + ws_len(b, p1);
                if p2 >= b.len() {
                    Err(JsonError::UnexpectedEnd)
                } else if b[p2] != 58 {
                    Err(JsonError::Expected(58))
                } else {
                    match json_value(b, p2 + 1) {
                        Err(e) => Err(e),
                        Ok((v, p3)) => {
                            let p4 = p3 + ws_len(b, p3);
                            if p3 < p || p4 >= b.len() {
                                Err(JsonError::UnexpectedEnd)
                            } else if b[p4] == 44 {
                                json_fields(b, p4 + 1, acc.push((key, v)))
                            } else if b[p4] == 125 {
                                Ok((JsonV::Obj(acc.push((key, v))), p4 + 1))
                            } else {
                                Err(JsonError::ExpectedCommaOrBrace)
                            }
                        },
                    }
                }
            },
        }
    }
}

/// Trusted: calls `char::from_u32`, which gives the character with that number exactly when
/// the number is a Unicode scalar value (at most 0x10FFFF and not a surrogate).
#[verifier::external_body]
fn char_from_u32(cp: u32) -> (r: Option<char>)
    ensures
        match r {
            Some(c) => is_char_value(cp) && c as u32 == cp,
            None => !is_char_value(cp),
        },
{
    char::from_u32(cp)
}

/// Trusted: calls `String::from_utf8`, which succeeds exactly on valid UTF-8 and keeps the
/// characters the bytes encode.
#[verifier::external_body]
fn string_from_utf8(bytes: Vec<u8>) -> (r: Option<String>)
    ensures
        match r {
            Some(s) => valid_utf8(bytes@) && s@ == decode_utf8(bytes@),
            None => !valid_utf8(bytes@),
        },
{
    String::from_utf8(bytes).ok()
}

/// The UTF-8 bytes of one character.
pub(crate) fn utf8_of(c: char) -> (v: Vec<u8>)
    ensures
        v@ == encode_scalar(c as u32),
{
    let chars: Vec<char> = vec![c];
    let s = string_from_chars(chars.as_slice());
    let bytes = s.as_str().as_bytes();
    proof {
        assert(s@ =~= seq![c]);
        assert(seq![c].drop_first() =~= Seq::<char>::empty());
        assert(encode_utf8(Seq::<char>::empty()) =~= Seq::<u8>::empty());
        assert(encode_utf8(seq![c]) == encode_scalar(c as u32) + encode_utf8(seq![c].drop_first()));
        assert(encode_utf8(seq![c]) =~= encode_scalar(c as u32));
    }
    vstd::slice::slice_to_vec(bytes)
}

proof fn lemma_hex_err(b: Seq<u8>, p: int, k: nat, n: nat)
    requires
        k <= n,
        hex_digits(b, p, k) is Err,
    ensures
        hex_digits(b, p, n) == hex_digits(b, p, k),
    decreases n - k,
{
    if k < n {
        lemma_hex_err(b, p, k, (n - 1) as nat);
    }
}

fn skip_ws(b: &[u8], p: usize) -> (q: usize)
    requires
        p <= b@.len(),
    ensures
        q == p + ws_len(b@, p as int),
        q <= b@.len(),
{
    let mut q = p;
    while q < b.len() && (b[q] == 32 || b[q] == 9 || b[q] == 10 || b[q] == 13)
        invariant
            p <= q <= b@.len(),
            p + ws_len(b@, p as int) == q + ws_len(b@, q as int),
        decreases b.len() - q,
    {
        q = q + 1;
    }
    q
}

fn hex4(b: &[u8], p: usize) -> (r: Result<u32, JsonError>)
    requires
        p <= b@.len(),
    ensures
        match r {
            Ok(v) => hex_digits(b@, p as int, 4) == Ok::<nat, JsonError>(v as nat) && v < 0x10000,
            Err(e) => hex_digits(b@, p as int, 4) == Err::<nat, JsonError>(e),
        },
{
    let mut v: u32 = 0;
    let mut k: usize = 0;
    while k < 4
        invariant
            p <= b@.len(),
            k <= 4,
            hex_digits(b@, p as int, k as nat) == Ok::<nat, JsonError>(v as nat),
            v < pow16(k as nat),
        decreases 4 - k,
    {
        assert(hex_digits(b@, p as int, (k + 1) as nat) == match hex_digits(b@, p as int, k as nat) {
            Err(e) => Err(e),
            Ok(w) => {
                let q = p + k;
                if q >= b@.len() {
                    Err(JsonError::UnexpectedEnd)
                } else if !is_hex_byte(b@[q as int]) {
                    Err(JsonError::BadUnicodeEscape)
                } else {
                    Ok(w * 16 + hex_value(b@[q as int]))
                }
            },
        });
        if b.len() - p <= k {
            proof {
                lemma_hex_err(b@, p as int, (k + 1) as nat, 4);
            }
            return Err(JsonError::UnexpectedEnd);
        }
        let c = b[p + k];
        let d: u32 = if 48 <= c && c <= 57 {
            (c - 48) as u32
        } else if 97 <= c && c <= 102 {
            (c - 87) as u32
        } else if 65 <= c && c <= 70 {
            (c - 55) as u32
        } else {
            proof {
                lemma_hex_err(b@, p as int, (k + 1) as nat, 4);
            }
            return Err(JsonError::BadUnicodeEscape);
        };
        assert(pow16((k + 1) as nat) == 16 * pow16(k as nat));
        assert(pow16(0) == 1 && pow16(1) == 16 && pow16(2) == 256 && pow16(3) == 4096) by {
            reveal_with_fuel(pow16, 4);
        }
        assert(v * 16 + d < pow16((k + 1) as nat));
        v = v * 16 + d;
        k = k + 1;
    }
    assert(pow16(4) == 0x10000) by {
        reveal_with_fuel(pow16, 5);
    }
    Ok(v)
}

fn unicode_escape_exec(b: &[u8], p: usize) -> (r: Result<(Vec<u8>, usize), JsonError>)
    requires
        p <= b@.len(),
    ensures
        match r {
            Ok((v, q)) => unicode_escape(b@, p as int) == Ok::<(Seq<u8>, int), JsonError>((v@, q as int)),
            Err(e) => unicode_escape(b@, p as int) == Err::<(Seq<u8>, int), JsonError>(e),
        },
{
    proof {
        lemma_hex_digits(b@, p as int, 4);
    }
    let hi = match hex4(b, p) {
        Ok(v) => v,
        Err(e) => {
            return Err(e);
        },
    };
    assert(p + 4 <= b.len());
    if 0xD800 <= hi && hi <= 0xDBFF {
        let q = skip_ws(b, p + 4);
        if q >= b.len() {
            return Err(JsonError::UnexpectedEnd);
        }
        if b[q] != 92 {
            return Err(JsonError::Expected(92));
        }
        let r = skip_ws(b, q + 1);
        if r >= b.len() {
            return Err(JsonError::UnexpectedEnd);
        }
        if b[r] != 117 {
            return Err(JsonError::Expected(117));
        }
        proof {
            lemma_hex_digits(b@, r + 1, 4);
        }
        let lo = match hex4(b, r + 1) {
            Ok(v) => v,
            Err(e) => {
                return Err(e);
            },
        };
        let cp = (0x10000u32 + (hi - 0xD800) * 1024).wrapping_add(lo.wrapping_sub(0xDC00));
        assert(cp == pair_value(hi, lo));
        match char_from_u32(cp) {
            Some(c) => Ok((utf8_of(c), r + 5)),
            None => Err(JsonError::BadUnicodeEscape),
        }
    } else {
        match char_from_u32(hi) {
            Some(c) => Ok((utf8_of(c), p + 4)),
            None => Err(JsonError::BadUnicodeEscape),
        }
    }
}

fn push_all(out: &mut Vec<u8>, bytes: &Vec<u8>)
    ensures
        final(out)@ == old(out)@ + bytes@,
{
    let mut i: usize = 0;
    while i < bytes.len()
        invariant
            i <= bytes@.len(),
            out@ == old(out)@ + bytes@.take(i as int),
        decreases bytes.len() - i,
    {
        out.push(bytes[i]);
        assert(bytes@.take(i + 1) =~= bytes@.take(i as int).push(bytes@[i as int]));
        i = i + 1;
    }
    assert(bytes@.take(i as int) =~= bytes@);
}

/// A string literal, blanks allowed before it.
fn string_lit(b: &[u8], p: usize) -> (r: Result<(String, usize), JsonError>)
    requires
        p <= b@.len(),
    ensures
        match r {
            Ok((s, q)) => json_string(b@, p as int) == Ok::<(Seq<char>, int), JsonError>((s@, q as int)),
            Err(e) => json_string(b@, p as int) == Err::<(Seq<char>, int), JsonError>(e),
        },
{
    let q = skip_ws(b, p);
    if q >= b.len() {
        return Err(JsonError::UnexpectedEnd);
    }
    if b[q] != 34 {
        return Err(JsonError::Expected(34));
    }
    let mut out: Vec<u8> = Vec::new();
    let mut pos = q + 1;
    let mut end: usize = 0;
    loop
        invariant
            q + 1 <= pos <= b@.len(),
            q < b@.len(),
            q == p + ws_len(b@, p as int),
            b@[q as int] == 34,
            string_body(b@, q + 1, seq![]) == string_body(b@, pos as int, out@),
        ensures
            string_body(b@, q + 1, seq![]) == Ok::<(Seq<u8>, int), JsonError>((out@, end as int)),
        decreases b.len() - pos,
    {
        if pos >= b.len() {
            return Err(JsonError::UnexpectedEnd);
        }
        let c = b[pos];
        if c == 34 {
            end = pos + 1;
            break;
        } else if c == 92 {
            if pos + 1 >= b.len() {
                return Err(JsonError::UnexpectedEnd);
            }
            let e = b[pos + 1];
            if e == 34 || e == 92 || e == 47 {
                out.push(e);
                pos = pos + 2;
            } else if e == 98 {
                out.push(8);
                pos = pos + 2;
            } else if e == 102 {
                out.push(12);
                pos = pos + 2;
            } else if e == 110 {
                out.push(10);
                pos = pos + 2;
            } else if e == 114 {
                out.push(13);
                pos = pos + 2;
            } else if e == 116 {
                out.push(9);
                pos = pos + 2;
            } else if e == 117 {
                proof {
                    lemma_unicode_escape(b@, pos + 2);
                }
                match unicode_escape_exec(b, pos + 2) {
                    Ok((bytes, next)) => {
                        push_all(&mut out, &bytes);
                        pos = next;
                    },
                    Err(err) => {
                        return Err(err);
                    },
                }
            } else {
                return Err(JsonError::UnknownEscape);
            }
        } else {
            out.push(c);
            pos = pos + 1;
        }
    }
    let ghost bytes = out@;
    match string_from_utf8(out) {
        Some(s) => Ok((s, end)),
        None => Err(JsonError::InvalidUtf8),
    }
}

pub fn digits_from(t: &[u8], p: usize) -> (k: usize)
    requires
        p <= t@.len(),
    ensures
        k == p + digit_len(t@, p as int),
        k <= t@.len(),
{
    let mut k = p;
    while k < t.len() && 48 <= t[k] && t[k] <= 57
        invariant
            p <= k <= t@.len(),
            p + digit_len(t@, p as int) == k + digit_len(t@, k as int),
        decreases t.len() - k,
    {
        k = k + 1;
    }
    k
}

/// Whether a number's text has decimal floating-point syntax.
fn float_syntax_exec(t: &[u8]) -> (r: bool)
    ensures
        r == float_syntax(t@),
{
    let s: usize = if t.len() > 0 && (t[0] == 43 || t[0] == 45) { 1 } else { 0 };
    let a = digits_from(t, s);
    let d1 = a - s;
    let has_dot = a < t.len() && t[a] == 46;
    let m = if has_dot { digits_from(t, a + 1) } else { a };
    let d2 = if has_dot { m - (a + 1) } else { 0 };
    if d1 + d2 == 0 {
        return false;
    }
    if m == t.len() {
        return true;
    }
    if !(t[m] == 101 || t[m] == 69) {
        return false;
    }
    let es: usize = if m + 1 < t.len() && (t[m + 1] == 43 || t[m + 1] == 45) { 1 } else { 0 };
    let e_end = digits_from(t, m + 1 + es);
    e_end > m + 1 + es && e_end == t.len()
}

fn num_scan(b: &[u8], q: usize) -> (k: usize)
    requires
        q <= b@.len(),
    ensures
        k == q + num_len(b@, q as int),
        k <= b@.len(),
{
    let mut k = q;
    while k < b.len() && ((48 <= b[k] && b[k] <= 57) || b[k] == 45 || b[k] == 43 || b[k] == 46
        || b[k] == 101 || b[k] == 69)
        invariant
            q <= k <= b@.len(),
            q + num_len(b@, q as int) == k + num_len(b@, k as int),
        decreases b.len() - k,
    {
        k = k + 1;
    }
    k
}

fn spelled(b: &[u8], q: usize, word: &[u8]) -> (r: bool)
    requires
        q <= b@.len(),
    ensures
        r == spelled_at(b@, q as int, word@),
{
    if word.len() > b.len() - q {
        return false;
    }
    let mut i: usize = 0;
    while i < word.len()
        invariant
            q + word.len() <= b.len(),
            i <= word@.len(),
            forall|k: int| 0 <= k < i ==> b@[q + k] == word@[k],
        decreases word.len() - i,
    {
        if b[q + i] != word[i] {
            assert(b@.subrange(q as int, q + word@.len())[i as int] != word@[i as int]);
            return false;
        }
        i = i + 1;
    }
    assert(b@.subrange(q as int, q + word@.len()) =~= word@);
    true
}

/// A JSON value, blanks allowed before it, and the index after it.
fn value(b: &[u8], p: usize) -> (r: Result<(Json, usize), JsonError>)
    requires
        p <= b@.len(),
    ensures
        match r {
            Ok((j, q)) => {
                &&& json_value(b@, p as int) == Ok::<(JsonV, int), JsonError>((json_view(j), q as int))
                &&& p < q <= b@.len()
            },
            Err(e) => json_value(b@, p as int) == Err::<(JsonV, int), JsonError>(e),
        },
    decreases b@.len() - p, 1int,
{
    let q = skip_ws(b, p);
    if q >= b.len() {
        return Err(JsonError::UnexpectedEnd);
    }
    let c = b[q];
    if c == 34 {
        proof {
            lemma_json_string(b@, q as int);
        }
        match string_lit(b, q) {
            Ok((s, r)) => Ok((Json::Str(s), r)),
            Err(e) => Err(e),
        }
    } else if c == 123 || c == 91 {
        let r = skip_ws(b, q + 1);
        if r >= b.len() {
            return Err(JsonError::UnexpectedEnd);
        }
        if c == 123 {
            if b[r] == 125 {
                assert(fields_view(Seq::<(String, Json)>::empty()) =~= Seq::<(Seq<char>, JsonV)>::empty());
                Ok((Json::Obj(Vec::new()), r + 1))
            } else {
                fields(b, r)
            }
        } else {
            if b[r] == 93 {
                assert(items_view(Seq::<Json>::empty()) =~= Seq::<JsonV>::empty());
                Ok((Json::Arr(Vec::new()), r + 1))
            } else {
                items(b, r)
            }
        }
    } else if c == 116 {
        let word: [u8; 4] = [116, 114, 117, 101];
        assert(word@ =~= word_true());
        if spelled(b, q, &word) {
            Ok((Json::Bool(true), q + 4))
        } else {
            Err(JsonError::UnknownLiteral)
        }
    } else if c == 102 {
        let word: [u8; 5] = [102, 97, 108, 115, 101];
        assert(word@ =~= word_false());
        if spelled(b, q, &word) {
            Ok((Json::Bool(false), q + 5))
        } else {
            Err(JsonError::UnknownLiteral)
        }
    } else if c == 110 {
        let word: [u8; 4] = [110, 117, 108, 108];
        assert(word@ =~= word_null());
        if spelled(b, q, &word) {
            Ok((Json::Null, q + 4))
        } else {
            Err(JsonError::UnknownLiteral)
        }
    } else {
        let k = num_scan(b, q);
        let t = vstd::slice::slice_subrange(b, q, k);
        if float_syntax_exec(t) {
            Ok((Json::Num(vstd::slice::slice_to_vec(t)), k))
        } else {
            Err(JsonError::BadNumber)
        }
    }
}

/// The items of an array from `r`, after its `[`.
fn items(b: &[u8], r: usize) -> (res: Result<(Json, usize), JsonError>)
    requires
        r <= b@.len(),
    ensures
        match res {
            Ok((j, q)) => {
                &&& json_items(b@, r as int, seq![]) == Ok::<(JsonV, int), JsonError>((json_view(j), q as int))
                &&& r < q <= b@.len()
            },
            Err(e) => json_items(b@, r as int, seq![]) == Err::<(JsonV, int), JsonError>(e),
        },
    decreases b@.len() - r, 2int,
{
    let mut acc: Vec<Json> = Vec::new();
    let mut pos = r;
    assert(items_view(acc@) =~= Seq::<JsonV>::empty());
    loop
        invariant
            r <= pos <= b@.len(),
            json_items(b@, r as int, seq![]) == json_items(b@, pos as int, items_view(acc@)),
        decreases b@.len() - pos,
    {
        match value(b, pos) {
            Err(e) => {
                return Err(e);
            },
            Ok((v, p1)) => {
                let p2 = skip_ws(b, p1);
                if p2 >= b.len() {
                    return Err(JsonError::UnexpectedEnd);
                }
                let ghost before = acc@;
                let ghost jv = json_view(v);
                acc.push(v);
                assert(acc@.drop_last() =~= before);
                assert(items_view(acc@) == items_view(before).push(jv));
                if b[p2] == 44 {
                    pos = p2 + 1;
                } else if b[p2] == 93 {
                    return Ok((Json::Arr(acc), p2 + 1));
                } else {
                    return Err(JsonError::ExpectedCommaOrBracket);
                }
            },
        }
    }
}

/// The fields of an object from `r`, after its `{`.
fn fields(b: &[u8], r: usize) -> (res: Result<(Json, usize), JsonError>)
    requires
        r <= b@.len(),
    ensures
        match res {
            Ok((j, q)) => {
                &&& json_fields(b@, r as int, seq![]) == Ok::<(JsonV, int), JsonError>((json_view(j), q as int))
                &&& r < q <= b@.len()
            },
            Err(e) => json_fields(b@, r as int, seq![]) == Err::<(JsonV, int), JsonError>(e),
        },
    decreases b@.len() - r, 2int,
{
    let mut acc: Vec<(String, Json)> = Vec::new();
    let mut pos = r;
    assert(fields_view(acc@) =~= Seq::<(Seq<char>, JsonV)>::empty());
    loop
        invariant
            r <= pos <= b@.len(),
            json_fields(b@, r as int, seq![]) == json_fields(b@, pos as int, fields_view(acc@)),
        decreases b@.len() - pos,
    {
        proof {
            lemma_json_string(b@, pos as int);
        }
        let (key, p1) = match string_lit(b, pos) {
            Err(e) => {
                return Err(e);
            },
            Ok(kp) => kp,
        };
        let p2 = skip_ws(b, p1);
        if p2 >= b.len() {
            return Err(JsonError::UnexpectedEnd);
        }
        if b[p2] != 58 {
            return Err(JsonError::Expected(58));
        }
        match value(b, p2 + 1) {
            Err(e) => {
                return Err(e);
            },
            Ok((v, p3)) => {
                let p4 = skip_ws(b, p3);
                if p4 >= b.len() {
                    return Err(JsonError::UnexpectedEnd);
                }
                let ghost before = acc@;
                let ghost kv = (key@, json_view(v));
                acc.push((key, v));
                assert(acc@.drop_last() =~= before);
                assert(fields_view(acc@) == fields_view(before).push(kv));
                if b[p4] == 44 {
                    pos = p4 + 1;
                } else if b[p4] == 125 {
                    return Ok((Json::Obj(acc), p4 + 1));
                } else {
                    return Err(JsonError::ExpectedCommaOrBrace);
                }
            },
        }
    }
}

/// Parses the JSON value at the start of `bytes` (after blanks); what follows it is not
/// looked at.
pub fn parse_json(bytes: &[u8]) -> (r: Result<Json, JsonError>)
    ensures
        match r {
            Ok(j) => json_value(bytes@, 0) matches Ok((v, _)) && v == json_view(j),
            Err(e) => json_value(bytes@, 0) == Err::<(JsonV, int), JsonError>(e),
        },
{
    match value(bytes, 0) {
        Ok((j, _)) => Ok(j),
        Err(e) => Err(e),
    }
}

/// The view of a list of fields, field by field.
pub proof fn lemma_fields_view(s: Seq<(String, Json)>)
    ensures
        fields_view(s).len() == s.len(),
        forall|i: int| 0 <= i < s.len() ==> #[trigger] fields_view(s)[i] == (s[i].0@, json_view(s[i].1)),
    decreases s.len(),
{
    if s.len() > 0 {
        lemma_fields_view(s.drop_last());
        assert forall|i: int| 0 <= i < s.len() implies #[trigger] fields_view(s)[i] == (s[i].0@, json_view(s[i].1)) by {
            if i < s.len() - 1 {
                assert(s.drop_last()[i] == s[i]);
            }
        }
    }
}

/// The view of a list of values, value by value.
pub proof fn lemma_items_view(s: Seq<Json>)
    ensures
        items_view(s).len() == s.len(),
        forall|i: int| 0 <= i < s.len() ==> #[trigger] items_view(s)[i] == json_view(s[i]),
    decreases s.len(),
{
    if s.len() > 0 {
        lemma_items_view(s.drop_last());
        assert forall|i: int| 0 <= i < s.len() implies #[trigger] items_view(s)[i] == json_view(s[i]) by {
            if i < s.len() - 1 {
                assert(s.drop_last()[i] == s[i]);
            }
        }
    }
}

} // verus!
