use vstd::prelude::*;

use crate::emit::{dims_x, push_dims_x, tensor_prefix, tensor_type_spec};
use crate::graph::{dtype_name_spec, Dtype};
use crate::json::{fields_view, items_view, json_value, json_view, lemma_items_view, parse_json, Json, JsonError, JsonV};
use crate::runtime::{fits_at, nested_at, nested_text, prod_from};
use crate::table::{lower, lower_char, strings_view};
use crate::text::{field, field_of};
use crate::strs::{
    chars_eq, chars_of, copy_chars, find_from, decimal_chars, digit_char, digits_value, all_digits, first_match,
    is_digit_char, is_white, parse_usize, parse_usize_spec, push_str_chars, split_by, split_pat,
    string_from_chars, trim_chars, trim_from, trim_spec, trim_to, white,
};

verus! {

/// An input or output of a served model: its shape and element type.
pub struct Port {
    pub shape: Vec<usize>,
    pub dtype: Dtype,
}

/// Why a tensor type in a model's signature cannot be served; the text is `String` in
/// running code and `Seq<char>` in specifications.
#[derive(Debug, Clone, PartialEq)]
pub enum PortError<S = String> {
    /// The whole type text, which is not `tensor<...>` with decimal dimensions.
    UnrecognizedType(S),
    /// The element type, which is neither `f32` nor `f64`.
    UnservableDtype(S),
}

impl View for PortError<String> {
    type V = PortError<Seq<char>>;

    open spec fn view(&self) -> PortError<Seq<char>> {
        match self {
            PortError::UnrecognizedType(s) => PortError::UnrecognizedType(s@),
            PortError::UnservableDtype(s) => PortError::UnservableDtype(s@),
        }
    }
}

pub open spec fn text_f32() -> Seq<char> {
    seq!['f', '3', '2']
}

pub open spec fn text_f64() -> Seq<char> {
    seq!['f', '6', '4']
}

/// The dimensions written in `parts`, each read as `usize::from_str` reads it.
pub open spec fn parse_dims(parts: Seq<Seq<char>>) -> Option<Seq<usize>> {
    if forall|i: int| 0 <= i < parts.len() ==> (#[trigger] parse_usize_spec(parts[i])) is Some {
        Some(Seq::new(parts.len(), |i: int| parse_usize_spec(parts[i])->0 as usize))
    } else {
        None
    }
}

/// A tensor type as a served model's signature writes it: blanks around it allowed, then
/// `tensor<`, the dimensions each followed by `x`, `f32` or `f64`, and `>`.
pub open spec fn parse_tensor_type_spec(s: Seq<char>) -> Result<(Seq<usize>, Dtype), PortError<Seq<char>>> {
    let t = trim_spec(s);
    if !(t.len() >= 8 && t.take(7) == tensor_prefix() && t.last() == '>') {
        Err(PortError::UnrecognizedType(s))
    } else {
        let parts = split_pat(t.subrange(7, t.len() - 1), seq!['x']);
        let last = parts.last();
        let dtype = if last == text_f32() {
            Some(Dtype::F32)
        } else if last == text_f64() {
            Some(Dtype::F64)
        } else {
            None
        };
        match dtype {
            None => Err(PortError::UnservableDtype(last)),
            Some(d) => match parse_dims(parts.drop_last()) {
                None => Err(PortError::UnrecognizedType(s)),
                Some(dims) => Ok((dims, d)),
            },
        }
    }
}

pub proof fn lemma_split_nonempty(s: Seq<char>, pat: Seq<char>)
    ensures
        split_pat(s, pat).len() >= 1,
    decreases s.len(),
{
    if pat.len() > 0 {
        if let Some(k) = first_match(s, pat, 0) {
            crate::strs::lemma_first_match(s, pat, 0);
            lemma_split_nonempty(s.skip(k + pat.len()), pat);
        }
    }
}

/// Reads a tensor type of a served model's signature.
pub fn parse_tensor_type(s: &str) -> (r: Result<Port, PortError>)
    ensures
        match r {
            Ok(p) => parse_tensor_type_spec(s@) == Ok::<(Seq<usize>, Dtype), PortError<Seq<char>>>(
                (p.shape@, p.dtype),
            ),
            Err(e) => parse_tensor_type_spec(s@) == Err::<(Seq<usize>, Dtype), PortError<Seq<char>>>(e@),
        },
{
    let cs = chars_of(s);
    let t = trim_chars(cs.as_slice());
    let prefix: [char; 7] = ['t', 'e', 'n', 's', 'o', 'r', '<'];
    assert(prefix@ =~= tensor_prefix());
    if t.len() < 8 || t[t.len() - 1] != '>' {
        return Err(PortError::UnrecognizedType(string_from_chars(cs.as_slice())));
    }
    let head = copy_chars(t.as_slice(), 0, 7);
    assert(head@ =~= t@.take(7));
    if !chars_eq(head.as_slice(), &prefix) {
        return Err(PortError::UnrecognizedType(string_from_chars(cs.as_slice())));
    }
    let inner = copy_chars(t.as_slice(), 7, t.len() - 1);
    let sep: [char; 1] = ['x'];
    assert(sep@ =~= seq!['x']);
    let parts = split_by(inner.as_slice(), &sep);
    proof {
        lemma_split_nonempty(inner@, seq!['x']);
    }
    let ghost sp = split_pat(inner@, seq!['x']);
    let n = parts.len();
    let last = &parts[n - 1];
    assert(last@ == sp.last());
    let f32_text: [char; 3] = ['f', '3', '2'];
    let f64_text: [char; 3] = ['f', '6', '4'];
    assert(f32_text@ =~= text_f32());
    assert(f64_text@ =~= text_f64());
    let dtype = if chars_eq(last.as_slice(), &f32_text) {
        Dtype::F32
    } else if chars_eq(last.as_slice(), &f64_text) {
        Dtype::F64
    } else {
        return Err(PortError::UnservableDtype(string_from_chars(last.as_slice())));
    };
    let ghost dims_text = sp.drop_last();
    let ghost rest = match parse_dims(dims_text) {
        None => Err(PortError::UnrecognizedType(s@)),
        Some(dims) => Ok((dims, dtype)),
    };
    assert(inner@ =~= trim_spec(s@).subrange(7, trim_spec(s@).len() - 1));
    assert(parse_tensor_type_spec(s@) == rest);
    let mut shape: Vec<usize> = Vec::new();
    let mut i: usize = 0;
    while i < n - 1
        invariant
            n == parts@.len(),
            n == sp.len(),
            n >= 1,
            dims_text == sp.drop_last(),
            cs@ == s@,
            parse_tensor_type_spec(s@) == rest,
            rest == match parse_dims(dims_text) {
                None => Err(PortError::UnrecognizedType(s@)),
                Some(dims) => Ok((dims, dtype)),
            },
            forall|k: int| 0 <= k < n ==> #[trigger] parts@[k]@ == sp[k],
            i <= n - 1,
            shape@.len() == i,
            forall|k: int| 0 <= k < i ==> (#[trigger] parse_usize_spec(dims_text[k])) == Some(shape@[k] as nat),
        decreases n - 1 - i,
    {
        match parse_usize(parts[i].as_slice()) {
            Some(d) => {
                shape.push(d);
            },
            None => {
                assert(parse_usize_spec(dims_text[i as int]) is None);
                assert(parse_dims(dims_text) is None);
                return Err(PortError::UnrecognizedType(string_from_chars(cs.as_slice())));
            },
        }
        i = i + 1;
    }
    assert(shape@ =~= Seq::new(dims_text.len(), |k: int| parse_usize_spec(dims_text[k])->0 as usize));
    Ok(Port { shape, dtype })
}

/// How a port is written in the served signature: the dimensions joined by `x`, an `x`
/// after them when there are any, then the element type.
pub open spec fn port_text_spec(shape: Seq<usize>, dtype: Dtype) -> Seq<char> {
    dims_x(shape) + dtype_name_spec(dtype)
}

/// The text of a port in the served signature.
pub fn port_text(p: &Port) -> (s: String)
    ensures
        s@ == port_text_spec(p.shape@, p.dtype),
{
    let mut out: Vec<char> = Vec::new();
    push_dims_x(&mut out, p.shape.as_slice());
    push_str_chars(&mut out, p.dtype.name());
    assert(out@ =~= port_text_spec(p.shape@, p.dtype));
    string_from_chars(out.as_slice())
}

pub open spec fn no_x(s: Seq<char>) -> bool {
    forall|i: int| 0 <= i < s.len() ==> s[i] != 'x'
}

proof fn lemma_split_x_front(a: Seq<char>, rest: Seq<char>)
    requires
        no_x(a),
    ensures
        split_pat(a + seq!['x'] + rest, seq!['x']) == seq![a] + split_pat(rest, seq!['x']),
{
    let s = a + seq!['x'] + rest;
    assert forall|j: int| 0 <= j < a.len() implies #[trigger] s.subrange(j, j + 1) != seq!['x'] by {
        assert(s.subrange(j, j + 1)[0] == a[j]);
    }
    assert(s.subrange(a.len() as int, a.len() as int + 1) =~= seq!['x']);
    crate::strs::lemma_first_match_at(s, seq!['x'], 0, a.len() as int);
    assert(s.take(a.len() as int) =~= a);
    assert(s.skip(a.len() as int + 1) =~= rest);
}

proof fn lemma_split_x_none(w: Seq<char>)
    requires
        no_x(w),
    ensures
        split_pat(w, seq!['x']) == seq![w],
{
    assert forall|j: int| 0 <= j && j + 1 <= w.len() implies #[trigger] w.subrange(j, j + 1) != seq!['x'] by {
        assert(w.subrange(j, j + 1)[0] == w[j]);
    }
    crate::strs::lemma_first_match_none(w, seq!['x'], 0);
}

proof fn lemma_split_dims(shape: Seq<usize>, w: Seq<char>)
    requires
        no_x(w),
    ensures
        split_pat(dims_x(shape) + w, seq!['x']) == Seq::new(shape.len(), |i: int| decimal_chars(shape[i] as nat)).push(w),
    decreases shape.len(),
{
    if shape.len() == 0 {
        assert(dims_x(shape) + w =~= w);
        lemma_split_x_none(w);
        assert(Seq::new(0, |i: int| decimal_chars(shape[i] as nat)).push(w) =~= seq![w]);
    } else {
        let a = decimal_chars(shape[0] as nat);
        crate::strs::lemma_decimal_chars(shape[0] as nat);
        assert(no_x(a)) by {
            assert forall|i: int| 0 <= i < a.len() implies a[i] != 'x' by {
                assert(is_digit_char(a[i]));
            }
        }
        let t = shape.skip(1);
        lemma_split_dims(t, w);
        assert(dims_x(shape) + w =~= a + seq!['x'] + (dims_x(t) + w));
        lemma_split_x_front(a, dims_x(t) + w);
        assert(Seq::new(shape.len(), |i: int| decimal_chars(shape[i] as nat)).push(w) =~= seq![a] + Seq::new(
            t.len(),
            |i: int| decimal_chars(t[i] as nat),
        ).push(w));
    }
}

/// Serving reads back the tensor types that compilation writes: for `f32` and `f64`
/// tensors of any shape, `parse_tensor_type` of `tensor_type` gives the shape and element
/// type back, and the port's text is what stands between `tensor<` and `>`.
pub proof fn law_tensor_type_roundtrip(shape: Seq<usize>, dtype: Dtype)
    requires
        dtype == Dtype::F32 || dtype == Dtype::F64,
    ensures
        parse_tensor_type_spec(tensor_type_spec(shape, dtype)) == Ok::<
            (Seq<usize>, Dtype),
            PortError<Seq<char>>,
        >((shape, dtype)),
        tensor_type_spec(shape, dtype) == tensor_prefix() + port_text_spec(shape, dtype) + seq!['>'],
{
    let s = tensor_type_spec(shape, dtype);
    let name = dtype_name_spec(dtype);
    assert(s[0] == 't');
    assert(s.last() == '>');
    assert(trim_from(s, 0) == 0);
    assert(trim_to(s, s.len() as int) == s.len());
    assert(trim_spec(s) =~= s);
    assert(s.take(7) =~= tensor_prefix());
    let inner = s.subrange(7, s.len() - 1);
    assert(inner =~= dims_x(shape) + name);
    assert(no_x(name));
    lemma_split_dims(shape, name);
    let parts = split_pat(inner, seq!['x']);
    assert(parts.last() == name);
    let dims = parts.drop_last();
    assert(dims =~= Seq::new(shape.len(), |i: int| decimal_chars(shape[i] as nat)));
    assert forall|i: int| 0 <= i < dims.len() implies (#[trigger] parse_usize_spec(dims[i])) == Some(
        shape[i] as nat,
    ) by {
        crate::strs::lemma_parse_decimal(shape[i] as nat);
    }
    assert(parse_dims(dims) == Some(shape)) by {
        assert(Seq::new(dims.len(), |i: int| parse_usize_spec(dims[i])->0 as usize) =~= shape);
    }
    assert(s =~= tensor_prefix() + port_text_spec(shape, dtype) + seq!['>']);
}

/// Why a model's signature cannot be served.
#[derive(Debug, Clone, PartialEq)]
pub enum SigError<S = String> {
    /// No line declares `func.func @main`.
    NoMain,
    Malformed,
    Port(PortError<S>),
}

impl View for SigError<String> {
    type V = SigError<Seq<char>>;

    open spec fn view(&self) -> SigError<Seq<char>> {
        match self {
            SigError::NoMain => SigError::NoMain,
            SigError::Malformed => SigError::Malformed,
            SigError::Port(e) => SigError::Port(e@),
        }
    }
}

/// A port as specifications see it.
pub type PortV = (Seq<usize>, Dtype);

pub open spec fn ports_view(ps: Seq<Port>) -> Seq<PortV> {
    Seq::new(ps.len(), |i: int| (ps[i].shape@, ps[i].dtype))
}

pub open spec fn main_marker() -> Seq<char> {
    seq!['f', 'u', 'n', 'c', '.', 'f', 'u', 'n', 'c', ' ', '@', 'm', 'a', 'i', 'n']
}

/// The first line that holds `marker`.
pub open spec fn line_with(lines: Seq<Seq<char>>, marker: Seq<char>) -> Option<Seq<char>>
    decreases lines.len(),
{
    if lines.len() == 0 {
        None
    } else if first_match(lines[0], marker, 0) is Some {
        Some(lines[0])
    } else {
        line_with(lines.skip(1), marker)
    }
}

/// The parameters of the signature, `name: type` each, blank pieces skipped.
pub open spec fn parse_params(ps: Seq<Seq<char>>) -> Result<Seq<PortV>, SigError<Seq<char>>>
    decreases ps.len(),
{
    if ps.len() == 0 {
        Ok(seq![])
    } else if trim_spec(ps[0]).len() == 0 {
        parse_params(ps.skip(1))
    } else {
        let parts = split_pat(ps[0], seq![':']);
        if parts.len() < 2 {
            Err(SigError::Malformed)
        } else {
            match parse_tensor_type_spec(parts[1]) {
                Err(e) => Err(SigError::Port(e)),
                Ok(t) => match parse_params(ps.skip(1)) {
                    Err(e) => Err(e),
                    Ok(rest) => Ok(seq![t] + rest),
                },
            }
        }
    }
}

/// The result types of the signature.
pub open spec fn parse_results(ps: Seq<Seq<char>>) -> Result<Seq<PortV>, SigError<Seq<char>>>
    decreases ps.len(),
{
    if ps.len() == 0 {
        Ok(seq![])
    } else {
        match parse_tensor_type_spec(ps[0]) {
            Err(e) => Err(SigError::Port(e)),
            Ok(t) => match parse_results(ps.skip(1)) {
                Err(e) => Err(e),
                Ok(rest) => Ok(seq![t] + rest),
            },
        }
    }
}

pub open spec fn arrow() -> Seq<char> {
    seq!['-', '>', ' ', '(']
}

/// The inputs and outputs a compiled module's `@main` declares: the parameters between the
/// first `(` and the first `)` of its line, and the types in the parentheses after `-> (`
/// that follows, if any.
pub open spec fn parse_signature_spec(m: Seq<char>) -> Result<(Seq<PortV>, Seq<PortV>), SigError<Seq<char>>> {
    match line_with(split_pat(m, seq!['\n']), main_marker()) {
        None => Err(SigError::NoMain),
        Some(line) => match (first_match(line, seq!['('], 0), first_match(line, seq![')'], 0)) {
            (Some(open), Some(close)) => {
                if close < open {
                    Err(SigError::Malformed)
                } else {
                    match parse_params(split_pat(line.subrange(open + 1, close), seq![','])) {
                        Err(e) => Err(e),
                        Ok(params) => {
                            let tail = line.skip(close);
                            match first_match(tail, arrow(), 0) {
                                None => Ok((params, seq![])),
                                Some(a) => {
                                    let rest = tail.skip(a + 4);
                                    match first_match(rest, seq![')'], 0) {
                                        None => Err(SigError::Malformed),
                                        Some(e) => match parse_results(split_pat(rest.take(e), seq![',', ' '])) {
                                            Err(err) => Err(err),
                                            Ok(outputs) => Ok((params, outputs)),
                                        },
                                    }
                                },
                            }
                        },
                    }
                }
            },
            _ => Err(SigError::Malformed),
        },
    }
}

/// `acc` in front of what `rest` parses to.
pub open spec fn ports_after(acc: Seq<PortV>, rest: Result<Seq<PortV>, SigError<Seq<char>>>) -> Result<
    Seq<PortV>,
    SigError<Seq<char>>,
> {
    match rest {
        Ok(r) => Ok(acc + r),
        Err(e) => Err(e),
    }
}

fn parse_param_list(pieces: &Vec<Vec<char>>) -> (r: Result<Vec<Port>, SigError>)
    ensures
        match r {
            Ok(v) => parse_params(Seq::new(pieces@.len(), |i: int| pieces@[i]@)) == Ok::<
                Seq<PortV>,
                SigError<Seq<char>>,
            >(ports_view(v@)),
            Err(e) => parse_params(Seq::new(pieces@.len(), |i: int| pieces@[i]@)) == Err::<
                Seq<PortV>,
                SigError<Seq<char>>,
            >(e@),
        },
{
    let ghost ps = Seq::new(pieces@.len(), |i: int| pieces@[i]@);
    let mut out: Vec<Port> = Vec::new();
    let mut i: usize = 0;
    assert(ps.skip(0) =~= ps);
    assert(ports_after(ports_view(out@), parse_params(ps)) == parse_params(ps)) by {
        if let Ok(r) = parse_params(ps) {
            assert(ports_view(out@) + r =~= r);
        }
    }
    let colon: [char; 1] = [':'];
    assert(colon@ =~= seq![':']);
    while i < pieces.len()
        invariant
            ps == Seq::new(pieces@.len(), |i: int| pieces@[i]@),
            colon@ == seq![':'],
            i <= pieces@.len(),
            parse_params(ps) == ports_after(ports_view(out@), parse_params(ps.skip(i as int))),
        decreases pieces.len() - i,
    {
        let ghost rest = ps.skip(i as int);
        assert(rest[0] == pieces@[i as int]@);
        assert(rest.skip(1) =~= ps.skip(i + 1));
        let t = trim_chars(pieces[i].as_slice());
        if t.len() > 0 {
            let parts = split_by(pieces[i].as_slice(), &colon);
            if parts.len() < 2 {
                return Err(SigError::Malformed);
            }
            let ty = string_from_chars(parts[1].as_slice());
            match parse_tensor_type(ty.as_str()) {
                Err(e) => {
                    return Err(SigError::Port(e));
                },
                Ok(p) => {
                    let ghost before = out@;
                    let ghost pv = (p.shape@, p.dtype);
                    out.push(p);
                    assert(ports_view(out@) =~= ports_view(before).push(pv));
                    proof {
                        if let Ok(r) = parse_params(ps.skip(i + 1)) {
                            assert(ports_view(before) + (seq![pv] + r) =~= ports_view(out@) + r);
                        }
                    }
                },
            }
        }
        i = i + 1;
    }
    assert(ps.skip(i as int) =~= Seq::<Seq<char>>::empty());
    assert(ports_view(out@) + seq![] =~= ports_view(out@));
    Ok(out)
}

fn parse_result_list(pieces: &Vec<Vec<char>>) -> (r: Result<Vec<Port>, SigError>)
    ensures
        match r {
            Ok(v) => parse_results(Seq::new(pieces@.len(), |i: int| pieces@[i]@)) == Ok::<
                Seq<PortV>,
                SigError<Seq<char>>,
            >(ports_view(v@)),
            Err(e) => parse_results(Seq::new(pieces@.len(), |i: int| pieces@[i]@)) == Err::<
                Seq<PortV>,
                SigError<Seq<char>>,
            >(e@),
        },
{
    let ghost ps = Seq::new(pieces@.len(), |i: int| pieces@[i]@);
    let mut out: Vec<Port> = Vec::new();
    let mut i: usize = 0;
    assert(ps.skip(0) =~= ps);
    assert(ports_after(ports_view(out@), parse_results(ps)) == parse_results(ps)) by {
        if let Ok(r) = parse_results(ps) {
            assert(ports_view(out@) + r =~= r);
        }
    }
    while i < pieces.len()
        invariant
            ps == Seq::new(pieces@.len(), |i: int| pieces@[i]@),
            i <= pieces@.len(),
            parse_results(ps) == ports_after(ports_view(out@), parse_results(ps.skip(i as int))),
        decreases pieces.len() - i,
    {
        let ghost rest = ps.skip(i as int);
        assert(rest[0] == pieces@[i as int]@);
        assert(rest.skip(1) =~= ps.skip(i + 1));
        let ty = string_from_chars(pieces[i].as_slice());
        match parse_tensor_type(ty.as_str()) {
            Err(e) => {
                return Err(SigError::Port(e));
            },
            Ok(p) => {
                let ghost before = out@;
                let ghost pv = (p.shape@, p.dtype);
                out.push(p);
                assert(ports_view(out@) =~= ports_view(before).push(pv));
                proof {
                    if let Ok(r) = parse_results(ps.skip(i + 1)) {
                        assert(ports_view(before) + (seq![pv] + r) =~= ports_view(out@) + r);
                    }
                }
            },
        }
        i = i + 1;
    }
    assert(ps.skip(i as int) =~= Seq::<Seq<char>>::empty());
    assert(ports_view(out@) + seq![] =~= ports_view(out@));
    Ok(out)
}

/// The inputs and outputs a compiled module's `@main` declares.
pub fn parse_signature(mlir: &str) -> (r: Result<(Vec<Port>, Vec<Port>), SigError>)
    ensures
        match r {
            Ok((ins, outs)) => parse_signature_spec(mlir@) == Ok::<
                (Seq<PortV>, Seq<PortV>),
                SigError<Seq<char>>,
            >((ports_view(ins@), ports_view(outs@))),
            Err(e) => parse_signature_spec(mlir@) == Err::<(Seq<PortV>, Seq<PortV>), SigError<Seq<char>>>(e@),
        },
{
    let cs = chars_of(mlir);
    let nl: [char; 1] = ['\n'];
    assert(nl@ =~= seq!['\n']);
    let lines = split_by(cs.as_slice(), &nl);
    let ghost ls = split_pat(cs@, seq!['\n']);
    let marker = chars_of("func.func @main");
    proof {
        reveal_strlit("func.func @main");
    }
    assert(marker@ =~= main_marker());
    let mut i: usize = 0;
    assert(ls.skip(0) =~= ls);
    while i < lines.len() && find_from(lines[i].as_slice(), marker.as_slice(), 0).is_none()
        invariant
            ls == split_pat(cs@, seq!['\n']),
            lines@.len() == ls.len(),
            forall|k: int| 0 <= k < lines@.len() ==> #[trigger] lines@[k]@ == ls[k],
            marker@ == main_marker(),
            i <= lines@.len(),
            line_with(ls, main_marker()) == line_with(ls.skip(i as int), main_marker()),
        decreases lines.len() - i,
    {
        assert(ls.skip(i as int).skip(1) =~= ls.skip(i + 1));
        i = i + 1;
    }
    if i >= lines.len() {
        assert(ls.skip(i as int) =~= Seq::<Seq<char>>::empty());
        return Err(SigError::NoMain);
    }
    let line = &lines[i];
    assert(ls.skip(i as int)[0] == ls[i as int]);
    assert(line_with(ls, main_marker()) == Some(line@));
    let lp: [char; 1] = ['('];
    let rp: [char; 1] = [')'];
    assert(lp@ =~= seq!['(']);
    assert(rp@ =~= seq![')']);
    let open = match find_from(line.as_slice(), &lp, 0) {
        None => {
            return Err(SigError::Malformed);
        },
        Some(k) => k,
    };
    let close = match find_from(line.as_slice(), &rp, 0) {
        None => {
            return Err(SigError::Malformed);
        },
        Some(k) => k,
    };
    if close < open {
        return Err(SigError::Malformed);
    }
    proof {
        crate::strs::lemma_first_match(line@, seq!['('], 0);
        crate::strs::lemma_first_match(line@, seq![')'], 0);
        assert(line@[open as int] == '(' && line@[close as int] == ')') by {
            assert(line@.subrange(open as int, open + 1)[0] == line@[open as int]);
            assert(line@.subrange(close as int, close + 1)[0] == line@[close as int]);
        }
    }
    let inside = copy_chars(line.as_slice(), open + 1, close);
    let comma: [char; 1] = [','];
    assert(comma@ =~= seq![',']);
    let pieces = split_by(inside.as_slice(), &comma);
    assert(Seq::new(pieces@.len(), |k: int| pieces@[k]@) =~= split_pat(inside@, seq![',']));
    let params = match parse_param_list(&pieces) {
        Err(e) => {
            return Err(e);
        },
        Ok(ps) => ps,
    };
    let tail = copy_chars(line.as_slice(), close, line.len());
    assert(tail@ =~= line@.skip(close as int));
    let arrow_text: [char; 4] = ['-', '>', ' ', '('];
    assert(arrow_text@ =~= arrow());
    match find_from(tail.as_slice(), &arrow_text, 0) {
        None => {
            let none: Vec<Port> = Vec::new();
            assert(ports_view(none@) =~= Seq::<PortV>::empty());
            Ok((params, none))
        },
        Some(a) => {
            proof {
                crate::strs::lemma_first_match(tail@, arrow(), 0);
            }
            let rest = copy_chars(tail.as_slice(), a + 4, tail.len());
            assert(rest@ =~= tail@.skip(a + 4));
            match find_from(rest.as_slice(), &rp, 0) {
                None => Err(SigError::Malformed),
                Some(e) => {
                    proof {
                        crate::strs::lemma_first_match(rest@, seq![')'], 0);
                    }
                    let types = copy_chars(rest.as_slice(), 0, e);
                    assert(types@ =~= rest@.take(e as int));
                    let sep: [char; 2] = [',', ' '];
                    assert(sep@ =~= seq![',', ' ']);
                    let items = split_by(types.as_slice(), &sep);
                    assert(Seq::new(items@.len(), |k: int| items@[k]@) =~= split_pat(types@, seq![',', ' ']));
                    match parse_result_list(&items) {
                        Err(err) => Err(err),
                        Ok(outs) => Ok((params, outs)),
                    }
                },
            }
        },
    }
}


/// Why an inference request is refused.
#[derive(Debug, Clone, Copy, PartialEq, Eq, Structural)]
pub enum RequestError {
    Json(JsonError),
    /// The body is not a JSON object.
    NotObject,
    /// The body has no `inputs` array.
    NoInputs,
    /// How many inputs the model takes and how many the request gives.
    InputCount(usize, usize),
    /// A value that is not a nested array of numbers.
    NotNumbers,
    /// An array with the wrong number of elements: found, expected.
    Length(usize, usize),
}

/// The numbers of a value of the given shape, in row-major order, as their texts; the
/// first misfit in reading order is the error.
pub open spec fn fill_spec(v: JsonV, shape: Seq<usize>) -> Result<Seq<Seq<u8>>, RequestError>
    decreases v, 1nat,
{
    if shape.len() == 0 {
        match v {
            JsonV::Num(t) => Ok(seq![t]),
            _ => Err(RequestError::NotNumbers),
        }
    } else {
        match v {
            JsonV::Arr(items) => if items.len() != shape[0] {
                Err(RequestError::Length(items.len() as usize, shape[0]))
            } else {
                fill_items(items, shape.skip(1))
            },
            _ => Err(RequestError::NotNumbers),
        }
    }
}

/// The numbers of each item in turn.
pub open spec fn fill_items(items: Seq<JsonV>, shape: Seq<usize>) -> Result<Seq<Seq<u8>>, RequestError>
    decreases items, 0nat,
{
    if items.len() == 0 {
        Ok(seq![])
    } else {
        match fill_items(items.drop_last(), shape) {
            Err(e) => Err(e),
            Ok(a) => match fill_spec(items[items.len() - 1], shape) {
                Err(e) => Err(e),
                Ok(b) => Ok(a + b),
            },
        }
    }
}

pub open spec fn texts_view(v: Seq<Vec<u8>>) -> Seq<Seq<u8>> {
    Seq::new(v.len(), |i: int| v[i]@)
}

/// Appends the numbers of `v`, read with the dimensions of `shape` from `d` on.
fn fill(v: &Json, shape: &[usize], d: usize, out: &mut Vec<Vec<u8>>) -> (r: Result<(), RequestError>)
    requires
        d <= shape@.len(),
    ensures
        match fill_spec(json_view(*v), shape@.skip(d as int)) {
            Ok(t) => r is Ok && texts_view(final(out)@) == texts_view(old(out)@) + t,
            Err(e) => r == Err::<(), RequestError>(e),
        },
    decreases *v,
{
    let ghost sh = shape@.skip(d as int);
    if d == shape.len() {
        match v {
            Json::Num(t) => {
                let ghost before = out@;
                out.push(t.clone());
                assert(texts_view(out@) =~= texts_view(before) + seq![t@]);
                Ok(())
            },
            _ => Err(RequestError::NotNumbers),
        }
    } else {
        match v {
            Json::Arr(items) => {
                proof {
                    lemma_items_view(items@);
                }
                let ghost iv = items_view(items@);
                if items.len() != shape[d] {
                    return Err(RequestError::Length(items.len(), shape[d]));
                }
                assert(shape@.skip(d + 1) =~= sh.skip(1));
                let n = shape.len();
                let ghost start = out@;
                assert(texts_view(out@).skip(start.len() as int) =~= Seq::<Seq<u8>>::empty());
                let mut i: usize = 0;
                assert(iv.take(0) =~= Seq::<JsonV>::empty());
                while i < items.len()
                    invariant
                        iv == items_view(items@),
                        iv.len() == items@.len(),
                        forall|k: int| 0 <= k < items@.len() ==> #[trigger] iv[k] == json_view(items@[k]),
                        n == shape@.len(),
                        d < n,
                        sh == shape@.skip(d as int),
                        shape@.skip(d + 1) == sh.skip(1),
                        iv.len() == sh[0],
                        i <= items@.len(),
                        fill_items(iv.take(i as int), shape@.skip(d + 1)) == Ok::<Seq<Seq<u8>>, RequestError>(
                            texts_view(out@).skip(start.len() as int),
                        ),
                        texts_view(out@).take(start.len() as int) == texts_view(start),
                        out@.len() >= start.len(),
                        *v == Json::Arr(*items),
                    decreases items.len() - i,
                {
                    assert(iv.take(i + 1).drop_last() =~= iv.take(i as int));
                    assert(iv.take(i + 1)[i as int] == json_view(items@[i as int]));
                    let ghost mid = out@;
                    proof {
                        assert(decreases_to!(*v => items@[i as int]));
                    }
                    match fill(&items[i], shape, d + 1, out) {
                        Err(e) => {
                            proof {
                                assert(fill_items(iv.take(i + 1), sh.skip(1)) == Err::<Seq<Seq<u8>>, RequestError>(e));
                                lemma_fill_prefix_err(iv, sh.skip(1), i + 1);
                                assert(iv.take(iv.len() as int) =~= iv);
                            }
                            return Err(e);
                        },
                        Ok(()) => {},
                    }
                    proof {
                        let r1 = fill_spec(json_view(items@[i as int]), sh.skip(1));
                        assert(r1 is Ok);
                        let t = r1->Ok_0;
                        assert(texts_view(out@) == texts_view(mid) + t);
                        assert(texts_view(out@).take(start.len() as int) =~= texts_view(start)) by {
                            assert(texts_view(mid).take(start.len() as int) == texts_view(start));
                        }
                        assert(texts_view(out@).skip(start.len() as int) =~= texts_view(mid).skip(start.len() as int)
                            + t);
                        assert(fill_items(iv.take(i + 1), sh.skip(1)) == Ok::<Seq<Seq<u8>>, RequestError>(
                            texts_view(mid).skip(start.len() as int) + t,
                        ));
                    }
                    i = i + 1;
                }
                assert(iv.take(i as int) =~= iv);
                assert(texts_view(out@) =~= texts_view(start) + texts_view(out@).skip(start.len() as int));
                Ok(())
            },
            _ => Err(RequestError::NotNumbers),
        }
    }
}


proof fn lemma_fill_prefix_err(items: Seq<JsonV>, shape: Seq<usize>, k: int)
    requires
        0 <= k <= items.len(),
        fill_items(items.take(k), shape) is Err,
    ensures
        fill_items(items, shape) == fill_items(items.take(k), shape),
    decreases items.len() - k,
{
    if k < items.len() {
        assert(items.take(k + 1).drop_last() =~= items.take(k));
        lemma_fill_prefix_err(items, shape, k + 1);
    } else {
        assert(items.take(k) =~= items);
    }
}


pub open spec fn text_inputs() -> Seq<char> {
    seq!['i', 'n', 'p', 'u', 't', 's']
}

/// The numbers of each given input read with the shape of its port, in order.
pub open spec fn fill_ports(given: Seq<JsonV>, ports: Seq<PortV>) -> Result<Seq<Seq<Seq<u8>>>, RequestError>
    decreases given.len(),
{
    if given.len() == 0 {
        Ok(seq![])
    } else {
        match fill_ports(given.drop_last(), ports) {
            Err(e) => Err(e),
            Ok(a) => match fill_spec(given.last(), ports[given.len() - 1].0) {
                Err(e) => Err(e),
                Ok(b) => Ok(a.push(b)),
            },
        }
    }
}

/// What an inference request asks for: a JSON object whose first `inputs` field is an
/// array with one nested array of numbers per port, shaped as the port is.
pub open spec fn request_spec(body: Seq<u8>, ports: Seq<PortV>) -> Result<Seq<Seq<Seq<u8>>>, RequestError> {
    match json_value(body, 0) {
        Err(e) => Err(RequestError::Json(e)),
        Ok((JsonV::Obj(fs), _)) => match field_of(fs, text_inputs()) {
            Some(JsonV::Arr(given)) => if given.len() != ports.len() {
                Err(RequestError::InputCount(ports.len() as usize, given.len() as usize))
            } else {
                fill_ports(given, ports)
            },
            _ => Err(RequestError::NoInputs),
        },
        Ok(_) => Err(RequestError::NotObject),
    }
}

proof fn lemma_ports_prefix_err(given: Seq<JsonV>, ports: Seq<PortV>, k: int)
    requires
        0 <= k <= given.len(),
        fill_ports(given.take(k), ports) is Err,
    ensures
        fill_ports(given, ports) == fill_ports(given.take(k), ports),
    decreases given.len() - k,
{
    if k < given.len() {
        assert(given.take(k + 1).drop_last() =~= given.take(k));
        lemma_ports_prefix_err(given, ports, k + 1);
    } else {
        assert(given.take(k) =~= given);
    }
}

pub open spec fn inputs_view(x: Seq<Vec<Vec<u8>>>) -> Seq<Seq<Seq<u8>>> {
    Seq::new(x.len(), |i: int| texts_view(x[i]@))
}

/// Reads the inputs of an inference request: for each port, the texts of its numbers in
/// row-major order.
pub fn request_inputs(body: &[u8], ports: &Vec<Port>) -> (r: Result<Vec<Vec<Vec<u8>>>, RequestError>)
    ensures
        match request_spec(body@, ports_view(ports@)) {
            Ok(vals) => r matches Ok(x) && inputs_view(x@) == vals,
            Err(e) => r == Err::<Vec<Vec<Vec<u8>>>, RequestError>(e),
        },
{
    let root = match parse_json(body) {
        Err(e) => {
            return Err(RequestError::Json(e));
        },
        Ok(j) => j,
    };
    let fs = match &root {
        Json::Obj(fs) => fs,
        _ => {
            return Err(RequestError::NotObject);
        },
    };
    proof {
        reveal_strlit("inputs");
    }
    assert(json_value(body@, 0) matches Ok((v, _)) && v == JsonV::Obj(fields_view(fs@)));
    assert("inputs"@ == text_inputs());
    let given = match field(fs, "inputs") {
        Some(Json::Arr(g)) => g,
        _ => {
            assert(!(field_of(fields_view(fs@), text_inputs()) matches Some(JsonV::Arr(_))));
            return Err(RequestError::NoInputs);
        },
    };
    proof {
        lemma_items_view(given@);
    }
    let ghost gv = items_view(given@);
    let ghost pv = ports_view(ports@);
    assert(field_of(fields_view(fs@), text_inputs()) == Some(JsonV::Arr(gv)));
    assert(request_spec(body@, pv) == (if gv.len() != pv.len() {
        Err(RequestError::InputCount(pv.len() as usize, gv.len() as usize))
    } else {
        fill_ports(gv, pv)
    }));
    if given.len() != ports.len() {
        return Err(RequestError::InputCount(ports.len(), given.len()));
    }
    let mut out: Vec<Vec<Vec<u8>>> = Vec::new();
    let mut i: usize = 0;
    assert(gv.take(0) =~= Seq::<JsonV>::empty());
    assert(inputs_view(out@) =~= Seq::<Seq<Seq<u8>>>::empty());
    while i < given.len()
        invariant
            gv == items_view(given@),
            gv.len() == given@.len(),
            forall|k: int| 0 <= k < given@.len() ==> #[trigger] gv[k] == json_view(given@[k]),
            pv == ports_view(ports@),
            given@.len() == ports@.len(),
            request_spec(body@, pv) == fill_ports(gv, pv),
            i <= given@.len(),
            fill_ports(gv.take(i as int), pv) == Ok::<Seq<Seq<Seq<u8>>>, RequestError>(inputs_view(out@)),
        decreases given.len() - i,
    {
        assert(gv.take(i + 1).drop_last() =~= gv.take(i as int));
        assert(gv.take(i + 1).last() == json_view(given@[i as int]));
        assert(pv[i as int].0 == ports@[i as int].shape@);
        assert(ports@[i as int].shape@.skip(0) =~= ports@[i as int].shape@);
        let mut vals: Vec<Vec<u8>> = Vec::new();
        match fill(&given[i], ports[i].shape.as_slice(), 0, &mut vals) {
            Err(e) => {
                proof {
                    lemma_ports_prefix_err(gv, pv, i + 1);
                    assert(gv.take(gv.len() as int) =~= gv);
                }
                return Err(e);
            },
            Ok(()) => {},
        }
        let ghost before = out@;
        assert(texts_view(vals@) =~= Seq::<Seq<u8>>::empty() + texts_view(vals@));
        out.push(vals);
        assert(inputs_view(out@) =~= inputs_view(before).push(texts_view(vals@)));
        i = i + 1;
    }
    assert(gv.take(i as int) =~= gv);
    Ok(out)
}


/// Each port's text in quotes, separated by commas.
pub open spec fn quoted_ports(ps: Seq<PortV>) -> Seq<char>
    decreases ps.len(),
{
    if ps.len() == 0 {
        seq![]
    } else if ps.len() == 1 {
        seq!['"'] + port_text_spec(ps[0].0, ps[0].1) + seq!['"']
    } else {
        quoted_ports(ps.drop_last()) + seq![','] + seq!['"'] + port_text_spec(ps.last().0, ps.last().1) + seq!['"']
    }
}

/// The JSON text a served model answers `GET` with: its input and output types.
pub open spec fn signature_json_spec(ins: Seq<PortV>, outs: Seq<PortV>) -> Seq<char> {
    "{\"inputs\":["@ + quoted_ports(ins) + "],\"outputs\":["@ + quoted_ports(outs) + "]}"@
}

fn push_quoted_ports(out: &mut Vec<char>, ps: &Vec<Port>)
    ensures
        final(out)@ == old(out)@ + quoted_ports(ports_view(ps@)),
{
    let ghost pv = ports_view(ps@);
    let mut i: usize = 0;
    assert(pv.take(0) =~= Seq::<PortV>::empty());
    while i < ps.len()
        invariant
            pv == ports_view(ps@),
            i <= ps@.len(),
            out@ == old(out)@ + quoted_ports(pv.take(i as int)),
        decreases ps.len() - i,
    {
        assert(pv.take(i + 1).drop_last() =~= pv.take(i as int));
        assert(pv.take(i + 1).last() == (ps@[i as int].shape@, ps@[i as int].dtype));
        if i > 0 {
            out.push(',');
        }
        out.push('"');
        let t = port_text(&ps[i]);
        push_str_chars(out, t.as_str());
        out.push('"');
        assert(out@ =~= old(out)@ + quoted_ports(pv.take(i + 1)));
        i = i + 1;
    }
    assert(pv.take(i as int) =~= pv);
}

/// The JSON text naming the input and output types of a served model.
pub fn signature_json(ins: &Vec<Port>, outs: &Vec<Port>) -> (s: String)
    ensures
        s@ == signature_json_spec(ports_view(ins@), ports_view(outs@)),
{
    let mut out: Vec<char> = Vec::new();
    push_str_chars(&mut out, "{\"inputs\":[");
    push_quoted_ports(&mut out, ins);
    push_str_chars(&mut out, "],\"outputs\":[");
    push_quoted_ports(&mut out, outs);
    push_str_chars(&mut out, "]}");
    assert(out@ =~= signature_json_spec(ports_view(ins@), ports_view(outs@)));
    string_from_chars(out.as_slice())
}

pub open spec fn content_length_key() -> Seq<char> {
    seq!['c', 'o', 'n', 't', 'e', 'n', 't', '-', 'l', 'e', 'n', 'g', 't', 'h', ':']
}

/// The length a request header line gives: `None` unless the line, with ASCII letters
/// lowercased, starts with `content-length:`; then the trimmed rest read as a number, or
/// 0 when it is none.
pub open spec fn content_length_spec(line: Seq<char>) -> Option<nat> {
    let low = Seq::new(line.len(), |i: int| lower(line[i]));
    let key = content_length_key();
    if low.len() >= key.len() && low.take(key.len() as int) == key {
        Some(
            match parse_usize_spec(trim_spec(low.skip(key.len() as int))) {
                Some(n) => n,
                None => 0,
            },
        )
    } else {
        None
    }
}

/// The body length a request header line declares, if it is a `Content-Length` line.
pub fn content_length(line: &str) -> (r: Option<usize>)
    ensures
        match r {
            Some(n) => content_length_spec(line@) == Some(n as nat),
            None => content_length_spec(line@) is None,
        },
{
    let cs = chars_of(line);
    let mut low: Vec<char> = Vec::new();
    let mut i: usize = 0;
    while i < cs.len()
        invariant
            i <= cs@.len(),
            cs@ == line@,
            low@ == Seq::new(i as nat, |k: int| lower(cs@[k])),
        decreases cs.len() - i,
    {
        low.push(lower_char(cs[i]));
        assert(low@ =~= Seq::new((i + 1) as nat, |k: int| lower(cs@[k])));
        i = i + 1;
    }
    let key: [char; 15] = ['c', 'o', 'n', 't', 'e', 'n', 't', '-', 'l', 'e', 'n', 'g', 't', 'h', ':'];
    assert(key@ =~= content_length_key());
    assert(low@ =~= Seq::new(line@.len(), |k: int| lower(line@[k])));
    if low.len() < 15 {
        return None;
    }
    let head = copy_chars(low.as_slice(), 0, 15);
    assert(head@ =~= low@.take(15));
    if !chars_eq(head.as_slice(), &key) {
        return None;
    }
    let rest = copy_chars(low.as_slice(), 15, low.len());
    assert(rest@ =~= low@.skip(15));
    let t = trim_chars(rest.as_slice());
    match parse_usize(t.as_slice()) {
        Some(n) => Some(n),
        None => Some(0),
    }
}

/// The index of the first white-space character from `i` on, or the length.
pub open spec fn white_from(s: Seq<char>, i: int) -> int
    decreases s.len() - i,
{
    if 0 <= i < s.len() && !is_white(s[i]) {
        white_from(s, i + 1)
    } else {
        i
    }
}

/// The method of a request line: its first white-space-separated word, or nothing.
pub open spec fn request_method_spec(line: Seq<char>) -> Seq<char> {
    let a = trim_from(line, 0);
    line.subrange(a, white_from(line, a))
}

/// The method word of a request line.
pub fn request_method(line: &str) -> (m: String)
    ensures
        m@ == request_method_spec(line@),
{
    let cs = chars_of(line);
    let mut a: usize = 0;
    while a < cs.len() && white(cs[a])
        invariant
            a <= cs@.len(),
            cs@ == line@,
            trim_from(cs@, 0) == trim_from(cs@, a as int),
        decreases cs.len() - a,
    {
        a = a + 1;
    }
    let mut b: usize = a;
    while b < cs.len() && !white(cs[b])
        invariant
            a <= b <= cs@.len(),
            cs@ == line@,
            white_from(cs@, a as int) == white_from(cs@, b as int),
        decreases cs.len() - b,
    {
        b = b + 1;
    }
    let w = copy_chars(cs.as_slice(), a, b);
    string_from_chars(w.as_slice())
}

/// A character of an error message as the error body writes it.
pub open spec fn error_char(c: char) -> Seq<char> {
    if c == '\\' {
        seq!['\\', '\\']
    } else if c == '"' {
        seq!['\\', '"']
    } else {
        seq![c]
    }
}

pub open spec fn error_text(s: Seq<char>) -> Seq<char>
    decreases s.len(),
{
    if s.len() == 0 {
        seq![]
    } else {
        error_text(s.drop_last()) + error_char(s.last())
    }
}

/// The JSON body a refused request is answered with: the message under `error`, its
/// backslashes and quotes escaped.
pub fn error_body(msg: &str) -> (s: String)
    ensures
        s@ == "{\"error\":\""@ + error_text(msg@) + "\"}"@,
{
    let cs = chars_of(msg);
    let mut out: Vec<char> = Vec::new();
    push_str_chars(&mut out, "{\"error\":\"");
    let ghost pre = out@;
    let mut i: usize = 0;
    assert(cs@.take(0) =~= Seq::<char>::empty());
    while i < cs.len()
        invariant
            cs@ == msg@,
            i <= cs@.len(),
            out@ == pre + error_text(cs@.take(i as int)),
        decreases cs.len() - i,
    {
        assert(cs@.take(i + 1).drop_last() =~= cs@.take(i as int));
        let c = cs[i];
        if c == '\\' {
            out.push('\\');
            out.push('\\');
        } else if c == '"' {
            out.push('\\');
            out.push('"');
        } else {
            out.push(c);
        }
        assert(out@ =~= pre + error_text(cs@.take(i + 1)));
        i = i + 1;
    }
    assert(cs@.take(i as int) =~= cs@);
    push_str_chars(&mut out, "\"}");
    string_from_chars(out.as_slice())
}


/// An output tensor as JSON from the texts of its elements in row-major order: nested
/// arrays, one level per dimension.
pub fn tensor_json(items: &Vec<String>, shape: &[usize]) -> (s: String)
    requires
        fits_at(shape@, 0, items@.len()),
        forall|d: int| 0 <= d <= shape@.len() ==> #[trigger] prod_from(shape@, d) <= usize::MAX,
    ensures
        s@ == nested_at(strings_view(items@), shape@, seq![','], 0, 0),
{
    let sep: [char; 1] = [','];
    assert(sep@ =~= seq![',']);
    nested_text(items, shape, &sep)
}

/// Texts joined by commas.
pub open spec fn comma_texts(ts: Seq<Seq<char>>) -> Seq<char>
    decreases ts.len(),
{
    if ts.len() == 0 {
        seq![]
    } else if ts.len() == 1 {
        ts[0]
    } else {
        comma_texts(ts.drop_last()) + seq![','] + ts.last()
    }
}

/// The JSON body an answered request gets: the output tensors, each already as JSON.
pub fn outputs_json(outs: &Vec<String>) -> (s: String)
    ensures
        s@ == "{\"outputs\":["@ + comma_texts(strings_view(outs@)) + "]}"@,
{
    let ghost ov = strings_view(outs@);
    let mut out: Vec<char> = Vec::new();
    push_str_chars(&mut out, "{\"outputs\":[");
    let ghost pre = out@;
    let mut i: usize = 0;
    assert(ov.take(0) =~= Seq::<Seq<char>>::empty());
    while i < outs.len()
        invariant
            ov == strings_view(outs@),
            i <= outs@.len(),
            out@ == pre + comma_texts(ov.take(i as int)),
        decreases outs.len() - i,
    {
        assert(ov.take(i + 1).drop_last() =~= ov.take(i as int));
        assert(ov.take(i + 1).last() == outs@[i as int]@);
        if i > 0 {
            out.push(',');
        }
        push_str_chars(&mut out, outs[i].as_str());
        assert(out@ =~= pre + comma_texts(ov.take(i + 1)));
        i = i + 1;
    }
    assert(ov.take(i as int) =~= ov);
    push_str_chars(&mut out, "]}");
    string_from_chars(out.as_slice())
}

} // verus!
