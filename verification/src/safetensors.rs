use vstd::prelude::*;

use crate::graph::{BVal, Dtype};
use crate::json::{
    digit_len, digits_from, fields_view, is_digit_byte, items_view, json_value, json_view, lemma_fields_view,
    lemma_items_view, parse_json, Json, JsonError, JsonV,
};
use crate::strs::{
    chars_of, decimal_chars, decimal_text, push_chars, push_str_chars, split_by, split_pat, str_eq, string_from_chars,
};
use crate::table::is_ascii_alnum;
use vstd::string::StrSliceExecFns;
use vstd::utf8::encode_utf8;

verus! {

/// One tensor of a safetensors file: its name, element type, shape and byte range within
/// the data section.
pub struct StTensor {
    pub name: String,
    pub dtype: Dtype,
    pub shape: Vec<usize>,
    pub begin: usize,
    pub end: usize,
}

/// What a safetensors header says: the tensors in file order, the string entries of
/// `__metadata__`, and where the data section starts.
pub struct StMeta {
    pub tensors: Vec<StTensor>,
    pub metadata: Vec<(String, String)>,
    pub data_start: usize,
}

/// A tensor as specifications see it: name, element type, shape, begin, end.
pub type StTensorV = (Seq<char>, Dtype, Seq<usize>, nat, nat);

/// Why a safetensors header is refused; entry names are `String` in running code and
/// `Seq<char>` in specifications.
#[derive(Debug, Clone, PartialEq)]
pub enum StError<S = String> {
    /// The header length is zero or runs past the end of the file.
    NotSafetensors,
    Json(JsonError),
    /// The header is not a JSON object.
    NotObject,
    /// `__metadata__` is not an object.
    BadMetadata,
    /// A tensor entry that is not an object.
    BadEntry(S),
    /// A dtype other than F32 and F64.
    UnsupportedDtype(S),
    BadShape,
    BadOffsets,
    /// A tensor without dtype, shape or data_offsets.
    MissingFields(S),
    /// Offsets that are reversed, leave the file or disagree with dtype and shape.
    InconsistentOffsets(S),
}

impl View for StError<String> {
    type V = StError<Seq<char>>;

    open spec fn view(&self) -> StError<Seq<char>> {
        match self {
            StError::NotSafetensors => StError::NotSafetensors,
            StError::Json(e) => StError::Json(*e),
            StError::NotObject => StError::NotObject,
            StError::BadMetadata => StError::BadMetadata,
            StError::BadEntry(s) => StError::BadEntry(s@),
            StError::UnsupportedDtype(s) => StError::UnsupportedDtype(s@),
            StError::BadShape => StError::BadShape,
            StError::BadOffsets => StError::BadOffsets,
            StError::MissingFields(s) => StError::MissingFields(s@),
            StError::InconsistentOffsets(s) => StError::InconsistentOffsets(s@),
        }
    }
}

/// The value of a run of decimal digits.
pub open spec fn decimal(t: Seq<u8>) -> nat
    decreases t.len(),
{
    if t.len() == 0 {
        0
    } else {
        decimal(t.drop_last()) * 10 + (t.last() - 48) as nat
    }
}

/// The largest count a header number may give: beyond it a double no longer holds every
/// integer.
pub open spec fn count_limit() -> nat {
    0x20_0000_0000_0000
}

/// Whether every byte from `from` on is a `0`.
pub open spec fn zeros_from(t: Seq<u8>, from: int) -> bool {
    forall|k: int| from <= k < t.len() ==> t[k] == 48
}

/// The count a number's text gives: digits, optionally followed by a dot and zeros, below
/// `count_limit()` and fitting a `usize`.
pub open spec fn count_text(t: Seq<u8>) -> Option<nat> {
    let d = digit_len(t, 0);
    let tail_ok = d == t.len() || (t[d as int] == 46 && zeros_from(t, d as int + 1));
    if d > 0 && tail_ok && decimal(t.take(d as int)) < count_limit() && decimal(t.take(d as int))
        <= usize::MAX {
        Some(decimal(t.take(d as int)))
    } else {
        None
    }
}

/// The count a JSON value gives, if it is such a number.
pub open spec fn json_count(v: JsonV) -> Option<nat> {
    match v {
        JsonV::Num(t) => count_text(t),
        _ => None,
    }
}

/// The dimensions an array of counts gives.
pub open spec fn json_dims(items: Seq<JsonV>) -> Option<Seq<usize>> {
    if forall|i: int| 0 <= i < items.len() ==> (#[trigger] json_count(items[i])) is Some {
        Some(Seq::new(items.len(), |i: int| json_count(items[i])->0 as usize))
    } else {
        None
    }
}

pub open spec fn text_dtype() -> Seq<char> {
    seq!['d', 't', 'y', 'p', 'e']
}

pub open spec fn text_shape() -> Seq<char> {
    seq!['s', 'h', 'a', 'p', 'e']
}

pub open spec fn text_offsets() -> Seq<char> {
    seq!['d', 'a', 't', 'a', '_', 'o', 'f', 'f', 's', 'e', 't', 's']
}

pub open spec fn text_metadata() -> Seq<char> {
    seq!['_', '_', 'm', 'e', 't', 'a', 'd', 'a', 't', 'a', '_', '_']
}

/// What the fields of a tensor entry set, read in order (a later field overrides an
/// earlier one): dtype, shape and data offsets.
pub type TensorFields = (Option<Dtype>, Option<Seq<usize>>, Option<(nat, nat)>);

pub open spec fn tensor_fields(fields: Seq<(Seq<char>, JsonV)>) -> Result<TensorFields, StError<Seq<char>>>
    decreases fields.len(),
{
    if fields.len() == 0 {
        Ok((None, None, None))
    } else {
        match tensor_fields(fields.drop_last()) {
            Err(e) => Err(e),
            Ok((d, s, o)) => {
                let k = fields.last().0;
                let v = fields.last().1;
                if k == text_dtype() && v is Str {
                    let name = v->Str_0;
                    if name == seq!['F', '3', '2'] {
                        Ok((Some(Dtype::F32), s, o))
                    } else if name == seq!['F', '6', '4'] {
                        Ok((Some(Dtype::F64), s, o))
                    } else {
                        Err(StError::UnsupportedDtype(name))
                    }
                } else if k == text_shape() && v is Arr {
                    match json_dims(v->Arr_0) {
                        None => Err(StError::BadShape),
                        Some(dims) => Ok((d, Some(dims), o)),
                    }
                } else if k == text_offsets() && v is Arr && v->Arr_0.len() == 2 {
                    match (json_count(v->Arr_0[0]), json_count(v->Arr_0[1])) {
                        (Some(a), Some(b)) => Ok((d, s, Some((a, b)))),
                        _ => Err(StError::BadOffsets),
                    }
                } else {
                    Ok((d, s, o))
                }
            },
        }
    }
}

pub open spec fn dims_product(dims: Seq<usize>) -> nat
    decreases dims.len(),
{
    if dims.len() == 0 {
        1
    } else {
        dims_product(dims.drop_last()) * (dims.last() as nat)
    }
}

pub open spec fn dtype_size(d: Dtype) -> nat {
    if d == Dtype::F32 { 4 } else { 8 }
}

/// A tensor entry checked against the file: every field present, and the byte range
/// ordered, inside the file and as long as dtype and shape say.
pub open spec fn tensor_entry(key: Seq<char>, fields: Seq<(Seq<char>, JsonV)>, data_start: nat, file_len: nat) -> Result<
    StTensorV,
    StError<Seq<char>>,
> {
    match tensor_fields(fields) {
        Err(e) => Err(e),
        Ok((Some(d), Some(s), Some((begin, end)))) => {
            if end < begin || data_start + end > file_len || end - begin != dims_product(s) * dtype_size(d) {
                Err(StError::InconsistentOffsets(key))
            } else {
                Ok((key, d, s, begin, end))
            }
        },
        Ok(_) => Err(StError::MissingFields(key)),
    }
}

/// The string entries of `__metadata__`.
pub open spec fn string_entries(kv: Seq<(Seq<char>, JsonV)>) -> Seq<(Seq<char>, Seq<char>)>
    decreases kv.len(),
{
    if kv.len() == 0 {
        seq![]
    } else {
        let rest = string_entries(kv.drop_last());
        match kv.last().1 {
            JsonV::Str(s) => rest.push((kv.last().0, s)),
            _ => rest,
        }
    }
}

/// The tensors and metadata of the header's entries, read in order.
pub open spec fn st_entries(entries: Seq<(Seq<char>, JsonV)>, data_start: nat, file_len: nat) -> Result<
    (Seq<StTensorV>, Seq<(Seq<char>, Seq<char>)>),
    StError<Seq<char>>,
>
    decreases entries.len(),
{
    if entries.len() == 0 {
        Ok((seq![], seq![]))
    } else {
        match st_entries(entries.drop_last(), data_start, file_len) {
            Err(e) => Err(e),
            Ok((ts, md)) => {
                let key = entries.last().0;
                let v = entries.last().1;
                if key == text_metadata() {
                    match v {
                        JsonV::Obj(kv) => Ok((ts, md + string_entries(kv))),
                        _ => Err(StError::BadMetadata),
                    }
                } else {
                    match v {
                        JsonV::Obj(fields) => match tensor_entry(key, fields, data_start, file_len) {
                            Err(e) => Err(e),
                            Ok(t) => Ok((ts.push(t), md)),
                        },
                        _ => Err(StError::BadEntry(key)),
                    }
                }
            },
        }
    }
}

/// Whether a header of `header_len` bytes fits a file of `file_len` bytes after the
/// 8-byte length.
pub open spec fn header_fits_spec(header_len: nat, file_len: nat) -> bool {
    header_len != 0 && 8 + header_len <= file_len
}

/// What the header bytes of a file of `file_len` bytes describe.
pub open spec fn parse_meta_spec(header: Seq<u8>, file_len: nat) -> Result<
    (Seq<StTensorV>, Seq<(Seq<char>, Seq<char>)>),
    StError<Seq<char>>,
> {
    if !header_fits_spec(header.len(), file_len) {
        Err(StError::NotSafetensors)
    } else {
        match json_value(header, 0) {
            Err(e) => Err(StError::Json(e)),
            Ok((JsonV::Obj(entries), _)) => st_entries(entries, 8 + header.len(), file_len),
            Ok(_) => Err(StError::NotObject),
        }
    }
}

/// The tensors of a `StMeta` as specifications see them.
pub open spec fn tensors_view(ts: Seq<StTensor>) -> Seq<StTensorV> {
    Seq::new(
        ts.len(),
        |i: int| (ts[i].name@, ts[i].dtype, ts[i].shape@, ts[i].begin as nat, ts[i].end as nat),
    )
}

/// The metadata of a `StMeta` as specifications see it.
pub open spec fn metadata_view(md: Seq<(String, String)>) -> Seq<(Seq<char>, Seq<char>)> {
    Seq::new(md.len(), |i: int| (md[i].0@, md[i].1@))
}

proof fn lemma_digit_run(t: Seq<u8>, p: int)
    requires
        0 <= p <= t.len(),
    ensures
        p + digit_len(t, p) <= t.len(),
        forall|j: int| p <= j < p + digit_len(t, p) ==> is_digit_byte(#[trigger] t[j]),
        p + digit_len(t, p) < t.len() ==> !is_digit_byte(t[p + digit_len(t, p)]),
    decreases t.len() - p,
{
    if p < t.len() && is_digit_byte(t[p]) {
        lemma_digit_run(t, p + 1);
    }
}

proof fn lemma_decimal_step(t: Seq<u8>, k: int)
    requires
        0 <= k < t.len(),
    ensures
        decimal(t.take(k + 1)) == decimal(t.take(k)) * 10 + (t[k] - 48) as nat,
{
    assert(t.take(k + 1).drop_last() =~= t.take(k));
}

proof fn lemma_decimal_mono(t: Seq<u8>, k: int, d: int)
    requires
        0 <= k <= d <= t.len(),
        forall|j: int| 0 <= j < d ==> is_digit_byte(#[trigger] t[j]),
    ensures
        decimal(t.take(k)) <= decimal(t.take(d)),
    decreases d - k,
{
    if k < d {
        lemma_decimal_mono(t, k, d - 1);
        lemma_decimal_step(t, d - 1);
    }
}

/// The count a JSON number gives: digits, optionally a dot and zeros, below
/// `count_limit()`.
pub(crate) fn count_of(v: &Json) -> (r: Option<usize>)
    ensures
        match r {
            Some(n) => json_count(json_view(*v)) == Some(n as nat),
            None => json_count(json_view(*v)) is None,
        },
{
    match v {
        Json::Num(t) => {
            let ghost g = t@;
            assert(json_view(*v) == JsonV::Num(g));
            let d = digits_from(t.as_slice(), 0);
            proof {
                lemma_digit_run(g, 0);
            }
            if d == 0 {
                assert(json_count(json_view(*v)) is None);
                return None;
            }
            if d < t.len() {
                if t[d] != 46 {
                    assert(json_count(json_view(*v)) is None);
                    return None;
                }
                let mut k = d + 1;
                while k < t.len()
                    invariant
                        d < k <= g.len(),
                        g == t@,
                        json_view(*v) == JsonV::Num(g),
                        forall|j: int| d < j < k ==> g[j] == 48,
                        d == digit_len(g, 0),
                    decreases t.len() - k,
                {
                    if t[k] != 48 {
                        assert(!zeros_from(g, d as int + 1));
                        assert(count_text(g) is None);
                        assert(json_count(json_view(*v)) is None);
                        return None;
                    }
                    k = k + 1;
                }
            }
            let mut val: u64 = 0;
            let mut k: usize = 0;
            while k < d
                invariant
                    d <= g.len(),
                    g == t@,
                    json_view(*v) == JsonV::Num(g),
                    d == g.len() || (g[d as int] == 46 && zeros_from(g, d as int + 1)),
                    d == digit_len(g, 0),
                    forall|j: int| 0 <= j < d ==> is_digit_byte(#[trigger] g[j]),
                    k <= d,
                    val == decimal(g.take(k as int)),
                    val < count_limit(),
                decreases d - k,
            {
                proof {
                    lemma_decimal_step(g, k as int);
                }
                assert(is_digit_byte(g[k as int]));
                val = val * 10 + (t[k] - 48) as u64;
                if val >= 0x20_0000_0000_0000 {
                    proof {
                        lemma_decimal_mono(g, k + 1, d as int);
                    }
                    assert(decimal(g.take(d as int)) >= count_limit());
                    assert(count_text(g) is None);
                        assert(json_count(json_view(*v)) is None);
                    return None;
                }
                k = k + 1;
            }
            assert(g.take(k as int) == g.take(d as int));
            if val > usize::MAX as u64 {
                return None;
            }
            Some(val as usize)
        },
        _ => {
            assert(!(json_view(*v) is Num));
            None
        },
    }
}

/// The dimensions an array of counts gives.
fn dims_of(items: &Vec<Json>) -> (r: Option<Vec<usize>>)
    ensures
        match r {
            Some(v) => json_dims(items_view(items@)) == Some(v@),
            None => json_dims(items_view(items@)) is None,
        },
{
    proof {
        lemma_items_view(items@);
    }
    let ghost iv = items_view(items@);
    let mut dims: Vec<usize> = Vec::new();
    let mut i: usize = 0;
    while i < items.len()
        invariant
            iv == items_view(items@),
            iv.len() == items@.len(),
            forall|j: int| 0 <= j < items@.len() ==> #[trigger] iv[j] == json_view(items@[j]),
            i <= items@.len(),
            dims@.len() == i,
            forall|j: int| 0 <= j < i ==> (#[trigger] json_count(iv[j])) == Some(dims@[j] as nat),
        decreases items.len() - i,
    {
        match count_of(&items[i]) {
            Some(n) => {
                dims.push(n);
            },
            None => {
                assert(json_count(iv[i as int]) is None);
                return None;
            },
        }
        i = i + 1;
    }
    assert(dims@ =~= Seq::new(iv.len(), |j: int| json_count(iv[j])->0 as usize));
    Some(dims)
}

pub open spec fn shape_opt_view(s: Option<Vec<usize>>) -> Option<Seq<usize>> {
    match s {
        Some(v) => Some(v@),
        None => None,
    }
}

pub open spec fn offsets_opt_view(o: Option<(usize, usize)>) -> Option<(nat, nat)> {
    match o {
        Some((a, b)) => Some((a as nat, b as nat)),
        None => None,
    }
}

proof fn lemma_product_zero(dims: Seq<usize>, i: int)
    requires
        0 <= i < dims.len(),
        dims[i] == 0,
    ensures
        dims_product(dims) == 0,
    decreases dims.len(),
{
    if i < dims.len() - 1 {
        assert(dims.drop_last()[i] == dims[i]);
        lemma_product_zero(dims.drop_last(), i);
        let p = dims_product(dims.drop_last());
        let l = dims.last() as nat;
        assert(p * l == 0) by (nonlinear_arith)
            requires
                p == 0,
        ;
    } else {
        assert(dims.last() == dims[i]);
        let p = dims_product(dims.drop_last());
        let l = dims.last() as nat;
        assert(p * l == 0) by (nonlinear_arith)
            requires
                l == 0,
        ;
    }
}

proof fn lemma_product_mono(dims: Seq<usize>, k: int)
    requires
        0 <= k <= dims.len(),
        forall|j: int| 0 <= j < dims.len() ==> #[trigger] dims[j] >= 1,
    ensures
        dims_product(dims.take(k)) <= dims_product(dims),
    decreases dims.len() - k,
{
    if k < dims.len() {
        lemma_product_mono(dims, k + 1);
        assert(dims.take(k + 1).drop_last() =~= dims.take(k));
        assert(dims_product(dims.take(k)) * dims[k] as nat >= dims_product(dims.take(k))) by (nonlinear_arith)
            requires
                dims[k] >= 1,
        ;
    } else {
        assert(dims.take(k) =~= dims);
    }
}

/// The byte length `dims` elements of `size` bytes take, or `None` when it exceeds `usize`.
fn shape_bytes(dims: &Vec<usize>, size: usize) -> (r: Option<usize>)
    requires
        size == 4 || size == 8,
    ensures
        match r {
            Some(n) => n == dims_product(dims@) * size,
            None => dims_product(dims@) * size > usize::MAX,
        },
{
    let mut i: usize = 0;
    while i < dims.len()
        invariant
            i <= dims@.len(),
            forall|j: int| 0 <= j < i ==> #[trigger] dims@[j] >= 1,
        decreases dims.len() - i,
    {
        if dims[i] == 0 {
            proof {
                lemma_product_zero(dims@, i as int);
            }
            return Some(0);
        }
        i = i + 1;
    }
    let mut acc: usize = 1;
    let mut k: usize = 0;
    while k < dims.len()
        invariant
            size == 4 || size == 8,
            k <= dims@.len(),
            forall|j: int| 0 <= j < dims@.len() ==> #[trigger] dims@[j] >= 1,
            acc == dims_product(dims@.take(k as int)),
        decreases dims.len() - k,
    {
        assert(dims@.take(k + 1).drop_last() =~= dims@.take(k as int));
        match acc.checked_mul(dims[k]) {
            Some(n) => {
                acc = n;
            },
            None => {
                proof {
                    lemma_product_mono(dims@, k + 1);
                    assert(dims_product(dims@) * size >= dims_product(dims@)) by (nonlinear_arith)
                        requires
                            size >= 1,
                    ;
                }
                return None;
            },
        }
        k = k + 1;
    }
    assert(dims@.take(k as int) =~= dims@);
    match acc.checked_mul(size) {
        Some(n) => Some(n),
        None => None,
    }
}

proof fn lemma_fields_err(s: Seq<(Seq<char>, JsonV)>, k: int)
    requires
        0 <= k <= s.len(),
        tensor_fields(s.take(k)) is Err,
    ensures
        tensor_fields(s) == tensor_fields(s.take(k)),
    decreases s.len() - k,
{
    if k == s.len() {
        assert(s.take(k) =~= s);
    } else {
        assert(s.take(k + 1).drop_last() =~= s.take(k));
        lemma_fields_err(s, k + 1);
    }
}

/// Reads a tensor entry's fields and checks its byte range.
fn tensor_entry_exec(key: &String, fields: &Vec<(String, Json)>, data_start: usize, file_len: usize) -> (r:
    Result<StTensor, StError>)
    ensures
        match r {
            Ok(t) => tensor_entry(key@, fields_view(fields@), data_start as nat, file_len as nat) == Ok::<
                StTensorV,
                StError<Seq<char>>,
            >((t.name@, t.dtype, t.shape@, t.begin as nat, t.end as nat)),
            Err(e) => tensor_entry(key@, fields_view(fields@), data_start as nat, file_len as nat) == Err::<
                StTensorV,
                StError<Seq<char>>,
            >(e@),
        },
{
    proof {
        lemma_fields_view(fields@);
        reveal_strlit("dtype");
        reveal_strlit("shape");
        reveal_strlit("data_offsets");
        reveal_strlit("F32");
        reveal_strlit("F64");
    }
    let ghost fv = fields_view(fields@);
    let mut dtype: Option<Dtype> = None;
    let mut shape: Option<Vec<usize>> = None;
    let mut offsets: Option<(usize, usize)> = None;
    let mut i: usize = 0;
    assert(fv.take(0) =~= Seq::<(Seq<char>, JsonV)>::empty());
    while i < fields.len()
        invariant
            fv == fields_view(fields@),
            fv.len() == fields@.len(),
            forall|j: int| 0 <= j < fields@.len() ==> #[trigger] fv[j] == (fields@[j].0@, json_view(fields@[j].1)),
            i <= fields@.len(),
            tensor_fields(fv.take(i as int)) == Ok::<TensorFields, StError<Seq<char>>>(
                (dtype, shape_opt_view(shape), offsets_opt_view(offsets)),
            ),
            "dtype"@ == text_dtype(),
            "shape"@ == text_shape(),
            "data_offsets"@ == text_offsets(),
            "F32"@ == seq!['F', '3', '2'],
            "F64"@ == seq!['F', '6', '4'],
        decreases fields.len() - i,
    {
        assert(fv.take(i + 1).drop_last() =~= fv.take(i as int));
        assert(fv.take(i + 1).last() == fv[i as int]);
        let k = &fields[i].0;
        let v = &fields[i].1;
        proof {
            if let Json::Arr(items) = v {
                lemma_items_view(items@);
            }
        }
        if str_eq(k.as_str(), "dtype") && (match v { Json::Str(_) => true, _ => false }) {
            if let Json::Str(name) = v {
                if str_eq(name.as_str(), "F32") {
                    dtype = Some(Dtype::F32);
                } else if str_eq(name.as_str(), "F64") {
                    dtype = Some(Dtype::F64);
                } else {
                    proof {
                        lemma_fields_err(fv, i + 1);
                    }
                    return Err(StError::UnsupportedDtype(name.clone()));
                }
            }
        } else if str_eq(k.as_str(), "shape") && (match v { Json::Arr(_) => true, _ => false }) {
            if let Json::Arr(items) = v {
                match dims_of(items) {
                    Some(d) => {
                        shape = Some(d);
                    },
                    None => {
                        proof {
                            lemma_fields_err(fv, i + 1);
                        }
                        return Err(StError::BadShape);
                    },
                }
            }
        } else if str_eq(k.as_str(), "data_offsets") && (match v { Json::Arr(two) => two.len() == 2, _ => false }) {
            if let Json::Arr(two) = v {
                proof {
                    lemma_items_view(two@);
                }
                match (count_of(&two[0]), count_of(&two[1])) {
                    (Some(a), Some(b)) => {
                        offsets = Some((a, b));
                    },
                    _ => {
                        proof {
                            lemma_fields_err(fv, i + 1);
                        }
                        return Err(StError::BadOffsets);
                    },
                }
            }
        }
        i = i + 1;
    }
    assert(fv.take(i as int) =~= fv);
    match (dtype, shape, offsets) {
        (Some(d), Some(s), Some((begin, end))) => {
            let size: usize = if d == Dtype::F32 { 4 } else { 8 };
            let bytes = shape_bytes(&s, size);
            let bad = end < begin || file_len < data_start || end > file_len - data_start || match bytes {
                Some(n) => end - begin != n,
                None => true,
            };
            if bad {
                Err(StError::InconsistentOffsets(key.clone()))
            } else {
                Ok(StTensor { name: key.clone(), dtype: d, shape: s, begin, end })
            }
        },
        _ => Err(StError::MissingFields(key.clone())),
    }
}

proof fn lemma_entries_err(s: Seq<(Seq<char>, JsonV)>, k: int, data_start: nat, file_len: nat)
    requires
        0 <= k <= s.len(),
        st_entries(s.take(k), data_start, file_len) is Err,
    ensures
        st_entries(s, data_start, file_len) == st_entries(s.take(k), data_start, file_len),
    decreases s.len() - k,
{
    if k == s.len() {
        assert(s.take(k) =~= s);
    } else {
        assert(s.take(k + 1).drop_last() =~= s.take(k));
        lemma_entries_err(s, k + 1, data_start, file_len);
    }
}

/// Appends the string entries of a `__metadata__` object.
fn push_string_entries(kv: &Vec<(String, Json)>, out: &mut Vec<(String, String)>)
    ensures
        metadata_view(final(out)@) == metadata_view(old(out)@) + string_entries(fields_view(kv@)),
{
    proof {
        lemma_fields_view(kv@);
    }
    let ghost fv = fields_view(kv@);
    let ghost base = metadata_view(out@);
    let mut i: usize = 0;
    assert(fv.take(0) =~= Seq::<(Seq<char>, JsonV)>::empty());
    assert(base + string_entries(fv.take(0)) =~= base);
    while i < kv.len()
        invariant
            fv == fields_view(kv@),
            fv.len() == kv@.len(),
            forall|j: int| 0 <= j < kv@.len() ==> #[trigger] fv[j] == (kv@[j].0@, json_view(kv@[j].1)),
            i <= kv@.len(),
            metadata_view(out@) == base + string_entries(fv.take(i as int)),
        decreases kv.len() - i,
    {
        assert(fv.take(i + 1).drop_last() =~= fv.take(i as int));
        assert(fv.take(i + 1).last() == fv[i as int]);
        let ghost before = out@;
        if let Json::Str(s) = &kv[i].1 {
            out.push((kv[i].0.clone(), s.clone()));
            assert(metadata_view(out@) =~= metadata_view(before).push((kv@[i as int].0@, s@)));
        }
        i = i + 1;
    }
    assert(fv.take(i as int) =~= fv);
}

/// Whether a header of `header_len` bytes fits a file of `file_len` bytes after its 8-byte
/// length.
pub fn header_fits(header_len: u64, file_len: usize) -> (r: bool)
    ensures
        r == header_fits_spec(header_len as nat, file_len as nat),
{
    header_len != 0 && file_len >= 8 && header_len <= (file_len - 8) as u64
}

/// The little-endian number in the first eight bytes.
pub open spec fn le64(b: Seq<u8>) -> nat {
    b[0] as nat + 256 * (b[1] as nat + 256 * (b[2] as nat + 256 * (b[3] as nat + 256 * (b[4] as nat
        + 256 * (b[5] as nat + 256 * (b[6] as nat + 256 * (b[7] as nat)))))))
}

/// The header length a safetensors file starts with.
pub fn header_len(intro: &[u8]) -> (n: u64)
    requires
        intro@.len() >= 8,
    ensures
        n as nat == le64(intro@),
{
    let mut n: u64 = intro[7] as u64;
    n = n * 256 + intro[6] as u64;
    n = n * 256 + intro[5] as u64;
    n = n * 256 + intro[4] as u64;
    n = n * 256 + intro[3] as u64;
    n = n * 256 + intro[2] as u64;
    n = n * 256 + intro[1] as u64;
    n = n * 256 + intro[0] as u64;
    n
}

/// Reads the header of a safetensors file of `file_len` bytes: a JSON object whose
/// `__metadata__` entry holds string metadata and whose other entries describe tensors.
pub fn parse_meta(header: &[u8], file_len: usize) -> (r: Result<StMeta, StError>)
    ensures
        match r {
            Ok(m) => {
                &&& parse_meta_spec(header@, file_len as nat) == Ok::<
                    (Seq<StTensorV>, Seq<(Seq<char>, Seq<char>)>),
                    StError<Seq<char>>,
                >((tensors_view(m.tensors@), metadata_view(m.metadata@)))
                &&& m.data_start == 8 + header@.len()
            },
            Err(e) => parse_meta_spec(header@, file_len as nat) == Err::<
                (Seq<StTensorV>, Seq<(Seq<char>, Seq<char>)>),
                StError<Seq<char>>,
            >(e@),
        },
{
    if header.len() == 0 || file_len < 8 || header.len() > file_len - 8 {
        return Err(StError::NotSafetensors);
    }
    let data_start = 8 + header.len();
    let j = match parse_json(header) {
        Err(e) => {
            return Err(StError::Json(e));
        },
        Ok(j) => j,
    };
    let ghost jv = json_view(j);
    let entries = match j {
        Json::Obj(entries) => entries,
        _ => {
            return Err(StError::NotObject);
        },
    };
    proof {
        lemma_fields_view(entries@);
        reveal_strlit("__metadata__");
    }
    let ghost fv = fields_view(entries@);
    let ghost ds = data_start as nat;
    let ghost fl = file_len as nat;
    assert(jv == JsonV::Obj(fv));
    assert(parse_meta_spec(header@, file_len as nat) == st_entries(fv, ds, fl));
    let mut tensors: Vec<StTensor> = Vec::new();
    let mut metadata: Vec<(String, String)> = Vec::new();
    let mut i: usize = 0;
    assert(fv.take(0) =~= Seq::<(Seq<char>, JsonV)>::empty());
    assert(tensors_view(tensors@) =~= Seq::<StTensorV>::empty());
    assert(metadata_view(metadata@) =~= Seq::<(Seq<char>, Seq<char>)>::empty());
    while i < entries.len()
        invariant
            fv == fields_view(entries@),
            fv.len() == entries@.len(),
            forall|k: int| 0 <= k < entries@.len() ==> #[trigger] fv[k] == (entries@[k].0@, json_view(entries@[k].1)),
            ds == data_start,
            fl == file_len,
            i <= entries@.len(),
            st_entries(fv.take(i as int), ds, fl) == Ok::<
                (Seq<StTensorV>, Seq<(Seq<char>, Seq<char>)>),
                StError<Seq<char>>,
            >((tensors_view(tensors@), metadata_view(metadata@))),
            "__metadata__"@ == text_metadata(),
            parse_meta_spec(header@, file_len as nat) == st_entries(fv, ds, fl),
        decreases entries.len() - i,
    {
        assert(fv.take(i + 1).drop_last() =~= fv.take(i as int));
        assert(fv.take(i + 1).last() == fv[i as int]);
        let key = &entries[i].0;
        let v = &entries[i].1;
        if str_eq(key.as_str(), "__metadata__") {
            match v {
                Json::Obj(kv) => {
                    push_string_entries(kv, &mut metadata);
                },
                _ => {
                    proof {
                        lemma_entries_err(fv, i + 1, ds, fl);
                    }
                    return Err(StError::BadMetadata);
                },
            }
        } else {
            match v {
                Json::Obj(fields) => {
                    match tensor_entry_exec(key, fields, data_start, file_len) {
                        Ok(t) => {
                            let ghost before = tensors@;
                            tensors.push(t);
                            assert(tensors_view(tensors@) =~= tensors_view(before).push(
                                (t.name@, t.dtype, t.shape@, t.begin as nat, t.end as nat),
                            ));
                        },
                        Err(e) => {
                            proof {
                                lemma_entries_err(fv, i + 1, ds, fl);
                            }
                            return Err(e);
                        },
                    }
                },
                _ => {
                    proof {
                        lemma_entries_err(fv, i + 1, ds, fl);
                    }
                    return Err(StError::BadEntry(key.clone()));
                },
            }
        }
        i = i + 1;
    }
    assert(fv.take(i as int) =~= fv);
    Ok(StMeta { tensors, metadata, data_start })
}

/// The lowercase hex digit of a value below 16.
pub open spec fn hex_char(d: nat) -> char {
    if d < 10 { ((48 + d) as u8) as char } else { ((87 + d) as u8) as char }
}

/// A character as it stands inside a JSON string: quotes and backslashes escaped, control
/// characters written `\u00XX`.
pub open spec fn escaped_char(c: char) -> Seq<char> {
    if c == '"' {
        seq!['\\', '"']
    } else if c == '\\' {
        seq!['\\', '\\']
    } else if (c as u32) < 0x20 {
        seq!['\\', 'u', '0', '0', hex_char((c as u32 / 16) as nat), hex_char((c as u32 % 16) as nat)]
    } else {
        seq![c]
    }
}

/// Text as it stands inside a JSON string.
pub open spec fn json_escape_spec(s: Seq<char>) -> Seq<char>
    decreases s.len(),
{
    if s.len() == 0 {
        seq![]
    } else {
        json_escape_spec(s.drop_last()) + escaped_char(s.last())
    }
}

fn hex_digit_char(d: u32) -> (c: char)
    requires
        d < 16,
    ensures
        c == hex_char(d as nat),
{
    if d < 10 {
        ((48 + d) as u8) as char
    } else {
        ((87 + d) as u8) as char
    }
}

/// Appends `s` escaped for a JSON string.
fn push_escaped(out: &mut Vec<char>, s: &str)
    ensures
        final(out)@ == old(out)@ + json_escape_spec(s@),
{
    let cs = chars_of(s);
    let mut i: usize = 0;
    assert(cs@.take(0) =~= Seq::<char>::empty());
    while i < cs.len()
        invariant
            cs@ == s@,
            i <= cs@.len(),
            out@ == old(out)@ + json_escape_spec(cs@.take(i as int)),
        decreases cs.len() - i,
    {
        let c = cs[i];
        assert(cs@.take(i + 1).drop_last() =~= cs@.take(i as int));
        if c == '"' {
            out.push('\\');
            out.push('"');
        } else if c == '\\' {
            out.push('\\');
            out.push('\\');
        } else if (c as u32) < 0x20 {
            out.push('\\');
            out.push('u');
            out.push('0');
            out.push('0');
            out.push(hex_digit_char(c as u32 / 16));
            out.push(hex_digit_char(c as u32 % 16));
        } else {
            out.push(c);
        }
        assert(out@ =~= old(out)@ + json_escape_spec(cs@.take(i + 1)));
        i = i + 1;
    }
    assert(cs@.take(i as int) =~= cs@);
}

/// Escapes text for a JSON string.
pub fn json_escape(s: &str) -> (r: String)
    ensures
        r@ == json_escape_spec(s@),
{
    let mut out: Vec<char> = Vec::new();
    push_escaped(&mut out, s);
    assert(out@ =~= json_escape_spec(s@));
    string_from_chars(out.as_slice())
}

/// Numbers written in decimal and separated by commas.
pub open spec fn comma_numbers(xs: Seq<usize>) -> Seq<char>
    decreases xs.len(),
{
    if xs.len() == 0 {
        seq![]
    } else if xs.len() == 1 {
        decimal_chars(xs[0] as nat)
    } else {
        comma_numbers(xs.drop_last()) + seq![','] + decimal_chars(xs.last() as nat)
    }
}

/// The header entry of one metadata string.
pub open spec fn meta_entry(k: Seq<char>, v: Seq<char>) -> Seq<char> {
    seq!['"'] + json_escape_spec(k) + seq!['"', ':', '"'] + json_escape_spec(v) + seq!['"']
}

/// The metadata entries joined by commas.
pub open spec fn meta_entries(md: Seq<(Seq<char>, Seq<char>)>) -> Seq<char>
    decreases md.len(),
{
    if md.len() == 0 {
        seq![]
    } else if md.len() == 1 {
        meta_entry(md[0].0, md[0].1)
    } else {
        meta_entries(md.drop_last()) + seq![','] + meta_entry(md.last().0, md.last().1)
    }
}

/// The name a saved element type has in the header.
pub open spec fn save_dtype(dtype: Dtype) -> Seq<char> {
    if dtype == Dtype::F32 {
        seq!['F', '3', '2']
    } else {
        seq!['F', '6', '4']
    }
}

/// The header entry of one tensor.
pub open spec fn tensor_part(name: Seq<char>, dtype: Dtype, shape: Seq<usize>, begin: nat, end: nat) -> Seq<char> {
    seq!['"'] + json_escape_spec(name) + "\":{\"dtype\":\""@ + save_dtype(dtype) + "\",\"shape\":["@
        + comma_numbers(shape) + "],\"data_offsets\":["@ + decimal_chars(begin) + seq![','] + decimal_chars(end)
        + seq![']', '}']
}

/// A tensor to save: its name, element type, shape, and how many data bytes it takes.
pub struct SaveTensor {
    pub name: String,
    pub dtype: Dtype,
    pub shape: Vec<usize>,
    pub nbytes: usize,
}

/// A tensor to save as specifications see it.
pub type SaveEntry = (Seq<char>, Dtype, Seq<usize>, nat);

pub open spec fn save_view(ts: Seq<SaveTensor>) -> Seq<SaveEntry> {
    Seq::new(ts.len(), |i: int| (ts[i].name@, ts[i].dtype, ts[i].shape@, ts[i].nbytes as nat))
}

/// How many data bytes the tensors before the `i`-th take; each tensor's data follows the
/// previous one's.
pub open spec fn data_before(entries: Seq<SaveEntry>, i: int) -> nat
    decreases i,
{
    if i <= 0 {
        0
    } else {
        data_before(entries, i - 1) + entries[i - 1].3
    }
}

/// The tensor entries of a header, in order.
pub open spec fn tensor_parts(entries: Seq<SaveEntry>) -> Seq<Seq<char>> {
    Seq::new(
        entries.len(),
        |i: int|
            tensor_part(
                entries[i].0,
                entries[i].1,
                entries[i].2,
                data_before(entries, i),
                data_before(entries, i + 1),
            ),
    )
}

/// Pieces of text joined by commas.
pub open spec fn comma_join(ps: Seq<Seq<char>>) -> Seq<char>
    decreases ps.len(),
{
    if ps.len() == 0 {
        seq![]
    } else if ps.len() == 1 {
        ps[0]
    } else {
        comma_join(ps.drop_last()) + seq![','] + ps.last()
    }
}

/// The metadata piece of a header, present only when there is metadata.
pub open spec fn meta_part(md: Seq<(Seq<char>, Seq<char>)>) -> Seq<Seq<char>> {
    if md.len() > 0 {
        seq!["\"__metadata__\":{"@ + meta_entries(md) + seq!['}']]
    } else {
        seq![]
    }
}

/// The header text of a saved file: a JSON object with the metadata entry first when there
/// is metadata, then one entry per tensor.
pub open spec fn save_header_text(md: Seq<(Seq<char>, Seq<char>)>, entries: Seq<SaveEntry>) -> Seq<char> {
    seq!['{'] + comma_join(meta_part(md) + tensor_parts(entries)) + seq!['}']
}

/// `n` as `k` bytes, least significant first.
pub open spec fn le_bytes(n: nat, k: nat) -> Seq<u8>
    decreases k,
{
    if k == 0 {
        seq![]
    } else {
        seq![(n % 256) as u8] + le_bytes(n / 256, (k - 1) as nat)
    }
}

/// The header bytes: the text in UTF-8, padded with spaces to a multiple of eight bytes.
pub open spec fn padded_header(text: Seq<char>) -> Seq<u8> {
    let b = encode_utf8(text);
    b + Seq::new(((8 - b.len() % 8) % 8) as nat, |i: int| 0x20u8)
}

/// What a saved file holds before its data: the padded header's length as eight
/// little-endian bytes, then the padded header.
pub open spec fn save_preamble(md: Seq<(Seq<char>, Seq<char>)>, entries: Seq<SaveEntry>) -> Seq<u8> {
    let h = padded_header(save_header_text(md, entries));
    le_bytes(h.len(), 8) + h
}

/// Appends the numbers written in decimal, separated by commas.
fn push_numbers(out: &mut Vec<char>, xs: &[usize])
    ensures
        final(out)@ == old(out)@ + comma_numbers(xs@),
{
    let mut i: usize = 0;
    assert(xs@.take(0) =~= Seq::<usize>::empty());
    while i < xs.len()
        invariant
            i <= xs@.len(),
            out@ == old(out)@ + comma_numbers(xs@.take(i as int)),
        decreases xs.len() - i,
    {
        assert(xs@.take(i + 1).drop_last() =~= xs@.take(i as int));
        if i > 0 {
            out.push(',');
        }
        let d = decimal_text(xs[i]);
        push_chars(out, d.as_slice());
        assert(out@ =~= old(out)@ + comma_numbers(xs@.take(i + 1)));
        i = i + 1;
    }
    assert(xs@.take(i as int) =~= xs@);
}

/// The header entry of one tensor.
fn tensor_part_text(t: &SaveTensor, begin: usize, end: usize) -> (v: Vec<char>)
    ensures
        v@ == tensor_part(t.name@, t.dtype, t.shape@, begin as nat, end as nat),
{
    let mut out: Vec<char> = Vec::new();
    out.push('"');
    push_escaped(&mut out, t.name.as_str());
    push_str_chars(&mut out, "\":{\"dtype\":\"");
    match t.dtype {
        Dtype::F32 => {
            out.push('F');
            out.push('3');
            out.push('2');
        },
        _ => {
            out.push('F');
            out.push('6');
            out.push('4');
        },
    }
    push_str_chars(&mut out, "\",\"shape\":[");
    push_numbers(&mut out, t.shape.as_slice());
    push_str_chars(&mut out, "],\"data_offsets\":[");
    let b = decimal_text(begin);
    push_chars(&mut out, b.as_slice());
    out.push(',');
    let e = decimal_text(end);
    push_chars(&mut out, e.as_slice());
    out.push(']');
    out.push('}');
    assert(out@ =~= tensor_part(t.name@, t.dtype, t.shape@, begin as nat, end as nat));
    out
}

/// The metadata entries joined by commas.
fn meta_text(md: &Vec<(String, String)>) -> (v: Vec<char>)
    ensures
        v@ == meta_entries(metadata_view(md@)),
{
    let mut out: Vec<char> = Vec::new();
    let mut i: usize = 0;
    let ghost m = metadata_view(md@);
    assert(m.take(0) =~= Seq::<(Seq<char>, Seq<char>)>::empty());
    while i < md.len()
        invariant
            m == metadata_view(md@),
            i <= md@.len(),
            out@ == meta_entries(m.take(i as int)),
        decreases md.len() - i,
    {
        assert(m.take(i + 1).drop_last() =~= m.take(i as int));
        if i > 0 {
            out.push(',');
        }
        out.push('"');
        push_escaped(&mut out, md[i].0.as_str());
        out.push('"');
        out.push(':');
        out.push('"');
        push_escaped(&mut out, md[i].1.as_str());
        out.push('"');
        assert(out@ =~= meta_entries(m.take(i + 1)));
        i = i + 1;
    }
    assert(m.take(i as int) =~= m);
    out
}

/// Pieces of text joined by commas.
fn join_parts(parts: &Vec<Vec<char>>) -> (v: Vec<char>)
    ensures
        v@ == comma_join(parts@.map_values(|p: Vec<char>| p@)),
{
    let ghost ps = parts@.map_values(|p: Vec<char>| p@);
    let mut out: Vec<char> = Vec::new();
    let mut i: usize = 0;
    assert(ps.take(0) =~= Seq::<Seq<char>>::empty());
    while i < parts.len()
        invariant
            ps == parts@.map_values(|p: Vec<char>| p@),
            i <= parts@.len(),
            out@ == comma_join(ps.take(i as int)),
        decreases parts.len() - i,
    {
        assert(ps.take(i + 1).drop_last() =~= ps.take(i as int));
        if i > 0 {
            out.push(',');
        }
        push_chars(&mut out, parts[i].as_slice());
        assert(out@ =~= comma_join(ps.take(i + 1)));
        i = i + 1;
    }
    assert(ps.take(i as int) =~= ps);
    out
}

/// What a safetensors file holds before its data: the header length, then the header, a
/// JSON object with the metadata strings (when there are any) and each tensor's element
/// type, shape and byte range, padded with spaces to a multiple of eight bytes. The data
/// of the tensors follows in the order given.
pub fn save_header(metadata: &Vec<(String, String)>, tensors: &Vec<SaveTensor>) -> (r: Vec<u8>)
    requires
        data_before(save_view(tensors@), tensors@.len() as int) <= usize::MAX,
        forall|i: int|
            0 <= i < tensors@.len() ==> (#[trigger] tensors@[i]).dtype == Dtype::F32 || tensors@[i].dtype
                == Dtype::F64,
    ensures
        r@ == save_preamble(metadata_view(metadata@), save_view(tensors@)),
{
    let ghost entries = save_view(tensors@);
    let ghost md = metadata_view(metadata@);
    let mut parts: Vec<Vec<char>> = Vec::new();
    if metadata.len() > 0 {
        let mut m: Vec<char> = Vec::new();
        push_str_chars(&mut m, "\"__metadata__\":{");
        let body = meta_text(metadata);
        push_chars(&mut m, body.as_slice());
        m.push('}');
        assert(m@ =~= "\"__metadata__\":{"@ + meta_entries(md) + seq!['}']);
        parts.push(m);
        assert(parts@.map_values(|p: Vec<char>| p@) =~= seq![m@]);
    } else {
        assert(parts@.map_values(|p: Vec<char>| p@) =~= Seq::<Seq<char>>::empty());
    }
    let ghost first = parts@.map_values(|p: Vec<char>| p@);
    assert(first =~= meta_part(md));
    let mut begin: usize = 0;
    let mut i: usize = 0;
    while i < tensors.len()
        invariant
            entries == save_view(tensors@),
            md == metadata_view(metadata@),
            first == meta_part(md),
            data_before(entries, tensors@.len() as int) <= usize::MAX,
            i <= tensors@.len(),
            begin == data_before(entries, i as int),
            parts@.map_values(|p: Vec<char>| p@) =~= first + tensor_parts(entries).take(i as int),
        decreases tensors.len() - i,
    {
        proof {
            lemma_data_before_mono(entries, i + 1, tensors@.len() as int);
        }
        let end = begin + tensors[i].nbytes;
        let p = tensor_part_text(&tensors[i], begin, end);
        let ghost old_parts = parts@;
        assert(entries[i as int] == (tensors@[i as int].name@, tensors@[i as int].dtype, tensors@[i as int].shape@, tensors@[i as int].nbytes as nat));
        assert(data_before(entries, i + 1) == begin + tensors@[i as int].nbytes);
        assert(tensor_parts(entries)[i as int] == p@);
        parts.push(p);
        assert(parts@.map_values(|q: Vec<char>| q@) =~= old_parts.map_values(|q: Vec<char>| q@).push(p@));
        assert(tensor_parts(entries).take(i + 1) =~= tensor_parts(entries).take(i as int).push(p@));
        begin = end;
        i = i + 1;
    }
    assert(tensor_parts(entries).take(i as int) =~= tensor_parts(entries));
    let mut text: Vec<char> = Vec::new();
    text.push('{');
    let joined = join_parts(&parts);
    push_chars(&mut text, joined.as_slice());
    text.push('}');
    assert(text@ =~= save_header_text(md, entries));
    let s = string_from_chars(text.as_slice());
    let mut header = s.as_str().as_bytes_vec();
    let ghost b = header@;
    assert(b == encode_utf8(text@));
    while header.len() % 8 != 0
        invariant
            b.len() <= header@.len() <= b.len() + 8,
            header@.len() % 8 == 0 ==> header@.len() == b.len() + (8 - b.len() % 8) % 8,
            header@.len() % 8 != 0 ==> header@.len() < b.len() + (8 - b.len() % 8) % 8 || header@.len() == b.len(),
            header@ =~= b + Seq::new((header@.len() - b.len()) as nat, |k: int| 0x20u8),
        decreases b.len() + 8 - header@.len(),
    {
        header.push(0x20u8);
    }
    assert(header@ =~= padded_header(text@));
    let mut out: Vec<u8> = Vec::new();
    let n: usize = header.len();
    let mut rest: u64 = n as u64;
    let mut k: usize = 0;
    assert(le_bytes(n as nat, 8) == out@ + le_bytes(rest as nat, 8));
    while k < 8
        invariant
            k <= 8,
            out@ + le_bytes(rest as nat, (8 - k) as nat) == le_bytes(n as nat, 8),
        decreases 8 - k,
    {
        assert(le_bytes(rest as nat, (8 - k) as nat) == seq![(rest % 256) as u8] + le_bytes(
            (rest / 256) as nat,
            (8 - k - 1) as nat,
        ));
        out.push((rest % 256) as u8);
        assert(out@ + le_bytes((rest / 256) as nat, (8 - k - 1) as nat) =~= le_bytes(n as nat, 8));
        rest = rest / 256;
        k = k + 1;
    }
    assert(le_bytes(rest as nat, 0) =~= Seq::<u8>::empty());
    assert(out@ =~= le_bytes(n as nat, 8));
    let mut j: usize = 0;
    let ghost pre = out@;
    while j < header.len()
        invariant
            j <= header@.len(),
            out@ =~= pre + header@.take(j as int),
        decreases header.len() - j,
    {
        out.push(header[j]);
        assert(header@.take(j + 1) =~= header@.take(j as int).push(header@[j as int]));
        j = j + 1;
    }
    assert(header@.take(j as int) =~= header@);
    out
}

/// A saved file starts with the length that `header_len` reads back: that of the padded
/// header which follows it, a multiple of eight bytes.
pub proof fn law_saved_header_length(md: Seq<(Seq<char>, Seq<char>)>, entries: Seq<SaveEntry>)
    requires
        padded_header(save_header_text(md, entries)).len() < 0x1_0000_0000_0000_0000,
    ensures
        save_preamble(md, entries).len() == 8 + padded_header(save_header_text(md, entries)).len(),
        le64(save_preamble(md, entries)) == padded_header(save_header_text(md, entries)).len(),
        padded_header(save_header_text(md, entries)).len() % 8 == 0,
        save_preamble(md, entries).subrange(8, save_preamble(md, entries).len() as int) == padded_header(
            save_header_text(md, entries),
        ),
{
    let h = padded_header(save_header_text(md, entries));
    let n = h.len();
    lemma_le_bytes_len(n, 8);
    lemma_le64_of_bytes(n);
    let p = save_preamble(md, entries);
    assert(p.subrange(8, p.len() as int) =~= h);
}

proof fn lemma_le_bytes_len(n: nat, k: nat)
    ensures
        le_bytes(n, k).len() == k,
    decreases k,
{
    if k > 0 {
        lemma_le_bytes_len(n / 256, (k - 1) as nat);
    }
}

proof fn lemma_le64_of_bytes(n: nat)
    requires
        n < 0x1_0000_0000_0000_0000,
    ensures
        le64(le_bytes(n, 8)) == n,
{
    reveal_with_fuel(le_bytes, 9);
    let n1 = n / 256;
    let n2 = n1 / 256;
    let n3 = n2 / 256;
    let n4 = n3 / 256;
    let n5 = n4 / 256;
    let n6 = n5 / 256;
    let n7 = n6 / 256;
    assert(n7 < 256);
    let b = le_bytes(n, 8);
    assert(b[0] == (n % 256) as u8);
    assert(b[1] == (n1 % 256) as u8);
    assert(b[2] == (n2 % 256) as u8);
    assert(b[3] == (n3 % 256) as u8);
    assert(b[4] == (n4 % 256) as u8);
    assert(b[5] == (n5 % 256) as u8);
    assert(b[6] == (n6 % 256) as u8);
    assert(b[7] == (n7 % 256) as u8);
}

proof fn lemma_data_before_mono(entries: Seq<SaveEntry>, i: int, j: int)
    requires
        0 <= i <= j,
    ensures
        data_before(entries, i) <= data_before(entries, j),
    decreases j - i,
{
    if i < j {
        lemma_data_before_mono(entries, i, j - 1);
    }
}


/// A component of a tensor name with `_` in front of a leading digit.
pub open spec fn prefixed_component(part: Seq<char>) -> Seq<char> {
    if part.len() > 0 && '0' <= part[0] <= '9' { seq!['_'] + part } else { part }
}

/// Whether every character is an ASCII letter, digit or `_`.
pub open spec fn field_chars(s: Seq<char>) -> bool {
    forall|i: int| 0 <= i < s.len() ==> is_ascii_alnum(#[trigger] s[i]) || s[i] == '_'
}

/// A component of a tensor name as a record field: `_` in front of a leading digit, and
/// `None` when it is empty or holds anything but ASCII letters, digits and `_`.
pub open spec fn field_component_spec(part: Seq<char>) -> Option<Seq<char>> {
    let mapped = prefixed_component(part);
    if mapped.len() == 0 || !field_chars(mapped) {
        None
    } else {
        Some(mapped)
    }
}

/// The record field a component of a tensor name stands for, if it can be one.
pub fn field_component(part: &str) -> (r: Option<String>)
    ensures
        match r {
            Some(f) => field_component_spec(part@) == Some(f@),
            None => field_component_spec(part@) is None,
        },
{
    let cs = chars_of(part);
    let mut mapped: Vec<char> = Vec::new();
    if cs.len() > 0 && '0' <= cs[0] && cs[0] <= '9' {
        mapped.push('_');
    }
    push_chars(&mut mapped, cs.as_slice());
    let ghost m = prefixed_component(part@);
    assert(mapped@ =~= m);
    if mapped.len() == 0 {
        assert(m.len() == 0);
        return None;
    }
    let mut i: usize = 0;
    while i < mapped.len()
        invariant
            mapped@ == m,
            m == prefixed_component(part@),
            i <= mapped@.len(),
            forall|k: int| 0 <= k < i ==> is_ascii_alnum(#[trigger] mapped@[k]) || mapped@[k] == '_',
        decreases mapped.len() - i,
    {
        let c = mapped[i];
        if !(('0' <= c && c <= '9') || ('a' <= c && c <= 'z') || ('A' <= c && c <= 'Z') || c == '_') {
            assert(!(is_ascii_alnum(mapped@[i as int]) || mapped@[i as int] == '_'));
            return None;
        }
        i = i + 1;
    }
    Some(string_from_chars(mapped.as_slice()))
}

/// The record path a tensor name stands for: its `.`-separated components as fields, or
/// `None` when one of them cannot be a field.
pub open spec fn field_path_spec(name: Seq<char>) -> Option<Seq<Seq<char>>> {
    let parts = split_pat(name, seq!['.']);
    if forall|i: int| 0 <= i < parts.len() ==> (#[trigger] field_component_spec(parts[i])) is Some {
        Some(Seq::new(parts.len(), |i: int| field_component_spec(parts[i])->0))
    } else {
        None
    }
}

/// The record fields a tensor name leads through, one per `.`-separated component.
pub fn field_path(name: &str) -> (r: Option<Vec<String>>)
    ensures
        match r {
            Some(v) => field_path_spec(name@) == Some(Seq::new(v@.len(), |i: int| v@[i]@)),
            None => field_path_spec(name@) is None,
        },
{
    let cs = chars_of(name);
    let dot: [char; 1] = ['.'];
    assert(dot@ =~= seq!['.']);
    let parts = split_by(cs.as_slice(), &dot);
    let ghost ps = split_pat(name@, seq!['.']);
    let mut out: Vec<String> = Vec::new();
    let mut i: usize = 0;
    while i < parts.len()
        invariant
            ps == split_pat(name@, seq!['.']),
            parts@.len() == ps.len(),
            forall|k: int| 0 <= k < parts@.len() ==> #[trigger] parts@[k]@ == ps[k],
            i <= parts@.len(),
            out@.len() == i,
            forall|k: int| 0 <= k < i ==> (#[trigger] field_component_spec(ps[k])) == Some(out@[k]@),
        decreases parts.len() - i,
    {
        let piece = string_from_chars(parts[i].as_slice());
        match field_component(piece.as_str()) {
            None => {
                assert(field_component_spec(ps[i as int]) is None);
                return None;
            },
            Some(f) => {
                out.push(f);
            },
        }
        i = i + 1;
    }
    assert(Seq::new(ps.len(), |k: int| field_component_spec(ps[k])->0) =~= Seq::new(out@.len(), |k: int| out@[k]@));
    Some(out)
}

/// Why a value cannot be saved.
#[derive(Debug, Clone, Copy, PartialEq, Eq, Structural)]
pub enum SaveError {
    /// Booleans have no file type; select values with `where` first.
    Booleans,
    /// The value is batched inside `vmap`.
    InsideVmap,
}

/// Checks that a traced value can be saved: not boolean and not batched.
pub fn check_leaf(b: &BVal) -> (r: Result<(), SaveError>)
    ensures
        r == (if b.val.dtype == Dtype::I1 {
            Err(SaveError::Booleans)
        } else if b.bdims != 0 {
            Err(SaveError::InsideVmap)
        } else {
            Ok(())
        }),
{
    if b.val.dtype == Dtype::I1 {
        Err(SaveError::Booleans)
    } else if b.bdims != 0 {
        Err(SaveError::InsideVmap)
    } else {
        Ok(())
    }
}

} // verus!
