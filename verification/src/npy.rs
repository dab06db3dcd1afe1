use vstd::prelude::*;
use vstd::utf8::*;

use crate::emit::{join, join_spec};
use crate::graph::Dtype;
use crate::net::starts_with;
use crate::serve::parse_dims;
use crate::strs::{
    chars_of, copy_chars, decimal_chars, decimal_text, find_from, push_chars, push_str_chars, first_match, parse_usize,
    parse_usize_spec, split_by, split_pat, string_from_chars, trim_chars, trim_spec, trim_from, trim_to, is_white,
    lemma_first_match, lemma_first_match_at, lemma_first_match_none,
};

verus! {

/// Where a program input is read from: a file, the entry within it (a tensor name or a
/// column) if any, and the shape and element type it was compiled for.
#[derive(Debug, Clone)]
pub struct InputSpec {
    pub path: String,
    pub entry: Option<String>,
    pub shape: Vec<usize>,
    pub dtype: Dtype,
}

/// The characters `String::from_utf8_lossy` reads from bytes: the decoded text, with each
/// ill-formed sequence replaced by U+FFFD.
pub uninterp spec fn utf8_lossy(bytes: Seq<u8>) -> Seq<char>;

/// Trusted: calls `String::from_utf8_lossy`, whose result depends on the bytes alone and,
/// for valid UTF-8, holds exactly the characters the bytes encode; what it gives for
/// ill-formed input is left to the name.
#[verifier::external_body]
pub(crate) fn lossy_text(bytes: &[u8]) -> (s: String)
    ensures
        s@ == utf8_lossy(bytes@),
        valid_utf8(bytes@) ==> s@ == decode_utf8(bytes@),
{
    String::from_utf8_lossy(bytes).into_owned()
}

/// Why a `.npy` file is refused.
#[derive(Debug, Clone, PartialEq)]
pub enum NpyError<S = String> {
    NotNpy,
    UnsupportedVersion(u8),
    /// The header (trimmed), which names no little-endian f32 or f64 type.
    UnsupportedDtype(S),
    FortranOrder,
    /// The header (trimmed), which has no parenthesized shape.
    MalformedHeader(S),
    /// The header (trimmed), whose shape holds something other than numbers.
    MalformedShape(S),
}

impl View for NpyError<String> {
    type V = NpyError<Seq<char>>;

    open spec fn view(&self) -> NpyError<Seq<char>> {
        match self {
            NpyError::NotNpy => NpyError::NotNpy,
            NpyError::UnsupportedVersion(v) => NpyError::UnsupportedVersion(*v),
            NpyError::UnsupportedDtype(s) => NpyError::UnsupportedDtype(s@),
            NpyError::FortranOrder => NpyError::FortranOrder,
            NpyError::MalformedHeader(s) => NpyError::MalformedHeader(s@),
            NpyError::MalformedShape(s) => NpyError::MalformedShape(s@),
        }
    }
}

pub open spec fn npy_magic() -> Seq<u8> {
    seq![0x93u8, 78, 85, 77, 80, 89]
}

/// How many bytes give the header length after the 8-byte preamble: 2 for version 1,
/// 4 for version 2.
pub open spec fn npy_len_width(intro: Seq<u8>) -> Result<nat, NpyError<Seq<char>>> {
    if intro.take(6) != npy_magic() {
        Err(NpyError::NotNpy)
    } else if intro[6] == 1 {
        Ok(2)
    } else if intro[6] == 2 {
        Ok(4)
    } else {
        Err(NpyError::UnsupportedVersion(intro[6]))
    }
}

/// Checks the 8-byte preamble of a `.npy` file and gives the width of its header length.
pub fn npy_intro(intro: &[u8]) -> (r: Result<usize, NpyError>)
    requires
        intro@.len() >= 8,
    ensures
        match r {
            Ok(w) => npy_len_width(intro@) == Ok::<nat, NpyError<Seq<char>>>(w as nat),
            Err(e) => npy_len_width(intro@) == Err::<nat, NpyError<Seq<char>>>(e@),
        },
{
    let magic: [u8; 6] = [0x93, 78, 85, 77, 80, 89];
    assert(magic@ =~= npy_magic());
    let mut i: usize = 0;
    while i < 6
        invariant
            intro@.len() >= 8,
            magic@ == npy_magic(),
            i <= 6,
            forall|k: int| 0 <= k < i ==> intro@[k] == magic@[k],
        decreases 6 - i,
    {
        if intro[i] != magic[i] {
            assert(intro@.take(6)[i as int] != npy_magic()[i as int]);
            return Err(NpyError::NotNpy);
        }
        i = i + 1;
    }
    assert(intro@.take(6) =~= npy_magic());
    if intro[6] == 1 {
        Ok(2)
    } else if intro[6] == 2 {
        Ok(4)
    } else {
        Err(NpyError::UnsupportedVersion(intro[6]))
    }
}

pub open spec fn pat_f4() -> Seq<char> {
    seq!['\'', '<', 'f', '4', '\'']
}

pub open spec fn pat_f8() -> Seq<char> {
    seq!['\'', '<', 'f', '8', '\'']
}

pub open spec fn pat_c_order() -> Seq<char> {
    seq![
        '\'', 'f', 'o', 'r', 't', 'r', 'a', 'n', '_', 'o', 'r', 'd', 'e', 'r', '\'', ':', ' ', 'F', 'a', 'l', 's', 'e',
    ]
}

/// The numbers of a shape's text between its parentheses: comma-separated, blanks and
/// empty pieces ignored.
pub open spec fn shape_pieces(t: Seq<char>) -> Seq<Seq<char>> {
    nonblank(split_pat(t, seq![',']))
}

/// The trimmed pieces that are not empty, in order.
pub open spec fn nonblank(pieces: Seq<Seq<char>>) -> Seq<Seq<char>>
    decreases pieces.len(),
{
    if pieces.len() == 0 {
        seq![]
    } else {
        let rest = nonblank(pieces.drop_last());
        let t = trim_spec(pieces.last());
        if t.len() > 0 { rest.push(t) } else { rest }
    }
}

/// The characters of a header read as text: its UTF-8 decoding when the bytes are valid,
/// else what lossy decoding gives.
pub open spec fn header_chars(header: Seq<u8>) -> Seq<char> {
    if valid_utf8(header) {
        decode_utf8(header)
    } else {
        utf8_lossy(header)
    }
}

/// What a `.npy` header says: the element type, that it is in C order, and the shape in the
/// first parentheses, with the data after the preamble, the header length and the header.
pub open spec fn npy_header_spec(header: Seq<u8>, len_width: nat) -> Result<
    (Seq<usize>, Dtype, nat),
    NpyError<Seq<char>>,
> {
    let h = header_chars(header);
    let trimmed = trim_spec(h);
    let dtype = if first_match(h, pat_f4(), 0) is Some {
        Some(Dtype::F32)
    } else if first_match(h, pat_f8(), 0) is Some {
        Some(Dtype::F64)
    } else {
        None
    };
    match dtype {
        None => Err(NpyError::UnsupportedDtype(trimmed)),
        Some(d) => if first_match(h, pat_c_order(), 0) is None {
            Err(NpyError::FortranOrder)
        } else {
            match first_match(h, seq!['('], 0) {
                None => Err(NpyError::MalformedHeader(trimmed)),
                Some(open) => match first_match(h, seq![')'], open) {
                    None => Err(NpyError::MalformedHeader(trimmed)),
                    Some(close) => match parse_dims(shape_pieces(h.subrange(open + 1, close))) {
                        None => Err(NpyError::MalformedShape(trimmed)),
                        Some(dims) => Ok((dims, d, 8 + len_width + header.len())),
                    },
                },
            }
        },
    }
}

fn find_char(s: &Vec<char>, c: char, from: usize) -> (r: Option<usize>)
    requires
        from <= s@.len(),
    ensures
        match r {
            Some(k) => first_match(s@, seq![c], from as int) == Some(k as int),
            None => first_match(s@, seq![c], from as int) is None,
        },
{
    let pat: Vec<char> = vec![c];
    assert(pat@ =~= seq![c]);
    find_from(s.as_slice(), pat.as_slice(), from)
}

/// Reads a `.npy` header: its element type, shape, and where the data starts, given the
/// width of the header length field.
pub fn parse_npy_header(header: &[u8], len_width: usize) -> (r: Result<(Vec<usize>, Dtype, usize), NpyError>)
    requires
        len_width == 2 || len_width == 4,
        8 + len_width + header@.len() <= usize::MAX,
    ensures
        match r {
            Ok((shape, dtype, offset)) => npy_header_spec(header@, len_width as nat) == Ok::<
                (Seq<usize>, Dtype, nat),
                NpyError<Seq<char>>,
            >((shape@, dtype, offset as nat)),
            Err(e) => npy_header_spec(header@, len_width as nat) == Err::<
                (Seq<usize>, Dtype, nat),
                NpyError<Seq<char>>,
            >(e@),
        },
{
    let offset = 8 + len_width + header.len();
    let text = lossy_text(header);
    let h = chars_of(text.as_str());
    assert(h@ == header_chars(header@));
    let trimmed = trim_chars(h.as_slice());
    let f4 = chars_of("'<f4'");
    let f8 = chars_of("'<f8'");
    let c_order = chars_of("'fortran_order': False");
    proof {
        reveal_strlit("'<f4'");
        reveal_strlit("'<f8'");
        reveal_strlit("'fortran_order': False");
    }
    assert(f4@ =~= pat_f4());
    assert(f8@ =~= pat_f8());
    assert(c_order@ =~= pat_c_order());
    let dtype = if find_from(h.as_slice(), f4.as_slice(), 0).is_some() {
        Dtype::F32
    } else if find_from(h.as_slice(), f8.as_slice(), 0).is_some() {
        Dtype::F64
    } else {
        return Err(NpyError::UnsupportedDtype(string_from_chars(trimmed.as_slice())));
    };
    if find_from(h.as_slice(), c_order.as_slice(), 0).is_none() {
        return Err(NpyError::FortranOrder);
    }
    let open = match find_char(&h, '(', 0) {
        None => {
            return Err(NpyError::MalformedHeader(string_from_chars(trimmed.as_slice())));
        },
        Some(k) => k,
    };
    proof {
        crate::strs::lemma_first_match(h@, seq!['('], 0);
    }
    let close = match find_char(&h, ')', open) {
        None => {
            return Err(NpyError::MalformedHeader(string_from_chars(trimmed.as_slice())));
        },
        Some(k) => k,
    };
    proof {
        crate::strs::lemma_first_match(h@, seq![')'], open as int);
        assert(h@.subrange(close as int, close + 1)[0] == h@[close as int]);
        assert(h@.subrange(open as int, open + 1)[0] == h@[open as int]);
    }
    let inside = copy_chars(h.as_slice(), open + 1, close);
    let comma: [char; 1] = [','];
    assert(comma@ =~= seq![',']);
    let pieces = split_by(inside.as_slice(), &comma);
    let ghost pv = split_pat(inside@, seq![',']);
    let mut kept: Vec<Vec<char>> = Vec::new();
    let mut i: usize = 0;
    assert(pv.take(0) =~= Seq::<Seq<char>>::empty());
    while i < pieces.len()
        invariant
            pv == split_pat(inside@, seq![',']),
            pieces@.len() == pv.len(),
            forall|k: int| 0 <= k < pieces@.len() ==> #[trigger] pieces@[k]@ == pv[k],
            i <= pieces@.len(),
            Seq::new(kept@.len(), |k: int| kept@[k]@) == nonblank(pv.take(i as int)),
        decreases pieces.len() - i,
    {
        assert(pv.take(i + 1).drop_last() =~= pv.take(i as int));
        let t = trim_chars(pieces[i].as_slice());
        let ghost before = Seq::new(kept@.len(), |k: int| kept@[k]@);
        if t.len() > 0 {
            kept.push(t);
            assert(Seq::new(kept@.len(), |k: int| kept@[k]@) =~= before.push(t@));
        }
        i = i + 1;
    }
    assert(pv.take(i as int) =~= pv);
    let ghost kv = Seq::new(kept@.len(), |k: int| kept@[k]@);
    assert(inside@ =~= h@.subrange(open + 1, close as int));
    let ghost rest = match parse_dims(kv) {
        None => Err(NpyError::MalformedShape(trimmed@)),
        Some(dims) => Ok((dims, dtype, offset as nat)),
    };
    assert(npy_header_spec(header@, len_width as nat) == rest);
    let mut shape: Vec<usize> = Vec::new();
    let mut k: usize = 0;
    while k < kept.len()
        invariant
            kv == Seq::new(kept@.len(), |k: int| kept@[k]@),
            npy_header_spec(header@, len_width as nat) == rest,
            rest == match parse_dims(kv) {
                None => Err(NpyError::MalformedShape(trimmed@)),
                Some(dims) => Ok((dims, dtype, offset as nat)),
            },
            k <= kept@.len(),
            shape@.len() == k,
            forall|m: int| 0 <= m < k ==> (#[trigger] parse_usize_spec(kv[m])) == Some(shape@[m] as nat),
        decreases kept.len() - k,
    {
        match parse_usize(kept[k].as_slice()) {
            None => {
                assert(parse_usize_spec(kv[k as int]) is None);
                assert(parse_dims(kv) is None);
                return Err(NpyError::MalformedShape(string_from_chars(trimmed.as_slice())));
            },
            Some(d) => {
                shape.push(d);
            },
        }
        k = k + 1;
    }
    assert(shape@ =~= Seq::new(kv.len(), |m: int| parse_usize_spec(kv[m])->0 as usize));
    Ok((shape, dtype, offset))
}

/// The shape as a Python tuple: `()`, `(d,)`, or the dimensions joined by `, `.
pub open spec fn shape_tuple(shape: Seq<usize>) -> Seq<char> {
    if shape.len() == 0 {
        seq!['(', ')']
    } else if shape.len() == 1 {
        seq!['('] + decimal_chars(shape[0] as nat) + seq![',', ')']
    } else {
        seq!['('] + join_spec(shape) + seq![')']
    }
}

pub open spec fn descr_text(dtype: Dtype) -> Seq<char> {
    if dtype == Dtype::F32 { seq!['<', 'f', '4'] } else { seq!['<', 'f', '8'] }
}

/// The header dictionary `write_npy` writes.
pub open spec fn npy_dict(dtype: Dtype, shape: Seq<usize>) -> Seq<char> {
    "{'descr': '"@ + descr_text(dtype) + "', 'fortran_order': False, 'shape': "@ + shape_tuple(shape) + ", }"@
}

/// The header text: the dictionary, spaces up to a multiple of 64 bytes for the whole
/// preamble, and a line end.
pub open spec fn npy_header_text(dtype: Dtype, shape: Seq<usize>) -> Seq<char> {
    let d = npy_dict(dtype, shape);
    let pad = ((64 - (10 + d.len() + 1) % 64) % 64) as nat;
    d + Seq::new(pad, |i: int| ' ') + seq!['\n']
}

/// The bytes of ASCII text.
pub open spec fn ascii_bytes(cs: Seq<char>) -> Seq<u8> {
    Seq::new(cs.len(), |i: int| cs[i] as u8)
}

/// The preamble of a version-1 `.npy` file: magic, version, header length, header.
pub open spec fn npy_preamble(dtype: Dtype, shape: Seq<usize>) -> Seq<u8> {
    let h = npy_header_text(dtype, shape);
    npy_magic() + seq![1u8, 0u8] + seq![(h.len() % 256) as u8, (h.len() / 256) as u8] + ascii_bytes(h)
}

/// The bytes a `.npy` file of the given element type and shape starts with; the data
/// follows them.
pub fn npy_header(dtype: Dtype, shape: &[usize]) -> (out: Vec<u8>)
    requires
        npy_header_text(dtype, shape@).len() <= 0xFFFF,
    ensures
        out@ == npy_preamble(dtype, shape@),
{
    let mut d: Vec<char> = Vec::new();
    push_str_chars(&mut d, "{'descr': '");
    if dtype == Dtype::F32 {
        push_str_chars(&mut d, "<f4");
    } else {
        push_str_chars(&mut d, "<f8");
    }
    push_str_chars(&mut d, "', 'fortran_order': False, 'shape': ");
    proof {
        reveal_strlit("<f4");
        reveal_strlit("<f8");
    }
    assert(d@ =~= "{'descr': '"@ + descr_text(dtype) + "', 'fortran_order': False, 'shape': "@);
    let ghost before = d@;
    if shape.len() == 0 {
        d.push('(');
        d.push(')');
    } else if shape.len() == 1 {
        d.push('(');
        let t = decimal_text(shape[0]);
        push_chars(&mut d, t.as_slice());
        d.push(',');
        d.push(')');
    } else {
        d.push('(');
        let j = join(shape);
        push_str_chars(&mut d, j.as_str());
        d.push(')');
    }
    assert(d@ =~= before + shape_tuple(shape@));
    push_str_chars(&mut d, ", }");
    assert(d@ =~= npy_dict(dtype, shape@));
    let pad = (64 - (10 + d.len() + 1) % 64) % 64;
    let ghost dict = d@;
    let mut k: usize = 0;
    while k < pad
        invariant
            k <= pad,
            d@ == dict + Seq::new(k as nat, |i: int| ' '),
        decreases pad - k,
    {
        d.push(' ');
        assert(d@ =~= dict + Seq::new((k + 1) as nat, |i: int| ' '));
        k = k + 1;
    }
    d.push('\n');
    assert(d@ =~= npy_header_text(dtype, shape@));
    let n = d.len();
    let mut out: Vec<u8> = vec![0x93, 78, 85, 77, 80, 89, 1, 0];
    out.push((n % 256) as u8);
    out.push((n / 256) as u8);
    let ghost start = out@;
    let mut i: usize = 0;
    while i < d.len()
        invariant
            i <= d@.len(),
            out@ == start + ascii_bytes(d@.take(i as int)),
        decreases d.len() - i,
    {
        out.push(d[i] as u8);
        assert(ascii_bytes(d@.take(i + 1)) =~= ascii_bytes(d@.take(i as int)).push(d@[i as int] as u8));
        i = i + 1;
    }
    assert(d@.take(i as int) =~= d@);
    assert(out@ =~= npy_preamble(dtype, shape@));
    out
}


/// What `first_match` says of the positions it passes over.
proof fn lemma_first_match_facts(s: Seq<char>, pat: Seq<char>, i: int)
    requires
        0 <= i,
    ensures
        first_match(s, pat, i) is None ==> forall|j: int| i <= j && j + pat.len() <= s.len() ==> #[trigger] s.subrange(j, j + pat.len()) != pat,
        first_match(s, pat, i) matches Some(k) ==> forall|j: int| i <= j < k ==> #[trigger] s.subrange(j, j + pat.len()) != pat,
    decreases s.len() + 1 - i,
{
    if i + pat.len() <= s.len() && s.subrange(i, i + pat.len()) != pat {
        lemma_first_match_facts(s, pat, i + 1);
    }
}

/// Whether a text holds no comma.
pub open spec fn no_comma(s: Seq<char>) -> bool {
    forall|i: int| 0 <= i < s.len() ==> #[trigger] s[i] != ','
}

proof fn lemma_split_no_comma(b: Seq<char>)
    requires
        no_comma(b),
    ensures
        split_pat(b, seq![',']) == seq![b],
{
    assert forall|j: int| 0 <= j && j + 1 <= b.len() implies #[trigger] b.subrange(j, j + 1) != seq![','] by {
        assert(b.subrange(j, j + 1)[0] == b[j]);
    }
    lemma_first_match_none(b, seq![','], 0);
}

/// Splitting at commas around a comma splits each side.
proof fn lemma_split_comma(a: Seq<char>, b: Seq<char>)
    ensures
        split_pat(a + seq![','] + b, seq![',']) == split_pat(a, seq![',']) + split_pat(b, seq![',']),
    decreases a.len(),
{
    let c = seq![','];
    let s = a + c + b;
    lemma_first_match_facts(a, c, 0);
    lemma_first_match(a, c, 0);
    match first_match(a, c, 0) {
        Some(k) => {
            assert forall|j: int| 0 <= j < k implies #[trigger] s.subrange(j, j + 1) != c by {
                assert(s.subrange(j, j + 1) =~= a.subrange(j, j + 1));
            }
            assert(s.subrange(k, k + 1) =~= a.subrange(k, k + 1));
            lemma_first_match_at(s, c, 0, k);
            assert(s.take(k) =~= a.take(k));
            assert(s.skip(k + 1) =~= a.skip(k + 1) + c + b);
            lemma_split_comma(a.skip(k + 1), b);
            assert(split_pat(a, c) == seq![a.take(k)] + split_pat(a.skip(k + 1), c));
            assert(split_pat(s, c) == seq![s.take(k)] + split_pat(s.skip(k + 1), c));
            assert(split_pat(s, c) =~= split_pat(a, c) + split_pat(b, c));
        },
        None => {
            assert forall|j: int| 0 <= j < a.len() implies #[trigger] s.subrange(j, j + 1) != c by {
                assert(s.subrange(j, j + 1) =~= a.subrange(j, j + 1));
            }
            assert(s.subrange(a.len() as int, a.len() as int + 1) =~= c);
            lemma_first_match_at(s, c, 0, a.len() as int);
            assert(s.take(a.len() as int) =~= a);
            assert(s.skip(a.len() as int + 1) =~= b);
            assert(split_pat(a, c) == seq![a]);
            assert(split_pat(s, c) =~= split_pat(a, c) + split_pat(b, c));
        },
    }
}

proof fn lemma_nonblank_concat(a: Seq<Seq<char>>, b: Seq<Seq<char>>)
    ensures
        nonblank(a + b) == nonblank(a) + nonblank(b),
    decreases b.len(),
{
    if b.len() > 0 {
        assert((a + b).drop_last() =~= a + b.drop_last());
        lemma_nonblank_concat(a, b.drop_last());
    } else {
        assert(a + b =~= a);
    }
}

/// Whether every character is a decimal digit, and there is one.
pub open spec fn digit_run(t: Seq<char>) -> bool {
    t.len() > 0 && forall|i: int| 0 <= i < t.len() ==> '0' <= #[trigger] t[i] <= '9'
}

proof fn lemma_trim_digits(t: Seq<char>, lead: Seq<char>)
    requires
        digit_run(t),
        lead == seq![' '] || lead.len() == 0,
    ensures
        trim_spec(lead + t) == t,
{
    let s = lead + t;
    assert(!is_white(t[0]));
    assert(!is_white(t[t.len() - 1]));
    if lead.len() == 1 {
        assert(s[0] == ' ');
        assert(s[1] == t[0]);
        assert(trim_from(s, 1) == 1);
        assert(trim_from(s, 0) == 1);
    } else {
        assert(s[0] == t[0]);
        assert(trim_from(s, 0) == 0);
    }
    assert(s[s.len() - 1] == t[t.len() - 1]);
    assert(trim_to(s, s.len() as int) == s.len());
    assert(s.subrange(lead.len() as int, s.len() as int) =~= t);
}


/// A character of a shape tuple between its parentheses.
pub open spec fn tuple_char(c: char) -> bool {
    ('0' <= c <= '9') || c == ',' || c == ' '
}

proof fn lemma_decimal_run(n: nat)
    ensures
        digit_run(decimal_chars(n)),
{
    crate::strs::lemma_decimal_chars(n);
    let d = decimal_chars(n);
    assert forall|i: int| 0 <= i < d.len() implies '0' <= #[trigger] d[i] <= '9' by {
        assert(crate::strs::is_digit_char(d[i]));
    }
}

proof fn lemma_join_chars(xs: Seq<usize>)
    ensures
        forall|i: int| 0 <= i < join_spec(xs).len() ==> tuple_char(#[trigger] join_spec(xs)[i]),
    decreases xs.len(),
{
    if xs.len() == 1 {
        lemma_decimal_run(xs[0] as nat);
    } else if xs.len() > 1 {
        lemma_join_chars(xs.drop_last());
        lemma_decimal_run(xs.last() as nat);
        let a = join_spec(xs.drop_last());
        let d = decimal_chars(xs.last() as nat);
        assert(join_spec(xs) == a + seq![',', ' '] + d);
        assert forall|i: int| 0 <= i < join_spec(xs).len() implies tuple_char(#[trigger] join_spec(xs)[i]) by {
            if i < a.len() {
                assert(join_spec(xs)[i] == a[i]);
            } else if i < a.len() + 2 {
            } else {
                assert(join_spec(xs)[i] == d[i - a.len() - 2]);
            }
        }
    }
}

/// The numbers of a shape, each in decimal.
pub open spec fn decimals(xs: Seq<usize>) -> Seq<Seq<char>> {
    Seq::new(xs.len(), |i: int| decimal_chars(xs[i] as nat))
}

#[verifier::rlimit(50)]
proof fn lemma_join_pieces(xs: Seq<usize>)
    requires
        xs.len() >= 1,
    ensures
        shape_pieces(join_spec(xs)) == decimals(xs),
    decreases xs.len(),
{
    let c = seq![','];
    lemma_join_chars(xs);
    if xs.len() == 1 {
        let d = decimal_chars(xs[0] as nat);
        lemma_decimal_run(xs[0] as nat);
        assert(no_comma(d));
        lemma_split_no_comma(d);
        lemma_trim_digits(d, seq![]);
        assert(seq![] + d =~= d);
        assert(nonblank(seq![d]) == nonblank(seq![d].drop_last()).push(d));
        assert(nonblank(seq![d]) =~= decimals(xs));
    } else {
        let a = join_spec(xs.drop_last());
        let d = decimal_chars(xs.last() as nat);
        lemma_decimal_run(xs.last() as nat);
        let b = seq![' '] + d;
        assert(join_spec(xs) =~= a + c + b);
        lemma_split_comma(a, b);
        assert(no_comma(b));
        lemma_split_no_comma(b);
        lemma_trim_digits(d, seq![' ']);
        lemma_join_pieces(xs.drop_last());
        lemma_nonblank_concat(split_pat(a, c), seq![b]);
        assert(nonblank(seq![b]) == nonblank(seq![b].drop_last()).push(d));
        assert(nonblank(seq![b]) =~= seq![d]);
        assert(decimals(xs) =~= decimals(xs.drop_last()).push(d));
    }
}

/// The text between the parentheses of a shape tuple.
pub open spec fn tuple_body(shape: Seq<usize>) -> Seq<char> {
    if shape.len() == 0 {
        seq![]
    } else if shape.len() == 1 {
        decimal_chars(shape[0] as nat) + seq![',']
    } else {
        join_spec(shape)
    }
}

proof fn lemma_tuple(shape: Seq<usize>)
    ensures
        shape_tuple(shape) == seq!['('] + tuple_body(shape) + seq![')'],
        forall|i: int| 0 <= i < tuple_body(shape).len() ==> tuple_char(#[trigger] tuple_body(shape)[i]),
        shape_pieces(tuple_body(shape)) == decimals(shape),
{
    let c = seq![','];
    let body = tuple_body(shape);
    if shape.len() == 0 {
        assert(shape_tuple(shape) =~= seq!['('] + body + seq![')']);
        assert(no_comma(body));
        lemma_split_no_comma(body);
        assert(trim_spec(body) =~= Seq::<char>::empty());
        assert(nonblank(seq![body]) == nonblank(seq![body].drop_last()));
        assert(nonblank(seq![body]) =~= Seq::<Seq<char>>::empty());
        assert(decimals(shape) =~= Seq::<Seq<char>>::empty());
    } else if shape.len() == 1 {
        let d = decimal_chars(shape[0] as nat);
        lemma_decimal_run(shape[0] as nat);
        assert(shape_tuple(shape) =~= seq!['('] + body + seq![')']);
        assert forall|i: int| 0 <= i < body.len() implies tuple_char(#[trigger] body[i]) by {
            if i < d.len() {
                assert(body[i] == d[i]);
            }
        }
        assert(body =~= d + c + seq![]);
        lemma_split_comma(d, seq![]);
        assert(no_comma(d));
        lemma_split_no_comma(d);
        assert(no_comma(Seq::<char>::empty()));
        lemma_split_no_comma(seq![]);
        lemma_trim_digits(d, seq![]);
        assert(seq![] + d =~= d);
        assert(trim_spec(Seq::<char>::empty()) =~= Seq::<char>::empty());
        assert(split_pat(body, c) =~= seq![d, seq![]]);
        assert(nonblank(seq![d, seq![]]) == nonblank(seq![d, seq![]].drop_last()));
        assert(seq![d, Seq::<char>::empty()].drop_last() =~= seq![d]);
        assert(nonblank(seq![d]) == nonblank(seq![d].drop_last()).push(d));
        assert(nonblank(seq![d, seq![]]) =~= decimals(shape));
    } else {
        assert(shape_tuple(shape) =~= seq!['('] + body + seq![')']);
        lemma_join_chars(shape);
        lemma_join_pieces(shape);
    }
}

proof fn lemma_parse_decimals(shape: Seq<usize>)
    ensures
        parse_dims(decimals(shape)) == Some(shape),
{
    assert forall|i: int| 0 <= i < shape.len() implies (#[trigger] parse_usize_spec(decimals(shape)[i])) == Some(shape[i] as nat) by {
        crate::strs::lemma_parse_decimal(shape[i] as nat);
    }
    assert(Seq::new(shape.len(), |i: int| parse_usize_spec(decimals(shape)[i])->0 as usize) =~= shape);
}


proof fn lemma_first_match_some(s: Seq<char>, pat: Seq<char>, i: int, k: int)
    requires
        0 <= i <= k,
        k + pat.len() <= s.len(),
        s.subrange(k, k + pat.len()) == pat,
    ensures
        first_match(s, pat, i) is Some,
{
    lemma_first_match_facts(s, pat, i);
}

/// The fixed characters of a header before its shape tuple.
pub open spec fn header_head(dtype: Dtype) -> Seq<char> {
    "{'descr': '"@ + descr_text(dtype) + "', 'fortran_order': False, 'shape': "@
}

/// Where each character of a header `npy_header` writes comes from.
proof fn lemma_header_layout(dtype: Dtype, shape: Seq<usize>)
    ensures
        ({
            let h = npy_header_text(dtype, shape);
            let body = tuple_body(shape);
            let head = header_head(dtype);
            let close = 51 + body.len() as int;
            &&& head.len() == 50
            &&& h.len() >= close + 5
            &&& forall|i: int| 0 <= i < 50 ==> h[i] == #[trigger] head[i]
            &&& h[50] == '('
            &&& forall|i: int| 51 <= i < close ==> #[trigger] h[i] == body[i - 51]
            &&& h[close] == ')'
            &&& forall|i: int| close < i < h.len() ==> (#[trigger] h[i] == ',' || h[i] == ' ' || h[i] == '}' || h[i] == '\n')
            &&& h.subrange(51, close) == body
        }),
{
    reveal_strlit("{'descr': '");
    reveal_strlit("', 'fortran_order': False, 'shape': ");
    reveal_strlit(", }");
    lemma_tuple(shape);
    let h = npy_header_text(dtype, shape);
    let body = tuple_body(shape);
    let head = header_head(dtype);
    let d = npy_dict(dtype, shape);
    let pad = ((64 - (10 + d.len() + 1) % 64) % 64) as nat;
    assert(d =~= head + seq!['('] + body + seq![')'] + ", }"@);
    assert(h =~= head + seq!['('] + body + seq![')'] + ", }"@ + Seq::new(pad, |i: int| ' ') + seq!['\n']);
    let close = 51 + body.len();
    assert(h.subrange(51, close as int) =~= body);
}


proof fn lemma_header_ascii(dtype: Dtype, shape: Seq<usize>)
    ensures
        header_chars(ascii_bytes(npy_header_text(dtype, shape))) == npy_header_text(dtype, shape),
{
    reveal_strlit("{'descr': '");
    reveal_strlit("', 'fortran_order': False, 'shape': ");
    let h = npy_header_text(dtype, shape);
    let body = tuple_body(shape);
    let head = header_head(dtype);
    let close = 51 + body.len() as int;
    lemma_header_layout(dtype, shape);
    lemma_tuple(shape);
    assert(is_ascii_chars(h)) by {
        assert forall|i: int| 0 <= i < h.len() implies '\0' <= #[trigger] h[i] <= '\u{7f}' by {
            if i < 50 {
                assert(h[i] == head[i]);
            } else if 51 <= i < close {
                assert(h[i] == body[i - 51]);
                assert(tuple_char(body[i - 51]));
            }
        }
    }
    is_ascii_chars_encode_utf8(h);
    assert(encode_utf8(h) =~= ascii_bytes(h));
    encode_utf8_valid_utf8(h);
    encode_utf8_decode_utf8(h);
}

proof fn lemma_header_dtype(dtype: Dtype, shape: Seq<usize>)
    requires
        dtype == Dtype::F32 || dtype == Dtype::F64,
    ensures
        dtype == Dtype::F32 ==> first_match(npy_header_text(dtype, shape), pat_f4(), 0) is Some,
        dtype == Dtype::F64 ==> first_match(npy_header_text(dtype, shape), pat_f4(), 0) is None && first_match(
            npy_header_text(dtype, shape),
            pat_f8(),
            0,
        ) is Some,
{
    reveal_strlit("{'descr': '");
    reveal_strlit("', 'fortran_order': False, 'shape': ");
    let h = npy_header_text(dtype, shape);
    let body = tuple_body(shape);
    let head = header_head(dtype);
    let close = 51 + body.len() as int;
    lemma_header_layout(dtype, shape);
    lemma_tuple(shape);
    let f4 = pat_f4();
    let f8 = pat_f8();
    assert(h[10] == head[10] && h[11] == head[11] && h[12] == head[12] && h[13] == head[13] && h[14] == head[14]);
    if dtype == Dtype::F32 {
        assert(h.subrange(10, 15) =~= f4);
        lemma_first_match_some(h, f4, 0, 10);
    } else {
        assert(h.subrange(10, 15) =~= f8);
        lemma_first_match_some(h, f8, 0, 10);
        assert forall|j: int| 0 <= j && j + f4.len() <= h.len() implies #[trigger] h.subrange(j, j + f4.len()) != f4 by {
            if h.subrange(j, j + 5) == f4 {
                assert(h.subrange(j, j + 5)[1] == h[j + 1]);
                if j + 1 < 50 {
                    assert(h[j + 1] == head[j + 1]);
                    assert(h.subrange(j, j + 5)[3] == h[j + 3]);
                } else if 51 <= j + 1 < close {
                    assert(h[j + 1] == body[j + 1 - 51]);
                    assert(tuple_char(body[j + 1 - 51]));
                }
            }
        }
        lemma_first_match_none(h, f4, 0);
    }
}

proof fn lemma_header_order(dtype: Dtype, shape: Seq<usize>)
    ensures
        first_match(npy_header_text(dtype, shape), pat_c_order(), 0) is Some,
{
    reveal_strlit("{'descr': '");
    reveal_strlit("', 'fortran_order': False, 'shape': ");
    let h = npy_header_text(dtype, shape);
    let head = header_head(dtype);
    lemma_header_layout(dtype, shape);
    assert forall|i: int| 17 <= i < 39 implies h[i] == #[trigger] head[i] by {}
    assert(h.subrange(17, 39) =~= pat_c_order());
    lemma_first_match_some(h, pat_c_order(), 0, 17);
}

proof fn lemma_header_parens(dtype: Dtype, shape: Seq<usize>)
    ensures
        first_match(npy_header_text(dtype, shape), seq!['('], 0) == Some(50int),
        first_match(npy_header_text(dtype, shape), seq![')'], 50) == Some(51 + tuple_body(shape).len() as int),
        npy_header_text(dtype, shape).subrange(51, 51 + tuple_body(shape).len() as int) == tuple_body(shape),
{
    reveal_strlit("{'descr': '");
    reveal_strlit("', 'fortran_order': False, 'shape': ");
    let h = npy_header_text(dtype, shape);
    let body = tuple_body(shape);
    let head = header_head(dtype);
    let close = 51 + body.len() as int;
    lemma_header_layout(dtype, shape);
    lemma_tuple(shape);
    assert forall|j: int| 0 <= j < 50 implies #[trigger] h.subrange(j, j + 1) != seq!['('] by {
        assert(h.subrange(j, j + 1)[0] == h[j]);
        assert(h[j] == head[j]);
    }
    assert(h.subrange(50, 51) =~= seq!['(']);
    crate::strs::lemma_first_match_at(h, seq!['('], 0, 50);
    assert forall|j: int| 50 <= j < close implies #[trigger] h.subrange(j, j + 1) != seq![')'] by {
        assert(h.subrange(j, j + 1)[0] == h[j]);
        if j > 50 {
            assert(h[j] == body[j - 51]);
            assert(tuple_char(body[j - 51]));
        }
    }
    assert(h.subrange(close, close + 1) =~= seq![')']);
    crate::strs::lemma_first_match_at(h, seq![')'], 50, close);
}

/// A file that starts with what `npy_header` writes reads back as the same element type and
/// shape: the preamble is version 1, its length field gives the header's length, and the
/// header names the element type, C order and the shape, with the data right after it, at
/// an offset that is a multiple of 64.
pub proof fn law_npy_roundtrip(dtype: Dtype, shape: Seq<usize>)
    requires
        dtype == Dtype::F32 || dtype == Dtype::F64,
        npy_header_text(dtype, shape).len() <= 0xFFFF,
    ensures
        npy_len_width(npy_preamble(dtype, shape)) == Ok::<nat, NpyError<Seq<char>>>(2),
        npy_preamble(dtype, shape)[8] + 256 * npy_preamble(dtype, shape)[9] == npy_header_text(dtype, shape).len(),
        npy_preamble(dtype, shape).len() == 10 + npy_header_text(dtype, shape).len(),
        npy_preamble(dtype, shape).len() % 64 == 0,
        npy_header_spec(npy_preamble(dtype, shape).skip(10), 2) == Ok::<(Seq<usize>, Dtype, nat), NpyError<Seq<char>>>(
            (shape, dtype, npy_preamble(dtype, shape).len()),
        ),
{
    let h = npy_header_text(dtype, shape);
    let p = npy_preamble(dtype, shape);
    let body = tuple_body(shape);
    assert(p.take(6) =~= npy_magic());
    assert(p.skip(10) =~= ascii_bytes(h));
    lemma_header_ascii(dtype, shape);
    lemma_header_dtype(dtype, shape);
    lemma_header_order(dtype, shape);
    lemma_header_parens(dtype, shape);
    lemma_tuple(shape);
    lemma_parse_decimals(shape);
    assert(h.subrange(50int + 1, 51 + body.len() as int) == body);
    let x = 10 + npy_dict(dtype, shape).len() + 1;
    let pad = (64 - x % 64) % 64;
    assert((x + pad) % 64 == 0) by (nonlinear_arith)
        requires
            x >= 0,
            pad == (64 - x % 64) % 64,
    ;
    assert(p.len() == x + pad);
}

} // verus!
