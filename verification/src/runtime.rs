use vstd::prelude::*;

use vstd::utf8::encode_utf8;

use crate::checks::{fnv64, fnv_state};
use crate::strs::{chars_of, push_chars, push_str_chars, str_eq, string_from_chars};
use crate::table::strings_view;

verus! {

/// The lowercase hex digit of a value below 16.
pub open spec fn hex_digit(d: nat) -> char {
    if d < 10 {
        ((48 + d) as u8) as char
    } else {
        ((87 + d) as u8) as char
    }
}

/// A 64-bit number as 16 lowercase hex digits, most significant first.
pub open spec fn hex16(v: u64) -> Seq<char> {
    Seq::new(16, |i: int| hex_digit(((v >> ((60 - 4 * i) as u64)) & 15u64) as nat))
}

fn hex_char(d: u64) -> (c: char)
    requires
        d < 16,
    ensures
        c == hex_digit(d as nat),
{
    if d < 10 {
        ((48 + d) as u8) as char
    } else {
        ((87 + d) as u8) as char
    }
}

/// The 16 lowercase hex digits of `v`.
pub fn hex16_text(v: u64) -> (out: Vec<char>)
    ensures
        out@ == hex16(v),
{
    let mut out: Vec<char> = Vec::new();
    let mut i: u64 = 0;
    while i < 16
        invariant
            i <= 16,
            out@.len() == i,
            forall|k: int| 0 <= k < i ==> #[trigger] out@[k] == hex_digit(((v >> ((60 - 4 * k) as u64)) & 15u64) as nat),
        decreases 16 - i,
    {
        let shift: u64 = 60 - 4 * i;
        let d = (v >> shift) & 15;
        assert(d < 16) by (bit_vector)
            requires
                d == (v >> shift) & 15,
        ;
        out.push(hex_char(d));
        i = i + 1;
    }
    assert(out@ =~= hex16(v));
    out
}

/// The file name of a PJRT plugin for a backend, with the platform's library extension.
pub open spec fn plugin_file_spec(backend: Seq<char>, macos: bool) -> Seq<char> {
    seq!['l', 'i', 'b', 'p', 'j', 'r', 't', '_'] + backend + (if macos {
        seq!['.', 'd', 'y', 'l', 'i', 'b']
    } else {
        seq!['.', 's', 'o']
    })
}

/// The file name of the PJRT plugin for `backend`; `macos` picks the library extension.
pub fn plugin_file(backend: &str, macos: bool) -> (s: String)
    ensures
        s@ == plugin_file_spec(backend@, macos),
{
    let mut out: Vec<char> = Vec::new();
    push_str_chars(&mut out, "libpjrt_");
    push_str_chars(&mut out, backend);
    if macos {
        push_str_chars(&mut out, ".dylib");
    } else {
        push_str_chars(&mut out, ".so");
    }
    proof {
        reveal_strlit("libpjrt_");
        reveal_strlit(".dylib");
        reveal_strlit(".so");
    }
    assert(out@ =~= plugin_file_spec(backend@, macos));
    string_from_chars(out.as_slice())
}

pub open spec fn vector_dir() -> Seq<char> {
    seq!['/', '.', 'v', 'e', 'c', 't', 'o', 'r', '/']
}

/// Where the plugin for `backend` is installed under the home directory `home`.
pub fn backend_path(home: &str, backend: &str, macos: bool) -> (s: String)
    ensures
        s@ == home@ + vector_dir() + plugin_file_spec(backend@, macos),
{
    let mut out: Vec<char> = Vec::new();
    push_str_chars(&mut out, home);
    push_str_chars(&mut out, "/.vector/");
    proof {
        reveal_strlit("/.vector/");
    }
    let file = plugin_file(backend, macos);
    push_str_chars(&mut out, file.as_str());
    assert(out@ =~= home@ + vector_dir() + plugin_file_spec(backend@, macos));
    string_from_chars(out.as_slice())
}

pub open spec fn cache_dir() -> Seq<char> {
    seq!['/', '.', 'v', 'e', 'c', 't', 'o', 'r', '/', 'c', 'a', 'c', 'h', 'e', '/']
}

/// The cache files of a compiled program keyed by `keyed`: the key's text and the
/// serialized executable, named by the FNV-1a hash of the key's UTF-8 bytes.
pub fn cache_paths(home: &str, keyed: &str) -> (r: (String, String))
    ensures
        r.0@ == home@ + cache_dir() + hex16(fnv_state(encode_utf8(keyed@))) + seq!['.', 'm', 'l', 'i', 'r'],
        r.1@ == home@ + cache_dir() + hex16(fnv_state(encode_utf8(keyed@))) + seq!['.', 'e', 'x', 'e', 'c'],
{
    let hash = fnv64(keyed.as_bytes());
    let hex = hex16_text(hash);
    let mut base: Vec<char> = Vec::new();
    push_str_chars(&mut base, home);
    push_str_chars(&mut base, "/.vector/cache/");
    proof {
        reveal_strlit("/.vector/cache/");
        reveal_strlit(".mlir");
        reveal_strlit(".exec");
    }
    push_chars(&mut base, hex.as_slice());
    let mut m = base.clone();
    push_str_chars(&mut m, ".mlir");
    let mut e = base;
    push_str_chars(&mut e, ".exec");
    (string_from_chars(m.as_slice()), string_from_chars(e.as_slice()))
}



/// Why a URL cannot be downloaded into the cache.
#[derive(Debug, Clone, PartialEq)]
pub enum FetchError<S = String> {
    /// The URL, given, ends in no extension a program can load.
    UnknownFormat(S),
}

impl View for FetchError {
    type V = FetchError<Seq<char>>;

    open spec fn view(&self) -> FetchError<Seq<char>> {
        match self {
            FetchError::UnknownFormat(u) => FetchError::UnknownFormat(u@),
        }
    }
}

/// Where the query or fragment of a URL starts, from `i` on: the first `?` or `#`.
pub open spec fn bare_end(u: Seq<char>, i: int) -> int
    decreases u.len() - i,
{
    if i < 0 || i >= u.len() {
        u.len() as int
    } else if u[i] == '?' || u[i] == '#' {
        i
    } else {
        bare_end(u, i + 1)
    }
}

/// The last index below `j`, and at least `lo`, that holds `c`, or `lo - 1`.
pub open spec fn last_of(u: Seq<char>, c: char, lo: int, j: int) -> int
    decreases j - lo,
{
    if j <= lo {
        lo - 1
    } else if u[j - 1] == c {
        j - 1
    } else {
        last_of(u, c, lo, j - 1)
    }
}

/// The extension of a URL's file: what follows the last point of the last path segment,
/// before any query or fragment.
pub open spec fn url_ext(u: Seq<char>) -> Seq<char> {
    let b = bare_end(u, 0);
    let seg = last_of(u, '/', 0, b) + 1;
    let d = last_of(u, '.', seg, b);
    if d < seg {
        seq![]
    } else {
        u.subrange(d + 1, b)
    }
}

/// Whether a program can load a file of this extension.
pub open spec fn loadable_ext(e: Seq<char>) -> bool {
    e == "npy"@ || e == "csv"@ || e == "png"@ || e == "wav"@ || e == "safetensors"@ || e == "txt"@ || e == "json"@
        || e == "gz"@ || e == "jpg"@ || e == "jpeg"@ || e == "mp3"@ || e == "flac"@ || e == "ogg"@
}

fn loadable_ext_check(e: &str) -> (r: bool)
    ensures
        r == loadable_ext(e@),
{
    str_eq(e, "npy") || str_eq(e, "csv") || str_eq(e, "png") || str_eq(e, "wav") || str_eq(e, "safetensors") || str_eq(
        e,
        "txt",
    ) || str_eq(e, "json") || str_eq(e, "gz") || str_eq(e, "jpg") || str_eq(e, "jpeg") || str_eq(e, "mp3") || str_eq(
        e,
        "flac",
    ) || str_eq(e, "ogg")
}

/// The extension of a URL's file.
pub fn url_extension(url: &str) -> (r: String)
    ensures
        r@ == url_ext(url@),
{
    let u = chars_of(url);
    let n = u.len();
    let mut b: usize = 0;
    while b < n && u[b] != '?' && u[b] != '#'
        invariant
            u@ == url@,
            n == u@.len(),
            b <= n,
            bare_end(u@, 0) == bare_end(u@, b as int),
        decreases n - b,
    {
        b = b + 1;
    }
    let mut s: usize = b;
    while s > 0 && u[s - 1] != '/'
        invariant
            u@ == url@,
            b <= n,
            n == u@.len(),
            s <= b,
            last_of(u@, '/', 0, b as int) == last_of(u@, '/', 0, s as int),
        decreases s,
    {
        s = s - 1;
    }
    let mut d: usize = b;
    while d > s && u[d - 1] != '.'
        invariant
            u@ == url@,
            b <= n,
            n == u@.len(),
            s <= d <= b,
            last_of(u@, '.', s as int, b as int) == last_of(u@, '.', s as int, d as int),
        decreases d,
    {
        d = d - 1;
    }
    if d == s {
        let empty: Vec<char> = Vec::new();
        assert(empty@ =~= seq![]);
        return string_from_chars(empty.as_slice());
    }
    let mut out: Vec<char> = Vec::new();
    let mut k: usize = d;
    while k < b
        invariant
            u@ == url@,
            b <= n,
            n == u@.len(),
            d <= k <= b,
            out@ == u@.subrange(d as int, k as int),
        decreases b - k,
    {
        out.push(u[k]);
        assert(u@.subrange(d as int, k + 1) =~= u@.subrange(d as int, k as int).push(u@[k as int]));
        k = k + 1;
    }
    string_from_chars(out.as_slice())
}

/// Where a download of `url` is kept: the downloads directory under `home`, a file named
/// by the FNV-1a hash of the URL's UTF-8 bytes, with the URL's extension; a URL of no
/// loadable extension is refused.
pub fn fetch_target(home: &str, url: &str) -> (r: Result<String, FetchError>)
    ensures
        match r {
            Ok(p) => loadable_ext(url_ext(url@)) && p@ == home@ + "/.vector/downloads/"@ + hex16(
                fnv_state(encode_utf8(url@)),
            ) + seq!['.'] + url_ext(url@),
            Err(e) => !loadable_ext(url_ext(url@)) && e@ == FetchError::UnknownFormat(url@),
        },
{
    let ext = url_extension(url);
    if !loadable_ext_check(ext.as_str()) {
        return Err(FetchError::UnknownFormat(url.to_owned()));
    }
    let hash = fnv64(url.as_bytes());
    let hex = hex16_text(hash);
    let mut p: Vec<char> = Vec::new();
    push_str_chars(&mut p, home);
    push_str_chars(&mut p, "/.vector/downloads/");
    push_chars(&mut p, hex.as_slice());
    p.push('.');
    let ghost before = p@;
    push_str_chars(&mut p, ext.as_str());
    assert(before =~= home@ + "/.vector/downloads/"@ + hex16(fnv_state(encode_utf8(url@))) + seq!['.']);
    Ok(string_from_chars(p.as_slice()))
}

/// The product of the dimensions from `d` on.
pub open spec fn prod_from(shape: Seq<usize>, d: int) -> nat
    decreases shape.len() - d,
{
    if d < 0 || d >= shape.len() {
        1
    } else {
        shape[d] as nat * prod_from(shape, d + 1)
    }
}

/// How many items one element of dimension `d` spans: the product of the later
/// dimensions, at least 1.
pub open spec fn inner_at(shape: Seq<usize>, d: int) -> nat {
    let p = prod_from(shape, d + 1);
    if p == 0 { 1 } else { p }
}

/// Whether `n` items are enough to lay out the dimensions from `d` on: each element of a
/// dimension takes `inner_at` items, and a value without dimensions takes one item.
pub open spec fn fits_at(shape: Seq<usize>, d: int, n: nat) -> bool
    decreases shape.len() - d,
{
    if d < 0 || d >= shape.len() {
        n >= 1
    } else {
        shape[d] * inner_at(shape, d) <= n && (shape[d] == 0 || fits_at(shape, d + 1, inner_at(shape, d)))
    }
}

/// The items from `lo` laid out as nested arrays with the dimensions from `d` on, the
/// elements of each array separated by `sep`.
pub open spec fn nested_at(items: Seq<Seq<char>>, shape: Seq<usize>, sep: Seq<char>, d: int, lo: int) -> Seq<char>
    decreases shape.len() - d, (if 0 <= d < shape.len() { shape[d] as int + 1 } else { 0 }),
{
    if d < 0 || d >= shape.len() {
        items[lo]
    } else {
        seq!['['] + rows_at(items, shape, sep, d, lo, shape[d] as int) + seq![']']
    }
}

/// The first `k` elements of the array at `lo` with the dimensions from `d` on.
pub open spec fn rows_at(items: Seq<Seq<char>>, shape: Seq<usize>, sep: Seq<char>, d: int, lo: int, k: int) -> Seq<
    char,
>
    decreases shape.len() - d, k,
{
    if k <= 0 || d < 0 || d >= shape.len() || k > shape[d] {
        seq![]
    } else {
        let sub = nested_at(items, shape, sep, d + 1, lo + (k - 1) * inner_at(shape, d));
        if k == 1 {
            sub
        } else {
            rows_at(items, shape, sep, d, lo, k - 1) + sep + sub
        }
    }
}

/// The item counts `inner_at` for every dimension.
fn inner_sizes(shape: &[usize]) -> (v: Vec<usize>)
    requires
        forall|d: int| 0 <= d <= shape@.len() ==> #[trigger] prod_from(shape@, d) <= usize::MAX,
    ensures
        v@.len() == shape@.len(),
        forall|d: int| 0 <= d < shape@.len() ==> #[trigger] v@[d] as nat == inner_at(shape@, d),
{
    let n = shape.len();
    let mut v: Vec<usize> = Vec::new();
    let mut k: usize = 0;
    while k < n
        invariant
            n == shape@.len(),
            k <= n,
            v@.len() == k,
        decreases n - k,
    {
        v.push(1);
        k = k + 1;
    }
    let mut p: usize = 1;
    let mut d: usize = n;
    while d > 0
        invariant
            n == shape@.len(),
            d <= n,
            v@.len() == n,
            p as nat == prod_from(shape@, d as int),
            forall|d: int| 0 <= d <= shape@.len() ==> #[trigger] prod_from(shape@, d) <= usize::MAX,
            forall|j: int| d <= j < n ==> #[trigger] v@[j] as nat == inner_at(shape@, j),
        decreases d,
    {
        d = d - 1;
        let inner = if p == 0 {
            1
        } else {
            p
        };
        v.set(d, inner);
        assert(prod_from(shape@, d as int) == shape@[d as int] as nat * prod_from(shape@, d + 1));
        assert(prod_from(shape@, d as int) <= usize::MAX);
        p = shape[d] * p;
    }
    v
}

/// Appends the items from `lo` laid out as nested arrays with the dimensions from `d` on.
fn push_nested(
    items: &Vec<String>,
    shape: &[usize],
    inners: &Vec<usize>,
    sep: &[char],
    d: usize,
    lo: usize,
    avail: usize,
    out: &mut Vec<char>,
)
    requires
        inners@.len() == shape@.len(),
        forall|j: int| 0 <= j < shape@.len() ==> #[trigger] inners@[j] as nat == inner_at(shape@, j),
        d <= shape@.len(),
        fits_at(shape@, d as int, avail as nat),
        lo + avail <= items@.len(),
    ensures
        final(out)@ == old(out)@ + nested_at(strings_view(items@), shape@, sep@, d as int, lo as int),
    decreases shape@.len() - d,
{
    let ghost iv = strings_view(items@);
    if d == shape.len() {
        push_str_chars(out, items[lo].as_str());
        return;
    }
    let inner = inners[d];
    let count = shape[d];
    let n = shape.len();
    let total = items.len();
    out.push('[');
    let ghost start = out@;
    let mut j: usize = 0;
    let mut off: usize = lo;
    assert(count * inner <= avail);
    while j < count
        invariant
            inners@.len() == shape@.len(),
            forall|j: int| 0 <= j < shape@.len() ==> #[trigger] inners@[j] as nat == inner_at(shape@, j),
            iv == strings_view(items@),
            n == shape@.len(),
            total == items@.len(),
            d < n,
            inner == inner_at(shape@, d as int),
            inner >= 1,
            count == shape@[d as int],
            count * inner <= avail,
            lo + avail <= items@.len(),
            count == 0 || fits_at(shape@, d + 1, inner as nat),
            j <= count,
            off == lo + j * inner,
            out@ == start + rows_at(iv, shape@, sep@, d as int, lo as int, j as int),
        decreases count - j,
    {
        assert(off + inner <= lo + avail) by (nonlinear_arith)
            requires
                off == lo + j * inner,
                j < count,
                count * inner <= avail,
        ;
        if j > 0 {
            push_chars(out, sep);
        }
        push_nested(items, shape, inners, sep, d + 1, off, inner, out);
        assert(off == lo + ((j + 1) - 1) * inner) by (nonlinear_arith)
            requires
                off == lo + j * inner,
        ;
        assert(out@ =~= start + rows_at(iv, shape@, sep@, d as int, lo as int, j + 1));
        off = off + inner;
        j = j + 1;
        assert(off == lo + j * inner) by (nonlinear_arith)
            requires
                off == lo + (j - 1) * inner + inner,
        ;
    }
    out.push(']');
    assert(out@ =~= old(out)@ + nested_at(iv, shape@, sep@, d as int, lo as int));
}

/// Item texts laid out as nested arrays of the given shape, elements separated by `sep`.
pub(crate) fn nested_text(items: &Vec<String>, shape: &[usize], sep: &[char]) -> (s: String)
    requires
        fits_at(shape@, 0, items@.len()),
        forall|d: int| 0 <= d <= shape@.len() ==> #[trigger] prod_from(shape@, d) <= usize::MAX,
    ensures
        s@ == nested_at(strings_view(items@), shape@, sep@, 0, 0),
{
    let inners = inner_sizes(shape);
    let mut out: Vec<char> = Vec::new();
    push_nested(items, shape, &inners, sep, 0, 0, items.len(), &mut out);
    assert(out@ =~= nested_at(strings_view(items@), shape@, sep@, 0, 0));
    string_from_chars(out.as_slice())
}

/// The printed form of a tensor from the texts of its elements in row-major order:
/// nested brackets, one level per dimension, elements separated by `, `.
pub fn format_typed(items: &Vec<String>, shape: &[usize]) -> (s: String)
    requires
        fits_at(shape@, 0, items@.len()),
        forall|d: int| 0 <= d <= shape@.len() ==> #[trigger] prod_from(shape@, d) <= usize::MAX,
    ensures
        s@ == nested_at(strings_view(items@), shape@, seq![',', ' '], 0, 0),
{
    let sep: [char; 2] = [',', ' '];
    assert(sep@ =~= seq![',', ' ']);
    nested_text(items, shape, &sep)
}

} // verus!
