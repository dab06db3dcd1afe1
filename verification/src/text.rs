use vstd::prelude::*;

use crate::json::{fields_view, items_view, json_view, lemma_fields_view, lemma_items_view, Json, JsonV};
use crate::safetensors::json_count;
use crate::strs::{chars_of, first_match, is_white, string_from_chars, white};

verus! {

/// Whether a byte stands for itself in the byte-level alphabet: printable ASCII and the
/// printable Latin-1 characters other than the soft hyphen.
pub open spec fn self_byte(b: u8) -> bool {
    (0x21 <= b <= 0x7E) || (0xA1 <= b <= 0xAC) || (0xAE <= b)
}

/// The character the byte-level alphabet gives a byte: itself when printable, else the
/// next unused character from U+0100 on, in byte order.
pub open spec fn byte_char(b: u8) -> char {
    if self_byte(b) {
        b as char
    } else if b <= 0x20 {
        (256 + b as u32) as char
    } else if b <= 0xA0 {
        (256 + 33 + (b - 0x7F) as u32) as char
    } else {
        (256 + 67) as char
    }
}

/// The byte a character of the byte-level alphabet stands for.
pub open spec fn char_byte_spec(c: char) -> Option<u8> {
    let v = c as u32;
    if v < 256 && self_byte(v as u8) {
        Some(v as u8)
    } else if 256 <= v <= 256 + 32 {
        Some((v - 256) as u8)
    } else if 256 + 33 <= v <= 256 + 66 {
        Some((v - 256 - 33 + 0x7F) as u8)
    } else if v == 256 + 67 {
        Some(0xADu8)
    } else {
        None
    }
}

fn byte_char_exec(b: u8) -> (c: char)
    ensures
        c == byte_char(b),
{
    if (0x21 <= b && b <= 0x7E) || (0xA1 <= b && b <= 0xAC) || 0xAE <= b {
        b as char
    } else if b <= 0x20 {
        char_of(256 + b as u32)
    } else if b <= 0xA0 {
        char_of(256 + 33 + (b - 0x7F) as u32)
    } else {
        char_of(256 + 67)
    }
}

/// The character with a number between U+0100 and U+0143.
fn char_of(v: u32) -> (c: char)
    requires
        256 <= v <= 256 + 67,
    ensures
        c == v as char,
{
    let t: [char; 68] = [
        '\u{100}', '\u{101}', '\u{102}', '\u{103}', '\u{104}', '\u{105}', '\u{106}', '\u{107}', '\u{108}',
        '\u{109}', '\u{10a}', '\u{10b}', '\u{10c}', '\u{10d}', '\u{10e}', '\u{10f}', '\u{110}', '\u{111}',
        '\u{112}', '\u{113}', '\u{114}', '\u{115}', '\u{116}', '\u{117}', '\u{118}', '\u{119}', '\u{11a}',
        '\u{11b}', '\u{11c}', '\u{11d}', '\u{11e}', '\u{11f}', '\u{120}', '\u{121}', '\u{122}', '\u{123}',
        '\u{124}', '\u{125}', '\u{126}', '\u{127}', '\u{128}', '\u{129}', '\u{12a}', '\u{12b}', '\u{12c}',
        '\u{12d}', '\u{12e}', '\u{12f}', '\u{130}', '\u{131}', '\u{132}', '\u{133}', '\u{134}', '\u{135}',
        '\u{136}', '\u{137}', '\u{138}', '\u{139}', '\u{13a}', '\u{13b}', '\u{13c}', '\u{13d}', '\u{13e}',
        '\u{13f}', '\u{140}', '\u{141}', '\u{142}', '\u{143}',
    ];
    assert(forall|i: int| 0 <= i < 68 ==> #[trigger] t@[i] as u32 == 256 + i);
    t[(v - 256) as usize]
}

/// The byte-level alphabet: the character of each byte.
pub fn byte_unicode() -> (t: Vec<char>)
    ensures
        t@.len() == 256,
        forall|b: int| 0 <= b < 256 ==> #[trigger] t@[b] == byte_char(b as u8),
{
    let mut t: Vec<char> = Vec::new();
    let mut b: usize = 0;
    while b < 256
        invariant
            b <= 256,
            t@.len() == b,
            forall|k: int| 0 <= k < b ==> #[trigger] t@[k] == byte_char(k as u8),
        decreases 256 - b,
    {
        t.push(byte_char_exec(b as u8));
        b = b + 1;
    }
    t
}

/// The byte a character of the byte-level alphabet stands for, if any.
pub fn char_byte(c: char) -> (r: Option<u8>)
    ensures
        r == char_byte_spec(c),
{
    let v = c as u32;
    if v < 256 && ((0x21 <= v && v <= 0x7E) || (0xA1 <= v && v <= 0xAC) || 0xAE <= v) {
        Some(v as u8)
    } else if 256 <= v && v <= 256 + 32 {
        Some((v - 256) as u8)
    } else if 256 + 33 <= v && v <= 256 + 66 {
        Some((v - 256 - 33 + 0x7F) as u8)
    } else if v == 256 + 67 {
        Some(0xADu8)
    } else {
        None
    }
}

/// The byte-level alphabet is a bijection: each byte's character gives the byte back, and
/// distinct bytes have distinct characters.
pub proof fn law_byte_unicode(b: u8, c: u8)
    ensures
        char_byte_spec(byte_char(b)) == Some(b),
        b != c ==> byte_char(b) != byte_char(c),
{
    assert(char_byte_spec(byte_char(b)) == Some(b));
    assert(char_byte_spec(byte_char(c)) == Some(c));
}

/// Whether `char::is_alphabetic` holds of a character (the Unicode Alphabetic property).
pub uninterp spec fn alphabetic(c: char) -> bool;

/// Whether `char::is_numeric` holds of a character (the Unicode Numeric property).
pub uninterp spec fn numeric(c: char) -> bool;

/// Trusted: calls `char::is_alphabetic`, whose answer depends on the character alone.
#[verifier::external_body]
fn is_alphabetic(c: char) -> (r: bool)
    ensures
        r == alphabetic(c),
{
    c.is_alphabetic()
}

/// Trusted: calls `char::is_numeric`, whose answer depends on the character alone.
#[verifier::external_body]
fn is_numeric(c: char) -> (r: bool)
    ensures
        r == numeric(c),
{
    c.is_numeric()
}

/// Neither white space nor a letter nor a digit.
pub open spec fn other_spec(c: char) -> bool {
    !is_white(c) && !alphabetic(c) && !numeric(c)
}

/// Whether a character is of none of the other classes.
pub fn is_other(c: char) -> (r: bool)
    ensures
        r == other_spec(c),
{
    !white(c) && !is_alphabetic(c) && !is_numeric(c)
}

/// The classes a word runs over: letters, digits, other symbols.
pub open spec fn in_class(c: char, class: nat) -> bool {
    if class == 0 {
        alphabetic(c)
    } else if class == 1 {
        numeric(c)
    } else if class == 2 {
        other_spec(c)
    } else {
        is_white(c)
    }
}

/// How many characters from `k` are of the class.
pub open spec fn class_run(cs: Seq<char>, k: int, class: nat) -> nat
    decreases cs.len() - k,
{
    if 0 <= k < cs.len() && in_class(cs[k], class) {
        1 + class_run(cs, k + 1, class)
    } else {
        0
    }
}

pub proof fn lemma_class_run(cs: Seq<char>, k: int, class: nat)
    requires
        0 <= k <= cs.len(),
    ensures
        k + class_run(cs, k, class) <= cs.len(),
    decreases cs.len() - k,
{
    if k < cs.len() && in_class(cs[k], class) {
        lemma_class_run(cs, k + 1, class);
    }
}

/// The end of an apostrophe contraction at `i`: `'s`, `'t`, `'m`, `'d` take two
/// characters, `'re`, `'ve`, `'ll` three; anything else ends after one.
pub open spec fn contraction_end(cs: Seq<char>, i: int) -> int {
    let n = cs.len() as int;
    if cs[i] == '\'' && i + 1 < n {
        let c = cs[i + 1];
        let e = if c == 's' || c == 't' || c == 'm' || c == 'd' { i + 2 } else { i + 1 };
        let pair = i + 2 < n && ((c == 'r' && cs[i + 2] == 'e') || (c == 'v' && cs[i + 2] == 'e') || (c == 'l'
            && cs[i + 2] == 'l'));
        if pair { i + 3 } else { e }
    } else {
        i + 1
    }
}

/// Where the word starting at `i` ends: a contraction, or an optional leading space and a
/// run of letters, of digits or of other symbols, or a run of white space that leaves its
/// last character to the next word when more text follows.
pub open spec fn word_end(cs: Seq<char>, i: int) -> int {
    let n = cs.len() as int;
    let e1 = contraction_end(cs, i);
    if e1 != i + 1 {
        e1
    } else {
        let start = if cs[i] == ' ' && i + 1 < n { i + 1 } else { i };
        let c = cs[start];
        if alphabetic(c) {
            start + 1 + class_run(cs, start + 1, 0)
        } else if numeric(c) {
            start + 1 + class_run(cs, start + 1, 1)
        } else if other_spec(c) {
            start + 1 + class_run(cs, start + 1, 2)
        } else {
            let e = i + 1 + class_run(cs, i + 1, 3);
            if e < n && e - i >= 2 { e - 1 } else { e }
        }
    }
}

pub proof fn lemma_word_end(cs: Seq<char>, i: int)
    requires
        0 <= i < cs.len(),
    ensures
        i < word_end(cs, i) <= cs.len(),
{
    let n = cs.len() as int;
    let start = if cs[i] == ' ' && i + 1 < n { i + 1 } else { i };
    lemma_class_run(cs, start + 1, 0);
    lemma_class_run(cs, start + 1, 1);
    lemma_class_run(cs, start + 1, 2);
    lemma_class_run(cs, i + 1, 3);
}

/// The words of a text from index `i`.
pub open spec fn words_from(cs: Seq<char>, i: int) -> Seq<Seq<char>>
    decreases cs.len() - i,
{
    if i < 0 || i >= cs.len() {
        seq![]
    } else {
        let e = word_end(cs, i);
        proof {
            lemma_word_end(cs, i);
        }
        seq![cs.subrange(i, e)] + words_from(cs, e)
    }
}

fn of_class(c: char, class: u8) -> (r: bool)
    requires
        class < 4,
    ensures
        r == in_class(c, class as nat),
{
    if class == 0 {
        is_alphabetic(c)
    } else if class == 1 {
        is_numeric(c)
    } else if class == 2 {
        is_other(c)
    } else {
        white(c)
    }
}

fn class_run_exec(cs: &Vec<char>, k: usize, class: u8) -> (e: usize)
    requires
        k <= cs@.len(),
        class < 4,
    ensures
        e == k + class_run(cs@, k as int, class as nat),
        e <= cs@.len(),
{
    let mut e = k;
    while e < cs.len() && of_class(cs[e], class)
        invariant
            k <= e <= cs@.len(),
            class < 4,
            k + class_run(cs@, k as int, class as nat) == e + class_run(cs@, e as int, class as nat),
        decreases cs.len() - e,
    {
        e = e + 1;
    }
    e
}

fn word_end_exec(cs: &Vec<char>, i: usize) -> (e: usize)
    requires
        i < cs@.len(),
    ensures
        e == word_end(cs@, i as int),
{
    let n = cs.len();
    let mut end = i + 1;
    if cs[i] == '\'' && i + 1 < n {
        let c = cs[i + 1];
        if c == 's' || c == 't' || c == 'm' || c == 'd' {
            end = i + 2;
        }
        if i + 2 < n && ((c == 'r' && cs[i + 2] == 'e') || (c == 'v' && cs[i + 2] == 'e') || (c == 'l' && cs[i
            + 2] == 'l')) {
            end = i + 3;
        }
    }
    if end != i + 1 {
        return end;
    }
    let start = if cs[i] == ' ' && i + 1 < n { i + 1 } else { i };
    let c = cs[start];
    if is_alphabetic(c) {
        class_run_exec(cs, start + 1, 0)
    } else if is_numeric(c) {
        class_run_exec(cs, start + 1, 1)
    } else if is_other(c) {
        class_run_exec(cs, start + 1, 2)
    } else {
        let e = class_run_exec(cs, i + 1, 3);
        if e < n && e - i >= 2 {
            e - 1
        } else {
            e
        }
    }
}

/// Splits text into the words byte-level tokenizers encode one by one (the GPT-2
/// pre-tokenization).
pub fn split_words(text: &str) -> (words: Vec<String>)
    ensures
        words@.len() == words_from(text@, 0).len(),
        forall|k: int| 0 <= k < words@.len() ==> #[trigger] words@[k]@ == words_from(text@, 0)[k],
{
    let cs = chars_of(text);
    let mut words: Vec<String> = Vec::new();
    let mut i: usize = 0;
    let ghost mut done: Seq<Seq<char>> = seq![];
    while i < cs.len()
        invariant
            cs@ == text@,
            i <= cs@.len(),
            words@.len() == done.len(),
            forall|k: int| 0 <= k < words@.len() ==> #[trigger] words@[k]@ == done[k],
            words_from(cs@, 0) == done + words_from(cs@, i as int),
        decreases cs.len() - i,
    {
        let end = word_end_exec(&cs, i);
        proof {
            lemma_word_end(cs@, i as int);
        }
        let w = string_from_chars(vstd::slice::slice_subrange(cs.as_slice(), i, end));
        proof {
            done = done.push(w@);
            assert(words_from(cs@, 0) == done + words_from(cs@, end as int));
        }
        words.push(w);
        i = end;
    }
    assert(done + words_from(cs@, i as int) =~= done);
    words
}

/// The concatenation of words.
pub open spec fn concat(ws: Seq<Seq<char>>) -> Seq<char>
    decreases ws.len(),
{
    if ws.len() == 0 {
        seq![]
    } else {
        ws[0] + concat(ws.skip(1))
    }
}

proof fn lemma_words_concat(cs: Seq<char>, i: int)
    requires
        0 <= i <= cs.len(),
    ensures
        concat(words_from(cs, i)) == cs.skip(i),
    decreases cs.len() - i,
{
    if i < cs.len() {
        let e = word_end(cs, i);
        lemma_word_end(cs, i);
        lemma_words_concat(cs, e);
        let ws = words_from(cs, i);
        assert(ws.skip(1) =~= words_from(cs, e));
        assert(cs.subrange(i, e) + cs.skip(e) =~= cs.skip(i));
    } else {
        assert(cs.skip(i) =~= Seq::<char>::empty());
    }
}

/// The words of a text are non-empty and spell the text exactly, in order.
pub proof fn law_split_words(cs: Seq<char>)
    ensures
        concat(words_from(cs, 0)) == cs,
        forall|k: int| 0 <= k < words_from(cs, 0).len() ==> (#[trigger] words_from(cs, 0)[k]).len() > 0,
{
    lemma_words_concat(cs, 0);
    assert(cs.skip(0) =~= cs);
    lemma_words_nonempty(cs, 0);
}

proof fn lemma_words_nonempty(cs: Seq<char>, i: int)
    requires
        0 <= i <= cs.len(),
    ensures
        forall|k: int| 0 <= k < words_from(cs, i).len() ==> (#[trigger] words_from(cs, i)[k]).len() > 0,
    decreases cs.len() - i,
{
    if i < cs.len() {
        let e = word_end(cs, i);
        lemma_word_end(cs, i);
        lemma_words_nonempty(cs, e);
        let ws = words_from(cs, i);
        assert forall|k: int| 0 <= k < ws.len() implies (#[trigger] ws[k]).len() > 0 by {
            if k > 0 {
                assert(ws[k] == words_from(cs, e)[k - 1]);
            }
        }
    }
}

/// A byte-level BPE tokenizer. The lists keep insertion order, and a lookup takes the
/// last entry for a key, so a later entry overrides an earlier one; a merge's rank is its
/// index.
pub struct Bpe {
    pub id_to_token: Vec<(u32, String)>,
    pub token_to_id: Vec<(String, u32)>,
    pub ranks: Vec<(String, String)>,
    pub add_prefix_space: bool,
}

/// The tokenizer as specifications see it.
pub struct BpeV {
    pub id_to_token: Seq<(u32, Seq<char>)>,
    pub token_to_id: Seq<(Seq<char>, u32)>,
    pub ranks: Seq<(Seq<char>, Seq<char>)>,
    pub add_prefix_space: bool,
}

pub open spec fn bpe_view(b: Bpe) -> BpeV {
    BpeV {
        id_to_token: Seq::new(b.id_to_token@.len(), |i: int| (b.id_to_token@[i].0, b.id_to_token@[i].1@)),
        token_to_id: Seq::new(b.token_to_id@.len(), |i: int| (b.token_to_id@[i].0@, b.token_to_id@[i].1)),
        ranks: Seq::new(b.ranks@.len(), |i: int| (b.ranks@[i].0@, b.ranks@[i].1@)),
        add_prefix_space: b.add_prefix_space,
    }
}

/// Why text cannot be encoded or ids decoded.
#[derive(Debug, Clone, PartialEq)]
pub enum BpeError<S = String> {
    /// A piece of a word the vocabulary has no token for.
    NoToken(S),
    /// An id the vocabulary does not have.
    UnknownId(u32),
}

impl View for BpeError<String> {
    type V = BpeError<Seq<char>>;

    open spec fn view(&self) -> BpeError<Seq<char>> {
        match self {
            BpeError::NoToken(s) => BpeError::NoToken(s@),
            BpeError::UnknownId(i) => BpeError::UnknownId(*i),
        }
    }
}

/// The rank of the last merge of `a` and `b` among the first `k` merges.
pub open spec fn rank_before(ranks: Seq<(Seq<char>, Seq<char>)>, a: Seq<char>, b: Seq<char>, k: int) -> Option<nat>
    decreases k,
{
    if k <= 0 || k > ranks.len() {
        None
    } else if ranks[k - 1] == (a, b) {
        Some((k - 1) as nat)
    } else {
        rank_before(ranks, a, b, k - 1)
    }
}

pub open spec fn rank_of(ranks: Seq<(Seq<char>, Seq<char>)>, a: Seq<char>, b: Seq<char>) -> Option<nat> {
    rank_before(ranks, a, b, ranks.len() as int)
}

/// The adjacent pair from `p` on with the lowest rank, the first such pair on ties,
/// given the best so far.
pub open spec fn best_from(
    parts: Seq<Seq<char>>,
    ranks: Seq<(Seq<char>, Seq<char>)>,
    p: int,
    best: Option<(nat, int)>,
) -> Option<(nat, int)>
    decreases parts.len() - p,
{
    if p < 0 || p + 1 >= parts.len() {
        best
    } else {
        let nb = match rank_of(ranks, parts[p], parts[p + 1]) {
            Some(r) => match best {
                Some((br, bp)) => if r < br { Some((r, p)) } else { best },
                None => Some((r, p)),
            },
            None => best,
        };
        best_from(parts, ranks, p + 1, nb)
    }
}

pub proof fn lemma_best_from(parts: Seq<Seq<char>>, ranks: Seq<(Seq<char>, Seq<char>)>, p: int, best: Option<(nat, int)>)
    requires
        0 <= p,
        best matches Some((r, q)) ==> 0 <= q && q + 1 < parts.len(),
    ensures
        best_from(parts, ranks, p, best) matches Some((r, q)) ==> 0 <= q && q + 1 < parts.len(),
    decreases parts.len() - p,
{
    if p + 1 < parts.len() {
        let nb = match rank_of(ranks, parts[p], parts[p + 1]) {
            Some(r) => match best {
                Some((br, bp)) => if r < br { Some((r, p)) } else { best },
                None => Some((r, p)),
            },
            None => best,
        };
        lemma_best_from(parts, ranks, p + 1, nb);
    }
}

/// `parts` with the pair at `p` joined.
pub open spec fn merged_at(parts: Seq<Seq<char>>, p: int) -> Seq<Seq<char>> {
    parts.take(p) + seq![parts[p] + parts[p + 1]] + parts.skip(p + 2)
}

/// Joins the lowest-ranked adjacent pair until no adjacent pair has a rank.
pub open spec fn merge_all(parts: Seq<Seq<char>>, ranks: Seq<(Seq<char>, Seq<char>)>) -> Seq<Seq<char>>
    decreases parts.len(),
{
    match best_from(parts, ranks, 0, None) {
        None => parts,
        Some((_, p)) => {
            proof {
                lemma_best_from(parts, ranks, 0, None);
            }
            merge_all(merged_at(parts, p), ranks)
        },
    }
}

/// The last id given to `token`.
pub open spec fn id_before(v: Seq<(Seq<char>, u32)>, token: Seq<char>, k: int) -> Option<u32>
    decreases k,
{
    if k <= 0 || k > v.len() {
        None
    } else if v[k - 1].0 == token {
        Some(v[k - 1].1)
    } else {
        id_before(v, token, k - 1)
    }
}

/// The last token given to `id`.
pub open spec fn token_before(v: Seq<(u32, Seq<char>)>, id: u32, k: int) -> Option<Seq<char>>
    decreases k,
{
    if k <= 0 || k > v.len() {
        None
    } else if v[k - 1].0 == id {
        Some(v[k - 1].1)
    } else {
        token_before(v, id, k - 1)
    }
}

/// The ids of parts, failing at the first part without one.
pub open spec fn ids_of(v: Seq<(Seq<char>, u32)>, parts: Seq<Seq<char>>) -> Result<Seq<u32>, BpeError<Seq<char>>>
    decreases parts.len(),
{
    if parts.len() == 0 {
        Ok(seq![])
    } else {
        match id_before(v, parts[0], v.len() as int) {
            None => Err(BpeError::NoToken(parts[0])),
            Some(id) => match ids_of(v, parts.skip(1)) {
                Err(e) => Err(e),
                Ok(rest) => Ok(seq![id] + rest),
            },
        }
    }
}

/// The byte-level spelling of a word: one single-character part per UTF-8 byte.
pub open spec fn byte_parts(bytes: Seq<u8>) -> Seq<Seq<char>> {
    Seq::new(bytes.len(), |i: int| seq![byte_char(bytes[i])])
}

/// The ids of a word: its byte-level parts, merged, looked up.
pub open spec fn encode_word_spec(b: BpeV, word: Seq<char>) -> Result<Seq<u32>, BpeError<Seq<char>>> {
    ids_of(b.token_to_id, merge_all(byte_parts(vstd::utf8::encode_utf8(word)), b.ranks))
}

fn rank_lookup(ranks: &Vec<(String, String)>, a: &Vec<char>, b: &Vec<char>) -> (r: Option<usize>)
    ensures
        match r {
            Some(k) => rank_of(Seq::new(ranks@.len(), |i: int| (ranks@[i].0@, ranks@[i].1@)), a@, b@) == Some(k as nat),
            None => rank_of(Seq::new(ranks@.len(), |i: int| (ranks@[i].0@, ranks@[i].1@)), a@, b@) is None,
        },
{
    let ghost rv = Seq::new(ranks@.len(), |i: int| (ranks@[i].0@, ranks@[i].1@));
    let mut k = ranks.len();
    while k > 0
        invariant
            rv == Seq::new(ranks@.len(), |i: int| (ranks@[i].0@, ranks@[i].1@)),
            k <= ranks@.len(),
            rank_of(rv, a@, b@) == rank_before(rv, a@, b@, k as int),
        decreases k,
    {
        let x = chars_of(ranks[k - 1].0.as_str());
        let y = chars_of(ranks[k - 1].1.as_str());
        if crate::strs::chars_eq(x.as_slice(), a.as_slice()) && crate::strs::chars_eq(y.as_slice(), b.as_slice()) {
            return Some(k - 1);
        }
        assert(rv[k - 1] != (a@, b@));
        k = k - 1;
    }
    None
}

fn id_lookup(v: &Vec<(String, u32)>, token: &Vec<char>) -> (r: Option<u32>)
    ensures
        r == id_before(Seq::new(v@.len(), |i: int| (v@[i].0@, v@[i].1)), token@, v@.len() as int),
{
    let ghost tv = Seq::new(v@.len(), |i: int| (v@[i].0@, v@[i].1));
    let mut k = v.len();
    while k > 0
        invariant
            tv == Seq::new(v@.len(), |i: int| (v@[i].0@, v@[i].1)),
            k <= v@.len(),
            id_before(tv, token@, v@.len() as int) == id_before(tv, token@, k as int),
        decreases k,
    {
        let x = chars_of(v[k - 1].0.as_str());
        if crate::strs::chars_eq(x.as_slice(), token.as_slice()) {
            return Some(v[k - 1].1);
        }
        k = k - 1;
    }
    None
}

pub open spec fn parts_view(v: Seq<Vec<char>>) -> Seq<Seq<char>> {
    Seq::new(v.len(), |i: int| v[i]@)
}

pub open spec fn ranks_view(v: Seq<(String, String)>) -> Seq<(Seq<char>, Seq<char>)> {
    Seq::new(v.len(), |i: int| (v[i].0@, v[i].1@))
}

fn best_pair(parts: &Vec<Vec<char>>, ranks: &Vec<(String, String)>) -> (r: Option<usize>)
    ensures
        match r {
            Some(p) => best_from(parts_view(parts@), ranks_view(ranks@), 0, None) matches Some((_, q)) && q == p,
            None => best_from(parts_view(parts@), ranks_view(ranks@), 0, None) is None,
        },
{
    let ghost pv = parts_view(parts@);
    let ghost rv = ranks_view(ranks@);
    let mut best: Option<(usize, usize)> = None;
    let mut p: usize = 0;
    while parts.len() > 0 && p < parts.len() - 1
        invariant
            pv == parts_view(parts@),
            rv == ranks_view(ranks@),
            p <= parts@.len(),
            best_from(pv, rv, 0, None) == best_from(
                pv,
                rv,
                p as int,
                match best {
                    Some((r, q)) => Some((r as nat, q as int)),
                    None => None,
                },
            ),
        decreases parts.len() - p,
    {
        let r = rank_lookup(ranks, &parts[p], &parts[p + 1]);
        match r {
            Some(r) => {
                match best {
                    Some((br, _)) => {
                        if r < br {
                            best = Some((r, p));
                        }
                    },
                    None => {
                        best = Some((r, p));
                    },
                }
            },
            None => {},
        }
        p = p + 1;
    }
    match best {
        Some((_, q)) => Some(q),
        None => None,
    }
}

proof fn lemma_parts_push(v: Seq<Vec<char>>, x: Vec<char>)
    ensures
        parts_view(v.push(x)) == parts_view(v).push(x@),
{
    assert(parts_view(v.push(x)) =~= parts_view(v).push(x@)) by {
        assert forall|k: int| 0 <= k < v.len() + 1 implies #[trigger] parts_view(v.push(x))[k] == parts_view(v).push(x@)[k] by {
            if k < v.len() {
                assert(v.push(x)[k] == v[k]);
            }
        }
    }
}

fn clone_chars(v: &Vec<char>) -> (r: Vec<char>)
    ensures
        r@ == v@,
{
    let r = crate::strs::copy_chars(v.as_slice(), 0, v.len());
    assert(r@ =~= v@);
    r
}

fn merge_pair(parts: &Vec<Vec<char>>, p: usize) -> (out: Vec<Vec<char>>)
    requires
        p + 1 < parts.len(),
    ensures
        parts_view(out@) == merged_at(parts_view(parts@), p as int),
        out@.len() + 1 == parts@.len(),
{
    let ghost pv = parts_view(parts@);
    let mut out: Vec<Vec<char>> = Vec::new();
    let mut i: usize = 0;
    while i < p
        invariant
            pv == parts_view(parts@),
            i <= p,
            p + 1 < parts.len(),
            parts_view(out@) == pv.take(i as int),
        decreases p - i,
    {
        let c = clone_chars(&parts[i]);
        proof {
            lemma_parts_push(out@, c);
        }
        out.push(c);
        assert(parts_view(out@) =~= pv.take(i + 1));
        i = i + 1;
    }
    let mut joined = clone_chars(&parts[p]);
    crate::strs::push_chars(&mut joined, parts[p + 1].as_slice());
    proof {
        lemma_parts_push(out@, joined);
    }
    out.push(joined);
    let ghost head = pv.take(p as int) + seq![pv[p as int] + pv[p + 1]];
    assert(parts_view(out@) =~= head);
    let mut k = p + 2;
    while k < parts.len()
        invariant
            pv == parts_view(parts@),
            p + 2 <= k <= parts@.len(),
            parts_view(out@) == head + pv.subrange(p + 2, k as int),
        decreases parts.len() - k,
    {
        let c = clone_chars(&parts[k]);
        proof {
            lemma_parts_push(out@, c);
        }
        out.push(c);
        assert(parts_view(out@) =~= head + pv.subrange(p + 2, k + 1));
        k = k + 1;
    }
    assert(pv.subrange(p + 2, k as int) =~= pv.skip(p + 2));
    assert(parts_view(out@).len() == out@.len());
    out
}

fn merge_parts(parts: Vec<Vec<char>>, ranks: &Vec<(String, String)>) -> (out: Vec<Vec<char>>)
    ensures
        parts_view(out@) == merge_all(parts_view(parts@), ranks_view(ranks@)),
{
    let ghost rv = ranks_view(ranks@);
    let ghost orig = parts_view(parts@);
    let mut cur = parts;
    loop
        invariant
            rv == ranks_view(ranks@),
            orig == parts_view(parts@),
            merge_all(orig, rv) == merge_all(parts_view(cur@), rv),
        decreases cur@.len(),
    {
        match best_pair(&cur, ranks) {
            None => {
                assert(merge_all(parts_view(cur@), rv) == parts_view(cur@));
                return cur;
            },
            Some(p) => {
                proof {
                    lemma_best_from(parts_view(cur@), rv, 0, None);
                }
                let next = merge_pair(&cur, p);
                cur = next;
            },
        }
    }
}

/// The ids of a word: its UTF-8 bytes spelled in the byte-level alphabet, merged by rank,
/// each part looked up in the vocabulary.
pub fn encode_word(bpe: &Bpe, word: &str) -> (r: Result<Vec<u32>, BpeError>)
    ensures
        match r {
            Ok(ids) => encode_word_spec(bpe_view(*bpe), word@) == Ok::<Seq<u32>, BpeError<Seq<char>>>(ids@),
            Err(e) => encode_word_spec(bpe_view(*bpe), word@) == Err::<Seq<u32>, BpeError<Seq<char>>>(e@),
        },
{
    let bytes = word.as_bytes();
    let ghost bv = bytes@;
    let mut parts: Vec<Vec<char>> = Vec::new();
    let mut i: usize = 0;
    while i < bytes.len()
        invariant
            bv == bytes@,
            i <= bv.len(),
            parts_view(parts@) == byte_parts(bv).take(i as int),
        decreases bytes.len() - i,
    {
        let c = byte_char_exec(bytes[i]);
        let one: Vec<char> = vec![c];
        assert(one@ =~= seq![byte_char(bv[i as int])]);
        proof {
            lemma_parts_push(parts@, one);
        }
        parts.push(one);
        assert(parts_view(parts@) =~= byte_parts(bv).take(i + 1));
        i = i + 1;
    }
    assert(byte_parts(bv).take(i as int) =~= byte_parts(bv));
    let merged = merge_parts(parts, &bpe.ranks);
    let ghost mv = parts_view(merged@);
    let ghost tv = Seq::new(bpe.token_to_id@.len(), |i: int| (bpe.token_to_id@[i].0@, bpe.token_to_id@[i].1));
    let mut ids: Vec<u32> = Vec::new();
    let mut k: usize = 0;
    assert(mv.skip(0) =~= mv);
    assert(bpe_view(*bpe).token_to_id == tv);
    assert(bpe_view(*bpe).ranks == ranks_view(bpe.ranks@));
    assert(encode_word_spec(bpe_view(*bpe), word@) == ids_of(tv, mv));
    while k < merged.len()
        invariant
            mv == parts_view(merged@),
            tv == Seq::new(bpe.token_to_id@.len(), |i: int| (bpe.token_to_id@[i].0@, bpe.token_to_id@[i].1)),
            encode_word_spec(bpe_view(*bpe), word@) == ids_of(tv, mv),
            k <= merged@.len(),
            ids_of(tv, mv) == match ids_of(tv, mv.skip(k as int)) {
                Ok(rest) => Ok(ids@ + rest),
                Err(e) => Err(e),
            },
        decreases merged.len() - k,
    {
        assert(mv.skip(k as int)[0] == mv[k as int]);
        assert(mv.skip(k as int).skip(1) =~= mv.skip(k + 1));
        match id_lookup(&bpe.token_to_id, &merged[k]) {
            None => {
                assert(ids_of(tv, mv.skip(k as int)) == Err::<Seq<u32>, BpeError<Seq<char>>>(BpeError::NoToken(mv[k as int])));
                return Err(BpeError::NoToken(string_from_chars(merged[k].as_slice())));
            },
            Some(id) => {
                let ghost before = ids@;
                ids.push(id);
                proof {
                    if let Ok(rest) = ids_of(tv, mv.skip(k + 1)) {
                        assert(before + (seq![id] + rest) =~= ids@ + rest);
                    }
                }
            },
        }
        k = k + 1;
    }
    assert(mv.skip(k as int) =~= Seq::<Seq<char>>::empty());
    assert(ids@ + seq![] =~= ids@);
    Ok(ids)
}

/// The text a tokenizer encodes: a space in front when it adds one and the text does not
/// start with one.
pub open spec fn prefixed(b: BpeV, t: Seq<char>) -> Seq<char> {
    if b.add_prefix_space && !(t.len() > 0 && t[0] == ' ') { seq![' '] + t } else { t }
}

/// The ids of words, failing at the first word that cannot be encoded.
pub open spec fn encode_words(b: BpeV, ws: Seq<Seq<char>>) -> Result<Seq<u32>, BpeError<Seq<char>>>
    decreases ws.len(),
{
    if ws.len() == 0 {
        Ok(seq![])
    } else {
        match encode_word_spec(b, ws[0]) {
            Err(e) => Err(e),
            Ok(ids) => match encode_words(b, ws.skip(1)) {
                Err(e) => Err(e),
                Ok(rest) => Ok(ids + rest),
            },
        }
    }
}

/// The ids of a text: the ids of its words in order.
pub open spec fn encode_spec(b: BpeV, t: Seq<char>) -> Result<Seq<u32>, BpeError<Seq<char>>> {
    encode_words(b, words_from(prefixed(b, t), 0))
}

/// Encodes text into token ids.
pub fn encode(bpe: &Bpe, text: &str) -> (r: Result<Vec<u32>, BpeError>)
    ensures
        match r {
            Ok(ids) => encode_spec(bpe_view(*bpe), text@) == Ok::<Seq<u32>, BpeError<Seq<char>>>(ids@),
            Err(e) => encode_spec(bpe_view(*bpe), text@) == Err::<Seq<u32>, BpeError<Seq<char>>>(e@),
        },
{
    let cs = chars_of(text);
    let mut full: Vec<char> = Vec::new();
    if bpe.add_prefix_space && !(cs.len() > 0 && cs[0] == ' ') {
        full.push(' ');
    }
    crate::strs::push_chars(&mut full, cs.as_slice());
    assert(full@ =~= prefixed(bpe_view(*bpe), text@));
    let full_text = string_from_chars(full.as_slice());
    let words = split_words(full_text.as_str());
    let ghost ws = words_from(full@, 0);
    let mut ids: Vec<u32> = Vec::new();
    let mut k: usize = 0;
    assert(ws.skip(0) =~= ws);
    assert(ids@ =~= Seq::<u32>::empty());
    assert(encode_spec(bpe_view(*bpe), text@) == match encode_words(bpe_view(*bpe), ws.skip(0)) {
        Ok(rest) => Ok(ids@ + rest),
        Err(e) => Err(e),
    }) by {
        if let Ok(rest) = encode_words(bpe_view(*bpe), ws) {
            assert(ids@ + rest =~= rest);
        }
    }
    while k < words.len()
        invariant
            ws == words_from(full@, 0),
            words@.len() == ws.len(),
            forall|i: int| 0 <= i < words@.len() ==> #[trigger] words@[i]@ == ws[i],
            k <= words@.len(),
            encode_spec(bpe_view(*bpe), text@) == match encode_words(bpe_view(*bpe), ws.skip(k as int)) {
                Ok(rest) => Ok(ids@ + rest),
                Err(e) => Err(e),
            },
        decreases words.len() - k,
    {
        assert(ws.skip(k as int)[0] == ws[k as int]);
        assert(ws.skip(k as int).skip(1) =~= ws.skip(k + 1));
        match encode_word(bpe, words[k].as_str()) {
            Err(e) => {
                return Err(e);
            },
            Ok(w) => {
                let ghost before = ids@;
                let mut j: usize = 0;
                while j < w.len()
                    invariant
                        j <= w@.len(),
                        ids@ == before + w@.take(j as int),
                    decreases w.len() - j,
                {
                    ids.push(w[j]);
                    assert(w@.take(j + 1) =~= w@.take(j as int).push(w@[j as int]));
                    j = j + 1;
                }
                assert(w@.take(j as int) =~= w@);
                proof {
                    if let Ok(rest) = encode_words(bpe_view(*bpe), ws.skip(k + 1)) {
                        assert(before + (w@ + rest) =~= ids@ + rest);
                    }
                }
            },
        }
        k = k + 1;
    }
    assert(ws.skip(k as int) =~= Seq::<Seq<char>>::empty());
    assert(ids@ + seq![] =~= ids@);
    Ok(ids)
}

/// The bytes a token's characters stand for: a byte-level character gives its byte, any
/// other character its UTF-8 bytes.
pub open spec fn token_bytes(tok: Seq<char>) -> Seq<u8>
    decreases tok.len(),
{
    if tok.len() == 0 {
        seq![]
    } else {
        token_bytes(tok.drop_last()) + match char_byte_spec(tok.last()) {
            Some(b) => seq![b],
            None => vstd::utf8::encode_scalar(tok.last() as u32),
        }
    }
}

/// The bytes of ids, failing at the first id the vocabulary does not have.
pub open spec fn decode_bytes(b: BpeV, ids: Seq<u32>) -> Result<Seq<u8>, BpeError<Seq<char>>>
    decreases ids.len(),
{
    if ids.len() == 0 {
        Ok(seq![])
    } else {
        match token_before(b.id_to_token, ids[0], b.id_to_token.len() as int) {
            None => Err(BpeError::UnknownId(ids[0])),
            Some(tok) => match decode_bytes(b, ids.skip(1)) {
                Err(e) => Err(e),
                Ok(rest) => Ok(token_bytes(tok) + rest),
            },
        }
    }
}

fn token_lookup(v: &Vec<(u32, String)>, id: u32) -> (r: Option<String>)
    ensures
        match r {
            Some(t) => token_before(Seq::new(v@.len(), |i: int| (v@[i].0, v@[i].1@)), id, v@.len() as int) == Some(t@),
            None => token_before(Seq::new(v@.len(), |i: int| (v@[i].0, v@[i].1@)), id, v@.len() as int) is None,
        },
{
    let ghost tv = Seq::new(v@.len(), |i: int| (v@[i].0, v@[i].1@));
    let mut k = v.len();
    while k > 0
        invariant
            tv == Seq::new(v@.len(), |i: int| (v@[i].0, v@[i].1@)),
            k <= v@.len(),
            token_before(tv, id, v@.len() as int) == token_before(tv, id, k as int),
        decreases k,
    {
        if v[k - 1].0 == id {
            return Some(v[k - 1].1.clone());
        }
        k = k - 1;
    }
    None
}

/// Decodes ids into text; bytes that are not UTF-8 become U+FFFD.
pub fn decode(bpe: &Bpe, ids: &[u32]) -> (r: Result<String, BpeError>)
    ensures
        match r {
            Ok(s) => decode_bytes(bpe_view(*bpe), ids@) matches Ok(bytes) && s@ == crate::npy::utf8_lossy(bytes),
            Err(e) => decode_bytes(bpe_view(*bpe), ids@) == Err::<Seq<u8>, BpeError<Seq<char>>>(e@),
        },
{
    let ghost bv = bpe_view(*bpe);
    let mut bytes: Vec<u8> = Vec::new();
    let mut k: usize = 0;
    assert(ids@.skip(0) =~= ids@);
    assert(decode_bytes(bv, ids@) == match decode_bytes(bv, ids@.skip(0)) {
        Ok(rest) => Ok(bytes@ + rest),
        Err(e) => Err(e),
    }) by {
        if let Ok(rest) = decode_bytes(bv, ids@) {
            assert(bytes@ + rest =~= rest);
        }
    }
    while k < ids.len()
        invariant
            bv == bpe_view(*bpe),
            k <= ids@.len(),
            decode_bytes(bv, ids@) == match decode_bytes(bv, ids@.skip(k as int)) {
                Ok(rest) => Ok(bytes@ + rest),
                Err(e) => Err(e),
            },
        decreases ids.len() - k,
    {
        assert(ids@.skip(k as int)[0] == ids@[k as int]);
        assert(ids@.skip(k as int).skip(1) =~= ids@.skip(k + 1));
        let tok = match token_lookup(&bpe.id_to_token, ids[k]) {
            None => {
                return Err(BpeError::UnknownId(ids[k]));
            },
            Some(t) => t,
        };
        let cs = chars_of(tok.as_str());
        let ghost before = bytes@;
        let mut j: usize = 0;
        assert(cs@.take(0) =~= Seq::<char>::empty());
        while j < cs.len()
            invariant
                j <= cs@.len(),
                bytes@ == before + token_bytes(cs@.take(j as int)),
            decreases cs.len() - j,
        {
            assert(cs@.take(j + 1).drop_last() =~= cs@.take(j as int));
            match char_byte(cs[j]) {
                Some(b) => {
                    bytes.push(b);
                },
                None => {
                    let u = crate::json::utf8_of(cs[j]);
                    let mut m: usize = 0;
                    let ghost mid = bytes@;
                    while m < u.len()
                        invariant
                            m <= u@.len(),
                            bytes@ == mid + u@.take(m as int),
                        decreases u.len() - m,
                    {
                        bytes.push(u[m]);
                        assert(u@.take(m + 1) =~= u@.take(m as int).push(u@[m as int]));
                        m = m + 1;
                    }
                    assert(u@.take(m as int) =~= u@);
                },
            }
            assert(bytes@ =~= before + token_bytes(cs@.take(j + 1)));
            j = j + 1;
        }
        assert(cs@.take(j as int) =~= cs@);
        proof {
            if let Ok(rest) = decode_bytes(bv, ids@.skip(k + 1)) {
                assert(before + (token_bytes(tok@) + rest) =~= bytes@ + rest);
            }
        }
        k = k + 1;
    }
    assert(ids@.skip(k as int) =~= Seq::<u32>::empty());
    assert(bytes@ + seq![] =~= bytes@);
    Ok(crate::npy::lossy_text(bytes.as_slice()))
}

/// The concatenation of parts.
pub open spec fn spelled(ps: Seq<Seq<char>>) -> Seq<char>
    decreases ps.len(),
{
    if ps.len() == 0 {
        seq![]
    } else {
        spelled(ps.drop_last()) + ps.last()
    }
}

proof fn lemma_spelled_append(a: Seq<Seq<char>>, b: Seq<Seq<char>>)
    ensures
        spelled(a + b) == spelled(a) + spelled(b),
    decreases b.len(),
{
    if b.len() == 0 {
        assert(a + b =~= a);
        assert(spelled(a) + seq![] =~= spelled(a));
    } else {
        lemma_spelled_append(a, b.drop_last());
        assert((a + b).drop_last() =~= a + b.drop_last());
        assert(spelled(a) + spelled(b.drop_last()) + b.last() =~= spelled(a) + (spelled(b.drop_last()) + b.last()));
    }
}

proof fn lemma_spelled_merge(parts: Seq<Seq<char>>, p: int)
    requires
        0 <= p,
        p + 1 < parts.len(),
    ensures
        spelled(merged_at(parts, p)) == spelled(parts),
{
    let a = parts.take(p);
    let m = seq![parts[p] + parts[p + 1]];
    let c = parts.skip(p + 2);
    lemma_spelled_append(a + m, c);
    lemma_spelled_append(a, m);
    let two = seq![parts[p], parts[p + 1]];
    lemma_spelled_append(a + two, c);
    lemma_spelled_append(a, two);
    assert(two.drop_last() =~= seq![parts[p]]);
    assert(seq![parts[p]].drop_last() =~= Seq::<Seq<char>>::empty());
    assert(m.drop_last() =~= Seq::<Seq<char>>::empty());
    assert(spelled(Seq::<Seq<char>>::empty()) =~= Seq::<char>::empty());
    assert(seq![parts[p]].last() == parts[p]);
    assert(Seq::<char>::empty() + parts[p] =~= parts[p]);
    assert(spelled(seq![parts[p]]) =~= parts[p]);
    assert(m.last() == parts[p] + parts[p + 1]);
    assert(Seq::<char>::empty() + (parts[p] + parts[p + 1]) =~= parts[p] + parts[p + 1]);
    assert(two.last() == parts[p + 1]);
    assert(spelled(m) =~= parts[p] + parts[p + 1]);
    assert(spelled(two) =~= parts[p] + parts[p + 1]);
    assert(a + two + c =~= parts);
}

/// Merging never changes the text: the merged parts of a word spell exactly what the
/// parts spelled before.
pub proof fn law_merge_spelling(parts: Seq<Seq<char>>, ranks: Seq<(Seq<char>, Seq<char>)>)
    ensures
        spelled(merge_all(parts, ranks)) == spelled(parts),
    decreases parts.len(),
{
    match best_from(parts, ranks, 0, None) {
        None => {},
        Some((_, p)) => {
            lemma_best_from(parts, ranks, 0, None);
            lemma_spelled_merge(parts, p);
            law_merge_spelling(merged_at(parts, p), ranks);
        },
    }
}

/// Why a tokenizer file is refused.
#[derive(Debug, Clone, PartialEq)]
pub enum TokError<S = String> {
    Json(crate::json::JsonError),
    NotObject,
    NoModel,
    /// The model's type, which is not BPE.
    NotBpe(S),
    NoPreTokenizer,
    MalformedPreTokenizer,
    /// The pre-tokenizer's type, which is not ByteLevel.
    UnsupportedPreTokenizer(S),
    NoVocab,
    MalformedVocab,
    NoMerges,
    /// A merge written as one string without a space.
    MalformedMerge(S),
    MalformedMergeEntry,
    MalformedMerges,
}

impl View for TokError<String> {
    type V = TokError<Seq<char>>;

    open spec fn view(&self) -> TokError<Seq<char>> {
        match self {
            TokError::Json(e) => TokError::Json(*e),
            TokError::NotObject => TokError::NotObject,
            TokError::NoModel => TokError::NoModel,
            TokError::NotBpe(s) => TokError::NotBpe(s@),
            TokError::NoPreTokenizer => TokError::NoPreTokenizer,
            TokError::MalformedPreTokenizer => TokError::MalformedPreTokenizer,
            TokError::UnsupportedPreTokenizer(s) => TokError::UnsupportedPreTokenizer(s@),
            TokError::NoVocab => TokError::NoVocab,
            TokError::MalformedVocab => TokError::MalformedVocab,
            TokError::NoMerges => TokError::NoMerges,
            TokError::MalformedMerge(s) => TokError::MalformedMerge(s@),
            TokError::MalformedMergeEntry => TokError::MalformedMergeEntry,
            TokError::MalformedMerges => TokError::MalformedMerges,
        }
    }
}

/// The value of the first field named `name`.
pub open spec fn field_of(fs: Seq<(Seq<char>, JsonV)>, name: Seq<char>) -> Option<JsonV>
    decreases fs.len(),
{
    if fs.len() == 0 {
        None
    } else if fs[0].0 == name {
        Some(fs[0].1)
    } else {
        field_of(fs.skip(1), name)
    }
}

/// A token id: a count, saturated to `u32`.
pub open spec fn id_value(v: JsonV) -> Option<u32> {
    match json_count(v) {
        Some(n) => Some(if n > u32::MAX { u32::MAX } else { n as u32 }),
        None => None,
    }
}

/// The vocabulary's tokens and ids, failing at the first id that is no count.
pub open spec fn vocab_pairs(vocab: Seq<(Seq<char>, JsonV)>) -> Result<Seq<(Seq<char>, u32)>, TokError<Seq<char>>>
    decreases vocab.len(),
{
    if vocab.len() == 0 {
        Ok(seq![])
    } else {
        match id_value(vocab[0].1) {
            None => Err(TokError::MalformedVocab),
            Some(id) => match vocab_pairs(vocab.skip(1)) {
                Err(e) => Err(e),
                Ok(rest) => Ok(seq![(vocab[0].0, id)] + rest),
            },
        }
    }
}

/// The added tokens that have a count id and a string content.
pub open spec fn added_pairs(entries: Seq<JsonV>) -> Seq<(Seq<char>, u32)>
    decreases entries.len(),
{
    if entries.len() == 0 {
        seq![]
    } else {
        let rest = added_pairs(entries.skip(1));
        match entries[0] {
            JsonV::Obj(fs) => match (field_of(fs, seq!['i', 'd']), field_of(fs, seq!['c', 'o', 'n', 't', 'e', 'n', 't'])) {
                (Some(idv), Some(JsonV::Str(content))) => match id_value(idv) {
                    Some(id) => seq![(content, id)] + rest,
                    None => rest,
                },
                _ => rest,
            },
            _ => rest,
        }
    }
}

/// One merge: `"a b"` split at its first space, or a pair `["a", "b"]`.
pub open spec fn merge_entry(m: JsonV) -> Result<(Seq<char>, Seq<char>), TokError<Seq<char>>> {
    match m {
        JsonV::Str(s) => match first_match(s, seq![' '], 0) {
            Some(k) => Ok((s.take(k), s.skip(k + 1))),
            None => Err(TokError::MalformedMerge(s)),
        },
        JsonV::Arr(pair) => if pair.len() >= 2 && pair[0] is Str && pair[1] is Str {
            Ok((pair[0]->Str_0, pair[1]->Str_0))
        } else {
            Err(TokError::MalformedMergeEntry)
        },
        _ => Err(TokError::MalformedMerges),
    }
}

pub open spec fn merge_list(ms: Seq<JsonV>) -> Result<Seq<(Seq<char>, Seq<char>)>, TokError<Seq<char>>>
    decreases ms.len(),
{
    if ms.len() == 0 {
        Ok(seq![])
    } else {
        match merge_entry(ms[0]) {
            Err(e) => Err(e),
            Ok(p) => match merge_list(ms.skip(1)) {
                Err(e) => Err(e),
                Ok(rest) => Ok(seq![p] + rest),
            },
        }
    }
}

pub open spec fn text_model() -> Seq<char> {
    seq!['m', 'o', 'd', 'e', 'l']
}

pub open spec fn text_type() -> Seq<char> {
    seq!['t', 'y', 'p', 'e']
}

/// What a byte-level BPE tokenizer file (the Hugging Face `tokenizer.json` layout) gives.
pub open spec fn load_bpe_spec(root: JsonV) -> Result<BpeV, TokError<Seq<char>>> {
    match root {
        JsonV::Obj(rf) => match field_of(rf, text_model()) {
            Some(JsonV::Obj(model)) => {
                let kind_ok = match field_of(model, text_type()) {
                    Some(JsonV::Str(kind)) => kind == seq!['B', 'P', 'E'],
                    _ => true,
                };
                if !kind_ok {
                    Err(TokError::NotBpe(field_of(model, text_type())->0->Str_0))
                } else {
                    match field_of(rf, "pre_tokenizer"@) {
                        Some(JsonV::Obj(pf)) => match field_of(pf, text_type()) {
                            Some(JsonV::Str(kind)) => if kind != "ByteLevel"@ {
                                Err(TokError::UnsupportedPreTokenizer(kind))
                            } else {
                                let aps = field_of(pf, "add_prefix_space"@) == Some(JsonV::Bool(true));
                                match field_of(model, "vocab"@) {
                                    Some(JsonV::Obj(vocab)) => match vocab_pairs(vocab) {
                                        Err(e) => Err(e),
                                        Ok(pairs) => {
                                            let added = match field_of(rf, "added_tokens"@) {
                                                Some(JsonV::Arr(a)) => added_pairs(a),
                                                _ => seq![],
                                            };
                                            let all = pairs + added;
                                            match field_of(model, "merges"@) {
                                                Some(JsonV::Arr(ms)) => match merge_list(ms) {
                                                    Err(e) => Err(e),
                                                    Ok(ranks) => Ok(
                                                        BpeV {
                                                            id_to_token: Seq::new(all.len(), |i: int| (all[i].1, all[i].0)),
                                                            token_to_id: all,
                                                            ranks,
                                                            add_prefix_space: aps,
                                                        },
                                                    ),
                                                },
                                                _ => Err(TokError::NoMerges),
                                            }
                                        },
                                    },
                                    _ => Err(TokError::NoVocab),
                                }
                            },
                            _ => Err(TokError::MalformedPreTokenizer),
                        },
                        _ => Err(TokError::NoPreTokenizer),
                    }
                }
            },
            _ => Err(TokError::NoModel),
        },
        _ => Err(TokError::NotObject),
    }
}

/// The value of the first field named `name`.
pub(crate) fn field<'a>(fs: &'a Vec<(String, Json)>, name: &str) -> (r: Option<&'a Json>)
    ensures
        match r {
            Some(v) => field_of(fields_view(fs@), name@) == Some(json_view(*v)),
            None => field_of(fields_view(fs@), name@) is None,
        },
{
    proof {
        lemma_fields_view(fs@);
    }
    let ghost fv = fields_view(fs@);
    let mut i: usize = 0;
    assert(fv.skip(0) =~= fv);
    while i < fs.len()
        invariant
            fv == fields_view(fs@),
            fv.len() == fs@.len(),
            forall|k: int| 0 <= k < fs@.len() ==> #[trigger] fv[k] == (fs@[k].0@, json_view(fs@[k].1)),
            i <= fs@.len(),
            field_of(fv, name@) == field_of(fv.skip(i as int), name@),
        decreases fs.len() - i,
    {
        assert(fv.skip(i as int)[0] == fv[i as int]);
        assert(fv.skip(i as int).skip(1) =~= fv.skip(i + 1));
        if crate::strs::str_eq(fs[i].0.as_str(), name) {
            return Some(&fs[i].1);
        }
        i = i + 1;
    }
    None
}

fn id_of(v: &Json) -> (r: Option<u32>)
    ensures
        r == id_value(json_view(*v)),
{
    match crate::safetensors::count_of(v) {
        Some(n) => Some(if n > u32::MAX as usize { u32::MAX } else { n as u32 }),
        None => None,
    }
}

fn merge_of(m: &Json) -> (r: Result<(String, String), TokError>)
    ensures
        match r {
            Ok((a, b)) => merge_entry(json_view(*m)) == Ok::<(Seq<char>, Seq<char>), TokError<Seq<char>>>((a@, b@)),
            Err(e) => merge_entry(json_view(*m)) == Err::<(Seq<char>, Seq<char>), TokError<Seq<char>>>(e@),
        },
{
    match m {
        Json::Str(s) => {
            let cs = chars_of(s.as_str());
            let sp: [char; 1] = [' '];
            assert(sp@ =~= seq![' ']);
            match crate::strs::find_from(cs.as_slice(), &sp, 0) {
                Some(k) => {
                    proof {
                        crate::strs::lemma_first_match(cs@, seq![' '], 0);
                    }
                    assert(k + 1 <= cs.len());
                    let a = crate::strs::copy_chars(cs.as_slice(), 0, k);
                    let b = crate::strs::copy_chars(cs.as_slice(), k + 1, cs.len());
                    assert(a@ =~= cs@.take(k as int));
                    assert(b@ =~= cs@.skip(k + 1));
                    Ok((string_from_chars(a.as_slice()), string_from_chars(b.as_slice())))
                },
                None => Err(TokError::MalformedMerge(s.clone())),
            }
        },
        Json::Arr(pair) => {
            proof {
                lemma_items_view(pair@);
            }
            if pair.len() >= 2 {
                match (&pair[0], &pair[1]) {
                    (Json::Str(a), Json::Str(b)) => Ok((a.clone(), b.clone())),
                    _ => Err(TokError::MalformedMergeEntry),
                }
            } else {
                Err(TokError::MalformedMergeEntry)
            }
        },
        _ => Err(TokError::MalformedMerges),
    }
}

pub open spec fn pairs_view(v: Seq<(String, u32)>) -> Seq<(Seq<char>, u32)> {
    Seq::new(v.len(), |i: int| (v[i].0@, v[i].1))
}

fn vocab_of(vocab: &Vec<(String, Json)>) -> (r: Result<Vec<(String, u32)>, TokError>)
    ensures
        match r {
            Ok(v) => vocab_pairs(fields_view(vocab@)) == Ok::<Seq<(Seq<char>, u32)>, TokError<Seq<char>>>(pairs_view(v@)),
            Err(e) => vocab_pairs(fields_view(vocab@)) == Err::<Seq<(Seq<char>, u32)>, TokError<Seq<char>>>(e@),
        },
{
    proof {
        lemma_fields_view(vocab@);
    }
    let ghost fv = fields_view(vocab@);
    let mut out: Vec<(String, u32)> = Vec::new();
    let mut i: usize = 0;
    assert(fv.skip(0) =~= fv);
    assert(vocab_pairs(fv) == match vocab_pairs(fv.skip(0)) {
        Ok(rest) => Ok(pairs_view(out@) + rest),
        Err(e) => Err(e),
    }) by {
        if let Ok(rest) = vocab_pairs(fv) {
            assert(pairs_view(out@) + rest =~= rest);
        }
    }
    while i < vocab.len()
        invariant
            fv == fields_view(vocab@),
            fv.len() == vocab@.len(),
            forall|k: int| 0 <= k < vocab@.len() ==> #[trigger] fv[k] == (vocab@[k].0@, json_view(vocab@[k].1)),
            i <= vocab@.len(),
            vocab_pairs(fv) == match vocab_pairs(fv.skip(i as int)) {
                Ok(rest) => Ok(pairs_view(out@) + rest),
                Err(e) => Err(e),
            },
        decreases vocab.len() - i,
    {
        assert(fv.skip(i as int)[0] == fv[i as int]);
        assert(fv.skip(i as int).skip(1) =~= fv.skip(i + 1));
        match id_of(&vocab[i].1) {
            None => {
                return Err(TokError::MalformedVocab);
            },
            Some(id) => {
                let ghost before = pairs_view(out@);
                let entry = (vocab[i].0.clone(), id);
                out.push(entry);
                assert(pairs_view(out@) =~= before.push((vocab@[i as int].0@, id)));
                proof {
                    if let Ok(rest) = vocab_pairs(fv.skip(i + 1)) {
                        assert(before + (seq![(fv[i as int].0, id)] + rest) =~= pairs_view(out@) + rest);
                    }
                }
            },
        }
        i = i + 1;
    }
    assert(fv.skip(i as int) =~= Seq::<(Seq<char>, JsonV)>::empty());
    assert(pairs_view(out@) + seq![] =~= pairs_view(out@));
    Ok(out)
}

fn added_of(entries: &Vec<Json>, out: &mut Vec<(String, u32)>)
    ensures
        pairs_view(final(out)@) == pairs_view(old(out)@) + added_pairs(items_view(entries@)),
{
    proof {
        lemma_items_view(entries@);
        reveal_strlit("id");
        reveal_strlit("content");
    }
    let ghost iv = items_view(entries@);
    let ghost start = pairs_view(out@);
    let mut i: usize = 0;
    assert(iv.skip(0) =~= iv);
    while i < entries.len()
        invariant
            iv == items_view(entries@),
            iv.len() == entries@.len(),
            forall|k: int| 0 <= k < entries@.len() ==> #[trigger] iv[k] == json_view(entries@[k]),
            i <= entries@.len(),
            start + added_pairs(iv) == pairs_view(out@) + added_pairs(iv.skip(i as int)),
            "id"@ == seq!['i', 'd'],
            "content"@ == seq!['c', 'o', 'n', 't', 'e', 'n', 't'],
        decreases entries.len() - i,
    {
        assert(iv.skip(i as int)[0] == iv[i as int]);
        assert(iv.skip(i as int).skip(1) =~= iv.skip(i + 1));
        let ghost before = pairs_view(out@);
        let ghost rest = added_pairs(iv.skip(i + 1));
        if let Json::Obj(fs) = &entries[i] {
            let idv = field(fs, "id");
            let content = field(fs, "content");
            match (idv, content) {
                (Some(idv), Some(Json::Str(c))) => match id_of(idv) {
                    Some(id) => {
                        out.push((c.clone(), id));
                        assert(pairs_view(out@) =~= before.push((c@, id)));
                        assert(before + (seq![(c@, id)] + rest) =~= pairs_view(out@) + rest);
                    },
                    None => {},
                },
                _ => {},
            }
        }
        i = i + 1;
    }
    assert(iv.skip(i as int) =~= Seq::<JsonV>::empty());
    assert(pairs_view(out@) + seq![] =~= pairs_view(out@));
}

fn merges_of(ms: &Vec<Json>) -> (r: Result<Vec<(String, String)>, TokError>)
    ensures
        match r {
            Ok(v) => merge_list(items_view(ms@)) == Ok::<Seq<(Seq<char>, Seq<char>)>, TokError<Seq<char>>>(ranks_view(v@)),
            Err(e) => merge_list(items_view(ms@)) == Err::<Seq<(Seq<char>, Seq<char>)>, TokError<Seq<char>>>(e@),
        },
{
    proof {
        lemma_items_view(ms@);
    }
    let ghost iv = items_view(ms@);
    let mut out: Vec<(String, String)> = Vec::new();
    let mut i: usize = 0;
    assert(iv.skip(0) =~= iv);
    assert(merge_list(iv) == match merge_list(iv.skip(0)) {
        Ok(rest) => Ok(ranks_view(out@) + rest),
        Err(e) => Err(e),
    }) by {
        if let Ok(rest) = merge_list(iv) {
            assert(ranks_view(out@) + rest =~= rest);
        }
    }
    while i < ms.len()
        invariant
            iv == items_view(ms@),
            iv.len() == ms@.len(),
            forall|k: int| 0 <= k < ms@.len() ==> #[trigger] iv[k] == json_view(ms@[k]),
            i <= ms@.len(),
            merge_list(iv) == match merge_list(iv.skip(i as int)) {
                Ok(rest) => Ok(ranks_view(out@) + rest),
                Err(e) => Err(e),
            },
        decreases ms.len() - i,
    {
        assert(iv.skip(i as int)[0] == iv[i as int]);
        assert(iv.skip(i as int).skip(1) =~= iv.skip(i + 1));
        match merge_of(&ms[i]) {
            Err(e) => {
                return Err(e);
            },
            Ok((a, b)) => {
                let ghost before = ranks_view(out@);
                let ghost pv = (a@, b@);
                out.push((a, b));
                assert(ranks_view(out@) =~= before.push(pv));
                proof {
                    if let Ok(rest) = merge_list(iv.skip(i + 1)) {
                        assert(before + (seq![pv] + rest) =~= ranks_view(out@) + rest);
                    }
                }
            },
        }
        i = i + 1;
    }
    assert(iv.skip(i as int) =~= Seq::<JsonV>::empty());
    assert(ranks_view(out@) + seq![] =~= ranks_view(out@));
    Ok(out)
}

/// Builds a byte-level BPE tokenizer from a parsed tokenizer file.
pub fn load_bpe(root: &Json) -> (r: Result<Bpe, TokError>)
    ensures
        match r {
            Ok(b) => load_bpe_spec(json_view(*root)) == Ok::<BpeV, TokError<Seq<char>>>(bpe_view(b)),
            Err(e) => load_bpe_spec(json_view(*root)) == Err::<BpeV, TokError<Seq<char>>>(e@),
        },
{
    proof {
        reveal_strlit("model");
        reveal_strlit("type");
        reveal_strlit("BPE");
    }
    assert("model"@ =~= text_model());
    assert("type"@ =~= text_type());
    assert("BPE"@ =~= seq!['B', 'P', 'E']);
    let rf = match root {
        Json::Obj(rf) => rf,
        _ => {
            return Err(TokError::NotObject);
        },
    };
    let model = match field(rf, "model") {
        Some(Json::Obj(model)) => model,
        _ => {
            return Err(TokError::NoModel);
        },
    };
    if let Some(Json::Str(kind)) = field(model, "type") {
        if !crate::strs::str_eq(kind.as_str(), "BPE") {
            return Err(TokError::NotBpe(kind.clone()));
        }
    }
    let aps = match field(rf, "pre_tokenizer") {
        Some(Json::Obj(pf)) => match field(pf, "type") {
            Some(Json::Str(kind)) => {
                if !crate::strs::str_eq(kind.as_str(), "ByteLevel") {
                    return Err(TokError::UnsupportedPreTokenizer(kind.clone()));
                }
                match field(pf, "add_prefix_space") {
                    Some(Json::Bool(true)) => true,
                    _ => false,
                }
            },
            _ => {
                return Err(TokError::MalformedPreTokenizer);
            },
        },
        _ => {
            return Err(TokError::NoPreTokenizer);
        },
    };
    let mut all = match field(model, "vocab") {
        Some(Json::Obj(vocab)) => match vocab_of(vocab) {
            Err(e) => {
                return Err(e);
            },
            Ok(v) => v,
        },
        _ => {
            return Err(TokError::NoVocab);
        },
    };
    let ghost pairs = pairs_view(all@);
    match field(rf, "added_tokens") {
        Some(Json::Arr(a)) => {
            added_of(a, &mut all);
        },
        _ => {
            assert(pairs_view(all@) =~= pairs + Seq::<(Seq<char>, u32)>::empty());
        },
    }
    let ranks = match field(model, "merges") {
        Some(Json::Arr(ms)) => match merges_of(ms) {
            Err(e) => {
                return Err(e);
            },
            Ok(v) => v,
        },
        _ => {
            return Err(TokError::NoMerges);
        },
    };
    let mut id_to_token: Vec<(u32, String)> = Vec::new();
    let mut i: usize = 0;
    while i < all.len()
        invariant
            i <= all@.len(),
            id_to_token@.len() == i,
            forall|k: int| 0 <= k < i ==> #[trigger] id_to_token@[k].0 == all@[k].1 && id_to_token@[k].1@ == all@[k].0@,
        decreases all.len() - i,
    {
        id_to_token.push((all[i].1, all[i].0.clone()));
        i = i + 1;
    }
    let bpe = Bpe { id_to_token, token_to_id: all, ranks, add_prefix_space: aps };
    assert(bpe_view(bpe).id_to_token =~= Seq::new(pairs_view(bpe.token_to_id@).len(), |k: int| (pairs_view(bpe.token_to_id@)[k].1, pairs_view(bpe.token_to_id@)[k].0)));
    assert(bpe_view(bpe).token_to_id =~= pairs_view(bpe.token_to_id@));
    Ok(bpe)
}

/// Reads a tokenizer file's bytes into a byte-level BPE tokenizer, refusing malformed JSON
/// and unsupported tokenizers.
pub fn check_tokenizer(bytes: &[u8]) -> (r: Result<Bpe, TokError>)
    ensures
        match r {
            Ok(b) => crate::json::json_value(bytes@, 0) matches Ok((v, _)) && load_bpe_spec(v) == Ok::<
                BpeV,
                TokError<Seq<char>>,
            >(bpe_view(b)),
            Err(e) => match crate::json::json_value(bytes@, 0) {
                Err(je) => e@ == TokError::<Seq<char>>::Json(je),
                Ok((v, _)) => load_bpe_spec(v) == Err::<BpeV, TokError<Seq<char>>>(e@),
            },
        },
{
    match crate::json::parse_json(bytes) {
        Err(e) => Err(TokError::Json(e)),
        Ok(j) => load_bpe(&j),
    }
}

} // verus!
