use vstd::prelude::*;

verus! {

/// Builds a `String` from characters.
///
/// Trusted: calls `String::from_iter`; the contract claims only that the string
/// holds exactly the given characters, in order.
#[verifier::external_body]
pub fn string_from_chars(chars: &[char]) -> (s: String)
    ensures
        s@ == chars@,
{
    String::from_iter(chars.iter())
}

/// The characters of a string slice, in order.
pub fn chars_of(s: &str) -> (v: Vec<char>)
    ensures
        v@ == s@,
{
    let mut v: Vec<char> = Vec::new();
    for c in it: s.chars()
        invariant
            v@ == it.seq().take(it.index() as int),
            it.seq() == s@,
    {
        v.push(c);
    }
    v
}

/// Whether two character slices are equal.
pub fn chars_eq(a: &[char], b: &[char]) -> (r: bool)
    ensures
        r == (a@ == b@),
{
    if a.len() != b.len() {
        return false;
    }
    let mut i: usize = 0;
    while i < a.len()
        invariant
            a@.len() == b@.len(),
            i <= a@.len(),
            forall|k: int| 0 <= k < i ==> a@[k] == b@[k],
        decreases a.len() - i,
    {
        if a[i] != b[i] {
            return false;
        }
        i = i + 1;
    }
    assert(a@ =~= b@);
    true
}

/// Whether two strings hold the same characters.
pub fn str_eq(a: &str, b: &str) -> (r: bool)
    ensures
        r == (a@ == b@),
{
    let x = chars_of(a);
    let y = chars_of(b);
    chars_eq(x.as_slice(), y.as_slice())
}

/// The character of a decimal digit.
pub open spec fn digit_char(d: nat) -> char {
    ((48 + d % 10) as u8) as char
}

/// A number written in decimal, without leading zeros.
pub open spec fn decimal_chars(n: nat) -> Seq<char>
    decreases n,
{
    if n < 10 {
        seq![digit_char(n)]
    } else {
        decimal_chars(n / 10).push(digit_char(n % 10))
    }
}

/// The characters of `n` written in decimal.
pub fn decimal_text(n: usize) -> (v: Vec<char>)
    ensures
        v@ == decimal_chars(n as nat),
    decreases n,
{
    if n < 10 {
        let c = ((48 + n) as u8) as char;
        let v: Vec<char> = vec![c];
        assert(v@ =~= seq![digit_char(n as nat)]);
        v
    } else {
        let mut v = decimal_text(n / 10);
        let c = ((48 + n % 10) as u8) as char;
        v.push(c);
        v
    }
}

/// Appends the characters of `more`.
pub fn push_chars(out: &mut Vec<char>, more: &[char])
    ensures
        final(out)@ == old(out)@ + more@,
{
    let mut i: usize = 0;
    while i < more.len()
        invariant
            i <= more@.len(),
            out@ == old(out)@ + more@.take(i as int),
        decreases more.len() - i,
    {
        out.push(more[i]);
        assert(more@.take(i + 1) =~= more@.take(i as int).push(more@[i as int]));
        i = i + 1;
    }
    assert(more@.take(i as int) =~= more@);
}

/// Appends the characters of a string slice.
pub fn push_str_chars(out: &mut Vec<char>, more: &str)
    ensures
        final(out)@ == old(out)@ + more@,
{
    let cs = chars_of(more);
    push_chars(out, cs.as_slice());
}

/// The first index from `i` on where `pat` occurs in `s`.
pub open spec fn first_match(s: Seq<char>, pat: Seq<char>, i: int) -> Option<int>
    decreases s.len() + 1 - i,
{
    if i < 0 || i + pat.len() > s.len() {
        None
    } else if s.subrange(i, i + pat.len()) == pat {
        Some(i)
    } else {
        first_match(s, pat, i + 1)
    }
}

pub proof fn lemma_first_match(s: Seq<char>, pat: Seq<char>, i: int)
    ensures
        first_match(s, pat, i) matches Some(k) ==> i <= k && k + pat.len() <= s.len() && s.subrange(
            k,
            k + pat.len(),
        ) == pat,
    decreases s.len() + 1 - i,
{
    if !(i < 0 || i + pat.len() > s.len()) && s.subrange(i, i + pat.len()) != pat {
        lemma_first_match(s, pat, i + 1);
    }
}

/// The pieces of `s` between the occurrences of `pat` (which is not empty), left to right.
pub open spec fn split_pat(s: Seq<char>, pat: Seq<char>) -> Seq<Seq<char>>
    decreases s.len(),
{
    if pat.len() == 0 {
        seq![s]
    } else {
        match first_match(s, pat, 0) {
            None => seq![s],
            Some(k) => {
                proof {
                    lemma_first_match(s, pat, 0);
                }
                seq![s.take(k)] + split_pat(s.skip(k + pat.len()), pat)
            },
        }
    }
}

/// Where `pat` first occurs in `s` at or after `from`.
pub fn find_from(s: &[char], pat: &[char], from: usize) -> (r: Option<usize>)
    requires
        from <= s@.len(),
    ensures
        match r {
            Some(k) => first_match(s@, pat@, from as int) == Some(k as int),
            None => first_match(s@, pat@, from as int) is None,
        },
{
    let mut i = from;
    while i <= s.len() && pat.len() <= s.len() - i
        invariant
            from <= i <= s@.len() + 1,
            first_match(s@, pat@, from as int) == first_match(s@, pat@, i as int),
        decreases s.len() + 1 - i,
    {
        let mut k: usize = 0;
        let mut same = true;
        while k < pat.len()
            invariant
                i + pat.len() <= s.len(),
                k <= pat@.len(),
                same == (forall|j: int| 0 <= j < k ==> s@[i + j] == pat@[j]),
            decreases pat.len() - k,
        {
            if s[i + k] != pat[k] {
                same = false;
            }
            k = k + 1;
        }
        if same {
            assert(s@.subrange(i as int, i + pat@.len()) =~= pat@);
            return Some(i);
        }
        assert(s@.subrange(i as int, i + pat@.len()) != pat@) by {
            let j = choose|j: int| 0 <= j < pat@.len() && s@[i + j] != pat@[j];
            assert(s@.subrange(i as int, i + pat@.len())[j] != pat@[j]);
        }
        i = i + 1;
    }
    None
}

/// Copies `s[from..to]`.
pub fn copy_chars(s: &[char], from: usize, to: usize) -> (v: Vec<char>)
    requires
        from <= to <= s@.len(),
    ensures
        v@ == s@.subrange(from as int, to as int),
{
    vstd::slice::slice_to_vec(vstd::slice::slice_subrange(s, from, to))
}

proof fn lemma_first_match_skip(s: Seq<char>, pat: Seq<char>, p: int, i: int)
    requires
        0 <= p <= s.len(),
        0 <= i,
    ensures
        first_match(s.skip(p), pat, i) == (match first_match(s, pat, p + i) {
            Some(k) => Some(k - p),
            None => None::<int>,
        }),
    decreases s.len() + 1 - p - i,
{
    let t = s.skip(p);
    if i + pat.len() <= t.len() {
        assert(t.subrange(i, i + pat.len()) =~= s.subrange(p + i, p + i + pat.len()));
        if t.subrange(i, i + pat.len()) != pat {
            lemma_first_match_skip(s, pat, p, i + 1);
        }
    }
}

/// The pieces of `s` between the occurrences of a non-empty `pat`.
pub fn split_by(s: &[char], pat: &[char]) -> (parts: Vec<Vec<char>>)
    requires
        pat@.len() > 0,
    ensures
        parts@.len() == split_pat(s@, pat@).len(),
        forall|i: int| 0 <= i < parts@.len() ==> #[trigger] parts@[i]@ == split_pat(s@, pat@)[i],
{
    let mut parts: Vec<Vec<char>> = Vec::new();
    let mut pos: usize = 0;
    let ghost mut done: Seq<Seq<char>> = seq![];
    assert(s@.skip(0) =~= s@);
    assert(done + split_pat(s@, pat@) =~= split_pat(s@, pat@));
    loop
        invariant
            pat@.len() > 0,
            pos <= s@.len(),
            parts@.len() == done.len(),
            forall|i: int| 0 <= i < parts@.len() ==> #[trigger] parts@[i]@ == done[i],
            split_pat(s@, pat@) == done + split_pat(s@.skip(pos as int), pat@),
        decreases s.len() - pos,
    {
        let ghost rest = s@.skip(pos as int);
        proof {
            lemma_first_match_skip(s@, pat@, pos as int, 0);
            lemma_first_match(s@, pat@, pos as int);
        }
        match find_from(s, pat, pos) {
            None => {
                let piece = copy_chars(s, pos, s.len());
                assert(piece@ =~= rest);
                assert(split_pat(rest, pat@) == seq![rest]);
                proof {
                    done = done.push(rest);
                }
                parts.push(piece);
                assert(split_pat(s@, pat@) =~= done);
                return parts;
            },
            Some(k) => {
                let piece = copy_chars(s, pos, k);
                assert(piece@ =~= rest.take(k - pos));
                assert(rest.skip(k - pos + pat@.len()) =~= s@.skip(k + pat@.len()));
                assert(split_pat(rest, pat@) == seq![rest.take(k - pos)] + split_pat(
                    rest.skip(k - pos + pat@.len()),
                    pat@,
                ));
                proof {
                    done = done.push(rest.take(k - pos));
                }
                parts.push(piece);
                assert(split_pat(s@, pat@) =~= done + split_pat(s@.skip(k + pat@.len()), pat@));
                pos = k + pat.len();
            },
        }
    }
}

/// The characters with the Unicode White_Space property, which `char::is_whitespace` and
/// `str::trim` go by.
pub open spec fn is_white(c: char) -> bool {
    ||| '\t' <= c <= '\r'
    ||| c == ' '
    ||| c == '\u{85}'
    ||| c == '\u{a0}'
    ||| c == '\u{1680}'
    ||| '\u{2000}' <= c <= '\u{200a}'
    ||| c == '\u{2028}'
    ||| c == '\u{2029}'
    ||| c == '\u{202f}'
    ||| c == '\u{205f}'
    ||| c == '\u{3000}'
}

pub fn white(c: char) -> (r: bool)
    ensures
        r == is_white(c),
{
    ('\t' <= c && c <= '\r') || c == ' ' || c == '\u{85}' || c == '\u{a0}' || c == '\u{1680}' || ('\u{2000}'
        <= c && c <= '\u{200a}') || c == '\u{2028}' || c == '\u{2029}' || c == '\u{202f}' || c == '\u{205f}'
        || c == '\u{3000}'
}

/// The index of the first character at or after `i` that is not white space.
pub open spec fn trim_from(s: Seq<char>, i: int) -> int
    decreases s.len() - i,
{
    if 0 <= i < s.len() && is_white(s[i]) {
        trim_from(s, i + 1)
    } else {
        i
    }
}

/// The end of `s.take(j)` without its trailing white space.
pub open spec fn trim_to(s: Seq<char>, j: int) -> int
    decreases j,
{
    if 0 < j <= s.len() && is_white(s[j - 1]) {
        trim_to(s, j - 1)
    } else {
        j
    }
}

/// `s` without leading and trailing white space.
pub open spec fn trim_spec(s: Seq<char>) -> Seq<char> {
    let a = trim_from(s, 0);
    let b = trim_to(s, s.len() as int);
    if a >= b {
        seq![]
    } else {
        s.subrange(a, b)
    }
}

/// `s` without leading and trailing white space.
pub fn trim_chars(s: &[char]) -> (v: Vec<char>)
    ensures
        v@ == trim_spec(s@),
{
    let mut a: usize = 0;
    while a < s.len() && white(s[a])
        invariant
            a <= s@.len(),
            trim_from(s@, 0) == trim_from(s@, a as int),
        decreases s.len() - a,
    {
        a = a + 1;
    }
    let mut b: usize = s.len();
    while b > 0 && white(s[b - 1])
        invariant
            b <= s@.len(),
            trim_to(s@, s@.len() as int) == trim_to(s@, b as int),
        decreases b,
    {
        b = b - 1;
    }
    if a >= b {
        Vec::new()
    } else {
        copy_chars(s, a, b)
    }
}

pub open spec fn is_digit_char(c: char) -> bool {
    '0' <= c <= '9'
}

/// The value of a run of decimal digits.
pub open spec fn digits_value(t: Seq<char>) -> nat
    decreases t.len(),
{
    if t.len() == 0 {
        0
    } else {
        digits_value(t.drop_last()) * 10 + (t.last() as nat - 48) as nat
    }
}

pub open spec fn all_digits(t: Seq<char>) -> bool {
    forall|i: int| 0 <= i < t.len() ==> is_digit_char(#[trigger] t[i])
}

/// What `usize::from_str` gives: an optional `+`, then at least one digit and nothing
/// else, with a value that fits.
pub open spec fn parse_usize_spec(s: Seq<char>) -> Option<nat> {
    let t = if s.len() > 0 && s[0] == '+' { s.skip(1) } else { s };
    if t.len() == 0 || !all_digits(t) {
        None
    } else if digits_value(t) > usize::MAX {
        None
    } else {
        Some(digits_value(t))
    }
}

pub(crate) proof fn lemma_digits_value_mono(t: Seq<char>, k: int, n: int)
    requires
        0 <= k <= n <= t.len(),
        forall|i: int| 0 <= i < t.len() ==> is_digit_char(#[trigger] t[i]),
    ensures
        digits_value(t.take(k)) <= digits_value(t.take(n)),
    decreases n - k,
{
    if k < n {
        lemma_digits_value_mono(t, k, n - 1);
        assert(t.take(n).drop_last() =~= t.take(n - 1));
    }
}

/// Reads a decimal number as `usize::from_str` does.
pub fn parse_usize(s: &[char]) -> (r: Option<usize>)
    ensures
        match r {
            Some(n) => parse_usize_spec(s@) == Some(n as nat),
            None => parse_usize_spec(s@) is None,
        },
{
    let start: usize = if s.len() > 0 && s[0] == '+' { 1 } else { 0 };
    let ghost t = if s@.len() > 0 && s@[0] == '+' { s@.skip(1) } else { s@ };
    assert(t =~= s@.skip(start as int));
    if start >= s.len() {
        return None;
    }
    let mut k = start;
    while k < s.len()
        invariant
            start <= k <= s@.len(),
            t == s@.skip(start as int),
            t == (if s@.len() > 0 && s@[0] == '+' { s@.skip(1) } else { s@ }),
            forall|i: int| 0 <= i < k - start ==> is_digit_char(#[trigger] t[i]),
        decreases s.len() - k,
    {
        if !('0' <= s[k] && s[k] <= '9') {
            assert(!is_digit_char(t[k - start]));
            return None;
        }
        k = k + 1;
    }
    let mut v: usize = 0;
    let mut i = start;
    while i < s.len()
        invariant
            start <= i <= s@.len(),
            t == s@.skip(start as int),
            t == (if s@.len() > 0 && s@[0] == '+' { s@.skip(1) } else { s@ }),
            forall|j: int| 0 <= j < t.len() ==> is_digit_char(#[trigger] t[j]),
            v == digits_value(t.take(i - start)),
        decreases s.len() - i,
    {
        assert(t.take(i - start + 1).drop_last() =~= t.take(i - start));
        assert(is_digit_char(t[i - start]));
        let d = (s[i] as u32 - 48) as usize;
        match v.checked_mul(10) {
            None => {
                proof {
                    lemma_digits_value_mono(t, i - start + 1, t.len() as int);
                    assert(t.take(t.len() as int) =~= t);
                }
                return None;
            },
            Some(m) => match m.checked_add(d) {
                None => {
                    proof {
                        lemma_digits_value_mono(t, i - start + 1, t.len() as int);
                        assert(t.take(t.len() as int) =~= t);
                    }
                    return None;
                },
                Some(n) => {
                    v = n;
                },
            },
        }
        i = i + 1;
    }
    assert(t.take(t.len() as int) =~= t);
    Some(v)
}

/// Decimal text is digits, and reading it back gives the number.
pub proof fn lemma_decimal_chars(n: nat)
    ensures
        decimal_chars(n).len() >= 1,
        all_digits(decimal_chars(n)),
        digits_value(decimal_chars(n)) == n,
    decreases n,
{
    if n >= 10 {
        lemma_decimal_chars(n / 10);
        let d = decimal_chars(n);
        assert(d.drop_last() =~= decimal_chars(n / 10));
        assert(digit_char(n % 10) as nat == 48 + n % 10);
        assert(d.last() == digit_char(n % 10));
        assert(n == (n / 10) * 10 + n % 10);
        assert(digits_value(d) == digits_value(d.drop_last()) * 10 + (d.last() as nat - 48) as nat);
        assert(digits_value(d) == (n / 10) * 10 + n % 10);
        assert forall|i: int| 0 <= i < d.len() implies is_digit_char(#[trigger] d[i]) by {
            if i < d.len() - 1 {
                assert(d[i] == decimal_chars(n / 10)[i]);
            }
        }
    } else {
        assert(decimal_chars(n).drop_last() =~= Seq::<char>::empty());
        assert(digit_char(n) as nat == 48 + n);
        let d = decimal_chars(n);
        assert(digits_value(d) == digits_value(d.drop_last()) * 10 + (d.last() as nat - 48) as nat);
        assert(digits_value(d.drop_last()) == 0);
    }
}

/// `usize::from_str` reads back what `decimal_text` writes.
pub proof fn lemma_parse_decimal(n: nat)
    requires
        n <= usize::MAX,
    ensures
        parse_usize_spec(decimal_chars(n)) == Some(n),
{
    lemma_decimal_chars(n);
    assert(is_digit_char(decimal_chars(n)[0]));
}

/// `pat` first occurs at `k` when it does not occur between `i` and `k`.
pub proof fn lemma_first_match_at(s: Seq<char>, pat: Seq<char>, i: int, k: int)
    requires
        0 <= i <= k,
        k + pat.len() <= s.len(),
        s.subrange(k, k + pat.len()) == pat,
        forall|j: int| i <= j < k ==> #[trigger] s.subrange(j, j + pat.len()) != pat,
    ensures
        first_match(s, pat, i) == Some(k),
    decreases k - i,
{
    if i < k {
        lemma_first_match_at(s, pat, i + 1, k);
    }
}

/// `pat` does not occur from `i` on.
pub proof fn lemma_first_match_none(s: Seq<char>, pat: Seq<char>, i: int)
    requires
        0 <= i,
        forall|j: int| i <= j && j + pat.len() <= s.len() ==> #[trigger] s.subrange(j, j + pat.len()) != pat,
    ensures
        first_match(s, pat, i) is None,
    decreases s.len() + 1 - i,
{
    if i + pat.len() <= s.len() {
        lemma_first_match_none(s, pat, i + 1);
    }
}

} // verus!
