use vstd::prelude::*;

use crate::strs::{chars_eq, chars_of, copy_chars, is_white, str_eq, string_from_chars, trim_chars, trim_spec};

verus! {

/// The state of the CSV reader: finished rows, the current row, the current field, and
/// whether it is inside a quoted field.
pub type CsvState = (Seq<Seq<Seq<char>>>, Seq<Seq<char>>, Seq<char>, bool);

/// The CSV reader from index `i`: quotes start a field only at its beginning, `""` inside
/// quotes is a quote, `,` ends a field, `\r` is dropped, `\n` ends a row and rows holding
/// a single empty field are skipped; `None` when a quote is still open at the end.
pub open spec fn csv_from(cs: Seq<char>, i: int, st: CsvState) -> Option<Seq<Seq<Seq<char>>>>
    decreases cs.len() - i,
{
    let (rows, row, field, quoted) = st;
    if i < 0 || i >= cs.len() {
        if quoted {
            None
        } else if field.len() > 0 || row.len() > 0 {
            Some(rows.push(row.push(field)))
        } else {
            Some(rows)
        }
    } else {
        let c = cs[i];
        if quoted {
            if c == '"' && i + 1 < cs.len() && cs[i + 1] == '"' {
                csv_from(cs, i + 2, (rows, row, field.push('"'), true))
            } else if c == '"' {
                csv_from(cs, i + 1, (rows, row, field, false))
            } else {
                csv_from(cs, i + 1, (rows, row, field.push(c), true))
            }
        } else if c == '"' && field.len() == 0 {
            csv_from(cs, i + 1, (rows, row, field, true))
        } else if c == ',' {
            csv_from(cs, i + 1, (rows, row.push(field), seq![], false))
        } else if c == '\r' {
            csv_from(cs, i + 1, (rows, row, field, false))
        } else if c == '\n' {
            let done = row.push(field);
            if done.len() > 1 || done[0].len() > 0 {
                csv_from(cs, i + 1, (rows.push(done), seq![], seq![], false))
            } else {
                csv_from(cs, i + 1, (rows, seq![], seq![], false))
            }
        } else {
            csv_from(cs, i + 1, (rows, row, field.push(c), false))
        }
    }
}

pub open spec fn strings_view(v: Seq<String>) -> Seq<Seq<char>> {
    Seq::new(v.len(), |i: int| v[i]@)
}

pub open spec fn rows_view(v: Seq<Vec<String>>) -> Seq<Seq<Seq<char>>> {
    Seq::new(v.len(), |i: int| strings_view(v[i]@))
}

/// Why a table file is refused.
#[derive(Debug, Clone, PartialEq)]
pub enum TableError<S = String> {
    UnterminatedQuote,
    Empty,
    NoDataRows,
    /// A header cell that gives no usable field name.
    BadHeader(S),
    DuplicateColumn(S),
    /// A data row (numbered from 2, as in the file) with the wrong number of fields, and
    /// the numbers found and expected.
    RowWidth(usize, usize, usize),
    /// An empty cell: its row (numbered from 2) and column name.
    EmptyCell(usize, S),
}

impl View for TableError<String> {
    type V = TableError<Seq<char>>;

    open spec fn view(&self) -> TableError<Seq<char>> {
        match self {
            TableError::UnterminatedQuote => TableError::UnterminatedQuote,
            TableError::Empty => TableError::Empty,
            TableError::NoDataRows => TableError::NoDataRows,
            TableError::BadHeader(s) => TableError::BadHeader(s@),
            TableError::DuplicateColumn(s) => TableError::DuplicateColumn(s@),
            TableError::RowWidth(a, b, c) => TableError::RowWidth(*a, *b, *c),
            TableError::EmptyCell(a, s) => TableError::EmptyCell(*a, s@),
        }
    }
}

fn push_field(row: &mut Vec<String>, field: &Vec<char>)
    ensures
        strings_view(final(row)@) == strings_view(old(row)@).push(field@),
{
    let s = string_from_chars(field.as_slice());
    row.push(s);
    assert(strings_view(row@) =~= strings_view(old(row)@).push(field@));
}

/// Splits CSV text into rows of fields.
#[verifier::spinoff_prover]
pub fn parse_rows(text: &str) -> (r: Result<Vec<Vec<String>>, TableError>)
    ensures
        match r {
            Ok(rows) => csv_from(text@, 0, (seq![], seq![], seq![], false)) == Some(rows_view(rows@)),
            Err(e) => e == TableError::<String>::UnterminatedQuote && csv_from(
                text@,
                0,
                (seq![], seq![], seq![], false),
            ) is None,
        },
{
    let cs = chars_of(text);
    let mut rows: Vec<Vec<String>> = Vec::new();
    let mut row: Vec<String> = Vec::new();
    let mut field: Vec<char> = Vec::new();
    let mut quoted = false;
    let mut i: usize = 0;
    assert(rows_view(rows@) =~= Seq::<Seq<Seq<char>>>::empty());
    assert(strings_view(row@) =~= Seq::<Seq<char>>::empty());
    while i < cs.len()
        invariant
            cs@ == text@,
            i <= cs@.len(),
            csv_from(cs@, 0, (seq![], seq![], seq![], false)) == csv_from(
                cs@,
                i as int,
                (rows_view(rows@), strings_view(row@), field@, quoted),
            ),
        decreases cs.len() - i,
    {
        let c = cs[i];
        let ghost i0 = i as int;
        let ghost st0 = (rows_view(rows@), strings_view(row@), field@, quoted);
        assert(csv_from(cs@, i0, st0) == (if quoted {
            if c == '"' && i0 + 1 < cs@.len() && cs@[i0 + 1] == '"' {
                csv_from(cs@, i0 + 2, (st0.0, st0.1, st0.2.push('"'), true))
            } else if c == '"' {
                csv_from(cs@, i0 + 1, (st0.0, st0.1, st0.2, false))
            } else {
                csv_from(cs@, i0 + 1, (st0.0, st0.1, st0.2.push(c), true))
            }
        } else if c == '"' && st0.2.len() == 0 {
            csv_from(cs@, i0 + 1, (st0.0, st0.1, st0.2, true))
        } else if c == ',' {
            csv_from(cs@, i0 + 1, (st0.0, st0.1.push(st0.2), seq![], false))
        } else if c == '\r' {
            csv_from(cs@, i0 + 1, (st0.0, st0.1, st0.2, false))
        } else if c == '\n' {
            let done = st0.1.push(st0.2);
            if done.len() > 1 || done[0].len() > 0 {
                csv_from(cs@, i0 + 1, (st0.0.push(done), seq![], seq![], false))
            } else {
                csv_from(cs@, i0 + 1, (st0.0, seq![], seq![], false))
            }
        } else {
            csv_from(cs@, i0 + 1, (st0.0, st0.1, st0.2.push(c), false))
        }));
        if quoted {
            if c == '"' && i + 1 < cs.len() && cs[i + 1] == '"' {
                field.push('"');
                i = i + 2;
            } else if c == '"' {
                quoted = false;
                i = i + 1;
            } else {
                field.push(c);
                i = i + 1;
            }
        } else if c == '"' && field.len() == 0 {
            quoted = true;
            i = i + 1;
        } else if c == ',' {
            push_field(&mut row, &field);
            field = Vec::new();
            i = i + 1;
        } else if c == '\r' {
            i = i + 1;
        } else if c == '\n' {
            push_field(&mut row, &field);
            field = Vec::new();
            if row.len() > 1 || !row[0].as_str().is_empty() {
                let ghost before = rows@;
                let done = row;
                row = Vec::new();
                rows.push(done);
                assert(rows_view(rows@) =~= rows_view(before).push(strings_view(done@)));
            } else {
                row = Vec::new();
            }
            assert(strings_view(row@) =~= Seq::<Seq<char>>::empty());
            i = i + 1;
        } else {
            field.push(c);
            i = i + 1;
        }
        assert(csv_from(cs@, i0, st0) == csv_from(cs@, i as int, (rows_view(rows@), strings_view(row@), field@, quoted)));
    }
    if quoted {
        return Err(TableError::UnterminatedQuote);
    }
    if field.len() > 0 || row.len() > 0 {
        let ghost before = rows@;
        push_field(&mut row, &field);
        let done = row;
        rows.push(done);
        assert(rows_view(rows@) =~= rows_view(before).push(strings_view(done@)));
    }
    Ok(rows)
}

pub open spec fn is_ascii_alnum(c: char) -> bool {
    ('0' <= c <= '9') || ('a' <= c <= 'z') || ('A' <= c <= 'Z')
}

/// A header character as it stands in a field name.
pub open spec fn name_char(c: char) -> char {
    if is_ascii_alnum(c) { c } else { '_' }
}

pub open spec fn all_underscores(s: Seq<char>) -> bool {
    forall|i: int| 0 <= i < s.len() ==> s[i] == '_'
}

/// The field name a column header gives: the trimmed header with every character other
/// than an ASCII letter or digit replaced by `_`, and `_` in front of a leading digit;
/// `None` when that leaves nothing but underscores.
pub open spec fn column_name_spec(header: Seq<char>) -> Option<Seq<char>> {
    let t = trim_spec(header);
    let mapped = Seq::new(t.len(), |i: int| name_char(t[i]));
    let named = if mapped.len() > 0 && '0' <= mapped[0] <= '9' { seq!['_'] + mapped } else { mapped };
    if named.len() == 0 || all_underscores(named) {
        None
    } else {
        Some(named)
    }
}

/// The field name of a column header, or `None` when it gives none.
pub fn column_name(header: &str) -> (r: Option<String>)
    ensures
        match r {
            Some(s) => column_name_spec(header@) == Some(s@),
            None => column_name_spec(header@) is None,
        },
{
    let cs = chars_of(header);
    let t = trim_chars(cs.as_slice());
    let mut named: Vec<char> = Vec::new();
    let lead = t.len() > 0 && '0' <= t[0] && t[0] <= '9';
    if lead {
        named.push('_');
    }
    let ghost mapped = Seq::new(t@.len(), |i: int| name_char(t@[i]));
    let ghost start: Seq<char> = named@;
    let mut i: usize = 0;
    let mut only_underscores = true;
    while i < t.len()
        invariant
            i <= t@.len(),
            mapped == Seq::new(t@.len(), |i: int| name_char(t@[i])),
            named@ == start + mapped.take(i as int),
            only_underscores == all_underscores(named@),
        decreases t.len() - i,
    {
        let c = t[i];
        let m = if ('0' <= c && c <= '9') || ('a' <= c && c <= 'z') || ('A' <= c && c <= 'Z') { c } else { '_' };
        let ghost before = named@;
        named.push(m);
        assert(mapped.take(i + 1) =~= mapped.take(i as int).push(m));
        if m != '_' {
            only_underscores = false;
            assert(named@[named@.len() - 1] != '_');
        } else {
            assert(all_underscores(named@) == all_underscores(before)) by {
                if all_underscores(before) {
                    assert forall|k: int| 0 <= k < named@.len() implies named@[k] == '_' by {
                        if k < before.len() {
                            assert(named@[k] == before[k]);
                        }
                    }
                } else {
                    let k = choose|k: int| 0 <= k < before.len() && before[k] != '_';
                    assert(named@[k] == before[k]);
                }
            }
        }
        i = i + 1;
    }
    assert(mapped.take(i as int) =~= mapped);
    proof {
        if lead {
            assert(mapped.len() > 0 && '0' <= mapped[0] <= '9');
        } else {
            assert(!(mapped.len() > 0 && '0' <= mapped[0] <= '9'));
        }
    }
    if named.len() == 0 || only_underscores {
        return None;
    }
    Some(string_from_chars(named.as_slice()))
}

/// The field names of a header row, failing at the first unusable header cell.
pub open spec fn names_from(header: Seq<Seq<char>>, i: int) -> Result<Seq<Seq<char>>, TableError<Seq<char>>>
    decreases header.len() - i,
{
    if i < 0 || i >= header.len() {
        Ok(seq![])
    } else {
        match column_name_spec(header[i]) {
            None => Err(TableError::BadHeader(header[i])),
            Some(n) => match names_from(header, i + 1) {
                Err(e) => Err(e),
                Ok(rest) => Ok(seq![n] + rest),
            },
        }
    }
}

/// The first name from `i` on that an earlier name repeats.
pub open spec fn duplicate_from(names: Seq<Seq<char>>, i: int) -> Option<Seq<char>>
    decreases names.len() - i,
{
    if i < 0 || i >= names.len() {
        None
    } else if names.take(i).contains(names[i]) {
        Some(names[i])
    } else {
        duplicate_from(names, i + 1)
    }
}

/// The first data row from `i` on whose width is not `n`: its index and width.
pub open spec fn width_from(data: Seq<Seq<Seq<char>>>, i: int, n: nat) -> Option<(int, nat)>
    decreases data.len() - i,
{
    if i < 0 || i >= data.len() {
        None
    } else if data[i].len() != n {
        Some((i, data[i].len()))
    } else {
        width_from(data, i + 1, n)
    }
}

/// The first row from `i` on whose cell in column `j` is blank.
pub open spec fn blank_row_from(data: Seq<Seq<Seq<char>>>, j: int, i: int) -> Option<int>
    decreases data.len() - i,
{
    if i < 0 || i >= data.len() {
        None
    } else if trim_spec(data[i][j]).len() == 0 {
        Some(i)
    } else {
        blank_row_from(data, j, i + 1)
    }
}

/// The first column from `j` on that has a blank cell: the column and the first such row.
pub open spec fn blank_from(data: Seq<Seq<Seq<char>>>, ncols: int, j: int) -> Option<(int, int)>
    decreases ncols - j,
{
    if j < 0 || j >= ncols {
        None
    } else {
        match blank_row_from(data, j, 0) {
            Some(i) => Some((j, i)),
            None => blank_from(data, ncols, j + 1),
        }
    }
}

pub open spec fn lower(c: char) -> char {
    if 'A' <= c <= 'Z' { ((c as u32) + 32) as char } else { c }
}

pub open spec fn is_digit_c(c: char) -> bool {
    '0' <= c <= '9'
}

/// How many digits start at `p`.
pub open spec fn digits_at(t: Seq<char>, p: int) -> nat
    decreases t.len() - p,
{
    if 0 <= p < t.len() && is_digit_c(t[p]) {
        1 + digits_at(t, p + 1)
    } else {
        0
    }
}

/// Decimal syntax: digits with at most one dot and at least one digit, then optionally
/// `e` or `E`, a sign and at least one digit.
pub open spec fn decimal_syntax(t: Seq<char>) -> bool {
    let d1 = digits_at(t, 0);
    let has_dot = d1 < t.len() && t[d1 as int] == '.';
    let d2: nat = if has_dot { digits_at(t, d1 as int + 1) } else { 0 };
    let m: int = if has_dot { d1 as int + 1 + d2 } else { d1 as int };
    &&& d1 + d2 > 0
    &&& (m == t.len() || {
        &&& (t[m] == 'e' || t[m] == 'E')
        &&& {
            let es: int = if m + 1 < t.len() && (t[m + 1] == '+' || t[m + 1] == '-') { 1 } else { 0 };
            let d3 = digits_at(t, m + 1 + es);
            d3 > 0 && m + 1 + es + d3 == t.len()
        }
    })
}

/// Whether `f64::from_str` reads the text: an optional sign, then `inf`, `infinity` or
/// `nan` in any case, or decimal syntax.
pub open spec fn number_text(t: Seq<char>) -> bool {
    let body = if t.len() > 0 && (t[0] == '+' || t[0] == '-') { t.skip(1) } else { t };
    let low = Seq::new(body.len(), |i: int| lower(body[i]));
    ||| low == seq!['i', 'n', 'f']
    ||| low == seq!['i', 'n', 'f', 'i', 'n', 'i', 't', 'y']
    ||| low == seq!['n', 'a', 'n']
    ||| decimal_syntax(body)
}

/// Distinct values in order of first appearance.
pub open spec fn distinct_seen(cells: Seq<Seq<char>>) -> Seq<Seq<char>>
    decreases cells.len(),
{
    if cells.len() == 0 {
        seq![]
    } else {
        let s = distinct_seen(cells.drop_last());
        if s.contains(cells.last()) { s } else { s.push(cells.last()) }
    }
}

/// The index of `x` in `s`, or `s.len()` when absent.
pub open spec fn position(s: Seq<Seq<char>>, x: Seq<char>) -> nat
    decreases s.len(),
{
    if s.len() == 0 {
        0
    } else if s[0] == x {
        0
    } else {
        1 + position(s.skip(1), x)
    }
}

/// Each cell's code: the index of its value among the distinct values of the column in
/// order of first appearance.
pub open spec fn codes_spec(cells: Seq<Seq<char>>) -> Seq<nat> {
    Seq::new(cells.len(), |k: int| position(distinct_seen(cells.take(k)), cells[k]))
}

/// A column of a table: numbers (the trimmed cell texts, all readable as `f64`), or the
/// codes of its distinct values.
pub enum Column {
    Numbers(Vec<String>),
    Codes(Vec<usize>),
}

pub enum ColumnV {
    Numbers(Seq<Seq<char>>),
    Codes(Seq<nat>),
}

pub open spec fn column_view(c: Column) -> ColumnV {
    match c {
        Column::Numbers(v) => ColumnV::Numbers(strings_view(v@)),
        Column::Codes(v) => ColumnV::Codes(Seq::new(v@.len(), |i: int| v@[i] as nat)),
    }
}

/// The cells of column `j`.
pub open spec fn column_cells(data: Seq<Seq<Seq<char>>>, j: int) -> Seq<Seq<char>> {
    Seq::new(data.len(), |i: int| data[i][j])
}

/// A column as read: numbers when every trimmed cell reads as a number, else codes.
pub open spec fn column_spec(data: Seq<Seq<Seq<char>>>, j: int) -> ColumnV {
    let cells = column_cells(data, j);
    let trimmed = Seq::new(cells.len(), |i: int| trim_spec(cells[i]));
    if forall|i: int| 0 <= i < trimmed.len() ==> #[trigger] number_text(trimmed[i]) {
        ColumnV::Numbers(trimmed)
    } else {
        ColumnV::Codes(codes_spec(cells))
    }
}

/// The columns once every check has passed, or the first blank cell.
pub open spec fn after_widths(data: Seq<Seq<Seq<char>>>, names: Seq<Seq<char>>) -> Result<
    (Seq<Seq<char>>, Seq<ColumnV>),
    TableError<Seq<char>>,
> {
    match blank_from(data, names.len() as int, 0) {
        Some((j, i)) => Err(TableError::EmptyCell((i + 2) as usize, names[j])),
        None => Ok((names, Seq::new(names.len(), |j: int| column_spec(data, j)))),
    }
}

/// The table once the names are known to be distinct.
pub open spec fn after_names(data: Seq<Seq<Seq<char>>>, names: Seq<Seq<char>>) -> Result<
    (Seq<Seq<char>>, Seq<ColumnV>),
    TableError<Seq<char>>,
> {
    match width_from(data, 0, names.len()) {
        Some((i, w)) => Err(TableError::RowWidth((i + 2) as usize, w as usize, names.len() as usize)),
        None => after_widths(data, names),
    }
}

/// A table from its rows: the header gives the column names, which must be usable and
/// distinct; every data row needs one non-blank cell per column.
pub open spec fn table_spec(rows: Seq<Seq<Seq<char>>>) -> Result<(Seq<Seq<char>>, Seq<ColumnV>), TableError<Seq<char>>> {
    if rows.len() == 0 {
        Err(TableError::Empty)
    } else if rows.len() == 1 {
        Err(TableError::NoDataRows)
    } else {
        match names_from(rows[0], 0) {
            Err(e) => Err(e),
            Ok(names) => match duplicate_from(names, 0) {
                Some(n) => Err(TableError::DuplicateColumn(n)),
                None => after_names(rows.skip(1), names),
            },
        }
    }
}

proof fn lemma_width_none(data: Seq<Seq<Seq<char>>>, k: int, n: nat)
    requires
        0 <= k,
        width_from(data, k, n) is None,
    ensures
        forall|i: int| k <= i < data.len() ==> #[trigger] data[i].len() == n,
    decreases data.len() - k,
{
    if k < data.len() {
        lemma_width_none(data, k + 1, n);
    }
}


/// The field names of the header cells from `i` on, or the first unusable one.
fn names_at(header: &Vec<String>, i: usize) -> (r: Result<Vec<String>, TableError>)
    requires
        i <= header@.len(),
    ensures
        match r {
            Ok(ns) => names_from(strings_view(header@), i as int) == Ok::<
                Seq<Seq<char>>,
                TableError<Seq<char>>,
            >(strings_view(ns@)),
            Err(e) => names_from(strings_view(header@), i as int) == Err::<Seq<Seq<char>>, TableError<Seq<char>>>(
                e@,
            ),
        },
    decreases header@.len() - i,
{
    let ghost h = strings_view(header@);
    if i == header.len() {
        let empty: Vec<String> = Vec::new();
        assert(strings_view(empty@) =~= Seq::<Seq<char>>::empty());
        return Ok(empty);
    }
    assert(h[i as int] == header@[i as int]@);
    match column_name(header[i].as_str()) {
        None => Err(TableError::BadHeader(header[i].clone())),
        Some(n) => match names_at(header, i + 1) {
            Err(e) => Err(e),
            Ok(rest) => {
                let mut ns = rest;
                let ghost tail = ns@;
                ns.insert(0, n);
                assert(strings_view(ns@) =~= seq![n@] + strings_view(tail));
                Ok(ns)
            },
        },
    }
}

/// The first name that an earlier name repeats.
fn first_duplicate(names: &Vec<String>) -> (r: Option<String>)
    ensures
        match r {
            Some(n) => duplicate_from(strings_view(names@), 0) == Some(n@),
            None => duplicate_from(strings_view(names@), 0) is None,
        },
{
    let ghost ns = strings_view(names@);
    let mut i: usize = 0;
    while i < names.len()
        invariant
            ns == strings_view(names@),
            i <= names@.len(),
            duplicate_from(ns, 0) == duplicate_from(ns, i as int),
        decreases names.len() - i,
    {
        let mut k: usize = 0;
        let mut found = false;
        while k < i
            invariant
                ns == strings_view(names@),
                k <= i < names@.len(),
                found ==> ns.take(i as int).contains(ns[i as int]),
                !found ==> forall|q: int| 0 <= q < k ==> #[trigger] ns[q] != ns[i as int],
            decreases i - k,
        {
            if str_eq(names[k].as_str(), names[i].as_str()) {
                assert(ns.take(i as int)[k as int] == ns[i as int]);
                found = true;
            }
            k = k + 1;
        }
        if !found {
            assert(!ns.take(i as int).contains(ns[i as int])) by {
                if ns.take(i as int).contains(ns[i as int]) {
                    let q = choose|q: int| 0 <= q < ns.take(i as int).len() && ns.take(i as int)[q] == ns[i as int];
                    assert(ns[q] != ns[i as int]);
                }
            }
        }
        if found {
            return Some(names[i].clone());
        }
        i = i + 1;
    }
    None
}

/// How many digits start at `p`.
fn count_digits(t: &[char], p: usize) -> (n: usize)
    requires
        p <= t@.len(),
    ensures
        n == digits_at(t@, p as int),
        p + n <= t@.len(),
{
    let mut q: usize = p;
    while q < t.len() && '0' <= t[q] && t[q] <= '9'
        invariant
            p <= q <= t@.len(),
            digits_at(t@, p as int) == (q - p) + digits_at(t@, q as int),
        decreases t@.len() - q,
    {
        q = q + 1;
    }
    q - p
}

/// Whether the text is in decimal syntax.
fn decimal_text_ok(t: &[char]) -> (r: bool)
    ensures
        r == decimal_syntax(t@),
{
    let d1 = count_digits(t, 0);
    let has_dot = d1 < t.len() && t[d1] == '.';
    let d2: usize = if has_dot {
        count_digits(t, d1 + 1)
    } else {
        0
    };
    let m: usize = if has_dot {
        d1 + 1 + d2
    } else {
        d1
    };
    if d1 + d2 == 0 {
        return false;
    }
    if m == t.len() {
        return true;
    }
    if !(t[m] == 'e' || t[m] == 'E') {
        return false;
    }
    let es: usize = if m + 1 < t.len() && (t[m + 1] == '+' || t[m + 1] == '-') {
        1
    } else {
        0
    };
    let d3 = count_digits(t, m + 1 + es);
    d3 > 0 && m + 1 + es + d3 == t.len()
}

/// Lowercases ASCII letters.
pub(crate) fn lower_char(c: char) -> (r: char)
    ensures
        r == lower(c),
{
    if 'A' <= c && c <= 'Z' {
        ((c as u8) + 32) as char
    } else {
        c
    }
}

/// Whether the lowercased text equals `word`.
fn lower_is(t: &[char], from: usize, word: &[char]) -> (r: bool)
    requires
        from <= t@.len(),
    ensures
        r == (Seq::new((t@.len() - from) as nat, |i: int| lower(t@[from + i])) == word@),
{
    let ghost low = Seq::new((t@.len() - from) as nat, |i: int| lower(t@[from + i]));
    if t.len() - from != word.len() {
        assert(low.len() != word@.len());
        return false;
    }
    let n = t.len();
    let mut i: usize = 0;
    while i < word.len()
        invariant
            n == t@.len(),
            from <= t@.len(),
            low == Seq::new((t@.len() - from) as nat, |i: int| lower(t@[from + i])),
            low.len() == word@.len(),
            t@.len() - from == word@.len(),
            i <= word@.len(),
            forall|k: int| 0 <= k < i ==> low[k] == word@[k],
        decreases word.len() - i,
    {
        assert(from + i < t@.len());
        if lower_char(t[from + i]) != word[i] {
            assert(low[i as int] != word@[i as int]);
            return false;
        }
        i = i + 1;
    }
    assert(low =~= word@);
    true
}

/// Whether `f64::from_str` reads the text.
fn number_text_exec(t: &[char]) -> (r: bool)
    ensures
        r == number_text(t@),
{
    let signed = t.len() > 0 && (t[0] == '+' || t[0] == '-');
    let from: usize = if signed {
        1
    } else {
        0
    };
    let ghost body = if t@.len() > 0 && (t@[0] == '+' || t@[0] == '-') {
        t@.skip(1)
    } else {
        t@
    };
    assert(body =~= t@.skip(from as int));
    let ghost low = Seq::new(body.len(), |i: int| lower(body[i]));
    assert(low =~= Seq::new((t@.len() - from) as nat, |i: int| lower(t@[from + i])));
    let inf: [char; 3] = ['i', 'n', 'f'];
    let infinity: [char; 8] = ['i', 'n', 'f', 'i', 'n', 'i', 't', 'y'];
    let nan: [char; 3] = ['n', 'a', 'n'];
    assert(inf@ =~= seq!['i', 'n', 'f']);
    assert(infinity@ =~= seq!['i', 'n', 'f', 'i', 'n', 'i', 't', 'y']);
    assert(nan@ =~= seq!['n', 'a', 'n']);
    if lower_is(t, from, inf.as_slice()) || lower_is(t, from, infinity.as_slice()) || lower_is(t, from, nan.as_slice()) {
        return true;
    }
    let rest = copy_chars(t, from, t.len());
    assert(rest@ =~= body);
    decimal_text_ok(rest.as_slice())
}

proof fn lemma_position(s: Seq<Seq<char>>, x: Seq<char>, p: int)
    requires
        0 <= p <= s.len(),
        forall|q: int| 0 <= q < p ==> s[q] != x,
        p == s.len() || s[p] == x,
    ensures
        position(s, x) == p,
    decreases s.len(),
{
    if s.len() > 0 && p > 0 {
        lemma_position(s.skip(1), x, p - 1);
    }
}

/// The code of each cell: the index of its value among the distinct values in order of
/// first appearance.
fn codes_of(cells: &Vec<Vec<char>>) -> (codes: Vec<usize>)
    ensures
        Seq::new(codes@.len(), |i: int| codes@[i] as nat) == codes_spec(cells@.map_values(|c: Vec<char>| c@)),
{
    let ghost cs = cells@.map_values(|c: Vec<char>| c@);
    let mut seen: Vec<Vec<char>> = Vec::new();
    let mut codes: Vec<usize> = Vec::new();
    let mut k: usize = 0;
    while k < cells.len()
        invariant
            cs == cells@.map_values(|c: Vec<char>| c@),
            k <= cells@.len(),
            codes@.len() == k,
            seen@.map_values(|c: Vec<char>| c@) == distinct_seen(cs.take(k as int)),
            seen@.len() <= k,
            forall|i: int| 0 <= i < k ==> codes@[i] as nat == #[trigger] codes_spec(cs)[i],
        decreases cells.len() - k,
    {
        let ghost sv = seen@.map_values(|c: Vec<char>| c@);
        let mut p: usize = 0;
        while p < seen.len() && !chars_eq(seen[p].as_slice(), cells[k].as_slice())
            invariant
                cs == cells@.map_values(|c: Vec<char>| c@),
                sv == seen@.map_values(|c: Vec<char>| c@),
                k < cells@.len(),
                p <= seen@.len(),
                forall|q: int| 0 <= q < p ==> sv[q] != cs[k as int],
            decreases seen.len() - p,
        {
            p = p + 1;
        }
        proof {
            lemma_position(sv, cs[k as int], p as int);
            assert(cs.take(k + 1).drop_last() =~= cs.take(k as int));
            assert(cs.take(k as int + 1).last() == cs[k as int]);
            assert(codes_spec(cs)[k as int] == position(distinct_seen(cs.take(k as int)), cs[k as int]));
            if p < sv.len() {
                assert(sv[p as int] == cs[k as int]);
                assert(sv.contains(cs[k as int]));
            } else {
                assert(!sv.contains(cs[k as int]));
            }
        }
        codes.push(p);
        if p == seen.len() {
            let c = copy_chars(cells[k].as_slice(), 0, cells[k].len());
            assert(c@ =~= cs[k as int]);
            seen.push(c);
            assert(seen@.map_values(|c: Vec<char>| c@) =~= sv.push(cs[k as int]));
        }
        k = k + 1;
    }
    assert(cs.take(k as int) =~= cs);
    assert(Seq::new(codes@.len(), |i: int| codes@[i] as nat) =~= codes_spec(cs));
    codes
}


/// Column `j` of the data rows (every row after the first).
fn column_at(rows: &Vec<Vec<String>>, j: usize) -> (c: Column)
    requires
        rows@.len() >= 1,
        forall|i: int| 1 <= i < rows@.len() ==> j < (#[trigger] rows@[i])@.len(),
    ensures
        column_view(c) == column_spec(rows_view(rows@).skip(1), j as int),
{
    let ghost data = rows_view(rows@).skip(1);
    let ghost cells_s = column_cells(data, j as int);
    let ghost trimmed_s = Seq::new(cells_s.len(), |i: int| trim_spec(cells_s[i]));
    let mut cells: Vec<Vec<char>> = Vec::new();
    let mut trimmed: Vec<String> = Vec::new();
    let mut all_numbers = true;
    let mut i: usize = 1;
    while i < rows.len()
        invariant
            data == rows_view(rows@).skip(1),
            cells_s == column_cells(data, j as int),
            trimmed_s == Seq::new(cells_s.len(), |i: int| trim_spec(cells_s[i])),
            rows@.len() >= 1,
            forall|i: int| 1 <= i < rows@.len() ==> j < (#[trigger] rows@[i])@.len(),
            1 <= i <= rows@.len(),
            cells@.map_values(|c: Vec<char>| c@) == cells_s.take(i - 1),
            strings_view(trimmed@) == trimmed_s.take(i - 1),
            all_numbers == forall|k: int| 0 <= k < i - 1 ==> #[trigger] number_text(trimmed_s[k]),
        decreases rows.len() - i,
    {
        assert(data[i - 1] == strings_view(rows@[i as int]@));
        assert(cells_s[i - 1] == rows@[i as int]@[j as int]@);
        let cs = chars_of(rows[i][j].as_str());
        let t = trim_chars(cs.as_slice());
        let ok = number_text_exec(t.as_slice());
        let ghost before_all = all_numbers;
        all_numbers = all_numbers && ok;
        proof {
            if !ok {
                assert(!number_text(trimmed_s[i - 1]));
            }
            if before_all && ok {
                assert forall|k: int| 0 <= k < i ==> #[trigger] number_text(trimmed_s[k]) by {
                    if k < i - 1 {
                    }
                }
            }
        }
        let ghost old_cells = cells@;
        let ghost old_trimmed = trimmed@;
        cells.push(cs);
        trimmed.push(string_from_chars(t.as_slice()));
        assert(cells@.map_values(|c: Vec<char>| c@) =~= old_cells.map_values(|c: Vec<char>| c@).push(cells_s[i - 1]));
        assert(cells_s.take(i as int) =~= cells_s.take(i - 1).push(cells_s[i - 1]));
        assert(strings_view(trimmed@) =~= strings_view(old_trimmed).push(trimmed_s[i - 1]));
        assert(trimmed_s.take(i as int) =~= trimmed_s.take(i - 1).push(trimmed_s[i - 1]));
        i = i + 1;
    }
    assert(cells_s.take(i - 1) =~= cells_s);
    assert(trimmed_s.take(i - 1) =~= trimmed_s);
    if all_numbers {
        Column::Numbers(trimmed)
    } else {
        let codes = codes_of(&cells);
        Column::Codes(codes)
    }
}

/// A table as read: its column names and columns.
pub struct TableText {
    pub names: Vec<String>,
    pub columns: Vec<Column>,
}

pub open spec fn table_view(t: TableText) -> (Seq<Seq<char>>, Seq<ColumnV>) {
    (strings_view(t.names@), Seq::new(t.columns@.len(), |j: int| column_view(t.columns@[j])))
}

/// A table from its rows: the first row names the columns, every other row is data.
pub fn table_from_rows(rows: &Vec<Vec<String>>) -> (r: Result<TableText, TableError>)
    ensures
        match r {
            Ok(t) => table_spec(rows_view(rows@)) == Ok::<(Seq<Seq<char>>, Seq<ColumnV>), TableError<Seq<char>>>(
                table_view(t),
            ),
            Err(e) => table_spec(rows_view(rows@)) == Err::<(Seq<Seq<char>>, Seq<ColumnV>), TableError<Seq<char>>>(
                e@,
            ),
        },
{
    let ghost all = rows_view(rows@);
    if rows.len() == 0 {
        return Err(TableError::Empty);
    }
    if rows.len() == 1 {
        return Err(TableError::NoDataRows);
    }
    assert(all[0] == strings_view(rows@[0]@));
    let names = match names_at(&rows[0], 0) {
        Err(e) => {
            return Err(e);
        },
        Ok(n) => n,
    };
    let ghost ns = strings_view(names@);
    match first_duplicate(&names) {
        Some(n) => {
            return Err(TableError::DuplicateColumn(n));
        },
        None => {},
    }
    let ghost data = all.skip(1);
    assert(table_spec(all) == after_names(data, ns));
    let ncols = names.len();
    let mut i: usize = 1;
    while i < rows.len()
        invariant
            all == rows_view(rows@),
            data == all.skip(1),
            ns == strings_view(names@),
            ncols == names@.len(),
            1 <= i <= rows@.len(),
            table_spec(all) == after_names(data, ns),
            width_from(data, 0, ncols as nat) == width_from(data, i - 1, ncols as nat),
        decreases rows.len() - i,
    {
        assert(data[i - 1] == strings_view(rows@[i as int]@));
        if rows[i].len() != ncols {
            return Err(TableError::RowWidth(i + 1, rows[i].len(), ncols));
        }
        i = i + 1;
    }
    assert(table_spec(all) == after_widths(data, ns));
    proof {
        lemma_width_none(data, 0, ncols as nat);
        assert forall|i: int| 1 <= i < rows@.len() implies ncols == (#[trigger] rows@[i])@.len() by {
            assert(data[i - 1] == strings_view(rows@[i]@));
        }
    }
    let mut j: usize = 0;
    while j < ncols
        invariant
            all == rows_view(rows@),
            data == all.skip(1),
            ns == strings_view(names@),
            ncols == names@.len(),
            rows@.len() >= 2,
            forall|i: int| 1 <= i < rows@.len() ==> ncols == (#[trigger] rows@[i])@.len(),
            j <= ncols,
            table_spec(all) == after_widths(data, ns),
            blank_from(data, ncols as int, 0) == blank_from(data, ncols as int, j as int),
        decreases ncols - j,
    {
        let mut i: usize = 1;
        while i < rows.len()
            invariant
                all == rows_view(rows@),
                data == all.skip(1),
                forall|i: int| 1 <= i < rows@.len() ==> ncols == (#[trigger] rows@[i])@.len(),
                ns == strings_view(names@),
                ncols == names@.len(),
                j < ncols,
                1 <= i <= rows@.len(),
                table_spec(all) == after_widths(data, ns),
                blank_from(data, ncols as int, 0) == blank_from(data, ncols as int, j as int),
                blank_row_from(data, j as int, 0) == blank_row_from(data, j as int, i - 1),
            decreases rows.len() - i,
        {
            assert(data[i - 1] == strings_view(rows@[i as int]@));
            assert(data[i - 1][j as int] == rows@[i as int]@[j as int]@);
            let cs = chars_of(rows[i][j].as_str());
            let t = trim_chars(cs.as_slice());
            if t.len() == 0 {
                assert(blank_from(data, ncols as int, j as int) == Some((j as int, i - 1)));
                assert(ns[j as int] == names@[j as int]@);
                return Err(TableError::EmptyCell(i + 1, names[j].clone()));
            }
            i = i + 1;
        }
        j = j + 1;
    }
    assert(blank_from(data, ncols as int, j as int) is None);
    let mut columns: Vec<Column> = Vec::new();
    let mut k: usize = 0;
    while k < ncols
        invariant
            all == rows_view(rows@),
            data == all.skip(1),
            rows@.len() >= 2,
            forall|i: int| 1 <= i < rows@.len() ==> ncols == (#[trigger] rows@[i])@.len(),
            k <= ncols,
            columns@.len() == k,
            forall|q: int| 0 <= q < k ==> column_view(#[trigger] columns@[q]) == column_spec(data, q),
        decreases ncols - k,
    {
        let col = column_at(rows, k);
        columns.push(col);
        k = k + 1;
    }
    let t = TableText { names, columns };
    assert(table_view(t).1 =~= Seq::new(ns.len(), |j: int| column_spec(data, j)));
    Ok(t)
}

/// Reads a table from CSV text: the header row names the columns; a column whose
/// trimmed cells all read as numbers keeps those texts, any other holds the code of
/// each cell's value in order of first appearance.
pub fn read_table_text(text: &str) -> (r: Result<TableText, TableError>)
    ensures
        match csv_from(text@, 0, (seq![], seq![], seq![], false)) {
            None => r == Err::<TableText, TableError>(TableError::UnterminatedQuote),
            Some(rows) => match r {
                Ok(t) => table_spec(rows) == Ok::<(Seq<Seq<char>>, Seq<ColumnV>), TableError<Seq<char>>>(
                    table_view(t),
                ),
                Err(e) => table_spec(rows) == Err::<(Seq<Seq<char>>, Seq<ColumnV>), TableError<Seq<char>>>(
                    e@,
                ),
            },
        },
{
    match parse_rows(text) {
        Err(e) => Err(e),
        Ok(rows) => table_from_rows(&rows),
    }
}

} // verus!
