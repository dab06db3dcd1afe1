use vstd::prelude::*;

use crate::graph::Val;
use crate::strs::{chars_of, string_from_chars};

verus! {

/// One plotted series: a line or a scatter, its legend label, and the traced x and y values.
#[derive(Debug, Clone)]
pub struct SeriesSpec {
    pub scatter: bool,
    pub label: Option<String>,
    pub x: Val,
    pub y: Val,
}

/// A figure: where it is saved (if anywhere), its title and axis labels, and its series.
#[derive(Debug, Clone)]
pub struct FigureSpec {
    pub path: Option<String>,
    pub title: Option<String>,
    pub xlabel: Option<String>,
    pub ylabel: Option<String>,
    pub series: Vec<SeriesSpec>,
}

impl Default for FigureSpec {
    fn default() -> (f: FigureSpec)
        ensures
            f.path is None,
            f.title is None,
            f.xlabel is None,
            f.ylabel is None,
            f.series@.len() == 0,
    {
        FigureSpec { path: None, title: None, xlabel: None, ylabel: None, series: Vec::new() }
    }
}

/// The SVG text of one character.
pub open spec fn svg_char(c: char) -> Seq<char> {
    if c == '&' {
        seq!['&', 'a', 'm', 'p', ';']
    } else if c == '<' {
        seq!['&', 'l', 't', ';']
    } else if c == '>' {
        seq!['&', 'g', 't', ';']
    } else if c == '"' {
        seq!['&', 'q', 'u', 'o', 't', ';']
    } else {
        seq![c]
    }
}

/// Text made safe for SVG markup, character by character.
pub open spec fn svg_escape(s: Seq<char>) -> Seq<char>
    decreases s.len(),
{
    if s.len() == 0 {
        seq![]
    } else {
        svg_escape(s.drop_last()) + svg_char(s.last())
    }
}

/// Escapes `&`, `<`, `>` and `"` for SVG markup.
pub fn escape(s: &str) -> (r: String)
    ensures
        r@ == svg_escape(s@),
{
    let cs = chars_of(s);
    let mut out: Vec<char> = Vec::new();
    let mut i: usize = 0;
    while i < cs.len()
        invariant
            cs@ == s@,
            i <= cs@.len(),
            out@ == svg_escape(cs@.take(i as int)),
        decreases cs.len() - i,
    {
        let c = cs[i];
        assert(cs@.take(i + 1).drop_last() =~= cs@.take(i as int));
        if c == '&' {
            out.push('&');
            out.push('a');
            out.push('m');
            out.push('p');
            out.push(';');
        } else if c == '<' {
            out.push('&');
            out.push('l');
            out.push('t');
            out.push(';');
        } else if c == '>' {
            out.push('&');
            out.push('g');
            out.push('t');
            out.push(';');
        } else if c == '"' {
            out.push('&');
            out.push('q');
            out.push('u');
            out.push('o');
            out.push('t');
            out.push(';');
        } else {
            out.push(c);
        }
        assert(out@ =~= svg_escape(cs@.take(i + 1)));
        i = i + 1;
    }
    assert(cs@.take(i as int) =~= cs@);
    string_from_chars(out.as_slice())
}

} // verus!
