use vstd::prelude::*;

use crate::strs::chars_of;

verus! {

/// The bracket depth after reading `cs` from index `i`, starting at depth `depth`, inside a
/// string literal or not, inside a comment or not: brackets in strings and comments do not
/// count, `#` starts a comment outside strings, and a line end closes both.
pub open spec fn depth_from(cs: Seq<char>, i: int, depth: int, in_string: bool, in_comment: bool) -> int
    decreases cs.len() - i,
{
    if i < 0 || i >= cs.len() {
        depth
    } else {
        let c = cs[i];
        if c == '\n' {
            depth_from(cs, i + 1, depth, false, false)
        } else if in_comment {
            depth_from(cs, i + 1, depth, in_string, true)
        } else if c == '"' {
            depth_from(cs, i + 1, depth, !in_string, false)
        } else if in_string {
            depth_from(cs, i + 1, depth, true, false)
        } else if c == '#' {
            depth_from(cs, i + 1, depth, false, true)
        } else if c == '(' || c == '[' || c == '{' {
            depth_from(cs, i + 1, depth + 1, false, false)
        } else if c == ')' || c == ']' || c == '}' {
            depth_from(cs, i + 1, depth - 1, false, false)
        } else {
            depth_from(cs, i + 1, depth, false, false)
        }
    }
}

/// Whether a repl chunk opens more brackets than it closes, so that more lines are needed.
pub fn unbalanced(chunk: &str) -> (r: bool)
    requires
        chunk@.len() <= i64::MAX,
    ensures
        r == (depth_from(chunk@, 0, 0, false, false) > 0),
{
    let cs = chars_of(chunk);
    let mut depth: i64 = 0;
    let mut in_string = false;
    let mut in_comment = false;
    let mut i: usize = 0;
    while i < cs.len()
        invariant
            cs@ == chunk@,
            cs@.len() <= i64::MAX,
            i <= cs@.len(),
            -(i as int) <= depth <= i as int,
            depth_from(cs@, 0, 0, false, false) == depth_from(cs@, i as int, depth as int, in_string, in_comment),
        decreases cs.len() - i,
    {
        let c = cs[i];
        if c == '\n' {
            in_string = false;
            in_comment = false;
        } else if in_comment {
        } else if c == '"' {
            in_string = !in_string;
        } else if in_string {
        } else if c == '#' {
            in_comment = true;
        } else if c == '(' || c == '[' || c == '{' {
            depth = depth + 1;
        } else if c == ')' || c == ']' || c == '}' {
            depth = depth - 1;
        }
        i = i + 1;
    }
    depth > 0
}

} // verus!
