use vstd::prelude::*;
use vstd::string::{StrSliceExecFns, StringExecFns};
use crate::grammar::{is_space, is_ws};
use crate::http::Operation;
use crate::text::chars_of;

verus! {

/// First `/` at or after `i`, or the end of `s`.
pub open spec fn slash_from(s: Seq<char>, i: int) -> int
    decreases s.len() - i,
{
    if i < 0 || i >= s.len() || s[i] == '/' {
        i
    } else {
        slash_from(s, i + 1)
    }
}

/// A character that ends the path: white space or `;`, and for a POST also `?`.
pub open spec fn is_path_stop(c: char, op: Operation) -> bool {
    is_ws(c) || c == ';' || (op == Operation::Post && c == '?')
}

pub open spec fn path_end(s: Seq<char>, i: int, op: Operation) -> int
    decreases s.len() - i,
{
    if i < 0 || i >= s.len() || is_path_stop(s[i], op) {
        i
    } else {
        path_end(s, i + 1, op)
    }
}

/// The path of a URL of the shape `scheme//host/path`: scheme and host are
/// non-empty runs without `/`, and the path runs from the slash after the host
/// to the first character that ends it, holding at least one character.
pub open spec fn path_capture(s: Seq<char>, op: Operation) -> Option<Seq<char>> {
    let f = slash_from(s, 0);
    let g = slash_from(s, f + 2);
    let h = path_end(s, g + 1, op);
    if 1 <= f && f + 1 < s.len() && s[f + 1] == '/' && f + 2 < g < s.len() && g + 1 < h {
        Some(s.subrange(g + 1, h))
    } else {
        None
    }
}

/// The resource a request for `url` names: `/` and its path, or `/` alone.
pub open spec fn resource_of(url: Seq<char>, op: Operation) -> Seq<char> {
    match path_capture(url, op) {
        Some(p) => seq!['/'] + p,
        None => seq!['/'],
    }
}

fn next_slash(s: &Vec<char>, i: usize) -> (r: usize)
    requires
        i <= s.len(),
    ensures
        r == slash_from(s@, i as int),
        i <= r <= s.len(),
{
    let mut k = i;
    while k < s.len() && s[k] != '/'
        invariant
            i <= k <= s.len(),
            slash_from(s@, i as int) == slash_from(s@, k as int),
        decreases s.len() - k,
    {
        k += 1;
    }
    k
}

fn path_stop(c: char, op: Operation) -> (r: bool)
    ensures
        r == is_path_stop(c, op),
{
    is_space(c) || c == ';' || (op == Operation::Post && c == '?')
}

fn next_stop(s: &Vec<char>, i: usize, op: Operation) -> (r: usize)
    requires
        i <= s.len(),
    ensures
        r == path_end(s@, i as int, op),
        i <= r <= s.len(),
{
    let mut k = i;
    while k < s.len() && !path_stop(s[k], op)
        invariant
            i <= k <= s.len(),
            path_end(s@, i as int, op) == path_end(s@, k as int, op),
        decreases s.len() - k,
    {
        k += 1;
    }
    k
}

/// The resource that a request for `url` with `operation` names.
pub fn extract_path(url: &str, operation: Operation) -> (r: String)
    ensures
        r@ == resource_of(url@, operation),
{
    proof {
        reveal_strlit("/");
    }
    let s = chars_of(url);
    let mut out = String::from_str("/");
    let f = next_slash(&s, 0);
    if f >= 1 && s.len() - f > 1 && s[f + 1] == '/' {
        let g = next_slash(&s, f + 2);
        if g > f + 2 && g < s.len() {
            let h = next_stop(&s, g + 1, operation);
            if h > g + 1 {
                out.append(url.substring_char(g + 1, h));
            }
        }
    }
    assert(out@ =~= resource_of(url@, operation));
    out
}

/// The resource of a GET for `url`: its path up to white space or `;`.
pub fn get_resource(url: &str) -> (r: String)
    ensures
        r@ == resource_of(url@, Operation::Get),
{
    extract_path(url, Operation::Get)
}

/// The resource of a POST for `url`: its path up to white space, `;` or `?`.
pub fn post_resource(url: &str) -> (r: String)
    ensures
        r@ == resource_of(url@, Operation::Post),
{
    extract_path(url, Operation::Post)
}

} // verus!
