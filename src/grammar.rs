use vstd::prelude::*;

verus! {

/// Unicode white space (the `White_Space` property).
pub open spec fn is_ws(c: char) -> bool {
    let u = c as u32;
    ||| 0x9 <= u <= 0xD
    ||| u == 0x20
    ||| u == 0x85
    ||| u == 0xA0
    ||| u == 0x1680
    ||| 0x2000 <= u <= 0x200A
    ||| u == 0x2028
    ||| u == 0x2029
    ||| u == 0x202F
    ||| u == 0x205F
    ||| u == 0x3000
}

/// A character that may stand in a header name: neither white space nor a quote.
pub open spec fn is_token_char(c: char) -> bool {
    !is_ws(c) && c != '"'
}

/// End of the run of name characters that starts at `i`.
pub open spec fn run_end(s: Seq<char>, i: int) -> int
    decreases s.len() - i,
{
    if i < 0 || i >= s.len() || !is_token_char(s[i]) {
        i
    } else {
        run_end(s, i + 1)
    }
}

/// First quote at or after `i`, or the end of `s`.
pub open spec fn quote_end(s: Seq<char>, i: int) -> int
    decreases s.len() - i,
{
    if i < 0 || i >= s.len() || s[i] == '"' {
        i
    } else {
        quote_end(s, i + 1)
    }
}

/// A header of the shape `name: value` starts at `i`: a name of at least one
/// character, a colon and one white space, and a value of at least one
/// character, neither of them holding a quote.
pub open spec fn match_at(s: Seq<char>, i: int) -> bool {
    let e = run_end(s, i);
    &&& 0 <= i < s.len()
    &&& is_token_char(s[i])
    &&& e >= i + 2
    &&& s[e - 1] == ':'
    &&& e + 1 < s.len()
    &&& is_ws(s[e])
    &&& s[e + 1] != '"'
}

/// Leftmost start of a header at or after `p`.
pub open spec fn first_match(s: Seq<char>, p: int) -> Option<int>
    decreases s.len() - p,
{
    if p < 0 || p >= s.len() {
        None
    } else if match_at(s, p) {
        Some(p)
    } else {
        first_match(s, p + 1)
    }
}

/// Name of the header that starts at `i`.
pub open spec fn match_key(s: Seq<char>, i: int) -> Seq<char> {
    s.subrange(i, run_end(s, i) - 1)
}

/// Where the header that starts at `i` ends: its value runs to the first quote.
pub open spec fn match_end(s: Seq<char>, i: int) -> int {
    quote_end(s, run_end(s, i) + 1)
}

/// Value of the header that starts at `i`.
pub open spec fn match_value(s: Seq<char>, i: int) -> Seq<char> {
    s.subrange(run_end(s, i) + 1, match_end(s, i))
}

/// The header that a response line carries: its leftmost match.
pub open spec fn line_header(s: Seq<char>) -> Option<(Seq<char>, Seq<char>)> {
    match first_match(s, 0) {
        Some(i) => Some((match_key(s, i), match_value(s, i))),
        None => None,
    }
}

/// All headers of `s` from `p` on, each search starting where the last match
/// ended, entered into `m` in order.
pub open spec fn scan_headers(
    s: Seq<char>,
    p: int,
    m: Map<Seq<char>, Seq<char>>,
) -> Map<Seq<char>, Seq<char>>
    decreases s.len() - p,
{
    if p < 0 || p >= s.len() {
        m
    } else if match_at(s, p) {
        let q = match_end(s, p);
        if p < q <= s.len() {
            scan_headers(s, q, m.insert(match_key(s, p), match_value(s, p)))
        } else {
            m
        }
    } else {
        scan_headers(s, p + 1, m)
    }
}

/// Whether `c` is white space.
pub fn is_space(c: char) -> (r: bool)
    ensures
        r == is_ws(c),
{
    let u = c as u32;
    (0x9 <= u && u <= 0xD) || u == 0x20 || u == 0x85 || u == 0xA0 || u == 0x1680 || (0x2000 <= u
        && u <= 0x200A) || u == 0x2028 || u == 0x2029 || u == 0x202F || u == 0x205F || u == 0x3000
}

/// Whether `c` may stand in a header name.
pub fn is_token(c: char) -> (r: bool)
    ensures
        r == is_token_char(c),
{
    !is_space(c) && c != '"'
}

/// End of the run of name characters that starts at `i`.
pub fn token_run_end(s: &Vec<char>, i: usize) -> (e: usize)
    requires
        i <= s.len(),
    ensures
        e == run_end(s@, i as int),
        i <= e <= s.len(),
        i < s.len() && is_token_char(s@[i as int]) ==> e > i,
{
    let mut e = i;
    while e < s.len() && is_token(s[e])
        invariant
            i <= e <= s.len(),
            run_end(s@, i as int) == run_end(s@, e as int),
        decreases s.len() - e,
    {
        e += 1;
    }
    e
}

/// First quote at or after `i`, or the end of `s`.
pub fn quote_scan_end(s: &Vec<char>, i: usize) -> (e: usize)
    requires
        i <= s.len(),
    ensures
        e == quote_end(s@, i as int),
        i <= e <= s.len(),
{
    let mut e = i;
    while e < s.len() && s[e] != '"'
        invariant
            i <= e <= s.len(),
            quote_end(s@, i as int) == quote_end(s@, e as int),
        decreases s.len() - e,
    {
        e += 1;
    }
    e
}

proof fn lemma_run_end_ge(s: Seq<char>, i: int)
    requires
        0 <= i,
    ensures
        i <= run_end(s, i),
    decreases s.len() - i,
{
    if i < s.len() && is_token_char(s[i]) {
        lemma_run_end_ge(s, i + 1);
    }
}

pub proof fn lemma_quote_end_bounds(s: Seq<char>, i: int)
    requires
        0 <= i <= s.len(),
    ensures
        i <= quote_end(s, i) <= s.len(),
    decreases s.len() - i,
{
    if i < s.len() && s[i] != '"' {
        lemma_quote_end_bounds(s, i + 1);
    }
}

/// With no quote from `i` on, a value that starts there runs to the end.
pub proof fn lemma_quote_end_at(s: Seq<char>, i: int)
    requires
        0 <= i <= s.len(),
        forall|j: int| i <= j < s.len() ==> #[trigger] s[j] != '"',
    ensures
        quote_end(s, i) == s.len(),
    decreases s.len() - i,
{
    if i < s.len() {
        lemma_quote_end_at(s, i + 1);
    }
}

pub proof fn lemma_first_match_some(s: Seq<char>, p: int, i: int)
    requires
        0 <= p,
        first_match(s, p) == Some(i),
    ensures
        p <= i,
        match_at(s, i),
        i < match_end(s, i) <= s.len(),
    decreases s.len() - p,
{
    if p < s.len() && !match_at(s, p) {
        lemma_first_match_some(s, p + 1, i);
    } else {
        lemma_quote_end_bounds(s, run_end(s, i) + 1);
    }
}

/// Scanning from `p` takes the leftmost header and goes on where it ends.
pub proof fn lemma_scan_step(s: Seq<char>, p: int, m: Map<Seq<char>, Seq<char>>)
    requires
        0 <= p,
    ensures
        scan_headers(s, p, m) == match first_match(s, p) {
            Some(i) => scan_headers(s, match_end(s, i), m.insert(match_key(s, i), match_value(s, i))),
            None => m,
        },
    decreases s.len() - p,
{
    if p < s.len() {
        if match_at(s, p) {
            lemma_first_match_some(s, p, p);
        } else {
            lemma_scan_step(s, p + 1, m);
        }
    }
}

/// Without a quote in the text, the value of the first header runs to the end
/// of the text, so the text gives at most one header: a comma does not part
/// one field from the next.
pub proof fn lemma_scan_without_quotes(s: Seq<char>)
    requires
        forall|j: int| 0 <= j < s.len() ==> #[trigger] s[j] != '"',
    ensures
        scan_headers(s, 0, Map::empty()) == match first_match(s, 0) {
            None => Map::<Seq<char>, Seq<char>>::empty(),
            Some(i) => Map::<Seq<char>, Seq<char>>::empty().insert(
                match_key(s, i),
                s.subrange(run_end(s, i) + 1, s.len() as int),
            ),
        },
{
    lemma_scan_step(s, 0, Map::empty());
    match first_match(s, 0) {
        None => {},
        Some(i) => {
            lemma_first_match_some(s, 0, i);
            lemma_quote_end_at(s, run_end(s, i) + 1);
            let m = Map::<Seq<char>, Seq<char>>::empty().insert(match_key(s, i), match_value(s, i));
            assert(scan_headers(s, s.len() as int, m) == m);
        },
    }
}

/// No header starts inside a run of name characters when none starts at its head.
proof fn lemma_skip_run(s: Seq<char>, i: int, e: int)
    requires
        0 <= i < s.len(),
        is_token_char(s[i]),
        e == run_end(s, i),
        !match_at(s, i),
    ensures
        first_match(s, i) == first_match(s, e),
    decreases e - i,
{
    assert(run_end(s, i) == run_end(s, i + 1));
    lemma_run_end_ge(s, i + 1);
    if i + 1 < e {
        if i + 1 >= s.len() || !is_token_char(s[i + 1]) {
            assert(run_end(s, i + 1) == i + 1);
        }
        lemma_skip_run(s, i + 1, e);
    }
}

/// Leftmost start of a header at or after `p`.
pub fn find_match(s: &Vec<char>, p: usize) -> (r: Option<usize>)
    requires
        p <= s.len(),
    ensures
        match r {
            Some(i) => first_match(s@, p as int) == Some(i as int),
            None => first_match(s@, p as int) is None,
        },
{
    let mut i = p;
    while i < s.len()
        invariant
            p <= i <= s.len(),
            first_match(s@, p as int) == first_match(s@, i as int),
        decreases s.len() - i,
    {
        if !is_token(s[i]) {
            i += 1;
        } else {
            let e = token_run_end(s, i);
            if e - i >= 2 && s[e - 1] == ':' && s.len() - e > 1 && is_space(s[e]) && s[e + 1]
                != '"' {
                return Some(i);
            }
            proof {
                lemma_skip_run(s@, i as int, e as int);
            }
            i = e;
        }
    }
    None
}

} // verus!
