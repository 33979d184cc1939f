use vstd::prelude::*;
use vstd::std_specs::iter::IteratorSpec;

verus! {

/// Position of the first line feed in `s`, or `s.len()` when there is none.
pub open spec fn nl_index(s: Seq<char>) -> int
    decreases s.len(),
{
    if s.len() == 0 || s[0] == '\n' {
        0
    } else {
        1 + nl_index(s.drop_first())
    }
}

/// A line with one trailing carriage return removed.
pub open spec fn strip_cr(l: Seq<char>) -> Seq<char> {
    if l.len() > 0 && l.last() == '\r' {
        l.drop_last()
    } else {
        l
    }
}

/// The lines of a text: split at each `\n`, a `\r` just before it dropped, and
/// no empty line after a final line feed.
pub open spec fn lines_of(s: Seq<char>) -> Seq<Seq<char>>
    decreases s.len(),
{
    if s.len() == 0 {
        seq![]
    } else {
        let n = nl_index(s);
        if n < 0 || n >= s.len() {
            seq![s]
        } else {
            seq![strip_cr(s.subrange(0, n))] + lines_of(s.subrange(n + 1, s.len() as int))
        }
    }
}

/// The line ending of the wire format.
pub open spec fn crlf() -> Seq<char> {
    seq!['\r', '\n']
}

/// `t` occurs in `s` at `i`.
pub open spec fn has_infix_at(s: Seq<char>, t: Seq<char>, i: int) -> bool {
    0 <= i && i + t.len() <= s.len() && s.subrange(i, i + t.len()) == t
}

/// `t` occurs somewhere in `s`.
pub open spec fn has_infix(s: Seq<char>, t: Seq<char>) -> bool {
    exists|i: int| has_infix_at(s, t, i)
}

/// The digit for `d`, below ten.
pub open spec fn digit_char(d: nat) -> char {
    if d == 0 { '0' } else if d == 1 { '1' } else if d == 2 { '2' } else if d == 3 { '3' }
    else if d == 4 { '4' } else if d == 5 { '5' } else if d == 6 { '6' } else if d == 7 { '7' }
    else if d == 8 { '8' } else { '9' }
}

/// Decimal notation of `n`, without leading zeros.
pub open spec fn decimal(n: nat) -> Seq<char>
    decreases n,
{
    if n < 10 {
        seq![digit_char(n)]
    } else {
        decimal(n / 10).push(digit_char(n % 10))
    }
}

pub proof fn lemma_nl_index(s: Seq<char>, n: int)
    requires
        0 <= n <= s.len(),
        n == s.len() || s[n] == '\n',
        forall|j: int| 0 <= j < n ==> s[j] != '\n',
    ensures
        nl_index(s) == n,
    decreases n,
{
    if n > 0 {
        assert(s[0] != '\n');
        lemma_nl_index(s.drop_first(), n - 1);
    }
}

pub proof fn lemma_nl_index_props(s: Seq<char>)
    ensures
        0 <= nl_index(s) <= s.len(),
        nl_index(s) == s.len() || s[nl_index(s)] == '\n',
        forall|j: int| 0 <= j < nl_index(s) ==> s[j] != '\n',
    decreases s.len(),
{
    if s.len() > 0 && s[0] != '\n' {
        lemma_nl_index_props(s.drop_first());
        assert forall|j: int| 0 <= j < nl_index(s) implies s[j] != '\n' by {
            if j > 0 {
                assert(s[j] == s.drop_first()[j - 1]);
            }
        }
    }
}

/// A line ended by `\r\n` comes out of the text whole.
pub proof fn lemma_lines_crlf(x: Seq<char>, rest: Seq<char>)
    requires
        forall|j: int| 0 <= j < x.len() ==> x[j] != '\n',
    ensures
        lines_of(x + crlf() + rest) == seq![x] + lines_of(rest),
{
    let s = x + crlf() + rest;
    lemma_nl_index(s, x.len() + 1 as int);
    assert(s.subrange(0, x.len() + 1 as int) =~= x.push('\r'));
    assert(strip_cr(x.push('\r')) =~= x);
    assert(s.subrange(x.len() + 2 as int, s.len() as int) =~= rest);
}

/// The characters of a string slice, in order.
pub fn chars_of(s: &str) -> (r: Vec<char>)
    ensures
        r@ == s@,
{
    broadcast use vstd::string::group_string_axioms;

    let mut it = s.chars();
    let mut v: Vec<char> = Vec::new();
    loop
        invariant
            v@ + it.remaining() == s@,
            it.decrease() is Some,
        ensures
            v@ == s@,
        decreases it.decrease()->0,
    {
        let ghost before = it.remaining();
        let ghost v0 = v@;
        match it.next() {
            Some(c) => {
                v.push(c);
                assert(v@ + it.remaining() =~= v0 + before);
            },
            None => {
                assert(v@ =~= s@);
                break;
            },
        }
    }
    v
}

/// The text of each span of `s`.
pub open spec fn span_lines(s: Seq<char>, sp: Seq<(usize, usize)>) -> Seq<Seq<char>> {
    sp.map_values(|p: (usize, usize)| s.subrange(p.0 as int, p.1 as int))
}

/// Where each line of `s` starts and ends, in the sense of `lines_of`.
pub fn split_lines(s: &Vec<char>) -> (r: Vec<(usize, usize)>)
    ensures
        span_lines(s@, r@) == lines_of(s@),
        forall|j: int| 0 <= j < r@.len() ==> #[trigger] r@[j].0 <= r@[j].1 <= s@.len(),
{
    let mut r: Vec<(usize, usize)> = Vec::new();
    let mut pos: usize = 0;
    assert(s@.subrange(0, s.len() as int) =~= s@);
    while pos < s.len()
        invariant
            pos <= s.len(),
            span_lines(s@, r@) + lines_of(s@.subrange(pos as int, s.len() as int)) == lines_of(s@),
            forall|j: int| 0 <= j < r@.len() ==> #[trigger] r@[j].0 <= r@[j].1 <= s@.len(),
        decreases s.len() - pos,
    {
        let mut n = pos;
        while n < s.len() && s[n] != '\n'
            invariant
                pos <= n <= s.len(),
                forall|j: int| pos <= j < n ==> s@[j] != '\n',
            decreases s.len() - n,
        {
            n += 1;
        }
        let ghost t = s@.subrange(pos as int, s.len() as int);
        let ghost r0 = r@;
        proof {
            lemma_nl_index(t, n - pos);
        }
        if n == s.len() {
            r.push((pos, n));
            proof {
                assert(span_lines(s@, r@) =~= span_lines(s@, r0).push(t));
                assert(s@.subrange(n as int, s.len() as int) =~= Seq::<char>::empty());
                assert(lines_of(t) == seq![t]);
                assert(span_lines(s@, r@) + lines_of(s@.subrange(n as int, s.len() as int))
                    =~= span_lines(s@, r0) + lines_of(t));
            }
            pos = n;
        } else {
            let end = if n > pos && s[n - 1] == '\r' {
                n - 1
            } else {
                n
            };
            r.push((pos, end));
            proof {
                let head = t.subrange(0, n - pos);
                assert(strip_cr(head) =~= s@.subrange(pos as int, end as int));
                assert(span_lines(s@, r@) =~= span_lines(s@, r0).push(strip_cr(head)));
                assert(t.subrange(n - pos + 1, t.len() as int) =~= s@.subrange(
                    n + 1,
                    s.len() as int,
                ));
                assert(lines_of(t) == seq![strip_cr(head)] + lines_of(
                    s@.subrange(n + 1, s.len() as int),
                ));
                assert(span_lines(s@, r@) + lines_of(s@.subrange(n + 1, s.len() as int))
                    =~= span_lines(s@, r0) + lines_of(t));
            }
            pos = n + 1;
        }
    }
    assert(s@.subrange(pos as int, s.len() as int) =~= Seq::<char>::empty());
    assert(span_lines(s@, r@) =~= lines_of(s@));
    r
}

fn digit_str(d: usize) -> (r: &'static str)
    requires
        d < 10,
    ensures
        r@ == seq![digit_char(d as nat)],
{
    proof {
        reveal_strlit("0");
        reveal_strlit("1");
        reveal_strlit("2");
        reveal_strlit("3");
        reveal_strlit("4");
        reveal_strlit("5");
        reveal_strlit("6");
        reveal_strlit("7");
        reveal_strlit("8");
        reveal_strlit("9");
    }
    if d == 0 {
        "0"
    } else if d == 1 {
        "1"
    } else if d == 2 {
        "2"
    } else if d == 3 {
        "3"
    } else if d == 4 {
        "4"
    } else if d == 5 {
        "5"
    } else if d == 6 {
        "6"
    } else if d == 7 {
        "7"
    } else if d == 8 {
        "8"
    } else {
        "9"
    }
}

/// Appends the decimal notation of `n` to `out`.
pub fn push_decimal(out: &mut String, n: usize)
    ensures
        final(out)@ == old(out)@ + decimal(n as nat),
    decreases n,
{
    if n >= 10 {
        push_decimal(out, n / 10);
    }
    out.append(digit_str(n % 10));
    assert(out@ =~= old(out)@ + decimal(n as nat));
}

/// Whether `t` occurs in `s`.
pub fn contains_text(s: &str, t: &str) -> (r: bool)
    ensures
        r == has_infix(s@, t@),
{
    let a = chars_of(s);
    let b = chars_of(t);
    if b.len() > a.len() {
        assert forall|i: int| !has_infix_at(s@, t@, i) by {}
        return false;
    }
    let mut i: usize = 0;
    while i <= a.len() - b.len()
        invariant
            a@ == s@,
            b@ == t@,
            b.len() <= a.len(),
            forall|k: int| 0 <= k < i ==> !has_infix_at(s@, t@, k),
        decreases a.len() - b.len() + 1 - i,
    {
        let mut j: usize = 0;
        while j < b.len() && a[i + j] == b[j]
            invariant
                i + b.len() <= a.len(),
                j <= b.len(),
                forall|m: int| 0 <= m < j ==> a@[i + m] == b@[m],
            decreases b.len() - j,
        {
            j += 1;
        }
        if j == b.len() {
            assert(a@.subrange(i as int, i + b.len()) =~= b@);
            assert(has_infix_at(s@, t@, i as int));
            return true;
        }
        assert(a@.subrange(i as int, i + b.len())[j as int] != b@[j as int]);
        i += 1;
    }
    false
}

} // verus!
