use vstd::prelude::*;
use crate::grammar::{
    first_match, is_token_char, is_ws, lemma_quote_end_at, line_header, match_at, run_end,
};
use crate::headers::entries_map;
use crate::http::{absorb_line, absorb_lines, header_text, message_text, parse_response, Response};
use crate::text::{
    crlf, lemma_lines_crlf, lemma_nl_index, lemma_nl_index_props, lines_of, nl_index, strip_cr,
};

verus! {

/// `name: value`, the line that a header takes without its ending.
pub open spec fn header_line(p: (Seq<char>, Seq<char>)) -> Seq<char> {
    p.0 + seq![':', ' '] + p.1
}

pub open spec fn header_lines(e: Seq<(Seq<char>, Seq<char>)>) -> Seq<Seq<char>> {
    e.map_values(|p: (Seq<char>, Seq<char>)| header_line(p))
}

pub open spec fn no_newline(s: Seq<char>) -> bool {
    forall|j: int| 0 <= j < s.len() ==> s[j] != '\n'
}

/// A header that reads back as itself: a name of name characters, and a value
/// of at least one character with no quote and no line feed.
pub open spec fn plain_header(p: (Seq<char>, Seq<char>)) -> bool {
    &&& p.0.len() > 0
    &&& forall|j: int| 0 <= j < p.0.len() ==> is_token_char(#[trigger] p.0[j])
    &&& p.1.len() > 0
    &&& forall|j: int| 0 <= j < p.1.len() ==> #[trigger] p.1[j] != '"' && p.1[j] != '\n'
}

/// A body that reads back as itself: no `\r\n` in it, and no line of it has the
/// shape of a header.
pub open spec fn plain_body(b: Seq<char>) -> bool {
    &&& forall|j: int| 0 <= j < b.len() - 1 ==> !(#[trigger] b[j] == '\r' && b[j + 1] == '\n')
    &&& forall|j: int| 0 <= j < lines_of(b).len() ==> #[trigger] line_header(lines_of(b)[j]) is None
}

proof fn lemma_run_end_at(s: Seq<char>, i: int, e: int)
    requires
        0 <= i <= e <= s.len(),
        forall|j: int| i <= j < e ==> is_token_char(#[trigger] s[j]),
        e == s.len() || !is_token_char(s[e]),
    ensures
        run_end(s, i) == e,
    decreases e - i,
{
    if i < e {
        lemma_run_end_at(s, i + 1, e);
    }
}

/// A plain header's line reads back as that header.
pub proof fn lemma_header_line(p: (Seq<char>, Seq<char>))
    requires
        plain_header(p),
    ensures
        line_header(header_line(p)) == Some(p),
{
    let s = header_line(p);
    let k = p.0.len() as int;
    assert forall|j: int| 0 <= j < k + 1 implies is_token_char(#[trigger] s[j]) by {
        if j < k {
            assert(s[j] == p.0[j]);
        }
    }
    assert(is_ws(s[k + 1]));
    lemma_run_end_at(s, 0, k + 1);
    assert(s[k + 2] == p.1[0]);
    assert(match_at(s, 0));
    assert forall|j: int| k + 2 <= j < s.len() implies #[trigger] s[j] != '"' by {
        assert(s[j] == p.1[j - k - 2]);
    }
    lemma_quote_end_at(s, k + 2);
    assert(s.subrange(0, k) =~= p.0);
    assert(s.subrange(k + 2, s.len() as int) =~= p.1);
}

proof fn lemma_lines_of_headers(e: Seq<(Seq<char>, Seq<char>)>, rest: Seq<char>)
    requires
        forall|j: int| 0 <= j < e.len() ==> plain_header(#[trigger] e[j]),
    ensures
        lines_of(header_text(e) + rest) == header_lines(e) + lines_of(rest),
    decreases e.len(),
{
    if e.len() == 0 {
        assert(header_text(e) + rest =~= rest);
        assert(header_lines(e) + lines_of(rest) =~= lines_of(rest));
    } else {
        let d = e.drop_last();
        let x = header_line(e.last());
        assert(plain_header(e[e.len() - 1]));
        assert forall|j: int| 0 <= j < x.len() implies x[j] != '\n' by {
            if j >= e.last().0.len() + 2 {
                assert(x[j] == e.last().1[j - e.last().0.len() - 2]);
            } else if j < e.last().0.len() {
                assert(x[j] == e.last().0[j]);
                assert(is_token_char(e.last().0[j]));
            }
        }
        lemma_lines_crlf(x, rest);
        assert forall|j: int| 0 <= j < d.len() implies plain_header(#[trigger] d[j]) by {
            assert(d[j] == e[j]);
        }
        lemma_lines_of_headers(d, x + crlf() + rest);
        assert(header_text(e) + rest =~= header_text(d) + (x + crlf() + rest));
        assert(header_lines(e) =~= header_lines(d).push(x));
        assert(header_lines(e) + lines_of(rest) =~= header_lines(d) + (seq![x] + lines_of(rest)));
    }
}

proof fn lemma_absorb_concat(
    st: (Map<Seq<char>, Seq<char>>, Seq<char>),
    a: Seq<Seq<char>>,
    b: Seq<Seq<char>>,
)
    ensures
        absorb_lines(st, a + b) == absorb_lines(absorb_lines(st, a), b),
    decreases a.len(),
{
    if a.len() == 0 {
        assert(a + b =~= b);
    } else {
        assert((a + b).drop_first() =~= a.drop_first() + b);
        assert((a + b)[0] == a[0]);
        lemma_absorb_concat(absorb_line(st, a[0]), a.drop_first(), b);
    }
}

proof fn lemma_absorb_headers(e: Seq<(Seq<char>, Seq<char>)>, body: Seq<char>)
    requires
        forall|j: int| 0 <= j < e.len() ==> plain_header(#[trigger] e[j]),
    ensures
        absorb_lines((Map::empty(), body), header_lines(e)) == (entries_map(e), body),
    decreases e.len(),
{
    if e.len() > 0 {
        let d = e.drop_last();
        assert forall|j: int| 0 <= j < d.len() implies plain_header(#[trigger] d[j]) by {
            assert(d[j] == e[j]);
        }
        lemma_absorb_headers(d, body);
        assert(header_lines(e) =~= header_lines(d) + seq![header_line(e.last())]);
        lemma_absorb_concat((Map::empty(), body), header_lines(d), seq![header_line(e.last())]);
        assert(plain_header(e[e.len() - 1]));
        lemma_header_line(e.last());
        let x = header_line(e.last());
        let st0 = (entries_map(d), body);
        assert(seq![x].drop_first() =~= Seq::<Seq<char>>::empty());
        assert(absorb_lines(absorb_line(st0, x), Seq::<Seq<char>>::empty()) == absorb_line(st0, x));
        assert(absorb_lines(st0, seq![x]) == absorb_line(st0, x));
        assert(absorb_line(st0, x) == (entries_map(e), body));
    } else {
        assert(header_lines(e) =~= Seq::<Seq<char>>::empty());
    }
}

proof fn lemma_absorb_body(st: (Map<Seq<char>, Seq<char>>, Seq<char>), b: Seq<char>)
    requires
        plain_body(b),
    ensures
        absorb_lines(st, lines_of(b + crlf())) == (st.0, st.1 + b + seq!['\n']),
    decreases b.len(),
{
    lemma_nl_index_props(b);
    let n = nl_index(b);
    if n == b.len() {
        lemma_lines_crlf(b, seq![]);
        assert(b + crlf() + seq![] =~= b + crlf());
        assert(lines_of(Seq::<char>::empty()) =~= Seq::<Seq<char>>::empty());
        assert(seq![b] + Seq::<Seq<char>>::empty() =~= seq![b]);
        if b.len() > 0 {
            lemma_nl_index(b, b.len() as int);
            assert(lines_of(b) == seq![b]);
            assert(line_header(lines_of(b)[0]) is None);
        } else {
            assert(first_match(b, 0) is None);
        }
        assert(seq![b].drop_first() =~= Seq::<Seq<char>>::empty());
        assert(absorb_lines(absorb_line(st, b), Seq::<Seq<char>>::empty()) == absorb_line(st, b));
        assert(absorb_lines(st, seq![b]) == absorb_line(st, b));
        assert(st.1 + b.push('\n') =~= st.1 + b + seq!['\n']);
    } else {
        let p = b.subrange(0, n);
        let rest = b.subrange(n + 1, b.len() as int);
        let s = b + crlf();
        lemma_nl_index(b, n);
        lemma_nl_index(s, n);
        assert(s.subrange(0, n) =~= p);
        assert(strip_cr(p) == p);
        assert(s.subrange(n + 1, s.len() as int) =~= rest + crlf());
        assert(b.subrange(0, n) =~= p);
        assert(b.subrange(n + 1, b.len() as int) =~= rest);
        assert(lines_of(s) == seq![p] + lines_of(rest + crlf()));
        assert(lines_of(b) == seq![p] + lines_of(rest));
        assert(line_header(lines_of(b)[0]) is None);
        assert forall|j: int| 0 <= j < lines_of(rest).len() implies #[trigger] line_header(
            lines_of(rest)[j],
        ) is None by {
            assert(lines_of(rest)[j] == lines_of(b)[j + 1]);
        }
        assert forall|j: int| 0 <= j < rest.len() - 1 implies !(#[trigger] rest[j] == '\r'
            && rest[j + 1] == '\n') by {
            assert(rest[j] == b[j + n + 1] && rest[j + 1] == b[j + n + 2]);
        }
        let st1 = absorb_line(st, p);
        assert((seq![p] + lines_of(rest + crlf()))[0] == p);
        assert((seq![p] + lines_of(rest + crlf())).drop_first() =~= lines_of(rest + crlf()));
        assert(absorb_lines(st, lines_of(s)) == absorb_lines(st1, lines_of(rest + crlf())));
        lemma_absorb_body(st1, rest);
        assert(st1.1 + rest + seq!['\n'] =~= st.1 + b + seq!['\n']);
    }
}

/// A response read back from its own text keeps its status line and its
/// headers, and its body comes back between the line feed of the blank line
/// that ends the headers and the line feed that ends the text. This holds for
/// every response whose status line has no line feed, whose headers each read
/// back as themselves, and whose body has no `\r\n` and no line of header shape.
pub proof fn lemma_response_round_trip(r: Response)
    requires
        no_newline(r.status_line@),
        forall|j: int| 0 <= j < r.headers.pairs().len() ==> plain_header(#[trigger] r.headers.pairs()[j]),
        plain_body(r.body@),
    ensures
        parse_response(message_text(r.status_line@, r.headers.pairs(), r.body@)) == (
            r.status_line@,
            r.headers@,
            seq!['\n'] + r.body@ + seq!['\n'],
        ),
{
    let st = r.status_line@;
    let e = r.headers.pairs();
    let b = r.body@;
    let tail = crlf() + b + crlf();
    lemma_lines_crlf(st, header_text(e) + tail);
    assert(message_text(st, e, b) =~= st + crlf() + (header_text(e) + tail));
    lemma_lines_of_headers(e, tail);
    lemma_lines_crlf(seq![], b + crlf());
    assert(seq![] + crlf() + (b + crlf()) =~= tail);
    let ls = lines_of(message_text(st, e, b));
    let body_lines = lines_of(b + crlf());
    assert(ls == seq![st] + (header_lines(e) + (seq![Seq::<char>::empty()] + body_lines)));
    assert(ls.drop_first() =~= header_lines(e) + (seq![Seq::<char>::empty()] + body_lines));
    let init = (Map::<Seq<char>, Seq<char>>::empty(), Seq::<char>::empty());
    lemma_absorb_concat(init, header_lines(e), seq![Seq::<char>::empty()] + body_lines);
    lemma_absorb_headers(e, Seq::<char>::empty());
    let blank = seq![Seq::<char>::empty()];
    lemma_absorb_concat((entries_map(e), Seq::<char>::empty()), blank, body_lines);
    assert(first_match(Seq::<char>::empty(), 0) is None);
    assert(blank.drop_first() =~= Seq::<Seq<char>>::empty());
    assert(Seq::<char>::empty() + Seq::<char>::empty().push('\n') =~= seq!['\n']);
    let st0 = (entries_map(e), Seq::<char>::empty());
    assert(absorb_line(st0, Seq::<char>::empty()) == (entries_map(e), seq!['\n']));
    assert(absorb_lines(absorb_line(st0, Seq::<char>::empty()), Seq::<Seq<char>>::empty())
        == absorb_line(st0, Seq::<char>::empty()));
    assert(absorb_lines(st0, blank) == (entries_map(e), seq!['\n']));
    lemma_absorb_body((entries_map(e), seq!['\n']), b);
    assert(seq!['\n'] + b + seq!['\n'] =~= seq!['\n'] + r.body@ + seq!['\n']);
    assert(ls[0] == st);
}

} // verus!
