use vstd::prelude::*;
use vstd::string::StrSliceExecFns;
use crate::grammar::{
    find_match, first_match, lemma_first_match_some, lemma_scan_step, match_end, match_key,
    match_value, quote_scan_end, run_end, scan_headers, token_run_end,
};
use crate::text::chars_of;

verus! {

/// The mapping that a list of name/value pairs gives when entered in order:
/// a later pair overrides an earlier one with the same name.
pub open spec fn entries_map(e: Seq<(Seq<char>, Seq<char>)>) -> Map<Seq<char>, Seq<char>>
    decreases e.len(),
{
    if e.len() == 0 {
        Map::empty()
    } else {
        entries_map(e.drop_last()).insert(e.last().0, e.last().1)
    }
}

/// No name is held twice.
pub open spec fn keys_unique(e: Seq<(Seq<char>, Seq<char>)>) -> bool {
    forall|i: int, j: int| 0 <= i < e.len() && 0 <= j < e.len() && i != j ==> #[trigger] e[i].0 != #[trigger] e[j].0
}

/// Header fields: names, case as given, each with one value. Each name is held
/// once, in the order in which it was first entered.
pub struct HeaderMap {
    entries: Vec<(String, String)>,
}

impl View for HeaderMap {
    type V = Map<Seq<char>, Seq<char>>;

    open spec fn view(&self) -> Map<Seq<char>, Seq<char>> {
        entries_map(self.pairs())
    }
}

/// With names held once, each pair's value is the one the mapping gives.
pub proof fn lemma_lookup(e: Seq<(Seq<char>, Seq<char>)>, j: int)
    requires
        keys_unique(e),
        0 <= j < e.len(),
    ensures
        entries_map(e).contains_key(e[j].0),
        entries_map(e)[e[j].0] == e[j].1,
    decreases e.len(),
{
    if j < e.len() - 1 {
        lemma_lookup(e.drop_last(), j);
        assert(e.drop_last()[j] == e[j]);
        assert(e.last().0 != e[j].0);
    }
}

/// A name that no pair holds is not in the mapping.
pub proof fn lemma_absent(e: Seq<(Seq<char>, Seq<char>)>, k: Seq<char>)
    requires
        forall|j: int| 0 <= j < e.len() ==> #[trigger] e[j].0 != k,
    ensures
        !entries_map(e).contains_key(k),
    decreases e.len(),
{
    if e.len() > 0 {
        assert forall|j: int| 0 <= j < e.drop_last().len() implies #[trigger] e.drop_last()[j].0 != k by {
            assert(e.drop_last()[j] == e[j]);
        }
        lemma_absent(e.drop_last(), k);
    }
}

proof fn lemma_update(e: Seq<(Seq<char>, Seq<char>)>, j: int, v: Seq<char>)
    requires
        keys_unique(e),
        0 <= j < e.len(),
    ensures
        entries_map(e.update(j, (e[j].0, v))) == entries_map(e).insert(e[j].0, v),
    decreases e.len(),
{
    let k = e[j].0;
    let f = e.update(j, (k, v));
    if j == e.len() - 1 {
        assert(f.drop_last() =~= e.drop_last());
        assert(entries_map(f) =~= entries_map(e).insert(k, v));
    } else {
        assert(f.drop_last() =~= e.drop_last().update(j, (k, v)));
        assert(e.drop_last()[j] == e[j]);
        lemma_update(e.drop_last(), j, v);
        assert(e.last().0 != k);
        assert(entries_map(f) =~= entries_map(e).insert(k, v));
    }
}

impl HeaderMap {
    /// The pairs held, in order.
    pub closed spec fn pairs(&self) -> Seq<(Seq<char>, Seq<char>)> {
        self.entries@.map_values(|p: (String, String)| (p.0@, p.1@))
    }

    /// Each name is held once.
    pub open spec fn wf(&self) -> bool {
        keys_unique(self.pairs())
    }

    /// No headers.
    pub fn new() -> (r: HeaderMap)
        ensures
            r.wf(),
            r@ == Map::<Seq<char>, Seq<char>>::empty(),
            r.pairs() == Seq::<(Seq<char>, Seq<char>)>::empty(),
    {
        let r = HeaderMap { entries: Vec::new() };
        assert(r.pairs() =~= Seq::<(Seq<char>, Seq<char>)>::empty());
        r
    }

    /// Number of pairs held.
    pub fn len(&self) -> (r: usize)
        ensures
            r == self.pairs().len(),
    {
        self.entries.len()
    }

    /// Whether no pair is held.
    pub fn is_empty(&self) -> (r: bool)
        ensures
            r == (self.pairs().len() == 0),
    {
        self.entries.len() == 0
    }

    /// Name of the `i`-th pair.
    pub fn key_at(&self, i: usize) -> (r: &String)
        requires
            i < self.pairs().len(),
        ensures
            r@ == self.pairs()[i as int].0,
    {
        &self.entries[i].0
    }

    /// Value of the `i`-th pair.
    pub fn value_at(&self, i: usize) -> (r: &String)
        requires
            i < self.pairs().len(),
        ensures
            r@ == self.pairs()[i as int].1,
    {
        &self.entries[i].1
    }

    fn position(&self, key: &String) -> (r: Option<usize>)
        ensures
            match r {
                Some(j) => j < self.pairs().len() && self.pairs()[j as int].0 == key@,
                None => forall|j: int| 0 <= j < self.pairs().len() ==> #[trigger] self.pairs()[j].0 != key@,
            },
    {
        let mut j: usize = 0;
        while j < self.entries.len()
            invariant
                j <= self.entries.len(),
                forall|m: int| 0 <= m < j ==> #[trigger] self.pairs()[m].0 != key@,
            decreases self.entries.len() - j,
        {
            if self.entries[j].0 == *key {
                return Some(j);
            }
            j += 1;
        }
        None
    }

    /// Value held under `key`.
    pub fn get(&self, key: &str) -> (r: Option<&String>)
        requires
            self.wf(),
        ensures
            match r {
                Some(v) => self@.contains_key(key@) && self@[key@] == v@,
                None => !self@.contains_key(key@),
            },
    {
        let k = String::from_str(key);
        match self.position(&k) {
            Some(j) => {
                proof {
                    lemma_lookup(self.pairs(), j as int);
                }
                Some(&self.entries[j].1)
            },
            None => {
                proof {
                    lemma_absent(self.pairs(), k@);
                }
                None
            },
        }
    }

    /// Sets `key` to `value`, in place when the name is held already, else as a
    /// new last pair.
    pub fn insert(&mut self, key: String, value: String)
        requires
            old(self).wf(),
        ensures
            final(self).wf(),
            final(self)@ == old(self)@.insert(key@, value@),
            forall|j: int|
                0 <= j < old(self).pairs().len() && #[trigger] old(self).pairs()[j].0 == key@
                    ==> final(self).pairs() == old(self).pairs().update(j, (key@, value@)),
            (forall|j: int| 0 <= j < old(self).pairs().len() ==> #[trigger] old(self).pairs()[j].0 != key@)
                ==> final(self).pairs() == old(self).pairs().push((key@, value@)),
    {
        let ghost e = self.pairs();
        match self.position(&key) {
            Some(j) => {
                let ghost kv = key@;
                self.entries.set(j, (key, value));
                proof {
                    assert(self.pairs() =~= e.update(j as int, (e[j as int].0, value@)));
                    assert(self.pairs() =~= e.update(j as int, (kv, value@)));
                    lemma_update(e, j as int, value@);
                }
            },
            None => {
                let ghost kv = key@;
                self.entries.push((key, value));
                proof {
                    assert(self.pairs() =~= e.push((kv, value@)));
                    assert(self.pairs().drop_last() =~= e);
                }
            },
        }
    }
}

/// Reads header fields out of a line of text: every match of the shape
/// `name: value`, left to right, each search starting where the last match
/// ended; a later field overrides an earlier one of the same name.
pub fn parse_headers(header_string: &str) -> (r: HeaderMap)
    ensures
        r.wf(),
        r@ == scan_headers(header_string@, 0, Map::empty()),
{
    let v = chars_of(header_string);
    let mut m = HeaderMap::new();
    let mut p: usize = 0;
    loop
        invariant
            v@ == header_string@,
            p <= v.len(),
            m.wf(),
            scan_headers(v@, p as int, m@) == scan_headers(v@, 0, Map::empty()),
        ensures
            m.wf(),
            m@ == scan_headers(v@, 0, Map::empty()),
        decreases v.len() - p,
    {
        proof {
            lemma_scan_step(v@, p as int, m@);
        }
        match find_match(&v, p) {
            None => {
                break;
            },
            Some(i) => {
                proof {
                    lemma_first_match_some(v@, p as int, i as int);
                }
                let e = token_run_end(&v, i);
                let q = quote_scan_end(&v, e + 1);
                let key = String::from_str(header_string.substring_char(i, e - 1));
                let val = String::from_str(header_string.substring_char(e + 1, q));
                m.insert(key, val);
                p = q;
            },
        }
    }
    m
}

} // verus!
