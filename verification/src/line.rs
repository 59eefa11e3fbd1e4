//! Chat wheel lines, and the catalogue of all lines keyed by line id.
use vstd::prelude::*;

use crate::text::{str_equal, str_less, str_lt, lemma_str_lt_transitive, lemma_str_lt_irreflexive,
    lemma_str_lt_trichotomy};

verus! {

/// One chat wheel line: its id once it is configured, the text shown on the
/// wheel, and the URLs of its audio recordings.
pub struct Line {
    pub id: Option<String>,
    pub text: String,
    pub audios: Vec<String>,
}

/// A line as plain values.
pub struct LineView {
    pub id: Option<Seq<char>>,
    pub text: Seq<char>,
    pub audios: Seq<Seq<char>>,
}

pub open spec fn opt_str_view(o: Option<String>) -> Option<Seq<char>> {
    match o {
        Some(s) => Some(s@),
        None => None,
    }
}

pub open spec fn strings_view(v: Seq<String>) -> Seq<Seq<char>> {
    v.map_values(|s: String| s@)
}

impl View for Line {
    type V = LineView;

    open spec fn view(&self) -> LineView {
        LineView { id: opt_str_view(self.id), text: self.text@, audios: strings_view(self.audios@) }
    }
}

/// A copy of a list of strings.
pub fn copy_strings(v: &Vec<String>) -> (r: Vec<String>)
    ensures
        r@ == v@,
{
    let mut r: Vec<String> = Vec::new();
    let n = v.len();
    for i in 0..n
        invariant
            n == v@.len(),
            r@ == v@.take(i as int),
    {
        r.push(v[i].clone());
        assert(r@ =~= v@.take(i + 1));
    }
    assert(v@.take(n as int) =~= v@);
    r
}

impl Clone for Line {
    fn clone(&self) -> (r: Self)
        ensures
            r@ == self@,
    {
        let id = match &self.id {
            Some(s) => Some(s.clone()),
            None => None,
        };
        Line { id, text: self.text.clone(), audios: copy_strings(&self.audios) }
    }
}

/// An index at which the listing `s` lists the key `k`, if it lists it.
pub open spec fn key_index(s: Seq<(Seq<char>, LineView)>, k: Seq<char>) -> int {
    choose|i: int| 0 <= i < s.len() && s[i].0 == k
}

/// The map of a listing of keyed lines: each key to the line listed with it.
pub open spec fn listing_map(s: Seq<(Seq<char>, LineView)>) -> Map<Seq<char>, LineView> {
    Map::new(
        |k: Seq<char>| exists|i: int| 0 <= i < s.len() && s[i].0 == k,
        |k: Seq<char>| s[key_index(s, k)].1,
    )
}

/// The keys of a listing are in strictly increasing order.
pub open spec fn strictly_sorted(s: Seq<(Seq<char>, LineView)>) -> bool {
    forall|i: int, j: int| 0 <= i < j < s.len() ==> str_lt(#[trigger] s[i].0, #[trigger] s[j].0)
}

/// The catalogue of all chat wheel lines, keyed by line id. Its entries are
/// kept in increasing order of key, so that no key occurs twice.
pub struct Lines {
    entries: Vec<(String, Line)>,
}

impl Lines {
    /// The entries as plain values, in increasing order of key.
    pub closed spec fn listing(self) -> Seq<(Seq<char>, LineView)> {
        self.entries@.map_values(|e: (String, Line)| (e.0@, e.1@))
    }

    /// The catalogue is well formed: its keys are strictly increasing.
    pub open spec fn wf(self) -> bool {
        strictly_sorted(self.listing())
    }

    /// The catalogue as a map from line id to line.
    pub open spec fn view(self) -> Map<Seq<char>, LineView> {
        listing_map(self.listing())
    }

    /// An empty catalogue.
    pub fn new() -> (r: Lines)
        ensures
            r.wf(),
            r.listing() == Seq::<(Seq<char>, LineView)>::empty(),
            r@ == Map::<Seq<char>, LineView>::empty(),
    {
        let r = Lines { entries: Vec::new() };
        assert(r.listing() =~= Seq::<(Seq<char>, LineView)>::empty());
        assert(r@ =~= Map::<Seq<char>, LineView>::empty());
        r
    }

    /// The number of lines in the catalogue.
    pub fn len(&self) -> (n: usize)
        requires
            self.wf(),
        ensures
            n == self.listing().len(),
            n == self@.len(),
    {
        proof {
            lemma_listing_map_len(self.listing());
        }
        self.entries.len()
    }

    /// The `i`-th entry in increasing order of key.
    pub fn entry(&self, i: usize) -> (r: (&String, &Line))
        requires
            i < self.listing().len(),
        ensures
            (r.0@, r.1@) == self.listing()[i as int],
    {
        let e = &self.entries[i];
        (&e.0, &e.1)
    }

    /// The line with id `key`, if the catalogue has one.
    pub fn get(&self, key: &str) -> (r: Option<&Line>)
        requires
            self.wf(),
        ensures
            r is Some <==> self@.contains_key(key@),
            r matches Some(l) ==> l@ == self@[key@],
    {
        let n = self.entries.len();
        let ghost s = self.listing();
        let mut i: usize = 0;
        while i < n
            invariant
                n == s.len(),
                s == self.listing(),
                strictly_sorted(s),
                i <= n,
                forall|j: int| 0 <= j < i ==> s[j].0 != key@,
            decreases n - i,
        {
            assert(s[i as int] == (self.entries@[i as int].0@, self.entries@[i as int].1@));
            if str_equal(self.entries[i].0.as_str(), key) {
                proof {
                    lemma_listing_map_at(s, i as int);
                }
                return Some(&self.entries[i].1);
            }
            i = i + 1;
        }
        None
    }

    /// Puts `line` in the catalogue under `key`, in place of any line that had that key.
    pub fn insert(&mut self, key: String, line: Line)
        requires
            old(self).wf(),
        ensures
            final(self).wf(),
            final(self)@ == old(self)@.insert(key@, line@),
    {
        let n = self.entries.len();
        let ghost s = self.listing();
        let mut p: usize = 0;
        while p < n && str_less(self.entries[p].0.as_str(), key.as_str())
            invariant
                n == s.len(),
                s == self.listing(),
                n == self.entries@.len(),
                p <= n,
                forall|j: int| 0 <= j < p ==> str_lt(#[trigger] s[j].0, key@),
            decreases n - p,
        {
            assert(s[p as int].0 == self.entries@[p as int].0@);
            p = p + 1;
        }
        let ghost kv = (key@, line@);
        if p < n && str_equal(self.entries[p].0.as_str(), key.as_str()) {
            self.entries.set(p, (key, line));
            proof {
                let t = self.listing();
                assert(t =~= s.update(p as int, kv));
                lemma_listing_update(s, p as int, kv);
            }
        } else {
            proof {
                if p < n {
                    assert(s[p as int].0 == old(self).entries@[p as int].0@);
                    lemma_str_lt_trichotomy(s[p as int].0, key@);
                }
            }
            self.entries.insert(p, (key, line));
            proof {
                let t = self.listing();
                assert(t =~= s.insert(p as int, kv));
                lemma_listing_insert(s, p as int, kv);
            }
        }
    }
}

/// The key listed at index `i` maps to the line listed with it.
pub proof fn lemma_listing_map_at(s: Seq<(Seq<char>, LineView)>, at: int)
    requires
        strictly_sorted(s),
        0 <= at < s.len(),
    ensures
        listing_map(s).contains_key(s[at].0),
        listing_map(s)[s[at].0] == s[at].1,
{
    let k = s[at].0;
    assert(0 <= at < s.len() && s[at].0 == k);
    assert(listing_map(s).dom().contains(k));
    let j = key_index(s, k);
    assert(listing_map(s)[k] == s[j].1);
    if j != at {
        if j < at {
            assert(str_lt(s[j].0, s[at].0));
        } else {
            assert(str_lt(s[at].0, s[j].0));
        }
        lemma_str_lt_irreflexive(k);
    }
}

proof fn lemma_listing_map_len(s: Seq<(Seq<char>, LineView)>)
    requires
        strictly_sorted(s),
    ensures
        listing_map(s).len() == s.len(),
    decreases s.len(),
{
    let m = listing_map(s);
    if s.len() == 0 {
        assert(m =~= Map::empty());
    } else {
        let t = s.drop_last();
        let last = s.last();
        assert(strictly_sorted(t));
        lemma_listing_map_len(t);
        assert(!listing_map(t).contains_key(last.0)) by {
            if listing_map(t).contains_key(last.0) {
                let j = choose|j: int| 0 <= j < t.len() && t[j].0 == last.0;
                assert(str_lt(s[j].0, s[s.len() - 1].0));
                lemma_str_lt_irreflexive(last.0);
            }
        }
        assert forall|k: Seq<char>| m.contains_key(k) implies #[trigger] listing_map(t).insert(last.0, last.1).contains_key(k)
        by {
            let j = choose|j: int| 0 <= j < s.len() && s[j].0 == k;
            if j < s.len() - 1 {
                assert(t[j].0 == k);
            }
        }
        assert(m.dom() =~= listing_map(t).insert(last.0, last.1).dom()) by {
            assert forall|k: Seq<char>| listing_map(t).insert(last.0, last.1).contains_key(k) implies m.contains_key(k) by {
                if k != last.0 {
                    let j = choose|j: int| 0 <= j < t.len() && t[j].0 == k;
                    assert(s[j].0 == k);
                } else {
                    assert(s[s.len() - 1].0 == k);
                }
            }
        }
        lemma_listing_map_finite(t);
        assert(m.dom() =~= listing_map(t).dom().insert(last.0));
    }
}

proof fn lemma_listing_map_finite(s: Seq<(Seq<char>, LineView)>)
    ensures
        listing_map(s).dom().finite(),
        listing_map(s).dom() =~= s.map_values(|e: (Seq<char>, LineView)| e.0).to_set(),
{
    let keys = s.map_values(|e: (Seq<char>, LineView)| e.0);
    assert forall|k: Seq<char>| listing_map(s).dom().contains(k) <==> keys.to_set().contains(k) by {
        if listing_map(s).dom().contains(k) {
            let j = choose|j: int| 0 <= j < s.len() && s[j].0 == k;
            assert(keys[j] == k);
        }
        if keys.to_set().contains(k) {
            let j = choose|j: int| 0 <= j < keys.len() && keys[j] == k;
            assert(s[j].0 == k);
        }
    }
    assert(listing_map(s).dom() =~= keys.to_set());
    vstd::seq_lib::seq_to_set_is_finite(keys);
}

proof fn lemma_listing_update(s: Seq<(Seq<char>, LineView)>, p: int, kv: (Seq<char>, LineView))
    requires
        strictly_sorted(s),
        0 <= p < s.len(),
        s[p].0 == kv.0,
    ensures
        strictly_sorted(s.update(p, kv)),
        listing_map(s.update(p, kv)) == listing_map(s).insert(kv.0, kv.1),
{
    let t = s.update(p, kv);
    assert forall|i: int, j: int| 0 <= i < j < t.len() implies str_lt(#[trigger] t[i].0, #[trigger] t[j].0) by {
        assert(s[i].0 == t[i].0 && s[j].0 == t[j].0);
    }
    let m = listing_map(t);
    let m2 = listing_map(s).insert(kv.0, kv.1);
    assert forall|k: Seq<char>| m.contains_key(k) <==> m2.contains_key(k) by {
        if m.contains_key(k) {
            let j = choose|j: int| 0 <= j < t.len() && t[j].0 == k;
            assert(s[j].0 == k);
        }
        if listing_map(s).contains_key(k) {
            let j = choose|j: int| 0 <= j < s.len() && s[j].0 == k;
            assert(t[j].0 == k);
        }
        if k == kv.0 {
            assert(t[p].0 == k);
        }
    }
    assert forall|k: Seq<char>| m.contains_key(k) implies m[k] == m2[k] by {
        let j = choose|j: int| 0 <= j < t.len() && t[j].0 == k;
        lemma_listing_map_at(t, j);
        if j == p {
        } else {
            assert(s[j] == t[j]);
            lemma_listing_map_at(s, j);
            assert(k != kv.0) by {
                if j < p {
                    assert(str_lt(t[j].0, t[p].0));
                } else {
                    assert(str_lt(t[p].0, t[j].0));
                }
                lemma_str_lt_irreflexive(k);
            }
        }
    }
    assert(m =~= m2);
}

proof fn lemma_listing_insert(s: Seq<(Seq<char>, LineView)>, p: int, kv: (Seq<char>, LineView))
    requires
        strictly_sorted(s),
        0 <= p <= s.len(),
        forall|j: int| 0 <= j < p ==> str_lt(#[trigger] s[j].0, kv.0),
        p < s.len() ==> str_lt(kv.0, s[p].0),
    ensures
        strictly_sorted(s.insert(p, kv)),
        listing_map(s.insert(p, kv)) == listing_map(s).insert(kv.0, kv.1),
{
    let t = s.insert(p, kv);
    assert forall|j: int| p < j < t.len() implies str_lt(kv.0, #[trigger] t[j].0) by {
        assert(t[j] == s[j - 1]);
        if j - 1 > p {
            assert(str_lt(s[p].0, s[j - 1].0));
            lemma_str_lt_transitive(kv.0, s[p].0, s[j - 1].0);
        }
    }
    assert forall|i: int, j: int| 0 <= i < j < t.len() implies str_lt(#[trigger] t[i].0, #[trigger] t[j].0) by {
        if i < p && j == p {
        } else if i < p && j > p {
            assert(t[j] == s[j - 1]);
            assert(t[i] == s[i]);
        } else if i == p {
        } else if j < p {
            assert(t[j] == s[j]);
            assert(t[i] == s[i]);
        } else {
            assert(t[j] == s[j - 1]);
            assert(t[i] == s[i - 1]);
        }
    }
    let m = listing_map(t);
    let m2 = listing_map(s).insert(kv.0, kv.1);
    assert forall|k: Seq<char>| m.contains_key(k) <==> m2.contains_key(k) by {
        if m.contains_key(k) {
            let j = choose|j: int| 0 <= j < t.len() && t[j].0 == k;
            if j < p {
                assert(s[j].0 == k);
            } else if j > p {
                assert(s[j - 1].0 == k);
            }
        }
        if listing_map(s).contains_key(k) {
            let j = choose|j: int| 0 <= j < s.len() && s[j].0 == k;
            if j < p {
                assert(t[j].0 == k);
            } else {
                assert(t[j + 1].0 == k);
            }
        }
        if k == kv.0 {
            assert(t[p].0 == k);
        }
    }
    assert forall|k: Seq<char>| m.contains_key(k) implies m[k] == m2[k] by {
        let j = choose|j: int| 0 <= j < t.len() && t[j].0 == k;
        lemma_listing_map_at(t, j);
        if j != p {
            let js = if j < p { j } else { j - 1 };
            assert(s[js] == t[j]);
            lemma_listing_map_at(s, js);
            assert(k != kv.0) by {
                if j < p {
                    assert(str_lt(t[j].0, t[p].0));
                } else {
                    assert(str_lt(t[p].0, t[j].0));
                }
                lemma_str_lt_irreflexive(k);
            }
        }
    }
    assert(m =~= m2);
}

/// Law: after a line is put in the catalogue under `key`, reading `key` gives
/// that line, and reading any other key gives what it gave before.
pub proof fn law_read_after_insert(
    before: Map<Seq<char>, LineView>,
    key: Seq<char>,
    line: LineView,
    other: Seq<char>,
)
    ensures
        before.insert(key, line).contains_key(key),
        before.insert(key, line)[key] == line,
        other != key ==> (before.insert(key, line).contains_key(other) <==> before.contains_key(other)),
        other != key && before.contains_key(other) ==> before.insert(key, line)[other] == before[other],
{
}

} // verus!
