//! The canonical graph model: nodes, edges, hyperedges, property maps.
//!
//! A property map is an ordered association list with unique keys; a later
//! write to an existing key overwrites its value in place.

use vstd::prelude::*;
use crate::strutil::{str_eq, str_chars};
use crate::numeric::{spec_parse_i32, spec_int_string, parse_i32, i32_to_string};

verus! {

/// A sequence of key/value pairs of characters: the model of a property map.
pub type PairSeq = Seq<(Seq<char>, Seq<char>)>;

/// The model of a vector of string pairs.
pub open spec fn pairs_view(v: Seq<(String, String)>) -> PairSeq {
    Seq::new(v.len(), |i: int| (v[i].0@, v[i].1@))
}

/// The model of a vector of strings.
pub open spec fn strings_view(v: Seq<String>) -> Seq<Seq<char>> {
    Seq::new(v.len(), |i: int| v[i]@)
}

/// Whether some pair in the list carries the key.
pub open spec fn assoc_has(ps: PairSeq, k: Seq<char>) -> bool {
    exists|i: int| 0 <= i < ps.len() && (#[trigger] ps[i]).0 == k
}

/// The value of the first pair carrying the key, if any.
pub open spec fn assoc_get(ps: PairSeq, k: Seq<char>) -> Option<Seq<char>>
    decreases ps.len(),
{
    if ps.len() == 0 {
        None
    } else if ps[0].0 == k {
        Some(ps[0].1)
    } else {
        assoc_get(ps.skip(1), k)
    }
}

/// Writing a key: the first pair carrying it is overwritten in place;
/// a fresh key is appended at the end.
pub open spec fn assoc_insert(ps: PairSeq, k: Seq<char>, v: Seq<char>) -> PairSeq
    decreases ps.len(),
{
    if ps.len() == 0 {
        seq![(k, v)]
    } else if ps[0].0 == k {
        seq![(k, v)] + ps.skip(1)
    } else {
        seq![ps[0]] + assoc_insert(ps.skip(1), k, v)
    }
}

/// Removing a key: the first pair carrying it leaves the list.
pub open spec fn assoc_remove(ps: PairSeq, k: Seq<char>) -> PairSeq
    decreases ps.len(),
{
    if ps.len() == 0 {
        ps
    } else if ps[0].0 == k {
        ps.skip(1)
    } else {
        seq![ps[0]] + assoc_remove(ps.skip(1), k)
    }
}

/// All keys of the list are pairwise distinct.
pub open spec fn assoc_unique(ps: PairSeq) -> bool {
    forall|i: int, j: int|
        0 <= i < j < ps.len() ==> (#[trigger] ps[i]).0 != (#[trigger] ps[j]).0
}

/// `assoc_get` finds a key exactly when `assoc_has` holds of it.
pub proof fn lemma_assoc_get_has(ps: PairSeq, k: Seq<char>)
    ensures
        assoc_get(ps, k) is Some <==> assoc_has(ps, k),
    decreases ps.len(),
{
    if ps.len() > 0 {
        lemma_assoc_get_has(ps.skip(1), k);
        if ps[0].0 != k {
            assert(assoc_has(ps.skip(1), k) ==> assoc_has(ps, k)) by {
                if assoc_has(ps.skip(1), k) {
                    let i = choose|i: int|
                        0 <= i < ps.skip(1).len() && (#[trigger] ps.skip(1)[i]).0 == k;
                    assert(ps[i + 1].0 == k);
                }
            };
            assert(assoc_has(ps, k) ==> assoc_has(ps.skip(1), k)) by {
                if assoc_has(ps, k) {
                    let i = choose|i: int| 0 <= i < ps.len() && (#[trigger] ps[i]).0 == k;
                    assert(ps.skip(1)[i - 1].0 == k);
                }
            };
        }
    }
}

/// After a write, reading the written key yields the written value and
/// every other key is unchanged.
pub proof fn lemma_assoc_insert_get(ps: PairSeq, k: Seq<char>, v: Seq<char>, q: Seq<char>)
    ensures
        assoc_get(assoc_insert(ps, k, v), q)
            == if q == k { Some(v) } else { assoc_get(ps, q) },
    decreases ps.len(),
{
    if ps.len() == 0 {
        let one = seq![(k, v)];
        assert(assoc_insert(ps, k, v) == one);
        assert(one.skip(1) =~= Seq::<(Seq<char>, Seq<char>)>::empty());
        assert(one[0] == (k, v));
        if q == k {
            assert(assoc_get(one, q) == Some(v));
        } else {
            assert(assoc_get(one, q) == assoc_get(one.skip(1), q));
            assert(assoc_get(one.skip(1), q) is None);
        }
    } else if ps[0].0 == k {
        let r = seq![(k, v)] + ps.skip(1);
        assert(assoc_insert(ps, k, v) == r);
        assert(r[0] == (k, v));
        assert(r.len() == 1 + ps.skip(1).len());
        assert(r.skip(1) =~= ps.skip(1));
        if q == k {
            assert(assoc_get(r, q) == Some(v));
        } else {
            assert(assoc_get(r, q) == assoc_get(ps.skip(1), q));
            assert(assoc_get(ps, q) == assoc_get(ps.skip(1), q));
        }
    } else {
        let r = seq![ps[0]] + assoc_insert(ps.skip(1), k, v);
        assert(assoc_insert(ps, k, v) == r);
        assert(r[0] == ps[0]);
        assert(r.len() == 1 + assoc_insert(ps.skip(1), k, v).len());
        assert(r.skip(1) =~= assoc_insert(ps.skip(1), k, v));
        lemma_assoc_insert_get(ps.skip(1), k, v, q);
        if q == ps[0].0 {
            assert(assoc_get(r, q) == Some(ps[0].1));
            assert(assoc_get(ps, q) == Some(ps[0].1));
        } else {
            assert(assoc_get(r, q) == assoc_get(assoc_insert(ps.skip(1), k, v), q));
            assert(assoc_get(ps, q) == assoc_get(ps.skip(1), q));
        }
    }
}

/// Reading a pushed list: an already present key wins, else the pushed
/// pair answers.
pub proof fn lemma_assoc_get_push(ps: PairSeq, x: (Seq<char>, Seq<char>), q: Seq<char>)
    ensures
        assoc_get(ps.push(x), q) == if assoc_has(ps, q) {
            assoc_get(ps, q)
        } else if x.0 == q {
            Some(x.1)
        } else {
            None::<Seq<char>>
        },
    decreases ps.len(),
{
    let r = ps.push(x);
    if ps.len() == 0 {
        assert(r[0] == x);
        assert(r.skip(1) =~= Seq::<(Seq<char>, Seq<char>)>::empty());
        assert(!assoc_has(ps, q));
        if x.0 != q {
            assert(assoc_get(r, q) == assoc_get(r.skip(1), q));
        }
    } else {
        assert(r[0] == ps[0]);
        assert(r.skip(1) =~= ps.skip(1).push(x));
        lemma_assoc_get_push(ps.skip(1), x, q);
        assert(forall|j: int| 0 <= j < ps.skip(1).len()
            ==> (#[trigger] ps.skip(1)[j]) == ps[j + 1]);
        if ps[0].0 == q {
            assert(assoc_has(ps, q));
            assert(assoc_get(r, q) == Some(ps[0].1));
        } else {
            assert(assoc_get(r, q) == assoc_get(ps.skip(1).push(x), q));
            assert(assoc_get(ps, q) == assoc_get(ps.skip(1), q));
            assert(assoc_has(ps, q) <==> assoc_has(ps.skip(1), q)) by {
                if assoc_has(ps, q) {
                    let i = choose|i: int| 0 <= i < ps.len() && (#[trigger] ps[i]).0 == q;
                    assert(i >= 1);
                    assert(ps.skip(1)[i - 1].0 == q);
                }
                if assoc_has(ps.skip(1), q) {
                    let i = choose|i: int|
                        0 <= i < ps.skip(1).len() && (#[trigger] ps.skip(1)[i]).0 == q;
                    assert(ps[i + 1].0 == q);
                }
            };
        }
    }
}

/// Every key after a write is the written key or one that was present.
pub proof fn lemma_assoc_insert_keys(ps: PairSeq, k: Seq<char>, v: Seq<char>)
    ensures
        forall|j: int| 0 <= j < assoc_insert(ps, k, v).len()
            ==> (#[trigger] assoc_insert(ps, k, v)[j]).0 == k
                || assoc_has(ps, assoc_insert(ps, k, v)[j].0),
    decreases ps.len(),
{
    let r = assoc_insert(ps, k, v);
    if ps.len() == 0 {
    } else if ps[0].0 == k {
        assert(forall|j: int| 1 <= j < r.len() ==> r[j] == ps[j]);
        assert(forall|j: int| 1 <= j < r.len() ==> assoc_has(ps, (#[trigger] r[j]).0));
    } else {
        lemma_assoc_insert_keys(ps.skip(1), k, v);
        let tail = assoc_insert(ps.skip(1), k, v);
        assert(r[0] == ps[0]);
        assert(assoc_has(ps, ps[0].0));
        assert(forall|j: int| 1 <= j < r.len() ==> r[j] == tail[j - 1]);
        assert(forall|i: int| 0 <= i < ps.skip(1).len()
            ==> (#[trigger] ps.skip(1)[i]) == ps[i + 1]);
        assert(forall|q: Seq<char>| #[trigger] assoc_has(ps.skip(1), q) ==> assoc_has(ps, q)) by {
            assert(forall|q: Seq<char>| #[trigger] assoc_has(ps.skip(1), q) ==> {
                let i = choose|i: int|
                    0 <= i < ps.skip(1).len() && (#[trigger] ps.skip(1)[i]).0 == q;
                &&& ps[i + 1].0 == q
                &&& 0 <= i + 1 < ps.len()
            });
        };
    }
}

/// A write keeps the keys pairwise distinct.
pub proof fn lemma_assoc_insert_unique(ps: PairSeq, k: Seq<char>, v: Seq<char>)
    requires
        assoc_unique(ps),
    ensures
        assoc_unique(assoc_insert(ps, k, v)),
    decreases ps.len(),
{
    if ps.len() == 0 {
    } else if ps[0].0 == k {
        let r = seq![(k, v)] + ps.skip(1);
        assert(forall|i: int| 0 <= i < ps.skip(1).len()
            ==> (#[trigger] ps.skip(1)[i]) == ps[i + 1]);
        assert(forall|j: int| 1 <= j < r.len() ==> r[j] == ps[j]);
        assert(forall|j: int| 1 <= j < r.len() ==> (#[trigger] r[j]).0 != k);
    } else {
        let tail = assoc_insert(ps.skip(1), k, v);
        assert(forall|i: int| 0 <= i < ps.skip(1).len()
            ==> (#[trigger] ps.skip(1)[i]) == ps[i + 1]);
        assert(assoc_unique(ps.skip(1)));
        lemma_assoc_insert_unique(ps.skip(1), k, v);
        lemma_assoc_insert_keys(ps.skip(1), k, v);
        let r = seq![ps[0]] + tail;
        assert(forall|j: int| 1 <= j < r.len() ==> r[j] == tail[j - 1]);
        assert(!assoc_has(ps.skip(1), ps[0].0));
        assert(forall|j: int| 1 <= j < r.len() ==> (#[trigger] r[j]).0 != ps[0].0);
    }
}

/// The numeric id read from an identifier string: a single leading `n` or
/// `e` marker is stripped, the remainder is parsed as a decimal integer,
/// and a string that does not parse carries no id.
pub open spec fn spec_id_from_str(s: Seq<char>) -> Option<i32> {
    let rest = if s.len() > 0 && (s[0] == 'n' || s[0] == 'e') { s.skip(1) } else { s };
    match spec_parse_i32(rest) {
        Some(v) => Some(v as i32),
        None => None,
    }
}

/// The model of an empty property map.
pub open spec fn empty_props() -> PropertiesV {
    PropertiesV { id: None, pairs: Seq::empty() }
}

/// The model of a property map: its numeric id and its key/value pairs.
#[verifier::ext_equal]
pub ghost struct PropertiesV {
    pub id: Option<i32>,
    pub pairs: PairSeq,
}

/// A property map: an optional numeric id and an ordered list of
/// key/value pairs whose keys are unique.
#[derive(Debug)]
pub struct Properties {
    pub id: Option<i32>,
    pub other: Vec<(String, String)>,
}

impl View for Properties {
    type V = PropertiesV;

    open spec fn view(&self) -> PropertiesV {
        PropertiesV { id: self.id, pairs: pairs_view(self.other@) }
    }
}

/// Folding a raw pair list into a property map: an `id` key sets the
/// numeric id through `spec_id_from_str`, every other key is written into
/// the pair list in order.
pub open spec fn spec_map_values(ps: PairSeq) -> PropertiesV
    decreases ps.len(),
{
    if ps.len() == 0 {
        PropertiesV { id: None, pairs: Seq::empty() }
    } else {
        let prev = spec_map_values(ps.drop_last());
        let last = ps.last();
        if last.0 == "id"@ {
            PropertiesV { id: spec_id_from_str(last.1), pairs: prev.pairs }
        } else {
            PropertiesV { id: prev.id, pairs: assoc_insert(prev.pairs, last.0, last.1) }
        }
    }
}

impl Properties {
    /// The keys of the pair list are pairwise distinct.
    pub open spec fn wf(self) -> bool {
        assoc_unique(self@.pairs)
    }

    /// An empty property map.
    pub fn new() -> (r: Self)
        ensures
            r@ == empty_props(),
            r.wf(),
    {
        let r = Properties { id: None, other: Vec::new() };
        proof {
            assert(r@.pairs =~= Seq::<(Seq<char>, Seq<char>)>::empty());
            assert(r@ =~= empty_props());
        }
        r
    }

    /// Builds a property map from raw pairs, routing the `id` key into the
    /// numeric id slot.
    pub fn map_values(props: Vec<(String, String)>) -> (r: Self)
        ensures
            r@ == spec_map_values(pairs_view(props@)),
            r.wf(),
    {
        let mut r = Properties::new();
        let ghost all = pairs_view(props@);
        proof {
            assert(all.take(0) =~= Seq::empty());
            assert(r@ == spec_map_values(all.take(0)));
        }
        let mut i: usize = 0;
        while i < props.len()
            invariant
                i <= props.len(),
                all == pairs_view(props@),
                r@ == spec_map_values(all.take(i as int)),
                r.wf(),
            decreases props.len() - i,
        {
            let (key, value) = (&props[i].0, &props[i].1);
            proof {
                assert(all.take(i + 1).drop_last() =~= all.take(i as int));
                assert(all.take(i + 1).last() == (key@, value@));
            }
            if str_eq(key.as_str(), "id") {
                r.id = Self::get_id_from_str(value.as_str());
            } else {
                proof {
                    lemma_assoc_insert_unique(r@.pairs, key@, value@);
                }
                r.insert_pair(key.clone(), value.clone());
            }
            i = i + 1;
        }
        proof {
            assert(all.take(i as int) =~= all);
        }
        r
    }

    /// Writes a pair without touching the numeric id slot.
    fn insert_pair(&mut self, key: String, value: String)
        ensures
            final(self)@.pairs == assoc_insert(old(self)@.pairs, key@, value@),
            final(self)@.id == old(self)@.id,
    {
        let ghost orig = self@.pairs;
        let mut i: usize = 0;
        while i < self.other.len()
            invariant
                i <= self.other.len(),
                self@ == old(self)@,
                forall|j: int| 0 <= j < i ==> (#[trigger] orig[j]).0 != key@,
            decreases self.other.len() - i,
        {
            if str_eq(self.other[i].0.as_str(), key.as_str()) {
                let ghost k = key@;
                let ghost v = value@;
                let kv = (key, value);
                self.other[i] = kv;
                proof {
                    lemma_assoc_insert_at(orig, k, v, i as int);
                    assert(pairs_view(self.other@) =~= orig.update(i as int, (k, v)));
                }
                return;
            }
            i = i + 1;
        }
        self.other.push((key, value));
        proof {
            lemma_assoc_insert_fresh(orig, key@, value@);
            assert(pairs_view(self.other@) =~= orig.push((key@, value@)));
        }
    }

    /// The value stored under a key, if any.
    pub fn get(&self, key: &str) -> (r: Option<&String>)
        ensures
            match r {
                Some(v) => assoc_get(self@.pairs, key@) == Some(v@),
                None => assoc_get(self@.pairs, key@) is None,
            },
    {
        let mut i: usize = 0;
        while i < self.other.len()
            invariant
                i <= self.other.len(),
                forall|j: int| 0 <= j < i ==> (#[trigger] self@.pairs[j]).0 != key@,
            decreases self.other.len() - i,
        {
            if str_eq(self.other[i].0.as_str(), key) {
                proof {
                    lemma_assoc_get_at(self@.pairs, key@, i as int);
                }
                return Some(&self.other[i].1);
            }
            i = i + 1;
        }
        proof {
            lemma_assoc_get_none(self@.pairs, key@);
        }
        None
    }

    /// Writes a key/value pair; an existing key is overwritten in place.
    pub fn insert(&mut self, key: String, value: String)
        ensures
            final(self)@.pairs == assoc_insert(old(self)@.pairs, key@, value@),
            final(self)@.id == old(self)@.id,
            old(self).wf() ==> final(self).wf(),
    {
        proof {
            if self.wf() {
                lemma_assoc_insert_unique(self@.pairs, key@, value@);
            }
        }
        self.insert_pair(key, value);
    }

    /// Removes a key, handing back the value it held.
    pub fn remove(&mut self, key: &str) -> (r: Option<String>)
        ensures
            final(self)@.pairs == assoc_remove(old(self)@.pairs, key@),
            final(self)@.id == old(self)@.id,
            match r {
                Some(v) => assoc_get(old(self)@.pairs, key@) == Some(v@),
                None => assoc_get(old(self)@.pairs, key@) is None,
            },
    {
        let ghost orig = self@.pairs;
        let mut i: usize = 0;
        while i < self.other.len()
            invariant
                i <= self.other.len(),
                self@ == old(self)@,
                forall|j: int| 0 <= j < i ==> (#[trigger] orig[j]).0 != key@,
            decreases self.other.len() - i,
        {
            if str_eq(self.other[i].0.as_str(), key) {
                let removed = self.other.remove(i);
                proof {
                    lemma_assoc_get_at(orig, key@, i as int);
                    lemma_assoc_remove_at(orig, key@, i as int);
                    assert(pairs_view(self.other@)
                        =~= orig.subrange(0, i as int) + orig.skip(i + 1));
                }
                return Some(removed.1);
            }
            i = i + 1;
        }
        proof {
            lemma_assoc_get_none(orig, key@);
            lemma_assoc_remove_none(orig, key@);
        }
        None
    }

    /// Sets the numeric id.
    pub fn set_id(&mut self, id: i32)
        ensures
            final(self)@.id == Some(id),
            final(self)@.pairs == old(self)@.pairs,
    {
        self.id = Some(id);
    }

    /// The numeric id, if one is set.
    pub fn get_id(&self) -> (r: Option<i32>)
        ensures
            r == self@.id,
    {
        self.id
    }

    /// Sets the numeric id from a decimal string. The string must parse;
    /// use `get_id_from_str` for identifiers that may not.
    pub fn set_id_from_str(&mut self, id: &str)
        requires
            spec_parse_i32(id@) is Some,
        ensures
            final(self)@.id == Some(spec_parse_i32(id@).unwrap() as i32),
            final(self)@.pairs == old(self)@.pairs,
    {
        let chars = str_chars(id);
        match parse_i32(chars.as_slice()) {
            Some(v) => {
                self.id = Some(v);
            },
            None => {
                proof {
                    assert(false);
                }
            },
        }
    }

    /// The numeric id printed in decimal, if one is set.
    pub fn get_id_as_str(&self) -> (r: Option<String>)
        ensures
            match self@.id {
                Some(v) => r is Some && r.unwrap()@ == spec_int_string(v as int),
                None => r is None,
            },
    {
        match self.id {
            Some(v) => Some(i32_to_string(v)),
            None => None,
        }
    }

    /// Reads a numeric id out of an identifier string such as `n3` or
    /// `e12`: one leading marker is stripped and the rest parsed.
    pub fn get_id_from_str(id: &str) -> (r: Option<i32>)
        ensures
            r == spec_id_from_str(id@),
    {
        let chars = str_chars(id);
        let rest: &[char] = if chars.len() > 0 && (chars[0] == 'n' || chars[0] == 'e') {
            let (_, tail) = chars.as_slice().split_at(1);
            proof {
                assert(tail@ =~= id@.skip(1));
            }
            tail
        } else {
            chars.as_slice()
        };
        parse_i32(rest)
    }
}

/// Writing a key present first at position `i` overwrites that pair.
proof fn lemma_assoc_insert_at(ps: PairSeq, k: Seq<char>, v: Seq<char>, i: int)
    requires
        0 <= i < ps.len(),
        ps[i].0 == k,
        forall|j: int| 0 <= j < i ==> (#[trigger] ps[j]).0 != k,
    ensures
        assoc_insert(ps, k, v) == ps.update(i, (k, v)),
    decreases i,
{
    if i == 0 {
        assert(seq![(k, v)] + ps.skip(1) =~= ps.update(0, (k, v)));
    } else {
        assert(ps.skip(1)[i - 1].0 == k);
        assert(forall|j: int| 0 <= j < ps.skip(1).len()
            ==> (#[trigger] ps.skip(1)[j]) == ps[j + 1]);
        lemma_assoc_insert_at(ps.skip(1), k, v, i - 1);
        assert(seq![ps[0]] + ps.skip(1).update(i - 1, (k, v)) =~= ps.update(i, (k, v)));
    }
}

/// Writing a key that is absent appends the pair.
proof fn lemma_assoc_insert_fresh(ps: PairSeq, k: Seq<char>, v: Seq<char>)
    requires
        forall|j: int| 0 <= j < ps.len() ==> (#[trigger] ps[j]).0 != k,
    ensures
        assoc_insert(ps, k, v) == ps.push((k, v)),
    decreases ps.len(),
{
    if ps.len() == 0 {
        assert(seq![(k, v)] =~= ps.push((k, v)));
    } else {
        assert(forall|j: int| 0 <= j < ps.skip(1).len()
            ==> (#[trigger] ps.skip(1)[j]) == ps[j + 1]);
        lemma_assoc_insert_fresh(ps.skip(1), k, v);
        assert(seq![ps[0]] + ps.skip(1).push((k, v)) =~= ps.push((k, v)));
    }
}

/// Reading a key present first at position `i` yields that pair's value.
pub proof fn lemma_assoc_get_at(ps: PairSeq, k: Seq<char>, i: int)
    requires
        0 <= i < ps.len(),
        ps[i].0 == k,
        forall|j: int| 0 <= j < i ==> (#[trigger] ps[j]).0 != k,
    ensures
        assoc_get(ps, k) == Some(ps[i].1),
    decreases i,
{
    if i > 0 {
        assert(ps.skip(1)[i - 1] == ps[i]);
        assert(forall|j: int| 0 <= j < ps.skip(1).len()
            ==> (#[trigger] ps.skip(1)[j]) == ps[j + 1]);
        lemma_assoc_get_at(ps.skip(1), k, i - 1);
    }
}

/// Reading a key that is absent yields nothing.
proof fn lemma_assoc_get_none(ps: PairSeq, k: Seq<char>)
    requires
        forall|j: int| 0 <= j < ps.len() ==> (#[trigger] ps[j]).0 != k,
    ensures
        assoc_get(ps, k) is None,
    decreases ps.len(),
{
    if ps.len() > 0 {
        assert(forall|j: int| 0 <= j < ps.skip(1).len()
            ==> (#[trigger] ps.skip(1)[j]) == ps[j + 1]);
        lemma_assoc_get_none(ps.skip(1), k);
    }
}

/// Removing a key present first at position `i` cuts out that pair.
proof fn lemma_assoc_remove_at(ps: PairSeq, k: Seq<char>, i: int)
    requires
        0 <= i < ps.len(),
        ps[i].0 == k,
        forall|j: int| 0 <= j < i ==> (#[trigger] ps[j]).0 != k,
    ensures
        assoc_remove(ps, k) == ps.subrange(0, i) + ps.skip(i + 1),
    decreases i,
{
    if i == 0 {
        assert(ps.subrange(0, 0) + ps.skip(1) =~= ps.skip(1));
    } else {
        assert(ps.skip(1)[i - 1] == ps[i]);
        assert(forall|j: int| 0 <= j < ps.skip(1).len()
            ==> (#[trigger] ps.skip(1)[j]) == ps[j + 1]);
        lemma_assoc_remove_at(ps.skip(1), k, i - 1);
        assert(seq![ps[0]] + (ps.skip(1).subrange(0, i - 1) + ps.skip(1).skip(i))
            =~= ps.subrange(0, i) + ps.skip(i + 1));
    }
}

/// Removing a key that is absent leaves the list unchanged.
proof fn lemma_assoc_remove_none(ps: PairSeq, k: Seq<char>)
    requires
        forall|j: int| 0 <= j < ps.len() ==> (#[trigger] ps[j]).0 != k,
    ensures
        assoc_remove(ps, k) == ps,
    decreases ps.len(),
{
    if ps.len() > 0 {
        assert(forall|j: int| 0 <= j < ps.skip(1).len()
            ==> (#[trigger] ps.skip(1)[j]) == ps[j + 1]);
        lemma_assoc_remove_none(ps.skip(1), k);
        assert(seq![ps[0]] + ps.skip(1) =~= ps);
    }
}

/// The model of a node.
#[verifier::ext_equal]
pub ghost struct NodeV {
    pub id: Option<i32>,
    pub label: Seq<char>,
    pub node_type: Seq<char>,
    pub properties: PropertiesV,
}

/// A node of the canonical graph: display label, category tag, optional
/// derived numeric id, and a property map.
#[derive(Debug)]
pub struct Node {
    pub id: Option<i32>,
    pub label: String,
    pub node_type: String,
    pub properties: Properties,
}

impl View for Node {
    type V = NodeV;

    open spec fn view(&self) -> NodeV {
        NodeV {
            id: self.id,
            label: self.label@,
            node_type: self.node_type@,
            properties: self.properties@,
        }
    }
}

/// The model of an edge.
#[verifier::ext_equal]
pub ghost struct EdgeV {
    pub source: Seq<char>,
    pub target: Seq<char>,
    pub relation_type: Seq<char>,
    pub properties: PropertiesV,
}

/// An edge of the canonical graph, referencing its endpoints by label.
#[derive(Debug)]
pub struct Edge {
    pub source: String,
    pub target: String,
    pub relation_type: String,
    pub properties: Properties,
}

impl View for Edge {
    type V = EdgeV;

    open spec fn view(&self) -> EdgeV {
        EdgeV {
            source: self.source@,
            target: self.target@,
            relation_type: self.relation_type@,
            properties: self.properties@,
        }
    }
}

/// The model of a hyperedge.
#[verifier::ext_equal]
pub ghost struct HyperedgeV {
    pub label: Seq<char>,
    pub edge_type: Seq<char>,
    pub hypertype: Seq<char>,
    pub value: Seq<Seq<char>>,
}

/// A derived grouping entity: the member identifiers under `value` share
/// the property key `edge_type` with the value `label`.
#[derive(Debug)]
pub struct Hyperedge {
    pub label: String,
    pub edge_type: String,
    pub hypertype: String,
    pub value: Vec<String>,
}

impl View for Hyperedge {
    type V = HyperedgeV;

    open spec fn view(&self) -> HyperedgeV {
        HyperedgeV {
            label: self.label@,
            edge_type: self.edge_type@,
            hypertype: self.hypertype@,
            value: strings_view(self.value@),
        }
    }
}

/// The model of nodes in order.
pub open spec fn nodes_view(s: Seq<Node>) -> Seq<NodeV> {
    Seq::new(s.len(), |i: int| s[i]@)
}

/// The model of edges in order.
pub open spec fn edges_view(s: Seq<Edge>) -> Seq<EdgeV> {
    Seq::new(s.len(), |i: int| s[i]@)
}

/// The model of hyperedges in order.
pub open spec fn hyperedges_view(s: Seq<Hyperedge>) -> Seq<HyperedgeV> {
    Seq::new(s.len(), |i: int| s[i]@)
}

/// The model of a graph.
#[verifier::ext_equal]
pub ghost struct GraphV {
    pub nodes: Seq<NodeV>,
    pub edges: Seq<EdgeV>,
    pub hyperedges: Seq<HyperedgeV>,
}

/// The canonical graph: ordered nodes and edges, and the hyperedges
/// derived from them.
#[derive(Debug)]
pub struct Graph {
    pub nodes: Vec<Node>,
    pub edges: Vec<Edge>,
    pub hyperedges: Vec<Hyperedge>,
}

impl View for Graph {
    type V = GraphV;

    open spec fn view(&self) -> GraphV {
        GraphV {
            nodes: nodes_view(self.nodes@),
            edges: edges_view(self.edges@),
            hyperedges: hyperedges_view(self.hyperedges@),
        }
    }
}

/// A copy of a property map, equal to the original in the model.
pub fn clone_properties(p: &Properties) -> (r: Properties)
    ensures
        r@ == p@,
{
    let mut other: Vec<(String, String)> = Vec::new();
    let mut i: usize = 0;
    while i < p.other.len()
        invariant
            i <= p.other.len(),
            pairs_view(other@) == pairs_view(p.other@).take(i as int),
        decreases p.other.len() - i,
    {
        other.push((p.other[i].0.clone(), p.other[i].1.clone()));
        proof {
            assert(pairs_view(other@) =~= pairs_view(p.other@).take(i + 1));
        }
        i = i + 1;
    }
    proof {
        assert(pairs_view(other@) =~= pairs_view(p.other@));
    }
    Properties { id: p.id, other }
}

/// A copy of a node, equal to the original in the model.
pub fn clone_node(n: &Node) -> (r: Node)
    ensures
        r@ == n@,
{
    Node {
        id: n.id,
        label: n.label.clone(),
        node_type: n.node_type.clone(),
        properties: clone_properties(&n.properties),
    }
}

/// A copy of an edge, equal to the original in the model.
pub fn clone_edge(e: &Edge) -> (r: Edge)
    ensures
        r@ == e@,
{
    Edge {
        source: e.source.clone(),
        target: e.target.clone(),
        relation_type: e.relation_type.clone(),
        properties: clone_properties(&e.properties),
    }
}

} // verus!
