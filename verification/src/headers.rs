//! The header map: an ordered mapping from case-normalized field name to a
//! single field value.  Inserting a name that already exists overwrites the
//! prior value in place; no two entries ever share a normalized name.

use vstd::prelude::*;
use crate::ascii::{ascii_lowercase, lower_char, lower_chars};

verus! {

/// The position of `name` among the entries, if present.
pub open spec fn name_idx(hs: Seq<(Seq<char>, Seq<char>)>, name: Seq<char>) -> Option<int>
    decreases hs.len(),
{
    if hs.len() == 0 {
        None
    } else if hs[0].0 == name {
        Some(0)
    } else {
        match name_idx(hs.skip(1), name) {
            None => None,
            Some(i) => Some(i + 1),
        }
    }
}

/// `name_idx` finds exactly the first entry bearing the name.
pub proof fn lemma_name_idx(hs: Seq<(Seq<char>, Seq<char>)>, name: Seq<char>)
    ensures
        match name_idx(hs, name) {
            Some(i) => 0 <= i < hs.len() && hs[i].0 == name && forall|j: int|
                0 <= j < i ==> hs[j].0 != name,
            None => forall|j: int| 0 <= j < hs.len() ==> hs[j].0 != name,
        },
    decreases hs.len(),
{
    if hs.len() == 0 {
    } else if hs[0].0 == name {
    } else {
        lemma_name_idx(hs.skip(1), name);
        assert(forall|j: int| 1 <= j < hs.len() ==> hs[j] == hs.skip(1)[j - 1]);
    }
}

/// What inserting a header does to the entries: the name is normalized to
/// lower case; an existing entry with the same normalized name keeps its
/// position but its value is overwritten (the last write wins); otherwise
/// the pair is appended.
pub open spec fn insert_spec(
    hs: Seq<(Seq<char>, Seq<char>)>,
    name: Seq<char>,
    value: Seq<char>,
) -> Seq<(Seq<char>, Seq<char>)> {
    let key = lower_chars(name);
    match name_idx(hs, key) {
        Some(i) => hs.update(i, (key, value)),
        None => hs.push((key, value)),
    }
}

/// What looking a header up returns: the value stored under the normalized
/// name, if any.
pub open spec fn lookup_spec(hs: Seq<(Seq<char>, Seq<char>)>, name: Seq<char>) -> Option<
    Seq<char>,
> {
    match name_idx(hs, lower_chars(name)) {
        Some(i) => Some(hs[i].1),
        None => None,
    }
}

/// The header map's invariant: every stored name is already normalized, and
/// no two entries share a name.
pub open spec fn wf_headers(hs: Seq<(Seq<char>, Seq<char>)>) -> bool {
    &&& forall|i: int| 0 <= i < hs.len() ==> (#[trigger] hs[i]).0 == lower_chars(hs[i].0)
    &&& forall|i: int, j: int| 0 <= i < j < hs.len() ==> hs[i].0 != hs[j].0
}

/// Lowercasing is idempotent.
pub proof fn lemma_lower_idempotent(s: Seq<char>)
    ensures
        lower_chars(lower_chars(s)) == lower_chars(s),
{
    assert(lower_chars(lower_chars(s)) =~= lower_chars(s)) by {
        assert forall|i: int| 0 <= i < s.len() implies lower_chars(lower_chars(s))[i]
            == lower_chars(s)[i] by {
            let c = s[i];
            assert(lower_chars(s)[i] == lower_char(c));
            assert(lower_chars(lower_chars(s))[i] == lower_char(lower_char(c)));
            if 'A' <= c && c <= 'Z' {
                assert(lower_char(c) == ((c as u8) + 32) as char);
            }
        }
    }
}

/// An ordered mapping from case-normalized field name to a single field
/// value.  Serialization uses the map's own entry order.
#[derive(Debug)]
pub struct HeaderMap {
    entries: Vec<(String, String)>,
}

impl View for HeaderMap {
    type V = Seq<(Seq<char>, Seq<char>)>;

    closed spec fn view(&self) -> Seq<(Seq<char>, Seq<char>)> {
        Seq::new(self.entries@.len(), |i: int| (self.entries@[i].0@, self.entries@[i].1@))
    }
}

impl HeaderMap {
    /// The map's invariant holds of its entries.
    pub open spec fn wf(&self) -> bool {
        wf_headers(self@)
    }

    /// An empty map.
    pub fn new() -> (r: HeaderMap)
        ensures
            r@ == Seq::<(Seq<char>, Seq<char>)>::empty(),
            r.wf(),
    {
        let r = HeaderMap { entries: Vec::new() };
        proof {
            assert(r@ =~= Seq::<(Seq<char>, Seq<char>)>::empty());
        }
        r
    }

    /// How many headers the map holds.
    pub fn len(&self) -> (r: usize)
        ensures
            r == self@.len(),
    {
        self.entries.len()
    }

    /// The normalized name of the entry at a position.
    pub fn name_at(&self, i: usize) -> (r: String)
        requires
            i < self@.len(),
        ensures
            r@ == self@[i as int].0,
    {
        let e = &self.entries[i];
        e.0.clone()
    }

    /// The value of the entry at a position.
    pub fn value_at(&self, i: usize) -> (r: String)
        requires
            i < self@.len(),
        ensures
            r@ == self@[i as int].1,
    {
        let e = &self.entries[i];
        e.1.clone()
    }

    /// Inserts a header under the case-normalized name: an entry already
    /// bearing the name keeps its position but its value is overwritten,
    /// so the last write wins.
    pub fn insert(&mut self, name: &str, value: &str)
        requires
            old(self).wf(),
        ensures
            final(self).wf(),
            final(self)@ == insert_spec(old(self)@, name@, value@),
    {
        let key = ascii_lowercase(name);
        let val = value.to_owned();
        let ghost key_v = key@;
        proof {
            lemma_name_idx(self@, key_v);
        }
        let n = self.entries.len();
        let mut i: usize = 0;
        while i < n
            invariant
                self.entries@ == old(self).entries@,
                self@ == old(self)@,
                self.wf(),
                n == self@.len(),
                i <= n,
                n == self.entries@.len(),
                key_v == key@,
                key_v == lower_chars(name@),
                val@ == value@,
                forall|j: int| 0 <= j < i ==> self@[j].0 != key_v,
            decreases n - i,
        {
            proof {
                assert(self@[i as int].0 == self.entries@[i as int].0@);
            }
            let e = &self.entries[i];
            if e.0.eq(&key) {
                proof {
                    assert(self@[i as int].0 == key_v);
                    lemma_name_idx(self@, key_v);
                    match name_idx(self@, key_v) {
                        Some(k) => {
                            assert(k == i);
                        },
                        None => {
                            assert(false);
                        },
                    }
                }
                let ghost before = self@;
                self.entries.set(i, (key, val));
                proof {
                    assert(self@ =~= insert_spec(before, name@, value@));
                    assert forall|a: int, b: int|
                        0 <= a < b < self@.len() implies self@[a].0 != self@[b].0 by {
                        assert(before[a].0 != before[b].0);
                    }
                }
                return ;
            }
            i += 1;
        }
        proof {
            lemma_name_idx(self@, key_v);
            match name_idx(self@, key_v) {
                Some(k) => {
                    assert(self@[k].0 != key_v);
                    assert(false);
                },
                None => {},
            }
        }
        let ghost before = self@;
        self.entries.push((key, val));
        proof {
            assert(self@ =~= insert_spec(before, name@, value@));
            lemma_lower_idempotent(name@);
            assert forall|a: int, b: int| 0 <= a < b < self@.len() implies self@[a].0
                != self@[b].0 by {
                if b < before.len() {
                    assert(before[a].0 != before[b].0);
                } else {
                    assert(before[a].0 != key_v);
                }
            }
        }
    }

    /// Looks a header up by its case-normalized name.
    pub fn get(&self, name: &str) -> (r: Option<String>)
        ensures
            (match r {
                Some(v) => lookup_spec(self@, name@) == Some(v@),
                None => lookup_spec(self@, name@) is None,
            }),
    {
        let key = ascii_lowercase(name);
        let ghost key_v = key@;
        let n = self.entries.len();
        let mut i: usize = 0;
        while i < n
            invariant
                n == self@.len(),
                i <= n,
                n == self.entries@.len(),
                key_v == key@,
                key_v == lower_chars(name@),
                forall|j: int| 0 <= j < i ==> self@[j].0 != key_v,
            decreases n - i,
        {
            let e = &self.entries[i];
            proof {
                assert(self@[i as int].0 == self.entries@[i as int].0@);
            }
            if e.0.eq(&key) {
                proof {
                    assert(key_v == lower_chars(name@));
                    assert(self@[i as int].0 == key_v);
                    assert(self@[i as int].1 == self.entries@[i as int].1@);
                    lemma_name_idx(self@, key_v);
                    match name_idx(self@, key_v) {
                        Some(k) => {
                            assert(k == i);
                        },
                        None => {
                            assert(false);
                        },
                    }
                    assert(lookup_spec(self@, name@) == Some(self@[i as int].1));
                }
                return Some(e.1.clone());
            }
            i += 1;
        }
        proof {
            lemma_name_idx(self@, key_v);
            match name_idx(self@, key_v) {
                Some(k) => {
                    assert(self@[k].0 != key_v);
                    assert(false);
                },
                None => {},
            }
        }
        None
    }
}

} // verus!
