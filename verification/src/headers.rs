//! The header table of a parsed request: a mapping from header name to header
//! value with at most one value per name, where a repeated name keeps the value
//! written last. Viewed as a `Map<Seq<u8>, Seq<u8>>` in contracts.
use vstd::prelude::*;
use vstd::map::*;
use vstd::assert_sets_equal;

verus! {

/// Association list with pairwise-distinct keys.
pub open spec fn unique_keys(s: Seq<(Vec<u8>, Vec<u8>)>) -> bool {
    forall|i: int, j: int| 0 <= i < j < s.len() ==> #[trigger] s[i].0@ != #[trigger] s[j].0@
}

pub open spec fn has_key(s: Seq<(Vec<u8>, Vec<u8>)>, k: Seq<u8>) -> bool {
    exists|i: int| 0 <= i < s.len() && #[trigger] s[i].0@ == k
}

pub open spec fn key_index(s: Seq<(Vec<u8>, Vec<u8>)>, k: Seq<u8>) -> int {
    choose|i: int| 0 <= i < s.len() && #[trigger] s[i].0@ == k
}

pub open spec fn value_of(s: Seq<(Vec<u8>, Vec<u8>)>, k: Seq<u8>) -> Seq<u8> {
    s[key_index(s, k)].1@
}

/// The mapping an entry list stands for.
pub open spec fn map_of(s: Seq<(Vec<u8>, Vec<u8>)>) -> Map<Seq<u8>, Seq<u8>> {
    Map::new(|k: Seq<u8>| has_key(s, k), |k: Seq<u8>| value_of(s, k))
}

/// With distinct keys, the entry at `i` is the one `value_of` speaks of.
proof fn lemma_key_at(s: Seq<(Vec<u8>, Vec<u8>)>, i: int)
    requires
        unique_keys(s),
        0 <= i < s.len(),
    ensures
        has_key(s, s[i].0@),
        key_index(s, s[i].0@) == i,
        value_of(s, s[i].0@) == s[i].1@,
{
    assert(has_key(s, s[i].0@));
    let j = key_index(s, s[i].0@);
    if j != i {
        if j < i {
            assert(s[j].0@ != s[i].0@);
        } else {
            assert(s[i].0@ != s[j].0@);
        }
    }
}

/// A header table. Internally an entry list whose keys stay distinct; a
/// repeated insert of the same name replaces the stored value.
pub struct HeaderMap {
    entries: Vec<(Vec<u8>, Vec<u8>)>,
}

impl View for HeaderMap {
    type V = Map<Seq<u8>, Seq<u8>>;

    closed spec fn view(&self) -> Map<Seq<u8>, Seq<u8>> {
        map_of(self.entries@)
    }
}

impl HeaderMap {
    /// Internal well-formedness: no name occurs twice.
    pub closed spec fn wf(&self) -> bool {
        unique_keys(self.entries@)
    }

    /// An empty table.
    pub fn new() -> (r: Self)
        ensures
            r.wf(),
            r@ == Map::<Seq<u8>, Seq<u8>>::empty(),
    {
        let r = HeaderMap { entries: Vec::new() };
        proof {
            assert_maps_equal!(map_of(r.entries@), Map::<Seq<u8>, Seq<u8>>::empty(), k => {
                assert(!has_key(r.entries@, k));
            });
        }
        r
    }

    /// Binds `name` to `value`; a value already bound to `name` is dropped.
    pub fn insert(&mut self, name: Vec<u8>, value: Vec<u8>)
        requires
            old(self).wf(),
        ensures
            final(self).wf(),
            final(self)@ == old(self)@.insert(name@, value@),
    {
        let ghost s0 = self.entries@;
        let mut i: usize = 0;
        let mut found: bool = false;
        while i < self.entries.len() && !found
            invariant
                0 <= i <= self.entries@.len(),
                self.entries@ == s0,
                !found ==> forall|j: int| 0 <= j < i ==> s0[j].0@ != name@,
                found ==> i < s0.len() && s0[i as int].0@ == name@,
            decreases s0.len() - i + (if found { 0int } else { 1int }),
        {
            if bytes_eq_pair(&self.entries, i, &name) {
                found = true;
            } else {
                i = i + 1;
            }
        }
        if found {
            self.entries.remove(i);
            proof {
                lemma_remove_keeps(s0, i as int);
            }
        } else {
            proof {
                assert(!has_key(s0, name@));
            }
        }
        let ghost s1 = self.entries@;
        self.entries.push((name, value));
        proof {
            let s2 = self.entries@;
            assert(!has_key(s1, name@));
            assert(forall|j: int| 0 <= j < s1.len() ==> s2[j] == s1[j]);
            assert(s2[s1.len() as int].0@ == name@ && s2[s1.len() as int].1@ == value@);
            assert(unique_keys(s2)) by {
                assert(forall|j: int| 0 <= j < s1.len() ==> #[trigger] s1[j].0@ != name@);
            }
            assert_maps_equal!(map_of(s2), map_of(s0).insert(name@, value@), k => {
                if k == name@ {
                    lemma_key_at(s2, s1.len() as int);
                } else {
                    assert(has_key(s2, k) <==> has_key(s1, k)) by {
                        if has_key(s2, k) {
                            let j = choose|j: int| 0 <= j < s2.len() && #[trigger] s2[j].0@ == k;
                            assert(j < s1.len() && s1[j].0@ == k);
                        }
                    }
                    if has_key(s1, k) {
                        let j = key_index(s1, k);
                        lemma_key_at(s1, j);
                        lemma_key_at(s2, j);
                    }
                }
            });
        }
    }

    /// The value bound to `name`, if any.
    pub fn get(&self, name: &[u8]) -> (r: Option<&Vec<u8>>)
        requires
            self.wf(),
        ensures
            match r {
                Some(v) => self@.contains_key(name@) && v@ == self@[name@],
                None => !self@.contains_key(name@),
            },
    {
        let mut i: usize = 0;
        while i < self.entries.len()
            invariant
                self.wf(),
                0 <= i <= self.entries@.len(),
                forall|j: int| 0 <= j < i ==> #[trigger] self.entries@[j].0@ != name@,
            decreases self.entries@.len() - i,
        {
            let hit = bytes_eq_ref(&self.entries, i, name);
            if hit {
                proof {
                    lemma_key_at(self.entries@, i as int);
                }
                return Some(&self.entries[i].1);
            }
            i = i + 1;
        }
        proof {
            assert(!has_key(self.entries@, name@));
        }
        None
    }

    /// Whether some value is bound to `name`.
    pub fn contains_key(&self, name: &[u8]) -> (r: bool)
        requires
            self.wf(),
        ensures
            r == self@.contains_key(name@),
    {
        match self.get(name) {
            Some(_) => true,
            None => false,
        }
    }

    /// How many names are bound.
    pub fn len(&self) -> (r: usize)
        requires
            self.wf(),
        ensures
            r == self@.dom().len(),
    {
        proof {
            lemma_dom_card(self.entries@);
        }
        self.entries.len()
    }
}

/// Removing the entry at `i` drops that binding and keeps every other one.
proof fn lemma_remove_keeps(s: Seq<(Vec<u8>, Vec<u8>)>, i: int)
    requires
        unique_keys(s),
        0 <= i < s.len(),
    ensures
        unique_keys(s.remove(i)),
        !has_key(s.remove(i), s[i].0@),
        forall|k: Seq<u8>| k != s[i].0@ ==> (#[trigger] has_key(s.remove(i), k) <==> has_key(
            s,
            k,
        )),
        forall|k: Seq<u8>| k != s[i].0@ && #[trigger] has_key(s, k) ==> value_of(s.remove(i), k)
            == value_of(s, k),
{
    let t = s.remove(i);
    assert(forall|j: int| 0 <= j < t.len() ==> #[trigger] t[j] == (if j < i {
        s[j]
    } else {
        s[j + 1]
    }));
    assert(!has_key(t, s[i].0@)) by {
        if has_key(t, s[i].0@) {
            let j = choose|j: int| 0 <= j < t.len() && #[trigger] t[j].0@ == s[i].0@;
            if j < i {
                assert(s[j].0@ == s[i].0@);
            } else {
                assert(s[j + 1].0@ == s[i].0@);
            }
        }
    }
    assert forall|k: Seq<u8>| k != s[i].0@ && #[trigger] has_key(s, k) implies has_key(t, k)
        && value_of(t, k) == value_of(s, k) by {
        let j = key_index(s, k);
        lemma_key_at(s, j);
        if j < i {
            assert(t[j].0@ == k);
            lemma_key_at(t, j);
        } else {
            assert(j > i);
            assert(t[j - 1].0@ == k);
            lemma_key_at(t, j - 1);
        }
    }
    assert forall|k: Seq<u8>| k != s[i].0@ && #[trigger] has_key(t, k) implies has_key(s, k) by {
        let j = choose|j: int| 0 <= j < t.len() && #[trigger] t[j].0@ == k;
        if j < i {
            assert(s[j].0@ == k);
        } else {
            assert(s[j + 1].0@ == k);
        }
    }
}

/// With distinct keys the mapping has exactly one entry per list element.
proof fn lemma_dom_card(s: Seq<(Vec<u8>, Vec<u8>)>)
    requires
        unique_keys(s),
    ensures
        map_of(s).dom().finite(),
        map_of(s).dom().len() == s.len(),
    decreases s.len(),
{
    broadcast use vstd::set::axiom_set_insert_len;

    if s.len() == 0 {
        assert_sets_equal!(map_of(s).dom(), Set::<Seq<u8>>::empty(), k => {
            assert(!has_key(s, k));
        });
    } else {
        let s0 = s.drop_last();
        assert(unique_keys(s0));
        lemma_dom_card(s0);
        let last = s.last();
        assert_sets_equal!(map_of(s).dom(), map_of(s0).dom().insert(last.0@), k => {
            if k == last.0@ {
                assert(s[s.len() - 1].0@ == k);
                assert(has_key(s, k));
            } else {
                if has_key(s, k) {
                    let j = choose|j: int| 0 <= j < s.len() && #[trigger] s[j].0@ == k;
                    assert(j < s.len() - 1);
                    assert(s0[j].0@ == k);
                    assert(has_key(s0, k));
                }
                if has_key(s0, k) {
                    let j = choose|j: int| 0 <= j < s0.len() && #[trigger] s0[j].0@ == k;
                    assert(s[j].0@ == k);
                    assert(has_key(s, k));
                }
            }
        });
        assert(!map_of(s0).dom().contains(last.0@)) by {
            if has_key(s0, last.0@) {
                let j = choose|j: int| 0 <= j < s0.len() && #[trigger] s0[j].0@ == last.0@;
                assert(s[j].0@ == s[s.len() - 1].0@);
            }
        }
    }
}

/// Compares the key of entry `i` with `name`.
fn bytes_eq_pair(entries: &Vec<(Vec<u8>, Vec<u8>)>, i: usize, name: &Vec<u8>) -> (r: bool)
    requires
        i < entries@.len(),
    ensures
        r == (entries@[i as int].0@ == name@),
{
    crate::bytes::bytes_eq(entries[i].0.as_slice(), name.as_slice())
}

/// Compares the key of entry `i` with `name` given as a slice.
fn bytes_eq_ref(entries: &Vec<(Vec<u8>, Vec<u8>)>, i: usize, name: &[u8]) -> (r: bool)
    requires
        i < entries@.len(),
    ensures
        r == (entries@[i as int].0@ == name@),
{
    crate::bytes::bytes_eq(entries[i].0.as_slice(), name)
}

} // verus!
