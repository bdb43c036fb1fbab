//! The annotation map of one INFO cell: unique keys, each with the value
//! that was stored for it last.

use vstd::prelude::*;
use vstd::string::*;
use crate::text::str_eq;
use crate::text::views;

verus! {

/// A mapping from annotation key to value. A flag is a key whose value is
/// the empty string. Keys are kept in the order in which they first came.
pub struct InfoFieldMap {
    keys: Vec<String>,
    values: Vec<String>,
}

/// Whether no text occurs twice in `keys`.
pub open spec fn distinct(keys: Seq<Seq<char>>) -> bool {
    forall|i: int, j: int| 0 <= i < j < keys.len() ==> keys[i] != keys[j]
}

/// A position at which `key` stands in `keys`.
pub open spec fn position(keys: Seq<Seq<char>>, key: Seq<char>) -> int {
    choose|i: int| 0 <= i < keys.len() && keys[i] == key
}

/// The map that pairs each key with the value at its position.
pub open spec fn paired(keys: Seq<Seq<char>>, values: Seq<Seq<char>>) -> Map<Seq<char>, Seq<char>> {
    Map::new(|k: Seq<char>| keys.contains(k), |k: Seq<char>| values[position(keys, k)])
}

impl View for InfoFieldMap {
    type V = Map<Seq<char>, Seq<char>>;

    closed spec fn view(&self) -> Map<Seq<char>, Seq<char>> {
        paired(views(self.keys@), views(self.values@))
    }
}

impl InfoFieldMap {
    /// The invariant of the map: one value per key, and no key twice.
    pub closed spec fn wf(&self) -> bool {
        &&& self.keys.len() == self.values.len()
        &&& distinct(views(self.keys@))
    }

    /// The keys in the order in which they first came.
    pub closed spec fn key_order(&self) -> Seq<Seq<char>> {
        views(self.keys@)
    }

    /// The keys of a well-formed map are distinct, they are the domain of
    /// its view, and so the view is finite.
    pub proof fn lemma_keys(&self)
        requires
            self.wf(),
        ensures
            distinct(self.key_order()),
            forall|k: Seq<char>| self@.contains_key(k) <==> self.key_order().contains(k),
            self@.dom().finite(),
            self@.dom().len() == self.key_order().len(),
    {
        let keys = self.key_order();
        assert(self@.dom() =~= keys.to_set());
        keys.unique_seq_to_set();
        assert(keys.no_duplicates());
    }

    /// A map without keys.
    pub fn new() -> (map: InfoFieldMap)
        ensures
            map.wf(),
            map@ == Map::<Seq<char>, Seq<char>>::empty(),
            map.key_order() == Seq::<Seq<char>>::empty(),
    {
        let map = InfoFieldMap { keys: Vec::new(), values: Vec::new() };
        assert(map@ =~= Map::<Seq<char>, Seq<char>>::empty());
        assert(map.key_order() =~= Seq::<Seq<char>>::empty());
        map
    }

    /// Number of keys.
    pub fn len(&self) -> (n: usize)
        requires
            self.wf(),
        ensures
            n == self@.dom().len(),
            n == self.key_order().len(),
    {
        proof {
            self.lemma_keys();
        }
        self.keys.len()
    }

    fn find(&self, key: &str) -> (at: Option<usize>)
        requires
            self.wf(),
        ensures
            match at {
                Some(i) => i < self.keys.len() && self.keys@[i as int]@ == key@ && position(
                    views(self.keys@),
                    key@,
                ) == i,
                None => !views(self.keys@).contains(key@),
            },
    {
        let mut i: usize = 0;
        while i < self.keys.len()
            invariant
                i <= self.keys.len(),
                self.wf(),
                forall|j: int| 0 <= j < i ==> self.keys@[j]@ != key@,
            decreases self.keys.len() - i,
        {
            if str_eq(self.keys[i].as_str(), key) {
                proof {
                    let keys = views(self.keys@);
                    assert(keys[i as int] == key@);
                    let p = position(keys, key@);
                    assert(0 <= p < keys.len() && keys[p] == key@);
                    if p != i {
                        if p < i {
                            assert(keys[p] != keys[i as int]);
                        } else {
                            assert(keys[i as int] != keys[p]);
                        }
                    }
                }
                return Some(i);
            }
            i += 1;
        }
        proof {
            let keys = views(self.keys@);
            if keys.contains(key@) {
                let j = choose|j: int| 0 <= j < keys.len() && keys[j] == key@;
                assert(self.keys@[j]@ == key@);
            }
        }
        None
    }

    /// Whether the map holds `key`.
    pub fn contains_key(&self, key: &str) -> (held: bool)
        requires
            self.wf(),
        ensures
            held == self@.contains_key(key@),
    {
        match self.find(key) {
            Some(i) => {
                assert(views(self.keys@)[i as int] == key@);
                true
            },
            None => false,
        }
    }

    /// The value stored for `key`.
    pub fn get(&self, key: &str) -> (value: Option<&String>)
        requires
            self.wf(),
        ensures
            match value {
                Some(v) => self@.contains_key(key@) && v@ == self@[key@],
                None => !self@.contains_key(key@),
            },
    {
        match self.find(key) {
            Some(i) => {
                assert(views(self.keys@).contains(key@)) by {
                    assert(views(self.keys@)[i as int] == key@);
                }
                Some(&self.values[i])
            },
            None => None,
        }
    }

    /// Stores `value` for `key`, in place of any value stored for it before.
    pub fn insert(&mut self, key: String, value: String)
        requires
            old(self).wf(),
        ensures
            final(self).wf(),
            final(self)@ == old(self)@.insert(key@, value@),
            final(self).key_order() == if old(self)@.contains_key(key@) {
                old(self).key_order()
            } else {
                old(self).key_order().push(key@)
            },
    {
        let ghost keys = views(self.keys@);
        let ghost values = views(self.values@);
        match self.find(key.as_str()) {
            Some(i) => {
                self.values.set(i, value);
                proof {
                    let values2 = views(self.values@);
                    assert(views(self.keys@) == keys);
                    assert(keys[i as int] == key@);
                    assert(keys.contains(key@));
                    assert forall|k: Seq<char>| keys.contains(k) implies #[trigger] paired(
                        keys,
                        values2,
                    )[k] == paired(keys, values).insert(key@, value@)[k] by {
                        let p = position(keys, k);
                        if k != key@ {
                            assert(p != i);
                            assert(values2[p] == values[p]);
                        }
                    }
                    assert(paired(keys, values2) =~= paired(keys, values).insert(key@, value@));
                }
            },
            None => {
                self.keys.push(key);
                self.values.push(value);
                proof {
                    let keys2 = views(self.keys@);
                    let values2 = views(self.values@);
                    let n = keys.len() as int;
                    assert(keys2 =~= keys.push(key@));
                    assert(values2 =~= values.push(value@));
                    assert forall|k: Seq<char>| keys2.contains(k) <==> (keys.contains(k) || k
                        == key@) by {
                        if keys2.contains(k) {
                            let j = choose|j: int| 0 <= j < keys2.len() && keys2[j] == k;
                            if j < n {
                                assert(keys[j] == k);
                            }
                        }
                        if keys.contains(k) {
                            let j = choose|j: int| 0 <= j < keys.len() && keys[j] == k;
                            assert(keys2[j] == k);
                        }
                        if k == key@ {
                            assert(keys2[n] == k);
                        }
                    }
                    assert forall|i: int, j: int| 0 <= i < j < keys2.len() implies keys2[i]
                        != keys2[j] by {
                        if j == n {
                            assert(keys[i] == keys2[i]);
                            assert(keys.contains(keys[i]));
                        }
                    }
                    assert forall|k: Seq<char>| keys2.contains(k) implies #[trigger] paired(
                        keys2,
                        values2,
                    )[k] == paired(keys, values).insert(key@, value@)[k] by {
                        let p2 = position(keys2, k);
                        if k == key@ {
                            if p2 != n {
                                assert(keys[p2] == k);
                            }
                        } else {
                            let p = position(keys, k);
                            assert(keys2[p] == k);
                            if p2 != p {
                                assert(p2 != n);
                                assert(keys[p2] == k);
                                if p2 < p {
                                    assert(keys[p2] != keys[p]);
                                } else {
                                    assert(keys[p] != keys[p2]);
                                }
                            }
                        }
                    }
                    assert(paired(keys2, values2) =~= paired(keys, values).insert(key@, value@));
                }
            },
        }
    }

    /// The keys, in the order in which they first came.
    pub fn keys(&self) -> (keys: Vec<String>)
        ensures
            views(keys@) == self.key_order(),
    {
        let mut out: Vec<String> = Vec::new();
        let mut i: usize = 0;
        while i < self.keys.len()
            invariant
                i <= self.keys.len(),
                out.len() == i,
                forall|j: int| 0 <= j < i ==> out@[j]@ == self.keys@[j]@,
            decreases self.keys.len() - i,
        {
            out.push(self.keys[i].clone());
            i += 1;
        }
        assert(views(out@) =~= views(self.keys@));
        out
    }
}

} // verus!
