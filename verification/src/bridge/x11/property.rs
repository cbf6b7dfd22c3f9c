//! Window properties. There are no real windows, but the clipboard needs their
//! properties to work.

use std::collections::HashMap;
use vstd::prelude::*;

verus! {

broadcast use vstd::std_specs::hash::group_hash_axioms;

/// A window property.
pub struct Property {
    pub type_: u32,
    pub format: u8,
    pub data: Vec<u8>,
}

#[verifier::ext_equal]
pub struct PropertyView {
    pub type_: u32,
    pub format: u8,
    pub data: Seq<u8>,
}

impl View for Property {
    type V = PropertyView;

    open spec fn view(&self) -> PropertyView {
        PropertyView { type_: self.type_, format: self.format, data: self.data@ }
    }
}

/// The properties of a connection's windows.
pub struct Properties {
    map: HashMap<u64, Property>,
}

/// A window and an atom in one number.
pub open spec fn key(window: u32, property: u32) -> u64 {
    (window * 0x1_0000_0000 + property) as u64
}

/// Different windows or atoms have different numbers.
proof fn lemma_key(w1: u32, p1: u32, w2: u32, p2: u32)
    ensures
        key(w1, p1) == key(w2, p2) ==> w1 == w2 && p1 == p2,
        key(w1, p1) / 0x1_0000_0000 == w1,
        key(w1, p1) % 0x1_0000_0000 == p1,
{
}

fn pack(window: u32, property: u32) -> (k: u64)
    ensures
        k == key(window, property),
{
    window as u64 * 0x1_0000_0000 + property as u64
}

impl View for Properties {
    type V = Map<(u32, u32), PropertyView>;

    closed spec fn view(&self) -> Map<(u32, u32), PropertyView> {
        Map::new(
            |k: (u32, u32)| self.map@.dom().contains(key(k.0, k.1)),
            |k: (u32, u32)| self.map@[key(k.0, k.1)]@,
        )
    }
}

impl Default for Properties {
    fn default() -> (p: Self)
        ensures
            p@ == Map::<(u32, u32), PropertyView>::empty(),
    {
        let p = Properties { map: HashMap::new() };
        assert(p@ =~= Map::empty());
        p
    }
}

impl Properties {
    pub fn set(&mut self, window: u32, property: u32, value: Property)
        ensures
            final(self)@ == old(self)@.insert((window, property), value@),
    {
        let ghost m0 = self@;
        self.map.insert(pack(window, property), value);
        proof {
            assert forall|k: (u32, u32)| #[trigger] self@.dom().contains(k) == m0.insert(
                (window, property),
                value@,
            ).dom().contains(k) by {
                lemma_key(k.0, k.1, window, property);
            }
            assert forall|k: (u32, u32)| #[trigger] self@.dom().contains(k) implies self@[k] == m0.insert(
                (window, property),
                value@,
            )[k] by {
                lemma_key(k.0, k.1, window, property);
            }
            assert(self@ =~= m0.insert((window, property), value@));
        }
    }

    pub fn remove(&mut self, window: u32, property: u32) -> (r: Option<Property>)
        ensures
            r is Some == old(self)@.dom().contains((window, property)),
            r matches Some(p) ==> p@ == old(self)@[(window, property)],
            final(self)@ == old(self)@.remove((window, property)),
    {
        let ghost m0 = self@;
        let r = self.map.remove(&pack(window, property));
        proof {
            assert forall|k: (u32, u32)| #[trigger] self@.dom().contains(k) == m0.remove(
                (window, property),
            ).dom().contains(k) by {
                lemma_key(k.0, k.1, window, property);
            }
            assert forall|k: (u32, u32)| #[trigger] self@.dom().contains(k) implies self@[k] == m0.remove(
                (window, property),
            )[k] by {
                lemma_key(k.0, k.1, window, property);
            }
            assert(self@ =~= m0.remove((window, property)));
        }
        r
    }

    pub fn get(&self, window: u32, property: u32) -> (r: Option<&Property>)
        ensures
            r is Some == self@.dom().contains((window, property)),
            r matches Some(p) ==> p@ == self@[(window, property)],
    {
        self.map.get(&pack(window, property))
    }

    /// The atoms of every property set on `window`, each once.
    pub fn list(&self, window: u32) -> (v: Vec<u32>)
        ensures
            v@.no_duplicates(),
            forall|a: u32| #[trigger] v@.contains(a) <==> self@.dom().contains((window, a)),
    {
        let mut v: Vec<u32> = Vec::new();
        let ghost mut seen: Seq<u64> = Seq::empty();
        for k in it: self.map.keys()
            invariant
                seen.len() == it.index(),
                seen == it.seq().unref().take(it.index() as int),
                it.seq().unref().to_set() == self.map@.dom(),
                it.seq().no_duplicates(),
                it.index() == it.seq().len() ==> seen.to_set() == self.map@.dom(),
                v@.no_duplicates(),
                forall|a: u32| #[trigger] v@.contains(a) <==> seen.contains(key(window, a)),
        {
            let ghost seen0 = seen;
            let ghost v0 = v@;
            proof {
                seen = seen.push(*k);
                assert(seen =~= it.seq().unref().take(it.index() as int + 1));
                if it.index() + 1 == it.seq().len() {
                    assert(seen =~= it.seq().unref());
                }
                assert(!seen0.contains(*k)) by {
                    if seen0.contains(*k) {
                        let i = choose|i: int| 0 <= i < seen0.len() && seen0[i] == *k;
                        assert(it.seq()[i] == it.seq()[it.index() as int]);
                    }
                }
            }
            let w: u32 = (*k / 0x1_0000_0000) as u32;
            let a: u32 = (*k % 0x1_0000_0000) as u32;
            assert(key(w, a) == *k);
            if w == window {
                v.push(a);
            }
            proof {
                assert forall|b: u32| #[trigger] v@.contains(b) <==> seen.contains(key(window, b)) by {
                    lemma_key(window, b, w, a);
                    assert(v0.contains(b) <==> seen0.contains(key(window, b)));
                    assert(seen.contains(key(window, b)) <==> seen0.contains(key(window, b)) || key(window, b)
                        == *k) by {
                        if seen0.contains(key(window, b)) {
                            let i = choose|i: int| 0 <= i < seen0.len() && seen0[i] == key(window, b);
                            assert(seen[i] == key(window, b));
                        }
                        if key(window, b) == *k {
                            assert(seen[seen0.len() as int] == *k);
                        }
                    }
                    if w == window {
                        assert(v@.contains(b) <==> v0.contains(b) || b == a) by {
                            if v0.contains(b) {
                                let i = choose|i: int| 0 <= i < v0.len() && v0[i] == b;
                                assert(v@[i] == b);
                            }
                            if b == a {
                                assert(v@[v0.len() as int] == b);
                            }
                        }
                    }
                }
                if w == window {
                    assert(!v0.contains(a)) by {
                        assert(v0.contains(a) <==> seen0.contains(key(window, a)));
                    }
                    assert forall|i: int, j: int|
                        0 <= i < v@.len() && 0 <= j < v@.len() && i != j implies v@[i] != v@[j] by {
                        if i == v0.len() {
                            assert(v0.contains(v0[j]));
                        } else if j == v0.len() {
                            assert(v0.contains(v0[i]));
                        }
                    }
                }
            }
        }
        proof {
            assert forall|a: u32| #[trigger] v@.contains(a) <==> self@.dom().contains((window, a)) by {
                assert(seen.contains(key(window, a)) <==> self.map@.dom().contains(key(window, a))) by {
                    assert(seen.to_set() == self.map@.dom());
                    assert(seen.to_set().contains(key(window, a)) <==> seen.contains(key(window, a)));
                }
            }
        }
        v
    }
}

/// What was set is what is got, until it is removed.
pub proof fn law_set_then_get(m: Map<(u32, u32), PropertyView>, w: u32, p: u32, v: PropertyView, w2: u32, p2: u32)
    ensures
        m.insert((w, p), v)[(w, p)] == v,
        (w2, p2) != (w, p) ==> (m.insert((w, p), v).dom().contains((w2, p2)) <==> m.dom().contains((w2, p2))),
        !m.insert((w, p), v).remove((w, p)).dom().contains((w, p)),
{
}

} // verus!
