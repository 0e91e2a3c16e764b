//! Named on/off switches that bus messages flip or set, each stamped with
//! the tick at which it last changed.
use vstd::prelude::*;
use vstd::utf8::{decode_utf8, valid_utf8};
use crate::codec::str_from_utf8;

verus! {

/// A switch's value and the tick at which it was set.
#[derive(PartialEq, Eq, Structural, Clone, Copy, Debug)]
pub struct Toggle {
    pub val: bool,
    pub set_time: u64,
}

/// The switches, by name.
pub struct Toggles {
    toggles: Vec<(String, Toggle)>,
}

pub open spec fn has_key(e: Seq<(String, Toggle)>, k: Seq<char>) -> bool {
    exists|i: int| 0 <= i < e.len() && e[i].0@ == k
}

pub open spec fn keys_distinct(e: Seq<(String, Toggle)>) -> bool {
    forall|i: int, j: int| 0 <= i < e.len() && 0 <= j < e.len() && e[i].0@ == e[j].0@ ==> i == j
}

/// The map from names to switches that the entries `e` hold.
pub open spec fn entries_map(e: Seq<(String, Toggle)>) -> Map<Seq<char>, Toggle> {
    Map::new(
        |k: Seq<char>| has_key(e, k),
        |k: Seq<char>| e[choose|i: int| 0 <= i < e.len() && e[i].0@ == k].1,
    )
}

impl View for Toggles {
    type V = Map<Seq<char>, Toggle>;

    closed spec fn view(&self) -> Map<Seq<char>, Toggle> {
        entries_map(self.toggles@)
    }
}

/// The name that message bytes carry, where they are UTF-8.
pub open spec fn message_name(data: Seq<u8>) -> Option<Seq<char>> {
    if valid_utf8(data) {
        Some(decode_utf8(data))
    } else {
        None
    }
}

/// The switches after `nm` flips at `tick` (an unset switch counts as off).
pub open spec fn flipped(m: Map<Seq<char>, Toggle>, nm: Seq<char>, tick: u64) -> Map<Seq<char>, Toggle> {
    m.insert(nm, Toggle { val: !(m.contains_key(nm) && m[nm].val), set_time: tick })
}

/// Flipping a switch twice leaves it as it was (off where it was unset),
/// and every other switch untouched.
pub proof fn law_flip_twice(m: Map<Seq<char>, Toggle>, nm: Seq<char>, t1: u64, t2: u64)
    ensures
        flipped(flipped(m, nm, t1), nm, t2)[nm].val == (m.contains_key(nm) && m[nm].val),
        forall|k: Seq<char>|
            k != nm ==> (#[trigger] flipped(flipped(m, nm, t1), nm, t2).contains_key(k) == m.contains_key(k)
                && (m.contains_key(k) ==> flipped(flipped(m, nm, t1), nm, t2)[k] == m[k])),
{
}

/// Reading a switch gives what was last set, and setting one leaves the
/// others alone.
pub proof fn law_set_get(m: Map<Seq<char>, Toggle>, nm: Seq<char>, t: Toggle, other: Seq<char>)
    requires
        other != nm,
    ensures
        m.insert(nm, t).contains_key(nm) && m.insert(nm, t)[nm] == t,
        m.insert(nm, t).contains_key(other) == m.contains_key(other),
        m.contains_key(other) ==> m.insert(nm, t)[other] == m[other],
{
}

impl Toggles {
    pub closed spec fn inv(&self) -> bool {
        keys_distinct(self.toggles@)
    }

    /// No switches.
    pub fn new() -> (t: Self)
        ensures
            t.inv(),
            t@ == Map::<Seq<char>, Toggle>::empty(),
    {
        let t = Toggles { toggles: Vec::new() };
        assert(t@ =~= Map::<Seq<char>, Toggle>::empty());
        t
    }

    /// Position of the entry named `key`.
    fn find(&self, key: &String) -> (r: Option<usize>)
        requires
            self.inv(),
        ensures
            match r {
                Some(i) => i < self.toggles@.len() && self.toggles@[i as int].0@ == key@,
                None => !has_key(self.toggles@, key@),
            },
    {
        let n = self.toggles.len();
        let mut i: usize = 0;
        while i < n
            invariant
                n == self.toggles@.len(),
                i <= n,
                forall|j: int| 0 <= j < i ==> self.toggles@[j].0@ != key@,
            decreases n - i,
        {
            if self.toggles[i].0 == *key {
                return Some(i);
            }
            i = i + 1;
        }
        None
    }

    /// Sets switch `nm` to `val`, stamped with `tick`.
    pub fn set(&mut self, tick: u64, nm: &str, val: bool)
        requires
            old(self).inv(),
        ensures
            final(self).inv(),
            final(self)@ == old(self)@.insert(nm@, Toggle { val, set_time: tick }),
    {
        let key = nm.to_owned();
        let t = Toggle { val, set_time: tick };
        let ghost e0 = self.toggles@;
        match self.find(&key) {
            Some(i) => {
                self.toggles.set(i, (key, t));
                let ghost e1 = self.toggles@;
                assert forall|k: Seq<char>| #[trigger] has_key(e1, k) == has_key(e0, k) by {
                    if has_key(e0, k) {
                        let j = choose|j: int| 0 <= j < e0.len() && e0[j].0@ == k;
                        if j == i {
                            assert(e1[j].0@ == k);
                        } else {
                            assert(e1[j] == e0[j]);
                        }
                    }
                    if has_key(e1, k) {
                        let j = choose|j: int| 0 <= j < e1.len() && e1[j].0@ == k;
                        if j != i {
                            assert(e1[j] == e0[j]);
                        }
                    }
                }
                assert(keys_distinct(e1));
                assert(entries_map(e1) =~= entries_map(e0).insert(nm@, t)) by {
                    assert forall|k: Seq<char>| has_key(e1, k) implies entries_map(e1)[k] == entries_map(
                        e0,
                    ).insert(nm@, t)[k] by {
                        let j1 = choose|j: int| 0 <= j < e1.len() && e1[j].0@ == k;
                        if k == nm@ {
                            assert(e1[i as int].0@ == k);
                        } else {
                            let j0 = choose|j: int| 0 <= j < e0.len() && e0[j].0@ == k;
                            assert(j1 != i);
                            assert(e1[j1] == e0[j1]);
                        }
                    }
                }
            },
            None => {
                self.toggles.push((key, t));
                let ghost e1 = self.toggles@;
                assert forall|k: Seq<char>| #[trigger] has_key(e1, k) == (has_key(e0, k) || k
                    == nm@) by {
                    if has_key(e0, k) {
                        let j = choose|j: int| 0 <= j < e0.len() && e0[j].0@ == k;
                        assert(e1[j] == e0[j]);
                    }
                    if k == nm@ {
                        assert(e1[e0.len() as int].0@ == k);
                    }
                    if has_key(e1, k) {
                        let j = choose|j: int| 0 <= j < e1.len() && e1[j].0@ == k;
                        if j < e0.len() {
                            assert(e1[j] == e0[j]);
                        }
                    }
                }
                assert(keys_distinct(e1)) by {
                    assert forall|a: int, b: int|
                        0 <= a < e1.len() && 0 <= b < e1.len() && e1[a].0@ == e1[b].0@ implies a
                        == b by {
                        if a < e0.len() {
                            assert(e1[a] == e0[a]);
                        }
                        if b < e0.len() {
                            assert(e1[b] == e0[b]);
                        }
                    }
                }
                assert(entries_map(e1) =~= entries_map(e0).insert(nm@, t)) by {
                    assert forall|k: Seq<char>| has_key(e1, k) implies entries_map(e1)[k] == entries_map(
                        e0,
                    ).insert(nm@, t)[k] by {
                        let j1 = choose|j: int| 0 <= j < e1.len() && e1[j].0@ == k;
                        if k == nm@ {
                            assert(e1[e0.len() as int].0@ == k);
                        } else {
                            assert(j1 < e0.len());
                            assert(e1[j1] == e0[j1]);
                        }
                    }
                }
            },
        }
    }

    /// Switch `nm`, if it was ever set.
    pub fn get(&self, nm: &str) -> (r: Option<Toggle>)
        requires
            self.inv(),
        ensures
            r == (if self@.contains_key(nm@) {
                Some(self@[nm@])
            } else {
                None
            }),
    {
        let key = nm.to_owned();
        match self.find(&key) {
            Some(i) => Some(self.toggles[i].1),
            None => None,
        }
    }

    /// Forgets every switch.
    pub fn reset(&mut self)
        requires
            old(self).inv(),
        ensures
            final(self).inv(),
            final(self)@ == Map::<Seq<char>, Toggle>::empty(),
    {
        self.toggles = Vec::new();
        assert(self@ =~= Map::<Seq<char>, Toggle>::empty());
    }

    /// Flips the switch that the message names (an unset switch counts as
    /// off); a name that is not UTF-8 changes nothing.
    pub fn handle(&mut self, tick: u64, data: &[u8])
        requires
            old(self).inv(),
        ensures
            final(self).inv(),
            match message_name(data@) {
                Some(nm) => final(self)@ == flipped(old(self)@, nm, tick),
                None => final(self)@ == old(self)@,
            },
    {
        let nm = match str_from_utf8(data) {
            Some(s) => s,
            None => return,
        };
        let prev = match self.get(nm) {
            Some(t) => t.val,
            None => false,
        };
        self.set(tick, nm, !prev);
    }

    /// Sets the switch that the message names to `val`; a name that is not
    /// UTF-8 changes nothing.
    pub fn handle_set(&mut self, tick: u64, data: &[u8], val: bool)
        requires
            old(self).inv(),
        ensures
            final(self).inv(),
            match message_name(data@) {
                Some(nm) => final(self)@ == old(self)@.insert(nm, Toggle { val, set_time: tick }),
                None => final(self)@ == old(self)@,
            },
    {
        let nm = match str_from_utf8(data) {
            Some(s) => s,
            None => return,
        };
        self.set(tick, nm, val);
    }
}

} // verus!
