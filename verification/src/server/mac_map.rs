//! A map from addresses, kept in the order of the addresses.

use crate::server::mac;
use crate::server::mac::Mac;
use vstd::prelude::*;

verus! {

/// The entries stand in the order of their addresses, each address once.
pub open spec fn in_order<V>(entries: Seq<(Mac, V)>) -> bool {
    forall|i: int, j: int|
        0 <= i < j < entries.len() ==> (#[trigger] entries[i]).0.rank() < (
        #[trigger] entries[j]).0.rank()
}

/// Whether `mac` is the address of an entry.
pub open spec fn holds<V>(entries: Seq<(Mac, V)>, mac: Mac) -> bool {
    exists|i: int| 0 <= i < entries.len() && (#[trigger] entries[i]).0 == mac
}

/// The place of the entry for `mac`.
pub open spec fn place<V>(entries: Seq<(Mac, V)>, mac: Mac) -> int {
    choose|i: int| 0 <= i < entries.len() && (#[trigger] entries[i]).0 == mac
}

/// What the entries map each address to.
pub open spec fn as_map<V>(entries: Seq<(Mac, V)>) -> Map<Mac, V> {
    Map::new(|mac: Mac| holds(entries, mac), |mac: Mac| entries[place(entries, mac)].1)
}

pub struct MacMap<V> {
    entries: Vec<(Mac, V)>,
}

impl<V> View for MacMap<V> {
    type V = Map<Mac, V>;

    closed spec fn view(&self) -> Map<Mac, V> {
        as_map(self.entries@)
    }
}

impl<V> MacMap<V> {
    /// The entries, in the order of their addresses.
    pub closed spec fn in_sequence(&self) -> Seq<(Mac, V)> {
        self.entries@
    }

    pub closed spec fn wf(&self) -> bool {
        in_order(self.entries@)
    }

    pub fn new() -> (r: Self)
        ensures
            r.wf(),
            r@ == Map::<Mac, V>::empty(),
            r.in_sequence() == Seq::<(Mac, V)>::empty(),
    {
        let r = MacMap { entries: Vec::new() };
        assert(r@ =~= Map::<Mac, V>::empty());
        r
    }

    pub fn len(&self) -> (n: usize)
        ensures
            n == self.in_sequence().len(),
    {
        self.entries.len()
    }

    /// The entry at `i`, in the order of the addresses.
    pub fn at(&self, i: usize) -> (r: (&Mac, &V))
        requires
            i < self.in_sequence().len(),
        ensures
            (*r.0, *r.1) == self.in_sequence()[i as int],
    {
        let e = &self.entries[i];
        (&e.0, &e.1)
    }

    /// The first place whose address does not stand before `mac`.
    fn seek(&self, mac: &Mac) -> (k: usize)
        requires
            self.wf(),
        ensures
            k <= self.entries@.len(),
            forall|i: int| 0 <= i < k ==> (#[trigger] self.entries@[i]).0.rank() < mac.rank(),
            forall|i: int|
                k <= i < self.entries@.len() ==> (#[trigger] self.entries@[i]).0.rank()
                    >= mac.rank(),
    {
        let mut low: usize = 0;
        let mut high: usize = self.entries.len();
        while low < high
            invariant
                low <= high <= self.entries@.len(),
                in_order(self.entries@),
                forall|i: int|
                    0 <= i < low ==> (#[trigger] self.entries@[i]).0.rank() < mac.rank(),
                forall|i: int|
                    high <= i < self.entries@.len() ==> (#[trigger] self.entries@[i]).0.rank()
                        >= mac.rank(),
            decreases high - low,
        {
            let mid: usize = low + (high - low) / 2;
            if self.entries[mid].0.before(mac) {
                low = mid + 1;
            } else {
                high = mid;
            }
        }
        low
    }

    /// The first place whose address stands behind `mac`.
    pub fn behind(&self, mac: &Mac) -> (k: usize)
        requires
            self.wf(),
        ensures
            k <= self.in_sequence().len(),
            forall|i: int|
                0 <= i < k ==> (#[trigger] self.in_sequence()[i]).0.rank() <= mac.rank(),
            forall|i: int|
                k <= i < self.in_sequence().len() ==> (#[trigger] self.in_sequence()[i]).0.rank()
                    > mac.rank(),
    {
        let k = self.seek(mac);
        if k < self.entries.len() && self.entries[k].0 == *mac {
            k + 1
        } else {
            proof {
                if k < self.entries@.len() {
                    mac::law_rank_is_identity(self.entries@[k as int].0, *mac);
                }
            }
            k
        }
    }

    pub fn get(&self, mac: &Mac) -> (r: Option<&V>)
        requires
            self.wf(),
        ensures
            match r {
                Some(v) => self@.contains_key(*mac) && *v == self@[*mac],
                None => !self@.contains_key(*mac),
            },
    {
        let k = self.seek(mac);
        if k < self.entries.len() && self.entries[k].0 == *mac {
            proof {
                lemma_place(self.entries@, k as int);
            }
            Some(&self.entries[k].1)
        } else {
            proof {
                if holds(self.entries@, *mac) {
                    let i = place(self.entries@, *mac);
                    assert(self.entries@[i].0 == *mac);
                    if k < i {
                        assert(self.entries@[k as int].0.rank() < self.entries@[i].0.rank());
                    }
                    mac::law_rank_is_identity(self.entries@[k as int].0, *mac);
                }
            }
            None
        }
    }

    pub fn contains(&self, mac: &Mac) -> (r: bool)
        requires
            self.wf(),
        ensures
            r == self@.contains_key(*mac),
    {
        self.get(mac).is_some()
    }

    pub fn insert(&mut self, mac: Mac, value: V)
        requires
            old(self).wf(),
        ensures
            final(self).wf(),
            final(self)@ == old(self)@.insert(mac, value),
            final(self).in_sequence().len() == old(self).in_sequence().len() + if old(self)@.contains_key(mac) {
                0int
            } else {
                1
            },
    {
        let k = self.seek(&mac);
        let ghost was = self.entries@;
        if k < self.entries.len() && self.entries[k].0 == mac {
            self.entries.set(k, (mac, value));
            proof {
                assert(self.entries@ == was.update(k as int, (mac, value)));
                assert(was[k as int].0 == mac);
                lemma_set(was, k as int, (mac, value));
            }
        } else {
            proof {
                if k < was.len() {
                    mac::law_rank_is_identity(was[k as int].0, mac);
                }
            }
            self.entries.insert(k, (mac, value));
            proof {
                lemma_inserted(was, k as int, (mac, value));
            }
        }
    }

    /// The entries, in the order of their addresses.
    pub fn into_entries(self) -> (r: Vec<(Mac, V)>)
        ensures
            r@ == self.in_sequence(),
    {
        self.entries
    }

    /// Takes the entry for `mac` out.
    pub fn remove(&mut self, mac: &Mac) -> (r: Option<V>)
        requires
            old(self).wf(),
        ensures
            final(self).wf(),
            final(self)@ == old(self)@.remove(*mac),
            match r {
                Some(v) => old(self)@.contains_key(*mac) && v == old(self)@[*mac] && final(self).in_sequence().len() == old(self).in_sequence().len() - 1,
                None => !old(self)@.contains_key(*mac) && final(self).in_sequence() == old(self).in_sequence(),
            },
    {
        let k = self.seek(mac);
        let ghost was = self.entries@;
        if k < self.entries.len() && self.entries[k].0 == *mac {
            let e = self.entries.remove(k);
            proof {
                lemma_place(was, k as int);
                lemma_removed(was, k as int);
            }
            Some(e.1)
        } else {
            proof {
                if holds(was, *mac) {
                    let i = place(was, *mac);
                    assert(was[i].0 == *mac);
                    if k < i {
                        assert(was[k as int].0.rank() < was[i].0.rank());
                    }
                    mac::law_rank_is_identity(was[k as int].0, *mac);
                }
                assert(self@ =~= old(self)@.remove(*mac));
            }
            None
        }
    }
}

impl<V> MacMap<V> {
    /// The map and its entries say the same.
    pub proof fn lemma_in_sequence(&self)
        requires
            self.wf(),
        ensures
            in_order(self.in_sequence()),
            self@ == as_map(self.in_sequence()),
            self@.dom().finite(),
            self@.dom().len() == self.in_sequence().len(),
    {
        lemma_size(self.entries@);
    }
}

/// There are as many addresses in the map as there are entries.
pub proof fn lemma_size<V>(entries: Seq<(Mac, V)>)
    requires
        in_order(entries),
    ensures
        as_map(entries).dom().finite(),
        as_map(entries).dom().len() == entries.len(),
    decreases entries.len(),
{
    if entries.len() == 0 {
        assert(as_map(entries).dom() =~= Set::<Mac>::empty());
    } else {
        let rest = entries.drop_last();
        let last = entries.last().0;
        assert(in_order(rest));
        lemma_size(rest);
        assert(!holds(rest, last)) by {
            if holds(rest, last) {
                let i = place(rest, last);
                assert(rest[i].0 == last);
                assert(entries[i].0.rank() < entries[entries.len() - 1].0.rank());
            }
        }
        assert forall|mac: Mac| holds(entries, mac) == (holds(rest, mac) || mac == last) by {
            if holds(rest, mac) {
                let i = place(rest, mac);
                assert(rest[i].0 == mac);
                assert(entries[i].0 == mac);
            }
            if mac == last {
                assert(entries[entries.len() - 1].0 == mac);
            }
            if holds(entries, mac) && mac != last {
                let i = place(entries, mac);
                assert(entries[i].0 == mac);
                assert(rest[i].0 == mac);
            }
        }
        assert(as_map(entries).dom() =~= as_map(rest).dom().insert(last));
    }
}

/// The entry at `i` is what the map holds for its address.
pub proof fn lemma_place<V>(entries: Seq<(Mac, V)>, i: int)
    requires
        in_order(entries),
        0 <= i < entries.len(),
    ensures
        holds(entries, entries[i].0),
        place(entries, entries[i].0) == i,
        as_map(entries).contains_key(entries[i].0),
        as_map(entries)[entries[i].0] == entries[i].1,
{
    let mac = entries[i].0;
    assert(holds(entries, mac));
    let j = place(entries, mac);
    assert(entries[j].0 == mac);
    if i < j {
        assert(entries[i].0.rank() < entries[j].0.rank());
    } else if j < i {
        assert(entries[j].0.rank() < entries[i].0.rank());
    }
}

proof fn lemma_set<V>(was: Seq<(Mac, V)>, k: int, e: (Mac, V))
    requires
        in_order(was),
        0 <= k < was.len(),
        was[k].0 == e.0,
    ensures
        in_order(was.update(k, e)),
        as_map(was.update(k, e)) == as_map(was).insert(e.0, e.1),
        holds(was, e.0),
{
    let now = was.update(k, e);
    assert(in_order(now)) by {
        assert forall|i: int, j: int| 0 <= i < j < now.len() implies (#[trigger] now[i]).0.rank() < (
        #[trigger] now[j]).0.rank() by {
            assert(was[i].0.rank() < was[j].0.rank());
        }
    }
    lemma_place(was, k);
    lemma_place(now, k);
    assert forall|mac: Mac| mac != e.0 implies holds(now, mac) == holds(was, mac) && (holds(was, mac)
        ==> as_map(now)[mac] == as_map(was)[mac]) by {
        if holds(was, mac) {
            let i = place(was, mac);
            assert(was[i].0 == mac);
            assert(now[i].0 == mac);
            lemma_place(now, i);
        }
        if holds(now, mac) {
            let i = place(now, mac);
            assert(now[i].0 == mac);
            assert(was[i].0 == mac);
        }
    }
    assert(as_map(now) =~= as_map(was).insert(e.0, e.1));
}

proof fn lemma_inserted<V>(was: Seq<(Mac, V)>, k: int, e: (Mac, V))
    requires
        in_order(was),
        0 <= k <= was.len(),
        forall|i: int| 0 <= i < k ==> (#[trigger] was[i]).0.rank() < e.0.rank(),
        forall|i: int| k <= i < was.len() ==> (#[trigger] was[i]).0.rank() > e.0.rank(),
    ensures
        in_order(was.insert(k, e)),
        as_map(was.insert(k, e)) == as_map(was).insert(e.0, e.1),
        !holds(was, e.0),
{
    let now = was.insert(k, e);
    assert forall|i: int| 0 <= i < was.len() implies was[i] == now[if i < k {
        i
    } else {
        i + 1
    }] by {}
    assert(in_order(now)) by {
        assert forall|i: int, j: int| 0 <= i < j < now.len() implies (#[trigger] now[i]).0.rank() < (
        #[trigger] now[j]).0.rank() by {
            let a = if i < k {
                i
            } else {
                i - 1
            };
            let b = if j < k {
                j
            } else {
                j - 1
            };
            if i == k {
                assert(now[j] == was[b]);
            } else if j == k {
                assert(now[i] == was[a]);
            } else {
                assert(now[i] == was[a] && now[j] == was[b]);
            }
        }
    }
    assert(now[k] == e);
    lemma_place(now, k);
    assert forall|mac: Mac| mac != e.0 implies holds(now, mac) == holds(was, mac) && (holds(was, mac)
        ==> as_map(now)[mac] == as_map(was)[mac]) by {
        if holds(was, mac) {
            let i = place(was, mac);
            assert(was[i].0 == mac);
            let j = if i < k {
                i
            } else {
                i + 1
            };
            assert(now[j] == was[i]);
            lemma_place(now, j);
        }
        if holds(now, mac) {
            let j = place(now, mac);
            assert(now[j].0 == mac);
            let i = if j < k {
                j
            } else {
                j - 1
            };
            assert(was[i] == now[j]);
        }
    }
    assert(as_map(now) =~= as_map(was).insert(e.0, e.1));
}

proof fn lemma_removed<V>(was: Seq<(Mac, V)>, k: int)
    requires
        in_order(was),
        0 <= k < was.len(),
    ensures
        in_order(was.remove(k)),
        as_map(was.remove(k)) == as_map(was).remove(was[k].0),
{
    let now = was.remove(k);
    let gone = was[k].0;
    assert(in_order(now)) by {
        assert forall|i: int, j: int| 0 <= i < j < now.len() implies (#[trigger] now[i]).0.rank() < (
        #[trigger] now[j]).0.rank() by {
            let a = if i < k {
                i
            } else {
                i + 1
            };
            let b = if j < k {
                j
            } else {
                j + 1
            };
            assert(now[i] == was[a] && now[j] == was[b]);
        }
    }
    assert forall|mac: Mac| holds(now, mac) == (holds(was, mac) && mac != gone) && (holds(now, mac)
        ==> as_map(now)[mac] == as_map(was)[mac]) by {
        if holds(now, mac) {
            let j = place(now, mac);
            assert(now[j].0 == mac);
            let i = if j < k {
                j
            } else {
                j + 1
            };
            assert(was[i] == now[j]);
            lemma_place(was, i);
            lemma_place(was, k);
        }
        if holds(was, mac) && mac != gone {
            let i = place(was, mac);
            assert(was[i].0 == mac);
            let j = if i < k {
                i
            } else {
                i - 1
            };
            assert(now[j] == was[i]);
        }
    }
    assert(as_map(now) =~= as_map(was).remove(gone));
}

} // verus!
