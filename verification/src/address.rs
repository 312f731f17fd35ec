//! The address of a peer, and the table from addresses to timestamps.

use vstd::prelude::*;

verus! {

/// The timestamp that identifies a handshake attempt.
pub type Timestamp = u64;

/// The socket address of a peer.
#[derive(Clone, Copy, PartialEq, Eq, Debug, Hash, Structural)]
pub enum SocketAddress {
    /// An IPv4 address and a port.
    V4 { octets: u32, port: u16 },
    /// An IPv6 address with its port, flow information and scope.
    V6 { segments: u128, port: u16, flowinfo: u32, scope_id: u32 },
}

/// The timestamp bound to each address that has one. No address occurs
/// twice.
pub struct AddressMap {
    entries: Vec<(SocketAddress, Timestamp)>,
}

/// Whether `address` is the address of entry `i`.
pub open spec fn entry_is(entries: Seq<(SocketAddress, Timestamp)>, i: int, address: SocketAddress) -> bool {
    0 <= i < entries.len() && entries[i].0 == address
}

/// The table that a list of entries stands for.
pub open spec fn entries_map(entries: Seq<(SocketAddress, Timestamp)>) -> Map<SocketAddress, Timestamp> {
    Map::new(
        |address: SocketAddress| exists|i: int| entry_is(entries, i, address),
        |address: SocketAddress| entries[choose|i: int| entry_is(entries, i, address)].1,
    )
}

/// No address occurs twice in a list of entries.
pub open spec fn distinct_addresses(entries: Seq<(SocketAddress, Timestamp)>) -> bool {
    forall|i: int, j: int|
        0 <= i < entries.len() && 0 <= j < entries.len() && i != j ==> entries[i].0 != entries[j].0
}

impl View for AddressMap {
    type V = Map<SocketAddress, Timestamp>;

    closed spec fn view(&self) -> Map<SocketAddress, Timestamp> {
        entries_map(self.entries@)
    }
}

impl AddressMap {
    /// No address occurs twice.
    pub closed spec fn wf(&self) -> bool {
        distinct_addresses(self.entries@)
    }

    /// A table without entries.
    pub fn new() -> (map: Self)
        ensures
            map.wf(),
            map@ == Map::<SocketAddress, Timestamp>::empty(),
    {
        let map = AddressMap { entries: Vec::new() };
        assert(map@ =~= Map::<SocketAddress, Timestamp>::empty());
        map
    }

    /// The place of an address among the entries.
    fn position(&self, address: &SocketAddress) -> (found: Option<usize>)
        requires
            self.wf(),
        ensures
            match found {
                Some(i) => entry_is(self.entries@, i as int, *address),
                None => forall|i: int| !entry_is(self.entries@, i, *address),
            },
    {
        let mut i: usize = 0;
        while i < self.entries.len()
            invariant
                i <= self.entries.len(),
                forall|j: int| 0 <= j < i ==> self.entries@[j].0 != *address,
            decreases self.entries.len() - i,
        {
            if self.entries[i].0 == *address {
                return Some(i);
            }
            i += 1;
        }
        None
    }

    /// The timestamp bound to an address, if it has one.
    pub fn get(&self, address: &SocketAddress) -> (timestamp: Option<Timestamp>)
        requires
            self.wf(),
        ensures
            timestamp == if self@.contains_key(*address) {
                Some(self@[*address])
            } else {
                None
            },
    {
        match self.position(address) {
            Some(i) => {
                proof {
                    let chosen = choose|j: int| entry_is(self.entries@, j, *address);
                    assert(entry_is(self.entries@, i as int, *address));
                    assert(chosen == i);
                }
                Some(self.entries[i].1)
            },
            None => None,
        }
    }

    /// Whether an address has a timestamp.
    pub fn contains_key(&self, address: &SocketAddress) -> (found: bool)
        requires
            self.wf(),
        ensures
            found == self@.contains_key(*address),
    {
        match self.position(address) {
            Some(i) => {
                assert(entry_is(self.entries@, i as int, *address));
                true
            },
            None => false,
        }
    }

    /// The number of addresses that have a timestamp.
    pub fn len(&self) -> (count: usize)
        requires
            self.wf(),
        ensures
            count == self@.dom().len(),
            self@.dom().finite(),
    {
        proof {
            lemma_entries_count(self.entries@);
        }
        self.entries.len()
    }

    /// Binds a timestamp to an address, in place of the one it had.
    pub fn insert(&mut self, address: SocketAddress, timestamp: Timestamp)
        requires
            old(self).wf(),
        ensures
            final(self).wf(),
            final(self)@ == old(self)@.insert(address, timestamp),
    {
        match self.position(&address) {
            Some(i) => {
                self.entries.set(i, (address, timestamp));
                proof {
                    let before = old(self).entries@;
                    let after = self.entries@;
                    assert forall|x: int, y: int|
                        0 <= x < after.len() && 0 <= y < after.len() && x != y implies after[x].0
                        != after[y].0 by {
                        assert(after[x].0 == before[x].0);
                        assert(after[y].0 == before[y].0);
                    }
                    assert forall|a: SocketAddress| #[trigger]
                        self@.contains_key(a) == old(self)@.insert(
                            address,
                            timestamp,
                        ).contains_key(a) by {
                        if self@.contains_key(a) {
                            let j = choose|j: int| entry_is(after, j, a);
                            assert(entry_is(before, j, a));
                        }
                        if old(self)@.contains_key(a) {
                            let j = choose|j: int| entry_is(before, j, a);
                            assert(entry_is(after, j, a));
                        }
                        if a == address {
                            assert(entry_is(after, i as int, a));
                        }
                    }
                    assert forall|a: SocketAddress| #[trigger]
                        self@.contains_key(a) implies self@[a] == old(self)@.insert(
                        address,
                        timestamp,
                    )[a] by {
                        let j = choose|j: int| entry_is(after, j, a);
                        assert(entry_is(before, j, a));
                        if a != address {
                            let k = choose|k: int| entry_is(before, k, a);
                            assert(k == j);
                        } else {
                            assert(j == i);
                        }
                    }
                    assert(self@ =~= old(self)@.insert(address, timestamp));
                }
            },
            None => {
                self.entries.push((address, timestamp));
                proof {
                    let before = old(self).entries@;
                    let after = self.entries@;
                    let last = before.len() as int;
                    assert forall|x: int, y: int|
                        0 <= x < after.len() && 0 <= y < after.len() && x != y implies after[x].0
                        != after[y].0 by {
                        if x < last {
                            assert(!entry_is(before, x, address));
                        }
                        if y < last {
                            assert(!entry_is(before, y, address));
                        }
                    }
                    assert forall|a: SocketAddress| #[trigger]
                        self@.contains_key(a) == old(self)@.insert(
                            address,
                            timestamp,
                        ).contains_key(a) by {
                        if self@.contains_key(a) {
                            let j = choose|j: int| entry_is(after, j, a);
                            if j < last {
                                assert(entry_is(before, j, a));
                            }
                        }
                        if old(self)@.contains_key(a) {
                            let j = choose|j: int| entry_is(before, j, a);
                            assert(entry_is(after, j, a));
                        }
                        if a == address {
                            assert(entry_is(after, last, a));
                        }
                    }
                    assert forall|a: SocketAddress| #[trigger]
                        self@.contains_key(a) implies self@[a] == old(self)@.insert(
                        address,
                        timestamp,
                    )[a] by {
                        let j = choose|j: int| entry_is(after, j, a);
                        if a != address {
                            assert(entry_is(before, j, a));
                            let k = choose|k: int| entry_is(before, k, a);
                            assert(k == j);
                        } else {
                            if j < last {
                                assert(entry_is(before, j, a));
                            }
                        }
                    }
                    assert(self@ =~= old(self)@.insert(address, timestamp));
                }
            },
        }
    }

    /// Takes the timestamp of an address away, if it has one.
    pub fn remove(&mut self, address: &SocketAddress)
        requires
            old(self).wf(),
        ensures
            final(self).wf(),
            final(self)@ == old(self)@.remove(*address),
    {
        match self.position(address) {
            Some(i) => {
                self.entries.remove(i);
                proof {
                    let before = old(self).entries@;
                    let after = self.entries@;
                    assert(after =~= before.remove(i as int));
                    assert forall|a: SocketAddress| #[trigger]
                        self@.contains_key(a) == old(self)@.remove(*address).contains_key(a) by {
                        if self@.contains_key(a) {
                            let j = choose|j: int| entry_is(after, j, a);
                            if j < i {
                                assert(entry_is(before, j, a));
                            } else {
                                assert(entry_is(before, j + 1, a));
                            }
                        }
                        if old(self)@.contains_key(a) && a != *address {
                            let j = choose|j: int| entry_is(before, j, a);
                            if j < i {
                                assert(entry_is(after, j, a));
                            } else {
                                assert(entry_is(after, j - 1, a));
                            }
                        }
                    }
                    assert forall|a: SocketAddress| #[trigger]
                        self@.contains_key(a) implies self@[a] == old(self)@.remove(*address)[a] by {
                        let j = choose|j: int| entry_is(after, j, a);
                        let k = choose|k: int| entry_is(before, k, a);
                        if j < i {
                            assert(entry_is(before, j, a));
                            assert(k == j);
                        } else {
                            assert(entry_is(before, j + 1, a));
                            assert(k == j + 1);
                        }
                    }
                    assert(self@ =~= old(self)@.remove(*address));
                }
            },
            None => {
                assert(self@ =~= old(self)@.remove(*address));
            },
        }
    }
}

/// A list of entries with distinct addresses stands for a table with as
/// many addresses as the list has entries.
pub proof fn lemma_entries_count(entries: Seq<(SocketAddress, Timestamp)>)
    requires
        distinct_addresses(entries),
    ensures
        entries_map(entries).dom().finite(),
        entries_map(entries).dom().len() == entries.len(),
    decreases entries.len(),
{
    if entries.len() == 0 {
        assert(entries_map(entries).dom() =~= Set::<SocketAddress>::empty());
    } else {
        let front = entries.drop_last();
        let last = entries.last();
        lemma_entries_count(front);
        assert forall|a: SocketAddress|
            entries_map(entries).dom().contains(a) == entries_map(front).dom().insert(
                last.0,
            ).contains(a) by {
            if entries_map(entries).dom().contains(a) {
                let j = choose|j: int| entry_is(entries, j, a);
                if j < front.len() {
                    assert(entry_is(front, j, a));
                }
            }
            if entries_map(front).dom().contains(a) {
                let j = choose|j: int| entry_is(front, j, a);
                assert(entry_is(entries, j, a));
            }
            if a == last.0 {
                assert(entry_is(entries, entries.len() - 1, a));
            }
        }
        assert(entries_map(entries).dom() =~= entries_map(front).dom().insert(last.0));
        if entries_map(front).dom().contains(last.0) {
            let j = choose|j: int| entry_is(front, j, last.0);
            assert(entries[j].0 == entries[entries.len() - 1].0);
        }
    }
}

} // verus!
