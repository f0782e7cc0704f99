//! The addresses a system holds, grouped by the network they were leased on.

use crate::config::same_text;
use crate::names::{lemma_first_position, lemma_no_position};
use vstd::prelude::*;

verus! {

/// The addresses leased on one network, in the order they were leased.
#[derive(Debug)]
pub struct LeaseEntry {
    pub network: String,
    pub addresses: Vec<u32>,
}

/// The mathematical content of a [`LeaseEntry`].
pub struct LeaseEntryView {
    pub network: Seq<char>,
    pub addresses: Seq<u32>,
}

/// A table from network names to the addresses leased on them. Networks
/// appear in the order of their first lease.
#[derive(Debug)]
pub struct LeaseTable {
    pub entries: Vec<LeaseEntry>,
}

impl View for LeaseEntry {
    type V = LeaseEntryView;

    open spec fn view(&self) -> LeaseEntryView {
        LeaseEntryView { network: self.network@, addresses: self.addresses@ }
    }
}

impl View for LeaseTable {
    type V = Seq<LeaseEntryView>;

    open spec fn view(&self) -> Seq<LeaseEntryView> {
        Seq::new(self.entries@.len(), |i: int| self.entries@[i]@)
    }
}

/// The network names of a table, in order.
pub open spec fn entry_names(table: Seq<LeaseEntryView>) -> Seq<Seq<char>> {
    Seq::new(table.len(), |i: int| table[i].network)
}

/// Whether no network has two entries.
pub open spec fn distinct_entries(table: Seq<LeaseEntryView>) -> bool {
    entry_names(table).no_duplicates()
}

/// The addresses leased on the network called `name`, if there are any.
pub open spec fn leases_on(table: Seq<LeaseEntryView>, name: Seq<char>) -> Option<Seq<u32>> {
    match entry_names(table).index_of_first(name) {
        Some(position) => Some(table[position].addresses),
        None => None,
    }
}

/// The table after `address` has been leased on the network called `name`:
/// the address joins the end of that network's list, and a network without
/// an entry gets one at the end of the table.
pub open spec fn record_lease(
    table: Seq<LeaseEntryView>,
    name: Seq<char>,
    address: u32,
) -> Seq<LeaseEntryView> {
    match entry_names(table).index_of_first(name) {
        Some(position) => table.update(
            position,
            LeaseEntryView {
                network: table[position].network,
                addresses: table[position].addresses.push(address),
            },
        ),
        None => table.push(LeaseEntryView { network: name, addresses: seq![address] }),
    }
}

/// The number of addresses held on the network called `name`.
pub open spec fn lease_count(table: Seq<LeaseEntryView>, name: Seq<char>) -> nat {
    match leases_on(table, name) {
        Some(addresses) => addresses.len(),
        None => 0,
    }
}

/// Recording a lease adds the address to the end of the list of its
/// network and leaves the lists of all other networks as they were.
pub proof fn lemma_record_lease(
    table: Seq<LeaseEntryView>,
    name: Seq<char>,
    address: u32,
    other: Seq<char>,
)
    ensures
        leases_on(record_lease(table, name, address), name) == Some(
            match leases_on(table, name) {
                Some(addresses) => addresses.push(address),
                None => seq![address],
            },
        ),
        other != name ==> leases_on(record_lease(table, name, address), other) == leases_on(
            table,
            other,
        ),
{
    let names = entry_names(table);
    let after = record_lease(table, name, address);
    names.index_of_first_ensures(name);
    names.index_of_first_ensures(other);
    match names.index_of_first(name) {
        Some(position) => {
            assert(entry_names(after) =~= names);
        },
        None => {
            assert(entry_names(after) =~= names.push(name));
            lemma_first_position(entry_names(after), name, names.len() as int);
            if other != name {
                match names.index_of_first(other) {
                    Some(position) => {
                        lemma_first_position(entry_names(after), other, position);
                    },
                    None => {
                        lemma_no_position(entry_names(after), other);
                    },
                }
            }
        },
    }
}

/// Recording a lease never gives a network a second entry.
pub proof fn lemma_record_keeps_entries_distinct(
    table: Seq<LeaseEntryView>,
    name: Seq<char>,
    address: u32,
)
    requires
        distinct_entries(table),
    ensures
        distinct_entries(record_lease(table, name, address)),
{
    let names = entry_names(table);
    let after = record_lease(table, name, address);
    names.index_of_first_ensures(name);
    match names.index_of_first(name) {
        Some(position) => {
            assert(entry_names(after) =~= names);
        },
        None => {
            assert(entry_names(after) =~= names.push(name));
        },
    }
}

impl LeaseTable {
    /// A table without entries.
    pub fn new() -> (table: LeaseTable)
        ensures
            table@ == Seq::<LeaseEntryView>::empty(),
    {
        let table = LeaseTable { entries: Vec::new() };
        assert(table@ =~= Seq::<LeaseEntryView>::empty());
        table
    }

    /// The number of networks with at least one lease.
    pub fn len(&self) -> (count: usize)
        ensures
            count == self@.len(),
    {
        self.entries.len()
    }

    /// Whether no address has been leased.
    pub fn is_empty(&self) -> (empty: bool)
        ensures
            empty == (self@.len() == 0),
    {
        self.entries.len() == 0
    }

    /// The position of the entry of the network called `name`.
    pub fn position(&self, name: &str) -> (found: Option<usize>)
        ensures
            match found {
                Some(position) => position < self@.len() && entry_names(self@).index_of_first(
                    name@,
                ) == Some(position as int),
                None => entry_names(self@).index_of_first(name@) is None,
            },
    {
        let mut index: usize = 0;
        while index < self.entries.len()
            invariant
                index <= self.entries.len(),
                forall|earlier: int| 0 <= earlier < index ==> entry_names(self@)[earlier] != name@,
            decreases self.entries.len() - index,
        {
            if same_text(self.entries[index].network.as_str(), name) {
                proof {
                    lemma_first_position(entry_names(self@), name@, index as int);
                }
                return Some(index);
            }
            index += 1;
        }
        proof {
            lemma_no_position(entry_names(self@), name@);
        }
        None
    }

    /// Whether an address has been leased on the network called `name`.
    pub fn contains_key(&self, name: &str) -> (present: bool)
        ensures
            present == leases_on(self@, name@).is_some(),
    {
        self.position(name).is_some()
    }

    /// The addresses leased on the network called `name`, in lease order.
    pub fn get(&self, name: &str) -> (found: Option<&Vec<u32>>)
        ensures
            match found {
                Some(addresses) => leases_on(self@, name@) == Some(addresses@),
                None => leases_on(self@, name@) is None,
            },
    {
        match self.position(name) {
            Some(position) => Some(&self.entries[position].addresses),
            None => None,
        }
    }

    /// Records that `address` has been leased on the network called `name`.
    pub fn record(&mut self, name: &str, address: u32)
        ensures
            final(self)@ == record_lease(old(self)@, name@, address),
            distinct_entries(old(self)@) ==> distinct_entries(final(self)@),
    {
        proof {
            if distinct_entries(self@) {
                lemma_record_keeps_entries_distinct(self@, name@, address);
            }
        }
        match self.position(name) {
            Some(position) => {
                self.entries[position].addresses.push(address);
                assert(self@ =~= record_lease(old(self)@, name@, address));
            },
            None => {
                let mut addresses = Vec::new();
                addresses.push(address);
                self.entries.push(LeaseEntry { network: name.to_owned(), addresses });
                assert(self@ =~= record_lease(old(self)@, name@, address));
            },
        }
    }
}

} // verus!
