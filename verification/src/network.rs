//! Network segments: validation of their subnets and the bookkeeping of the
//! addresses leased on them.

use crate::config::{config_tree, field, same_text, text, tree_field, ConfigTree};
use crate::error::{bare_error, named_error, ModelError, ModelErrorView, Reason};
use crate::subnet::{
    broadcast_address, covers, host_bounds, in_private_range, is_private, is_private_address,
    lemma_block_spans_its_ends, lemma_two_usable_hosts, network_address, parse_cidr, parsed_cidr,
    usable_hosts, HostRange, Subnet, MAX_PREFIX_LEN,
};
use std::collections::HashSet;
use vstd::prelude::*;

verus! {

/// Whether a network hands out private addresses or stands for outside
/// connectivity.
#[derive(Clone, Copy, Debug, PartialEq, Eq, Structural)]
pub enum NetworkType {
    Public,
    Internal,
}

/// One network segment.
#[derive(Debug)]
pub struct Network {
    pub name: String,
    pub network_type: NetworkType,
    /// The address block of an internal network; absent on a public one.
    pub subnet: Option<Subnet>,
    /// The first and last usable host address of an internal network.
    pub available_hosts: Option<HostRange>,
    /// The addresses leased so far on an internal network.
    pub allocated_hosts: Option<HashSet<u32>>,
}

/// The mathematical content of a [`Network`].
pub struct NetworkView {
    pub name: Seq<char>,
    pub network_type: NetworkType,
    pub subnet: Option<Subnet>,
    /// The usable host addresses, lowest and highest.
    pub hosts: Option<HostRange>,
    /// The addresses leased so far.
    pub leased: Set<u32>,
}

/// Whether `address` is the lowest address of `range` that `leased` does
/// not hold.
pub open spec fn is_lowest_free(range: HostRange, leased: Set<u32>, address: u32) -> bool {
    &&& range.first <= address <= range.last
    &&& !leased.contains(address)
    &&& forall|lower: u32| range.first <= lower < address ==> leased.contains(lower)
}

/// Whether every address of `range` is leased.
pub open spec fn is_exhausted(range: HostRange, leased: Set<u32>) -> bool {
    forall|address: u32| range.first <= address <= range.last ==> leased.contains(address)
}

/// The lowest address of `range` that is not leased, if there is one.
pub open spec fn lowest_free(range: HostRange, leased: Set<u32>) -> Option<u32> {
    if exists|address: u32| is_lowest_free(range, leased, address) {
        Some(choose|address: u32| is_lowest_free(range, leased, address))
    } else {
        None
    }
}

/// The address that the next lease request on `network` receives.
pub open spec fn next_lease(network: NetworkView) -> Option<u32> {
    match network.hosts {
        Some(range) => lowest_free(range, network.leased),
        None => None,
    }
}

/// `network` after `address` has been leased on it.
pub open spec fn with_lease(network: NetworkView, address: u32) -> NetworkView {
    NetworkView { leased: network.leased.insert(address), ..network }
}

/// The invariant of a network: a public network has neither subnet nor
/// hosts nor leases; an internal one has a private subnet with room for two
/// hosts, offers exactly the usable hosts of that subnet, and has leased
/// only addresses among them.
pub open spec fn valid_network(network: NetworkView) -> bool {
    match network.network_type {
        NetworkType::Public => {
            &&& network.subnet is None
            &&& network.hosts is None
            &&& network.leased == Set::<u32>::empty()
        },
        NetworkType::Internal => {
            &&& network.subnet matches Some(subnet)
            &&& subnet.prefix_len <= MAX_PREFIX_LEN
            &&& is_private(subnet)
            &&& network.hosts == Some(usable_hosts(subnet))
            &&& forall|address: u32| #[trigger]
                network.leased.contains(address) ==> usable_hosts(subnet).first <= address
                    <= usable_hosts(subnet).last
        },
    }
}

/// A public network called `name`.
pub open spec fn public_network(name: Seq<char>) -> NetworkView {
    NetworkView {
        name,
        network_type: NetworkType::Public,
        subnet: None,
        hosts: None,
        leased: Set::empty(),
    }
}

/// What validating `subnet` for an internal network called `name` gives:
/// a network without leases, or the first rule that the subnet breaks.
pub open spec fn internal_network(name: Seq<char>, subnet: Subnet) -> Result<
    NetworkView,
    ModelErrorView,
> {
    if subnet.prefix_len > MAX_PREFIX_LEN {
        Err(named_error(Reason::SubnetTooSmall, name))
    } else if !is_private(subnet) {
        Err(named_error(Reason::SubnetNotPrivate, name))
    } else {
        Ok(
            NetworkView {
                name,
                network_type: NetworkType::Internal,
                subnet: Some(subnet),
                hosts: Some(usable_hosts(subnet)),
                leased: Set::empty(),
            },
        )
    }
}

/// The network type that `text` names.
pub open spec fn parsed_network_type(text: Seq<char>) -> Option<NetworkType> {
    if text == "Public"@ {
        Some(NetworkType::Public)
    } else if text == "Internal"@ {
        Some(NetworkType::Internal)
    } else {
        None
    }
}

/// What reading a network from the configuration table `tree` gives. The
/// fields are checked in a fixed order: name, type, then the subnet.
pub open spec fn network_from_config(tree: ConfigTree) -> Result<NetworkView, ModelErrorView> {
    match tree_field(tree, "name"@) {
        None => Err(bare_error(Reason::NetworkNameMissing)),
        Some(ConfigTree::Text(name)) => match tree_field(tree, "type"@) {
            None => Err(named_error(Reason::NetworkTypeMissing, name)),
            Some(ConfigTree::Text(kind_text)) => match parsed_network_type(kind_text) {
                None => Err(named_error(Reason::NetworkTypeInvalid, name)),
                Some(NetworkType::Public) => match tree_field(tree, "subnet"@) {
                    None => Ok(public_network(name)),
                    Some(_) => Err(named_error(Reason::PublicWithSubnet, name)),
                },
                Some(NetworkType::Internal) => match tree_field(tree, "subnet"@) {
                    None => Err(named_error(Reason::SubnetMissing, name)),
                    Some(ConfigTree::Text(cidr)) => match parsed_cidr(cidr) {
                        None => Err(named_error(Reason::SubnetUnparseable, name)),
                        Some(subnet) => internal_network(name, subnet),
                    },
                    Some(_) => Err(named_error(Reason::SubnetNotString, name)),
                },
            },
            Some(_) => Err(named_error(Reason::NetworkTypeNotString, name)),
        },
        Some(_) => Err(bare_error(Reason::NetworkNameNotString)),
    }
}

/// The mathematical content of the outcome of building a network.
pub open spec fn built_network(outcome: Result<Network, ModelError>) -> Result<
    NetworkView,
    ModelErrorView,
> {
    match outcome {
        Ok(network) => Ok(network@),
        Err(error) => Err(error@),
    }
}

impl View for Network {
    type V = NetworkView;

    open spec fn view(&self) -> NetworkView {
        NetworkView {
            name: self.name@,
            network_type: self.network_type,
            subnet: self.subnet,
            hosts: self.hosts(),
            leased: self.leased(),
        }
    }
}

impl NetworkType {
    /// Reads a network type from its name.
    pub fn parse(text: &str) -> (parsed: Option<NetworkType>)
        ensures
            parsed == parsed_network_type(text@),
    {
        if same_text(text, "Public") {
            Some(NetworkType::Public)
        } else if same_text(text, "Internal") {
            Some(NetworkType::Internal)
        } else {
            None
        }
    }
}

impl Network {
    /// The usable host addresses of the network.
    pub open spec fn hosts(&self) -> Option<HostRange> {
        self.available_hosts
    }

    /// The addresses leased so far.
    pub open spec fn leased(&self) -> Set<u32> {
        match self.allocated_hosts {
            Some(allocated) => allocated@,
            None => Set::empty(),
        }
    }

    /// Whether the network keeps a lease set exactly when it has hosts.
    pub open spec fn tracks_leases(&self) -> bool {
        self.allocated_hosts is Some <==> self.available_hosts is Some
    }

    /// The invariant that constructors establish and leasing preserves.
    pub open spec fn wf(&self) -> bool {
        valid_network(self@) && self.tracks_leases()
    }

    /// A public network: no subnet, no hosts, no leases.
    pub fn public(name: String) -> (network: Network)
        ensures
            network@ == public_network(name@),
            network.wf(),
    {
        Network {
            name,
            network_type: NetworkType::Public,
            subnet: None,
            available_hosts: None,
            allocated_hosts: None,
        }
    }

    /// An internal network on `subnet`, which must leave room for two
    /// usable hosts and lie entirely in a private range.
    pub fn internal(name: String, subnet: Subnet) -> (outcome: Result<Network, ModelError>)
        ensures
            built_network(outcome) == internal_network(name@, subnet),
            outcome matches Ok(network) ==> network.wf(),
    {
        if subnet.prefix_len > MAX_PREFIX_LEN {
            return Err(ModelError::named(Reason::SubnetTooSmall, name.as_str()));
        }
        if !in_private_range(subnet) {
            return Err(ModelError::named(Reason::SubnetNotPrivate, name.as_str()));
        }
        let hosts = host_bounds(subnet);
        let network = Network {
            name,
            network_type: NetworkType::Internal,
            subnet: Some(subnet),
            available_hosts: Some(hosts),
            allocated_hosts: Some(HashSet::new()),
        };
        Ok(network)
    }

    /// Builds a network from its configuration table, or reports the first
    /// rule the table breaks.
    pub fn from_toml(network_toml: &toml::Value) -> (outcome: Result<Network, ModelError>)
        ensures
            built_network(outcome) == network_from_config(config_tree(*network_toml)),
            outcome matches Ok(network) ==> network.wf(),
    {
        let name = match field(network_toml, "name") {
            None => {
                return Err(ModelError::bare(Reason::NetworkNameMissing));
            },
            Some(name_value) => match text(name_value) {
                None => {
                    return Err(ModelError::bare(Reason::NetworkNameNotString));
                },
                Some(name) => name,
            },
        };
        let kind_text = match field(network_toml, "type") {
            None => {
                return Err(ModelError::named(Reason::NetworkTypeMissing, name));
            },
            Some(type_value) => match text(type_value) {
                None => {
                    return Err(ModelError::named(Reason::NetworkTypeNotString, name));
                },
                Some(kind_text) => kind_text,
            },
        };
        match NetworkType::parse(kind_text) {
            None => Err(ModelError::named(Reason::NetworkTypeInvalid, name)),
            Some(NetworkType::Public) => match field(network_toml, "subnet") {
                None => Ok(Network::public(name.to_owned())),
                Some(_) => Err(ModelError::named(Reason::PublicWithSubnet, name)),
            },
            Some(NetworkType::Internal) => match field(network_toml, "subnet") {
                None => Err(ModelError::named(Reason::SubnetMissing, name)),
                Some(subnet_value) => match text(subnet_value) {
                    None => Err(ModelError::named(Reason::SubnetNotString, name)),
                    Some(cidr) => match parse_cidr(cidr) {
                        Err(_) => Err(ModelError::named(Reason::SubnetUnparseable, name)),
                        Ok(subnet) => Network::internal(name.to_owned(), subnet),
                    },
                },
            },
        }
    }

    /// Whether `address` has been leased on this network.
    pub fn is_leased(&self, address: u32) -> (leased: bool)
        ensures
            leased == self@.leased.contains(address),
    {
        match &self.allocated_hosts {
            Some(allocated) => allocated.contains(&address),
            None => false,
        }
    }

    fn first_free(&self) -> (found: Option<u32>)
        requires
            self.wf(),
        ensures
            found == next_lease(self@),
            found matches Some(address) ==> is_lowest_free(
                self@.hosts->0,
                self@.leased,
                address,
            ),
    {
        let range = match self.available_hosts {
            Some(range) => range,
            None => {
                return None;
            },
        };
        proof {
            lemma_two_usable_hosts(self.subnet->0);
        }
        let mut cursor: u32 = range.first;
        loop
            invariant
                self.wf(),
                self.available_hosts == Some(range),
                range.first <= cursor <= range.last,
                forall|lower: u32| range.first <= lower < cursor ==> self@.leased.contains(lower),
            decreases range.last - cursor,
        {
            if !self.is_leased(cursor) {
                proof {
                    assert(is_lowest_free(range, self@.leased, cursor));
                    lemma_lowest_free_is_unique(range, self@.leased, cursor);
                }
                return Some(cursor);
            }
            if cursor == range.last {
                proof {
                    lemma_exhausted_has_no_free(range, self@.leased);
                }
                return None;
            }
            cursor += 1;
        }
    }

    /// Leases the lowest usable host address that is not leased yet and
    /// records it as leased. Returns nothing, and changes nothing, when
    /// every usable address is taken or the network is public.
    pub fn get_address_lease(&mut self) -> (lease: Option<u32>)
        requires
            old(self).wf(),
        ensures
            lease == next_lease(old(self)@),
            final(self).wf(),
            match lease {
                Some(address) => {
                    &&& final(self)@ == with_lease(old(self)@, address)
                    &&& is_lowest_free(old(self)@.hosts->0, old(self)@.leased, address)
                },
                None => {
                    &&& final(self)@ == old(self)@
                    &&& old(self)@.hosts matches Some(range) ==> is_exhausted(
                        range,
                        old(self)@.leased,
                    )
                },
            },
    {
        let found = self.first_free();
        match found {
            Some(address) => {
                match &mut self.allocated_hosts {
                    Some(allocated) => {
                        allocated.insert(address);
                    },
                    None => {},
                }
                assert(self@.leased =~= old(self)@.leased.insert(address));
            },
            None => {
                proof {
                    if self@.hosts is Some {
                        lemma_no_free_is_exhausted(self@.hosts->0, self@.leased);
                    }
                }
            },
        }
        found
    }
}

/// At most one address is the lowest free one, and `lowest_free` names it.
pub proof fn lemma_lowest_free_is_unique(range: HostRange, leased: Set<u32>, address: u32)
    requires
        is_lowest_free(range, leased, address),
    ensures
        lowest_free(range, leased) == Some(address),
{
    let chosen = choose|a: u32| is_lowest_free(range, leased, a);
    assert(is_lowest_free(range, leased, chosen));
    if chosen < address {
        assert(leased.contains(chosen));
    } else if address < chosen {
        assert(leased.contains(address));
    }
}

/// When every address of a range is leased, none is free.
pub proof fn lemma_exhausted_has_no_free(range: HostRange, leased: Set<u32>)
    requires
        is_exhausted(range, leased),
    ensures
        lowest_free(range, leased) is None,
{
}

/// When no address of a range is free, every address is leased.
pub proof fn lemma_no_free_is_exhausted(range: HostRange, leased: Set<u32>)
    requires
        lowest_free(range, leased) is None,
    ensures
        is_exhausted(range, leased),
{
    if !is_exhausted(range, leased) {
        let missing = choose|a: u32| range.first <= a <= range.last && !leased.contains(a);
        lemma_free_address_has_lowest(range, leased, missing);
    }
}

/// Below every free address of a range there is a lowest free one.
proof fn lemma_free_address_has_lowest(range: HostRange, leased: Set<u32>, free: u32)
    requires
        range.first <= free <= range.last,
        !leased.contains(free),
    ensures
        exists|address: u32| is_lowest_free(range, leased, address),
    decreases free - range.first,
{
    if forall|lower: u32| range.first <= lower < free ==> leased.contains(lower) {
        assert(is_lowest_free(range, leased, free));
    } else {
        let lower = choose|lower: u32| range.first <= lower < free && !leased.contains(lower);
        lemma_free_address_has_lowest(range, leased, lower);
    }
}

/// `network` after `count` lease requests in a row.
pub open spec fn after_leases(network: NetworkView, count: nat) -> NetworkView
    decreases count,
{
    if count == 0 {
        network
    } else {
        let before = after_leases(network, (count - 1) as nat);
        match next_lease(before) {
            Some(address) => with_lease(before, address),
            None => before,
        }
    }
}

/// What the request after `earlier` requests on `network` returns.
pub open spec fn nth_lease(network: NetworkView, earlier: nat) -> Option<u32> {
    next_lease(after_leases(network, earlier))
}

/// The number of usable host addresses of a range.
pub open spec fn capacity(range: HostRange) -> nat {
    if range.first <= range.last {
        (range.last - range.first + 1) as nat
    } else {
        0
    }
}

/// The `count` lowest addresses of `range`.
pub open spec fn lowest_addresses(range: HostRange, count: nat) -> Set<u32> {
    Set::new(|address: u32| range.first <= address < range.first + count)
}

/// An internal network accepts a subnet exactly when its prefix length is
/// at most 30 and its whole block lies in a private range. Prefix lengths
/// 31 and 32 are always rejected as too small.
pub proof fn lemma_subnet_rules(name: Seq<char>, subnet: Subnet)
    ensures
        internal_network(name, subnet) is Ok <==> subnet.prefix_len <= 30 && is_private(subnet),
        subnet.prefix_len >= 31 <==> internal_network(name, subnet) == Err::<
            NetworkView,
            ModelErrorView,
        >(named_error(Reason::SubnetTooSmall, name)),
        subnet.prefix_len <= 30 && !is_private(subnet) <==> internal_network(name, subnet) == Err::<
            NetworkView,
            ModelErrorView,
        >(named_error(Reason::SubnetNotPrivate, name)),
{
}

/// The subnet of an accepted internal network is fully contained in a
/// private range: every address of its block is a private address. A block
/// that reaches past the end of a private range is rejected, wherever it
/// starts.
pub proof fn lemma_accepted_subnet_is_contained(name: Seq<char>, subnet: Subnet, address: u32)
    requires
        covers(subnet, address),
    ensures
        internal_network(name, subnet) is Ok ==> is_private_address(address),
        !is_private_address(address) ==> internal_network(name, subnet) is Err,
{
}

/// A subnet that starts in a private range but reaches past its end is
/// rejected, and so is one that ends in a private range but starts in
/// front of it: overlapping a private range is not enough.
pub proof fn lemma_straddling_subnet_is_rejected(name: Seq<char>, subnet: Subnet)
    requires
        !is_private_address(network_address(subnet)) || !is_private_address(
            broadcast_address(subnet),
        ),
    ensures
        internal_network(name, subnet) is Err,
{
    lemma_block_spans_its_ends(subnet);
}

/// Validating the subnet of an accepted network again accepts it and
/// yields the same network.
pub proof fn lemma_validation_is_idempotent(name: Seq<char>, subnet: Subnet)
    requires
        internal_network(name, subnet) is Ok,
    ensures
        valid_network(internal_network(name, subnet)->Ok_0),
        internal_network(
            internal_network(name, subnet)->Ok_0.name,
            internal_network(name, subnet)->Ok_0.subnet->0,
        ) == internal_network(name, subnet),
{
}

/// Every valid internal network, whatever it has leased, passes validation
/// of its name and subnet again, and validation describes the same name,
/// type, subnet and hosts.
pub proof fn lemma_valid_network_revalidates(network: NetworkView)
    requires
        valid_network(network),
        network.network_type == NetworkType::Internal,
    ensures
        internal_network(network.name, network.subnet->0) == Ok::<NetworkView, ModelErrorView>(
            NetworkView { leased: Set::empty(), ..network },
        ),
{
}

/// Every address leased on a valid network is a usable host of its subnet
/// and a private address.
pub proof fn lemma_leased_addresses_are_private(network: NetworkView, address: u32)
    requires
        valid_network(network),
        network.leased.contains(address),
    ensures
        network.network_type == NetworkType::Internal,
        covers(network.subnet->0, address),
        network.hosts->0.first <= address <= network.hosts->0.last,
        is_private_address(address),
{
    lemma_two_usable_hosts(network.subnet->0);
}

/// A lease request never returns an address that is already leased, and
/// the address it returns is leased afterwards.
pub proof fn lemma_lease_is_fresh(network: NetworkView)
    ensures
        next_lease(network) matches Some(address) ==> {
            &&& !network.leased.contains(address)
            &&& with_lease(network, address).leased.contains(address)
            &&& network.hosts is Some
            &&& network.hosts->0.first <= address <= network.hosts->0.last
        },
{
    if let Some(range) = network.hosts {
        if exists|address: u32| is_lowest_free(range, network.leased, address) {
            let chosen = choose|address: u32| is_lowest_free(range, network.leased, address);
            assert(is_lowest_free(range, network.leased, chosen));
        }
    }
}

/// A lease request succeeds exactly while some usable address is not
/// leased.
pub proof fn lemma_lease_succeeds_while_free(network: NetworkView, range: HostRange)
    requires
        network.hosts == Some(range),
    ensures
        next_lease(network) is Some <==> !is_exhausted(range, network.leased),
{
    if next_lease(network) is Some {
        lemma_lease_is_fresh(network);
    } else {
        lemma_no_free_is_exhausted(range, network.leased);
    }
}

/// Leases are never taken back: whatever is leased stays leased through
/// any number of further requests, and the hosts on offer stay the same.
pub proof fn lemma_leases_persist(network: NetworkView, count: nat, address: u32)
    ensures
        after_leases(network, count).hosts == network.hosts,
        after_leases(network, count).name == network.name,
        after_leases(network, count).network_type == network.network_type,
        after_leases(network, count).subnet == network.subnet,
        network.leased.contains(address) ==> after_leases(network, count).leased.contains(address),
    decreases count,
{
    if count > 0 {
        lemma_leases_persist(network, (count - 1) as nat, address);
    }
}

/// What one request leased, a later request sees as leased.
proof fn lemma_earlier_lease_is_recorded(network: NetworkView, earlier: nat, later: nat)
    requires
        earlier < later,
        nth_lease(network, earlier) is Some,
    ensures
        after_leases(network, later).leased.contains(nth_lease(network, earlier)->0),
    decreases later,
{
    if later == earlier + 1 {
    } else {
        lemma_earlier_lease_is_recorded(network, earlier, (later - 1) as nat);
    }
}

/// In any sequence of lease requests on one network, no two requests
/// return the same address.
pub proof fn lemma_leases_are_distinct(network: NetworkView, earlier: nat, later: nat)
    requires
        earlier < later,
        nth_lease(network, earlier) is Some,
        nth_lease(network, later) is Some,
    ensures
        nth_lease(network, earlier) != nth_lease(network, later),
{
    lemma_earlier_lease_is_recorded(network, earlier, later);
    lemma_lease_is_fresh(after_leases(network, later));
}

/// On a network without leases, the requests are served from the lowest
/// usable address upwards, one address each, until all are leased.
proof fn lemma_fresh_network_state(network: NetworkView, range: HostRange, count: nat)
    requires
        network.hosts == Some(range),
        network.leased == Set::<u32>::empty(),
        range.first <= range.last,
        count <= capacity(range),
    ensures
        after_leases(network, count).hosts == Some(range),
        after_leases(network, count).leased == lowest_addresses(range, count),
    decreases count,
{
    if count == 0 {
        assert(network.leased =~= lowest_addresses(range, 0));
    } else {
        let before = after_leases(network, (count - 1) as nat);
        lemma_fresh_network_state(network, range, (count - 1) as nat);
        let address = (range.first + count - 1) as u32;
        assert(is_lowest_free(range, before.leased, address));
        lemma_lowest_free_is_unique(range, before.leased, address);
        assert(before.leased.insert(address) =~= lowest_addresses(range, count));
    }
}

/// A pool of N usable addresses serves exactly N requests: on a network
/// without leases, request number `earlier + 1` receives the address
/// `earlier` above the lowest usable one while `earlier` is below N, and
/// every request from number N + 1 on receives nothing.
pub proof fn lemma_pool_serves_its_capacity(network: NetworkView, range: HostRange, earlier: nat)
    requires
        network.hosts == Some(range),
        network.leased == Set::<u32>::empty(),
        range.first <= range.last,
    ensures
        earlier < capacity(range) ==> nth_lease(network, earlier) == Some(
            (range.first + earlier) as u32,
        ),
        earlier >= capacity(range) ==> nth_lease(network, earlier) is None,
    decreases earlier,
{
    if earlier < capacity(range) {
        lemma_fresh_network_state(network, range, earlier);
        let state = after_leases(network, earlier);
        let address = (range.first + earlier) as u32;
        assert(is_lowest_free(range, state.leased, address));
        lemma_lowest_free_is_unique(range, state.leased, address);
    } else if earlier == capacity(range) {
        lemma_fresh_network_state(network, range, earlier);
        let state = after_leases(network, earlier);
        assert(is_exhausted(range, state.leased));
    } else {
        lemma_pool_serves_its_capacity(network, range, (earlier - 1) as nat);
    }
}

} // verus!
