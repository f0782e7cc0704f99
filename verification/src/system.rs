//! Hosts: the networks they ask for, and the wiring step that resolves
//! those requests and leases an address for every internal interface.

use crate::config::{
    config_tree, config_trees, field, items, same_text, text, tree_field, ConfigTree,
};
use crate::error::{
    bare_error, named_error, reference_error, ModelError, ModelErrorView, Reason,
};
use crate::leases::{
    entry_names, lease_count, leases_on, lemma_record_lease, record_lease, LeaseEntryView,
    LeaseTable,
};
use crate::names::{lemma_first_position, lemma_no_position, name_views};
use crate::network::{
    after_leases, lemma_leases_are_distinct, lemma_leases_persist, next_lease, nth_lease,
    with_lease, Network, NetworkType, NetworkView,
};
use vstd::prelude::*;

verus! {

/// One host of a scenario.
#[derive(Debug)]
pub struct System {
    pub name: String,
    /// The networks this system has been wired to, one per interface in
    /// declared order, each given by its position among the scenario's
    /// networks. Empty until the system is wired.
    pub networks: Vec<usize>,
    /// The names of the networks this system asks for, as declared.
    pub network_names: Vec<String>,
    pub base_box: String,
    /// The addresses leased for this system, by network name. The n-th
    /// interface on a network holds the n-th address of that network's list.
    pub leased_network_addresses: LeaseTable,
}

/// The mathematical content of a [`System`].
pub struct SystemView {
    pub name: Seq<char>,
    pub networks: Seq<usize>,
    pub network_names: Seq<Seq<char>>,
    pub base_box: Seq<char>,
    pub leases: Seq<LeaseEntryView>,
}

impl View for System {
    type V = SystemView;

    open spec fn view(&self) -> SystemView {
        SystemView {
            name: self.name@,
            networks: self.networks@,
            network_names: name_views(self.network_names@),
            base_box: self.base_box@,
            leases: self.leased_network_addresses@,
        }
    }
}

/// The contents of each network of `networks`, in order.
pub open spec fn network_views(networks: Seq<Network>) -> Seq<NetworkView> {
    Seq::new(networks.len(), |i: int| networks[i]@)
}

/// Whether every network of `networks` satisfies its invariant.
pub open spec fn all_wf(networks: Seq<Network>) -> bool {
    forall|i: int| 0 <= i < networks.len() ==> (#[trigger] networks[i]).wf()
}

/// The names of `networks`, in order.
pub open spec fn network_names(networks: Seq<NetworkView>) -> Seq<Seq<char>> {
    Seq::new(networks.len(), |i: int| networks[i].name)
}

/// The position of the first network called `name`.
pub open spec fn resolve(networks: Seq<NetworkView>, name: Seq<char>) -> Option<int> {
    network_names(networks).index_of_first(name)
}

/// For each wanted name, the position of the network it resolves to.
pub open spec fn resolution(networks: Seq<NetworkView>, wanted: Seq<Seq<char>>) -> Seq<
    Option<int>,
> {
    Seq::new(wanted.len(), |k: int| resolve(networks, wanted[k]))
}

/// The position in `wanted` of the first name that no network carries.
pub open spec fn first_unresolved(networks: Seq<NetworkView>, wanted: Seq<Seq<char>>) -> Option<
    int,
> {
    resolution(networks, wanted).index_of_first(None)
}

/// The positions that the wanted names resolve to, where all of them do.
pub open spec fn resolved(networks: Seq<NetworkView>, wanted: Seq<Seq<char>>) -> Seq<usize> {
    Seq::new(wanted.len(), |k: int| resolve(networks, wanted[k])->0 as usize)
}

/// How many of the interfaces in front of position `before` are on the
/// network at `position`.
pub open spec fn interfaces_on(interfaces: Seq<usize>, position: int, before: int) -> nat
    decreases before,
{
    if before <= 0 {
        0
    } else {
        interfaces_on(interfaces, position, before - 1) + if interfaces[before - 1] == position {
            1nat
        } else {
            0nat
        }
    }
}

/// Whether two lists of networks differ at most in what is leased.
pub open spec fn same_networks(before: Seq<NetworkView>, after: Seq<NetworkView>) -> bool {
    &&& after.len() == before.len()
    &&& forall|i: int|
        0 <= i < before.len() ==> {
            &&& (#[trigger] after[i]).name == before[i].name
            &&& after[i].network_type == before[i].network_type
            &&& after[i].subnet == before[i].subnet
            &&& after[i].hosts == before[i].hosts
        }
}

/// Whether `system` is bound to networks of `networks` only, and holds on
/// every internal network exactly one address for each of its interfaces
/// on that network.
pub open spec fn fully_served(system: SystemView, networks: Seq<NetworkView>) -> bool {
    &&& forall|k: int| 0 <= k < system.networks.len() ==> system.networks[k] < networks.len()
    &&& forall|position: int|
        0 <= position < networks.len() && networks[position].network_type
            == NetworkType::Internal ==> lease_count(
            system.leases,
            #[trigger] networks[position].name,
        ) == interfaces_on(system.networks, position, system.networks.len() as int)
}

/// The state of the leasing pass over a system's interfaces.
pub struct Leasing {
    pub networks: Seq<NetworkView>,
    pub leases: Seq<LeaseEntryView>,
    /// The position of the network that had no address left, once one had.
    pub failed: Option<int>,
}

/// Leasing for one interface on the network at `position`: an internal
/// network leases its lowest free address, which joins the system's list
/// for that network; a public network leases nothing.
pub open spec fn lease_one(state: Leasing, position: int) -> Leasing {
    if 0 <= position < state.networks.len() {
        let network = state.networks[position];
        match network.network_type {
            NetworkType::Public => state,
            NetworkType::Internal => match next_lease(network) {
                Some(address) => Leasing {
                    networks: state.networks.update(position, with_lease(network, address)),
                    leases: record_lease(state.leases, network.name, address),
                    failed: None,
                },
                None => Leasing { failed: Some(position), ..state },
            },
        }
    } else {
        state
    }
}

/// Leasing for each interface of `interfaces` in order, stopping at the
/// first network that has no address left.
pub open spec fn lease_each(
    interfaces: Seq<usize>,
    networks: Seq<NetworkView>,
    leases: Seq<LeaseEntryView>,
) -> Leasing
    decreases interfaces.len(),
{
    if interfaces.len() == 0 {
        Leasing { networks, leases, failed: None }
    } else {
        let before = lease_each(interfaces.drop_last(), networks, leases);
        if before.failed is Some {
            before
        } else {
            lease_one(before, interfaces.last() as int)
        }
    }
}

/// A system and the networks after wiring, with the outcome.
pub struct Wiring {
    pub system: SystemView,
    pub networks: Seq<NetworkView>,
    pub outcome: Result<(), ModelErrorView>,
}

/// What wiring `system` to `networks` gives. A name that no network
/// carries fails the wiring before anything is leased or changed. Otherwise
/// the system is bound to the networks its names resolve to, and each
/// interface on an internal network leases an address in declared order,
/// until a network has none left.
pub open spec fn wired(system: SystemView, networks: Seq<NetworkView>) -> Wiring {
    match first_unresolved(networks, system.network_names) {
        Some(missing) => Wiring {
            system,
            networks,
            outcome: Err(
                reference_error(
                    Reason::UnresolvedNetwork,
                    system.name,
                    system.network_names[missing],
                ),
            ),
        },
        None => {
            let interfaces = resolved(networks, system.network_names);
            let leasing = lease_each(interfaces, networks, system.leases);
            Wiring {
                system: SystemView {
                    networks: system.networks + interfaces,
                    leases: leasing.leases,
                    ..system
                },
                networks: leasing.networks,
                outcome: match leasing.failed {
                    Some(position) => Err(
                        named_error(Reason::AddressesExhausted, leasing.networks[position].name),
                    ),
                    None => Ok(()),
                },
            }
        },
    }
}

/// A system that asks for the networks called `wanted` and is not wired.
pub open spec fn unwired_system(
    name: Seq<char>,
    wanted: Seq<Seq<char>>,
    base_box: Seq<char>,
) -> SystemView {
    SystemView {
        name,
        networks: Seq::empty(),
        network_names: wanted,
        base_box,
        leases: Seq::empty(),
    }
}

/// The texts of `trees`, where every one of them is a text.
pub open spec fn texts_of(trees: Seq<ConfigTree>) -> Option<Seq<Seq<char>>> {
    if forall|i: int| 0 <= i < trees.len() ==> trees[i] is Text {
        Some(Seq::new(trees.len(), |i: int| trees[i]->Text_0))
    } else {
        None
    }
}

/// What reading a system from the configuration table `tree` gives. The
/// fields are checked in a fixed order: name, networks, base box.
pub open spec fn system_from_config(tree: ConfigTree) -> Result<SystemView, ModelErrorView> {
    match tree_field(tree, "name"@) {
        None => Err(bare_error(Reason::SystemNameMissing)),
        Some(ConfigTree::Text(name)) => match tree_field(tree, "networks"@) {
            Some(ConfigTree::Array(entries)) => match texts_of(entries) {
                None => Err(named_error(Reason::SystemNetworkNotString, name)),
                Some(wanted) => match tree_field(tree, "base_box"@) {
                    None => Err(named_error(Reason::BaseBoxMissing, name)),
                    Some(ConfigTree::Text(base_box)) => Ok(unwired_system(name, wanted, base_box)),
                    Some(_) => Err(named_error(Reason::BaseBoxNotString, name)),
                },
            },
            _ => Err(named_error(Reason::SystemNetworksMissing, name)),
        },
        Some(_) => Err(bare_error(Reason::SystemNameNotString)),
    }
}

/// The mathematical content of the outcome of building a system.
pub open spec fn built_system(outcome: Result<System, ModelError>) -> Result<
    SystemView,
    ModelErrorView,
> {
    match outcome {
        Ok(system) => Ok(system@),
        Err(error) => Err(error@),
    }
}

/// The mathematical content of the outcome of a step that yields no value.
pub open spec fn step_outcome(outcome: Result<(), ModelError>) -> Result<(), ModelErrorView> {
    match outcome {
        Ok(_) => Ok(()),
        Err(error) => Err(error@),
    }
}

/// The position of the first network called `name`.
pub fn find_network(networks: &Vec<Network>, name: &str) -> (found: Option<usize>)
    ensures
        match found {
            Some(position) => position < networks@.len() && resolve(
                network_views(networks@),
                name@,
            ) == Some(position as int),
            None => resolve(network_views(networks@), name@) is None,
        },
{
    let ghost names = network_names(network_views(networks@));
    let mut index: usize = 0;
    while index < networks.len()
        invariant
            index <= networks.len(),
            names == network_names(network_views(networks@)),
            forall|earlier: int| 0 <= earlier < index ==> names[earlier] != name@,
        decreases networks.len() - index,
    {
        if same_text(networks[index].name.as_str(), name) {
            proof {
                lemma_first_position(names, name@, index as int);
            }
            return Some(index);
        }
        index += 1;
    }
    proof {
        lemma_no_position(names, name@);
    }
    None
}

/// Once a network has run out of addresses, the rest of the interfaces
/// lease nothing.
proof fn lemma_failure_ends_leasing(
    interfaces: Seq<usize>,
    networks: Seq<NetworkView>,
    leases: Seq<LeaseEntryView>,
    done: int,
    later: int,
)
    requires
        0 <= done <= later <= interfaces.len(),
        lease_each(interfaces.take(done), networks, leases).failed is Some,
    ensures
        lease_each(interfaces.take(later), networks, leases) == lease_each(
            interfaces.take(done),
            networks,
            leases,
        ),
    decreases later - done,
{
    if later > done {
        lemma_failure_ends_leasing(interfaces, networks, leases, done, later - 1);
        assert(interfaces.take(later).drop_last() =~= interfaces.take(later - 1));
    }
}

impl System {
    /// A system that asks for the networks called `network_names`, in that
    /// order, and is not wired yet.
    pub fn new(name: String, network_names: Vec<String>, base_box: String) -> (system: System)
        ensures
            system@ == unwired_system(name@, name_views(network_names@), base_box@),
    {
        let system = System {
            name,
            networks: Vec::new(),
            network_names,
            base_box,
            leased_network_addresses: LeaseTable::new(),
        };
        assert(system@.networks =~= Seq::<usize>::empty());
        system
    }

    /// Builds an unwired system from its configuration table, or reports
    /// the first rule the table breaks.
    pub fn from_toml(system_toml: &toml::Value) -> (outcome: Result<System, ModelError>)
        ensures
            built_system(outcome) == system_from_config(config_tree(*system_toml)),
    {
        let name = match field(system_toml, "name") {
            None => {
                return Err(ModelError::bare(Reason::SystemNameMissing));
            },
            Some(name_value) => match text(name_value) {
                None => {
                    return Err(ModelError::bare(Reason::SystemNameNotString));
                },
                Some(name) => name,
            },
        };
        let entries = match field(system_toml, "networks") {
            None => {
                return Err(ModelError::named(Reason::SystemNetworksMissing, name));
            },
            Some(networks_value) => match items(networks_value) {
                None => {
                    return Err(ModelError::named(Reason::SystemNetworksMissing, name));
                },
                Some(entries) => entries,
            },
        };
        let ghost trees = config_trees(entries@);
        let mut wanted: Vec<String> = Vec::new();
        let mut index: usize = 0;
        while index < entries.len()
            invariant
                index <= entries.len(),
                trees == config_trees(entries@),
                tree_field(config_tree(*system_toml), "name"@) == Some(ConfigTree::Text(name@)),
                tree_field(config_tree(*system_toml), "networks"@) == Some(
                    ConfigTree::Array(trees),
                ),
                wanted@.len() == index,
                forall|i: int| 0 <= i < index ==> trees[i] is Text && wanted@[i]@ == trees[i]->Text_0,
            decreases entries.len() - index,
        {
            match text(&entries[index]) {
                None => {
                    assert(!(trees[index as int] is Text));
                    assert(texts_of(trees) is None);
                    return Err(ModelError::named(Reason::SystemNetworkNotString, name));
                },
                Some(wanted_name) => {
                    wanted.push(wanted_name.to_owned());
                },
            }
            index += 1;
        }
        assert(name_views(wanted@) =~= texts_of(trees)->0);
        let base_box = match field(system_toml, "base_box") {
            None => {
                return Err(ModelError::named(Reason::BaseBoxMissing, name));
            },
            Some(base_box_value) => match text(base_box_value) {
                None => {
                    return Err(ModelError::named(Reason::BaseBoxNotString, name));
                },
                Some(base_box) => base_box,
            },
        };
        Ok(System::new(name.to_owned(), wanted, base_box.to_owned()))
    }

    /// Resolves the declared network names against `scenario_networks`:
    /// the positions of the networks in declaration order, or the first
    /// name that no network carries.
    pub fn resolve_networks(&self, scenario_networks: &Vec<Network>) -> (outcome: Result<
        Vec<usize>,
        ModelError,
    >)
        ensures
            match first_unresolved(network_views(scenario_networks@), self@.network_names) {
                Some(missing) => outcome matches Err(error) && error@ == reference_error(
                    Reason::UnresolvedNetwork,
                    self@.name,
                    self@.network_names[missing],
                ),
                None => outcome matches Ok(interfaces) && interfaces@ == resolved(
                    network_views(scenario_networks@),
                    self@.network_names,
                ) && forall|k: int|
                    0 <= k < interfaces@.len() ==> interfaces@[k] < scenario_networks@.len(),
            },
    {
        let ghost views = network_views(scenario_networks@);
        let ghost found = resolution(views, self@.network_names);
        let mut interfaces: Vec<usize> = Vec::new();
        let mut index: usize = 0;
        while index < self.network_names.len()
            invariant
                index <= self.network_names.len(),
                views == network_views(scenario_networks@),
                found == resolution(views, self@.network_names),
                interfaces@.len() == index,
                forall|k: int| 0 <= k < index ==> found[k] == Some(interfaces@[k] as int),
                forall|k: int| 0 <= k < index ==> interfaces@[k] < scenario_networks@.len(),
            decreases self.network_names.len() - index,
        {
            let wanted = self.network_names[index].as_str();
            match find_network(scenario_networks, wanted) {
                None => {
                    proof {
                        lemma_first_position(found, None, index as int);
                    }
                    return Err(
                        ModelError::with_reference(
                            Reason::UnresolvedNetwork,
                            self.name.as_str(),
                            wanted,
                        ),
                    );
                },
                Some(position) => {
                    interfaces.push(position);
                },
            }
            index += 1;
        }
        proof {
            lemma_no_position(found, None);
            assert forall|k: int| 0 <= k < interfaces@.len() implies interfaces@[k] == resolved(
                views,
                self@.network_names,
            )[k] by {
                assert(found[k] == resolve(views, self@.network_names[k]));
            }
            assert(interfaces@ =~= resolved(views, self@.network_names));
        }
        Ok(interfaces)
    }

    /// Wires the system: binds it to the networks its declared names
    /// resolve to, then leases an address for every interface on an
    /// internal network, in declared order.
    ///
    /// A name that no network carries fails the wiring and leaves the system
    /// and the networks as they were. A network without a free address fails
    /// it too; the leases made up to then stay on record, and the system is
    /// not to be rendered.
    pub fn configure_networking(&mut self, scenario_networks: &mut Vec<Network>) -> (outcome:
        Result<(), ModelError>)
        requires
            all_wf(old(scenario_networks)@),
        ensures
            final(self)@ == wired(old(self)@, network_views(old(scenario_networks)@)).system,
            network_views(final(scenario_networks)@) == wired(
                old(self)@,
                network_views(old(scenario_networks)@),
            ).networks,
            step_outcome(outcome) == wired(
                old(self)@,
                network_views(old(scenario_networks)@),
            ).outcome,
            all_wf(final(scenario_networks)@),
    {
        let ghost start = network_views(scenario_networks@);
        let ghost leases = self@.leases;
        let interfaces = match self.resolve_networks(scenario_networks) {
            Err(error) => {
                return Err(error);
            },
            Ok(interfaces) => interfaces,
        };
        let mut index: usize = 0;
        while index < interfaces.len()
            invariant
                index <= interfaces.len(),
                self@.networks == old(self)@.networks + interfaces@.take(index as int),
                self@.name == old(self)@.name,
                self@.network_names == old(self)@.network_names,
                self@.base_box == old(self)@.base_box,
                self@.leases == leases,
                network_views(scenario_networks@) == start,
            decreases interfaces.len() - index,
        {
            self.networks.push(interfaces[index]);
            index += 1;
            assert(self@.networks =~= old(self)@.networks + interfaces@.take(index as int));
        }
        assert(interfaces@.take(index as int) =~= interfaces@);
        index = 0;
        while index < interfaces.len()
            invariant
                index <= interfaces.len(),
                self@.networks == old(self)@.networks + interfaces@,
                self@.name == old(self)@.name,
                self@.network_names == old(self)@.network_names,
                self@.base_box == old(self)@.base_box,
                scenario_networks@.len() == start.len(),
                all_wf(scenario_networks@),
                forall|k: int| 0 <= k < interfaces@.len() ==> interfaces@[k] < start.len(),
                start == network_views(old(scenario_networks)@),
                leases == old(self)@.leases,
                first_unresolved(start, old(self)@.network_names) is None,
                interfaces@ == resolved(start, old(self)@.network_names),
                lease_each(interfaces@.take(index as int), start, leases) == (Leasing {
                    networks: network_views(scenario_networks@),
                    leases: self@.leases,
                    failed: None,
                }),
            decreases interfaces.len() - index,
        {
            let position = interfaces[index];
            let ghost before = network_views(scenario_networks@);
            proof {
                assert(interfaces@.take(index + 1).drop_last() =~= interfaces@.take(index as int));
                assert(before[position as int] == scenario_networks@[position as int]@);
            }
            match scenario_networks[position].network_type {
                NetworkType::Public => {},
                NetworkType::Internal => {
                    let lease = scenario_networks[position].get_address_lease();
                    match lease {
                        Some(address) => {
                            self.leased_network_addresses.record(
                                scenario_networks[position].name.as_str(),
                                address,
                            );
                            proof {
                                assert(network_views(scenario_networks@) =~= before.update(
                                    position as int,
                                    with_lease(before[position as int], address),
                                ));
                            }
                        },
                        None => {
                            proof {
                                assert(network_views(scenario_networks@) =~= before);
                                assert(before[position as int].name
                                    == scenario_networks@[position as int].name@);
                                assert(lease_each(interfaces@.take(index + 1), start, leases) == (
                                Leasing {
                                    networks: before,
                                    leases: self@.leases,
                                    failed: Some(position as int),
                                }));
                                lemma_failure_ends_leasing(
                                    interfaces@,
                                    start,
                                    leases,
                                    index + 1,
                                    interfaces@.len() as int,
                                );
                                assert(interfaces@.take(interfaces@.len() as int) =~= interfaces@);
                            }
                            return Err(
                                ModelError::named(
                                    Reason::AddressesExhausted,
                                    scenario_networks[position].name.as_str(),
                                ),
                            );
                        },
                    }
                },
            }
            index += 1;
        }
        assert(interfaces@.take(index as int) =~= interfaces@);
        Ok(())
    }
}

/// The count of interfaces on a network grows with the interfaces counted,
/// and an interface on the network adds one to it.
pub proof fn lemma_interfaces_on_grows(
    interfaces: Seq<usize>,
    position: int,
    before: int,
    later: int,
)
    requires
        0 <= before <= later,
    ensures
        interfaces_on(interfaces, position, before) <= interfaces_on(interfaces, position, later),
        before < later && interfaces[before] == position ==> interfaces_on(
            interfaces,
            position,
            before,
        ) < interfaces_on(interfaces, position, later),
    decreases later - before,
{
    if before < later {
        lemma_interfaces_on_grows(interfaces, position, before, later - 1);
    }
}

/// While leasing succeeds, the networks change only in what is leased, and
/// on every internal network the lease table holds as many addresses as
/// interfaces on that network have been served. Public networks hold none.
pub proof fn lemma_leasing_counts(
    interfaces: Seq<usize>,
    networks: Seq<NetworkView>,
    count: int,
)
    requires
        0 <= count <= interfaces.len(),
        forall|k: int| 0 <= k < interfaces.len() ==> interfaces[k] < networks.len(),
        network_names(networks).no_duplicates(),
        lease_each(interfaces.take(count), networks, Seq::empty()).failed is None,
    ensures
        same_networks(
            networks,
            lease_each(interfaces.take(count), networks, Seq::empty()).networks,
        ),
        forall|position: int|
            0 <= position < networks.len() ==> lease_count(
                lease_each(interfaces.take(count), networks, Seq::empty()).leases,
                #[trigger] networks[position].name,
            ) == if networks[position].network_type == NetworkType::Internal {
                interfaces_on(interfaces, position, count)
            } else {
                0
            },
    decreases count,
{
    let empty = Seq::<LeaseEntryView>::empty();
    let state = lease_each(interfaces.take(count), networks, empty);
    if count == 0 {
        assert(entry_names(empty) =~= Seq::<Seq<char>>::empty());
        assert forall|position: int| 0 <= position < networks.len() implies lease_count(
            state.leases,
            #[trigger] networks[position].name,
        ) == 0 by {
            lemma_no_position(entry_names(empty), networks[position].name);
        }
    } else {
        assert(interfaces.take(count).drop_last() =~= interfaces.take(count - 1));
        let before = lease_each(interfaces.take(count - 1), networks, empty);
        lemma_leasing_counts(interfaces, networks, count - 1);
        let served = interfaces[count - 1] as int;
        let network = before.networks[served];
        assert(network.name == networks[served].name);
        assert forall|position: int| 0 <= position < networks.len() implies lease_count(
            state.leases,
            #[trigger] networks[position].name,
        ) == if networks[position].network_type == NetworkType::Internal {
            interfaces_on(interfaces, position, count)
        } else {
            0
        } by {
            if network.network_type == NetworkType::Internal {
                let address = next_lease(network)->0;
                lemma_record_lease(before.leases, network.name, address, networks[position].name);
                if position != served {
                    assert(network_names(networks)[position] != network_names(networks)[served]);
                }
            }
        }
    }
}

/// A system that is wired with success, and was unwired before, is fully
/// served: for every internal network it holds exactly as many addresses
/// as it has interfaces on that network. The networks change only in what
/// is leased.
pub proof fn lemma_wired_system_is_served(system: SystemView, networks: Seq<NetworkView>)
    requires
        system.networks.len() == 0,
        system.leases.len() == 0,
        network_names(networks).no_duplicates(),
        networks.len() <= usize::MAX,
        wired(system, networks).outcome is Ok,
    ensures
        fully_served(wired(system, networks).system, wired(system, networks).networks),
        same_networks(networks, wired(system, networks).networks),
        wired(system, networks).system.networks.len() == system.network_names.len(),
{
    let wanted = system.network_names;
    let found = resolution(networks, wanted);
    let interfaces = resolved(networks, wanted);
    found.index_of_first_ensures(None);
    assert forall|k: int| 0 <= k < interfaces.len() implies interfaces[k] < networks.len() by {
        assert(found[k] == resolve(networks, wanted[k]));
        assert(found.contains(found[k]));
        network_names(networks).index_of_first_ensures(wanted[k]);
    }
    assert(interfaces.take(interfaces.len() as int) =~= interfaces);
    assert(system.leases =~= Seq::<LeaseEntryView>::empty());
    lemma_leasing_counts(interfaces, networks, interfaces.len() as int);
    assert(system.networks + interfaces =~= interfaces);
}

/// Whether a system is fully served does not depend on what is leased on
/// the networks.
pub proof fn lemma_served_whatever_is_leased(
    system: SystemView,
    before: Seq<NetworkView>,
    after: Seq<NetworkView>,
)
    requires
        same_networks(before, after),
        fully_served(system, before),
    ensures
        fully_served(system, after),
{
    assert forall|position: int|
        0 <= position < after.len() && after[position].network_type
            == NetworkType::Internal implies lease_count(
        system.leases,
        #[trigger] after[position].name,
    ) == interfaces_on(system.networks, position, system.networks.len() as int) by {
        assert(before[position].name == after[position].name);
    }
}

/// A system without interfaces and without leases is fully served.
pub proof fn lemma_unwired_system_is_served(system: SystemView, networks: Seq<NetworkView>)
    requires
        system.networks.len() == 0,
        system.leases.len() == 0,
    ensures
        fully_served(system, networks),
{
    assert(entry_names(system.leases) =~= Seq::<Seq<char>>::empty());
    assert forall|position: int| 0 <= position < networks.len() implies lease_count(
        system.leases,
        #[trigger] networks[position].name,
    ) == 0 by {
        lemma_no_position(entry_names(system.leases), networks[position].name);
    }
}

/// `count` interfaces on the network at `position`.
pub open spec fn repeated_interface(position: int, count: nat) -> Seq<usize> {
    Seq::new(count, |i: int| position as usize)
}

/// The addresses that the first `count` lease requests on `network`
/// receive, in order.
pub open spec fn first_leases(network: NetworkView, count: nat) -> Seq<u32> {
    Seq::new(count, |i: int| nth_lease(network, i as nat)->0)
}

/// The lease table of a system that holds `addresses` on the network
/// called `name` and nothing else.
pub open spec fn single_entry(name: Seq<char>, addresses: Seq<u32>) -> Seq<LeaseEntryView> {
    if addresses.len() == 0 {
        Seq::empty()
    } else {
        seq![LeaseEntryView { network: name, addresses }]
    }
}

proof fn lemma_repeated_leasing(networks: Seq<NetworkView>, position: int, count: nat)
    requires
        0 <= position < networks.len(),
        position <= usize::MAX,
        networks[position].network_type == NetworkType::Internal,
        lease_each(
            repeated_interface(position, count),
            networks,
            Seq::empty(),
        ).failed is None,
    ensures
        lease_each(repeated_interface(position, count), networks, Seq::empty()).networks
            == networks.update(position, after_leases(networks[position], count)),
        lease_each(repeated_interface(position, count), networks, Seq::empty()).leases
            == single_entry(networks[position].name, first_leases(networks[position], count)),
        forall|i: nat| i < count ==> nth_lease(networks[position], i) is Some,
    decreases count,
{
    let network = networks[position];
    let empty = Seq::<LeaseEntryView>::empty();
    if count == 0 {
        assert(networks.update(position, after_leases(network, 0)) =~= networks);
    } else {
        let shorter = (count - 1) as nat;
        assert(repeated_interface(position, count).drop_last() =~= repeated_interface(
            position,
            shorter,
        ));
        let before = lease_each(repeated_interface(position, shorter), networks, empty);
        lemma_repeated_leasing(networks, position, shorter);
        lemma_leases_persist(network, shorter, 0u32);
        let current = after_leases(network, shorter);
        assert(before.networks[position] == current);
        let address = next_lease(current)->0;
        assert(networks.update(position, current).update(position, with_lease(current, address))
            =~= networks.update(position, after_leases(network, count)));
        let earlier = first_leases(network, shorter);
        assert(first_leases(network, count) =~= earlier.push(address));
        if shorter == 0 {
            assert(entry_names(empty) =~= Seq::<Seq<char>>::empty());
            lemma_no_position(entry_names(empty), network.name);
            assert(first_leases(network, count) =~= seq![address]);
            assert(empty.push(LeaseEntryView { network: network.name, addresses: seq![address] })
                =~= single_entry(network.name, first_leases(network, count)));
        } else {
            let table = single_entry(network.name, earlier);
            lemma_first_position(entry_names(table), network.name, 0);
            assert(table.update(
                0,
                LeaseEntryView { network: network.name, addresses: earlier.push(address) },
            ) =~= single_entry(network.name, first_leases(network, count)));
        }
    }
}

/// A system that is wired with `count` interfaces on one internal network,
/// and holds no lease before, holds exactly `count` addresses on that
/// network afterwards: the ones that `count` lease requests in a row
/// receive, in the order of the interfaces, no two of them equal.
pub proof fn lemma_interfaces_on_one_network(
    system: SystemView,
    networks: Seq<NetworkView>,
    position: int,
    count: nat,
)
    requires
        0 <= position < networks.len(),
        position <= usize::MAX,
        networks[position].network_type == NetworkType::Internal,
        system.leases == Seq::<LeaseEntryView>::empty(),
        system.network_names.len() == count,
        forall|i: int| 0 <= i < count ==> resolve(networks, #[trigger] system.network_names[i])
            == Some(position),
        wired(system, networks).outcome is Ok,
    ensures
        wired(system, networks).system.leases == single_entry(
            networks[position].name,
            first_leases(networks[position], count),
        ),
        count > 0 ==> leases_on(wired(system, networks).system.leases, networks[position].name)
            == Some(first_leases(networks[position], count)),
        first_leases(networks[position], count).len() == count,
        first_leases(networks[position], count).no_duplicates(),
        wired(system, networks).networks == networks.update(
            position,
            after_leases(networks[position], count),
        ),
{
    let found = resolution(networks, system.network_names);
    lemma_no_position(found, None);
    assert(resolved(networks, system.network_names) =~= repeated_interface(position, count));
    lemma_repeated_leasing(networks, position, count);
    let network = networks[position];
    let addresses = first_leases(network, count);
    assert forall|i: int, j: int| 0 <= i < j < count implies addresses[i] != addresses[j] by {
        lemma_leases_are_distinct(network, i as nat, j as nat);
    }
    if count > 0 {
        lemma_first_position(entry_names(single_entry(network.name, addresses)), network.name, 0);
    }
}

} // verus!
