//! A whole lab: its networks and systems, the rules that hold across them,
//! the wiring pass over its systems, and its rendering as a Vagrantfile.

use crate::config::{config_tree, config_trees, field, items, text, tree_field, ConfigTree};
use crate::error::{bare_error, named_error, ModelError, ModelErrorView, Reason};
use crate::indentation_aware_string_builder::{
    repeated, IndentationAwareStringBuilder, IndentationType,
};
use crate::names::name_views;
use crate::network::{network_from_config, valid_network, Network, NetworkView};
use crate::text::{case_fold, case_folded};
use crate::vagrantfile::{
    box_line, box_text, definition_line, definition_text, indented, interface_line,
    interface_lines, lemma_interface_failure_is_final, lemma_served_systems_render,
    lemma_systems_failure_is_final, rendered, system_lines, systems_lines, vagrantfile,
};
use vstd::string::*;
use crate::system::{
    all_wf, fully_served, lemma_served_whatever_is_leased, lemma_unwired_system_is_served,
    lemma_wired_system_is_served, network_names, network_views, same_networks, step_outcome,
    system_from_config, wired, System, SystemView,
};
use vstd::prelude::*;

verus! {

/// A named lab of networks and the systems attached to them.
#[derive(Debug)]
pub struct Scenario {
    pub name: String,
    pub systems: Vec<System>,
    pub networks: Vec<Network>,
}

/// The mathematical content of a [`Scenario`].
pub struct ScenarioView {
    pub name: Seq<char>,
    pub systems: Seq<SystemView>,
    pub networks: Seq<NetworkView>,
}

/// The contents of each system of `systems`, in order.
pub open spec fn system_views(systems: Seq<System>) -> Seq<SystemView> {
    Seq::new(systems.len(), |i: int| systems[i]@)
}

/// The names of `systems`, in order.
pub open spec fn system_names(systems: Seq<SystemView>) -> Seq<Seq<char>> {
    Seq::new(systems.len(), |i: int| systems[i].name)
}

impl View for Scenario {
    type V = ScenarioView;

    open spec fn view(&self) -> ScenarioView {
        ScenarioView {
            name: self.name@,
            systems: system_views(self.systems@),
            networks: network_views(self.networks@),
        }
    }
}

/// Whether the name at `position` occurs again further back.
pub open spec fn repeats_later(names: Seq<Seq<char>>, position: int) -> bool {
    exists|later: int| position < later < names.len() && names[later] == names[position]
}

/// Whether `position` holds the first name, in order of first occurrence,
/// that occurs more than once.
pub open spec fn is_first_duplicate(names: Seq<Seq<char>>, position: int) -> bool {
    &&& 0 <= position < names.len()
    &&& repeats_later(names, position)
    &&& forall|earlier: int| 0 <= earlier < position ==> !repeats_later(names, earlier)
}

/// The position of the first name, in order of first occurrence, that
/// occurs more than once.
pub open spec fn first_duplicate(names: Seq<Seq<char>>) -> Option<int> {
    if exists|position: int| is_first_duplicate(names, position) {
        Some(choose|position: int| is_first_duplicate(names, position))
    } else {
        None
    }
}

/// What checking `names` for uniqueness gives: success, or a failure of
/// kind `reason` that names the first duplicate.
pub open spec fn unique_names(names: Seq<Seq<char>>, reason: Reason) -> Result<
    (),
    ModelErrorView,
> {
    match first_duplicate(names) {
        Some(position) => Err(named_error(reason, names[position])),
        None => Ok(()),
    }
}

/// At most one position holds the first duplicate.
pub proof fn lemma_first_duplicate_is_unique(names: Seq<Seq<char>>, position: int)
    requires
        is_first_duplicate(names, position),
    ensures
        first_duplicate(names) == Some(position),
{
    let chosen = choose|p: int| is_first_duplicate(names, p);
    assert(is_first_duplicate(names, chosen));
    if chosen < position {
        assert(!repeats_later(names, chosen));
    } else if position < chosen {
        assert(!repeats_later(names, position));
    }
}

/// A list of names has a first duplicate exactly when some name occurs
/// twice in it.
pub proof fn lemma_duplicates_are_found(names: Seq<Seq<char>>)
    ensures
        first_duplicate(names) is None <==> names.no_duplicates(),
        first_duplicate(names) matches Some(position) ==> is_first_duplicate(names, position),
{
    if first_duplicate(names) is None {
        assert forall|i: int, j: int| 0 <= i < names.len() && 0 <= j < names.len() && i != j
            implies names[i] != names[j] by {
            if names[i] == names[j] {
                let low = if i < j {
                    i
                } else {
                    j
                };
                let high = if i < j {
                    j
                } else {
                    i
                };
                assert(high > low && names[high] == names[low]);
                assert(repeats_later(names, low));
                lemma_some_duplicate_has_first(names, low);
            }
        }
    } else {
        let position = first_duplicate(names)->0;
        assert(is_first_duplicate(names, position));
        let later = choose|later: int|
            position < later < names.len() && names[later] == names[position];
        assert(names[later] == names[position]);
    }
}

/// In front of every name that repeats there is a first one that does.
proof fn lemma_some_duplicate_has_first(names: Seq<Seq<char>>, position: int)
    requires
        0 <= position < names.len(),
        repeats_later(names, position),
    ensures
        exists|first: int| is_first_duplicate(names, first),
    decreases position,
{
    if forall|earlier: int| 0 <= earlier < position ==> !repeats_later(names, earlier) {
        assert(is_first_duplicate(names, position));
    } else {
        let earlier = choose|earlier: int|
            0 <= earlier < position && repeats_later(names, earlier);
        lemma_some_duplicate_has_first(names, earlier);
    }
}

/// The position of the first name of `names`, in order of first
/// occurrence, that occurs more than once.
pub fn find_duplicate(names: &Vec<String>) -> (found: Option<usize>)
    ensures
        match found {
            Some(position) => position < names@.len() && first_duplicate(name_views(names@))
                == Some(position as int),
            None => first_duplicate(name_views(names@)) is None,
        },
{
    let ghost views = name_views(names@);
    let mut index: usize = 0;
    while index < names.len()
        invariant
            index <= names.len(),
            views == name_views(names@),
            forall|earlier: int| 0 <= earlier < index ==> !repeats_later(views, earlier),
        decreases names.len() - index,
    {
        let mut other: usize = index + 1;
        while other < names.len()
            invariant
                index < names.len(),
                index < other <= names.len(),
                views == name_views(names@),
                forall|earlier: int| 0 <= earlier < index ==> !repeats_later(views, earlier),
                forall|between: int|
                    index < between < other ==> views[between] != views[index as int],
            decreases names.len() - other,
        {
            if names[index] == names[other] {
                proof {
                    assert(views[other as int] == views[index as int]);
                    assert(repeats_later(views, index as int));
                    lemma_first_duplicate_is_unique(views, index as int);
                }
                return Some(index);
            }
            other += 1;
        }
        assert(!repeats_later(views, index as int));
        index += 1;
    }
    proof {
        assert forall|position: int| !is_first_duplicate(views, position) by {}
    }
    None
}

/// What reading the networks of a scenario from the configuration tables
/// `trees` gives: all networks in order, or the failure of the first table
/// that does not give one.
pub open spec fn networks_from_config(trees: Seq<ConfigTree>) -> Result<
    Seq<NetworkView>,
    ModelErrorView,
>
    decreases trees.len(),
{
    if trees.len() == 0 {
        Ok(Seq::empty())
    } else {
        match networks_from_config(trees.drop_last()) {
            Err(error) => Err(error),
            Ok(networks) => match network_from_config(trees.last()) {
                Err(error) => Err(error),
                Ok(network) => Ok(networks.push(network)),
            },
        }
    }
}

/// What reading the systems of a scenario from the configuration tables
/// `trees` gives: all systems in order, or the failure of the first table
/// that does not give one.
pub open spec fn systems_from_config(trees: Seq<ConfigTree>) -> Result<
    Seq<SystemView>,
    ModelErrorView,
>
    decreases trees.len(),
{
    if trees.len() == 0 {
        Ok(Seq::empty())
    } else {
        match systems_from_config(trees.drop_last()) {
            Err(error) => Err(error),
            Ok(systems) => match system_from_config(trees.last()) {
                Err(error) => Err(error),
                Ok(system) => Ok(systems.push(system)),
            },
        }
    }
}

/// What reading a scenario from the configuration table `tree` gives. The
/// scenario's name is read first, then the networks, whose names must be
/// unique, then the systems, whose names must be unique. No system is
/// wired.
pub open spec fn scenario_from_config(tree: ConfigTree) -> Result<ScenarioView, ModelErrorView> {
    match tree_field(tree, "scenario"@) {
        None => Err(bare_error(Reason::ScenarioMissing)),
        Some(section) => match tree_field(section, "name"@) {
            None => Err(bare_error(Reason::ScenarioNameMissing)),
            Some(ConfigTree::Text(name)) => match tree_field(tree, "networks"@) {
                Some(ConfigTree::Array(network_trees)) => match networks_from_config(
                    network_trees,
                ) {
                    Err(error) => Err(error),
                    Ok(networks) => match unique_names(
                        network_names(networks),
                        Reason::DuplicateNetwork,
                    ) {
                        Err(error) => Err(error),
                        Ok(_) => match tree_field(tree, "systems"@) {
                            Some(ConfigTree::Array(system_trees)) => match systems_from_config(
                                system_trees,
                            ) {
                                Err(error) => Err(error),
                                Ok(systems) => match unique_names(
                                    system_names(systems),
                                    Reason::DuplicateSystem,
                                ) {
                                    Err(error) => Err(error),
                                    Ok(_) => Ok(ScenarioView { name, systems, networks }),
                                },
                            },
                            _ => Err(bare_error(Reason::SystemsMissing)),
                        },
                    },
                },
                _ => Err(bare_error(Reason::NetworksMissing)),
            },
            Some(_) => Err(bare_error(Reason::ScenarioNameNotString)),
        },
    }
}

/// A scenario after a wiring pass, with the outcome of the pass.
pub struct WiringPass {
    pub scenario: ScenarioView,
    pub outcome: Result<(), ModelErrorView>,
}

/// What wiring the first `count` systems of `scenario` in order gives. The
/// pass stops at the first system whose wiring fails, and leaves the
/// systems behind it unwired.
pub open spec fn wire_each(scenario: ScenarioView, count: nat) -> WiringPass
    decreases count,
{
    if count == 0 {
        WiringPass { scenario, outcome: Ok(()) }
    } else {
        let before = wire_each(scenario, (count - 1) as nat);
        if before.outcome is Err {
            before
        } else {
            let wiring = wired(before.scenario.systems[count - 1], before.scenario.networks);
            WiringPass {
                scenario: ScenarioView {
                    name: before.scenario.name,
                    systems: before.scenario.systems.update(count - 1, wiring.system),
                    networks: wiring.networks,
                },
                outcome: wiring.outcome,
            }
        }
    }
}

/// A system whose wiring fails ends the wiring pass.
proof fn lemma_wiring_failure_is_final(scenario: ScenarioView, done: nat, later: nat)
    requires
        done <= later,
        wire_each(scenario, done).outcome is Err,
    ensures
        wire_each(scenario, later) == wire_each(scenario, done),
    decreases later - done,
{
    if later > done {
        lemma_wiring_failure_is_final(scenario, done, (later - 1) as nat);
    }
}

/// Whether no system of `scenario` is wired and no two of its networks
/// share a name.
pub open spec fn ready_for_wiring(scenario: ScenarioView) -> bool {
    &&& scenario.networks.len() <= usize::MAX
    &&& network_names(scenario.networks).no_duplicates()
    &&& forall|i: int|
        0 <= i < scenario.systems.len() ==> {
            &&& (#[trigger] scenario.systems[i]).networks.len() == 0
            &&& scenario.systems[i].leases.len() == 0
        }
}

/// While the wiring pass succeeds, the systems it has reached are fully
/// served, the systems behind them are untouched, and the networks change
/// only in what is leased.
proof fn lemma_wiring_pass_serves(scenario: ScenarioView, count: nat)
    requires
        ready_for_wiring(scenario),
        count <= scenario.systems.len(),
        wire_each(scenario, count).outcome is Ok,
    ensures
        wire_each(scenario, count).scenario.systems.len() == scenario.systems.len(),
        wire_each(scenario, count).scenario.name == scenario.name,
        same_networks(scenario.networks, wire_each(scenario, count).scenario.networks),
        forall|j: int|
            0 <= j < scenario.systems.len() ==> fully_served(
                #[trigger] wire_each(scenario, count).scenario.systems[j],
                wire_each(scenario, count).scenario.networks,
            ),
        forall|j: int|
            count <= j < scenario.systems.len() ==> #[trigger] wire_each(
                scenario,
                count,
            ).scenario.systems[j] == scenario.systems[j],
    decreases count,
{
    if count == 0 {
        assert forall|j: int| 0 <= j < scenario.systems.len() implies fully_served(
            #[trigger] scenario.systems[j],
            scenario.networks,
        ) by {
            lemma_unwired_system_is_served(scenario.systems[j], scenario.networks);
        }
    } else {
        let before = wire_each(scenario, (count - 1) as nat);
        lemma_wiring_pass_serves(scenario, (count - 1) as nat);
        let system = before.scenario.systems[count - 1];
        assert(system == scenario.systems[count - 1]);
        assert(network_names(before.scenario.networks) =~= network_names(scenario.networks));
        lemma_wired_system_is_served(system, before.scenario.networks);
        let wiring = wired(system, before.scenario.networks);
        let after = wire_each(scenario, count).scenario;
        assert forall|j: int| 0 <= j < scenario.systems.len() implies fully_served(
            #[trigger] after.systems[j],
            after.networks,
        ) by {
            if j != count - 1 {
                lemma_served_whatever_is_leased(
                    before.scenario.systems[j],
                    before.scenario.networks,
                    wiring.networks,
                );
            }
        }
    }
}

/// A scenario whose systems were all unwired, whose network names are
/// unique, and whose wiring pass succeeded renders: every interface has a
/// network and a lease of its own. The pass changes nothing of the
/// networks but what is leased, and every system holds on every internal
/// network exactly one address per interface.
pub proof fn lemma_wired_scenario_renders(scenario: ScenarioView)
    requires
        ready_for_wiring(scenario),
        wire_each(scenario, scenario.systems.len()).outcome is Ok,
    ensures
        vagrantfile(wire_each(scenario, scenario.systems.len()).scenario) is Ok,
        same_networks(
            scenario.networks,
            wire_each(scenario, scenario.systems.len()).scenario.networks,
        ),
        forall|j: int|
            0 <= j < scenario.systems.len() ==> fully_served(
                #[trigger] wire_each(scenario, scenario.systems.len()).scenario.systems[j],
                wire_each(scenario, scenario.systems.len()).scenario.networks,
            ),
{
    lemma_wiring_pass_serves(scenario, scenario.systems.len());
    let after = wire_each(scenario, scenario.systems.len()).scenario;
    lemma_served_systems_render(after.systems, after.networks, after.systems.len());
}

/// The mathematical content of the outcome of building a scenario.
pub open spec fn built_scenario(outcome: Result<Scenario, ModelError>) -> Result<
    ScenarioView,
    ModelErrorView,
> {
    match outcome {
        Ok(scenario) => Ok(scenario@),
        Err(error) => Err(error@),
    }
}

/// A table that fails ends the reading of the networks.
proof fn lemma_network_failure_is_final(trees: Seq<ConfigTree>, done: int, later: int)
    requires
        0 <= done <= later <= trees.len(),
        networks_from_config(trees.take(done)) is Err,
    ensures
        networks_from_config(trees.take(later)) == networks_from_config(trees.take(done)),
    decreases later - done,
{
    if later > done {
        lemma_network_failure_is_final(trees, done, later - 1);
        assert(trees.take(later).drop_last() =~= trees.take(later - 1));
    }
}

/// A table that fails ends the reading of the systems.
proof fn lemma_system_failure_is_final(trees: Seq<ConfigTree>, done: int, later: int)
    requires
        0 <= done <= later <= trees.len(),
        systems_from_config(trees.take(done)) is Err,
    ensures
        systems_from_config(trees.take(later)) == systems_from_config(trees.take(done)),
    decreases later - done,
{
    if later > done {
        lemma_system_failure_is_final(trees, done, later - 1);
        assert(trees.take(later).drop_last() =~= trees.take(later - 1));
    }
}

/// Networks read from configuration satisfy the network invariant.
proof fn lemma_built_networks_are_valid(trees: Seq<ConfigTree>)
    requires
        networks_from_config(trees) is Ok,
    ensures
        networks_from_config(trees)->Ok_0.len() == trees.len(),
        forall|i: int|
            0 <= i < trees.len() ==> valid_network(
                #[trigger] networks_from_config(trees)->Ok_0[i],
            ),
    decreases trees.len(),
{
    if trees.len() > 0 {
        lemma_built_networks_are_valid(trees.drop_last());
    }
}

/// Systems read from configuration are unwired.
proof fn lemma_built_systems_are_unwired(trees: Seq<ConfigTree>)
    requires
        systems_from_config(trees) is Ok,
    ensures
        systems_from_config(trees)->Ok_0.len() == trees.len(),
        forall|i: int|
            0 <= i < trees.len() ==> {
                &&& (#[trigger] systems_from_config(trees)->Ok_0[i]).networks.len() == 0
                &&& systems_from_config(trees)->Ok_0[i].leases.len() == 0
            },
    decreases trees.len(),
{
    if trees.len() > 0 {
        lemma_built_systems_are_unwired(trees.drop_last());
    }
}

/// A scenario that was built passes every check of the build again: its
/// network names and its system names are unique, each of its networks
/// satisfies the network invariant, and none of its systems is wired.
pub proof fn lemma_built_scenario_is_valid(tree: ConfigTree)
    requires
        scenario_from_config(tree) is Ok,
    ensures
        unique_names(
            network_names(scenario_from_config(tree)->Ok_0.networks),
            Reason::DuplicateNetwork,
        ) is Ok,
        unique_names(
            system_names(scenario_from_config(tree)->Ok_0.systems),
            Reason::DuplicateSystem,
        ) is Ok,
        network_names(scenario_from_config(tree)->Ok_0.networks).no_duplicates(),
        system_names(scenario_from_config(tree)->Ok_0.systems).no_duplicates(),
        forall|i: int|
            0 <= i < scenario_from_config(tree)->Ok_0.networks.len() ==> valid_network(
                #[trigger] scenario_from_config(tree)->Ok_0.networks[i],
            ),
        forall|i: int|
            0 <= i < scenario_from_config(tree)->Ok_0.systems.len() ==> {
                &&& (#[trigger] scenario_from_config(tree)->Ok_0.systems[i]).networks.len() == 0
                &&& scenario_from_config(tree)->Ok_0.systems[i].leases.len() == 0
            },
{
    let scenario = scenario_from_config(tree)->Ok_0;
    let network_trees = tree_field(tree, "networks"@)->0->Array_0;
    let system_trees = tree_field(tree, "systems"@)->0->Array_0;
    lemma_built_networks_are_valid(network_trees);
    lemma_built_systems_are_unwired(system_trees);
    lemma_duplicates_are_found(network_names(scenario.networks));
    lemma_duplicates_are_found(system_names(scenario.systems));
}

/// Builds the networks of a scenario, in order, stopping at the first
/// table that does not give a network.
pub fn networks_from_toml(entries: &Vec<toml::Value>) -> (outcome: Result<
    Vec<Network>,
    ModelError,
>)
    ensures
        match outcome {
            Ok(networks) => networks_from_config(config_trees(entries@)) == Ok::<
                Seq<NetworkView>,
                ModelErrorView,
            >(network_views(networks@)) && all_wf(networks@),
            Err(error) => networks_from_config(config_trees(entries@)) == Err::<
                Seq<NetworkView>,
                ModelErrorView,
            >(error@),
        },
{
    let ghost trees = config_trees(entries@);
    let mut networks: Vec<Network> = Vec::new();
    let mut index: usize = 0;
    assert(network_views(networks@) =~= Seq::<NetworkView>::empty());
    while index < entries.len()
        invariant
            index <= entries.len(),
            trees == config_trees(entries@),
            all_wf(networks@),
            networks_from_config(trees.take(index as int)) == Ok::<
                Seq<NetworkView>,
                ModelErrorView,
            >(network_views(networks@)),
        decreases entries.len() - index,
    {
        proof {
            assert(trees.take(index + 1).drop_last() =~= trees.take(index as int));
            assert(trees.take(index + 1).last() == config_tree(entries@[index as int]));
        }
        let ghost before = network_views(networks@);
        match Network::from_toml(&entries[index]) {
            Err(error) => {
                proof {
                    lemma_network_failure_is_final(trees, index + 1, trees.len() as int);
                    assert(trees.take(trees.len() as int) =~= trees);
                }
                return Err(error);
            },
            Ok(network) => {
                networks.push(network);
                assert(network_views(networks@) =~= before.push(network@));
            },
        }
        index += 1;
    }
    assert(trees.take(index as int) =~= trees);
    Ok(networks)
}

/// Builds the systems of a scenario, in order and unwired, stopping at the
/// first table that does not give a system.
pub fn systems_from_toml(entries: &Vec<toml::Value>) -> (outcome: Result<Vec<System>, ModelError>)
    ensures
        match outcome {
            Ok(systems) => systems_from_config(config_trees(entries@)) == Ok::<
                Seq<SystemView>,
                ModelErrorView,
            >(system_views(systems@)),
            Err(error) => systems_from_config(config_trees(entries@)) == Err::<
                Seq<SystemView>,
                ModelErrorView,
            >(error@),
        },
{
    let ghost trees = config_trees(entries@);
    let mut systems: Vec<System> = Vec::new();
    let mut index: usize = 0;
    assert(system_views(systems@) =~= Seq::<SystemView>::empty());
    while index < entries.len()
        invariant
            index <= entries.len(),
            trees == config_trees(entries@),
            systems_from_config(trees.take(index as int)) == Ok::<
                Seq<SystemView>,
                ModelErrorView,
            >(system_views(systems@)),
        decreases entries.len() - index,
    {
        proof {
            assert(trees.take(index + 1).drop_last() =~= trees.take(index as int));
            assert(trees.take(index + 1).last() == config_tree(entries@[index as int]));
        }
        let ghost before = system_views(systems@);
        match System::from_toml(&entries[index]) {
            Err(error) => {
                proof {
                    lemma_system_failure_is_final(trees, index + 1, trees.len() as int);
                    assert(trees.take(trees.len() as int) =~= trees);
                }
                return Err(error);
            },
            Ok(system) => {
                systems.push(system);
                assert(system_views(systems@) =~= before.push(system@));
            },
        }
        index += 1;
    }
    assert(trees.take(index as int) =~= trees);
    Ok(systems)
}

impl Scenario {
    /// Whether the networks satisfy their invariants.
    pub open spec fn wf(&self) -> bool {
        all_wf(self.networks@)
    }

    /// Checks that no two networks share a name; a failure names the first
    /// network name, in order of first occurrence, that occurs twice.
    pub fn are_network_names_unique(&self) -> (outcome: Result<(), ModelError>)
        ensures
            step_outcome(outcome) == unique_names(
                network_names(self@.networks),
                Reason::DuplicateNetwork,
            ),
    {
        let mut names: Vec<String> = Vec::new();
        let mut index: usize = 0;
        while index < self.networks.len()
            invariant
                index <= self.networks.len(),
                names@.len() == index,
                forall|i: int| 0 <= i < index ==> names@[i]@ == self.networks@[i].name@,
            decreases self.networks.len() - index,
        {
            names.push(self.networks[index].name.clone());
            index += 1;
        }
        assert(name_views(names@) =~= network_names(self@.networks));
        match find_duplicate(&names) {
            Some(position) => Err(
                ModelError::named(Reason::DuplicateNetwork, names[position].as_str()),
            ),
            None => Ok(()),
        }
    }

    /// Checks that no two systems share a name; a failure names the first
    /// system name, in order of first occurrence, that occurs twice.
    pub fn are_system_names_unique(&self) -> (outcome: Result<(), ModelError>)
        ensures
            step_outcome(outcome) == unique_names(
                system_names(self@.systems),
                Reason::DuplicateSystem,
            ),
    {
        let mut names: Vec<String> = Vec::new();
        let mut index: usize = 0;
        while index < self.systems.len()
            invariant
                index <= self.systems.len(),
                names@.len() == index,
                forall|i: int| 0 <= i < index ==> names@[i]@ == self.systems@[i].name@,
            decreases self.systems.len() - index,
        {
            names.push(self.systems[index].name.clone());
            index += 1;
        }
        assert(name_views(names@) =~= system_names(self@.systems));
        match find_duplicate(&names) {
            Some(position) => Err(
                ModelError::named(Reason::DuplicateSystem, names[position].as_str()),
            ),
            None => Ok(()),
        }
    }

    /// Builds a scenario from its configuration: the name, then the
    /// networks, then the systems. No system is wired yet.
    pub fn from_toml(scenario_toml: &toml::Value) -> (outcome: Result<Scenario, ModelError>)
        ensures
            built_scenario(outcome) == scenario_from_config(config_tree(*scenario_toml)),
            outcome matches Ok(scenario) ==> scenario.wf() && ready_for_wiring(scenario@),
    {
        proof {
            if scenario_from_config(config_tree(*scenario_toml)) is Ok {
                lemma_built_scenario_is_valid(config_tree(*scenario_toml));
            }
        }
        let name = match field(scenario_toml, "scenario") {
            None => {
                return Err(ModelError::bare(Reason::ScenarioMissing));
            },
            Some(section) => match field(section, "name") {
                None => {
                    return Err(ModelError::bare(Reason::ScenarioNameMissing));
                },
                Some(name_value) => match text(name_value) {
                    None => {
                        return Err(ModelError::bare(Reason::ScenarioNameNotString));
                    },
                    Some(name) => name,
                },
            },
        };
        let network_entries = match field(scenario_toml, "networks") {
            None => {
                return Err(ModelError::bare(Reason::NetworksMissing));
            },
            Some(networks_value) => match items(networks_value) {
                None => {
                    return Err(ModelError::bare(Reason::NetworksMissing));
                },
                Some(entries) => entries,
            },
        };
        let networks = match networks_from_toml(network_entries) {
            Err(error) => {
                return Err(error);
            },
            Ok(networks) => networks,
        };
        let mut scenario = Scenario { name: name.to_owned(), systems: Vec::new(), networks };
        match scenario.are_network_names_unique() {
            Err(error) => {
                return Err(error);
            },
            Ok(_) => {},
        }
        let system_entries = match field(scenario_toml, "systems") {
            None => {
                return Err(ModelError::bare(Reason::SystemsMissing));
            },
            Some(systems_value) => match items(systems_value) {
                None => {
                    return Err(ModelError::bare(Reason::SystemsMissing));
                },
                Some(entries) => entries,
            },
        };
        let systems = match systems_from_toml(system_entries) {
            Err(error) => {
                return Err(error);
            },
            Ok(systems) => systems,
        };
        scenario.systems = systems;
        match scenario.are_system_names_unique() {
            Err(error) => {
                return Err(error);
            },
            Ok(_) => {},
        }
        assert(scenario.networks.len() == scenario@.networks.len());
        Ok(scenario)
    }

    /// Wires every system in order, stopping at the first one whose wiring
    /// fails. After a pass that succeeded on a scenario as `from_toml` builds
    /// it, the scenario renders.
    pub fn configure_networking(&mut self) -> (outcome: Result<(), ModelError>)
        requires
            old(self).wf(),
        ensures
            final(self).wf(),
            final(self)@ == wire_each(old(self)@, old(self)@.systems.len()).scenario,
            step_outcome(outcome) == wire_each(old(self)@, old(self)@.systems.len()).outcome,
            ready_for_wiring(old(self)@) && outcome is Ok ==> vagrantfile(final(self)@) is Ok,
    {
        proof {
            if ready_for_wiring(self@) && wire_each(self@, self@.systems.len()).outcome is Ok {
                lemma_wired_scenario_renders(self@);
            }
        }
        let mut index: usize = 0;
        while index < self.systems.len()
            invariant
                index <= self.systems.len(),
                self.systems@.len() == old(self).systems@.len(),
                self.wf(),
                wire_each(old(self)@, index as nat) == (WiringPass {
                    scenario: self@,
                    outcome: Ok(()),
                }),
            decreases self.systems.len() - index,
        {
            let ghost before = self@;
            let wiring = self.systems[index].configure_networking(&mut self.networks);
            proof {
                assert(self@.systems =~= before.systems.update(
                    index as int,
                    wired(before.systems[index as int], before.networks).system,
                ));
            }
            match wiring {
                Err(error) => {
                    proof {
                        lemma_wiring_failure_is_final(
                            old(self)@,
                            (index + 1) as nat,
                            old(self)@.systems.len(),
                        );
                    }
                    return Err(error);
                },
                Ok(_) => {},
            }
            index += 1;
        }
        Ok(())
    }

    /// Renders the scenario as a Vagrantfile, indented with four spaces per
    /// level. Fails for the first interface that has no network or holds no
    /// lease, which cannot happen after every system was wired with
    /// success.
    pub fn to_vagrantfile(&self) -> (outcome: Result<String, ModelError>)
        ensures
            rendered(outcome) == vagrantfile(self@),
    {
        let ghost systems = self@.systems;
        let ghost networks = self@.networks;
        let ghost header = "Vagrant.configure(\"2\") do |config|"@;
        let mut builder = IndentationAwareStringBuilder::new();
        builder.with_indentation_type(IndentationType::Spaces).with_tab_size(4);
        builder.add("Vagrant.configure(\"2\") do |config|");
        builder.increase_indentation();
        proof {
            assert(repeated(' ', 0) + header =~= header);
            assert(builder.lines() =~= seq![header] + Seq::<Seq<char>>::empty());
        }
        let mut index: usize = 0;
        while index < self.systems.len()
            invariant
                index <= self.systems.len(),
                systems == self@.systems,
                networks == self@.networks,
                builder.indentation_type() == IndentationType::Spaces,
                builder.tab_size() == Some(4usize),
                builder.level() == 1,
                systems_lines(systems, networks, index as nat) is Ok,
                builder.lines() == seq![header] + systems_lines(
                    systems,
                    networks,
                    index as nat,
                )->Ok_0,
            decreases self.systems.len() - index,
        {
            let system = &self.systems[index];
            let ghost done = builder.lines();
            let ghost opening = indented(
                1,
                definition_text(system@.name, case_folded(system@.name)),
            );
            let ghost base = indented(2, box_text(system@.name, system@.base_box));
            let folded = case_fold(system.name.as_str());
            let definition = definition_line(system.name.as_str(), folded.as_str());
            builder.add(definition.as_str());
            builder.increase_indentation();
            let base_box = box_line(system.name.as_str(), system.base_box.as_str());
            builder.add(base_box.as_str());
            let mut interface: usize = 0;
            assert(builder.lines() =~= done + seq![opening, base] + Seq::<Seq<char>>::empty());
            while interface < system.networks.len()
                invariant
                    interface <= system.networks.len(),
                    index < self.systems.len(),
                    system == &self.systems[index as int],
                    systems == self@.systems,
                    networks == self@.networks,
                    systems[index as int] == system@,
                    builder.indentation_type() == IndentationType::Spaces,
                    builder.tab_size() == Some(4usize),
                    builder.level() == 2,
                    systems_lines(systems, networks, index as nat) is Ok,
                    interface_lines(system@, networks, interface as nat) is Ok,
                    builder.lines() == done + seq![opening, base] + interface_lines(
                        system@,
                        networks,
                        interface as nat,
                    )->Ok_0,
                decreases system.networks.len() - interface,
            {
                let ghost lines = interface_lines(system@, networks, interface as nat)->Ok_0;
                match interface_line(system, &self.networks, interface) {
                    Err(error) => {
                        proof {
                            lemma_interface_failure_is_final(
                                system@,
                                networks,
                                (interface + 1) as nat,
                                system@.networks.len(),
                            );
                            lemma_systems_failure_is_final(
                                systems,
                                networks,
                                (index + 1) as nat,
                                systems.len(),
                            );
                        }
                        return Err(error);
                    },
                    Ok(line) => {
                        builder.add(line.as_str());
                        assert(builder.lines() =~= done + seq![opening, base] + lines.push(
                            indented(2, line@),
                        ));
                    },
                }
                interface += 1;
            }
            builder.decrease_indentation();
            builder.add("end");
            index += 1;
            proof {
                let lines = interface_lines(system@, networks, system@.networks.len())->Ok_0;
                let block = seq![opening, base] + lines + seq![indented(1, "end"@)];
                assert(system_lines(system@, networks) == Ok::<Seq<Seq<char>>, ModelErrorView>(
                    block,
                ));
                assert(builder.lines() =~= seq![header] + (systems_lines(
                    systems,
                    networks,
                    (index - 1) as nat,
                )->Ok_0 + block));
            }
        }
        builder.decrease_indentation();
        builder.add("end");
        proof {
            assert(repeated(' ', 0) + "end"@ =~= "end"@);
            assert(builder.lines() =~= seq![header] + systems_lines(
                systems,
                networks,
                systems.len(),
            )->Ok_0 + seq!["end"@]);
        }
        Ok(builder.build_string())
    }
}

} // verus!
