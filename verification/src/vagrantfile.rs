//! Rendering of a scenario as a Vagrantfile: what the text is, line by
//! line, and the functions that build the lines.

use crate::error::{named_error, reference_error, ModelError, ModelErrorView, Reason};
use crate::indentation_aware_string_builder::{join_lines, repeated};
use crate::leases::{lease_count, leases_on};
use crate::network::{Network, NetworkType, NetworkView};
use crate::scenario::ScenarioView;
use crate::system::{
    fully_served, interfaces_on, lemma_interfaces_on_grows, network_views, System, SystemView,
};
use crate::text::{case_folded, dotted_quad, format_address};
use vstd::prelude::*;
use vstd::string::*;

verus! {

/// `text` behind the indentation of `level`: four spaces per level.
pub open spec fn indented(level: nat, text: Seq<char>) -> Seq<char> {
    repeated(' ', 4 * level) + text
}

/// The line that opens the block of the system called `name`, whose
/// case-folded name is `folded`.
pub open spec fn definition_text(name: Seq<char>, folded: Seq<char>) -> Seq<char> {
    "config.vm.define \""@ + name + "\" do |"@ + folded + "|"@
}

/// The line that sets the base box of the system called `name`.
pub open spec fn box_text(name: Seq<char>, base_box: Seq<char>) -> Seq<char> {
    name + ".vm.box = \""@ + base_box + "\""@
}

/// The line that binds an interface of the system called `name` to
/// `address` on the internal network called `network`.
pub open spec fn private_network_text(
    name: Seq<char>,
    address: Seq<char>,
    network: Seq<char>,
) -> Seq<char> {
    name + ".vm.network \"private_network\", ip: \""@ + address + "\", virtualbox__intnet: \""@
        + network + "\""@
}

/// The line that gives the system called `name` a public interface.
pub open spec fn public_network_text(name: Seq<char>) -> Seq<char> {
    name + ".vm.network \"public_network\""@
}

/// The line for the interface at `index` of `system`. An interface on an
/// internal network binds the address leased for it: the n-th interface
/// on a network holds the n-th address of the system's list for that
/// network. An interface without a network or without a lease has no line.
pub open spec fn interface_text(
    system: SystemView,
    networks: Seq<NetworkView>,
    index: int,
) -> Result<Seq<char>, ModelErrorView> {
    let position = system.networks[index];
    if position >= networks.len() {
        Err(named_error(Reason::NetworkMissing, system.name))
    } else {
        let network = networks[position as int];
        match network.network_type {
            NetworkType::Public => Ok(public_network_text(system.name)),
            NetworkType::Internal => {
                let turn = interfaces_on(system.networks, position as int, index);
                match leases_on(system.leases, network.name) {
                    Some(addresses) => if turn < addresses.len() {
                        Ok(
                            private_network_text(
                                system.name,
                                dotted_quad(addresses[turn as int]),
                                network.name,
                            ),
                        )
                    } else {
                        Err(reference_error(Reason::LeaseMissing, system.name, network.name))
                    },
                    None => Err(
                        reference_error(Reason::LeaseMissing, system.name, network.name),
                    ),
                }
            },
        }
    }
}

/// The lines for the first `count` interfaces of `system`, or the failure
/// of the first interface that has no line.
pub open spec fn interface_lines(
    system: SystemView,
    networks: Seq<NetworkView>,
    count: nat,
) -> Result<Seq<Seq<char>>, ModelErrorView>
    decreases count,
{
    if count == 0 {
        Ok(Seq::empty())
    } else {
        match interface_lines(system, networks, (count - 1) as nat) {
            Err(error) => Err(error),
            Ok(lines) => match interface_text(system, networks, count - 1) {
                Err(error) => Err(error),
                Ok(line) => Ok(lines.push(indented(2, line))),
            },
        }
    }
}

/// The block of one system: the opening line, the base box, one line per
/// interface in declared order, and the closing line.
pub open spec fn system_lines(system: SystemView, networks: Seq<NetworkView>) -> Result<
    Seq<Seq<char>>,
    ModelErrorView,
> {
    match interface_lines(system, networks, system.networks.len()) {
        Err(error) => Err(error),
        Ok(lines) => Ok(
            seq![
                indented(1, definition_text(system.name, case_folded(system.name))),
                indented(2, box_text(system.name, system.base_box)),
            ] + lines + seq![indented(1, "end"@)],
        ),
    }
}

/// The blocks of the first `count` systems, in order, or the failure of
/// the first system that has no block.
pub open spec fn systems_lines(
    systems: Seq<SystemView>,
    networks: Seq<NetworkView>,
    count: nat,
) -> Result<Seq<Seq<char>>, ModelErrorView>
    decreases count,
{
    if count == 0 {
        Ok(Seq::empty())
    } else {
        match systems_lines(systems, networks, (count - 1) as nat) {
            Err(error) => Err(error),
            Ok(lines) => match system_lines(systems[count - 1], networks) {
                Err(error) => Err(error),
                Ok(block) => Ok(lines + block),
            },
        }
    }
}

/// The Vagrantfile of a scenario: the opening line, the block of each
/// system in order, and the closing line, joined by newlines.
pub open spec fn vagrantfile(scenario: ScenarioView) -> Result<Seq<char>, ModelErrorView> {
    match systems_lines(scenario.systems, scenario.networks, scenario.systems.len()) {
        Err(error) => Err(error),
        Ok(lines) => Ok(
            join_lines(seq!["Vagrant.configure(\"2\") do |config|"@] + lines + seq!["end"@]),
        ),
    }
}

/// The mathematical content of the outcome of rendering.
pub open spec fn rendered(outcome: Result<String, ModelError>) -> Result<
    Seq<char>,
    ModelErrorView,
> {
    match outcome {
        Ok(text) => Ok(text@),
        Err(error) => Err(error@),
    }
}

/// The line that opens the block of the system called `name`, whose
/// case-folded name is `folded`.
pub fn definition_line(name: &str, folded: &str) -> (line: String)
    ensures
        line@ == definition_text(name@, folded@),
{
    let mut line = String::from_str("config.vm.define \"");
    line.append(name);
    line.append("\" do |");
    line.append(folded);
    line.append("|");
    line
}

/// The line that sets the base box of the system called `name`.
pub fn box_line(name: &str, base_box: &str) -> (line: String)
    ensures
        line@ == box_text(name@, base_box@),
{
    let mut line = String::from_str(name);
    line.append(".vm.box = \"");
    line.append(base_box);
    line.append("\"");
    line
}

/// The line that binds an interface of the system called `name` to
/// `address` on the internal network called `network`.
pub fn private_network_line(name: &str, address: u32, network: &str) -> (line: String)
    ensures
        line@ == private_network_text(name@, dotted_quad(address), network@),
{
    let mut line = String::from_str(name);
    line.append(".vm.network \"private_network\", ip: \"");
    let address_text = format_address(address);
    line.append(address_text.as_str());
    line.append("\", virtualbox__intnet: \"");
    line.append(network);
    line.append("\"");
    line
}

/// The line that gives the system called `name` a public interface.
pub fn public_network_line(name: &str) -> (line: String)
    ensures
        line@ == public_network_text(name@),
{
    let mut line = String::from_str(name);
    line.append(".vm.network \"public_network\"");
    line
}

/// How many of the interfaces in front of position `index` are on the
/// same network as the interface at `index`.
fn count_earlier(interfaces: &Vec<usize>, index: usize) -> (count: usize)
    requires
        index < interfaces@.len(),
    ensures
        count == interfaces_on(interfaces@, interfaces@[index as int] as int, index as int),
{
    let mut count: usize = 0;
    let mut earlier: usize = 0;
    while earlier < index
        invariant
            earlier <= index < interfaces@.len(),
            count <= earlier,
            count == interfaces_on(interfaces@, interfaces@[index as int] as int, earlier as int),
        decreases index - earlier,
    {
        if interfaces[earlier] == interfaces[index] {
            count += 1;
        }
        earlier += 1;
    }
    count
}

/// The line for the interface at `index` of `system`.
pub fn interface_line(system: &System, networks: &Vec<Network>, index: usize) -> (outcome: Result<
    String,
    ModelError,
>)
    requires
        index < system@.networks.len(),
    ensures
        rendered(outcome) == interface_text(system@, network_views(networks@), index as int),
{
    let position = system.networks[index];
    if position >= networks.len() {
        return Err(ModelError::named(Reason::NetworkMissing, system.name.as_str()));
    }
    let network = &networks[position];
    match network.network_type {
        NetworkType::Public => Ok(public_network_line(system.name.as_str())),
        NetworkType::Internal => {
            let turn = count_earlier(&system.networks, index);
            match system.leased_network_addresses.get(network.name.as_str()) {
                Some(addresses) => {
                    if turn < addresses.len() {
                        Ok(
                            private_network_line(
                                system.name.as_str(),
                                addresses[turn],
                                network.name.as_str(),
                            ),
                        )
                    } else {
                        Err(
                            ModelError::with_reference(
                                Reason::LeaseMissing,
                                system.name.as_str(),
                                network.name.as_str(),
                            ),
                        )
                    }
                },
                None => Err(
                    ModelError::with_reference(
                        Reason::LeaseMissing,
                        system.name.as_str(),
                        network.name.as_str(),
                    ),
                ),
            }
        },
    }
}

/// An interface without a line ends the rendering of its system.
pub proof fn lemma_interface_failure_is_final(
    system: SystemView,
    networks: Seq<NetworkView>,
    done: nat,
    later: nat,
)
    requires
        done <= later,
        interface_lines(system, networks, done) is Err,
    ensures
        interface_lines(system, networks, later) == interface_lines(system, networks, done),
    decreases later - done,
{
    if later > done {
        lemma_interface_failure_is_final(system, networks, done, (later - 1) as nat);
    }
}

/// A system without a block ends the rendering of the scenario.
pub proof fn lemma_systems_failure_is_final(
    systems: Seq<SystemView>,
    networks: Seq<NetworkView>,
    done: nat,
    later: nat,
)
    requires
        done <= later,
        systems_lines(systems, networks, done) is Err,
    ensures
        systems_lines(systems, networks, later) == systems_lines(systems, networks, done),
    decreases later - done,
{
    if later > done {
        lemma_systems_failure_is_final(systems, networks, done, (later - 1) as nat);
    }
}

/// Every interface of a fully served system has a line.
proof fn lemma_served_interfaces_render(
    system: SystemView,
    networks: Seq<NetworkView>,
    count: nat,
)
    requires
        count <= system.networks.len(),
        fully_served(system, networks),
    ensures
        interface_lines(system, networks, count) is Ok,
    decreases count,
{
    if count > 0 {
        lemma_served_interfaces_render(system, networks, (count - 1) as nat);
        let position = system.networks[count - 1] as int;
        let network = networks[position];
        if network.network_type == NetworkType::Internal {
            lemma_interfaces_on_grows(
                system.networks,
                position,
                count - 1,
                system.networks.len() as int,
            );
            assert(lease_count(system.leases, network.name) > interfaces_on(
                system.networks,
                position,
                count - 1,
            ));
        }
    }
}

/// A fully served system has a block.
pub proof fn lemma_served_system_renders(system: SystemView, networks: Seq<NetworkView>)
    requires
        fully_served(system, networks),
    ensures
        system_lines(system, networks) is Ok,
{
    lemma_served_interfaces_render(system, networks, system.networks.len());
}

/// A list of fully served systems has a block for each of them.
pub proof fn lemma_served_systems_render(
    systems: Seq<SystemView>,
    networks: Seq<NetworkView>,
    count: nat,
)
    requires
        count <= systems.len(),
        forall|j: int| 0 <= j < systems.len() ==> fully_served(#[trigger] systems[j], networks),
    ensures
        systems_lines(systems, networks, count) is Ok,
    decreases count,
{
    if count > 0 {
        lemma_served_systems_render(systems, networks, (count - 1) as nat);
        lemma_served_system_renders(systems[count - 1], networks);
    }
}

} // verus!
