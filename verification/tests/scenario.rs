use ipnet::Ipv4Net;
use lab_builder::error::{ErrorKind, ModelError, Reason};
use lab_builder::network::NetworkType;
use lab_builder::scenario::{find_duplicate, Scenario};
use lab_builder::vagrantfile::{
    box_line, definition_line, interface_line, private_network_line, public_network_line,
};
use lab_builder::subnet::Subnet;
use std::str::FromStr;
use toml::Value;

fn as_net(subnet: Subnet) -> Ipv4Net {
    Ipv4Net::new(subnet.addr.into(), subnet.prefix_len).unwrap()
}

#[test]
fn parsing_toml_without_scenario_block_should_fail_with_msg() {
    let input = r#"
            [Notscenario]
            [[systems]]
            name = "Test System"
            networks = ["TestNet"]
            base_box = "Debian"
            [[networks]]
            name = "TestNet"
            type = "Internal"
            subnet = "192.168.0.0/24"
            "#
    .parse::<Value>()
    .unwrap();

    assert_eq!(
        Scenario::from_toml(&input).unwrap_err().message(),
        "Could not get scenario from configuration".to_string()
    );
}

#[test]
fn parsing_toml_without_scenario_name_should_fail_with_msg() {
    let input = r#"
            [scenario]
            [[systems]]
            name = "Test System"
            networks = ["TestNet"]
            base_box = "Debian"
            [[networks]]
            name = "TestNet"
            type = "Internal"
            subnet = "192.168.0.0/24"
            "#
    .parse::<Value>()
    .unwrap();

    assert_eq!(
        Scenario::from_toml(&input).unwrap_err().message(),
        "Could not read name of scenario from configuration".to_string()
    );
}

#[test]
fn parsing_toml_with_scenario_name_that_is_not_a_string_should_fail_with_msg() {
    let input = r#"
            [scenario]
            name = 42
            [[systems]]
            name = "Test System"
            networks = ["TestNet"]
            base_box = "Debian"
            [[networks]]
            name = "TestNet"
            type = "Internal"
            subnet = "192.168.0.0/24"
            "#
    .parse::<Value>()
    .unwrap();

    assert_eq!(
        Scenario::from_toml(&input).unwrap_err().message(),
        "Could not read name of scenario as a string".to_string()
    );
}

#[test]
fn parsing_toml_without_systems_array_should_fail_with_msg() {
    let input = r#"
            [scenario]
            name = "Test scenario"
            [[networks]]
            name = "TestNet"
            type = "Internal"
            subnet = "192.168.0.0/24"
            "#
    .parse::<Value>()
    .unwrap();

    assert_eq!(
        Scenario::from_toml(&input).unwrap_err().message(),
        "Could not get systems from configuration".to_string()
    );
}

#[test]
fn parsing_toml_without_networks_array_should_fail_with_msg() {
    let input = r#"
            [scenario]
            name = "Test scenario"
            [[systems]]
            name = "Test System"
            networks = ["TestNet"]
            base_box = "Debian"
            "#
    .parse::<Value>()
    .unwrap();

    assert_eq!(
        Scenario::from_toml(&input).unwrap_err().message(),
        "Could not read networks from configuration".to_string()
    );
}

#[test]
fn configuring_networking_for_system_with_networks_array_containing_non_existant_network_name_should_fail_with_msg()
{
    let input = r#"
            [scenario]
            name = "Test scenario"
            [[systems]]
            name = "Test System"
            networks = ["OtherNet"]
            base_box = "Debian"
            [[networks]]
            name = "TestNet"
            type = "Internal"
            subnet = "192.168.0.0/24"
            "#
    .parse::<Value>()
    .unwrap();

    let mut scenario = Scenario::from_toml(&input).unwrap();

    assert_eq!(
        scenario.systems[0].configure_networking(&mut scenario.networks).unwrap_err().message(),
        r#"System "Test System" is configured to use network "OtherNet" but no network with that name could be found"#.to_string()
    );
}

#[test]
fn parsing_scenario_with_duplicate_network_names_should_fail_with_msg() {
    let input = r#"
            [scenario]
            name = "Test scenario"
            [[systems]]
            name = "Test System"
            networks = ["TestNet"]
            base_box = "Debian"
            [[networks]]
            name = "TestNet"
            type = "Internal"
            subnet = "192.168.0.0/24"
            [[networks]]
            name = "TestNet"
            type = "Internal"
            subnet = "192.168.1.0/24"
        "#
    .parse::<Value>()
    .unwrap();

    assert_eq!(
        Scenario::from_toml(&input).unwrap_err().message(),
        r#"Multiple networks parsed with name "TestNet". Network names must be unique."#
            .to_string()
    );
}

#[test]
fn parsing_scenario_with_duplicate_system_names_should_fail_with_msg() {
    let input = r#"
            [scenario]
            name = "Test scenario"
            [[systems]]
            name = "Test System"
            networks = ["TestNet"]
            base_box = "Debian"
            [[systems]]
            name = "Test System"
            networks = ["TestNet"]
            base_box = "Debian"
            [[networks]]
            name = "TestNet"
            type = "Internal"
            subnet = "192.168.0.0/24"
        "#
    .parse::<Value>()
    .unwrap();

    assert_eq!(
        Scenario::from_toml(&input).unwrap_err().message(),
        r#"Multiple systems parsed with name "Test System". System names must be unique."#
            .to_string()
    );
}

#[test]
fn parsing_single_system_and_network_scenario_works() {
    let input = r#"
            [scenario]
            name = "Test scenario"
            
            [[systems]]
            name = "Desktop"
            networks = ["LAN"]
            base_box = "Windows 10"

            [[systems]]
            name = "Server"
            networks = ["LAN"]
            base_box = "Debian"

            [[networks]]
            name = "LAN"
            type = "Internal"
            subnet = "192.168.0.1/24"
                
        "#
    .parse::<Value>()
    .unwrap();

    let scenario = Scenario::from_toml(&input).unwrap();

    assert_eq!(scenario.name, "Test scenario");
    assert_eq!(scenario.networks.len(), 1);
    assert_eq!(scenario.systems.len(), 2);

    assert_eq!(scenario.networks[0].name, "LAN");
    assert_eq!(scenario.networks[0].network_type, NetworkType::Internal);
    assert_eq!(
        as_net(scenario.networks[0].subnet.unwrap()),
        Ipv4Net::from_str("192.168.0.1/24").unwrap()
    );

    assert_eq!(scenario.systems[0].name, "Desktop");
    assert_eq!(scenario.systems[0].base_box, "Windows 10");

    assert_eq!(scenario.systems[1].name, "Server");
    assert_eq!(scenario.systems[1].base_box, "Debian");
}

#[test]
fn vagrantfile_output_for_simple_scenario_works() {
    let input = r#"
            [scenario]
            name = "Test scenario"

            [[systems]]
            name = "Desktop"
            networks = ["LAN"]
            base_box = "Windows 10"

            [[systems]]
            name = "Server"
            networks = ["LAN"]
            base_box = "Debian"

            [[networks]]
            name = "LAN"
            type = "Internal"
            subnet = "192.168.0.1/24"
        "#
    .parse::<Value>()
    .unwrap();

    let mut scenario = Scenario::from_toml(&input).unwrap();

    for system in scenario.systems.iter_mut() {
        system.configure_networking(&mut scenario.networks).unwrap();
    }

    let expected = r#"Vagrant.configure("2") do |config|
    config.vm.define "Desktop" do |desktop|
        Desktop.vm.box = "Windows 10"
        Desktop.vm.network "private_network", ip: "192.168.0.1", virtualbox__intnet: "LAN"
    end
    config.vm.define "Server" do |server|
        Server.vm.box = "Debian"
        Server.vm.network "private_network", ip: "192.168.0.2", virtualbox__intnet: "LAN"
    end
end"#
        .to_string();

    assert_eq!(scenario.to_vagrantfile().unwrap(), expected);
}

fn lab() -> Scenario {
    let input = r#"
            [scenario]
            name = "Lab"

            [[systems]]
            name = "Router"
            networks = ["Uplink", "LAN", "LAN"]
            base_box = "OpenBSD"

            [[systems]]
            name = "Bare"
            networks = []
            base_box = "Alpine"

            [[systems]]
            name = "STRASSE"
            networks = ["LAN"]
            base_box = "Debian"

            [[networks]]
            name = "LAN"
            type = "Internal"
            subnet = "10.20.109.0/24"

            [[networks]]
            name = "Uplink"
            type = "Public"
        "#
    .parse::<Value>()
    .unwrap();
    Scenario::from_toml(&input).unwrap()
}

#[test]
fn the_wiring_pass_wires_every_system_in_order() {
    let mut scenario = lab();
    scenario.configure_networking().unwrap();
    assert_eq!(scenario.systems[0].networks, vec![1, 0, 0]);
    assert_eq!(
        scenario.systems[0].leased_network_addresses.get("LAN").unwrap(),
        &vec![0x0a14_6d01, 0x0a14_6d02]
    );
    assert!(scenario.systems[1].networks.is_empty());
    assert!(scenario.systems[1].leased_network_addresses.is_empty());
    assert_eq!(
        scenario.systems[2].leased_network_addresses.get("LAN").unwrap(),
        &vec![0x0a14_6d03]
    );
}

#[test]
fn every_interface_gets_its_own_line() {
    let mut scenario = lab();
    scenario.configure_networking().unwrap();
    let expected = r#"Vagrant.configure("2") do |config|
    config.vm.define "Router" do |router|
        Router.vm.box = "OpenBSD"
        Router.vm.network "public_network"
        Router.vm.network "private_network", ip: "10.20.109.1", virtualbox__intnet: "LAN"
        Router.vm.network "private_network", ip: "10.20.109.2", virtualbox__intnet: "LAN"
    end
    config.vm.define "Bare" do |bare|
        Bare.vm.box = "Alpine"
    end
    config.vm.define "STRASSE" do |strasse|
        STRASSE.vm.box = "Debian"
        STRASSE.vm.network "private_network", ip: "10.20.109.3", virtualbox__intnet: "LAN"
    end
end"#;
    assert_eq!(scenario.to_vagrantfile().unwrap(), expected);
}

#[test]
fn rendering_is_reproducible() {
    let mut first = lab();
    first.configure_networking().unwrap();
    let mut second = lab();
    second.configure_networking().unwrap();
    assert_eq!(first.to_vagrantfile().unwrap(), second.to_vagrantfile().unwrap());
    assert_eq!(first.to_vagrantfile().unwrap(), first.to_vagrantfile().unwrap());
}

#[test]
fn an_unwired_scenario_renders_blocks_without_interfaces() {
    let scenario = lab();
    let expected = r#"Vagrant.configure("2") do |config|
    config.vm.define "Router" do |router|
        Router.vm.box = "OpenBSD"
    end
    config.vm.define "Bare" do |bare|
        Bare.vm.box = "Alpine"
    end
    config.vm.define "STRASSE" do |strasse|
        STRASSE.vm.box = "Debian"
    end
end"#;
    assert_eq!(scenario.to_vagrantfile().unwrap(), expected);
}

#[test]
fn a_scenario_without_systems_renders_the_outer_block() {
    let input = r#"
            systems = []
            networks = []
            [scenario]
            name = "Empty"
        "#
    .parse::<Value>()
    .unwrap();
    let scenario = Scenario::from_toml(&input).unwrap();
    assert_eq!(scenario.to_vagrantfile().unwrap(), "Vagrant.configure(\"2\") do |config|\nend");
}

#[test]
fn case_folding_of_the_block_variable_follows_unicode() {
    let input = "systems = [{ name = \"Gro\u{df}\", networks = [], base_box = \"b\" }]\nnetworks = []\n[scenario]\nname = \"Fold\"\n"
        .parse::<Value>()
        .unwrap();
    let scenario = Scenario::from_toml(&input).unwrap();
    let rendered = scenario.to_vagrantfile().unwrap();
    assert!(rendered.contains("config.vm.define \"Gro\u{df}\" do |gross|"), "{}", rendered);
}

#[test]
fn an_interface_without_a_lease_has_no_line() {
    let mut scenario = lab();
    scenario.configure_networking().unwrap();
    scenario.systems[2].leased_network_addresses.entries.clear();
    let error = scenario.to_vagrantfile().unwrap_err();
    assert_eq!(error.reason, Reason::LeaseMissing);
    assert_eq!(error.kind(), ErrorKind::CapacityExhausted);
    assert_eq!(
        error.message(),
        "System \"STRASSE\" holds no address lease for its interface on network \"LAN\""
    );
    scenario.systems[0].leased_network_addresses.entries[0].addresses.pop();
    let error = scenario.to_vagrantfile().unwrap_err();
    assert_eq!(error.subject, "Router");
    assert_eq!(error.reference, "LAN");
}

#[test]
fn an_interface_without_a_network_has_no_line() {
    let mut scenario = lab();
    scenario.systems[1].networks.push(5);
    let error = scenario.to_vagrantfile().unwrap_err();
    assert_eq!(error.reason, Reason::NetworkMissing);
    assert_eq!(error.kind(), ErrorKind::UnresolvedReference);
    assert_eq!(
        error.message(),
        "System \"Bare\" is wired to a network that is not part of the scenario"
    );
    assert_eq!(
        interface_line(&scenario.systems[1], &scenario.networks, 0).unwrap_err().reason,
        Reason::NetworkMissing
    );
}

#[test]
fn a_failed_wiring_pass_stops_at_the_failing_system() {
    let input = r#"
            [scenario]
            name = "Tight"
            [[systems]]
            name = "One"
            networks = ["Net", "Net"]
            base_box = "b"
            [[systems]]
            name = "Two"
            networks = ["Net"]
            base_box = "b"
            [[systems]]
            name = "Three"
            networks = ["Net"]
            base_box = "b"
            [[networks]]
            name = "Net"
            type = "Internal"
            subnet = "192.168.7.0/30"
        "#
    .parse::<Value>()
    .unwrap();
    let mut scenario = Scenario::from_toml(&input).unwrap();
    let error = scenario.configure_networking().unwrap_err();
    assert_eq!(error.reason, Reason::AddressesExhausted);
    assert_eq!(error.subject, "Net");
    assert_eq!(scenario.systems[0].leased_network_addresses.get("Net").unwrap().len(), 2);
    assert_eq!(scenario.systems[1].networks, vec![0]);
    assert!(scenario.systems[1].leased_network_addresses.is_empty());
    assert!(scenario.systems[2].networks.is_empty());
    assert_eq!(scenario.to_vagrantfile().unwrap_err().reason, Reason::LeaseMissing);
}

#[test]
fn the_first_duplicate_in_order_of_first_occurrence_is_reported() {
    let names = |list: &[&str]| list.iter().map(|name| name.to_string()).collect::<Vec<String>>();
    assert_eq!(find_duplicate(&names(&[])), None);
    assert_eq!(find_duplicate(&names(&["a"])), None);
    assert_eq!(find_duplicate(&names(&["a", "b", "c"])), None);
    assert_eq!(find_duplicate(&names(&["a", "b", "b", "a"])), Some(0));
    assert_eq!(find_duplicate(&names(&["a", "b", "c", "c", "b"])), Some(1));
    assert_eq!(find_duplicate(&names(&["a", "A", "b", "b"])), Some(2));
}

#[test]
fn duplicate_networks_are_reported_before_any_system_is_read() {
    let input = r#"
            [scenario]
            name = "Test scenario"
            [[systems]]
            name = 42
            [[networks]]
            name = "LAN"
            type = "Public"
            [[networks]]
            name = "WAN"
            type = "Public"
            [[networks]]
            name = "WAN"
            type = "Public"
            [[networks]]
            name = "LAN"
            type = "Public"
        "#
    .parse::<Value>()
    .unwrap();
    let error = Scenario::from_toml(&input).unwrap_err();
    assert_eq!(error.reason, Reason::DuplicateNetwork);
    assert_eq!(error.kind(), ErrorKind::UniquenessViolation);
    assert_eq!(error.subject, "LAN");
    assert_eq!(
        error.message(),
        "Multiple networks parsed with name \"LAN\". Network names must be unique."
    );
}

#[test]
fn the_first_broken_network_is_reported() {
    let input = r#"
            systems = []
            [scenario]
            name = "Test scenario"
            [[networks]]
            name = "Good"
            type = "Public"
            [[networks]]
            name = "Bad"
            type = "Internal"
            subnet = "8.8.8.0/24"
            [[networks]]
            type = "Public"
        "#
    .parse::<Value>()
    .unwrap();
    let error = Scenario::from_toml(&input).unwrap_err();
    assert_eq!(error.reason, Reason::SubnetNotPrivate);
    assert_eq!(error.subject, "Bad");
}

#[test]
fn networks_and_systems_must_be_arrays() {
    let input = "networks = 3\nsystems = []\n[scenario]\nname = \"n\"\n".parse::<Value>().unwrap();
    assert_eq!(Scenario::from_toml(&input).unwrap_err().reason, Reason::NetworksMissing);
    let input = "networks = []\nsystems = \"s\"\n[scenario]\nname = \"n\"\n".parse::<Value>().unwrap();
    assert_eq!(Scenario::from_toml(&input).unwrap_err().reason, Reason::SystemsMissing);
    let input = "scenario = 1\nnetworks = []\nsystems = []\n".parse::<Value>().unwrap();
    assert_eq!(Scenario::from_toml(&input).unwrap_err().reason, Reason::ScenarioNameMissing);
}

#[test]
fn a_built_scenario_passes_its_checks_again_unchanged() {
    let mut scenario = lab();
    let before = format!("{:?}", scenario);
    assert!(scenario.are_network_names_unique().is_ok());
    assert!(scenario.are_system_names_unique().is_ok());
    assert_eq!(format!("{:?}", scenario), before);
    scenario.configure_networking().unwrap();
    assert!(scenario.are_network_names_unique().is_ok());
    assert!(scenario.are_system_names_unique().is_ok());
}

#[test]
fn lines_are_built_from_their_parts() {
    assert_eq!(definition_line("Web", "web"), "config.vm.define \"Web\" do |web|");
    assert_eq!(box_line("Web", "Debian 12"), "Web.vm.box = \"Debian 12\"");
    assert_eq!(
        private_network_line("Web", 0xac10_0a07, "Dmz"),
        "Web.vm.network \"private_network\", ip: \"172.16.10.7\", virtualbox__intnet: \"Dmz\""
    );
    assert_eq!(public_network_line("Web"), "Web.vm.network \"public_network\"");
}

#[test]
fn every_failure_has_its_message_and_kind() {
    let cases = [
        (Reason::NetworkNameMissing, "", "Could not read network name", ErrorKind::MalformedInput),
        (
            Reason::NetworkNameNotString,
            "",
            "Could not read network name as a string",
            ErrorKind::MalformedInput,
        ),
        (
            Reason::NetworkTypeMissing,
            "n",
            "Could not read network type for network: n",
            ErrorKind::MalformedInput,
        ),
        (
            Reason::SubnetUnparseable,
            "n",
            "Could not parse subnet as a valid CIDR range for network: n",
            ErrorKind::MalformedInput,
        ),
        (
            Reason::PublicWithSubnet,
            "n",
            "Network \"n\" is configured as a Public network and has a subnet configured. Public networks can't have configured subnets.",
            ErrorKind::InvalidTopology,
        ),
        (
            Reason::SystemNetworkNotString,
            "s",
            "Could not parse networks for system: s",
            ErrorKind::MalformedInput,
        ),
        (
            Reason::BaseBoxNotString,
            "s",
            "Could not read base_box as a string for system: s",
            ErrorKind::MalformedInput,
        ),
        (
            Reason::DuplicateSystem,
            "s",
            "Multiple systems parsed with name \"s\". System names must be unique.",
            ErrorKind::UniquenessViolation,
        ),
        (
            Reason::SystemsMissing,
            "",
            "Could not get systems from configuration",
            ErrorKind::MalformedInput,
        ),
    ];
    for (reason, subject, text, kind) in cases {
        let error = ModelError::named(reason, subject);
        assert_eq!(error.message(), text);
        assert_eq!(error.kind(), kind);
    }
    assert_eq!(
        ModelError::bare(Reason::ScenarioMissing).message(),
        "Could not get scenario from configuration"
    );
    assert_eq!(
        ModelError::with_reference(Reason::UnresolvedNetwork, "a", "b").message(),
        "System \"a\" is configured to use network \"b\" but no network with that name could be found"
    );
}
