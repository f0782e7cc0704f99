use lab_builder::error::{ErrorKind, Reason};
use lab_builder::network::Network;
use lab_builder::scenario::Scenario;
use lab_builder::subnet::Subnet;
use lab_builder::system::System;
use toml::Value;

fn build(input: &str) -> Scenario {
    Scenario::from_toml(&input.parse::<Value>().unwrap()).unwrap()
}

#[test]
fn desktop_and_server_share_a_lan() {
    let mut scenario = build(
        r#"
            [scenario]
            name = "Test scenario"

            [[systems]]
            name = "Desktop"
            networks = ["LAN"]
            base_box = "Windows 10"

            [[systems]]
            name = "Server"
            networks = ["LAN"]
            base_box = "Debian"

            [[networks]]
            name = "LAN"
            type = "Internal"
            subnet = "192.168.0.1/24"
        "#,
    );
    for system in scenario.systems.iter_mut() {
        system.configure_networking(&mut scenario.networks).unwrap();
    }
    assert_eq!(
        scenario.systems[0].leased_network_addresses.get("LAN").unwrap(),
        &vec![0xc0a8_0001]
    );
    assert_eq!(
        scenario.systems[1].leased_network_addresses.get("LAN").unwrap(),
        &vec![0xc0a8_0002]
    );
    let output = scenario.to_vagrantfile().unwrap();
    let desktop = output.find("config.vm.define \"Desktop\"").unwrap();
    let desktop_nic = output
        .find("Desktop.vm.network \"private_network\", ip: \"192.168.0.1\", virtualbox__intnet: \"LAN\"")
        .unwrap();
    let server = output.find("config.vm.define \"Server\"").unwrap();
    let server_nic = output
        .find("Server.vm.network \"private_network\", ip: \"192.168.0.2\", virtualbox__intnet: \"LAN\"")
        .unwrap();
    assert!(desktop < desktop_nic);
    assert!(desktop_nic < server);
    assert!(server < server_nic);
}

#[test]
fn five_interfaces_on_one_network_hold_five_addresses_in_order() {
    let mut scenario = build(
        r#"
            [scenario]
            name = "Many"
            [[systems]]
            name = "Switch"
            networks = ["Net", "Net", "Net", "Net", "Net"]
            base_box = "b"
            [[networks]]
            name = "Net"
            type = "Internal"
            subnet = "172.31.255.248/29"
        "#,
    );
    scenario.systems[0].configure_networking(&mut scenario.networks).unwrap();
    let leases = &scenario.systems[0].leased_network_addresses;
    assert_eq!(leases.len(), 1);
    assert_eq!(
        leases.get("Net").unwrap(),
        &vec![0xac1f_fff9, 0xac1f_fffa, 0xac1f_fffb, 0xac1f_fffc, 0xac1f_fffd]
    );
    assert_eq!(scenario.systems[0].networks, vec![0, 0, 0, 0, 0]);
}

#[test]
fn one_interface_too_many_exhausts_the_pool() {
    let mut scenario = build(
        r#"
            [scenario]
            name = "Many"
            [[systems]]
            name = "Switch"
            networks = ["Net", "Net", "Net", "Net", "Net", "Net", "Net"]
            base_box = "b"
            [[networks]]
            name = "Net"
            type = "Internal"
            subnet = "172.31.255.248/29"
        "#,
    );
    let error = scenario.systems[0].configure_networking(&mut scenario.networks).unwrap_err();
    assert_eq!(error.reason, Reason::AddressesExhausted);
    assert_eq!(error.kind(), ErrorKind::CapacityExhausted);
    assert_eq!(error.subject, "Net");
    assert_eq!(scenario.systems[0].leased_network_addresses.get("Net").unwrap().len(), 6);
}

#[test]
fn an_undefined_network_fails_the_wiring_pass() {
    let mut scenario = build(
        r#"
            [scenario]
            name = "Test scenario"
            [[systems]]
            name = "Desktop"
            networks = ["LAN", "OtherNet"]
            base_box = "Debian"
            [[networks]]
            name = "LAN"
            type = "Internal"
            subnet = "192.168.0.0/24"
        "#,
    );
    let error = scenario.configure_networking().unwrap_err();
    assert_eq!(error.kind(), ErrorKind::UnresolvedReference);
    assert_eq!(
        error.message(),
        "System \"Desktop\" is configured to use network \"OtherNet\" but no network with that name could be found"
    );
    assert!(scenario.systems[0].networks.is_empty());
    assert!(scenario.systems[0].leased_network_addresses.is_empty());
    assert!(!scenario.networks[0].is_leased(0xc0a8_0001));
}

#[test]
fn a_scenario_put_together_by_hand_wires_and_renders() {
    let networks = vec![
        Network::public("Uplink".to_string()),
        Network::internal("Lab".to_string(), Subnet { addr: 0x0a00_0000, prefix_len: 30 }).unwrap(),
    ];
    let systems = vec![
        System::new("Box".to_string(), vec!["Lab".to_string(), "Uplink".to_string()], "Arch".to_string()),
        System::new("Tap".to_string(), vec!["Lab".to_string()], "Arch".to_string()),
    ];
    let mut scenario = Scenario { name: "Hand".to_string(), systems, networks };
    assert!(scenario.are_network_names_unique().is_ok());
    assert!(scenario.are_system_names_unique().is_ok());
    scenario.configure_networking().unwrap();
    assert_eq!(
        scenario.to_vagrantfile().unwrap(),
        "Vagrant.configure(\"2\") do |config|\n    config.vm.define \"Box\" do |box|\n        Box.vm.box = \"Arch\"\n        Box.vm.network \"private_network\", ip: \"10.0.0.1\", virtualbox__intnet: \"Lab\"\n        Box.vm.network \"public_network\"\n    end\n    config.vm.define \"Tap\" do |tap|\n        Tap.vm.box = \"Arch\"\n        Tap.vm.network \"private_network\", ip: \"10.0.0.2\", virtualbox__intnet: \"Lab\"\n    end\nend"
    );
    scenario.systems.push(System::new("Box".to_string(), Vec::new(), "Arch".to_string()));
    let error = scenario.are_system_names_unique().unwrap_err();
    assert_eq!(error.reason, Reason::DuplicateSystem);
    assert_eq!(error.subject, "Box");
}
