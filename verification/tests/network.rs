use lab_builder::error::{ErrorKind, Reason};
use lab_builder::network::{Network, NetworkType};
use lab_builder::subnet::{HostRange, Subnet};
use toml::Value;

fn parse(input: &str) -> Value {
    input.parse::<Value>().unwrap()
}

#[test]
fn parsing_network_without_name_should_fail_with_msg() {
    let input = parse(
        r#"
            type = "Internal"
            subnet = "192.168.0.0/24"
            "#,
    );

    assert_eq!(
        Network::from_toml(&input).unwrap_err().message(),
        "Could not read network name".to_string()
    );
}

#[test]
fn parsing_network_with_name_that_is_not_a_string_should_fail_with_msg() {
    let input = parse(
        r#"
            name = 42
            type = "Internal"
            subnet = "192.168.0.0/24"
            "#,
    );

    assert_eq!(
        Network::from_toml(&input).unwrap_err().message(),
        "Could not read network name as a string".to_string()
    );
}

#[test]
fn parsing_network_without_type_should_fail_with_msg() {
    let input = r#"
            name = "TestNet"
            subnet = "192.168.0.0/24"
            "#
    .parse::<Value>()
    .unwrap();

    assert_eq!(
        Network::from_toml(&input).unwrap_err().message(),
        "Could not read network type for network: TestNet".to_string()
    );
}

#[test]
fn parsing_network_with_type_that_is_not_a_string_should_fail_with_msg() {
    let input = parse(
        r#"
            name = "TestNet"
            type = 42
            subnet = "192.168.0.0/24"
            "#,
    );

    assert_eq!(
        Network::from_toml(&input).unwrap_err().message(),
        "Could not read network type as a string for network: TestNet".to_string()
    );
}

#[test]
fn parsing_network_with_type_that_is_not_valid_should_fail_with_msg() {
    let input = parse(
        r#"
            name = "TestNet"
            type = "NotValid"
            subnet = "192.168.0.0/24"
            "#,
    );

    assert_eq!(
        Network::from_toml(&input).unwrap_err().message(),
        "Could not parse network type as a valid type for network: TestNet. Valid types are: Public, Internal".to_string()
    );
}

#[test]
fn parsing_network_with_invalid_subnet_should_fail_with_msg() {
    let input = parse(
        r#"
            name = "TestNet"
            type = "Internal"
            subnet = "192.168.0.1"
            "#,
    );

    assert_eq!(
        Network::from_toml(&input).unwrap_err().message(),
        "Could not parse subnet as a valid CIDR range for network: TestNet".to_string()
    );
}

#[test]
fn parsing_network_with_subnet_too_small_should_fail_with_msg() {
    let input = parse(
        r#"
            name = "TestNet"
            type = "Internal"
            subnet = "192.168.0.1/31"
            "#,
    );

    assert_eq!(
        Network::from_toml(&input).unwrap_err().message(),
        r#"Network "TestNet" configured with a subnet smaller than /30. Networks smaller than /30 can't have multiple hosts."#.to_string()
    );
}

#[test]
fn parsing_network_with_non_rfc1918_compliant_subnet_should_fail_with_msg() {
    let input = parse(
        r#"
            name = "TestNet"
            type = "Internal"
            subnet = "1.1.1.1/8"
            "#,
    );

    assert_eq!(
        Network::from_toml(&input).unwrap_err().message(),
        r#"Subnet configured for network "TestNet" is not RFC 1918 compliant. Subnets must be in valid allocation for private networks."#.to_string()
    );
}

#[test]
fn parsing_network_with_subnet_start_in_rfc1918_space_and_end_outside_should_fail_with_msg() {
    let input = parse(
        r#"
            name = "TestNet"
            type = "Internal"
            subnet = "192.168.0.0/15"
            "#,
    );

    assert_eq!(
        Network::from_toml(&input).unwrap_err().message(),
        r#"Subnet configured for network "TestNet" is not RFC 1918 compliant. Subnets must be in valid allocation for private networks."#.to_string()
    );
}

#[test]
fn parsing_public_network_should_not_configure_subnet_or_available_hosts() {
    let input = r#"
            name = "TestNet"
            type = "Public"
            "#
    .parse::<Value>()
    .unwrap();

    let result = Network::from_toml(&input).unwrap();

    assert_eq!(result.subnet.is_none(), true);
    assert_eq!(result.available_hosts.is_none(), true);
}

#[test]
fn parsing_public_network_with_subnet_should_fail_with_msg() {
    let input = parse(
        r#"
            name = "TestNet"
            type = "Public"
            subnet = "192.168.0.1/24"
            "#,
    );

    assert_eq!(
        Network::from_toml(&input).unwrap_err().message(),
        r#"Network "TestNet" is configured as a Public network and has a subnet configured. Public networks can't have configured subnets."#.to_string()
    );
}

#[test]
fn parsing_network_without_subnet_should_fail_with_msg() {
    let input = parse(
        r#"
            name = "TestNet"
            type = "Internal"
            "#,
    );
    let error = Network::from_toml(&input).unwrap_err();
    assert_eq!(error.reason, Reason::SubnetMissing);
    assert_eq!(error.message(), "Could not read subnet for network: TestNet");
    assert_eq!(error.kind(), ErrorKind::MalformedInput);
}

#[test]
fn parsing_network_with_subnet_that_is_not_a_string_should_fail_with_msg() {
    let input = parse(
        r#"
            name = "TestNet"
            type = "Internal"
            subnet = 24
            "#,
    );
    let error = Network::from_toml(&input).unwrap_err();
    assert_eq!(error.reason, Reason::SubnetNotString);
    assert_eq!(error.message(), "Could not read subnet as string for network: TestNet");
}

#[test]
fn parsing_internal_network_keeps_the_subnet_as_written() {
    let input = parse(
        r#"
            name = "TestNet"
            type = "Internal"
            subnet = "192.168.0.1/24"
            "#,
    );
    let network = Network::from_toml(&input).unwrap();
    assert_eq!(network.name, "TestNet");
    assert_eq!(network.network_type, NetworkType::Internal);
    assert_eq!(network.subnet, Some(Subnet { addr: 0xc0a8_0001, prefix_len: 24 }));
    assert_eq!(
        network.available_hosts,
        Some(HostRange { first: 0xc0a8_0001, last: 0xc0a8_00fe })
    );
    assert_eq!(network.allocated_hosts.as_ref().unwrap().len(), 0);
}

#[test]
fn network_type_is_read_from_its_exact_name() {
    assert_eq!(NetworkType::parse("Public"), Some(NetworkType::Public));
    assert_eq!(NetworkType::parse("Internal"), Some(NetworkType::Internal));
    assert_eq!(NetworkType::parse("internal"), None);
    assert_eq!(NetworkType::parse(""), None);
}

#[test]
fn prefix_lengths_up_to_30_are_accepted_and_longer_ones_rejected() {
    for prefix_len in 16..=30u8 {
        let outcome = Network::internal(
            "Net".to_string(),
            Subnet { addr: 0xc0a8_0000, prefix_len },
        );
        assert!(outcome.is_ok(), "/{} must be accepted", prefix_len);
    }
    for prefix_len in [31u8, 32u8] {
        let error = Network::internal(
            "Net".to_string(),
            Subnet { addr: 0xc0a8_0000, prefix_len },
        )
        .unwrap_err();
        assert_eq!(error.reason, Reason::SubnetTooSmall);
        assert_eq!(error.kind(), ErrorKind::InvalidTopology);
        assert_eq!(error.subject, "Net");
    }
    let wide = Network::internal("Net".to_string(), Subnet { addr: 0x0a00_0000, prefix_len: 8 });
    assert!(wide.is_ok());
}

#[test]
fn prefix_lengths_beyond_32_are_rejected_as_too_small() {
    let error = Network::internal("Net".to_string(), Subnet { addr: 0xc0a8_0000, prefix_len: 40 })
        .unwrap_err();
    assert_eq!(error.reason, Reason::SubnetTooSmall);
}

#[test]
fn subnets_must_lie_entirely_in_a_private_range() {
    let accepted = [
        Subnet { addr: 0x0a00_0000, prefix_len: 8 },
        Subnet { addr: 0x0aff_ff00, prefix_len: 24 },
        Subnet { addr: 0xac10_0000, prefix_len: 12 },
        Subnet { addr: 0xac1f_fffc, prefix_len: 30 },
        Subnet { addr: 0xc0a8_0000, prefix_len: 16 },
        Subnet { addr: 0xc0a8_ff01, prefix_len: 24 },
    ];
    for subnet in accepted {
        assert!(Network::internal("Net".to_string(), subnet).is_ok(), "{:?}", subnet);
    }
    let rejected = [
        Subnet { addr: 0xc0a8_0000, prefix_len: 15 },
        Subnet { addr: 0x0a00_0000, prefix_len: 7 },
        Subnet { addr: 0xac10_0000, prefix_len: 11 },
        Subnet { addr: 0xac20_0000, prefix_len: 16 },
        Subnet { addr: 0x0101_0101, prefix_len: 8 },
        Subnet { addr: 0xc0a9_0000, prefix_len: 24 },
        Subnet { addr: 0x0000_0000, prefix_len: 0 },
    ];
    for subnet in rejected {
        let error = Network::internal("Net".to_string(), subnet).unwrap_err();
        assert_eq!(error.reason, Reason::SubnetNotPrivate, "{:?}", subnet);
        assert_eq!(error.kind(), ErrorKind::InvalidTopology);
    }
}

#[test]
fn leases_come_lowest_first_and_never_repeat() {
    let mut network =
        Network::internal("Net".to_string(), Subnet { addr: 0xc0a8_0a00, prefix_len: 29 }).unwrap();
    let mut seen = Vec::new();
    for offset in 1..=6u32 {
        let lease = network.get_address_lease().unwrap();
        assert_eq!(lease, 0xc0a8_0a00 + offset);
        assert!(!seen.contains(&lease));
        assert!(network.is_leased(lease));
        seen.push(lease);
    }
    assert_eq!(network.get_address_lease(), None);
    assert_eq!(network.get_address_lease(), None);
    assert_eq!(network.allocated_hosts.as_ref().unwrap().len(), 6);
}

#[test]
fn a_pool_of_two_addresses_serves_two_requests() {
    let mut network =
        Network::internal("Net".to_string(), Subnet { addr: 0xc0a8_0001, prefix_len: 30 }).unwrap();
    assert_eq!(network.available_hosts, Some(HostRange { first: 0xc0a8_0001, last: 0xc0a8_0002 }));
    assert_eq!(network.get_address_lease(), Some(0xc0a8_0001));
    assert_eq!(network.get_address_lease(), Some(0xc0a8_0002));
    assert_eq!(network.get_address_lease(), None);
}

#[test]
fn leasing_skips_addresses_that_are_already_taken() {
    let mut network =
        Network::internal("Net".to_string(), Subnet { addr: 0x0a00_0000, prefix_len: 24 }).unwrap();
    network.allocated_hosts.as_mut().unwrap().insert(0x0a00_0001);
    network.allocated_hosts.as_mut().unwrap().insert(0x0a00_0003);
    assert_eq!(network.get_address_lease(), Some(0x0a00_0002));
    assert_eq!(network.get_address_lease(), Some(0x0a00_0004));
}

#[test]
fn public_networks_never_lease() {
    let mut network = Network::public("Outside".to_string());
    assert_eq!(network.network_type, NetworkType::Public);
    assert_eq!(network.get_address_lease(), None);
    assert!(network.allocated_hosts.is_none());
    assert!(!network.is_leased(0x0a00_0001));
}

#[test]
fn validating_an_accepted_network_again_gives_the_same_network() {
    let first =
        Network::internal("Net".to_string(), Subnet { addr: 0xac10_0501, prefix_len: 24 }).unwrap();
    let second = Network::internal(first.name.clone(), first.subnet.unwrap()).unwrap();
    assert_eq!(first.name, second.name);
    assert_eq!(first.network_type, second.network_type);
    assert_eq!(first.subnet, second.subnet);
    assert_eq!(first.available_hosts, second.available_hosts);
    assert_eq!(first.allocated_hosts, second.allocated_hosts);
}

fn block(addr: u32, prefix_len: u8) -> (u32, u32) {
    let host_bits = 32 - u32::from(prefix_len);
    let host_mask = if host_bits == 32 { u32::MAX } else { (1u32 << host_bits) - 1 };
    (addr & !host_mask, addr | host_mask)
}

#[test]
fn acceptance_and_hosts_agree_with_block_arithmetic() {
    let private = [block(0x0a00_0000, 8), block(0xac10_0000, 12), block(0xc0a8_0000, 16)];
    let addresses = [
        0x0000_0000u32, 0x09ff_ffff, 0x0a00_0000, 0x0a00_0001, 0x0a7f_3c11, 0x0aff_ffff,
        0x0b00_0000, 0xac0f_ffff, 0xac10_0000, 0xac18_4201, 0xac1f_ffff, 0xac20_0000,
        0xc0a7_ffff, 0xc0a8_0000, 0xc0a8_0001, 0xc0a8_80fe, 0xc0a8_ffff, 0xc0a9_0000,
        0xffff_ffff,
    ];
    for addr in addresses {
        for prefix_len in 0..=30u8 {
            let (lowest, highest) = block(addr, prefix_len);
            let contained = private.iter().any(|(first, last)| *first <= lowest && highest <= *last);
            let outcome = Network::internal("Net".to_string(), Subnet { addr, prefix_len });
            assert_eq!(outcome.is_ok(), contained, "{:#x}/{}", addr, prefix_len);
            if let Ok(network) = outcome {
                assert_eq!(
                    network.available_hosts,
                    Some(HostRange { first: lowest + 1, last: highest - 1 }),
                    "{:#x}/{}",
                    addr,
                    prefix_len
                );
            }
        }
    }
}
