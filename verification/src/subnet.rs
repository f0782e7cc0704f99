//! IPv4 subnets in CIDR form, the private address ranges, and the usable
//! host addresses of a subnet.

use vstd::prelude::*;

verus! {

/// An IPv4 address together with a prefix length, as written in CIDR
/// notation. The address keeps its host bits: `192.168.0.1/24` is stored as
/// given and denotes the block `192.168.0.0` to `192.168.0.255`.
#[derive(Clone, Copy, Debug, PartialEq, Eq, Structural)]
pub struct Subnet {
    /// The address, most significant octet first.
    pub addr: u32,
    /// The number of leading bits that identify the network, at most 32.
    pub prefix_len: u8,
}

/// The first and last usable host address of a subnet.
#[derive(Clone, Copy, Debug, PartialEq, Eq, Structural)]
pub struct HostRange {
    pub first: u32,
    pub last: u32,
}

/// The bits of an address that identify the network.
pub open spec fn netmask(prefix_len: u8) -> u32 {
    if prefix_len == 0 {
        0u32
    } else {
        0xffff_ffffu32 << ((32 - prefix_len) as u32)
    }
}

/// The bits of an address that identify the host.
pub open spec fn hostmask(prefix_len: u8) -> u32 {
    if prefix_len >= 32 {
        0u32
    } else {
        0xffff_ffffu32 >> (prefix_len as u32)
    }
}

/// The lowest address of the block.
pub open spec fn network_address(subnet: Subnet) -> u32 {
    subnet.addr & netmask(subnet.prefix_len)
}

/// The highest address of the block.
pub open spec fn broadcast_address(subnet: Subnet) -> u32 {
    subnet.addr | hostmask(subnet.prefix_len)
}

/// Whether `address` lies in the block of `subnet`.
pub open spec fn covers(subnet: Subnet, address: u32) -> bool {
    network_address(subnet) <= address <= broadcast_address(subnet)
}

/// Whether the whole block of `inner` lies in the block of `outer`.
pub open spec fn contains(outer: Subnet, inner: Subnet) -> bool {
    network_address(outer) <= network_address(inner) && broadcast_address(inner)
        <= broadcast_address(outer)
}

/// The block `10.0.0.0/8`.
pub open spec fn private_class_a() -> Subnet {
    Subnet { addr: 0x0a00_0000, prefix_len: 8 }
}

/// The block `172.16.0.0/12`.
pub open spec fn private_class_b() -> Subnet {
    Subnet { addr: 0xac10_0000, prefix_len: 12 }
}

/// The block `192.168.0.0/16`.
pub open spec fn private_class_c() -> Subnet {
    Subnet { addr: 0xc0a8_0000, prefix_len: 16 }
}

/// Whether the whole block of `subnet` lies in one of the three ranges
/// reserved for private networks.
pub open spec fn is_private(subnet: Subnet) -> bool {
    contains(private_class_a(), subnet) || contains(private_class_b(), subnet) || contains(
        private_class_c(),
        subnet,
    )
}

/// Whether `address` lies in one of the three private ranges.
pub open spec fn is_private_address(address: u32) -> bool {
    covers(private_class_a(), address) || covers(private_class_b(), address) || covers(
        private_class_c(),
        address,
    )
}

/// The largest prefix length that leaves room for two usable hosts.
pub const MAX_PREFIX_LEN: u8 = 30;

/// The usable hosts of a block: everything but its lowest and highest
/// address.
pub open spec fn usable_hosts(subnet: Subnet) -> HostRange {
    HostRange {
        first: (network_address(subnet) + 1) as u32,
        last: (broadcast_address(subnet) - 1) as u32,
    }
}

/// The subnet that `text` denotes in CIDR notation, if it denotes one.
pub uninterp spec fn parsed_cidr(text: Seq<char>) -> Option<Subnet>;

/// `ipnet::AddrParseError`, the failure of parsing CIDR notation.
#[verifier::external_type_specification]
#[verifier::external_body]
pub struct ExAddrParseError(ipnet::AddrParseError);

/// Parses CIDR notation with `ipnet::Ipv4Net`'s `FromStr`. Trusted: whether
/// the text parses, and the address and prefix length it gives, depend on
/// the characters of `text` alone.
#[verifier::external_body]
pub(crate) fn parse_cidr(text: &str) -> (parsed: Result<Subnet, ipnet::AddrParseError>)
    ensures
        match parsed {
            Ok(subnet) => parsed_cidr(text@) == Some(subnet),
            Err(_) => parsed_cidr(text@) is None,
        },
{
    match text.parse::<ipnet::Ipv4Net>() {
        Ok(net) => Ok(Subnet { addr: net.addr().into(), prefix_len: net.prefix_len() }),
        Err(error) => Err(error),
    }
}

/// Calls `ipnet::Ipv4Net::contains` on two subnets. Trusted: the result is
/// whether the network address of `outer` is at most that of `inner` and
/// the broadcast address of `inner` is at most that of `outer`.
#[verifier::external_body]
pub(crate) fn block_contains(outer: Subnet, inner: Subnet) -> (inside: bool)
    requires
        outer.prefix_len <= 32,
        inner.prefix_len <= 32,
    ensures
        inside == contains(outer, inner),
{
    let outer_net = ipnet::Ipv4Net::new(outer.addr.into(), outer.prefix_len).unwrap();
    let inner_net = ipnet::Ipv4Net::new(inner.addr.into(), inner.prefix_len).unwrap();
    outer_net.contains(&inner_net)
}

/// Calls `ipnet::Ipv4Net::hosts` and takes the first and the last address
/// of the range it returns. Trusted: for a prefix length of at most 30 the
/// range starts one above the network address and ends one below the
/// broadcast address.
#[verifier::external_body]
pub(crate) fn host_bounds(subnet: Subnet) -> (range: HostRange)
    requires
        subnet.prefix_len <= MAX_PREFIX_LEN,
    ensures
        range == usable_hosts(subnet),
{
    let mut hosts = ipnet::Ipv4Net::new(subnet.addr.into(), subnet.prefix_len).unwrap().hosts();
    let first = hosts.next().unwrap();
    let last = hosts.next_back().unwrap();
    HostRange { first: first.into(), last: last.into() }
}

/// Whether the whole block of `subnet` lies in a private range.
pub fn in_private_range(subnet: Subnet) -> (private: bool)
    requires
        subnet.prefix_len <= 32,
    ensures
        private == is_private(subnet),
{
    block_contains(Subnet { addr: 0x0a00_0000, prefix_len: 8 }, subnet) || block_contains(
        Subnet { addr: 0xac10_0000, prefix_len: 12 },
        subnet,
    ) || block_contains(Subnet { addr: 0xc0a8_0000, prefix_len: 16 }, subnet)
}

/// A block with a prefix length of at most 30 has at least two usable
/// hosts, and they lie strictly inside the block.
pub proof fn lemma_two_usable_hosts(subnet: Subnet)
    requires
        subnet.prefix_len <= MAX_PREFIX_LEN,
    ensures
        network_address(subnet) + 3 <= broadcast_address(subnet),
        usable_hosts(subnet).first == network_address(subnet) + 1,
        usable_hosts(subnet).last == broadcast_address(subnet) - 1,
        usable_hosts(subnet).first < usable_hosts(subnet).last,
{
    let a = subnet.addr;
    let p = subnet.prefix_len as u32;
    if subnet.prefix_len == 0 {
        assert((a & 0u32) == 0u32) by (bit_vector);
        assert((a | (0xffff_ffffu32 >> 0u32)) == 0xffff_ffffu32) by (bit_vector);
    } else {
        let q = (32 - subnet.prefix_len) as u32;
        assert((a & (0xffff_ffffu32 << q)) <= (a | (0xffff_ffffu32 >> p)) && (a | (0xffff_ffffu32
            >> p)) - (a & (0xffff_ffffu32 << q)) >= 3u32) by (bit_vector)
            requires
                1 <= p <= 30,
                q + p == 32u32,
        ;
    }
}

/// A block reaches from its network address to its broadcast address, and
/// the address it is written with lies in it.
pub proof fn lemma_block_spans_its_ends(subnet: Subnet)
    ensures
        covers(subnet, network_address(subnet)),
        covers(subnet, subnet.addr),
        covers(subnet, broadcast_address(subnet)),
{
    let a = subnet.addr;
    let n = netmask(subnet.prefix_len);
    let h = hostmask(subnet.prefix_len);
    assert((a & n) <= a && a <= (a | h)) by (bit_vector);
}

/// Containment of blocks is containment of their addresses: every address
/// of a block lies in each block that contains it.
pub proof fn lemma_contained_block_is_covered(outer: Subnet, inner: Subnet, address: u32)
    requires
        contains(outer, inner),
        covers(inner, address),
    ensures
        covers(outer, address),
{
}

/// A block overlaps neither end of a private range it is validated against:
/// every address of a private subnet is a private address.
pub proof fn lemma_private_subnet_has_private_addresses(subnet: Subnet, address: u32)
    requires
        is_private(subnet),
        covers(subnet, address),
    ensures
        is_private_address(address),
{
}

} // verus!
