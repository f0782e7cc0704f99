//! The failures that building and wiring a scenario can report.

use vstd::prelude::*;
use vstd::string::*;

verus! {

/// The broad class of a failure.
#[derive(Clone, Copy, Debug, PartialEq, Eq, Structural)]
pub enum ErrorKind {
    /// A field is missing or has the wrong type.
    MalformedInput,
    /// A subnet is too small, not private, or given for a public network.
    InvalidTopology,
    /// Two networks or two systems share a name.
    UniquenessViolation,
    /// A system names a network that does not exist.
    UnresolvedReference,
    /// A network has no usable address left to lease.
    CapacityExhausted,
}

/// The precise cause of a failure.
#[derive(Clone, Copy, Debug, PartialEq, Eq, Structural)]
pub enum Reason {
    /// A network table has no `name`.
    NetworkNameMissing,
    /// The `name` of a network is not text.
    NetworkNameNotString,
    /// A network table has no `type`.
    NetworkTypeMissing,
    /// The `type` of a network is not text.
    NetworkTypeNotString,
    /// The `type` of a network is neither `Public` nor `Internal`.
    NetworkTypeInvalid,
    /// An internal network has no `subnet`.
    SubnetMissing,
    /// The `subnet` of an internal network is not text.
    SubnetNotString,
    /// The `subnet` of an internal network is not in CIDR notation.
    SubnetUnparseable,
    /// The subnet has a prefix longer than 30 bits, which leaves no room
    /// for two hosts.
    SubnetTooSmall,
    /// The subnet does not lie entirely in a private address range.
    SubnetNotPrivate,
    /// A public network has a `subnet`.
    PublicWithSubnet,
    /// A system table has no `name`.
    SystemNameMissing,
    /// The `name` of a system is not text.
    SystemNameNotString,
    /// A system table has no `networks` list.
    SystemNetworksMissing,
    /// An entry of the `networks` list of a system is not text.
    SystemNetworkNotString,
    /// A system table has no `base_box`.
    BaseBoxMissing,
    /// The `base_box` of a system is not text.
    BaseBoxNotString,
    /// A system asks for a network that the scenario does not have.
    UnresolvedNetwork,
    /// A network has no usable address left for an interface.
    AddressesExhausted,
    /// The configuration has no `scenario` table.
    ScenarioMissing,
    /// The `scenario` table has no `name`.
    ScenarioNameMissing,
    /// The `name` of the scenario is not text.
    ScenarioNameNotString,
    /// The configuration has no `networks` list.
    NetworksMissing,
    /// The configuration has no `systems` list.
    SystemsMissing,
    /// Two networks share a name.
    DuplicateNetwork,
    /// Two systems share a name.
    DuplicateSystem,
    /// A system is bound to a position that holds no network.
    NetworkMissing,
    /// A system holds no address for one of its interfaces on an internal
    /// network.
    LeaseMissing,
}

/// A failure, with the names needed to diagnose it.
#[derive(Debug)]
pub struct ModelError {
    /// What went wrong.
    pub reason: Reason,
    /// The network or system the failure is about; empty where the failure
    /// occurs before a name is known.
    pub subject: String,
    /// The network a system refers to, for failures that involve both a
    /// system and a network; empty otherwise.
    pub reference: String,
}

/// The mathematical content of a [`ModelError`].
pub struct ModelErrorView {
    pub reason: Reason,
    pub subject: Seq<char>,
    pub reference: Seq<char>,
}

impl View for ModelError {
    type V = ModelErrorView;

    open spec fn view(&self) -> ModelErrorView {
        ModelErrorView { reason: self.reason, subject: self.subject@, reference: self.reference@ }
    }
}

/// A failure that carries no name.
pub open spec fn bare_error(reason: Reason) -> ModelErrorView {
    ModelErrorView { reason, subject: Seq::empty(), reference: Seq::empty() }
}

/// A failure about one named network or system.
pub open spec fn named_error(reason: Reason, subject: Seq<char>) -> ModelErrorView {
    ModelErrorView { reason, subject, reference: Seq::empty() }
}

/// A failure about a system and a network it refers to.
pub open spec fn reference_error(
    reason: Reason,
    subject: Seq<char>,
    reference: Seq<char>,
) -> ModelErrorView {
    ModelErrorView { reason, subject, reference }
}

/// The class each reason belongs to.
pub open spec fn kind_of(reason: Reason) -> ErrorKind {
    match reason {
        Reason::SubnetTooSmall | Reason::SubnetNotPrivate | Reason::PublicWithSubnet =>
            ErrorKind::InvalidTopology,
        Reason::DuplicateNetwork | Reason::DuplicateSystem => ErrorKind::UniquenessViolation,
        Reason::UnresolvedNetwork | Reason::NetworkMissing => ErrorKind::UnresolvedReference,
        Reason::AddressesExhausted | Reason::LeaseMissing => ErrorKind::CapacityExhausted,
        _ => ErrorKind::MalformedInput,
    }
}

/// The text in front of the subject in the message of `reason`.
pub open spec fn message_head(reason: Reason) -> Seq<char> {
    match reason {
        Reason::NetworkNameMissing => "Could not read network name"@,
        Reason::NetworkNameNotString => "Could not read network name as a string"@,
        Reason::NetworkTypeMissing => "Could not read network type for network: "@,
        Reason::NetworkTypeNotString =>
            "Could not read network type as a string for network: "@,
        Reason::NetworkTypeInvalid =>
            "Could not parse network type as a valid type for network: "@,
        Reason::SubnetMissing => "Could not read subnet for network: "@,
        Reason::SubnetNotString => "Could not read subnet as string for network: "@,
        Reason::SubnetUnparseable =>
            "Could not parse subnet as a valid CIDR range for network: "@,
        Reason::SubnetTooSmall => "Network \""@,
        Reason::SubnetNotPrivate => "Subnet configured for network \""@,
        Reason::PublicWithSubnet => "Network \""@,
        Reason::SystemNameMissing => "Could not read name of system"@,
        Reason::SystemNameNotString => "Could not read name of system as a string"@,
        Reason::SystemNetworksMissing => "Could not read networks for system: "@,
        Reason::SystemNetworkNotString => "Could not parse networks for system: "@,
        Reason::BaseBoxMissing => "Could not read base_box for system: "@,
        Reason::BaseBoxNotString => "Could not read base_box as a string for system: "@,
        Reason::UnresolvedNetwork => "System \""@,
        Reason::AddressesExhausted => "Subnet for network \""@,
        Reason::ScenarioMissing => "Could not get scenario from configuration"@,
        Reason::ScenarioNameMissing => "Could not read name of scenario from configuration"@,
        Reason::ScenarioNameNotString => "Could not read name of scenario as a string"@,
        Reason::NetworksMissing => "Could not read networks from configuration"@,
        Reason::SystemsMissing => "Could not get systems from configuration"@,
        Reason::DuplicateNetwork => "Multiple networks parsed with name \""@,
        Reason::DuplicateSystem => "Multiple systems parsed with name \""@,
        Reason::NetworkMissing => "System \""@,
        Reason::LeaseMissing => "System \""@,
    }
}

/// The text between the subject and the reference in the message of
/// `reason`.
pub open spec fn message_middle(reason: Reason) -> Seq<char> {
    match reason {
        Reason::NetworkTypeInvalid => ". Valid types are: Public, Internal"@,
        Reason::SubnetTooSmall =>
            "\" configured with a subnet smaller than /30. Networks smaller than /30 can't have multiple hosts."@,
        Reason::SubnetNotPrivate =>
            "\" is not RFC 1918 compliant. Subnets must be in valid allocation for private networks."@,
        Reason::PublicWithSubnet =>
            "\" is configured as a Public network and has a subnet configured. Public networks can't have configured subnets."@,
        Reason::UnresolvedNetwork => "\" is configured to use network \""@,
        Reason::AddressesExhausted =>
            "\" does not have enough available addresses for all systems configured to use it."@,
        Reason::DuplicateNetwork => "\". Network names must be unique."@,
        Reason::DuplicateSystem => "\". System names must be unique."@,
        Reason::NetworkMissing =>
            "\" is wired to a network that is not part of the scenario"@,
        Reason::LeaseMissing => "\" holds no address lease for its interface on network \""@,
        _ => ""@,
    }
}

/// The text behind the reference in the message of `reason`.
pub open spec fn message_tail(reason: Reason) -> Seq<char> {
    match reason {
        Reason::UnresolvedNetwork => "\" but no network with that name could be found"@,
        Reason::LeaseMissing => "\""@,
        _ => ""@,
    }
}

/// The full message of a failure.
pub open spec fn message_of(error: ModelErrorView) -> Seq<char> {
    message_head(error.reason) + error.subject + message_middle(error.reason) + error.reference
        + message_tail(error.reason)
}

fn head_text(reason: Reason) -> (text: &'static str)
    ensures
        text@ == message_head(reason),
{
    match reason {
        Reason::NetworkNameMissing => "Could not read network name",
        Reason::NetworkNameNotString => "Could not read network name as a string",
        Reason::NetworkTypeMissing => "Could not read network type for network: ",
        Reason::NetworkTypeNotString => "Could not read network type as a string for network: ",
        Reason::NetworkTypeInvalid =>
            "Could not parse network type as a valid type for network: ",
        Reason::SubnetMissing => "Could not read subnet for network: ",
        Reason::SubnetNotString => "Could not read subnet as string for network: ",
        Reason::SubnetUnparseable =>
            "Could not parse subnet as a valid CIDR range for network: ",
        Reason::SubnetTooSmall => "Network \"",
        Reason::SubnetNotPrivate => "Subnet configured for network \"",
        Reason::PublicWithSubnet => "Network \"",
        Reason::SystemNameMissing => "Could not read name of system",
        Reason::SystemNameNotString => "Could not read name of system as a string",
        Reason::SystemNetworksMissing => "Could not read networks for system: ",
        Reason::SystemNetworkNotString => "Could not parse networks for system: ",
        Reason::BaseBoxMissing => "Could not read base_box for system: ",
        Reason::BaseBoxNotString => "Could not read base_box as a string for system: ",
        Reason::UnresolvedNetwork => "System \"",
        Reason::AddressesExhausted => "Subnet for network \"",
        Reason::ScenarioMissing => "Could not get scenario from configuration",
        Reason::ScenarioNameMissing => "Could not read name of scenario from configuration",
        Reason::ScenarioNameNotString => "Could not read name of scenario as a string",
        Reason::NetworksMissing => "Could not read networks from configuration",
        Reason::SystemsMissing => "Could not get systems from configuration",
        Reason::DuplicateNetwork => "Multiple networks parsed with name \"",
        Reason::DuplicateSystem => "Multiple systems parsed with name \"",
        Reason::NetworkMissing => "System \"",
        Reason::LeaseMissing => "System \"",
    }
}

fn middle_text(reason: Reason) -> (text: &'static str)
    ensures
        text@ == message_middle(reason),
{
    match reason {
        Reason::NetworkTypeInvalid => ". Valid types are: Public, Internal",
        Reason::SubnetTooSmall =>
            "\" configured with a subnet smaller than /30. Networks smaller than /30 can't have multiple hosts.",
        Reason::SubnetNotPrivate =>
            "\" is not RFC 1918 compliant. Subnets must be in valid allocation for private networks.",
        Reason::PublicWithSubnet =>
            "\" is configured as a Public network and has a subnet configured. Public networks can't have configured subnets.",
        Reason::UnresolvedNetwork => "\" is configured to use network \"",
        Reason::AddressesExhausted =>
            "\" does not have enough available addresses for all systems configured to use it.",
        Reason::DuplicateNetwork => "\". Network names must be unique.",
        Reason::DuplicateSystem => "\". System names must be unique.",
        Reason::NetworkMissing => "\" is wired to a network that is not part of the scenario",
        Reason::LeaseMissing => "\" holds no address lease for its interface on network \"",
        _ => "",
    }
}

fn tail_text(reason: Reason) -> (text: &'static str)
    ensures
        text@ == message_tail(reason),
{
    match reason {
        Reason::UnresolvedNetwork => "\" but no network with that name could be found",
        Reason::LeaseMissing => "\"",
        _ => "",
    }
}

impl ModelError {
    /// A failure that carries no name.
    pub fn bare(reason: Reason) -> (error: ModelError)
        ensures
            error@ == bare_error(reason),
    {
        ModelError { reason, subject: String::new(), reference: String::new() }
    }

    /// A failure about the network or system called `subject`.
    pub fn named(reason: Reason, subject: &str) -> (error: ModelError)
        ensures
            error@ == named_error(reason, subject@),
    {
        ModelError { reason, subject: subject.to_owned(), reference: String::new() }
    }

    /// A failure about the system `subject` and the network `reference`.
    pub fn with_reference(reason: Reason, subject: &str, reference: &str) -> (error: ModelError)
        ensures
            error@ == reference_error(reason, subject@, reference@),
    {
        ModelError { reason, subject: subject.to_owned(), reference: reference.to_owned() }
    }

    /// The class of this failure.
    pub fn kind(&self) -> (kind: ErrorKind)
        ensures
            kind == kind_of(self.reason),
    {
        match self.reason {
            Reason::SubnetTooSmall | Reason::SubnetNotPrivate | Reason::PublicWithSubnet =>
                ErrorKind::InvalidTopology,
            Reason::DuplicateNetwork | Reason::DuplicateSystem => ErrorKind::UniquenessViolation,
            Reason::UnresolvedNetwork | Reason::NetworkMissing => ErrorKind::UnresolvedReference,
            Reason::AddressesExhausted | Reason::LeaseMissing => ErrorKind::CapacityExhausted,
            _ => ErrorKind::MalformedInput,
        }
    }

    /// The human-readable description of this failure.
    pub fn message(&self) -> (text: String)
        ensures
            text@ == message_of(self@),
    {
        let mut text = String::from_str(head_text(self.reason));
        text.append(self.subject.as_str());
        text.append(middle_text(self.reason));
        text.append(self.reference.as_str());
        text.append(tail_text(self.reason));
        text
    }
}

} // verus!
