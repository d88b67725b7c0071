//! The typed vocabulary of 802.1AB §8.5: identifiers, capabilities, and
//! addresses carried by the standard TLVs. Everything borrows from the input
//! buffer; nothing here allocates except the encoders' output.
use crate::tlv::append_bytes;
use crate::Error;
use vstd::prelude::*;

verus! {

// ---------------------------------------------------------------------------
// Big-endian integers.
// ---------------------------------------------------------------------------
/// The u16 whose big-endian bytes are `hi`, `lo`.
pub open spec fn be_u16(hi: u8, lo: u8) -> u16 {
    (hi * 256 + lo) as u16
}

/// The big-endian bytes of `v`.
pub open spec fn u16_be(v: u16) -> Seq<u8> {
    seq![(v / 256) as u8, (v % 256) as u8]
}

/// The u32 whose big-endian bytes are the four bytes of `b`.
pub open spec fn be_u32(b: Seq<u8>) -> u32 {
    (b[0] * 0x100_0000 + b[1] * 0x1_0000 + b[2] * 0x100 + b[3]) as u32
}

/// The big-endian bytes of `v`.
pub open spec fn u32_be(v: u32) -> Seq<u8> {
    seq![
        (v / 0x100_0000) as u8,
        ((v / 0x1_0000) % 256) as u8,
        ((v / 0x100) % 256) as u8,
        (v % 256) as u8,
    ]
}

/// Reading back the big-endian bytes of a u16 gives the u16.
pub proof fn lemma_u16_be_round_trip(v: u16)
    ensures
        be_u16(u16_be(v)[0], u16_be(v)[1]) == v,
{
    let hi = (v / 256) as u8;
    let lo = (v % 256) as u8;
    assert(hi * 256 + lo == v) by (nonlinear_arith)
        requires
            hi == v / 256,
            lo == v % 256,
    ;
}

/// Writing out a u16 read from two bytes gives the two bytes.
pub proof fn lemma_be_u16_bytes(hi: u8, lo: u8)
    ensures
        u16_be(be_u16(hi, lo)) == seq![hi, lo],
{
    let v = be_u16(hi, lo);
    assert(v == hi * 256 + lo);
    assert(v / 256 == hi && v % 256 == lo) by (nonlinear_arith)
        requires
            v == hi * 256 + lo,
            0 <= lo < 256,
    ;
    assert(u16_be(v) =~= seq![hi, lo]);
}

/// Reading back the big-endian bytes of a u32 gives the u32.
pub proof fn lemma_u32_be_round_trip(v: u32)
    ensures
        be_u32(u32_be(v)) == v,
{
    let b = u32_be(v);
    let (b0, b1, b2, b3) = (b[0] as int, b[1] as int, b[2] as int, b[3] as int);
    assert(b0 * 0x100_0000 + b1 * 0x1_0000 + b2 * 0x100 + b3 == v) by (nonlinear_arith)
        requires
            b0 == v / 0x100_0000,
            b1 == (v / 0x1_0000) % 256,
            b2 == (v / 0x100) % 256,
            b3 == v % 256,
            0 <= v < 0x1_0000_0000,
    ;
}

/// The u32 read from four bytes, computed with shifts.
fn u32_of(b0: u8, b1: u8, b2: u8, b3: u8) -> (r: u32)
    ensures
        r == be_u32(seq![b0, b1, b2, b3]),
{
    let r = ((b0 as u32) << 24u32) | ((b1 as u32) << 16u32) | ((b2 as u32) << 8u32) | (b3 as u32);
    assert(((b0 as u32) << 24u32) | ((b1 as u32) << 16u32) | ((b2 as u32) << 8u32) | (b3 as u32)
        == b0 * 0x100_0000 + b1 * 0x1_0000 + b2 * 0x100 + b3) by (bit_vector);
    r
}

/// The big-endian bytes of `v`.
pub(crate) fn u16_bytes(v: u16) -> (r: [u8; 2])
    ensures
        r@ == u16_be(v),
{
    let hi = (v >> 8u16) as u8;
    let lo = (v & 0xff) as u8;
    assert((v >> 8u16) as u8 == (v / 256) as u8 && (v & 0xff) as u8 == (v % 256) as u8)
        by (bit_vector);
    let r = [hi, lo];
    assert(r@ =~= u16_be(v));
    r
}

/// Append the big-endian bytes of `v` to `out`.
fn push_u16(v: u16, out: &mut Vec<u8>)
    ensures
        final(out)@ == old(out)@ + u16_be(v),
{
    let bytes = u16_bytes(v);
    append_bytes(out, bytes.as_slice());
}

/// Append the big-endian bytes of `v` to `out`.
fn push_u32(v: u32, out: &mut Vec<u8>)
    ensures
        final(out)@ == old(out)@ + u32_be(v),
{
    let b0 = (v >> 24u32) as u8;
    let b1 = ((v >> 16u32) & 0xff) as u8;
    let b2 = ((v >> 8u32) & 0xff) as u8;
    let b3 = (v & 0xff) as u8;
    assert((v >> 24u32) as u8 == (v / 0x100_0000) as u8 && ((v >> 16u32) & 0xff) as u8 == ((v
        / 0x1_0000) % 256) as u8 && ((v >> 8u32) & 0xff) as u8 == ((v / 0x100) % 256) as u8 && (v
        & 0xff) as u8 == (v % 256) as u8) by (bit_vector);
    out.push(b0);
    out.push(b1);
    out.push(b2);
    out.push(b3);
    assert(out@ =~= old(out)@ + u32_be(v));
}

// ---------------------------------------------------------------------------
// Shared body shapes.
// ---------------------------------------------------------------------------
/// A tag byte followed by a non-empty value — the shared shape of Chassis ID,
/// Port ID, and LLDP network addresses.
pub open spec fn spec_tagged(body: Seq<u8>) -> Option<(u8, Seq<u8>)> {
    if body.len() >= 2 {
        Some((body[0], body.drop_first()))
    } else {
        None
    }
}

/// Split `n` bytes off the front, or `None` when fewer remain. The one
/// length-checking primitive every TLV-body parser composes from.
fn take(bytes: &[u8], n: usize) -> (r: Option<(&[u8], &[u8])>)
    ensures
        n > bytes@.len() ==> r is None,
        n <= bytes@.len() ==> (r matches Some((a, b)) && a@ == bytes@.take(n as int) && b@
            == bytes@.skip(n as int)),
{
    if n <= bytes.len() {
        let (a, b) = bytes.split_at(n);
        proof {
            assert(a@ =~= bytes@.take(n as int));
            assert(b@ =~= bytes@.skip(n as int));
        }
        Some((a, b))
    } else {
        None
    }
}

/// A tag byte followed by a non-empty value (identifiers are 1..=255 bytes).
fn tagged(body: &[u8]) -> (r: Option<(u8, &[u8])>)
    ensures
        match r {
            Some((tag, value)) => spec_tagged(body@) == Some((tag, value@)),
            None => spec_tagged(body@) is None,
        },
{
    if body.len() >= 2 {
        let (_, value) = body.split_at(1);
        proof {
            assert(value@ =~= body@.drop_first());
        }
        Some((body[0], value))
    } else {
        None
    }
}

/// The six bytes of a MAC address, when `value` is exactly six bytes.
fn parse_mac(value: &[u8]) -> (r: Option<[u8; 6]>)
    ensures
        value@.len() == 6 <==> r is Some,
        r matches Some(m) ==> m@ == value@,
{
    if value.len() == 6 {
        let m = [value[0], value[1], value[2], value[3], value[4], value[5]];
        assert(m@ =~= value@);
        Some(m)
    } else {
        None
    }
}

// ---------------------------------------------------------------------------
// Network addresses.
// ---------------------------------------------------------------------------
/// A network address as mathematics: family number and address bytes.
pub struct SpecNetworkAddress {
    /// IANA address family number.
    pub family: u8,
    /// The address bytes.
    pub bytes: Seq<u8>,
}

/// A network address as LLDP encodes one: an IANA address-family number
/// followed by the address bytes (§8.5.9.4). IPv4 and IPv6 get typed
/// accessors; anything else stays available as raw bytes.
#[derive(Debug, Clone, Copy, PartialEq, Eq)]
pub struct NetworkAddress<'a> {
    /// IANA address family number (1 = IPv4, 2 = IPv6, …).
    pub family: u8,
    /// The address bytes, whose meaning depends on `family`.
    pub bytes: &'a [u8],
}

impl<'a> View for NetworkAddress<'a> {
    type V = SpecNetworkAddress;

    open spec fn view(&self) -> SpecNetworkAddress {
        SpecNetworkAddress { family: self.family, bytes: self.bytes@ }
    }
}

/// The octets of an IP address, by version.
#[derive(Debug, Clone, Copy, PartialEq, Eq)]
pub enum IpOctets {
    /// An IPv4 address.
    V4([u8; 4]),
    /// An IPv6 address.
    V6([u8; 16]),
}

/// The network address held by a tagged body: family byte, then a non-empty
/// address.
pub open spec fn network_address_of(value: Seq<u8>) -> Option<SpecNetworkAddress> {
    match spec_tagged(value) {
        Some((family, bytes)) => Some(SpecNetworkAddress { family, bytes }),
        None => None,
    }
}

fn parse_network_address(value: &[u8]) -> (r: Option<NetworkAddress<'_>>)
    ensures
        match r {
            Some(a) => network_address_of(value@) == Some(a@),
            None => network_address_of(value@) is None,
        },
{
    let (family, bytes) = tagged(value)?;
    Some(NetworkAddress { family, bytes })
}

impl<'a> NetworkAddress<'a> {
    /// IANA address family number for IPv4.
    pub const FAMILY_IPV4: u8 = 1;

    /// IANA address family number for IPv6.
    pub const FAMILY_IPV6: u8 = 2;

    /// The address as IP octets, when the family is IPv4 or IPv6 and the
    /// byte count matches (4 and 16 bytes respectively).
    pub fn ip(&self) -> (r: Option<IpOctets>)
        ensures
            match r {
                Some(IpOctets::V4(o)) => self.family == 1 && o@ == self.bytes@,
                Some(IpOctets::V6(o)) => self.family == 2 && o@ == self.bytes@,
                None => !(self.family == 1 && self.bytes@.len() == 4) && !(self.family == 2
                    && self.bytes@.len() == 16),
            },
    {
        let b = self.bytes;
        if self.family == Self::FAMILY_IPV4 && b.len() == 4 {
            let o = [b[0], b[1], b[2], b[3]];
            assert(o@ =~= b@);
            Some(IpOctets::V4(o))
        } else if self.family == Self::FAMILY_IPV6 && b.len() == 16 {
            let o = [
                b[0],
                b[1],
                b[2],
                b[3],
                b[4],
                b[5],
                b[6],
                b[7],
                b[8],
                b[9],
                b[10],
                b[11],
                b[12],
                b[13],
                b[14],
                b[15],
            ];
            assert(o@ =~= b@);
            Some(IpOctets::V6(o))
        } else {
            None
        }
    }
}

fn encode_tagged_id(subtype: u8, value: &[u8], out: &mut Vec<u8>)
    ensures
        final(out)@ == old(out)@ + seq![subtype] + value@,
{
    out.push(subtype);
    append_bytes(out, value);
    assert(out@ =~= old(out)@ + seq![subtype] + value@);
}

fn encode_tagged_network_id(subtype: u8, addr: &NetworkAddress<'_>, out: &mut Vec<u8>)
    ensures
        final(out)@ == old(out)@ + seq![subtype, addr.family] + addr.bytes@,
{
    out.push(subtype);
    out.push(addr.family);
    append_bytes(out, addr.bytes);
    assert(out@ =~= old(out)@ + seq![subtype, addr.family] + addr.bytes@);
}

// ---------------------------------------------------------------------------
// Chassis ID.
// ---------------------------------------------------------------------------
/// A Chassis ID as mathematics.
pub enum SpecChassisId {
    /// Subtype 1.
    ChassisComponent(Seq<u8>),
    /// Subtype 2.
    InterfaceAlias(Seq<u8>),
    /// Subtype 3.
    PortComponent(Seq<u8>),
    /// Subtype 4.
    MacAddress(Seq<u8>),
    /// Subtype 5.
    NetworkAddress(SpecNetworkAddress),
    /// Subtype 6.
    InterfaceName(Seq<u8>),
    /// Subtype 7.
    Local(Seq<u8>),
    /// Any other subtype.
    Other { subtype: u8, value: Seq<u8> },
}

/// Chassis ID (§8.5.2): what identifies the whole device. The subtype tells
/// you which naming scheme the value uses.
#[derive(Debug, Clone, Copy, PartialEq, Eq)]
pub enum ChassisId<'a> {
    /// Subtype 1: entPhysicalAlias of a chassis component.
    ChassisComponent(&'a [u8]),
    /// Subtype 2: ifAlias of an interface.
    InterfaceAlias(&'a [u8]),
    /// Subtype 3: entPhysicalAlias of a backplane/port component.
    PortComponent(&'a [u8]),
    /// Subtype 4: a MAC address — the most common choice on switches.
    MacAddress([u8; 6]),
    /// Subtype 5: a network address.
    NetworkAddress(NetworkAddress<'a>),
    /// Subtype 6: ifName of an interface.
    InterfaceName(&'a [u8]),
    /// Subtype 7: an identifier assigned by the local operator.
    Local(&'a [u8]),
    /// A subtype this crate doesn't know; value preserved verbatim.
    Other {
        /// The wire subtype byte.
        subtype: u8,
        /// The identifier bytes.
        value: &'a [u8],
    },
}

impl<'a> View for ChassisId<'a> {
    type V = SpecChassisId;

    open spec fn view(&self) -> SpecChassisId {
        match self {
            ChassisId::ChassisComponent(v) => SpecChassisId::ChassisComponent(v@),
            ChassisId::InterfaceAlias(v) => SpecChassisId::InterfaceAlias(v@),
            ChassisId::PortComponent(v) => SpecChassisId::PortComponent(v@),
            ChassisId::MacAddress(m) => SpecChassisId::MacAddress(m@),
            ChassisId::NetworkAddress(a) => SpecChassisId::NetworkAddress(a@),
            ChassisId::InterfaceName(v) => SpecChassisId::InterfaceName(v@),
            ChassisId::Local(v) => SpecChassisId::Local(v@),
            ChassisId::Other { subtype, value } => SpecChassisId::Other {
                subtype: *subtype,
                value: value@,
            },
        }
    }
}

/// The Chassis ID a TLV body (subtype byte + identifier) holds, if any.
pub open spec fn chassis_of(body: Seq<u8>) -> Option<SpecChassisId> {
    match spec_tagged(body) {
        None => None,
        Some((subtype, value)) => if subtype == 1 {
            Some(SpecChassisId::ChassisComponent(value))
        } else if subtype == 2 {
            Some(SpecChassisId::InterfaceAlias(value))
        } else if subtype == 3 {
            Some(SpecChassisId::PortComponent(value))
        } else if subtype == 4 {
            if value.len() == 6 {
                Some(SpecChassisId::MacAddress(value))
            } else {
                None
            }
        } else if subtype == 5 {
            match network_address_of(value) {
                Some(a) => Some(SpecChassisId::NetworkAddress(a)),
                None => None,
            }
        } else if subtype == 6 {
            Some(SpecChassisId::InterfaceName(value))
        } else if subtype == 7 {
            Some(SpecChassisId::Local(value))
        } else {
            Some(SpecChassisId::Other { subtype, value })
        },
    }
}

/// The TLV body that encodes a Chassis ID: subtype byte + identifier.
pub open spec fn chassis_body(c: SpecChassisId) -> Seq<u8> {
    match c {
        SpecChassisId::ChassisComponent(v) => seq![1u8] + v,
        SpecChassisId::InterfaceAlias(v) => seq![2u8] + v,
        SpecChassisId::PortComponent(v) => seq![3u8] + v,
        SpecChassisId::MacAddress(m) => seq![4u8] + m,
        SpecChassisId::NetworkAddress(a) => seq![5u8, a.family] + a.bytes,
        SpecChassisId::InterfaceName(v) => seq![6u8] + v,
        SpecChassisId::Local(v) => seq![7u8] + v,
        SpecChassisId::Other { subtype, value } => seq![subtype] + value,
    }
}

impl SpecChassisId {
    /// The Chassis IDs a parse can produce: every identifier non-empty, a MAC
    /// exactly six bytes, and `Other` only for subtypes outside 1–7.
    pub open spec fn canonical(self) -> bool {
        match self {
            SpecChassisId::ChassisComponent(v) => v.len() > 0,
            SpecChassisId::InterfaceAlias(v) => v.len() > 0,
            SpecChassisId::PortComponent(v) => v.len() > 0,
            SpecChassisId::MacAddress(m) => m.len() == 6,
            SpecChassisId::NetworkAddress(a) => a.bytes.len() > 0,
            SpecChassisId::InterfaceName(v) => v.len() > 0,
            SpecChassisId::Local(v) => v.len() > 0,
            SpecChassisId::Other { subtype, value } => (subtype < 1 || subtype > 7) && value.len()
                > 0,
        }
    }
}

impl<'a> ChassisId<'a> {
    /// Parse a Chassis ID TLV body (subtype byte + identifier).
    pub fn parse(body: &'a [u8]) -> (r: Result<Self, Error>)
        ensures
            match r {
                Ok(c) => chassis_of(body@) == Some(c@),
                Err(e) => chassis_of(body@) is None && e == Error::Malformed("chassis id"),
            },
    {
        match Self::of(body) {
            Some(c) => Ok(c),
            None => Err(Error::Malformed("chassis id")),
        }
    }

    /// The Option-shaped parse; the public boundary attaches the error.
    fn of(body: &'a [u8]) -> (r: Option<Self>)
        ensures
            match r {
                Some(c) => chassis_of(body@) == Some(c@),
                None => chassis_of(body@) is None,
            },
    {
        let (subtype, value) = tagged(body)?;
        Some(
            match subtype {
                1 => Self::ChassisComponent(value),
                2 => Self::InterfaceAlias(value),
                3 => Self::PortComponent(value),
                4 => Self::MacAddress(parse_mac(value)?),
                5 => Self::NetworkAddress(parse_network_address(value)?),
                6 => Self::InterfaceName(value),
                7 => Self::Local(value),
                subtype => Self::Other { subtype, value },
            },
        )
    }

    /// Encode as a TLV body (subtype byte + identifier), appended to `out`.
    pub fn encode(&self, out: &mut Vec<u8>)
        ensures
            final(out)@ == old(out)@ + chassis_body(self@),
    {
        match self {
            Self::ChassisComponent(v) => encode_tagged_id(1, v, out),
            Self::InterfaceAlias(v) => encode_tagged_id(2, v, out),
            Self::PortComponent(v) => encode_tagged_id(3, v, out),
            Self::MacAddress(m) => encode_tagged_id(4, m.as_slice(), out),
            Self::NetworkAddress(a) => encode_tagged_network_id(5, a, out),
            Self::InterfaceName(v) => encode_tagged_id(6, v, out),
            Self::Local(v) => encode_tagged_id(7, v, out),
            Self::Other { subtype, value } => encode_tagged_id(*subtype, value, out),
        }
    }
}

/// A canonical Chassis ID survives encoding and parsing unchanged.
pub proof fn lemma_chassis_round_trip(c: SpecChassisId)
    requires
        c.canonical(),
    ensures
        chassis_of(chassis_body(c)) == Some(c),
{
    let body = chassis_body(c);
    match c {
        SpecChassisId::NetworkAddress(a) => {
            assert(body.drop_first() =~= seq![a.family] + a.bytes);
            assert((seq![a.family] + a.bytes).drop_first() =~= a.bytes);
        },
        SpecChassisId::Other { subtype, value } => {
            assert(body.drop_first() =~= value);
        },
        SpecChassisId::ChassisComponent(v) => {
            assert(body.drop_first() =~= v);
        },
        SpecChassisId::InterfaceAlias(v) => {
            assert(body.drop_first() =~= v);
        },
        SpecChassisId::PortComponent(v) => {
            assert(body.drop_first() =~= v);
        },
        SpecChassisId::MacAddress(v) => {
            assert(body.drop_first() =~= v);
        },
        SpecChassisId::InterfaceName(v) => {
            assert(body.drop_first() =~= v);
        },
        SpecChassisId::Local(v) => {
            assert(body.drop_first() =~= v);
        },
    }
}

/// Whatever Chassis ID a body parses to is canonical and encodes back to
/// exactly that body.
pub proof fn lemma_chassis_parse_then_encode(body: Seq<u8>)
    requires
        chassis_of(body) is Some,
    ensures
        chassis_of(body)->Some_0.canonical(),
        chassis_body(chassis_of(body)->Some_0) == body,
{
    let value = body.drop_first();
    if body[0] == 5 {
        assert(value.drop_first() =~= body.skip(2));
        assert(seq![5u8, value[0]] + value.drop_first() =~= body);
    } else {
        assert(seq![body[0]] + value =~= body);
    }
}

// ---------------------------------------------------------------------------
// Port ID.
// ---------------------------------------------------------------------------
/// A Port ID as mathematics.
pub enum SpecPortId {
    /// Subtype 1.
    InterfaceAlias(Seq<u8>),
    /// Subtype 2.
    PortComponent(Seq<u8>),
    /// Subtype 3.
    MacAddress(Seq<u8>),
    /// Subtype 4.
    NetworkAddress(SpecNetworkAddress),
    /// Subtype 5.
    InterfaceName(Seq<u8>),
    /// Subtype 6.
    AgentCircuitId(Seq<u8>),
    /// Subtype 7.
    Local(Seq<u8>),
    /// Any other subtype.
    Other { subtype: u8, value: Seq<u8> },
}

/// Port ID (§8.5.3): what identifies the sending port on that device.
/// Same shape as [`ChassisId`] but the subtype numbering differs.
#[derive(Debug, Clone, Copy, PartialEq, Eq)]
pub enum PortId<'a> {
    /// Subtype 1: ifAlias of the port.
    InterfaceAlias(&'a [u8]),
    /// Subtype 2: entPhysicalAlias of a port component.
    PortComponent(&'a [u8]),
    /// Subtype 3: the port's MAC address.
    MacAddress([u8; 6]),
    /// Subtype 4: a network address.
    NetworkAddress(NetworkAddress<'a>),
    /// Subtype 5: ifName — the most common choice ("Gi1/0/24").
    InterfaceName(&'a [u8]),
    /// Subtype 6: agent circuit ID (RFC 3046).
    AgentCircuitId(&'a [u8]),
    /// Subtype 7: an identifier assigned by the local operator.
    Local(&'a [u8]),
    /// A subtype this crate doesn't know; value preserved verbatim.
    Other {
        /// The wire subtype byte.
        subtype: u8,
        /// The identifier bytes.
        value: &'a [u8],
    },
}

impl<'a> View for PortId<'a> {
    type V = SpecPortId;

    open spec fn view(&self) -> SpecPortId {
        match self {
            PortId::InterfaceAlias(v) => SpecPortId::InterfaceAlias(v@),
            PortId::PortComponent(v) => SpecPortId::PortComponent(v@),
            PortId::MacAddress(m) => SpecPortId::MacAddress(m@),
            PortId::NetworkAddress(a) => SpecPortId::NetworkAddress(a@),
            PortId::InterfaceName(v) => SpecPortId::InterfaceName(v@),
            PortId::AgentCircuitId(v) => SpecPortId::AgentCircuitId(v@),
            PortId::Local(v) => SpecPortId::Local(v@),
            PortId::Other { subtype, value } => SpecPortId::Other {
                subtype: *subtype,
                value: value@,
            },
        }
    }
}

/// The Port ID a TLV body (subtype byte + identifier) holds, if any.
pub open spec fn port_of(body: Seq<u8>) -> Option<SpecPortId> {
    match spec_tagged(body) {
        None => None,
        Some((subtype, value)) => if subtype == 1 {
            Some(SpecPortId::InterfaceAlias(value))
        } else if subtype == 2 {
            Some(SpecPortId::PortComponent(value))
        } else if subtype == 3 {
            if value.len() == 6 {
                Some(SpecPortId::MacAddress(value))
            } else {
                None
            }
        } else if subtype == 4 {
            match network_address_of(value) {
                Some(a) => Some(SpecPortId::NetworkAddress(a)),
                None => None,
            }
        } else if subtype == 5 {
            Some(SpecPortId::InterfaceName(value))
        } else if subtype == 6 {
            Some(SpecPortId::AgentCircuitId(value))
        } else if subtype == 7 {
            Some(SpecPortId::Local(value))
        } else {
            Some(SpecPortId::Other { subtype, value })
        },
    }
}

/// The TLV body that encodes a Port ID: subtype byte + identifier.
pub open spec fn port_body(p: SpecPortId) -> Seq<u8> {
    match p {
        SpecPortId::InterfaceAlias(v) => seq![1u8] + v,
        SpecPortId::PortComponent(v) => seq![2u8] + v,
        SpecPortId::MacAddress(m) => seq![3u8] + m,
        SpecPortId::NetworkAddress(a) => seq![4u8, a.family] + a.bytes,
        SpecPortId::InterfaceName(v) => seq![5u8] + v,
        SpecPortId::AgentCircuitId(v) => seq![6u8] + v,
        SpecPortId::Local(v) => seq![7u8] + v,
        SpecPortId::Other { subtype, value } => seq![subtype] + value,
    }
}

impl SpecPortId {
    /// The Port IDs a parse can produce: every identifier non-empty, a MAC
    /// exactly six bytes, and `Other` only for subtypes outside 1–7.
    pub open spec fn canonical(self) -> bool {
        match self {
            SpecPortId::InterfaceAlias(v) => v.len() > 0,
            SpecPortId::PortComponent(v) => v.len() > 0,
            SpecPortId::MacAddress(m) => m.len() == 6,
            SpecPortId::NetworkAddress(a) => a.bytes.len() > 0,
            SpecPortId::InterfaceName(v) => v.len() > 0,
            SpecPortId::AgentCircuitId(v) => v.len() > 0,
            SpecPortId::Local(v) => v.len() > 0,
            SpecPortId::Other { subtype, value } => (subtype < 1 || subtype > 7) && value.len()
                > 0,
        }
    }
}

impl<'a> PortId<'a> {
    /// Parse a Port ID TLV body (subtype byte + identifier).
    pub fn parse(body: &'a [u8]) -> (r: Result<Self, Error>)
        ensures
            match r {
                Ok(p) => port_of(body@) == Some(p@),
                Err(e) => port_of(body@) is None && e == Error::Malformed("port id"),
            },
    {
        match Self::of(body) {
            Some(p) => Ok(p),
            None => Err(Error::Malformed("port id")),
        }
    }

    /// The Option-shaped parse; the public boundary attaches the error.
    fn of(body: &'a [u8]) -> (r: Option<Self>)
        ensures
            match r {
                Some(p) => port_of(body@) == Some(p@),
                None => port_of(body@) is None,
            },
    {
        let (subtype, value) = tagged(body)?;
        Some(
            match subtype {
                1 => Self::InterfaceAlias(value),
                2 => Self::PortComponent(value),
                3 => Self::MacAddress(parse_mac(value)?),
                4 => Self::NetworkAddress(parse_network_address(value)?),
                5 => Self::InterfaceName(value),
                6 => Self::AgentCircuitId(value),
                7 => Self::Local(value),
                subtype => Self::Other { subtype, value },
            },
        )
    }

    /// Encode as a TLV body (subtype byte + identifier), appended to `out`.
    pub fn encode(&self, out: &mut Vec<u8>)
        ensures
            final(out)@ == old(out)@ + port_body(self@),
    {
        match self {
            Self::InterfaceAlias(v) => encode_tagged_id(1, v, out),
            Self::PortComponent(v) => encode_tagged_id(2, v, out),
            Self::MacAddress(m) => encode_tagged_id(3, m.as_slice(), out),
            Self::NetworkAddress(a) => encode_tagged_network_id(4, a, out),
            Self::InterfaceName(v) => encode_tagged_id(5, v, out),
            Self::AgentCircuitId(v) => encode_tagged_id(6, v, out),
            Self::Local(v) => encode_tagged_id(7, v, out),
            Self::Other { subtype, value } => encode_tagged_id(*subtype, value, out),
        }
    }
}

/// A canonical Port ID survives encoding and parsing unchanged.
pub proof fn lemma_port_round_trip(p: SpecPortId)
    requires
        p.canonical(),
    ensures
        port_of(port_body(p)) == Some(p),
{
    let body = port_body(p);
    match p {
        SpecPortId::NetworkAddress(a) => {
            assert(body.drop_first() =~= seq![a.family] + a.bytes);
            assert((seq![a.family] + a.bytes).drop_first() =~= a.bytes);
        },
        SpecPortId::Other { subtype, value } => {
            assert(body.drop_first() =~= value);
        },
        SpecPortId::InterfaceAlias(v) => {
            assert(body.drop_first() =~= v);
        },
        SpecPortId::PortComponent(v) => {
            assert(body.drop_first() =~= v);
        },
        SpecPortId::MacAddress(v) => {
            assert(body.drop_first() =~= v);
        },
        SpecPortId::InterfaceName(v) => {
            assert(body.drop_first() =~= v);
        },
        SpecPortId::AgentCircuitId(v) => {
            assert(body.drop_first() =~= v);
        },
        SpecPortId::Local(v) => {
            assert(body.drop_first() =~= v);
        },
    }
}

/// Whatever Port ID a body parses to is canonical and encodes back to
/// exactly that body.
pub proof fn lemma_port_parse_then_encode(body: Seq<u8>)
    requires
        port_of(body) is Some,
    ensures
        port_of(body)->Some_0.canonical(),
        port_body(port_of(body)->Some_0) == body,
{
    let value = body.drop_first();
    if body[0] == 4 {
        assert(value.drop_first() =~= body.skip(2));
        assert(seq![4u8, value[0]] + value.drop_first() =~= body);
    } else {
        assert(seq![body[0]] + value =~= body);
    }
}

// ---------------------------------------------------------------------------
// System capabilities.
// ---------------------------------------------------------------------------
/// System Capabilities (§8.5.8): two 16-bit masks — what the device *can* do
/// and what is currently *enabled*. Bit positions per Table 8-4.
#[derive(Debug, Clone, Copy, Default, PartialEq, Eq)]
pub struct SystemCapabilities {
    /// Everything the system supports.
    pub capabilities: u16,
    /// The subset currently enabled.
    pub enabled: u16,
}

/// The System Capabilities a TLV body holds: exactly four bytes, two
/// big-endian masks.
pub open spec fn capabilities_of(body: Seq<u8>) -> Option<SystemCapabilities> {
    if body.len() == 4 {
        Some(
            SystemCapabilities {
                capabilities: be_u16(body[0], body[1]),
                enabled: be_u16(body[2], body[3]),
            },
        )
    } else {
        None
    }
}

/// The TLV body that encodes System Capabilities.
pub open spec fn capabilities_body(c: SystemCapabilities) -> Seq<u8> {
    u16_be(c.capabilities) + u16_be(c.enabled)
}

impl SystemCapabilities {
    /// Bit 0: other.
    pub const OTHER: u16 = 1;

    /// Bit 1: repeater.
    pub const REPEATER: u16 = 2;

    /// Bit 2: MAC bridge (switch).
    pub const BRIDGE: u16 = 4;

    /// Bit 3: 802.11 access point.
    pub const WLAN_ACCESS_POINT: u16 = 8;

    /// Bit 4: router.
    pub const ROUTER: u16 = 16;

    /// Bit 5: telephone.
    pub const TELEPHONE: u16 = 32;

    /// Bit 6: DOCSIS cable device.
    pub const DOCSIS: u16 = 64;

    /// Bit 7: station only.
    pub const STATION_ONLY: u16 = 128;

    /// Bit 8: C-VLAN component of a VLAN bridge.
    pub const C_VLAN: u16 = 256;

    /// Bit 9: S-VLAN component of a VLAN bridge.
    pub const S_VLAN: u16 = 512;

    /// Bit 10: two-port MAC relay.
    pub const TPMR: u16 = 1024;

    /// Parse a System Capabilities TLV body (4 bytes).
    pub fn parse(body: &[u8]) -> (r: Result<Self, Error>)
        ensures
            match r {
                Ok(c) => capabilities_of(body@) == Some(c),
                Err(e) => capabilities_of(body@) is None && e == Error::Malformed(
                    "system capabilities",
                ),
            },
    {
        if body.len() != 4 {
            return Err(Error::Malformed("system capabilities"));
        }
        let capabilities = (body[0] as u16) * 256 + body[1] as u16;
        let enabled = (body[2] as u16) * 256 + body[3] as u16;
        Ok(Self { capabilities, enabled })
    }

    /// Encode as a TLV body, appended to `out`.
    pub fn encode(&self, out: &mut Vec<u8>)
        ensures
            final(out)@ == old(out)@ + capabilities_body(*self),
    {
        push_u16(self.capabilities, out);
        push_u16(self.enabled, out);
        assert(out@ =~= old(out)@ + capabilities_body(*self));
    }

    /// True when `bit` (one of the associated constants) is enabled.
    pub fn is_enabled(&self, bit: u16) -> (r: bool)
        ensures
            r == (self.enabled & bit != 0),
    {
        self.enabled & bit != 0
    }
}

/// System Capabilities survive encoding and parsing unchanged.
pub proof fn lemma_capabilities_round_trip(c: SystemCapabilities)
    ensures
        capabilities_of(capabilities_body(c)) == Some(c),
{
    lemma_u16_be_round_trip(c.capabilities);
    lemma_u16_be_round_trip(c.enabled);
}

/// A body that parses as System Capabilities encodes back to exactly itself.
pub proof fn lemma_capabilities_parse_then_encode(body: Seq<u8>)
    requires
        capabilities_of(body) is Some,
    ensures
        capabilities_body(capabilities_of(body)->Some_0) == body,
{
    lemma_be_u16_bytes(body[0], body[1]);
    lemma_be_u16_bytes(body[2], body[3]);
    assert(seq![body[0], body[1]] + seq![body[2], body[3]] =~= body);
}

// ---------------------------------------------------------------------------
// Management address.
// ---------------------------------------------------------------------------
/// A Management Address as mathematics.
pub struct SpecManagementAddress {
    /// The management address itself.
    pub address: SpecNetworkAddress,
    /// Interface numbering subtype.
    pub interface_subtype: u8,
    /// The interface number.
    pub interface_number: u32,
    /// Object identifier bytes.
    pub oid: Seq<u8>,
}

/// Management Address (§8.5.9): how to reach the device's management plane,
/// plus which interface the address lives on.
#[derive(Debug, Clone, Copy, PartialEq, Eq)]
pub struct ManagementAddress<'a> {
    /// The management address itself.
    pub address: NetworkAddress<'a>,
    /// Interface numbering subtype: 1 unknown, 2 ifIndex, 3 system port.
    pub interface_subtype: u8,
    /// The interface number in the scheme above.
    pub interface_number: u32,
    /// Object identifier of the hardware/protocol entity, often empty.
    pub oid: &'a [u8],
}

impl<'a> View for ManagementAddress<'a> {
    type V = SpecManagementAddress;

    open spec fn view(&self) -> SpecManagementAddress {
        SpecManagementAddress {
            address: self.address@,
            interface_subtype: self.interface_subtype,
            interface_number: self.interface_number,
            oid: self.oid@,
        }
    }
}

/// The Management Address a TLV body holds, if any. Wire layout:
/// address-string length (covering family + address), family byte, address
/// bytes, interface subtype, 4-byte interface number, OID length, OID bytes.
/// Bytes after the OID are ignored.
pub open spec fn management_address_of(body: Seq<u8>) -> Option<SpecManagementAddress> {
    if body.len() == 0 {
        None
    } else {
        let addr_len = body[0] as int;
        let rest = body.drop_first();
        if addr_len > rest.len() {
            None
        } else {
            let addr = rest.take(addr_len);
            let rest = rest.skip(addr_len);
            match spec_tagged(addr) {
                None => None,
                Some((family, bytes)) => if rest.len() < 6 {
                    None
                } else {
                    let oid_len = rest[5] as int;
                    let tail = rest.skip(6);
                    if oid_len > tail.len() {
                        None
                    } else {
                        Some(
                            SpecManagementAddress {
                                address: SpecNetworkAddress { family, bytes },
                                interface_subtype: rest[0],
                                interface_number: be_u32(rest.subrange(1, 5)),
                                oid: tail.take(oid_len),
                            },
                        )
                    }
                },
            }
        }
    }
}

/// Encoding a Management Address as a TLV body: fails when the address
/// (with its family byte) or the OID exceeds its one-byte length field.
pub open spec fn management_address_body(m: SpecManagementAddress) -> Result<Seq<u8>, Error> {
    if m.address.bytes.len() + 1 > 255 {
        Err(Error::TooLong("management address"))
    } else if m.oid.len() > 255 {
        Err(Error::TooLong("management address oid"))
    } else {
        Ok(
            seq![(m.address.bytes.len() + 1) as u8, m.address.family] + m.address.bytes + seq![
                m.interface_subtype,
            ] + u32_be(m.interface_number) + seq![m.oid.len() as u8] + m.oid,
        )
    }
}

impl SpecManagementAddress {
    /// The Management Addresses a parse can produce: a non-empty address.
    pub open spec fn canonical(self) -> bool {
        self.address.bytes.len() > 0
    }
}

impl<'a> ManagementAddress<'a> {
    /// Parse a Management Address TLV body.
    ///
    /// Wire layout: address-string length (covering family + address), family
    /// byte, address bytes, interface subtype, 4-byte interface number, OID
    /// length, OID bytes.
    pub fn parse(body: &'a [u8]) -> (r: Result<Self, Error>)
        ensures
            match r {
                Ok(m) => management_address_of(body@) == Some(m@),
                Err(e) => management_address_of(body@) is None && e == Error::Malformed(
                    "management address",
                ),
            },
    {
        match Self::of(body) {
            Some(m) => Ok(m),
            None => Err(Error::Malformed("management address")),
        }
    }

    /// The Option-shaped parse; the public boundary attaches the error.
    fn of(body: &'a [u8]) -> (r: Option<Self>)
        ensures
            match r {
                Some(m) => management_address_of(body@) == Some(m@),
                None => management_address_of(body@) is None,
            },
    {
        if body.len() == 0 {
            return None;
        }
        let addr_len = body[0];
        let (_, rest) = body.split_at(1);
        assert(rest@ =~= body@.drop_first());
        let (addr, rest) = take(rest, addr_len as usize)?;
        // `tagged` also enforces addr_len >= 2: family byte + real address.
        let (family, bytes) = tagged(addr)?;
        // The fixed middle: subtype, 4 number bytes, OID length.
        if rest.len() < 6 {
            return None;
        }
        let interface_subtype = rest[0];
        let interface_number = u32_of(rest[1], rest[2], rest[3], rest[4]);
        let oid_len = rest[5];
        let (_, tail) = rest.split_at(6);
        assert(tail@ =~= rest@.skip(6));
        assert(rest@.subrange(1, 5) =~= seq![rest@[1], rest@[2], rest@[3], rest@[4]]);
        let (oid, _) = take(tail, oid_len as usize)?;
        Some(
            Self {
                address: NetworkAddress { family, bytes },
                interface_subtype,
                interface_number,
                oid,
            },
        )
    }

    /// Encode as a TLV body, appended to `out`. Fails, leaving `out` as it
    /// was, when the address or OID exceeds its one-byte length field.
    pub fn encode(&self, out: &mut Vec<u8>) -> (r: Result<(), Error>)
        ensures
            match r {
                Ok(_) => management_address_body(self@) is Ok && final(out)@ == old(out)@
                    + management_address_body(self@)->Ok_0,
                Err(e) => management_address_body(self@) == Err::<Seq<u8>, Error>(e)
                    && final(out)@ == old(out)@,
            },
    {
        let bytes = self.address.bytes;
        if bytes.len() > 254 {
            return Err(Error::TooLong("management address"));
        }
        if self.oid.len() > 255 {
            return Err(Error::TooLong("management address oid"));
        }
        let addr_len = (bytes.len() + 1) as u8;  // + family byte
        out.push(addr_len);
        out.push(self.address.family);
        append_bytes(out, bytes);
        out.push(self.interface_subtype);
        push_u32(self.interface_number, out);
        out.push(self.oid.len() as u8);
        append_bytes(out, self.oid);
        assert(out@ =~= old(out)@ + management_address_body(self@)->Ok_0);
        Ok(())
    }
}

/// A Management Address with a non-empty address, when it encodes at all,
/// survives encoding and parsing unchanged.
pub proof fn lemma_management_address_round_trip(m: SpecManagementAddress)
    requires
        m.canonical(),
        management_address_body(m) is Ok,
    ensures
        management_address_of(management_address_body(m)->Ok_0) == Some(m),
{
    let body = management_address_body(m)->Ok_0;
    let n = m.address.bytes.len() + 1int;
    let rest = body.drop_first();
    let addr = seq![m.address.family] + m.address.bytes;
    let mid = seq![m.interface_subtype] + u32_be(m.interface_number) + seq![m.oid.len() as u8];
    assert(rest =~= addr + mid + m.oid);
    assert(rest.take(n) =~= addr);
    let rest2 = rest.skip(n);
    assert(rest2 =~= mid + m.oid);
    assert(addr.drop_first() =~= m.address.bytes);
    assert(rest2.skip(6) =~= m.oid);
    assert(rest2.skip(6).take(m.oid.len() as int) =~= m.oid);
    assert(rest2.subrange(1, 5) =~= u32_be(m.interface_number));
    lemma_u32_be_round_trip(m.interface_number);
}

/// Whatever Management Address a body parses to has a non-empty address and
/// encodes back to a prefix of that body.
pub proof fn lemma_management_address_parse_then_encode(body: Seq<u8>)
    requires
        management_address_of(body) is Some,
    ensures
        management_address_of(body)->Some_0.canonical(),
        management_address_body(management_address_of(body)->Some_0) is Ok,
        management_address_body(management_address_of(body)->Some_0)->Ok_0.is_prefix_of(body),
{
    let m = management_address_of(body)->Some_0;
    let n = body[0] as int;
    let rest = body.drop_first();
    let addr = rest.take(n);
    let rest2 = rest.skip(n);
    let oid_len = rest2[5] as int;
    let enc = management_address_body(m)->Ok_0;
    let b = rest2.subrange(1, 5);
    assert(be_u32(b) == b[0] * 0x100_0000 + b[1] * 0x1_0000 + b[2] * 0x100 + b[3]) by (nonlinear_arith)
        requires
            0 <= b[0] < 256,
            0 <= b[1] < 256,
            0 <= b[2] < 256,
            0 <= b[3] < 256,
            be_u32(b) == (b[0] * 0x100_0000 + b[1] * 0x1_0000 + b[2] * 0x100 + b[3]) as u32,
    ;
    lemma_be_u32_bytes(b);
    assert(enc =~= body.take(enc.len() as int));
}

/// Writing out a u32 read from four bytes gives the four bytes.
proof fn lemma_be_u32_bytes(b: Seq<u8>)
    requires
        b.len() == 4,
    ensures
        u32_be(be_u32(b)) == b,
{
    let (b0, b1, b2, b3) = (b[0] as int, b[1] as int, b[2] as int, b[3] as int);
    let v = b0 * 0x100_0000 + b1 * 0x1_0000 + b2 * 0x100 + b3;
    assert(0 <= v < 0x1_0000_0000 && v / 0x100_0000 == b0 && (v / 0x1_0000) % 256 == b1 && (v
        / 0x100) % 256 == b2 && v % 256 == b3) by (nonlinear_arith)
        requires
            v == b0 * 0x100_0000 + b1 * 0x1_0000 + b2 * 0x100 + b3,
            0 <= b0 < 256,
            0 <= b1 < 256,
            0 <= b2 < 256,
            0 <= b3 < 256,
    ;
    assert(u32_be(be_u32(b)) =~= b);
}

// ---------------------------------------------------------------------------
// Organizationally specific TLVs.
// ---------------------------------------------------------------------------
/// An Organizationally Specific TLV as mathematics.
pub struct SpecOrgTlv {
    /// Organizationally unique identifier (three bytes).
    pub oui: Seq<u8>,
    /// TLV subtype within that organization's numbering.
    pub subtype: u8,
    /// The organizationally defined payload.
    pub info: Seq<u8>,
}

/// An Organizationally Specific TLV (§8.6): a three-byte OUI names the org
/// (e.g. `00-12-BB` LLDP-MED, `00-80-C2` IEEE 802.1), a subtype names the
/// TLV within it, and the payload stays raw for the caller to interpret.
#[derive(Debug, Clone, Copy, PartialEq, Eq)]
pub struct OrgTlv<'a> {
    /// Organizationally unique identifier.
    pub oui: [u8; 3],
    /// TLV subtype within that organization's numbering.
    pub subtype: u8,
    /// The organizationally defined payload.
    pub info: &'a [u8],
}

impl<'a> View for OrgTlv<'a> {
    type V = SpecOrgTlv;

    open spec fn view(&self) -> SpecOrgTlv {
        SpecOrgTlv { oui: self.oui@, subtype: self.subtype, info: self.info@ }
    }
}

/// The Organizationally Specific TLV a body holds: at least OUI + subtype.
pub open spec fn org_of(body: Seq<u8>) -> Option<SpecOrgTlv> {
    if body.len() >= 4 {
        Some(SpecOrgTlv { oui: body.take(3), subtype: body[3], info: body.skip(4) })
    } else {
        None
    }
}

/// The TLV body that encodes an Organizationally Specific TLV.
pub open spec fn org_body(o: SpecOrgTlv) -> Seq<u8> {
    o.oui + seq![o.subtype] + o.info
}

impl<'a> OrgTlv<'a> {
    /// Parse an Organizationally Specific TLV body (OUI + subtype + info).
    pub fn parse(body: &'a [u8]) -> (r: Result<Self, Error>)
        ensures
            match r {
                Ok(o) => org_of(body@) == Some(o@),
                Err(e) => org_of(body@) is None && e == Error::Malformed(
                    "organizationally specific tlv",
                ),
            },
    {
        if body.len() < 4 {
            return Err(Error::Malformed("organizationally specific tlv"));
        }
        let oui = [body[0], body[1], body[2]];
        let subtype = body[3];
        let (_, info) = body.split_at(4);
        assert(oui@ =~= body@.take(3));
        assert(info@ =~= body@.skip(4));
        Ok(Self { oui, subtype, info })
    }

    /// Encode as a TLV body, appended to `out`.
    pub fn encode(&self, out: &mut Vec<u8>)
        ensures
            final(out)@ == old(out)@ + org_body(self@),
    {
        append_bytes(out, self.oui.as_slice());
        out.push(self.subtype);
        append_bytes(out, self.info);
        assert(out@ =~= old(out)@ + org_body(self@));
    }
}

/// An Organizationally Specific TLV with a three-byte OUI survives encoding
/// and parsing unchanged.
pub proof fn lemma_org_round_trip(o: SpecOrgTlv)
    requires
        o.oui.len() == 3,
    ensures
        org_of(org_body(o)) == Some(o),
{
    let body = org_body(o);
    assert(body.take(3) =~= o.oui);
    assert(body.skip(4) =~= o.info);
}

/// A body that parses as an Organizationally Specific TLV encodes back to
/// exactly itself.
pub proof fn lemma_org_parse_then_encode(body: Seq<u8>)
    requires
        org_of(body) is Some,
    ensures
        org_body(org_of(body)->Some_0) == body,
        org_of(body)->Some_0.oui.len() == 3,
{
    assert(body.take(3) + seq![body[3]] + body.skip(4) =~= body);
}

} // verus!
