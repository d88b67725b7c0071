//! What each wire field means, stated in terms of the bytes themselves: the
//! IEEE 802.1AB numbering of subtypes and TLV types, big-endian integers, the
//! field layouts, and where each field of a data unit goes on the wire.
use crate::frame::lldpdu_payload;
use crate::pdu::{
    capabilities_entry, entries, fold_optional, management_entries, org_entries, parse_spec, preamble_entries,
    singleton_entries, take_optional, text_entry, to_bytes_spec, unknown_entries, SpecLldpdu,
};
use crate::round_trip::{lemma_built_walks, lemma_fold_fails_only_on_items, plain, preamble_ok};
use crate::tlv::lemma_error_only_last;
use crate::tlv::{as_items, tlv_header, tlv_items, TlvItem, MAX_VALUE_LEN};
use crate::text::{decimal, hex_byte, hex_joined};
use crate::types::{
    be_u16, be_u32, capabilities_body, capabilities_of, chassis_body, chassis_of,
    lemma_be_u16_bytes, lemma_chassis_parse_then_encode, lemma_port_parse_then_encode,
    management_address_body, management_address_of, org_body, org_of, port_body, port_of,
    u16_be, u32_be, SpecChassisId, SpecManagementAddress, SpecNetworkAddress, SpecOrgTlv,
    SpecPortId, SystemCapabilities,
};
use crate::Error;
use vstd::arithmetic::div_mod::lemma_fundamental_div_mod_converse;
use vstd::prelude::*;
use vstd::utf8::{decode_utf8, encode_utf8, valid_utf8};

verus! {

// ---------------------------------------------------------------------------
// Big-endian integers.
// ---------------------------------------------------------------------------
/// Two bytes read as a big-endian u16: the first is the high byte.
pub proof fn law_be_u16_value(hi: u8, lo: u8)
    ensures
        be_u16(hi, lo) as int == hi * 256 + lo,
{
    assert(0 <= hi * 256 + lo < 65536) by (nonlinear_arith)
        requires
            0 <= hi < 256,
            0 <= lo < 256,
    ;
}

/// The big-endian bytes of a u16 are two bytes, high byte first, that add
/// back up to it.
pub proof fn law_u16_be_value(v: u16)
    ensures
        u16_be(v).len() == 2,
        u16_be(v)[0] * 256 + u16_be(v)[1] == v,
{
    let hi = (v / 256) as u8;
    let lo = (v % 256) as u8;
    assert(hi * 256 + lo == v) by (nonlinear_arith)
        requires
            hi == v / 256,
            lo == v % 256,
    ;
}

/// Four bytes read as a big-endian u32: most significant byte first.
pub proof fn law_be_u32_value(b0: u8, b1: u8, b2: u8, b3: u8)
    ensures
        be_u32(seq![b0, b1, b2, b3]) as int == b0 * 0x100_0000 + b1 * 0x1_0000 + b2 * 0x100 + b3,
{
    assert(0 <= b0 * 0x100_0000 + b1 * 0x1_0000 + b2 * 0x100 + b3 < 0x1_0000_0000)
        by (nonlinear_arith)
        requires
            0 <= b0 < 256,
            0 <= b1 < 256,
            0 <= b2 < 256,
            0 <= b3 < 256,
    ;
}

/// The big-endian bytes of a u32 are four bytes, most significant first,
/// that add back up to it.
pub proof fn law_u32_be_value(v: u32)
    ensures
        u32_be(v).len() == 4,
        u32_be(v)[0] * 0x100_0000 + u32_be(v)[1] * 0x1_0000 + u32_be(v)[2] * 0x100 + u32_be(v)[3]
            == v,
{
    let b = u32_be(v);
    let (b0, b1, b2, b3) = (b[0] as int, b[1] as int, b[2] as int, b[3] as int);
    assert(b0 * 0x100_0000 + b1 * 0x1_0000 + b2 * 0x100 + b3 == v) by (nonlinear_arith)
        requires
            b0 == v / 0x100_0000,
            b1 == (v / 0x1_0000) % 256,
            b2 == (v / 0x100) % 256,
            b3 == v % 256,
            0 <= v < 0x1_0000_0000,
    ;
}

// ---------------------------------------------------------------------------
// Chassis ID and Port ID subtypes (802.1AB Tables 8-2 and 8-3).
// ---------------------------------------------------------------------------
/// Chassis ID subtypes: 1 chassis component, 2 interface alias, 3 port
/// component, 4 MAC address (exactly six bytes), 5 network address (family
/// byte, then address), 6 interface name, 7 locally assigned; any other
/// subtype is kept as is. A body needs a subtype and a non-empty value.
pub proof fn law_chassis_subtypes(subtype: u8, v: Seq<u8>)
    ensures
        v.len() == 0 ==> chassis_of(seq![subtype] + v) is None,
        v.len() > 0 ==> {
            let body = seq![subtype] + v;
            &&& subtype == 1 ==> chassis_of(body) == Some(SpecChassisId::ChassisComponent(v))
            &&& subtype == 2 ==> chassis_of(body) == Some(SpecChassisId::InterfaceAlias(v))
            &&& subtype == 3 ==> chassis_of(body) == Some(SpecChassisId::PortComponent(v))
            &&& subtype == 4 ==> (if v.len() == 6 {
                chassis_of(body) == Some(SpecChassisId::MacAddress(v))
            } else {
                chassis_of(body) is None
            })
            &&& subtype == 5 ==> (if v.len() >= 2 {
                chassis_of(body) == Some(
                    SpecChassisId::NetworkAddress(
                        SpecNetworkAddress { family: v[0], bytes: v.drop_first() },
                    ),
                )
            } else {
                chassis_of(body) is None
            })
            &&& subtype == 6 ==> chassis_of(body) == Some(SpecChassisId::InterfaceName(v))
            &&& subtype == 7 ==> chassis_of(body) == Some(SpecChassisId::Local(v))
            &&& (subtype == 0 || subtype > 7) ==> chassis_of(body) == Some(
                SpecChassisId::Other { subtype, value: v },
            )
        },
        chassis_of(seq![]) is None,
{
    let body = seq![subtype] + v;
    assert(body.drop_first() =~= v);
    assert(body[0] == subtype);
}

/// Encoding a Chassis ID writes its subtype number, then the identifier.
pub proof fn law_chassis_encoding(v: Seq<u8>, family: u8, subtype: u8)
    ensures
        chassis_body(SpecChassisId::ChassisComponent(v)) == seq![1u8] + v,
        chassis_body(SpecChassisId::InterfaceAlias(v)) == seq![2u8] + v,
        chassis_body(SpecChassisId::PortComponent(v)) == seq![3u8] + v,
        chassis_body(SpecChassisId::MacAddress(v)) == seq![4u8] + v,
        chassis_body(
            SpecChassisId::NetworkAddress(SpecNetworkAddress { family, bytes: v }),
        ) == seq![5u8, family] + v,
        chassis_body(SpecChassisId::InterfaceName(v)) == seq![6u8] + v,
        chassis_body(SpecChassisId::Local(v)) == seq![7u8] + v,
        chassis_body(SpecChassisId::Other { subtype, value: v }) == seq![subtype] + v,
{
}

/// Port ID subtypes: 1 interface alias, 2 port component, 3 MAC address
/// (exactly six bytes), 4 network address (family byte, then address),
/// 5 interface name, 6 agent circuit ID, 7 locally assigned; any other
/// subtype is kept as is. A body needs a subtype and a non-empty value.
pub proof fn law_port_subtypes(subtype: u8, v: Seq<u8>)
    ensures
        v.len() == 0 ==> port_of(seq![subtype] + v) is None,
        v.len() > 0 ==> {
            let body = seq![subtype] + v;
            &&& subtype == 1 ==> port_of(body) == Some(SpecPortId::InterfaceAlias(v))
            &&& subtype == 2 ==> port_of(body) == Some(SpecPortId::PortComponent(v))
            &&& subtype == 3 ==> (if v.len() == 6 {
                port_of(body) == Some(SpecPortId::MacAddress(v))
            } else {
                port_of(body) is None
            })
            &&& subtype == 4 ==> (if v.len() >= 2 {
                port_of(body) == Some(
                    SpecPortId::NetworkAddress(
                        SpecNetworkAddress { family: v[0], bytes: v.drop_first() },
                    ),
                )
            } else {
                port_of(body) is None
            })
            &&& subtype == 5 ==> port_of(body) == Some(SpecPortId::InterfaceName(v))
            &&& subtype == 6 ==> port_of(body) == Some(SpecPortId::AgentCircuitId(v))
            &&& subtype == 7 ==> port_of(body) == Some(SpecPortId::Local(v))
            &&& (subtype == 0 || subtype > 7) ==> port_of(body) == Some(
                SpecPortId::Other { subtype, value: v },
            )
        },
        port_of(seq![]) is None,
{
    let body = seq![subtype] + v;
    assert(body.drop_first() =~= v);
    assert(body[0] == subtype);
}

/// Encoding a Port ID writes its subtype number, then the identifier.
pub proof fn law_port_encoding(v: Seq<u8>, family: u8, subtype: u8)
    ensures
        port_body(SpecPortId::InterfaceAlias(v)) == seq![1u8] + v,
        port_body(SpecPortId::PortComponent(v)) == seq![2u8] + v,
        port_body(SpecPortId::MacAddress(v)) == seq![3u8] + v,
        port_body(SpecPortId::NetworkAddress(SpecNetworkAddress { family, bytes: v })) == seq![
            4u8,
            family,
        ] + v,
        port_body(SpecPortId::InterfaceName(v)) == seq![5u8] + v,
        port_body(SpecPortId::AgentCircuitId(v)) == seq![6u8] + v,
        port_body(SpecPortId::Local(v)) == seq![7u8] + v,
        port_body(SpecPortId::Other { subtype, value: v }) == seq![subtype] + v,
{
}

// ---------------------------------------------------------------------------
// System capabilities.
// ---------------------------------------------------------------------------
/// A System Capabilities body is exactly four bytes: the capabilities mask
/// (big-endian) first, then the enabled mask.
pub proof fn law_capabilities_layout(b: Seq<u8>)
    ensures
        b.len() != 4 ==> capabilities_of(b) is None,
        b.len() == 4 ==> capabilities_of(b) is Some && capabilities_of(b)->Some_0.capabilities as int
            == b[0] * 256 + b[1] && capabilities_of(b)->Some_0.enabled as int == b[2] * 256 + b[3],
{
    if b.len() == 4 {
        law_be_u16_value(b[0], b[1]);
        law_be_u16_value(b[2], b[3]);
    }
}

/// Encoding System Capabilities writes the capabilities mask, then the
/// enabled mask, each high byte first.
pub proof fn law_capabilities_encoding(c: SystemCapabilities)
    ensures
        capabilities_body(c).len() == 4,
        capabilities_body(c)[0] * 256 + capabilities_body(c)[1] == c.capabilities,
        capabilities_body(c)[2] * 256 + capabilities_body(c)[3] == c.enabled,
{
    law_u16_be_value(c.capabilities);
    law_u16_be_value(c.enabled);
}

// ---------------------------------------------------------------------------
// Management address.
// ---------------------------------------------------------------------------
/// A Management Address body is: address-string length n (family byte plus
/// address, at least 2), the family byte, n - 1 address bytes, the interface
/// subtype, the interface number as four big-endian bytes, the OID length,
/// and that many OID bytes; anything after is ignored.
pub proof fn law_management_address_layout(body: Seq<u8>)
    ensures
        management_address_of(body) is Some <==> {
            &&& body.len() >= 1
            &&& body[0] >= 2
            &&& body.len() >= 1 + body[0] + 6
            &&& body.len() >= 1 + body[0] + 6 + body[1 + body[0] + 5]
        },
        management_address_of(body) is Some ==> {
            let m = management_address_of(body)->Some_0;
            let k = 1 + body[0];
            &&& m.address.family == body[1]
            &&& m.address.bytes == body.subrange(2, k)
            &&& m.interface_subtype == body[k]
            &&& m.interface_number as int == body[k + 1] * 0x100_0000 + body[k + 2] * 0x1_0000
                + body[k + 3] * 0x100 + body[k + 4]
            &&& m.oid == body.subrange(k + 6, k + 6 + body[k + 5])
        },
{
    if body.len() >= 1 {
        let n = body[0] as int;
        let rest = body.drop_first();
        if n <= rest.len() {
            let addr = rest.take(n);
            let rest2 = rest.skip(n);
            if n >= 2 {
                assert(addr.drop_first() =~= body.subrange(2, 1 + n));
                assert(addr[0] == body[1]);
            }
            if rest2.len() >= 6 {
                let k = 1 + n;
                assert(rest2[0] == body[k]);
                assert(rest2[5] == body[k + 5]);
                assert(rest2.subrange(1, 5) =~= seq![body[k + 1], body[k + 2], body[k + 3], body[k + 4]]);
                law_be_u32_value(body[k + 1], body[k + 2], body[k + 3], body[k + 4]);
                let oid_len = rest2[5] as int;
                if oid_len <= rest2.skip(6).len() {
                    assert(rest2.skip(6).take(oid_len) =~= body.subrange(k + 6, k + 6 + oid_len));
                }
            }
        }
    }
}

/// Encoding a Management Address writes: address-string length (address
/// plus family byte), family, address, interface subtype, interface number
/// as four big-endian bytes, OID length, OID. It fails only when the address
/// string or the OID is longer than a one-byte length can say.
pub proof fn law_management_address_encoding(m: SpecManagementAddress)
    ensures
        management_address_body(m) is Ok <==> m.address.bytes.len() <= 254 && m.oid.len() <= 255,
        management_address_body(m) is Ok ==> {
            let b = management_address_body(m)->Ok_0;
            let a = m.address.bytes.len() as int;
            let k = 2 + a;
            &&& b.len() == 8 + a + m.oid.len()
            &&& b[0] == a + 1
            &&& b[1] == m.address.family
            &&& b.subrange(2, k) == m.address.bytes
            &&& b[k] == m.interface_subtype
            &&& b[k + 1] * 0x100_0000 + b[k + 2] * 0x1_0000 + b[k + 3] * 0x100 + b[k + 4]
                == m.interface_number
            &&& b[k + 5] == m.oid.len()
            &&& b.skip(k + 6) == m.oid
        },
{
    if management_address_body(m) is Ok {
        let b = management_address_body(m)->Ok_0;
        let a = m.address.bytes.len() as int;
        let k = 2 + a;
        law_u32_be_value(m.interface_number);
        let n = u32_be(m.interface_number);
        let head = seq![(a + 1) as u8, m.address.family];
        let mid = seq![m.interface_subtype];
        let tail = seq![m.oid.len() as u8];
        assert(b == head + m.address.bytes + mid + n + tail + m.oid);
        assert(b.len() == 8 + a + m.oid.len());
        assert(b[0] == a + 1);
        assert(b[1] == m.address.family);
        assert(b.subrange(2, k) =~= m.address.bytes);
        assert(b[k] == m.interface_subtype);
        assert(b[k + 1] == n[0] && b[k + 2] == n[1] && b[k + 3] == n[2] && b[k + 4] == n[3]);
        assert(b[k + 5] == m.oid.len());
        assert(b.skip(k + 6) =~= m.oid);
    }
}

// ---------------------------------------------------------------------------
// Organizationally specific TLVs.
// ---------------------------------------------------------------------------
/// An Organizationally Specific body is the three OUI bytes in wire order,
/// the subtype byte, then the payload; fewer than four bytes is malformed.
pub proof fn law_org_layout(body: Seq<u8>)
    ensures
        body.len() < 4 ==> org_of(body) is None,
        body.len() >= 4 ==> {
            let o = org_of(body)->Some_0;
            &&& org_of(body) is Some
            &&& o.oui.len() == 3
            &&& o.oui[0] == body[0]
            &&& o.oui[1] == body[1]
            &&& o.oui[2] == body[2]
            &&& o.subtype == body[3]
            &&& o.info == body.subrange(4, body.len() as int)
        },
{
    if body.len() >= 4 {
        assert(body.skip(4) =~= body.subrange(4, body.len() as int));
    }
}

/// Encoding an Organizationally Specific TLV writes the OUI bytes in order,
/// the subtype, then the payload.
pub proof fn law_org_encoding(o: SpecOrgTlv)
    requires
        o.oui.len() == 3,
    ensures
        org_body(o).len() == 4 + o.info.len(),
        org_body(o)[0] == o.oui[0],
        org_body(o)[1] == o.oui[1],
        org_body(o)[2] == o.oui[2],
        org_body(o)[3] == o.subtype,
        org_body(o).skip(4) == o.info,
{
    assert(org_body(o).skip(4) =~= o.info);
}


// ---------------------------------------------------------------------------
// The TLV header.
// ---------------------------------------------------------------------------
/// A TLV header is one big-endian 16-bit word: the type in the top 7 bits,
/// the value length in the low 9, so the longest value is 511 bytes.
pub proof fn law_tlv_header(ty: u8, len: int)
    requires
        ty < 128,
        0 <= len <= 511,
    ensures
        MAX_VALUE_LEN == 511,
        tlv_header(ty, len).len() == 2,
        tlv_header(ty, len)[0] * 256 + tlv_header(ty, len)[1] == ty * 512 + len,
{
    let h0 = ((ty * 2) % 256 + len / 256) as u8;
    let h1 = (len % 256) as u8;
    assert(h0 * 256 + h1 == ty * 512 + len) by (nonlinear_arith)
        requires
            h0 == (ty * 2) % 256 + len / 256,
            h1 == len % 256,
            ty < 128,
            0 <= len <= 511,
            0 <= ty,
    {
        assert((ty * 2) % 256 == ty * 2);
    }
}

/// How a walk reads the first TLV of a buffer: the first two bytes form the
/// header word (type = top 7 bits, length = low 9); type 0 with length 0 ends
/// the walk; a buffer too short for the header or the value yields one
/// `Truncated`; otherwise the TLV is yielded and the walk goes on after it.
pub proof fn law_walk_reads_header(buf: Seq<u8>)
    ensures
        buf.len() == 0 ==> tlv_items(buf) == Seq::<TlvItem>::empty(),
        buf.len() == 1 ==> tlv_items(buf) == seq![Err::<(u8, Seq<u8>), Error>(Error::Truncated)],
        buf.len() >= 2 ==> {
            let word = buf[0] * 256 + buf[1];
            let ty = word / 512;
            let len = word % 512;
            &&& ty == 0 && len == 0 ==> tlv_items(buf) == Seq::<TlvItem>::empty()
            &&& !(ty == 0 && len == 0) && buf.len() < 2 + len ==> tlv_items(buf) == seq![
                Err::<(u8, Seq<u8>), Error>(Error::Truncated),
            ]
            &&& !(ty == 0 && len == 0) && buf.len() >= 2 + len ==> {
                &&& tlv_items(buf)[0] == Ok::<(u8, Seq<u8>), Error>((ty as u8, buf.subrange(2, 2 + len)))
                &&& tlv_items(buf).drop_first() == tlv_items(buf.subrange(2 + len, buf.len() as int))
            }
        },
{
    if buf.len() >= 2 {
        let hi = buf[0] as int;
        let lo = buf[1] as int;
        let word = hi * 256 + lo;
        let q = hi / 2;
        let r = (hi % 2) * 256 + lo;
        assert(word == q * 512 + r) by (nonlinear_arith)
            requires
                word == hi * 256 + lo,
                q == hi / 2,
                r == (hi % 2) * 256 + lo,
                0 <= hi,
        ;
        lemma_fundamental_div_mod_converse(word, 512, q, r);
        let len = r;
        if !(q == 0 && len == 0) && buf.len() >= 2 + len {
            let rest = buf.subrange(2 + len, buf.len() as int);
            assert(tlv_items(buf) == seq![Ok::<(u8, Seq<u8>), Error>((q as u8, buf.subrange(2, 2 + len)))] + tlv_items(rest));
            assert(tlv_items(buf).drop_first() =~= tlv_items(rest));
        }
    }
}

// ---------------------------------------------------------------------------
// Frames.
// ---------------------------------------------------------------------------
/// Only the LLDP EtherType `88-CC` marks an LLDP frame: behind the two
/// addresses, any EtherType other than it and the 802.1Q tag `81-00` means
/// the frame is not LLDP.
pub proof fn law_only_lldp_ethertype(addresses: Seq<u8>, hi: u8, lo: u8, rest: Seq<u8>)
    requires
        addresses.len() == 12,
        !(hi == 0x88 && lo == 0xCC),
        !(hi == 0x81 && lo == 0x00),
    ensures
        lldpdu_payload(addresses + seq![hi, lo] + rest) is None,
{
    let frame = addresses + seq![hi, lo] + rest;
    assert(frame.skip(12) =~= seq![hi, lo] + rest);
    lemma_be_u16_bytes(hi, lo);
    assert(u16_be(0x88CC) =~= seq![0x88u8, 0xCCu8]);
    assert(u16_be(0x8100) =~= seq![0x81u8, 0x00u8]);
}

/// A frame too short to hold two addresses and an EtherType is not LLDP.
pub proof fn law_short_frame(frame: Seq<u8>)
    requires
        frame.len() < 14,
    ensures
        lldpdu_payload(frame) is None,
{
}

/// An 802.1Q TPID with no room left for its two TCI bytes means the frame is
/// not LLDP.
pub proof fn law_truncated_vlan_tag(addresses: Seq<u8>, rest: Seq<u8>)
    requires
        addresses.len() == 12,
        rest.len() < 2,
    ensures
        lldpdu_payload(addresses + seq![0x81u8, 0x00u8] + rest) is None,
{
    let frame = addresses + seq![0x81u8, 0x00u8] + rest;
    assert(frame.skip(12) =~= seq![0x81u8, 0x00u8] + rest);
    assert((seq![0x81u8, 0x00u8] + rest).skip(2) =~= rest);
    law_be_u16_value(0x81, 0x00);
}

// ---------------------------------------------------------------------------
// Where optional TLVs go.
// ---------------------------------------------------------------------------
/// Where an optional TLV of type `ty` goes: 4 port description, 5 system
/// name, 6 system description (each into its empty slot, when valid UTF-8),
/// 7 system capabilities (into its empty slot, when four bytes: capabilities
/// mask then enabled mask), 8 management addresses (appended, when the body
/// parses), 127 organizationally specific (appended, when at least four
/// bytes); anything else — a duplicate, a malformed body, another type — is
/// appended to `unknown`, and nothing else changes.
pub proof fn law_optional_destinations(s: SpecLldpdu, ty: u8, v: Seq<u8>)
    ensures
        ({
            let r = take_optional(s, (ty, v));
            let text = ty == 4 && s.port_description is None && valid_utf8(v);
            let name = ty == 5 && s.system_name is None && valid_utf8(v);
            let desc = ty == 6 && s.system_description is None && valid_utf8(v);
            let caps = ty == 7 && s.capabilities is None && v.len() == 4;
            let mgmt = ty == 8 && management_address_of(v) is Some;
            let org = ty == 127 && v.len() >= 4;
            &&& text ==> r == (SpecLldpdu { port_description: Some(decode_utf8(v)), ..s })
            &&& name ==> r == (SpecLldpdu { system_name: Some(decode_utf8(v)), ..s })
            &&& desc ==> r == (SpecLldpdu { system_description: Some(decode_utf8(v)), ..s })
            &&& caps ==> r == (SpecLldpdu {
                capabilities: Some(
                    SystemCapabilities {
                        capabilities: (v[0] * 256 + v[1]) as u16,
                        enabled: (v[2] * 256 + v[3]) as u16,
                    },
                ),
                ..s
            })
            &&& mgmt ==> r == (SpecLldpdu {
                management_addresses: s.management_addresses.push(
                    management_address_of(v)->Some_0,
                ),
                ..s
            })
            &&& org ==> r == (SpecLldpdu {
                org: s.org.push(
                    SpecOrgTlv {
                        oui: v.subrange(0, 3),
                        subtype: v[3],
                        info: v.subrange(4, v.len() as int),
                    },
                ),
                ..s
            })
            &&& !(text || name || desc || caps || mgmt || org) ==> r == (SpecLldpdu {
                unknown: s.unknown.push((ty, v)),
                ..s
            })
        }),
{
    law_capabilities_layout(v);
    law_be_u16_value(0, 0);
    if v.len() == 4 {
        let c = capabilities_of(v)->Some_0;
        assert(c.capabilities == (v[0] * 256 + v[1]) as u16);
        assert(c.enabled == (v[2] * 256 + v[3]) as u16);
    }
    if v.len() >= 4 {
        assert(v.take(3) =~= v.subrange(0, 3));
        assert(v.skip(4) =~= v.subrange(4, v.len() as int));
    }
}

// ---------------------------------------------------------------------------
// The preamble.
// ---------------------------------------------------------------------------
/// A parsed data unit comes from a walk that starts with a Chassis ID TLV
/// (type 1) carrying the encoding of its Chassis ID, a Port ID TLV (type 2)
/// carrying the encoding of its Port ID, and a TTL TLV (type 3) of two bytes
/// whose big-endian value is its TTL.
pub proof fn law_parsed_preamble(bytes: Seq<u8>)
    requires
        parse_spec(bytes) is Ok,
    ensures
        ({
            let items = tlv_items(bytes);
            let p = parse_spec(bytes)->Ok_0;
            &&& items.len() >= 3
            &&& items[0] == Ok::<(u8, Seq<u8>), Error>((1u8, chassis_body(p.chassis_id)))
            &&& items[1] == Ok::<(u8, Seq<u8>), Error>((2u8, port_body(p.port_id)))
            &&& items[2] is Ok
            &&& items[2]->Ok_0.0 == 3
            &&& items[2]->Ok_0.1.len() == 2
            &&& p.ttl == items[2]->Ok_0.1[0] * 256 + items[2]->Ok_0.1[1]
        }),
{
    let items = tlv_items(bytes);
    let cb = items[0]->Ok_0.1;
    let pb = items[1]->Ok_0.1;
    let tb = items[2]->Ok_0.1;
    lemma_chassis_parse_then_encode(cb);
    lemma_port_parse_then_encode(pb);
    law_be_u16_value(tb[0], tb[1]);
    crate::round_trip::lemma_parsed_is_from_preamble(bytes);
}

/// How a wrong preamble fails: no TLV at all is a missing Chassis ID; a
/// first TLV of another type is an unexpected one; a Chassis ID body that
/// doesn't parse is a malformed Chassis ID; then likewise for the Port ID
/// (type 2) and the TTL (type 3, exactly two bytes).
pub proof fn law_preamble_failures(bytes: Seq<u8>)
    ensures
        ({
            let items = tlv_items(bytes);
            let r = parse_spec(bytes);
            let t0 = items[0]->Ok_0;
            let t1 = items[1]->Ok_0;
            let t2 = items[2]->Ok_0;
            let chassis_ok = items.len() >= 1 && items[0] is Ok && t0.0 == 1 && chassis_of(t0.1) is Some;
            let port_ok = items.len() >= 2 && items[1] is Ok && t1.0 == 2 && port_of(t1.1) is Some;
            &&& items.len() == 0 ==> r == Err::<SpecLldpdu, Error>(
                Error::MissingMandatory("chassis id"),
            )
            &&& (items.len() >= 1 && items[0] is Ok && t0.0 != 1) ==> r == Err::<SpecLldpdu, Error>(
                Error::UnexpectedMandatory { expected: "chassis id", got: t0.0 },
            )
            &&& (items.len() >= 1 && items[0] is Ok && t0.0 == 1 && chassis_of(t0.1) is None) ==> r
                == Err::<SpecLldpdu, Error>(Error::Malformed("chassis id"))
            &&& (chassis_ok && items.len() == 1) ==> r == Err::<SpecLldpdu, Error>(
                Error::MissingMandatory("port id"),
            )
            &&& (chassis_ok && items.len() >= 2 && items[1] is Ok && t1.0 != 2) ==> r == Err::<
                SpecLldpdu,
                Error,
            >(Error::UnexpectedMandatory { expected: "port id", got: t1.0 })
            &&& (chassis_ok && items.len() >= 2 && items[1] is Ok && t1.0 == 2 && port_of(t1.1) is None)
                ==> r == Err::<SpecLldpdu, Error>(Error::Malformed("port id"))
            &&& (chassis_ok && port_ok && items.len() == 2) ==> r == Err::<SpecLldpdu, Error>(
                Error::MissingMandatory("ttl"),
            )
            &&& (chassis_ok && port_ok && items.len() >= 3 && items[2] is Ok && t2.0 != 3) ==> r
                == Err::<SpecLldpdu, Error>(Error::UnexpectedMandatory { expected: "ttl", got: t2.0 })
            &&& (chassis_ok && port_ok && items.len() >= 3 && items[2] is Ok && t2.0 == 3 && t2.1.len()
                != 2) ==> r == Err::<SpecLldpdu, Error>(Error::Malformed("ttl"))
        }),
{
}

proof fn lemma_fold_fails_on_error(s: SpecLldpdu, items: Seq<TlvItem>, j: int)
    requires
        0 <= j < items.len(),
        items[j] is Err,
    ensures
        fold_optional(s, items) is Err,
    decreases j,
{
    if j > 0 && items[0] is Ok {
        assert(items.drop_first()[j - 1] == items[j]);
        lemma_fold_fails_on_error(take_optional(s, items[0]->Ok_0), items.drop_first(), j - 1);
    }
}

/// Past a right preamble, a data unit fails to parse exactly when the walk
/// ends in a cut-short TLV, and then it fails with `Truncated`.
pub proof fn law_cut_short_fails(bytes: Seq<u8>)
    requires
        preamble_ok(bytes),
    ensures
        parse_spec(bytes) is Err <==> tlv_items(bytes).last() is Err,
        parse_spec(bytes) is Err ==> parse_spec(bytes) == Err::<SpecLldpdu, Error>(Error::Truncated),
{
    let items = tlv_items(bytes);
    let cb = items[0]->Ok_0.1;
    let pb = items[1]->Ok_0.1;
    let tb = items[2]->Ok_0.1;
    let s0 = SpecLldpdu::new(chassis_of(cb)->Some_0, port_of(pb)->Some_0, be_u16(tb[0], tb[1]));
    let rest = items.skip(3);
    assert(fold_optional(s0, rest) == parse_spec(bytes));
    if items.last() is Err {
        lemma_error_only_last(bytes, items.len() - 1);
        assert(rest[rest.len() - 1] == items.last());
        lemma_fold_fails_on_error(s0, rest, rest.len() - 1);
    }
    if parse_spec(bytes) is Err {
        lemma_fold_fails_only_on_items(s0, rest);
        let j = choose|j: int| 0 <= j < rest.len() && rest[j] == Err::<(u8, Seq<u8>), Error>(
            fold_optional(s0, rest)->Err_0,
        );
        assert(items[j + 3] == rest[j]);
        lemma_error_only_last(bytes, j + 3);
    }
}

// ---------------------------------------------------------------------------
// What building puts on the wire.
// ---------------------------------------------------------------------------
/// The bytes a canonical data unit builds walk as: Chassis ID (type 1),
/// Port ID (type 2), TTL (type 3, two big-endian bytes), then the port
/// description (4), system name (5) and system description (6) as UTF-8
/// when present, the capabilities (7: capabilities mask, then enabled mask,
/// big-endian) when present, every management address (8), every
/// organizationally specific TLV (127), and every unknown TLV verbatim —
/// followed by the End Of LLDPDU marker, after which any padding is ignored.
#[verifier::spinoff_prover]
#[verifier::rlimit(40)]
pub proof fn law_built_layout(p: SpecLldpdu, padding: Seq<u8>)
    requires
        p.canonical(),
        to_bytes_spec(p) is Ok,
    ensures
        tlv_items(to_bytes_spec(p)->Ok_0 + padding) == as_items(
            seq![
                (1u8, chassis_body(p.chassis_id)),
                (2u8, port_body(p.port_id)),
                (3u8, seq![(p.ttl / 256) as u8, (p.ttl % 256) as u8]),
            ] + (if p.port_description is Some {
                seq![(4u8, encode_utf8(p.port_description->Some_0))]
            } else {
                seq![]
            }) + (if p.system_name is Some {
                seq![(5u8, encode_utf8(p.system_name->Some_0))]
            } else {
                seq![]
            }) + (if p.system_description is Some {
                seq![(6u8, encode_utf8(p.system_description->Some_0))]
            } else {
                seq![]
            }) + (if p.capabilities is Some {
                seq![
                    (7u8, seq![
                        (p.capabilities->Some_0.capabilities / 256) as u8,
                        (p.capabilities->Some_0.capabilities % 256) as u8,
                        (p.capabilities->Some_0.enabled / 256) as u8,
                        (p.capabilities->Some_0.enabled % 256) as u8,
                    ]),
                ]
            } else {
                seq![]
            }) + p.management_addresses.map_values(
                |m: SpecManagementAddress| (8u8, management_address_body(m)->Ok_0),
            ) + p.org.map_values(|o: SpecOrgTlv| (127u8, org_body(o))) + p.unknown,
        ),
        to_bytes_spec(p)->Ok_0.subrange(
            to_bytes_spec(p)->Ok_0.len() - 2,
            to_bytes_spec(p)->Ok_0.len() as int,
        ) == seq![0u8, 0u8],
{
    lemma_built_walks(p, padding);
    let es = entries(p);
    let pre = seq![
        (1u8, chassis_body(p.chassis_id)),
        (2u8, port_body(p.port_id)),
        (3u8, seq![(p.ttl / 256) as u8, (p.ttl % 256) as u8]),
    ];
    let t1 = if p.port_description is Some {
        seq![(4u8, encode_utf8(p.port_description->Some_0))]
    } else {
        seq![]
    };
    let t2 = if p.system_name is Some {
        seq![(5u8, encode_utf8(p.system_name->Some_0))]
    } else {
        seq![]
    };
    let t3 = if p.system_description is Some {
        seq![(6u8, encode_utf8(p.system_description->Some_0))]
    } else {
        seq![]
    };
    let t4 = if p.capabilities is Some {
        seq![
            (7u8, seq![
                (p.capabilities->Some_0.capabilities / 256) as u8,
                (p.capabilities->Some_0.capabilities % 256) as u8,
                (p.capabilities->Some_0.enabled / 256) as u8,
                (p.capabilities->Some_0.enabled % 256) as u8,
            ]),
        ]
    } else {
        seq![]
    };
    let m = p.management_addresses.map_values(
        |m: SpecManagementAddress| (8u8, management_address_body(m)->Ok_0),
    );
    let o = p.org.map_values(|o: SpecOrgTlv| (127u8, org_body(o)));
    assert(plain(preamble_entries(p)) =~= pre);
    assert(plain(text_entry(4, p.port_description, "port description")) =~= t1);
    assert(plain(text_entry(5, p.system_name, "system name")) =~= t2);
    assert(plain(text_entry(6, p.system_description, "system description")) =~= t3);
    if p.capabilities is Some {
        assert(capabilities_body(p.capabilities->Some_0) =~= t4[0].1);
    }
    assert(plain(capabilities_entry(p.capabilities)) =~= t4);
    assert(plain(singleton_entries(p)) =~= t1 + t2 + t3 + t4);
    assert(plain(management_entries(p)) =~= m);
    assert(plain(org_entries(p)) =~= o);
    assert(plain(unknown_entries(p)) =~= p.unknown);
    assert(plain(es) =~= pre + (t1 + t2 + t3 + t4) + m + o + p.unknown);
    assert(plain(es) =~= pre + t1 + t2 + t3 + t4 + m + o + p.unknown);
    let bytes = to_bytes_spec(p)->Ok_0;
    assert(bytes.subrange(bytes.len() - 2, bytes.len() as int) =~= seq![0u8, 0u8]);
}


// ---------------------------------------------------------------------------
// Renderings.
// ---------------------------------------------------------------------------
/// A byte in decimal: one to three ASCII digits, no leading zero, whose place
/// values add up to the byte.
pub proof fn law_decimal_value(n: u8)
    ensures
        ({
            let d = decimal(n);
            &&& 1 <= d.len() <= 3
            &&& forall|i: int| 0 <= i < d.len() ==> 48 <= (#[trigger] d[i]) as int <= 57
            &&& d.len() > 1 ==> d[0] != '0'
            &&& d.len() == 1 ==> d[0] as int - 48 == n
            &&& d.len() == 2 ==> (d[0] as int - 48) * 10 + (d[1] as int - 48) == n
            &&& d.len() == 3 ==> (d[0] as int - 48) * 100 + (d[1] as int - 48) * 10 + (d[2] as int
                - 48) == n
        }),
{
}

/// A byte in hexadecimal: two lower-case digits (`0`-`9`, then `a`-`f` for
/// ten to fifteen), the high nibble first.
pub proof fn law_hex_byte_value(b: u8)
    ensures
        ({
            let h = hex_byte(b);
            let hi = (b / 16) as int;
            let lo = (b % 16) as int;
            &&& h.len() == 2
            &&& hi * 16 + lo == b
            &&& hi < 10 ==> h[0] as int == 48 + hi
            &&& hi >= 10 ==> h[0] as int == 97 + (hi - 10)
            &&& lo < 10 ==> h[1] as int == 48 + lo
            &&& lo >= 10 ==> h[1] as int == 97 + (lo - 10)
        }),
{
}

/// Colon-separated hexadecimal: byte `i` takes the two characters at `3i`
/// and `3i + 1`, a colon follows every byte but the last, and there is
/// nothing else.
pub proof fn law_hex_joined_layout(bytes: Seq<u8>)
    ensures
        bytes.len() == 0 ==> hex_joined(bytes).len() == 0,
        bytes.len() > 0 ==> hex_joined(bytes).len() == 3 * bytes.len() - 1,
        forall|i: int|
            0 <= i < bytes.len() ==> hex_joined(bytes).subrange(3 * i, 3 * i + 2) == hex_byte(
                #[trigger] bytes[i],
            ),
        forall|i: int|
            0 <= i < bytes.len() - 1 ==> hex_joined(bytes).subrange(3 * i, 3 * i + 3) == hex_byte(
                #[trigger] bytes[i],
            ).push(':'),
    decreases bytes.len(),
{
    if bytes.len() > 1 {
        let init = bytes.drop_last();
        law_hex_joined_layout(init);
        let h = hex_joined(bytes);
        let hi = hex_joined(init);
        assert(h == hi + seq![':'] + hex_byte(bytes.last()));
        assert forall|i: int| 0 <= i < bytes.len() implies h.subrange(3 * i, 3 * i + 2) == hex_byte(
            #[trigger] bytes[i],
        ) by {
            if i < bytes.len() - 1 {
                assert(init[i] == bytes[i]);
                assert(h.subrange(3 * i, 3 * i + 2) =~= hi.subrange(3 * i, 3 * i + 2));
            } else {
                assert(h.subrange(3 * i, 3 * i + 2) =~= hex_byte(bytes.last()));
            }
        }
        assert forall|i: int| 0 <= i < bytes.len() - 1 implies h.subrange(3 * i, 3 * i + 3)
            == hex_byte(#[trigger] bytes[i]).push(':') by {
            if i < bytes.len() - 2 {
                assert(init[i] == bytes[i]);
                assert(h.subrange(3 * i, 3 * i + 3) =~= hi.subrange(3 * i, 3 * i + 3));
            } else {
                assert(init[i] == bytes[i]);
                assert(hi.subrange(3 * i, 3 * i + 2) == hex_byte(bytes[i]));
                assert(h.subrange(3 * i, 3 * i + 3) =~= hi.subrange(3 * i, 3 * i + 2).push(':'));
            }
        }
    } else if bytes.len() == 1 {
        assert(hex_joined(bytes) == hex_byte(bytes[0]));
        assert(hex_joined(bytes).subrange(0, 2) =~= hex_byte(bytes[0]));
    }
}

} // verus!
