//! Concrete instances of the library's laws, edge cases, and exact values.
use lldpdu::frame::lldpdu_of;
use lldpdu::tlv::{self, encode, encode_end, RawTlv, TlvIter};
use lldpdu::{
    ChassisId, Error, IpOctets, Lldpdu, ManagementAddress, NetworkAddress, OrgTlv, PortId,
    SystemCapabilities,
};

fn sample() -> Lldpdu<'static> {
    let mut pdu = Lldpdu::new(
        ChassisId::MacAddress([0x00, 0x1B, 0x21, 0x3C, 0x4D, 0x5E]),
        PortId::InterfaceName(b"Gi1/0/24"),
        120,
    );
    pdu.system_name = Some("core-sw-1");
    pdu.port_description = Some("uplink");
    pdu.capabilities = Some(SystemCapabilities {
        capabilities: SystemCapabilities::BRIDGE,
        enabled: SystemCapabilities::BRIDGE,
    });
    pdu.management_addresses.push(ManagementAddress {
        address: NetworkAddress {
            family: 1,
            bytes: &[10, 0, 0, 1],
        },
        interface_subtype: 2,
        interface_number: 0x0102_0304,
        oid: b"\x2b\x06",
    });
    pdu.org.push(OrgTlv {
        oui: [0x00, 0x80, 0xC2],
        subtype: 1,
        info: b"\x00\x64",
    });
    pdu.unknown.push(RawTlv {
        ty: 9,
        value: b"x",
    });
    pdu
}

fn preamble() -> Vec<u8> {
    let mut out = Vec::new();
    encode(tlv::CHASSIS_ID, &[7, b'c'], "chassis id", &mut out).unwrap();
    encode(tlv::PORT_ID, &[7, b'p'], "port id", &mut out).unwrap();
    encode(tlv::TTL, &[0, 30], "ttl", &mut out).unwrap();
    out
}

// --- Laws on concrete values -------------------------------------------

#[test]
fn built_pdu_parses_back_whatever_padding_follows() {
    let pdu = sample();
    let mut bytes = pdu.to_bytes().unwrap();
    bytes.extend_from_slice(&[0xAA, 0xBB, 0xCC]);
    assert_eq!(Lldpdu::parse(&bytes).unwrap(), pdu);
}

#[test]
fn parse_build_parse_reproduces_a_messy_pdu() {
    let mut bytes = preamble();
    encode(tlv::SYSTEM_NAME, &[0xFF], "n", &mut bytes).unwrap(); // not UTF-8
    encode(tlv::SYSTEM_NAME, b"sw", "n", &mut bytes).unwrap(); // folds
    encode(tlv::SYSTEM_NAME, b"again", "n", &mut bytes).unwrap(); // duplicate
    encode(tlv::SYSTEM_CAPABILITIES, &[1, 2, 3], "c", &mut bytes).unwrap(); // bad length
    encode(tlv::ORG_SPECIFIC, &[1, 2], "o", &mut bytes).unwrap(); // too short
    encode(0, b"z", "u", &mut bytes).unwrap(); // type 0 with a value
    encode_end(&mut bytes);
    let parsed = Lldpdu::parse(&bytes).unwrap();
    assert_eq!(parsed.system_name, Some("sw"));
    assert_eq!(parsed.unknown.len(), 5);
    let rebuilt = parsed.to_bytes().unwrap();
    assert_eq!(Lldpdu::parse(&rebuilt).unwrap(), parsed);
}

#[test]
fn every_optional_tlv_lands_somewhere() {
    let bytes = sample().to_bytes().unwrap();
    let parsed = Lldpdu::parse(&bytes).unwrap();
    // port description, system name, capabilities, 1 address, 1 org, 1 unknown
    let mut it = TlvIter::new(&bytes);
    let mut n = 0;
    while it.next().is_some() {
        n += 1;
    }
    assert_eq!(n, 3 + 6);
    assert_eq!(parsed.management_addresses.len(), 1);
    assert_eq!(parsed.org.len(), 1);
    assert_eq!(parsed.unknown.len(), 1);
}

#[test]
fn after_a_good_preamble_only_truncation_fails() {
    let mut bytes = preamble();
    bytes.extend_from_slice(&[0x0A, 0x09, b'a']); // system name claims 9 bytes
    assert_eq!(Lldpdu::parse(&bytes), Err(Error::Truncated));
}

#[test]
fn walk_yields_one_truncation_then_stops() {
    let buf = [0x0A, 0x01, b'a', 0x0A];
    let mut it = TlvIter::new(&buf);
    assert_eq!(it.next(), Some(Ok(RawTlv { ty: 5, value: b"a" })));
    assert_eq!(it.next(), Some(Err(Error::Truncated)));
    assert_eq!(it.next(), None);
    assert_eq!(it.next(), None);
}

#[test]
fn body_round_trips_port_network_address() {
    let id = PortId::NetworkAddress(NetworkAddress {
        family: 2,
        bytes: &[0xFE, 0x80],
    });
    let mut body = Vec::new();
    id.encode(&mut body);
    assert_eq!(body, vec![4, 2, 0xFE, 0x80]);
    assert_eq!(PortId::parse(&body).unwrap(), id);
}

#[test]
fn management_address_ignores_bytes_after_the_oid() {
    let body = [5, 1, 10, 0, 0, 1, 2, 0, 0, 0, 7, 0, 0xEE, 0xEE];
    let ma = ManagementAddress::parse(&body).unwrap();
    assert_eq!(ma.interface_number, 7);
    assert_eq!(ma.oid, b"");
    let mut again = Vec::new();
    ma.encode(&mut again).unwrap();
    assert_eq!(&again[..], &body[..12]);
}

#[test]
fn vlan_tags_are_stepped_over() {
    let mut f = vec![0u8; 12];
    f.extend_from_slice(&[0x81, 0x00, 0x0F, 0xFF, 0x81, 0x00, 0x00, 0x01, 0x81, 0x00, 0x00, 0x02]);
    f.extend_from_slice(&[0x88, 0xCC, 1, 2, 3]);
    assert_eq!(lldpdu_of(&f), Some(&[1, 2, 3][..]));
}

// --- Exact wire values ----------------------------------------------------

#[test]
fn header_packs_seven_type_bits_over_nine_length_bits() {
    let mut out = Vec::new();
    encode(127, &[1, 2, 3], "x", &mut out).unwrap();
    assert_eq!(out, vec![0xFE, 0x03, 1, 2, 3]);
    let mut out = Vec::new();
    encode(8, &[0u8; 300], "x", &mut out).unwrap();
    assert_eq!(&out[..2], &[0x11, 0x2C]);
}

#[test]
fn type_above_127_loses_its_top_bit() {
    let mut out = Vec::new();
    encode(0x81, b"", "x", &mut out).unwrap();
    assert_eq!(out, vec![0x02, 0x00]);
}

#[test]
fn end_marker_is_two_zero_bytes() {
    let mut out = vec![9];
    encode_end(&mut out);
    assert_eq!(out, vec![9, 0, 0]);
}

#[test]
fn ttl_and_numbers_are_big_endian() {
    let pdu = Lldpdu::new(ChassisId::Local(b"c"), PortId::Local(b"p"), 0x1234);
    let bytes = pdu.to_bytes().unwrap();
    assert_eq!(&bytes[8..12], &[0x06, 0x02, 0x12, 0x34]);
    let mut body = Vec::new();
    SystemCapabilities {
        capabilities: 0xABCD,
        enabled: 0x0102,
    }
    .encode(&mut body);
    assert_eq!(body, vec![0xAB, 0xCD, 0x01, 0x02]);
}

#[test]
fn type_zero_with_a_value_is_not_the_end_marker() {
    let buf = [0x00, 0x01, 0x55, 0x00, 0x00];
    let mut it = TlvIter::new(&buf);
    assert_eq!(it.next(), Some(Ok(RawTlv { ty: 0, value: &[0x55] })));
    assert_eq!(it.next(), None);
}

#[test]
fn empty_walk_yields_nothing() {
    assert_eq!(TlvIter::new(&[]).next(), None);
}

// --- Every error, with the input that gives it ----------------------------

#[test]
fn missing_mandatory_tlvs_are_named() {
    assert_eq!(Lldpdu::parse(&[]), Err(Error::MissingMandatory("chassis id")));
    assert_eq!(
        Lldpdu::parse(&[0, 0]),
        Err(Error::MissingMandatory("chassis id"))
    );
    let p = preamble();
    assert_eq!(
        Lldpdu::parse(&p[..4]),
        Err(Error::MissingMandatory("port id"))
    );
    assert_eq!(Lldpdu::parse(&p[..8]), Err(Error::MissingMandatory("ttl")));
}

#[test]
fn malformed_mandatory_bodies_are_named() {
    let mut bytes = Vec::new();
    encode(tlv::CHASSIS_ID, &[4, 1, 2], "c", &mut bytes).unwrap();
    assert_eq!(Lldpdu::parse(&bytes), Err(Error::Malformed("chassis id")));

    let mut bytes = Vec::new();
    encode(tlv::CHASSIS_ID, &[7, b'c'], "c", &mut bytes).unwrap();
    encode(tlv::PORT_ID, &[3, 1], "p", &mut bytes).unwrap();
    assert_eq!(Lldpdu::parse(&bytes), Err(Error::Malformed("port id")));

    let mut bytes = Vec::new();
    encode(tlv::CHASSIS_ID, &[7, b'c'], "c", &mut bytes).unwrap();
    encode(tlv::PORT_ID, &[7, b'p'], "p", &mut bytes).unwrap();
    encode(tlv::TTL, &[1, 2, 3], "t", &mut bytes).unwrap();
    assert_eq!(Lldpdu::parse(&bytes), Err(Error::Malformed("ttl")));
}

#[test]
fn malformed_bodies_name_their_field() {
    assert_eq!(
        SystemCapabilities::parse(&[1, 2, 3]),
        Err(Error::Malformed("system capabilities"))
    );
    assert_eq!(
        ManagementAddress::parse(&[1, 1]),
        Err(Error::Malformed("management address"))
    );
    assert_eq!(
        OrgTlv::parse(&[0, 0x12, 0xBB]),
        Err(Error::Malformed("organizationally specific tlv"))
    );
    assert_eq!(PortId::parse(&[3, 1, 2]), Err(Error::Malformed("port id")));
}

#[test]
fn unexpected_mandatory_names_what_was_found() {
    let mut bytes = Vec::new();
    encode(tlv::CHASSIS_ID, &[7, b'c'], "c", &mut bytes).unwrap();
    encode(tlv::TTL, &[0, 1], "t", &mut bytes).unwrap();
    assert_eq!(
        Lldpdu::parse(&bytes),
        Err(Error::UnexpectedMandatory {
            expected: "port id",
            got: tlv::TTL
        })
    );
}

#[test]
fn oversized_values_are_too_long_to_build() {
    let long = [b'x'; 511];
    let pdu = Lldpdu::new(ChassisId::Local(&long), PortId::Local(b"p"), 1);
    assert_eq!(pdu.to_bytes(), Err(Error::TooLong("chassis id")));

    let mut pdu = Lldpdu::new(ChassisId::Local(b"c"), PortId::Local(b"p"), 1);
    pdu.unknown.push(RawTlv {
        ty: 9,
        value: &[0u8; 512],
    });
    assert_eq!(pdu.to_bytes(), Err(Error::TooLong("unknown tlv")));

    let addr = [0u8; 255];
    let ma = ManagementAddress {
        address: NetworkAddress {
            family: 1,
            bytes: &addr,
        },
        interface_subtype: 1,
        interface_number: 0,
        oid: b"",
    };
    let mut out = vec![1];
    assert_eq!(
        ma.encode(&mut out),
        Err(Error::TooLong("management address"))
    );
    assert_eq!(out, vec![1]);

    let oid = [0u8; 256];
    let ma = ManagementAddress {
        address: NetworkAddress {
            family: 1,
            bytes: &[1],
        },
        interface_subtype: 1,
        interface_number: 0,
        oid: &oid,
    };
    assert_eq!(
        ma.encode(&mut Vec::new()),
        Err(Error::TooLong("management address oid"))
    );
}

// --- Text renderings --------------------------------------------------------

#[test]
fn identifiers_render_as_text_or_hex() {
    let id = ChassisId::NetworkAddress(NetworkAddress {
        family: 1,
        bytes: &[0xC0, 0xA8],
    });
    assert_eq!(id.to_string(), "network-address(1) c0:a8");
    let other = ChassisId::Other {
        subtype: 200,
        value: b"x",
    };
    assert_eq!(other.to_string(), "other(200) x");
    let port = PortId::AgentCircuitId(&[0xFF]);
    assert_eq!(port.to_string(), "agent-circuit-id ff");
    let mac = PortId::MacAddress([0xAB, 0xCD, 0xEF, 0x01, 0x23, 0x45]);
    assert_eq!(mac.to_string(), "mac ab:cd:ef:01:23:45");
    let local = ChassisId::Local("sw-é".as_bytes());
    assert_eq!(local.to_string(), "local sw-é");
}

#[test]
fn errors_render_as_messages() {
    assert_eq!(Error::Truncated.to_string(), "truncated LLDPDU");
    assert_eq!(Error::Malformed("ttl").to_string(), "malformed ttl");
    assert_eq!(
        Error::MissingMandatory("port id").to_string(),
        "missing mandatory port id"
    );
    assert_eq!(
        Error::UnexpectedMandatory {
            expected: "chassis id",
            got: 42
        }
        .to_string(),
        "expected mandatory chassis id, got tlv type 42"
    );
    assert_eq!(
        Error::TooLong("system name").to_string(),
        "system name too long to encode"
    );
}

// --- Accessors --------------------------------------------------------------

#[test]
fn ip_octets_by_family_and_length() {
    let v6 = [0u8; 16];
    let a = NetworkAddress {
        family: 2,
        bytes: &v6,
    };
    assert_eq!(a.ip(), Some(IpOctets::V6(v6)));
    let short_v6 = NetworkAddress {
        family: 2,
        bytes: &[1, 2, 3, 4],
    };
    assert_eq!(short_v6.ip(), None);
    let other = NetworkAddress {
        family: 6,
        bytes: &[1, 2, 3, 4],
    };
    assert_eq!(other.ip(), None);
}

#[test]
fn capability_bits_test_the_enabled_mask() {
    let caps = SystemCapabilities {
        capabilities: 0xFFFF,
        enabled: SystemCapabilities::TELEPHONE | SystemCapabilities::TPMR,
    };
    assert!(caps.is_enabled(SystemCapabilities::TELEPHONE));
    assert!(caps.is_enabled(SystemCapabilities::TPMR));
    assert!(!caps.is_enabled(SystemCapabilities::OTHER));
    assert!(caps.is_enabled(SystemCapabilities::TPMR | SystemCapabilities::OTHER));
}

#[test]
fn parse_frame_reads_a_tagged_frame() {
    let bytes = sample().to_bytes().unwrap();
    let mut f = vec![0u8; 12];
    f.extend_from_slice(&[0x81, 0x00, 0x00, 0x64, 0x88, 0xCC]);
    f.extend_from_slice(&bytes);
    assert_eq!(Lldpdu::parse_frame(&f).unwrap(), sample());
    assert_eq!(
        Lldpdu::parse_frame(&f[..13]),
        Err(Error::Malformed("ethernet frame"))
    );
}
