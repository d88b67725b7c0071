use lldpdu::{
    ChassisId, Error, IpOctets, ManagementAddress, NetworkAddress, OrgTlv, PortId,
    SystemCapabilities,
};

#[test]
fn chassis_id_mac_round_trips() {
    let id = ChassisId::MacAddress([0, 1, 2, 3, 4, 5]);
    let mut body = Vec::new();
    id.encode(&mut body);
    assert_eq!(ChassisId::parse(&body).unwrap(), id);
    assert_eq!(id.to_string(), "mac 00:01:02:03:04:05");
}

#[test]
fn chassis_id_rejects_short_mac_and_empty_value() {
    assert_eq!(
        ChassisId::parse(&[4, 0, 1, 2]),
        Err(Error::Malformed("chassis id"))
    );
    assert_eq!(ChassisId::parse(&[6]), Err(Error::Malformed("chassis id")));
    assert_eq!(ChassisId::parse(&[]), Err(Error::Malformed("chassis id")));
}

#[test]
fn unknown_subtype_is_preserved_not_rejected() {
    let id = ChassisId::parse(&[9, b'x']).unwrap();
    assert_eq!(
        id,
        ChassisId::Other {
            subtype: 9,
            value: b"x"
        }
    );
}

#[test]
fn network_address_ip_accessor() {
    let v4 = NetworkAddress {
        family: 1,
        bytes: &[10, 0, 0, 1],
    };
    assert_eq!(v4.ip(), Some(IpOctets::V4([10, 0, 0, 1])));
    let bad = NetworkAddress {
        family: 1,
        bytes: &[10, 0],
    };
    assert_eq!(bad.ip(), None);
}

#[test]
fn capabilities_round_trip_and_bits() {
    let caps = SystemCapabilities {
        capabilities: SystemCapabilities::BRIDGE | SystemCapabilities::ROUTER,
        enabled: SystemCapabilities::BRIDGE,
    };
    let mut body = Vec::new();
    caps.encode(&mut body);
    let parsed = SystemCapabilities::parse(&body).unwrap();
    assert_eq!(parsed, caps);
    assert!(parsed.is_enabled(SystemCapabilities::BRIDGE));
    assert!(!parsed.is_enabled(SystemCapabilities::ROUTER));
}

#[test]
fn management_address_round_trips() {
    let ma = ManagementAddress {
        address: NetworkAddress {
            family: 1,
            bytes: &[192, 168, 1, 1],
        },
        interface_subtype: 2,
        interface_number: 7,
        oid: b"",
    };
    let mut body = Vec::new();
    ma.encode(&mut body).unwrap();
    let parsed = ManagementAddress::parse(&body).unwrap();
    assert_eq!(parsed, ma);
    assert_eq!(parsed.address.ip(), Some(IpOctets::V4([192, 168, 1, 1])));
}

#[test]
fn management_address_rejects_truncation_everywhere() {
    let ma = ManagementAddress {
        address: NetworkAddress {
            family: 1,
            bytes: &[192, 168, 1, 1],
        },
        interface_subtype: 2,
        interface_number: 7,
        oid: b"oid",
    };
    let mut body = Vec::new();
    ma.encode(&mut body).unwrap();
    // Every proper prefix must fail cleanly, never panic.
    for cut in 0..body.len() {
        assert!(ManagementAddress::parse(&body[..cut]).is_err(), "cut={cut}");
    }
}

#[test]
fn org_tlv_round_trips() {
    let org = OrgTlv {
        oui: [0x00, 0x12, 0xBB],
        subtype: 1,
        info: b"\x00\x0f",
    };
    let mut body = Vec::new();
    org.encode(&mut body);
    assert_eq!(OrgTlv::parse(&body).unwrap(), org);
    assert!(OrgTlv::parse(&[0, 0x12]).is_err());
}

#[test]
fn port_id_display_formats_interface_name() {
    let id = PortId::InterfaceName(b"Gi1/0/24");
    assert_eq!(id.to_string(), "interface-name Gi1/0/24");
}
