use lldpdu::frame;
use lldpdu::tlv::{self, RawTlv};
use lldpdu::{ChassisId, Error, Lldpdu, PortId, SystemCapabilities};

fn sample() -> Lldpdu<'static> {
    let mut pdu = Lldpdu::new(
        ChassisId::MacAddress([0x00, 0x1B, 0x21, 0x3C, 0x4D, 0x5E]),
        PortId::InterfaceName(b"Gi1/0/24"),
        120,
    );
    pdu.system_name = Some("core-sw-1");
    pdu.system_description = Some("Example OS 9.4, stack of 2");
    pdu.port_description = Some("uplink to idf-2");
    pdu.capabilities = Some(SystemCapabilities {
        capabilities: SystemCapabilities::BRIDGE | SystemCapabilities::ROUTER,
        enabled: SystemCapabilities::BRIDGE,
    });
    pdu
}

fn eth(ethertype_and_payload: &[u8]) -> Vec<u8> {
    let mut f = Vec::new();
    f.extend_from_slice(&frame::NEAREST_BRIDGE);
    f.extend_from_slice(&[2, 0, 0, 0, 0, 1]);
    f.extend_from_slice(ethertype_and_payload);
    f
}

#[test]
fn round_trips_losslessly() {
    let pdu = sample();
    let bytes = pdu.to_bytes().unwrap();
    assert_eq!(Lldpdu::parse(&bytes).unwrap(), pdu);
}

#[test]
fn minimal_mandatory_only_pdu_round_trips() {
    let pdu = Lldpdu::new(ChassisId::Local(b"c1"), PortId::Local(b"p1"), 120);
    let bytes = pdu.to_bytes().unwrap();
    assert_eq!(Lldpdu::parse(&bytes).unwrap(), pdu);
}

#[test]
fn parse_frame_from_untagged_ethernet() {
    let bytes = sample().to_bytes().unwrap();
    let frame = eth(&[0x88, 0xCC]);
    let mut frame = frame;
    frame.extend_from_slice(&bytes);
    assert_eq!(Lldpdu::parse_frame(&frame).unwrap(), sample());
}

#[test]
fn parse_frame_rejects_non_lldp() {
    assert_eq!(
        Lldpdu::parse_frame(&eth(&[0x08, 0x00, 0x45])),
        Err(Error::Malformed("ethernet frame"))
    );
}

#[test]
fn mandatory_preamble_is_enforced_in_order() {
    // A PDU that starts with System Name instead of Chassis ID.
    let mut bytes = Vec::new();
    tlv::encode(tlv::SYSTEM_NAME, b"sw", "n", &mut bytes).unwrap();
    assert_eq!(
        Lldpdu::parse(&bytes),
        Err(Error::UnexpectedMandatory {
            expected: "chassis id",
            got: tlv::SYSTEM_NAME,
        })
    );

    // Chassis and port present but swapped.
    let good = sample().to_bytes().unwrap();
    let chassis_len = 2 + 7; // header + subtype + mac
    let port_len = 2 + 9; // header + subtype + "Gi1/0/24"
    let mut swapped = Vec::new();
    swapped.extend_from_slice(&good[chassis_len..chassis_len + port_len]);
    swapped.extend_from_slice(&good[..chassis_len]);
    swapped.extend_from_slice(&good[chassis_len + port_len..]);
    assert_eq!(
        Lldpdu::parse(&swapped),
        Err(Error::UnexpectedMandatory {
            expected: "chassis id",
            got: tlv::PORT_ID,
        })
    );
}

/// Append one extra TLV to a sample PDU's bytes, before the End marker.
fn with_extra_tlv(ty: u8, value: &[u8]) -> Vec<u8> {
    let mut bytes = sample().to_bytes().unwrap();
    bytes.truncate(bytes.len() - 2); // drop End marker
    tlv::encode(ty, value, "extra", &mut bytes).unwrap();
    tlv::encode_end(&mut bytes);
    bytes
}

#[test]
fn duplicate_singleton_keeps_first_and_preserves_second() {
    let bytes = with_extra_tlv(tlv::SYSTEM_NAME, b"impostor");
    let parsed = Lldpdu::parse(&bytes).unwrap();
    assert_eq!(parsed.system_name, Some("core-sw-1"));
    // The duplicate isn't dropped: it survives in `unknown`, so
    // rebuilding reproduces everything the device sent.
    assert_eq!(
        parsed.unknown,
        [RawTlv {
            ty: tlv::SYSTEM_NAME,
            value: b"impostor"
        }]
    );
    let rebuilt = parsed.to_bytes().unwrap();
    assert_eq!(Lldpdu::parse(&rebuilt).unwrap(), parsed);
}

#[test]
fn duplicate_capabilities_keeps_first_and_preserves_second() {
    let mut caps_body = Vec::new();
    SystemCapabilities {
        capabilities: SystemCapabilities::ROUTER,
        enabled: SystemCapabilities::ROUTER,
    }
    .encode(&mut caps_body);
    let bytes = with_extra_tlv(tlv::SYSTEM_CAPABILITIES, &caps_body);
    let parsed = Lldpdu::parse(&bytes).unwrap();
    assert_eq!(
        parsed.capabilities,
        Some(SystemCapabilities {
            capabilities: SystemCapabilities::BRIDGE | SystemCapabilities::ROUTER,
            enabled: SystemCapabilities::BRIDGE,
        })
    );
    assert_eq!(
        parsed.unknown,
        [RawTlv {
            ty: tlv::SYSTEM_CAPABILITIES,
            value: &caps_body
        }]
    );
}

#[test]
fn invalid_utf8_text_is_preserved_not_fatal() {
    let mut pdu = sample();
    pdu.system_name = None;
    let mut bytes = pdu.to_bytes().unwrap();
    bytes.truncate(bytes.len() - 2);
    tlv::encode(tlv::SYSTEM_NAME, &[0xFF, 0xFE], "n", &mut bytes).unwrap();
    tlv::encode_end(&mut bytes);
    let parsed = Lldpdu::parse(&bytes).unwrap();
    assert_eq!(parsed.system_name, None);
    assert_eq!(
        parsed.unknown,
        [RawTlv {
            ty: tlv::SYSTEM_NAME,
            value: &[0xFF, 0xFE]
        }]
    );
}

#[test]
fn malformed_optional_body_is_preserved_not_fatal() {
    // A management address TLV whose body is garbage must not kill the
    // PDU — the neighbor's identity is still perfectly good.
    let bytes = with_extra_tlv(tlv::MANAGEMENT_ADDRESS, &[0xFF]);
    let parsed = Lldpdu::parse(&bytes).unwrap();
    assert_eq!(parsed.system_name, Some("core-sw-1"));
    assert!(parsed.management_addresses.is_empty());
    assert_eq!(
        parsed.unknown,
        [RawTlv {
            ty: tlv::MANAGEMENT_ADDRESS,
            value: &[0xFF]
        }]
    );
    let rebuilt = parsed.to_bytes().unwrap();
    assert_eq!(Lldpdu::parse(&rebuilt).unwrap(), parsed);
}

#[test]
fn unknown_tlvs_survive_a_round_trip() {
    let mut pdu = sample();
    pdu.unknown.push(RawTlv {
        ty: 9,
        value: b"\x01\x02",
    });
    let bytes = pdu.to_bytes().unwrap();
    assert_eq!(Lldpdu::parse(&bytes).unwrap(), pdu);
}

#[test]
fn truncated_pdu_never_panics_and_preamble_cuts_fail() {
    let bytes = sample().to_bytes().unwrap();
    let preamble = 9 + 11 + 4; // chassis + port + ttl TLVs incl. headers
    for cut in 0..bytes.len() {
        let parsed = Lldpdu::parse(&bytes[..cut]);
        if cut < preamble {
            // Inside the mandatory preamble every cut is fatal…
            assert!(parsed.is_err(), "cut={cut}");
        } else if let Err(e) = parsed {
            // …after it, a cut at a TLV boundary is a valid shorter PDU
            // and a cut inside a TLV is Truncated — nothing else.
            assert_eq!(e, Error::Truncated, "cut={cut}");
        }
    }
}

#[test]
fn shutdown_pdu_ttl_zero_parses() {
    let pdu = Lldpdu::new(ChassisId::Local(b"c1"), PortId::Local(b"p1"), 0);
    let bytes = pdu.to_bytes().unwrap();
    let parsed = Lldpdu::parse(&bytes).unwrap();
    assert_eq!(parsed.ttl, 0);
}
