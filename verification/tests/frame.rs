use lldpdu::frame::{lldpdu_of, ETHERTYPE, NEAREST_BRIDGE};

fn eth(ethertype_and_payload: &[u8]) -> Vec<u8> {
    let mut f = Vec::new();
    f.extend_from_slice(&NEAREST_BRIDGE);
    f.extend_from_slice(&[2, 0, 0, 0, 0, 1]);
    f.extend_from_slice(ethertype_and_payload);
    f
}

#[test]
fn untagged_lldp_frame_yields_payload() {
    let f = eth(&[0x88, 0xCC, 0xAA, 0xBB]);
    assert_eq!(lldpdu_of(&f), Some(&[0xAA, 0xBB][..]));
}

#[test]
fn vlan_tagged_lldp_frame_yields_payload() {
    // 802.1Q tag: TPID 0x8100, TCI 0x0064 (VLAN 100), then LLDP.
    let f = eth(&[0x81, 0x00, 0x00, 0x64, 0x88, 0xCC, 0xAA]);
    assert_eq!(lldpdu_of(&f), Some(&[0xAA][..]));
}

#[test]
fn q_in_q_tagged_lldp_frame_yields_payload() {
    // Outer tag (VLAN 100), inner tag (VLAN 200), then LLDP.
    let f = eth(&[
        0x81, 0x00, 0x00, 0x64, 0x81, 0x00, 0x00, 0xC8, 0x88, 0xCC, 0xAA,
    ]);
    assert_eq!(lldpdu_of(&f), Some(&[0xAA][..]));
}

#[test]
fn non_lldp_and_short_frames_yield_none() {
    assert_eq!(lldpdu_of(&eth(&[0x08, 0x00, 0x45])), None); // IPv4
    assert_eq!(lldpdu_of(&[0x01, 0x80]), None); // runt
    assert_eq!(lldpdu_of(&eth(&[0x81, 0x00, 0x00])), None); // cut tag
}

#[test]
fn ethertype_constant_builds_a_findable_frame() {
    let mut f = Vec::new();
    f.extend_from_slice(&NEAREST_BRIDGE);
    f.extend_from_slice(&[2, 0, 0, 0, 0, 1]);
    f.extend_from_slice(&ETHERTYPE.to_be_bytes());
    f.extend_from_slice(&[0x02, 0x01, 0x07]);
    assert_eq!(lldpdu_of(&f), Some(&[0x02, 0x01, 0x07][..]));
}

#[test]
fn empty_payload_after_ethertype_is_found() {
    assert_eq!(lldpdu_of(&eth(&[0x88, 0xCC])), Some(&[][..]));
}

#[test]
fn tag_without_inner_ethertype_yields_none() {
    assert_eq!(lldpdu_of(&eth(&[0x81, 0x00, 0x00, 0x64])), None);
}
