//! Ethernet-level helpers: where LLDP lives on the wire.
//!
//! LLDP frames carry EtherType [`ETHERTYPE`] (`0x88CC`) and are sent to one
//! of three link-scoped group addresses, chosen by how far the announcement
//! should propagate (802.1AB §7.1): [`NEAREST_BRIDGE`] is what almost every
//! deployment uses.
//!
//! [`lldpdu_of`] walks past any number of 802.1Q VLAN tags (including Q-in-Q)
//! before reading the inner EtherType.
use crate::types::be_u16;
use vstd::prelude::*;

verus! {

/// The LLDP EtherType.
pub const ETHERTYPE: u16 = 0x88CC;

/// `01-80-C2-00-00-0E`: stopped by every bridge — the per-link scope that
/// ordinary LLDP deployments use.
pub const NEAREST_BRIDGE: [u8; 6] = [0x01, 0x80, 0xC2, 0x00, 0x00, 0x0E];

/// `01-80-C2-00-00-03`: forwarded by two-port MAC relays, stopped by bridges.
pub const NEAREST_NON_TPMR_BRIDGE: [u8; 6] = [0x01, 0x80, 0xC2, 0x00, 0x00, 0x03];

/// `01-80-C2-00-00-00`: forwarded by provider bridges — customer scope.
pub const NEAREST_CUSTOMER_BRIDGE: [u8; 6] = [0x01, 0x80, 0xC2, 0x00, 0x00, 0x00];

/// The 802.1Q VLAN tag protocol identifier.
pub const TPID_8021Q: u16 = 0x8100;

/// The LLDPDU after the EtherType field that starts `rest`: an LLDP EtherType
/// ends the search, an 802.1Q tag (TPID plus two TCI bytes) is stepped over,
/// anything else — or running out of bytes — means the frame is not LLDP.
pub open spec fn payload_after_tags(rest: Seq<u8>) -> Option<Seq<u8>>
    decreases rest.len(),
{
    if rest.len() < 2 {
        None
    } else {
        let ethertype = be_u16(rest[0], rest[1]);
        let payload = rest.skip(2);
        if ethertype == ETHERTYPE {
            Some(payload)
        } else if ethertype == TPID_8021Q {
            if payload.len() < 2 {
                None
            } else {
                payload_after_tags(payload.skip(2))
            }
        } else {
            None
        }
    }
}

/// The LLDPDU payload of a raw Ethernet frame: past destination (6) and
/// source (6) addresses and any VLAN tags; `None` when the frame isn't LLDP.
pub open spec fn lldpdu_payload(frame: Seq<u8>) -> Option<Seq<u8>> {
    if frame.len() < 12 {
        None
    } else {
        payload_after_tags(frame.skip(12))
    }
}

/// Locate the LLDPDU payload inside a raw Ethernet frame, or `None` when the
/// frame isn't LLDP. Steps over any number of 802.1Q VLAN tags (Q-in-Q
/// included) before checking the inner EtherType.
pub fn lldpdu_of(frame: &[u8]) -> (r: Option<&[u8]>)
    ensures
        match r {
            Some(payload) => lldpdu_payload(frame@) == Some(payload@),
            None => lldpdu_payload(frame@) is None,
        },
{
    // Destination (6) + source (6) already skipped ahead of the EtherType.
    if frame.len() < 12 {
        return None;
    }
    let (_, mut rest) = frame.split_at(12);
    assert(rest@ =~= frame@.skip(12));
    loop
        invariant
            payload_after_tags(rest@) == lldpdu_payload(frame@),
        decreases rest@.len(),
    {
        let (ethertype, payload) = match ethertype_of(rest) {
            Some(split) => split,
            None => return None,
        };
        if ethertype == ETHERTYPE {
            return Some(payload);
        } else if ethertype == TPID_8021Q {
            // Skip the TCI and peel another tag.
            if payload.len() < 2 {
                return None;
            }
            let (_, inner) = payload.split_at(2);
            assert(inner@ =~= payload@.skip(2));
            rest = inner;
        } else {
            return None;
        }
    }
}

/// Split a big-endian u16 off the front of `bytes`.
fn ethertype_of(bytes: &[u8]) -> (r: Option<(u16, &[u8])>)
    ensures
        bytes@.len() < 2 ==> r is None,
        bytes@.len() >= 2 ==> (r matches Some((v, rest)) && v == be_u16(bytes@[0], bytes@[1])
            && rest@ == bytes@.skip(2)),
{
    if bytes.len() < 2 {
        return None;
    }
    let v = (bytes[0] as u16) * 256 + bytes[1] as u16;
    let (_, rest) = bytes.split_at(2);
    assert(rest@ =~= bytes@.skip(2));
    Some((v, rest))
}

// ---------------------------------------------------------------------------
// Laws of frame dissection.
// ---------------------------------------------------------------------------
/// The payload found in a frame is a suffix of the frame.
pub proof fn lemma_payload_is_suffix(frame: Seq<u8>)
    requires
        lldpdu_payload(frame) is Some,
    ensures
        lldpdu_payload(frame)->Some_0.is_suffix_of(frame),
{
    lemma_tags_payload_is_suffix(frame.skip(12));
    let p = lldpdu_payload(frame)->Some_0;
    let s = frame.skip(12);
    assert(frame.subrange(frame.len() - p.len(), frame.len() as int) =~= s.subrange(
        s.len() - p.len(),
        s.len() as int,
    ));
}

proof fn lemma_tags_payload_is_suffix(rest: Seq<u8>)
    requires
        payload_after_tags(rest) is Some,
    ensures
        payload_after_tags(rest)->Some_0.is_suffix_of(rest),
    decreases rest.len(),
{
    let p = payload_after_tags(rest)->Some_0;
    if be_u16(rest[0], rest[1]) == ETHERTYPE {
        assert(rest.subrange(rest.len() - p.len(), rest.len() as int) =~= p);
    } else {
        let inner = rest.skip(2).skip(2);
        lemma_tags_payload_is_suffix(inner);
        assert(rest.subrange(rest.len() - p.len(), rest.len() as int) =~= inner.subrange(
            inner.len() - p.len(),
            inner.len() as int,
        ));
    }
}

/// Two addresses, the LLDP EtherType, then a payload: the payload is found.
pub proof fn lemma_untagged_frame(addresses: Seq<u8>, payload: Seq<u8>)
    requires
        addresses.len() == 12,
    ensures
        lldpdu_payload(addresses + seq![0x88u8, 0xCCu8] + payload) == Some(payload),
{
    let frame = addresses + seq![0x88u8, 0xCCu8] + payload;
    assert(frame.skip(12) =~= seq![0x88u8, 0xCCu8] + payload);
    assert(frame.skip(12).skip(2) =~= payload);
}

/// An 802.1Q tag (TPID `0x8100` plus two TCI bytes) between the addresses
/// and the rest of the frame changes nothing about the payload found.
pub proof fn lemma_vlan_tag_is_skipped(addresses: Seq<u8>, tci: Seq<u8>, rest: Seq<u8>)
    requires
        addresses.len() == 12,
        tci.len() == 2,
    ensures
        lldpdu_payload(addresses + seq![0x81u8, 0x00u8] + tci + rest) == lldpdu_payload(
            addresses + rest,
        ),
{
    let tagged = addresses + seq![0x81u8, 0x00u8] + tci + rest;
    assert(tagged.skip(12) =~= seq![0x81u8, 0x00u8] + tci + rest);
    assert(tagged.skip(12).skip(2).skip(2) =~= rest);
    assert((addresses + rest).skip(12) =~= rest);
}

} // verus!
