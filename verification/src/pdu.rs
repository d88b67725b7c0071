//! A whole LLDP data unit: [`Lldpdu::parse`] from bytes, [`Lldpdu::to_bytes`]
//! back to the wire.
use crate::frame;
use crate::text::{lemma_decoded_text, str_from_utf8};
use crate::tlv::{
    self, end_marker, tlv_items, tlv_wire, walkable, RawTlv, TlvItem, TlvIter, MAX_VALUE_LEN,
};
use crate::types::{
    be_u16, capabilities_body, capabilities_of, chassis_body, chassis_of, management_address_body,
    management_address_of, org_body, org_of, port_body, port_of, u16_be, u16_bytes, ChassisId,
    ManagementAddress, OrgTlv, PortId, SpecChassisId, SpecManagementAddress, SpecOrgTlv,
    SpecPortId, SystemCapabilities,
};
use crate::Error;
use vstd::prelude::*;
use vstd::utf8::{decode_utf8, encode_utf8, valid_utf8};

verus! {

// ---------------------------------------------------------------------------
// The data unit, as mathematics.
// ---------------------------------------------------------------------------
/// An LLDP data unit as mathematics: text fields as characters, repeated
/// TLVs as sequences, unknown TLVs as (type, value).
pub struct SpecLldpdu {
    /// Chassis ID.
    pub chassis_id: SpecChassisId,
    /// Port ID.
    pub port_id: SpecPortId,
    /// Time to live, in seconds.
    pub ttl: u16,
    /// Port Description text.
    pub port_description: Option<Seq<char>>,
    /// System Name text.
    pub system_name: Option<Seq<char>>,
    /// System Description text.
    pub system_description: Option<Seq<char>>,
    /// System Capabilities.
    pub capabilities: Option<SystemCapabilities>,
    /// Management Addresses, in order.
    pub management_addresses: Seq<SpecManagementAddress>,
    /// Organizationally Specific TLVs, in order.
    pub org: Seq<SpecOrgTlv>,
    /// Unknown TLVs as (type, value), in order.
    pub unknown: Seq<(u8, Seq<u8>)>,
}

impl SpecLldpdu {
    /// A data unit with the three mandatory TLVs and nothing else.
    pub open spec fn new(chassis_id: SpecChassisId, port_id: SpecPortId, ttl: u16) -> SpecLldpdu {
        SpecLldpdu {
            chassis_id,
            port_id,
            ttl,
            port_description: None,
            system_name: None,
            system_description: None,
            capabilities: None,
            management_addresses: seq![],
            org: seq![],
            unknown: seq![],
        }
    }
}

impl SpecLldpdu {
    /// The data units a parse can produce: canonical identifiers, non-empty
    /// management addresses, three-byte OUIs, and unknown TLVs that a walk
    /// yields back and that would not fold into this data unit's fields.
    pub open spec fn canonical(self) -> bool {
        &&& self.chassis_id.canonical()
        &&& self.port_id.canonical()
        &&& forall|i: int|
            0 <= i < self.management_addresses.len() ==> #[trigger] self.management_addresses[i].canonical()
        &&& forall|i: int| 0 <= i < self.org.len() ==> #[trigger] self.org[i].oui.len() == 3
        &&& forall|i: int|
            0 <= i < self.unknown.len() ==> walkable(#[trigger] self.unknown[i].0, self.unknown[i].1)
                && !folds_into(self, self.unknown[i].0, self.unknown[i].1)
    }
}

/// The text of an optional text field.
pub open spec fn text_view(t: Option<&str>) -> Option<Seq<char>> {
    match t {
        Some(s) => Some(s@),
        None => None,
    }
}

/// Whether the TLV (`ty`, `value`) folds into a typed field of `pdu`: a text
/// TLV into its empty slot when it is valid UTF-8, capabilities into their
/// empty slot when the body parses, management addresses and organizationally
/// specific TLVs whenever their body parses.
pub open spec fn folds_into(pdu: SpecLldpdu, ty: u8, value: Seq<u8>) -> bool {
    ||| ty == tlv::PORT_DESCRIPTION && pdu.port_description is None && valid_utf8(value)
    ||| ty == tlv::SYSTEM_NAME && pdu.system_name is None && valid_utf8(value)
    ||| ty == tlv::SYSTEM_DESCRIPTION && pdu.system_description is None && valid_utf8(value)
    ||| ty == tlv::SYSTEM_CAPABILITIES && pdu.capabilities is None && capabilities_of(value) is Some
    ||| ty == tlv::MANAGEMENT_ADDRESS && management_address_of(value) is Some
    ||| ty == tlv::ORG_SPECIFIC && org_of(value) is Some
}

/// One optional TLV taken into a data unit: folded into its typed field, or
/// else preserved verbatim in `unknown`.
pub open spec fn take_optional(pdu: SpecLldpdu, tlv: (u8, Seq<u8>)) -> SpecLldpdu {
    let (ty, value) = tlv;
    if ty == tlv::PORT_DESCRIPTION && pdu.port_description is None && valid_utf8(value) {
        SpecLldpdu { port_description: Some(decode_utf8(value)), ..pdu }
    } else if ty == tlv::SYSTEM_NAME && pdu.system_name is None && valid_utf8(value) {
        SpecLldpdu { system_name: Some(decode_utf8(value)), ..pdu }
    } else if ty == tlv::SYSTEM_DESCRIPTION && pdu.system_description is None && valid_utf8(
        value,
    ) {
        SpecLldpdu { system_description: Some(decode_utf8(value)), ..pdu }
    } else if ty == tlv::SYSTEM_CAPABILITIES && pdu.capabilities is None && capabilities_of(
        value,
    ) is Some {
        SpecLldpdu { capabilities: capabilities_of(value), ..pdu }
    } else if ty == tlv::MANAGEMENT_ADDRESS && management_address_of(value) is Some {
        SpecLldpdu {
            management_addresses: pdu.management_addresses.push(
                management_address_of(value)->Some_0,
            ),
            ..pdu
        }
    } else if ty == tlv::ORG_SPECIFIC && org_of(value) is Some {
        SpecLldpdu { org: pdu.org.push(org_of(value)->Some_0), ..pdu }
    } else {
        SpecLldpdu { unknown: pdu.unknown.push(tlv), ..pdu }
    }
}

/// Take every remaining walk item into `pdu`, in order; the first error
/// item (a truncation) fails the whole data unit.
pub open spec fn fold_optional(pdu: SpecLldpdu, items: Seq<TlvItem>) -> Result<SpecLldpdu, Error>
    decreases items.len(),
{
    if items.len() == 0 {
        Ok(pdu)
    } else {
        match items[0] {
            Err(e) => Err(e),
            Ok(t) => fold_optional(take_optional(pdu, t), items.drop_first()),
        }
    }
}

/// The body of the mandatory TLV expected at position `i` of a walk: it must
/// be there and carry type `expected`; `what` names it in the error.
pub open spec fn mandatory_item(items: Seq<TlvItem>, i: int, expected: u8, what: &'static str) -> Result<Seq<u8>, Error> {
    if i >= items.len() {
        Err(Error::MissingMandatory(what))
    } else {
        match items[i] {
            Ok((ty, value)) => if ty == expected {
                Ok(value)
            } else {
                Err(Error::UnexpectedMandatory { expected: what, got: ty })
            },
            Err(e) => Err(e),
        }
    }
}

/// What parsing an LLDPDU payload gives: the mandatory preamble (Chassis ID,
/// Port ID, TTL, in that order, each with a well-formed body) and then every
/// other TLV folded in by [`take_optional`].
pub open spec fn parse_spec(bytes: Seq<u8>) -> Result<SpecLldpdu, Error> {
    let items = tlv_items(bytes);
    match mandatory_item(items, 0, tlv::CHASSIS_ID, "chassis id") {
        Err(e) => Err(e),
        Ok(chassis_body) => match chassis_of(chassis_body) {
            None => Err(Error::Malformed("chassis id")),
            Some(chassis_id) => match mandatory_item(items, 1, tlv::PORT_ID, "port id") {
                Err(e) => Err(e),
                Ok(port_body) => match port_of(port_body) {
                    None => Err(Error::Malformed("port id")),
                    Some(port_id) => match mandatory_item(items, 2, tlv::TTL, "ttl") {
                        Err(e) => Err(e),
                        Ok(ttl_body) => if ttl_body.len() != 2 {
                            Err(Error::Malformed("ttl"))
                        } else {
                            fold_optional(
                                SpecLldpdu::new(
                                    chassis_id,
                                    port_id,
                                    be_u16(ttl_body[0], ttl_body[1]),
                                ),
                                items.skip(3),
                            )
                        },
                    },
                },
            },
        },
    }
}

// ---------------------------------------------------------------------------
// Building, as mathematics.
// ---------------------------------------------------------------------------
/// One TLV to emit: its type, its body (or the error building the body
/// failed with), and the name its length error carries.
pub struct Emit {
    /// TLV type.
    pub ty: u8,
    /// The body, or why it could not be built.
    pub body: Result<Seq<u8>, Error>,
    /// The name a length error carries.
    pub what: &'static str,
}

/// Emit one more TLV after what has been emitted so far: an earlier failure
/// stands, a failed body fails, a body over 511 bytes fails as `TooLong`.
pub open spec fn emit_step(so_far: Result<Seq<u8>, Error>, e: Emit) -> Result<Seq<u8>, Error> {
    match so_far {
        Err(err) => Err(err),
        Ok(bytes) => match e.body {
            Err(err) => Err(err),
            Ok(body) => if body.len() > MAX_VALUE_LEN {
                Err(Error::TooLong(e.what))
            } else {
                Ok(bytes + tlv_wire(e.ty, body))
            },
        },
    }
}

/// Emit a list of TLVs in order after what has been emitted so far.
pub open spec fn emit_from(so_far: Result<Seq<u8>, Error>, es: Seq<Emit>) -> Result<Seq<u8>, Error>
    decreases es.len(),
{
    if es.len() == 0 {
        so_far
    } else {
        emit_step(emit_from(so_far, es.drop_last()), es.last())
    }
}

/// The entry for an optional text TLV: its UTF-8 bytes, when present.
pub open spec fn text_entry(ty: u8, text: Option<Seq<char>>, what: &'static str) -> Seq<Emit> {
    match text {
        Some(t) => seq![Emit { ty, body: Ok(encode_utf8(t)), what }],
        None => seq![],
    }
}

/// The entry for System Capabilities, when present.
pub open spec fn capabilities_entry(c: Option<SystemCapabilities>) -> Seq<Emit> {
    match c {
        Some(c) => seq![
            Emit {
                ty: tlv::SYSTEM_CAPABILITIES,
                body: Ok(capabilities_body(c)),
                what: "system capabilities",
            },
        ],
        None => seq![],
    }
}

/// The entry for one Management Address.
pub open spec fn management_entry(m: SpecManagementAddress) -> Emit {
    Emit {
        ty: tlv::MANAGEMENT_ADDRESS,
        body: management_address_body(m),
        what: "management address",
    }
}

/// The entry for one Organizationally Specific TLV.
pub open spec fn org_entry(o: SpecOrgTlv) -> Emit {
    Emit { ty: tlv::ORG_SPECIFIC, body: Ok(org_body(o)), what: "organizationally specific tlv" }
}

/// The entry for one preserved unknown TLV.
pub open spec fn unknown_entry(t: (u8, Seq<u8>)) -> Emit {
    Emit { ty: t.0, body: Ok(t.1), what: "unknown tlv" }
}

/// The mandatory preamble's entries: Chassis ID, Port ID, TTL.
pub open spec fn preamble_entries(p: SpecLldpdu) -> Seq<Emit> {
    seq![
        Emit { ty: tlv::CHASSIS_ID, body: Ok(chassis_body(p.chassis_id)), what: "chassis id" },
        Emit { ty: tlv::PORT_ID, body: Ok(port_body(p.port_id)), what: "port id" },
        Emit { ty: tlv::TTL, body: Ok(u16_be(p.ttl)), what: "ttl" },
    ]
}

/// The optional singletons' entries, in wire order.
pub open spec fn singleton_entries(p: SpecLldpdu) -> Seq<Emit> {
    text_entry(tlv::PORT_DESCRIPTION, p.port_description, "port description") + text_entry(
        tlv::SYSTEM_NAME,
        p.system_name,
        "system name",
    ) + text_entry(tlv::SYSTEM_DESCRIPTION, p.system_description, "system description")
        + capabilities_entry(p.capabilities)
}

/// The Management Address entries, in order.
pub open spec fn management_entries(p: SpecLldpdu) -> Seq<Emit> {
    p.management_addresses.map_values(|m: SpecManagementAddress| management_entry(m))
}

/// The Organizationally Specific entries, in order.
pub open spec fn org_entries(p: SpecLldpdu) -> Seq<Emit> {
    p.org.map_values(|o: SpecOrgTlv| org_entry(o))
}

/// The preserved unknown TLVs' entries, in order.
pub open spec fn unknown_entries(p: SpecLldpdu) -> Seq<Emit> {
    p.unknown.map_values(|t: (u8, Seq<u8>)| unknown_entry(t))
}

/// Every TLV a data unit is built from, in wire order: the mandatory preamble
/// first, then the optional singletons, the management addresses, the
/// organizationally specific TLVs, and the preserved unknown TLVs.
pub open spec fn entries(p: SpecLldpdu) -> Seq<Emit> {
    preamble_entries(p) + singleton_entries(p) + management_entries(p) + org_entries(p)
        + unknown_entries(p)
}

/// Whether an encoder's result `r`, with `out` as its output buffer
/// afterwards, is the `expected` outcome of emitting.
pub open spec fn reports(r: Result<(), Error>, expected: Result<Seq<u8>, Error>, out: Seq<u8>) -> bool {
    match r {
        Ok(_) => expected == Ok::<Seq<u8>, Error>(out),
        Err(e) => expected == Err::<Seq<u8>, Error>(e),
    }
}

/// The wire bytes of a data unit: every entry encoded in order, then the End
/// Of LLDPDU marker; the first entry that doesn't fit its field fails.
pub open spec fn to_bytes_spec(p: SpecLldpdu) -> Result<Seq<u8>, Error> {
    match emit_from(Ok(seq![]), entries(p)) {
        Ok(bytes) => Ok(bytes + end_marker()),
        Err(e) => Err(e),
    }
}

/// Emitting one more entry is one more step.
pub proof fn lemma_emit_push(so_far: Result<Seq<u8>, Error>, es: Seq<Emit>, e: Emit)
    ensures
        emit_from(so_far, es.push(e)) == emit_step(emit_from(so_far, es), e),
{
    assert(es.push(e).drop_last() =~= es);
}

/// Emitting two lists is emitting the first, then the second after it.
pub proof fn lemma_emit_concat(so_far: Result<Seq<u8>, Error>, a: Seq<Emit>, b: Seq<Emit>)
    ensures
        emit_from(so_far, a + b) == emit_from(emit_from(so_far, a), b),
    decreases b.len(),
{
    if b.len() == 0 {
        assert(a + b =~= a);
    } else {
        assert((a + b).drop_last() =~= a + b.drop_last());
        lemma_emit_concat(so_far, a, b.drop_last());
    }
}

/// Once emitting has failed, nothing after it changes the error.
pub proof fn lemma_emit_failed(e: Error, es: Seq<Emit>)
    ensures
        emit_from(Err(e), es) == Err::<Seq<u8>, Error>(e),
    decreases es.len(),
{
    if es.len() > 0 {
        lemma_emit_failed(e, es.drop_last());
    }
}

/// A failure emitting the first `k` entries is the failure of them all.
proof fn lemma_prefix_failure_from(so_far: Result<Seq<u8>, Error>, es: Seq<Emit>, k: int, e: Error)
    requires
        0 <= k <= es.len(),
        emit_from(so_far, es.take(k)) == Err::<Seq<u8>, Error>(e),
    ensures
        emit_from(so_far, es) == Err::<Seq<u8>, Error>(e),
{
    lemma_emit_concat(so_far, es.take(k), es.skip(k));
    lemma_emit_failed(e, es.skip(k));
    assert(es.take(k) + es.skip(k) =~= es);
}

// ---------------------------------------------------------------------------
// The exec data unit.
// ---------------------------------------------------------------------------
/// One parsed (or to-be-built) LLDP data unit.
///
/// The three mandatory TLVs (§8.2: Chassis ID, Port ID, TTL, in that order,
/// first) are plain fields; every optional TLV is an `Option` or a `Vec`.
/// Unrecognized standard TLVs are preserved raw in `unknown` so callers can
/// interpret extensions this crate doesn't model, and round-tripping stays
/// lossless.
///
/// # Parsing doctrine
///
/// One rule: **the mandatory preamble must be right and TLV lengths must not
/// lie; every other TLV either folds into a typed field or is preserved
/// verbatim in `unknown`.** So a duplicated singleton (first occurrence
/// wins), non-UTF-8 text, or a malformed optional body never fails the PDU —
/// and never disappears either: it lands in `unknown`, and
/// [`Lldpdu::to_bytes`] re-emits it.
#[derive(Debug, Clone, PartialEq, Eq)]
pub struct Lldpdu<'a> {
    /// Chassis ID (§8.5.2) — identifies the device.
    pub chassis_id: ChassisId<'a>,
    /// Port ID (§8.5.3) — identifies the sending port.
    pub port_id: PortId<'a>,
    /// Time to live in seconds (§8.5.4); 0 means "forget this neighbor now".
    pub ttl: u16,
    /// Port Description (§8.5.5).
    pub port_description: Option<&'a str>,
    /// System Name (§8.5.6) — the administratively assigned host name.
    pub system_name: Option<&'a str>,
    /// System Description (§8.5.7) — typically vendor, model, and firmware.
    pub system_description: Option<&'a str>,
    /// System Capabilities (§8.5.8).
    pub capabilities: Option<SystemCapabilities>,
    /// Management Addresses (§8.5.9); the spec allows more than one.
    pub management_addresses: Vec<ManagementAddress<'a>>,
    /// Organizationally Specific TLVs (§8.6), raw payloads preserved.
    pub org: Vec<OrgTlv<'a>>,
    /// Standard-range TLVs this crate doesn't model, preserved verbatim.
    pub unknown: Vec<RawTlv<'a>>,
}

impl<'a> View for Lldpdu<'a> {
    type V = SpecLldpdu;

    open spec fn view(&self) -> SpecLldpdu {
        SpecLldpdu {
            chassis_id: self.chassis_id@,
            port_id: self.port_id@,
            ttl: self.ttl,
            port_description: text_view(self.port_description),
            system_name: text_view(self.system_name),
            system_description: text_view(self.system_description),
            capabilities: self.capabilities,
            management_addresses: self.management_addresses@.map_values(
                |m: ManagementAddress<'a>| m@,
            ),
            org: self.org@.map_values(|o: OrgTlv<'a>| o@),
            unknown: self.unknown@.map_values(|t: RawTlv<'a>| t@),
        }
    }
}

impl<'a> Lldpdu<'a> {
    /// A data unit with the three mandatory TLVs and nothing else; set the
    /// public fields for anything optional.
    pub fn new(chassis_id: ChassisId<'a>, port_id: PortId<'a>, ttl: u16) -> (r: Self)
        ensures
            r@ == SpecLldpdu::new(chassis_id@, port_id@, ttl),
    {
        let r = Self {
            chassis_id,
            port_id,
            ttl,
            port_description: None,
            system_name: None,
            system_description: None,
            capabilities: None,
            management_addresses: Vec::new(),
            org: Vec::new(),
            unknown: Vec::new(),
        };
        assert(r@.management_addresses =~= seq![]);
        assert(r@.org =~= seq![]);
        assert(r@.unknown =~= seq![]);
        r
    }

    /// Parse an LLDPDU payload (not a whole Ethernet frame — see
    /// [`frame::lldpdu_of`] or [`Self::parse_frame`] for that).
    pub fn parse(bytes: &'a [u8]) -> (r: Result<Self, Error>)
        ensures
            match r {
                Ok(pdu) => parse_spec(bytes@) == Ok::<SpecLldpdu, Error>(pdu@),
                Err(e) => parse_spec(bytes@) == Err::<SpecLldpdu, Error>(e),
            },
    {
        let mut tlvs = TlvIter::new(bytes);
        let ghost items = tlvs@;
        let chassis_body = match mandatory(&mut tlvs, tlv::CHASSIS_ID, "chassis id") {
            Ok(b) => b,
            Err(e) => return Err(e),
        };
        let chassis_id = match ChassisId::parse(chassis_body) {
            Ok(c) => c,
            Err(e) => return Err(e),
        };
        assert(tlvs@ == items.skip(1));
        let port_body = match mandatory(&mut tlvs, tlv::PORT_ID, "port id") {
            Ok(b) => b,
            Err(e) => return Err(e),
        };
        let port_id = match PortId::parse(port_body) {
            Ok(p) => p,
            Err(e) => return Err(e),
        };
        assert(tlvs@ =~= items.skip(2));
        let ttl_body = match mandatory(&mut tlvs, tlv::TTL, "ttl") {
            Ok(b) => b,
            Err(e) => return Err(e),
        };
        if ttl_body.len() != 2 {
            return Err(Error::Malformed("ttl"));
        }
        let ttl = (ttl_body[0] as u16) * 256 + ttl_body[1] as u16;
        assert(tlvs@ =~= items.skip(3));
        let mut pdu = Self::new(chassis_id, port_id, ttl);
        let ghost goal = parse_spec(bytes@);
        loop
            invariant
                goal == parse_spec(bytes@),
                fold_optional(pdu@, tlvs@) == goal,
            decreases tlvs@.len(),
        {
            let ghost before = tlvs@;
            match tlvs.next() {
                None => {
                    return Ok(pdu);
                },
                Some(Err(e)) => {
                    return Err(e);
                },
                Some(Ok(tlv)) => {
                    pdu.take_optional(tlv);
                    assert(before.drop_first() == tlvs@);
                },
            }
        }
    }

    /// Parse an LLDPDU from a raw Ethernet frame (untagged, 802.1Q, or Q-in-Q).
    ///
    /// Returns [`Error::Malformed`] when the frame is not LLDP.
    pub fn parse_frame(eth: &'a [u8]) -> (r: Result<Self, Error>)
        ensures
            match frame::lldpdu_payload(eth@) {
                None => r == Err::<Self, Error>(Error::Malformed("ethernet frame")),
                Some(payload) => match r {
                    Ok(pdu) => parse_spec(payload) == Ok::<SpecLldpdu, Error>(pdu@),
                    Err(e) => parse_spec(payload) == Err::<SpecLldpdu, Error>(e),
                },
            },
    {
        match frame::lldpdu_of(eth) {
            Some(payload) => Self::parse(payload),
            None => Err(Error::Malformed("ethernet frame")),
        }
    }

    /// Encode to wire bytes, mandatory preamble first, End Of LLDPDU last.
    ///
    /// Fails with [`Error::TooLong`] if any value exceeds its wire field.
    pub fn to_bytes(&self) -> (r: Result<Vec<u8>, Error>)
        ensures
            match r {
                Ok(bytes) => to_bytes_spec(self@) == Ok::<Seq<u8>, Error>(bytes@),
                Err(e) => to_bytes_spec(self@) == Err::<Seq<u8>, Error>(e),
            },
    {
        let ghost p = self@;
        let ghost s1 = preamble_entries(p);
        let ghost s2 = singleton_entries(p);
        let ghost s3 = management_entries(p);
        let ghost s4 = org_entries(p);
        let ghost s5 = unknown_entries(p);
        proof {
            lemma_emit_concat(Ok(seq![]), s1 + s2 + s3 + s4, s5);
            lemma_emit_concat(Ok(seq![]), s1 + s2 + s3, s4);
            lemma_emit_concat(Ok(seq![]), s1 + s2, s3);
            lemma_emit_concat(Ok(seq![]), s1, s2);
        }
        let mut out: Vec<u8> = Vec::with_capacity(128);
        let mut body: Vec<u8> = Vec::new();

        let r1 = self.encode_preamble(&mut body, &mut out);
        if let Err(e) = r1 {
            proof {
                lemma_emit_failed(e, s2);
                lemma_emit_failed(e, s3);
                lemma_emit_failed(e, s4);
                lemma_emit_failed(e, s5);
            }
            return Err(e);
        }
        let r2 = self.encode_singletons(&mut body, &mut out);
        if let Err(e) = r2 {
            proof {
                lemma_emit_failed(e, s3);
                lemma_emit_failed(e, s4);
                lemma_emit_failed(e, s5);
            }
            return Err(e);
        }
        let r3 = self.encode_management_addresses(&mut body, &mut out);
        if let Err(e) = r3 {
            proof {
                lemma_emit_failed(e, s4);
                lemma_emit_failed(e, s5);
            }
            return Err(e);
        }
        let r4 = self.encode_org(&mut body, &mut out);
        if let Err(e) = r4 {
            proof {
                lemma_emit_failed(e, s5);
            }
            return Err(e);
        }
        let r5 = self.encode_unknown(&mut out);
        if let Err(e) = r5 {
            return Err(e);
        }
        tlv::encode_end(&mut out);
        Ok(out)
    }

    /// Encode the mandatory preamble: Chassis ID, Port ID, TTL.
    fn encode_preamble(&self, body: &mut Vec<u8>, out: &mut Vec<u8>) -> (r: Result<(), Error>)
        ensures
            reports(r, emit_from(Ok(old(out)@), preamble_entries(self@)), final(out)@),
    {
        let ghost o0 = out@;
        let ghost es = preamble_entries(self@);
        let ghost mut done: Seq<Emit> = seq![];
        assert(es.take(0) =~= done);
        let step = encode_body(tlv::CHASSIS_ID, body, out, "chassis id", Fill::Chassis(&self.chassis_id));
        proof {
            lemma_emit_push(Ok(o0), done, es[0]);
            done = done.push(es[0]);
        }
        if let Err(e) = step {
            proof {
                lemma_emit_failed(e, seq![es[1], es[2]]);
                lemma_emit_concat(Ok(o0), done, seq![es[1], es[2]]);
                assert(done + seq![es[1], es[2]] =~= es);
            }
            return Err(e);
        }
        let step = encode_body(tlv::PORT_ID, body, out, "port id", Fill::Port(&self.port_id));
        proof {
            lemma_emit_push(Ok(o0), done, es[1]);
            done = done.push(es[1]);
        }
        if let Err(e) = step {
            proof {
                lemma_emit_failed(e, seq![es[2]]);
                lemma_emit_concat(Ok(o0), done, seq![es[2]]);
                assert(done + seq![es[2]] =~= es);
            }
            return Err(e);
        }
        let ttl = u16_bytes(self.ttl);
        let step = tlv::encode(tlv::TTL, ttl.as_slice(), "ttl", out);
        proof {
            lemma_emit_push(Ok(o0), done, es[2]);
            done = done.push(es[2]);
            assert(done =~= es);
        }
        step
    }

    /// Encode the optional singletons that are present: Port Description,
    /// System Name, System Description, System Capabilities.
    fn encode_singletons(&self, body: &mut Vec<u8>, out: &mut Vec<u8>) -> (r: Result<(), Error>)
        ensures
            reports(r, emit_from(Ok(old(out)@), singleton_entries(self@)), final(out)@),
    {
        let ghost p = self@;
        let ghost o0 = out@;
        let ghost t1 = text_entry(tlv::PORT_DESCRIPTION, p.port_description, "port description");
        let ghost t2 = text_entry(tlv::SYSTEM_NAME, p.system_name, "system name");
        let ghost t3 = text_entry(tlv::SYSTEM_DESCRIPTION, p.system_description, "system description");
        let ghost t4 = capabilities_entry(p.capabilities);
        proof {
            lemma_emit_concat(Ok(o0), t1 + t2 + t3, t4);
            lemma_emit_concat(Ok(o0), t1 + t2, t3);
            lemma_emit_concat(Ok(o0), t1, t2);
            lemma_emit_push(Ok(o0), seq![], t1[0]);
        }
        if let Some(text) = self.port_description {
            assert(t1 =~= seq![].push(t1[0]));
            let step = encode_text(tlv::PORT_DESCRIPTION, text, "port description", out);
            if let Err(e) = step {
                proof {
                    lemma_emit_failed(e, t2);
                    lemma_emit_failed(e, t3);
                    lemma_emit_failed(e, t4);
                }
                return Err(e);
            }
        }
        let ghost o1 = out@;
        proof {
            lemma_emit_push(Ok(o1), seq![], t2[0]);
        }
        if let Some(text) = self.system_name {
            assert(t2 =~= seq![].push(t2[0]));
            let step = encode_text(tlv::SYSTEM_NAME, text, "system name", out);
            if let Err(e) = step {
                proof {
                    lemma_emit_failed(e, t3);
                    lemma_emit_failed(e, t4);
                }
                return Err(e);
            }
        }
        let ghost o2 = out@;
        proof {
            lemma_emit_push(Ok(o2), seq![], t3[0]);
        }
        if let Some(text) = self.system_description {
            assert(t3 =~= seq![].push(t3[0]));
            let step = encode_text(tlv::SYSTEM_DESCRIPTION, text, "system description", out);
            if let Err(e) = step {
                proof {
                    lemma_emit_failed(e, t4);
                }
                return Err(e);
            }
        }
        let ghost o3 = out@;
        proof {
            lemma_emit_push(Ok(o3), seq![], t4[0]);
        }
        if let Some(caps) = self.capabilities {
            assert(t4 =~= seq![].push(t4[0]));
            let step = encode_body(
                tlv::SYSTEM_CAPABILITIES,
                body,
                out,
                "system capabilities",
                Fill::Capabilities(caps),
            );
            if let Err(e) = step {
                return Err(e);
            }
        }
        Ok(())
    }

    /// Encode every Management Address, in order.
    fn encode_management_addresses(&self, body: &mut Vec<u8>, out: &mut Vec<u8>) -> (r: Result<(), Error>)
        ensures
            reports(r, emit_from(Ok(old(out)@), management_entries(self@)), final(out)@),
    {
        let ghost o0 = out@;
        let ghost es = management_entries(self@);
        let n = self.management_addresses.len();
        let mut i: usize = 0;
        assert(es.take(0) =~= seq![]);
        while i < n
            invariant
                n == self.management_addresses@.len(),
                es == management_entries(self@),
                o0 == old(out)@,
                0 <= i <= n,
                emit_from(Ok(o0), es.take(i as int)) == Ok::<Seq<u8>, Error>(out@),
            decreases n - i,
        {
            let ma = &self.management_addresses[i];
            let step = encode_body_result(tlv::MANAGEMENT_ADDRESS, body, out, "management address", ma);
            proof {
                assert(es[i as int] == management_entry(ma@));
                lemma_emit_push(Ok(o0), es.take(i as int), es[i as int]);
                assert(es.take(i as int).push(es[i as int]) =~= es.take(i + 1));
            }
            if let Err(e) = step {
                proof {
                    lemma_prefix_failure_from(Ok(o0), es, i + 1, e);
                }
                return Err(e);
            }
            i = i + 1;
        }
        assert(es.take(n as int) =~= es);
        Ok(())
    }

    /// Encode every Organizationally Specific TLV, in order.
    fn encode_org(&self, body: &mut Vec<u8>, out: &mut Vec<u8>) -> (r: Result<(), Error>)
        ensures
            reports(r, emit_from(Ok(old(out)@), org_entries(self@)), final(out)@),
    {
        let ghost o0 = out@;
        let ghost es = org_entries(self@);
        let n = self.org.len();
        let mut i: usize = 0;
        assert(es.take(0) =~= seq![]);
        while i < n
            invariant
                n == self.org@.len(),
                es == org_entries(self@),
                o0 == old(out)@,
                0 <= i <= n,
                emit_from(Ok(o0), es.take(i as int)) == Ok::<Seq<u8>, Error>(out@),
            decreases n - i,
        {
            let org = &self.org[i];
            let step = encode_body(
                tlv::ORG_SPECIFIC,
                body,
                out,
                "organizationally specific tlv",
                Fill::Org(org),
            );
            proof {
                assert(es[i as int] == org_entry(org@));
                lemma_emit_push(Ok(o0), es.take(i as int), es[i as int]);
                assert(es.take(i as int).push(es[i as int]) =~= es.take(i + 1));
            }
            if let Err(e) = step {
                proof {
                    lemma_prefix_failure_from(Ok(o0), es, i + 1, e);
                }
                return Err(e);
            }
            i = i + 1;
        }
        assert(es.take(n as int) =~= es);
        Ok(())
    }

    /// Encode every preserved unknown TLV, verbatim and in order.
    fn encode_unknown(&self, out: &mut Vec<u8>) -> (r: Result<(), Error>)
        ensures
            reports(r, emit_from(Ok(old(out)@), unknown_entries(self@)), final(out)@),
    {
        let ghost o0 = out@;
        let ghost es = unknown_entries(self@);
        let n = self.unknown.len();
        let mut i: usize = 0;
        assert(es.take(0) =~= seq![]);
        while i < n
            invariant
                n == self.unknown@.len(),
                es == unknown_entries(self@),
                o0 == old(out)@,
                0 <= i <= n,
                emit_from(Ok(o0), es.take(i as int)) == Ok::<Seq<u8>, Error>(out@),
            decreases n - i,
        {
            let raw = &self.unknown[i];
            let step = tlv::encode(raw.ty, raw.value, "unknown tlv", out);
            proof {
                assert(es[i as int] == unknown_entry(raw@));
                lemma_emit_push(Ok(o0), es.take(i as int), es[i as int]);
                assert(es.take(i as int).push(es[i as int]) =~= es.take(i + 1));
            }
            if let Err(e) = step {
                proof {
                    lemma_prefix_failure_from(Ok(o0), es, i + 1, e);
                }
                return Err(e);
            }
            i = i + 1;
        }
        assert(es.take(n as int) =~= es);
        Ok(())
    }

    /// Fold one optional TLV into a typed field, or — when it duplicates a
    /// singleton, isn't valid UTF-8, or its body doesn't parse — preserve it
    /// verbatim in `unknown`. Nothing is dropped and nothing is fatal here.
    fn take_optional(&mut self, tlv: RawTlv<'a>)
        ensures
            final(self)@ == take_optional(old(self)@, tlv@),
    {
        let ty = tlv.ty;
        let folded = if ty == tlv::PORT_DESCRIPTION {
            keep_first_str(&mut self.port_description, tlv.value)
        } else if ty == tlv::SYSTEM_NAME {
            keep_first_str(&mut self.system_name, tlv.value)
        } else if ty == tlv::SYSTEM_DESCRIPTION {
            keep_first_str(&mut self.system_description, tlv.value)
        } else if ty == tlv::SYSTEM_CAPABILITIES {
            fold_singleton(&mut self.capabilities, tlv.value, SystemCapabilities::parse)
        } else if ty == tlv::MANAGEMENT_ADDRESS {
            match ManagementAddress::parse(tlv.value) {
                Ok(ma) => {
                    self.management_addresses.push(ma);
                    true
                },
                Err(_) => false,
            }
        } else if ty == tlv::ORG_SPECIFIC {
            match OrgTlv::parse(tlv.value) {
                Ok(org) => {
                    self.org.push(org);
                    true
                },
                Err(_) => false,
            }
        } else {
            false
        };
        if !folded {
            self.unknown.push(tlv);
        }
        proof {
            let goal = take_optional(old(self)@, tlv@);
            assert(self@.management_addresses =~= goal.management_addresses);
            assert(self@.org =~= goal.org);
            assert(self@.unknown =~= goal.unknown);
        }
    }
}

/// Which typed body an [`encode_body`] call fills in.
enum Fill<'p, 'a> {
    Chassis(&'p ChassisId<'a>),
    Port(&'p PortId<'a>),
    Capabilities(SystemCapabilities),
    Org(&'p OrgTlv<'a>),
}

/// The body bytes a [`Fill`] encodes.
spec fn fill_bytes(f: Fill) -> Seq<u8> {
    match f {
        Fill::Chassis(c) => chassis_body(c@),
        Fill::Port(p) => port_body(p@),
        Fill::Capabilities(c) => capabilities_body(c),
        Fill::Org(o) => org_body(o@),
    }
}

/// Append the body a [`Fill`] names to `body`.
fn fill_into(f: Fill, body: &mut Vec<u8>)
    ensures
        final(body)@ == old(body)@ + fill_bytes(f),
{
    match f {
        Fill::Chassis(c) => c.encode(body),
        Fill::Port(p) => p.encode(body),
        Fill::Capabilities(c) => c.encode(body),
        Fill::Org(o) => o.encode(body),
    }
}

/// Encode one TLV whose body is built by `fill`.
fn encode_body(
    ty: u8,
    body: &mut Vec<u8>,
    out: &mut Vec<u8>,
    what: &'static str,
    fill: Fill,
) -> (r: Result<(), Error>)
    ensures
        match r {
            Ok(_) => emit_step(Ok(old(out)@), (Emit { ty, body: Ok(fill_bytes(fill)), what }))
                == Ok::<Seq<u8>, Error>(final(out)@),
            Err(e) => emit_step(Ok(old(out)@), (Emit { ty, body: Ok(fill_bytes(fill)), what }))
                == Err::<Seq<u8>, Error>(e),
        },
{
    body.clear();
    fill_into(fill, body);
    tlv::encode(ty, body.as_slice(), what, out)
}

/// Encode one Management Address TLV, whose body building may fail.
fn encode_body_result(
    ty: u8,
    body: &mut Vec<u8>,
    out: &mut Vec<u8>,
    what: &'static str,
    ma: &ManagementAddress,
) -> (r: Result<(), Error>)
    ensures
        match r {
            Ok(_) => emit_step(Ok(old(out)@), (Emit { ty, body: management_address_body(ma@), what }))
                == Ok::<Seq<u8>, Error>(final(out)@),
            Err(e) => emit_step(Ok(old(out)@), (Emit { ty, body: management_address_body(ma@), what }))
                == Err::<Seq<u8>, Error>(e),
        },
{
    body.clear();
    if let Err(e) = ma.encode(body) {
        return Err(e);
    }
    tlv::encode(ty, body.as_slice(), what, out)
}

/// Encode one UTF-8 text TLV.
fn encode_text(ty: u8, text: &str, what: &'static str, out: &mut Vec<u8>) -> (r: Result<(), Error>)
    ensures
        match r {
            Ok(_) => emit_step(Ok(old(out)@), (Emit { ty, body: Ok(encode_utf8(text@)), what }))
                == Ok::<Seq<u8>, Error>(final(out)@),
            Err(e) => emit_step(Ok(old(out)@), (Emit { ty, body: Ok(encode_utf8(text@)), what }))
                == Err::<Seq<u8>, Error>(e),
        },
{
    tlv::encode(ty, text.as_bytes(), what, out)
}

/// Pull the next TLV and require it to be `expected` — the §8.2 preamble is
/// strictly ordered, and a PDU that doesn't start with it is not LLDP.
fn mandatory<'a>(tlvs: &mut TlvIter<'a>, expected: u8, what: &'static str) -> (r: Result<
    &'a [u8],
    Error,
>)
    ensures
        match r {
            Ok(value) => mandatory_item(old(tlvs)@, 0, expected, what) == Ok::<Seq<u8>, Error>(
                value@,
            ),
            Err(e) => mandatory_item(old(tlvs)@, 0, expected, what) == Err::<Seq<u8>, Error>(e),
        },
        old(tlvs)@.len() > 0 ==> final(tlvs)@ == old(tlvs)@.drop_first(),
{
    match tlvs.next() {
        Some(Ok(tlv)) => if tlv.ty == expected {
            Ok(tlv.value)
        } else {
            Err(Error::UnexpectedMandatory { expected: what, got: tlv.ty })
        },
        Some(Err(e)) => Err(e),
        None => Err(Error::MissingMandatory(what)),
    }
}

/// Fold a text TLV into an empty slot; report whether it was taken (a full
/// slot or non-UTF-8 bytes leave the TLV for `unknown` to preserve).
fn keep_first_str<'a>(slot: &mut Option<&'a str>, value: &'a [u8]) -> (r: bool)
    ensures
        r == (*old(slot) is None && valid_utf8(value@)),
        r ==> text_view(*final(slot)) == Some(decode_utf8(value@)),
        !r ==> *final(slot) == *old(slot),
{
    if slot.is_some() {
        return false;
    }
    match str_from_utf8(value) {
        Some(text) => {
            proof {
                lemma_decoded_text(text, value@);
            }
            *slot = Some(text);
            true
        },
        None => false,
    }
}

/// Fold a parseable singleton TLV into an empty slot; report whether it was
/// taken.
fn fold_singleton<T>(
    slot: &mut Option<T>,
    value: &[u8],
    parse: impl FnOnce(&[u8]) -> Result<T, Error>,
) -> (r: bool)
    requires
        call_requires(parse, (value,)),
    ensures
        *old(slot) is Some ==> !r && *final(slot) == *old(slot),
        *old(slot) is None ==> exists|res: Result<T, Error>|
            call_ensures(parse, (value,), res) && match res {
                Ok(v) => r && *final(slot) == Some(v),
                Err(_) => !r && *final(slot) is None,
            },
{
    if slot.is_some() {
        return false;
    }
    match parse(value) {
        Ok(v) => {
            *slot = Some(v);
            true
        },
        Err(_) => false,
    }
}

} // verus!
