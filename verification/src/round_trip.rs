//! The laws that tie parsing and building together: a built data unit
//! parses back to itself, and a parsed one rebuilds into bytes that parse
//! back to it — nothing a device said is lost on the way.
use crate::pdu::{
    capabilities_entry, entries, fold_optional, folds_into, management_entries, management_entry,
    mandatory_item, org_entries, org_entry, parse_spec, preamble_entries, singleton_entries,
    take_optional, text_entry, to_bytes_spec, unknown_entries, unknown_entry, Emit, SpecLldpdu,
    emit_from,
};
use crate::tlv::{
    self, as_items, end_marker, lemma_error_only_last, lemma_items_are_walkable,
    lemma_tlvs_walk_back, tlv_items, tlv_wire, tlvs_wire, walkable, TlvItem, MAX_VALUE_LEN,
};
use crate::types::{
    capabilities_body, capabilities_of, chassis_body, chassis_of, lemma_capabilities_round_trip,
    lemma_chassis_parse_then_encode, lemma_chassis_round_trip,
    lemma_management_address_parse_then_encode, lemma_management_address_round_trip,
    lemma_org_parse_then_encode, lemma_org_round_trip, lemma_port_parse_then_encode,
    lemma_port_round_trip, lemma_u16_be_round_trip, management_address_body,
    management_address_of, org_body, org_of, port_body, port_of, SpecManagementAddress,
    SpecOrgTlv,
};
use crate::Error;
use vstd::prelude::*;
use vstd::utf8::{
    decode_utf8_encode_utf8, encode_utf8, encode_utf8_decode_utf8, encode_utf8_valid_utf8,
    valid_utf8,
};

verus! {

// ---------------------------------------------------------------------------
// Emitting, in terms of the wire format.
// ---------------------------------------------------------------------------
/// The (type, body) pairs a list of successfully built entries puts on the
/// wire.
pub open spec fn plain(es: Seq<Emit>) -> Seq<(u8, Seq<u8>)> {
    es.map_values(|e: Emit| (e.ty, e.body->Ok_0))
}

/// Every entry of the list has a body that was built and fits its field.
pub open spec fn all_fit(es: Seq<Emit>) -> bool {
    forall|i: int|
        0 <= i < es.len() ==> (#[trigger] es[i]).body is Ok && es[i].body->Ok_0.len()
            <= MAX_VALUE_LEN
}

proof fn lemma_tlvs_wire_push(ts: Seq<(u8, Seq<u8>)>, t: (u8, Seq<u8>))
    ensures
        tlvs_wire(ts.push(t)) == tlvs_wire(ts) + tlv_wire(t.0, t.1),
    decreases ts.len(),
{
    if ts.len() == 0 {
        assert(ts.push(t).drop_first() =~= ts);
        assert(tlvs_wire(ts.push(t)) =~= tlv_wire(t.0, t.1) + tlvs_wire(ts));
        assert(tlvs_wire(ts) + tlv_wire(t.0, t.1) =~= tlv_wire(t.0, t.1));
    } else {
        assert(ts.push(t).drop_first() =~= ts.drop_first().push(t));
        lemma_tlvs_wire_push(ts.drop_first(), t);
        assert(tlvs_wire(ts.push(t)) =~= tlv_wire(ts[0].0, ts[0].1) + (tlvs_wire(ts.drop_first())
            + tlv_wire(t.0, t.1)));
    }
}

/// Emitting succeeds exactly when every entry fits, and then it lays the
/// entries end to end after what came before.
pub proof fn lemma_emit_ok(b0: Seq<u8>, es: Seq<Emit>)
    ensures
        emit_from(Ok(b0), es) is Ok <==> all_fit(es),
        all_fit(es) ==> emit_from(Ok(b0), es) == Ok::<Seq<u8>, Error>(
            b0 + tlvs_wire(plain(es)),
        ),
    decreases es.len(),
{
    if es.len() == 0 {
        assert(plain(es) =~= seq![]);
        assert(b0 + tlvs_wire(plain(es)) =~= b0);
    } else {
        let init = es.drop_last();
        let last = es.last();
        lemma_emit_ok(b0, init);
        crate::pdu::lemma_emit_push(Ok(b0), init, last);
        assert(es =~= init.push(last));
        if all_fit(es) {
            assert forall|i: int| 0 <= i < init.len() implies (#[trigger] init[i]).body is Ok
                && init[i].body->Ok_0.len() <= MAX_VALUE_LEN by {
                assert(init[i] == es[i]);
            }
            assert(es[es.len() - 1] == last);
            assert(plain(es) =~= plain(init).push((last.ty, last.body->Ok_0)));
            lemma_tlvs_wire_push(plain(init), (last.ty, last.body->Ok_0));
            assert(b0 + tlvs_wire(plain(init)) + tlv_wire(last.ty, last.body->Ok_0) =~= b0
                + tlvs_wire(plain(es)));
        }
        if emit_from(Ok(b0), es) is Ok {
            assert(emit_from(Ok(b0), init) is Ok);
            assert forall|i: int| 0 <= i < es.len() implies (#[trigger] es[i]).body is Ok
                && es[i].body->Ok_0.len() <= MAX_VALUE_LEN by {
                if i < init.len() {
                    assert(init[i] == es[i]);
                }
            }
        }
    }
}

// ---------------------------------------------------------------------------
// Folding, in terms of plain TLVs.
// ---------------------------------------------------------------------------
/// Take a list of TLVs into a data unit, one after the other.
pub open spec fn fold_tlvs(s: SpecLldpdu, ts: Seq<(u8, Seq<u8>)>) -> SpecLldpdu
    decreases ts.len(),
{
    if ts.len() == 0 {
        s
    } else {
        fold_tlvs(take_optional(s, ts[0]), ts.drop_first())
    }
}

proof fn lemma_fold_items(s: SpecLldpdu, ts: Seq<(u8, Seq<u8>)>)
    ensures
        fold_optional(s, as_items(ts)) == Ok::<SpecLldpdu, Error>(fold_tlvs(s, ts)),
    decreases ts.len(),
{
    if ts.len() > 0 {
        assert(as_items(ts).drop_first() =~= as_items(ts.drop_first()));
        lemma_fold_items(take_optional(s, ts[0]), ts.drop_first());
    }
}

proof fn lemma_fold_push(s: SpecLldpdu, ts: Seq<(u8, Seq<u8>)>, t: (u8, Seq<u8>))
    ensures
        fold_tlvs(s, ts.push(t)) == take_optional(fold_tlvs(s, ts), t),
    decreases ts.len(),
{
    let tt = ts.push(t);
    if ts.len() == 0 {
        assert(tt.drop_first() =~= ts);
        assert(tt[0] == t);
        assert(fold_tlvs(take_optional(s, t), tt.drop_first()) == take_optional(s, t));
    } else {
        assert(tt.drop_first() =~= ts.drop_first().push(t));
        assert(tt[0] == ts[0]);
        lemma_fold_push(take_optional(s, ts[0]), ts.drop_first(), t);
    }
}

proof fn lemma_fold_concat(s: SpecLldpdu, a: Seq<(u8, Seq<u8>)>, b: Seq<(u8, Seq<u8>)>)
    ensures
        fold_tlvs(s, a + b) == fold_tlvs(fold_tlvs(s, a), b),
    decreases a.len(),
{
    if a.len() == 0 {
        assert(a + b =~= b);
    } else {
        assert((a + b).drop_first() =~= a.drop_first() + b);
        assert((a + b)[0] == a[0]);
        lemma_fold_concat(take_optional(s, a[0]), a.drop_first(), b);
    }
}

/// Folding encoded management addresses appends them.
proof fn lemma_fold_management(s: SpecLldpdu, ms: Seq<SpecManagementAddress>)
    requires
        forall|i: int| 0 <= i < ms.len() ==> (#[trigger] ms[i]).canonical(),
        all_fit(ms.map_values(|m: SpecManagementAddress| management_entry(m))),
    ensures
        fold_tlvs(s, plain(ms.map_values(|m: SpecManagementAddress| management_entry(m))))
            == (SpecLldpdu { management_addresses: s.management_addresses + ms, ..s }),
    decreases ms.len(),
{
    let es = ms.map_values(|m: SpecManagementAddress| management_entry(m));
    if ms.len() == 0 {
        assert(plain(es) =~= seq![]);
        assert(s.management_addresses + ms =~= s.management_addresses);
    } else {
        let init = ms.drop_last();
        let m = ms.last();
        let ies = init.map_values(|m: SpecManagementAddress| management_entry(m));
        assert forall|i: int| 0 <= i < ies.len() implies (#[trigger] ies[i]).body is Ok
            && ies[i].body->Ok_0.len() <= MAX_VALUE_LEN by {
            assert(ies[i] == es[i]);
        }
        assert forall|i: int| 0 <= i < init.len() implies (#[trigger] init[i]).canonical() by {
            assert(init[i] == ms[i]);
        }
        lemma_fold_management(s, init);
        assert(es[es.len() - 1] == management_entry(m));
        let body = management_address_body(m)->Ok_0;
        assert(plain(es) =~= plain(ies).push((tlv::MANAGEMENT_ADDRESS, body)));
        lemma_fold_push(s, plain(ies), (tlv::MANAGEMENT_ADDRESS, body));
        lemma_management_address_round_trip(m);
        assert(s.management_addresses + init.push(m) =~= (s.management_addresses + init).push(m));
        assert(init.push(m) =~= ms);
    }
}

/// Folding encoded organizationally specific TLVs appends them.
proof fn lemma_fold_org(s: SpecLldpdu, os: Seq<SpecOrgTlv>)
    requires
        forall|i: int| 0 <= i < os.len() ==> (#[trigger] os[i]).oui.len() == 3,
    ensures
        fold_tlvs(s, plain(os.map_values(|o: SpecOrgTlv| org_entry(o)))) == (SpecLldpdu {
            org: s.org + os,
            ..s
        }),
    decreases os.len(),
{
    let es = os.map_values(|o: SpecOrgTlv| org_entry(o));
    if os.len() == 0 {
        assert(plain(es) =~= seq![]);
        assert(s.org + os =~= s.org);
    } else {
        let init = os.drop_last();
        let o = os.last();
        let ies = init.map_values(|o: SpecOrgTlv| org_entry(o));
        assert forall|i: int| 0 <= i < init.len() implies (#[trigger] init[i]).oui.len() == 3 by {
            assert(init[i] == os[i]);
        }
        lemma_fold_org(s, init);
        assert(plain(es) =~= plain(ies).push((tlv::ORG_SPECIFIC, org_body(o))));
        lemma_fold_push(s, plain(ies), (tlv::ORG_SPECIFIC, org_body(o)));
        lemma_org_round_trip(o);
        assert(s.org + init.push(o) =~= (s.org + init).push(o));
        assert(init.push(o) =~= os);
    }
}

/// Folding TLVs that don't fold into `s` appends them to `unknown`.
proof fn lemma_fold_unknown(s: SpecLldpdu, us: Seq<(u8, Seq<u8>)>)
    requires
        forall|i: int| 0 <= i < us.len() ==> !folds_into(s, #[trigger] us[i].0, us[i].1),
    ensures
        fold_tlvs(s, plain(us.map_values(|t: (u8, Seq<u8>)| unknown_entry(t)))) == (SpecLldpdu {
            unknown: s.unknown + us,
            ..s
        }),
    decreases us.len(),
{
    let es = us.map_values(|t: (u8, Seq<u8>)| unknown_entry(t));
    if us.len() == 0 {
        assert(plain(es) =~= seq![]);
        assert(s.unknown + us =~= s.unknown);
    } else {
        let init = us.drop_last();
        let u = us.last();
        let ies = init.map_values(|t: (u8, Seq<u8>)| unknown_entry(t));
        assert forall|i: int| 0 <= i < init.len() implies !folds_into(
            s,
            #[trigger] init[i].0,
            init[i].1,
        ) by {
            assert(init[i] == us[i]);
        }
        lemma_fold_unknown(s, init);
        assert(plain(es) =~= plain(ies).push(u));
        lemma_fold_push(s, plain(ies), u);
        assert(us[us.len() - 1] == u);
        assert(s.unknown + init.push(u) =~= (s.unknown + init).push(u));
        assert(init.push(u) =~= us);
    }
}

// ---------------------------------------------------------------------------
// Build, then parse.
// ---------------------------------------------------------------------------
/// Every TLV a canonical data unit is built from can be walked back.
proof fn lemma_entries_walkable(p: SpecLldpdu)
    requires
        p.canonical(),
        all_fit(entries(p)),
    ensures
        forall|i: int|
            0 <= i < plain(entries(p)).len() ==> walkable(
                #[trigger] plain(entries(p))[i].0,
                plain(entries(p))[i].1,
            ),
{
    let pre = preamble_entries(p);
    let si = singleton_entries(p);
    let m = management_entries(p);
    let o = org_entries(p);
    let u = unknown_entries(p);
    let es = entries(p);
    let t1 = text_entry(tlv::PORT_DESCRIPTION, p.port_description, "port description");
    let t2 = text_entry(tlv::SYSTEM_NAME, p.system_name, "system name");
    let t3 = text_entry(tlv::SYSTEM_DESCRIPTION, p.system_description, "system description");
    let t4 = capabilities_entry(p.capabilities);
    assert forall|k: int| 0 <= k < si.len() implies 4 <= (#[trigger] si[k]).ty <= 7 by {
        if k < t1.len() {
            assert(si[k] == t1[k]);
        } else if k < t1.len() + t2.len() {
            assert(si[k] == t2[k - t1.len()]);
        } else if k < t1.len() + t2.len() + t3.len() {
            assert(si[k] == t3[k - t1.len() - t2.len()]);
        } else {
            assert(si[k] == t4[k - t1.len() - t2.len() - t3.len()]);
        }
    }
    assert forall|i: int| 0 <= i < plain(es).len() implies walkable(
        #[trigger] plain(es)[i].0,
        plain(es)[i].1,
    ) by {
        let e = es[i];
        assert(plain(es)[i] == (e.ty, e.body->Ok_0));
        assert(e.body->Ok_0.len() <= MAX_VALUE_LEN);
        let n1 = pre.len() as int;
        let n2 = n1 + si.len();
        let n3 = n2 + m.len();
        let n4 = n3 + o.len();
        if i < n1 {
            assert(e == pre[i]);
        } else if i < n2 {
            assert(e == si[i - n1]);
        } else if i < n3 {
            assert(e == m[i - n2]);
        } else if i < n4 {
            assert(e == o[i - n3]);
        } else {
            assert(e == u[i - n4]);
            assert(e == unknown_entry(p.unknown[i - n4]));
        }
    }
}

/// The optional singletons of a data unit, folded into the bare preamble,
/// fill exactly their slots.
proof fn lemma_singletons_fold_back(p: SpecLldpdu)
    ensures
        fold_tlvs(SpecLldpdu::new(p.chassis_id, p.port_id, p.ttl), plain(singleton_entries(p)))
            == (SpecLldpdu {
            port_description: p.port_description,
            system_name: p.system_name,
            system_description: p.system_description,
            capabilities: p.capabilities,
            ..SpecLldpdu::new(p.chassis_id, p.port_id, p.ttl)
        }),
{
    let s0 = SpecLldpdu::new(p.chassis_id, p.port_id, p.ttl);
    let si = singleton_entries(p);
    let t1 = text_entry(tlv::PORT_DESCRIPTION, p.port_description, "port description");
    let t2 = text_entry(tlv::SYSTEM_NAME, p.system_name, "system name");
    let t3 = text_entry(tlv::SYSTEM_DESCRIPTION, p.system_description, "system description");
    let t4 = capabilities_entry(p.capabilities);
    assert(plain(si) =~= plain(t1) + plain(t2) + plain(t3) + plain(t4));
    lemma_fold_concat(s0, plain(t1) + plain(t2) + plain(t3), plain(t4));
    lemma_fold_concat(s0, plain(t1) + plain(t2), plain(t3));
    lemma_fold_concat(s0, plain(t1), plain(t2));
    let s1 = SpecLldpdu { port_description: p.port_description, ..s0 };
    let s2 = SpecLldpdu { system_name: p.system_name, ..s1 };
    let s3 = SpecLldpdu { system_description: p.system_description, ..s2 };
    lemma_fold_text_slot(s0, tlv::PORT_DESCRIPTION, p.port_description, "port description");
    lemma_fold_text_slot(s1, tlv::SYSTEM_NAME, p.system_name, "system name");
    lemma_fold_text_slot(s2, tlv::SYSTEM_DESCRIPTION, p.system_description, "system description");
    if let Some(c) = p.capabilities {
        lemma_capabilities_round_trip(c);
        let one = seq![(tlv::SYSTEM_CAPABILITIES, capabilities_body(c))];
        assert(plain(t4) =~= one);
        assert(one.drop_first() =~= seq![]);
        assert(one[0] == (tlv::SYSTEM_CAPABILITIES, capabilities_body(c)));
        let next = take_optional(s3, one[0]);
        assert(fold_tlvs(next, one.drop_first()) == next);
    } else {
        assert(plain(t4) =~= seq![]);
    }
}

/// Everything after the preamble of a canonical data unit, folded into the
/// bare preamble, gives the data unit back.
proof fn lemma_optionals_fold_back(p: SpecLldpdu)
    requires
        p.canonical(),
        all_fit(entries(p)),
    ensures
        fold_tlvs(SpecLldpdu::new(p.chassis_id, p.port_id, p.ttl), plain(entries(p)).skip(3))
            == p,
{
    let es = entries(p);
    let s0 = SpecLldpdu::new(p.chassis_id, p.port_id, p.ttl);
    let pre = preamble_entries(p);
    let si = singleton_entries(p);
    let m = management_entries(p);
    let o = org_entries(p);
    let u = unknown_entries(p);
    assert(plain(es).skip(3) =~= plain(si) + plain(m) + plain(o) + plain(u));
    lemma_fold_concat(s0, plain(si) + plain(m) + plain(o), plain(u));
    lemma_fold_concat(s0, plain(si) + plain(m), plain(o));
    lemma_fold_concat(s0, plain(si), plain(m));
    lemma_singletons_fold_back(p);
    let s4 = fold_tlvs(s0, plain(si));
    assert forall|i: int| 0 <= i < m.len() implies (#[trigger] m[i]).body is Ok && m[i].body->Ok_0.len()
        <= MAX_VALUE_LEN by {
        assert(es[3 + si.len() + i] == m[i]);
    }
    lemma_fold_management(s4, p.management_addresses);
    let s5 = SpecLldpdu { management_addresses: s4.management_addresses + p.management_addresses, ..s4 };
    lemma_fold_org(s5, p.org);
    let s6 = SpecLldpdu { org: s5.org + p.org, ..s5 };
    assert forall|i: int| 0 <= i < p.unknown.len() implies !folds_into(
        s6,
        #[trigger] p.unknown[i].0,
        p.unknown[i].1,
    ) by {
        assert(!folds_into(p, p.unknown[i].0, p.unknown[i].1));
    }
    lemma_fold_unknown(s6, p.unknown);
    let s7 = SpecLldpdu { unknown: s6.unknown + p.unknown, ..s6 };
    assert(s7.management_addresses =~= p.management_addresses);
    assert(s7.org =~= p.org);
    assert(s7.unknown =~= p.unknown);
    assert(s7 == p);
}

/// The bytes a canonical data unit builds walk back as its entries.
pub proof fn lemma_built_walks(p: SpecLldpdu, padding: Seq<u8>)
    requires
        p.canonical(),
        to_bytes_spec(p) is Ok,
    ensures
        all_fit(entries(p)),
        tlv_items(to_bytes_spec(p)->Ok_0 + padding) == as_items(plain(entries(p))),
{
    let es = entries(p);
    lemma_emit_ok(seq![], es);
    let ts = plain(es);
    lemma_entries_walkable(p);
    let bytes = to_bytes_spec(p)->Ok_0;
    assert(bytes =~= tlvs_wire(ts) + end_marker());
    lemma_tlvs_walk_back(ts, padding);
}

/// A canonical data unit that builds at all parses back to exactly itself,
/// whatever padding follows the End Of LLDPDU marker.
pub proof fn lemma_build_then_parse(p: SpecLldpdu, padding: Seq<u8>)
    requires
        p.canonical(),
        to_bytes_spec(p) is Ok,
    ensures
        parse_spec(to_bytes_spec(p)->Ok_0 + padding) == Ok::<SpecLldpdu, Error>(p),
{
    lemma_built_walks(p, padding);
    let ts = plain(entries(p));
    let items = as_items(ts);
    let cb = chassis_body(p.chassis_id);
    let pb = port_body(p.port_id);
    let tb = crate::types::u16_be(p.ttl);
    assert(entries(p)[0] == preamble_entries(p)[0]);
    assert(entries(p)[1] == preamble_entries(p)[1]);
    assert(entries(p)[2] == preamble_entries(p)[2]);
    assert(items[0] == Ok::<(u8, Seq<u8>), Error>((tlv::CHASSIS_ID, cb)));
    assert(items[1] == Ok::<(u8, Seq<u8>), Error>((tlv::PORT_ID, pb)));
    assert(items[2] == Ok::<(u8, Seq<u8>), Error>((tlv::TTL, tb)));
    lemma_chassis_round_trip(p.chassis_id);
    lemma_port_round_trip(p.port_id);
    lemma_u16_be_round_trip(p.ttl);
    assert(items.skip(3) =~= as_items(ts.skip(3)));
    let s0 = SpecLldpdu::new(p.chassis_id, p.port_id, p.ttl);
    lemma_fold_items(s0, ts.skip(3));
    lemma_optionals_fold_back(p);
    assert(fold_optional(s0, items.skip(3)) == Ok::<SpecLldpdu, Error>(p));
}

/// Folding an optional text entry into its empty slot fills the slot.
proof fn lemma_fold_text_slot(s: SpecLldpdu, ty: u8, text: Option<Seq<char>>, what: &'static str)
    requires
        ty == tlv::PORT_DESCRIPTION ==> s.port_description is None,
        ty == tlv::SYSTEM_NAME ==> s.system_name is None,
        ty == tlv::SYSTEM_DESCRIPTION ==> s.system_description is None,
        ty == tlv::PORT_DESCRIPTION || ty == tlv::SYSTEM_NAME || ty == tlv::SYSTEM_DESCRIPTION,
    ensures
        ty == tlv::PORT_DESCRIPTION ==> fold_tlvs(s, plain(text_entry(ty, text, what))) == (SpecLldpdu { port_description: text, ..s }),
        ty == tlv::SYSTEM_NAME ==> fold_tlvs(s, plain(text_entry(ty, text, what))) == (SpecLldpdu { system_name: text, ..s }),
        ty == tlv::SYSTEM_DESCRIPTION ==> fold_tlvs(s, plain(text_entry(ty, text, what))) == (SpecLldpdu { system_description: text, ..s }),
{
    let es = text_entry(ty, text, what);
    if let Some(t) = text {
        encode_utf8_valid_utf8(t);
        encode_utf8_decode_utf8(t);
        let one = seq![(ty, encode_utf8(t))];
        assert(plain(es) =~= one);
        assert(one.drop_first() =~= seq![]);
        assert(one[0] == (ty, encode_utf8(t)));
        let next = take_optional(s, one[0]);
        assert(fold_tlvs(next, one.drop_first()) == next);
        assert(fold_tlvs(s, one) == next);
    } else {
        assert(plain(es) =~= seq![]);
    }
}

} // verus!
verus! {

// ---------------------------------------------------------------------------
// Parse, then build.
// ---------------------------------------------------------------------------
/// An optional text fits the TLV that carries it.
spec fn text_fits(t: Option<Seq<char>>) -> bool {
    t matches Some(x) ==> encode_utf8(x).len() <= MAX_VALUE_LEN
}

/// Every field of a data unit fits the TLV that carries it.
spec fn fields_fit(s: SpecLldpdu) -> bool {
    &&& chassis_body(s.chassis_id).len() <= MAX_VALUE_LEN
    &&& port_body(s.port_id).len() <= MAX_VALUE_LEN
    &&& text_fits(s.port_description)
    &&& text_fits(s.system_name)
    &&& text_fits(s.system_description)
    &&& forall|i: int|
        0 <= i < s.management_addresses.len() ==> management_address_body(
            #[trigger] s.management_addresses[i],
        ) is Ok && management_address_body(s.management_addresses[i])->Ok_0.len()
            <= MAX_VALUE_LEN
    &&& forall|i: int| 0 <= i < s.org.len() ==> org_body(#[trigger] s.org[i]).len() <= MAX_VALUE_LEN
}

/// A canonical data unit whose fields fit builds successfully.
proof fn lemma_fields_fit(p: SpecLldpdu)
    requires
        p.canonical(),
        fields_fit(p),
    ensures
        all_fit(entries(p)),
        to_bytes_spec(p) is Ok,
{
    let pre = preamble_entries(p);
    let si = singleton_entries(p);
    let m = management_entries(p);
    let o = org_entries(p);
    let u = unknown_entries(p);
    let es = entries(p);
    let t1 = text_entry(tlv::PORT_DESCRIPTION, p.port_description, "port description");
    let t2 = text_entry(tlv::SYSTEM_NAME, p.system_name, "system name");
    let t3 = text_entry(tlv::SYSTEM_DESCRIPTION, p.system_description, "system description");
    let t4 = capabilities_entry(p.capabilities);
    assert forall|k: int| 0 <= k < si.len() implies (#[trigger] si[k]).body is Ok && si[k].body->Ok_0.len()
        <= MAX_VALUE_LEN by {
        if k < t1.len() {
            assert(si[k] == t1[k]);
        } else if k < t1.len() + t2.len() {
            assert(si[k] == t2[k - t1.len()]);
        } else if k < t1.len() + t2.len() + t3.len() {
            assert(si[k] == t3[k - t1.len() - t2.len()]);
        } else {
            assert(si[k] == t4[k - t1.len() - t2.len() - t3.len()]);
        }
    }
    assert forall|i: int| 0 <= i < es.len() implies (#[trigger] es[i]).body is Ok && es[i].body->Ok_0.len()
        <= MAX_VALUE_LEN by {
        let n1 = pre.len() as int;
        let n2 = n1 + si.len();
        let n3 = n2 + m.len();
        let n4 = n3 + o.len();
        if i < n1 {
            assert(es[i] == pre[i]);
        } else if i < n2 {
            assert(es[i] == si[i - n1]);
        } else if i < n3 {
            assert(es[i] == m[i - n2]);
        } else if i < n4 {
            assert(es[i] == o[i - n3]);
        } else {
            assert(es[i] == u[i - n4]);
            assert(es[i] == unknown_entry(p.unknown[i - n4]));
        }
    }
    lemma_emit_ok(seq![], es);
}

/// Taking one more walkable TLV into a canonical data unit whose fields fit
/// keeps it canonical with its fields fitting.
proof fn lemma_take_keeps(s: SpecLldpdu, t: (u8, Seq<u8>))
    requires
        s.canonical(),
        fields_fit(s),
        walkable(t.0, t.1),
    ensures
        take_optional(s, t).canonical(),
        fields_fit(take_optional(s, t)),
{
    let (ty, v) = t;
    let s2 = take_optional(s, t);
    if ty == tlv::PORT_DESCRIPTION && s.port_description is None && valid_utf8(v) {
        decode_utf8_encode_utf8(v);
        assert forall|i: int| 0 <= i < s2.unknown.len() implies walkable(
            #[trigger] s2.unknown[i].0,
            s2.unknown[i].1,
        ) && !folds_into(s2, s2.unknown[i].0, s2.unknown[i].1) by {
            assert(!folds_into(s, s.unknown[i].0, s.unknown[i].1));
        }
    } else if ty == tlv::SYSTEM_NAME && s.system_name is None && valid_utf8(v) {
        decode_utf8_encode_utf8(v);
        assert forall|i: int| 0 <= i < s2.unknown.len() implies walkable(
            #[trigger] s2.unknown[i].0,
            s2.unknown[i].1,
        ) && !folds_into(s2, s2.unknown[i].0, s2.unknown[i].1) by {
            assert(!folds_into(s, s.unknown[i].0, s.unknown[i].1));
        }
    } else if ty == tlv::SYSTEM_DESCRIPTION && s.system_description is None && valid_utf8(v) {
        decode_utf8_encode_utf8(v);
        assert forall|i: int| 0 <= i < s2.unknown.len() implies walkable(
            #[trigger] s2.unknown[i].0,
            s2.unknown[i].1,
        ) && !folds_into(s2, s2.unknown[i].0, s2.unknown[i].1) by {
            assert(!folds_into(s, s.unknown[i].0, s.unknown[i].1));
        }
    } else if ty == tlv::SYSTEM_CAPABILITIES && s.capabilities is None && capabilities_of(v) is Some {
        assert forall|i: int| 0 <= i < s2.unknown.len() implies walkable(
            #[trigger] s2.unknown[i].0,
            s2.unknown[i].1,
        ) && !folds_into(s2, s2.unknown[i].0, s2.unknown[i].1) by {
            assert(!folds_into(s, s.unknown[i].0, s.unknown[i].1));
        }
    } else if ty == tlv::MANAGEMENT_ADDRESS && management_address_of(v) is Some {
        let m = management_address_of(v)->Some_0;
        lemma_management_address_parse_then_encode(v);
        let ms = s2.management_addresses;
        assert forall|i: int| 0 <= i < ms.len() implies (#[trigger] ms[i]).canonical()
            && management_address_body(ms[i]) is Ok && management_address_body(ms[i])->Ok_0.len()
            <= MAX_VALUE_LEN by {
            if i < s.management_addresses.len() {
                assert(ms[i] == s.management_addresses[i]);
            } else {
                assert(ms[i] == m);
            }
        }
        assert forall|i: int| 0 <= i < s2.unknown.len() implies walkable(
            #[trigger] s2.unknown[i].0,
            s2.unknown[i].1,
        ) && !folds_into(s2, s2.unknown[i].0, s2.unknown[i].1) by {
            assert(!folds_into(s, s.unknown[i].0, s.unknown[i].1));
        }
    } else if ty == tlv::ORG_SPECIFIC && org_of(v) is Some {
        let o = org_of(v)->Some_0;
        lemma_org_parse_then_encode(v);
        let os = s2.org;
        assert forall|i: int| 0 <= i < os.len() implies (#[trigger] os[i]).oui.len() == 3 && org_body(
            os[i],
        ).len() <= MAX_VALUE_LEN by {
            if i < s.org.len() {
                assert(os[i] == s.org[i]);
            } else {
                assert(os[i] == o);
            }
        }
        assert forall|i: int| 0 <= i < s2.unknown.len() implies walkable(
            #[trigger] s2.unknown[i].0,
            s2.unknown[i].1,
        ) && !folds_into(s2, s2.unknown[i].0, s2.unknown[i].1) by {
            assert(!folds_into(s, s.unknown[i].0, s.unknown[i].1));
        }
    } else {
        assert(!folds_into(s, ty, v));
        assert forall|i: int| 0 <= i < s2.unknown.len() implies walkable(
            #[trigger] s2.unknown[i].0,
            s2.unknown[i].1,
        ) && !folds_into(s2, s2.unknown[i].0, s2.unknown[i].1) by {
            if i < s.unknown.len() {
                assert(s2.unknown[i] == s.unknown[i]);
                assert(!folds_into(s, s.unknown[i].0, s.unknown[i].1));
            } else {
                assert(s2.unknown[i] == t);
            }
        }
    }
}

/// Folding walkable items into a canonical data unit whose fields fit keeps
/// it so.
proof fn lemma_fold_keeps(s: SpecLldpdu, items: Seq<TlvItem>)
    requires
        s.canonical(),
        fields_fit(s),
        forall|j: int|
            0 <= j < items.len() && (#[trigger] items[j]) is Ok ==> walkable(
                items[j]->Ok_0.0,
                items[j]->Ok_0.1,
            ),
        fold_optional(s, items) is Ok,
    ensures
        fold_optional(s, items)->Ok_0.canonical(),
        fields_fit(fold_optional(s, items)->Ok_0),
    decreases items.len(),
{
    if items.len() > 0 {
        let t = items[0]->Ok_0;
        lemma_take_keeps(s, t);
        let rest = items.drop_first();
        assert forall|j: int| 0 <= j < rest.len() && (#[trigger] rest[j]) is Ok implies walkable(
            rest[j]->Ok_0.0,
            rest[j]->Ok_0.1,
        ) by {
            assert(rest[j] == items[j + 1]);
        }
        lemma_fold_keeps(take_optional(s, t), rest);
    }
}

/// Whatever a parse produces is canonical and builds back into bytes, and
/// those bytes parse to the very same data unit: parse → build → parse
/// loses nothing a device said.
pub proof fn lemma_parse_then_build(bytes: Seq<u8>)
    requires
        parse_spec(bytes) is Ok,
    ensures
        parse_spec(bytes)->Ok_0.canonical(),
        to_bytes_spec(parse_spec(bytes)->Ok_0) is Ok,
        parse_spec(to_bytes_spec(parse_spec(bytes)->Ok_0)->Ok_0) == parse_spec(bytes),
{
    let items = tlv_items(bytes);
    let p = parse_spec(bytes)->Ok_0;
    lemma_items_are_walkable(bytes, 0);
    lemma_items_are_walkable(bytes, 1);
    let cb = items[0]->Ok_0.1;
    let pb = items[1]->Ok_0.1;
    let tb = items[2]->Ok_0.1;
    lemma_chassis_parse_then_encode(cb);
    lemma_port_parse_then_encode(pb);
    let s0 = SpecLldpdu::new(chassis_of(cb)->Some_0, port_of(pb)->Some_0, crate::types::be_u16(tb[0], tb[1]));
    let rest = items.skip(3);
    assert forall|j: int| 0 <= j < rest.len() && (#[trigger] rest[j]) is Ok implies walkable(
        rest[j]->Ok_0.0,
        rest[j]->Ok_0.1,
    ) by {
        assert(rest[j] == items[j + 3]);
        lemma_items_are_walkable(bytes, j + 3);
    }
    assert(fold_optional(s0, rest) == parse_spec(bytes));
    lemma_fold_keeps(s0, rest);
    lemma_fields_fit(p);
    lemma_build_then_parse(p, seq![]);
    assert(to_bytes_spec(p)->Ok_0 + seq![] =~= to_bytes_spec(p)->Ok_0);
}

/// Folding optional TLVs never touches the preamble fields.
proof fn lemma_fold_keeps_preamble(s: SpecLldpdu, items: Seq<TlvItem>)
    requires
        fold_optional(s, items) is Ok,
    ensures
        fold_optional(s, items)->Ok_0.chassis_id == s.chassis_id,
        fold_optional(s, items)->Ok_0.port_id == s.port_id,
        fold_optional(s, items)->Ok_0.ttl == s.ttl,
    decreases items.len(),
{
    if items.len() > 0 {
        lemma_fold_keeps_preamble(take_optional(s, items[0]->Ok_0), items.drop_first());
    }
}

/// A parsed data unit's preamble fields are what its first three TLVs say.
pub proof fn lemma_parsed_is_from_preamble(bytes: Seq<u8>)
    requires
        parse_spec(bytes) is Ok,
    ensures
        ({
            let items = tlv_items(bytes);
            let p = parse_spec(bytes)->Ok_0;
            &&& items.len() >= 3
            &&& items[0] is Ok && items[0]->Ok_0.0 == tlv::CHASSIS_ID
            &&& items[1] is Ok && items[1]->Ok_0.0 == tlv::PORT_ID
            &&& items[2] is Ok && items[2]->Ok_0.0 == tlv::TTL && items[2]->Ok_0.1.len() == 2
            &&& chassis_of(items[0]->Ok_0.1) == Some(p.chassis_id)
            &&& port_of(items[1]->Ok_0.1) == Some(p.port_id)
            &&& p.ttl == crate::types::be_u16(items[2]->Ok_0.1[0], items[2]->Ok_0.1[1])
        }),
{
    let items = tlv_items(bytes);
    let cb = items[0]->Ok_0.1;
    let pb = items[1]->Ok_0.1;
    let tb = items[2]->Ok_0.1;
    let s0 = SpecLldpdu::new(chassis_of(cb)->Some_0, port_of(pb)->Some_0, crate::types::be_u16(tb[0], tb[1]));
    assert(fold_optional(s0, items.skip(3)) == parse_spec(bytes));
    lemma_fold_keeps_preamble(s0, items.skip(3));
}

// ---------------------------------------------------------------------------
// Failures.
// ---------------------------------------------------------------------------
/// The mandatory preamble of `bytes` is right: Chassis ID, Port ID and TTL
/// come first, in that order, each with a well-formed body.
pub open spec fn preamble_ok(bytes: Seq<u8>) -> bool {
    let items = tlv_items(bytes);
    &&& mandatory_item(items, 0, tlv::CHASSIS_ID, "chassis id") is Ok
    &&& chassis_of(mandatory_item(items, 0, tlv::CHASSIS_ID, "chassis id")->Ok_0) is Some
    &&& mandatory_item(items, 1, tlv::PORT_ID, "port id") is Ok
    &&& port_of(mandatory_item(items, 1, tlv::PORT_ID, "port id")->Ok_0) is Some
    &&& mandatory_item(items, 2, tlv::TTL, "ttl") is Ok
    &&& mandatory_item(items, 2, tlv::TTL, "ttl")->Ok_0.len() == 2
}

pub(crate) proof fn lemma_fold_fails_only_on_items(s: SpecLldpdu, items: Seq<TlvItem>)
    requires
        fold_optional(s, items) is Err,
    ensures
        exists|j: int| 0 <= j < items.len() && items[j] == Err::<(u8, Seq<u8>), Error>(
            fold_optional(s, items)->Err_0,
        ),
    decreases items.len(),
{
    if items[0] is Ok {
        let rest = items.drop_first();
        lemma_fold_fails_only_on_items(take_optional(s, items[0]->Ok_0), rest);
        let j = choose|j: int| 0 <= j < rest.len() && rest[j] == Err::<(u8, Seq<u8>), Error>(
            fold_optional(take_optional(s, items[0]->Ok_0), rest)->Err_0,
        );
        assert(items[j + 1] == rest[j]);
    } else {
        assert(items[0] == Err::<(u8, Seq<u8>), Error>(fold_optional(s, items)->Err_0));
    }
}

/// Only a wrong mandatory preamble is fatal, and nothing else: a data unit
/// parses exactly when its preamble is right and no TLV after it is cut
/// short, and past a right preamble the only possible failure is
/// `Truncated`.
pub proof fn lemma_only_truncation_after_preamble(bytes: Seq<u8>)
    ensures
        parse_spec(bytes) is Ok ==> preamble_ok(bytes),
        preamble_ok(bytes) ==> parse_spec(bytes) is Ok || parse_spec(bytes) == Err::<
            SpecLldpdu,
            Error,
        >(Error::Truncated),
{
    let items = tlv_items(bytes);
    if preamble_ok(bytes) && parse_spec(bytes) is Err {
        let cb = items[0]->Ok_0.1;
        let pb = items[1]->Ok_0.1;
        let tb = items[2]->Ok_0.1;
        let s0 = SpecLldpdu::new(chassis_of(cb)->Some_0, port_of(pb)->Some_0, crate::types::be_u16(tb[0], tb[1]));
        let rest = items.skip(3);
        assert(fold_optional(s0, rest) == parse_spec(bytes));
        lemma_fold_fails_only_on_items(s0, rest);
        let j = choose|j: int| 0 <= j < rest.len() && rest[j] == Err::<(u8, Seq<u8>), Error>(
            fold_optional(s0, rest)->Err_0,
        );
        assert(items[j + 3] == rest[j]);
        lemma_error_only_last(bytes, j + 3);
    }
}

} // verus!
verus! {

// ---------------------------------------------------------------------------
// Nothing is dropped, and the first occurrence wins.
// ---------------------------------------------------------------------------
/// 1 for a present optional value, 0 for an absent one.
pub open spec fn present<T>(o: Option<T>) -> nat {
    if o is Some {
        1
    } else {
        0
    }
}

/// How many optional TLVs a data unit carries, across every field that
/// holds them — `unknown` included.
pub open spec fn optional_count(p: SpecLldpdu) -> nat {
    present(p.port_description) + present(p.system_name) + present(p.system_description)
        + present(p.capabilities) + p.management_addresses.len() + p.org.len() + p.unknown.len()
}

/// Taking an optional TLV in puts it in exactly one place.
pub proof fn lemma_take_keeps_everything(s: SpecLldpdu, t: (u8, Seq<u8>))
    ensures
        optional_count(take_optional(s, t)) == optional_count(s) + 1,
{
}

/// A singleton slot, once filled, is never overwritten: the first occurrence
/// wins, and a later one goes to `unknown`.
pub proof fn lemma_first_occurrence_wins(s: SpecLldpdu, t: (u8, Seq<u8>))
    ensures
        s.port_description is Some ==> take_optional(s, t).port_description == s.port_description,
        s.system_name is Some ==> take_optional(s, t).system_name == s.system_name,
        s.system_description is Some ==> take_optional(s, t).system_description
            == s.system_description,
        s.capabilities is Some ==> take_optional(s, t).capabilities == s.capabilities,
        (t.0 == tlv::PORT_DESCRIPTION && s.port_description is Some) || (t.0 == tlv::SYSTEM_NAME
            && s.system_name is Some) || (t.0 == tlv::SYSTEM_DESCRIPTION && s.system_description is Some)
            || (t.0 == tlv::SYSTEM_CAPABILITIES && s.capabilities is Some)
            ==> take_optional(s, t).unknown == s.unknown.push(t),
{
}

proof fn lemma_fold_counts(s: SpecLldpdu, items: Seq<TlvItem>)
    requires
        fold_optional(s, items) is Ok,
    ensures
        optional_count(fold_optional(s, items)->Ok_0) == optional_count(s) + items.len(),
    decreases items.len(),
{
    if items.len() > 0 {
        lemma_take_keeps_everything(s, items[0]->Ok_0);
        lemma_fold_counts(take_optional(s, items[0]->Ok_0), items.drop_first());
    }
}

/// Parsing drops nothing: every TLV after the mandatory preamble (up to the
/// End Of LLDPDU marker) lands in exactly one field of the data unit, typed
/// or `unknown`.
pub proof fn lemma_nothing_dropped(bytes: Seq<u8>)
    requires
        parse_spec(bytes) is Ok,
    ensures
        optional_count(parse_spec(bytes)->Ok_0) + 3 == tlv_items(bytes).len(),
{
    let items = tlv_items(bytes);
    let cb = items[0]->Ok_0.1;
    let pb = items[1]->Ok_0.1;
    let tb = items[2]->Ok_0.1;
    let s0 = SpecLldpdu::new(chassis_of(cb)->Some_0, port_of(pb)->Some_0, crate::types::be_u16(tb[0], tb[1]));
    assert(fold_optional(s0, items.skip(3)) == parse_spec(bytes));
    lemma_fold_counts(s0, items.skip(3));
}

} // verus!
