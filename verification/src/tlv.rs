//! The raw TLV wire layer (802.1AB §8.4.1).
//!
//! An LLDPDU is a flat sequence of TLVs. Each starts with a 16-bit header:
//! the top 7 bits are the type (0–127), the low 9 bits the value length
//! (0–511). Type 0 with length 0 is the End Of LLDPDU marker; everything
//! after it is padding and must be ignored.
use crate::Error;
use vstd::prelude::*;

verus! {

/// TLV type of the End Of LLDPDU marker.
pub const END_OF_LLDPDU: u8 = 0;

/// TLV type of the mandatory Chassis ID (first TLV, §8.5.2).
pub const CHASSIS_ID: u8 = 1;

/// TLV type of the mandatory Port ID (second TLV, §8.5.3).
pub const PORT_ID: u8 = 2;

/// TLV type of the mandatory Time To Live (third TLV, §8.5.4).
pub const TTL: u8 = 3;

/// TLV type of Port Description (§8.5.5).
pub const PORT_DESCRIPTION: u8 = 4;

/// TLV type of System Name (§8.5.6).
pub const SYSTEM_NAME: u8 = 5;

/// TLV type of System Description (§8.5.7).
pub const SYSTEM_DESCRIPTION: u8 = 6;

/// TLV type of System Capabilities (§8.5.8).
pub const SYSTEM_CAPABILITIES: u8 = 7;

/// TLV type of Management Address (§8.5.9).
pub const MANAGEMENT_ADDRESS: u8 = 8;

/// TLV type of Organizationally Specific TLVs (§8.6).
pub const ORG_SPECIFIC: u8 = 127;

/// The largest value the 9-bit TLV length field can carry.
pub const MAX_VALUE_LEN: usize = 511;

// ---------------------------------------------------------------------------
// The wire format, as mathematics.
// ---------------------------------------------------------------------------
/// The TLV type held by the first header byte: its top 7 bits.
pub open spec fn header_type(hi: u8) -> u8 {
    hi / 2
}

/// The value length held by the two header bytes: the low bit of `hi`
/// followed by all of `lo`.
pub open spec fn header_len(hi: u8, lo: u8) -> int {
    (hi % 2) * 256 + lo
}

/// What a TLV walk yields, item by item: a TLV as (type, value), or the
/// truncation error that ends the walk.
pub type TlvItem = Result<(u8, Seq<u8>), Error>;

/// Every item a TLV walk over `buf` yields, in order. The walk stops at the
/// End Of LLDPDU marker (not yielded) or at the end of `buf`; a header or
/// value cut short by the end of `buf` yields one `Truncated` and stops.
pub open spec fn tlv_items(buf: Seq<u8>) -> Seq<TlvItem>
    decreases buf.len(),
{
    if buf.len() == 0 {
        seq![]
    } else if buf.len() == 1 {
        seq![Err(Error::Truncated)]
    } else {
        let ty = header_type(buf[0]);
        let len = header_len(buf[0], buf[1]);
        if ty == END_OF_LLDPDU && len == 0 {
            seq![]
        } else if buf.len() - 2 < len {
            seq![Err(Error::Truncated)]
        } else {
            seq![Ok((ty, buf.subrange(2, 2 + len)))] + tlv_items(buf.subrange(2 + len, buf.len() as int))
        }
    }
}

/// The two header bytes for a TLV of type `ty` with a value of `len` bytes:
/// `ty` shifted into the top 7 bits of a big-endian u16, `len` in the low 9.
pub open spec fn tlv_header(ty: u8, len: int) -> Seq<u8> {
    seq![((ty * 2) % 256 + len / 256) as u8, (len % 256) as u8]
}

/// One whole TLV on the wire: header, then value.
pub open spec fn tlv_wire(ty: u8, value: Seq<u8>) -> Seq<u8> {
    tlv_header(ty, value.len() as int) + value
}

/// The End Of LLDPDU marker on the wire.
pub open spec fn end_marker() -> Seq<u8> {
    seq![0u8, 0u8]
}

/// A TLV that a walk can yield back: its type fits in 7 bits, its value in
/// 9 bits of length, and it is not the End Of LLDPDU marker.
pub open spec fn walkable(ty: u8, value: Seq<u8>) -> bool {
    &&& ty < 128
    &&& value.len() <= MAX_VALUE_LEN
    &&& !(ty == END_OF_LLDPDU && value.len() == 0)
}

/// A list of TLVs laid end to end on the wire.
pub open spec fn tlvs_wire(tlvs: Seq<(u8, Seq<u8>)>) -> Seq<u8>
    decreases tlvs.len(),
{
    if tlvs.len() == 0 {
        seq![]
    } else {
        tlv_wire(tlvs[0].0, tlvs[0].1) + tlvs_wire(tlvs.drop_first())
    }
}

/// Each TLV of a list, as the successful item a walk yields for it.
pub open spec fn as_items(tlvs: Seq<(u8, Seq<u8>)>) -> Seq<TlvItem> {
    tlvs.map_values(|t: (u8, Seq<u8>)| Ok::<(u8, Seq<u8>), Error>(t))
}

// ---------------------------------------------------------------------------
// Exec types.
// ---------------------------------------------------------------------------
/// One TLV, borrowed from the input buffer.
#[derive(Debug, Clone, Copy, PartialEq, Eq)]
pub struct RawTlv<'a> {
    /// TLV type, 0–127.
    pub ty: u8,
    /// The value bytes (already bounds-checked against the buffer).
    pub value: &'a [u8],
}

impl<'a> View for RawTlv<'a> {
    type V = (u8, Seq<u8>);

    open spec fn view(&self) -> (u8, Seq<u8>) {
        (self.ty, self.value@)
    }
}

/// The item a walk yields, as mathematics.
pub open spec fn item_view(item: Result<RawTlv, Error>) -> TlvItem {
    match item {
        Ok(t) => Ok(t@),
        Err(e) => Err(e),
    }
}

/// A bounds-checked walk over the TLVs of an LLDPDU.
///
/// The walk ends at the End Of LLDPDU marker, at the end of the buffer, or —
/// after yielding one [`Error::Truncated`] — where the buffer ends inside a
/// TLV. It never reads past the buffer. Its view is the sequence of items it
/// has yet to yield.
#[derive(Debug, Clone)]
pub struct TlvIter<'a> {
    buf: &'a [u8],
    /// Set after End Of LLDPDU or an error: the walk is fused.
    done: bool,
}

impl<'a> View for TlvIter<'a> {
    type V = Seq<TlvItem>;

    closed spec fn view(&self) -> Seq<TlvItem> {
        if self.done {
            seq![]
        } else {
            tlv_items(self.buf@)
        }
    }
}

impl<'a> TlvIter<'a> {
    /// Walk the TLVs of `buf` (an LLDPDU payload, not a whole frame).
    pub fn new(buf: &'a [u8]) -> (r: Self)
        ensures
            r@ == tlv_items(buf@),
    {
        Self { buf, done: false }
    }

    /// The next item of the walk, or `None` once it has ended (and from then
    /// on).
    pub fn next(&mut self) -> (r: Option<Result<RawTlv<'a>, Error>>)
        ensures
            old(self)@.len() == 0 ==> r is None && final(self)@ == old(self)@,
            old(self)@.len() > 0 ==> (r matches Some(item) && item_view(item) == old(self)@[0]
                && final(self)@ == old(self)@.drop_first()),
    {
        if self.done {
            return None;
        }
        let buf = self.buf;
        if buf.len() == 0 {
            return None;
        }
        if buf.len() == 1 {
            // One trailing byte: a header can't fit, so the PDU is cut short.
            self.done = true;
            return Some(Err(Error::Truncated));
        }
        let hi = buf[0];
        let lo = buf[1];
        let ty = hi >> 1;
        let len: usize = ((hi & 0x01) as usize) * 256 + lo as usize;
        proof {
            assert(hi >> 1 == hi / 2) by (bit_vector);
            assert(hi & 0x01 == hi % 2) by (bit_vector);
        }
        if ty == END_OF_LLDPDU && len == 0 {
            self.done = true;
            return None;
        }
        let (_header, rest) = buf.split_at(2);
        if rest.len() < len {
            self.done = true;
            return Some(Err(Error::Truncated));
        }
        let (value, rest) = rest.split_at(len);
        proof {
            assert(value@ =~= buf@.subrange(2, 2 + len));
            assert(rest@ =~= buf@.subrange(2 + len, buf@.len() as int));
        }
        self.buf = rest;
        Some(Ok(RawTlv { ty, value }))
    }
}

/// Append `bytes` to the end of `out`.
pub(crate) fn append_bytes(out: &mut Vec<u8>, bytes: &[u8])
    ensures
        final(out)@ == old(out)@ + bytes@,
{
    out.extend_from_slice(bytes);
    assert(out@ =~= old(out)@ + bytes@);
}

/// Append one TLV (header + value) to `out`.
///
/// Fails with [`Error::TooLong`] when `value` exceeds the 9-bit length field;
/// `what` names the field in that error, and `out` is left as it was.
pub fn encode(ty: u8, value: &[u8], what: &'static str, out: &mut Vec<u8>) -> (r: Result<(), Error>)
    ensures
        value@.len() > MAX_VALUE_LEN ==> r == Err::<(), Error>(Error::TooLong(what))
            && final(out)@ == old(out)@,
        value@.len() <= MAX_VALUE_LEN ==> r is Ok && final(out)@ == old(out)@ + tlv_wire(
            ty,
            value@,
        ),
{
    if value.len() > MAX_VALUE_LEN {
        return Err(Error::TooLong(what));
    }
    let len: u16 = value.len() as u16;
    let header: u16 = ((ty as u16) << 9u16) | len;
    let hi: u8 = (header >> 8u16) as u8;
    let lo: u8 = header as u8;
    proof {
        assert(len <= 511 ==> ((((ty as u16) << 9u16) | len) >> 8u16) as u8 == (((ty as u16)
            * 2) % 256 + len / 256) as u8) by (bit_vector);
        assert(len <= 511 ==> ((((ty as u16) << 9u16) | len) as u8) == (len % 256) as u8)
            by (bit_vector);
    }
    out.push(hi);
    out.push(lo);
    append_bytes(out, value);
    proof {
        assert(out@ =~= old(out)@ + tlv_wire(ty, value@));
    }
    Ok(())
}

/// Append the End Of LLDPDU marker to `out`.
pub fn encode_end(out: &mut Vec<u8>)
    ensures
        final(out)@ == old(out)@ + end_marker(),
{
    out.push(0);
    out.push(0);
    assert(out@ =~= old(out)@ + end_marker());
}

// ---------------------------------------------------------------------------
// Laws of the wire layer.
// ---------------------------------------------------------------------------
/// A walk yields at most one error, and only as its last item: after a
/// `Truncated` the walk has ended.
pub proof fn lemma_error_only_last(buf: Seq<u8>, i: int)
    requires
        0 <= i < tlv_items(buf).len(),
        tlv_items(buf)[i] is Err,
    ensures
        i == tlv_items(buf).len() - 1,
        tlv_items(buf)[i] == Err::<(u8, Seq<u8>), Error>(Error::Truncated),
    decreases buf.len(),
{
    if buf.len() >= 2 {
        let len = header_len(buf[0], buf[1]);
        if !(header_type(buf[0]) == END_OF_LLDPDU && len == 0) && buf.len() - 2 >= len {
            let rest = buf.subrange(2 + len, buf.len() as int);
            if i > 0 {
                assert(tlv_items(buf)[i] == tlv_items(rest)[i - 1]);
                lemma_error_only_last(rest, i - 1);
            }
        }
    }
}

/// Every value a walk yields is at most 511 bytes and every type below 128.
pub proof fn lemma_items_are_walkable(buf: Seq<u8>, i: int)
    requires
        0 <= i < tlv_items(buf).len(),
        tlv_items(buf)[i] is Ok,
    ensures
        walkable(tlv_items(buf)[i]->Ok_0.0, tlv_items(buf)[i]->Ok_0.1),
    decreases buf.len(),
{
    let len = header_len(buf[0], buf[1]);
    let rest = buf.subrange(2 + len, buf.len() as int);
    if i > 0 {
        assert(tlv_items(buf)[i] == tlv_items(rest)[i - 1]);
        lemma_items_are_walkable(rest, i - 1);
    } else {
        let hi = buf[0];
        assert(hi / 2 < 128) by (nonlinear_arith);
    }
}

/// Encoding one TLV and walking it gives the TLV back, after which the walk
/// continues with whatever follows.
pub proof fn lemma_encoded_tlv_walks(ty: u8, value: Seq<u8>, rest: Seq<u8>)
    requires
        walkable(ty, value),
    ensures
        tlv_items(tlv_wire(ty, value) + rest) == seq![Ok::<(u8, Seq<u8>), Error>((ty, value))]
            + tlv_items(rest),
{
    let buf = tlv_wire(ty, value) + rest;
    let len = value.len() as int;
    let hi = buf[0];
    let lo = buf[1];
    assert(hi == ((ty * 2) % 256 + len / 256) as u8);
    assert(lo == (len % 256) as u8);
    assert(header_type(hi) == ty && header_len(hi, lo) == len) by (nonlinear_arith)
        requires
            hi == ((ty * 2) % 256 + len / 256) as u8,
            lo == (len % 256) as u8,
            ty < 128,
            0 <= len <= 511,
    {
        assert((ty * 2) % 256 == ty * 2);
    }
    assert(buf.subrange(2, 2 + len) =~= value);
    assert(buf.subrange(2 + len, buf.len() as int) =~= rest);
}

/// The End Of LLDPDU marker ends a walk, whatever padding follows it.
pub proof fn lemma_end_marker_stops(rest: Seq<u8>)
    ensures
        tlv_items(end_marker() + rest) == Seq::<TlvItem>::empty(),
{
    let buf = end_marker() + rest;
    assert(buf[0] == 0u8 && buf[1] == 0u8);
}

/// A list of walkable TLVs, encoded end to end and closed by the End Of
/// LLDPDU marker, walks back as exactly that list — whatever padding follows.
pub proof fn lemma_tlvs_walk_back(tlvs: Seq<(u8, Seq<u8>)>, padding: Seq<u8>)
    requires
        forall|i: int| 0 <= i < tlvs.len() ==> walkable(#[trigger] tlvs[i].0, tlvs[i].1),
    ensures
        tlv_items(tlvs_wire(tlvs) + end_marker() + padding) == as_items(tlvs),
    decreases tlvs.len(),
{
    if tlvs.len() == 0 {
        assert(tlvs_wire(tlvs) + end_marker() + padding =~= end_marker() + padding);
        lemma_end_marker_stops(padding);
        assert(as_items(tlvs) =~= Seq::<TlvItem>::empty());
    } else {
        let first = tlvs[0];
        let tail = tlvs.drop_first();
        assert forall|i: int| 0 <= i < tail.len() implies walkable(#[trigger] tail[i].0, tail[i].1) by {
            assert(tail[i] == tlvs[i + 1]);
        }
        lemma_tlvs_walk_back(tail, padding);
        let after = tlvs_wire(tail) + end_marker() + padding;
        assert(walkable(tlvs[0].0, tlvs[0].1));
        lemma_encoded_tlv_walks(first.0, first.1, after);
        assert(tlvs_wire(tlvs) + end_marker() + padding =~= tlv_wire(first.0, first.1) + after);
        assert(as_items(tlvs) =~= seq![Ok::<(u8, Seq<u8>), Error>(first)] + as_items(tail));
    }
}

} // verus!
