//! Parse and build IEEE 802.1AB LLDP data units (LLDPDUs), with the wire
//! format, the parsers and the builders proved against a mathematical model.
//!
//! - [`tlv`] — the raw TLV wire layer: a bounds-checked walk over
//!   type/length/value triples, and the encoder.
//! - [`types`] — Chassis ID, Port ID, System Capabilities, Management
//!   Address, Organizationally Specific TLVs: bodies parsed and encoded.
//! - [`pdu`] — [`Lldpdu`], a whole data unit: parsed from a payload or a
//!   frame, built back into bytes.
//! - [`frame`] — the LLDP EtherType and group addresses, and locating the
//!   payload inside an Ethernet frame (untagged, 802.1Q, Q-in-Q).
//! - [`round_trip`] — the laws tying parsing and building together.
//!
//! Every parser is total: malformed bytes yield an [`Error`], never a panic.
//! The mandatory preamble (Chassis ID, Port ID, TTL) must be right and TLV
//! lengths must not lie; every other TLV folds into a typed field or is kept
//! verbatim in [`Lldpdu::unknown`].
use vstd::prelude::*;

pub mod frame;
pub mod laws;
pub mod pdu;
pub mod round_trip;
pub mod text;
pub mod tlv;
pub mod types;

pub use pdu::Lldpdu;
pub use tlv::{RawTlv, TlvIter};
pub use types::{
    ChassisId, IpOctets, ManagementAddress, NetworkAddress, OrgTlv, PortId, SystemCapabilities,
};

verus! {

/// Everything that can go wrong parsing or building an LLDPDU.
#[derive(Debug, Clone, Copy, PartialEq, Eq)]
pub enum Error {
    /// The buffer ended in the middle of a TLV header or value.
    Truncated,
    /// A TLV's content is structurally invalid; the message names the field.
    Malformed(&'static str),
    /// A mandatory TLV (Chassis ID, Port ID, TTL) is absent; the message names
    /// the missing TLV.
    MissingMandatory(&'static str),
    /// A mandatory TLV slot held the wrong type; the message names the
    /// expected TLV and the type byte that was found instead.
    UnexpectedMandatory {
        /// The mandatory TLV that was expected (e.g. `"chassis id"`).
        expected: &'static str,
        /// The TLV type byte that appeared in that slot.
        got: u8,
    },
    /// Building: a value exceeds its wire field (e.g. a TLV value longer than
    /// the 9-bit length can carry); the message names the field.
    TooLong(&'static str),
}

} // verus!
