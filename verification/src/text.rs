//! UTF-8 text and human-readable renderings of identifiers and errors.
use crate::types::{ChassisId, PortId, SpecChassisId, SpecPortId};
use crate::Error;
use vstd::prelude::*;
use vstd::string::StringSliceAdditionalSpecFns;
use vstd::utf8::{decode_utf8, encode_utf8_decode_utf8, valid_utf8};

verus! {

// ---------------------------------------------------------------------------
// Calls into the standard library.
// ---------------------------------------------------------------------------
/// `core::str::from_utf8`, with the failure made an `Option`. Its contract
/// claims what the standard library documents: the call succeeds exactly when
/// the bytes are valid UTF-8, and the text it returns is those very bytes.
#[verifier::external_body]
pub(crate) fn str_from_utf8<'b>(bytes: &'b [u8]) -> (r: Option<&'b str>)
    ensures
        r is Some <==> valid_utf8(bytes@),
        r matches Some(t) ==> t.spec_bytes() == bytes@,
{
    core::str::from_utf8(bytes).ok()
}

/// `String::push`. Its contract claims what the standard library documents:
/// the text grows by exactly the one character, at the end.
#[verifier::external_body]
fn push_char(s: &mut String, c: char)
    ensures
        final(s)@ == old(s)@.push(c),
{
    s.push(c);
}

/// The text that valid UTF-8 bytes decode to is the text whose encoding they
/// are.
pub proof fn lemma_decoded_text(t: &str, bytes: Seq<u8>)
    requires
        t.spec_bytes() == bytes,
    ensures
        t@ == decode_utf8(bytes),
{
    encode_utf8_decode_utf8(t@);
}

// ---------------------------------------------------------------------------
// Renderings, as mathematics.
// ---------------------------------------------------------------------------
/// The lower-case hexadecimal digit for `n` (0–15).
pub open spec fn hex_digit(n: int) -> char {
    if n < 10 {
        (48 + n) as char
    } else {
        (87 + n) as char
    }
}

/// The decimal digit for `n` (0–9).
pub open spec fn decimal_digit(n: int) -> char {
    (48 + n) as char
}

/// A byte as two lower-case hexadecimal digits.
pub open spec fn hex_byte(b: u8) -> Seq<char> {
    seq![hex_digit((b / 16) as int), hex_digit((b % 16) as int)]
}

/// Bytes as two-digit lower-case hexadecimal, separated by colons.
pub open spec fn hex_joined(bytes: Seq<u8>) -> Seq<char>
    decreases bytes.len(),
{
    if bytes.len() == 0 {
        seq![]
    } else if bytes.len() == 1 {
        hex_byte(bytes[0])
    } else {
        hex_joined(bytes.drop_last()) + seq![':'] + hex_byte(bytes.last())
    }
}

/// A byte in decimal, without leading zeros.
pub open spec fn decimal(n: u8) -> Seq<char> {
    if n < 10 {
        seq![decimal_digit(n as int)]
    } else if n < 100 {
        seq![decimal_digit((n / 10) as int), decimal_digit((n % 10) as int)]
    } else {
        seq![
            decimal_digit((n / 100) as int),
            decimal_digit(((n / 10) % 10) as int),
            decimal_digit((n % 10) as int),
        ]
    }
}

/// Identifier bytes as text: the text itself when they are valid UTF-8,
/// colon-separated hexadecimal otherwise.
pub open spec fn bytes_text(bytes: Seq<u8>) -> Seq<char> {
    if valid_utf8(bytes) {
        decode_utf8(bytes)
    } else {
        hex_joined(bytes)
    }
}

/// How a Chassis ID reads: its naming scheme, then its value.
pub open spec fn chassis_text(c: SpecChassisId) -> Seq<char> {
    match c {
        SpecChassisId::ChassisComponent(v) => "chassis-component "@ + bytes_text(v),
        SpecChassisId::InterfaceAlias(v) => "interface-alias "@ + bytes_text(v),
        SpecChassisId::PortComponent(v) => "port-component "@ + bytes_text(v),
        SpecChassisId::MacAddress(m) => "mac "@ + hex_joined(m),
        SpecChassisId::NetworkAddress(a) => "network-address("@ + decimal(a.family) + ") "@
            + bytes_text(a.bytes),
        SpecChassisId::InterfaceName(v) => "interface-name "@ + bytes_text(v),
        SpecChassisId::Local(v) => "local "@ + bytes_text(v),
        SpecChassisId::Other { subtype, value } => "other("@ + decimal(subtype) + ") "@
            + bytes_text(value),
    }
}

/// How a Port ID reads: its naming scheme, then its value.
pub open spec fn port_text(p: SpecPortId) -> Seq<char> {
    match p {
        SpecPortId::InterfaceAlias(v) => "interface-alias "@ + bytes_text(v),
        SpecPortId::PortComponent(v) => "port-component "@ + bytes_text(v),
        SpecPortId::MacAddress(m) => "mac "@ + hex_joined(m),
        SpecPortId::NetworkAddress(a) => "network-address("@ + decimal(a.family) + ") "@
            + bytes_text(a.bytes),
        SpecPortId::InterfaceName(v) => "interface-name "@ + bytes_text(v),
        SpecPortId::AgentCircuitId(v) => "agent-circuit-id "@ + bytes_text(v),
        SpecPortId::Local(v) => "local "@ + bytes_text(v),
        SpecPortId::Other { subtype, value } => "other("@ + decimal(subtype) + ") "@
            + bytes_text(value),
    }
}

/// How an error reads.
pub open spec fn error_text(e: Error) -> Seq<char> {
    match e {
        Error::Truncated => "truncated LLDPDU"@,
        Error::Malformed(what) => "malformed "@ + what@,
        Error::MissingMandatory(what) => "missing mandatory "@ + what@,
        Error::UnexpectedMandatory { expected, got } => "expected mandatory "@ + expected@
            + ", got tlv type "@ + decimal(got),
        Error::TooLong(what) => what@ + " too long to encode"@,
    }
}

// ---------------------------------------------------------------------------
// Writers.
// ---------------------------------------------------------------------------
fn hex_char(n: u8) -> (c: char)
    requires
        n < 16,
    ensures
        c == hex_digit(n as int),
{
    if n < 10 {
        (48 + n) as char
    } else {
        (87 + n) as char
    }
}

fn write_hex_byte(out: &mut String, b: u8)
    ensures
        final(out)@ == old(out)@ + hex_byte(b),
{
    push_char(out, hex_char(b / 16));
    push_char(out, hex_char(b % 16));
    assert(out@ =~= old(out)@ + hex_byte(b));
}

/// Write `bytes` as colon-separated two-digit hexadecimal.
fn write_hex(out: &mut String, bytes: &[u8])
    ensures
        final(out)@ == old(out)@ + hex_joined(bytes@),
{
    let ghost start = out@;
    let mut i: usize = 0;
    assert(bytes@.take(0) =~= seq![]);
    while i < bytes.len()
        invariant
            0 <= i <= bytes@.len(),
            out@ == start + hex_joined(bytes@.take(i as int)),
        decreases bytes@.len() - i,
    {
        let ghost before = out@;
        if i > 0 {
            push_char(out, ':');
        }
        write_hex_byte(out, bytes[i]);
        proof {
            let next = bytes@.take(i + 1);
            assert(next.drop_last() =~= bytes@.take(i as int));
            assert(next.last() == bytes@[i as int]);
            if i == 0 {
                assert(out@ =~= start + hex_joined(next));
            } else {
                assert(out@ =~= start + hex_joined(next));
            }
        }
        i = i + 1;
    }
    assert(bytes@.take(bytes@.len() as int) =~= bytes@);
}

/// Write a MAC address as colon-separated two-digit hexadecimal.
fn write_mac(out: &mut String, mac: &[u8; 6])
    ensures
        final(out)@ == old(out)@ + hex_joined(mac@),
{
    write_hex(out, mac.as_slice());
}

/// Write identifier bytes: as text when they are valid UTF-8, as
/// colon-separated hexadecimal otherwise.
fn write_bytes(out: &mut String, bytes: &[u8])
    ensures
        final(out)@ == old(out)@ + bytes_text(bytes@),
{
    match str_from_utf8(bytes) {
        Some(text) => {
            proof {
                lemma_decoded_text(text, bytes@);
            }
            out.append(text);
        },
        None => write_hex(out, bytes),
    }
}

/// Write a byte in decimal.
fn write_decimal(out: &mut String, n: u8)
    ensures
        final(out)@ == old(out)@ + decimal(n),
{
    if n >= 100 {
        push_char(out, (48 + n / 100) as char);
    }
    if n >= 10 {
        push_char(out, (48 + (n / 10) % 10) as char);
    }
    push_char(out, (48 + n % 10) as char);
    assert(out@ =~= old(out)@ + decimal(n));
}

impl<'a> ChassisId<'a> {
    /// The Chassis ID as text: its naming scheme, then its value (a MAC as
    /// colon-separated hexadecimal, other identifiers as text when they are
    /// UTF-8).
    pub fn to_string(&self) -> (r: String)
        ensures
            r@ == chassis_text(self@),
    {
        let mut out = String::new();
        match self {
            Self::ChassisComponent(v) => {
                out.append("chassis-component ");
                write_bytes(&mut out, v);
            },
            Self::InterfaceAlias(v) => {
                out.append("interface-alias ");
                write_bytes(&mut out, v);
            },
            Self::PortComponent(v) => {
                out.append("port-component ");
                write_bytes(&mut out, v);
            },
            Self::MacAddress(m) => {
                out.append("mac ");
                write_mac(&mut out, m);
            },
            Self::NetworkAddress(a) => {
                out.append("network-address(");
                write_decimal(&mut out, a.family);
                out.append(") ");
                write_bytes(&mut out, a.bytes);
            },
            Self::InterfaceName(v) => {
                out.append("interface-name ");
                write_bytes(&mut out, v);
            },
            Self::Local(v) => {
                out.append("local ");
                write_bytes(&mut out, v);
            },
            Self::Other { subtype, value } => {
                out.append("other(");
                write_decimal(&mut out, *subtype);
                out.append(") ");
                write_bytes(&mut out, value);
            },
        }
        out
    }
}

impl<'a> PortId<'a> {
    /// The Port ID as text: its naming scheme, then its value (a MAC as
    /// colon-separated hexadecimal, other identifiers as text when they are
    /// UTF-8).
    pub fn to_string(&self) -> (r: String)
        ensures
            r@ == port_text(self@),
    {
        let mut out = String::new();
        match self {
            Self::InterfaceAlias(v) => {
                out.append("interface-alias ");
                write_bytes(&mut out, v);
            },
            Self::PortComponent(v) => {
                out.append("port-component ");
                write_bytes(&mut out, v);
            },
            Self::MacAddress(m) => {
                out.append("mac ");
                write_mac(&mut out, m);
            },
            Self::NetworkAddress(a) => {
                out.append("network-address(");
                write_decimal(&mut out, a.family);
                out.append(") ");
                write_bytes(&mut out, a.bytes);
            },
            Self::InterfaceName(v) => {
                out.append("interface-name ");
                write_bytes(&mut out, v);
            },
            Self::AgentCircuitId(v) => {
                out.append("agent-circuit-id ");
                write_bytes(&mut out, v);
            },
            Self::Local(v) => {
                out.append("local ");
                write_bytes(&mut out, v);
            },
            Self::Other { subtype, value } => {
                out.append("other(");
                write_decimal(&mut out, *subtype);
                out.append(") ");
                write_bytes(&mut out, value);
            },
        }
        out
    }
}

impl Error {
    /// The error as a message naming what went wrong.
    pub fn to_string(&self) -> (r: String)
        ensures
            r@ == error_text(*self),
    {
        let mut out = String::new();
        match self {
            Error::Truncated => out.append("truncated LLDPDU"),
            Error::Malformed(what) => {
                out.append("malformed ");
                out.append(what);
            },
            Error::MissingMandatory(what) => {
                out.append("missing mandatory ");
                out.append(what);
            },
            Error::UnexpectedMandatory { expected, got } => {
                out.append("expected mandatory ");
                out.append(expected);
                out.append(", got tlv type ");
                write_decimal(&mut out, *got);
            },
            Error::TooLong(what) => {
                out.append(what);
                out.append(" too long to encode");
            },
        }
        out
    }
}

} // verus!
