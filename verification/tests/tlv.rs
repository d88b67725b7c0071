use lldpdu::tlv::{encode, encode_end, RawTlv, TlvIter, MAX_VALUE_LEN};
use lldpdu::Error;

/// Walk every TLV of `buf`, stopping at the first error.
fn collect(buf: &[u8]) -> Result<Vec<RawTlv<'_>>, Error> {
    let mut it = TlvIter::new(buf);
    let mut out = Vec::new();
    while let Some(item) = it.next() {
        out.push(item?);
    }
    Ok(out)
}

/// How many items a walk over `buf` yields.
fn count(buf: &[u8]) -> usize {
    let mut it = TlvIter::new(buf);
    let mut n = 0;
    while it.next().is_some() {
        n += 1;
    }
    n
}

#[test]
fn iterates_and_stops_at_end_marker() {
    // type 5 len 3 "abc" | type 4 len 0 | end | trailing padding
    let buf = [0x0A, 0x03, b'a', b'b', b'c', 0x08, 0x00, 0x00, 0x00, 0xFF];
    let tlvs: Vec<_> = collect(&buf).unwrap();
    assert_eq!(
        tlvs,
        vec![
            RawTlv {
                ty: 5,
                value: b"abc"
            },
            RawTlv { ty: 4, value: b"" },
        ]
    );
}

#[test]
fn truncated_value_yields_one_error_then_fuses() {
    let buf = [0x0A, 0x05, b'a']; // claims 5 bytes, has 1
    let mut it = TlvIter::new(&buf);
    assert_eq!(it.next(), Some(Err(Error::Truncated)));
    assert_eq!(it.next(), None);
}

#[test]
fn lone_header_byte_is_truncated() {
    let mut it = TlvIter::new(&[0x0A]);
    assert_eq!(it.next(), Some(Err(Error::Truncated)));
    assert_eq!(it.next(), None);
}

#[test]
fn nine_bit_length_crosses_the_byte_boundary() {
    // type 6, length 256: header 0x0D 0x00.
    let mut buf = vec![0x0D, 0x00];
    buf.extend_from_slice(&[0x55; 256]);
    let tlv = TlvIter::new(&buf).next().unwrap().unwrap();
    assert_eq!(tlv.ty, 6);
    assert_eq!(tlv.value.len(), 256);
}

#[test]
fn encode_round_trips_and_caps_length() {
    let mut out = Vec::new();
    encode(5, b"host", "system name", &mut out).unwrap();
    encode_end(&mut out);
    let tlv = TlvIter::new(&out).next().unwrap().unwrap();
    assert_eq!((tlv.ty, tlv.value), (5, &b"host"[..]));

    let big = [0u8; MAX_VALUE_LEN + 1];
    assert_eq!(
        encode(5, &big, "system name", &mut out),
        Err(Error::TooLong("system name"))
    );
}

/// The parser must be total: arbitrary bytes never panic.
#[test]
fn arbitrary_bytes_never_panic() {
    let mut seed = 0x2545F4914F6CDD1Du64;
    for _ in 0..1000 {
        let mut bytes = [0u8; 64];
        for b in &mut bytes {
            // xorshift* — deterministic garbage, no dev-dependencies.
            seed ^= seed >> 12;
            seed ^= seed << 25;
            seed ^= seed >> 27;
            *b = (seed.wrapping_mul(0x2545F4914F6CDD1D) >> 56) as u8;
        }
        for len in [0, 1, 2, 3, 17, 64] {
            let _ = count(&bytes[..len]);
        }
    }
}
