use tftp::netascii::{NaDecoder, NaEncoder};

fn encode_all(chunks: &[&[u8]]) -> Vec<u8> {
    let mut enc = NaEncoder::new();
    let mut out = Vec::new();
    for c in chunks {
        out.extend(enc.push(c));
    }
    out.extend(enc.finish());
    out
}

fn decode_all(chunks: &[&[u8]]) -> Vec<u8> {
    let mut dec = NaDecoder::new();
    let mut out = Vec::new();
    for c in chunks {
        out.extend(dec.push(c));
    }
    out.extend(dec.finish());
    out
}

#[test]
fn test_encode_line_endings() {
    assert_eq!(encode_all(&[b"one\ntwo\n"]), b"one\r\ntwo\r\n".to_vec());
    assert_eq!(encode_all(&[b"bare\rcr"]), b"bare\r\0cr".to_vec());
    assert_eq!(encode_all(&[b"crlf\r\nkept"]), b"crlf\r\nkept".to_vec());
}

#[test]
fn test_decode_line_endings() {
    assert_eq!(decode_all(&[b"one\r\ntwo\r\n"]), b"one\ntwo\n".to_vec());
    assert_eq!(decode_all(&[b"bare\r\0cr"]), b"bare\rcr".to_vec());
}

#[test]
fn test_decode_carries_cr_across_block_boundary() {
    // The CR lands exactly at the end of a block; its meaning is settled
    // by the first byte of the next one.
    assert_eq!(decode_all(&[b"a\r", b"\nb"]), b"a\nb".to_vec());
    assert_eq!(decode_all(&[b"a\r", b"\0b"]), b"a\rb".to_vec());
    assert_eq!(decode_all(&[b"a\r", b"xb"]), b"a\rxb".to_vec());
}

#[test]
fn test_encode_carries_cr_across_block_boundary() {
    assert_eq!(encode_all(&[b"a\r", b"\nb"]), b"a\r\nb".to_vec());
    assert_eq!(encode_all(&[b"a\r", b"xb"]), b"a\r\0xb".to_vec());
}

#[test]
fn test_trailing_cr_is_flushed_at_the_end() {
    assert_eq!(encode_all(&[b"tail\r"]), b"tail\r\0".to_vec());
    assert_eq!(decode_all(&[b"tail\r"]), b"tail\r".to_vec());
}

#[test]
fn test_netascii_round_trip_through_the_stream() {
    let host = b"line one\nline two\rwith cr\n\n".to_vec();
    let wire = encode_all(&[&host]);
    // Chunk the wire form awkwardly so the pending byte is exercised.
    let mut dec = NaDecoder::new();
    let mut back = Vec::new();
    for chunk in wire.chunks(3) {
        back.extend(dec.push(chunk));
    }
    back.extend(dec.finish());
    assert_eq!(back, host);
}
