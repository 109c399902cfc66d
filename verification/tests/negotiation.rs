use tftp::negotiate::{accepted_block_size, format_decimal, negotiate, parse_decimal};
use tftp::options::OptPair;

fn opt(key: &[u8], value: &[u8]) -> OptPair {
    OptPair { key: key.to_vec(), value: value.to_vec() }
}

#[test]
fn test_parse_decimal() {
    assert_eq!(parse_decimal(b"0"), Some(0));
    assert_eq!(parse_decimal(b"1024"), Some(1024));
    assert_eq!(parse_decimal(b"100000"), Some(100000));
    assert_eq!(parse_decimal(b"18446744073709551615"), Some(u64::MAX));
    assert_eq!(parse_decimal(b"18446744073709551616"), None);
    assert_eq!(parse_decimal(b""), None);
    assert_eq!(parse_decimal(b"12a"), None);
    assert_eq!(parse_decimal(b"-3"), None);
}

#[test]
fn test_format_decimal() {
    assert_eq!(format_decimal(0), b"0".to_vec());
    assert_eq!(format_decimal(512), b"512".to_vec());
    assert_eq!(format_decimal(65464), b"65464".to_vec());
}

#[test]
fn test_blksize_echoed_when_supported() {
    // A request for 1024 against a server whose maximum is 1024 is echoed
    // unchanged.
    let opts = vec![opt(b"blksize", b"1024")];
    let n = negotiate(&opts, 1024, None);
    assert_eq!(n.block_size, 1024);
    assert_eq!(n.reply, vec![opt(b"blksize", b"1024")]);
}

#[test]
fn test_blksize_clamped_to_maximum() {
    // A request for 100000 is clamped to the server's maximum and never
    // exceeds 65464.
    let opts = vec![opt(b"blksize", b"100000")];
    let n = negotiate(&opts, 65464, None);
    assert_eq!(n.block_size, 65464);
    assert_eq!(n.reply, vec![opt(b"blksize", b"65464")]);

    let n = negotiate(&opts, 1024, None);
    assert_eq!(n.block_size, 1024);
    assert_eq!(n.reply, vec![opt(b"blksize", b"1024")]);
}

#[test]
fn test_blksize_clamped_up_to_eight() {
    let opts = vec![opt(b"blksize", b"1")];
    let n = negotiate(&opts, 65464, None);
    assert_eq!(n.block_size, 8);
    assert_eq!(n.reply, vec![opt(b"blksize", b"8")]);
}

#[test]
fn test_no_options_means_no_oack_and_default_block() {
    let n = negotiate(&vec![], 65464, None);
    assert!(n.reply.is_empty());
    assert_eq!(n.block_size, 512);
    assert_eq!(n.timeout, None);
}

#[test]
fn test_unrecognized_and_invalid_options_are_ignored() {
    let opts = vec![
        opt(b"windowsize", b"4"),
        opt(b"blksize", b"many"),
        opt(b"timeout", b"5"),
    ];
    let n = negotiate(&opts, 65464, None);
    // The unknown key and the non-numeric blksize are dropped; timeout
    // stays.
    assert_eq!(n.reply, vec![opt(b"timeout", b"5")]);
    assert_eq!(n.block_size, 512);
    assert_eq!(n.timeout, Some(5));
}

#[test]
fn test_timeout_clamped_to_valid_range() {
    let n = negotiate(&vec![opt(b"timeout", b"500")], 65464, None);
    assert_eq!(n.timeout, Some(255));
    assert_eq!(n.reply, vec![opt(b"timeout", b"255")]);
    let n = negotiate(&vec![opt(b"timeout", b"0")], 65464, None);
    assert_eq!(n.timeout, Some(1));
    assert_eq!(n.reply, vec![opt(b"timeout", b"1")]);
}

#[test]
fn test_tsize_reports_actual_size() {
    let opts = vec![opt(b"tsize", b"0")];
    let n = negotiate(&opts, 65464, Some(31415));
    assert_eq!(n.reply, vec![opt(b"tsize", b"31415")]);
    // Without a size to report, the option is ignored.
    let n = negotiate(&opts, 65464, None);
    assert!(n.reply.is_empty());
}

#[test]
fn test_client_accepts_only_lowered_blksize() {
    // The server may lower the requested block size, never raise it.
    let reply = vec![opt(b"blksize", b"512")];
    assert_eq!(accepted_block_size(&reply, 1024).unwrap(), 512);
    let reply = vec![opt(b"blksize", b"2048")];
    assert!(accepted_block_size(&reply, 1024).is_err());
    let reply = vec![opt(b"blksize", b"4")];
    assert!(accepted_block_size(&reply, 1024).is_err());
    // No blksize in the answer: the default applies.
    let reply = vec![opt(b"timeout", b"5")];
    assert_eq!(accepted_block_size(&reply, 1024).unwrap(), 512);
}

#[test]
fn test_option_keys_are_case_insensitive() {
    let opts = vec![opt(b"BlkSize", b"1024")];
    let n = negotiate(&opts, 65464, None);
    assert_eq!(n.block_size, 1024);
    assert_eq!(n.reply, vec![opt(b"blksize", b"1024")]);
}
