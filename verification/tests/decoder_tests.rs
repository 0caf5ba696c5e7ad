//! The decoder core: the chunk partition, header parsing, the one-time
//! key, per-chunk decryption, the key-exchange request and response, and
//! the fingerprint check. These tests run the real cryptographic crates
//! through the library's boundary.

use block_modes::{BlockMode, Cbc, Ecb};
use block_modes::block_padding::NoPadding;
use blowfish::BlowfishLE;
use md5::{Digest, Md5};

use otr::decoder::{
    cbc_key, chunk_sizes, decode_chunk, decoding_params, decoding_params_request, format_date,
    current_date_parts, file_size_from_params, header_params, md5_digest_chunks, params_from_str,
    params_get, parse_params, verify_checksum, DecodeError,
};

const PREAMBLE_KEY: &str = "EF3AB29CD19F0CAC5759C7ABD12CC92BA3FE0AFEBF960D63FEBD0F45";

#[test]
fn chunk_partition() {
    let c = 10 * 1024 * 1024;
    let sizes = chunk_sizes(2 * c + 8001);
    assert_eq!(sizes, vec![c, c, 8000, 1]);
    let sizes = chunk_sizes(16);
    assert_eq!(sizes, vec![16]);
    let sizes = chunk_sizes(0);
    assert!(sizes.is_empty());
    let sizes = chunk_sizes(5);
    assert_eq!(sizes, vec![5]);
}

#[test]
fn chunk_partition_covers_payload() {
    // The decoder's output size is the declared size less the header.
    for size in [0usize, 1, 7, 8, 9, 4096, 10 * 1024 * 1024 + 3] {
        let total: usize = chunk_sizes(size).iter().sum();
        assert_eq!(total, size);
    }
}

#[test]
fn short_final_chunk_stays_encoded() {
    // A chunk below the block size is emitted un-decrypted.
    let chunk = vec![1u8, 2, 3];
    let out = decode_chunk(b"0011223344556677", chunk.clone()).unwrap();
    assert_eq!(out, chunk);
}

#[test]
fn chunk_decryption_inverts_the_cipher() {
    let key = b"\x01\x02\x03\x04\x05\x06\x07\x08";
    let plain = b"0123456789abcdef".to_vec();
    let cipher = Ecb::<BlowfishLE, NoPadding>::new_from_slices(key, &[])
        .unwrap()
        .encrypt_vec(&plain);
    let out = decode_chunk(hex::encode(key).as_bytes(), cipher).unwrap();
    assert_eq!(out, plain);
}

#[test]
fn parameter_strings() {
    let ps = parse_params(b"A=1&B=two&&C=").unwrap();
    assert_eq!(params_get(&ps, b"A").unwrap(), b"1".to_vec());
    assert_eq!(params_get(&ps, b"B").unwrap(), b"two".to_vec());
    assert_eq!(params_get(&ps, b"C").unwrap(), b"".to_vec());
    assert!(params_get(&ps, b"D").is_none());
    assert!(parse_params(b"A=1&oops").is_err());
    let ps = params_from_str(b"SZ=1000", &vec![b"SZ".to_vec()]).unwrap();
    assert_eq!(file_size_from_params(&ps).unwrap(), 1000);
    assert!(matches!(
        params_from_str(b"SZ=1000", &vec![b"FN".to_vec()]),
        Err(DecodeError::MissingParam)
    ));
}

fn build_header(params: &str) -> Vec<u8> {
    let mut block = params.as_bytes().to_vec();
    while block.len() < 512 {
        block.push(b'&');
    }
    let key = hex::decode(PREAMBLE_KEY).unwrap();
    let cipher = Ecb::<BlowfishLE, NoPadding>::new_from_slices(&key, &[]).unwrap();
    // encrypting the padded block gives a header the decoder must invert
    let encrypted = cipher.encrypt_vec(&block);
    let mut header = b"OTRKEYFILE".to_vec();
    header.extend_from_slice(&encrypted);
    header
}

#[test]
fn header_parsing() {
    let header = build_header("FN=show.avi&SZ=1522&OH=x&FH=y");
    let ps = header_params(&header).unwrap();
    assert_eq!(params_get(&ps, b"FN").unwrap(), b"show.avi".to_vec());
    assert_eq!(file_size_from_params(&ps).unwrap(), 1522);
}

#[test]
fn header_parsing_errors() {
    assert!(matches!(header_params(b"short"), Err(DecodeError::HeaderLength)));
    let mut bad_magic = build_header("FN=a&SZ=1&OH=x&FH=y");
    bad_magic[0] = b'X';
    assert!(matches!(header_params(&bad_magic), Err(DecodeError::BadMagic)));
    let missing = build_header("FN=a&SZ=1&OH=x");
    assert!(matches!(header_params(&missing), Err(DecodeError::MissingParam)));
}

#[test]
fn one_time_key_braid() {
    let user = b"alice";
    let password = b"secret";
    let date = b"20260101";
    let key = cbc_key(user, password, date);
    let uh = hex::encode(Md5::digest(user));
    let ph = hex::encode(Md5::digest(password));
    let expected = format!(
        "{}{}{}{}{}{}{}",
        &uh[0..13],
        "2026",
        &ph[0..11],
        "01",
        &uh[21..32],
        "01",
        &ph[19..32]
    );
    assert_eq!(key, expected.as_bytes().to_vec());
    assert_eq!(key.len(), 56);
}

#[test]
fn date_formatting() {
    assert_eq!(format_date(2026, 1, 5), b"20260105".to_vec());
    assert_eq!(format_date(987, 12, 31), b"09871231".to_vec());
    let (_, m, d) = current_date_parts();
    assert!((1..=12).contains(&m) && (1..=31).contains(&d));
}

#[test]
fn key_request_url_shape() {
    let key_hex = cbc_key(b"alice", b"secret", b"20260101");
    let url = decoding_params_request(&key_hex, b"alice", b"secret", b"show.avi", b"oh", b"20260101")
        .unwrap();
    let url = String::from_utf8(url).unwrap();
    assert!(url.starts_with("http://onlinetvrecorder.com/quelle_neu1.php?code="));
    assert!(url.ends_with("&AA=alice&ZZ=20260101"));
}

#[test]
fn key_response_parsing() {
    let key_hex = cbc_key(b"alice", b"secret", b"20260101");
    let key = hex::decode(&key_hex).unwrap();
    let iv = [7u8; 8];
    let plain = b"&HP=001122334455&";
    let mut padded = plain.to_vec();
    while padded.len() % 8 != 0 {
        padded.push(b'&');
    }
    let cipher = Cbc::<BlowfishLE, NoPadding>::new_from_slices(&key, &iv)
        .unwrap()
        .encrypt_vec(&padded);
    let mut raw = iv.to_vec();
    raw.extend_from_slice(&cipher);
    let response = base64::Engine::encode(&base64::engine::general_purpose::STANDARD, &raw);
    let ps = decoding_params(&key_hex, response.as_bytes()).unwrap();
    assert_eq!(params_get(&ps, b"HP").unwrap(), b"001122334455".to_vec());
}

#[test]
fn key_response_protocol_error() {
    let key_hex = cbc_key(b"alice", b"secret", b"20260101");
    let r = decoding_params(&key_hex, b"MessageToBePrintedInDecoderquota exceeded");
    match r {
        Err(DecodeError::Protocol(message)) => assert_eq!(message, b"quota exceeded".to_vec()),
        _ => panic!("expected the protocol error"),
    }
}

#[test]
fn fingerprint_verification() {
    // A 48-character fingerprint encodes 16 bytes by repetition: every
    // third character is dropped before hex-decoding.
    let digest: [u8; 16] = Md5::digest(b"payload").into();
    let hex32 = hex::encode(digest);
    let mut fingerprint = String::new();
    for (i, c) in hex32.chars().enumerate() {
        fingerprint.push(c);
        if i % 2 == 1 {
            fingerprint.push('-');
        }
    }
    assert_eq!(fingerprint.len(), 48);
    assert_eq!(verify_checksum(&digest, fingerprint.as_bytes()).unwrap(), true);
    let other: [u8; 16] = Md5::digest(b"other").into();
    assert_eq!(verify_checksum(&other, fingerprint.as_bytes()).unwrap(), false);
    assert!(verify_checksum(&digest, b"too-short").is_err());
}

#[test]
fn further_error_variants() {
    // an unreadable declared size
    let ps = params_from_str(b"SZ=abc", &vec![b"SZ".to_vec()]).unwrap();
    assert!(matches!(file_size_from_params(&ps), Err(DecodeError::BadFileSize)));
    // a chunk with an unusable key
    assert!(matches!(
        decode_chunk(b"zz", vec![0u8; 16]),
        Err(DecodeError::BadKey)
    ));
    // a chunk that is not block-aligned
    assert!(matches!(
        decode_chunk(b"0011223344556677", vec![0u8; 12]),
        Err(DecodeError::BadChunk)
    ));
    let key_hex = cbc_key(b"alice", b"secret", b"20260101");
    // a response that is not base64
    assert!(matches!(
        decoding_params(&key_hex, b"!!!not base64!!!"),
        Err(DecodeError::Base64)
    ));
    // a response too short for a vector and one block
    let short = base64::Engine::encode(&base64::engine::general_purpose::STANDARD, [0u8; 8]);
    assert!(matches!(
        decoding_params(&key_hex, short.as_bytes()),
        Err(DecodeError::CorruptResponse)
    ));
    // a request whose fixed payload part leaves no room for padding
    let user = vec![b'u'; 600];
    assert!(matches!(
        decoding_params_request(&key_hex, &user, b"p", b"f", b"o", b"20260101"),
        Err(DecodeError::PayloadTooLong)
    ));
}

#[test]
fn incremental_digest_matches_one_shot() {
    // feeding the chunks one by one digests exactly the reader's sequence
    let chunks = vec![b"abc".to_vec(), b"".to_vec(), b"defgh".to_vec()];
    let digest = md5_digest_chunks(&chunks);
    let expected: [u8; 16] = Md5::digest(b"abcdefgh").into();
    assert_eq!(digest, expected.to_vec());
}
