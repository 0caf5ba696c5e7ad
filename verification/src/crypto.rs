//! The cryptographic calls the decoder relies on, behind trusted
//! wrappers: MD5 digests, hex encoding, Blowfish in ECB and CBC mode with
//! little-endian word order, and base64. Each wrapper's contract states
//! what the called crate's source shows; results that no short formula
//! captures (digests, ciphertexts) are named by uninterpreted functions of
//! the inputs alone.

use vstd::prelude::*;

use block_modes::BlockMode;
use base64::Engine;
use md5::Digest;

verus! {

/// Errors of the cryptographic boundary.
#[derive(Clone, Copy, PartialEq, Eq, Structural, Debug)]
pub enum CryptoError {
    /// A key or buffer did not fit the cipher.
    Cipher,
    /// A hex string was odd-length or held a non-hex byte.
    Hex,
    /// A base64 text did not decode.
    Base64,
}

/// The MD5 digest of a byte sequence.
pub uninterp spec fn md5_of(data: Seq<u8>) -> Seq<u8>;

/// Relies on the `md5::Md5` hasher (the `md-5` crate): the digest is a
/// function of the input bytes alone, sixteen bytes long.
#[verifier::external_body]
pub fn md5_digest(data: &[u8]) -> (r: Vec<u8>)
    ensures
        r@ == md5_of(data@),
        r@.len() == 16,
{
    md5::Md5::digest(data).to_vec()
}

/// The lowercase hex digit of a value in `0..16`.
pub open spec fn hex_digit(v: int) -> u8 {
    if v < 10 {
        (48 + v) as u8
    } else {
        (87 + v) as u8
    }
}

/// The lowercase hex encoding: two digits per byte, high nibble first.
pub open spec fn hex_of(data: Seq<u8>) -> Seq<u8> {
    Seq::new(
        2 * data.len(),
        |i: int|
            if i % 2 == 0 {
                hex_digit(data[i / 2] as int / 16)
            } else {
                hex_digit(data[i / 2] as int % 16)
            },
    )
}

/// Relies on `hex::encode`: lowercase, two digits per byte, high nibble
/// first.
#[verifier::external_body]
pub fn hex_encode(data: &[u8]) -> (r: Vec<u8>)
    ensures
        r@ == hex_of(data@),
{
    hex::encode(data).into_bytes()
}

/// Whether a byte is a hex digit, either case.
pub open spec fn is_hex_digit(b: u8) -> bool {
    (48 <= b <= 57) || (97 <= b <= 102) || (65 <= b <= 70)
}

/// The value of a hex digit byte.
pub open spec fn hex_val(b: u8) -> int {
    if 48 <= b <= 57 {
        b - 48
    } else if 97 <= b <= 102 {
        b - 87
    } else {
        b - 55
    }
}

/// The bytes a hex string denotes, two digits per byte.
pub open spec fn hex_bytes_of(s: Seq<u8>) -> Seq<u8> {
    Seq::new(
        (s.len() / 2) as nat,
        |i: int| (16 * hex_val(s[2 * i]) + hex_val(s[2 * i + 1])) as u8,
    )
}

/// Relies on `hex::decode`: it succeeds exactly on even-length strings of
/// hex digits of either case, and yields one byte per digit pair.
#[verifier::external_body]
pub fn hex_decode(s: &[u8]) -> (r: Result<Vec<u8>, CryptoError>)
    ensures
        r is Ok <==> (s@.len() % 2 == 0 && forall|i: int|
            0 <= i < s@.len() ==> is_hex_digit(#[trigger] s@[i])),
        r matches Ok(v) ==> v@ == hex_bytes_of(s@),
{
    match hex::decode(s) {
        Ok(v) => Ok(v),
        Err(_) => Err(CryptoError::Hex),
    }
}

/// The Blowfish-ECB decryption (little-endian word order) of a buffer
/// under a key.
pub uninterp spec fn blowfish_ecb_decrypt(key: Seq<u8>, data: Seq<u8>) -> Seq<u8>;

/// Relies on `block_modes::Ecb` over `blowfish::BlowfishLE` without
/// padding: construction accepts keys of 4 to 56 bytes, decryption accepts
/// buffers that are a multiple of the 8-byte block, and the output is a
/// function of key and buffer with the buffer's length.
#[verifier::external_body]
pub fn ecb_decrypt(key: &[u8], data: &[u8]) -> (r: Result<Vec<u8>, CryptoError>)
    ensures
        r is Ok <==> (4 <= key@.len() <= 56 && data@.len() % 8 == 0),
        r matches Ok(v) ==> v@ == blowfish_ecb_decrypt(key@, data@) && v@.len() == data@.len(),
{
    let iv: [u8; 0] = [];
    match block_modes::Ecb::<blowfish::BlowfishLE, block_modes::block_padding::NoPadding>::new_from_slices(
        key,
        &iv,
    ) {
        Ok(c) => match c.decrypt_vec(data) {
            Ok(v) => Ok(v),
            Err(_) => Err(CryptoError::Cipher),
        },
        Err(_) => Err(CryptoError::Cipher),
    }
}

/// The Blowfish-CBC encryption (little-endian word order) of a buffer
/// under a key and initialization vector.
pub uninterp spec fn blowfish_cbc_encrypt(key: Seq<u8>, iv: Seq<u8>, data: Seq<u8>) -> Seq<u8>;

/// Relies on `block_modes::Cbc` over `blowfish::BlowfishLE` without
/// padding: with an 8-byte initialization vector and a block-aligned
/// buffer, construction accepts keys of 4 to 56 bytes and the ciphertext
/// is a function of key, vector and buffer with the buffer's length.
#[verifier::external_body]
pub fn cbc_encrypt(key: &[u8], iv: &[u8], data: &[u8]) -> (r: Result<Vec<u8>, CryptoError>)
    requires
        iv@.len() == 8,
        data@.len() % 8 == 0,
    ensures
        r is Ok <==> 4 <= key@.len() <= 56,
        r matches Ok(v) ==> v@ == blowfish_cbc_encrypt(key@, iv@, data@) && v@.len()
            == data@.len(),
{
    match block_modes::Cbc::<blowfish::BlowfishLE, block_modes::block_padding::NoPadding>::new_from_slices(
        key,
        iv,
    ) {
        Ok(c) => Ok(c.encrypt_vec(data)),
        Err(_) => Err(CryptoError::Cipher),
    }
}

/// The Blowfish-CBC decryption (little-endian word order) of a buffer
/// under a key and initialization vector.
pub uninterp spec fn blowfish_cbc_decrypt(key: Seq<u8>, iv: Seq<u8>, data: Seq<u8>) -> Seq<u8>;

/// Relies on `block_modes::Cbc` over `blowfish::BlowfishLE` without
/// padding: with an 8-byte initialization vector, decryption succeeds
/// exactly for keys of 4 to 56 bytes and block-aligned buffers, and the
/// plaintext is a function of key, vector and buffer with the buffer's
/// length.
#[verifier::external_body]
pub fn cbc_decrypt(key: &[u8], iv: &[u8], data: &[u8]) -> (r: Result<Vec<u8>, CryptoError>)
    requires
        iv@.len() == 8,
    ensures
        r is Ok <==> (4 <= key@.len() <= 56 && data@.len() % 8 == 0),
        r matches Ok(v) ==> v@ == blowfish_cbc_decrypt(key@, iv@, data@) && v@.len()
            == data@.len(),
{
    match block_modes::Cbc::<blowfish::BlowfishLE, block_modes::block_padding::NoPadding>::new_from_slices(
        key,
        iv,
    ) {
        Ok(c) => match c.decrypt_vec(data) {
            Ok(v) => Ok(v),
            Err(_) => Err(CryptoError::Cipher),
        },
        Err(_) => Err(CryptoError::Cipher),
    }
}

/// The standard base64 encoding of a byte sequence.
pub uninterp spec fn base64_encoding_of(data: Seq<u8>) -> Seq<u8>;

/// Relies on `base64`'s standard engine: the encoding is a function of the
/// input bytes alone, and an empty input gives an empty text.
#[verifier::external_body]
pub fn base64_encode(data: &[u8]) -> (r: Vec<u8>)
    ensures
        r@ == base64_encoding_of(data@),
        data@.len() == 0 ==> r@.len() == 0,
{
    base64::engine::general_purpose::STANDARD.encode(data).into_bytes()
}

/// The bytes a standard base64 text denotes: nothing when the text is not
/// well-formed base64.
pub uninterp spec fn base64_decoding_of(s: Seq<u8>) -> Option<Seq<u8>>;

/// Relies on `base64`'s standard engine: whether decoding succeeds, and
/// what it yields, are functions of the text alone.
#[verifier::external_body]
pub fn base64_decode(s: &[u8]) -> (r: Result<Vec<u8>, CryptoError>)
    ensures
        r is Ok <==> base64_decoding_of(s@) is Some,
        r matches Ok(v) ==> Some(v@) == base64_decoding_of(s@),
        r matches Err(e) ==> e == CryptoError::Base64,
{
    match base64::engine::general_purpose::STANDARD.decode(s) {
        Ok(v) => Ok(v),
        Err(_) => Err(CryptoError::Base64),
    }
}

/// A running MD5 digest: the md5 crate's hasher held opaquely, since its
/// wrapper type cannot be declared to the verifier. What it has been fed
/// so far is named by `md5_fed`.
#[verifier::external_body]
pub struct Md5Stream {
    inner: md5::Md5,
}

/// The bytes a running digest has been fed so far.
pub uninterp spec fn md5_fed(h: Md5Stream) -> Seq<u8>;

/// Relies on `md5::Md5::new`: a fresh hasher has been fed nothing.
#[verifier::external_body]
pub fn md5_stream_new() -> (r: Md5Stream)
    ensures
        md5_fed(r) == Seq::<u8>::empty(),
{
    Md5Stream { inner: <md5::Md5 as md5::Digest>::new() }
}

/// Relies on `md5::Digest::update`: feeding appends to the accumulated
/// input.
#[verifier::external_body]
pub fn md5_stream_update(h: &mut Md5Stream, data: &[u8])
    ensures
        md5_fed(*final(h)) == md5_fed(*old(h)) + data@,
{
    md5::Digest::update(&mut h.inner, data);
}

/// Relies on `md5::Digest::finalize`: the result is the digest of the
/// accumulated input, fed at once or in pieces.
#[verifier::external_body]
pub fn md5_stream_finalize(h: Md5Stream) -> (r: Vec<u8>)
    ensures
        r@ == md5_of(md5_fed(h)),
        r@.len() == 16,
{
    md5::Digest::finalize(h.inner).to_vec()
}

} // verus!
