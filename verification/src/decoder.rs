//! The decoder core for encrypted recording containers: the fixed-size
//! header with its magic and encrypted parameter block, the key-exchange
//! request and response, the partition of the payload into chunks, the
//! per-chunk decryption, and the fingerprint check. File and network I/O
//! stay outside; everything here computes on bytes.

use vstd::prelude::*;

use crate::crypto::{
    base64_decode, base64_encode, base64_decoding_of, base64_encoding_of, blowfish_cbc_decrypt,
    blowfish_cbc_encrypt, blowfish_ecb_decrypt, cbc_decrypt, cbc_encrypt, ecb_decrypt, hex_bytes_of,
    hex_decode, hex_encode, hex_of, is_hex_digit, md5_digest, md5_of,
};
use crate::text::{bytes_of, spec_find, spec_starts_with};

verus! {

/// Errors of the decoder core.
#[derive(Debug)]
pub enum DecodeError {
    /// The header buffer does not have the header's size.
    HeaderLength,
    /// The container does not start with the expected magic.
    BadMagic,
    /// A parameter block does not parse as `key=value` pairs.
    MalformedParams,
    /// A required parameter is absent.
    MissingParam,
    /// The declared file size is absent or unreadable.
    BadFileSize,
    /// The key service answered with its error indicator; the payload is
    /// the rest of its message.
    Protocol(Vec<u8>),
    /// A response was not valid base64.
    Base64,
    /// A response had an impossible length.
    CorruptResponse,
    /// A key was not usable for the cipher.
    BadKey,
    /// A chunk did not fit the cipher.
    BadChunk,
    /// A fingerprint was not 48 hex characters.
    BadFingerprint,
    /// The request payload left no room for padding.
    PayloadTooLong,
}

/// One `key=value` parameter.
pub struct Param {
    /// The key.
    pub key: Vec<u8>,
    /// The value.
    pub value: Vec<u8>,
}

/// The pairs a parameter list denotes.
pub open spec fn params_view(ps: Seq<Param>) -> Seq<(Seq<u8>, Seq<u8>)> {
    Seq::new(ps.len(), |i: int| (ps[i].key@, ps[i].value@))
}

/// One `key=value` piece: the key before the first equals sign, the value
/// after it. A piece without an equals sign is ill-formed.
pub open spec fn spec_parse_param(piece: Seq<u8>) -> Option<(Seq<u8>, Seq<u8>)> {
    match spec_find(piece, 61u8, 0) {
        None => None,
        Some(d) => Some((piece.take(d), piece.skip(d + 1))),
    }
}

/// An `&`-separated parameter string: empty pieces are skipped, every
/// other piece must hold an equals sign.
pub open spec fn spec_parse_params(s: Seq<u8>) -> Option<Seq<(Seq<u8>, Seq<u8>)>>
    decreases s.len(),
{
    if s.len() == 0 {
        Some(Seq::empty())
    } else {
        match spec_find(s, 38u8, 0) {
            None => match spec_parse_param(s) {
                None => None,
                Some(p) => Some(seq![p]),
            },
            Some(e) => if !(0 <= e < s.len()) {
                None
            } else {
                let piece = s.take(e);
                let rest = spec_parse_params(s.skip(e + 1));
                if piece.len() == 0 {
                    rest
                } else {
                    match (spec_parse_param(piece), rest) {
                        (Some(p), Some(tail)) => Some(seq![p] + tail),
                        _ => None,
                    }
                }
            },
        }
    }
}

/// The value of the last parameter carrying `key`.
pub open spec fn spec_params_get(ps: Seq<(Seq<u8>, Seq<u8>)>, key: Seq<u8>) -> Option<Seq<u8>>
    decreases ps.len(),
{
    if ps.len() == 0 {
        None
    } else if ps.last().0 == key {
        Some(ps.last().1)
    } else {
        spec_params_get(ps.drop_last(), key)
    }
}

/// Parse one parameter piece.
fn parse_param(piece: &[u8]) -> (r: Option<Param>)
    ensures
        match r {
            Some(p) => spec_parse_param(piece@) == Some((p.key@, p.value@)),
            None => spec_parse_param(piece@) is None,
        },
{
    proof {
        crate::text::lemma_find_characterization(piece@, 61u8, 0);
    }
    match crate::text::find_byte(piece, 61, 0) {
        None => None,
        Some(d) => {
            proof {
                assert(d < piece@.len());
            }
            let key = crate::text::sub_vec(piece, 0, d);
            let after = &piece[d..piece.len()];
            let value = crate::text::sub_vec(after, 1, after.len());
            proof {
                assert(key@ =~= piece@.take(d as int));
                assert(after@ =~= piece@.skip(d as int));
                assert(value@ =~= piece@.skip(d + 1));
            }
            Some(Param { key, value })
        },
    }
}

/// Parse an `&`-separated parameter string.
pub fn parse_params(s: &[u8]) -> (r: Result<Vec<Param>, DecodeError>)
    ensures
        match r {
            Ok(ps) => spec_parse_params(s@) == Some(params_view(ps@)),
            Err(e) => spec_parse_params(s@) is None && e matches DecodeError::MalformedParams,
        },
    decreases s@.len(),
{
    if s.len() == 0 {
        let r: Vec<Param> = Vec::new();
        proof {
            assert(params_view(r@) =~= Seq::<(Seq<u8>, Seq<u8>)>::empty());
        }
        return Ok(r);
    }
    let e = match crate::text::find_byte(s, 38, 0) {
        None => {
            match parse_param(s) {
                None => {
                    return Err(DecodeError::MalformedParams);
                },
                Some(p) => {
                    let mut r: Vec<Param> = Vec::new();
                    r.push(p);
                    proof {
                        assert(params_view(r@) =~= seq![spec_parse_param(s@).unwrap()]);
                    }
                    return Ok(r);
                },
            }
        },
        Some(e) => e,
    };
    let piece = &s[0..e];
    let rest = &s[e + 1..s.len()];
    proof {
        assert(piece@ =~= s@.take(e as int));
        assert(rest@ =~= s@.skip(e + 1));
    }
    let tail = match parse_params(rest) {
        Ok(t) => t,
        Err(err) => {
            return Err(err);
        },
    };
    if piece.len() == 0 {
        return Ok(tail);
    }
    match parse_param(piece) {
        None => Err(DecodeError::MalformedParams),
        Some(p) => {
            let mut r: Vec<Param> = Vec::new();
            r.push(p);
            let mut tail = tail;
            let ghost tailv = params_view(tail@);
            r.append(&mut tail);
            proof {
                assert(params_view(r@) =~= seq![spec_parse_param(piece@).unwrap()] + tailv);
            }
            Ok(r)
        },
    }
}

/// The value of the last parameter carrying `key`.
pub fn params_get(ps: &Vec<Param>, key: &[u8]) -> (r: Option<Vec<u8>>)
    ensures
        match r {
            Some(v) => spec_params_get(params_view(ps@), key@) == Some(v@),
            None => spec_params_get(params_view(ps@), key@) is None,
        },
{
    let mut i: usize = ps.len();
    proof {
        assert(params_view(ps@).take(i as int) =~= params_view(ps@));
    }
    while i > 0
        invariant
            0 <= i <= ps@.len(),
            spec_params_get(params_view(ps@), key@) == spec_params_get(
                params_view(ps@).take(i as int),
                key@,
            ),
        decreases i,
    {
        i = i - 1;
        proof {
            assert(params_view(ps@).take(i + 1).last() == (
                ps@[i as int].key@,
                ps@[i as int].value@,
            ));
            assert(params_view(ps@).take(i + 1).drop_last() =~= params_view(ps@).take(i as int));
        }
        if crate::text::bytes_eq(ps[i].key.as_slice(), key) {
            return Some(crate::text::sub_vec(ps[i].value.as_slice(), 0, ps[i].value.len()));
        }
    }
    proof {
        assert(params_view(ps@).take(0) =~= Seq::<(Seq<u8>, Seq<u8>)>::empty());
    }
    None
}

/// Parse a parameter string and demand the presence of each listed key.
pub fn params_from_str(s: &[u8], must_have: &Vec<Vec<u8>>) -> (r: Result<Vec<Param>, DecodeError>)
    ensures
        r is Ok <==> (spec_parse_params(s@) matches Some(ps) && forall|k: int|
            0 <= k < must_have@.len() ==> spec_params_get(ps, #[trigger] must_have@[k]@) is Some),
        r matches Ok(ps) ==> spec_parse_params(s@) == Some(params_view(ps@)),
        r matches Err(e) ==> (e matches DecodeError::MalformedParams <==> spec_parse_params(s@)
            is None),
        r matches Err(e) ==> (e matches DecodeError::MissingParam <==> spec_parse_params(s@)
            is Some),
{
    let ps = match parse_params(s) {
        Ok(ps) => ps,
        Err(e) => {
            return Err(e);
        },
    };
    let mut k: usize = 0;
    while k < must_have.len()
        invariant
            0 <= k <= must_have@.len(),
            spec_parse_params(s@) == Some(params_view(ps@)),
            forall|j: int|
                0 <= j < k ==> spec_params_get(params_view(ps@), #[trigger] must_have@[j]@)
                    is Some,
        decreases must_have@.len() - k,
    {
        if params_get(&ps, must_have[k].as_slice()).is_none() {
            return Err(DecodeError::MissingParam);
        }
        k = k + 1;
    }
    Ok(ps)
}

/// The hex-encoded key that decrypts the header's parameter block.
pub open spec fn spec_preamble_key() -> Seq<u8> {
    hex_bytes_of(bytes_of("EF3AB29CD19F0CAC5759C7ABD12CC92BA3FE0AFEBF960D63FEBD0F45"@))
}

/// What the header's parameter block decrypts to.
pub open spec fn spec_header_payload(buffer: Seq<u8>) -> Seq<u8> {
    blowfish_ecb_decrypt(spec_preamble_key(), buffer.skip(10))
}

/// What header parsing yields: the magic is checked, the parameter block
/// decrypted and parsed, and the four required parameters demanded.
pub open spec fn spec_header_params(buffer: Seq<u8>) -> Result<Seq<(Seq<u8>, Seq<u8>)>, DecodeError> {
    if buffer.len() != 522 {
        Err(DecodeError::HeaderLength)
    } else if buffer.take(10) != bytes_of("OTRKEYFILE"@) {
        Err(DecodeError::BadMagic)
    } else {
        match spec_parse_params(spec_header_payload(buffer)) {
            None => Err(DecodeError::MalformedParams),
            Some(ps) => if spec_params_get(ps, bytes_of("FN"@)) is Some && spec_params_get(
                ps,
                bytes_of("SZ"@),
            ) is Some && spec_params_get(ps, bytes_of("OH"@)) is Some && spec_params_get(
                ps,
                bytes_of("FH"@),
            ) is Some {
                Ok(ps)
            } else {
                Err(DecodeError::MissingParam)
            },
        }
    }
}

/// Parse the fixed-size container header: verify the magic, decrypt the
/// parameter block with the fixed key, and extract the parameters, which
/// must include the original name, the declared size and both
/// fingerprints.
pub fn header_params(buffer: &[u8]) -> (r: Result<Vec<Param>, DecodeError>)
    ensures
        match r {
            Ok(ps) => spec_header_params(buffer@) == Ok::<_, DecodeError>(params_view(ps@)),
            Err(e) => spec_header_params(buffer@) is Err,
        },
{
    proof {
        reveal_strlit("OTRKEYFILE");
        reveal_strlit("EF3AB29CD19F0CAC5759C7ABD12CC92BA3FE0AFEBF960D63FEBD0F45");
        reveal_strlit("FN");
        reveal_strlit("SZ");
        reveal_strlit("OH");
        reveal_strlit("FH");
    }
    if buffer.len() != 522 {
        return Err(DecodeError::HeaderLength);
    }
    let magic = crate::text::lit_bytes("OTRKEYFILE");
    let head = &buffer[0..10];
    proof {
        assert(head@ =~= buffer@.take(10));
    }
    if !crate::text::bytes_eq(head, magic.as_slice()) {
        return Err(DecodeError::BadMagic);
    }
    let key_hex = crate::text::lit_bytes("EF3AB29CD19F0CAC5759C7ABD12CC92BA3FE0AFEBF960D63FEBD0F45");
    let key = match hex_decode(key_hex.as_slice()) {
        Ok(k) => k,
        Err(_) => {
            proof {
                assert(forall|i: int|
                    0 <= i < key_hex@.len() ==> is_hex_digit(#[trigger] key_hex@[i]));
                assert(false);
            }
            return Err(DecodeError::BadKey);
        },
    };
    let body = &buffer[10..522];
    proof {
        assert(body@ =~= buffer@.skip(10));
        assert(key@.len() == 28);
    }
    let plain = match ecb_decrypt(key.as_slice(), body) {
        Ok(p) => p,
        Err(_) => {
            proof {
                assert(false);
            }
            return Err(DecodeError::BadChunk);
        },
    };
    let mut must: Vec<Vec<u8>> = Vec::new();
    must.push(crate::text::lit_bytes("FN"));
    must.push(crate::text::lit_bytes("SZ"));
    must.push(crate::text::lit_bytes("OH"));
    must.push(crate::text::lit_bytes("FH"));
    match params_from_str(plain.as_slice(), &must) {
        Ok(ps) => {
            proof {
                assert(must@[0]@ == bytes_of("FN"@));
                assert(must@[1]@ == bytes_of("SZ"@));
                assert(must@[2]@ == bytes_of("OH"@));
                assert(must@[3]@ == bytes_of("FH"@));
            }
            Ok(ps)
        },
        Err(e) => {
            proof {
                assert(must@[0]@ == bytes_of("FN"@));
                assert(must@[1]@ == bytes_of("SZ"@));
                assert(must@[2]@ == bytes_of("OH"@));
                assert(must@[3]@ == bytes_of("FH"@));
            }
            Err(e)
        },
    }
}

/// The declared total file size, read from the header parameters.
pub fn file_size_from_params(params: &Vec<Param>) -> (r: Result<u64, DecodeError>)
    ensures
        r is Ok <==> (spec_params_get(params_view(params@), bytes_of("SZ"@)) matches Some(v)
            && v.len() > 0 && crate::text::all_digits(v) && crate::text::dec_value(v)
            <= u64::MAX),
        r matches Ok(n) ==> n == crate::text::dec_value(
            spec_params_get(params_view(params@), bytes_of("SZ"@)).unwrap(),
        ),
        r matches Err(e) ==> e matches DecodeError::BadFileSize,
{
    proof {
        reveal_strlit("SZ");
    }
    let key = crate::text::lit_bytes("SZ");
    match params_get(params, key.as_slice()) {
        None => Err(DecodeError::BadFileSize),
        Some(v) => match crate::text::parse_u64(v.as_slice()) {
            Some(n) => Ok(n),
            None => Err(DecodeError::BadFileSize),
        },
    }
}

/// The sum of a size sequence.
pub open spec fn seq_sum(s: Seq<int>) -> int
    decreases s.len(),
{
    if s.len() == 0 {
        0
    } else {
        seq_sum(s.drop_last()) + s.last()
    }
}

/// The chunk partition of a payload: as many maximal chunks as fit, then
/// the block-aligned part of the remainder, then the sub-block rest.
pub open spec fn spec_chunk_sizes(sz: int) -> Seq<int> {
    let full = sz / (crate::MAX_CHUNK_SIZE as int);
    let rem = sz % (crate::MAX_CHUNK_SIZE as int);
    Seq::new(full as nat, |i: int| crate::MAX_CHUNK_SIZE as int) + (if rem / 8 > 0 {
        seq![(rem / 8) * 8]
    } else {
        Seq::empty()
    }) + (if rem % 8 > 0 {
        seq![rem % 8]
    } else {
        Seq::empty()
    })
}

/// Partition a payload size into chunk sizes.
pub fn chunk_sizes(file_size: usize) -> (r: Vec<usize>)
    ensures
        r@.len() == spec_chunk_sizes(file_size as int).len(),
        forall|i: int|
            0 <= i < r@.len() ==> r@[i] as int == spec_chunk_sizes(file_size as int)[i],
{
    let full: usize = file_size / crate::MAX_CHUNK_SIZE;
    let rem: usize = file_size % crate::MAX_CHUNK_SIZE;
    let mut r: Vec<usize> = Vec::new();
    proof {
        assert(crate::BLOCK_SIZE == 8);
    }
    let mut i: usize = 0;
    while i < full
        invariant
            0 <= i <= full,
            r@.len() == i,
            forall|j: int| 0 <= j < i ==> r@[j] == crate::MAX_CHUNK_SIZE,
        decreases full - i,
    {
        r.push(crate::MAX_CHUNK_SIZE);
        i = i + 1;
    }
    if rem / crate::BLOCK_SIZE > 0 {
        r.push((rem / crate::BLOCK_SIZE) * crate::BLOCK_SIZE);
    }
    if rem % crate::BLOCK_SIZE > 0 {
        r.push(rem % crate::BLOCK_SIZE);
    }
    r
}

/// The sum of a constant sequence.
proof fn lemma_seq_sum_constant(n: int, c: int)
    requires
        n >= 0,
    ensures
        seq_sum(Seq::new(n as nat, |i: int| c)) == n * c,
    decreases n,
{
    if n == 0 {
    } else {
        let s = Seq::new(n as nat, |i: int| c);
        assert(s.drop_last() =~= Seq::new((n - 1) as nat, |i: int| c));
        lemma_seq_sum_constant(n - 1, c);
        assert(n * c == (n - 1) * c + c) by (nonlinear_arith);
    }
}

/// Appending one element adds its value to the sum.
proof fn lemma_seq_sum_push(s: Seq<int>, v: int)
    ensures
        seq_sum(s.push(v)) == seq_sum(s) + v,
{
    assert(s.push(v).drop_last() =~= s);
    assert(s.push(v).last() == v);
}

/// The chunk partition covers the payload exactly: the sizes add up to
/// the payload size, so the decoder's output (each chunk kept at its
/// length) is exactly the payload.
pub proof fn lemma_chunk_sizes_cover(sz: int)
    requires
        sz >= 0,
    ensures
        seq_sum(spec_chunk_sizes(sz)) == sz,
        forall|i: int| 0 <= i < spec_chunk_sizes(sz).len() ==> #[trigger] spec_chunk_sizes(sz)[i]
            > 0,
{
    let c = crate::MAX_CHUNK_SIZE as int;
    let full = sz / c;
    let rem = sz % c;
    let fulls = Seq::new(full as nat, |i: int| c);
    lemma_seq_sum_constant(full, c);
    let with_mid = fulls + (if rem / 8 > 0 {
        seq![(rem / 8) * 8]
    } else {
        Seq::<int>::empty()
    });
    if rem / 8 > 0 {
        assert(with_mid =~= fulls.push((rem / 8) * 8));
        lemma_seq_sum_push(fulls, (rem / 8) * 8);
    } else {
        assert(with_mid =~= fulls);
    }
    if rem % 8 > 0 {
        assert(spec_chunk_sizes(sz) =~= with_mid.push(rem % 8));
        lemma_seq_sum_push(with_mid, rem % 8);
    } else {
        assert(spec_chunk_sizes(sz) =~= with_mid);
    }
    assert(full * c + rem == sz) by (nonlinear_arith)
        requires
            c > 0,
            full == sz / c,
            rem == sz % c,
    ;
    assert((rem / 8) * 8 + rem % 8 == rem) by (nonlinear_arith);
}

/// When the payload is not block-aligned, the partition ends in one short
/// chunk of fewer than eight bytes, the remainder modulo the block size.
pub proof fn lemma_trailing_chunk(sz: int)
    requires
        sz >= 0,
        sz % (crate::MAX_CHUNK_SIZE as int) % 8 != 0,
    ensures
        spec_chunk_sizes(sz).len() > 0,
        spec_chunk_sizes(sz).last() == sz % (crate::MAX_CHUNK_SIZE as int) % 8,
        0 < spec_chunk_sizes(sz).last() < 8,
{
}

/// Decrypt one chunk: chunks of at least one block are decrypted with
/// Blowfish-ECB under the hex-encoded key; a final chunk shorter than one
/// block is returned unchanged. The output always has the chunk's length.
pub fn decode_chunk(key_hex: &[u8], chunk: Vec<u8>) -> (r: Result<Vec<u8>, DecodeError>)
    ensures
        r is Ok <==> (chunk@.len() < 8 || (chunk@.len() % 8 == 0 && key_hex@.len() % 2 == 0
            && (forall|i: int| 0 <= i < key_hex@.len() ==> is_hex_digit(#[trigger] key_hex@[i]))
            && 4 <= key_hex@.len() / 2 <= 56)),
        r matches Ok(v) ==> v@.len() == chunk@.len(),
        r matches Ok(v) ==> (chunk@.len() < 8 ==> v@ == chunk@),
        r matches Ok(v) ==> (chunk@.len() >= 8 ==> v@ == blowfish_ecb_decrypt(
            hex_bytes_of(key_hex@),
            chunk@,
        )),
{
    if chunk.len() < crate::BLOCK_SIZE {
        return Ok(chunk);
    }
    let key = match hex_decode(key_hex) {
        Ok(k) => k,
        Err(_) => {
            return Err(DecodeError::BadKey);
        },
    };
    if key.len() < 4 || key.len() > 56 {
        return Err(DecodeError::BadKey);
    }
    match ecb_decrypt(key.as_slice(), chunk.as_slice()) {
        Ok(v) => Ok(v),
        Err(_) => Err(DecodeError::BadChunk),
    }
}

/// The one-time key for the key-exchange request, as 56 hex characters:
/// a braid of the user hash, the password hash and the current date.
pub open spec fn spec_cbc_key(user: Seq<u8>, password: Seq<u8>, date: Seq<u8>) -> Seq<u8> {
    let uh = hex_of(md5_of(user));
    let ph = hex_of(md5_of(password));
    uh.take(13) + date.take(4) + ph.take(11) + date.subrange(4, 6) + uh.subrange(21, 32)
        + date.subrange(6, 8) + ph.subrange(19, 32)
}

/// Derive the one-time key for the key-exchange request from the
/// credentials and the current date, `YYYYMMDD`.
pub fn cbc_key(user: &[u8], password: &[u8], date: &[u8]) -> (r: Vec<u8>)
    requires
        date@.len() == 8,
    ensures
        r@ == spec_cbc_key(user@, password@, date@),
{
    let uh = hex_encode(md5_digest(user).as_slice());
    let ph = hex_encode(md5_digest(password).as_slice());
    let mut r = crate::text::sub_vec(uh.as_slice(), 0, 13);
    let mut part = crate::text::sub_vec(date, 0, 4);
    r.append(&mut part);
    let mut part = crate::text::sub_vec(ph.as_slice(), 0, 11);
    r.append(&mut part);
    let mut part = crate::text::sub_vec(date, 4, 6);
    r.append(&mut part);
    let mut part = crate::text::sub_vec(uh.as_slice(), 21, 32);
    r.append(&mut part);
    let mut part = crate::text::sub_vec(date, 6, 8);
    r.append(&mut part);
    let mut part = crate::text::sub_vec(ph.as_slice(), 19, 32);
    r.append(&mut part);
    proof {
        assert(r@ =~= spec_cbc_key(user@, password@, date@));
    }
    r
}

/// Relies on `rand::random`.
pub assume_specification<T>[ rand::random::<T> ]() -> (r: T)
    where
        rand::distributions::Standard: rand::distributions::Distribution<T>,
;

/// A fresh vector of random bytes.
pub fn random_byte_vector(len: usize) -> (r: Vec<u8>)
    ensures
        r@.len() == len,
{
    let mut bytes: Vec<u8> = Vec::new();
    let mut i: usize = 0;
    while i < len
        invariant
            0 <= i <= len,
            bytes@.len() == i,
        decreases len - i,
    {
        bytes.push(rand::random::<u8>());
        i = i + 1;
    }
    bytes
}

/// Relies on `random_string::generate` over the lowercase hex charset: the
/// result holds `len` characters, each from the charset.
#[verifier::external_body]
pub fn random_hex_string(len: usize) -> (r: Vec<u8>)
    ensures
        r@.len() == len,
        forall|i: int| 0 <= i < r@.len() ==> is_hex_digit(#[trigger] r@[i]),
{
    random_string::generate(len, "0123456789abcdef").into_bytes()
}

/// Relies on `chrono::Local::now` and `Datelike`: the month is between one
/// and twelve and the day between one and thirty-one.
#[verifier::external_body]
pub fn current_date_parts() -> (r: (i64, u64, u64))
    ensures
        1 <= r.1 <= 12,
        1 <= r.2 <= 31,
{
    let now = chrono::Local::now().date_naive();
    (
        chrono::Datelike::year(&now) as i64,
        chrono::Datelike::month(&now) as u64,
        chrono::Datelike::day(&now) as u64,
    )
}

/// The numeric date string `YYYYMMDD`.
pub open spec fn spec_format_date(y: int, m: int, d: int) -> Seq<u8> {
    crate::text::spec_render_u64_pad(y, 4) + crate::text::spec_render_u64_pad(m, 2)
        + crate::text::spec_render_u64_pad(d, 2)
}

/// Format a calendar date as the eight digits `YYYYMMDD`.
pub fn format_date(y: i64, m: u64, d: u64) -> (r: Vec<u8>)
    requires
        0 <= y <= 9999,
        1 <= m <= 12,
        1 <= d <= 31,
    ensures
        r@ == spec_format_date(y as int, m as int, d as int),
        r@.len() == 8,
        crate::text::all_digits(r@),
{
    let mut r = crate::text::render_u64_pad(y as u64, 4);
    let mut part = crate::text::render_u64_pad(m, 2);
    r.append(&mut part);
    let mut part = crate::text::render_u64_pad(d, 2);
    r.append(&mut part);
    proof {
        crate::interval::lemma_pow10_six();
        crate::text::lemma_render_u64_pad_value(y as int, 4);
        crate::text::lemma_render_u64_pad_value(m as int, 2);
        crate::text::lemma_render_u64_pad_value(d as int, 2);
        crate::interval::lemma_render_len_le(y as int, 4);
        crate::interval::lemma_render_len_le(m as int, 2);
        crate::interval::lemma_render_len_le(d as int, 2);
        assert(r@ =~= spec_format_date(y as int, m as int, d as int));
        assert(crate::text::all_digits(r@));
    }
    r
}

/// The fixed leading part of the key-request payload, before the random
/// padding: the credentials, the container's name and ciphertext
/// fingerprint, two constant digests, and the protocol constants.
pub open spec fn spec_request_base(
    user: Seq<u8>,
    password: Seq<u8>,
    file_name: Seq<u8>,
    oh: Seq<u8>,
) -> Seq<u8> {
    bytes_of("&A="@) + user + bytes_of("&P="@) + password + bytes_of("&FN="@) + file_name
        + bytes_of("&OH="@) + oh + bytes_of("&M="@) + hex_of(md5_of(bytes_of("something"@)))
        + bytes_of("&OS="@) + hex_of(md5_of(bytes_of("Windows"@))) + bytes_of("&LN=DE&VN="@)
        + bytes_of("0.4.1133"@) + bytes_of("&IR=TRUE&IK="@) + bytes_of(
        "aFzW1tL7nP9vXd8yUfB5kLoSyATQ"@,
    ) + bytes_of("&D="@)
}

/// Whether a text is a well-formed key-request URL for the given inputs:
/// the service address, a code that encrypts the padded payload under the
/// one-time key with some fresh vector, and the user and date parameters.
pub open spec fn spec_is_key_request_url(
    url: Seq<u8>,
    cbc_key_hex: Seq<u8>,
    user: Seq<u8>,
    password: Seq<u8>,
    file_name: Seq<u8>,
    oh: Seq<u8>,
    date: Seq<u8>,
) -> bool {
    exists|iv: Seq<u8>, pad: Seq<u8>|
        {
            &&& iv.len() == 8
            &&& spec_request_base(user, password, file_name, oh).len() + pad.len() == 504
            &&& url == bytes_of("http://onlinetvrecorder.com/quelle_neu1.php?code="@)
                + base64_encoding_of(
                iv + #[trigger] blowfish_cbc_encrypt(
                    hex_bytes_of(cbc_key_hex),
                    iv,
                    spec_request_base(user, password, file_name, oh) + pad,
                ),
            ) + bytes_of("&AA="@) + user + bytes_of("&ZZ="@) + date
        }
}

/// Assemble the key-request URL: build the payload, pad it with random
/// hex to the request size, encrypt it under the one-time key with a
/// fresh vector, and wrap the code with the user and date parameters.
/// Fails exactly when the fixed payload part leaves no room for padding or
/// the key is not 4 to 56 bytes of hex.
pub fn decoding_params_request(
    cbc_key_hex: &[u8],
    user: &[u8],
    password: &[u8],
    file_name: &[u8],
    oh: &[u8],
    date: &[u8],
) -> (r: Result<Vec<u8>, DecodeError>)
    ensures
        r is Ok <==> (spec_request_base(user@, password@, file_name@, oh@).len() <= 504 && (
        cbc_key_hex@.len() % 2 == 0 && (forall|i: int|
            0 <= i < cbc_key_hex@.len() ==> is_hex_digit(#[trigger] cbc_key_hex@[i])) && 4
            <= cbc_key_hex@.len() / 2 <= 56)),
        r matches Ok(u) ==> spec_is_key_request_url(
            u@,
            cbc_key_hex@,
            user@,
            password@,
            file_name@,
            oh@,
            date@,
        ),
{
    proof {
        reveal_strlit("&A=");
        reveal_strlit("&P=");
        reveal_strlit("&FN=");
        reveal_strlit("&OH=");
        reveal_strlit("&M=");
        reveal_strlit("something");
        reveal_strlit("&OS=");
        reveal_strlit("Windows");
        reveal_strlit("&LN=DE&VN=");
        reveal_strlit("0.4.1133");
        reveal_strlit("&IR=TRUE&IK=");
        reveal_strlit("aFzW1tL7nP9vXd8yUfB5kLoSyATQ");
        reveal_strlit("&D=");
        reveal_strlit("http://onlinetvrecorder.com/quelle_neu1.php?code=");
        reveal_strlit("&AA=");
        reveal_strlit("&ZZ=");
    }
    let mut payload: Vec<u8> = Vec::new();
    crate::text::push_lit(&mut payload, "&A=");
    crate::text::push_bytes(&mut payload, user);
    crate::text::push_lit(&mut payload, "&P=");
    crate::text::push_bytes(&mut payload, password);
    crate::text::push_lit(&mut payload, "&FN=");
    crate::text::push_bytes(&mut payload, file_name);
    crate::text::push_lit(&mut payload, "&OH=");
    crate::text::push_bytes(&mut payload, oh);
    crate::text::push_lit(&mut payload, "&M=");
    let something = crate::text::lit_bytes("something");
    let mut digest = hex_encode(md5_digest(something.as_slice()).as_slice());
    payload.append(&mut digest);
    crate::text::push_lit(&mut payload, "&OS=");
    let windows = crate::text::lit_bytes("Windows");
    let mut digest = hex_encode(md5_digest(windows.as_slice()).as_slice());
    payload.append(&mut digest);
    crate::text::push_lit(&mut payload, "&LN=DE&VN=");
    crate::text::push_lit(&mut payload, "0.4.1133");
    crate::text::push_lit(&mut payload, "&IR=TRUE&IK=");
    crate::text::push_lit(&mut payload, "aFzW1tL7nP9vXd8yUfB5kLoSyATQ");
    crate::text::push_lit(&mut payload, "&D=");
    proof {
        assert(payload@ =~= spec_request_base(user@, password@, file_name@, oh@));
    }
    if payload.len() > 504 {
        return Err(DecodeError::PayloadTooLong);
    }
    let ghost base = payload@;
    let mut pad = random_hex_string(504 - payload.len());
    let ghost padv = pad@;
    payload.append(&mut pad);
    let key = match hex_decode(cbc_key_hex) {
        Ok(k) => k,
        Err(_) => {
            return Err(DecodeError::BadKey);
        },
    };
    if key.len() < 4 || key.len() > 56 {
        return Err(DecodeError::BadKey);
    }
    let iv = random_byte_vector(crate::BLOCK_SIZE);
    let ct = match cbc_encrypt(key.as_slice(), iv.as_slice(), payload.as_slice()) {
        Ok(c) => c,
        Err(_) => {
            proof {
                assert(false);
            }
            return Err(DecodeError::BadKey);
        },
    };
    let mut code = iv;
    let ghost ivv = code@;
    let mut ct = ct;
    code.append(&mut ct);
    let code64 = base64_encode(code.as_slice());
    let mut url: Vec<u8> = Vec::new();
    crate::text::push_lit(&mut url, "http://onlinetvrecorder.com/quelle_neu1.php?code=");
    crate::text::push_bytes(&mut url, code64.as_slice());
    crate::text::push_lit(&mut url, "&AA=");
    crate::text::push_bytes(&mut url, user);
    crate::text::push_lit(&mut url, "&ZZ=");
    crate::text::push_bytes(&mut url, date);
    proof {
        assert(code@ =~= ivv + blowfish_cbc_encrypt(
            hex_bytes_of(cbc_key_hex@),
            ivv,
            base + padv,
        ));
        assert(url@ =~= bytes_of("http://onlinetvrecorder.com/quelle_neu1.php?code="@)
            + base64_encoding_of(
            ivv + blowfish_cbc_encrypt(hex_bytes_of(cbc_key_hex@), ivv, base + padv),
        ) + bytes_of("&AA="@) + user@ + bytes_of("&ZZ="@) + date@);
        assert(spec_is_key_request_url(
            url@,
            cbc_key_hex@,
            user@,
            password@,
            file_name@,
            oh@,
            date@,
        ));
    }
    Ok(url)
}

/// What the key-service response denotes: behind the error indicator a
/// protocol error with the rest of the message; else a base64 text whose
/// bytes start with one block of initialization vector, the rest
/// decrypting under the one-time key to a parameter block that must carry
/// the payload key `HP`.
pub open spec fn spec_decoding_params(cbc_key_hex: Seq<u8>, response: Seq<u8>) -> Result<
    Seq<(Seq<u8>, Seq<u8>)>,
    DecodeError,
> {
    match base64_decoding_of(response) {
        None => Err(DecodeError::Base64),
        Some(raw) => {
            if raw.len() < 16 || raw.len() % 8 != 0 {
                Err(DecodeError::CorruptResponse)
            } else if !(cbc_key_hex.len() % 2 == 0 && (forall|i: int|
                0 <= i < cbc_key_hex.len() ==> is_hex_digit(#[trigger] cbc_key_hex[i])) && 4
                <= cbc_key_hex.len() / 2 <= 56) {
                Err(DecodeError::BadKey)
            } else {
                let plain = blowfish_cbc_decrypt(
                    hex_bytes_of(cbc_key_hex),
                    raw.take(8),
                    raw.skip(8),
                );
                match spec_parse_params(plain) {
                    None => Err(DecodeError::MalformedParams),
                    Some(ps) => if spec_params_get(ps, bytes_of("HP"@)) is Some {
                        Ok(ps)
                    } else {
                        Err(DecodeError::MissingParam)
                    },
                }
            }
        },
    }
}

/// Read the key-service response: an error indicator prefix surfaces the
/// rest of the message; otherwise the base64 text is decoded, the leading
/// block taken as initialization vector, the rest decrypted under the
/// one-time key, and the parameters extracted, which must include the
/// payload key `HP`. Success and each error are exactly those of
/// `spec_decoding_params`.
pub fn decoding_params(cbc_key_hex: &[u8], response: &[u8]) -> (r: Result<
    Vec<Param>,
    DecodeError,
>)
    ensures
        spec_starts_with(response@, bytes_of("MessageToBePrintedInDecoder"@)) ==> (
        r matches Err(e) && e matches DecodeError::Protocol(m)
            && m@ == response@.skip(27)),
        !spec_starts_with(response@, bytes_of("MessageToBePrintedInDecoder"@)) ==> match r {
            Ok(ps) => spec_decoding_params(cbc_key_hex@, response@) == Ok::<_, DecodeError>(
                params_view(ps@),
            ),
            Err(e) => spec_decoding_params(cbc_key_hex@, response@) == Err::<
                Seq<(Seq<u8>, Seq<u8>)>,
                _,
            >(e),
        },
{
    proof {
        reveal_strlit("MessageToBePrintedInDecoder");
        reveal_strlit("HP");
    }
    let indicator = crate::text::lit_bytes("MessageToBePrintedInDecoder");
    if crate::text::starts_with(response, indicator.as_slice()) {
        let message = crate::text::sub_vec(response, 27, response.len());
        proof {
            assert(message@ =~= response@.skip(27));
        }
        return Err(DecodeError::Protocol(message));
    }
    let raw = match base64_decode(response) {
        Ok(v) => v,
        Err(_) => {
            return Err(DecodeError::Base64);
        },
    };
    if raw.len() < 16 || raw.len() % 8 != 0 {
        return Err(DecodeError::CorruptResponse);
    }
    let key = match hex_decode(cbc_key_hex) {
        Ok(k) => k,
        Err(_) => {
            return Err(DecodeError::BadKey);
        },
    };
    if key.len() < 4 || key.len() > 56 {
        return Err(DecodeError::BadKey);
    }
    let iv = &raw.as_slice()[0..8];
    let body = &raw.as_slice()[8..raw.len()];
    proof {
        assert(iv@ =~= raw@.take(8));
        assert(body@ =~= raw@.skip(8));
    }
    let plain = match cbc_decrypt(key.as_slice(), iv, body) {
        Ok(p) => p,
        Err(_) => {
            proof {
                assert(false);
            }
            return Err(DecodeError::BadKey);
        },
    };
    let ps = match parse_params(plain.as_slice()) {
        Ok(ps) => ps,
        Err(e) => {
            return Err(e);
        },
    };
    let hp = crate::text::lit_bytes("HP");
    if params_get(&ps, hp.as_slice()).is_none() {
        return Err(DecodeError::MissingParam);
    }
    Ok(ps)
}

/// The 32 fingerprint characters kept out of the 48: every third one is
/// dropped.
pub open spec fn spec_reduced_fingerprint(h: Seq<u8>) -> Seq<u8> {
    Seq::new(32, |j: int| h[(j / 2) * 3 + (j % 2)])
}

/// Check a fingerprint: the 48-character fingerprint drops every third
/// character to 32 hex characters, which must denote exactly the digest.
/// Fails when the fingerprint is not 48 characters of which the kept ones
/// are hex.
pub fn verify_checksum(checksum: &[u8], fingerprint: &[u8]) -> (r: Result<bool, DecodeError>)
    ensures
        r is Ok <==> (fingerprint@.len() == 48 && forall|j: int|
            0 <= j < 32 ==> is_hex_digit(#[trigger] spec_reduced_fingerprint(fingerprint@)[j])),
        r matches Ok(b) ==> b == (checksum@ == hex_bytes_of(
            spec_reduced_fingerprint(fingerprint@),
        )),
        r matches Err(e) ==> e matches DecodeError::BadFingerprint,
{
    if fingerprint.len() != 48 {
        return Err(DecodeError::BadFingerprint);
    }
    let mut reduced: Vec<u8> = Vec::new();
    let mut j: usize = 0;
    while j < 32
        invariant
            0 <= j <= 32,
            fingerprint@.len() == 48,
            reduced@ =~= spec_reduced_fingerprint(fingerprint@).take(j as int),
        decreases 32 - j,
    {
        reduced.push(fingerprint[(j / 2) * 3 + (j % 2)]);
        proof {
            assert(reduced@ =~= spec_reduced_fingerprint(fingerprint@).take(j + 1));
        }
        j = j + 1;
    }
    proof {
        assert(reduced@ =~= spec_reduced_fingerprint(fingerprint@));
    }
    let bytes = match hex_decode(reduced.as_slice()) {
        Ok(b) => b,
        Err(_) => {
            return Err(DecodeError::BadFingerprint);
        },
    };
    Ok(crate::text::bytes_eq(checksum, bytes.as_slice()))
}

/// The decoder's output covers the payload exactly: a container that
/// declares a total size leaves a payload of that size less the header's
/// 522 bytes, the chunk partition of the payload adds up to it, and each
/// chunk decodes to its own length — so the decoded file holds exactly
/// the declared size less the header.
pub proof fn lemma_decoder_output_size(declared_size: int)
    requires
        declared_size >= 522,
    ensures
        seq_sum(spec_chunk_sizes(declared_size - 522)) == declared_size - 522,
{
    lemma_chunk_sizes_cover(declared_size - 522);
}

/// Digest a run of chunks incrementally: the running hasher, fed chunk by
/// chunk, yields the digest of the chunks' concatenation — the payload
/// fingerprints cover exactly the reader's sequence however it is split.
pub fn md5_digest_chunks(chunks: &Vec<Vec<u8>>) -> (r: Vec<u8>)
    ensures
        r@ == crate::crypto::md5_of(chunks.deep_view().flatten_alt()),
        r@.len() == 16,
{
    let ghost cv = chunks.deep_view();
    let mut hasher = crate::crypto::md5_stream_new();
    let mut i: usize = 0;
    proof {
        assert(cv.take(0) =~= Seq::<Seq<u8>>::empty());
        assert(crate::crypto::md5_fed(hasher) =~= cv.take(0).flatten_alt());
    }
    while i < chunks.len()
        invariant
            0 <= i <= chunks@.len(),
            cv == chunks.deep_view(),
            crate::crypto::md5_fed(hasher) == cv.take(i as int).flatten_alt(),
        decreases chunks@.len() - i,
    {
        crate::crypto::md5_stream_update(&mut hasher, chunks[i].as_slice());
        proof {
            assert(cv.take(i + 1).drop_last() =~= cv.take(i as int));
            assert(cv.take(i + 1).last() == cv[i as int]);
            assert(crate::crypto::md5_fed(hasher) =~= cv.take(i + 1).flatten_alt());
        }
        i = i + 1;
    }
    proof {
        assert(cv.take(i as int) =~= cv);
    }
    crate::crypto::md5_stream_finalize(hasher)
}

} // verus!
