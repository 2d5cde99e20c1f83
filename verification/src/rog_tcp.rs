//! The ROG-over-TCP wire: connection-type bytes, length-obfuscated frames,
//! and field encryption (ChaCha20-Poly1305 under a SHA-256 key of the
//! password, nonce prepended, Base64 for text fields).

use vstd::prelude::*;
use base64::engine::general_purpose::STANDARD as BASE64;
use base64::Engine;
use chacha20poly1305::aead::rand_core::RngCore;
use chacha20poly1305::aead::{Aead, OsRng};
use chacha20poly1305::{AeadCore, ChaCha20Poly1305, KeyInit};
use sha2::{Digest, Sha256};
use vstd::utf8::{decode_utf8, encode_utf8, valid_utf8};

verus! {

broadcast use vstd::string::group_string_axioms;

/// Connection-type byte announcing a stream connection.
pub const CONN_TYPE_STREAM: u8 = 0x01;

/// Connection-type byte announcing a datagram connection.
pub const CONN_TYPE_UDP: u8 = 0x02;

/// The largest frame body accepted, 16 MiB.
pub const MAX_FRAME_LEN: u64 = 16777216;

/// Length of the frame header: two big-endian `u64` values.
pub const FRAME_HEADER_LEN: usize = 16;

/// Length of the nonce prepended to every ciphertext.
pub const NONCE_LEN: usize = 12;

/// Why a frame or an encrypted field was refused.
#[derive(Clone, Copy, Debug, PartialEq, Eq, Structural)]
pub enum RogTcpError {
    /// The frame header announces a body longer than [`MAX_FRAME_LEN`].
    FrameTooLarge,
    /// Encryption failed.
    Encrypt,
    /// The ciphertext is shorter than a nonce.
    CiphertextTooShort,
    /// Authentication or decryption failed.
    Decrypt,
    /// The text is not Base64.
    Base64,
    /// The plaintext is not UTF-8.
    Utf8,
    /// A UDP response names no destination address or port.
    MissingAddress,
}

/// The eight big-endian bytes of `v`.
pub open spec fn u64_be(v: u64) -> Seq<u8> {
    seq![
        (v >> 56) as u8,
        ((v >> 48) & 0xff) as u8,
        ((v >> 40) & 0xff) as u8,
        ((v >> 32) & 0xff) as u8,
        ((v >> 24) & 0xff) as u8,
        ((v >> 16) & 0xff) as u8,
        ((v >> 8) & 0xff) as u8,
        (v & 0xff) as u8,
    ]
}

/// The `u64` whose big-endian bytes are `b[0..8]`.
pub open spec fn be_u64(b: Seq<u8>) -> u64 {
    ((b[0] as u64) << 56) | ((b[1] as u64) << 48) | ((b[2] as u64) << 40) | ((b[3] as u64) << 32)
        | ((b[4] as u64) << 24) | ((b[5] as u64) << 16) | ((b[6] as u64) << 8) | (b[7] as u64)
}

proof fn lemma_be_u64_roundtrip(v: u64)
    ensures
        be_u64(u64_be(v)) == v,
{
    let b0 = (v >> 56) as u8;
    let b1 = ((v >> 48) & 0xff) as u8;
    let b2 = ((v >> 40) & 0xff) as u8;
    let b3 = ((v >> 32) & 0xff) as u8;
    let b4 = ((v >> 24) & 0xff) as u8;
    let b5 = ((v >> 16) & 0xff) as u8;
    let b6 = ((v >> 8) & 0xff) as u8;
    let b7 = (v & 0xff) as u8;
    assert(((b0 as u64) << 56) | ((b1 as u64) << 48) | ((b2 as u64) << 40) | ((b3 as u64) << 32)
        | ((b4 as u64) << 24) | ((b5 as u64) << 16) | ((b6 as u64) << 8) | (b7 as u64) == v)
        by (bit_vector)
        requires
            b0 == (v >> 56) as u8,
            b1 == ((v >> 48) & 0xff) as u8,
            b2 == ((v >> 40) & 0xff) as u8,
            b3 == ((v >> 32) & 0xff) as u8,
            b4 == ((v >> 24) & 0xff) as u8,
            b5 == ((v >> 16) & 0xff) as u8,
            b6 == ((v >> 8) & 0xff) as u8,
            b7 == (v & 0xff) as u8,
    ;
}

/// The header announcing a body of `len` bytes, masked with `r`: `r`, then
/// `len - r` (wrapping), both big-endian.
pub open spec fn frame_header(len: u64, r: u64) -> Seq<u8> {
    u64_be(r) + u64_be(len.wrapping_sub(r))
}

/// A whole frame: header, then body.
pub open spec fn frame_bytes(body: Seq<u8>, r: u64) -> Seq<u8> {
    frame_header(body.len() as u64, r) + body
}

/// The body length a header announces: the wrapping sum of its two values.
pub open spec fn announced_len(header: Seq<u8>) -> u64 {
    be_u64(header.take(8)).wrapping_add(be_u64(header.subrange(8, 16)))
}

/// What reading a header yields: the body length, or an error when it
/// exceeds [`MAX_FRAME_LEN`].
pub open spec fn frame_len_outcome(header: Seq<u8>) -> Result<usize, RogTcpError> {
    let len = announced_len(header) as usize;
    if len > MAX_FRAME_LEN {
        Err(RogTcpError::FrameTooLarge)
    } else {
        Ok(len)
    }
}

fn u64_to_be(v: u64) -> (o: Vec<u8>)
    ensures
        o@ == u64_be(v),
{
    let mut o: Vec<u8> = Vec::new();
    o.push((v >> 56) as u8);
    o.push(((v >> 48) & 0xff) as u8);
    o.push(((v >> 40) & 0xff) as u8);
    o.push(((v >> 32) & 0xff) as u8);
    o.push(((v >> 24) & 0xff) as u8);
    o.push(((v >> 16) & 0xff) as u8);
    o.push(((v >> 8) & 0xff) as u8);
    o.push((v & 0xff) as u8);
    assert(o@ =~= u64_be(v));
    o
}

fn be_to_u64(b: &[u8], off: usize) -> (v: u64)
    requires
        off + 8 <= b@.len(),
    ensures
        v == be_u64(b@.subrange(off as int, off + 8)),
{
    let ghost s = b@.subrange(off as int, off + 8);
    assert(s[0] == b@[off as int] && s[7] == b@[off + 7]);
    ((b[off] as u64) << 56) | ((b[off + 1] as u64) << 48) | ((b[off + 2] as u64) << 40) | ((b[off
        + 3] as u64) << 32) | ((b[off + 4] as u64) << 24) | ((b[off + 5] as u64) << 16) | ((b[off
        + 6] as u64) << 8) | (b[off + 7] as u64)
}

/// The frame carrying `body`, masked with `r`.
pub fn frame_with_mask(body: &[u8], r: u64) -> (out: Vec<u8>)
    ensures
        out@ == frame_bytes(body@, r),
{
    let len = body.len() as u64;
    let mut out = u64_to_be(r);
    let mut second = u64_to_be(len.wrapping_sub(r));
    out.append(&mut second);
    let mut i: usize = 0;
    let ghost head = out@;
    while i < body.len()
        invariant
            i <= body@.len(),
            head == frame_header(body@.len() as u64, r),
            out@ == head + body@.take(i as int),
        decreases body@.len() - i,
    {
        out.push(body[i]);
        i = i + 1;
        assert(out@ == head + body@.take(i as int));
    }
    assert(body@.take(body@.len() as int) == body@);
    out
}

/// A random 64-bit value from the operating system (`OsRng::next_u64`).
/// Nothing is claimed of the value.
#[verifier::external_body]
fn random_u64() -> u64 {
    OsRng.next_u64()
}

/// The frame carrying `body`, masked with a fresh random value; the bytes
/// that `write_frame` sends after encoding a message.
pub fn encode_frame(body: &[u8]) -> (out: Vec<u8>)
    ensures
        exists|r: u64| out@ == frame_bytes(body@, r),
{
    let r = random_u64();
    frame_with_mask(body, r)
}

/// Reads a frame header: the body length to read next, or an error when the
/// header announces more than [`MAX_FRAME_LEN`] bytes.
pub fn decode_frame_len(header: &[u8]) -> (r: Result<usize, RogTcpError>)
    requires
        header@.len() >= FRAME_HEADER_LEN,
    ensures
        r == frame_len_outcome(header@.take(16)),
{
    let a = be_to_u64(header, 0);
    let b = be_to_u64(header, 8);
    proof {
        assert(header@.subrange(0, 8) == header@.take(16).take(8));
        assert(header@.subrange(8, 16) == header@.take(16).subrange(8, 16));
    }
    let len = a.wrapping_add(b) as usize;
    if len > 16777216 {
        Err(RogTcpError::FrameTooLarge)
    } else {
        Ok(len)
    }
}

/// Law of the frame format: whatever mask was drawn, a frame's header
/// announces exactly its body's length.
pub proof fn law_frame_announces_body_len(body: Seq<u8>, r: u64)
    requires
        body.len() <= u64::MAX,
    ensures
        announced_len(frame_bytes(body, r).take(16)) == body.len() as u64,
        frame_bytes(body, r).skip(16) == body,
{
    let len = body.len() as u64;
    let f = frame_bytes(body, r);
    lemma_be_u64_roundtrip(r);
    lemma_be_u64_roundtrip(len.wrapping_sub(r));
    assert(f.take(16).take(8) == u64_be(r));
    assert(f.take(16).subrange(8, 16) == u64_be(len.wrapping_sub(r)));
    assert(r.wrapping_add(len.wrapping_sub(r)) == len);
    assert(f.skip(16) == body);
}

/// The SHA-256 digest of the given bytes.
pub uninterp spec fn sha256(data: Seq<u8>) -> Seq<u8>;

/// ChaCha20-Poly1305 encryption under `key` and `nonce`, when it succeeds.
pub uninterp spec fn chacha20poly1305_seal(key: Seq<u8>, nonce: Seq<u8>, plaintext: Seq<u8>) -> Option<Seq<u8>>;

/// ChaCha20-Poly1305 decryption under `key` and `nonce`, when the tag verifies.
pub uninterp spec fn chacha20poly1305_open(key: Seq<u8>, nonce: Seq<u8>, ciphertext: Seq<u8>) -> Option<Seq<u8>>;

/// Standard padded Base64 encoding.
pub uninterp spec fn base64_encode(data: Seq<u8>) -> Seq<char>;

/// Standard padded Base64 decoding, when the text is valid.
pub uninterp spec fn base64_decode(text: Seq<char>) -> Option<Seq<u8>>;

/// `Sha256::digest`: the claim is only that the digest is a function of the
/// input (named `sha256`).
#[verifier::external_body]
fn sha256_digest(data: &[u8]) -> (d: [u8; 32])
    ensures
        d@ == sha256(data@),
{
    Sha256::digest(data).into()
}

/// `ChaCha20Poly1305::encrypt` with a key and nonce given as bytes. The
/// claim is that the result is a function of key, nonce and plaintext
/// (named `chacha20poly1305_seal`), and that it fails exactly when the
/// plaintext has `u32::MAX` or more 64-byte blocks (the ChaCha20 counter
/// limit the crate checks before encrypting).
#[verifier::external_body]
fn chacha_seal(key: &[u8; 32], nonce: &[u8; 12], plaintext: &[u8]) -> (c: Result<Vec<u8>, RogTcpError>)
    ensures
        match c {
            Ok(c) => chacha20poly1305_seal(key@, nonce@, plaintext@) == Some(c@),
            Err(e) => e == RogTcpError::Encrypt && chacha20poly1305_seal(key@, nonce@, plaintext@) is None,
        },
        (c is Ok) == sealable(plaintext@.len()),
{
    ChaCha20Poly1305::new(key.into()).encrypt(nonce.into(), plaintext).map_err(|_| RogTcpError::Encrypt)
}

/// `ChaCha20Poly1305::decrypt` with a key and nonce given as bytes. Besides
/// naming the result (`chacha20poly1305_open`), the contract states the AEAD
/// correctness property the crate documents: a ciphertext sealed from `p`
/// under the same key and nonce opens to `p`.
#[verifier::external_body]
fn chacha_open(key: &[u8; 32], nonce: &[u8; 12], ciphertext: &[u8]) -> (opened: Result<Vec<u8>, RogTcpError>)
    ensures
        match opened {
            Ok(v) => chacha20poly1305_open(key@, nonce@, ciphertext@) == Some(v@),
            Err(e) => e == RogTcpError::Decrypt && chacha20poly1305_open(key@, nonce@, ciphertext@) is None,
        },
        forall|m: Seq<u8>|
            #![trigger chacha20poly1305_seal(key@, nonce@, m)]
            chacha20poly1305_seal(key@, nonce@, m) == Some(ciphertext@) ==> opened is Ok && opened->Ok_0@ == m,
{
    ChaCha20Poly1305::new(key.into()).decrypt(nonce.into(), ciphertext).map_err(|_| RogTcpError::Decrypt)
}

/// `ChaCha20Poly1305::generate_nonce` from the operating system's random
/// source. Nothing is claimed of the value.
#[verifier::external_body]
fn random_nonce() -> [u8; 12] {
    ChaCha20Poly1305::generate_nonce(&mut OsRng).into()
}

/// `STANDARD.encode`: the claim is only that the text is a function of the
/// bytes (named `base64_encode`).
#[verifier::external_body]
fn b64_encode(data: &[u8]) -> (t: String)
    ensures
        t@ == base64_encode(data@),
{
    BASE64.encode(data)
}

/// `STANDARD.decode`: names the result (`base64_decode`) and states the
/// round-trip property the crate documents: the encoding of `b` decodes to `b`.
#[verifier::external_body]
fn b64_decode(text: &str) -> (decoded: Result<Vec<u8>, RogTcpError>)
    ensures
        match decoded {
            Ok(v) => base64_decode(text@) == Some(v@),
            Err(e) => e == RogTcpError::Base64 && base64_decode(text@) is None,
        },
        forall|d: Seq<u8>|
            #![trigger base64_encode(d)]
            text@ == base64_encode(d) ==> decoded is Ok && decoded->Ok_0@ == d,
{
    BASE64.decode(text).map_err(|_| RogTcpError::Base64)
}

/// `String::from_utf8`: succeeds exactly on valid UTF-8, with the decoded
/// characters.
#[verifier::external_body]
fn string_from_utf8(bytes: Vec<u8>) -> (s: Result<String, RogTcpError>)
    ensures
        match s {
            Ok(s) => valid_utf8(bytes@) && s@ == decode_utf8(bytes@),
            Err(e) => e == RogTcpError::Utf8 && !valid_utf8(bytes@),
        },
{
    String::from_utf8(bytes).map_err(|_| RogTcpError::Utf8)
}

/// A plaintext of `len` bytes can be encrypted: it has fewer than `u32::MAX`
/// blocks of 64 bytes.
pub open spec fn sealable(len: nat) -> bool {
    len / 64 < 0xffff_ffff
}

/// The key derived from a password: the SHA-256 digest of its UTF-8 bytes.
pub open spec fn password_key(password: Seq<char>) -> Seq<u8> {
    sha256(encode_utf8(password))
}

/// `nonce ++ ciphertext` is an encryption of `plaintext` under the password.
pub open spec fn sealed_by(password: Seq<char>, plaintext: Seq<u8>, combined: Seq<u8>) -> bool {
    combined.len() >= NONCE_LEN && chacha20poly1305_seal(
        password_key(password),
        combined.take(12),
        plaintext,
    ) == Some(combined.skip(12))
}

/// What decrypting `combined` with the password yields.
pub open spec fn open_outcome(password: Seq<char>, combined: Seq<u8>) -> Result<Seq<u8>, RogTcpError> {
    if combined.len() < NONCE_LEN {
        Err(RogTcpError::CiphertextTooShort)
    } else {
        match chacha20poly1305_open(password_key(password), combined.take(12), combined.skip(12)) {
            Some(p) => Ok(p),
            None => Err(RogTcpError::Decrypt),
        }
    }
}

/// What decrypting the Base64 text field `text` with the password yields.
pub open spec fn field_outcome(password: Seq<char>, text: Seq<char>) -> Result<Seq<char>, RogTcpError> {
    match base64_decode(text) {
        None => Err(RogTcpError::Base64),
        Some(c) => match open_outcome(password, c) {
            Err(e) => Err(e),
            Ok(p) => if valid_utf8(p) {
                Ok(decode_utf8(p))
            } else {
                Err(RogTcpError::Utf8)
            },
        },
    }
}

/// `text` is the Base64 form of an encryption of `plain` under the password.
pub open spec fn field_sealed(password: Seq<char>, plain: Seq<char>, text: Seq<char>) -> bool {
    exists|c: Seq<u8>| sealed_by(password, encode_utf8(plain), c) && text == base64_encode(c)
}

/// Law of the field cipher (what a ROG-over-TCP server shares with this
/// client): the key is the SHA-256 digest of exactly the password's UTF-8
/// bytes, a sealed value is a 12-byte nonce followed by the ChaCha20-Poly1305
/// encryption of the plaintext under that key and nonce, and opening one
/// decrypts the part after the nonce under the same key.
pub proof fn law_field_cipher(password: Seq<char>, plaintext: Seq<u8>, combined: Seq<u8>)
    ensures
        password_key(password) == sha256(encode_utf8(password)),
        sealed_by(password, plaintext, combined) == (combined.len() >= 12 && chacha20poly1305_seal(
            sha256(encode_utf8(password)),
            combined.take(12),
            plaintext,
        ) == Some(combined.skip(12))),
        combined.len() >= 12 ==> open_outcome(password, combined) == match chacha20poly1305_open(
            sha256(encode_utf8(password)),
            combined.take(12),
            combined.skip(12),
        ) {
            Some(p) => Ok::<Seq<u8>, RogTcpError>(p),
            None => Err(RogTcpError::Decrypt),
        },
        combined.len() < 12 ==> open_outcome(password, combined) == Err::<Seq<u8>, RogTcpError>(
            RogTcpError::CiphertextTooShort,
        ),
{
}

fn derive_key(password: &str) -> (k: [u8; 32])
    ensures
        k@ == password_key(password@),
        k@ == sha256(encode_utf8(password@)),
{
    sha256_digest(password.as_bytes())
}

fn array12(b: &[u8]) -> (a: [u8; 12])
    requires
        b@.len() >= 12,
    ensures
        a@ == b@.take(12),
{
    let a = [b[0], b[1], b[2], b[3], b[4], b[5], b[6], b[7], b[8], b[9], b[10], b[11]];
    assert(a@ =~= b@.take(12));
    a
}

fn tail_from(b: &[u8], from: usize) -> (t: Vec<u8>)
    requires
        from <= b@.len(),
    ensures
        t@ == b@.skip(from as int),
{
    let mut t: Vec<u8> = Vec::new();
    let mut i = from;
    while i < b.len()
        invariant
            from <= i <= b@.len(),
            t@ == b@.subrange(from as int, i as int),
        decreases b@.len() - i,
    {
        t.push(b[i]);
        i = i + 1;
        assert(t@ == b@.subrange(from as int, i as int));
    }
    t
}

/// Encrypts `plaintext` under the password with a fresh random nonce; the
/// result is the nonce followed by the ciphertext.
pub fn encrypt_bytes(plaintext: &[u8], password: &str) -> (r: Result<Vec<u8>, RogTcpError>)
    ensures
        r matches Ok(c) ==> sealed_by(password@, plaintext@, c@),
        r matches Err(e) ==> e == RogTcpError::Encrypt,
        (r is Ok) == sealable(plaintext@.len()),
{
    let key = derive_key(password);
    let nonce = random_nonce();
    let ct = chacha_seal(&key, &nonce, plaintext)?;
    let mut combined: Vec<u8> = Vec::new();
    let mut i: usize = 0;
    while i < 12
        invariant
            i <= 12,
            combined@ == nonce@.take(i as int),
        decreases 12 - i,
    {
        combined.push(nonce[i]);
        i = i + 1;
        assert(combined@ == nonce@.take(i as int));
    }
    let mut j: usize = 0;
    while j < ct.len()
        invariant
            j <= ct@.len(),
            combined@ == nonce@ + ct@.take(j as int),
        decreases ct@.len() - j,
    {
        combined.push(ct[j]);
        j = j + 1;
        assert(combined@ == nonce@ + ct@.take(j as int));
    }
    assert(ct@.take(ct@.len() as int) == ct@);
    assert(nonce@.take(12) == nonce@);
    assert(combined@.take(12) == nonce@);
    assert(combined@.skip(12) == ct@);
    Ok(combined)
}

/// Decrypts `nonce ++ ciphertext` under the password.
pub fn decrypt_bytes(combined: &[u8], password: &str) -> (r: Result<Vec<u8>, RogTcpError>)
    ensures
        match r {
            Ok(p) => open_outcome(password@, combined@) == Ok::<Seq<u8>, RogTcpError>(p@),
            Err(e) => open_outcome(password@, combined@) == Err::<Seq<u8>, RogTcpError>(e),
        },
        forall|m: Seq<u8>| sealed_by(password@, m, combined@) ==> (r matches Ok(x) && x@ == m),
{
    let key = derive_key(password);
    if combined.len() < 12 {
        return Err(RogTcpError::CiphertextTooShort);
    }
    let nonce = array12(combined);
    let ct = tail_from(combined, 12);
    chacha_open(&key, &nonce, ct.as_slice())
}

/// Encrypts a text field: Base64 of the encryption of its UTF-8 bytes.
pub fn encrypt_field(plaintext: &str, password: &str) -> (r: Result<String, RogTcpError>)
    ensures
        r matches Ok(t) ==> field_sealed(password@, plaintext@, t@),
        r matches Err(e) ==> e == RogTcpError::Encrypt,
        (r is Ok) == sealable(encode_utf8(plaintext@).len()),
{
    let combined = encrypt_bytes(plaintext.as_bytes(), password)?;
    Ok(b64_encode(combined.as_slice()))
}

/// Decrypts a text field written by [`encrypt_field`] under the same password.
pub fn decrypt_field(ciphertext_b64: &str, password: &str) -> (r: Result<String, RogTcpError>)
    ensures
        match r {
            Ok(s) => field_outcome(password@, ciphertext_b64@) == Ok::<Seq<char>, RogTcpError>(s@),
            Err(e) => field_outcome(password@, ciphertext_b64@) == Err::<Seq<char>, RogTcpError>(e),
        },
        forall|s: Seq<char>, c: Seq<u8>|
            sealed_by(password@, encode_utf8(s), c) && ciphertext_b64@ == base64_encode(c) ==> (
            r matches Ok(x) && x@ == s),
{
    let combined = b64_decode(ciphertext_b64)?;
    let plaintext = decrypt_bytes(combined.as_slice(), password)?;
    let r = string_from_utf8(plaintext);
    proof {
        assert forall|s: Seq<char>, c: Seq<u8>|
            sealed_by(password@, encode_utf8(s), c) && ciphertext_b64@ == base64_encode(c) implies (
            r matches Ok(x) && x@ == s) by {
            vstd::utf8::encode_utf8_valid_utf8(s);
            vstd::utf8::encode_utf8_decode_utf8(s);
        }
    }
    r
}

/// The opening request of a stream of ROG over TCP as it goes on the wire.
#[derive(Debug)]
pub struct SealedStreamAuth {
    pub auth: String,
    pub dst_addr: String,
    pub dst_port: u32,
}

/// The request that opens a stream to `dst_host:dst_port`: the password
/// itself as the credential and the host, each encrypted as a text field.
pub fn seal_stream_auth(dst_host: &str, dst_port: u16, password: &str) -> (r: Result<SealedStreamAuth, RogTcpError>)
    ensures
        r matches Ok(q) ==> {
            &&& field_sealed(password@, password@, q.auth@)
            &&& field_sealed(password@, dst_host@, q.dst_addr@)
            &&& q.dst_port == dst_port
        },
        r matches Err(e) ==> e == RogTcpError::Encrypt,
        (r is Ok) == (sealable(encode_utf8(password@).len()) && sealable(encode_utf8(dst_host@).len())),
{
    let auth = encrypt_field(password, password)?;
    let dst_addr = encrypt_field(dst_host, password)?;
    Ok(SealedStreamAuth { auth, dst_addr, dst_port: dst_port as u32 })
}

/// The fields of a UDP request of ROG over TCP as they go on the wire.
#[derive(Debug)]
pub struct SealedUdpRequest {
    pub auth: String,
    pub payload: Vec<u8>,
    pub dst_addr: String,
    pub dst_port: u32,
    pub src_addr: String,
    pub src_port: u32,
}

/// The request that sends `payload` to `dst_host:dst_port`: the password
/// itself as the credential, the host and the placeholder source `0.0.0.0`
/// each encrypted as a text field, the payload encrypted as bytes, and the
/// source port 0.
pub fn seal_udp_request(payload: &[u8], dst_host: &str, dst_port: u16, password: &str) -> (r: Result<
    SealedUdpRequest,
    RogTcpError,
>)
    ensures
        r matches Ok(q) ==> {
            &&& field_sealed(password@, password@, q.auth@)
            &&& field_sealed(password@, dst_host@, q.dst_addr@)
            &&& q.dst_port == dst_port
            &&& field_sealed(password@, "0.0.0.0"@, q.src_addr@)
            &&& q.src_port == 0
            &&& sealed_by(password@, payload@, q.payload@)
        },
        r matches Err(e) ==> e == RogTcpError::Encrypt,
        (r is Ok) == (sealable(encode_utf8(password@).len()) && sealable(encode_utf8(dst_host@).len())
            && sealable(payload@.len())),
{
    proof {
        reveal_strlit("0.0.0.0");
        vstd::utf8::is_ascii_chars_encode_utf8("0.0.0.0"@);
    }
    let auth = encrypt_field(password, password)?;
    let dst_addr = encrypt_field(dst_host, password)?;
    let src_addr = encrypt_field("0.0.0.0", password)?;
    let sealed = encrypt_bytes(payload, password)?;
    Ok(
        SealedUdpRequest {
            auth,
            payload: sealed,
            dst_addr,
            dst_port: dst_port as u32,
            src_addr,
            src_port: 0,
        },
    )
}

/// What decrypting an optional text field yields: nothing when absent.
pub open spec fn optional_field_outcome(password: Seq<char>, text: Option<Seq<char>>) -> Result<
    Option<Seq<char>>,
    RogTcpError,
> {
    match text {
        None => Ok(None),
        Some(t) => match field_outcome(password, t) {
            Ok(p) => Ok(Some(p)),
            Err(e) => Err(e),
        },
    }
}

/// What a UDP response of ROG over TCP yields when read into a buffer of
/// `buf_len` bytes: the destination field, the source field and the payload
/// are decrypted in that order (the first failure is the result); then the
/// payload, cut to the buffer, comes from the decrypted destination address
/// and port, which must both be present.
pub open spec fn udp_response_outcome(
    password: Seq<char>,
    dst_addr: Option<Seq<char>>,
    dst_port: Option<u32>,
    src_addr: Option<Seq<char>>,
    payload: Seq<u8>,
    buf_len: nat,
) -> Result<(Seq<u8>, Seq<char>, u16), RogTcpError> {
    match optional_field_outcome(password, dst_addr) {
        Err(e) => Err(e),
        Ok(dst) => match optional_field_outcome(password, src_addr) {
            Err(e) => Err(e),
            Ok(_) => match open_outcome(password, payload) {
                Err(e) => Err(e),
                Ok(p) => match (dst, dst_port) {
                    (Some(host), Some(port)) => Ok(
                        (p.take(if p.len() < buf_len { p.len() as int } else { buf_len as int }), host, port as u16),
                    ),
                    _ => Err(RogTcpError::MissingAddress),
                },
            },
        },
    }
}

fn open_optional_field(text: &Option<String>, password: &str) -> (r: Result<Option<String>, RogTcpError>)
    ensures
        match r {
            Ok(Some(s)) => optional_field_outcome(password@, opt_view(*text)) == Ok::<
                Option<Seq<char>>,
                RogTcpError,
            >(Some(s@)),
            Ok(None) => optional_field_outcome(password@, opt_view(*text)) == Ok::<
                Option<Seq<char>>,
                RogTcpError,
            >(None),
            Err(e) => optional_field_outcome(password@, opt_view(*text)) == Err::<
                Option<Seq<char>>,
                RogTcpError,
            >(e),
        },
{
    match text {
        None => Ok(None),
        Some(t) => {
            let p = decrypt_field(t.as_str(), password)?;
            Ok(Some(p))
        },
    }
}

/// The view of an optional string.
pub open spec fn opt_view(s: Option<String>) -> Option<Seq<char>> {
    match s {
        Some(t) => Some(t@),
        None => None,
    }
}

/// A UDP response read from the wire: the payload as far as it fits the
/// reader's buffer, and the address it comes from.
#[derive(Debug)]
pub struct OpenedUdpResponse {
    pub payload: Vec<u8>,
    pub host: String,
    pub port: u16,
}

/// Decrypts a UDP response of ROG over TCP read into a buffer of `buf_len`
/// bytes (see [`udp_response_outcome`]).
pub fn open_udp_response(
    dst_addr: Option<String>,
    dst_port: Option<u32>,
    src_addr: Option<String>,
    payload: &[u8],
    password: &str,
    buf_len: usize,
) -> (r: Result<OpenedUdpResponse, RogTcpError>)
    ensures
        match r {
            Ok(o) => udp_response_outcome(password@, opt_view(dst_addr), dst_port, opt_view(src_addr), payload@, buf_len as nat)
                == Ok::<(Seq<u8>, Seq<char>, u16), RogTcpError>((o.payload@, o.host@, o.port)),
            Err(e) => udp_response_outcome(password@, opt_view(dst_addr), dst_port, opt_view(src_addr), payload@, buf_len as nat)
                == Err::<(Seq<u8>, Seq<char>, u16), RogTcpError>(e),
        },
{
    let dst = open_optional_field(&dst_addr, password)?;
    let _src = open_optional_field(&src_addr, password)?;
    let p = decrypt_bytes(payload, password)?;
    match (dst, dst_port) {
        (Some(host), Some(port)) => {
            let n = if p.len() < buf_len {
                p.len()
            } else {
                buf_len
            };
            let mut out: Vec<u8> = Vec::new();
            let mut i: usize = 0;
            while i < n
                invariant
                    n <= p@.len(),
                    i <= n,
                    out@ == p@.take(i as int),
                decreases n - i,
            {
                out.push(p[i]);
                i = i + 1;
                assert(out@ == p@.take(i as int));
            }
            Ok(OpenedUdpResponse { payload: out, host, port: port as u16 })
        },
        _ => Err(RogTcpError::MissingAddress),
    }
}

/// The two halves of a ROG-over-TCP datagram connection: the stream it runs
/// on and the password that encrypts its fields.
pub struct RogTcpDatagram<T> {
    pub stream: T,
    pub password: String,
}

impl<T> RogTcpDatagram<T> {
    pub fn new(stream: T, password: String) -> (d: Self)
        ensures
            d.stream == stream,
            d.password == password,
    {
        RogTcpDatagram { stream, password }
    }
}

} // verus!
