//! Sealed envelopes: secrets sealed to an agent's X25519 key with an ephemeral X25519 key,
//! HKDF-SHA256 and AES-256-GCM.
//!
//! An envelope is `magic (4) | ephemeral public key (32) | nonce (12) | ciphertext`, where the
//! magic `GMS1` or `GMS2` selects the HKDF info string, which is also the AEAD associated data.
use crate::codec::{base64_standard_decode, decode_base64_standard};
use aes_gcm::aead::Aead;
use aes_gcm::KeyInit;
use vstd::prelude::*;
use vstd::utf8::{decode_utf8, valid_utf8};
use zeroize::Zeroize;

verus! {

#[verifier::external_type_specification]
#[verifier::external_body]
pub struct ExAeadError(aes_gcm::Error);

#[verifier::external_type_specification]
#[verifier::external_body]
pub struct ExFromUtf8Error(std::string::FromUtf8Error);

/// What `StaticSecret::from(secret).diffie_hellman(&PublicKey::from(public))` gives, as bytes.
pub uninterp spec fn x25519_shared_secret(secret: Seq<u8>, public: Seq<u8>) -> Seq<u8>;

/// What `PublicKey::from(&StaticSecret::from(secret))` gives, as bytes.
pub uninterp spec fn x25519_public_key(secret: Seq<u8>) -> Seq<u8>;

/// The 32 bytes of output keying material of HKDF-SHA256 with no salt, for this input keying
/// material and info.
pub uninterp spec fn hkdf_sha256_okm32(ikm: Seq<u8>, info: Seq<u8>) -> Seq<u8>;

/// What AES-256-GCM decryption of `ciphertext` (with its 16-byte tag at the end) under `key`,
/// `nonce` and associated data `aad` gives: the plaintext, or `None` when authentication fails.
pub uninterp spec fn aes256_gcm_decrypt(
    key: Seq<u8>,
    nonce: Seq<u8>,
    ciphertext: Seq<u8>,
    aad: Seq<u8>,
) -> Option<Seq<u8>>;

/// `x25519_dalek::StaticSecret::diffie_hellman`, with the secret and the public key loaded
/// from their bytes by `From<[u8; 32]>`. Claimed: the shared secret is the named result.
#[verifier::external_body]
fn x25519_diffie_hellman(secret: &[u8; 32], public: &[u8; 32]) -> (r: [u8; 32])
    ensures
        r@ == x25519_shared_secret(secret@, public@),
{
    let secret = x25519_dalek::StaticSecret::from(*secret);
    secret.diffie_hellman(&x25519_dalek::PublicKey::from(*public)).to_bytes()
}

/// `From<&StaticSecret> for x25519_dalek::PublicKey`, the secret loaded from its bytes.
/// Claimed: the public key is the named result.
#[verifier::external_body]
pub(crate) fn x25519_public_key_of(secret: &[u8; 32]) -> (r: [u8; 32])
    ensures
        r@ == x25519_public_key(secret@),
{
    let secret = x25519_dalek::StaticSecret::from(*secret);
    x25519_dalek::PublicKey::from(&secret).to_bytes()
}

/// `x25519_dalek::StaticSecret::random_from_rng` with the operating system's generator,
/// as bytes. Nothing is claimed of the bytes: they are random. (The generator panics if the
/// operating system cannot supply randomness.)
#[verifier::external_body]
pub(crate) fn random_secret_bytes() -> (r: [u8; 32]) {
    x25519_dalek::StaticSecret::random_from_rng(aes_gcm::aead::OsRng).to_bytes()
}

/// `hkdf::Hkdf::<Sha256>::new(None, ikm)` followed by `expand(info, ..)` into 32 bytes.
/// Claimed: the output is the named keying material, and it is produced (`expand` refuses
/// only outputs longer than 255 hash lengths).
#[verifier::external_body]
fn hkdf_sha256_expand32(ikm: &[u8; 32], info: &[u8]) -> (r: Option<[u8; 32]>)
    ensures
        r is Some,
        r matches Some(okm) ==> okm@ == hkdf_sha256_okm32(ikm@, info@),
{
    let hkdf = hkdf::Hkdf::<sha2::Sha256>::new(None, ikm);
    let mut okm = [0u8; 32];
    match hkdf.expand(info, &mut okm) {
        Ok(()) => Some(okm),
        Err(_) => None,
    }
}

/// `aes_gcm::aead::Aead::decrypt` of `Aes256Gcm` keyed with `key`, for the nonce and the
/// payload `(ciphertext, aad)`. Claimed: success and plaintext are as the name says.
#[verifier::external_body]
fn aes256_gcm_open(key: &[u8; 32], nonce: &[u8; 12], ciphertext: &[u8], aad: &[u8]) -> (r: Result<
    Vec<u8>,
    aes_gcm::Error,
>)
    ensures
        match r {
            Ok(plaintext) => aes256_gcm_decrypt(key@, nonce@, ciphertext@, aad@) == Some(
                plaintext@,
            ),
            Err(_) => aes256_gcm_decrypt(key@, nonce@, ciphertext@, aad@) is None,
        },
{
    let cipher = aes_gcm::Aes256Gcm::new(key.into());
    let payload = aes_gcm::aead::Payload { msg: ciphertext, aad };
    cipher.decrypt(aes_gcm::Nonce::from_slice(nonce), payload)
}

/// `String::from_utf8`. Claimed, as its documentation says: it succeeds exactly on valid
/// UTF-8, and then holds the decoded characters.
#[verifier::external_body]
fn string_from_utf8(bytes: Vec<u8>) -> (r: Result<String, std::string::FromUtf8Error>)
    ensures
        match r {
            Ok(s) => valid_utf8(bytes@) && s@ == decode_utf8(bytes@),
            Err(_) => !valid_utf8(bytes@),
        },
{
    String::from_utf8(bytes)
}

/// `zeroize::Zeroize` for a 32-byte array. Claimed: every byte is zero afterwards.
#[verifier::external_body]
fn wipe(bytes: &mut [u8; 32])
    ensures
        final(bytes)@ == Seq::new(32, |i: int| 0u8),
{
    bytes.zeroize();
}

/// An agent's X25519 secret key.
pub struct SecretKey {
    pub bytes: [u8; 32],
}

/// Why a sealed secret or a secret key was refused.
#[derive(Debug, Clone, Copy, PartialEq, Eq, Structural)]
pub enum EnvelopeError {
    /// The sealed text is not standard Base64.
    InvalidBase64,
    /// The envelope has fewer than 64 bytes; this many.
    TooShort(usize),
    /// The envelope starts with neither `GMS1` nor `GMS2`.
    InvalidMagic,
    /// HKDF could not produce the key.
    KeyDerivation,
    /// AES-GCM authentication failed.
    Decrypt,
    /// The plaintext is not UTF-8.
    InvalidUtf8,
    /// A secret key must be exactly 32 bytes; this many were given.
    KeyLength(usize),
}

pub open spec fn magic_v1() -> Seq<u8> {
    seq![0x47u8, 0x4d, 0x53, 0x31]
}

pub open spec fn magic_v2() -> Seq<u8> {
    seq![0x47u8, 0x4d, 0x53, 0x32]
}

/// `gosh.memory/agent-secrets/v1`
pub open spec fn secret_info_v1() -> Seq<u8> {
    seq![0x67u8, 0x6f, 0x73, 0x68, 0x2e, 0x6d, 0x65, 0x6d, 0x6f, 0x72, 0x79, 0x2f, 0x61, 0x67, 0x65, 0x6e, 0x74, 0x2d, 0x73, 0x65, 0x63, 0x72, 0x65, 0x74, 0x73, 0x2f, 0x76, 0x31]
}

/// `gosh.memory/namespace-secret-delivery/v1`
pub open spec fn secret_info_v2() -> Seq<u8> {
    seq![0x67u8, 0x6f, 0x73, 0x68, 0x2e, 0x6d, 0x65, 0x6d, 0x6f, 0x72, 0x79, 0x2f, 0x6e, 0x61, 0x6d, 0x65, 0x73, 0x70, 0x61, 0x63, 0x65, 0x2d, 0x73, 0x65, 0x63, 0x72, 0x65, 0x74, 0x2d, 0x64, 0x65, 0x6c, 0x69, 0x76, 0x65, 0x72, 0x79, 0x2f, 0x76, 0x31]
}

/// The info string that the envelope's magic selects.
pub open spec fn info_for_magic(magic: Seq<u8>) -> Option<Seq<u8>> {
    if magic == magic_v1() {
        Some(secret_info_v1())
    } else if magic == magic_v2() {
        Some(secret_info_v2())
    } else {
        None
    }
}

/// The parts of a sealed envelope.
pub struct SealedEnvelope {
    /// The HKDF info string and AEAD associated data that the magic selects.
    pub info: Vec<u8>,
    pub ephemeral_public: [u8; 32],
    pub nonce: [u8; 12],
    pub ciphertext: Vec<u8>,
}

pub struct SealedEnvelopeView {
    pub info: Seq<u8>,
    pub ephemeral_public: Seq<u8>,
    pub nonce: Seq<u8>,
    pub ciphertext: Seq<u8>,
}

impl View for SealedEnvelope {
    type V = SealedEnvelopeView;

    open spec fn view(&self) -> SealedEnvelopeView {
        SealedEnvelopeView {
            info: self.info@,
            ephemeral_public: self.ephemeral_public@,
            nonce: self.nonce@,
            ciphertext: self.ciphertext@,
        }
    }
}

/// The parts of an envelope, or why it is refused.
pub open spec fn spec_parse_envelope(envelope: Seq<u8>) -> Result<SealedEnvelopeView, EnvelopeError> {
    if envelope.len() < 64 {
        Err(EnvelopeError::TooShort(envelope.len() as usize))
    } else {
        match info_for_magic(envelope.subrange(0, 4)) {
            None => Err(EnvelopeError::InvalidMagic),
            Some(info) => Ok(
                SealedEnvelopeView {
                    info,
                    ephemeral_public: envelope.subrange(4, 36),
                    nonce: envelope.subrange(36, 48),
                    ciphertext: envelope.subrange(48, envelope.len() as int),
                },
            ),
        }
    }
}

/// The AES key that the agent's secret and the envelope's ephemeral key agree on.
pub open spec fn spec_envelope_key(secret: Seq<u8>, parts: SealedEnvelopeView) -> Seq<u8> {
    hkdf_sha256_okm32(x25519_shared_secret(secret, parts.ephemeral_public), parts.info)
}

/// The secret sealed in an envelope, or why it cannot be opened.
pub open spec fn spec_open_envelope(secret: Seq<u8>, envelope: Seq<u8>) -> Result<
    Seq<char>,
    EnvelopeError,
> {
    match spec_parse_envelope(envelope) {
        Err(e) => Err(e),
        Ok(parts) => match aes256_gcm_decrypt(
            spec_envelope_key(secret, parts),
            parts.nonce,
            parts.ciphertext,
            parts.info,
        ) {
            None => Err(EnvelopeError::Decrypt),
            Some(plaintext) => if valid_utf8(plaintext) {
                Ok(decode_utf8(plaintext))
            } else {
                Err(EnvelopeError::InvalidUtf8)
            },
        },
    }
}

/// The secret sealed in a standard-Base64 envelope, or why it cannot be opened.
pub open spec fn spec_decrypt_agent_secret(secret: Seq<u8>, sealed: Seq<char>) -> Result<
    Seq<char>,
    EnvelopeError,
> {
    match base64_standard_decode(sealed) {
        None => Err(EnvelopeError::InvalidBase64),
        Some(envelope) => spec_open_envelope(secret, envelope),
    }
}

/// A secret key read as raw bytes: exactly 32 of them.
pub open spec fn spec_secret_key_from_bytes(bytes: Seq<u8>) -> Result<Seq<u8>, EnvelopeError> {
    if bytes.len() == 32 {
        Ok(bytes)
    } else {
        Err(EnvelopeError::KeyLength(bytes.len() as usize))
    }
}

/// `src[start..start + N]` as an array.
fn copy_array<const N: usize>(src: &[u8], start: usize) -> (r: [u8; N])
    requires
        start + N <= src@.len(),
    ensures
        r@ == src@.subrange(start as int, start + N),
{
    let mut out: [u8; N] = vstd::array::array_fill_for_copy_types(0u8);
    let n = src.len();
    let mut i: usize = 0;
    while i < N
        invariant
            start + N <= src@.len(),
            n == src@.len(),
            i <= N,
            out@.len() == N,
            forall|k: int| 0 <= k < i ==> out@[k] == src@[start + k],
        decreases N - i,
    {
        out[i] = src[start + i];
        i = i + 1;
    }
    assert(out@ =~= src@.subrange(start as int, start + N));
    out
}

fn slice_eq(a: &[u8], b: &[u8]) -> (r: bool)
    ensures
        r == (a@ == b@),
{
    if a.len() != b.len() {
        return false;
    }
    let mut i: usize = 0;
    while i < a.len()
        invariant
            a@.len() == b@.len(),
            i <= a@.len(),
            forall|k: int| 0 <= k < i ==> a@[k] == b@[k],
        decreases a@.len() - i,
    {
        if a[i] != b[i] {
            return false;
        }
        i = i + 1;
    }
    assert(a@ =~= b@);
    true
}

/// Splits an envelope into its parts: at least 64 bytes, a `GMS1` or `GMS2` magic, the
/// ephemeral public key, the nonce and the ciphertext.
pub fn parse_envelope(envelope: &[u8]) -> (r: Result<SealedEnvelope, EnvelopeError>)
    ensures
        match r {
            Ok(parts) => spec_parse_envelope(envelope@) == Ok::<
                SealedEnvelopeView,
                EnvelopeError,
            >(parts@),
            Err(e) => spec_parse_envelope(envelope@) == Err::<SealedEnvelopeView, EnvelopeError>(
                e,
            ),
        },
{
    if envelope.len() < 64 {
        return Err(EnvelopeError::TooShort(envelope.len()));
    }
    let magic = copy_array::<4>(envelope, 0);
    let v1: [u8; 4] = [0x47, 0x4d, 0x53, 0x31];
    let v2: [u8; 4] = [0x47, 0x4d, 0x53, 0x32];
    assert(v1@ =~= magic_v1());
    assert(v2@ =~= magic_v2());
    let info: Vec<u8> = if slice_eq(magic.as_slice(), v1.as_slice()) {
        let info = vec![0x67u8, 0x6f, 0x73, 0x68, 0x2e, 0x6d, 0x65, 0x6d, 0x6f, 0x72, 0x79, 0x2f, 0x61, 0x67, 0x65, 0x6e, 0x74, 0x2d, 0x73, 0x65, 0x63, 0x72, 0x65, 0x74, 0x73, 0x2f, 0x76, 0x31];
        assert(info@ =~= secret_info_v1());
        info
    } else if slice_eq(magic.as_slice(), v2.as_slice()) {
        let info = vec![0x67u8, 0x6f, 0x73, 0x68, 0x2e, 0x6d, 0x65, 0x6d, 0x6f, 0x72, 0x79, 0x2f, 0x6e, 0x61, 0x6d, 0x65, 0x73, 0x70, 0x61, 0x63, 0x65, 0x2d, 0x73, 0x65, 0x63, 0x72, 0x65, 0x74, 0x2d, 0x64, 0x65, 0x6c, 0x69, 0x76, 0x65, 0x72, 0x79, 0x2f, 0x76, 0x31];
        assert(info@ =~= secret_info_v2());
        info
    } else {
        return Err(EnvelopeError::InvalidMagic);
    };
    let ephemeral_public = copy_array::<32>(envelope, 4);
    let nonce = copy_array::<12>(envelope, 36);
    let mut ciphertext: Vec<u8> = Vec::new();
    let mut i: usize = 48;
    while i < envelope.len()
        invariant
            48 <= i <= envelope@.len(),
            ciphertext@ =~= envelope@.subrange(48, i as int),
        decreases envelope@.len() - i,
    {
        ciphertext.push(envelope[i]);
        i = i + 1;
    }
    Ok(SealedEnvelope { info, ephemeral_public, nonce, ciphertext })
}

impl SecretKey {
    /// A secret key from its raw bytes, which must be exactly 32.
    pub fn from_bytes(bytes: &[u8]) -> (r: Result<SecretKey, EnvelopeError>)
        ensures
            match r {
                Ok(k) => spec_secret_key_from_bytes(bytes@) == Ok::<Seq<u8>, EnvelopeError>(
                    k.bytes@,
                ),
                Err(e) => spec_secret_key_from_bytes(bytes@) == Err::<Seq<u8>, EnvelopeError>(e),
            },
    {
        if bytes.len() != 32 {
            return Err(EnvelopeError::KeyLength(bytes.len()));
        }
        let mut staged = copy_array::<32>(bytes, 0);
        let key = SecretKey { bytes: staged };
        wipe(&mut staged);
        assert(bytes@.subrange(0, 32) =~= bytes@);
        Ok(key)
    }

    /// The X25519 public key that belongs to this secret key.
    pub fn public_key(&self) -> (r: [u8; 32])
        ensures
            r@ == x25519_public_key(self.bytes@),
    {
        x25519_public_key_of(&self.bytes)
    }
}

/// Opens an envelope sealed to `private_key`: derives the AES key from the X25519 agreement
/// with the envelope's ephemeral key, authenticates and decrypts, and reads the plaintext as
/// UTF-8.
pub fn open_envelope(private_key: &SecretKey, envelope: &[u8]) -> (r: Result<String, EnvelopeError>)
    ensures
        match r {
            Ok(s) => spec_open_envelope(private_key.bytes@, envelope@) == Ok::<
                Seq<char>,
                EnvelopeError,
            >(s@),
            Err(e) => spec_open_envelope(private_key.bytes@, envelope@) == Err::<
                Seq<char>,
                EnvelopeError,
            >(e),
        },
{
    let parts = parse_envelope(envelope)?;
    let mut shared = x25519_diffie_hellman(&private_key.bytes, &parts.ephemeral_public);
    let derived = hkdf_sha256_expand32(&shared, parts.info.as_slice());
    wipe(&mut shared);
    let mut aes_key = match derived {
        Some(k) => k,
        None => return Err(EnvelopeError::KeyDerivation),
    };
    let opened = aes256_gcm_open(
        &aes_key,
        &parts.nonce,
        parts.ciphertext.as_slice(),
        parts.info.as_slice(),
    );
    wipe(&mut aes_key);
    let plaintext = match opened {
        Ok(p) => p,
        Err(_) => return Err(EnvelopeError::Decrypt),
    };
    match string_from_utf8(plaintext) {
        Ok(s) => Ok(s),
        Err(_) => Err(EnvelopeError::InvalidUtf8),
    }
}

/// Decrypts a secret sealed to `private_key` and delivered as standard Base64.
pub fn decrypt_agent_secret(private_key: &SecretKey, ciphertext_b64: &str) -> (r: Result<
    String,
    EnvelopeError,
>)
    ensures
        match r {
            Ok(s) => spec_decrypt_agent_secret(private_key.bytes@, ciphertext_b64@) == Ok::<
                Seq<char>,
                EnvelopeError,
            >(s@),
            Err(e) => spec_decrypt_agent_secret(private_key.bytes@, ciphertext_b64@) == Err::<
                Seq<char>,
                EnvelopeError,
            >(e),
        },
{
    let envelope = match decode_base64_standard(ciphertext_b64) {
        Ok(bytes) => bytes,
        Err(_) => return Err(EnvelopeError::InvalidBase64),
    };
    open_envelope(private_key, envelope.as_slice())
}

/// What opening the envelope body gives when `info` is taken as HKDF info and associated data.
pub open spec fn spec_open_with_info(secret: Seq<u8>, envelope: Seq<u8>, info: Seq<u8>) -> Result<
    Seq<char>,
    EnvelopeError,
> {
    let key = hkdf_sha256_okm32(x25519_shared_secret(secret, envelope.subrange(4, 36)), info);
    match aes256_gcm_decrypt(key, envelope.subrange(36, 48), envelope.subrange(48, envelope.len() as int), info) {
        None => Err(EnvelopeError::Decrypt),
        Some(plaintext) => if valid_utf8(plaintext) {
            Ok(decode_utf8(plaintext))
        } else {
            Err(EnvelopeError::InvalidUtf8)
        },
    }
}

/// Law: the magic alone selects the info string. A `GMS1` envelope is opened with
/// `gosh.memory/agent-secrets/v1` and a `GMS2` envelope with
/// `gosh.memory/namespace-secret-delivery/v1`, as HKDF info and as associated data, with no
/// fallback to the other; any other magic is refused.
pub proof fn law_magic_selects_info(secret: Seq<u8>, envelope: Seq<u8>)
    requires
        envelope.len() >= 64,
    ensures
        spec_open_envelope(secret, envelope) == (if envelope.subrange(0, 4) == magic_v1() {
            spec_open_with_info(secret, envelope, secret_info_v1())
        } else if envelope.subrange(0, 4) == magic_v2() {
            spec_open_with_info(secret, envelope, secret_info_v2())
        } else {
            Err(EnvelopeError::InvalidMagic)
        }),
{
}

/// Law: an envelope whose body authenticates under the key and associated data its magic
/// selects opens to that plaintext, and so does its standard Base64 text.
pub proof fn law_sealed_secret_opens(
    secret: Seq<u8>,
    envelope: Seq<u8>,
    sealed: Seq<char>,
    plaintext: Seq<u8>,
)
    requires
        envelope.len() >= 64,
        info_for_magic(envelope.subrange(0, 4)) is Some,
        aes256_gcm_decrypt(
            hkdf_sha256_okm32(
                x25519_shared_secret(secret, envelope.subrange(4, 36)),
                info_for_magic(envelope.subrange(0, 4))->Some_0,
            ),
            envelope.subrange(36, 48),
            envelope.subrange(48, envelope.len() as int),
            info_for_magic(envelope.subrange(0, 4))->Some_0,
        ) == Some(plaintext),
        valid_utf8(plaintext),
        base64_standard_decode(sealed) == Some(envelope),
    ensures
        spec_open_envelope(secret, envelope) == Ok::<Seq<char>, EnvelopeError>(
            decode_utf8(plaintext),
        ),
        spec_decrypt_agent_secret(secret, sealed) == Ok::<Seq<char>, EnvelopeError>(
            decode_utf8(plaintext),
        ),
{
}

} // verus!
