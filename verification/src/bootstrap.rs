//! Bootstrap payloads: agent keypairs, bootstrap bundles and runtime binding envelopes.
use crate::binding::{spec_to_join_token, RuntimeBinding, RuntimeBindingView};
use crate::codec::{base64_standard_decode, base64_standard_encode, encode_base64_standard};
use crate::envelope::{random_secret_bytes, x25519_public_key, x25519_public_key_of};
use crate::join_token::{
    is_url_safe_frame, spec_decode_payload, spec_frame, spec_validate, JoinTokenError,
};
use vstd::prelude::*;

verus! {

/// An X25519 keypair, both halves in standard Base64.
#[derive(Debug, Clone, PartialEq, Eq)]
pub struct AgentKeypair {
    pub secret_key_b64: String,
    pub public_key_b64: String,
}

/// What an agent needs to start: its join token and its secret key.
#[derive(Debug, Clone, PartialEq, Eq)]
pub struct BootstrapBundle {
    pub join_token: String,
    pub secret_key: String,
}

/// A runtime binding wrapped with its schema version and kind.
#[derive(Debug, Clone, PartialEq, Eq)]
pub struct RuntimeBindingEnvelope {
    pub schema_version: u32,
    pub kind: String,
    pub binding: RuntimeBinding,
}

/// The keypair texts of a 32-byte secret key: the Base64 of the secret and of its public key.
pub open spec fn spec_keypair_texts(secret: Seq<u8>) -> (Seq<char>, Seq<char>) {
    (base64_standard_encode(secret), base64_standard_encode(x25519_public_key(secret)))
}

/// `runtime_binding`
pub open spec fn runtime_binding_kind() -> Seq<char> {
    seq!['r', 'u', 'n', 't', 'i', 'm', 'e', '_', 'b', 'i', 'n', 'd', 'i', 'n', 'g']
}

/// The keypair of a given 32-byte secret key, both halves in standard Base64.
pub fn keypair_from_secret(secret: &[u8; 32]) -> (r: AgentKeypair)
    ensures
        (r.secret_key_b64@, r.public_key_b64@) == spec_keypair_texts(secret@),
        base64_standard_decode(r.secret_key_b64@) == Some(secret@),
        base64_standard_decode(r.public_key_b64@) == Some(x25519_public_key(secret@)),
        x25519_public_key(secret@).len() == 32,
{
    let public = x25519_public_key_of(secret);
    AgentKeypair {
        secret_key_b64: encode_base64_standard(secret.as_slice()),
        public_key_b64: encode_base64_standard(public.as_slice()),
    }
}

/// A fresh random X25519 keypair, both halves in standard Base64; each decodes to 32 bytes.
pub fn generate_agent_keypair() -> (r: AgentKeypair)
    ensures
        exists|secret: Seq<u8>|
            {
                &&& secret.len() == 32
                &&& (r.secret_key_b64@, r.public_key_b64@) == #[trigger] spec_keypair_texts(secret)
                &&& base64_standard_decode(r.secret_key_b64@) == Some(secret)
                &&& base64_standard_decode(r.public_key_b64@) == Some(x25519_public_key(secret))
                &&& x25519_public_key(secret).len() == 32
            },
{
    let secret = random_secret_bytes();
    let r = keypair_from_secret(&secret);
    assert(spec_keypair_texts(secret@) == (r.secret_key_b64@, r.public_key_b64@));
    r
}

/// The bundle for a binding: its join token, framed from `token_json`, the JSON of
/// `binding.to_join_token()`, and the secret key as given. Refused when that join token
/// does not validate.
pub fn build_bootstrap_bundle(
    binding: &RuntimeBinding,
    secret_key_b64: String,
    token_json: &[u8],
) -> (r: Result<BootstrapBundle, JoinTokenError>)
    requires
        token_json@.len() <= usize::MAX / 2,
    ensures
        match r {
            Ok(bundle) => {
                &&& spec_validate(spec_to_join_token(binding@)) is Ok
                &&& bundle.join_token@ == spec_frame(token_json@)
                &&& is_url_safe_frame(bundle.join_token@)
                &&& spec_decode_payload(bundle.join_token@) == Ok::<Seq<u8>, JoinTokenError>(
                    token_json@,
                )
                &&& bundle.secret_key@ == secret_key_b64@
            },
            Err(e) => spec_validate(spec_to_join_token(binding@)) == Err::<(), JoinTokenError>(e),
        },
{
    let token = binding.to_join_token();
    let join_token = token.encode(token_json)?;
    Ok(BootstrapBundle { join_token, secret_key: secret_key_b64 })
}

impl RuntimeBindingEnvelope {
    /// Schema version 1, kind `runtime_binding`.
    pub fn new(binding: RuntimeBinding) -> (r: Self)
        ensures
            r.schema_version == 1,
            r.kind@ == runtime_binding_kind(),
            r.binding@ == binding@,
    {
        let kind = "runtime_binding";
        proof {
            reveal_strlit("runtime_binding");
            assert(kind@ =~= runtime_binding_kind());
        }
        RuntimeBindingEnvelope { schema_version: 1, kind: String::from_str(kind), binding }
    }
}

} // verus!
