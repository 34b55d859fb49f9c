//! Join tokens: `gosh_join_` followed by the unpadded URL-safe Base64 of the token's JSON.
use crate::codec::{
    is_url_safe_base64_char, base64_url_nopad_decode, base64_url_nopad_encode, decode_base64_url, encode_base64_url,
};
use crate::text::{spec_trim, starts_with, trim};
use vstd::prelude::*;

verus! {

/// Connection details handed to an agent that joins a memory server.
#[derive(Debug, Clone, PartialEq, Eq)]
pub struct JoinToken {
    pub url: String,
    pub transport_token: Option<String>,
    pub principal_id: Option<String>,
    pub principal_token: Option<String>,
    pub key: Option<String>,
    pub swarm_id: Option<String>,
    pub fingerprint: Option<String>,
    pub ca: Option<String>,
}

/// The mathematical value of a [`JoinToken`].
pub struct JoinTokenView {
    pub url: Seq<char>,
    pub transport_token: Option<Seq<char>>,
    pub principal_id: Option<Seq<char>>,
    pub principal_token: Option<Seq<char>>,
    pub key: Option<Seq<char>>,
    pub swarm_id: Option<Seq<char>>,
    pub fingerprint: Option<Seq<char>>,
    pub ca: Option<Seq<char>>,
}

impl View for JoinToken {
    type V = JoinTokenView;

    open spec fn view(&self) -> JoinTokenView {
        JoinTokenView {
            url: self.url@,
            transport_token: self.transport_token.deep_view(),
            principal_id: self.principal_id.deep_view(),
            principal_token: self.principal_token.deep_view(),
            key: self.key.deep_view(),
            swarm_id: self.swarm_id.deep_view(),
            fingerprint: self.fingerprint.deep_view(),
            ca: self.ca.deep_view(),
        }
    }
}

/// Why a join token was refused.
#[derive(Debug, Clone, Copy, PartialEq, Eq, Structural)]
pub enum JoinTokenError {
    /// The URL is empty or white space only.
    EmptyUrl,
    /// The URL starts with neither `http://` nor `https://`.
    UnsupportedScheme,
    /// Neither a transport token nor a principal token is present and non-empty.
    MissingCredential,
    /// The text does not start with `gosh_join_`.
    MissingPrefix,
    /// The text after the prefix is not unpadded URL-safe Base64.
    InvalidBase64,
}

pub open spec fn http_scheme() -> Seq<char> {
    seq!['h', 't', 't', 'p', ':', '/', '/']
}

pub open spec fn https_scheme() -> Seq<char> {
    seq!['h', 't', 't', 'p', 's', ':', '/', '/']
}

/// The URL starts with `http://` or `https://`.
pub open spec fn has_http_scheme(url: Seq<char>) -> bool {
    http_scheme().is_prefix_of(url) || https_scheme().is_prefix_of(url)
}

pub open spec fn join_prefix() -> Seq<char> {
    seq!['g', 'o', 's', 'h', '_', 'j', 'o', 'i', 'n', '_']
}

/// An optional text that is present and not empty.
pub open spec fn is_present(v: Option<Seq<char>>) -> bool {
    v matches Some(s) && s.len() > 0
}

/// The checks of `JoinToken::validate`, in their order.
pub open spec fn spec_validate(t: JoinTokenView) -> Result<(), JoinTokenError> {
    if spec_trim(t.url).len() == 0 {
        Err(JoinTokenError::EmptyUrl)
    } else if !has_http_scheme(t.url) {
        Err(JoinTokenError::UnsupportedScheme)
    } else if !is_present(t.transport_token) && !is_present(t.principal_token) {
        Err(JoinTokenError::MissingCredential)
    } else {
        Ok(())
    }
}

/// The JSON bytes framed in a token text, or why the frame is refused.
pub open spec fn spec_decode_payload(input: Seq<char>) -> Result<Seq<u8>, JoinTokenError> {
    if !join_prefix().is_prefix_of(input) {
        Err(JoinTokenError::MissingPrefix)
    } else {
        match base64_url_nopad_decode(input.skip(join_prefix().len() as int)) {
            Some(bytes) => Ok(bytes),
            None => Err(JoinTokenError::InvalidBase64),
        }
    }
}

/// `gosh_join_` followed only by URL-safe Base64 symbols.
pub open spec fn is_url_safe_frame(text: Seq<char>) -> bool {
    &&& join_prefix().is_prefix_of(text)
    &&& forall|i: int|
        join_prefix().len() <= i < text.len() ==> is_url_safe_base64_char(#[trigger] text[i])
}

/// The token text that frames these JSON bytes.
pub open spec fn spec_frame(json: Seq<u8>) -> Seq<char> {
    join_prefix() + base64_url_nopad_encode(json)
}

pub fn uses_http_scheme(url: &str) -> (r: bool)
    ensures
        r == has_http_scheme(url@),
{
    let https = "https://";
    let http = "http://";
    proof {
        reveal_strlit("https://");
        reveal_strlit("http://");
        assert(https@ =~= https_scheme());
        assert(http@ =~= http_scheme());
    }
    starts_with(url, https) || starts_with(url, http)
}

fn is_present_exec(v: &Option<String>) -> (r: bool)
    ensures
        r == is_present(v.deep_view()),
{
    match v {
        Some(s) => !s.as_str().is_empty(),
        None => false,
    }
}

impl JoinToken {
    /// Checks that the URL is non-blank and http(s), and that some credential is present.
    pub fn validate(&self) -> (r: Result<(), JoinTokenError>)
        ensures
            r == spec_validate(self@),
    {
        let trimmed = trim(self.url.as_str());
        if trimmed.as_str().is_empty() {
            return Err(JoinTokenError::EmptyUrl);
        }
        if !uses_http_scheme(self.url.as_str()) {
            return Err(JoinTokenError::UnsupportedScheme);
        }
        let has_transport = is_present_exec(&self.transport_token);
        let has_principal = is_present_exec(&self.principal_token);
        if !has_transport && !has_principal {
            return Err(JoinTokenError::MissingCredential);
        }
        Ok(())
    }

    /// Validates the token, then frames `json`, the token's JSON serialisation, as
    /// `gosh_join_` followed by its unpadded URL-safe Base64. Reading the frame back with
    /// [`JoinToken::decode_payload`] gives `json` again.
    pub fn encode(&self, json: &[u8]) -> (r: Result<String, JoinTokenError>)
        requires
            json@.len() <= usize::MAX / 2,
        ensures
            match r {
                Ok(text) => {
                    &&& spec_validate(self@) is Ok
                    &&& text@ == spec_frame(json@)
                    &&& spec_decode_payload(text@) == Ok::<Seq<u8>, JoinTokenError>(json@)
                    &&& is_url_safe_frame(text@)
                },
                Err(e) => spec_validate(self@) == Err::<(), JoinTokenError>(e),
            },
    {
        self.validate()?;
        Ok(frame_payload(json))
    }

    /// The JSON bytes framed in a join token text: the text must start with `gosh_join_`
    /// and continue with unpadded URL-safe Base64.
    pub fn decode_payload(input: &str) -> (r: Result<Vec<u8>, JoinTokenError>)
        ensures
            match r {
                Ok(bytes) => spec_decode_payload(input@) == Ok::<Seq<u8>, JoinTokenError>(bytes@),
                Err(e) => spec_decode_payload(input@) == Err::<Seq<u8>, JoinTokenError>(e),
            },
    {
        let prefix = "gosh_join_";
        proof {
            reveal_strlit("gosh_join_");
            assert(prefix@ =~= join_prefix());
        }
        if !starts_with(input, prefix) {
            return Err(JoinTokenError::MissingPrefix);
        }
        let n = input.unicode_len();
        let rest = input.substring_char(10, n);
        assert(rest@ =~= input@.skip(10));
        match decode_base64_url(rest) {
            Ok(bytes) => Ok(bytes),
            Err(_) => Err(JoinTokenError::InvalidBase64),
        }
    }
}

/// `gosh_join_` followed by the unpadded URL-safe Base64 of `json`.
pub fn frame_payload(json: &[u8]) -> (r: String)
    requires
        json@.len() <= usize::MAX / 2,
    ensures
        r@ == spec_frame(json@),
        spec_decode_payload(r@) == Ok::<Seq<u8>, JoinTokenError>(json@),
        is_url_safe_frame(r@),
{
    let prefix = "gosh_join_";
    proof {
        reveal_strlit("gosh_join_");
        assert(prefix@ =~= join_prefix());
    }
    let encoded = encode_base64_url(json);
    let mut text = String::from_str(prefix);
    text.append(encoded.as_str());
    proof {
        assert(join_prefix().is_prefix_of(text@));
        assert(text@.skip(10) =~= encoded@);
        assert forall|i: int| 10 <= i < text@.len() implies is_url_safe_base64_char(
            #[trigger] text@[i],
        ) by {
            assert(text@[i] == encoded@[i - 10]);
        }
    }
    text
}

/// Law: a token validates exactly when its URL is non-blank and http(s), and a transport
/// token or a principal token is present and non-empty.
pub proof fn law_validate_accepts_exactly(t: JoinTokenView)
    ensures
        spec_validate(t) is Ok <==> {
            &&& spec_trim(t.url).len() > 0
            &&& (http_scheme().is_prefix_of(t.url) || https_scheme().is_prefix_of(t.url))
            &&& ((t.transport_token matches Some(s) && s.len() > 0) || (
            t.principal_token matches Some(p) && p.len() > 0))
        },
{
}

/// Law: only the URL and the two credential tokens decide validation; the principal id, key,
/// swarm, CA and fingerprint never make a token valid or invalid.
pub proof fn law_validate_ignores_other_fields(t1: JoinTokenView, t2: JoinTokenView)
    requires
        t1.url == t2.url,
        t1.transport_token == t2.transport_token,
        t1.principal_token == t2.principal_token,
    ensures
        spec_validate(t1) == spec_validate(t2),
{
}

} // verus!
