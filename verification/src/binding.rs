//! Runtime memory bindings: which memory server, key and swarm an agent is bound to,
//! with the credentials it uses there.
use crate::join_token::{
    has_http_scheme, http_scheme, https_scheme, uses_http_scheme, JoinToken, JoinTokenView,
};
use crate::join_token::{spec_validate, JoinTokenError};
use crate::text::{
    is_white_space, lemma_not_blank, lemma_trim_end_at, lemma_trim_end_idempotent,
    lemma_trim_end_prefix, lemma_trim_idempotent, spec_trim, trim, trim_end_matching,
};
use vstd::prelude::*;

verus! {

/// The identity of a binding: normalised memory URL, key and swarm.
#[derive(Debug, Clone, PartialEq, Eq, Hash)]
pub struct RuntimeBindingKey {
    pub memory_url: String,
    pub key: String,
    pub swarm_id: String,
}

/// A binding of an agent to a memory server, key and swarm.
#[derive(Debug, Clone, PartialEq, Eq)]
pub struct RuntimeBinding {
    pub memory_url: String,
    pub key: String,
    pub swarm_id: String,
    pub principal_id: String,
    pub principal_token: String,
    pub transport_token: Option<String>,
    pub tls_ca: Option<String>,
    pub tls_fingerprint: Option<String>,
}

/// The mathematical value of a [`RuntimeBindingKey`]: memory URL, key, swarm.
pub type BindingKeyView = (Seq<char>, Seq<char>, Seq<char>);

/// The mathematical value of a [`RuntimeBinding`].
pub struct RuntimeBindingView {
    pub memory_url: Seq<char>,
    pub key: Seq<char>,
    pub swarm_id: Seq<char>,
    pub principal_id: Seq<char>,
    pub principal_token: Seq<char>,
    pub transport_token: Option<Seq<char>>,
    pub tls_ca: Option<Seq<char>>,
    pub tls_fingerprint: Option<Seq<char>>,
}

impl View for RuntimeBindingKey {
    type V = BindingKeyView;

    open spec fn view(&self) -> BindingKeyView {
        (self.memory_url@, self.key@, self.swarm_id@)
    }
}

impl View for RuntimeBinding {
    type V = RuntimeBindingView;

    open spec fn view(&self) -> RuntimeBindingView {
        RuntimeBindingView {
            memory_url: self.memory_url@,
            key: self.key@,
            swarm_id: self.swarm_id@,
            principal_id: self.principal_id@,
            principal_token: self.principal_token@,
            transport_token: self.transport_token.deep_view(),
            tls_ca: self.tls_ca.deep_view(),
            tls_fingerprint: self.tls_fingerprint.deep_view(),
        }
    }
}

/// A field of a binding that must not be blank.
#[derive(Debug, Clone, Copy, PartialEq, Eq, Structural)]
pub enum BindingField {
    MemoryUrl,
    Key,
    SwarmId,
    PrincipalId,
    PrincipalToken,
}

/// Why a binding or a binding identity was refused.
#[derive(Debug, Clone, Copy, PartialEq, Eq, Structural)]
pub enum BindingError {
    /// The field is empty or white space only.
    Empty(BindingField),
    /// The memory URL uses neither `http://` nor `https://`.
    UnsupportedScheme,
    /// A TLS fingerprint was given; pinning is not supported for runtime bindings.
    FingerprintUnsupported,
}

/// A text result taken by value.
pub open spec fn text_result(r: Result<String, BindingError>) -> Result<Seq<char>, BindingError> {
    match r {
        Ok(s) => Ok(s@),
        Err(e) => Err(e),
    }
}

pub open spec fn slash_pred() -> spec_fn(char) -> bool {
    |c: char| c == '/'
}

pub open spec fn mcp_suffix() -> Seq<char> {
    seq!['/', 'm', 'c', 'p']
}

/// The value trimmed, or an error naming the field when nothing is left.
pub open spec fn spec_require_non_empty(field: BindingField, value: Seq<char>) -> Result<
    Seq<char>,
    BindingError,
> {
    let t = spec_trim(value);
    if t.len() == 0 {
        Err(BindingError::Empty(field))
    } else {
        Ok(t)
    }
}

/// The URL without trailing slashes, and without a final `/mcp` segment.
pub open spec fn strip_mcp_path(url: Seq<char>) -> Seq<char> {
    let a = trim_end_matching(url, slash_pred());
    if mcp_suffix().is_suffix_of(a) {
        trim_end_matching(a.subrange(0, a.len() - 4), slash_pred())
    } else {
        a
    }
}

/// `normalize_memory_url`: trim, drop trailing slashes and a final `/mcp`, require http(s).
pub open spec fn spec_normalize_memory_url(value: Seq<char>) -> Result<Seq<char>, BindingError> {
    match spec_require_non_empty(BindingField::MemoryUrl, value) {
        Err(e) => Err(e),
        Ok(t) => {
            let u = strip_mcp_path(t);
            if has_http_scheme(u) {
                Ok(u)
            } else {
                Err(BindingError::UnsupportedScheme)
            }
        },
    }
}

/// `normalize_optional`: trimmed, and `None` when nothing is left.
pub open spec fn spec_normalize_optional(value: Option<Seq<char>>) -> Option<Seq<char>> {
    match value {
        None => None,
        Some(s) => if spec_trim(s).len() == 0 {
            None
        } else {
            Some(spec_trim(s))
        },
    }
}

/// `RuntimeBindingKey::new`.
pub open spec fn spec_key_new(memory_url: Seq<char>, key: Seq<char>, swarm_id: Seq<char>) -> Result<
    BindingKeyView,
    BindingError,
> {
    match spec_normalize_memory_url(memory_url) {
        Err(e) => Err(e),
        Ok(u) => match spec_require_non_empty(BindingField::Key, key) {
            Err(e) => Err(e),
            Ok(k) => match spec_require_non_empty(BindingField::SwarmId, swarm_id) {
                Err(e) => Err(e),
                Ok(s) => Ok((u, k, s)),
            },
        },
    }
}

/// `RuntimeBinding::identity`.
pub open spec fn spec_identity(b: RuntimeBindingView) -> Result<BindingKeyView, BindingError> {
    spec_key_new(b.memory_url, b.key, b.swarm_id)
}

/// `RuntimeBinding::normalize`.
pub open spec fn spec_normalize_binding(b: RuntimeBindingView) -> Result<
    RuntimeBindingView,
    BindingError,
> {
    match spec_normalize_memory_url(b.memory_url) {
        Err(e) => Err(e),
        Ok(u) => match spec_require_non_empty(BindingField::Key, b.key) {
            Err(e) => Err(e),
            Ok(k) => match spec_require_non_empty(BindingField::SwarmId, b.swarm_id) {
                Err(e) => Err(e),
                Ok(s) => match spec_require_non_empty(BindingField::PrincipalId, b.principal_id) {
                    Err(e) => Err(e),
                    Ok(pi) => match spec_require_non_empty(
                        BindingField::PrincipalToken,
                        b.principal_token,
                    ) {
                        Err(e) => Err(e),
                        Ok(pt) => {
                            let fp = spec_normalize_optional(b.tls_fingerprint);
                            if fp is Some {
                                Err(BindingError::FingerprintUnsupported)
                            } else {
                                Ok(
                                    RuntimeBindingView {
                                        memory_url: u,
                                        key: k,
                                        swarm_id: s,
                                        principal_id: pi,
                                        principal_token: pt,
                                        transport_token: spec_normalize_optional(
                                            b.transport_token,
                                        ),
                                        tls_ca: spec_normalize_optional(b.tls_ca),
                                        tls_fingerprint: None,
                                    },
                                )
                            }
                        },
                    },
                },
            },
        },
    }
}

/// `RuntimeBinding::to_join_token`.
pub open spec fn spec_to_join_token(b: RuntimeBindingView) -> JoinTokenView {
    JoinTokenView {
        url: b.memory_url,
        transport_token: b.transport_token,
        principal_id: Some(b.principal_id),
        principal_token: Some(b.principal_token),
        key: Some(b.key),
        swarm_id: Some(b.swarm_id),
        fingerprint: b.tls_fingerprint,
        ca: b.tls_ca,
    }
}

fn require_non_empty(field: BindingField, value: &str) -> (r: Result<String, BindingError>)
    ensures
        text_result(r) == spec_require_non_empty(field, value@),
{
    let trimmed = trim(value);
    if trimmed.as_str().is_empty() {
        return Err(BindingError::Empty(field));
    }
    Ok(trimmed)
}

/// Index just after `url[..end]` loses its trailing slashes.
fn trailing_slashes_start(url: &str, end: usize) -> (r: usize)
    requires
        end <= url@.len(),
    ensures
        r <= end,
        trim_end_matching(url@.subrange(0, end as int), slash_pred()) == url@.subrange(0, r as int),
{
    let mut j = end;
    while j > 0 && url.get_char(j - 1) == '/'
        invariant
            end <= url@.len(),
            j <= end,
            forall|k: int| j <= k < end ==> #[trigger] url@[k] == '/',
        decreases j,
    {
        j = j - 1;
    }
    proof {
        let s = url@.subrange(0, end as int);
        let p = slash_pred();
        assert forall|k: int| j <= k < s.len() implies #[trigger] p(s[k]) by {
            assert(s[k] == url@[k]);
        }
        if j > 0 {
            assert(s[j - 1] == url@[j - 1]);
        }
        lemma_trim_end_at(s, p, j as int);
        assert(s.subrange(0, j as int) =~= url@.subrange(0, j as int));
    }
    j
}

/// Normalises a memory server URL: trims it, drops trailing slashes and a final `/mcp`
/// segment (with the slashes before it), and requires `http://` or `https://`.
pub fn normalize_memory_url(value: &str) -> (r: Result<String, BindingError>)
    ensures
        text_result(r) == spec_normalize_memory_url(value@),
{
    let trimmed = require_non_empty(BindingField::MemoryUrl, value)?;
    let t = trimmed.as_str();
    let n = t.unicode_len();
    let j = trailing_slashes_start(t, n);
    assert(t@.subrange(0, n as int) =~= t@);
    let ghost a = t@.subrange(0, j as int);
    let mut end = j;
    if j >= 4 && t.get_char(j - 4) == '/' && t.get_char(j - 3) == 'm' && t.get_char(j - 2) == 'c'
        && t.get_char(j - 1) == 'p' {
        assert(mcp_suffix().is_suffix_of(a)) by {
            assert(mcp_suffix() =~= a.subrange(a.len() - 4, a.len() as int));
        }
        end = trailing_slashes_start(t, j - 4);
        assert(a.subrange(0, a.len() - 4) =~= t@.subrange(0, j - 4));
    } else {
        assert(!mcp_suffix().is_suffix_of(a)) by {
            if mcp_suffix().is_suffix_of(a) {
                let w = a.subrange(a.len() - 4, a.len() as int);
                assert(w[0] == t@[j - 4]);
                assert(w[1] == t@[j - 3]);
                assert(w[2] == t@[j - 2]);
                assert(w[3] == t@[j - 1]);
            }
        }
    }
    let url = String::from_str(t.substring_char(0, end));
    if !uses_http_scheme(url.as_str()) {
        return Err(BindingError::UnsupportedScheme);
    }
    Ok(url)
}

fn normalize_optional(value: Option<String>) -> (r: Option<String>)
    ensures
        r.deep_view() == spec_normalize_optional(value.deep_view()),
{
    match value {
        None => None,
        Some(text) => {
            let trimmed = trim(text.as_str());
            if trimmed.as_str().is_empty() {
                None
            } else {
                Some(trimmed)
            }
        },
    }
}

fn clone_text(s: &String) -> (r: String)
    ensures
        r@ == s@,
{
    s.clone()
}

fn clone_optional_text(s: &Option<String>) -> (r: Option<String>)
    ensures
        r.deep_view() == s.deep_view(),
{
    match s {
        Some(t) => Some(t.clone()),
        None => None,
    }
}

impl RuntimeBindingKey {
    /// The identity of a binding: normalised memory URL, trimmed key and swarm.
    pub fn new(memory_url: &str, key: &str, swarm_id: &str) -> (r: Result<Self, BindingError>)
        ensures
            match r {
                Ok(k) => spec_key_new(memory_url@, key@, swarm_id@) == Ok::<
                    BindingKeyView,
                    BindingError,
                >(k@),
                Err(e) => spec_key_new(memory_url@, key@, swarm_id@) == Err::<
                    BindingKeyView,
                    BindingError,
                >(e),
            },
    {
        let memory_url = normalize_memory_url(memory_url)?;
        let key = require_non_empty(BindingField::Key, key)?;
        let swarm_id = require_non_empty(BindingField::SwarmId, swarm_id)?;
        Ok(RuntimeBindingKey { memory_url, key, swarm_id })
    }

    /// A copy with the same value.
    pub fn duplicate(&self) -> (r: Self)
        ensures
            r@ == self@,
    {
        RuntimeBindingKey {
            memory_url: clone_text(&self.memory_url),
            key: clone_text(&self.key),
            swarm_id: clone_text(&self.swarm_id),
        }
    }
}

impl RuntimeBinding {
    /// Normalises the memory URL, trims every field, drops blank optional fields, and
    /// refuses blank required fields and any TLS fingerprint.
    pub fn normalize(self) -> (r: Result<Self, BindingError>)
        ensures
            match r {
                Ok(b) => spec_normalize_binding(self@) == Ok::<RuntimeBindingView, BindingError>(
                    b@,
                ),
                Err(e) => spec_normalize_binding(self@) == Err::<RuntimeBindingView, BindingError>(
                    e,
                ),
            },
    {
        let memory_url = normalize_memory_url(self.memory_url.as_str())?;
        let key = require_non_empty(BindingField::Key, self.key.as_str())?;
        let swarm_id = require_non_empty(BindingField::SwarmId, self.swarm_id.as_str())?;
        let principal_id = require_non_empty(BindingField::PrincipalId, self.principal_id.as_str())?;
        let principal_token = require_non_empty(
            BindingField::PrincipalToken,
            self.principal_token.as_str(),
        )?;
        let transport_token = normalize_optional(self.transport_token);
        let tls_ca = normalize_optional(self.tls_ca);
        let tls_fingerprint = normalize_optional(self.tls_fingerprint);
        if tls_fingerprint.is_some() {
            return Err(BindingError::FingerprintUnsupported);
        }
        Ok(
            RuntimeBinding {
                memory_url,
                key,
                swarm_id,
                principal_id,
                principal_token,
                transport_token,
                tls_ca,
                tls_fingerprint,
            },
        )
    }

    /// The identity `(memory_url, key, swarm_id)` of this binding, normalised.
    pub fn identity(&self) -> (r: Result<RuntimeBindingKey, BindingError>)
        ensures
            match r {
                Ok(k) => spec_identity(self@) == Ok::<BindingKeyView, BindingError>(k@),
                Err(e) => spec_identity(self@) == Err::<BindingKeyView, BindingError>(e),
            },
    {
        RuntimeBindingKey::new(self.memory_url.as_str(), self.key.as_str(), self.swarm_id.as_str())
    }

    /// The join token that carries this binding's URL, identity and credentials.
    pub fn to_join_token(&self) -> (r: JoinToken)
        ensures
            r@ == spec_to_join_token(self@),
    {
        JoinToken {
            url: clone_text(&self.memory_url),
            transport_token: clone_optional_text(&self.transport_token),
            principal_id: Some(clone_text(&self.principal_id)),
            principal_token: Some(clone_text(&self.principal_token)),
            key: Some(clone_text(&self.key)),
            swarm_id: Some(clone_text(&self.swarm_id)),
            fingerprint: clone_optional_text(&self.tls_fingerprint),
            ca: clone_optional_text(&self.tls_ca),
        }
    }

    /// A copy with the same value.
    pub fn duplicate(&self) -> (r: Self)
        ensures
            r@ == self@,
    {
        RuntimeBinding {
            memory_url: clone_text(&self.memory_url),
            key: clone_text(&self.key),
            swarm_id: clone_text(&self.swarm_id),
            principal_id: clone_text(&self.principal_id),
            principal_token: clone_text(&self.principal_token),
            transport_token: clone_optional_text(&self.transport_token),
            tls_ca: clone_optional_text(&self.tls_ca),
            tls_fingerprint: clone_optional_text(&self.tls_fingerprint),
        }
    }
}

/// Law: the join token of a normalised binding always validates, so a bootstrap bundle can
/// always be built for it.
pub proof fn law_normalized_binding_token_validates(b: RuntimeBindingView)
    requires
        spec_normalize_binding(b) is Ok,
    ensures
        spec_validate(spec_to_join_token(spec_normalize_binding(b)->Ok_0)) == Ok::<
            (),
            JoinTokenError,
        >(()),
{
    let n = spec_normalize_binding(b)->Ok_0;
    let u = n.memory_url;
    assert(u.len() > 0 && u[0] == 'h') by {
        let t = spec_trim(b.memory_url);
        assert(has_http_scheme(strip_mcp_path(t)));
        if crate::join_token::http_scheme().is_prefix_of(u) {
            assert(u[0] == crate::join_token::http_scheme()[0]);
        } else {
            assert(u[0] == crate::join_token::https_scheme()[0]);
        }
    }
    assert(!is_white_space(u[0]));
    lemma_not_blank(u);
    assert(n.principal_token.len() > 0);
}

/// Law: the fields of a normalised binding are trimmed, so normalising them again changes
/// nothing but possibly the memory URL.
pub proof fn law_normalized_fields_are_trimmed(b: RuntimeBindingView)
    requires
        spec_normalize_binding(b) is Ok,
    ensures
        ({
            let n = spec_normalize_binding(b)->Ok_0;
            &&& spec_require_non_empty(BindingField::Key, n.key) == Ok::<Seq<char>, BindingError>(
                n.key,
            )
            &&& spec_require_non_empty(BindingField::SwarmId, n.swarm_id) == Ok::<
                Seq<char>,
                BindingError,
            >(n.swarm_id)
            &&& spec_require_non_empty(BindingField::PrincipalId, n.principal_id) == Ok::<
                Seq<char>,
                BindingError,
            >(n.principal_id)
            &&& spec_require_non_empty(BindingField::PrincipalToken, n.principal_token) == Ok::<
                Seq<char>,
                BindingError,
            >(n.principal_token)
            &&& n.tls_fingerprint is None
        }),
{
    lemma_trim_idempotent(b.key);
    lemma_trim_idempotent(b.swarm_id);
    lemma_trim_idempotent(b.principal_id);
    lemma_trim_idempotent(b.principal_token);
}

/// A binding as `normalize` leaves it: required fields trimmed and non-empty, optional
/// fields trimmed or absent, no TLS fingerprint. (The memory URL is left aside: a normalised
/// URL need not normalise to itself.)
pub open spec fn is_normal_form(b: RuntimeBindingView) -> bool {
    &&& spec_require_non_empty(BindingField::Key, b.key) == Ok::<Seq<char>, BindingError>(b.key)
    &&& spec_require_non_empty(BindingField::SwarmId, b.swarm_id) == Ok::<Seq<char>, BindingError>(
        b.swarm_id,
    )
    &&& spec_require_non_empty(BindingField::PrincipalId, b.principal_id) == Ok::<
        Seq<char>,
        BindingError,
    >(b.principal_id)
    &&& spec_require_non_empty(BindingField::PrincipalToken, b.principal_token) == Ok::<
        Seq<char>,
        BindingError,
    >(b.principal_token)
    &&& spec_normalize_optional(b.transport_token) == b.transport_token
    &&& spec_normalize_optional(b.tls_ca) == b.tls_ca
    &&& b.tls_fingerprint is None
}

proof fn lemma_normalize_optional_idempotent(o: Option<Seq<char>>)
    ensures
        spec_normalize_optional(spec_normalize_optional(o)) == spec_normalize_optional(o),
{
    if let Some(s) = o {
        lemma_trim_idempotent(s);
    }
}

/// Law: what `normalize` returns is in normal form.
pub proof fn law_normalize_gives_normal_form(b: RuntimeBindingView)
    requires
        spec_normalize_binding(b) is Ok,
    ensures
        is_normal_form(spec_normalize_binding(b)->Ok_0),
{
    law_normalized_fields_are_trimmed(b);
    lemma_normalize_optional_idempotent(b.transport_token);
    lemma_normalize_optional_idempotent(b.tls_ca);
}

/// Law: a binding in normal form whose memory URL normalises to itself is left as it is by
/// `normalize`.
pub proof fn law_normal_form_is_fixed(b: RuntimeBindingView)
    requires
        is_normal_form(b),
        spec_normalize_memory_url(b.memory_url) == Ok::<Seq<char>, BindingError>(b.memory_url),
    ensures
        spec_normalize_binding(b) == Ok::<RuntimeBindingView, BindingError>(b),
{
}

/// Law: the join token of a binding carries the binding's URL and every credential and
/// identity field unchanged.
pub proof fn law_join_token_carries_binding(b: RuntimeBindingView)
    ensures
        ({
            let t = spec_to_join_token(b);
            &&& t.url == b.memory_url
            &&& t.transport_token == b.transport_token
            &&& t.principal_id == Some(b.principal_id)
            &&& t.principal_token == Some(b.principal_token)
            &&& t.key == Some(b.key)
            &&& t.swarm_id == Some(b.swarm_id)
            &&& t.ca == b.tls_ca
            &&& t.fingerprint == b.tls_fingerprint
        }),
{
}

/// Law: a trimmed URL that ends in neither `/` nor `/mcp` and is http(s) normalises to
/// itself trimmed; no other suffix is cut.
pub proof fn law_normalize_url_keeps_other_paths(u: Seq<char>)
    requires
        spec_trim(u).len() > 0,
        spec_trim(u).last() != '/',
        !(spec_trim(u).len() >= 4 && spec_trim(u).subrange(
            spec_trim(u).len() - 4,
            spec_trim(u).len() as int,
        ) == seq!['/', 'm', 'c', 'p']),
        has_http_scheme(spec_trim(u)),
    ensures
        spec_normalize_memory_url(u) == Ok::<Seq<char>, BindingError>(spec_trim(u)),
{
    let t = spec_trim(u);
    assert(!slash_pred()(t.last()));
    assert(trim_end_matching(t, slash_pred()) == t);
    assert(!mcp_suffix().is_suffix_of(t)) by {
        if mcp_suffix().is_suffix_of(t) {
            assert(t.subrange(t.len() - 4, t.len() as int) =~= seq!['/', 'm', 'c', 'p']);
        }
    }
}

/// Law: a final `/mcp` path segment is removed, leaving what came before it.
pub proof fn law_normalize_url_strips_final_mcp(u: Seq<char>, s: Seq<char>)
    requires
        spec_trim(u) == s + seq!['/', 'm', 'c', 'p'],
        s.len() > 0,
        s.last() != '/',
        has_http_scheme(s),
    ensures
        spec_normalize_memory_url(u) == Ok::<Seq<char>, BindingError>(s),
{
    let t = spec_trim(u);
    assert(t.last() == 'p');
    assert(!slash_pred()(t.last()));
    assert(trim_end_matching(t, slash_pred()) == t);
    assert(mcp_suffix().is_suffix_of(t)) by {
        assert(t.subrange(t.len() - 4, t.len() as int) =~= mcp_suffix());
    }
    assert(t.subrange(0, t.len() - 4) =~= s);
    assert(!slash_pred()(s.last()));
    assert(trim_end_matching(s, slash_pred()) == s);
}

/// Law: normalisation only removes a suffix of the trimmed URL, and the result never ends
/// in `/`.
pub proof fn law_normalized_url_is_trimmed_prefix(u: Seq<char>)
    requires
        spec_normalize_memory_url(u) is Ok,
    ensures
        ({
            let r = spec_normalize_memory_url(u)->Ok_0;
            &&& r.is_prefix_of(spec_trim(u))
            &&& r.len() > 0
            &&& r.last() != '/'
        }),
{
    let t = spec_trim(u);
    let p = slash_pred();
    let a = trim_end_matching(t, p);
    lemma_trim_end_prefix(t, p);
    lemma_trim_end_idempotent(t, p);
    let r = spec_normalize_memory_url(u)->Ok_0;
    assert(r.len() > 0) by {
        if has_http_scheme(r) {
            if http_scheme().is_prefix_of(r) {
                assert(http_scheme().len() <= r.len());
            } else {
                assert(https_scheme().len() <= r.len());
            }
        }
    }
    if mcp_suffix().is_suffix_of(a) {
        let c = a.subrange(0, a.len() - 4);
        lemma_trim_end_prefix(c, p);
        lemma_trim_end_idempotent(c, p);
        assert(r =~= t.subrange(0, r.len() as int));
    } else {
        assert(r =~= t.subrange(0, r.len() as int));
    }
}

} // verus!
