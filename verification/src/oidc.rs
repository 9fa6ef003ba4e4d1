//! OpenID Connect login: the authorization request, the token request body,
//! and the checks on an ID token's claims.

use vstd::prelude::*;
use crate::password::{b64_url_decode, base64_url_decoded};
use crate::text::{chars_eq, chars_of, split_char, split_on, string_from_chars};

verus! {

/// A discovered OpenID Connect provider with this application's client
/// credentials.
#[derive(Debug, Clone, PartialEq, Eq)]
pub struct OIDCProvider {
    pub issuer: String,
    pub authorization_endpoint: String,
    pub token_endpoint: String,
    pub client_id: String,
    pub client_secret: String,
}

/// The claims of an ID token that login reads.
#[derive(Debug, Clone, PartialEq, Eq)]
pub struct IDTokenClaims {
    pub sub: String,
    pub email: Option<String>,
    pub name: Option<String>,
    pub picture: Option<String>,
    pub iss: String,
    pub aud: String,
    pub exp: i64,
    pub nonce: Option<String>,
}

/// The response of the token endpoint.
#[derive(Debug, Clone, PartialEq, Eq)]
pub struct TokenResponse {
    pub id_token: String,
}

/// Why an OpenID Connect step failed.
#[derive(Debug, Clone, PartialEq, Eq)]
pub enum OidcError {
    /// The ID token does not have three dot-separated parts.
    InvalidTokenFormat,
    /// The payload part is not unpadded URL-safe base64.
    PayloadDecode(String),
    /// The issuer claim is not the provider's issuer.
    InvalidIssuer { expected: String, got: String },
    /// The audience claim is not this application's client id.
    InvalidAudience { expected: String, got: String },
    /// The token expired before `now`.
    Expired,
    /// The nonce claim differs from the expected nonce.
    InvalidNonce,
    /// The token has no nonce claim.
    MissingNonce,
}

/// A list of query or form pairs as texts.
pub open spec fn pairs_view(pairs: Seq<(String, String)>) -> Seq<(Seq<char>, Seq<char>)> {
    pairs.map_values(|p: (String, String)| (p.0@, p.1@))
}

/// Whether `url` parses as an absolute URL (`url::Url::parse` succeeds).
pub uninterp spec fn url_parses(url: Seq<char>) -> bool;

/// The URL `url` with the pairs appended, in order, to its query string
/// (`Url::query_pairs_mut().append_pair(..)`, then `Url::to_string`).
pub uninterp spec fn url_with_query(url: Seq<char>, pairs: Seq<(Seq<char>, Seq<char>)>) -> Seq<char>;

/// The `application/x-www-form-urlencoded` text of the pairs
/// (`serde_urlencoded::to_string`).
pub uninterp spec fn form_encoded(pairs: Seq<(Seq<char>, Seq<char>)>) -> Seq<char>;

/// Calls `url::Url::parse`. Claimed: the result is whether the named parse
/// succeeds.
#[verifier::external_body]
fn url_is_valid(url: &str) -> (r: bool)
    ensures
        r == url_parses(url@),
{
    url::Url::parse(url).is_ok()
}

/// Calls `url::Url::parse` (which succeeds by the requirement), appends the
/// pairs with `query_pairs_mut().append_pair`, and renders the URL. Claimed:
/// the result is the named URL.
#[verifier::external_body]
fn append_query(url: &str, pairs: &Vec<(String, String)>) -> (r: String)
    requires
        url_parses(url@),
    ensures
        r@ == url_with_query(url@, pairs_view(pairs@)),
{
    let mut u = url::Url::parse(url).unwrap();
    {
        let mut q = u.query_pairs_mut();
        for (k, v) in pairs.iter() {
            q.append_pair(k, v);
        }
    }
    u.to_string()
}

/// Calls `serde_urlencoded::to_string` on the pairs. Claimed: it succeeds (its
/// sequence serializer accepts every element that is a pair of two texts) and
/// gives the named form text; the error's text would be returned otherwise.
#[verifier::external_body]
fn form_urlencode(pairs: &Vec<(String, String)>) -> (r: Result<String, String>)
    ensures
        r is Ok,
        r matches Ok(s) ==> s@ == form_encoded(pairs_view(pairs@)),
{
    serde_urlencoded::to_string(pairs).map_err(|e| e.to_string())
}

/// A literal text as a `String` with its characters known.
fn text(v: Vec<char>) -> (r: String)
    ensures
        r@ == v@,
{
    string_from_chars(&v)
}

/// `response_type`.
pub open spec fn k_response_type() -> Seq<char> {
    seq!['r', 'e', 's', 'p', 'o', 'n', 's', 'e', '_', 't', 'y', 'p', 'e']
}

/// `code`.
pub open spec fn k_code() -> Seq<char> {
    seq!['c', 'o', 'd', 'e']
}

/// `client_id`.
pub open spec fn k_client_id() -> Seq<char> {
    seq!['c', 'l', 'i', 'e', 'n', 't', '_', 'i', 'd']
}

/// `client_secret`.
pub open spec fn k_client_secret() -> Seq<char> {
    seq!['c', 'l', 'i', 'e', 'n', 't', '_', 's', 'e', 'c', 'r', 'e', 't']
}

/// `redirect_uri`.
pub open spec fn k_redirect_uri() -> Seq<char> {
    seq!['r', 'e', 'd', 'i', 'r', 'e', 'c', 't', '_', 'u', 'r', 'i']
}

/// `scope`.
pub open spec fn k_scope() -> Seq<char> {
    seq!['s', 'c', 'o', 'p', 'e']
}

/// `openid email profile`.
pub open spec fn v_scope() -> Seq<char> {
    seq![
        'o', 'p', 'e', 'n', 'i', 'd', ' ', 'e', 'm', 'a', 'i', 'l', ' ', 'p', 'r', 'o', 'f', 'i',
        'l', 'e',
    ]
}

/// `state`.
pub open spec fn k_state() -> Seq<char> {
    seq!['s', 't', 'a', 't', 'e']
}

/// `nonce`.
pub open spec fn k_nonce() -> Seq<char> {
    seq!['n', 'o', 'n', 'c', 'e']
}

/// `grant_type`.
pub open spec fn k_grant_type() -> Seq<char> {
    seq!['g', 'r', 'a', 'n', 't', '_', 't', 'y', 'p', 'e']
}

/// `authorization_code`.
pub open spec fn v_authorization_code() -> Seq<char> {
    seq!['a', 'u', 't', 'h', 'o', 'r', 'i', 'z', 'a', 't', 'i', 'o', 'n', '_', 'c', 'o', 'd', 'e']
}

/// The query of the authorization request.
pub open spec fn authorization_pairs(
    client_id: Seq<char>,
    redirect_uri: Seq<char>,
    state: Seq<char>,
    nonce: Seq<char>,
) -> Seq<(Seq<char>, Seq<char>)> {
    seq![
        (k_response_type(), k_code()),
        (k_client_id(), client_id),
        (k_redirect_uri(), redirect_uri),
        (k_scope(), v_scope()),
        (k_state(), state),
        (k_nonce(), nonce),
    ]
}

/// The form of the token request.
pub open spec fn token_request_pairs(
    code: Seq<char>,
    redirect_uri: Seq<char>,
    client_id: Seq<char>,
    client_secret: Seq<char>,
) -> Seq<(Seq<char>, Seq<char>)> {
    seq![
        (k_grant_type(), v_authorization_code()),
        (k_code(), code),
        (k_redirect_uri(), redirect_uri),
        (k_client_id(), client_id),
        (k_client_secret(), client_secret),
    ]
}

/// The three dot-separated parts of a compact JWT, when it has three.
pub open spec fn jwt_parts(token: Seq<char>) -> Seq<Seq<char>> {
    split_char(token, '.')
}

impl OIDCProvider {
    /// The query pairs of the authorization request, in order.
    pub fn authorization_query(&self, redirect_uri: &str, state: &str, nonce: &str) -> (r: Vec<
        (String, String),
    >)
        ensures
            pairs_view(r@) == authorization_pairs(self.client_id@, redirect_uri@, state@, nonce@),
    {
        let mut pairs: Vec<(String, String)> = Vec::new();
        let k1 = text(vec!['r', 'e', 's', 'p', 'o', 'n', 's', 'e', '_', 't', 'y', 'p', 'e']);
        let v1 = text(vec!['c', 'o', 'd', 'e']);
        pairs.push((k1, v1));
        let k2 = text(vec!['c', 'l', 'i', 'e', 'n', 't', '_', 'i', 'd']);
        pairs.push((k2, self.client_id.clone()));
        let k3 = text(vec!['r', 'e', 'd', 'i', 'r', 'e', 'c', 't', '_', 'u', 'r', 'i']);
        pairs.push((k3, string_from_chars(&chars_of(redirect_uri))));
        let k4 = text(vec!['s', 'c', 'o', 'p', 'e']);
        let v4 = text(
            vec![
                'o', 'p', 'e', 'n', 'i', 'd', ' ', 'e', 'm', 'a', 'i', 'l', ' ', 'p', 'r', 'o',
                'f', 'i', 'l', 'e',
            ],
        );
        pairs.push((k4, v4));
        let k5 = text(vec!['s', 't', 'a', 't', 'e']);
        pairs.push((k5, string_from_chars(&chars_of(state))));
        let k6 = text(vec!['n', 'o', 'n', 'c', 'e']);
        pairs.push((k6, string_from_chars(&chars_of(nonce))));
        assert(pairs_view(pairs@) =~= authorization_pairs(
            self.client_id@,
            redirect_uri@,
            state@,
            nonce@,
        ));
        pairs
    }

    /// The authorization URL: the authorization endpoint with the request's
    /// query appended.
    pub fn build_authorization_url(&self, redirect_uri: &str, state: &str, nonce: &str) -> (r:
        String)
        requires
            url_parses(self.authorization_endpoint@),
        ensures
            r@ == url_with_query(
                self.authorization_endpoint@,
                authorization_pairs(self.client_id@, redirect_uri@, state@, nonce@),
            ),
    {
        let pairs = self.authorization_query(redirect_uri, state, nonce);
        append_query(self.authorization_endpoint.as_str(), &pairs)
    }

    /// The authorization URL, or `None` when the authorization endpoint is not
    /// a valid URL (where building it would fail).
    pub fn try_build_authorization_url(&self, redirect_uri: &str, state: &str, nonce: &str) -> (r:
        Option<String>)
        ensures
            r is Some <==> url_parses(self.authorization_endpoint@),
            r matches Some(u) ==> u@ == url_with_query(
                self.authorization_endpoint@,
                authorization_pairs(self.client_id@, redirect_uri@, state@, nonce@),
            ),
    {
        if url_is_valid(self.authorization_endpoint.as_str()) {
            Some(self.build_authorization_url(redirect_uri, state, nonce))
        } else {
            None
        }
    }

    /// The form body of the token request that exchanges an authorization
    /// code.
    pub fn token_request_body(&self, code: &str, redirect_uri: &str) -> (r: String)
        ensures
            r@ == form_encoded(
                token_request_pairs(code@, redirect_uri@, self.client_id@, self.client_secret@),
            ),
    {
        let mut pairs: Vec<(String, String)> = Vec::new();
        let k1 = text(vec!['g', 'r', 'a', 'n', 't', '_', 't', 'y', 'p', 'e']);
        let v1 = text(
            vec![
                'a', 'u', 't', 'h', 'o', 'r', 'i', 'z', 'a', 't', 'i', 'o', 'n', '_', 'c', 'o',
                'd', 'e',
            ],
        );
        pairs.push((k1, v1));
        let k2 = text(vec!['c', 'o', 'd', 'e']);
        pairs.push((k2, string_from_chars(&chars_of(code))));
        let k3 = text(vec!['r', 'e', 'd', 'i', 'r', 'e', 'c', 't', '_', 'u', 'r', 'i']);
        pairs.push((k3, string_from_chars(&chars_of(redirect_uri))));
        let k4 = text(vec!['c', 'l', 'i', 'e', 'n', 't', '_', 'i', 'd']);
        pairs.push((k4, self.client_id.clone()));
        let k5 = text(vec!['c', 'l', 'i', 'e', 'n', 't', '_', 's', 'e', 'c', 'r', 'e', 't']);
        pairs.push((k5, self.client_secret.clone()));
        assert(pairs_view(pairs@) =~= token_request_pairs(
            code@,
            redirect_uri@,
            self.client_id@,
            self.client_secret@,
        ));
        match form_urlencode(&pairs) {
            Ok(b) => b,
            Err(msg) => msg,
        }
    }

    /// Check the claims of an ID token, in order: the issuer is the
    /// provider's, the audience is the client id, the token has not expired
    /// (`exp` is not before `now`), and the nonce is present and equal to the
    /// expected one.
    pub fn check_id_token_claims(&self, claims: &IDTokenClaims, now: i64, expected_nonce: &str) -> (r:
        Result<(), OidcError>)
        ensures
            claims.iss@ != self.issuer@ ==> (r matches Err(OidcError::InvalidIssuer { expected, got })
                && expected@ == self.issuer@ && got@ == claims.iss@),
            claims.iss@ == self.issuer@ && claims.aud@ != self.client_id@ ==> (r matches Err(
                OidcError::InvalidAudience { expected, got },
            ) && expected@ == self.client_id@ && got@ == claims.aud@),
            claims.iss@ == self.issuer@ && claims.aud@ == self.client_id@ && claims.exp < now ==> r
                is Err && r->Err_0 is Expired,
            claims.iss@ == self.issuer@ && claims.aud@ == self.client_id@ && claims.exp >= now ==> (
            match claims.nonce {
                Some(n) => if n@ == expected_nonce@ {
                    r is Ok
                } else {
                    r is Err && r->Err_0 is InvalidNonce
                },
                None => r is Err && r->Err_0 is MissingNonce,
            }),
    {
        if !chars_eq(&chars_of(claims.iss.as_str()), &chars_of(self.issuer.as_str())) {
            return Err(
                OidcError::InvalidIssuer { expected: self.issuer.clone(), got: claims.iss.clone() },
            );
        }
        if !chars_eq(&chars_of(claims.aud.as_str()), &chars_of(self.client_id.as_str())) {
            return Err(
                OidcError::InvalidAudience {
                    expected: self.client_id.clone(),
                    got: claims.aud.clone(),
                },
            );
        }
        if claims.exp < now {
            return Err(OidcError::Expired);
        }
        match &claims.nonce {
            Some(n) => {
                if chars_eq(&chars_of(n.as_str()), &chars_of(expected_nonce)) {
                    Ok(())
                } else {
                    Err(OidcError::InvalidNonce)
                }
            },
            None => Err(OidcError::MissingNonce),
        }
    }
}

/// The decoded payload (second part) of a compact JWT: an error when the
/// token does not have exactly three dot-separated parts, or when the payload
/// is not unpadded URL-safe base64.
pub fn id_token_payload(id_token: &str) -> (r: Result<Vec<u8>, OidcError>)
    ensures
        jwt_parts(id_token@).len() != 3 ==> r is Err && r->Err_0 is InvalidTokenFormat,
        jwt_parts(id_token@).len() == 3 ==> match base64_url_decoded(jwt_parts(id_token@)[1]) {
            Some(p) => (r matches Ok(v) && v@ == p),
            None => r is Err && r->Err_0 is PayloadDecode,
        },
{
    let parts = split_on(&chars_of(id_token), '.');
    if parts.len() != 3 {
        return Err(OidcError::InvalidTokenFormat);
    }
    let payload = string_from_chars(&parts[1]);
    assert(payload@ == jwt_parts(id_token@)[1]);
    match b64_url_decode(payload.as_str()) {
        Ok(v) => Ok(v),
        Err(msg) => Err(OidcError::PayloadDecode(msg)),
    }
}

} // verus!
