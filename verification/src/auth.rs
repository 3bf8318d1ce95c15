//! Tokens: the developer's key, the access token it buys, and how a request carries one.

use vstd::prelude::*;

use crate::host::{nonempty, or_empty, HostCall, HostCallView, HttpRequest, HttpRequestView, Instance, InstanceView};
use crate::json::at;
use crate::text::join;
use crate::units::wrap_i64;

verus! {

/// Where tokens are exchanged.
pub const TOKEN_API: &'static str = "https://api.ecobee.com/token";

impl InstanceView {
    /// The developer's API key. Having one puts the device on the OAuth path.
    pub open spec fn api_key(self) -> Option<Seq<char>> {
        nonempty(self.property("API key"@).as_str())
    }

    /// A live access token: on the OAuth path, the token on hand, unless it expires within half a
    /// minute.
    pub open spec fn access_token(self, now: i64) -> Option<Seq<char>> {
        let expires = match at(self.scratch, "access_expires_at"@).as_i64() {
            Some(at) => at,
            None => 0,
        };
        match at(self.scratch, "access_token"@).as_str() {
            Some(token) if self.api_key() is Some && expires > wrap_i64(now + 30) => Some(token),
            _ => None,
        }
    }

    /// The token that a request carries: on the OAuth path the access token, and otherwise the
    /// `Refresh token` property as it stands.
    pub open spec fn bearer(self, now: i64) -> Option<Seq<char>> {
        if self.api_key() is Some {
            self.access_token(now)
        } else {
            Some(or_empty(self.property("Refresh token"@).as_str()))
        }
    }

    /// Whether an access token has to be fetched before anything can be sent.
    pub open spec fn needs_refresh(self, now: i64) -> bool {
        self.api_key() is Some && self.access_token(now) is None
    }

    /// The refresh token: the last one that ecobee handed out, or the one filled in.
    pub open spec fn refresh_token(self) -> Option<Seq<char>> {
        match at(self.scratch, "refresh_token"@).as_str() {
            Some(token) => Some(token),
            None => nonempty(self.property("Refresh token"@).as_str()),
        }
    }

    /// The exchange of the refresh token for an access token.
    pub open spec fn refresh_request(self) -> Option<HostCallView> {
        match (self.api_key(), self.refresh_token()) {
            (Some(key), Some(refresh)) => Some(
                HostCallView::Http(
                    HttpRequestView::new(
                        "POST"@,
                        token_url("?grant_type=refresh_token&code="@, refresh, key),
                    ),
                ),
            ),
            _ => None,
        }
    }

    /// A request with the token of the instance on it.
    pub open spec fn authorized(self, request: HttpRequestView, now: i64) -> Option<HttpRequestView> {
        match self.bearer(now) {
            Some(token) => Some(request.with_header("authorization"@, "Bearer "@ + token)),
            None => None,
        }
    }
}

/// The URL of a token exchange: the kind of grant, the code that is exchanged, and the key.
pub open spec fn token_url(grant: Seq<char>, code: Seq<char>, key: Seq<char>) -> Seq<char> {
    TOKEN_API@ + grant + code + "&client_id="@ + key
}

/// Writes the URL of a token exchange.
pub fn write_token_url(grant: &str, code: &str, key: &str) -> (r: String)
    ensures
        r@ == token_url(grant@, code@, key@),
{
    let mut url = join(TOKEN_API, grant);
    url.append(code);
    url.append("&client_id=");
    url.append(key);
    url
}

/// The developer's API key, where one is filled in.
pub fn api_key(inst: &Instance) -> (r: Option<&str>)
    ensures
        r.deep_view() == inst@.api_key(),
{
    inst.filled("API key")
}

/// A live access token, if the OAuth path (an `API key`) is configured and one is on hand that
/// does not expire within half a minute.
pub fn access_token(inst: &Instance, now: i64) -> (r: Option<&str>)
    ensures
        r.deep_view() == inst@.access_token(now),
{
    match inst.scratch.str_at("access_token") {
        Some(token) => {
            let expires: i64 = match inst.scratch.i64_at("access_expires_at") {
                Some(at) => at,
                None => 0,
            };
            if api_key(inst).is_some() && expires > now.wrapping_add(30) {
                Some(token)
            } else {
                None
            }
        },
        None => None,
    }
}

/// Puts a token on a request. `None` means that an access token has to be fetched first, which
/// is only possible on the OAuth path. Without an API key the `Refresh token` property is used
/// directly as the bearer token.
pub fn auth(inst: &Instance, req: HttpRequest, now: i64) -> (r: Option<HttpRequest>)
    ensures
        r.deep_view() == inst@.authorized(req@, now),
{
    let token: &str = match api_key(inst) {
        None => match inst.properties.str_at("Refresh token") {
            Some(token) => token,
            None => {
                proof {
                    reveal_strlit("");
                    assert(""@ =~= Seq::empty());
                }
                ""
            },
        },
        Some(_) => match access_token(inst, now) {
            Some(token) => token,
            None => {
                return None;
            },
        },
    };
    Some(req.header("authorization", join("Bearer ", token).as_str()))
}

/// True only on the OAuth path, when the access token has expired or was never fetched.
pub fn needs_refresh(inst: &Instance, now: i64) -> (r: bool)
    ensures
        r == inst@.needs_refresh(now),
{
    api_key(inst).is_some() && access_token(inst, now).is_none()
}

/// The refresh token: the last one that ecobee handed out, or the one filled in.
pub fn refresh_token_value(inst: &Instance) -> (r: Option<&str>)
    ensures
        r.deep_view() == inst@.refresh_token(),
{
    match inst.scratch.str_at("refresh_token") {
        Some(token) => Some(token),
        None => inst.filled("Refresh token"),
    }
}

/// Exchange the (possibly rotated) refresh token for a fresh access token.
pub fn refresh_request(inst: &Instance) -> (r: Option<HostCall>)
    ensures
        r.deep_view() == inst@.refresh_request(),
{
    match api_key(inst) {
        Some(key) => match refresh_token_value(inst) {
            Some(refresh) => {
                let url = write_token_url("?grant_type=refresh_token&code=", refresh, key);
                Some(HostCall::Http(HttpRequest::new("POST", url.as_str())))
            },
            None => None,
        },
        None => None,
    }
}

} // verus!
