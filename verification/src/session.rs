//! Node session: URL construction for a resolved agent↔node connection.
//!
//! A [`NodeSession`] is built once the host has fetched the node's discovery
//! document. There is no I/O here: the host supplies the discovery JSON, the
//! session returns URL strings, and the host makes the HTTP calls.
use vstd::prelude::*;
use crate::external::{json_string_member, spec_json_string_member, url_encode};
use crate::text::{decimal, push_decimal, push_str, strip_trailing, strip_trailing_char,
    to_owned_string, url_encoded};

verus! {

/// Why a session could not be built from a discovery document.
#[derive(Debug, Clone, PartialEq, Eq)]
pub enum SessionError {
    /// The document is not JSON; carries the parser's message.
    ParseError(String),
    /// The document has no string `api_base` member.
    MissingApiBase,
}

/// A resolved agent↔node session.
#[derive(Debug, Clone, PartialEq, Eq)]
pub struct NodeSession {
    /// The node's API base URL, without a trailing `/`.
    pub api_base: String,
    /// The acting agent's DID.
    pub own_did: String,
}

impl NodeSession {
    /// Builds a session; every trailing `/` of `api_base` is removed.
    pub fn new(api_base: &str, own_did: &str) -> (r: NodeSession)
        ensures
            r.api_base@ == strip_trailing(api_base@, '/'),
            r.own_did@ == own_did@,
    {
        NodeSession { api_base: strip_trailing_char(api_base, '/'), own_did: to_owned_string(own_did) }
    }

    /// Builds a session from what reading the discovery document's
    /// `api_base` member gave: a parse error, no such string member, or its
    /// value.
    pub fn from_api_base_member(member: Result<Option<String>, String>, own_did: &str) -> (r:
        Result<NodeSession, SessionError>)
        ensures
            match member {
                Err(e) => r == Err::<NodeSession, SessionError>(SessionError::ParseError(e)),
                Ok(None) => r == Err::<NodeSession, SessionError>(SessionError::MissingApiBase),
                Ok(Some(v)) => r matches Ok(s) && s.api_base@ == strip_trailing(v@, '/')
                    && s.own_did@ == own_did@,
            },
    {
        match member {
            Err(e) => Err(SessionError::ParseError(e)),
            Ok(None) => Err(SessionError::MissingApiBase),
            Ok(Some(v)) => Ok(NodeSession::new(v.as_str(), own_did)),
        }
    }

    /// Reads `api_base` from the node's `/.well-known/semanticweft` JSON and
    /// builds a session.
    pub fn from_discovery(discovery_json: &str, own_did: &str) -> (r: Result<
        NodeSession,
        SessionError,
    >)
        ensures
            match spec_json_string_member(discovery_json@, "api_base"@) {
                Err(e) => r matches Err(SessionError::ParseError(m)) && m@ == e,
                Ok(None) => r == Err::<NodeSession, SessionError>(SessionError::MissingApiBase),
                Ok(Some(v)) => r matches Ok(s) && s.api_base@ == strip_trailing(v, '/')
                    && s.own_did@ == own_did@,
            },
    {
        let member = json_string_member(discovery_json, "api_base");
        NodeSession::from_api_base_member(member, own_did)
    }

    /// `{api_base}/agents/{own_did, percent-encoded}/inbox`
    pub fn inbox_url(&self) -> (r: String)
        ensures
            r@ == self.api_base@ + "/agents/"@ + url_encoded(self.own_did@) + "/inbox"@,
    {
        let mut r = self.register_url();
        push_str(&mut r, "/inbox");
        r
    }

    /// `{api_base}/agents/{own_did, percent-encoded}`
    pub fn register_url(&self) -> (r: String)
        ensures
            r@ == self.api_base@ + "/agents/"@ + url_encoded(self.own_did@),
    {
        let mut r = self.api_base.clone();
        push_str(&mut r, "/agents/");
        let enc = url_encode(self.own_did.as_str());
        push_str(&mut r, enc.as_str());
        r
    }

    /// `{api_base}/units`
    pub fn units_url(&self) -> (r: String)
        ensures
            r@ == self.api_base@ + "/units"@,
    {
        let mut r = self.api_base.clone();
        push_str(&mut r, "/units");
        r
    }

    /// `{api_base}/sync?limit={limit}`, or with a cursor
    /// `{api_base}/sync?after={cursor, percent-encoded}&limit={limit}`.
    pub fn sync_url(&self, after: Option<&str>, limit: usize) -> (r: String)
        ensures
            r@ == match after {
                Some(c) => self.api_base@ + "/sync?after="@ + url_encoded(c@) + "&limit="@
                    + decimal(limit as nat),
                None => self.api_base@ + "/sync?limit="@ + decimal(limit as nat),
            },
    {
        let mut r = self.api_base.clone();
        match after {
            Some(c) => {
                push_str(&mut r, "/sync?after=");
                let enc = url_encode(c);
                push_str(&mut r, enc.as_str());
                push_str(&mut r, "&limit=");
            },
            None => {
                push_str(&mut r, "/sync?limit=");
            },
        }
        push_decimal(&mut r, limit as u64);
        r
    }

    /// `{api_base}/peers`
    pub fn peers_url(&self) -> (r: String)
        ensures
            r@ == self.api_base@ + "/peers"@,
    {
        let mut r = self.api_base.clone();
        push_str(&mut r, "/peers");
        r
    }
}

} // verus!
