//! Agent addressing: `did:key:z6Mk…@hostname`.
//!
//! An [`AgentAddress`] names both the agent (its DID) and the node that hosts
//! it (the node's public hostname). HTTPS is implied; the API base path is
//! discovered through `/.well-known/semanticweft`.
use vstd::prelude::*;
use crate::external::url_encode;
use crate::text::{
    chars_of, last_index, last_index_of, push_char, push_str, strip_trailing, strip_trailing_char,
    to_owned_string, trim, trimmed_range, url_encoded,
};

verus! {

/// Why a text is not an agent address. Each variant carries the whole input.
#[derive(Debug, Clone, PartialEq, Eq)]
pub enum AddressError {
    /// There is no `@` in the text.
    MissingAt(String),
    /// The part before the last `@` is empty once trimmed.
    EmptyDid(String),
    /// The part after the last `@` is empty once trimmed.
    EmptyHostname(String),
}

/// A parsed agent address: the agent's DID and its node's hostname.
#[derive(Debug, Clone, PartialEq, Eq)]
pub struct AgentAddress {
    /// The agent's DID, e.g. `did:key:z6MkFoo…`.
    pub did: String,
    /// The node's hostname, e.g. `sweft.mydomain.com`.
    pub hostname: String,
}

/// The trimmed DID and hostname around the last `@` of `s`, or `None` when
/// `s` has no `@`.
pub open spec fn address_parts(s: Seq<char>) -> Option<(Seq<char>, Seq<char>)> {
    match last_index_of(s, '@') {
        None => None,
        Some(at) => Some((trim(s.take(at)), trim(s.skip(at + 1)))),
    }
}

/// The text form `did@hostname` of an address with these parts.
pub open spec fn address_text(did: Seq<char>, hostname: Seq<char>) -> Seq<char> {
    did.push('@') + hostname
}

/// `strip_trailing(base, '/')` followed by `/agents/` and the percent-encoded
/// DID.
pub open spec fn agent_path(base: Seq<char>, did: Seq<char>) -> Seq<char> {
    strip_trailing(base, '/') + "/agents/"@ + url_encoded(did)
}

impl AgentAddress {
    /// Builds an address from parts taken as they are.
    pub fn new(did: &str, hostname: &str) -> (r: AgentAddress)
        ensures
            r.did@ == did@,
            r.hostname@ == hostname@,
    {
        AgentAddress { did: to_owned_string(did), hostname: to_owned_string(hostname) }
    }

    /// Parses `did@hostname`, splitting on the last `@` and trimming white
    /// space from both parts.
    pub fn parse(s: &str) -> (r: Result<AgentAddress, AddressError>)
        ensures
            match r {
                Ok(a) => address_parts(s@) == Some((a.did@, a.hostname@)) && a.did@.len() > 0
                    && a.hostname@.len() > 0,
                Err(AddressError::MissingAt(t)) => t@ == s@ && address_parts(s@) is None,
                Err(AddressError::EmptyDid(t)) => t@ == s@ && (address_parts(s@) matches Some(
                    p,
                ) && p.0.len() == 0),
                Err(AddressError::EmptyHostname(t)) => t@ == s@ && (address_parts(s@) matches Some(
                    p,
                ) && p.0.len() > 0 && p.1.len() == 0),
            },
    {
        let v = chars_of(s);
        let at = match last_index(&v, '@') {
            Some(i) => i,
            None => {
                return Err(AddressError::MissingAt(to_owned_string(s)));
            },
        };
        let did = trimmed_range(&v, 0, at);
        let hostname = trimmed_range(&v, at + 1, v.len());
        proof {
            assert(v@.subrange(0, at as int) =~= s@.take(at as int));
            assert(v@.subrange(at as int + 1, v@.len() as int) =~= s@.skip(at as int + 1));
        }
        if did.as_str().is_empty() {
            return Err(AddressError::EmptyDid(to_owned_string(s)));
        }
        if hostname.as_str().is_empty() {
            return Err(AddressError::EmptyHostname(to_owned_string(s)));
        }
        Ok(AgentAddress { did, hostname })
    }

    /// `did@hostname`, the text form of the address.
    pub fn to_string(&self) -> (r: String)
        ensures
            r@ == address_text(self.did@, self.hostname@),
    {
        let mut r = String::new();
        push_str(&mut r, self.did.as_str());
        push_char(&mut r, '@');
        push_str(&mut r, self.hostname.as_str());
        proof {
            assert(Seq::<char>::empty() + self.did@ =~= self.did@);
        }
        r
    }

    /// `https://hostname`, the node's base URL.
    pub fn node_url(&self) -> (r: String)
        ensures
            r@ == "https://"@ + self.hostname@,
    {
        let mut r = String::new();
        push_str(&mut r, "https://");
        push_str(&mut r, self.hostname.as_str());
        proof {
            assert(Seq::<char>::empty() + "https://"@ =~= "https://"@);
        }
        r
    }

    /// `https://hostname/.well-known/semanticweft`, the discovery URL.
    pub fn well_known_url(&self) -> (r: String)
        ensures
            r@ == "https://"@ + self.hostname@ + "/.well-known/semanticweft"@,
    {
        let mut r = self.node_url();
        push_str(&mut r, "/.well-known/semanticweft");
        r
    }

    /// `{api_base}/agents/{did, percent-encoded}`, with the trailing `/` of
    /// `api_base` removed.
    pub fn register_url(&self, api_base: &str) -> (r: String)
        ensures
            r@ == agent_path(api_base@, self.did@),
    {
        let mut r = strip_trailing_char(api_base, '/');
        push_str(&mut r, "/agents/");
        let enc = url_encode(self.did.as_str());
        push_str(&mut r, enc.as_str());
        r
    }

    /// `{api_base}/agents/{did, percent-encoded}/inbox`, with the trailing
    /// `/` of `api_base` removed.
    pub fn inbox_url(&self, api_base: &str) -> (r: String)
        ensures
            r@ == agent_path(api_base@, self.did@) + "/inbox"@,
    {
        let mut r = self.register_url(api_base);
        push_str(&mut r, "/inbox");
        r
    }
}

/// The index of the last `c` in `x + y`, where `y` holds no `c`, is that in
/// `x`.
proof fn lemma_last_index_skips(x: Seq<char>, y: Seq<char>, c: char)
    requires
        forall|i: int| 0 <= i < y.len() ==> y[i] != c,
    ensures
        last_index_of(x + y, c) == last_index_of(x, c),
    decreases y.len(),
{
    if y.len() > 0 {
        assert((x + y).drop_last() =~= x + y.drop_last());
        lemma_last_index_skips(x, y.drop_last(), c);
    } else {
        assert(x + y =~= x);
    }
}

/// Parsing the text form of an address gives the address back, whenever its
/// DID and hostname are non-empty, carry no white space at either end, and
/// the hostname holds no `@`.
pub proof fn lemma_parse_text_roundtrip(did: Seq<char>, hostname: Seq<char>)
    requires
        did.len() > 0,
        hostname.len() > 0,
        trim(did) == did,
        trim(hostname) == hostname,
        forall|i: int| 0 <= i < hostname.len() ==> hostname[i] != '@',
    ensures
        address_parts(address_text(did, hostname)) == Some((did, hostname)),
{
    let s = address_text(did, hostname);
    lemma_last_index_skips(did.push('@'), hostname, '@');
    assert(did.push('@').drop_last() =~= did);
    assert(s.take(did.len() as int) =~= did);
    assert(s.skip(did.len() as int + 1) =~= hostname);
}

} // verus!
