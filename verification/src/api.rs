//! Request and response records of the node HTTP API.
//!
//! Reputation scores are `f32` values on the wire; here they are held as
//! their IEEE-754 bit patterns (`f32::to_bits`), so that the library
//! reasons about them exactly.
use vstd::prelude::*;
use crate::text::{copy_string, to_owned_string};
use crate::types::{copy_opt_string, opt_view, SemanticUnit};

verus! {

/// The bit pattern of the neutral reputation `0.5_f32`.
pub const NEUTRAL_REPUTATION: u32 = 0x3f00_0000u32;

/// Error code: the body is not valid JSON.
pub const INVALID_JSON: &'static str = "invalid_json";

/// Error code: a parameter is invalid.
pub const INVALID_PARAMETER: &'static str = "invalid_parameter";

/// Error code: a signature is required.
pub const SIGNING_REQUIRED: &'static str = "signing_required";

/// Error code: the resource does not exist.
pub const NOT_FOUND: &'static str = "not_found";

/// Error code: an item with the same id already exists.
pub const ID_CONFLICT: &'static str = "id_conflict";

/// Error code: the unit fails validation.
pub const VALIDATION_FAILED: &'static str = "validation_failed";

/// Error code: proof of work is required.
pub const POW_REQUIRED: &'static str = "pow_required";

/// Error code: too many requests.
pub const RATE_LIMIT_EXCEEDED: &'static str = "rate_limit_exceeded";

/// Error code: an unexpected server failure.
pub const INTERNAL_ERROR: &'static str = "internal_error";

/// The JSON body of every error response.
#[derive(Debug, Clone, PartialEq, Eq)]
pub struct ErrorResponse {
    /// Human-readable description of the problem.
    pub error: String,
    /// Machine-readable error code.
    pub code: String,
}

impl ErrorResponse {
    /// An error response with this code and message.
    pub fn new(code: &str, error: &str) -> (r: ErrorResponse)
        ensures
            r.code@ == code@,
            r.error@ == error@,
    {
        ErrorResponse { error: to_owned_string(error), code: to_owned_string(code) }
    }
}

/// Body of `POST /v1/agents/{did}/following`.
#[derive(Debug, Clone, PartialEq, Eq)]
pub struct FollowRequest {
    /// The DID of the agent that wants to follow.
    pub follower_did: String,
    /// The DID of the agent to follow.
    pub target_did: String,
}

/// One entry of a follow list.
#[derive(Debug, Clone, PartialEq, Eq)]
pub struct FollowEntry {
    /// DID of the agent in this relationship.
    pub did: String,
    /// Inbox URL cached from the agent's profile, when known.
    pub inbox_url: Option<String>,
}

/// A page of follow relationships.
#[derive(Debug, Clone, PartialEq, Eq)]
pub struct FollowListResponse {
    /// The entries of this page.
    pub items: Vec<FollowEntry>,
    /// Cursor for the next page; absent on the last page.
    pub next_cursor: Option<String>,
}

impl FollowListResponse {
    /// An empty follow list.
    pub fn empty() -> (r: FollowListResponse)
        ensures
            r.items@.len() == 0,
            r.next_cursor is None,
    {
        FollowListResponse { items: Vec::new(), next_cursor: None }
    }

    /// A single-page list with one entry per DID, in order, without inbox
    /// URLs.
    pub fn from_dids(dids: Vec<String>) -> (r: FollowListResponse)
        ensures
            r.items@.len() == dids@.len(),
            forall|i: int|
                0 <= i < dids@.len() ==> #[trigger] r.items@[i].did@ == dids@[i]@
                    && r.items@[i].inbox_url is None,
            r.next_cursor is None,
    {
        let mut items: Vec<FollowEntry> = Vec::new();
        let mut i: usize = 0;
        while i < dids.len()
            invariant
                i <= dids@.len(),
                items@.len() == i,
                forall|j: int|
                    0 <= j < i ==> #[trigger] items@[j].did@ == dids@[j]@ && items@[j].inbox_url is None,
            decreases dids@.len() - i,
        {
            items.push(FollowEntry { did: copy_string(&dids[i]), inbox_url: None });
            i = i + 1;
        }
        FollowListResponse { items, next_cursor: None }
    }
}

/// An optional feature a node advertises in its discovery document.
#[derive(Debug, Clone, Copy, PartialEq, Eq, Structural)]
pub enum Capability {
    /// The `/v1/sync` endpoint.
    Sync,
    /// Server-sent events on `/v1/sync`.
    Sse,
    /// The `/v1/units/{id}/subgraph` endpoint.
    Subgraph,
    /// The `/v1/peers` endpoints.
    Peers,
    /// Agent registration and WebFinger discovery.
    Agents,
    /// Follow-graph management.
    Follows,
}

/// Proof-of-work parameters.
#[derive(Debug, Clone, PartialEq, Eq)]
pub struct PowParams {
    /// Hash algorithm, currently `sha256`.
    pub algorithm: String,
    /// Required number of leading zero bits.
    pub difficulty: u32,
}

/// The discovery document served at `/.well-known/semanticweft`.
#[derive(Debug, Clone, PartialEq, Eq)]
pub struct NodeInfo {
    /// Stable identifier of the node.
    pub node_id: String,
    /// Human-readable name.
    pub name: Option<String>,
    /// Highest protocol version supported.
    pub protocol_version: String,
    /// Public base URL of the node's API.
    pub api_base: String,
    /// Optional features supported.
    pub capabilities: Vec<Capability>,
    /// Whether unsigned units are rejected.
    pub signing_required: bool,
    /// Proof-of-work parameters, when required.
    pub pow_required: Option<PowParams>,
    /// Operator contact.
    pub contact: Option<String>,
    /// The node's Ed25519 public key, multibase-encoded.
    pub public_key: Option<String>,
}

/// The protocol version of this specification.
pub const PROTOCOL_VERSION: &'static str = "1.0";

impl NodeInfo {
    /// A minimal conformant discovery document: protocol `1.0`, the `sync`
    /// capability, no signing or proof of work required.
    pub fn new(node_id: &str, api_base: &str) -> (r: NodeInfo)
        ensures
            r.node_id@ == node_id@,
            r.api_base@ == api_base@,
            r.name is None,
            r.protocol_version@ == "1.0"@,
            r.capabilities@ == seq![Capability::Sync],
            !r.signing_required,
            r.pow_required is None,
            r.contact is None,
            r.public_key is None,
    {
        let mut capabilities: Vec<Capability> = Vec::new();
        capabilities.push(Capability::Sync);
        NodeInfo {
            node_id: to_owned_string(node_id),
            name: None,
            protocol_version: to_owned_string(PROTOCOL_VERSION),
            api_base: to_owned_string(api_base),
            capabilities,
            signing_required: false,
            pow_required: None,
            contact: None,
            public_key: None,
        }
    }
}

/// A peer node: identifier, API base URL and local reputation.
#[derive(Debug, Clone, PartialEq, Eq)]
pub struct PeerInfo {
    /// Stable identifier of the peer.
    pub node_id: String,
    /// API base URL of the peer.
    pub api_base: String,
    /// Local reputation score, as the bit pattern of an `f32`.
    pub reputation: u32,
    /// Timestamp of the most recent successful contact.
    pub last_seen: Option<String>,
}

impl PeerInfo {
    /// A peer with neutral reputation (`0.5`) and no `last_seen`.
    pub fn new(node_id: &str, api_base: &str) -> (r: PeerInfo)
        ensures
            r.node_id@ == node_id@,
            r.api_base@ == api_base@,
            r.reputation == NEUTRAL_REPUTATION,
            r.last_seen is None,
    {
        PeerInfo {
            node_id: to_owned_string(node_id),
            api_base: to_owned_string(api_base),
            reputation: NEUTRAL_REPUTATION,
            last_seen: None,
        }
    }
}

/// Body of `GET /v1/peers`.
#[derive(Debug, Clone, PartialEq, Eq)]
pub struct PeersResponse {
    /// Known peers.
    pub peers: Vec<PeerInfo>,
}

/// Body of `PATCH /v1/peers/{node_id}`.
#[derive(Debug, Clone, PartialEq, Eq)]
pub struct ReputationUpdate {
    /// New reputation, as the bit pattern of an `f32`.
    pub reputation: u32,
}

/// Query of `GET /v1/units` and `GET /v1/sync`.
#[derive(Debug, Clone, PartialEq, Eq)]
pub struct ListQuery {
    /// Unit type names to include.
    pub unit_types: Vec<String>,
    /// Exact author to include.
    pub author: Option<String>,
    /// Lower bound on `created_at`.
    pub since: Option<String>,
    /// Pagination cursor.
    pub after: Option<String>,
    /// Maximum number of units to return.
    pub limit: Option<u32>,
}

/// `l` clamped to `[lo, hi]`.
pub open spec fn clamp(l: u32, lo: u32, hi: u32) -> u32 {
    if l < lo {
        lo
    } else if l > hi {
        hi
    } else {
        l
    }
}

impl ListQuery {
    /// A query with every filter absent.
    pub fn new() -> (r: ListQuery)
        ensures
            r.unit_types@.len() == 0,
            r.author is None,
            r.since is None,
            r.after is None,
            r.limit is None,
    {
        ListQuery { unit_types: Vec::new(), author: None, since: None, after: None, limit: None }
    }

    /// The page size: `limit` clamped to `[1, 500]`, or `50` when absent.
    pub fn effective_limit(&self) -> (r: u32)
        ensures
            r == match self.limit {
                Some(l) => clamp(l, 1, 500),
                None => 50,
            },
    {
        match self.limit {
            Some(l) => if l < 1 {
                1
            } else if l > 500 {
                500
            } else {
                l
            },
            None => 50,
        }
    }
}

impl Default for ListQuery {
    fn default() -> (r: ListQuery)
        ensures
            r.unit_types@.len() == 0,
            r.author is None,
            r.since is None,
            r.after is None,
            r.limit is None,
    {
        ListQuery::new()
    }
}

/// A page of units.
#[derive(Debug, Clone)]
pub struct ListResponse {
    /// The units of this page, in ascending `id` order.
    pub units: Vec<SemanticUnit>,
    /// The `id` of the last unit of the page; absent when it is empty.
    pub cursor: Option<String>,
    /// Whether more units follow this page.
    pub has_more: bool,
}

impl ListResponse {
    /// A response for this page; its cursor is the `id` of its last unit.
    pub fn from_page(units: Vec<SemanticUnit>, has_more: bool) -> (r: ListResponse)
        ensures
            r.units@ == units@,
            r.has_more == has_more,
            units@.len() == 0 ==> r.cursor is None,
            units@.len() > 0 ==> (r.cursor matches Some(c) && c@ == units@.last()@.id),
    {
        let n = units.len();
        let cursor = if n == 0 {
            None
        } else {
            Some(copy_string(&units[n - 1].id))
        };
        ListResponse { units, cursor, has_more }
    }

    /// The empty end-of-stream response.
    pub fn empty() -> (r: ListResponse)
        ensures
            r.units@.len() == 0,
            r.cursor is None,
            !r.has_more,
    {
        ListResponse { units: Vec::new(), cursor: None, has_more: false }
    }
}

/// Query of `GET /v1/units/{id}/subgraph`.
#[derive(Debug, Clone, PartialEq, Eq)]
pub struct SubgraphQuery {
    /// Maximum traversal depth; absent means unbounded.
    pub depth: Option<u32>,
}

/// Body of `GET /v1/units/{id}/subgraph`.
#[derive(Debug, Clone)]
pub struct SubgraphResponse {
    /// The units of the connected subgraph held by the node.
    pub units: Vec<SemanticUnit>,
}

/// Membership status of a registered agent.
#[derive(Debug, Clone, Copy, PartialEq, Eq, Structural)]
pub enum AgentStatus {
    /// Fully admitted member.
    Full,
    /// Admitted on probation through the self-service apply endpoint.
    Probationary,
}

/// Persistent profile of a registered agent.
#[derive(Debug, Clone, PartialEq, Eq)]
pub struct AgentProfile {
    /// The agent's DID.
    pub did: String,
    /// Absolute URL of the agent's inbox.
    pub inbox_url: String,
    /// Human-readable label.
    pub display_name: Option<String>,
    /// Public key for verifying the agent's HTTP Signatures.
    pub public_key: Option<String>,
    /// Membership status.
    pub status: AgentStatus,
    /// Number of community contributions recorded.
    pub contribution_count: u32,
    /// Local reputation, as the bit pattern of an `f32`.
    pub reputation: u32,
}

/// The abstract content of a [`PeerInfo`].
pub struct PeerView {
    pub node_id: Seq<char>,
    pub api_base: Seq<char>,
    pub reputation: u32,
    pub last_seen: Option<Seq<char>>,
}

impl View for PeerInfo {
    type V = PeerView;

    open spec fn view(&self) -> PeerView {
        PeerView {
            node_id: self.node_id@,
            api_base: self.api_base@,
            reputation: self.reputation,
            last_seen: opt_view(self.last_seen),
        }
    }
}

impl PeerInfo {
    /// A copy of the record.
    pub fn duplicate(&self) -> (r: PeerInfo)
        ensures
            r@ == self@,
    {
        PeerInfo {
            node_id: copy_string(&self.node_id),
            api_base: copy_string(&self.api_base),
            reputation: self.reputation,
            last_seen: copy_opt_string(&self.last_seen),
        }
    }
}

/// The abstract content of an [`AgentProfile`].
pub struct AgentView {
    pub did: Seq<char>,
    pub inbox_url: Seq<char>,
    pub display_name: Option<Seq<char>>,
    pub public_key: Option<Seq<char>>,
    pub status: AgentStatus,
    pub contribution_count: u32,
    pub reputation: u32,
}

impl View for AgentProfile {
    type V = AgentView;

    open spec fn view(&self) -> AgentView {
        AgentView {
            did: self.did@,
            inbox_url: self.inbox_url@,
            display_name: opt_view(self.display_name),
            public_key: opt_view(self.public_key),
            status: self.status,
            contribution_count: self.contribution_count,
            reputation: self.reputation,
        }
    }
}

impl AgentProfile {
    /// A copy of the profile.
    pub fn duplicate(&self) -> (r: AgentProfile)
        ensures
            r@ == self@,
    {
        AgentProfile {
            did: copy_string(&self.did),
            inbox_url: copy_string(&self.inbox_url),
            display_name: copy_opt_string(&self.display_name),
            public_key: copy_opt_string(&self.public_key),
            status: self.status,
            contribution_count: self.contribution_count,
            reputation: self.reputation,
        }
    }
}

/// Body of `POST /v1/agents/{did}`.
#[derive(Debug, Clone, PartialEq, Eq)]
pub struct RegisterRequest {
    /// The agent's DID.
    pub did: String,
    /// The inbox URL to advertise.
    pub inbox_url: String,
    /// Human-readable name.
    pub display_name: Option<String>,
    /// Public key material.
    pub public_key: Option<String>,
}

/// Body of `POST /v1/agents/{did}/apply`.
#[derive(Debug, Clone, PartialEq, Eq)]
pub struct ApplyRequest {
    /// The agent's DID.
    pub did: String,
    /// The inbox URL to advertise.
    pub inbox_url: String,
    /// Human-readable name.
    pub display_name: Option<String>,
    /// Public key material.
    pub public_key: Option<String>,
    /// DID of a full member vouching for the applicant.
    pub sponsor_did: Option<String>,
}

/// Body of `PATCH /v1/agents/{did}/reputation`.
#[derive(Debug, Clone, PartialEq, Eq)]
pub struct AgentReputationUpdate {
    /// Proposed reputation, as the bit pattern of an `f32`.
    pub reputation: u32,
}

/// A page of an agent's inbox.
#[derive(Debug, Clone)]
pub struct InboxResponse {
    /// Units waiting in the inbox, oldest first.
    pub items: Vec<SemanticUnit>,
    /// Cursor for the next page; absent on the last page.
    pub next_cursor: Option<String>,
}

impl InboxResponse {
    /// An empty inbox page.
    pub fn empty() -> (r: InboxResponse)
        ensures
            r.items@.len() == 0,
            r.next_cursor is None,
    {
        InboxResponse { items: Vec::new(), next_cursor: None }
    }
}

} // verus!
