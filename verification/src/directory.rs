//! Decisions of the agent, follow, peer and WebFinger endpoints: who may
//! act on a registration, which profile is stored, how an inbox page is
//! cut, and how an agent address resolves to its profile URL.
use vstd::prelude::*;
use crate::api::{
    AgentProfile, AgentStatus, ApplyRequest, InboxResponse, PeerInfo, PeerView, RegisterRequest,
    NEUTRAL_REPUTATION,
};
use crate::external::{spec_str_debug, str_debug};
use crate::node::{agent_not_found, agent_not_found_error, framed, framed_text, opt_str, AppError};
use crate::storage::{storage_error_text, StorageError};
use crate::text::{
    chars_of, copy_string, is_prefix, last_index, last_index_of, push_str, str_eq,
    string_from_range, strip_prefix_str, to_owned_string,
};
use crate::types::{SemanticUnit, UnitView};

verus! {

/// The message of a request body whose DID differs from the path's.
pub open spec fn did_mismatch_message() -> Seq<char> {
    "did in request body must match the {did} path parameter"@
}

/// The checks of a self-service request on `path_did` with `body_did` in
/// its body, by `caller`: the body must name the path's DID (400), and the
/// caller must be that agent (403, with `forbidden`).
pub open spec fn self_request_refusal(
    path_did: Seq<char>,
    body_did: Seq<char>,
    caller: Seq<char>,
    forbidden: Seq<char>,
) -> Option<(u16, Seq<char>)> {
    if body_did != path_did {
        Some((400, did_mismatch_message()))
    } else if caller != path_did {
        Some((403, forbidden))
    } else {
        None
    }
}

/// Whether `r` answers the refusal `refusal` (or its absence).
pub open spec fn answers(r: Result<(), AppError>, refusal: Option<(u16, Seq<char>)>) -> bool {
    match refusal {
        None => r is Ok,
        Some((status, msg)) => r matches Err(e) && crate::node::status_of(e) == status
            && crate::node::message_of(e) == msg,
    }
}

fn self_request(path_did: &str, body_did: &str, caller: &str, forbidden: &str) -> (r: Result<
    (),
    AppError,
>)
    ensures
        answers(r, self_request_refusal(path_did@, body_did@, caller@, forbidden@)),
{
    if !str_eq(body_did, path_did) {
        proof {
            reveal_strlit("did in request body must match the {did} path parameter");
        }
        return Err(
            AppError::BadRequest(
                to_owned_string("did in request body must match the {did} path parameter"),
            ),
        );
    }
    if !str_eq(caller, path_did) {
        return Err(AppError::Forbidden(to_owned_string(forbidden)));
    }
    Ok(())
}

/// Checks `POST /v1/agents/{did}`: the body names the path's DID and the
/// caller registers itself.
pub fn check_registration(path_did: &str, req: &RegisterRequest, caller: &str) -> (r: Result<
    (),
    AppError,
>)
    ensures
        answers(
            r,
            self_request_refusal(path_did@, req.did@, caller@, "cannot register as a different DID"@),
        ),
{
    proof {
        reveal_strlit("cannot register as a different DID");
    }
    self_request(path_did, req.did.as_str(), caller, "cannot register as a different DID")
}

/// The profile stored for a registration: a full member with no
/// contributions and neutral reputation.
pub fn registered_profile(req: RegisterRequest) -> (r: AgentProfile)
    ensures
        r.did == req.did,
        r.inbox_url == req.inbox_url,
        r.display_name == req.display_name,
        r.public_key == req.public_key,
        r.status == AgentStatus::Full,
        r.contribution_count == 0,
        r.reputation == NEUTRAL_REPUTATION,
{
    AgentProfile {
        did: req.did,
        inbox_url: req.inbox_url,
        display_name: req.display_name,
        public_key: req.public_key,
        status: AgentStatus::Full,
        contribution_count: 0,
        reputation: NEUTRAL_REPUTATION,
    }
}

/// Checks `POST /v1/agents/{did}/apply` before storage is consulted.
pub fn check_application(path_did: &str, req: &ApplyRequest, caller: &str) -> (r: Result<
    (),
    AppError,
>)
    ensures
        answers(
            r,
            self_request_refusal(path_did@, req.did@, caller@, "cannot apply as a different DID"@),
        ),
{
    proof {
        reveal_strlit("cannot apply as a different DID");
    }
    self_request(path_did, req.did.as_str(), caller, "cannot apply as a different DID")
}

/// The message of an application by an agent already registered.
pub open spec fn already_registered(did: Seq<char>) -> Seq<char> {
    framed("agent "@, did, " is already registered"@)
}

/// Refuses an application when `existing` shows the DID registered.
pub fn check_not_registered(existing: &Option<AgentProfile>, did: &str) -> (r: Result<
    (),
    AppError,
>)
    ensures
        existing is None ==> r is Ok,
        existing is Some ==> (r matches Err(AppError::Conflict(m)) && m@ == already_registered(
            did@,
        )),
{
    match existing {
        None => Ok(()),
        Some(_) => Err(AppError::Conflict(framed_text("agent ", did, " is already registered"))),
    }
}

/// Whether the sponsor's profile shows a full member.
pub fn sponsor_is_full_member(sponsor: &Option<AgentProfile>) -> (r: bool)
    ensures
        r == (sponsor matches Some(p) && p.status == AgentStatus::Full),
{
    match sponsor {
        Some(p) => p.status == AgentStatus::Full,
        None => false,
    }
}

/// The profile stored for an application: a probationary member with no
/// contributions and neutral reputation.
pub fn applicant_profile(req: ApplyRequest) -> (r: AgentProfile)
    ensures
        r.did == req.did,
        r.inbox_url == req.inbox_url,
        r.display_name == req.display_name,
        r.public_key == req.public_key,
        r.status == AgentStatus::Probationary,
        r.contribution_count == 0,
        r.reputation == NEUTRAL_REPUTATION,
{
    AgentProfile {
        did: req.did,
        inbox_url: req.inbox_url,
        display_name: req.display_name,
        public_key: req.public_key,
        status: AgentStatus::Probationary,
        contribution_count: 0,
        reputation: NEUTRAL_REPUTATION,
    }
}

/// Checks a request that only the agent `did` itself may make on its own
/// registered profile: an unregistered DID is absent (404); another caller
/// is told so (404 for the inbox, which hides whether it exists).
pub fn check_inbox_reader(registered: bool, did: &str, caller: &str) -> (r: Result<(), AppError>)
    ensures
        (registered && caller@ == did@) ==> r is Ok,
        !(registered && caller@ == did@) ==> (r matches Err(AppError::NotFound(m)) && m@
            == agent_not_found(did@)),
{
    if !registered || !str_eq(caller, did) {
        return Err(agent_not_found_error(did));
    }
    Ok(())
}

/// Checks `DELETE /v1/agents/{did}`: only the agent itself (403), and only
/// when registered (404).
pub fn check_deregistration(registered: bool, did: &str, caller: &str) -> (r: Result<
    (),
    AppError,
>)
    ensures
        caller@ != did@ ==> (r matches Err(AppError::Forbidden(m)) && m@
            == "cannot deregister a different agent"@),
        caller@ == did@ && !registered ==> (r matches Err(AppError::NotFound(m)) && m@
            == agent_not_found(did@)),
        caller@ == did@ && registered ==> r is Ok,
{
    if !str_eq(caller, did) {
        proof {
            reveal_strlit("cannot deregister a different agent");
        }
        return Err(AppError::Forbidden(to_owned_string("cannot deregister a different agent")));
    }
    if !registered {
        return Err(agent_not_found_error(did));
    }
    Ok(())
}

/// Checks that the target of an inbox delivery is registered here.
pub fn check_registered(registered: bool, did: &str) -> (r: Result<(), AppError>)
    ensures
        registered ==> r is Ok,
        !registered ==> (r matches Err(AppError::NotFound(m)) && m@ == agent_not_found(did@)),
{
    if registered {
        Ok(())
    } else {
        Err(agent_not_found_error(did))
    }
}

/// The page size of an inbox read: `limit` clamped to `[1, 100]`, 20 when
/// absent.
pub open spec fn inbox_limit_of(limit: Option<u32>) -> u32 {
    match limit {
        Some(l) => crate::api::clamp(l, 1, 100),
        None => 20,
    }
}

/// The page size of an inbox read.
pub fn inbox_limit(limit: Option<u32>) -> (r: u32)
    ensures
        r == inbox_limit_of(limit),
{
    match limit {
        Some(l) => if l < 1 {
            1
        } else if l > 100 {
            100
        } else {
            l
        },
        None => 20,
    }
}

/// An inbox page: the items, and when more follow, the id of the last item
/// as the cursor of the next page.
pub fn inbox_page(items: Vec<SemanticUnit>, has_more: bool) -> (r: InboxResponse)
    ensures
        r.items@ == items@,
        (has_more && items@.len() > 0) ==> (r.next_cursor matches Some(c) && c@
            == items@.last()@.id),
        !(has_more && items@.len() > 0) ==> r.next_cursor is None,
{
    let n = items.len();
    let next_cursor = if has_more && n > 0 {
        Some(copy_string(&items[n - 1].id))
    } else {
        None
    };
    InboxResponse { items, next_cursor }
}

// ---------------------------------------------------------------------------
// Reputation votes
// ---------------------------------------------------------------------------

/// Whether the `f32` with these bits is a finite number in `[0.0, 1.0]`.
pub open spec fn f32_in_unit_interval(bits: u32) -> bool {
    bits <= 0x3f80_0000u32 || bits == 0x8000_0000u32
}

/// The message of a reputation outside `[0.0, 1.0]`.
pub open spec fn reputation_range_message() -> Seq<char> {
    "reputation must be a finite number in [0.0, 1.0]"@
}

/// Checks that a proposed reputation is a finite number in `[0.0, 1.0]`.
pub fn check_reputation_value(bits: u32) -> (r: Result<(), AppError>)
    ensures
        f32_in_unit_interval(bits) ==> r is Ok,
        !f32_in_unit_interval(bits) ==> (r matches Err(AppError::BadRequest(m)) && m@
            == reputation_range_message()),
{
    if bits <= 0x3f80_0000u32 || bits == 0x8000_0000u32 {
        Ok(())
    } else {
        proof {
            reveal_strlit("reputation must be a finite number in [0.0, 1.0]");
        }
        Err(
            AppError::BadRequest(
                to_owned_string("reputation must be a finite number in [0.0, 1.0]"),
            ),
        )
    }
}

/// The checks of a reputation vote by `caller` on `target`, in order: the
/// value is in range (400), the caller does not vote on itself (403), and
/// the caller is a registered agent (403). Returns the caller's profile.
pub fn check_vote(
    target: &str,
    caller: &str,
    proposed: u32,
    caller_profile: Option<AgentProfile>,
) -> (r: Result<AgentProfile, AppError>)
    ensures
        !f32_in_unit_interval(proposed) ==> (r matches Err(AppError::BadRequest(m)) && m@
            == reputation_range_message()),
        f32_in_unit_interval(proposed) && caller@ == target@ ==> (r matches Err(
            AppError::Forbidden(m),
        ) && m@ == "an agent cannot update its own reputation"@),
        f32_in_unit_interval(proposed) && caller@ != target@ && caller_profile is None ==> (r matches Err(
            AppError::Forbidden(m),
        ) && m@ == "caller is not a registered agent; reputation updates are community-internal"@),
        f32_in_unit_interval(proposed) && caller@ != target@ && caller_profile is Some ==> r
            == Ok::<AgentProfile, AppError>(caller_profile->0),
{
    match check_reputation_value(proposed) {
        Err(e) => {
            return Err(e);
        },
        Ok(()) => {},
    }
    if str_eq(caller, target) {
        proof {
            reveal_strlit("an agent cannot update its own reputation");
        }
        return Err(AppError::Forbidden(to_owned_string("an agent cannot update its own reputation")));
    }
    match caller_profile {
        Some(p) => Ok(p),
        None => {
            proof {
                reveal_strlit(
                    "caller is not a registered agent; reputation updates are community-internal",
                );
            }
            Err(
                AppError::Forbidden(
                    to_owned_string(
                        "caller is not a registered agent; reputation updates are community-internal",
                    ),
                ),
            )
        },
    }
}

/// How a storage failure of a reputation update on `what` named `name` is
/// answered: a missing record is `NotFound("{what} {name} not found")`,
/// anything else `Internal` with the storage message.
pub fn update_failure(e: StorageError, what: &str, name: &str) -> (r: AppError)
    ensures
        e is NotFound ==> (r matches AppError::NotFound(m) && m@ == framed(
            what@.push(' '),
            name@,
            " not found"@,
        )),
        !(e is NotFound) ==> (r matches AppError::Internal(m) && m@ == storage_error_text(e)),
{
    match e {
        StorageError::NotFound => {
            let mut prefix = to_owned_string(what);
            crate::text::push_char(&mut prefix, ' ');
            AppError::NotFound(framed_text(prefix.as_str(), name, " not found"))
        },
        other => AppError::Internal(other.message()),
    }
}

// ---------------------------------------------------------------------------
// Follows
// ---------------------------------------------------------------------------

/// Checks `POST /v1/agents/{did}/following` before storage is consulted:
/// the body's follower is the path's agent (400) and the caller is that
/// agent (403).
pub fn check_follow(path_did: &str, follower_did: &str, caller: &str) -> (r: Result<
    (),
    AppError,
>)
    ensures
        follower_did@ != path_did@ ==> (r matches Err(AppError::BadRequest(m)) && m@
            == "follower_did in body must match the {did} path parameter"@),
        follower_did@ == path_did@ && caller@ != path_did@ ==> (r matches Err(AppError::Forbidden(m))
            && m@ == "cannot follow on behalf of a different agent"@),
        follower_did@ == path_did@ && caller@ == path_did@ ==> r is Ok,
{
    if !str_eq(follower_did, path_did) {
        proof {
            reveal_strlit("follower_did in body must match the {did} path parameter");
        }
        return Err(
            AppError::BadRequest(
                to_owned_string("follower_did in body must match the {did} path parameter"),
            ),
        );
    }
    if !str_eq(caller, path_did) {
        proof {
            reveal_strlit("cannot follow on behalf of a different agent");
        }
        return Err(
            AppError::Forbidden(to_owned_string("cannot follow on behalf of a different agent")),
        );
    }
    Ok(())
}

/// Checks `DELETE /v1/agents/{did}/following/{target}`: only the agent
/// itself may unfollow.
pub fn check_unfollow(path_did: &str, caller: &str) -> (r: Result<(), AppError>)
    ensures
        caller@ != path_did@ ==> (r matches Err(AppError::Forbidden(m)) && m@
            == "cannot unfollow on behalf of a different agent"@),
        caller@ == path_did@ ==> r is Ok,
{
    if !str_eq(caller, path_did) {
        proof {
            reveal_strlit("cannot unfollow on behalf of a different agent");
        }
        return Err(
            AppError::Forbidden(to_owned_string("cannot unfollow on behalf of a different agent")),
        );
    }
    Ok(())
}

// ---------------------------------------------------------------------------
// Peers
// ---------------------------------------------------------------------------

/// Checks `POST /v1/peers`: both identifier and API base are required.
pub fn check_new_peer(peer: &PeerInfo) -> (r: Result<(), AppError>)
    ensures
        (peer.node_id@.len() > 0 && peer.api_base@.len() > 0) ==> r is Ok,
        !(peer.node_id@.len() > 0 && peer.api_base@.len() > 0) ==> (r matches Err(
            AppError::BadRequest(m),
        ) && m@ == "node_id and api_base are required"@),
{
    if peer.node_id.as_str().is_empty() || peer.api_base.as_str().is_empty() {
        proof {
            reveal_strlit("node_id and api_base are required");
        }
        return Err(AppError::BadRequest(to_owned_string("node_id and api_base are required")));
    }
    Ok(())
}

/// The peer `node_id` in a listing, or `NotFound("peer {node_id} not
/// found")`.
pub fn find_peer(peers: Vec<PeerInfo>, node_id: &str) -> (r: Result<PeerInfo, AppError>)
    ensures
        match r {
            Ok(p) => p.node_id@ == node_id@ && exists|i: int|
                0 <= i < peers@.len() && (#[trigger] peers@[i])@ == p@ && forall|j: int|
                    0 <= j < i ==> (#[trigger] peers@[j]).node_id@ != node_id@,
            Err(e) => (e matches AppError::NotFound(m) && m@ == framed(
                "peer "@,
                node_id@,
                " not found"@,
            )) && forall|j: int| 0 <= j < peers@.len() ==> (#[trigger] peers@[j]).node_id@
                != node_id@,
        },
{
    let mut i: usize = 0;
    while i < peers.len()
        invariant
            i <= peers@.len(),
            forall|j: int| 0 <= j < i ==> (#[trigger] peers@[j]).node_id@ != node_id@,
        decreases peers@.len() - i,
    {
        if str_eq(peers[i].node_id.as_str(), node_id) {
            let p = peers[i].duplicate();
            proof {
                assert(peers@[i as int]@ == p@);
            }
            return Ok(p);
        }
        i = i + 1;
    }
    Err(AppError::NotFound(framed_text("peer ", node_id, " not found")))
}

/// Whether some peer of the listing has the node id `id`.
pub open spec fn lists_peer(peers: Seq<PeerInfo>, id: Seq<char>) -> bool {
    exists|i: int| 0 <= i < peers.len() && (#[trigger] peers[i]).node_id@ == id
}

/// The checks of a reputation vote on the peer `target`, sent by the node
/// named in the caller's `X-Node-ID` header, in order: the value is in range
/// (400), the target is not this node itself (403), and the caller is a
/// node of the local peer list (403). Returns the caller's peer record,
/// whose reputation weighs the vote.
pub fn check_peer_vote(
    target: &str,
    own_node_id: &str,
    caller: Option<&str>,
    proposed: u32,
    peers: Vec<PeerInfo>,
) -> (r: Result<PeerInfo, AppError>)
    ensures
        !f32_in_unit_interval(proposed) ==> (r matches Err(AppError::BadRequest(m)) && m@
            == reputation_range_message()),
        f32_in_unit_interval(proposed) && target@ == own_node_id@ ==> (r matches Err(
            AppError::Forbidden(m),
        ) && m@ == "a node cannot update its own reputation"@),
        f32_in_unit_interval(proposed) && target@ != own_node_id@ ==> match caller {
            Some(c) => if lists_peer(peers@, c@) {
                r matches Ok(p) && p.node_id@ == c@ && exists|i: int|
                    0 <= i < peers@.len() && (#[trigger] peers@[i])@ == p@
            } else {
                r matches Err(AppError::Forbidden(m)) && m@
                    == "caller is not a known peer; reputation updates are community-internal"@
            },
            None => r matches Err(AppError::Forbidden(m)) && m@
                == "caller is not a known peer; reputation updates are community-internal"@,
        },
{
    match check_reputation_value(proposed) {
        Err(e) => {
            return Err(e);
        },
        Ok(()) => {},
    }
    if str_eq(target, own_node_id) {
        proof {
            reveal_strlit("a node cannot update its own reputation");
        }
        return Err(AppError::Forbidden(to_owned_string("a node cannot update its own reputation")));
    }
    let outsider = AppError::Forbidden(
        to_owned_string("caller is not a known peer; reputation updates are community-internal"),
    );
    proof {
        reveal_strlit("caller is not a known peer; reputation updates are community-internal");
    }
    match caller {
        None => Err(outsider),
        Some(c) => match find_peer(peers, c) {
            Ok(p) => Ok(p),
            Err(_) => Err(outsider),
        },
    }
}

// ---------------------------------------------------------------------------
// WebFinger
// ---------------------------------------------------------------------------

/// A link of a JSON Resource Descriptor.
#[derive(Debug, Clone, PartialEq, Eq)]
pub struct JrdLink {
    /// Link relation.
    pub rel: String,
    /// Media type of the target.
    pub link_type: String,
    /// Target URL.
    pub href: String,
}

/// A JSON Resource Descriptor (RFC 7033).
#[derive(Debug, Clone, PartialEq, Eq)]
pub struct Jrd {
    /// The resource described.
    pub subject: String,
    /// Links from it.
    pub links: Vec<JrdLink>,
}

/// The agent address named by a WebFinger resource: without its optional
/// `acct:` prefix.
pub open spec fn acct_address(resource: Seq<char>) -> Seq<char> {
    if is_prefix("acct:"@, resource) {
        resource.skip(5)
    } else {
        resource
    }
}

/// What a WebFinger `resource` resolves to: the address and the DID before
/// its last `@`, or the message of the 400 answer.
pub open spec fn webfinger_resolution(resource: Seq<char>) -> Result<
    (Seq<char>, Seq<char>),
    Seq<char>,
> {
    let address = acct_address(resource);
    match last_index_of(address, '@') {
        None => Err(
            "resource "@ + spec_str_debug(resource)
                + " is not a valid agent address (expected did@host format)"@,
        ),
        Some(at) => {
            let did = address.take(at);
            if is_prefix("did:"@, did) {
                Ok((address, did))
            } else {
                Err(
                    "resource "@ + spec_str_debug(resource) + ": expected a DID before '@', got "@
                        + spec_str_debug(did),
                )
            }
        },
    }
}

/// Resolves the `resource` parameter of `GET /.well-known/webfinger` to the
/// agent address and its DID.
pub fn resolve_webfinger(resource: Option<&str>) -> (r: Result<(String, String), AppError>)
    ensures
        match resource {
            None => r matches Err(AppError::BadRequest(m)) && m@
                == "missing required query parameter: resource"@,
            Some(res) => match webfinger_resolution(res@) {
                Ok((a, d)) => r matches Ok((x, y)) && x@ == a && y@ == d,
                Err(msg) => r matches Err(AppError::BadRequest(m)) && m@ == msg,
            },
        },
{
    let res = match resource {
        None => {
            proof {
                reveal_strlit("missing required query parameter: resource");
            }
            return Err(
                AppError::BadRequest(to_owned_string("missing required query parameter: resource")),
            );
        },
        Some(r) => r,
    };
    proof {
        reveal_strlit("acct:");
    }
    let address = match strip_prefix_str(res, "acct:") {
        Some(a) => a,
        None => to_owned_string(res),
    };
    let v = chars_of(address.as_str());
    let at = match last_index(&v, '@') {
        Some(at) => at,
        None => {
            let mut m = to_owned_string("resource ");
            push_str(&mut m, str_debug(res).as_str());
            push_str(&mut m, " is not a valid agent address (expected did@host format)");
            proof {
                reveal_strlit("resource ");
                reveal_strlit(" is not a valid agent address (expected did@host format)");
            }
            return Err(AppError::BadRequest(m));
        },
    };
    let did = string_from_range(&v, 0, at);
    proof {
        assert(v@.subrange(0, at as int) =~= address@.take(at as int));
        reveal_strlit("did:");
    }
    match strip_prefix_str(did.as_str(), "did:") {
        Some(_) => Ok((address, did)),
        None => {
            let mut m = to_owned_string("resource ");
            push_str(&mut m, str_debug(res).as_str());
            push_str(&mut m, ": expected a DID before '@', got ");
            push_str(&mut m, str_debug(did.as_str()).as_str());
            proof {
                reveal_strlit("resource ");
                reveal_strlit(": expected a DID before '@', got ");
            }
            Err(AppError::BadRequest(m))
        },
    }
}

/// `NotFound("agent {did} not found on this node")`.
pub fn webfinger_unknown_agent(did: &str) -> (r: AppError)
    ensures
        r matches AppError::NotFound(m) && m@ == framed("agent "@, did@, " not found on this node"@),
{
    AppError::NotFound(framed_text("agent ", did, " not found on this node"))
}

/// The descriptor of the agent `did` at `address`: subject `acct:` +
/// address, and one `self` link to its profile under `api_base`.
pub fn webfinger_document(address: &str, did: &str, api_base: &str) -> (r: Jrd)
    ensures
        r.subject@ == "acct:"@ + address@,
        r.links@.len() == 1,
        r.links@[0].rel@ == "self"@,
        r.links@[0].link_type@ == "application/json"@,
        r.links@[0].href@ == api_base@ + "/agents/"@ + did@,
{
    let mut subject = to_owned_string("acct:");
    push_str(&mut subject, address);
    let mut href = to_owned_string(api_base);
    push_str(&mut href, "/agents/");
    push_str(&mut href, did);
    let mut links: Vec<JrdLink> = Vec::new();
    links.push(
        JrdLink {
            rel: to_owned_string("self"),
            link_type: to_owned_string("application/json"),
            href,
        },
    );
    proof {
        reveal_strlit("acct:");
        reveal_strlit("/agents/");
    }
    Jrd { subject, links }
}

} // verus!
