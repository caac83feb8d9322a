//! Fan-out of stored units: which local agents get a unit in their inbox,
//! which remote nodes it is pushed to, and the notice an author receives
//! when a push fails.
use vstd::prelude::*;
use crate::address::{address_parts, AddressError, AgentAddress};
use crate::external::{opt_text, spec_url_parts, url_parts};
use crate::node::framed;
use crate::text::{
    chars_of, contains_char, copy_string, decimal, is_prefix, push_decimal, push_str,
    starts_with_chars, str_eq, to_owned_string,
};
use crate::types::{
    effective_visibility, strings_view, Reference, RelType, SemanticUnit, UnitType, UnitView,
    Visibility,
};

verus! {

/// Whether an audience entry names an agent on another node (`did@host`).
pub open spec fn is_remote_entry(e: Seq<char>) -> bool {
    e.contains('@')
}

/// The local agents a stored unit is delivered to before their
/// registration is checked: the author's followers for a network unit, the
/// audience entries without `@` for a limited unit, nobody for a public
/// unit.
pub open spec fn local_candidates_of(u: UnitView, followers: Seq<Seq<char>>) -> Seq<Seq<char>> {
    match effective_visibility(u.visibility) {
        Visibility::Public => Seq::empty(),
        Visibility::Network => followers,
        Visibility::Limited => match u.audience {
            Some(a) => a.filter(|e: Seq<char>| !is_remote_entry(e)),
            None => Seq::empty(),
        },
    }
}

/// The local delivery candidates of `unit`, given the followers of its
/// author.
pub fn local_candidates(unit: &SemanticUnit, followers: Vec<String>) -> (r: Vec<String>)
    ensures
        strings_view(r@) == local_candidates_of(unit@, strings_view(followers@)),
{
    let vis = match unit.visibility {
        Some(v) => v,
        None => Visibility::Public,
    };
    match vis {
        Visibility::Public => {
            let r: Vec<String> = Vec::new();
            proof {
                assert(strings_view(r@) =~= Seq::<Seq<char>>::empty());
            }
            r
        },
        Visibility::Network => followers,
        Visibility::Limited => {
            let mut out: Vec<String> = Vec::new();
            match &unit.audience {
                None => {
                    proof {
                        assert(strings_view(out@) =~= Seq::<Seq<char>>::empty());
                    }
                },
                Some(a) => {
                    let ghost av = strings_view(a@);
                    let ghost keep = |e: Seq<char>| !is_remote_entry(e);
                    let mut i: usize = 0;
                    while i < a.len()
                        invariant
                            i <= a@.len(),
                            av == strings_view(a@),
                            keep == (|e: Seq<char>| !is_remote_entry(e)),
                            strings_view(out@) == av.take(i as int).filter(keep),
                        decreases a@.len() - i,
                    {
                        proof {
                            reveal(Seq::filter);
                            assert(av.take(i as int + 1).drop_last() =~= av.take(i as int));
                        }
                        let v = chars_of(a[i].as_str());
                        if !contains_char(&v, '@') {
                            out.push(copy_string(&a[i]));
                            proof {
                                assert(strings_view(out@) =~= strings_view(out@).drop_last().push(
                                    a@[i as int]@,
                                ));
                            }
                        }
                        i = i + 1;
                    }
                    proof {
                        assert(av.take(a@.len() as int) =~= av);
                    }
                },
            }
            out
        },
    }
}

/// Whether `inbox_url` is served by another node than the one at
/// `api_base`, that is, does not start with it.
pub fn is_remote_inbox(inbox_url: &str, api_base: &str) -> (r: bool)
    ensures
        r == !is_prefix(api_base@, inbox_url@),
{
    let v = chars_of(inbox_url);
    let w = chars_of(api_base);
    !starts_with_chars(&v, &w)
}

// ---------------------------------------------------------------------------
// Remote audience
// ---------------------------------------------------------------------------

/// The DID and hostname of a well-formed address text.
pub open spec fn address_of(e: Seq<char>) -> Option<(Seq<char>, Seq<char>)> {
    match address_parts(e) {
        Some(p) => if p.0.len() > 0 && p.1.len() > 0 {
            Some(p)
        } else {
            None
        },
        None => None,
    }
}

/// A group of remote recipients: a hostname and the addresses on it.
pub type GroupView = (Seq<char>, Seq<(Seq<char>, Seq<char>)>);

/// The first position of the group for `host`.
pub open spec fn group_index(g: Seq<GroupView>, host: Seq<char>) -> Option<int>
    decreases g.len(),
{
    if g.len() == 0 {
        None
    } else {
        match group_index(g.drop_last(), host) {
            Some(k) => Some(k),
            None => if g.last().0 == host {
                Some(g.len() - 1)
            } else {
                None
            },
        }
    }
}

/// The groups after adding the address `p` to the group of its hostname,
/// or to a new group at the end.
pub open spec fn add_to_group(g: Seq<GroupView>, p: (Seq<char>, Seq<char>)) -> Seq<GroupView> {
    match group_index(g, p.1) {
        Some(k) => g.update(k, (p.1, g[k].1.push(p))),
        None => g.push((p.1, seq![p])),
    }
}

/// The remote entries of an audience grouped by hostname in order of first
/// appearance, and the remote entries that are not addresses, in order.
pub open spec fn remote_grouping(entries: Seq<Seq<char>>) -> (Seq<GroupView>, Seq<Seq<char>>)
    decreases entries.len(),
{
    if entries.len() == 0 {
        (Seq::empty(), Seq::empty())
    } else {
        let (g, bad) = remote_grouping(entries.drop_last());
        let e = entries.last();
        if !is_remote_entry(e) {
            (g, bad)
        } else {
            match address_of(e) {
                Some(p) => (add_to_group(g, p), bad),
                None => (g, bad.push(e)),
            }
        }
    }
}

/// The text an address error carries.
pub open spec fn error_text(e: AddressError) -> Seq<char> {
    match e {
        AddressError::MissingAt(t) => t@,
        AddressError::EmptyDid(t) => t@,
        AddressError::EmptyHostname(t) => t@,
    }
}

/// Whether `e` is the error that parsing its own text gives.
pub open spec fn is_parse_error(e: AddressError) -> bool {
    match e {
        AddressError::MissingAt(t) => address_parts(t@) is None,
        AddressError::EmptyDid(t) => address_parts(t@) matches Some(p) && p.0.len() == 0,
        AddressError::EmptyHostname(t) => address_parts(t@) matches Some(p) && p.0.len() > 0
            && p.1.len() == 0,
    }
}

/// Remote recipients on one node.
#[derive(Debug, Clone)]
pub struct RemoteGroup {
    /// The node's hostname.
    pub hostname: String,
    /// The recipients on it, in audience order.
    pub addresses: Vec<AgentAddress>,
}

/// The view of a group.
pub open spec fn group_view(g: RemoteGroup) -> GroupView {
    (g.hostname@, g.addresses@.map_values(|a: AgentAddress| (a.did@, a.hostname@)))
}

/// The views of groups.
pub open spec fn groups_view(v: Seq<RemoteGroup>) -> Seq<GroupView> {
    v.map_values(|g: RemoteGroup| group_view(g))
}

proof fn lemma_group_index(g: Seq<GroupView>, host: Seq<char>)
    ensures
        match group_index(g, host) {
            Some(k) => 0 <= k < g.len() && g[k].0 == host && forall|j: int|
                0 <= j < k ==> (#[trigger] g[j]).0 != host,
            None => forall|j: int| 0 <= j < g.len() ==> (#[trigger] g[j]).0 != host,
        },
    decreases g.len(),
{
    if g.len() > 0 {
        lemma_group_index(g.drop_last(), host);
        assert forall|j: int| 0 <= j < g.len() - 1 implies g.drop_last()[j] == g[j] by {}
    }
}

/// Groups the remote entries of a limited unit's audience by hostname, in
/// order of first appearance; entries that are not addresses come back as
/// their parse errors, in order.
pub fn group_remote_audience(audience: &Vec<String>) -> (r: (Vec<RemoteGroup>, Vec<AddressError>))
    ensures
        groups_view(r.0@) == remote_grouping(strings_view(audience@)).0,
        r.1@.map_values(|e: AddressError| error_text(e)) == remote_grouping(
            strings_view(audience@),
        ).1,
        forall|i: int| 0 <= i < r.1@.len() ==> is_parse_error(#[trigger] r.1@[i]),
{
    let ghost av = strings_view(audience@);
    let mut groups: Vec<RemoteGroup> = Vec::new();
    let mut bad: Vec<AddressError> = Vec::new();
    let mut i: usize = 0;
    proof {
        assert(groups_view(groups@) =~= Seq::<GroupView>::empty());
        assert(bad@.map_values(|e: AddressError| error_text(e)) =~= Seq::<Seq<char>>::empty());
    }
    while i < audience.len()
        invariant
            i <= audience@.len(),
            av == strings_view(audience@),
            groups_view(groups@) == remote_grouping(av.take(i as int)).0,
            bad@.map_values(|e: AddressError| error_text(e)) == remote_grouping(
                av.take(i as int),
            ).1,
            forall|k: int| 0 <= k < bad@.len() ==> is_parse_error(#[trigger] bad@[k]),
        decreases audience@.len() - i,
    {
        proof {
            assert(av.take(i as int + 1).drop_last() =~= av.take(i as int));
            assert(av.take(i as int + 1).last() == audience@[i as int]@);
        }
        let entry = &audience[i];
        let v = chars_of(entry.as_str());
        if contains_char(&v, '@') {
            match AgentAddress::parse(entry.as_str()) {
                Ok(addr) => {
                    let ghost p = (addr.did@, addr.hostname@);
                    let ghost g0 = groups_view(groups@);
                    let mut k: usize = 0;
                    while k < groups.len() && !str_eq(groups[k].hostname.as_str(), addr.hostname.as_str())
                        invariant
                            k <= groups@.len(),
                            g0 == groups_view(groups@),
                            forall|j: int| 0 <= j < k ==> (#[trigger] g0[j]).0 != p.1,
                            p.1 == addr.hostname@,
                        decreases groups@.len() - k,
                    {
                        proof {
                            assert(g0[k as int] == group_view(groups@[k as int]));
                        }
                        k = k + 1;
                    }
                    proof {
                        lemma_group_index(g0, p.1);
                    }
                    if k < groups.len() {
                        proof {
                            assert(g0[k as int] == group_view(groups@[k as int]));
                            assert(group_index(g0, p.1) == Some(k as int));
                        }
                        let mut grp = groups.remove(k);
                        grp.addresses.push(addr);
                        let ghost gv = group_view(grp);
                        groups.insert(k, grp);
                        proof {
                            assert(gv == (p.1, g0[k as int].1.push(p))) by {
                                assert(gv.1 =~= g0[k as int].1.push(p));
                            }
                            assert(groups_view(groups@) =~= g0.update(k as int, (p.1, g0[k as int].1.push(p))));
                        }
                    } else {
                        let mut addresses: Vec<AgentAddress> = Vec::new();
                        let host = copy_string(&addr.hostname);
                        addresses.push(addr);
                        let grp = RemoteGroup { hostname: host, addresses };
                        proof {
                            assert(group_index(g0, p.1) is None);
                            assert(group_view(grp).1 =~= seq![p]);
                        }
                        groups.push(grp);
                        proof {
                            assert(groups_view(groups@) =~= g0.push((p.1, seq![p])));
                        }
                    }
                    proof {
                        assert(address_of(av[i as int]) == Some(p));
                    }
                },
                Err(e) => {
                    let ghost b0 = bad@.map_values(|x: AddressError| error_text(x));
                    bad.push(e);
                    proof {
                        assert(bad@.map_values(|x: AddressError| error_text(x)) =~= b0.push(
                            av[i as int],
                        ));
                        assert(address_of(av[i as int]) is None);
                    }
                },
            }
        }
        i = i + 1;
    }
    proof {
        assert(av.take(audience@.len() as int) =~= av);
    }
    (groups, bad)
}

// ---------------------------------------------------------------------------
// Delivery failures
// ---------------------------------------------------------------------------

/// Why pushing a unit to a remote recipient failed.
pub enum DeliveryFailure {
    /// The node's discovery document has no `api_base`.
    MissingApiBase { hostname: String },
    /// The discovery response could not be read; carries the reader's error.
    UnreadableDiscovery { hostname: String, error: String },
    /// The discovery request was answered with this HTTP status.
    DiscoveryStatus { hostname: String, status: u16 },
    /// The node could not be reached for discovery; carries the error.
    Unreachable { hostname: String, error: String },
    /// The remote inbox answered with this HTTP status.
    InboxStatus { status: u16 },
    /// The push itself failed; carries the error.
    DeliveryFailed { error: String },
}

/// The reason text of a delivery failure.
pub open spec fn failure_reason(f: DeliveryFailure) -> Seq<char> {
    match f {
        DeliveryFailure::MissingApiBase { hostname } => framed(
            "discovery document from "@,
            hostname@,
            " missing api_base"@,
        ),
        DeliveryFailure::UnreadableDiscovery { hostname, error } => framed(
            "could not read discovery response from "@,
            hostname@,
            ": "@,
        ) + error@,
        DeliveryFailure::DiscoveryStatus { hostname, status } => framed(
            "discovery request to "@,
            hostname@,
            " returned HTTP "@,
        ) + decimal(status as nat),
        DeliveryFailure::Unreachable { hostname, error } => framed(
            "could not reach "@,
            hostname@,
            " for discovery: "@,
        ) + error@,
        DeliveryFailure::InboxStatus { status } => "remote inbox returned HTTP "@ + decimal(
            status as nat,
        ),
        DeliveryFailure::DeliveryFailed { error } => "delivery failed: "@ + error@,
    }
}

/// The reason text of a delivery failure.
pub fn failure_reason_text(f: &DeliveryFailure) -> (r: String)
    ensures
        r@ == failure_reason(*f),
{
    proof {
        reveal_strlit("discovery document from ");
        reveal_strlit(" missing api_base");
        reveal_strlit("could not read discovery response from ");
        reveal_strlit(": ");
        reveal_strlit("discovery request to ");
        reveal_strlit(" returned HTTP ");
        reveal_strlit("could not reach ");
        reveal_strlit(" for discovery: ");
        reveal_strlit("remote inbox returned HTTP ");
        reveal_strlit("delivery failed: ");
    }
    match f {
        DeliveryFailure::MissingApiBase { hostname } => crate::node::framed_text(
            "discovery document from ",
            hostname.as_str(),
            " missing api_base",
        ),
        DeliveryFailure::UnreadableDiscovery { hostname, error } => {
            let mut r = crate::node::framed_text(
                "could not read discovery response from ",
                hostname.as_str(),
                ": ",
            );
            push_str(&mut r, error.as_str());
            r
        },
        DeliveryFailure::DiscoveryStatus { hostname, status } => {
            let mut r = crate::node::framed_text(
                "discovery request to ",
                hostname.as_str(),
                " returned HTTP ",
            );
            push_decimal(&mut r, *status as u64);
            r
        },
        DeliveryFailure::Unreachable { hostname, error } => {
            let mut r = crate::node::framed_text(
                "could not reach ",
                hostname.as_str(),
                " for discovery: ",
            );
            push_str(&mut r, error.as_str());
            r
        },
        DeliveryFailure::InboxStatus { status } => {
            let mut r = to_owned_string("remote inbox returned HTTP ");
            push_decimal(&mut r, *status as u64);
            r
        },
        DeliveryFailure::DeliveryFailed { error } => {
            let mut r = to_owned_string("delivery failed: ");
            push_str(&mut r, error.as_str());
            r
        },
    }
}

/// The recipient named in a notice about a whole node: `@` + hostname.
pub fn node_recipient(hostname: &str) -> (r: String)
    ensures
        r@ == seq!['@'] + hostname@,
{
    let mut r = to_owned_string("@");
    push_str(&mut r, hostname);
    proof {
        reveal_strlit("@");
    }
    r
}

/// The content of a delivery-failure notice.
pub open spec fn notice_content(id: Seq<char>, recipient: Seq<char>, reason: Seq<char>) -> Seq<
    char,
> {
    "Delivery of unit "@ + id + " to recipient "@ + recipient + " failed: "@ + reason
}

/// The notice a node delivers to the author of `pushed` when pushing it
/// to `recipient` failed for `reason`: a fresh limited `constraint` unit by
/// the node, addressed to the author, that `notifies` the pushed unit.
pub fn failure_notification(
    pushed: &SemanticUnit,
    node_did: &str,
    recipient: &str,
    reason: &str,
) -> (r: SemanticUnit)
    ensures
        crate::external::spec_uuid_version(r@.id) == Some(7usize),
        crate::external::spec_rfc3339_instant(r@.created_at) is Some,
        r@.unit_type == UnitType::Constraint,
        r@.content == notice_content(pushed@.id, recipient@, reason@),
        r@.author == node_did@,
        r@.references == Some(seq![(pushed@.id, RelType::Notifies)]),
        r@.visibility == Some(Visibility::Limited),
        r@.audience == Some(seq![pushed@.author]),
        r@.confidence is None,
        r@.assumptions is None,
        r@.source is None,
        r@.proof is None,
        r@.extensions.len() == 0,
{
    let mut content = to_owned_string("Delivery of unit ");
    push_str(&mut content, pushed.id.as_str());
    push_str(&mut content, " to recipient ");
    push_str(&mut content, recipient);
    push_str(&mut content, " failed: ");
    push_str(&mut content, reason);
    proof {
        reveal_strlit("Delivery of unit ");
        reveal_strlit(" to recipient ");
        reveal_strlit(" failed: ");
    }
    let mut n = SemanticUnit::new(UnitType::Constraint, content.as_str(), node_did);
    let mut refs: Vec<Reference> = Vec::new();
    refs.push(Reference { id: copy_string(&pushed.id), rel: RelType::Notifies });
    let mut audience: Vec<String> = Vec::new();
    audience.push(copy_string(&pushed.author));
    n.references = Some(refs);
    n.visibility = Some(Visibility::Limited);
    n.audience = Some(audience);
    proof {
        assert(crate::types::references_view(n.references->0@) =~= seq![
            (pushed@.id, RelType::Notifies),
        ]);
        assert(strings_view(n.audience->0@) =~= seq![pushed@.author]);
    }
    n
}

/// The host and request target that an outbound push signs, from the
/// parts of the inbox URL: the host, or `localhost` when the URL has none;
/// the path, followed by `?` and the query when it has one.
pub open spec fn request_target_of(parts: (Option<Seq<char>>, Seq<char>, Option<Seq<char>>)) -> (
    Seq<char>,
    Seq<char>,
) {
    (
        match parts.0 {
            Some(h) => h,
            None => "localhost"@,
        },
        match parts.2 {
            Some(q) => parts.1 + "?"@ + q,
            None => parts.1,
        },
    )
}

/// The host and request target of an inbox URL, given its parsed host,
/// path and query.
pub fn request_target(host: Option<String>, path: String, query: Option<String>) -> (r: (
    String,
    String,
))
    ensures
        (r.0@, r.1@) == request_target_of((opt_text(host), path@, opt_text(query))),
{
    let h = match host {
        Some(h) => h,
        None => to_owned_string("localhost"),
    };
    let mut p = path;
    match query {
        Some(q) => {
            push_str(&mut p, "?");
            push_str(&mut p, q.as_str());
        },
        None => {},
    }
    (h, p)
}

/// The host and request target to sign for a push to `inbox_url`, or
/// `None` when the URL does not parse.
pub fn inbox_target(inbox_url: &str) -> (r: Option<(String, String)>)
    ensures
        match r {
            Some((h, p)) => spec_url_parts(inbox_url@) is Some && (h@, p@) == request_target_of(
                spec_url_parts(inbox_url@).unwrap(),
            ),
            None => spec_url_parts(inbox_url@) is None,
        },
{
    match url_parts(inbox_url) {
        Some((host, path, query)) => Some(request_target(host, path, query)),
        None => None,
    }
}

} // verus!
