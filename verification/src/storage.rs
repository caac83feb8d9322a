//! The node's persistence layer: its error type, the unit filter, and the
//! in-memory store.
//!
//! Units are kept in ascending `id` order; since UUIDv7 ids sort in creation
//! order, keyset pagination with `id > cursor` walks them oldest first.
use vstd::prelude::*;
use crate::api::{AgentProfile, AgentView, PeerInfo, PeerView};
use crate::graph::{ref_ids, unit_references};
use crate::keyed::{
    distinct_keys, has_key, keyed_map, lemma_keyed_empty, lemma_keyed_index, lemma_keyed_insert, lemma_keyed_push,
    lemma_keyed_remove, lemma_keyed_update, lemma_sorted_distinct,
    lemma_take_sorted, lemma_text_lt_irreflexive,
    lemma_text_lt_total, lemma_text_lt_transitive, sorted_by_key, str_lt, text_lt,
};
use crate::text::{copy_string, push_str, str_eq, to_owned_string};
use crate::types::{
    effective_visibility, opt_view, strings_view, SemanticUnit, UnitType, UnitView, Visibility,
};

verus! {

/// Why a storage operation failed.
#[derive(Debug, Clone, PartialEq, Eq)]
pub enum StorageError {
    /// The requested item does not exist.
    NotFound,
    /// An item with the same key already exists.
    Conflict(String),
    /// An unexpected failure of the storage backend.
    Internal(String),
}

/// The text of a storage error.
pub open spec fn storage_error_text(e: StorageError) -> Seq<char> {
    match e {
        StorageError::NotFound => "not found"@,
        StorageError::Conflict(m) => "conflict: "@ + m@,
        StorageError::Internal(m) => "internal storage error: "@ + m@,
    }
}

impl StorageError {
    /// The text of the error.
    pub fn message(&self) -> (r: String)
        ensures
            r@ == storage_error_text(*self),
    {
        match self {
            StorageError::NotFound => to_owned_string("not found"),
            StorageError::Conflict(m) => {
                let mut r = to_owned_string("conflict: ");
                push_str(&mut r, m.as_str());
                r
            },
            StorageError::Internal(m) => {
                let mut r = to_owned_string("internal storage error: ");
                push_str(&mut r, m.as_str());
                r
            },
        }
    }
}

/// Which units a listing returns. Handlers fill it from query parameters and
/// from what the caller may see; storage applies it as a data filter.
#[derive(Debug, Clone)]
pub struct UnitFilter {
    /// Only these types; empty means every type.
    pub unit_types: Vec<UnitType>,
    /// Only units whose author is exactly this.
    pub author: Option<String>,
    /// Only units whose `created_at` is not before this text.
    pub since: Option<String>,
    /// Only units whose `id` comes after this cursor.
    pub after: Option<String>,
    /// Page size.
    pub limit: u32,
    /// Only units with one of these visibilities; empty means every one.
    pub visibilities: Vec<Visibility>,
    /// When not empty, `network` units only from these authors.
    pub network_for_authors: Vec<String>,
}

impl Default for UnitFilter {
    fn default() -> (r: UnitFilter)
        ensures
            r.unit_types@.len() == 0,
            r.author is None,
            r.since is None,
            r.after is None,
            r.limit == 0,
            r.visibilities@.len() == 0,
            r.network_for_authors@.len() == 0,
    {
        UnitFilter {
            unit_types: Vec::new(),
            author: None,
            since: None,
            after: None,
            limit: 0,
            visibilities: Vec::new(),
            network_for_authors: Vec::new(),
        }
    }
}

/// Whether the filter `f` lets the unit `u` through.
pub open spec fn filter_accepts(f: UnitFilter, u: UnitView) -> bool {
    let vis = effective_visibility(u.visibility);
    &&& f.unit_types@.len() == 0 || f.unit_types@.contains(u.unit_type)
    &&& opt_view(f.author) matches Some(a) ==> u.author == a
    &&& opt_view(f.since) matches Some(s) ==> !text_lt(u.created_at, s)
    &&& opt_view(f.after) matches Some(a) ==> text_lt(a, u.id)
    &&& f.visibilities@.len() == 0 || f.visibilities@.contains(vis)
    &&& vis == Visibility::Network && f.network_for_authors@.len() > 0 ==> strings_view(
        f.network_for_authors@,
    ).contains(u.author)
}

/// The units of `units` that `f` lets through, in order.
pub open spec fn accepted(f: UnitFilter, units: Seq<UnitView>) -> Seq<UnitView> {
    units.filter(|u: UnitView| filter_accepts(f, u))
}

/// The page that a listing returns: the first `limit` accepted units, and
/// whether more were accepted.
pub open spec fn page_of(all: Seq<UnitView>, limit: nat) -> (Seq<UnitView>, bool) {
    if all.len() > limit {
        (all.take(limit as int), true)
    } else {
        (all, false)
    }
}

/// The key of a unit: its id.
pub open spec fn unit_key() -> spec_fn(UnitView) -> Seq<char> {
    |u: UnitView| u.id
}

/// The key of an agent profile: its DID.
pub open spec fn agent_key() -> spec_fn(AgentView) -> Seq<char> {
    |a: AgentView| a.did
}

/// The key of a peer: its node id.
pub open spec fn peer_key() -> spec_fn(PeerView) -> Seq<char> {
    |p: PeerView| p.node_id
}

/// The key of a text pair: its first text.
pub open spec fn pair_key() -> spec_fn((Seq<char>, Seq<char>)) -> Seq<char> {
    |p: (Seq<char>, Seq<char>)| p.0
}

/// The key of an inbox: the agent's DID.
pub open spec fn inbox_key() -> spec_fn((Seq<char>, Seq<UnitView>)) -> Seq<char> {
    |p: (Seq<char>, Seq<UnitView>)| p.0
}

/// The view of a text pair.
pub open spec fn text_pair(p: (String, String)) -> (Seq<char>, Seq<char>) {
    (p.0@, p.1@)
}

/// The view of a list of units.
pub open spec fn units_view(v: Seq<SemanticUnit>) -> Seq<UnitView> {
    v.map_values(|u: SemanticUnit| u@)
}

/// The view of an inbox entry.
pub open spec fn inbox_view(p: (String, Vec<SemanticUnit>)) -> (Seq<char>, Seq<UnitView>) {
    (p.0@, units_view(p.1@))
}

/// Whether the text pairs are pairwise different.
pub open spec fn distinct_pairs(s: Seq<(Seq<char>, Seq<char>)>) -> bool {
    forall|i: int, j: int| 0 <= i < j < s.len() ==> #[trigger] s[i] != #[trigger] s[j]
}

/// `i` is where a unit with id `id` belongs in `units`: every unit before it
/// has a smaller id, every unit from it on a larger one.
pub open spec fn is_insert_pos(units: Seq<UnitView>, id: Seq<char>, i: int) -> bool {
    &&& 0 <= i <= units.len()
    &&& forall|j: int| 0 <= j < i ==> text_lt(#[trigger] units[j].id, id)
    &&& forall|j: int| i <= j < units.len() ==> text_lt(id, #[trigger] units[j].id)
}

/// The message of a refused duplicate unit.
pub open spec fn unit_conflict_message(id: Seq<char>) -> Seq<char> {
    "unit "@ + id + " already exists"@
}

/// Whether the filter lets the unit through.
pub fn accepts(f: &UnitFilter, u: &SemanticUnit) -> (r: bool)
    ensures
        r == filter_accepts(*f, u@),
{
    let vis = match u.visibility {
        Some(v) => v,
        None => Visibility::Public,
    };
    if f.unit_types.len() > 0 {
        let mut found = false;
        let mut k: usize = 0;
        while k < f.unit_types.len()
            invariant
                k <= f.unit_types@.len(),
                found == exists|m: int| 0 <= m < k && f.unit_types@[m] == u.unit_type,
            decreases f.unit_types@.len() - k,
        {
            if f.unit_types[k] == u.unit_type {
                found = true;
            }
            k = k + 1;
        }
        if !found {
            proof {
                assert(!f.unit_types@.contains(u.unit_type));
            }
            return false;
        }
    }
    match &f.author {
        Some(a) => {
            if !str_eq(u.author.as_str(), a.as_str()) {
                return false;
            }
        },
        None => {},
    }
    match &f.since {
        Some(since) => {
            if str_lt(u.created_at.as_str(), since.as_str()) {
                return false;
            }
        },
        None => {},
    }
    match &f.after {
        Some(after) => {
            if !str_lt(after.as_str(), u.id.as_str()) {
                return false;
            }
        },
        None => {},
    }
    if f.visibilities.len() > 0 {
        let mut found = false;
        let mut k: usize = 0;
        while k < f.visibilities.len()
            invariant
                k <= f.visibilities@.len(),
                found == exists|m: int| 0 <= m < k && f.visibilities@[m] == vis,
            decreases f.visibilities@.len() - k,
        {
            if f.visibilities[k] == vis {
                found = true;
            }
            k = k + 1;
        }
        if !found {
            proof {
                assert(!f.visibilities@.contains(vis));
            }
            return false;
        }
    }
    if vis == Visibility::Network && f.network_for_authors.len() > 0 {
        let ghost names = strings_view(f.network_for_authors@);
        let mut found = false;
        let mut k: usize = 0;
        while k < f.network_for_authors.len()
            invariant
                k <= f.network_for_authors@.len(),
                names == strings_view(f.network_for_authors@),
                found == exists|m: int| 0 <= m < k && names[m] == u.author@,
            decreases f.network_for_authors@.len() - k,
        {
            proof {
                assert(names[k as int] == f.network_for_authors@[k as int]@);
            }
            if str_eq(f.network_for_authors[k].as_str(), u.author.as_str()) {
                found = true;
            }
            k = k + 1;
        }
        if !found {
            proof {
                assert(!names.contains(u.author@));
            }
            return false;
        }
    }
    true
}

/// A copy of a list of units.
pub fn copy_units(v: &Vec<SemanticUnit>) -> (r: Vec<SemanticUnit>)
    ensures
        units_view(r@) == units_view(v@),
{
    let mut r: Vec<SemanticUnit> = Vec::new();
    let mut i: usize = 0;
    while i < v.len()
        invariant
            i <= v@.len(),
            units_view(r@) == units_view(v@).take(i as int),
        decreases v@.len() - i,
    {
        let ghost old_r = r@;
        let d = v[i].duplicate();
        r.push(d);
        proof {
            assert(r@ == old_r.push(d));
            assert(units_view(old_r).len() == i);
            assert forall|j: int| 0 <= j < i + 1 implies #[trigger] units_view(r@)[j] == units_view(
                v@,
            ).take(i as int + 1)[j] by {
                if j < i {
                    assert(units_view(r@)[j] == units_view(old_r)[j]);
                }
            }
            assert(units_view(r@) =~= units_view(v@).take(i as int + 1));
        }
        i = i + 1;
    }
    proof {
        assert(units_view(v@).take(v@.len() as int) =~= units_view(v@));
    }
    r
}

/// The position of the unit with id `id` in a list sorted by id, or the
/// position where it belongs.
fn locate_unit(units: &Vec<SemanticUnit>, id: &str) -> (r: Result<usize, usize>)
    requires
        sorted_by_key(units_view(units@), unit_key()),
    ensures
        match r {
            Ok(i) => i < units@.len() && units_view(units@)[i as int].id == id@,
            Err(i) => is_insert_pos(units_view(units@), id@, i as int) && !has_key(
                units_view(units@),
                unit_key(),
                id@,
            ),
        },
{
    let ghost v = units_view(units@);
    let mut i: usize = 0;
    while i < units.len()
        invariant
            i <= units@.len(),
            v == units_view(units@),
            sorted_by_key(v, unit_key()),
            forall|j: int| 0 <= j < i ==> text_lt(#[trigger] v[j].id, id@),
        decreases units@.len() - i,
    {
        proof {
            assert(v[i as int] == units@[i as int]@);
        }
        if str_eq(units[i].id.as_str(), id) {
            return Ok(i);
        }
        if str_lt(id, units[i].id.as_str()) {
            proof {
                assert forall|j: int| i <= j < v.len() implies text_lt(id@, #[trigger] v[j].id) by {
                    if j > i {
                        assert(text_lt(unit_key()(v[i as int]), unit_key()(v[j])));
                        lemma_text_lt_transitive(id@, v[i as int].id, v[j].id);
                    }
                }
                lemma_no_key(v, id@, i as int);
            }
            return Err(i);
        }
        proof {
            lemma_text_lt_total(v[i as int].id, id@);
        }
        i = i + 1;
    }
    proof {
        lemma_no_key(v, id@, i as int);
    }
    Err(i)
}

/// No unit of `v` has the id `id` when `i` is where `id` belongs.
proof fn lemma_no_key(v: Seq<UnitView>, id: Seq<char>, i: int)
    requires
        is_insert_pos(v, id, i),
    ensures
        !has_key(v, unit_key(), id),
{
    if has_key(v, unit_key(), id) {
        let j = choose|j: int| 0 <= j < v.len() && unit_key()(#[trigger] v[j]) == id;
        lemma_text_lt_irreflexive(id);
        if j < i {
            assert(text_lt(v[j].id, id));
        } else {
            assert(text_lt(id, v[j].id));
        }
    }
}

/// Inserting a unit where its id belongs keeps the ids ascending.
proof fn lemma_insert_sorted(v: Seq<UnitView>, u: UnitView, i: int)
    requires
        sorted_by_key(v, unit_key()),
        is_insert_pos(v, u.id, i),
    ensures
        sorted_by_key(v.insert(i, u), unit_key()),
{
    let w = v.insert(i, u);
    assert forall|a: int, b: int| 0 <= a < b < w.len() implies text_lt(
        unit_key()(#[trigger] w[a]),
        unit_key()(#[trigger] w[b]),
    ) by {
        if a < i && b < i {
            assert(text_lt(unit_key()(v[a]), unit_key()(v[b])));
        } else if a < i && b == i {
        } else if a < i {
            assert(w[b] == v[b - 1]);
            lemma_text_lt_transitive(v[a].id, u.id, v[b - 1].id);
        } else if a == i {
            assert(w[b] == v[b - 1]);
        } else {
            assert(w[a] == v[a - 1]);
            assert(w[b] == v[b - 1]);
            assert(text_lt(unit_key()(v[a - 1]), unit_key()(v[b - 1])));
        }
    }
}

/// The DIDs that `did` follows in the relation `f`.
pub open spec fn followees(f: Set<(Seq<char>, Seq<char>)>, did: Seq<char>) -> Set<Seq<char>> {
    Set::new(|e: Seq<char>| f.contains((did, e)))
}

/// The DIDs that follow `did` in the relation `f`.
pub open spec fn followers_of(f: Set<(Seq<char>, Seq<char>)>, did: Seq<char>) -> Set<Seq<char>> {
    Set::new(|e: Seq<char>| f.contains((e, did)))
}

/// Appending a pair that is not present keeps the pairs distinct and adds
/// it to their set.
proof fn lemma_pairs_push(s: Seq<(Seq<char>, Seq<char>)>, p: (Seq<char>, Seq<char>))
    requires
        distinct_pairs(s),
        !s.contains(p),
    ensures
        distinct_pairs(s.push(p)),
        s.push(p).to_set() == s.to_set().insert(p),
{
    let t = s.push(p);
    assert forall|i: int, j: int| 0 <= i < j < t.len() implies #[trigger] t[i] != #[trigger] t[j] by {
        if j == s.len() {
            assert(s.contains(s[i]));
        }
    }
    assert forall|x: (Seq<char>, Seq<char>)| t.to_set().contains(x) == s.to_set().insert(p).contains(x) by {
        if t.contains(x) {
            let k = choose|k: int| 0 <= k < t.len() && t[k] == x;
            if k < s.len() {
                assert(s[k] == x);
            }
        }
        if s.contains(x) {
            let k = choose|k: int| 0 <= k < s.len() && s[k] == x;
            assert(t[k] == x);
        }
        if x == p {
            assert(t[s.len() as int] == p);
        }
    }
    assert(t.to_set() =~= s.to_set().insert(p));
}

/// Removing the pair at `i` from distinct pairs removes it from their set.
proof fn lemma_pairs_remove(s: Seq<(Seq<char>, Seq<char>)>, i: int)
    requires
        distinct_pairs(s),
        0 <= i < s.len(),
    ensures
        distinct_pairs(s.remove(i)),
        s.remove(i).to_set() == s.to_set().remove(s[i]),
{
    let t = s.remove(i);
    assert forall|a: int, b: int| 0 <= a < b < t.len() implies #[trigger] t[a] != #[trigger] t[b] by {
        let a2 = if a < i { a } else { a + 1 };
        let b2 = if b < i { b } else { b + 1 };
        assert(t[a] == s[a2]);
        assert(t[b] == s[b2]);
    }
    assert forall|x: (Seq<char>, Seq<char>)| t.to_set().contains(x) == s.to_set().remove(s[i]).contains(x) by {
        if t.contains(x) {
            let k = choose|k: int| 0 <= k < t.len() && t[k] == x;
            let k2 = if k < i { k } else { k + 1 };
            assert(t[k] == s[k2]);
            assert(s.contains(x));
            if k2 < i {
                assert(s[k2] != s[i]);
            } else {
                assert(s[i] != s[k2]);
            }
        }
        if s.contains(x) && x != s[i] {
            let k = choose|k: int| 0 <= k < s.len() && s[k] == x;
            let k2 = if k < i { k } else { k - 1 };
            assert(t[k2] == s[k]);
        }
    }
    assert(t.to_set() =~= s.to_set().remove(s[i]));
}

/// The f32 bit pattern `bits` as a number ordered like the float it
/// encodes (negative zero equal to zero).
pub open spec fn reputation_rank(bits: u32) -> int {
    if bits < 0x8000_0000 {
        bits as int + 0x8000_0000
    } else {
        0x8000_0000 - (bits as int - 0x8000_0000)
    }
}

/// Whether the peer `a` is listed before `b`: higher reputation first,
/// then ascending node id.
pub open spec fn peer_before(a: PeerView, b: PeerView) -> bool {
    reputation_rank(a.reputation) > reputation_rank(b.reputation) || (reputation_rank(
        a.reputation,
    ) == reputation_rank(b.reputation) && text_lt(a.node_id, b.node_id))
}

/// Whether `v` is in listing order.
pub open spec fn peers_in_order(v: Seq<PeerView>) -> bool {
    forall|i: int, j: int| 0 <= i < j < v.len() ==> peer_before(#[trigger] v[i], #[trigger] v[j])
}

/// `i` is where the peer `p` belongs in the listing `v`.
pub open spec fn is_peer_pos(v: Seq<PeerView>, p: PeerView, i: int) -> bool {
    &&& 0 <= i <= v.len()
    &&& forall|j: int| 0 <= j < i ==> peer_before(#[trigger] v[j], p)
    &&& forall|j: int| i <= j < v.len() ==> peer_before(p, #[trigger] v[j])
}

/// The listing order is transitive.
proof fn lemma_peer_before_transitive(a: PeerView, b: PeerView, c: PeerView)
    requires
        peer_before(a, b),
        peer_before(b, c),
    ensures
        peer_before(a, c),
{
    if reputation_rank(a.reputation) == reputation_rank(b.reputation) && reputation_rank(
        b.reputation,
    ) == reputation_rank(c.reputation) {
        lemma_text_lt_transitive(a.node_id, b.node_id, c.node_id);
    }
}

/// Inserting a peer where it belongs keeps the listing in order.
proof fn lemma_insert_peer(v: Seq<PeerView>, p: PeerView, i: int)
    requires
        peers_in_order(v),
        is_peer_pos(v, p, i),
    ensures
        peers_in_order(v.insert(i, p)),
{
    let w = v.insert(i, p);
    assert forall|a: int, b: int| 0 <= a < b < w.len() implies peer_before(
        #[trigger] w[a],
        #[trigger] w[b],
    ) by {
        if a < i && b < i {
            assert(peer_before(v[a], v[b]));
        } else if a < i && b == i {
        } else if a < i {
            assert(w[b] == v[b - 1]);
            lemma_peer_before_transitive(v[a], p, v[b - 1]);
        } else if a == i {
            assert(w[b] == v[b - 1]);
        } else {
            assert(w[a] == v[a - 1]);
            assert(w[b] == v[b - 1]);
            assert(peer_before(v[a - 1], v[b - 1]));
        }
    }
}

/// Where the peer `p` belongs in the listing `v`.
fn peer_position(v: &Vec<PeerInfo>, p: &PeerInfo) -> (r: usize)
    requires
        peers_in_order(v@.map_values(|q: PeerInfo| q@)),
        forall|j: int| 0 <= j < v@.len() ==> (#[trigger] v@[j])@.node_id != p@.node_id,
    ensures
        is_peer_pos(v@.map_values(|q: PeerInfo| q@), p@, r as int),
{
    let ghost w = v@.map_values(|q: PeerInfo| q@);
    let mut i: usize = 0;
    while i < v.len()
        invariant
            i <= v@.len(),
            w == v@.map_values(|q: PeerInfo| q@),
            peers_in_order(w),
            forall|j: int| 0 <= j < v@.len() ==> (#[trigger] v@[j])@.node_id != p@.node_id,
            forall|j: int| 0 <= j < i ==> peer_before(#[trigger] w[j], p@),
        decreases v@.len() - i,
    {
        if peer_goes_before(p, &v[i]) {
            proof {
                assert(w[i as int] == v@[i as int]@);
                assert forall|j: int| i <= j < w.len() implies peer_before(p@, #[trigger] w[j]) by {
                    if j > i {
                        assert(peer_before(w[i as int], w[j]));
                        lemma_peer_before_transitive(p@, w[i as int], w[j]);
                    }
                }
            }
            return i;
        }
        proof {
            assert(w[i as int] == v@[i as int]@);
            assert(v@[i as int]@.node_id != p@.node_id);
            lemma_text_lt_total(w[i as int].node_id, p@.node_id);
        }
        i = i + 1;
    }
    i
}

/// Whether the peer `a` is listed before `b`.
fn peer_goes_before(a: &PeerInfo, b: &PeerInfo) -> (r: bool)
    ensures
        r == peer_before(a@, b@),
{
    let ra = rank_of(a.reputation);
    let rb = rank_of(b.reputation);
    ra > rb || (ra == rb && str_lt(a.node_id.as_str(), b.node_id.as_str()))
}

/// The rank of a reputation bit pattern.
pub fn rank_of(bits: u32) -> (r: u64)
    ensures
        r == reputation_rank(bits),
{
    if bits < 0x8000_0000u32 {
        bits as u64 + 0x8000_0000u64
    } else {
        0x8000_0000u64 - (bits as u64 - 0x8000_0000u64)
    }
}

/// The units of an inbox page: those after the cursor, if any.
pub open spec fn after_cursor(units: Seq<UnitView>, after: Option<Seq<char>>) -> Seq<UnitView> {
    match after {
        Some(a) => units.filter(|u: UnitView| text_lt(a, u.id)),
        None => units,
    }
}

/// The accepted units of a sequence in ascending id order are in
/// ascending id order.
proof fn lemma_accepted_sorted(f: UnitFilter, units: Seq<UnitView>)
    requires
        sorted_by_key(units, unit_key()),
    ensures
        sorted_by_key(accepted(f, units), unit_key()),
{
    lemma_filter_sorted(units, |u: UnitView| filter_accepts(f, u));
}

/// The units after a cursor, of a sequence in ascending id order, are in
/// ascending id order.
proof fn lemma_after_cursor_sorted(units: Seq<UnitView>, after: Option<Seq<char>>)
    requires
        sorted_by_key(units, unit_key()),
    ensures
        sorted_by_key(after_cursor(units, after), unit_key()),
{
    if let Some(a) = after {
        lemma_filter_sorted(units, |u: UnitView| text_lt(a, u.id));
    }
}

/// A page of a sequence in ascending id order is in ascending id order.
proof fn lemma_page_sorted(all: Seq<UnitView>, limit: nat)
    requires
        sorted_by_key(all, unit_key()),
    ensures
        sorted_by_key(page_of(all, limit).0, unit_key()),
{
    if all.len() > limit {
        lemma_take_sorted(all, unit_key(), limit as int);
    }
}

/// What every unit a listing returns satisfies, condition by condition:
/// its type is among the requested ones (when any are), its author is the
/// requested one, it was created no earlier than `since`, its id comes
/// after the cursor, its visibility is among the requested ones (when any
/// are), and a `network` unit is by one of the allowed authors (when any
/// are named).
pub open spec fn listing_conditions(f: UnitFilter, u: UnitView) -> bool {
    &&& f.unit_types@.len() > 0 ==> f.unit_types@.contains(u.unit_type)
    &&& match opt_view(f.author) {
        Some(a) => u.author == a,
        None => true,
    }
    &&& match opt_view(f.since) {
        Some(s) => !text_lt(u.created_at, s),
        None => true,
    }
    &&& match opt_view(f.after) {
        Some(a) => text_lt(a, u.id),
        None => true,
    }
    &&& f.visibilities@.len() > 0 ==> f.visibilities@.contains(effective_visibility(u.visibility))
    &&& (effective_visibility(u.visibility) == Visibility::Network && f.network_for_authors@.len()
        > 0) ==> strings_view(f.network_for_authors@).contains(u.author)
}

/// A listing returns at most `limit` units, each one of the listed units
/// and each meeting every condition of the filter.
#[verifier::spinoff_prover]
pub proof fn lemma_page_meets_filter(f: UnitFilter, units: Seq<UnitView>)
    ensures
        page_of(accepted(f, units), f.limit as nat).0.len() <= f.limit,
        forall|i: int|
            0 <= i < page_of(accepted(f, units), f.limit as nat).0.len() ==> units.contains(
                #[trigger] page_of(accepted(f, units), f.limit as nat).0[i],
            ) && listing_conditions(f, page_of(accepted(f, units), f.limit as nat).0[i]),
{
    let all = accepted(f, units);
    let page = page_of(all, f.limit as nat).0;
    assert forall|i: int| 0 <= i < page.len() implies units.contains(#[trigger] page[i])
        && listing_conditions(f, page[i]) by {
        assert(page[i] == all[i]);
        units.lemma_filter_pred(|u: UnitView| filter_accepts(f, u), i);
        assert(all.contains(all[i]));
        units.lemma_filter_contains_rev(|u: UnitView| filter_accepts(f, u), all[i]);
    }
}

/// The page that `filter` takes from `units`, in their order: at most
/// `filter.limit` of the units it lets through, and whether more follow.
/// Every store lists its units this way.
#[verifier::spinoff_prover]
pub fn page_of_units(units: &Vec<SemanticUnit>, filter: &UnitFilter) -> (r: (Vec<SemanticUnit>, bool))
    ensures
        (units_view(r.0@), r.1) == page_of(accepted(*filter, units_view(units@)), filter.limit as nat),
        sorted_by_key(units_view(units@), unit_key()) ==> sorted_by_key(units_view(r.0@), unit_key()),
        r.0@.len() <= filter.limit,
        forall|i: int|
            0 <= i < r.0@.len() ==> units_view(units@).contains(#[trigger] r.0@[i]@)
                && listing_conditions(*filter, r.0@[i]@),
{
    proof {
        lemma_page_meets_filter(*filter, units_view(units@));
        if sorted_by_key(units_view(units@), unit_key()) {
            lemma_accepted_sorted(*filter, units_view(units@));
            lemma_page_sorted(accepted(*filter, units_view(units@)), filter.limit as nat);
        }
    }
    let ghost v = units_view(units@);
    let mut out: Vec<SemanticUnit> = Vec::new();
    let mut i: usize = 0;
    while i < units.len()
        invariant
            i <= units@.len(),
            v == units_view(units@),
            units_view(out@) == accepted(*filter, v.take(i as int)),
        decreases units@.len() - i,
    {
        proof {
            reveal_with_fuel(Seq::filter, 1);
            assert(v.take(i as int + 1).drop_last() =~= v.take(i as int));
            assert(v[i as int] == units@[i as int]@);
        }
        if accepts(filter, &units[i]) {
            out.push(units[i].duplicate());
        }
        proof {
            assert(units_view(out@) =~= accepted(*filter, v.take(i as int + 1)));
        }
        i = i + 1;
    }
    proof {
        assert(v.take(v.len() as int) =~= v);
    }
    let limit = filter.limit as usize;
    let more = if out.len() > limit {
        let ghost all = units_view(out@);
        out.truncate(limit);
        proof {
            assert(units_view(out@) =~= all.take(limit as int));
        }
        true
    } else {
        false
    };
    proof {
        let page = page_of(accepted(*filter, v), filter.limit as nat).0;
        assert(units_view(out@) == page);
        assert forall|i: int| 0 <= i < out@.len() implies v.contains(#[trigger] out@[i]@)
            && listing_conditions(*filter, out@[i]@) by {
            assert(units_view(out@)[i] == out@[i]@);
            assert(page[i] == out@[i]@);
        }
    }
    (out, more)
}

/// What storing the peer `p` makes of the peer map: a known peer keeps its
/// reputation and takes the new API base and `last_seen`; a new peer is
/// stored as given.
pub open spec fn peer_upserted(peers: Map<Seq<char>, PeerView>, p: PeerView) -> Map<
    Seq<char>,
    PeerView,
> {
    if peers.contains_key(p.node_id) {
        peers.insert(
            p.node_id,
            PeerView { api_base: p.api_base, last_seen: p.last_seen, ..peers[p.node_id] },
        )
    } else {
        peers.insert(p.node_id, p)
    }
}

/// The text map of distinct-keyed text pairs.
pub open spec fn text_map(v: Seq<(String, String)>) -> Map<Seq<char>, Seq<char>> {
    keyed_map(v.map_values(|p: (String, String)| text_pair(p)), pair_key()).map_values(
        |p: (Seq<char>, Seq<char>)| p.1,
    )
}

/// The position of the pair with key `k`, if any.
fn find_pair(v: &Vec<(String, String)>, k: &str) -> (r: Option<usize>)
    ensures
        match r {
            Some(i) => i < v@.len() && v@[i as int].0@ == k@,
            None => !has_key(v@.map_values(|p: (String, String)| text_pair(p)), pair_key(), k@),
        },
{
    let ghost w = v@.map_values(|p: (String, String)| text_pair(p));
    let mut i: usize = 0;
    while i < v.len()
        invariant
            i <= v@.len(),
            w == v@.map_values(|p: (String, String)| text_pair(p)),
            forall|j: int| 0 <= j < i ==> (#[trigger] w[j]).0 != k@,
        decreases v@.len() - i,
    {
        proof {
            assert(w[i as int] == text_pair(v@[i as int]));
        }
        if str_eq(v[i].0.as_str(), k) {
            return Some(i);
        }
        i = i + 1;
    }
    None
}

/// The value under `k` among distinct-keyed text pairs.
fn pair_get(v: &Vec<(String, String)>, k: &str) -> (r: Option<String>)
    requires
        distinct_keys(v@.map_values(|p: (String, String)| text_pair(p)), pair_key()),
    ensures
        match r {
            Some(x) => text_map(v@).contains_key(k@) && x@ == text_map(v@)[k@],
            None => !text_map(v@).contains_key(k@),
        },
{
    match find_pair(v, k) {
        Some(i) => {
            proof {
                lemma_keyed_index(v@.map_values(|p: (String, String)| text_pair(p)), pair_key(), i as int);
            }
            Some(copy_string(&v[i].1))
        },
        None => None,
    }
}

/// Sets the value under `k` among distinct-keyed text pairs.
fn pair_set(v: &mut Vec<(String, String)>, k: &str, x: &str)
    requires
        distinct_keys(old(v)@.map_values(|p: (String, String)| text_pair(p)), pair_key()),
    ensures
        distinct_keys(final(v)@.map_values(|p: (String, String)| text_pair(p)), pair_key()),
        text_map(final(v)@) == text_map(old(v)@).insert(k@, x@),
{
    let ghost w = v@.map_values(|p: (String, String)| text_pair(p));
    let entry = (to_owned_string(k), to_owned_string(x));
    proof {
        assert(text_pair(entry) == (k@, x@));
    }
    match find_pair(v, k) {
        Some(i) => {
            v.set(i, entry);
            proof {
                assert(v@.map_values(|p: (String, String)| text_pair(p)) =~= w.update(i as int, (k@, x@)));
                lemma_keyed_update(w, pair_key(), i as int, (k@, x@));
            }
        },
        None => {
            v.push(entry);
            proof {
                assert(v@.map_values(|p: (String, String)| text_pair(p)) =~= w.push((k@, x@)));
                lemma_keyed_push(w, pair_key(), (k@, x@));
            }
        },
    }
    proof {
        let km = keyed_map(w, pair_key());
        assert(km.insert(k@, (k@, x@)).map_values(|p: (Seq<char>, Seq<char>)| p.1) =~= km.map_values(
            |p: (Seq<char>, Seq<char>)| p.1,
        ).insert(k@, x@));
    }
}

/// What delivering `u` makes of the inbox `before`: unchanged when a unit
/// with its id is there, otherwise `u` inserted where its id belongs.
pub open spec fn delivered_into(before: Seq<UnitView>, u: UnitView, after: Seq<UnitView>) -> bool {
    if has_key(before, unit_key(), u.id) {
        after == before
    } else {
        exists|i: int| is_insert_pos(before, u.id, i) && after == before.insert(i, u)
    }
}

/// The view of an optional cursor.
pub open spec fn opt_str_view(o: Option<&str>) -> Option<Seq<char>> {
    match o {
        Some(s) => Some(s@),
        None => None,
    }
}

/// A thread-unaware, in-memory store. Nothing survives the process.
pub struct MemoryStorage {
    units: Vec<SemanticUnit>,
    agents: Vec<AgentProfile>,
    follows: Vec<(String, String)>,
    peers: Vec<PeerInfo>,
    cursors: Vec<(String, String)>,
    node_config: Vec<(String, String)>,
    inbox: Vec<(String, Vec<SemanticUnit>)>,
}

impl MemoryStorage {
    #[verifier::type_invariant]
    closed spec fn wf(self) -> bool {
        &&& sorted_by_key(units_view(self.units@), unit_key())
        &&& distinct_keys(self.agents@.map_values(|a: AgentProfile| a@), agent_key())
        &&& distinct_pairs(self.follows@.map_values(|p: (String, String)| text_pair(p)))
        &&& distinct_keys(self.peers@.map_values(|p: PeerInfo| p@), peer_key())
        &&& distinct_keys(self.cursors@.map_values(|p: (String, String)| text_pair(p)), pair_key())
        &&& distinct_keys(
            self.node_config@.map_values(|p: (String, String)| text_pair(p)),
            pair_key(),
        )
        &&& distinct_keys(
            self.inbox@.map_values(|p: (String, Vec<SemanticUnit>)| inbox_view(p)),
            inbox_key(),
        )
        &&& forall|i: int|
            0 <= i < self.inbox@.len() ==> sorted_by_key(
                units_view(#[trigger] self.inbox@[i].1@),
                unit_key(),
            )
    }

}

/// The abstract content of a store.
pub struct StorageView {
    /// The units, in ascending id order.
    pub units: Seq<UnitView>,
    /// The registered agents, by DID.
    pub agents: Map<Seq<char>, AgentView>,
    /// The follow relation, as `(follower, followee)` pairs.
    pub follows: Set<(Seq<char>, Seq<char>)>,
    /// The known peers, by node id.
    pub peers: Map<Seq<char>, PeerView>,
    /// The sync cursors, by peer URL.
    pub cursors: Map<Seq<char>, Seq<char>>,
    /// The node configuration values, by key.
    pub config: Map<Seq<char>, Seq<char>>,
    /// The inboxes, by agent DID, each in ascending unit id order.
    pub inbox: Map<Seq<char>, Seq<UnitView>>,
}

/// The content of a new store: nothing.
pub open spec fn empty_store() -> StorageView {
    StorageView {
        units: Seq::empty(),
        agents: Map::empty(),
        follows: Set::empty(),
        peers: Map::empty(),
        cursors: Map::empty(),
        config: Map::empty(),
        inbox: Map::empty(),
    }
}

impl View for MemoryStorage {
    type V = StorageView;

    closed spec fn view(&self) -> StorageView {
        StorageView {
            units: units_view(self.units@),
            agents: keyed_map(self.agents@.map_values(|a: AgentProfile| a@), agent_key()),
            follows: self.follows@.map_values(|p: (String, String)| text_pair(p)).to_set(),
            peers: keyed_map(self.peers@.map_values(|p: PeerInfo| p@), peer_key()),
            cursors: keyed_map(
                self.cursors@.map_values(|p: (String, String)| text_pair(p)),
                pair_key(),
            ).map_values(|p: (Seq<char>, Seq<char>)| p.1),
            config: keyed_map(
                self.node_config@.map_values(|p: (String, String)| text_pair(p)),
                pair_key(),
            ).map_values(|p: (Seq<char>, Seq<char>)| p.1),
            inbox: keyed_map(
                self.inbox@.map_values(|p: (String, Vec<SemanticUnit>)| inbox_view(p)),
                inbox_key(),
            ).map_values(|p: (Seq<char>, Seq<UnitView>)| p.1),
        }
    }
}

impl MemoryStorage {
    /// The inbox of `agent` in `v`: its units in ascending id order, or none.
    pub open spec fn inbox_of(v: StorageView, agent: Seq<char>) -> Seq<UnitView> {
        if v.inbox.contains_key(agent) {
            v.inbox[agent]
        } else {
            Seq::empty()
        }
    }

    /// An empty store.
    pub fn new() -> (r: MemoryStorage)
        ensures
            r@ == empty_store(),
    {
        let r = MemoryStorage {
            units: Vec::new(),
            agents: Vec::new(),
            follows: Vec::new(),
            peers: Vec::new(),
            cursors: Vec::new(),
            node_config: Vec::new(),
            inbox: Vec::new(),
        };
        proof {
            lemma_keyed_empty(agent_key());
            lemma_keyed_empty(peer_key());
            lemma_keyed_empty(pair_key());
            lemma_keyed_empty(inbox_key());
            assert(r.agents@.map_values(|a: AgentProfile| a@) =~= Seq::<AgentView>::empty());
            assert(r.peers@.map_values(|p: PeerInfo| p@) =~= Seq::<PeerView>::empty());
            assert(r.cursors@.map_values(|p: (String, String)| text_pair(p)) =~= Seq::<
                (Seq<char>, Seq<char>),
            >::empty());
            assert(r.node_config@.map_values(|p: (String, String)| text_pair(p)) =~= Seq::<
                (Seq<char>, Seq<char>),
            >::empty());
            assert(r.inbox@.map_values(|p: (String, Vec<SemanticUnit>)| inbox_view(p)) =~= Seq::<
                (Seq<char>, Seq<UnitView>),
            >::empty());
            assert(r.follows@.map_values(|p: (String, String)| text_pair(p)) =~= Seq::<
                (Seq<char>, Seq<char>),
            >::empty());
            assert(r@.units =~= Seq::<UnitView>::empty());
            assert(r@.follows =~= Set::<(Seq<char>, Seq<char>)>::empty());
            assert(r@.cursors =~= Map::<Seq<char>, Seq<char>>::empty());
            assert(r@.config =~= Map::<Seq<char>, Seq<char>>::empty());
            assert(r@.inbox =~= Map::<Seq<char>, Seq<UnitView>>::empty());
        }
        r
    }

    /// Stores a unit. A unit whose id is already stored is refused with
    /// `Conflict`, and nothing changes.
    pub fn put_unit(&mut self, unit: &SemanticUnit) -> (r: Result<(), StorageError>)
        ensures
            has_key(old(self)@.units, unit_key(), unit@.id) ==> (r matches Err(
                StorageError::Conflict(m),
            ) && m@ == unit_conflict_message(unit@.id)) && final(self)@ == old(self)@,
            !has_key(old(self)@.units, unit_key(), unit@.id) ==> r is Ok && exists|i: int|
                is_insert_pos(old(self)@.units, unit@.id, i) && final(self)@ == (StorageView {
                    units: old(self)@.units.insert(i, unit@),
                    ..old(self)@
                }),
    {
        proof {
            use_type_invariant(&*self);
        }
        match locate_unit(&self.units, unit.id.as_str()) {
            Ok(_) => {
                let mut m = to_owned_string("unit ");
                push_str(&mut m, unit.id.as_str());
                push_str(&mut m, " already exists");
                Err(StorageError::Conflict(m))
            },
            Err(i) => {
                let ghost v = units_view(self.units@);
                let mut units: Vec<SemanticUnit> = Vec::new();
                std::mem::swap(&mut units, &mut self.units);
                units.insert(i, unit.duplicate());
                proof {
                    assert(units_view(units@) =~= v.insert(i as int, unit@));
                    lemma_insert_sorted(v, unit@, i as int);
                }
                self.units = units;
                Ok(())
            },
        }
    }

    /// The unit with id `id`, if stored.
    pub fn get_unit(&self, id: &str) -> (r: Option<SemanticUnit>)
        ensures
            match r {
                Some(u) => keyed_map(self@.units, unit_key()).contains_key(id@) && u@ == keyed_map(
                    self@.units,
                    unit_key(),
                )[id@],
                None => !keyed_map(self@.units, unit_key()).contains_key(id@),
            },
    {
        proof {
            use_type_invariant(self);
            lemma_sorted_distinct(units_view(self.units@), unit_key());
        }
        match locate_unit(&self.units, id) {
            Ok(i) => {
                proof {
                    lemma_keyed_index(units_view(self.units@), unit_key(), i as int);
                }
                Some(self.units[i].duplicate())
            },
            Err(_) => None,
        }
    }

    /// A page of the units that `filter` lets through, in ascending id
    /// order: at most `filter.limit` of them, and whether more follow.
    pub fn list_units(&self, filter: &UnitFilter) -> (r: (Vec<SemanticUnit>, bool))
        ensures
            (units_view(r.0@), r.1) == page_of(accepted(*filter, self@.units), filter.limit as nat),
            sorted_by_key(units_view(r.0@), unit_key()),
            r.0@.len() <= filter.limit,
            forall|i: int|
                0 <= i < r.0@.len() ==> self@.units.contains(#[trigger] r.0@[i]@) && listing_conditions(
                    *filter,
                    r.0@[i]@,
                ),
    {
        proof {
            use_type_invariant(self);
            lemma_accepted_sorted(*filter, self@.units);
            lemma_page_sorted(accepted(*filter, self@.units), filter.limit as nat);
        }
        page_of_units(&self.units, filter)
    }

    /// The units that reference `id`, in ascending id order.
    pub fn get_referencing_units(&self, id: &str) -> (r: Vec<SemanticUnit>)
        ensures
            units_view(r@) == self@.units.filter(|u: UnitView| ref_ids(u).contains(id@)),
    {
        let ghost v = units_view(self.units@);
        let mut out: Vec<SemanticUnit> = Vec::new();
        let mut i: usize = 0;
        while i < self.units.len()
            invariant
                i <= self.units@.len(),
                v == units_view(self.units@),
                units_view(out@) == v.take(i as int).filter(
                    |u: UnitView| ref_ids(u).contains(id@),
                ),
            decreases self.units@.len() - i,
        {
            proof {
                reveal_with_fuel(Seq::filter, 1);
                assert(v.take(i as int + 1).drop_last() =~= v.take(i as int));
                assert(v[i as int] == self.units@[i as int]@);
            }
            if unit_references(&self.units[i], id) {
                out.push(self.units[i].duplicate());
            }
            proof {
                assert(units_view(out@) =~= v.take(i as int + 1).filter(
                    |u: UnitView| ref_ids(u).contains(id@),
                ));
            }
            i = i + 1;
        }
        proof {
            assert(v.take(v.len() as int) =~= v);
        }
        out
    }

    /// The position of the agent with DID `did`, if registered.
    fn find_agent(&self, did: &str) -> (r: Option<usize>)
        ensures
            match r {
                Some(i) => i < self.agents@.len() && self.agents@[i as int]@.did == did@,
                None => !has_key(self.agents@.map_values(|a: AgentProfile| a@), agent_key(), did@),
            },
    {
        let ghost v = self.agents@.map_values(|a: AgentProfile| a@);
        let mut i: usize = 0;
        while i < self.agents.len()
            invariant
                i <= self.agents@.len(),
                v == self.agents@.map_values(|a: AgentProfile| a@),
                forall|j: int| 0 <= j < i ==> (#[trigger] v[j]).did != did@,
            decreases self.agents@.len() - i,
        {
            if str_eq(self.agents[i].did.as_str(), did) {
                return Some(i);
            }
            i = i + 1;
        }
        None
    }

    /// Registers an agent, replacing any profile with the same DID.
    pub fn put_agent(&mut self, profile: &AgentProfile)
        ensures
            final(self)@ == (StorageView {
                agents: old(self)@.agents.insert(profile@.did, profile@),
                ..old(self)@
            }),
    {
        proof {
            use_type_invariant(&*self);
        }
        let ghost v = self.agents@.map_values(|a: AgentProfile| a@);
        let found = self.find_agent(profile.did.as_str());
        let mut agents: Vec<AgentProfile> = Vec::new();
        std::mem::swap(&mut agents, &mut self.agents);
        match found {
            Some(i) => {
                agents.set(i, profile.duplicate());
                proof {
                    assert(agents@.map_values(|a: AgentProfile| a@) =~= v.update(i as int, profile@));
                    lemma_keyed_update(v, agent_key(), i as int, profile@);
                }
            },
            None => {
                agents.push(profile.duplicate());
                proof {
                    assert(agents@.map_values(|a: AgentProfile| a@) =~= v.push(profile@));
                    lemma_keyed_push(v, agent_key(), profile@);
                }
            },
        }
        self.agents = agents;
    }

    /// The profile of the agent with DID `did`, if registered.
    pub fn get_agent(&self, did: &str) -> (r: Option<AgentProfile>)
        ensures
            match r {
                Some(a) => self@.agents.contains_key(did@) && a@ == self@.agents[did@],
                None => !self@.agents.contains_key(did@),
            },
    {
        proof {
            use_type_invariant(self);
        }
        match self.find_agent(did) {
            Some(i) => {
                proof {
                    lemma_keyed_index(self.agents@.map_values(|a: AgentProfile| a@), agent_key(), i as int);
                }
                Some(self.agents[i].duplicate())
            },
            None => None,
        }
    }

    /// Every registered profile, each once.
    pub fn list_agents(&self) -> (r: Vec<AgentProfile>)
        ensures
            distinct_keys(r@.map_values(|a: AgentProfile| a@), agent_key()),
            keyed_map(r@.map_values(|a: AgentProfile| a@), agent_key()) == self@.agents,
    {
        proof {
            use_type_invariant(self);
        }
        let ghost v = self.agents@.map_values(|a: AgentProfile| a@);
        let mut out: Vec<AgentProfile> = Vec::new();
        let mut i: usize = 0;
        while i < self.agents.len()
            invariant
                i <= self.agents@.len(),
                v == self.agents@.map_values(|a: AgentProfile| a@),
                out@.len() == i,
                out@.map_values(|a: AgentProfile| a@) == v.take(i as int),
            decreases self.agents@.len() - i,
        {
            let ghost old_out = out@;
            let d = self.agents[i].duplicate();
            out.push(d);
            proof {
                assert(out@ == old_out.push(d));
                let ov = out@.map_values(|a: AgentProfile| a@);
                assert forall|j: int| 0 <= j < i + 1 implies #[trigger] ov[j] == v.take(
                    i as int + 1,
                )[j] by {
                    if j < i {
                        assert(out@[j] == old_out[j]);
                        assert(old_out.map_values(|a: AgentProfile| a@)[j] == v[j]);
                    }
                }
                assert(out@.map_values(|a: AgentProfile| a@) =~= v.take(i as int + 1));
            }
            i = i + 1;
        }
        proof {
            assert(v.take(v.len() as int) =~= v);
        }
        out
    }

    /// Sets the reputation of a registered agent; `NotFound` when the DID is
    /// not registered.
    pub fn update_agent_reputation(&mut self, did: &str, reputation: u32) -> (r: Result<
        (),
        StorageError,
    >)
        ensures
            old(self)@.agents.contains_key(did@) ==> r is Ok && final(self)@ == (StorageView {
                agents: old(self)@.agents.insert(
                    did@,
                    AgentView { reputation, ..old(self)@.agents[did@] },
                ),
                ..old(self)@
            }),
            !old(self)@.agents.contains_key(did@) ==> r == Err::<(), StorageError>(
                StorageError::NotFound,
            ) && final(self)@ == old(self)@,
    {
        proof {
            use_type_invariant(&*self);
        }
        let ghost v = self.agents@.map_values(|a: AgentProfile| a@);
        match self.find_agent(did) {
            Some(i) => {
                proof {
                    lemma_keyed_index(v, agent_key(), i as int);
                }
                let mut updated = self.agents[i].duplicate();
                updated.reputation = reputation;
                let mut agents: Vec<AgentProfile> = Vec::new();
                std::mem::swap(&mut agents, &mut self.agents);
                agents.set(i, updated);
                proof {
                    assert(agents@.map_values(|a: AgentProfile| a@) =~= v.update(i as int, updated@));
                    lemma_keyed_update(v, agent_key(), i as int, updated@);
                }
                self.agents = agents;
                Ok(())
            },
            None => Err(StorageError::NotFound),
        }
    }

    /// Deregisters an agent and purges its inbox; `NotFound` when the DID is
    /// not registered.
    pub fn delete_agent(&mut self, did: &str) -> (r: Result<(), StorageError>)
        ensures
            old(self)@.agents.contains_key(did@) ==> r is Ok && final(self)@ == (StorageView {
                agents: old(self)@.agents.remove(did@),
                inbox: old(self)@.inbox.remove(did@),
                ..old(self)@
            }),
            !old(self)@.agents.contains_key(did@) ==> r == Err::<(), StorageError>(
                StorageError::NotFound,
            ) && final(self)@ == old(self)@,
    {
        proof {
            use_type_invariant(&*self);
        }
        let ghost v = self.agents@.map_values(|a: AgentProfile| a@);
        match self.find_agent(did) {
            Some(i) => {
                let mut agents: Vec<AgentProfile> = Vec::new();
                std::mem::swap(&mut agents, &mut self.agents);
                agents.remove(i);
                proof {
                    assert(agents@.map_values(|a: AgentProfile| a@) =~= v.remove(i as int));
                    lemma_keyed_remove(v, agent_key(), i as int);
                }
                self.agents = agents;
                self.purge_inbox(did);
                Ok(())
            },
            None => Err(StorageError::NotFound),
        }
    }

    /// The position of the inbox of `agent`, if it has one.
    fn find_inbox(&self, agent: &str) -> (r: Option<usize>)
        ensures
            match r {
                Some(i) => i < self.inbox@.len() && self.inbox@[i as int].0@ == agent@,
                None => !has_key(
                    self.inbox@.map_values(|p: (String, Vec<SemanticUnit>)| inbox_view(p)),
                    inbox_key(),
                    agent@,
                ),
            },
    {
        let ghost v = self.inbox@.map_values(|p: (String, Vec<SemanticUnit>)| inbox_view(p));
        let mut i: usize = 0;
        while i < self.inbox.len()
            invariant
                i <= self.inbox@.len(),
                v == self.inbox@.map_values(|p: (String, Vec<SemanticUnit>)| inbox_view(p)),
                forall|j: int| 0 <= j < i ==> (#[trigger] v[j]).0 != agent@,
            decreases self.inbox@.len() - i,
        {
            if str_eq(self.inbox[i].0.as_str(), agent) {
                return Some(i);
            }
            i = i + 1;
        }
        None
    }

    /// Removes the inbox of `agent`, if any.
    fn purge_inbox(&mut self, agent: &str)
        ensures
            final(self)@ == (StorageView { inbox: old(self)@.inbox.remove(agent@), ..old(self)@ }),
    {
        proof {
            use_type_invariant(&*self);
        }
        let ghost v = self.inbox@.map_values(|p: (String, Vec<SemanticUnit>)| inbox_view(p));
        match self.find_inbox(agent) {
            Some(i) => {
                let mut inbox: Vec<(String, Vec<SemanticUnit>)> = Vec::new();
                std::mem::swap(&mut inbox, &mut self.inbox);
                let ghost before = inbox@;
                inbox.remove(i);
                proof {
                    assert(inbox@.map_values(|p: (String, Vec<SemanticUnit>)| inbox_view(p))
                        =~= v.remove(i as int));
                    lemma_keyed_remove(v, inbox_key(), i as int);
                    assert forall|j: int| 0 <= j < inbox@.len() implies sorted_by_key(
                        units_view(#[trigger] inbox@[j].1@),
                        unit_key(),
                    ) by {
                        if j < i {
                            assert(inbox@[j] == before[j]);
                        } else {
                            assert(inbox@[j] == before[j + 1]);
                        }
                    }
                    let km = keyed_map(v, inbox_key());
                    assert(km.remove(agent@).map_values(|p: (Seq<char>, Seq<UnitView>)| p.1)
                        =~= km.map_values(|p: (Seq<char>, Seq<UnitView>)| p.1).remove(agent@));
                }
                self.inbox = inbox;
            },
            None => {
                proof {
                    let km = keyed_map(v, inbox_key());
                    assert(km.map_values(|p: (Seq<char>, Seq<UnitView>)| p.1).remove(agent@)
                        =~= km.map_values(|p: (Seq<char>, Seq<UnitView>)| p.1));
                }
            },
        }
    }

    /// The position of the follow pair `(follower, followee)`, if stored.
    fn find_follow(&self, follower: &str, followee: &str) -> (r: Option<usize>)
        ensures
            match r {
                Some(i) => i < self.follows@.len() && text_pair(self.follows@[i as int]) == (
                    follower@,
                    followee@,
                ),
                None => !self.follows@.map_values(|p: (String, String)| text_pair(p)).contains(
                    (follower@, followee@),
                ),
            },
    {
        let ghost v = self.follows@.map_values(|p: (String, String)| text_pair(p));
        let mut i: usize = 0;
        while i < self.follows.len()
            invariant
                i <= self.follows@.len(),
                v == self.follows@.map_values(|p: (String, String)| text_pair(p)),
                forall|j: int| 0 <= j < i ==> #[trigger] v[j] != (follower@, followee@),
            decreases self.follows@.len() - i,
        {
            proof {
                assert(v[i as int] == text_pair(self.follows@[i as int]));
            }
            if str_eq(self.follows[i].0.as_str(), follower) && str_eq(
                self.follows[i].1.as_str(),
                followee,
            ) {
                return Some(i);
            }
            i = i + 1;
        }
        None
    }

    /// Records that `follower` follows `followee`; idempotent.
    pub fn add_follow(&mut self, follower: &str, followee: &str)
        ensures
            final(self)@ == (StorageView {
                follows: old(self)@.follows.insert((follower@, followee@)),
                ..old(self)@
            }),
    {
        proof {
            use_type_invariant(&*self);
        }
        let ghost v = self.follows@.map_values(|p: (String, String)| text_pair(p));
        match self.find_follow(follower, followee) {
            Some(i) => {
                proof {
                    assert(v[i as int] == (follower@, followee@));
                    assert(v.to_set().contains((follower@, followee@)));
                    assert(v.to_set().insert((follower@, followee@)) =~= v.to_set());
                }
            },
            None => {
                let mut follows: Vec<(String, String)> = Vec::new();
                std::mem::swap(&mut follows, &mut self.follows);
                follows.push((to_owned_string(follower), to_owned_string(followee)));
                proof {
                    assert(follows@.map_values(|p: (String, String)| text_pair(p)) =~= v.push(
                        (follower@, followee@),
                    ));
                    lemma_pairs_push(v, (follower@, followee@));
                }
                self.follows = follows;
            },
        }
    }

    /// Removes the follow pair `(follower, followee)`; idempotent.
    pub fn remove_follow(&mut self, follower: &str, followee: &str)
        ensures
            final(self)@ == (StorageView {
                follows: old(self)@.follows.remove((follower@, followee@)),
                ..old(self)@
            }),
    {
        proof {
            use_type_invariant(&*self);
        }
        let ghost v = self.follows@.map_values(|p: (String, String)| text_pair(p));
        match self.find_follow(follower, followee) {
            Some(i) => {
                let mut follows: Vec<(String, String)> = Vec::new();
                std::mem::swap(&mut follows, &mut self.follows);
                follows.remove(i);
                proof {
                    assert(follows@.map_values(|p: (String, String)| text_pair(p)) =~= v.remove(
                        i as int,
                    ));
                    assert(v[i as int] == (follower@, followee@));
                    lemma_pairs_remove(v, i as int);
                }
                self.follows = follows;
            },
            None => {
                proof {
                    assert(v.to_set().remove((follower@, followee@)) =~= v.to_set());
                }
            },
        }
    }

    /// Whether `follower` follows `followee`.
    pub fn is_following(&self, follower: &str, followee: &str) -> (r: bool)
        ensures
            r == self@.follows.contains((follower@, followee@)),
    {
        let ghost v = self.follows@.map_values(|p: (String, String)| text_pair(p));
        match self.find_follow(follower, followee) {
            Some(i) => {
                proof {
                    assert(v[i as int] == (follower@, followee@));
                }
                true
            },
            None => false,
        }
    }

    /// The DIDs on one side of the follow pairs whose other side is `did`:
    /// the followees of `did` when `as_follower`, else its followers.
    #[verifier::loop_isolation(false)]
    fn follow_side(&self, did: &str, as_follower: bool) -> (r: Vec<String>)
        ensures
            strings_view(r@).no_duplicates(),
            as_follower ==> strings_view(r@).to_set() == followees(self@.follows, did@),
            !as_follower ==> strings_view(r@).to_set() == followers_of(self@.follows, did@),
    {
        proof {
            use_type_invariant(self);
        }
        let ghost v = self.follows@.map_values(|p: (String, String)| text_pair(p));
        let ghost want = |q: (Seq<char>, Seq<char>)|
            if as_follower {
                q.0 == did@
            } else {
                q.1 == did@
            };
        let ghost other = |q: (Seq<char>, Seq<char>)|
            if as_follower {
                q.1
            } else {
                q.0
            };
        let mut out: Vec<String> = Vec::new();
        let mut i: usize = 0;
        while i < self.follows.len()
            invariant
                i <= self.follows@.len(),
                v == self.follows@.map_values(|p: (String, String)| text_pair(p)),
                distinct_pairs(v),
                strings_view(out@).no_duplicates(),
                forall|x: Seq<char>|
                    strings_view(out@).contains(x) <==> exists|j: int|
                        0 <= j < i && want(#[trigger] v[j]) && other(v[j]) == x,
            decreases self.follows@.len() - i,
        {
            proof {
                assert(v[i as int] == text_pair(self.follows@[i as int]));
            }
            let matches = if as_follower {
                str_eq(self.follows[i].0.as_str(), did)
            } else {
                str_eq(self.follows[i].1.as_str(), did)
            };
            if matches {
                let ghost before = strings_view(out@);
                let x = if as_follower {
                    copy_string(&self.follows[i].1)
                } else {
                    copy_string(&self.follows[i].0)
                };
                out.push(x);
                proof {
                    assert(strings_view(out@) =~= before.push(x@));
                    assert(want(v[i as int]));
                    assert(other(v[i as int]) == x@);
                    if before.contains(x@) {
                        let j = choose|j: int| 0 <= j < i && want(#[trigger] v[j]) && other(v[j]) == x@;
                        assert(v[j].0 == v[i as int].0 && v[j].1 == v[i as int].1);
                        assert(v[j] == v[i as int]);
                    }
                    assert forall|y: Seq<char>|
                        strings_view(out@).contains(y) <==> exists|j: int|
                            0 <= j < i + 1 && want(#[trigger] v[j]) && other(v[j]) == y by {
                        if strings_view(out@).contains(y) && y != x@ {
                            let k = choose|k: int| 0 <= k < strings_view(out@).len() && strings_view(out@)[k] == y;
                            assert(before[k] == y);
                            assert(before.contains(y));
                        }
                        if exists|j: int| 0 <= j < i + 1 && want(#[trigger] v[j]) && other(v[j]) == y {
                            let j = choose|j: int| 0 <= j < i + 1 && want(#[trigger] v[j]) && other(v[j]) == y;
                            if j < i {
                                assert(before.contains(y));
                                let k = choose|k: int| 0 <= k < before.len() && before[k] == y;
                                assert(strings_view(out@)[k] == y);
                            } else {
                                assert(strings_view(out@)[before.len() as int] == y);
                            }
                        }
                    }
                }
            } else {
                proof {
                    assert(!want(v[i as int]));
                    assert forall|y: Seq<char>|
                        strings_view(out@).contains(y) <==> exists|j: int|
                            0 <= j < i + 1 && want(#[trigger] v[j]) && other(v[j]) == y by {
                        if exists|j: int| 0 <= j < i + 1 && want(#[trigger] v[j]) && other(v[j]) == y {
                            let j = choose|j: int| 0 <= j < i + 1 && want(#[trigger] v[j]) && other(v[j]) == y;
                            assert(j < i);
                        }
                    }
                }
            }
            i = i + 1;
        }
        proof {
            let target = if as_follower {
                followees(self@.follows, did@)
            } else {
                followers_of(self@.follows, did@)
            };
            assert forall|x: Seq<char>| strings_view(out@).to_set().contains(x) == target.contains(x) by {
                let q = if as_follower { (did@, x) } else { (x, did@) };
                if v.to_set().contains(q) {
                    let j = choose|j: int| 0 <= j < v.len() && v[j] == q;
                    assert(want(v[j]) && other(v[j]) == x);
                }
                if exists|j: int| 0 <= j < v.len() && want(#[trigger] v[j]) && other(v[j]) == x {
                    let j = choose|j: int| 0 <= j < v.len() && want(#[trigger] v[j]) && other(v[j]) == x;
                    assert(v[j] == q);
                    assert(v.contains(q));
                }
            }
            assert(strings_view(out@).to_set() =~= target);
        }
        out
    }

    /// The DIDs that `did` follows, each once, in unspecified order.
    pub fn list_following(&self, did: &str) -> (r: Vec<String>)
        ensures
            strings_view(r@).no_duplicates(),
            strings_view(r@).to_set() == followees(self@.follows, did@),
    {
        self.follow_side(did, true)
    }

    /// The DIDs that follow `did`, each once, in unspecified order.
    pub fn list_followers(&self, did: &str) -> (r: Vec<String>)
        ensures
            strings_view(r@).no_duplicates(),
            strings_view(r@).to_set() == followers_of(self@.follows, did@),
    {
        self.follow_side(did, false)
    }

    /// The position of the peer with node id `node_id`, if known.
    fn find_peer(&self, node_id: &str) -> (r: Option<usize>)
        ensures
            match r {
                Some(i) => i < self.peers@.len() && self.peers@[i as int]@.node_id == node_id@,
                None => !has_key(self.peers@.map_values(|p: PeerInfo| p@), peer_key(), node_id@),
            },
    {
        let ghost v = self.peers@.map_values(|p: PeerInfo| p@);
        let mut i: usize = 0;
        while i < self.peers.len()
            invariant
                i <= self.peers@.len(),
                v == self.peers@.map_values(|p: PeerInfo| p@),
                forall|j: int| 0 <= j < i ==> (#[trigger] v[j]).node_id != node_id@,
            decreases self.peers@.len() - i,
        {
            if str_eq(self.peers[i].node_id.as_str(), node_id) {
                return Some(i);
            }
            i = i + 1;
        }
        None
    }

    /// Replaces the peer record at `i` by one with the same node id.
    fn set_peer(&mut self, i: usize, p: PeerInfo)
        requires
            i < old(self).peers@.len(),
            p@.node_id == old(self).peers@[i as int]@.node_id,
        ensures
            final(self)@ == (StorageView {
                peers: old(self)@.peers.insert(p@.node_id, p@),
                ..old(self)@
            }),
    {
        proof {
            use_type_invariant(&*self);
        }
        let ghost v = self.peers@.map_values(|q: PeerInfo| q@);
        let ghost pv = p@;
        let mut peers: Vec<PeerInfo> = Vec::new();
        std::mem::swap(&mut peers, &mut self.peers);
        peers.set(i, p);
        proof {
            assert(peers@.map_values(|q: PeerInfo| q@) =~= v.update(i as int, pv));
            lemma_keyed_update(v, peer_key(), i as int, pv);
        }
        self.peers = peers;
    }

    /// Stores a peer. A known peer keeps its reputation; its API base and
    /// `last_seen` are replaced.
    pub fn add_peer(&mut self, peer: &PeerInfo)
        ensures
            final(self)@ == (StorageView {
                peers: peer_upserted(old(self)@.peers, peer@),
                ..old(self)@
            }),
    {
        proof {
            use_type_invariant(&*self);
        }
        let ghost v = self.peers@.map_values(|q: PeerInfo| q@);
        match self.find_peer(peer.node_id.as_str()) {
            Some(i) => {
                proof {
                    lemma_keyed_index(v, peer_key(), i as int);
                }
                let mut updated = self.peers[i].duplicate();
                updated.api_base = copy_string(&peer.api_base);
                updated.last_seen = crate::types::copy_opt_string(&peer.last_seen);
                self.set_peer(i, updated);
                proof {
                    assert(updated@ == PeerView {
                        api_base: peer@.api_base,
                        last_seen: peer@.last_seen,
                        ..old(self)@.peers[peer@.node_id]
                    });
                }
            },
            None => {
                let mut peers: Vec<PeerInfo> = Vec::new();
                std::mem::swap(&mut peers, &mut self.peers);
                peers.push(peer.duplicate());
                proof {
                    assert(peers@.map_values(|q: PeerInfo| q@) =~= v.push(peer@));
                    lemma_keyed_push(v, peer_key(), peer@);
                }
                self.peers = peers;
            },
        }
    }

    /// Forgets the peer with node id `node_id`; nothing happens when it is
    /// not known.
    pub fn remove_peer(&mut self, node_id: &str)
        ensures
            final(self)@ == (StorageView { peers: old(self)@.peers.remove(node_id@), ..old(self)@ }),
    {
        proof {
            use_type_invariant(&*self);
        }
        let ghost v = self.peers@.map_values(|q: PeerInfo| q@);
        match self.find_peer(node_id) {
            Some(i) => {
                let mut peers: Vec<PeerInfo> = Vec::new();
                std::mem::swap(&mut peers, &mut self.peers);
                peers.remove(i);
                proof {
                    assert(peers@.map_values(|q: PeerInfo| q@) =~= v.remove(i as int));
                    lemma_keyed_remove(v, peer_key(), i as int);
                }
                self.peers = peers;
            },
            None => {
                proof {
                    assert(keyed_map(v, peer_key()).remove(node_id@) =~= keyed_map(v, peer_key()));
                }
            },
        }
    }

    /// Sets the reputation of a known peer; `NotFound` when it is not known.
    pub fn update_peer_reputation(&mut self, node_id: &str, reputation: u32) -> (r: Result<
        (),
        StorageError,
    >)
        ensures
            old(self)@.peers.contains_key(node_id@) ==> r is Ok && final(self)@ == (StorageView {
                peers: old(self)@.peers.insert(
                    node_id@,
                    PeerView { reputation, ..old(self)@.peers[node_id@] },
                ),
                ..old(self)@
            }),
            !old(self)@.peers.contains_key(node_id@) ==> r == Err::<(), StorageError>(
                StorageError::NotFound,
            ) && final(self)@ == old(self)@,
    {
        proof {
            use_type_invariant(&*self);
        }
        let ghost v = self.peers@.map_values(|q: PeerInfo| q@);
        match self.find_peer(node_id) {
            Some(i) => {
                proof {
                    lemma_keyed_index(v, peer_key(), i as int);
                }
                let mut updated = self.peers[i].duplicate();
                updated.reputation = reputation;
                self.set_peer(i, updated);
                Ok(())
            },
            None => Err(StorageError::NotFound),
        }
    }

    /// Every known peer, each once, highest reputation first and then by
    /// ascending node id.
    pub fn list_peers(&self) -> (r: Vec<PeerInfo>)
        ensures
            peers_in_order(r@.map_values(|p: PeerInfo| p@)),
            distinct_keys(r@.map_values(|p: PeerInfo| p@), peer_key()),
            keyed_map(r@.map_values(|p: PeerInfo| p@), peer_key()) == self@.peers,
    {
        proof {
            use_type_invariant(self);
        }
        let ghost v = self.peers@.map_values(|q: PeerInfo| q@);
        let mut out: Vec<PeerInfo> = Vec::new();
        let mut i: usize = 0;
        proof {
            lemma_keyed_empty(peer_key());
            assert(out@.map_values(|q: PeerInfo| q@) =~= Seq::<PeerView>::empty());
            assert(v.take(0) =~= Seq::<PeerView>::empty());
        }
        while i < self.peers.len()
            invariant
                i <= self.peers@.len(),
                v == self.peers@.map_values(|q: PeerInfo| q@),
                distinct_keys(v, peer_key()),
                peers_in_order(out@.map_values(|q: PeerInfo| q@)),
                distinct_keys(out@.map_values(|q: PeerInfo| q@), peer_key()),
                keyed_map(out@.map_values(|q: PeerInfo| q@), peer_key()) == keyed_map(
                    v.take(i as int),
                    peer_key(),
                ),
                forall|j: int|
                    0 <= j < out@.len() ==> has_key(
                        v.take(i as int),
                        peer_key(),
                        (#[trigger] out@[j])@.node_id,
                    ),
            decreases self.peers@.len() - i,
        {
            let ghost w = out@.map_values(|q: PeerInfo| q@);
            let ghost p = v[i as int];
            proof {
                assert(p == self.peers@[i as int]@);
                assert forall|j: int| 0 <= j < out@.len() implies (#[trigger] out@[j])@.node_id
                    != p.node_id by {
                    let k = choose|k: int|
                        0 <= k < v.take(i as int).len() && peer_key()(#[trigger] v.take(
                            i as int,
                        )[k]) == out@[j]@.node_id;
                    assert(v[k].node_id != v[i as int].node_id);
                }
                assert(!has_key(w, peer_key(), p.node_id)) by {
                    if has_key(w, peer_key(), p.node_id) {
                        let j = choose|j: int| 0 <= j < w.len() && peer_key()(#[trigger] w[j]) == p.node_id;
                        assert(w[j] == out@[j]@);
                    }
                }
                assert(!has_key(v.take(i as int), peer_key(), p.node_id)) by {
                    if has_key(v.take(i as int), peer_key(), p.node_id) {
                        let k = choose|k: int|
                            0 <= k < v.take(i as int).len() && peer_key()(#[trigger] v.take(
                                i as int,
                            )[k]) == p.node_id;
                        assert(v[k].node_id != v[i as int].node_id);
                    }
                }
            }
            let pos = peer_position(&out, &self.peers[i]);
            let ghost prev = out@;
            out.insert(pos, self.peers[i].duplicate());
            proof {
                assert(out@.map_values(|q: PeerInfo| q@) =~= w.insert(pos as int, p));
                lemma_insert_peer(w, p, pos as int);
                lemma_keyed_insert(w, peer_key(), pos as int, p);
                assert(v.take(i as int + 1) =~= v.take(i as int).push(p));
                lemma_keyed_push(v.take(i as int), peer_key(), p);
                assert forall|j: int| 0 <= j < out@.len() implies has_key(
                    v.take(i as int + 1),
                    peer_key(),
                    (#[trigger] out@[j])@.node_id,
                ) by {
                    if j == pos {
                        assert(v.take(i as int + 1)[i as int] == p);
                    } else {
                        let j2 = if j < pos { j } else { j - 1 };
                        assert(out@[j] == prev[j2]);
                        assert(has_key(v.take(i as int), peer_key(), prev[j2]@.node_id));
                        let k = choose|k: int|
                            0 <= k < v.take(i as int).len() && peer_key()(#[trigger] v.take(
                                i as int,
                            )[k]) == prev[j2]@.node_id;
                        assert(v.take(i as int + 1)[k] == v.take(i as int)[k]);
                    }
                }
            }
            i = i + 1;
        }
        proof {
            assert(v.take(v.len() as int) =~= v);
        }
        out
    }

    /// The node configuration value under `key`, if set.
    pub fn get_node_config(&self, key: &str) -> (r: Option<String>)
        ensures
            match r {
                Some(x) => self@.config.contains_key(key@) && x@ == self@.config[key@],
                None => !self@.config.contains_key(key@),
            },
    {
        proof {
            use_type_invariant(self);
        }
        pair_get(&self.node_config, key)
    }

    /// Sets the node configuration value under `key`.
    pub fn set_node_config(&mut self, key: &str, value: &str)
        ensures
            final(self)@ == (StorageView {
                config: old(self)@.config.insert(key@, value@),
                ..old(self)@
            }),
    {
        proof {
            use_type_invariant(&*self);
        }
        let mut v: Vec<(String, String)> = Vec::new();
        std::mem::swap(&mut v, &mut self.node_config);
        pair_set(&mut v, key, value);
        self.node_config = v;
    }

    /// The sync cursor of the peer at `peer_url`, if set.
    pub fn get_cursor(&self, peer_url: &str) -> (r: Option<String>)
        ensures
            match r {
                Some(x) => self@.cursors.contains_key(peer_url@) && x@ == self@.cursors[peer_url@],
                None => !self@.cursors.contains_key(peer_url@),
            },
    {
        proof {
            use_type_invariant(self);
        }
        pair_get(&self.cursors, peer_url)
    }

    /// Sets the sync cursor of the peer at `peer_url`.
    pub fn set_cursor(&mut self, peer_url: &str, cursor: &str)
        ensures
            final(self)@ == (StorageView {
                cursors: old(self)@.cursors.insert(peer_url@, cursor@),
                ..old(self)@
            }),
    {
        proof {
            use_type_invariant(&*self);
        }
        let mut v: Vec<(String, String)> = Vec::new();
        std::mem::swap(&mut v, &mut self.cursors);
        pair_set(&mut v, peer_url, cursor);
        self.cursors = v;
    }

    /// Delivers `unit` to the inbox of `agent_did`. Idempotent: a unit whose
    /// id is already in that inbox is not delivered twice.
    pub fn deliver_to_inbox(&mut self, agent_did: &str, unit: &SemanticUnit)
        ensures
            exists|l: Seq<UnitView>|
                delivered_into(Self::inbox_of(old(self)@, agent_did@), unit@, l) && final(self)@ == (
                StorageView { inbox: old(self)@.inbox.insert(agent_did@, l), ..old(self)@ }),
    {
        proof {
            use_type_invariant(&*self);
        }
        let ghost v = self.inbox@.map_values(|p: (String, Vec<SemanticUnit>)| inbox_view(p));
        let ghost km = keyed_map(v, inbox_key());
        let mut inbox: Vec<(String, Vec<SemanticUnit>)> = Vec::new();
        let found = self.find_inbox(agent_did);
        std::mem::swap(&mut inbox, &mut self.inbox);
        let ghost before_entries = inbox@;
        match found {
            Some(i) => {
                proof {
                    lemma_keyed_index(v, inbox_key(), i as int);
                }
                let (name, mut list) = inbox.remove(i);
                let ghost old_list = units_view(list@);
                proof {
                    assert(old_list == Self::inbox_of(old(self)@, agent_did@));
                    assert(sorted_by_key(units_view(before_entries[i as int].1@), unit_key()));
                }
                match locate_unit(&list, unit.id.as_str()) {
                    Ok(_) => {},
                    Err(pos) => {
                        list.insert(pos, unit.duplicate());
                        proof {
                            assert(units_view(list@) =~= old_list.insert(pos as int, unit@));
                            lemma_insert_sorted(old_list, unit@, pos as int);
                        }
                    },
                }
                let ghost new_list = units_view(list@);
                inbox.insert(i, (name, list));
                proof {
                    assert(delivered_into(old_list, unit@, new_list));
                    assert(inbox@.map_values(|p: (String, Vec<SemanticUnit>)| inbox_view(p)) =~= v.update(
                        i as int,
                        (agent_did@, new_list),
                    ));
                    lemma_keyed_update(v, inbox_key(), i as int, (agent_did@, new_list));
                    assert forall|j: int| 0 <= j < inbox@.len() implies sorted_by_key(
                        units_view(#[trigger] inbox@[j].1@),
                        unit_key(),
                    ) by {
                        if j != i {
                            assert(inbox@[j] == before_entries[j]);
                        }
                    }
                    assert(km.insert(agent_did@, (agent_did@, new_list)).map_values(
                        |p: (Seq<char>, Seq<UnitView>)| p.1,
                    ) =~= km.map_values(|p: (Seq<char>, Seq<UnitView>)| p.1).insert(
                        agent_did@,
                        new_list,
                    ));
                }
            },
            None => {
                let mut list: Vec<SemanticUnit> = Vec::new();
                list.push(unit.duplicate());
                let ghost new_list = units_view(list@);
                inbox.push((to_owned_string(agent_did), list));
                proof {
                    assert(Self::inbox_of(old(self)@, agent_did@) == Seq::<UnitView>::empty());
                    assert(new_list =~= Seq::<UnitView>::empty().insert(0, unit@));
                    assert(is_insert_pos(Seq::<UnitView>::empty(), unit@.id, 0));
                    assert(delivered_into(Seq::<UnitView>::empty(), unit@, new_list));
                    assert(inbox@.map_values(|p: (String, Vec<SemanticUnit>)| inbox_view(p)) =~= v.push(
                        (agent_did@, new_list),
                    ));
                    lemma_keyed_push(v, inbox_key(), (agent_did@, new_list));
                    assert forall|j: int| 0 <= j < inbox@.len() implies sorted_by_key(
                        units_view(#[trigger] inbox@[j].1@),
                        unit_key(),
                    ) by {
                        if j < before_entries.len() {
                            assert(inbox@[j] == before_entries[j]);
                        }
                    }
                    assert(km.insert(agent_did@, (agent_did@, new_list)).map_values(
                        |p: (Seq<char>, Seq<UnitView>)| p.1,
                    ) =~= km.map_values(|p: (Seq<char>, Seq<UnitView>)| p.1).insert(
                        agent_did@,
                        new_list,
                    ));
                }
            },
        }
        self.inbox = inbox;
    }

    /// A page of the inbox of `agent_did`, oldest first: at most `limit` of
    /// the units after the cursor `after`, and whether more follow.
    pub fn get_inbox(&self, agent_did: &str, after: Option<&str>, limit: u32) -> (r: (
        Vec<SemanticUnit>,
        bool,
    ))
        ensures
            (units_view(r.0@), r.1) == page_of(
                after_cursor(Self::inbox_of(self@, agent_did@), opt_str_view(after)),
                limit as nat,
            ),
            sorted_by_key(units_view(r.0@), unit_key()),
    {
        proof {
            use_type_invariant(self);
            let iv = self.inbox@.map_values(|p: (String, Vec<SemanticUnit>)| inbox_view(p));
            if keyed_map(iv, inbox_key()).contains_key(agent_did@) {
                let j = choose|j: int| 0 <= j < iv.len() && inbox_key()(#[trigger] iv[j]) == agent_did@;
                lemma_keyed_index(iv, inbox_key(), j);
                assert(iv[j] == inbox_view(self.inbox@[j]));
                assert(sorted_by_key(units_view(self.inbox@[j].1@), unit_key()));
                assert(Self::inbox_of(self@, agent_did@) == iv[j].1);
            } else {
                assert(Self::inbox_of(self@, agent_did@) =~= Seq::<UnitView>::empty());
            }
            lemma_after_cursor_sorted(Self::inbox_of(self@, agent_did@), opt_str_view(after));
            lemma_page_sorted(
                after_cursor(Self::inbox_of(self@, agent_did@), opt_str_view(after)),
                limit as nat,
            );
        }
        let ghost v = self.inbox@.map_values(|p: (String, Vec<SemanticUnit>)| inbox_view(p));
        match self.find_inbox(agent_did) {
            None => {
                proof {
                    assert(Self::inbox_of(self@, agent_did@) == Seq::<UnitView>::empty());
                    reveal_with_fuel(Seq::filter, 1);
                    assert(after_cursor(Seq::<UnitView>::empty(), opt_str_view(after)) =~= Seq::<
                        UnitView,
                    >::empty());
                }
                (Vec::new(), false)
            },
            Some(i) => {
                proof {
                    lemma_keyed_index(v, inbox_key(), i as int);
                }
                let list = &self.inbox[i].1;
                let ghost lv = units_view(list@);
                let mut out: Vec<SemanticUnit> = Vec::new();
                let mut k: usize = 0;
                while k < list.len()
                    invariant
                        k <= list@.len(),
                        lv == units_view(list@),
                        units_view(out@) == after_cursor(lv.take(k as int), opt_str_view(after)),
                    decreases list@.len() - k,
                {
                    proof {
                        reveal_with_fuel(Seq::filter, 1);
                        assert(lv.take(k as int + 1).drop_last() =~= lv.take(k as int));
                        assert(lv[k as int] == list@[k as int]@);
                    }
                    let keep = match after {
                        Some(a) => str_lt(a, list[k].id.as_str()),
                        None => true,
                    };
                    if keep {
                        out.push(list[k].duplicate());
                    }
                    proof {
                        assert(units_view(out@) =~= after_cursor(
                            lv.take(k as int + 1),
                            opt_str_view(after),
                        ));
                    }
                    k = k + 1;
                }
                proof {
                    assert(lv.take(lv.len() as int) =~= lv);
                }
                let lim = limit as usize;
                if out.len() > lim {
                    let ghost all = units_view(out@);
                    out.truncate(lim);
                    proof {
                        assert(units_view(out@) =~= all.take(lim as int));
                    }
                    (out, true)
                } else {
                    (out, false)
                }
            },
        }
    }
}

// ---------------------------------------------------------------------------
// Laws of the store
// ---------------------------------------------------------------------------

/// A unit stored where its id belongs is what a lookup of its id gives.
pub proof fn lemma_get_after_put(units: Seq<UnitView>, u: UnitView, i: int)
    requires
        is_insert_pos(units, u.id, i),
    ensures
        keyed_map(units.insert(i, u), unit_key()).contains_key(u.id),
        keyed_map(units.insert(i, u), unit_key())[u.id] == u,
{
    let t = units.insert(i, u);
    assert(unit_key()(t[i]) == u.id);
    assert(has_key(t, unit_key(), u.id));
    let j = choose|j: int| 0 <= j < t.len() && unit_key()(#[trigger] t[j]) == u.id;
    lemma_text_lt_irreflexive(u.id);
    if j < i {
        assert(t[j] == units[j]);
        assert(text_lt(units[j].id, u.id));
    } else if j > i {
        assert(t[j] == units[j - 1]);
        assert(text_lt(u.id, units[j - 1].id));
    }
}

/// Delivering the same unit twice leaves the inbox as one delivery does.
pub proof fn lemma_deliver_idempotent(
    before: Seq<UnitView>,
    u: UnitView,
    once: Seq<UnitView>,
    twice: Seq<UnitView>,
)
    requires
        delivered_into(before, u, once),
        delivered_into(once, u, twice),
    ensures
        twice == once,
{
    if !has_key(before, unit_key(), u.id) {
        let i = choose|i: int| is_insert_pos(before, u.id, i) && once == before.insert(i, u);
        assert(unit_key()(once[i]) == u.id);
    }
}

/// After following, the pair is in the follow relation; after unfollowing,
/// it is not.
pub proof fn lemma_follow_roundtrip(
    follows: Set<(Seq<char>, Seq<char>)>,
    follower: Seq<char>,
    followee: Seq<char>,
)
    ensures
        follows.insert((follower, followee)).contains((follower, followee)),
        followees(follows.insert((follower, followee)), follower).contains(followee),
        followers_of(follows.insert((follower, followee)), followee).contains(follower),
        !follows.insert((follower, followee)).remove((follower, followee)).contains(
            (follower, followee),
        ),
{
}

/// Storing a known peer again keeps its reputation; a new peer gets the
/// reputation it was stored with.
pub proof fn lemma_add_peer_keeps_reputation(peers: Map<Seq<char>, PeerView>, p: PeerView)
    ensures
        peer_upserted(peers, p).contains_key(p.node_id),
        peer_upserted(peers, p)[p.node_id].api_base == p.api_base,
        peer_upserted(peers, p)[p.node_id].reputation == if peers.contains_key(p.node_id) {
            peers[p.node_id].reputation
        } else {
            p.reputation
        },
{
}

/// A value set under a key is what a read of that key gives, and other keys
/// keep theirs.
pub proof fn lemma_set_then_get(m: Map<Seq<char>, Seq<char>>, k: Seq<char>, v: Seq<char>, other: Seq<char>)
    ensures
        m.insert(k, v).contains_key(k),
        m.insert(k, v)[k] == v,
        other != k ==> m.insert(k, v).contains_key(other) == m.contains_key(other),
        other != k && m.contains_key(other) ==> m.insert(k, v)[other] == m[other],
{
}

/// Filtering by `p` and then by `q` is filtering by both.
proof fn lemma_filter_and(s: Seq<UnitView>, p: spec_fn(UnitView) -> bool, q: spec_fn(UnitView) -> bool)
    ensures
        s.filter(p).filter(q) == s.filter(|u: UnitView| p(u) && q(u)),
    decreases s.len(),
{
    reveal_with_fuel(Seq::filter, 1);
    let pq = |u: UnitView| p(u) && q(u);
    if s.len() > 0 {
        let d = s.drop_last();
        let l = s.last();
        lemma_filter_and(d, p, q);
        let fp = s.filter(p);
        if p(l) {
            assert(fp == d.filter(p).push(l));
            assert(fp.drop_last() =~= d.filter(p));
            assert(fp.filter(q) == if q(l) {
                d.filter(p).filter(q).push(l)
            } else {
                d.filter(p).filter(q)
            });
        } else {
            assert(fp == d.filter(p));
        }
        assert(s.filter(pq) == if pq(l) {
            d.filter(pq).push(l)
        } else {
            d.filter(pq)
        });
        assert(s.filter(p).filter(q) =~= s.filter(pq));
    } else {
        assert(s.filter(p).filter(q) =~= s.filter(pq));
    }
}

/// A filtered sequence of units in ascending id order is in ascending id
/// order.
proof fn lemma_filter_sorted(s: Seq<UnitView>, p: spec_fn(UnitView) -> bool)
    requires
        sorted_by_key(s, unit_key()),
    ensures
        sorted_by_key(s.filter(p), unit_key()),
    decreases s.len(),
{
    reveal_with_fuel(Seq::filter, 1);
    if s.len() > 0 {
        let d = s.drop_last();
        assert(sorted_by_key(d, unit_key())) by {
            assert forall|i: int, j: int| 0 <= i < j < d.len() implies text_lt(
                unit_key()(#[trigger] d[i]),
                unit_key()(#[trigger] d[j]),
            ) by {
                assert(d[i] == s[i] && d[j] == s[j]);
            }
        }
        lemma_filter_sorted(d, p);
        if p(s.last()) {
            let f = d.filter(p);
            assert forall|i: int, j: int| 0 <= i < j < f.len() + 1 implies text_lt(
                unit_key()(#[trigger] f.push(s.last())[i]),
                unit_key()(#[trigger] f.push(s.last())[j]),
            ) by {
                if j == f.len() {
                    assert(f.contains(f[i]));
                    d.lemma_filter_contains_rev(p, f[i]);
                    let k = choose|k: int| 0 <= k < d.len() && d[k] == f[i];
                    assert(s[k] == f[i]);
                    assert(text_lt(unit_key()(s[k]), unit_key()(s[s.len() - 1])));
                }
            }
        }
    }
}

/// In units of ascending id, the units after the id of the unit at `m` are
/// those that follow position `m`.
proof fn lemma_after_is_skip(t: Seq<UnitView>, m: int)
    requires
        sorted_by_key(t, unit_key()),
        0 <= m < t.len(),
    ensures
        t.filter(|u: UnitView| text_lt(t[m].id, u.id)) == t.skip(m + 1),
    decreases t.len(),
{
    reveal_with_fuel(Seq::filter, 1);
    let c = t[m].id;
    let d = t.drop_last();
    assert(sorted_by_key(d, unit_key())) by {
        assert forall|i: int, j: int| 0 <= i < j < d.len() implies text_lt(
            unit_key()(#[trigger] d[i]),
            unit_key()(#[trigger] d[j]),
        ) by {
            assert(d[i] == t[i] && d[j] == t[j]);
        }
    }
    if m < t.len() - 1 {
        lemma_after_is_skip(d, m);
        assert(d[m] == t[m]);
        assert(text_lt(unit_key()(t[m]), unit_key()(t[t.len() - 1])));
        assert(t.skip(m + 1) =~= d.skip(m + 1).push(t.last()));
    } else {
        lemma_none_after(d, c);
        lemma_text_lt_irreflexive(c);
        assert(t.skip(m + 1) =~= Seq::<UnitView>::empty());
    }
}

/// No unit of `d` comes after `c` when every id of `d` is before `c`.
proof fn lemma_none_after(d: Seq<UnitView>, c: Seq<char>)
    requires
        forall|i: int| 0 <= i < d.len() ==> text_lt(#[trigger] d[i].id, c),
    ensures
        d.filter(|u: UnitView| text_lt(c, u.id)) == Seq::<UnitView>::empty(),
    decreases d.len(),
{
    reveal_with_fuel(Seq::filter, 1);
    if d.len() > 0 {
        lemma_none_after(d.drop_last(), c);
        lemma_text_lt_total(d.last().id, c);
    }
    assert(d.filter(|u: UnitView| text_lt(c, u.id)) =~= Seq::<UnitView>::empty());
}

/// Keyset pagination neither skips nor repeats a unit: with the cursor set
/// to the id of the last unit of a full page, the accepted units are
/// exactly those that followed that page.
pub proof fn lemma_next_page(units: Seq<UnitView>, f: UnitFilter, g: UnitFilter, limit: nat)
    requires
        sorted_by_key(units, unit_key()),
        limit > 0,
        accepted(f, units).len() > limit,
        opt_view(g.after) == Some(accepted(f, units)[limit - 1].id),
        g.unit_types@ == f.unit_types@,
        opt_view(g.author) == opt_view(f.author),
        opt_view(g.since) == opt_view(f.since),
        g.visibilities@ == f.visibilities@,
        strings_view(g.network_for_authors@) == strings_view(f.network_for_authors@),
    ensures
        accepted(g, units) == accepted(f, units).skip(limit as int),
{
    let t = accepted(f, units);
    let c = t[limit - 1].id;
    lemma_filter_sorted(units, |u: UnitView| filter_accepts(f, u));
    lemma_after_is_skip(t, limit - 1);
    lemma_filter_and(units, |u: UnitView| filter_accepts(f, u), |u: UnitView| text_lt(c, u.id));
    let w = t[limit - 1];
    assert(t.contains(w));
    units.lemma_filter_contains_rev(|u: UnitView| filter_accepts(f, u), w);
    assert(filter_accepts(f, w));
    assert forall|u: UnitView| #[trigger] filter_accepts(g, u) == (filter_accepts(f, u) && text_lt(c, u.id)) by {
        let vis = effective_visibility(u.visibility);
        assert((g.unit_types@.len() == 0 || g.unit_types@.contains(u.unit_type)) == (f.unit_types@.len() == 0 || f.unit_types@.contains(u.unit_type)));
        assert((g.visibilities@.len() == 0 || g.visibilities@.contains(vis)) == (f.visibilities@.len() == 0 || f.visibilities@.contains(vis)));
        assert(strings_view(g.network_for_authors@).len() == g.network_for_authors@.len());
        assert(strings_view(f.network_for_authors@).len() == f.network_for_authors@.len());
        match opt_view(f.after) {
            Some(a) => {
                assert(text_lt(a, c));
                if text_lt(c, u.id) {
                    lemma_text_lt_transitive(a, c, u.id);
                }
            },
            None => {},
        }
    }
    let pg = |u: UnitView| filter_accepts(g, u);
    let pf = |u: UnitView| filter_accepts(f, u) && text_lt(c, u.id);
    let pa = |u: UnitView| filter_accepts(f, u);
    let pc = |u: UnitView| text_lt(c, u.id);
    assert(pg =~= pf);
    assert(pf =~= |u: UnitView| pa(u) && pc(u));
    assert(units.filter(pg) == units.filter(pf));
    assert(units.filter(pa).filter(pc) == units.filter(|u: UnitView| pa(u) && pc(u)));
    assert(t == units.filter(pa));
    assert(t.filter(pc) == t.skip(limit as int));
}

/// Inbox pages neither skip nor repeat a unit: with the cursor set to the id
/// of the last unit of a full page, the next page starts right after it.
pub proof fn lemma_inbox_next_page(inbox: Seq<UnitView>, after: Option<Seq<char>>, limit: nat)
    requires
        sorted_by_key(inbox, unit_key()),
        limit > 0,
        after_cursor(inbox, after).len() > limit,
    ensures
        after_cursor(inbox, Some(after_cursor(inbox, after)[limit - 1].id)) == after_cursor(
            inbox,
            after,
        ).skip(limit as int),
{
    let t = after_cursor(inbox, after);
    let c = t[limit - 1].id;
    let pc = |u: UnitView| text_lt(c, u.id);
    match after {
        None => {
            lemma_after_is_skip(inbox, limit - 1);
        },
        Some(a) => {
            let pa = |u: UnitView| text_lt(a, u.id);
            lemma_filter_sorted(inbox, pa);
            lemma_after_is_skip(t, limit - 1);
            lemma_filter_and(inbox, pa, pc);
            let w = t[limit - 1];
            assert(t.contains(w));
            inbox.lemma_filter_contains_rev(pa, w);
            assert(text_lt(a, c));
            assert forall|u: UnitView| #[trigger] pc(u) == (pa(u) && pc(u)) by {
                if pc(u) {
                    lemma_text_lt_transitive(a, c, u.id);
                }
            }
            assert(pc =~= |u: UnitView| pa(u) && pc(u));
        },
    }
}

} // verus!
