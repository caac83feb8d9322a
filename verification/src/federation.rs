//! Federation decisions: where a peer's sync stream is pulled from, what
//! storing a pulled unit means for the sync, and whether a discovered peer
//! is admitted to the bounded peer table.
use vstd::prelude::*;
use crate::api::PeerInfo;
use crate::api::PeerView;
use crate::keyed::{distinct_keys, has_key, keyed_map};
use crate::storage::{peer_key, peer_upserted, rank_of, reputation_rank, StorageError};
use crate::text::{
    chars_of, decimal, is_suffix, push_decimal, push_str, str_eq, string_from_range,
    strip_trailing, strip_trailing_char, to_owned_string,
};

verus! {

/// The sync endpoint of the peer at `api_base`.
pub open spec fn sync_endpoint(api_base: Seq<char>) -> Seq<char> {
    strip_trailing(api_base, '/') + "/sync"@
}

/// The sync endpoint of the peer at `api_base`, without any trailing `/`
/// of the base.
pub fn peer_sync_url(api_base: &str) -> (r: String)
    ensures
        r@ == sync_endpoint(api_base@),
{
    let mut r = strip_trailing_char(api_base, '/');
    push_str(&mut r, "/sync");
    proof {
        reveal_strlit("/sync");
    }
    r
}

/// Why syncing a peer failed.
#[derive(Debug, Clone, PartialEq, Eq)]
pub enum SyncError {
    /// The request or response failed; carries the client's message.
    Http(String),
    /// The peer answered with this non-success status.
    BadStatus(u16),
    /// Local storage failed.
    Storage(StorageError),
}

/// The message of a sync error.
pub open spec fn sync_error_message(e: SyncError) -> Seq<char> {
    match e {
        SyncError::Http(m) => "HTTP error: "@ + m@,
        SyncError::BadStatus(s) => "peer returned status "@ + decimal(s as nat),
        SyncError::Storage(s) => "storage error: "@ + crate::storage::storage_error_text(s),
    }
}

impl SyncError {
    /// The message of the error.
    pub fn message(&self) -> (r: String)
        ensures
            r@ == sync_error_message(*self),
    {
        proof {
            reveal_strlit("HTTP error: ");
            reveal_strlit("peer returned status ");
            reveal_strlit("storage error: ");
        }
        match self {
            SyncError::Http(m) => {
                let mut r = to_owned_string("HTTP error: ");
                push_str(&mut r, m.as_str());
                r
            },
            SyncError::BadStatus(s) => {
                let mut r = to_owned_string("peer returned status ");
                push_decimal(&mut r, *s as u64);
                r
            },
            SyncError::Storage(s) => {
                let mut r = to_owned_string("storage error: ");
                push_str(&mut r, s.message().as_str());
                r
            },
        }
    }
}

/// What storing a pulled unit means for the sync: stored anew (`true`),
/// already held (`false`, a conflict is not an error), or a storage failure
/// that stops the sync of this peer.
pub fn ingest_outcome(put: Result<(), StorageError>) -> (r: Result<bool, SyncError>)
    ensures
        match put {
            Ok(()) => r == Ok::<bool, SyncError>(true),
            Err(StorageError::Conflict(_)) => r == Ok::<bool, SyncError>(false),
            Err(e) => r == Err::<bool, SyncError>(SyncError::Storage(e)),
        },
{
    match put {
        Ok(()) => Ok(true),
        Err(StorageError::Conflict(_)) => Ok(false),
        Err(e) => Err(SyncError::Storage(e)),
    }
}

/// The status a sync response must have to be read: a 2xx.
pub fn check_sync_status(status: u16) -> (r: Result<(), SyncError>)
    ensures
        200 <= status < 300 ==> r is Ok,
        !(200 <= status < 300) ==> r == Err::<(), SyncError>(SyncError::BadStatus(status)),
{
    if 200 <= status && status < 300 {
        Ok(())
    } else {
        Err(SyncError::BadStatus(status))
    }
}

// ---------------------------------------------------------------------------
// Peer discovery
// ---------------------------------------------------------------------------

/// `s` with every trailing occurrence of `p` removed (`trim_end_matches`).
pub open spec fn strip_suffixes(s: Seq<char>, p: Seq<char>) -> Seq<char>
    decreases s.len(),
{
    if p.len() > 0 && is_suffix(p, s) {
        strip_suffixes(s.take(s.len() - p.len()), p)
    } else {
        s
    }
}

/// The discovery document URL of a peer whose API base is `api_base`: the
/// base without trailing `/` and then without trailing `/v1`, followed by
/// `/.well-known/semanticweft`.
pub open spec fn peer_well_known(api_base: Seq<char>) -> Seq<char> {
    strip_suffixes(strip_trailing(api_base, '/'), "/v1"@) + "/.well-known/semanticweft"@
}

/// The discovery document URL used to verify a peer.
pub fn peer_well_known_url(api_base: &str) -> (r: String)
    ensures
        r@ == peer_well_known(api_base@),
{
    let base = strip_trailing_char(api_base, '/');
    let v = chars_of(base.as_str());
    let mut end: usize = v.len();
    proof {
        reveal_strlit("/v1");
        assert(v@.take(end as int) =~= base@);
    }
    while end >= 3 && v[end - 3] == '/' && v[end - 2] == 'v' && v[end - 1] == '1'
        invariant
            end <= v@.len(),
            v@ == base@,
            strip_suffixes(v@.take(end as int), "/v1"@) == strip_suffixes(base@, "/v1"@),
        decreases end,
    {
        proof {
            reveal_strlit("/v1");
            assert(is_suffix("/v1"@, v@.take(end as int))) by {
                assert(v@.take(end as int).skip(end - 3) =~= "/v1"@);
            }
            assert(v@.take(end as int).take(end - 3) =~= v@.take(end - 3));
        }
        end = end - 3;
    }
    proof {
        if is_suffix("/v1"@, v@.take(end as int)) {
            let t = v@.take(end as int);
            assert(t.skip(t.len() - 3) == "/v1"@);
            assert(t.skip(t.len() - 3)[0] == t[t.len() - 3]);
            assert(t.skip(t.len() - 3)[1] == t[t.len() - 2]);
            assert(t.skip(t.len() - 3)[2] == t[t.len() - 1]);
        }
    }
    let mut r = string_from_range(&v, 0, end);
    proof {
        assert(v@.subrange(0, end as int) =~= v@.take(end as int));
    }
    push_str(&mut r, "/.well-known/semanticweft");
    proof {
        reveal_strlit("/.well-known/semanticweft");
    }
    r
}

/// What checking a candidate peer's discovery document gave.
#[derive(Debug, Clone, Copy, PartialEq, Eq, Structural)]
pub enum VerifyResult {
    /// The document names the candidate's node id.
    Verified,
    /// The document names another node: possible impersonation.
    Mismatch,
    /// The document could not be fetched or read.
    Unreachable,
}

/// Compares the node id that the candidate's discovery document gave (if
/// it could be read) with the candidate's claimed id.
pub fn verify_result(fetched_node_id: Option<&str>, candidate_node_id: &str) -> (r: VerifyResult)
    ensures
        r == match fetched_node_id {
            None => VerifyResult::Unreachable,
            Some(f) => if f@ == candidate_node_id@ {
                VerifyResult::Verified
            } else {
                VerifyResult::Mismatch
            },
        },
{
    match fetched_node_id {
        None => VerifyResult::Unreachable,
        Some(f) => if str_eq(f, candidate_node_id) {
            VerifyResult::Verified
        } else {
            VerifyResult::Mismatch
        },
    }
}

/// Whether the `f32` with these bits is a NaN.
pub open spec fn f32_is_nan(bits: u32) -> bool {
    bits & 0x7f80_0000u32 == 0x7f80_0000u32 && bits & 0x007f_ffffu32 != 0u32
}

/// `a <= b` on the `f32` values with these bits.
pub open spec fn f32_le(a: u32, b: u32) -> bool {
    !f32_is_nan(a) && !f32_is_nan(b) && reputation_rank(a) <= reputation_rank(b)
}

/// `a <= b` on the `f32` values with these bits.
pub fn f32_bits_le(a: u32, b: u32) -> (r: bool)
    ensures
        r == f32_le(a, b),
{
    let a_nan = a & 0x7f80_0000u32 == 0x7f80_0000u32 && a & 0x007f_ffffu32 != 0u32;
    let b_nan = b & 0x7f80_0000u32 == 0x7f80_0000u32 && b & 0x007f_ffffu32 != 0u32;
    !a_nan && !b_nan && rank_of(a) <= rank_of(b)
}

/// What becomes of a discovered peer.
#[derive(Debug, Clone, PartialEq, Eq)]
pub enum PeerAdmission {
    /// The peer is not stored.
    Reject,
    /// The peer is stored.
    Add,
    /// The peer with this node id is removed, then the candidate stored.
    EvictThenAdd(String),
}

/// The admission decision for `candidate` given the verification result,
/// the current peer table in listing order (best first) and its capacity:
/// an impersonator is rejected; when the table is full the candidate
/// replaces the last (worst) peer if it is at least as reputable, and is
/// rejected otherwise.
pub open spec fn admission_of(
    verify: VerifyResult,
    peers: Seq<PeerInfo>,
    max_peers: nat,
    candidate_reputation: u32,
) -> (bool, Option<Seq<char>>) {
    if verify == VerifyResult::Mismatch {
        (false, None)
    } else if peers.len() >= max_peers && peers.len() > 0 {
        if f32_le(peers.last().reputation, candidate_reputation) {
            (true, Some(peers.last().node_id@))
        } else {
            (false, None)
        }
    } else {
        (true, None)
    }
}

/// The meaning of an admission: whether the candidate is stored, and which
/// peer is evicted first.
pub open spec fn admission_view(a: PeerAdmission) -> (bool, Option<Seq<char>>) {
    match a {
        PeerAdmission::Reject => (false, None),
        PeerAdmission::Add => (true, None),
        PeerAdmission::EvictThenAdd(id) => (true, Some(id@)),
    }
}

/// Decides whether a discovered peer joins the peer table.
pub fn admit_peer(
    verify: VerifyResult,
    peers: &Vec<PeerInfo>,
    max_peers: usize,
    candidate: &PeerInfo,
) -> (r: PeerAdmission)
    ensures
        admission_view(r) == admission_of(verify, peers@, max_peers as nat, candidate.reputation),
{
    if verify == VerifyResult::Mismatch {
        return PeerAdmission::Reject;
    }
    let n = peers.len();
    if n >= max_peers && n > 0 {
        let worst = &peers[n - 1];
        if f32_bits_le(worst.reputation, candidate.reputation) {
            PeerAdmission::EvictThenAdd(crate::text::copy_string(&worst.node_id))
        } else {
            PeerAdmission::Reject
        }
    } else {
        PeerAdmission::Add
    }
}

/// The peer map after carrying out an admission decision: the evicted peer
/// removed first, then the candidate stored, when it is admitted.
pub open spec fn admitted_peers(
    peers: Map<Seq<char>, PeerView>,
    decision: (bool, Option<Seq<char>>),
    candidate: PeerView,
) -> Map<Seq<char>, PeerView> {
    if !decision.0 {
        peers
    } else {
        peer_upserted(
            match decision.1 {
                Some(id) => peers.remove(id),
                None => peers,
            },
            candidate,
        )
    }
}

/// The node ids of a peer table form a set as large as the table.
proof fn lemma_peer_ids_len(tv: Seq<PeerView>)
    requires
        distinct_keys(tv, peer_key()),
    ensures
        keyed_map(tv, peer_key()).dom().finite(),
        keyed_map(tv, peer_key()).dom().len() == tv.len(),
{
    let ids = Seq::new(tv.len(), |i: int| tv[i].node_id);
    assert(ids.no_duplicates()) by {
        assert forall|i: int, j: int| 0 <= i < ids.len() && 0 <= j < ids.len() && i != j implies ids[i]
            != ids[j] by {
            if i < j {
                assert(peer_key()(tv[i]) != peer_key()(tv[j]));
            } else {
                assert(peer_key()(tv[j]) != peer_key()(tv[i]));
            }
        }
    }
    ids.unique_seq_to_set();
    assert(keyed_map(tv, peer_key()).dom() =~= ids.to_set()) by {
        assert forall|k: Seq<char>| keyed_map(tv, peer_key()).dom().contains(k) <==> ids.to_set().contains(k) by {
            if has_key(tv, peer_key(), k) {
                let i = choose|i: int| 0 <= i < tv.len() && peer_key()(#[trigger] tv[i]) == k;
                assert(ids[i] == k);
            }
            if ids.contains(k) {
                let i = choose|i: int| 0 <= i < ids.len() && ids[i] == k;
                assert(peer_key()(tv[i]) == k);
            }
        }
    }
}

/// A peer table never grows past its capacity: carrying out the admission
/// decision for any candidate on a table within `max_peers` (at least one)
/// leaves at most `max_peers` peers.
pub proof fn lemma_admission_keeps_capacity(
    table: Seq<PeerInfo>,
    max_peers: nat,
    verify: VerifyResult,
    candidate: PeerInfo,
)
    requires
        distinct_keys(table.map_values(|p: PeerInfo| p@), peer_key()),
        table.len() <= max_peers,
        max_peers > 0,
    ensures
        admitted_peers(
            keyed_map(table.map_values(|p: PeerInfo| p@), peer_key()),
            admission_of(verify, table, max_peers, candidate.reputation),
            candidate@,
        ).dom().finite(),
        admitted_peers(
            keyed_map(table.map_values(|p: PeerInfo| p@), peer_key()),
            admission_of(verify, table, max_peers, candidate.reputation),
            candidate@,
        ).dom().len() <= max_peers,
{
    let tv = table.map_values(|p: PeerInfo| p@);
    let m = keyed_map(tv, peer_key());
    lemma_peer_ids_len(tv);
    let d = admission_of(verify, table, max_peers, candidate.reputation);
    if d.0 {
        let base = match d.1 {
            Some(id) => m.remove(id),
            None => m,
        };
        if let Some(id) = d.1 {
            let last = tv.len() - 1;
            assert(tv[last] == table.last()@);
            assert(peer_key()(tv[last]) == id);
            assert(m.dom().contains(id));
            assert(base.dom() =~= m.dom().remove(id));
            assert(base.dom().len() == m.dom().len() - 1);
        } else {
            assert(table.len() < max_peers);
        }
        assert(base.dom().finite());
        let after = peer_upserted(base, candidate@);
        assert(after.dom() =~= base.dom().insert(candidate@.node_id));
        assert(after.dom().len() <= base.dom().len() + 1);
    }
}

/// One admission of a discovery sweep: the peer table as listed at that
/// moment, the verification result of the candidate, and the candidate.
pub type AdmissionStep = (Seq<PeerInfo>, VerifyResult, PeerInfo);

/// The peer map after carrying out the admissions `steps` in order,
/// starting from `peers`.
pub open spec fn admissions_run(
    peers: Map<Seq<char>, PeerView>,
    steps: Seq<AdmissionStep>,
    max_peers: nat,
) -> Map<Seq<char>, PeerView>
    decreases steps.len(),
{
    if steps.len() == 0 {
        peers
    } else {
        let before = admissions_run(peers, steps.drop_last(), max_peers);
        let (table, verify, candidate) = steps.last();
        admitted_peers(before, admission_of(verify, table, max_peers, candidate.reputation), candidate@)
    }
}

/// Whether each step's table is a listing (distinct node ids) of the peer
/// map at that step, as the store's peer listing gives it.
pub open spec fn listed_at_each_step(
    peers: Map<Seq<char>, PeerView>,
    steps: Seq<AdmissionStep>,
    max_peers: nat,
) -> bool {
    forall|i: int|
        0 <= i < steps.len() ==> {
            let tv = (#[trigger] steps[i]).0.map_values(|p: PeerInfo| p@);
            &&& distinct_keys(tv, peer_key())
            &&& keyed_map(tv, peer_key()) == admissions_run(peers, steps.take(i), max_peers)
        }
}

/// Over any run of admissions, each decided on a fresh listing of the peer
/// table, a table that starts within `max_peers` (at least one) never holds
/// more than `max_peers` peers.
pub proof fn lemma_admissions_keep_capacity(
    peers: Map<Seq<char>, PeerView>,
    steps: Seq<AdmissionStep>,
    max_peers: nat,
)
    requires
        peers.dom().finite(),
        peers.dom().len() <= max_peers,
        max_peers > 0,
        listed_at_each_step(peers, steps, max_peers),
    ensures
        admissions_run(peers, steps, max_peers).dom().finite(),
        admissions_run(peers, steps, max_peers).dom().len() <= max_peers,
    decreases steps.len(),
{
    if steps.len() > 0 {
        let d = steps.drop_last();
        assert forall|i: int| 0 <= i < d.len() implies {
            let tv = (#[trigger] d[i]).0.map_values(|p: PeerInfo| p@);
            &&& distinct_keys(tv, peer_key())
            &&& keyed_map(tv, peer_key()) == admissions_run(peers, d.take(i), max_peers)
        } by {
            assert(d[i] == steps[i]);
            assert(d.take(i) =~= steps.take(i));
        }
        lemma_admissions_keep_capacity(peers, d, max_peers);
        let k = steps.len() - 1;
        let (table, verify, candidate) = steps[k];
        let tv = table.map_values(|p: PeerInfo| p@);
        assert(steps.take(k) =~= d);
        assert(distinct_keys(tv, peer_key()));
        assert(keyed_map(tv, peer_key()) == admissions_run(peers, d, max_peers));
        lemma_peer_ids_len(tv);
        assert(table.len() == tv.len());
        lemma_admission_keeps_capacity(table, max_peers, verify, candidate);
    }
}

} // verus!
