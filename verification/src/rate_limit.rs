//! Per-client fixed-window rate limiting.
//!
//! Each client key (its IP address) has a counter that starts a fresh
//! one-minute window on its first request. Requests beyond the limit within
//! the window are refused with the whole seconds left until it ends (at
//! least one). A limit of zero disables limiting.
use vstd::prelude::*;
use crate::text::{before_first, before_first_char, chars_of, to_owned_string, trim, trimmed_range};
use crate::external::{instant_now, nanos_since};
use crate::keyed::{
    distinct_keys, has_key, keyed_map, lemma_keyed_empty, lemma_keyed_index, lemma_keyed_push,
    lemma_keyed_update,
};
use crate::text::str_eq;

verus! {

/// The length of a window, in nanoseconds.
pub const WINDOW_NANOS: u64 = 60_000_000_000u64;

/// The state of one client: requests counted in the current window, and
/// when the window started (nanoseconds since the limiter was made).
pub type BucketState = (u32, u64);

/// The whole seconds left in a window after `elapsed` nanoseconds, at least
/// one.
pub open spec fn retry_after(elapsed: u64) -> u64 {
    let left = (WINDOW_NANOS - elapsed) / 1_000_000_000;
    if left < 1 {
        1
    } else {
        left as u64
    }
}

/// What a request at time `now` is answered, and what the client's state
/// becomes, when the limit is `max` and the state was `bucket`.
pub open spec fn rate_step(bucket: Option<BucketState>, max: u32, now: u64) -> (
    Result<(), u64>,
    Option<BucketState>,
) {
    if max == 0 {
        (Ok(()), bucket)
    } else {
        let (count, start) = match bucket {
            Some(b) => b,
            None => (0u32, now),
        };
        let elapsed: u64 = if now >= start {
            (now - start) as u64
        } else {
            0
        };
        if elapsed >= WINDOW_NANOS {
            (Ok(()), Some((1u32, now)))
        } else if count >= max {
            (Err(retry_after(elapsed)), Some((count, start)))
        } else {
            (Ok(()), Some(((count + 1) as u32, start)))
        }
    }
}

/// Whether answering a request from `key` at time `now` with `r` takes the
/// client states from `before` to `after`, under the limit `max`.
pub open spec fn answered(
    before: Map<Seq<char>, BucketState>,
    max: u32,
    key: Seq<char>,
    now: u64,
    r: Result<(), u64>,
    after: Map<Seq<char>, BucketState>,
) -> bool {
    let prev = if before.contains_key(key) {
        Some(before[key])
    } else {
        None
    };
    let (answer, next) = rate_step(prev, max, now);
    &&& r == answer
    &&& after == match next {
        Some(b) => before.insert(key, b),
        None => before,
    }
}

/// The answers to requests at the times `ts`, in order, and the final state.
pub open spec fn rate_run(bucket: Option<BucketState>, max: u32, ts: Seq<u64>) -> (
    Seq<Result<(), u64>>,
    Option<BucketState>,
)
    decreases ts.len(),
{
    if ts.len() == 0 {
        (Seq::empty(), bucket)
    } else {
        let (rs, b) = rate_run(bucket, max, ts.drop_last());
        let (r, b2) = rate_step(b, max, ts.last());
        (rs.push(r), b2)
    }
}

/// The state of one client, with its key.
struct Bucket {
    key: String,
    count: u32,
    window_start: u64,
}

/// The view of a bucket: key, count, window start.
spec fn bucket_view(b: Bucket) -> (Seq<char>, u32, u64) {
    (b.key@, b.count, b.window_start)
}

/// The key of a bucket view.
spec fn bucket_key() -> spec_fn((Seq<char>, u32, u64)) -> Seq<char> {
    |b: (Seq<char>, u32, u64)| b.0
}

/// A fixed-window limiter over client keys.
pub struct RateLimiter {
    buckets: Vec<Bucket>,
    max_per_window: u32,
    origin: std::time::Instant,
}

impl RateLimiter {
    #[verifier::type_invariant]
    closed spec fn wf(self) -> bool {
        distinct_keys(self.buckets@.map_values(|b: Bucket| bucket_view(b)), bucket_key())
    }

    /// The limit per window.
    pub closed spec fn max(&self) -> u32 {
        self.max_per_window
    }

    /// The state of every client seen so far, by key.
    pub closed spec fn buckets(&self) -> Map<Seq<char>, BucketState> {
        keyed_map(self.buckets@.map_values(|b: Bucket| bucket_view(b)), bucket_key()).map_values(
            |b: (Seq<char>, u32, u64)| (b.1, b.2),
        )
    }

    /// A limiter allowing `max_per_minute` requests per client per minute;
    /// `0` disables limiting.
    pub fn new(max_per_minute: u32) -> (r: RateLimiter)
        ensures
            r.max() == max_per_minute,
            r.buckets() == Map::<Seq<char>, BucketState>::empty(),
    {
        let r = RateLimiter { buckets: Vec::new(), max_per_window: max_per_minute, origin: instant_now() };
        proof {
            lemma_keyed_empty(bucket_key());
            assert(r.buckets@.map_values(|b: Bucket| bucket_view(b)) =~= Seq::<
                (Seq<char>, u32, u64),
            >::empty());
            assert(r.buckets() =~= Map::<Seq<char>, BucketState>::empty());
        }
        r
    }

    /// Answers a request from `key` at time `now` (nanoseconds since the
    /// limiter was made): `Ok` when allowed, otherwise `Err` with the seconds
    /// to wait. Only the state of `key` changes.
    pub fn check_at(&mut self, key: &str, now: u64) -> (r: Result<(), u64>)
        ensures
            final(self).max() == old(self).max(),
            answered(old(self).buckets(), old(self).max(), key@, now, r, final(self).buckets()),
    {
        proof {
            use_type_invariant(&*self);
        }
        if self.max_per_window == 0 {
            proof {
                let before = old(self).buckets();
                if before.contains_key(key@) {
                    assert(before.insert(key@, before[key@]) =~= before);
                }
            }
            return Ok(());
        }
        let ghost v = self.buckets@.map_values(|b: Bucket| bucket_view(b));
        let ghost km = keyed_map(v, bucket_key());
        let mut i: usize = 0;
        while i < self.buckets.len() && !str_eq(self.buckets[i].key.as_str(), key)
            invariant
                i <= self.buckets@.len(),
                v == self.buckets@.map_values(|b: Bucket| bucket_view(b)),
                forall|j: int| 0 <= j < i ==> (#[trigger] v[j]).0 != key@,
            decreases self.buckets@.len() - i,
        {
            i = i + 1;
        }
        let max = self.max_per_window;
        if i < self.buckets.len() {
            proof {
                lemma_keyed_index(v, bucket_key(), i as int);
            }
            let count = self.buckets[i].count;
            let start = self.buckets[i].window_start;
            let elapsed: u64 = if now >= start {
                now - start
            } else {
                0
            };
            let (answer, new_count, new_start) = if elapsed >= WINDOW_NANOS {
                (Ok(()), 1u32, now)
            } else if count >= max {
                let left = (WINDOW_NANOS - elapsed) / 1_000_000_000u64;
                (Err(if left < 1 {
                    1
                } else {
                    left
                }), count, start)
            } else {
                (Ok(()), count + 1, start)
            };
            let b = Bucket { key: to_owned_string(key), count: new_count, window_start: new_start };
            let mut buckets: Vec<Bucket> = Vec::new();
            std::mem::swap(&mut buckets, &mut self.buckets);
            buckets.set(i, b);
            proof {
                assert(buckets@.map_values(|x: Bucket| bucket_view(x)) =~= v.update(
                    i as int,
                    (key@, new_count, new_start),
                ));
                lemma_keyed_update(v, bucket_key(), i as int, (key@, new_count, new_start));
                assert(km.insert(key@, (key@, new_count, new_start)).map_values(
                    |x: (Seq<char>, u32, u64)| (x.1, x.2),
                ) =~= km.map_values(|x: (Seq<char>, u32, u64)| (x.1, x.2)).insert(
                    key@,
                    (new_count, new_start),
                ));
            }
            self.buckets = buckets;
            answer
        } else {
            let b = Bucket { key: to_owned_string(key), count: 1, window_start: now };
            let mut buckets: Vec<Bucket> = Vec::new();
            std::mem::swap(&mut buckets, &mut self.buckets);
            buckets.push(b);
            proof {
                assert(!has_key(v, bucket_key(), key@));
                assert(buckets@.map_values(|x: Bucket| bucket_view(x)) =~= v.push((key@, 1u32, now)));
                lemma_keyed_push(v, bucket_key(), (key@, 1u32, now));
                assert(km.insert(key@, (key@, 1u32, now)).map_values(
                    |x: (Seq<char>, u32, u64)| (x.1, x.2),
                ) =~= km.map_values(|x: (Seq<char>, u32, u64)| (x.1, x.2)).insert(
                    key@,
                    (1u32, now),
                ));
            }
            self.buckets = buckets;
            Ok(())
        }
    }

    /// Answers a request from `key` now. The answer is what [`check_at`]
    /// gives at some time read from the monotonic clock.
    ///
    /// [`check_at`]: RateLimiter::check_at
    pub fn check(&mut self, key: &str) -> (r: Result<(), u64>)
        ensures
            final(self).max() == old(self).max(),
            exists|now: u64|
                #[trigger] answered(old(self).buckets(), old(self).max(), key@, now, r, final(self).buckets()),
    {
        let now = nanos_since(&self.origin);
        self.check_at(key, now)
    }
}

/// With a limit of zero every request is allowed and nothing is recorded.
pub proof fn lemma_zero_limit_allows(bucket: Option<BucketState>, now: u64)
    ensures
        rate_step(bucket, 0, now) == (Ok::<(), u64>(()), bucket),
{
}

/// A refused request is told to wait between one and sixty seconds.
pub proof fn lemma_retry_bounds(bucket: Option<BucketState>, max: u32, now: u64)
    ensures
        rate_step(bucket, max, now).0 matches Err(w) ==> 1 <= w <= 60,
{
}

/// Within one window, a new client's first `max` requests are allowed and
/// every later one is refused.
pub proof fn lemma_window_run(max: u32, ts: Seq<u64>)
    requires
        max > 0,
        ts.len() > 0,
        forall|i: int| 0 <= i < ts.len() ==> ts[0] <= #[trigger] ts[i] < ts[0] + WINDOW_NANOS,
    ensures
        rate_run(None, max, ts).0.len() == ts.len(),
        forall|i: int| 0 <= i < ts.len() ==> ((#[trigger] rate_run(None, max, ts).0[i]) is Ok <==> i < max),
        rate_run(None, max, ts).1 == Some(
            (if ts.len() < max { ts.len() as u32 } else { max }, ts[0]),
        ),
    decreases ts.len(),
{
    let (rs, b) = rate_run(None, max, ts.drop_last());
    if ts.len() == 1 {
        assert(ts.drop_last().len() == 0);
        assert(rs.len() == 0);
        assert(b is None);
    } else {
        let d = ts.drop_last();
        assert forall|i: int| 0 <= i < d.len() implies d[0] <= #[trigger] d[i] < d[0] + WINDOW_NANOS by {
            assert(d[i] == ts[i]);
        }
        lemma_window_run(max, d);
        assert(d[0] == ts[0]);
        let full = rate_run(None, max, ts).0;
        assert forall|i: int| 0 <= i < ts.len() implies ((#[trigger] full[i]) is Ok <==> i < max) by {
            if i < d.len() {
                assert(full[i] == rs[i]);
            }
        }
    }
}

/// The number of allowed answers among `rs`.
pub open spec fn allowed_count(rs: Seq<Result<(), u64>>) -> nat
    decreases rs.len(),
{
    if rs.len() == 0 {
        0
    } else {
        allowed_count(rs.drop_last()) + if rs.last() is Ok {
            1nat
        } else {
            0nat
        }
    }
}

/// The requests counted so far in a client's window.
pub open spec fn counted(bucket: Option<BucketState>) -> nat {
    match bucket {
        Some(b) => b.0 as nat,
        None => 0,
    }
}

/// When a client's window starts: its recorded start, or for a new client
/// the time `first` of its first request.
pub open spec fn window_start(bucket: Option<BucketState>, first: u64) -> u64 {
    match bucket {
        Some(b) => b.1,
        None => first,
    }
}

/// Within one window, a client is allowed at most `max` requests: for a
/// client with at most `max` requests counted, the requests at times `ts`
/// that all fall inside its current window (or, for a new client, within
/// sixty seconds after its first) are allowed at most as often as the limit
/// leaves, and the window keeps its start and counts exactly the allowed
/// ones.
pub proof fn lemma_window_cap(bucket: Option<BucketState>, max: u32, ts: Seq<u64>)
    requires
        max > 0,
        counted(bucket) <= max,
        ts.len() > 0 || bucket is Some,
        forall|i: int|
            0 <= i < ts.len() ==> window_start(bucket, ts[0]) <= #[trigger] ts[i] < window_start(
                bucket,
                ts[0],
            ) + WINDOW_NANOS,
    ensures
        rate_run(bucket, max, ts).0.len() == ts.len(),
        counted(bucket) + allowed_count(rate_run(bucket, max, ts).0) <= max,
        rate_run(bucket, max, ts).1 == Some(
            (
                (counted(bucket) + allowed_count(rate_run(bucket, max, ts).0)) as u32,
                window_start(bucket, ts[0]),
            ),
        ),
    decreases ts.len(),
{
    let s0 = window_start(bucket, ts[0]);
    if ts.len() == 0 {
        assert(rate_run(bucket, max, ts).0 =~= Seq::<Result<(), u64>>::empty());
    } else {
        let d = ts.drop_last();
        let t = ts.last();
        assert(s0 <= ts[ts.len() - 1] < s0 + WINDOW_NANOS);
        if d.len() == 0 && bucket is None {
            assert(rate_run(bucket, max, d).0 =~= Seq::<Result<(), u64>>::empty());
            let rs = rate_run(bucket, max, ts).0;
            assert(rs.drop_last() =~= Seq::<Result<(), u64>>::empty());
            assert(allowed_count(rs.drop_last()) == 0);
        } else {
            if d.len() > 0 {
                assert(d[0] == ts[0]);
            }
            assert(window_start(bucket, d[0]) == s0);
            assert forall|i: int| 0 <= i < d.len() implies window_start(bucket, d[0]) <= #[trigger] d[i]
                < window_start(bucket, d[0]) + WINDOW_NANOS by {
                assert(d[i] == ts[i]);
            }
            lemma_window_cap(bucket, max, d);
            let rs = rate_run(bucket, max, ts).0;
            assert(rs.drop_last() =~= rate_run(bucket, max, d).0);
        }
    }
}

/// A refused request changes nothing: the client keeps its state.
pub proof fn lemma_refusal_keeps_state(bucket: Option<BucketState>, max: u32, now: u64)
    ensures
        rate_step(bucket, max, now).0 is Err ==> rate_step(bucket, max, now).1 == bucket,
{
}

/// A request from one client changes no other client's state, so it
/// changes no other client's later answers.
pub proof fn lemma_other_clients_unaffected(
    before: Map<Seq<char>, BucketState>,
    max: u32,
    key: Seq<char>,
    now: u64,
    r: Result<(), u64>,
    after: Map<Seq<char>, BucketState>,
    other: Seq<char>,
)
    requires
        answered(before, max, key, now, r, after),
        other != key,
    ensures
        after.contains_key(other) == before.contains_key(other),
        before.contains_key(other) ==> after[other] == before[other],
{
}

/// The key a request is limited under: the first entry of
/// `X-Forwarded-For`, trimmed, when not empty; else `X-Real-IP` when not
/// empty; else `unknown`.
pub open spec fn client_key_of(forwarded_for: Option<Seq<char>>, real_ip: Option<Seq<char>>) -> Seq<
    char,
> {
    let first = match forwarded_for {
        Some(x) => trim(before_first(x, ',')),
        None => Seq::empty(),
    };
    if first.len() > 0 {
        first
    } else {
        match real_ip {
            Some(r) => if r.len() > 0 {
                r
            } else {
                "unknown"@
            },
            None => "unknown"@,
        }
    }
}

/// The key a request is limited under, from its proxy headers.
pub fn client_key(forwarded_for: Option<&str>, real_ip: Option<&str>) -> (r: String)
    ensures
        r@ == client_key_of(crate::node::opt_str(forwarded_for), crate::node::opt_str(real_ip)),
{
    proof {
        reveal_strlit("unknown");
    }
    if let Some(x) = forwarded_for {
        let first = before_first_char(x, ',');
        let v = chars_of(first.as_str());
        let t = trimmed_range(&v, 0, v.len());
        proof {
            assert(v@.subrange(0, v@.len() as int) =~= first@);
        }
        if !t.as_str().is_empty() {
            return t;
        }
    }
    match real_ip {
        Some(r) => if !r.is_empty() {
            to_owned_string(r)
        } else {
            to_owned_string("unknown")
        },
        None => to_owned_string("unknown"),
    }
}

} // verus!
