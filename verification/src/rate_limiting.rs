//! Keyed token-bucket rate limiter.
//!
//! One bucket per API key, quota `q` tokens refilled continuously at a
//! rate of `q` tokens per time unit (one unit = 1000 milliseconds).
//! Token counts are kept in millitokens so that the continuous refill
//! is exact integer arithmetic: one admission costs 1000 millitokens,
//! and a bucket gains `q` millitokens per elapsed millisecond.
//!
//! The limiter is a sequential structure; a caller that shares it
//! across tasks guards it with a lock and supplies the current time,
//! so the consume-and-decide step for a key is indivisible.

use vstd::prelude::*;

verus! {

/// Default admission quota: requests per caller per time unit.
pub const QUOTA_PER_SECOND: u32 = 50;

/// Millitokens consumed by one admitted request; also the number of
/// milliseconds in one refill unit.
pub const MILLIS_PER_UNIT: u64 = 1000;

/// One virtual token bucket: its current content in millitokens and
/// the time (in milliseconds) it was last brought up to date.
#[derive(Clone, Copy, Debug, PartialEq, Eq, Structural)]
pub struct TokenBucket {
    pub millitokens: u64,
    pub last_refill_ms: u64,
}

/// The bucket capacity for quota `q`, in millitokens.
pub open spec fn bucket_cap(q: u32) -> int {
    q * 1000
}

/// A bucket as lazily created on first use: full at time `now`.
pub open spec fn full_bucket(q: u32, now: u64) -> TokenBucket {
    TokenBucket { millitokens: bucket_cap(q) as u64, last_refill_ms: now }
}

/// A bucket brought up to date at time `now`: it gains `q` millitokens
/// per elapsed millisecond, capped at the capacity.  A clock reading
/// older than the bucket's own changes nothing.
pub open spec fn refill(q: u32, b: TokenBucket, now: u64) -> TokenBucket {
    if now <= b.last_refill_ms {
        b
    } else if now - b.last_refill_ms >= 1000 {
        TokenBucket { millitokens: bucket_cap(q) as u64, last_refill_ms: now }
    } else {
        let gained = b.millitokens + q * (now - b.last_refill_ms);
        let filled = if gained >= bucket_cap(q) {
            bucket_cap(q)
        } else {
            gained
        };
        TokenBucket { millitokens: filled as u64, last_refill_ms: now }
    }
}

/// The up-to-date bucket a check observes for key `k` at time `now`:
/// the refilled stored bucket, or a fresh full one for an unknown key.
pub open spec fn avail_bucket(
    q: u32,
    m: Map<Seq<char>, TokenBucket>,
    k: Seq<char>,
    now: u64,
) -> TokenBucket {
    if m.contains_key(k) {
        refill(q, m[k], now)
    } else {
        full_bucket(q, now)
    }
}

/// Whether a check of key `k` at time `now` is admitted.
pub open spec fn check_allowed(
    q: u32,
    m: Map<Seq<char>, TokenBucket>,
    k: Seq<char>,
    now: u64,
) -> bool {
    avail_bucket(q, m, k, now).millitokens >= 1000
}

/// The limiter state after a check of key `k` at time `now`: on
/// admission the bucket loses one token, on denial it only comes up to
/// date; no other key changes.
pub open spec fn check_result(
    q: u32,
    m: Map<Seq<char>, TokenBucket>,
    k: Seq<char>,
    now: u64,
) -> Map<Seq<char>, TokenBucket> {
    let b = avail_bucket(q, m, k, now);
    if b.millitokens >= 1000 {
        m.insert(
            k,
            TokenBucket {
                millitokens: (b.millitokens - 1000) as u64,
                last_refill_ms: b.last_refill_ms,
            },
        )
    } else {
        m.insert(k, b)
    }
}

/// The limiter state after `n` consecutive checks of key `k`, all at
/// time `now`.
pub open spec fn after_checks(
    q: u32,
    m: Map<Seq<char>, TokenBucket>,
    k: Seq<char>,
    now: u64,
    n: nat,
) -> Map<Seq<char>, TokenBucket>
    decreases n,
{
    if n == 0 {
        m
    } else {
        check_result(q, after_checks(q, m, k, now, (n - 1) as nat), k, now)
    }
}

struct Entry {
    key: String,
    bucket: TokenBucket,
}

/// The per-key bucket table.  Its mathematical content is the map from
/// key to bucket given by [`RateLimiter::view`].
pub struct RateLimiter {
    quota: u32,
    entries: Vec<Entry>,
}

spec fn entries_map(s: Seq<Entry>) -> Map<Seq<char>, TokenBucket>
    decreases s.len(),
{
    if s.len() == 0 {
        Map::empty()
    } else {
        entries_map(s.drop_last()).insert(s.last().key@, s.last().bucket)
    }
}

spec fn entries_unique(s: Seq<Entry>) -> bool {
    forall|i: int, j: int| 0 <= i < j < s.len() ==> s[i].key@ != s[j].key@
}

proof fn lemma_entries_map_contains(s: Seq<Entry>)
    ensures
        forall|k: Seq<char>|
            entries_map(s).contains_key(k) <==> exists|i: int|
                0 <= i < s.len() && s[i].key@ == k,
    decreases s.len(),
{
    if s.len() > 0 {
        lemma_entries_map_contains(s.drop_last());
        assert forall|k: Seq<char>| entries_map(s).contains_key(k) implies exists|i: int|
            0 <= i < s.len() && s[i].key@ == k by {
            if k == s.last().key@ {
                assert(s[s.len() - 1].key@ == k);
            } else {
                assert(entries_map(s.drop_last()).contains_key(k));
                let i = choose|i: int| 0 <= i < s.drop_last().len() && s.drop_last()[i].key@ == k;
                assert(s.drop_last()[i] == s[i]);
                assert(s[i].key@ == k);
            }
        }
        assert forall|k: Seq<char>|
            (exists|i: int| 0 <= i < s.len() && s[i].key@ == k) implies entries_map(
            s,
        ).contains_key(k) by {
            let i = choose|i: int| 0 <= i < s.len() && s[i].key@ == k;
            if i < s.len() - 1 {
                assert(s.drop_last()[i] == s[i]);
                assert(0 <= i < s.drop_last().len() && s.drop_last()[i].key@ == k);
                assert(entries_map(s.drop_last()).contains_key(k));
            } else {
                assert(k == s.last().key@);
            }
        }
    }
}

proof fn lemma_entries_map_index(s: Seq<Entry>, i: int)
    requires
        entries_unique(s),
        0 <= i < s.len(),
    ensures
        entries_map(s).contains_key(s[i].key@),
        entries_map(s)[s[i].key@] == s[i].bucket,
    decreases s.len(),
{
    if i == s.len() - 1 {
    } else {
        lemma_entries_map_index(s.drop_last(), i);
        assert(s.drop_last()[i] == s[i]);
        assert(s.last().key@ != s[i].key@);
    }
}

proof fn lemma_entries_map_update(s: Seq<Entry>, i: int, b: TokenBucket)
    requires
        entries_unique(s),
        0 <= i < s.len(),
    ensures
        entries_map(s.update(i, Entry { key: s[i].key, bucket: b })) == entries_map(s).insert(
            s[i].key@,
            b,
        ),
    decreases s.len(),
{
    let s2 = s.update(i, Entry { key: s[i].key, bucket: b });
    if i == s.len() - 1 {
        assert(s2.drop_last() =~= s.drop_last());
        assert(entries_map(s2) =~= entries_map(s).insert(s[i].key@, b));
    } else {
        lemma_entries_map_update(s.drop_last(), i, b);
        assert(s2.drop_last() =~= s.drop_last().update(i, Entry { key: s[i].key, bucket: b }));
        assert(s2.last() == s.last());
        assert(s.last().key@ != s[i].key@);
        assert(entries_map(s2) =~= entries_map(s).insert(s[i].key@, b));
    }
}

impl RateLimiter {
    /// The map from key to stored bucket.
    pub closed spec fn view(&self) -> Map<Seq<char>, TokenBucket> {
        entries_map(self.entries@)
    }

    /// The quota this limiter was created with.
    pub closed spec fn quota_spec(&self) -> u32 {
        self.quota
    }

    /// Internal consistency: a positive quota, one entry per key, and
    /// no bucket above its capacity.
    pub closed spec fn wf(&self) -> bool {
        &&& self.quota >= 1
        &&& entries_unique(self.entries@)
        &&& forall|i: int|
            0 <= i < self.entries@.len() ==> (#[trigger] self.entries@[i]).bucket.millitokens
                <= bucket_cap(self.quota)
    }

    /// A limiter with no known keys.
    pub fn new(quota_per_second: u32) -> (r: RateLimiter)
        requires
            quota_per_second >= 1,
        ensures
            r.wf(),
            r@ == Map::<Seq<char>, TokenBucket>::empty(),
            r.quota_spec() == quota_per_second,
    {
        RateLimiter { quota: quota_per_second, entries: Vec::new() }
    }

    /// Atomically attempts to consume one token for `key` at time
    /// `now_ms`: on success the bucket loses one token, on failure
    /// (no token available) nothing is consumed.  An unknown key gets
    /// a fresh full bucket first.
    pub fn check(&mut self, key: &str, now_ms: u64) -> (allowed: bool)
        requires
            old(self).wf(),
        ensures
            final(self).wf(),
            final(self).quota_spec() == old(self).quota_spec(),
            allowed == check_allowed(old(self).quota_spec(), old(self)@, key@, now_ms),
            final(self)@ == check_result(old(self).quota_spec(), old(self)@, key@, now_ms),
    {
        let q = self.quota;
        let ghost m = self@;
        proof {
            lemma_entries_map_contains(self.entries@);
        }
        if let Some(idx) = Self::find_entry(&self.entries, key) {
            // known key: refill, then decide
            proof {
                lemma_entries_map_index(self.entries@, idx as int);
            }
            let stored = self.entries[idx].bucket;
            let fresh = Self::refill_bucket(q, stored, now_ms);
            assert(fresh == refill(q, m[key@], now_ms));
            if fresh.millitokens >= 1000 {
                let newb = TokenBucket {
                    millitokens: fresh.millitokens - 1000,
                    last_refill_ms: fresh.last_refill_ms,
                };
                proof {
                    lemma_entries_map_update(self.entries@, idx as int, newb);
                }
                self.entries[idx] = Entry { key: self.entries[idx].key.clone(), bucket: newb };
                true
            } else {
                proof {
                    lemma_entries_map_update(self.entries@, idx as int, fresh);
                }
                self.entries[idx] = Entry { key: self.entries[idx].key.clone(), bucket: fresh };
                false
            }
        } else {
            // unknown key: lazily create a full bucket, then consume
            assert(!m.contains_key(key@));
            assert(check_allowed(q, m, key@, now_ms)) by {
                assert(avail_bucket(q, m, key@, now_ms) == full_bucket(q, now_ms));
            }
            let cap = (q as u64) * 1000;
            let newb = TokenBucket { millitokens: cap - 1000, last_refill_ms: now_ms };
            self.entries.push(Entry { key: key.to_owned(), bucket: newb });
            proof {
                assert(self.entries@.drop_last() =~= old(self).entries@);
                assert(self@ =~= check_result(q, m, key@, now_ms));
            }
            true
        }
    }

    /// The position of `key` in the table, if present.
    fn find_entry(entries: &Vec<Entry>, key: &str) -> (r: Option<usize>)
        ensures
            match r {
                Some(i) => i < entries@.len() && entries@[i as int].key@ == key@,
                None => forall|i: int| 0 <= i < entries@.len() ==> entries@[i].key@ != key@,
            },
    {
        let mut idx: usize = 0;
        let n = entries.len();
        while idx < n
            invariant
                n == entries@.len(),
                idx <= n,
                forall|i: int| 0 <= i < idx ==> entries@[i].key@ != key@,
            decreases n - idx,
        {
            if crate::strutil::str_eq(entries[idx].key.as_str(), key) {
                return Some(idx);
            }
            idx += 1;
        }
        None
    }

    /// Brings a bucket up to date; mirrors [`refill`] exactly.
    fn refill_bucket(q: u32, b: TokenBucket, now: u64) -> (r: TokenBucket)
        requires
            q >= 1,
            b.millitokens <= bucket_cap(q),
        ensures
            r == refill(q, b, now),
            r.millitokens <= bucket_cap(q),
    {
        if now <= b.last_refill_ms {
            b
        } else if now - b.last_refill_ms >= 1000 {
            TokenBucket { millitokens: (q as u64) * 1000, last_refill_ms: now }
        } else {
            let elapsed = now - b.last_refill_ms;
            let cap = (q as u64) * 1000;
            assert((q as u64) * elapsed <= 0xFFFF_FFFFu64 * 999) by (nonlinear_arith)
                requires
                    q <= 0xFFFF_FFFFu64,
                    elapsed <= 999,
            ;
            let gained = b.millitokens + (q as u64) * elapsed;
            let filled = if gained >= cap {
                cap
            } else {
                gained
            };
            TokenBucket { millitokens: filled, last_refill_ms: now }
        }
    }
}

/// Token-bucket quota law, for a key first seen at time `t` under
/// quota `q`: each of the first `q` immediate checks is admitted and
/// leaves the bucket with exactly `1000 * (q - n)` millitokens; the
/// check after those `q` is denied; and one full time unit later the
/// key is admitted again.
pub proof fn lemma_token_bucket_quota(
    q: u32,
    m: Map<Seq<char>, TokenBucket>,
    k: Seq<char>,
    t: u64,
    n: nat,
)
    requires
        q >= 1,
        !m.contains_key(k),
        n <= q,
    ensures
        forall|i: nat| i < n ==> #[trigger] check_allowed(q, after_checks(q, m, k, t, i), k, t),
        n >= 1 ==> after_checks(q, m, k, t, n) == m.insert(
            k,
            TokenBucket { millitokens: (1000 * (q - n)) as u64, last_refill_ms: t },
        ),
        n == q ==> !check_allowed(q, after_checks(q, m, k, t, n), k, t),
        n == q && t + 1000 <= u64::MAX ==> check_allowed(
            q,
            after_checks(q, m, k, t, n),
            k,
            (t + 1000) as u64,
        ),
    decreases n,
{
    if n == 0 {
    } else {
        lemma_token_bucket_quota(q, m, k, t, (n - 1) as nat);
        let prev = after_checks(q, m, k, t, (n - 1) as nat);
        if n == 1 {
            assert(avail_bucket(q, prev, k, t) == full_bucket(q, t));
            assert(check_allowed(q, prev, k, t));
        } else {
            assert(prev[k] == TokenBucket {
                millitokens: (1000 * (q - (n - 1))) as u64,
                last_refill_ms: t,
            });
            assert(check_allowed(q, prev, k, t));
        }
        assert(after_checks(q, m, k, t, n) =~= m.insert(
            k,
            TokenBucket { millitokens: (1000 * (q - n)) as u64, last_refill_ms: t },
        ));
        if n == q {
            let last = after_checks(q, m, k, t, n);
            assert(last[k].millitokens == 0);
            assert(!check_allowed(q, last, k, t));
            if t + 1000 <= u64::MAX {
                let later = (t + 1000) as u64;
                assert(refill(q, last[k], later) == full_bucket(q, later));
                assert(check_allowed(q, last, k, later));
            }
        }
    }
}

} // verus!
