use vstd::prelude::*;

verus! {

/// Cap on the seen-key set; beyond it the oldest keys are evicted first.
pub const SEEN_CACHE_LIMIT: usize = 100000;

/// Cap on the transaction cache; beyond it the oldest entries are evicted.
pub const TX_CACHE_LIMIT: usize = 20000;

/// Seconds an outstanding request suppresses a duplicate `getdata`.
pub const REQUESTED_TTL_SECS: i64 = 120;

/// A cached transaction: its two identifiers and its raw wire bytes.
#[derive(Debug, Clone)]
pub struct TxEntry {
    pub txid: [u8; 32],
    pub wtxid: [u8; 32],
    pub bytes: Vec<u8>,
}

/// The process-wide relay state: the FIFO seen-key set, the outstanding
/// `getdata` requests with their timestamps, and the transaction cache.
pub struct RelayState {
    pub seen: Vec<[u8; 32]>,
    pub requested: Vec<([u8; 32], i64)>,
    pub cache: Vec<TxEntry>,
}

/// The raw seen set holds a key reading as `k`.
pub open spec fn seen_contains_key(s: Seq<[u8; 32]>, k: Seq<u8>) -> bool {
    exists|i: int| 0 <= i < s.len() && (#[trigger] s[i])@ == k
}

/// The seen set after inserting `k` (a no-op when present; the oldest key is
/// evicted over the cap).
pub open spec fn seen_insert(s: Seq<[u8; 32]>, k: [u8; 32]) -> Seq<[u8; 32]> {
    if seen_contains_key(s, k@) {
        s
    } else if s.len() < SEEN_CACHE_LIMIT {
        s.push(k)
    } else {
        s.push(k).drop_first()
    }
}

/// Mathematical value of a cached transaction.
#[verifier::ext_equal]
pub struct TxEntryV {
    pub txid: Seq<u8>,
    pub wtxid: Seq<u8>,
    pub bytes: Seq<u8>,
}

impl View for TxEntry {
    type V = TxEntryV;

    open spec fn view(&self) -> TxEntryV {
        TxEntryV { txid: self.txid@, wtxid: self.wtxid@, bytes: self.bytes@ }
    }
}

impl DeepView for TxEntry {
    type V = TxEntryV;

    open spec fn deep_view(&self) -> TxEntryV {
        self.view()
    }
}

/// The cache after storing a new entry, evicting the oldest over the cap.
pub open spec fn cache_insert(c: Seq<TxEntryV>, e: TxEntryV) -> Seq<TxEntryV> {
    if c.len() < TX_CACHE_LIMIT {
        c.push(e)
    } else {
        c.push(e).drop_first()
    }
}

/// The cached bytes for a txid: those of the first entry carrying it.
pub open spec fn cache_bytes_for_txid(c: Seq<TxEntryV>, id: Seq<u8>) -> Option<Seq<u8>>
    decreases c.len(),
{
    if c.len() == 0 {
        None
    } else if c[0].txid == id {
        Some(c[0].bytes)
    } else {
        cache_bytes_for_txid(c.drop_first(), id)
    }
}

/// The cached bytes for a wtxid: those of the first entry carrying it.
pub open spec fn cache_bytes_for_wtxid(c: Seq<TxEntryV>, id: Seq<u8>) -> Option<Seq<u8>>
    decreases c.len(),
{
    if c.len() == 0 {
        None
    } else if c[0].wtxid == id {
        Some(c[0].bytes)
    } else {
        cache_bytes_for_wtxid(c.drop_first(), id)
    }
}

/// A first match at `i` pins the txid lookup.
proof fn lemma_cache_txid_found(c: Seq<TxEntryV>, id: Seq<u8>, i: int)
    requires
        0 <= i < c.len(),
        c[i].txid == id,
        forall|j: int| 0 <= j < i ==> (#[trigger] c[j]).txid != id,
    ensures
        cache_bytes_for_txid(c, id) == Some(c[i].bytes),
    decreases c.len(),
{
    if i == 0 {
    } else {
        assert(forall|j: int| 0 <= j < i - 1 ==> (#[trigger] c.drop_first()[j]).txid != id);
        assert(c.drop_first()[i - 1] == c[i]);
        lemma_cache_txid_found(c.drop_first(), id, i - 1);
    }
}

/// No match anywhere means the txid lookup is empty.
proof fn lemma_cache_txid_none(c: Seq<TxEntryV>, id: Seq<u8>)
    requires
        forall|j: int| 0 <= j < c.len() ==> (#[trigger] c[j]).txid != id,
    ensures
        cache_bytes_for_txid(c, id) is None,
    decreases c.len(),
{
    if c.len() > 0 {
        assert(forall|j: int|
            0 <= j < c.drop_first().len() ==> (#[trigger] c.drop_first()[j]).txid != id);
        lemma_cache_txid_none(c.drop_first(), id);
    }
}

/// A first match at `i` pins the wtxid lookup.
proof fn lemma_cache_wtxid_found(c: Seq<TxEntryV>, id: Seq<u8>, i: int)
    requires
        0 <= i < c.len(),
        c[i].wtxid == id,
        forall|j: int| 0 <= j < i ==> (#[trigger] c[j]).wtxid != id,
    ensures
        cache_bytes_for_wtxid(c, id) == Some(c[i].bytes),
    decreases c.len(),
{
    if i == 0 {
    } else {
        assert(forall|j: int| 0 <= j < i - 1 ==> (#[trigger] c.drop_first()[j]).wtxid != id);
        assert(c.drop_first()[i - 1] == c[i]);
        lemma_cache_wtxid_found(c.drop_first(), id, i - 1);
    }
}

/// No match anywhere means the wtxid lookup is empty.
proof fn lemma_cache_wtxid_none(c: Seq<TxEntryV>, id: Seq<u8>)
    requires
        forall|j: int| 0 <= j < c.len() ==> (#[trigger] c[j]).wtxid != id,
    ensures
        cache_bytes_for_wtxid(c, id) is None,
    decreases c.len(),
{
    if c.len() > 0 {
        assert(forall|j: int|
            0 <= j < c.drop_first().len() ==> (#[trigger] c.drop_first()[j]).wtxid != id);
        lemma_cache_wtxid_none(c.drop_first(), id);
    }
}

/// `s` holds an entry whose key reads as `k`.
pub open spec fn has_key(s: Seq<([u8; 32], i64)>, k: Seq<u8>) -> bool {
    exists|i: int| 0 <= i < s.len() && (#[trigger] s[i]).0@ == k
}

/// The requested table after dropping every entry older than the TTL.
pub open spec fn gc_requested(s: Seq<([u8; 32], i64)>, now: i64) -> Seq<([u8; 32], i64)>
    decreases s.len(),
{
    if s.len() == 0 {
        Seq::empty()
    } else if now - s[0].1 < REQUESTED_TTL_SECS {
        seq![s[0]] + gc_requested(s.drop_first(), now)
    } else {
        gc_requested(s.drop_first(), now)
    }
}

/// The requested table with every entry for key `k` removed.
pub open spec fn without_key(s: Seq<([u8; 32], i64)>, k: Seq<u8>) -> Seq<([u8; 32], i64)>
    decreases s.len(),
{
    if s.len() == 0 {
        Seq::empty()
    } else if s[0].0@ != k {
        seq![s[0]] + without_key(s.drop_first(), k)
    } else {
        without_key(s.drop_first(), k)
    }
}

/// A key survives the garbage collection exactly if one of its entries is
/// still fresh.
pub proof fn lemma_gc_requested_has(s: Seq<([u8; 32], i64)>, now: i64, k: Seq<u8>)
    ensures
        has_key(gc_requested(s, now), k) <==> exists|i: int|
            0 <= i < s.len() && (#[trigger] s[i]).0@ == k && now - s[i].1 < REQUESTED_TTL_SECS,
    decreases s.len(),
{
    if s.len() == 0 {
    } else {
        lemma_gc_requested_has(s.drop_first(), now, k);
        let g = gc_requested(s, now);
        let gd = gc_requested(s.drop_first(), now);
        if now - s[0].1 < REQUESTED_TTL_SECS {
            assert(g == seq![s[0]] + gd);
            if s[0].0@ == k {
                assert(g[0] == s[0]);
                assert(has_key(g, k));
            }
            if has_key(g, k) {
                let i = choose|i: int| 0 <= i < g.len() && (#[trigger] g[i]).0@ == k;
                if i > 0 {
                    assert(gd[i - 1] == g[i]);
                    assert(has_key(gd, k));
                }
            }
            if has_key(gd, k) {
                let i = choose|i: int| 0 <= i < gd.len() && (#[trigger] gd[i]).0@ == k;
                assert(g[i + 1] == gd[i]);
                assert(has_key(g, k));
            }
        } else {
            if has_key(gd, k) {
            }
        }
        if exists|i: int|
            0 <= i < s.len() && (#[trigger] s[i]).0@ == k && now - s[i].1 < REQUESTED_TTL_SECS {
            let i = choose|i: int|
                0 <= i < s.len() && (#[trigger] s[i]).0@ == k && now - s[i].1
                    < REQUESTED_TTL_SECS;
            if i > 0 {
                assert(s.drop_first()[i - 1] == s[i]);
            }
        }
        if exists|i: int|
            0 <= i < s.drop_first().len() && (#[trigger] s.drop_first()[i]).0@ == k && now
                - s.drop_first()[i].1 < REQUESTED_TTL_SECS {
            let i = choose|i: int|
                0 <= i < s.drop_first().len() && (#[trigger] s.drop_first()[i]).0@ == k && now
                    - s.drop_first()[i].1 < REQUESTED_TTL_SECS;
            assert(s[i + 1] == s.drop_first()[i]);
        }
    }
}

impl RelayState {
    /// Whether `k` is in the seen set.
    pub open spec fn seen_has(self, k: Seq<u8>) -> bool {
        seen_contains_key(self.seen@, k)
    }

    /// The cache as mathematical values.
    pub open spec fn cache_v(self) -> Seq<TxEntryV> {
        self.cache.deep_view()
    }

    /// Whether an outstanding request for `k` exists.
    pub open spec fn requested_has(self, k: Seq<u8>) -> bool {
        has_key(self.requested@, k)
    }

    /// Whether the cache holds a transaction with this txid.
    pub open spec fn cache_has(self, txid: Seq<u8>) -> bool {
        exists|i: int| 0 <= i < self.cache@.len() && (#[trigger] self.cache@[i]).txid@ == txid
    }

    /// Size bounds and txid uniqueness of the cache.
    pub open spec fn wf(self) -> bool {
        &&& self.seen@.len() <= SEEN_CACHE_LIMIT
        &&& self.cache@.len() <= TX_CACHE_LIMIT
        &&& forall|i: int, j: int|
            0 <= i < j < self.cache@.len() ==> (#[trigger] self.cache@[i]).txid@ != (
            #[trigger] self.cache@[j]).txid@
    }

    /// An empty relay state.
    pub fn new() -> (r: RelayState)
        ensures
            r.wf(),
            r.seen@.len() == 0,
            r.requested@.len() == 0,
            r.cache@.len() == 0,
    {
        RelayState { seen: Vec::new(), requested: Vec::new(), cache: Vec::new() }
    }

    /// Drops requests older than the TTL; the rest of the state is untouched.
    pub fn cleanup_requested(&mut self, now: i64)
        ensures
            final(self).requested@ == gc_requested(old(self).requested@, now),
            final(self).seen == old(self).seen,
            final(self).cache == old(self).cache,
    {
        let n = self.requested.len();
        let mut out: Vec<([u8; 32], i64)> = Vec::new();
        let mut i: usize = 0;
        proof {
            assert(self.requested@.skip(0) =~= self.requested@);
            assert(out@ + gc_requested(self.requested@, now) =~= gc_requested(
                self.requested@,
                now,
            ));
        }
        while i < n
            invariant
                n == self.requested@.len(),
                i <= n,
                gc_requested(self.requested@, now) == out@ + gc_requested(
                    self.requested@.skip(i as int),
                    now,
                ),
            decreases n - i,
        {
            let (k, t) = self.requested[i];
            let ghost tail = self.requested@.skip(i as int);
            proof {
                assert(tail[0] == self.requested@[i as int]);
                assert(tail.drop_first() =~= self.requested@.skip(i + 1));
            }
            let ghost prev = out@;
            let fresh = (now as i128) - (t as i128) < REQUESTED_TTL_SECS as i128;
            if fresh {
                out.push((k, t));
                proof {
                    assert(prev + (seq![tail[0]] + gc_requested(
                        self.requested@.skip(i + 1),
                        now,
                    )) =~= out@ + gc_requested(self.requested@.skip(i + 1), now));
                }
            }
            i += 1;
        }
        proof {
            assert(self.requested@.skip(n as int).len() == 0);
            assert(out@ + Seq::<([u8; 32], i64)>::empty() =~= out@);
        }
        self.requested = out;
    }

    /// Exec mirror of `seen_has`.
    pub fn seen_contains(&self, k: &[u8; 32]) -> (r: bool)
        ensures
            r == self.seen_has(k@),
    {
        let n = self.seen.len();
        let mut i: usize = 0;
        while i < n
            invariant
                n == self.seen@.len(),
                i <= n,
                forall|j: int| 0 <= j < i ==> (#[trigger] self.seen@[j])@ != k@,
            decreases n - i,
        {
            if key_eq(&self.seen[i], k) {
                return true;
            }
            i += 1;
        }
        false
    }

    /// Exec mirror of `requested_has`.
    pub fn requested_contains(&self, k: &[u8; 32]) -> (r: bool)
        ensures
            r == self.requested_has(k@),
    {
        let n = self.requested.len();
        let mut i: usize = 0;
        while i < n
            invariant
                n == self.requested@.len(),
                i <= n,
                forall|j: int| 0 <= j < i ==> (#[trigger] self.requested@[j]).0@ != k@,
            decreases n - i,
        {
            if key_eq(&self.requested[i].0, k) {
                return true;
            }
            i += 1;
        }
        false
    }

    /// Garbage-collects the request table, then records a request for `k` at
    /// `now` unless the key is already seen or still outstanding. Returns
    /// whether the caller should issue a `getdata` for it.
    pub fn mark_requested(&mut self, k: [u8; 32], now: i64) -> (r: bool)
        ensures
            r == (!old(self).seen_has(k@) && !has_key(
                gc_requested(old(self).requested@, now),
                k@,
            )),
            final(self).requested@ == if r {
                gc_requested(old(self).requested@, now).push((k, now))
            } else {
                gc_requested(old(self).requested@, now)
            },
            final(self).seen == old(self).seen,
            final(self).cache == old(self).cache,
    {
        self.cleanup_requested(now);
        if self.seen_contains(&k) || self.requested_contains(&k) {
            return false;
        }
        self.requested.push((k, now));
        true
    }

    /// Inserts `k` into the seen set unless present, evicting the oldest key
    /// over the cap; returns whether `k` was new.
    pub fn mark_seen(&mut self, k: [u8; 32]) -> (r: bool)
        requires
            old(self).wf(),
        ensures
            final(self).wf(),
            r == !old(self).seen_has(k@),
            final(self).seen@ == if !r {
                old(self).seen@
            } else if old(self).seen@.len() < SEEN_CACHE_LIMIT {
                old(self).seen@.push(k)
            } else {
                old(self).seen@.push(k).drop_first()
            },
            final(self).requested == old(self).requested,
            final(self).cache == old(self).cache,
            final(self).seen_has(k@),
    {
        if self.seen_contains(&k) {
            proof {
                let i = choose|i: int|
                    0 <= i < self.seen@.len() && (#[trigger] self.seen@[i])@ == k@;
                assert(self.seen_has(k@));
            }
            return false;
        }
        self.seen.push(k);
        if self.seen.len() > SEEN_CACHE_LIMIT {
            self.seen.remove(0);
            proof {
                assert(self.seen@ =~= old(self).seen@.push(k).drop_first());
                let last = self.seen@.len() - 1;
                assert(self.seen@[last]@ == k@);
            }
        } else {
            proof {
                let last = self.seen@.len() - 1;
                assert(self.seen@[last]@ == k@);
            }
        }
        true
    }

    /// Forgets the outstanding request for `k`, if any.
    pub fn complete_request(&mut self, k: &[u8; 32])
        ensures
            final(self).requested@ == without_key(old(self).requested@, k@),
            final(self).seen == old(self).seen,
            final(self).cache == old(self).cache,
            !final(self).requested_has(k@),
    {
        let n = self.requested.len();
        let mut out: Vec<([u8; 32], i64)> = Vec::new();
        let mut i: usize = 0;
        proof {
            assert(self.requested@.skip(0) =~= self.requested@);
            assert(out@ + without_key(self.requested@, k@) =~= without_key(
                self.requested@,
                k@,
            ));
        }
        while i < n
            invariant
                n == self.requested@.len(),
                i <= n,
                forall|j: int| 0 <= j < out@.len() ==> (#[trigger] out@[j]).0@ != k@,
                without_key(self.requested@, k@) == out@ + without_key(
                    self.requested@.skip(i as int),
                    k@,
                ),
            decreases n - i,
        {
            let e = self.requested[i];
            let ghost tail = self.requested@.skip(i as int);
            proof {
                assert(tail[0] == self.requested@[i as int]);
                assert(tail.drop_first() =~= self.requested@.skip(i + 1));
            }
            let ghost prev = out@;
            if !key_eq(&e.0, k) {
                out.push(e);
                proof {
                    assert(prev + (seq![tail[0]] + without_key(
                        self.requested@.skip(i + 1),
                        k@,
                    )) =~= out@ + without_key(self.requested@.skip(i + 1), k@));
                }
            }
            i += 1;
        }
        proof {
            assert(self.requested@.skip(n as int).len() == 0);
            assert(out@ + Seq::<([u8; 32], i64)>::empty() =~= out@);
        }
        self.requested = out;
    }

    /// Looks a transaction up by txid.
    pub fn get_tx(&self, txid: &[u8; 32]) -> (r: Option<Vec<u8>>)
        ensures
            match r {
                Some(b) => exists|i: int|
                    0 <= i < self.cache@.len() && (#[trigger] self.cache@[i]).txid@ == txid@
                        && b@ == self.cache@[i].bytes@,
                None => !self.cache_has(txid@),
            },
            r matches Some(b) ==> exists|i: int|
                0 <= i < self.cache@.len() && b@ == (#[trigger] self.cache@[i]).bytes@,
            match r {
                Some(b) => cache_bytes_for_txid(self.cache_v(), txid@) == Some(b@),
                None => cache_bytes_for_txid(self.cache_v(), txid@) is None,
            },
    {
        let n = self.cache.len();
        let mut i: usize = 0;
        while i < n
            invariant
                n == self.cache@.len(),
                i <= n,
                forall|j: int| 0 <= j < i ==> (#[trigger] self.cache@[j]).txid@ != txid@,
            decreases n - i,
        {
            if key_eq(&self.cache[i].txid, txid) {
                proof {
                    assert forall|j: int| 0 <= j < i implies (#[trigger] self.cache_v()[j]).txid
                        != txid@ by {
                        assert(self.cache_v()[j] == self.cache@[j]@);
                    }
                    assert(self.cache_v()[i as int] == self.cache@[i as int]@);
                    lemma_cache_txid_found(self.cache_v(), txid@, i as int);
                }
                return Some(self.cache[i].bytes.clone());
            }
            i += 1;
        }
        proof {
            assert forall|j: int|
                0 <= j < self.cache_v().len() implies (#[trigger] self.cache_v()[j]).txid
                != txid@ by {
                assert(self.cache_v()[j] == self.cache@[j]@);
            }
            lemma_cache_txid_none(self.cache_v(), txid@);
        }
        None
    }

    /// Looks a transaction up by wtxid.
    pub fn get_tx_by_wtxid(&self, wtxid: &[u8; 32]) -> (r: Option<Vec<u8>>)
        ensures
            match r {
                Some(b) => exists|i: int|
                    0 <= i < self.cache@.len() && (#[trigger] self.cache@[i]).wtxid@ == wtxid@
                        && b@ == self.cache@[i].bytes@,
                None => forall|i: int|
                    0 <= i < self.cache@.len() ==> (#[trigger] self.cache@[i]).wtxid@ != wtxid@,
            },
            r matches Some(b) ==> exists|i: int|
                0 <= i < self.cache@.len() && b@ == (#[trigger] self.cache@[i]).bytes@,
            match r {
                Some(b) => cache_bytes_for_wtxid(self.cache_v(), wtxid@) == Some(b@),
                None => cache_bytes_for_wtxid(self.cache_v(), wtxid@) is None,
            },
    {
        let n = self.cache.len();
        let mut i: usize = 0;
        while i < n
            invariant
                n == self.cache@.len(),
                i <= n,
                forall|j: int| 0 <= j < i ==> (#[trigger] self.cache@[j]).wtxid@ != wtxid@,
            decreases n - i,
        {
            if key_eq(&self.cache[i].wtxid, wtxid) {
                proof {
                    assert forall|j: int| 0 <= j < i implies (#[trigger] self.cache_v()[j]).wtxid
                        != wtxid@ by {
                        assert(self.cache_v()[j] == self.cache@[j]@);
                    }
                    assert(self.cache_v()[i as int] == self.cache@[i as int]@);
                    lemma_cache_wtxid_found(self.cache_v(), wtxid@, i as int);
                }
                return Some(self.cache[i].bytes.clone());
            }
            i += 1;
        }
        proof {
            assert forall|j: int|
                0 <= j < self.cache_v().len() implies (#[trigger] self.cache_v()[j]).wtxid
                != wtxid@ by {
                assert(self.cache_v()[j] == self.cache@[j]@);
            }
            lemma_cache_wtxid_none(self.cache_v(), wtxid@);
        }
        None
    }

    /// Stores a newly seen transaction, evicting the oldest entry over the
    /// cap. The caller ensures the txid is not cached yet, which the relay
    /// engine guarantees by only storing first observations.
    pub fn insert_tx(&mut self, txid: [u8; 32], wtxid: [u8; 32], bytes: Vec<u8>)
        requires
            old(self).wf(),
            !old(self).cache_has(txid@),
        ensures
            final(self).wf(),
            final(self).cache@ == if old(self).cache@.len() < TX_CACHE_LIMIT {
                old(self).cache@.push(TxEntry { txid, wtxid, bytes })
            } else {
                old(self).cache@.push(TxEntry { txid, wtxid, bytes }).drop_first()
            },
            final(self).seen == old(self).seen,
            final(self).requested == old(self).requested,
            final(self).cache_has(txid@),
    {
        let e = TxEntry { txid, wtxid, bytes };
        self.cache.push(e);
        if self.cache.len() > TX_CACHE_LIMIT {
            self.cache.remove(0);
            proof {
                assert(self.cache@ =~= old(self).cache@.push(
                    TxEntry { txid, wtxid, bytes },
                ).drop_first());
                let last = self.cache@.len() - 1;
                assert(self.cache@[last].txid@ == txid@);
            }
        } else {
            proof {
                let last = self.cache@.len() - 1;
                assert(self.cache@[last].txid@ == txid@);
            }
        }
    }
}

/// Byte-wise equality of two 32-byte keys.
pub fn key_eq(a: &[u8; 32], b: &[u8; 32]) -> (r: bool)
    ensures
        r == (a@ == b@),
{
    let mut i: usize = 0;
    while i < 32
        invariant
            i <= 32,
            forall|j: int| 0 <= j < i ==> a@[j] == b@[j],
        decreases 32 - i,
    {
        if a[i] != b[i] {
            return false;
        }
        i += 1;
    }
    proof {
        assert(a@ =~= b@);
    }
    true
}

/// Once every outstanding request for `k` is at least the TTL old, the key
/// no longer counts as requested after garbage collection: it is eligible
/// for a fresh request.
pub proof fn lemma_requested_ttl(s: RelayState, k: [u8; 32], now: i64)
    requires
        forall|i: int|
            0 <= i < s.requested@.len() && (#[trigger] s.requested@[i]).0@ == k@ ==> now
                - s.requested@[i].1 >= REQUESTED_TTL_SECS,
    ensures
        !has_key(gc_requested(s.requested@, now), k@),
{
    lemma_gc_requested_has(s.requested@, now, k@);
}

} // verus!
