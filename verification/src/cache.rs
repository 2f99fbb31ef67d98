//! The TTL-bounded, capacity-bounded response cache.
//!
//! Fingerprints map to result values with an insertion time. A read treats a
//! stale entry as a miss; an insert sweeps stale entries first and, should
//! the capacity still be exceeded, evicts the oldest entry (ties broken by
//! fingerprint order).

use vstd::prelude::*;
use crate::json::{JsonValue, spec_ser, clone_value, bytes_eq};

verus! {

/// One cached result: the fingerprint, the result value, and the insertion
/// time in seconds.
pub struct CacheEntry {
    pub fp: Vec<u8>,
    pub value: JsonValue,
    pub at: u64,
}

/// An entry inserted at `at` is fresh at `now` while its age is at most
/// `ttl`; a clock that moved backwards never expires an entry.
pub open spec fn spec_fresh(at: u64, ttl: u64, now: u64) -> bool {
    now <= at + ttl
}

/// Whether an entry inserted at `at` is fresh at `now`.
pub fn is_fresh(at: u64, ttl: u64, now: u64) -> (r: bool)
    ensures
        r == spec_fresh(at, ttl, now),
{
    if now >= at {
        now - at <= ttl
    } else {
        true
    }
}

/// The response cache.
pub struct ResponseCache {
    pub entries: Vec<CacheEntry>,
    pub ttl: u64,
    pub cap: usize,
}

impl ResponseCache {
    /// Well-formed: positive capacity, at most `cap` entries, and pairwise
    /// distinct fingerprints.
    pub open spec fn wf(self) -> bool {
        &&& self.cap >= 1
        &&& self.entries@.len() <= self.cap
        &&& forall|i: int, j: int|
            0 <= i < j < self.entries@.len() ==> self.entries@[i].fp@ != self.entries@[j].fp@
    }

    /// The first fresh entry for `fp` at or after position `i`.
    pub open spec fn spec_get_from(
        s: Seq<CacheEntry>,
        fp: Seq<u8>,
        ttl: u64,
        now: u64,
        i: int,
    ) -> Option<JsonValue>
        decreases s.len() - i,
    {
        if i < 0 || i >= s.len() {
            None
        } else if s[i].fp@ == fp && spec_fresh(s[i].at, ttl, now) {
            Some(s[i].value)
        } else {
            Self::spec_get_from(s, fp, ttl, now, i + 1)
        }
    }

    /// The cached value for `fp` at time `now`: a fresh entry's value, or
    /// nothing.
    pub open spec fn spec_get(self, fp: Seq<u8>, now: u64) -> Option<JsonValue> {
        Self::spec_get_from(self.entries@, fp, self.ttl, now, 0)
    }

    /// An empty cache with the given TTL and capacity.
    pub fn new(ttl: u64, cap: usize) -> (r: ResponseCache)
        requires
            cap >= 1,
        ensures
            r.wf(),
            r.ttl == ttl,
            r.cap == cap,
            r.entries@.len() == 0,
    {
        ResponseCache { entries: Vec::new(), ttl, cap }
    }

    /// The number of entries held.
    pub fn len(&self) -> (r: usize)
        ensures
            r == self.entries@.len(),
    {
        self.entries.len()
    }

    /// The capacity bound.
    pub fn capacity(&self) -> (r: usize)
        ensures
            r == self.cap,
    {
        self.cap
    }

    /// Looks up `fp` at time `now`. A hit returns a deep copy of the stored
    /// value; a stale entry is a miss.
    pub fn get(&self, fp: &Vec<u8>, now: u64) -> (r: Option<JsonValue>)
        ensures
            match (r, self.spec_get(fp@, now)) {
                (Option::None, Option::None) => true,
                (Option::Some(a), Option::Some(b)) => spec_ser(a) == spec_ser(b),
                _ => false,
            },
    {
        let mut i: usize = 0;
        while i < self.entries.len()
            invariant
                i <= self.entries@.len(),
                self.spec_get(fp@, now) == Self::spec_get_from(
                    self.entries@,
                    fp@,
                    self.ttl,
                    now,
                    i as int,
                ),
            decreases self.entries@.len() - i,
        {
            if bytes_eq(&self.entries[i].fp, fp) && is_fresh(self.entries[i].at, self.ttl, now) {
                return Some(clone_value(&self.entries[i].value));
            }
            i = i + 1;
        }
        None
    }

    /// Inserts or replaces the entry for `fp`, sweeping stale entries and
    /// enforcing the capacity bound.
    #[verifier::rlimit(60)]
    pub fn put(&mut self, fp: Vec<u8>, value: JsonValue, now: u64)
        requires
            old(self).wf(),
        ensures
            final(self).wf(),
            final(self).ttl == old(self).ttl,
            final(self).cap == old(self).cap,
            // every surviving entry is fresh
            forall|i: int|
                0 <= i < final(self).entries@.len() ==> spec_fresh(
                    final(self).entries@[i].at,
                    old(self).ttl,
                    now,
                ),
            // nothing is fabricated: each entry is the new one or kept from before
            forall|i: int|
                0 <= i < final(self).entries@.len() ==> (final(self).entries@[i].fp@ == fp@
                    && final(self).entries@[i].value == value && final(self).entries@[i].at == now)
                    || (exists|j: int|
                    0 <= j < old(self).entries@.len() && final(self).entries@[i] == old(
                        self,
                    ).entries@[j]),
            // with room to spare, the new entry is retrievable
            old(self).entries@.len() < old(self).cap ==> final(self).spec_get(fp@, now)
                == Some(value),
    {
        let ghost fpv = fp@;
        let ghost valv = value;
        let ghost orig = self.entries@;
        let mut kept: Vec<CacheEntry> = Vec::new();
        let mut i: usize = 0;
        while self.entries.len() > 0
            invariant
                fpv == fp@,
                valv == value,
                orig == old(self).entries@,
                orig.len() <= old(self).cap,
                old(self).cap >= 1,
                self.ttl == old(self).ttl,
                self.cap == old(self).cap,
                i <= orig.len(),
                self.entries@ == orig.skip(i as int),
                kept@.len() <= i,
                forall|k: int|
                    0 <= k < kept@.len() ==> spec_fresh((#[trigger] kept@[k]).at, self.ttl, now)
                        && kept@[k].fp@ != fpv,
                forall|k: int|
                    0 <= k < kept@.len() ==> exists|j: int|
                        0 <= j < i && #[trigger] kept@[k] == orig[j],
                forall|k1: int, k2: int|
                    0 <= k1 < k2 < kept@.len() ==> kept@[k1].fp@ != kept@[k2].fp@,
                forall|a: int, b: int| 0 <= a < b < orig.len() ==> orig[a].fp@ != orig[b].fp@,
            decreases self.entries@.len(),
        {
            proof {
                assert(orig.skip(i as int).len() > 0);
                assert(i < orig.len());
            }
            let e = self.entries.remove(0);
            proof {
                assert(e == orig[i as int]);
                assert(orig.skip(i as int).remove(0) =~= orig.skip(i + 1));
            }
            let keep = !bytes_eq(&e.fp, &fp) && is_fresh(e.at, self.ttl, now);
            if keep {
                proof {
                    assert forall|k: int| 0 <= k < kept@.len() implies kept@[k].fp@
                        != e.fp@ by {
                        let j = choose|j: int| 0 <= j < i && kept@[k] == orig[j];
                        assert(orig[j].fp@ != orig[i as int].fp@);
                    }
                }
                kept.push(e);
            }
            i = i + 1;
        }
        let entry = CacheEntry { fp, value, at: now };
        proof {
            assert(entry.fp@ == fpv && entry.value == valv && entry.at == now);
        }
        let ghost swept = kept@;
        kept.push(entry);
        let ghost mid = kept@;
        proof {
            assert(mid == swept.push(entry));
            assert(mid[mid.len() - 1] == entry);
            assert forall|y1: int, y2: int| 0 <= y1 < y2 < mid.len() implies mid[y1].fp@
                != mid[y2].fp@ by {
                if y2 < mid.len() - 1 {
                    assert(mid[y1] == swept[y1] && mid[y2] == swept[y2]);
                    assert(swept[y1].fp@ != swept[y2].fp@);
                } else {
                    assert(mid[y1] == swept[y1] && mid[y2] == entry);
                    assert(swept[y1].fp@ != fpv);
                }
            }
            assert(forall|y: int|
                0 <= y < mid.len() ==> spec_fresh((#[trigger] mid[y]).at, old(self).ttl, now));
            assert forall|y: int| 0 <= y < mid.len() implies ((#[trigger] mid[y].fp@ == fpv
                && mid[y].value == valv && mid[y].at == now) || (exists|
                j: int,
            | 0 <= j < old(self).entries@.len() && mid[y] == old(self).entries@[j])) by {
                if y == mid.len() - 1 {
                    assert(mid[y] == entry);
                }
            }
            assert(mid.len() <= old(self).cap + 1);
        }
        self.entries = kept;
        if self.entries.len() > self.cap {
            // the oldest entry goes, ties broken by fingerprint order
            let mut m: usize = 0;
            let mut k: usize = 1;
            while k < self.entries.len()
                invariant
                    self.entries@ == mid,
                    self.ttl == old(self).ttl,
                    self.cap == old(self).cap,
                    mid.len() > 0,
                    m < mid.len(),
                    k <= mid.len(),
                decreases mid.len() - k,
            {
                if entry_older(&self.entries[k], &self.entries[m]) {
                    m = k;
                }
                k = k + 1;
            }
            self.entries.remove(m);
            proof {
                assert forall|x: int| 0 <= x < self.entries@.len() implies (exists|y: int|
                    0 <= y < mid.len() && #[trigger] self.entries@[x] == mid[y]) by {
                    if x < m {
                        assert(self.entries@[x] == mid[x]);
                    } else {
                        assert(self.entries@[x] == mid[x + 1]);
                    }
                }
                assert forall|x1: int, x2: int| 0 <= x1 < x2 < self.entries@.len() implies
                    self.entries@[x1].fp@ != self.entries@[x2].fp@ by {
                    let y1: int = if x1 < m {
                        x1
                    } else {
                        x1 + 1
                    };
                    let y2: int = if x2 < m {
                        x2
                    } else {
                        x2 + 1
                    };
                    assert(self.entries@[x1] == mid[y1]);
                    assert(self.entries@[x2] == mid[y2]);
                    assert(mid[y1].fp@ != mid[y2].fp@);
                }
                assert(self.entries@.len() == mid.len() - 1);
            }
        } else {
            proof {
                assert(self.entries@ == mid);
            }
        }
        proof {
            // freshness and provenance of every final entry
            assert forall|x: int| 0 <= x < self.entries@.len() implies (exists|y: int|
                0 <= y < mid.len() && #[trigger] self.entries@[x] == mid[y]) by {
                if self.entries@ == mid {
                    assert(self.entries@[x] == mid[x]);
                }
            }
            if old(self).entries@.len() < old(self).cap {
                assert(self.entries@ == mid);
                let last = self.entries@.len() - 1;
                assert(self.entries@[last].fp@ == fpv);
                Self::lemma_get_unique(self.entries@, fpv, self.ttl, now, last);
                assert(final(self).spec_get(fpv, now) == Some(valv));
            }
        }
    }

    /// With pairwise-distinct fingerprints, a fresh entry for `fp` is what
    /// the lookup returns.
    proof fn lemma_get_unique(s: Seq<CacheEntry>, fp: Seq<u8>, ttl: u64, now: u64, k: int)
        requires
            0 <= k < s.len(),
            s[k].fp@ == fp,
            spec_fresh(s[k].at, ttl, now),
            forall|i: int, j: int| 0 <= i < j < s.len() ==> s[i].fp@ != s[j].fp@,
        ensures
            Self::spec_get_from(s, fp, ttl, now, 0) == Some(s[k].value),
    {
        Self::lemma_get_unique_from(s, fp, ttl, now, k, 0);
    }

    /// Helper for `lemma_get_unique`, scanning from position `i`.
    proof fn lemma_get_unique_from(
        s: Seq<CacheEntry>,
        fp: Seq<u8>,
        ttl: u64,
        now: u64,
        k: int,
        i: int,
    )
        requires
            0 <= i <= k < s.len(),
            s[k].fp@ == fp,
            spec_fresh(s[k].at, ttl, now),
            forall|a: int, b: int| 0 <= a < b < s.len() ==> s[a].fp@ != s[b].fp@,
        ensures
            Self::spec_get_from(s, fp, ttl, now, i) == Some(s[k].value),
        decreases k - i,
    {
        if i < k {
            assert(s[i].fp@ != s[k].fp@);
            Self::lemma_get_unique_from(s, fp, ttl, now, k, i + 1);
        }
    }
}

/// Strict eviction order: older first, equal ages ordered by fingerprint
/// bytes.
fn entry_older(a: &CacheEntry, b: &CacheEntry) -> bool {
    if a.at != b.at {
        a.at < b.at
    } else {
        bytes_lt(&a.fp, &b.fp)
    }
}

/// Byte-wise lexicographic order on fingerprints.
fn bytes_lt(a: &Vec<u8>, b: &Vec<u8>) -> bool {
    let mut i: usize = 0;
    let n = if a.len() < b.len() {
        a.len()
    } else {
        b.len()
    };
    while i < n
        invariant
            i <= n,
            n <= a@.len(),
            n <= b@.len(),
        decreases n - i,
    {
        if a[i] < b[i] {
            return true;
        }
        if a[i] > b[i] {
            return false;
        }
        i = i + 1;
    }
    a.len() < b.len()
}

} // verus!
