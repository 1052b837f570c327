use vstd::prelude::*;

use crate::features::{ClientFeatures, FeatureStore};
use crate::registry::{RefreshRegistry, TokenRefresh};
use crate::token::{EdgeToken, TokenValidationStatus};
use crate::token_cache::TokenCache;

verus! {

/// What upstream answered to a conditional feature fetch.
#[derive(Clone, Debug)]
pub enum FetchOutcome {
    /// 200 with a new payload and ETag.
    Updated(ClientFeatures),
    /// 304: the payload behind the ETag sent is still current.
    NoUpdate,
    /// 401 or 403: the token may no longer read features.
    Unauthorized,
    /// A network error, a 5xx or a timeout.
    Failed,
}

/// The caches of the edge: tokens (keyed by token string), feature payloads
/// and engines (keyed by environment), and the refresh targets.
pub struct EdgeCaches {
    pub tokens: TokenCache,
    pub features: FeatureStore,
    pub targets: RefreshRegistry,
}

/// Every record of `m` is stored under its own token string.
pub open spec fn keyed_by_token(m: Map<Seq<char>, EdgeToken>) -> bool {
    forall|k: Seq<char>| #[trigger] m.contains_key(k) ==> m[k].token@ == k
}

/// The bookkeeping after a 200: new ETag, both timestamps moved to `now`.
pub open spec fn after_update(t: TokenRefresh, f: ClientFeatures, now: u64) -> TokenRefresh {
    TokenRefresh { etag: Some(f.etag), last_refreshed: Some(now), last_check: Some(now), ..t }
}

/// The bookkeeping after a 304: only the last check moves to `now`.
pub open spec fn after_check(t: TokenRefresh, now: u64) -> TokenRefresh {
    TokenRefresh { last_check: Some(now), ..t }
}

/// Two 304s in a row leave ETag, token and last refresh as they were; only
/// the last check moves, to the time of the second.
pub proof fn lemma_repeated_not_modified(t: TokenRefresh, first: u64, second: u64)
    ensures
        after_check(after_check(t, first), second) == after_check(t, second),
        after_check(after_check(t, first), second).etag == t.etag,
        after_check(after_check(t, first), second).last_refreshed == t.last_refreshed,
        after_check(after_check(t, first), second).token == t.token,
        after_check(after_check(t, first), second).last_check == Some(second),
{
}

/// `r` cuts `0..n` into consecutive non-empty ranges of `cap` each, but for
/// the last, which may be shorter.
pub open spec fn batches_of(r: Seq<(usize, usize)>, n: nat, cap: nat) -> bool {
    &&& n == 0 ==> r.len() == 0
    &&& n > 0 ==> r.len() > 0 && r[0].0 == 0 && r.last().1 == n
    &&& forall|k: int| 0 <= k < r.len() ==> #[trigger] r[k].0 < r[k].1 && r[k].1 - r[k].0 <= cap
    &&& forall|k: int| 0 <= k < r.len() - 1 ==> #[trigger] r[k].1 == r[k + 1].0
    &&& forall|k: int| 0 <= k < r.len() - 1 ==> #[trigger] r[k].1 - r[k].0 == cap
}

/// Splits the `n` fetches of one tick into batches of at most
/// `max_in_flight`, run one batch after another.
pub fn tick_batches(n: usize, max_in_flight: usize) -> (r: Vec<(usize, usize)>)
    requires
        max_in_flight > 0,
    ensures
        batches_of(r@, n as nat, max_in_flight as nat),
{
    let mut r: Vec<(usize, usize)> = Vec::new();
    let mut start: usize = 0;
    while start < n
        invariant
            start <= n,
            max_in_flight > 0,
            start == 0 ==> r@.len() == 0,
            start > 0 ==> r@.len() > 0 && r@[0].0 == 0 && r@.last().1 == start,
            forall|k: int| 0 <= k < r@.len() ==> #[trigger] r@[k].0 < r@[k].1 && r@[k].1 - r@[k].0 <= max_in_flight,
            forall|k: int| 0 <= k < r@.len() - 1 ==> #[trigger] r@[k].1 == r@[k + 1].0,
            forall|k: int| 0 <= k < r@.len() ==> #[trigger] r@[k].1 <= start,
            forall|k: int|
                0 <= k < r@.len() ==> #[trigger] r@[k].1 - r@[k].0 == max_in_flight || r@[k].1 == n,
        decreases n - start,
    {
        let end = if n - start > max_in_flight {
            start + max_in_flight
        } else {
            n
        };
        r.push((start, end));
        start = end;
    }
    assert forall|k: int| 0 <= k < r@.len() - 1 implies #[trigger] r@[k].1 - r@[k].0 == max_in_flight by {
        assert(r@[k].1 == r@[k + 1].0);
        assert(r@[k + 1].1 <= n);
    }
    r
}

impl EdgeCaches {
    pub open spec fn wf(&self) -> bool {
        &&& keyed_by_token(self.tokens@)
        &&& self.features.wf()
        &&& self.targets.wf()
    }

    /// Empty caches.
    pub fn new() -> (r: EdgeCaches)
        ensures
            r.wf(),
            r.tokens@ == Map::<Seq<char>, EdgeToken>::empty(),
            r.features@ == Map::<Seq<char>, ClientFeatures>::empty(),
            r.targets@ == Map::<Seq<char>, TokenRefresh>::empty(),
    {
        EdgeCaches { tokens: TokenCache::new(), features: FeatureStore::new(), targets: RefreshRegistry::new() }
    }

    /// Stores `record` under its token string.
    pub fn put_token(&mut self, record: EdgeToken)
        requires
            old(self).wf(),
        ensures
            final(self).wf(),
            final(self).tokens@ == old(self).tokens@.insert(record.token@, record),
            final(self).features == old(self).features,
            final(self).targets@ == old(self).targets@,
    {
        let key = record.token.clone();
        self.tokens.insert(key, record);
    }

    /// Applies upstream's answer to the fetch for the target of `token`,
    /// made at time `now`.
    pub fn apply_fetch_outcome(&mut self, token: &String, outcome: FetchOutcome, now: u64)
        requires
            old(self).wf(),
            old(self).targets@.contains_key(token@),
        ensures
            final(self).wf(),
            ({
                let t = old(self).targets@[token@];
                match outcome {
                    FetchOutcome::Updated(f) => {
                        &&& final(self).targets@ == old(self).targets@.insert(token@, after_update(t, f, now))
                        &&& final(self).tokens@ == old(self).tokens@
                        &&& t.token.environment is Some ==> final(self).features@
                            == old(self).features@.insert(t.token.environment->Some_0@, f)
                        &&& t.token.environment is None ==> final(self).features == old(self).features
                    },
                    FetchOutcome::NoUpdate => {
                        &&& final(self).targets@ == old(self).targets@.insert(token@, after_check(t, now))
                        &&& final(self).tokens@ == old(self).tokens@
                        &&& final(self).features == old(self).features
                    },
                    FetchOutcome::Unauthorized => {
                        &&& final(self).targets@ == old(self).targets@.remove(token@)
                        &&& final(self).tokens@ == old(self).tokens@.insert(
                            token@,
                            (EdgeToken { status: TokenValidationStatus::Invalid, ..t.token }),
                        )
                        &&& final(self).features == old(self).features
                    },
                    FetchOutcome::Failed => {
                        &&& final(self).targets@ == old(self).targets@
                        &&& final(self).tokens@ == old(self).tokens@
                        &&& final(self).features == old(self).features
                    },
                }
            }),
    {
        let t = match self.targets.get(token) {
            Some(t) => t,
            None => return,
        };
        match outcome {
            FetchOutcome::Updated(f) => {
                let etag = f.etag.clone();
                self.targets.set_bookkeeping(token, Some(etag), Some(now), Some(now));
                match t.token.environment {
                    Some(e) => self.features.publish(e, f),
                    None => {},
                }
            },
            FetchOutcome::NoUpdate => {
                self.targets.set_bookkeeping(token, t.etag, t.last_refreshed, Some(now));
            },
            FetchOutcome::Unauthorized => {
                self.targets.remove(token);
                let revoked = t.token.with_status(TokenValidationStatus::Invalid);
                self.put_token(revoked);
            },
            FetchOutcome::Failed => {},
        }
    }
}

} // verus!
