use vstd::prelude::*;

use dashmap::DashMap;

use crate::keyed::{has_key, keys_unique, lemma_map_of_at, map_of};
use crate::token::{key_of, subsumes, EdgeToken};

verus! {

/// Refresh bookkeeping for one token: the ETag last served and when the
/// upstream last answered (milliseconds).
#[derive(Clone, Debug)]
pub struct TokenRefresh {
    pub token: EdgeToken,
    pub etag: Option<String>,
    pub last_refreshed: Option<u64>,
    pub last_check: Option<u64>,
}

/// The bookkeeping a target starts with.
pub open spec fn fresh_target(t: EdgeToken) -> TokenRefresh {
    TokenRefresh { token: t, etag: None, last_refreshed: None, last_check: None }
}

/// Each target is stored under its own token string, and no target requests
/// what another one already does.
pub open spec fn registry_wf(m: Map<Seq<char>, TokenRefresh>) -> bool {
    &&& forall|k: Seq<char>| #[trigger] m.contains_key(k) ==> key_of(m[k].token) == k
    &&& forall|a: Seq<char>, b: Seq<char>|
        #[trigger] m.contains_key(a) && #[trigger] m.contains_key(b) && a != b ==> !subsumes(
            m[a].token,
            m[b].token,
        )
}

/// Some target of `m` already requests everything that `t` would.
pub open spec fn covered(m: Map<Seq<char>, TokenRefresh>, t: EdgeToken) -> bool {
    exists|k: Seq<char>| #[trigger] m.contains_key(k) && subsumes(m[k].token, t)
}

/// A target that makes way when `t` is registered: `t` covers it, or it
/// sits under the key of `t`.
pub open spec fn gives_way(m: Map<Seq<char>, TokenRefresh>, t: EdgeToken, k: Seq<char>) -> bool {
    subsumes(t, m[k].token) || k == key_of(t)
}

/// The targets that stay when `t` is registered without being covered.
pub open spec fn kept_beside(m: Map<Seq<char>, TokenRefresh>, t: EdgeToken) -> Map<Seq<char>, TokenRefresh> {
    Map::new(|k: Seq<char>| m.contains_key(k) && !gives_way(m, t, k), |k: Seq<char>| m[k])
}

/// Registration with subsumption: a target whose token is covered adds
/// nothing; otherwise the targets it covers (and one under its own key) make
/// way for it.
pub open spec fn register_targets(m: Map<Seq<char>, TokenRefresh>, r: TokenRefresh) -> Map<
    Seq<char>,
    TokenRefresh,
> {
    if covered(m, r.token) {
        m
    } else {
        kept_beside(m, r.token).insert(key_of(r.token), r)
    }
}

/// Registration keeps the registry well formed, and afterwards some target
/// requests everything that the registered token does.
pub proof fn lemma_register_wf(m: Map<Seq<char>, TokenRefresh>, n: TokenRefresh)
    requires
        registry_wf(m),
    ensures
        registry_wf(register_targets(m, n)),
        n.token.environment is Some ==> covered(register_targets(m, n), n.token),
{
    if !covered(m, n.token) {
        let r = register_targets(m, n);
        let kn = key_of(n.token);
        assert forall|a: Seq<char>, b: Seq<char>|
            #[trigger] r.contains_key(a) && #[trigger] r.contains_key(b) && a != b implies !subsumes(
            r[a].token,
            r[b].token,
        ) by {
            if a != kn && b != kn {
                assert(m.contains_key(a) && m.contains_key(b));
            } else if a != kn {
                assert(m.contains_key(a));
            }
        }
        if n.token.environment is Some {
            assert(r.contains_key(kn) && subsumes(r[kn].token, n.token));
        }
    }
}

/// The target under `k` fetches environment `env` for all projects.
pub open spec fn wildcard_for(m: Map<Seq<char>, TokenRefresh>, k: Seq<char>, env: Seq<char>) -> bool {
    &&& m[k].token.environment is Some
    &&& m[k].token.environment->Some_0@ == env
    &&& m[k].token.projects is Wildcard
}

/// Exactly one target of `m` fetches environment `env`, and it does so for
/// all projects.
pub open spec fn sole_wildcard_for(m: Map<Seq<char>, TokenRefresh>, env: Seq<char>) -> bool {
    exists|k: Seq<char>|
        #[trigger] m.contains_key(k) && wildcard_for(m, k, env) && forall|j: Seq<char>|
            #[trigger] m.contains_key(j) && m[j].token.environment is Some
                && m[j].token.environment->Some_0@ == env ==> j == k
}

proof fn lemma_covered_wildcard(m: Map<Seq<char>, TokenRefresh>, t: EdgeToken)
    requires
        registry_wf(m),
        covered(m, t),
        t.environment is Some,
        t.projects is Wildcard,
    ensures
        sole_wildcard_for(m, t.environment->Some_0@),
{
    let env = t.environment->Some_0@;
    let k = choose|k: Seq<char>| #[trigger] m.contains_key(k) && subsumes(m[k].token, t);
    assert(wildcard_for(m, k, env));
    assert forall|j: Seq<char>|
        #[trigger] m.contains_key(j) && m[j].token.environment is Some
            && m[j].token.environment->Some_0@ == env implies j == k by {
        if j != k {
            assert(subsumes(m[k].token, m[j].token));
        }
    }
}

/// Registering a project-scoped token and a wildcard token of the same
/// environment, in either order, leaves exactly one target for that
/// environment, with wildcard scope.
pub proof fn lemma_wildcard_registration_order(
    m: Map<Seq<char>, TokenRefresh>,
    narrow: TokenRefresh,
    wide: TokenRefresh,
)
    requires
        registry_wf(m),
        narrow.token.environment is Some,
        wide.token.environment is Some,
        narrow.token.environment->Some_0@ == wide.token.environment->Some_0@,
        narrow.token.projects is Project,
        wide.token.projects is Wildcard,
    ensures
        sole_wildcard_for(
            register_targets(register_targets(m, narrow), wide),
            wide.token.environment->Some_0@,
        ),
        sole_wildcard_for(
            register_targets(register_targets(m, wide), narrow),
            wide.token.environment->Some_0@,
        ),
{
    let m1 = register_targets(m, narrow);
    lemma_register_wf(m, narrow);
    lemma_register_wf(m1, wide);
    lemma_covered_wildcard(register_targets(m1, wide), wide.token);
    let m2 = register_targets(m, wide);
    lemma_register_wf(m, wide);
    let k = choose|k: Seq<char>| #[trigger] m2.contains_key(k) && subsumes(m2[k].token, wide.token);
    assert(subsumes(m2[k].token, narrow.token));
    assert(register_targets(m2, narrow) == m2);
    lemma_covered_wildcard(m2, wide.token);
}

/// What a target map holds, by token string.
pub uninterp spec fn target_map_contents(m: DashMap<String, TokenRefresh>) -> Map<Seq<char>, TokenRefresh>;

/// Relies on `DashMap::new`: a map with no entries.
#[verifier::external_body]
fn map_new() -> (r: DashMap<String, TokenRefresh>)
    ensures
        target_map_contents(r).dom().len() == 0,
        target_map_contents(r).dom().finite(),
{
    DashMap::new()
}

/// Relies on `DashMap::insert`: afterwards `key` maps to `value`, and no
/// other key changes.
#[verifier::external_body]
fn map_insert(m: &mut DashMap<String, TokenRefresh>, key: String, value: TokenRefresh)
    ensures
        target_map_contents(*final(m)) == target_map_contents(*old(m)).insert(key@, value),
{
    m.insert(key, value);
}

/// Relies on `DashMap::remove`: afterwards `key` has no entry, and no other
/// key changes.
#[verifier::external_body]
fn map_remove(m: &mut DashMap<String, TokenRefresh>, key: &String)
    ensures
        target_map_contents(*final(m)) == target_map_contents(*old(m)).remove(key@),
{
    m.remove(key);
}

/// Relies on `DashMap::get`: the target under `key`, if there is one.
#[verifier::external_body]
fn map_get(m: &DashMap<String, TokenRefresh>, key: &String) -> (r: Option<TokenRefresh>)
    ensures
        match r {
            Some(t) => target_map_contents(*m).contains_key(key@) && t == target_map_contents(*m)[key@],
            None => !target_map_contents(*m).contains_key(key@),
        },
{
    m.get(key).map(|e| e.value().duplicate())
}

/// Relies on `DashMap::len`: the number of entries.
#[verifier::external_body]
fn map_len(m: &DashMap<String, TokenRefresh>) -> (r: usize)
    ensures
        r == target_map_contents(*m).dom().len(),
{
    m.len()
}

/// Relies on `DashMap::iter`: every entry, each once, in no set order.
#[verifier::external_body]
fn map_entries(m: &DashMap<String, TokenRefresh>) -> (r: Vec<(String, TokenRefresh)>)
    ensures
        keys_unique(r@),
        map_of(r@) == target_map_contents(*m),
{
    m.iter().map(|e| (e.key().clone(), e.value().duplicate())).collect()
}

/// The refresh target registry: targets keyed by token string, none of
/// them covered by another.
pub struct RefreshRegistry {
    map: DashMap<String, TokenRefresh>,
}

impl View for RefreshRegistry {
    type V = Map<Seq<char>, TokenRefresh>;

    closed spec fn view(&self) -> Map<Seq<char>, TokenRefresh> {
        target_map_contents(self.map)
    }
}

impl TokenRefresh {
    /// The bookkeeping of a newly registered token.
    pub fn new(token: EdgeToken) -> (r: TokenRefresh)
        ensures
            r == fresh_target(token),
    {
        TokenRefresh { token, etag: None, last_refreshed: None, last_check: None }
    }

    pub fn duplicate(&self) -> (r: TokenRefresh)
        ensures
            r == *self,
    {
        let etag = match &self.etag {
            Some(e) => Some(e.clone()),
            None => None,
        };
        TokenRefresh {
            token: self.token.duplicate(),
            etag,
            last_refreshed: self.last_refreshed,
            last_check: self.last_check,
        }
    }
}

impl RefreshRegistry {
    pub open spec fn wf(&self) -> bool {
        registry_wf(self@)
    }

    pub fn new() -> (r: RefreshRegistry)
        ensures
            r@ == Map::<Seq<char>, TokenRefresh>::empty(),
            r.wf(),
    {
        let r = RefreshRegistry { map: map_new() };
        assert(r@ =~= Map::<Seq<char>, TokenRefresh>::empty());
        r
    }

    /// The number of targets.
    pub fn len(&self) -> (r: usize)
        ensures
            r == self@.dom().len(),
    {
        map_len(&self.map)
    }

    /// The target registered under `token`, if any.
    pub fn get(&self, token: &String) -> (r: Option<TokenRefresh>)
        ensures
            match r {
                Some(t) => self@.contains_key(token@) && t == self@[token@],
                None => !self@.contains_key(token@),
            },
    {
        map_get(&self.map, token)
    }

    /// Every target, each once, in no set order.
    pub fn targets(&self) -> (r: Vec<(String, TokenRefresh)>)
        ensures
            keys_unique(r@),
            map_of(r@) == self@,
    {
        map_entries(&self.map)
    }

    /// Registers a target under the subsumption rule; says whether it was added.
    pub fn register(&mut self, target: TokenRefresh) -> (added: bool)
        requires
            old(self).wf(),
        ensures
            final(self).wf(),
            final(self)@ == register_targets(old(self)@, target),
            added == !covered(old(self)@, target.token),
    {
        proof {
            lemma_register_wf(self@, target);
        }
        let ghost m = self@;
        let ghost t = target.token;
        let entries = map_entries(&self.map);
        let ghost s = entries@;
        let n = entries.len();
        let mut i: usize = 0;
        while i < n
            invariant
                n == s.len(),
                s == entries@,
                keys_unique(s),
                map_of(s) == m,
                m == old(self)@,
                registry_wf(m),
                t == target.token,
                self@ == m,
                i <= n,
                forall|j: int| 0 <= j < i ==> !subsumes(#[trigger] s[j].1.token, t),
            decreases n - i,
        {
            if entries[i].1.token.subsumes(&target.token) {
                proof {
                    lemma_map_of_at(s, i as int);
                    assert(m.contains_key(s[i as int].0@));
                }
                return false;
            }
            i = i + 1;
        }
        assert(!covered(m, t)) by {
            if covered(m, t) {
                let k = choose|k: Seq<char>| #[trigger] m.contains_key(k) && subsumes(m[k].token, t);
                assert(has_key(s, k));
                let j = choose|j: int| 0 <= j < s.len() && #[trigger] s[j].0@ == k;
                lemma_map_of_at(s, j);
            }
        }
        let mut i: usize = 0;
        while i < n
            invariant
                n == s.len(),
                s == entries@,
                keys_unique(s),
                map_of(s) == m,
                t == target.token,
                i <= n,
                forall|k: Seq<char>| #[trigger]
                    self@.contains_key(k) ==> m.contains_key(k) && self@[k] == m[k],
                forall|k: Seq<char>|
                    #[trigger] m.contains_key(k) && !self@.contains_key(k) ==> gives_way(m, t, k),
                forall|j: int|
                    0 <= j < i && gives_way(m, t, #[trigger] s[j].0@) ==> !self@.contains_key(s[j].0@),
            decreases n - i,
        {
            let (k, x) = &entries[i];
            proof {
                lemma_map_of_at(s, i as int);
            }
            if target.token.subsumes(&x.token) || *k == target.token.token {
                map_remove(&mut self.map, k);
            }
            i = i + 1;
        }
        assert(self@ =~= kept_beside(m, t)) by {
            assert forall|k: Seq<char>| #[trigger] m.contains_key(k) && !gives_way(m, t, k) implies self@.contains_key(k) by {}
            assert forall|k: Seq<char>| #[trigger] self@.contains_key(k) implies !gives_way(m, t, k) by {
                assert(has_key(s, k));
                let j = choose|j: int| 0 <= j < s.len() && #[trigger] s[j].0@ == k;
            }
        }
        let key = target.token.token.clone();
        map_insert(&mut self.map, key, target);
        true
    }

    /// Replaces the bookkeeping of the target under `token`, keeping its
    /// token record.
    pub fn set_bookkeeping(
        &mut self,
        token: &String,
        etag: Option<String>,
        last_refreshed: Option<u64>,
        last_check: Option<u64>,
    )
        requires
            old(self).wf(),
            old(self)@.contains_key(token@),
        ensures
            final(self).wf(),
            final(self)@ == old(self)@.insert(
                token@,
                (TokenRefresh { etag, last_refreshed, last_check, ..old(self)@[token@] }),
            ),
    {
        let current = map_get(&self.map, token);
        match current {
            Some(c) => {
                let r = TokenRefresh { token: c.token, etag, last_refreshed, last_check };
                map_insert(&mut self.map, token.clone(), r);
                proof {
                    let o = old(self)@;
                    assert forall|a: Seq<char>, b: Seq<char>|
                        #[trigger] self@.contains_key(a) && #[trigger] self@.contains_key(b) && a != b implies !subsumes(
                        self@[a].token,
                        self@[b].token,
                    ) by {
                        assert(o.contains_key(a) && o.contains_key(b));
                    }
                }
            },
            None => {},
        }
    }

    /// Drops the target under `token`.
    pub fn remove(&mut self, token: &String)
        requires
            old(self).wf(),
        ensures
            final(self).wf(),
            final(self)@ == old(self)@.remove(token@),
    {
        map_remove(&mut self.map, token);
        proof {
            let o = old(self)@;
            assert forall|a: Seq<char>, b: Seq<char>|
                #[trigger] self@.contains_key(a) && #[trigger] self@.contains_key(b) && a != b implies !subsumes(
                self@[a].token,
                self@[b].token,
            ) by {
                assert(o.contains_key(a) && o.contains_key(b));
            }
        }
    }
}

} // verus!
