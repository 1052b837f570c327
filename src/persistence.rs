use vstd::prelude::*;

use crate::features::ClientFeatures;
use crate::keyed::{has_key, keys_unique, lemma_map_of_at, lemma_map_of_values, map_of};
use crate::refresh::{keyed_by_token, EdgeCaches};
use crate::registry::{covered, kept_beside, register_targets, registry_wf, TokenRefresh};
use crate::token::{key_of, EdgeToken};

verus! {

/// What a snapshot saves: the token records, the payload of each
/// environment, and the refresh targets.
pub struct Snapshot {
    pub tokens: Vec<EdgeToken>,
    pub features: Vec<(String, ClientFeatures)>,
    pub refresh_targets: Vec<TokenRefresh>,
}

/// Token records as entries under their own token strings.
pub open spec fn token_entries(s: Seq<EdgeToken>) -> Seq<(String, EdgeToken)> {
    s.map_values(|t: EdgeToken| (t.token, t))
}

/// The mapping built by inserting the entries of `s` one after another.
pub open spec fn load_entries<V>(s: Seq<(String, V)>) -> Map<Seq<char>, V>
    decreases s.len(),
{
    if s.len() == 0 {
        Map::empty()
    } else {
        load_entries(s.drop_last()).insert(s.last().0@, s.last().1)
    }
}

/// The token cache built by loading the records of `s` in order.
pub open spec fn load_tokens(s: Seq<EdgeToken>) -> Map<Seq<char>, EdgeToken> {
    load_entries(token_entries(s))
}

/// Refresh targets as entries under their token strings.
pub open spec fn target_entries(s: Seq<TokenRefresh>) -> Seq<(String, TokenRefresh)> {
    s.map_values(|t: TokenRefresh| (t.token.token, t))
}

/// The registry built by registering the targets of `s` in order.
pub open spec fn load_targets(s: Seq<TokenRefresh>) -> Map<Seq<char>, TokenRefresh>
    decreases s.len(),
{
    if s.len() == 0 {
        Map::empty()
    } else {
        register_targets(load_targets(s.drop_last()), s.last())
    }
}

/// A store whose load failed counts as empty.
pub open spec fn loaded<T>(o: Option<Vec<T>>) -> Seq<T> {
    match o {
        Some(v) => v@,
        None => Seq::empty(),
    }
}

impl Snapshot {
    /// This snapshot lists exactly the state of `c`.
    pub open spec fn saved_from(&self, c: &EdgeCaches) -> bool {
        &&& keys_unique(token_entries(self.tokens@))
        &&& map_of(token_entries(self.tokens@)) == c.tokens@
        &&& keys_unique(self.features@)
        &&& map_of(self.features@) == c.features@
        &&& keys_unique(target_entries(self.refresh_targets@))
        &&& map_of(target_entries(self.refresh_targets@)) == c.targets@
    }
}

proof fn lemma_load_unique<V>(s: Seq<(String, V)>)
    requires
        keys_unique(s),
    ensures
        load_entries(s) == map_of(s),
    decreases s.len(),
{
    if s.len() == 0 {
        assert(map_of(s) =~= Map::<Seq<char>, V>::empty());
    } else {
        let d = s.drop_last();
        assert forall|i: int, j: int|
            0 <= i < d.len() && 0 <= j < d.len() && i != j implies #[trigger] d[i].0@
            != #[trigger] d[j].0@ by {
            assert(s[i].0@ != s[j].0@);
        }
        lemma_load_unique(d);
        assert forall|i: int| 0 <= i < d.len() implies #[trigger] d[i].0@ != s.last().0@ by {
            assert(s[i].0@ != s[s.len() - 1].0@);
        }
        crate::keyed::lemma_map_of_push(d, s.last());
        assert(d.push(s.last()) == s);
    }
}

proof fn lemma_load_targets(s: Seq<TokenRefresh>)
    requires
        keys_unique(target_entries(s)),
        registry_wf(map_of(target_entries(s))),
    ensures
        load_targets(s) == map_of(target_entries(s)),
    decreases s.len(),
{
    if s.len() == 0 {
        assert(map_of(target_entries(s)) =~= Map::<Seq<char>, TokenRefresh>::empty());
    } else {
        let d = s.drop_last();
        let x = s.last();
        let te = target_entries(s);
        let td = target_entries(d);
        let xk = key_of(x.token);
        assert(td == te.drop_last());
        assert(te == td.push((x.token.token, x)));
        assert forall|i: int, j: int|
            0 <= i < td.len() && 0 <= j < td.len() && i != j implies #[trigger] td[i].0@
            != #[trigger] td[j].0@ by {
            assert(te[i].0@ != te[j].0@);
        }
        assert(!has_key(td, xk)) by {
            if has_key(td, xk) {
                let j = choose|j: int| 0 <= j < td.len() && #[trigger] td[j].0@ == xk;
                assert(te[j].0@ != te[te.len() - 1].0@);
            }
        }
        crate::keyed::lemma_map_of_push(td, (x.token.token, x));
        let big = map_of(te);
        let small = map_of(td);
        assert(big == small.insert(xk, x));
        assert(registry_wf(small)) by {
            assert forall|a: Seq<char>, b: Seq<char>|
                #[trigger] small.contains_key(a) && #[trigger] small.contains_key(b) && a != b implies !crate::token::subsumes(
                small[a].token,
                small[b].token,
            ) by {
                assert(big.contains_key(a) && big.contains_key(b));
            }
            assert forall|k: Seq<char>| #[trigger] small.contains_key(k) implies key_of(small[k].token) == k by {
                assert(big.contains_key(k));
            }
        }
        lemma_load_targets(d);
        assert(!covered(small, x.token)) by {
            if covered(small, x.token) {
                let k = choose|k: Seq<char>| #[trigger] small.contains_key(k) && crate::token::subsumes(
                    small[k].token,
                    x.token,
                );
                assert(big.contains_key(k) && big.contains_key(xk));
            }
        }
        assert(kept_beside(small, x.token) =~= small) by {
            assert forall|k: Seq<char>| #[trigger] small.contains_key(k) implies kept_beside(
                small,
                x.token,
            ).contains_key(k) by {
                assert(big.contains_key(k) && big.contains_key(xk));
            }
        }
    }
}

/// Loading what a snapshot saved gives back the token records, the payloads
/// and the refresh targets of the state it was taken from.
pub proof fn lemma_snapshot_round_trip(c: &EdgeCaches, snap: &Snapshot)
    requires
        c.wf(),
        snap.saved_from(c),
    ensures
        load_tokens(snap.tokens@) == c.tokens@,
        load_entries(snap.features@) == c.features@,
        load_targets(snap.refresh_targets@) == c.targets@,
{
    lemma_load_unique(token_entries(snap.tokens@));
    lemma_load_unique(snap.features@);
    lemma_load_targets(snap.refresh_targets@);
}

impl EdgeCaches {
    /// Lists the token records, payloads and refresh targets for saving.
    pub fn snapshot(&self) -> (r: Snapshot)
        requires
            self.wf(),
        ensures
            r.saved_from(self),
    {
        let pairs = self.tokens.entries();
        let ghost s = pairs@;
        assert forall|j: int| 0 <= j < s.len() implies (#[trigger] s[j]).1.token@ == s[j].0@ by {
            lemma_map_of_at(s, j);
            assert(map_of(s).contains_key(s[j].0@));
        }
        let mut tokens: Vec<EdgeToken> = Vec::new();
        let mut i: usize = 0;
        while i < pairs.len()
            invariant
                s == pairs@,
                keys_unique(s),
                keyed_by_token(map_of(s)),
                i <= s.len(),
                tokens@.len() == i,
                forall|j: int| 0 <= j < i ==> #[trigger] tokens@[j] == s[j].1,
                forall|j: int| 0 <= j < s.len() ==> (#[trigger] s[j]).1.token@ == s[j].0@,
            decreases s.len() - i,
        {
            let t = &pairs[i].1;
            tokens.push(t.duplicate());
            i = i + 1;
        }
        proof {
            let id = |t: EdgeToken| t;
            assert forall|j: int| 0 <= j < s.len() implies (#[trigger] token_entries(tokens@)[j]).0@
                == s[j].0@ && token_entries(tokens@)[j].1 == id(s[j].1) by {
                assert(tokens@[j] == s[j].1);
            }
            lemma_map_of_values(s, token_entries(tokens@), id);
            assert(map_of(s).map_values(id) =~= map_of(s));
        }
        Snapshot {
            tokens,
            features: self.features.snapshot(),
            refresh_targets: self.target_list(),
        }
    }

    fn target_list(&self) -> (r: Vec<TokenRefresh>)
        requires
            self.wf(),
        ensures
            keys_unique(target_entries(r@)),
            map_of(target_entries(r@)) == self.targets@,
    {
        let pairs = self.targets.targets();
        let ghost s = pairs@;
        assert forall|j: int| 0 <= j < s.len() implies key_of((#[trigger] s[j]).1.token) == s[j].0@ by {
            lemma_map_of_at(s, j);
            assert(map_of(s).contains_key(s[j].0@));
        }
        let mut targets: Vec<TokenRefresh> = Vec::new();
        let mut i: usize = 0;
        while i < pairs.len()
            invariant
                s == pairs@,
                i <= s.len(),
                targets@.len() == i,
                forall|j: int| 0 <= j < i ==> #[trigger] targets@[j] == s[j].1,
                forall|j: int| 0 <= j < s.len() ==> key_of((#[trigger] s[j]).1.token) == s[j].0@,
            decreases s.len() - i,
        {
            targets.push(pairs[i].1.duplicate());
            i = i + 1;
        }
        proof {
            let id = |t: TokenRefresh| t;
            assert forall|j: int| 0 <= j < s.len() implies (#[trigger] target_entries(targets@)[j]).0@
                == s[j].0@ && target_entries(targets@)[j].1 == id(s[j].1) by {
                assert(targets@[j] == s[j].1);
            }
            lemma_map_of_values(s, target_entries(targets@), id);
            assert(map_of(s).map_values(id) =~= map_of(s));
        }
        targets
    }

    /// Rebuilds the caches from what the stores loaded; engines are rebuilt
    /// from the loaded payloads. A store that failed to load counts as empty.
    pub fn restore(
        tokens: Option<Vec<EdgeToken>>,
        features: Option<Vec<(String, ClientFeatures)>>,
        refresh_targets: Option<Vec<TokenRefresh>>,
    ) -> (r: EdgeCaches)
        ensures
            r.wf(),
            r.tokens@ == load_tokens(loaded(tokens)),
            r.features@ == load_entries(loaded(features)),
            r.targets@ == load_targets(loaded(refresh_targets)),
    {
        let mut c = EdgeCaches::new();
        let ts = match tokens {
            Some(v) => v,
            None => Vec::new(),
        };
        let ghost tv = ts@;
        let mut i: usize = 0;
        while i < ts.len()
            invariant
                c.wf(),
                ts@ == tv,
                i <= tv.len(),
                c.tokens@ == load_tokens(tv.subrange(0, i as int)),
                c.features@ == Map::<Seq<char>, ClientFeatures>::empty(),
                c.targets@ == Map::<Seq<char>, TokenRefresh>::empty(),
            decreases tv.len() - i,
        {
            c.put_token(ts[i].duplicate());
            proof {
                assert(token_entries(tv.subrange(0, i + 1)).drop_last() == token_entries(
                    tv.subrange(0, i as int),
                ));
            }
            i = i + 1;
        }
        assert(tv.subrange(0, tv.len() as int) == tv);
        let fs = match features {
            Some(v) => v,
            None => Vec::new(),
        };
        let ghost fv = fs@;
        let mut i: usize = 0;
        while i < fs.len()
            invariant
                c.wf(),
                fs@ == fv,
                i <= fv.len(),
                c.tokens@ == load_tokens(tv),
                c.features@ == load_entries(fv.subrange(0, i as int)),
                c.targets@ == Map::<Seq<char>, TokenRefresh>::empty(),
            decreases fv.len() - i,
        {
            let (k, f) = &fs[i];
            c.features.publish(k.clone(), f.duplicate());
            proof {
                assert(fv.subrange(0, i + 1).drop_last() == fv.subrange(0, i as int));
            }
            i = i + 1;
        }
        assert(fv.subrange(0, fv.len() as int) == fv);
        let rs = match refresh_targets {
            Some(v) => v,
            None => Vec::new(),
        };
        let ghost rv = rs@;
        let mut i: usize = 0;
        while i < rs.len()
            invariant
                c.wf(),
                rs@ == rv,
                i <= rv.len(),
                c.tokens@ == load_tokens(tv),
                c.features@ == load_entries(fv),
                c.targets@ == load_targets(rv.subrange(0, i as int)),
            decreases rv.len() - i,
        {
            c.targets.register(rs[i].duplicate());
            proof {
                assert(rv.subrange(0, i + 1).drop_last() == rv.subrange(0, i as int));
            }
            i = i + 1;
        }
        assert(rv.subrange(0, rv.len() as int) == rv);
        c
    }
}

} // verus!
