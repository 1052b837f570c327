use vstd::prelude::*;

use dashmap::DashMap;

use crate::keyed::{keys_unique, lemma_map_of_values, map_of};

verus! {

/// A feature payload as upstream served it, with its ETag.
#[derive(Clone, Debug)]
pub struct ClientFeatures {
    pub etag: String,
    pub body: String,
}

/// The evaluation state built from one payload.
#[derive(Clone, Debug)]
pub struct EngineState {
    etag: String,
    features: String,
}

/// `e` was built from exactly the payload `f`.
pub open spec fn built_from(e: EngineState, f: ClientFeatures) -> bool {
    e.etag_view() == f.etag && e.source_view() == f.body
}

impl ClientFeatures {
    pub fn duplicate(&self) -> (r: ClientFeatures)
        ensures
            r == *self,
    {
        ClientFeatures { etag: self.etag.clone(), body: self.body.clone() }
    }
}

impl EngineState {
    pub closed spec fn etag_view(&self) -> String {
        self.etag
    }

    pub closed spec fn source_view(&self) -> String {
        self.features
    }

    /// Builds the engine for a payload.
    pub fn build(features: &ClientFeatures) -> (r: EngineState)
        ensures
            built_from(r, *features),
    {
        EngineState { etag: features.etag.clone(), features: features.body.clone() }
    }

    pub fn duplicate(&self) -> (r: EngineState)
        ensures
            r == *self,
    {
        EngineState { etag: self.etag.clone(), features: self.features.clone() }
    }

    /// The ETag of the payload this engine was built from.
    pub fn etag(&self) -> (r: &String)
        ensures
            *r == self.etag_view(),
    {
        &self.etag
    }
}

/// A payload together with the engine built from it; published as one value.
pub struct CachedFeatures {
    pub features: ClientFeatures,
    pub engine: EngineState,
}

impl CachedFeatures {
    pub fn duplicate(&self) -> (r: CachedFeatures)
        ensures
            r == *self,
    {
        CachedFeatures { features: self.features.duplicate(), engine: self.engine.duplicate() }
    }
}

/// What a feature map holds, by environment.
pub uninterp spec fn feature_map_contents(m: DashMap<String, CachedFeatures>) -> Map<Seq<char>, CachedFeatures>;

/// Relies on `DashMap::new`: a map with no entries.
#[verifier::external_body]
fn map_new() -> (r: DashMap<String, CachedFeatures>)
    ensures
        feature_map_contents(r).dom().len() == 0,
        feature_map_contents(r).dom().finite(),
{
    DashMap::new()
}

/// Relies on `DashMap::insert`: afterwards `key` maps to `value`, and no
/// other key changes.
#[verifier::external_body]
fn map_insert(m: &mut DashMap<String, CachedFeatures>, key: String, value: CachedFeatures)
    ensures
        feature_map_contents(*final(m)) == feature_map_contents(*old(m)).insert(key@, value),
{
    m.insert(key, value);
}

/// Relies on `DashMap::get`: the entry under `key`, if there is one.
#[verifier::external_body]
fn map_get(m: &DashMap<String, CachedFeatures>, key: &String) -> (r: Option<CachedFeatures>)
    ensures
        match r {
            Some(c) => feature_map_contents(*m).contains_key(key@) && c == feature_map_contents(*m)[key@],
            None => !feature_map_contents(*m).contains_key(key@),
        },
{
    m.get(key).map(|e| e.value().duplicate())
}

/// Relies on `DashMap::iter`: every entry, each once, in no set order.
#[verifier::external_body]
fn map_entries(m: &DashMap<String, CachedFeatures>) -> (r: Vec<(String, CachedFeatures)>)
    ensures
        keys_unique(r@),
        map_of(r@) == feature_map_contents(*m),
{
    m.iter().map(|e| (e.key().clone(), e.value().duplicate())).collect()
}

pub open spec fn payload_of(c: CachedFeatures) -> ClientFeatures {
    c.features
}

pub open spec fn engine_of(c: CachedFeatures) -> EngineState {
    c.engine
}

/// The feature cache and the engine cache, keyed by environment.
pub struct FeatureStore {
    cache: DashMap<String, CachedFeatures>,
}

impl View for FeatureStore {
    type V = Map<Seq<char>, ClientFeatures>;

    closed spec fn view(&self) -> Map<Seq<char>, ClientFeatures> {
        self.contents().map_values(|c: CachedFeatures| payload_of(c))
    }
}

impl FeatureStore {
    closed spec fn contents(&self) -> Map<Seq<char>, CachedFeatures> {
        feature_map_contents(self.cache)
    }

    /// The engine cache.
    pub closed spec fn engines(&self) -> Map<Seq<char>, EngineState> {
        self.contents().map_values(|c: CachedFeatures| engine_of(c))
    }

    pub closed spec fn wf(&self) -> bool {
        forall|k: Seq<char>| #[trigger]
            self.contents().contains_key(k) ==> built_from(
                self.contents()[k].engine,
                self.contents()[k].features,
            )
    }

    /// For every environment in the feature cache, the engine cache holds an
    /// engine built from exactly that payload, and holds nothing else.
    pub proof fn lemma_engines_match(&self)
        requires
            self.wf(),
        ensures
            self.engines().dom() == self@.dom(),
            forall|k: Seq<char>| #[trigger]
                self@.contains_key(k) ==> built_from(self.engines()[k], self@[k]),
    {
        assert(self.engines().dom() =~= self@.dom());
    }

    pub fn new() -> (r: FeatureStore)
        ensures
            r.wf(),
            r@ == Map::<Seq<char>, ClientFeatures>::empty(),
    {
        let r = FeatureStore { cache: map_new() };
        assert(r.contents() =~= Map::<Seq<char>, CachedFeatures>::empty());
        assert(r@ =~= Map::<Seq<char>, ClientFeatures>::empty());
        r
    }

    /// The payload cached for `environment`.
    pub fn features(&self, environment: &String) -> (r: Option<ClientFeatures>)
        requires
            self.wf(),
        ensures
            match r {
                Some(f) => self@.contains_key(environment@) && f == self@[environment@],
                None => !self@.contains_key(environment@),
            },
    {
        match map_get(&self.cache, environment) {
            Some(c) => Some(c.features),
            None => None,
        }
    }

    /// The engine cached for `environment`.
    pub fn engine(&self, environment: &String) -> (r: Option<EngineState>)
        requires
            self.wf(),
        ensures
            match r {
                Some(e) => self.engines().contains_key(environment@) && e == self.engines()[environment@],
                None => !self.engines().contains_key(environment@),
            },
    {
        match map_get(&self.cache, environment) {
            Some(c) => Some(c.engine),
            None => None,
        }
    }

    /// Replaces the payload of `environment` and the engine built from it, in
    /// one write.
    pub fn publish(&mut self, environment: String, features: ClientFeatures)
        requires
            old(self).wf(),
        ensures
            final(self).wf(),
            final(self)@ == old(self)@.insert(environment@, features),
            built_from(final(self).engines()[environment@], features),
            forall|k: Seq<char>| k != environment@ ==> #[trigger] final(self).engines().get(k)
                == old(self).engines().get(k),
    {
        let engine = EngineState::build(&features);
        let ghost k = environment@;
        let ghost c = CachedFeatures { features, engine };
        map_insert(&mut self.cache, environment, CachedFeatures { features, engine });
        assert(self@ =~= old(self)@.insert(k, features));
        assert forall|k2: Seq<char>| k2 != k implies #[trigger] self.engines().get(k2)
            == old(self).engines().get(k2) by {
        }
    }

    /// Every cached (environment, payload) pair.
    pub fn snapshot(&self) -> (r: Vec<(String, ClientFeatures)>)
        requires
            self.wf(),
        ensures
            keys_unique(r@),
            map_of(r@) == self@,
    {
        let entries = map_entries(&self.cache);
        let ghost s = entries@;
        let mut r: Vec<(String, ClientFeatures)> = Vec::new();
        let mut i: usize = 0;
        while i < entries.len()
            invariant
                s == entries@,
                i <= s.len(),
                r@.len() == i,
                forall|j: int|
                    0 <= j < i ==> (#[trigger] r@[j]).0@ == s[j].0@ && r@[j].1 == payload_of(s[j].1),
            decreases s.len() - i,
        {
            let (k, c) = &entries[i];
            r.push((k.clone(), c.features.duplicate()));
            i = i + 1;
        }
        proof {
            lemma_map_of_values(s, r@, |c: CachedFeatures| payload_of(c));
        }
        r
    }
}

} // verus!
