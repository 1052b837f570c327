use vstd::prelude::*;

verus! {

/// How often one variant of one feature was evaluated in one environment.
#[derive(Clone, Debug)]
pub struct ImpressionCount {
    pub feature_name: String,
    pub variant: String,
    pub environment: String,
    pub count: u64,
}

/// An SDK instance that reported in: keyed by application, instance and
/// environment; the rest is metadata.
#[derive(Clone, Debug)]
pub struct AppRegistration {
    pub app_name: String,
    pub instance_id: String,
    pub environment: String,
    pub sdk_version: Option<String>,
    pub interval: u64,
}

/// A metrics batch as an SDK submits it.
#[derive(Clone, Debug)]
pub struct MetricsBatch {
    pub impressions: Vec<ImpressionCount>,
    pub registrations: Vec<AppRegistration>,
}

pub open spec fn same_counter(a: ImpressionCount, b: ImpressionCount) -> bool {
    a.feature_name@ == b.feature_name@ && a.variant@ == b.variant@ && a.environment@ == b.environment@
}

pub open spec fn same_instance(a: AppRegistration, b: AppRegistration) -> bool {
    a.app_name@ == b.app_name@ && a.instance_id@ == b.instance_id@ && a.environment@ == b.environment@
}

/// The first counter of `s`, from position `i` on, for the key of `c`.
pub open spec fn counter_index(s: Seq<ImpressionCount>, c: ImpressionCount, i: int) -> Option<int>
    decreases s.len() - i,
{
    if i < 0 || i >= s.len() {
        None
    } else if same_counter(s[i], c) {
        Some(i)
    } else {
        counter_index(s, c, i + 1)
    }
}

/// The first registration of `s`, from position `i` on, for the instance of `r`.
pub open spec fn instance_index(s: Seq<AppRegistration>, r: AppRegistration, i: int) -> Option<int>
    decreases s.len() - i,
{
    if i < 0 || i >= s.len() {
        None
    } else if same_instance(s[i], r) {
        Some(i)
    } else {
        instance_index(s, r, i + 1)
    }
}

/// A sum that stops at the largest counter value.
pub open spec fn capped_sum(a: u64, b: u64) -> u64 {
    if a + b > u64::MAX {
        u64::MAX
    } else {
        (a + b) as u64
    }
}

/// Adding one count: it sums into the counter of its key, or starts one.
pub open spec fn add_count(s: Seq<ImpressionCount>, c: ImpressionCount) -> Seq<ImpressionCount> {
    match counter_index(s, c, 0) {
        Some(i) => s.update(i, ImpressionCount { count: capped_sum(s[i].count, c.count), ..s[i] }),
        None => s.push(c),
    }
}

/// Adding one registration: it replaces the one of its instance, or is added.
pub open spec fn add_registration(s: Seq<AppRegistration>, r: AppRegistration) -> Seq<AppRegistration> {
    match instance_index(s, r, 0) {
        Some(i) => s.update(i, r),
        None => s.push(r),
    }
}

pub open spec fn add_counts(s: Seq<ImpressionCount>, b: Seq<ImpressionCount>) -> Seq<ImpressionCount>
    decreases b.len(),
{
    if b.len() == 0 {
        s
    } else {
        add_count(add_counts(s, b.drop_last()), b.last())
    }
}

pub open spec fn add_registrations(s: Seq<AppRegistration>, b: Seq<AppRegistration>) -> Seq<
    AppRegistration,
>
    decreases b.len(),
{
    if b.len() == 0 {
        s
    } else {
        add_registration(add_registrations(s, b.drop_last()), b.last())
    }
}

/// The metrics gathered since the last flush.
pub struct MetricsCache {
    impressions: Vec<ImpressionCount>,
    registrations: Vec<AppRegistration>,
}

impl MetricsCache {
    pub closed spec fn impressions(&self) -> Seq<ImpressionCount> {
        self.impressions@
    }

    pub closed spec fn registrations(&self) -> Seq<AppRegistration> {
        self.registrations@
    }

    pub fn new() -> (r: MetricsCache)
        ensures
            r.impressions() == Seq::<ImpressionCount>::empty(),
            r.registrations() == Seq::<AppRegistration>::empty(),
    {
        MetricsCache { impressions: Vec::new(), registrations: Vec::new() }
    }

    /// Sums one count into the bucket.
    pub fn record_impression(&mut self, c: ImpressionCount)
        ensures
            final(self).impressions() == add_count(old(self).impressions(), c),
            final(self).registrations() == old(self).registrations(),
    {
        let mut i: usize = 0;
        while i < self.impressions.len()
            invariant
                i <= self.impressions.len(),
                self.impressions@ == old(self).impressions@,
                self.registrations@ == old(self).registrations@,
                counter_index(self.impressions@, c, 0) == counter_index(self.impressions@, c, i as int),
            decreases self.impressions.len() - i,
        {
            let e = &self.impressions[i];
            if e.feature_name == c.feature_name && e.variant == c.variant && e.environment
                == c.environment {
                let count = e.count.saturating_add(c.count);
                let updated = ImpressionCount {
                    feature_name: e.feature_name.clone(),
                    variant: e.variant.clone(),
                    environment: e.environment.clone(),
                    count,
                };
                self.impressions.set(i, updated);
                return;
            }
            i = i + 1;
        }
        self.impressions.push(c);
    }

    /// Adds one registration to the bucket; a later one of the same instance
    /// replaces the earlier.
    pub fn register_app(&mut self, r: AppRegistration)
        ensures
            final(self).registrations() == add_registration(old(self).registrations(), r),
            final(self).impressions() == old(self).impressions(),
    {
        let mut i: usize = 0;
        while i < self.registrations.len()
            invariant
                i <= self.registrations.len(),
                self.impressions@ == old(self).impressions@,
                self.registrations@ == old(self).registrations@,
                instance_index(self.registrations@, r, 0) == instance_index(
                    self.registrations@,
                    r,
                    i as int,
                ),
            decreases self.registrations.len() - i,
        {
            let e = &self.registrations[i];
            if e.app_name == r.app_name && e.instance_id == r.instance_id && e.environment
                == r.environment {
                self.registrations.set(i, r);
                return;
            }
            i = i + 1;
        }
        self.registrations.push(r);
    }

    /// Merges an SDK's batch into the bucket: counters sum, registrations
    /// are united by instance.
    pub fn record(&mut self, batch: MetricsBatch)
        ensures
            final(self).impressions() == add_counts(old(self).impressions(), batch.impressions@),
            final(self).registrations() == add_registrations(
                old(self).registrations(),
                batch.registrations@,
            ),
    {
        let MetricsBatch { impressions, registrations } = batch;
        let ghost bi = impressions@;
        let ghost br = registrations@;
        let mut i: usize = 0;
        while i < impressions.len()
            invariant
                impressions@ == bi,
                i <= bi.len(),
                self.impressions() == add_counts(old(self).impressions(), bi.subrange(0, i as int)),
                self.registrations() == old(self).registrations(),
            decreases bi.len() - i,
        {
            self.record_impression(impressions[i].clone_count());
            proof {
                assert(bi.subrange(0, i + 1).drop_last() == bi.subrange(0, i as int));
            }
            i = i + 1;
        }
        assert(bi.subrange(0, bi.len() as int) == bi);
        let mut i: usize = 0;
        while i < registrations.len()
            invariant
                registrations@ == br,
                i <= br.len(),
                self.impressions() == add_counts(old(self).impressions(), bi),
                self.registrations() == add_registrations(
                    old(self).registrations(),
                    br.subrange(0, i as int),
                ),
            decreases br.len() - i,
        {
            self.register_app(registrations[i].clone_registration());
            proof {
                assert(br.subrange(0, i + 1).drop_last() == br.subrange(0, i as int));
            }
            i = i + 1;
        }
        assert(br.subrange(0, br.len() as int) == br);
    }

    /// Takes out everything gathered and leaves the bucket empty. What is
    /// taken is never put back, whatever becomes of sending it.
    pub fn flush(&mut self) -> (r: MetricsCache)
        ensures
            r.impressions() == old(self).impressions(),
            r.registrations() == old(self).registrations(),
            final(self).impressions() == Seq::<ImpressionCount>::empty(),
            final(self).registrations() == Seq::<AppRegistration>::empty(),
    {
        let mut drained = MetricsCache::new();
        std::mem::swap(self, &mut drained);
        drained
    }

    /// The counters, for sending.
    pub fn impression_list(&self) -> (r: &Vec<ImpressionCount>)
        ensures
            r@ == self.impressions(),
    {
        &self.impressions
    }

    /// The registrations, for sending.
    pub fn registration_list(&self) -> (r: &Vec<AppRegistration>)
        ensures
            r@ == self.registrations(),
    {
        &self.registrations
    }
}

proof fn lemma_counter_index(s: Seq<ImpressionCount>, c: ImpressionCount, i: int)
    requires
        0 <= i,
    ensures
        match counter_index(s, c, i) {
            Some(k) => i <= k < s.len() && same_counter(s[k], c),
            None => true,
        },
    decreases s.len() - i,
{
    if i < s.len() && !same_counter(s[i], c) {
        lemma_counter_index(s, c, i + 1);
    }
}

/// A flush leaves nothing behind to send again: every counter that the next
/// flush sends comes from a count recorded after the first one.
pub proof fn lemma_flush_at_most_once(recorded: Seq<ImpressionCount>)
    ensures
        forall|k: int|
            0 <= k < add_counts(Seq::empty(), recorded).len() ==> exists|j: int|
                0 <= j < recorded.len() && same_counter(
                    #[trigger] add_counts(Seq::empty(), recorded)[k],
                    recorded[j],
                ),
    decreases recorded.len(),
{
    if recorded.len() > 0 {
        let d = recorded.drop_last();
        let c = recorded.last();
        lemma_flush_at_most_once(d);
        let s = add_counts(Seq::empty(), d);
        let t = add_counts(Seq::empty(), recorded);
        lemma_counter_index(s, c, 0);
        assert forall|k: int| 0 <= k < t.len() implies exists|j: int|
            0 <= j < recorded.len() && same_counter(#[trigger] t[k], recorded[j]) by {
            match counter_index(s, c, 0) {
                Some(i) => {
                    if k == i {
                        assert(same_counter(t[k], recorded[recorded.len() - 1]));
                    } else {
                        assert(t[k] == s[k]);
                        let j = choose|j: int| 0 <= j < d.len() && same_counter(#[trigger] s[k], d[j]);
                        assert(same_counter(t[k], recorded[j]));
                    }
                },
                None => {
                    if k < s.len() {
                        assert(t[k] == s[k]);
                        let j = choose|j: int| 0 <= j < d.len() && same_counter(#[trigger] s[k], d[j]);
                        assert(same_counter(t[k], recorded[j]));
                    } else {
                        assert(same_counter(t[k], recorded[recorded.len() - 1]));
                    }
                },
            }
        }
    }
}

impl ImpressionCount {
    pub fn clone_count(&self) -> (r: ImpressionCount)
        ensures
            r == *self,
    {
        ImpressionCount {
            feature_name: self.feature_name.clone(),
            variant: self.variant.clone(),
            environment: self.environment.clone(),
            count: self.count,
        }
    }
}

impl AppRegistration {
    pub fn clone_registration(&self) -> (r: AppRegistration)
        ensures
            r == *self,
    {
        let sdk_version = match &self.sdk_version {
            Some(v) => Some(v.clone()),
            None => None,
        };
        AppRegistration {
            app_name: self.app_name.clone(),
            instance_id: self.instance_id.clone(),
            environment: self.environment.clone(),
            sdk_version,
            interval: self.interval,
        }
    }
}

} // verus!
