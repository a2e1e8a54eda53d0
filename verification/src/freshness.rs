//! The freshness controller's decisions: when to check, and whether a
//! sampled set of source files shows the persisted index to be stale. The
//! filesystem walking and metadata reads that feed these decisions live
//! outside the library; the sampling and the verdict live here.

use vstd::prelude::*;
use rand::seq::SliceRandom;

verus! {

/// Tracks when staleness was last checked and how to sample for it.
pub struct FreshnessManager {
    index_path: String,
    project_path: String,
    last_check: u64,
    check_interval: u64,
    sample_size: usize,
}

/// Relies on std's `SystemTime::now` and `duration_since`: the wall clock,
/// as whole seconds since the Unix epoch, zero for a clock reading before
/// it. Nothing is promised of the value.
#[verifier::external_body]
fn now_secs() -> u64 {
    match std::time::SystemTime::now().duration_since(std::time::UNIX_EPOCH) {
        Ok(d) => d.as_secs(),
        Err(_) => 0,
    }
}

/// Relies on rand's `SliceRandom::shuffle` with `rand::rng`: reorders the
/// elements in place; beyond being a permutation, nothing is promised of
/// the outcome.
#[verifier::external_body]
fn shuffle_entries(v: &mut Vec<(String, u64)>)
    ensures
        final(v)@.to_multiset() == old(v)@.to_multiset(),
{
    v.as_mut_slice().shuffle(&mut rand::rng());
}

/// Whether a path names a Python source file.
pub open spec fn is_py(p: Seq<char>) -> bool {
    crate::paths::spec_extension(p) == Some("py"@)
}

/// How many entries the sampler pools before shuffling: three times the
/// sample size, saturating.
pub open spec fn oversample_cap(s: usize) -> nat {
    if s <= usize::MAX / 3 {
        (3 * s) as nat
    } else {
        usize::MAX as nat
    }
}

/// The first Python files among the first `n` entries, at most `cap` of
/// them.
pub open spec fn take_py(files: Seq<(String, u64)>, n: nat, cap: nat) -> Seq<(String, u64)>
    decreases n,
{
    if n == 0 {
        Seq::empty()
    } else {
        let p = take_py(files, (n - 1) as nat, cap);
        if p.len() < cap && is_py(files[n - 1].0@) {
            p.push(files[n - 1])
        } else {
            p
        }
    }
}

proof fn lemma_take_py_nonempty(files: Seq<(String, u64)>, n: nat, cap: nat)
    requires
        n <= files.len(),
        cap > 0,
        exists|j: int| 0 <= j < n && is_py((#[trigger] files[j]).0@),
    ensures
        take_py(files, n, cap).len() > 0,
    decreases n,
{
    let j = choose|j: int| 0 <= j < n && is_py((#[trigger] files[j]).0@);
    if j < n - 1 {
        lemma_take_py_nonempty(files, (n - 1) as nat, cap);
    }
}

proof fn lemma_take_py_members(files: Seq<(String, u64)>, n: nat, cap: nat)
    requires
        n <= files.len(),
    ensures
        forall|k: int|
            0 <= k < take_py(files, n, cap).len() ==> is_py(
                (#[trigger] take_py(files, n, cap)[k]).0@,
            ) && exists|j: int| 0 <= j < n && files[j] == take_py(files, n, cap)[k],
    decreases n,
{
    if n > 0 {
        lemma_take_py_members(files, (n - 1) as nat, cap);
        let p = take_py(files, (n - 1) as nat, cap);
        let w = take_py(files, n, cap);
        assert forall|k: int| 0 <= k < w.len() implies is_py((#[trigger] w[k]).0@) && exists|
            j: int,
        | 0 <= j < n && files[j] == w[k] by {
            if k < p.len() {
                assert(w[k] == p[k]);
            } else {
                assert(w[k] == files[n - 1]);
            }
        }
    }
}

/// Whether any sampled file is newer than the index.
pub open spec fn any_newer(sample: Seq<(String, u64)>, index_mtime: u64) -> bool {
    exists|i: int| 0 <= i < sample.len() && (#[trigger] sample[i]).1 > index_mtime
}

/// The staleness verdict over a concrete sample: true exactly when some
/// sampled file was modified after the index.
pub fn stale_decision(sample: &Vec<(String, u64)>, index_mtime: u64) -> (r: bool)
    ensures
        r == any_newer(sample@, index_mtime),
{
    let n = sample.len();
    let mut i: usize = 0;
    while i < n
        invariant
            0 <= i <= n,
            n == sample@.len(),
            forall|k: int| 0 <= k < i ==> (#[trigger] sample@[k]).1 <= index_mtime,
        decreases n - i,
    {
        if sample[i].1 > index_mtime {
            return true;
        }
        i += 1;
    }
    false
}

impl FreshnessManager {
    pub closed spec fn spec_index_path(&self) -> Seq<char> {
        self.index_path@
    }

    pub closed spec fn spec_project_path(&self) -> Seq<char> {
        self.project_path@
    }

    pub closed spec fn spec_last_check(&self) -> u64 {
        self.last_check
    }

    pub closed spec fn spec_interval(&self) -> u64 {
        self.check_interval
    }

    pub closed spec fn spec_sample_size(&self) -> usize {
        self.sample_size
    }

    /// A manager watching the given index and project, checking every 300
    /// seconds with a sample of 10, starting from the current time.
    pub fn new(index_path: String, project_path: String) -> (r: FreshnessManager)
        ensures
            r.spec_index_path() == index_path@,
            r.spec_project_path() == project_path@,
            r.spec_interval() == 300u64,
            r.spec_sample_size() == 10usize,
    {
        FreshnessManager {
            index_path,
            project_path,
            last_check: now_secs(),
            check_interval: 300,
            sample_size: 10,
        }
    }

    pub fn with_interval(self, seconds: u64) -> (r: FreshnessManager)
        ensures
            r.spec_interval() == seconds,
            r.spec_index_path() == self.spec_index_path(),
            r.spec_project_path() == self.spec_project_path(),
            r.spec_last_check() == self.spec_last_check(),
            r.spec_sample_size() == self.spec_sample_size(),
    {
        FreshnessManager { check_interval: seconds, ..self }
    }

    pub fn with_sample_size(self, size: usize) -> (r: FreshnessManager)
        ensures
            r.spec_sample_size() == size,
            r.spec_index_path() == self.spec_index_path(),
            r.spec_project_path() == self.spec_project_path(),
            r.spec_last_check() == self.spec_last_check(),
            r.spec_interval() == self.spec_interval(),
    {
        FreshnessManager { sample_size: size, ..self }
    }

    /// Whether a check is due at time `now`: the interval has elapsed since
    /// the last check, or the clock appears to have moved backward.
    pub open spec fn spec_should_check(&self, now: u64) -> bool {
        now < self.spec_last_check() || now - self.spec_last_check() >= self.spec_interval()
    }

    /// The check decision against an explicit clock reading.
    pub fn should_check_at(&self, now: u64) -> (r: bool)
        ensures
            r == self.spec_should_check(now),
    {
        now < self.last_check || now - self.last_check >= self.check_interval
    }

    /// The check decision against the wall clock; see `should_check_at` for
    /// the decision itself.
    pub fn should_check(&self) -> (r: bool) {
        self.should_check_at(now_secs())
    }

    /// Records that a check happened at time `now`.
    pub fn mark_checked_at(&mut self, now: u64)
        ensures
            final(self).spec_last_check() == now,
            final(self).spec_index_path() == old(self).spec_index_path(),
            final(self).spec_project_path() == old(self).spec_project_path(),
            final(self).spec_interval() == old(self).spec_interval(),
            final(self).spec_sample_size() == old(self).spec_sample_size(),
    {
        self.last_check = now;
    }

    /// Records that a check happened now.
    pub fn mark_checked(&mut self)
        ensures
            final(self).spec_index_path() == old(self).spec_index_path(),
            final(self).spec_project_path() == old(self).spec_project_path(),
            final(self).spec_interval() == old(self).spec_interval(),
            final(self).spec_sample_size() == old(self).spec_sample_size(),
    {
        let now = now_secs();
        self.mark_checked_at(now);
    }

    /// Draws the randomized staleness sample from a directory listing:
    /// the first `3 * sampleSize` Python files, shuffled, truncated to
    /// `sampleSize`. Every sampled entry comes from the listing and is a
    /// Python file, and the sample is as large as the pool and the sample
    /// size allow.
    pub fn choose_sample(&self, entries: &Vec<(String, u64)>) -> (r: Vec<(String, u64)>)
        ensures
            r@.len() <= self.spec_sample_size(),
            ({
                let pool = take_py(
                    entries@,
                    entries@.len() as nat,
                    oversample_cap(self.spec_sample_size()),
                );
                r@.len() == if pool.len() <= self.spec_sample_size() {
                    pool.len() as int
                } else {
                    self.spec_sample_size() as int
                }
            }),
            forall|k: int|
                0 <= k < r@.len() ==> is_py((#[trigger] r@[k]).0@) && exists|j: int|
                    0 <= j < entries@.len() && entries@[j] == r@[k],
    {
        let cap = if self.sample_size <= usize::MAX / 3 {
            self.sample_size * 3
        } else {
            usize::MAX
        };
        proof {
            assert(cap as nat == oversample_cap(self.spec_sample_size()));
        }
        let n = entries.len();
        let mut pool: Vec<(String, u64)> = Vec::new();
        let mut i: usize = 0;
        while i < n
            invariant
                0 <= i <= n,
                n == entries@.len(),
                pool@ =~= take_py(entries@, i as nat, cap as nat),
                pool@.len() <= cap,
            decreases n - i,
        {
            if pool.len() < cap {
                let ext = crate::paths::extension_of(entries[i].0.as_str());
                let keep = match ext {
                    Some(e) => crate::text::eq_str(e.as_str(), "py"),
                    None => false,
                };
                if keep {
                    let item = (entries[i].0.clone(), entries[i].1);
                    proof {
                        assert(item == entries@[i as int]);
                    }
                    pool.push(item);
                }
            }
            proof {
                assert(pool@ =~= take_py(entries@, (i + 1) as nat, cap as nat));
            }
            i += 1;
        }
        proof {
            lemma_take_py_members(entries@, n as nat, cap as nat);
        }
        let ghost pool0 = pool@;
        shuffle_entries(&mut pool);
        proof {
            broadcast use vstd::seq_lib::group_to_multiset_ensures;

            assert(pool@.len() == pool0.len()) by {
                assert(pool@.to_multiset().len() == pool0.to_multiset().len());
            }

            assert forall|k: int| 0 <= k < pool@.len() implies is_py((#[trigger] pool@[k]).0@)
                && exists|j: int| 0 <= j < entries@.len() && entries@[j] == pool@[k] by {
                assert(pool@.to_multiset().contains(pool@[k]));
                assert(pool0.to_multiset().contains(pool@[k]));
                assert(pool0.contains(pool@[k]));
                let w = choose|w: int| 0 <= w < pool0.len() && pool0[w] == pool@[k];
            }
        }
        let mut sample = pool;
        let ghost shuffled = sample@;
        proof {
            assert(sample@ =~= shuffled.take(sample@.len() as int));
        }
        while sample.len() > self.sample_size
            invariant
                sample@.len() <= shuffled.len(),
                sample@ =~= shuffled.take(sample@.len() as int),
                sample@.len() >= if shuffled.len() <= self.spec_sample_size() {
                    shuffled.len() as int
                } else {
                    self.spec_sample_size() as int
                },
            decreases sample@.len(),
        {
            sample.pop();
            proof {
                assert(sample@ =~= shuffled.take(sample@.len() as int));
            }
        }
        proof {
            assert forall|k: int| 0 <= k < sample@.len() implies is_py(
                (#[trigger] sample@[k]).0@,
            ) && exists|j: int| 0 <= j < entries@.len() && entries@[j] == sample@[k] by {
                assert(sample@[k] == shuffled[k]);
            }
        }
        sample
    }

    /// The staleness verdict from a directory listing of (path, mtime)
    /// entries: samples up to `sampleSize` Python files at random and
    /// reports stale when a sampled file is newer than the index. A stale
    /// verdict always names a real, newer Python file; a fresh verdict may
    /// miss newer files outside the sample, but when every Python file in
    /// the listing is newer than the index (and anything can be sampled at
    /// all), stale is the only possible verdict.
    pub fn is_stale_from(&self, entries: &Vec<(String, u64)>, index_mtime: u64) -> (r: bool)
        ensures
            r ==> exists|j: int|
                0 <= j < entries@.len() && (#[trigger] entries@[j]).1 > index_mtime && is_py(
                    entries@[j].0@,
                ),
            (self.spec_sample_size() > 0 && (exists|j: int|
                0 <= j < entries@.len() && is_py((#[trigger] entries@[j]).0@)) && (forall|j: int|
                0 <= j < entries@.len() && is_py((#[trigger] entries@[j]).0@)
                    ==> entries@[j].1 > index_mtime)) ==> r,
    {
        let sample = self.choose_sample(entries);
        let verdict = stale_decision(&sample, index_mtime);
        proof {
            if verdict {
                let i = choose|i: int|
                    0 <= i < sample@.len() && (#[trigger] sample@[i]).1 > index_mtime;
                assert(is_py(sample@[i].0@));
                let j = choose|j: int| 0 <= j < entries@.len() && entries@[j] == sample@[i];
                assert(entries@[j].1 > index_mtime);
            }
            if self.spec_sample_size() > 0 && (exists|j: int|
                0 <= j < entries@.len() && is_py((#[trigger] entries@[j]).0@)) && (forall|j: int|
                0 <= j < entries@.len() && is_py((#[trigger] entries@[j]).0@) ==> entries@[j].1
                    > index_mtime) {
                lemma_take_py_nonempty(
                    entries@,
                    entries@.len() as nat,
                    oversample_cap(self.spec_sample_size()),
                );
                assert(sample@.len() >= 1);
                assert(is_py(sample@[0].0@));
                let j0 = choose|j: int| 0 <= j < entries@.len() && entries@[j] == sample@[0];
                assert(entries@[j0].1 > index_mtime);
                assert(sample@[0].1 > index_mtime);
                assert(any_newer(sample@, index_mtime));
            }
        }
        verdict
    }
}

/// A quick staleness probe over a top-level directory listing: true exactly
/// when some Python file in it is newer than the index.
pub fn quick_staleness_check(entries: &Vec<(String, u64)>, index_mtime: u64) -> (r: bool)
    ensures
        r == exists|j: int|
            0 <= j < entries@.len() && (#[trigger] entries@[j]).1 > index_mtime && is_py(
                entries@[j].0@,
            ),
{
    let n = entries.len();
    let mut i: usize = 0;
    while i < n
        invariant
            0 <= i <= n,
            n == entries@.len(),
            forall|k: int|
                0 <= k < i ==> !((#[trigger] entries@[k]).1 > index_mtime && is_py(
                    entries@[k].0@,
                )),
        decreases n - i,
    {
        let ext = crate::paths::extension_of(entries[i].0.as_str());
        let py = match ext {
            Some(e) => crate::text::eq_str(e.as_str(), "py"),
            None => false,
        };
        if py && entries[i].1 > index_mtime {
            return true;
        }
        i += 1;
    }
    false
}

} // verus!
