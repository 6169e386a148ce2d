mod clock;
pub mod report;

use vstd::prelude::*;

verus! {

/// Settings for a benchmark suite: `quick` truncates parameter sweeps
/// to their first entry.
#[derive(Debug)]
pub struct BenchmarkConfig {
    pub quick: bool,
}

impl Default for BenchmarkConfig {
    /// Quick mode is off unless asked for.
    fn default() -> (c: BenchmarkConfig)
        ensures
            !c.quick,
    {
        BenchmarkConfig { quick: false }
    }
}

impl BenchmarkConfig {
    /// Interprets the value of the quick-mode environment toggle, as
    /// handed in by the embedding process. `quick` is true exactly when
    /// the variable is set to `"true"` or `"1"`.
    pub fn from_env(value: Option<String>) -> (c: BenchmarkConfig)
        ensures
            c.quick == match value {
                Some(v) => v@ == "true"@ || v@ == "1"@,
                None => false,
            },
    {
        let quick = match value {
            Some(v) => v == String::from_str("true") || v == String::from_str("1"),
            None => false,
        };
        BenchmarkConfig { quick }
    }
}

/// The value that a sequence of `(key, value)` metric entries denotes:
/// a finite map from key text to recorded value, later entries winning.
pub open spec fn metrics_map(s: Seq<(String, usize)>) -> Map<Seq<char>, nat>
    decreases s.len(),
{
    if s.len() == 0 {
        Map::empty()
    } else {
        metrics_map(s.drop_last()).insert(s.last().0@, s.last().1 as nat)
    }
}

/// The metric entries carry no duplicate keys.
pub open spec fn metrics_unique(s: Seq<(String, usize)>) -> bool {
    forall|i: int, j: int| 0 <= i < j < s.len() ==> s[i].0@ != s[j].0@
}

/// One timed execution: its registration label, the parameter label it
/// ran under (empty when non-parameterized), the measured wall-clock
/// duration in nanoseconds, and the metrics the caller logged.
#[derive(Debug)]
pub struct BenchmarkRun {
    pub name: String,
    pub param: String,
    pub time_ns: u128,
    pub metrics: Vec<(String, usize)>,
}

impl BenchmarkRun {
    /// A fresh run: zero duration, no metrics.
    pub fn new(name: String, param: String) -> (r: BenchmarkRun)
        ensures
            r.name == name,
            r.param == param,
            r.time_ns == 0,
            r.metrics@ == Seq::<(String, usize)>::empty(),
    {
        BenchmarkRun { name, param, time_ns: 0, metrics: Vec::new() }
    }

    /// Records `value` under `metric`, overwriting any earlier value for
    /// the same key: afterwards the metrics denote the old map with
    /// `metric` bound to `value`, and no other key is disturbed.
    pub fn log(&mut self, metric: String, value: usize)
        requires
            metrics_unique(old(self).metrics@),
        ensures
            final(self).name == old(self).name,
            final(self).param == old(self).param,
            final(self).time_ns == old(self).time_ns,
            metrics_unique(final(self).metrics@),
            metrics_map(final(self).metrics@) == metrics_map(old(self).metrics@).insert(metric@, value as nat),
            final(self).metrics@.map_values(|e: (String, usize)| e.0@)
                == if metrics_map(old(self).metrics@).dom().contains(metric@) {
                    old(self).metrics@.map_values(|e: (String, usize)| e.0@)
                } else {
                    old(self).metrics@.map_values(|e: (String, usize)| e.0@).push(metric@)
                },
    {
        let mut i: usize = 0;
        while i < self.metrics.len()
            invariant
                i <= self.metrics.len(),
                *self == *old(self),
                metrics_unique(self.metrics@),
                forall|j: int| 0 <= j < i ==> self.metrics@[j].0@ != metric@,
            decreases self.metrics.len() - i,
        {
            if self.metrics[i].0 == metric {
                proof {
                    lemma_metrics_key_in_map(self.metrics@, i as int);
                }
                let ghost s0 = self.metrics@;
                let value_pair = (metric, value);
                self.metrics.set(i, value_pair);
                proof {
                    lemma_metrics_map_update(s0, i as int, value_pair);
                    assert(forall|x: int| 0 <= x < self.metrics@.len()
                        ==> self.metrics@[x].0@ == s0[x].0@);
                    assert(self.metrics@.map_values(|e: (String, usize)| e.0@)
                        =~= s0.map_values(|e: (String, usize)| e.0@));
                }
                return;
            }
            i += 1;
        }
        proof {
            lemma_metrics_absent_key(self.metrics@, metric@);
        }
        let ghost s0 = self.metrics@;
        self.metrics.push((metric, value));
        proof {
            assert(self.metrics@.drop_last() =~= s0);
            assert(self.metrics@.map_values(|e: (String, usize)| e.0@)
                =~= s0.map_values(|e: (String, usize)| e.0@).push(metric@));
            assert(forall|j: int| 0 <= j < s0.len() ==> self.metrics@[j] == s0[j]);
        }
    }

    /// Times one execution of `func`: captures the monotonic clock,
    /// invokes `func` once, and overwrites `time_ns` with the elapsed
    /// nanoseconds (repeated calls do not accumulate — the last
    /// measurement wins). Returns exactly what `func` returned; the
    /// label, parameter and metrics are untouched.
    pub fn run<F: FnOnce() -> R, R>(&mut self, func: F) -> (out: R)
        requires
            func.requires(()),
        ensures
            func.ensures((), out),
            final(self).name == old(self).name,
            final(self).param == old(self).param,
            final(self).metrics == old(self).metrics,
    {
        let start = std::time::Instant::now();
        let out = func();
        self.time_ns = start.elapsed().as_nanos();
        out
    }
}

/// A completed run together with the label it was registered under.
#[derive(Debug)]
pub struct BenchmarkResult {
    pub name: String,
    pub run: BenchmarkRun,
}

impl BenchmarkResult {
    /// Pairs a completed run with its registration label.
    pub fn new(name: String, run: BenchmarkRun) -> (r: BenchmarkResult)
        ensures
            r.name == name,
            r.run == run,
    {
        BenchmarkResult { name, run }
    }
}

/// Holds of every run a registration hands to its closure, whatever
/// parameter label it carries: created under label `name`, with zero
/// duration and no metrics.
pub open spec fn fresh_run_any_param(r: BenchmarkRun, name: Seq<char>) -> bool {
    &&& r.name@ == name
    &&& r.time_ns == 0
    &&& r.metrics@ == Seq::<(String, usize)>::empty()
}

/// Holds when `r` is the run a registration hands to its closure:
/// freshly created under label `name` and parameter label `param`.
pub open spec fn fresh_run(r: BenchmarkRun, name: Seq<char>, param: Seq<char>) -> bool {
    &&& fresh_run_any_param(r, name)
    &&& r.param@ == param
}

/// Holds when timing entry `e` is what registering `func` under label
/// `name` with parameter label `param` appends: the label itself,
/// paired with a result wrapping whatever `func` made of a fresh run.
pub open spec fn registered_entry<F>(
    e: (String, BenchmarkResult),
    name: Seq<char>,
    param: Seq<char>,
    func: F,
) -> bool where F: Fn(BenchmarkRun) -> BenchmarkRun {
    &&& e.0@ == name
    &&& e.1.name@ == name
    &&& exists|r0: BenchmarkRun|
        fresh_run(r0, name, param) && #[trigger] func.ensures((r0,), e.1.run)
}

/// The parameterized counterpart of [`registered_entry`]: `func` was
/// handed a fresh run together with the parameter value `p`.
pub open spec fn registered_entry_with<F, P>(
    e: (String, BenchmarkResult),
    name: Seq<char>,
    param: Seq<char>,
    func: F,
    p: P,
) -> bool where F: Fn(BenchmarkRun, &P) -> BenchmarkRun {
    &&& e.0@ == name
    &&& e.1.name@ == name
    &&& exists|r0: BenchmarkRun, pr: &P|
        fresh_run(r0, name, param) && *pr == p && #[trigger] func.ensures((r0, pr), e.1.run)
}

/// The top-level registry: a named, ordered, append-only collection of
/// results, executed under one configuration.
#[derive(Debug)]
pub struct Benchmark {
    pub name: String,
    pub config: BenchmarkConfig,
    pub timings: Vec<(String, BenchmarkResult)>,
}

impl Benchmark {
    /// An empty suite under the default configuration (`quick` off).
    pub fn new(name: String) -> (b: Benchmark)
        ensures
            b.name == name,
            !b.config.quick,
            b.timings@ == Seq::<(String, BenchmarkResult)>::empty(),
    {
        Benchmark { name, config: BenchmarkConfig { quick: false }, timings: Vec::new() }
    }

    /// An empty suite under a caller-supplied configuration.
    pub fn with_config(name: String, config: BenchmarkConfig) -> (b: Benchmark)
        ensures
            b.name == name,
            b.config == config,
            b.timings@ == Seq::<(String, BenchmarkResult)>::empty(),
    {
        Benchmark { name, config, timings: Vec::new() }
    }

    /// An empty suite configured from the quick-mode environment
    /// toggle, whose value the embedding process hands in.
    pub fn from_env(name: String, env_value: Option<String>) -> (b: Benchmark)
        ensures
            b.name == name,
            b.config.quick == match env_value {
                Some(v) => v@ == "true"@ || v@ == "1"@,
                None => false,
            },
            b.timings@ == Seq::<(String, BenchmarkResult)>::empty(),
    {
        Benchmark { name, config: BenchmarkConfig::from_env(env_value), timings: Vec::new() }
    }

    /// Registers one plain operation: runs `func` once on a fresh run
    /// (empty parameter label) and appends exactly one result under
    /// `name`, leaving the earlier entries untouched.
    pub fn benchmark<F: Fn(BenchmarkRun) -> BenchmarkRun>(&mut self, name: String, func: F)
        requires
            forall|r: BenchmarkRun|
                fresh_run(r, name@, Seq::<char>::empty()) ==> #[trigger] func.requires((r,)),
        ensures
            final(self).name == old(self).name,
            final(self).config == old(self).config,
            final(self).timings@.len() == old(self).timings@.len() + 1,
            final(self).timings@.drop_last() == old(self).timings@,
            registered_entry(final(self).timings@.last(), name@, Seq::<char>::empty(), func),
    {
        let run = BenchmarkRun::new(name.clone(), String::new());
        let ghost r0 = run;
        proof {
            assert(fresh_run(run, name@, Seq::<char>::empty()));
        }
        let run = func(run);
        let ghost rfin = run;
        let result_name = name.clone();
        self.timings.push((name, BenchmarkResult { name: result_name, run }));
        proof {
            assert(self.timings@.drop_last() =~= old(self).timings@);
            let e = self.timings@.last();
            assert(e.1.run == rfin);
            assert(fresh_run(r0, name@, Seq::<char>::empty()));
            assert(func.ensures((r0,), e.1.run));
        }
    }

    /// Registers one parameterized operation: walks `params` in order —
    /// all of them, or only the first when `quick` is set — and for
    /// each selected `(label, value)` runs `func` on a fresh run under
    /// that parameter label and appends one result under `name`, in
    /// iteration order, leaving the earlier entries untouched. An empty
    /// `params` appends nothing.
    pub fn benchmark_with<F: Fn(BenchmarkRun, &P) -> BenchmarkRun, P>(
        &mut self,
        name: String,
        params: &[(String, P)],
        func: F,
    )
        requires
            forall|r: BenchmarkRun, p: &P|
                fresh_run_any_param(r, name@) ==> #[trigger] func.requires((r, p)),
        ensures
            final(self).name == old(self).name,
            final(self).config == old(self).config,
            final(self).timings@.len() == old(self).timings@.len() + selected_count(
                old(self).config.quick,
                params@.len(),
            ),
            final(self).timings@.take(old(self).timings@.len() as int) == old(self).timings@,
            forall|j: int|
                0 <= j < selected_count(old(self).config.quick, params@.len())
                    ==> registered_entry_with(
                    #[trigger] final(self).timings@[old(self).timings@.len() + j],
                    name@,
                    params@[j].0@,
                    func,
                    params@[j].1,
                ),
    {
        let limit: usize = if self.config.quick {
            if params.len() > 0 { 1 } else { 0 }
        } else {
            params.len()
        };
        let ghost n0 = self.timings@.len() as int;
        let mut i: usize = 0;
        while i < limit
            invariant
                limit == selected_count(old(self).config.quick, params@.len()),
                limit <= params@.len(),
                i <= limit,
                self.name == old(self).name,
                self.config == old(self).config,
                self.timings@.len() == n0 + i,
                n0 == old(self).timings@.len(),
                self.timings@.take(n0) == old(self).timings@,
                forall|r: BenchmarkRun, p: &P|
                    fresh_run_any_param(r, name@) ==> #[trigger] func.requires((r, p)),
                forall|j: int|
                    0 <= j < i ==> registered_entry_with(
                        #[trigger] self.timings@[n0 + j],
                        name@,
                        params@[j].0@,
                        func,
                        params@[j].1,
                    ),
            decreases limit - i,
        {
            let pair = &params[i];
            let run = BenchmarkRun::new(name.clone(), pair.0.clone());
            let ghost r0 = run;
            let pv = &pair.1;
            proof {
                assert(fresh_run_any_param(run, name@));
            }
            let run = func(run, pv);
            let ghost rfin = run;
            let result_name = name.clone();
            let entry_name = name.clone();
            self.timings.push((entry_name, BenchmarkResult { name: result_name, run }));
            proof {
                assert(self.timings@.take(n0) =~= old(self).timings@);
                let e = self.timings@.last();
                assert(e.1.run == rfin);
                assert(fresh_run(r0, name@, params@[i as int].0@));
                assert(*pv == params@[i as int].1);
                assert(func.ensures((r0, pv), e.1.run));
                assert(registered_entry_with(
                    self.timings@[n0 + i],
                    name@,
                    params@[i as int].0@,
                    func,
                    params@[i as int].1,
                ));
            }
            i += 1;
        }
    }
}

/// How many of `n` parameters a registration processes: all of them,
/// or at most the first under quick mode.
pub open spec fn selected_count(quick: bool, n: nat) -> nat {
    if quick {
        if n > 0 {
            1
        } else {
            0
        }
    } else {
        n
    }
}

/// Last write wins: when a run's metrics go from `r0` to `r1` by
/// logging `v1` under `key`, and from `r1` to `r2` by logging `v2`
/// under the same `key` — the steps [`BenchmarkRun::log`] promises —
/// then `r2` holds exactly one binding for `key`, with value `v2`, as
/// if the first write had never happened.
pub proof fn lemma_log_last_write_wins(
    r0: BenchmarkRun,
    r1: BenchmarkRun,
    r2: BenchmarkRun,
    key: Seq<char>,
    v1: nat,
    v2: nat,
)
    requires
        metrics_map(r1.metrics@) == metrics_map(r0.metrics@).insert(key, v1),
        metrics_map(r2.metrics@) == metrics_map(r1.metrics@).insert(key, v2),
    ensures
        metrics_map(r2.metrics@) == metrics_map(r0.metrics@).insert(key, v2),
        metrics_map(r2.metrics@).dom().contains(key),
        metrics_map(r2.metrics@)[key] == v2,
{
    assert(metrics_map(r0.metrics@).insert(key, v1).insert(key, v2)
        =~= metrics_map(r0.metrics@).insert(key, v2));
}

/// A key that occurs at some entry is in the denoted map's domain.
proof fn lemma_metrics_key_in_map(s: Seq<(String, usize)>, i: int)
    requires
        0 <= i < s.len(),
    ensures
        metrics_map(s).dom().contains(s[i].0@),
    decreases s.len(),
{
    if i < s.len() - 1 {
        lemma_metrics_key_in_map(s.drop_last(), i);
    }
}

/// A key that occurs at no entry is outside the denoted map's domain.
proof fn lemma_metrics_absent_key(s: Seq<(String, usize)>, k: Seq<char>)
    requires
        forall|j: int| 0 <= j < s.len() ==> s[j].0@ != k,
    ensures
        !metrics_map(s).dom().contains(k),
    decreases s.len(),
{
    if s.len() > 0 {
        lemma_metrics_absent_key(s.drop_last(), k);
    }
}

/// Overwriting the single entry that holds a key denotes the same map
/// as inserting the new value for that key.
proof fn lemma_metrics_map_update(s: Seq<(String, usize)>, i: int, e: (String, usize))
    requires
        metrics_unique(s),
        0 <= i < s.len(),
        s[i].0@ == e.0@,
    ensures
        metrics_map(s.update(i, e)) == metrics_map(s).insert(e.0@, e.1 as nat),
    decreases s.len(),
{
    if i == s.len() - 1 {
        assert(s.update(i, e).drop_last() =~= s.drop_last());
        assert(metrics_map(s.update(i, e))
            =~= metrics_map(s).insert(e.0@, e.1 as nat));
    } else {
        assert(s.update(i, e).drop_last() =~= s.drop_last().update(i, e));
        lemma_metrics_map_update(s.drop_last(), i, e);
        assert(metrics_map(s.update(i, e))
            =~= metrics_map(s).insert(e.0@, e.1 as nat));
    }
}

} // verus!
