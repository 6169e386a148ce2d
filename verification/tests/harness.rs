use bench::Benchmark;
use bench::BenchmarkConfig;
use bench::BenchmarkResult;
use bench::BenchmarkRun;

#[test]
fn register_appends_exactly_one() {
    let mut b = Benchmark::new("suite".to_string());
    assert_eq!(b.timings.len(), 0);
    b.benchmark("first".to_string(), |run| run);
    assert_eq!(b.timings.len(), 1);
    b.benchmark("second".to_string(), |run| run);
    assert_eq!(b.timings.len(), 2);
    assert_eq!(b.timings[0].0, "first");
    assert_eq!(b.timings[1].0, "second");
    assert_eq!(b.timings[0].1.name, "first");
    assert_eq!(b.timings[0].1.run.param, "");
}

#[test]
fn params_all_processed_in_order() {
    let mut b = Benchmark::new("suite".to_string());
    let params = vec![("small".to_string(), 10usize), ("large".to_string(), 1000usize)];
    b.benchmark_with("op".to_string(), &params, |mut run: BenchmarkRun, p: &usize| {
        run.log("value".to_string(), *p);
        run
    });
    assert_eq!(b.timings.len(), 2);
    assert_eq!(b.timings[0].1.run.param, "small");
    assert_eq!(b.timings[1].1.run.param, "large");
    assert_eq!(b.timings[0].1.run.metrics, vec![("value".to_string(), 10usize)]);
    assert_eq!(b.timings[1].1.run.metrics, vec![("value".to_string(), 1000usize)]);
}

#[test]
fn params_quick_takes_first_only() {
    let config = BenchmarkConfig::from_env(Some("true".to_string()));
    let mut b = Benchmark::with_config("suite".to_string(), config);
    let params = vec![("small".to_string(), 10usize), ("large".to_string(), 1000usize)];
    b.benchmark_with("op".to_string(), &params, |run: BenchmarkRun, _p: &usize| run);
    assert_eq!(b.timings.len(), 1);
    assert_eq!(b.timings[0].1.run.param, "small");
}

#[test]
fn params_empty_appends_nothing() {
    let params: Vec<(String, usize)> = Vec::new();

    let mut slow = Benchmark::new("suite".to_string());
    slow.benchmark_with("op".to_string(), &params, |run: BenchmarkRun, _p: &usize| run);
    assert_eq!(slow.timings.len(), 0);

    let quick_config = BenchmarkConfig::from_env(Some("1".to_string()));
    let mut quick = Benchmark::with_config("suite".to_string(), quick_config);
    quick.benchmark_with("op".to_string(), &params, |run: BenchmarkRun, _p: &usize| run);
    assert_eq!(quick.timings.len(), 0);
}

#[test]
fn run_returns_closure_value() {
    let mut run = BenchmarkRun::new("op".to_string(), "".to_string());
    let out = run.run(|| 41 + 1);
    assert_eq!(out, 42);
    let text = run.run(|| "done".to_string());
    assert_eq!(text, "done");
}

#[test]
fn run_measures_elapsed_wall_time() {
    let mut run = BenchmarkRun::new("op".to_string(), "".to_string());
    assert_eq!(run.time_ns, 0);
    run.run(|| {
        let start = std::time::Instant::now();
        while start.elapsed() < std::time::Duration::from_millis(60) {}
    });
    assert!(run.time_ns >= 50_000_000);
}

#[test]
fn run_overwrites_time_last_write_wins() {
    let mut run = BenchmarkRun::new("op".to_string(), "".to_string());
    run.run(|| {
        let start = std::time::Instant::now();
        while start.elapsed() < std::time::Duration::from_millis(30) {}
    });
    let long_time = run.time_ns;
    assert!(long_time >= 25_000_000);
    run.run(|| {});
    assert!(run.time_ns < long_time);
}

#[test]
fn log_same_key_overwrites() {
    let mut run = BenchmarkRun::new("op".to_string(), "".to_string());
    run.log("key".to_string(), 1);
    run.log("key".to_string(), 2);
    assert_eq!(run.metrics, vec![("key".to_string(), 2usize)]);
}

#[test]
fn log_distinct_keys_keeps_insertion_order() {
    let mut run = BenchmarkRun::new("op".to_string(), "".to_string());
    run.log("alpha".to_string(), 7);
    run.log("beta".to_string(), 8);
    run.log("alpha".to_string(), 9);
    assert_eq!(
        run.metrics,
        vec![("alpha".to_string(), 9usize), ("beta".to_string(), 8usize)]
    );
}

#[test]
fn config_from_env_truthy_values() {
    assert!(BenchmarkConfig::from_env(Some("true".to_string())).quick);
    assert!(BenchmarkConfig::from_env(Some("1".to_string())).quick);
    assert!(!BenchmarkConfig::from_env(Some("false".to_string())).quick);
    assert!(!BenchmarkConfig::from_env(Some("TRUE".to_string())).quick);
    assert!(!BenchmarkConfig::from_env(Some("yes".to_string())).quick);
    assert!(!BenchmarkConfig::from_env(Some("".to_string())).quick);
    assert!(!BenchmarkConfig::from_env(None).quick);
}

#[test]
fn benchmark_from_env_sets_quick() {
    let b = Benchmark::from_env("suite".to_string(), Some("1".to_string()));
    assert!(b.config.quick);
    assert_eq!(b.name, "suite");
    assert_eq!(b.timings.len(), 0);

    let b = Benchmark::from_env("suite".to_string(), None);
    assert!(!b.config.quick);
}

#[test]
fn result_new_wraps_run() {
    let mut run = BenchmarkRun::new("op".to_string(), "variant".to_string());
    run.log("bytes".to_string(), 3);
    let result = BenchmarkResult::new("op".to_string(), run);
    assert_eq!(result.name, "op");
    assert_eq!(result.run.param, "variant");
    assert_eq!(result.run.metrics, vec![("bytes".to_string(), 3usize)]);
}
