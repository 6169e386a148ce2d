use bench::Benchmark;
use bench::BenchmarkConfig;
use bench::BenchmarkRun;

#[test]
fn end_to_end_plain_registration() {
    let mut b = Benchmark::new("suite".to_string());
    b.benchmark("op".to_string(), |mut run: BenchmarkRun| {
        run.run(|| {});
        run.log("bytes".to_string(), 42);
        run
    });

    assert_eq!(b.timings.len(), 1);
    assert_eq!(b.timings[0].1.name, "op");
    assert_eq!(b.timings[0].1.run.param, "");
    assert_eq!(b.timings[0].1.run.metrics, vec![("bytes".to_string(), 42usize)]);

    let report = b.render_report();
    assert!(report.contains("\"suite\""));
    assert!(report.contains("\"bytes\":42"));

    let v: serde_json::Value = serde_json::from_str(&report).unwrap();
    assert_eq!(v["name"].as_str().unwrap(), "suite");
    let timings = v["timings"].as_array().unwrap();
    assert_eq!(timings.len(), 1);
    let entry = timings[0].as_array().unwrap();
    assert_eq!(entry[0].as_str().unwrap(), "op");
    let run = &entry[1]["run"];
    assert_eq!(run["name"].as_str().unwrap(), "op");
    assert_eq!(run["param"].as_str().unwrap(), "");
    assert!(run["time"].as_u64().is_some());
    assert_eq!(run["metrics"]["bytes"].as_u64().unwrap(), 42);
}

#[test]
fn end_to_end_parameterized_registration() {
    let params = vec![("small".to_string(), 10usize), ("large".to_string(), 1000usize)];

    let quick_config = BenchmarkConfig::from_env(Some("true".to_string()));
    let mut quick = Benchmark::with_config("suite".to_string(), quick_config);
    quick.benchmark_with("op".to_string(), &params, |run: BenchmarkRun, _p: &usize| run);
    assert_eq!(quick.timings.len(), 1);
    assert_eq!(quick.timings[0].1.run.param, "small");

    let mut full = Benchmark::new("suite".to_string());
    full.benchmark_with("op".to_string(), &params, |run: BenchmarkRun, _p: &usize| run);
    assert_eq!(full.timings.len(), 2);
    assert_eq!(full.timings[0].1.run.param, "small");
    assert_eq!(full.timings[1].1.run.param, "large");
}

#[test]
fn report_shape_of_empty_suite() {
    let b = Benchmark::new("empty".to_string());
    let report = b.render_report();
    assert_eq!(report, "{\"name\":\"empty\",\"timings\":[]}");
}

#[test]
fn report_escapes_special_characters() {
    let name = "a\"b\\c\nd\u{1}e".to_string();
    let mut b = Benchmark::new(name.clone());
    b.benchmark("k\"ey".to_string(), |mut run: BenchmarkRun| {
        run.log("me\\tric".to_string(), 5);
        run
    });

    let report = b.render_report();
    let v: serde_json::Value = serde_json::from_str(&report).unwrap();
    assert_eq!(v["name"].as_str().unwrap(), name);
    let entry = v["timings"][0].as_array().unwrap();
    assert_eq!(entry[0].as_str().unwrap(), "k\"ey");
    assert_eq!(entry[1]["run"]["metrics"]["me\\tric"].as_u64().unwrap(), 5);
}

#[test]
fn report_renders_exact_decimal_values() {
    let mut b = Benchmark::new("numbers".to_string());
    b.benchmark("op".to_string(), |mut run: BenchmarkRun| {
        run.log("n".to_string(), 1234567890);
        run.log("zero".to_string(), 0);
        run
    });

    let report = b.render_report();
    assert!(report.contains("\"n\":1234567890"));
    assert!(report.contains("\"zero\":0"));
    let v: serde_json::Value = serde_json::from_str(&report).unwrap();
    let metrics = &v["timings"][0][1]["run"]["metrics"];
    assert_eq!(metrics["n"].as_u64().unwrap(), 1234567890);
    assert_eq!(metrics["zero"].as_u64().unwrap(), 0);
}

#[test]
fn report_preserves_registration_order() {
    let mut b = Benchmark::new("ordered".to_string());
    b.benchmark("first".to_string(), |run: BenchmarkRun| run);
    b.benchmark("second".to_string(), |run: BenchmarkRun| run);
    b.benchmark("third".to_string(), |run: BenchmarkRun| run);

    let v: serde_json::Value = serde_json::from_str(&b.render_report()).unwrap();
    let timings = v["timings"].as_array().unwrap();
    let labels: Vec<&str> = timings.iter().map(|e| e[0].as_str().unwrap()).collect();
    assert_eq!(labels, vec!["first", "second", "third"]);
}
