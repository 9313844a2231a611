use bench::cli::{Cli, Command, ConfigError, RunArgs};
use bench::config::{RequestDef, RunParams, ScenarioFile, ScenarioRef};

fn args() -> RunArgs {
    RunArgs {
        file: None,
        url: Some("https://api.example.com/health".to_string()),
        method: "get".to_string(),
        headers: vec![],
        body: None,
        content_type: None,
        concurrency: None,
        duration: None,
        requests: Some(1000),
        timeout: None,
        name: "Benchmark".to_string(),
        output: None,
        export: None,
        no_report: false,
        open: false,
    }
}

fn def(url: &str) -> RequestDef {
    RequestDef { url: url.to_string(), method: "GET".to_string(), headers: vec![], body: None }
}

fn run(c: Option<usize>, r: Option<u64>, d: Option<u64>) -> RunParams {
    RunParams { concurrency: c, duration_secs: d, requests: r, timeout_ms: None, output_format: None, output: None }
}

fn sref(name: &str, steps: &[&str], r: Option<RunParams>) -> ScenarioRef {
    ScenarioRef { name: name.to_string(), run: r, steps: steps.iter().map(|s| s.to_string()).collect() }
}

fn file_args() -> RunArgs {
    let mut a = args();
    a.file = Some("scenarios.json".to_string());
    a.url = None;
    a.requests = None;
    a
}

#[test]
fn single_step_defaults() {
    let cfg = args().into_run_config(None).unwrap();
    assert_eq!(cfg.scenarios.len(), 1);
    let s = &cfg.scenarios[0];
    assert_eq!(s.name, "Benchmark");
    assert!(s.run.is_none());
    assert_eq!(s.steps.len(), 1);
    assert_eq!(s.steps[0].name, "Benchmark");
    assert_eq!(s.steps[0].method, "GET");
    assert_eq!(s.steps[0].url, "https://api.example.com/health");
    assert_eq!(cfg.global_run.concurrency, Some(10));
    assert_eq!(cfg.global_run.timeout_ms, Some(5000));
    assert_eq!(cfg.global_run.requests, Some(1000));
    assert_eq!(cfg.json_output, "report.json");
}

#[test]
fn single_step_headers_are_normalised() {
    let mut a = args();
    a.headers = vec![
        " Accept : application/json ".to_string(),
        "Authorization:Bearer token123".to_string(),
        "ACCEPT:text/plain".to_string(),
    ];
    a.content_type = Some("application/json".to_string());
    a.concurrency = Some(20);
    a.timeout = Some(250);
    a.output = Some("out.json".to_string());
    let cfg = a.into_run_config(None).unwrap();
    let mut h = cfg.scenarios[0].steps[0].headers.clone();
    h.sort();
    assert_eq!(
        h,
        vec![
            ("accept".to_string(), "text/plain".to_string()),
            ("authorization".to_string(), "Bearer token123".to_string()),
            ("content-type".to_string(), "application/json".to_string()),
        ]
    );
    assert_eq!(cfg.global_run.concurrency, Some(20));
    assert_eq!(cfg.global_run.timeout_ms, Some(250));
    assert_eq!(cfg.json_output, "out.json");
}

#[test]
fn content_type_overrides_header() {
    let mut a = args();
    a.headers = vec!["Content-Type: text/xml".to_string()];
    a.content_type = Some("application/json".to_string());
    let cfg = a.into_run_config(None).unwrap();
    assert_eq!(cfg.scenarios[0].steps[0].headers, vec![("content-type".to_string(), "application/json".to_string())]);
}

#[test]
fn single_step_needs_run_length() {
    let mut a = args();
    a.requests = None;
    assert_eq!(a.into_run_config(None).unwrap_err(), ConfigError::MissingRunLength);
}

#[test]
fn single_step_rejects_header_without_colon() {
    let mut a = args();
    a.headers = vec!["Accept:x".to_string(), "broken".to_string(), "also broken".to_string()];
    assert_eq!(a.into_run_config(None).unwrap_err(), ConfigError::InvalidHeader { header: "broken".to_string() });
}

#[test]
fn file_mode_resolves_steps_in_order() {
    let mut a = file_args();
    a.concurrency = Some(7);
    let sf = ScenarioFile {
        run: Some(run(Some(10), Some(100), None)),
        requests: vec![("health".to_string(), def("https://x/health")), ("users".to_string(), def("https://x/users"))],
        scenarios: vec![
            sref("Warm Up", &["health"], Some(run(Some(2), Some(5000), None))),
            sref("Steady", &["health", "users", "health"], None),
        ],
    };
    let cfg = a.into_run_config(Some(sf)).unwrap();
    assert_eq!(cfg.scenarios.len(), 2);
    assert_eq!(cfg.global_run.concurrency, Some(7));
    assert_eq!(cfg.global_run.requests, Some(100));
    let steady = &cfg.scenarios[1];
    let names: Vec<&str> = steady.steps.iter().map(|s| s.name.as_str()).collect();
    assert_eq!(names, vec!["health", "users", "health"]);
    assert_eq!(steady.steps[1].url, "https://x/users");
    let warm = cfg.effective_run(&cfg.scenarios[0]);
    assert_eq!(warm.concurrency, Some(2));
    assert_eq!(warm.requests, Some(5000));
}

#[test]
fn file_mode_errors() {
    let base = || ScenarioFile {
        run: Some(run(None, Some(10), None)),
        requests: vec![("a".to_string(), def("http://a")), ("empty".to_string(), def(""))],
        scenarios: vec![],
    };
    assert_eq!(file_args().into_run_config(Some(base())).unwrap_err(), ConfigError::NoScenarios);

    let mut f = base();
    f.scenarios = vec![sref("ok", &["a"], None), sref("S", &[], None)];
    assert_eq!(file_args().into_run_config(Some(f)).unwrap_err(), ConfigError::NoSteps { index: 1, name: "S".to_string() });

    let mut f = base();
    f.scenarios = vec![sref("S", &["a", "missing", "gone"], None)];
    assert_eq!(
        file_args().into_run_config(Some(f)).unwrap_err(),
        ConfigError::UnknownStep { index: 0, name: "S".to_string(), step: "missing".to_string() }
    );

    let mut f = base();
    f.run = None;
    f.scenarios = vec![sref("S", &["a"], None)];
    assert_eq!(file_args().into_run_config(Some(f)).unwrap_err(), ConfigError::NoRunLength { index: 0, name: "S".to_string() });

    let mut f = base();
    f.scenarios = vec![sref("S", &["a"], Some(run(Some(0), None, None)))];
    assert_eq!(file_args().into_run_config(Some(f)).unwrap_err(), ConfigError::ZeroConcurrency { index: 0, name: "S".to_string() });

    let mut f = base();
    f.scenarios = vec![sref("S", &["a", "empty"], None)];
    assert_eq!(
        file_args().into_run_config(Some(f)).unwrap_err(),
        ConfigError::EmptyUrl { index: 0, name: "S".to_string(), step: "empty".to_string() }
    );
}

#[test]
fn cli_flags_override_file_run_block() {
    let mut a = file_args();
    a.requests = Some(3);
    a.duration = None;
    a.timeout = Some(42);
    let sf = ScenarioFile {
        run: Some(RunParams { concurrency: Some(4), duration_secs: Some(9), requests: Some(1000), timeout_ms: Some(1), output_format: None, output: None }),
        requests: vec![("a".to_string(), def("http://a"))],
        scenarios: vec![sref("S", &["a"], None)],
    };
    let cfg = a.into_run_config(Some(sf)).unwrap();
    assert_eq!(cfg.global_run.requests, Some(3));
    assert_eq!(cfg.global_run.timeout_ms, Some(42));
    assert_eq!(cfg.global_run.concurrency, Some(4));
    assert_eq!(cfg.global_run.duration_secs, Some(9));
}

#[test]
fn cli_into_run_config_delegates_to_run_args() {
    let cli = Cli { command: Command::Run(args()) };
    let cfg = cli.into_run_config(None).unwrap();
    assert_eq!(cfg.scenarios[0].steps[0].method, "GET");
}
