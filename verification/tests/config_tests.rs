use bench::config::{
    collect_leaves, default_concurrency, default_method, default_timeout_ms, run_description,
    ExecutionMode, GroupNode, OutputFormat, RequestNode, RunConfig, RunParams, Scenario,
    ScenarioNode,
};

fn params(c: Option<usize>, r: Option<u64>, d: Option<u64>, t: Option<u64>) -> RunParams {
    RunParams { concurrency: c, duration_secs: d, requests: r, timeout_ms: t, output_format: None, output: None }
}

fn req(name: &str, url: &str, method: &str) -> RequestNode {
    RequestNode { name: name.to_string(), url: url.to_string(), method: method.to_string(), headers: vec![], body: None }
}

#[test]
fn defaults() {
    assert_eq!(default_method(), "GET");
    assert_eq!(default_concurrency(), 10);
    assert_eq!(default_timeout_ms(), 5000);
    assert_eq!(ExecutionMode::default(), ExecutionMode::Sequential);
    let p = RunParams::none();
    assert_eq!(p.effective_concurrency(), 10);
    assert_eq!(p.effective_timeout_ms(), 5000);
}

#[test]
fn merge_over_prefers_upper_block() {
    let upper = params(Some(2), None, None, Some(100));
    let lower = params(Some(50), Some(1000), Some(60), None);
    let m = upper.merge_over(&lower);
    assert_eq!(m.concurrency, Some(2));
    assert_eq!(m.requests, Some(1000));
    assert_eq!(m.duration_secs, Some(60));
    assert_eq!(m.timeout_ms, Some(100));
    let none = RunParams::none();
    let same = lower.merge_over(&none);
    assert_eq!(same.concurrency, Some(50));
    assert_eq!(same.requests, Some(1000));
}

#[test]
fn merge_over_is_associative_on_example() {
    let a = params(None, Some(1), None, None);
    let b = params(Some(3), None, Some(9), None);
    let c = params(Some(4), Some(8), None, Some(7));
    let left = a.merge_over(&b.merge_over(&c));
    let right = a.merge_over(&b).merge_over(&c);
    assert_eq!(left.concurrency, right.concurrency);
    assert_eq!(left.requests, right.requests);
    assert_eq!(left.duration_secs, right.duration_secs);
    assert_eq!(left.timeout_ms, right.timeout_ms);
}

#[test]
fn merge_over_itself_changes_nothing() {
    let p = params(Some(5), None, Some(30), Some(250));
    let m = p.merge_over(&p);
    assert_eq!(m.concurrency, Some(5));
    assert_eq!(m.requests, None);
    assert_eq!(m.duration_secs, Some(30));
    assert_eq!(m.timeout_ms, Some(250));
    let n = RunParams::none().merge_over(&p);
    assert_eq!(n.concurrency, Some(5));
    assert_eq!(n.timeout_ms, Some(250));
}

#[test]
fn output_format_from_str() {
    assert_eq!(OutputFormat::from_str("pdf"), OutputFormat::Pdf);
    assert_eq!(OutputFormat::from_str("PDF"), OutputFormat::Pdf);
    assert_eq!(OutputFormat::from_str("html"), OutputFormat::Html);
    assert_eq!(OutputFormat::from_str("json"), OutputFormat::Html);
    assert_eq!(OutputFormat::Html.default_extension(), "html");
    assert_eq!(OutputFormat::Pdf.default_extension(), "pdf");
}

#[test]
fn output_format_round_trip() {
    for f in [OutputFormat::Html, OutputFormat::Pdf] {
        assert_eq!(OutputFormat::from_str(f.default_extension()), f);
    }
}

#[test]
fn execution_mode_names() {
    assert_eq!(ExecutionMode::Sequential.as_str(), "sequential");
    assert_eq!(ExecutionMode::Parallel.as_str(), "parallel");
}

#[test]
fn collect_leaves_in_definition_order() {
    let tree = ScenarioNode::Group(GroupNode {
        name: "root".to_string(),
        mode: ExecutionMode::Sequential,
        steps: vec![
            ScenarioNode::Request(req("a", "http://x/a", "get")),
            ScenarioNode::Group(GroupNode {
                name: "inner".to_string(),
                mode: ExecutionMode::Parallel,
                steps: vec![
                    ScenarioNode::Request(req("b", "http://x/b", "post")),
                    ScenarioNode::Request(req("c", "http://x/c", "Delete")),
                ],
            }),
            ScenarioNode::Request(req("d", "http://x/d", "PUT")),
        ],
    });
    let mut out = Vec::new();
    collect_leaves(&tree, &mut out);
    let names: Vec<(&str, &str)> = out.iter().map(|(n, _, m)| (n.as_str(), m.as_str())).collect();
    assert_eq!(names, vec![("a", "GET"), ("b", "POST"), ("c", "DELETE"), ("d", "PUT")]);
    assert_eq!(out[1].1, "http://x/b");
}

#[test]
fn scenario_tree_leaves_are_steps() {
    let s = Scenario { name: "S".to_string(), run: None, steps: vec![req("one", "u1", "get"), req("two", "u2", "post")] };
    let tree = s.to_tree();
    match &tree {
        ScenarioNode::Group(g) => {
            assert_eq!(g.name, "S");
            assert_eq!(g.mode, ExecutionMode::Sequential);
            assert_eq!(g.steps.len(), 2);
        }
        _ => panic!("expected a group"),
    }
    let mut out = Vec::new();
    collect_leaves(&tree, &mut out);
    assert_eq!(out.len(), 2);
    assert_eq!(out[0].0, "one");
    assert_eq!(out[1].2, "POST");
}

#[test]
fn effective_run_merges_scenario_block() {
    let cfg = RunConfig {
        scenarios: vec![],
        global_run: params(Some(10), Some(100), None, Some(5000)),
        json_output: "report.json".to_string(),
        export_path: None,
        no_report: false,
        open_report: false,
    };
    let s = Scenario { name: "x".to_string(), run: Some(params(Some(2), None, None, None)), steps: vec![] };
    let eff = cfg.effective_run(&s);
    assert_eq!(eff.concurrency, Some(2));
    assert_eq!(eff.requests, Some(100));
    let s2 = Scenario { name: "y".to_string(), run: None, steps: vec![] };
    assert_eq!(cfg.effective_run(&s2).concurrency, Some(10));
}

#[test]
fn run_descriptions() {
    assert_eq!(run_description(&params(None, Some(5000), Some(3), None)), "5000 runs");
    assert_eq!(run_description(&params(None, None, Some(60), None)), "60s duration");
    assert_eq!(run_description(&RunParams::none()), "?");
}
