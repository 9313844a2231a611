//! Scenario model and run parameters: the request tree, the scenario file as
//! read from disk, and the resolved run configuration.

use vstd::prelude::*;
use vstd::utf8::*;
use vstd::string::*;
use crate::text::{ascii_lower, decimal, decimal_string, lowercase, to_lowercase, to_uppercase, uppercase};

verus! {

// ── Scenario tree ────────────────────────────────────────────────────────────

/// How the child steps of a group are executed within one iteration.
#[derive(Debug, Clone, Copy, PartialEq, Eq, Structural)]
pub enum ExecutionMode {
    Sequential,
    Parallel,
}

impl ExecutionMode {
    /// The lowercase name of the mode, as it is written in scenario files.
    pub fn as_str(&self) -> (s: &'static str)
        ensures
            *self == ExecutionMode::Sequential ==> s@ == "sequential"@,
            *self == ExecutionMode::Parallel ==> s@ == "parallel"@,
    {
        match self {
            ExecutionMode::Sequential => "sequential",
            ExecutionMode::Parallel => "parallel",
        }
    }
}

impl Default for ExecutionMode {
    fn default() -> (m: Self)
        ensures
            m == ExecutionMode::Sequential,
    {
        ExecutionMode::Sequential
    }
}

/// Leaf of the scenario tree: one HTTP endpoint to benchmark.
#[derive(Debug, Clone)]
pub struct RequestNode {
    pub name: String,
    pub url: String,
    pub method: String,
    /// Header name and value pairs; names are distinct.
    pub headers: Vec<(String, String)>,
    pub body: Option<String>,
}

/// Branch of the scenario tree: its `steps` run sequentially or in parallel.
#[derive(Debug)]
pub struct GroupNode {
    pub name: String,
    pub mode: ExecutionMode,
    pub steps: Vec<ScenarioNode>,
}

/// A node of the scenario tree: a group of nodes or a single request.
#[derive(Debug)]
pub enum ScenarioNode {
    Group(GroupNode),
    Request(RequestNode),
}

/// The identifying data of a leaf: its name, URL and upper-cased method.
pub open spec fn leaf_entry(r: RequestNode) -> (Seq<char>, Seq<char>, Seq<char>) {
    (r.name@, r.url@, uppercase(r.method@))
}

/// The leaves of a tree in depth-first definition order.
pub open spec fn leaves(node: ScenarioNode) -> Seq<(Seq<char>, Seq<char>, Seq<char>)>
    decreases node, 0nat,
{
    match node {
        ScenarioNode::Request(r) => seq![leaf_entry(r)],
        ScenarioNode::Group(g) => leaves_of_steps(g.steps@),
    }
}

/// The leaves of a list of sibling nodes, in order.
pub open spec fn leaves_of_steps(steps: Seq<ScenarioNode>) -> Seq<
    (Seq<char>, Seq<char>, Seq<char>),
>
    decreases steps, steps.len(),
{
    if steps.len() == 0 {
        Seq::empty()
    } else {
        leaves_of_steps(steps.drop_last()) + leaves(steps.last())
    }
}

/// Views of the leaf tuples gathered by `collect_leaves`.
pub open spec fn leaf_tuples(v: Seq<(String, String, String)>) -> Seq<
    (Seq<char>, Seq<char>, Seq<char>),
> {
    v.map_values(|t: (String, String, String)| (t.0@, t.1@, t.2@))
}

/// Appends the leaves of `node` to `out` as (name, url, upper-cased method),
/// in depth-first definition order.
pub fn collect_leaves(node: &ScenarioNode, out: &mut Vec<(String, String, String)>)
    ensures
        leaf_tuples(final(out)@) == leaf_tuples(old(out)@) + leaves(*node),
    decreases node,
{
    match node {
        ScenarioNode::Request(r) => {
            let m = to_uppercase(r.method.as_str());
            out.push((r.name.clone(), r.url.clone(), m));
            proof {
                assert(leaf_tuples(out@) =~= leaf_tuples(old(out)@) + leaves(*node));
            }
        },
        ScenarioNode::Group(g) => {
            let n = g.steps.len();
            let mut i: usize = 0;
            while i < n
                invariant
                    n == g.steps.len(),
                    i <= n,
                    *node == ScenarioNode::Group(*g),
                    leaf_tuples(out@) == leaf_tuples(old(out)@) + leaves_of_steps(
                        g.steps@.take(i as int),
                    ),
                decreases n - i,
            {
                proof {
                    assert(decreases_to!(*node => (*node)->Group_0));
                    assert(decreases_to!(*g => g.steps));
                    assert(decreases_to!(g.steps => g.steps@));
                    assert(decreases_to!(g.steps@ => g.steps@[i as int]));
                    assert(decreases_to!(*node => g.steps@[i as int]));
                }
                collect_leaves(&g.steps[i], out);
                proof {
                    let t = g.steps@.take(i + 1);
                    assert(t.drop_last() =~= g.steps@.take(i as int));
                    assert(t.last() == g.steps@[i as int]);
                }
                i = i + 1;
            }
            proof {
                assert(g.steps@.take(n as int) =~= g.steps@);
            }
        },
    }
}

// ── Run parameters ───────────────────────────────────────────────────────────

/// Execution parameters. Every field is optional; absent fields are inherited
/// from a lower-priority block (see `merge_over`) or take their defaults.
#[derive(Debug, Clone)]
pub struct RunParams {
    /// Number of concurrent workers (default 10).
    pub concurrency: Option<usize>,
    /// Run for this many seconds (mutually exclusive with `requests`).
    pub duration_secs: Option<u64>,
    /// Run the scenario exactly this many times in total.
    pub requests: Option<u64>,
    /// Per-request timeout in milliseconds (default 5000).
    pub timeout_ms: Option<u64>,
    /// Report format name.
    pub output_format: Option<String>,
    /// Report file path.
    pub output: Option<String>,
}

/// The default HTTP method of a request.
pub fn default_method() -> (m: String)
    ensures
        m@ == "GET"@,
{
    String::from_str("GET")
}

/// The default number of concurrent workers.
pub open spec fn default_concurrency_spec() -> usize {
    10
}

/// The default per-request timeout in milliseconds.
pub open spec fn default_timeout_ms_spec() -> u64 {
    5000
}

/// The default number of concurrent workers.
pub fn default_concurrency() -> (c: usize)
    ensures
        c == 10,
        c == default_concurrency_spec(),
{
    10
}

/// The default per-request timeout in milliseconds.
pub fn default_timeout_ms() -> (t: u64)
    ensures
        t == 5000,
        t == default_timeout_ms_spec(),
{
    5000
}

/// `a` where it is present, else `b`.
pub open spec fn or_else<T>(a: Option<T>, b: Option<T>) -> Option<T> {
    if a is Some {
        a
    } else {
        b
    }
}

/// A copy of an optional string.
pub fn copy_opt_string(s: &Option<String>) -> (r: Option<String>)
    ensures
        r == *s,
{
    match s {
        Some(v) => Some(v.clone()),
        None => None,
    }
}

fn pick<T: Copy>(a: Option<T>, b: Option<T>) -> (r: Option<T>)
    ensures
        r == or_else(a, b),
{
    match a {
        Some(_) => a,
        None => b,
    }
}

fn pick_string(a: &Option<String>, b: &Option<String>) -> (r: Option<String>)
    ensures
        r == or_else(*a, *b),
{
    match a {
        Some(_) => copy_opt_string(a),
        None => copy_opt_string(b),
    }
}

impl RunParams {
    /// Parameters with no field set.
    pub open spec fn spec_none() -> RunParams {
        RunParams {
            concurrency: None,
            duration_secs: None,
            requests: None,
            timeout_ms: None,
            output_format: None,
            output: None,
        }
    }

    /// Parameters with no field set.
    pub fn none() -> (r: RunParams)
        ensures
            r == RunParams::spec_none(),
    {
        RunParams {
            concurrency: None,
            duration_secs: None,
            requests: None,
            timeout_ms: None,
            output_format: None,
            output: None,
        }
    }

    /// Field by field: the field of `self` where it is set, else that of `other`.
    pub open spec fn merged(self, other: RunParams) -> RunParams {
        RunParams {
            concurrency: or_else(self.concurrency, other.concurrency),
            duration_secs: or_else(self.duration_secs, other.duration_secs),
            requests: or_else(self.requests, other.requests),
            timeout_ms: or_else(self.timeout_ms, other.timeout_ms),
            output_format: or_else(self.output_format, other.output_format),
            output: or_else(self.output, other.output),
        }
    }

    /// Overlays `self` on `other`: every field set in `self` wins.
    pub fn merge_over(&self, other: &RunParams) -> (r: RunParams)
        ensures
            r == self.merged(*other),
    {
        RunParams {
            concurrency: pick(self.concurrency, other.concurrency),
            duration_secs: pick(self.duration_secs, other.duration_secs),
            requests: pick(self.requests, other.requests),
            timeout_ms: pick(self.timeout_ms, other.timeout_ms),
            output_format: pick_string(&self.output_format, &other.output_format),
            output: pick_string(&self.output, &other.output),
        }
    }

    /// A copy of these parameters.
    pub fn copy(&self) -> (r: RunParams)
        ensures
            r == *self,
    {
        RunParams {
            concurrency: self.concurrency,
            duration_secs: self.duration_secs,
            requests: self.requests,
            timeout_ms: self.timeout_ms,
            output_format: copy_opt_string(&self.output_format),
            output: copy_opt_string(&self.output),
        }
    }

    /// The number of workers: the set value, else 10.
    pub open spec fn concurrency_or_default(self) -> usize {
        match self.concurrency {
            Some(c) => c,
            None => 10,
        }
    }

    /// The number of workers: the set value, else 10.
    pub fn effective_concurrency(&self) -> (c: usize)
        ensures
            c == self.concurrency_or_default(),
    {
        match self.concurrency {
            Some(c) => c,
            None => default_concurrency(),
        }
    }

    /// The per-request timeout: the set value, else 5000 ms.
    pub open spec fn timeout_or_default(self) -> u64 {
        match self.timeout_ms {
            Some(t) => t,
            None => 5000,
        }
    }

    /// The per-request timeout: the set value, else 5000 ms.
    pub fn effective_timeout_ms(&self) -> (t: u64)
        ensures
            t == self.timeout_or_default(),
    {
        match self.timeout_ms {
            Some(t) => t,
            None => default_timeout_ms(),
        }
    }

    /// Whether the parameters say how long to run: a count or a duration.
    pub open spec fn has_run_length(self) -> bool {
        self.requests is Some || self.duration_secs is Some
    }
}

/// Merging over parameters with nothing set changes nothing.
pub proof fn law_merge_over_none(p: RunParams)
    ensures
        p.merged(RunParams::spec_none()) == p,
        RunParams::spec_none().merged(p) == p,
{
}

/// Merging is associative: `a` over (`b` over `c`) is (`a` over `b`) over `c`.
pub proof fn law_merge_associative(a: RunParams, b: RunParams, c: RunParams)
    ensures
        a.merged(b.merged(c)) == a.merged(b).merged(c),
{
}

/// Merging parameters over themselves gives them back.
pub proof fn law_merge_idempotent(p: RunParams)
    ensures
        p.merged(p) == p,
{
}

/// A field set on the upper block always survives the merge, and a field
/// absent there is taken from the lower block.
pub proof fn law_merge_precedence(a: RunParams, b: RunParams)
    ensures
        a.concurrency is Some ==> a.merged(b).concurrency == a.concurrency,
        a.concurrency is None ==> a.merged(b).concurrency == b.concurrency,
        a.requests is Some ==> a.merged(b).requests == a.requests,
        a.requests is None ==> a.merged(b).requests == b.requests,
        a.duration_secs is Some ==> a.merged(b).duration_secs == a.duration_secs,
        a.duration_secs is None ==> a.merged(b).duration_secs == b.duration_secs,
        a.timeout_ms is Some ==> a.merged(b).timeout_ms == a.timeout_ms,
        a.timeout_ms is None ==> a.merged(b).timeout_ms == b.timeout_ms,
{
}

// ── Scenario file ────────────────────────────────────────────────────────────

/// A named request definition of the scenario file's `requests` map.
#[derive(Debug, Clone)]
pub struct RequestDef {
    pub url: String,
    pub method: String,
    pub headers: Vec<(String, String)>,
    pub body: Option<String>,
}

/// One entry of the scenario file's `scenarios` list: steps name requests.
#[derive(Debug, Clone)]
pub struct ScenarioRef {
    pub name: String,
    pub run: Option<RunParams>,
    pub steps: Vec<String>,
}

/// Top-level scenario file: global run block, request library, scenarios.
#[derive(Debug, Clone)]
pub struct ScenarioFile {
    pub run: Option<RunParams>,
    /// Request name and definition pairs, in the file's order; a step name
    /// resolves to the first pair with that name (the keys of the file's
    /// JSON object are distinct, so there is one).
    pub requests: Vec<(String, RequestDef)>,
    pub scenarios: Vec<ScenarioRef>,
}

/// A copy of a header list.
pub fn copy_headers(h: &Vec<(String, String)>) -> (r: Vec<(String, String)>)
    ensures
        r@ == h@,
{
    let mut r: Vec<(String, String)> = Vec::new();
    let mut i: usize = 0;
    while i < h.len()
        invariant
            i <= h.len(),
            r@ == h@.take(i as int),
        decreases h.len() - i,
    {
        r.push((h[i].0.clone(), h[i].1.clone()));
        i = i + 1;
        proof {
            assert(r@ =~= h@.take(i as int));
        }
    }
    proof {
        assert(h@.take(h.len() as int) =~= h@);
    }
    r
}

impl RequestDef {
    /// The step that runs this definition under the given name.
    pub fn into_step(&self, name: &String) -> (r: RequestNode)
        ensures
            r.name == *name,
            r.url == self.url,
            r.method == self.method,
            r.headers@ == self.headers@,
            r.body == self.body,
    {
        RequestNode {
            name: name.clone(),
            url: self.url.clone(),
            method: self.method.clone(),
            headers: copy_headers(&self.headers),
            body: copy_opt_string(&self.body),
        }
    }
}

// ── Resolved configuration ───────────────────────────────────────────────────

/// A resolved scenario: its own run block (if any) and its ordered steps.
#[derive(Debug, Clone)]
pub struct Scenario {
    pub name: String,
    pub run: Option<RunParams>,
    pub steps: Vec<RequestNode>,
}

/// The fully resolved configuration of a `run` invocation.
#[derive(Debug)]
pub struct RunConfig {
    pub scenarios: Vec<Scenario>,
    pub global_run: RunParams,
    pub json_output: String,
    pub export_path: Option<String>,
    pub no_report: bool,
    pub open_report: bool,
}

/// The run parameters that apply to a scenario with the given own block.
pub open spec fn effective_params(own: Option<RunParams>, global: RunParams) -> RunParams {
    match own {
        Some(s) => s.merged(global),
        None => global,
    }
}

impl RunConfig {
    /// The scenario's own run block merged over the global one.
    pub fn effective_run(&self, scenario: &Scenario) -> (r: RunParams)
        ensures
            r == effective_params(scenario.run, self.global_run),
    {
        match &scenario.run {
            Some(s) => s.merge_over(&self.global_run),
            None => self.global_run.copy(),
        }
    }
}

impl RequestNode {
    /// A copy of this request.
    pub fn copy(&self) -> (r: RequestNode)
        ensures
            r.name == self.name,
            r.url == self.url,
            r.method == self.method,
            r.headers@ == self.headers@,
            r.body == self.body,
    {
        RequestNode {
            name: self.name.clone(),
            url: self.url.clone(),
            method: self.method.clone(),
            headers: copy_headers(&self.headers),
            body: copy_opt_string(&self.body),
        }
    }
}

impl Scenario {
    /// The scenario as a tree: a sequential group named after the scenario
    /// whose children are its steps, in order.
    pub fn to_tree(&self) -> (t: ScenarioNode)
        ensures
            t is Group,
            t->Group_0.name == self.name,
            t->Group_0.mode == ExecutionMode::Sequential,
            t->Group_0.steps.len() == self.steps.len(),
            forall|i: int|
                0 <= i < self.steps.len() ==> (#[trigger] t->Group_0.steps@[i]) is Request && {
                    let r = t->Group_0.steps@[i]->Request_0;
                    &&& r.name == self.steps@[i].name
                    &&& r.url == self.steps@[i].url
                    &&& r.method == self.steps@[i].method
                    &&& r.headers@ == self.steps@[i].headers@
                    &&& r.body == self.steps@[i].body
                },
    {
        let mut steps: Vec<ScenarioNode> = Vec::new();
        let mut i: usize = 0;
        while i < self.steps.len()
            invariant
                i <= self.steps.len(),
                steps.len() == i,
                forall|j: int|
                    0 <= j < i ==> (#[trigger] steps@[j]) is Request && {
                        let r = steps@[j]->Request_0;
                        &&& r.name == self.steps@[j].name
                        &&& r.url == self.steps@[j].url
                        &&& r.method == self.steps@[j].method
                        &&& r.headers@ == self.steps@[j].headers@
                        &&& r.body == self.steps@[j].body
                    },
            decreases self.steps.len() - i,
        {
            steps.push(ScenarioNode::Request(self.steps[i].copy()));
            i = i + 1;
        }
        ScenarioNode::Group(
            GroupNode { name: self.name.clone(), mode: ExecutionMode::Sequential, steps },
        )
    }
}

/// The leaves of a scenario's tree are its steps, in order.
pub proof fn law_scenario_leaves_are_steps(t: ScenarioNode, s: Scenario)
    requires
        t is Group,
        t->Group_0.steps.len() == s.steps.len(),
        forall|i: int|
            0 <= i < s.steps.len() ==> (#[trigger] t->Group_0.steps@[i]) is Request && {
                let r = t->Group_0.steps@[i]->Request_0;
                &&& r.name == s.steps@[i].name
                &&& r.url == s.steps@[i].url
                &&& r.method == s.steps@[i].method
            },
    ensures
        leaves(t) == s.steps@.map_values(|r: RequestNode| leaf_entry(r)),
{
    lemma_leaves_of_requests(t->Group_0.steps@, s.steps@);
}

proof fn lemma_leaves_of_requests(nodes: Seq<ScenarioNode>, steps: Seq<RequestNode>)
    requires
        nodes.len() == steps.len(),
        forall|i: int|
            0 <= i < steps.len() ==> (#[trigger] nodes[i]) is Request && {
                let r = nodes[i]->Request_0;
                &&& r.name == steps[i].name
                &&& r.url == steps[i].url
                &&& r.method == steps[i].method
            },
    ensures
        leaves_of_steps(nodes) == steps.map_values(|r: RequestNode| leaf_entry(r)),
    decreases nodes.len(),
{
    if nodes.len() > 0 {
        let n1 = nodes.drop_last();
        let s1 = steps.drop_last();
        assert forall|i: int| 0 <= i < s1.len() implies (#[trigger] n1[i]) is Request && {
            let r = n1[i]->Request_0;
            &&& r.name == s1[i].name
            &&& r.url == s1[i].url
            &&& r.method == s1[i].method
        } by {
            assert(n1[i] == nodes[i]);
            assert(s1[i] == steps[i]);
        }
        lemma_leaves_of_requests(n1, s1);
        let last = nodes.last();
        assert(last == nodes[nodes.len() - 1]);
        assert(leaves(last) == seq![leaf_entry(steps.last())]);
        assert(steps.map_values(|r: RequestNode| leaf_entry(r)) =~= s1.map_values(
            |r: RequestNode| leaf_entry(r),
        ).push(leaf_entry(steps.last())));
    } else {
        assert(steps.map_values(|r: RequestNode| leaf_entry(r)) =~= Seq::<
            (Seq<char>, Seq<char>, Seq<char>),
        >::empty());
    }
}

/// How a run is described in reports: "{n} runs" for a request count,
/// else "{s}s duration", else "?".
pub open spec fn run_description_of(run: RunParams) -> Seq<char> {
    match run.requests {
        Some(n) => decimal(n as nat) + " runs"@,
        None => match run.duration_secs {
            Some(d) => decimal(d as nat) + "s duration"@,
            None => "?"@,
        },
    }
}

/// The description of a run shown in reports.
pub fn run_description(run: &RunParams) -> (d: String)
    ensures
        d@ == run_description_of(*run),
{
    match run.requests {
        Some(n) => {
            let mut d = decimal_string(n);
            d.append(" runs");
            d
        },
        None => match run.duration_secs {
            Some(s) => {
                let mut d = decimal_string(s);
                d.append("s duration");
                d
            },
            None => String::from_str("?"),
        },
    }
}

// ── Report formats ───────────────────────────────────────────────────────────

/// Report file format.
#[derive(Debug, Clone, Copy, PartialEq, Eq, Structural)]
pub enum OutputFormat {
    Html,
    Pdf,
}

impl OutputFormat {
    /// `Pdf` when the lower-cased name is "pdf", otherwise `Html`.
    pub fn from_str(s: &str) -> (f: OutputFormat)
        ensures
            lowercase(s@) == "pdf"@ ==> f == OutputFormat::Pdf,
            lowercase(s@) != "pdf"@ ==> f == OutputFormat::Html,
            is_ascii_chars(s@) ==> f == format_named(s@),
    {
        let lower = to_lowercase(s);
        if lower == String::from_str("pdf") {
            OutputFormat::Pdf
        } else {
            OutputFormat::Html
        }
    }

    /// The file extension of the format.
    pub fn default_extension(&self) -> (e: &'static str)
        ensures
            *self == OutputFormat::Html ==> e@ == "html"@,
            *self == OutputFormat::Pdf ==> e@ == "pdf"@,
            e@ == format_extension(*self),
    {
        match self {
            OutputFormat::Html => "html",
            OutputFormat::Pdf => "pdf",
        }
    }
}

/// The format that an ASCII format name selects: `Pdf` for "pdf" in any
/// letter case, `Html` for anything else.
pub open spec fn format_named(s: Seq<char>) -> OutputFormat {
    if s.map_values(|c: char| ascii_lower(c)) == "pdf"@ {
        OutputFormat::Pdf
    } else {
        OutputFormat::Html
    }
}

/// The extension of a format.
pub open spec fn format_extension(f: OutputFormat) -> Seq<char> {
    match f {
        OutputFormat::Html => "html"@,
        OutputFormat::Pdf => "pdf"@,
    }
}

/// Reading a format's own extension back as a format name gives the format.
pub proof fn law_output_format_round_trip(f: OutputFormat)
    ensures
        is_ascii_chars(format_extension(f)),
        format_named(format_extension(f)) == f,
{
    reveal_strlit("pdf");
    reveal_strlit("html");
    assert("pdf"@.map_values(|c: char| ascii_lower(c)) =~= "pdf"@);
    let h = "html"@.map_values(|c: char| ascii_lower(c));
    assert(h[0] == 'h');
    assert(h.len() != 3 || h[0] != 'p');
}

} // verus!
