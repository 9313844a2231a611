//! Command-line arguments and their resolution into a `RunConfig`.

use vstd::prelude::*;
use crate::config::{
    copy_headers, copy_opt_string, default_concurrency, default_concurrency_spec, default_timeout_ms,
    default_timeout_ms_spec, effective_params, or_else,
    RequestDef, RequestNode, RunConfig, RunParams, Scenario, ScenarioFile, ScenarioRef,
};
use vstd::string::*;
use crate::text::{chars_of, lowercase, to_lowercase, to_uppercase, trim, trim_chars, uppercase};

verus! {

// ── Arguments ────────────────────────────────────────────────────────────────

/// The parsed command line.
#[derive(Debug)]
pub struct Cli {
    pub command: Command,
}

/// The subcommands.
#[derive(Debug)]
pub enum Command {
    /// Open the scenario file editor.
    Edit { file: String },
    /// View a JSON report, or export it to HTML/PDF.
    Report { file: String, export: Option<String> },
    /// Run a benchmark.
    Run(RunArgs),
}

/// Arguments of `run`.
#[derive(Debug)]
pub struct RunArgs {
    /// Scenario file path (file mode).
    pub file: Option<String>,
    /// Target URL (single-step mode).
    pub url: Option<String>,
    pub method: String,
    /// Raw "Key:Value" header arguments, in order.
    pub headers: Vec<String>,
    pub body: Option<String>,
    pub content_type: Option<String>,
    pub concurrency: Option<usize>,
    pub duration: Option<u64>,
    pub requests: Option<u64>,
    pub timeout: Option<u64>,
    pub name: String,
    pub output: Option<String>,
    pub export: Option<String>,
    pub no_report: bool,
    pub open: bool,
}

/// Why a run configuration could not be resolved. `index` and `name`
/// identify the offending scenario of a scenario file.
#[derive(Debug, PartialEq, Eq)]
pub enum ConfigError {
    /// The scenario file defines no scenario.
    NoScenarios,
    /// A scenario has no steps.
    NoSteps { index: usize, name: String },
    /// A step names a request missing from the `requests` map.
    UnknownStep { index: usize, name: String, step: String },
    /// Neither a request count nor a duration applies to the scenario.
    NoRunLength { index: usize, name: String },
    /// The scenario's concurrency is zero.
    ZeroConcurrency { index: usize, name: String },
    /// A step of the scenario has an empty URL.
    EmptyUrl { index: usize, name: String, step: String },
    /// Single-step mode without `--duration` or `--requests`.
    MissingRunLength,
    /// A header argument without a colon.
    InvalidHeader { header: String },
}

// ── Views used by the contracts ──────────────────────────────────────────────

/// A header list as text.
pub open spec fn headers_view(h: Seq<(String, String)>) -> Seq<(Seq<char>, Seq<char>)> {
    h.map_values(|p: (String, String)| (p.0@, p.1@))
}

/// A step as data: name, url, method text, headers as text, body.
pub type StepData = (String, String, Seq<char>, Seq<(Seq<char>, Seq<char>)>, Option<String>);

/// A resolved scenario as data: name, own run block, steps.
pub type ScenarioData = (String, Option<RunParams>, Seq<StepData>);

/// A resolved configuration as data: scenarios, global run block, JSON
/// report path as text, export path, no-report flag, open flag.
pub type ConfigData = (Seq<ScenarioData>, RunParams, Seq<char>, Option<String>, bool, bool);

pub open spec fn step_data(r: RequestNode) -> StepData {
    (r.name, r.url, r.method@, headers_view(r.headers@), r.body)
}

pub open spec fn scenario_data(s: Scenario) -> ScenarioData {
    (s.name, s.run, s.steps@.map_values(|r: RequestNode| step_data(r)))
}

pub open spec fn config_data(c: RunConfig) -> ConfigData {
    (
        c.scenarios@.map_values(|s: Scenario| scenario_data(s)),
        c.global_run,
        c.json_output@,
        c.export_path,
        c.no_report,
        c.open_report,
    )
}

/// A resolution result as data.
pub open spec fn config_result_data(r: Result<RunConfig, ConfigError>) -> Result<
    ConfigData,
    ConfigError,
> {
    match r {
        Ok(c) => Ok(config_data(c)),
        Err(e) => Err(e),
    }
}

/// A scenario resolution result as data.
pub open spec fn scenario_result_data(r: Result<Scenario, ConfigError>) -> Result<
    ScenarioData,
    ConfigError,
> {
    match r {
        Ok(s) => Ok(scenario_data(s)),
        Err(e) => Err(e),
    }
}

// ── Header arguments ─────────────────────────────────────────────────────────

/// Whether `c` is the first occurrence of `x` in `s`.
pub open spec fn is_first_index(s: Seq<char>, x: char, c: int) -> bool {
    0 <= c < s.len() && s[c] == x && forall|k: int| 0 <= k < c ==> s[k] != x
}

/// A header argument split at its first colon: the trimmed, lower-cased name
/// and the trimmed value; `None` when there is no colon.
pub open spec fn header_parts(h: Seq<char>) -> Option<(Seq<char>, Seq<char>)> {
    if exists|c: int| is_first_index(h, ':', c) {
        let c = choose|c: int| is_first_index(h, ':', c);
        Some((lowercase(trim(h.take(c))), trim(h.skip(c + 1))))
    } else {
        None
    }
}

/// Parses a "Key:Value" header argument.
fn parse_header(h: &String) -> (res: Result<(String, String), ConfigError>)
    ensures
        match res {
            Ok(p) => header_parts(h@) == Some((p.0@, p.1@)),
            Err(e) => header_parts(h@) is None && e == (ConfigError::InvalidHeader { header: *h }),
        },
{
    let cs = chars_of(h.as_str());
    let n = cs.len();
    let mut i: usize = 0;
    while i < n && cs[i] != ':'
        invariant
            i <= n == cs.len(),
            cs@ == h@,
            forall|k: int| 0 <= k < i ==> cs@[k] != ':',
        decreases n - i,
    {
        i = i + 1;
    }
    if i == n {
        proof {
            assert forall|c: int| !is_first_index(h@, ':', c) by {
                if is_first_index(h@, ':', c) {
                    assert(cs@[c] == ':');
                }
            }
        }
        return Err(ConfigError::InvalidHeader { header: h.clone() });
    }
    let mut key_chars: Vec<char> = Vec::new();
    let mut k: usize = 0;
    while k < i
        invariant
            i < n == cs.len(),
            k <= i,
            key_chars@ == cs@.take(k as int),
        decreases i - k,
    {
        key_chars.push(cs[k]);
        k = k + 1;
        proof {
            assert(key_chars@ =~= cs@.take(k as int));
        }
    }
    let mut val_chars: Vec<char> = Vec::new();
    let mut j: usize = i + 1;
    while j < n
        invariant
            i < j <= n == cs.len(),
            val_chars@ == cs@.subrange(i + 1, j as int),
        decreases n - j,
    {
        val_chars.push(cs[j]);
        j = j + 1;
        proof {
            assert(val_chars@ =~= cs@.subrange(i + 1, j as int));
        }
    }
    let key_trimmed = trim_chars(&key_chars);
    let key = to_lowercase(key_trimmed.as_str());
    let value = trim_chars(&val_chars);
    proof {
        assert(is_first_index(h@, ':', i as int));
        let c = choose|c: int| is_first_index(h@, ':', c);
        assert(c == i as int) by {
            if c < i {
                assert(cs@[c] != ':');
            }
            if c > i {
                assert(h@[i as int] == ':');
            }
        }
        assert(cs@.subrange(i + 1, n as int) =~= h@.skip(i + 1));
        assert(cs@.take(i as int) =~= h@.take(i as int));
    }
    Ok((key, value))
}

/// The header arguments parsed in order; the first malformed one is the error.
pub open spec fn parsed_headers(hs: Seq<String>) -> Result<Seq<(Seq<char>, Seq<char>)>, String>
    decreases hs.len(),
{
    if hs.len() == 0 {
        Ok(Seq::empty())
    } else {
        match parsed_headers(hs.drop_last()) {
            Err(e) => Err(e),
            Ok(p) => match header_parts(hs.last()@) {
                None => Err(hs.last()),
                Some(kv) => Ok(p.push(kv)),
            },
        }
    }
}

/// Whether the header names of a list are pairwise distinct.
pub open spec fn distinct_names(h: Seq<(Seq<char>, Seq<char>)>) -> bool {
    forall|a: int, b: int| 0 <= a < b < h.len() ==> h[a].0 != h[b].0
}

/// Sets header `k` to `v`: replaces the value of the entry named `k`, or
/// appends a new entry.
pub open spec fn with_header(h: Seq<(Seq<char>, Seq<char>)>, k: Seq<char>, v: Seq<char>) -> Seq<
    (Seq<char>, Seq<char>),
> {
    if exists|j: int| 0 <= j < h.len() && h[j].0 == k {
        let j = choose|j: int| 0 <= j < h.len() && h[j].0 == k;
        h.update(j, (k, v))
    } else {
        h.push((k, v))
    }
}

/// The header list that results from setting each pair in order (a later
/// pair with the same name wins).
pub open spec fn header_list(pairs: Seq<(Seq<char>, Seq<char>)>) -> Seq<(Seq<char>, Seq<char>)>
    decreases pairs.len(),
{
    if pairs.len() == 0 {
        Seq::empty()
    } else {
        with_header(header_list(pairs.drop_last()), pairs.last().0, pairs.last().1)
    }
}

/// Sets header `k` to `v` in a list whose names are distinct.
fn set_header(h: &mut Vec<(String, String)>, k: String, v: String)
    requires
        distinct_names(headers_view(old(h)@)),
    ensures
        distinct_names(headers_view(final(h)@)),
        headers_view(final(h)@) == with_header(headers_view(old(h)@), k@, v@),
{
    let ghost hv = headers_view(h@);
    let mut i: usize = 0;
    while i < h.len()
        invariant
            i <= h.len(),
            h@ == old(h)@,
            hv == headers_view(h@),
            distinct_names(hv),
            forall|j: int| 0 <= j < i ==> hv[j].0 != k@,
        decreases h.len() - i,
    {
        if h[i].0 == k {
            proof {
                assert(hv[i as int].0 == k@);
                let c = choose|j: int| 0 <= j < hv.len() && hv[j].0 == k@;
                assert(c == i as int) by {
                    if c < i {
                        assert(hv[c].0 != k@);
                    }
                    if c > i {
                        assert(hv[c].0 == hv[i as int].0);
                    }
                }
            }
            h.set(i, (k, v));
            proof {
                assert(headers_view(h@) =~= hv.update(i as int, (k@, v@)));
            }
            return;
        }
        i = i + 1;
    }
    h.push((k, v));
    proof {
        assert(headers_view(h@) =~= hv.push((k@, v@)));
    }
}

// ── Run parameter validation ─────────────────────────────────────────────────

/// The outcome of validating a scenario's effective run parameters.
pub open spec fn run_check(r: RunParams, index: usize, name: String) -> Result<(), ConfigError> {
    if !r.has_run_length() {
        Err(ConfigError::NoRunLength { index, name })
    } else if r.concurrency_or_default() == 0 {
        Err(ConfigError::ZeroConcurrency { index, name })
    } else {
        Ok(())
    }
}

/// Checks that a scenario's effective run says how long to run and has at
/// least one worker.
fn validate_run(r: &RunParams, index: usize, name: &String) -> (res: Result<(), ConfigError>)
    ensures
        res == run_check(*r, index, *name),
{
    if r.duration_secs.is_none() && r.requests.is_none() {
        return Err(ConfigError::NoRunLength { index, name: name.clone() });
    }
    if r.effective_concurrency() == 0 {
        return Err(ConfigError::ZeroConcurrency { index, name: name.clone() });
    }
    Ok(())
}

// ── File mode ────────────────────────────────────────────────────────────────

/// The definition registered under `name`: the first entry with that name.
pub open spec fn lookup_request(reqs: Seq<(String, RequestDef)>, name: Seq<char>) -> Option<
    RequestDef,
>
    decreases reqs.len(),
{
    if reqs.len() == 0 {
        None
    } else if reqs[0].0@ == name {
        Some(reqs[0].1)
    } else {
        lookup_request(reqs.drop_first(), name)
    }
}

/// A definition run as a step under the given name.
pub open spec fn def_step(d: RequestDef, name: String) -> StepData {
    (name, d.url, d.method@, headers_view(d.headers@), d.body)
}

/// The steps named by a scenario, in order; the first unknown name is the error.
pub open spec fn resolve_steps(reqs: Seq<(String, RequestDef)>, names: Seq<String>) -> Result<
    Seq<StepData>,
    String,
>
    decreases names.len(),
{
    if names.len() == 0 {
        Ok(Seq::empty())
    } else {
        match resolve_steps(reqs, names.drop_last()) {
            Err(e) => Err(e),
            Ok(p) => match lookup_request(reqs, names.last()@) {
                None => Err(names.last()),
                Some(d) => Ok(p.push(def_step(d, names.last()))),
            },
        }
    }
}

/// The name of the first step whose URL is empty.
pub open spec fn first_empty_url(steps: Seq<StepData>) -> Option<String>
    decreases steps.len(),
{
    if steps.len() == 0 {
        None
    } else {
        match first_empty_url(steps.drop_last()) {
            Some(n) => Some(n),
            None => if steps.last().1@.len() == 0 {
                Some(steps.last().0)
            } else {
                None
            },
        }
    }
}

/// Resolves scenario `index` of a file against the request library and the
/// global run block.
pub open spec fn resolve_scenario(
    reqs: Seq<(String, RequestDef)>,
    global: RunParams,
    index: usize,
    sref: ScenarioRef,
) -> Result<ScenarioData, ConfigError> {
    if sref.steps.len() == 0 {
        Err(ConfigError::NoSteps { index, name: sref.name })
    } else {
        match resolve_steps(reqs, sref.steps@) {
            Err(step) => Err(ConfigError::UnknownStep { index, name: sref.name, step }),
            Ok(steps) => match run_check(effective_params(sref.run, global), index, sref.name) {
                Err(e) => Err(e),
                Ok(_) => match first_empty_url(steps) {
                    Some(step) => Err(ConfigError::EmptyUrl { index, name: sref.name, step }),
                    None => Ok((sref.name, sref.run, steps)),
                },
            },
        }
    }
}

/// Resolves every scenario in order; the first failing one gives the error.
pub open spec fn resolve_scenarios(
    reqs: Seq<(String, RequestDef)>,
    global: RunParams,
    refs: Seq<ScenarioRef>,
) -> Result<Seq<ScenarioData>, ConfigError>
    decreases refs.len(),
{
    if refs.len() == 0 {
        Ok(Seq::empty())
    } else {
        match resolve_scenarios(reqs, global, refs.drop_last()) {
            Err(e) => Err(e),
            Ok(p) => match resolve_scenario(reqs, global, (refs.len() - 1) as usize, refs.last()) {
                Err(e) => Err(e),
                Ok(s) => Ok(p.push(s)),
            },
        }
    }
}

proof fn lemma_lookup_skip(reqs: Seq<(String, RequestDef)>, name: Seq<char>, i: int)
    requires
        0 <= i <= reqs.len(),
        forall|j: int| 0 <= j < i ==> reqs[j].0@ != name,
    ensures
        lookup_request(reqs, name) == lookup_request(reqs.skip(i), name),
    decreases i,
{
    if i > 0 {
        let t = reqs.drop_first();
        assert forall|j: int| 0 <= j < i - 1 implies t[j].0@ != name by {
            assert(t[j] == reqs[j + 1]);
        }
        lemma_lookup_skip(t, name, i - 1);
        assert(t.skip(i - 1) =~= reqs.skip(i));
    } else {
        assert(reqs.skip(0) =~= reqs);
    }
}

/// The definition registered under `name` (the first entry with that name).
fn find_request<'a>(reqs: &'a Vec<(String, RequestDef)>, name: &String) -> (res: Option<
    &'a RequestDef,
>)
    ensures
        match res {
            Some(d) => lookup_request(reqs@, name@) == Some(*d),
            None => lookup_request(reqs@, name@) is None,
        },
{
    let mut i: usize = 0;
    while i < reqs.len()
        invariant
            i <= reqs.len(),
            forall|j: int| 0 <= j < i ==> reqs@[j].0@ != name@,
        decreases reqs.len() - i,
    {
        if reqs[i].0 == *name {
            proof {
                lemma_lookup_skip(reqs@, name@, i as int);
                assert(reqs@.skip(i as int)[0] == reqs@[i as int]);
            }
            return Some(&reqs[i].1);
        }
        i = i + 1;
    }
    proof {
        lemma_lookup_skip(reqs@, name@, i as int);
        assert(reqs@.skip(i as int).len() == 0);
    }
    None
}

proof fn lemma_steps_error_extends(reqs: Seq<(String, RequestDef)>, names: Seq<String>, k: int)
    requires
        0 <= k <= names.len(),
        resolve_steps(reqs, names.take(k)) is Err,
    ensures
        resolve_steps(reqs, names) == resolve_steps(reqs, names.take(k)),
    decreases names.len() - k,
{
    if k < names.len() {
        let t = names.take(k + 1);
        assert(t.drop_last() =~= names.take(k));
        lemma_steps_error_extends(reqs, names, k + 1);
    } else {
        assert(names.take(k) =~= names);
    }
}

proof fn lemma_empty_url_extends(steps: Seq<StepData>, k: int)
    requires
        0 <= k <= steps.len(),
        first_empty_url(steps.take(k)) is Some,
    ensures
        first_empty_url(steps) == first_empty_url(steps.take(k)),
    decreases steps.len() - k,
{
    if k < steps.len() {
        let t = steps.take(k + 1);
        assert(t.drop_last() =~= steps.take(k));
        lemma_empty_url_extends(steps, k + 1);
    } else {
        assert(steps.take(k) =~= steps);
    }
}

proof fn lemma_scenarios_error_extends(
    reqs: Seq<(String, RequestDef)>,
    global: RunParams,
    refs: Seq<ScenarioRef>,
    k: int,
)
    requires
        0 <= k <= refs.len(),
        resolve_scenarios(reqs, global, refs.take(k)) is Err,
    ensures
        resolve_scenarios(reqs, global, refs) == resolve_scenarios(reqs, global, refs.take(k)),
    decreases refs.len() - k,
{
    if k < refs.len() {
        let t = refs.take(k + 1);
        assert(t.drop_last() =~= refs.take(k));
        lemma_scenarios_error_extends(reqs, global, refs, k + 1);
    } else {
        assert(refs.take(k) =~= refs);
    }
}

/// Resolves one scenario of a scenario file.
fn resolve_one(
    reqs: &Vec<(String, RequestDef)>,
    global: &RunParams,
    index: usize,
    sref: &ScenarioRef,
) -> (res: Result<Scenario, ConfigError>)
    ensures
        resolve_scenario(reqs@, *global, index, *sref) == scenario_result_data(res),
{
    let n = sref.steps.len();
    if n == 0 {
        return Err(ConfigError::NoSteps { index, name: sref.name.clone() });
    }
    let mut steps: Vec<RequestNode> = Vec::new();
    let mut i: usize = 0;
    proof {
        assert(sref.steps@.take(0) =~= Seq::<String>::empty());
        assert(steps@.map_values(|r: RequestNode| step_data(r)) =~= Seq::<StepData>::empty());
    }
    while i < n
        invariant
            n == sref.steps.len(),
            i <= n,
            resolve_steps(reqs@, sref.steps@.take(i as int)) == Ok::<Seq<StepData>, String>(
                steps@.map_values(|r: RequestNode| step_data(r)),
            ),
        decreases n - i,
    {
        let ghost prev = steps@.map_values(|r: RequestNode| step_data(r));
        proof {
            let t = sref.steps@.take(i + 1);
            assert(t.drop_last() =~= sref.steps@.take(i as int));
            assert(t.last() == sref.steps@[i as int]);
        }
        match find_request(reqs, &sref.steps[i]) {
            None => {
                proof {
                    lemma_steps_error_extends(reqs@, sref.steps@, i + 1);
                }
                return Err(
                    ConfigError::UnknownStep {
                        index,
                        name: sref.name.clone(),
                        step: sref.steps[i].clone(),
                    },
                );
            },
            Some(d) => {
                let step = d.into_step(&sref.steps[i]);
                steps.push(step);
                proof {
                    assert(steps@.map_values(|r: RequestNode| step_data(r)) =~= prev.push(
                        def_step(*d, sref.steps@[i as int]),
                    ));
                }
            },
        }
        i = i + 1;
    }
    proof {
        assert(sref.steps@.take(n as int) =~= sref.steps@);
    }
    let ghost data = steps@.map_values(|r: RequestNode| step_data(r));
    let eff = match &sref.run {
        Some(r) => r.merge_over(global),
        None => global.copy(),
    };
    match validate_run(&eff, index, &sref.name) {
        Err(e) => {
            return Err(e);
        },
        Ok(_) => {},
    }
    let m = steps.len();
    let mut j: usize = 0;
    while j < m
        invariant
            m == steps.len(),
            j <= m,
            data == steps@.map_values(|r: RequestNode| step_data(r)),
            first_empty_url(data.take(j as int)) is None,
            n == sref.steps.len() > 0,
            resolve_steps(reqs@, sref.steps@) == Ok::<Seq<StepData>, String>(data),
            run_check(effective_params(sref.run, *global), index, sref.name) is Ok,
        decreases m - j,
    {
        proof {
            let t = data.take(j + 1);
            assert(t.drop_last() =~= data.take(j as int));
            assert(t.last() == step_data(steps@[j as int]));
        }
        if steps[j].url.as_str().is_empty() {
            proof {
                let t = data.take(j + 1);
                assert(first_empty_url(t.drop_last()) is None);
                assert(t.last().1@.len() == 0);
                assert(first_empty_url(t) == Some(steps@[j as int].name));
                lemma_empty_url_extends(data, j + 1);
                assert(resolve_steps(reqs@, sref.steps@) == Ok::<Seq<StepData>, String>(data));
                assert(run_check(effective_params(sref.run, *global), index, sref.name) is Ok);
                assert(first_empty_url(data) == Some(steps@[j as int].name));
            }
            return Err(
                ConfigError::EmptyUrl { index, name: sref.name.clone(), step: steps[j].name.clone() },
            );
        }
        j = j + 1;
    }
    proof {
        assert(data.take(m as int) =~= data);
    }
    Ok(Scenario { name: sref.name.clone(), run: copy_opt_params(&sref.run), steps })
}

/// A copy of an optional run block.
fn copy_opt_params(r: &Option<RunParams>) -> (c: Option<RunParams>)
    ensures
        c == *r,
{
    match r {
        Some(p) => Some(p.copy()),
        None => None,
    }
}

/// The scenarios of a file resolved in order, with the global run block
/// (`cli_run` over the file's own).
fn resolve_file(cli_run: &RunParams, sf: &ScenarioFile) -> (res: Result<
    (Vec<Scenario>, RunParams),
    ConfigError,
>)
    ensures
        ({
            let global = cli_run.merged(
                match sf.run {
                    Some(r) => r,
                    None => RunParams::spec_none(),
                },
            );
            match res {
                Ok((scs, g)) => {
                    &&& g == global
                    &&& sf.scenarios.len() > 0
                    &&& resolve_scenarios(sf.requests@, global, sf.scenarios@) == Ok::<
                        Seq<ScenarioData>,
                        ConfigError,
                    >(scs@.map_values(|s: Scenario| scenario_data(s)))
                },
                Err(e) => if sf.scenarios.len() == 0 {
                    e == ConfigError::NoScenarios
                } else {
                    resolve_scenarios(sf.requests@, global, sf.scenarios@) == Err::<
                        Seq<ScenarioData>,
                        ConfigError,
                    >(e)
                },
            }
        }),
{
    let n = sf.scenarios.len();
    if n == 0 {
        return Err(ConfigError::NoScenarios);
    }
    let json_global = match &sf.run {
        Some(r) => r.copy(),
        None => RunParams::none(),
    };
    let global_run = cli_run.merge_over(&json_global);
    let mut scenarios: Vec<Scenario> = Vec::new();
    let mut i: usize = 0;
    proof {
        assert(sf.scenarios@.take(0) =~= Seq::<ScenarioRef>::empty());
        assert(scenarios@.map_values(|s: Scenario| scenario_data(s)) =~= Seq::<
            ScenarioData,
        >::empty());
    }
    while i < n
        invariant
            n == sf.scenarios.len(),
            n > 0,
            i <= n,
            global_run == cli_run.merged(
                match sf.run {
                    Some(r) => r,
                    None => RunParams::spec_none(),
                },
            ),
            resolve_scenarios(sf.requests@, global_run, sf.scenarios@.take(i as int)) == Ok::<
                Seq<ScenarioData>,
                ConfigError,
            >(scenarios@.map_values(|s: Scenario| scenario_data(s))),
        decreases n - i,
    {
        let ghost prev = scenarios@.map_values(|s: Scenario| scenario_data(s));
        proof {
            let t = sf.scenarios@.take(i + 1);
            assert(t.drop_last() =~= sf.scenarios@.take(i as int));
            assert(t.last() == sf.scenarios@[i as int]);
        }
        match resolve_one(&sf.requests, &global_run, i, &sf.scenarios[i]) {
            Err(e) => {
                proof {
                    lemma_scenarios_error_extends(sf.requests@, global_run, sf.scenarios@, i + 1);
                }
                return Err(e);
            },
            Ok(sc) => {
                scenarios.push(sc);
                proof {
                    assert(scenarios@.map_values(|s: Scenario| scenario_data(s)) =~= prev.push(
                        scenario_data(sc),
                    ));
                }
            },
        }
        i = i + 1;
    }
    proof {
        assert(sf.scenarios@.take(n as int) =~= sf.scenarios@);
    }
    Ok((scenarios, global_run))
}

/// The header arguments parsed into a list with distinct names (a later
/// argument with the same name wins).
fn header_args(hs: &Vec<String>) -> (res: Result<Vec<(String, String)>, ConfigError>)
    ensures
        match res {
            Ok(h) => {
                &&& distinct_names(headers_view(h@))
                &&& parsed_headers(hs@) is Ok
                &&& headers_view(h@) == header_list(parsed_headers(hs@)->Ok_0)
            },
            Err(e) => parsed_headers(hs@) is Err && e == (ConfigError::InvalidHeader {
                header: parsed_headers(hs@)->Err_0,
            }),
        },
{
    let mut headers: Vec<(String, String)> = Vec::new();
    let ghost mut pairs: Seq<(Seq<char>, Seq<char>)> = Seq::empty();
    let nh = hs.len();
    let mut i: usize = 0;
    proof {
        assert(hs@.take(0) =~= Seq::<String>::empty());
        assert(headers_view(headers@) =~= Seq::<(Seq<char>, Seq<char>)>::empty());
    }
    while i < nh
        invariant
            nh == hs.len(),
            i <= nh,
            parsed_headers(hs@.take(i as int)) == Ok::<Seq<(Seq<char>, Seq<char>)>, String>(
                pairs,
            ),
            distinct_names(headers_view(headers@)),
            headers_view(headers@) == header_list(pairs),
        decreases nh - i,
    {
        proof {
            let t = hs@.take(i + 1);
            assert(t.drop_last() =~= hs@.take(i as int));
            assert(t.last() == hs@[i as int]);
        }
        match parse_header(&hs[i]) {
            Err(e) => {
                proof {
                    lemma_headers_error_extends(hs@, i + 1);
                }
                return Err(e);
            },
            Ok((k, v)) => {
                proof {
                    let pp = pairs.push((k@, v@));
                    assert(pp.drop_last() =~= pairs);
                    pairs = pp;
                }
                set_header(&mut headers, k, v);
            },
        }
        i = i + 1;
    }
    proof {
        assert(hs@.take(nh as int) =~= hs@);
    }
    Ok(headers)
}

/// The run block given on the command line.
pub open spec fn cli_params(args: RunArgs) -> RunParams {
    RunParams {
        concurrency: args.concurrency,
        duration_secs: args.duration,
        requests: args.requests,
        timeout_ms: args.timeout,
        output_format: None,
        output: None,
    }
}

/// The JSON report path: `--output`, else "report.json".
pub open spec fn json_output_of(args: RunArgs) -> Seq<char> {
    match args.output {
        Some(o) => o@,
        None => "report.json"@,
    }
}

/// File mode: the command-line run block overrides the file's global block;
/// every scenario is then resolved in order.
pub open spec fn file_config(args: RunArgs, sf: ScenarioFile) -> Result<ConfigData, ConfigError> {
    let json_global = match sf.run {
        Some(r) => r,
        None => RunParams::spec_none(),
    };
    let global = cli_params(args).merged(json_global);
    if sf.scenarios.len() == 0 {
        Err(ConfigError::NoScenarios)
    } else {
        match resolve_scenarios(sf.requests@, global, sf.scenarios@) {
            Err(e) => Err(e),
            Ok(scs) => Ok((scs, global, json_output_of(args), args.export, args.no_report, args.open)),
        }
    }
}

/// The header list of single-step mode: the parsed header arguments, then
/// `content-type` from `--content-type` when given.
pub open spec fn single_step_headers(args: RunArgs, pairs: Seq<(Seq<char>, Seq<char>)>) -> Seq<
    (Seq<char>, Seq<char>),
> {
    match args.content_type {
        Some(ct) => with_header(header_list(pairs), "content-type"@, ct@),
        None => header_list(pairs),
    }
}

/// Single-step mode: one scenario with one step built from the flags.
pub open spec fn single_step_config(args: RunArgs) -> Result<ConfigData, ConfigError> {
    if args.duration is None && args.requests is None {
        Err(ConfigError::MissingRunLength)
    } else {
        match parsed_headers(args.headers@) {
            Err(h) => Err(ConfigError::InvalidHeader { header: h }),
            Ok(pairs) => {
                let global = RunParams {
                    concurrency: Some(
                        match args.concurrency {
                            Some(c) => c,
                            None => 10,
                        },
                    ),
                    duration_secs: args.duration,
                    requests: args.requests,
                    timeout_ms: Some(
                        match args.timeout {
                            Some(t) => t,
                            None => 5000,
                        },
                    ),
                    output_format: None,
                    output: None,
                };
                let step: StepData = (
                    args.name,
                    args.url->0,
                    uppercase(args.method@),
                    single_step_headers(args, pairs),
                    args.body,
                );
                Ok(
                    (
                        seq![(args.name, None, seq![step])],
                        global,
                        json_output_of(args),
                        args.export,
                        args.no_report,
                        args.open,
                    ),
                )
            },
        }
    }
}

/// Single-step mode hands the flags over unchanged: one scenario named by
/// `--name` with no run block of its own, holding one step with that name,
/// the given URL and body and the upper-cased method; the global run block
/// takes the count or duration given, and the concurrency and timeout given
/// or their defaults.
pub proof fn law_single_step_keeps_flags(args: RunArgs)
    requires
        run_config_of(args, None) is Ok,
    ensures
        ({
            let c = run_config_of(args, None)->Ok_0;
            &&& args.duration is Some || args.requests is Some
            &&& c.0.len() == 1
            &&& c.0[0].0 == args.name
            &&& c.0[0].1 is None
            &&& c.0[0].2.len() == 1
            &&& c.0[0].2[0].0 == args.name
            &&& c.0[0].2[0].1 == args.url->0
            &&& c.0[0].2[0].2 == uppercase(args.method@)
            &&& c.0[0].2[0].4 == args.body
            &&& c.1.requests == args.requests
            &&& c.1.duration_secs == args.duration
            &&& c.1.concurrency == Some(
                if args.concurrency is Some {
                    args.concurrency->0
                } else {
                    default_concurrency_spec()
                },
            )
            &&& c.1.timeout_ms == Some(
                if args.timeout is Some {
                    args.timeout->0
                } else {
                    default_timeout_ms_spec()
                },
            )
        }),
{
}

/// What `run` resolves to: file mode when a scenario file was loaded,
/// otherwise single-step mode.
pub open spec fn run_config_of(args: RunArgs, file: Option<ScenarioFile>) -> Result<
    ConfigData,
    ConfigError,
> {
    match file {
        Some(sf) => file_config(args, sf),
        None => single_step_config(args),
    }
}

/// The inputs on which resolution is defined: the loaded file matches
/// `--file`, and single-step mode has a URL whenever it gets as far as
/// building its step.
pub open spec fn run_args_ready(args: RunArgs, file: Option<ScenarioFile>) -> bool {
    &&& file.is_some() == args.file.is_some()
    &&& (file is None && (args.duration is Some || args.requests is Some) && parsed_headers(
        args.headers@,
    ) is Ok) ==> args.url is Some
}

impl RunArgs {
    /// Resolves the arguments into a run configuration. `file` is the
    /// content of the file named by `--file`, already read and parsed.
    pub fn into_run_config(self, file: Option<ScenarioFile>) -> (res: Result<RunConfig, ConfigError>)
        requires
            run_args_ready(self, file),
        ensures
            run_config_of(self, file) == config_result_data(res),
            file is None && res is Ok ==> {
                let c = res->Ok_0;
                &&& c.scenarios@.len() == 1
                &&& c.scenarios@[0].name == self.name
                &&& c.scenarios@[0].run is None
                &&& c.scenarios@[0].steps@.len() == 1
                &&& c.scenarios@[0].steps@[0].name == self.name
                &&& c.scenarios@[0].steps@[0].url == self.url->0
                &&& c.scenarios@[0].steps@[0].body == self.body
            },
    {
        let cli_run = RunParams {
            concurrency: self.concurrency,
            duration_secs: self.duration,
            requests: self.requests,
            timeout_ms: self.timeout,
            output_format: None,
            output: None,
        };
        let json_output = match self.output {
            Some(o) => o,
            None => String::from_str("report.json"),
        };
        match file {
            Some(sf) => {
                let (scenarios, global_run) = match resolve_file(&cli_run, &sf) {
                    Ok(r) => r,
                    Err(e) => {
                        return Err(e);
                    },
                };
                Ok(
                    RunConfig {
                        scenarios,
                        global_run,
                        json_output,
                        export_path: self.export,
                        no_report: self.no_report,
                        open_report: self.open,
                    },
                )
            },
            None => {
                if self.duration.is_none() && self.requests.is_none() {
                    return Err(ConfigError::MissingRunLength);
                }
                let mut headers = match header_args(&self.headers) {
                    Ok(h) => h,
                    Err(e) => {
                        return Err(e);
                    },
                };
                match self.content_type {
                    Some(ct) => {
                        set_header(&mut headers, String::from_str("content-type"), ct);
                    },
                    None => {},
                }
                let global_run = RunParams {
                    concurrency: Some(
                        match self.concurrency {
                            Some(c) => c,
                            None => default_concurrency(),
                        },
                    ),
                    duration_secs: self.duration,
                    requests: self.requests,
                    timeout_ms: Some(
                        match self.timeout {
                            Some(t) => t,
                            None => default_timeout_ms(),
                        },
                    ),
                    output_format: None,
                    output: None,
                };
                let method = to_uppercase(self.method.as_str());
                let url = match self.url {
                    Some(u) => u,
                    None => {
                        proof {
                            assert(false);
                        }
                        String::new()
                    },
                };
                let step = RequestNode { name: self.name.clone(), url, method, headers, body: self.body };
                let mut steps: Vec<RequestNode> = Vec::new();
                steps.push(step);
                let scenario = Scenario { name: self.name, run: None, steps };
                let mut scenarios: Vec<Scenario> = Vec::new();
                scenarios.push(scenario);
                proof {
                    assert(steps@.map_values(|r: RequestNode| step_data(r)) =~= seq![
                        step_data(step),
                    ]);
                    assert(scenarios@.map_values(|s: Scenario| scenario_data(s)) =~= seq![
                        scenario_data(scenario),
                    ]);
                }
                Ok(
                    RunConfig {
                        scenarios,
                        global_run,
                        json_output,
                        export_path: self.export,
                        no_report: self.no_report,
                        open_report: self.open,
                    },
                )
            },
        }
    }
}

proof fn lemma_headers_error_extends(hs: Seq<String>, k: int)
    requires
        0 <= k <= hs.len(),
        parsed_headers(hs.take(k)) is Err,
    ensures
        parsed_headers(hs) == parsed_headers(hs.take(k)),
    decreases hs.len() - k,
{
    if k < hs.len() {
        let t = hs.take(k + 1);
        assert(t.drop_last() =~= hs.take(k));
        lemma_headers_error_extends(hs, k + 1);
    } else {
        assert(hs.take(k) =~= hs);
    }
}

impl Cli {
    /// Resolves the `run` subcommand into a run configuration; `file` is the
    /// loaded scenario file when `--file` was given.
    pub fn into_run_config(self, file: Option<ScenarioFile>) -> (res: Result<RunConfig, ConfigError>)
        requires
            self.command is Run,
            run_args_ready(self.command->Run_0, file),
        ensures
            run_config_of(self.command->Run_0, file) == config_result_data(res),
    {
        match self.command {
            Command::Run(args) => args.into_run_config(file),
            Command::Edit { .. } => {
                proof {
                    assert(false);
                }
                Err(ConfigError::NoScenarios)
            },
            Command::Report { .. } => {
                proof {
                    assert(false);
                }
                Err(ConfigError::NoScenarios)
            },
        }
    }
}

// ── Laws ─────────────────────────────────────────────────────────────────────

/// Whether a resolved scenario can run under the global block: it has steps,
/// every step has a URL, and its effective run says how long to run with at
/// least one worker.
pub open spec fn runnable(sc: ScenarioData, global: RunParams) -> bool {
    &&& sc.2.len() > 0
    &&& forall|j: int| 0 <= j < sc.2.len() ==> (#[trigger] sc.2[j]).1@.len() > 0
    &&& effective_params(sc.1, global).has_run_length()
    &&& effective_params(sc.1, global).concurrency_or_default() >= 1
}

proof fn lemma_steps_len(reqs: Seq<(String, RequestDef)>, names: Seq<String>)
    requires
        resolve_steps(reqs, names) is Ok,
    ensures
        resolve_steps(reqs, names)->Ok_0.len() == names.len(),
    decreases names.len(),
{
    if names.len() > 0 {
        lemma_steps_len(reqs, names.drop_last());
    }
}

proof fn lemma_no_empty_url(steps: Seq<StepData>)
    requires
        first_empty_url(steps) is None,
    ensures
        forall|j: int| 0 <= j < steps.len() ==> (#[trigger] steps[j]).1@.len() > 0,
    decreases steps.len(),
{
    if steps.len() > 0 {
        lemma_no_empty_url(steps.drop_last());
        assert forall|j: int| 0 <= j < steps.len() implies (#[trigger] steps[j]).1@.len() > 0 by {
            if j < steps.len() - 1 {
                assert(steps.drop_last()[j] == steps[j]);
            }
        }
    }
}

proof fn lemma_scenarios_runnable(
    reqs: Seq<(String, RequestDef)>,
    global: RunParams,
    refs: Seq<ScenarioRef>,
)
    requires
        resolve_scenarios(reqs, global, refs) is Ok,
    ensures
        resolve_scenarios(reqs, global, refs)->Ok_0.len() == refs.len(),
        forall|k: int|
            0 <= k < refs.len() ==> runnable(
                #[trigger] resolve_scenarios(reqs, global, refs)->Ok_0[k],
                global,
            ),
    decreases refs.len(),
{
    if refs.len() > 0 {
        let p = refs.drop_last();
        lemma_scenarios_runnable(reqs, global, p);
        let sref = refs.last();
        let sc = resolve_scenario(reqs, global, (refs.len() - 1) as usize, sref)->Ok_0;
        lemma_steps_len(reqs, sref.steps@);
        lemma_no_empty_url(resolve_steps(reqs, sref.steps@)->Ok_0);
        let all = resolve_scenarios(reqs, global, refs)->Ok_0;
        assert(all == resolve_scenarios(reqs, global, p)->Ok_0.push(sc));
        assert forall|k: int| 0 <= k < refs.len() implies runnable(#[trigger] all[k], global) by {
            if k < refs.len() - 1 {
                assert(all[k] == resolve_scenarios(reqs, global, p)->Ok_0[k]);
            }
        }
    }
}

/// Every scenario of a successfully resolved scenario file is runnable, and
/// the global block is the command-line block over the file's own: a flag
/// given on the command line wins, an absent one is taken from the file.
pub proof fn law_file_config_runnable(args: RunArgs, sf: ScenarioFile)
    requires
        file_config(args, sf) is Ok,
    ensures
        ({
            let cfg = file_config(args, sf)->Ok_0;
            let json_global = match sf.run {
                Some(r) => r,
                None => RunParams::spec_none(),
            };
            &&& cfg.0.len() == sf.scenarios.len() > 0
            &&& cfg.1 == cli_params(args).merged(json_global)
            &&& cfg.1.requests == or_else(args.requests, json_global.requests)
            &&& cfg.1.duration_secs == or_else(args.duration, json_global.duration_secs)
            &&& cfg.1.concurrency == or_else(args.concurrency, json_global.concurrency)
            &&& cfg.1.timeout_ms == or_else(args.timeout, json_global.timeout_ms)
            &&& forall|k: int| 0 <= k < cfg.0.len() ==> runnable(#[trigger] cfg.0[k], cfg.1)
        }),
{
    let json_global = match sf.run {
        Some(r) => r,
        None => RunParams::spec_none(),
    };
    let global = cli_params(args).merged(json_global);
    lemma_scenarios_runnable(sf.requests@, global, sf.scenarios@);
}

} // verus!
