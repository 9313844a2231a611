//! Report preparation: request totals, the export format of a path, the bar
//! charts of the PDF report and the self-contained HTML page.

use vstd::prelude::*;
use vstd::string::*;
use vstd::seq_lib::*;
use vstd::utf8::*;
use crate::text::{decimal, decimal_string, lowercase, push_char, to_lowercase, to_uppercase, uppercase};

verus! {

broadcast use vstd::seq_lib::group_to_multiset_ensures;

// ── Request totals ───────────────────────────────────────────────────────────

/// The request counts of one step.
#[derive(Debug, Clone, Copy, PartialEq, Eq, Structural)]
pub struct RequestCounts {
    pub total: u64,
    pub successful: u64,
    pub failed: u64,
    pub errors: u64,
}

/// Field-wise sums of a list of counts.
pub open spec fn sum_counts(s: Seq<RequestCounts>) -> (nat, nat, nat, nat)
    decreases s.len(),
{
    if s.len() == 0 {
        (0, 0, 0, 0)
    } else {
        let p = sum_counts(s.drop_last());
        let c = s.last();
        (
            p.0 + c.total as nat,
            p.1 + c.successful as nat,
            p.2 + c.failed as nat,
            p.3 + c.errors as nat,
        )
    }
}

/// Whether each field-wise sum fits in a `u64`.
pub open spec fn sums_fit(t: (nat, nat, nat, nat)) -> bool {
    t.0 <= u64::MAX && t.1 <= u64::MAX && t.2 <= u64::MAX && t.3 <= u64::MAX
}

/// Counts as a tuple.
pub open spec fn counts_tuple(c: RequestCounts) -> (nat, nat, nat, nat) {
    (c.total as nat, c.successful as nat, c.failed as nat, c.errors as nat)
}

proof fn lemma_sum_counts_prefix(s: Seq<RequestCounts>, i: int)
    requires
        0 <= i <= s.len(),
    ensures
        sum_counts(s.take(i)).0 <= sum_counts(s).0,
        sum_counts(s.take(i)).1 <= sum_counts(s).1,
        sum_counts(s.take(i)).2 <= sum_counts(s).2,
        sum_counts(s.take(i)).3 <= sum_counts(s).3,
    decreases s.len() - i,
{
    if i < s.len() {
        lemma_sum_counts_prefix(s, i + 1);
        let t = s.take(i + 1);
        assert(t.drop_last() =~= s.take(i));
    } else {
        assert(s.take(i) =~= s);
    }
}

/// The field-wise totals of the steps of one group.
pub fn group_totals(steps: &Vec<RequestCounts>) -> (t: RequestCounts)
    requires
        sums_fit(sum_counts(steps@)),
    ensures
        counts_tuple(t) == sum_counts(steps@),
{
    let mut t = RequestCounts { total: 0, successful: 0, failed: 0, errors: 0 };
    let mut i: usize = 0;
    proof {
        assert(steps@.take(0) =~= Seq::<RequestCounts>::empty());
    }
    while i < steps.len()
        invariant
            i <= steps.len(),
            sums_fit(sum_counts(steps@)),
            counts_tuple(t) == sum_counts(steps@.take(i as int)),
        decreases steps.len() - i,
    {
        proof {
            lemma_sum_counts_prefix(steps@, i + 1);
            let p = steps@.take(i + 1);
            assert(p.drop_last() =~= steps@.take(i as int));
            assert(p.last() == steps@[i as int]);
        }
        let c = steps[i];
        t = RequestCounts {
            total: t.total + c.total,
            successful: t.successful + c.successful,
            failed: t.failed + c.failed,
            errors: t.errors + c.errors,
        };
        i = i + 1;
    }
    proof {
        assert(steps@.take(steps.len() as int) =~= steps@);
    }
    t
}

/// Field-wise totals over every step of every group.
pub open spec fn all_steps(groups: Seq<Vec<RequestCounts>>) -> Seq<RequestCounts> {
    groups.map_values(|g: Vec<RequestCounts>| g@).flatten()
}

proof fn lemma_sum_counts_concat(a: Seq<RequestCounts>, b: Seq<RequestCounts>)
    ensures
        sum_counts(a + b).0 == sum_counts(a).0 + sum_counts(b).0,
        sum_counts(a + b).1 == sum_counts(a).1 + sum_counts(b).1,
        sum_counts(a + b).2 == sum_counts(a).2 + sum_counts(b).2,
        sum_counts(a + b).3 == sum_counts(a).3 + sum_counts(b).3,
    decreases b.len(),
{
    if b.len() > 0 {
        lemma_sum_counts_concat(a, b.drop_last());
        assert((a + b).drop_last() =~= a + b.drop_last());
        assert((a + b).last() == b.last());
    } else {
        assert(a + b =~= a);
    }
}

/// The totals of the group totals, field by field.
pub open spec fn sum_of_group_totals(groups: Seq<Vec<RequestCounts>>) -> (nat, nat, nat, nat)
    decreases groups.len(),
{
    if groups.len() == 0 {
        (0, 0, 0, 0)
    } else {
        let p = sum_of_group_totals(groups.drop_last());
        let g = sum_counts(groups.last()@);
        (p.0 + g.0, p.1 + g.1, p.2 + g.2, p.3 + g.3)
    }
}

/// The totals over all steps of all groups are the sums of the group totals.
pub proof fn law_report_totals_are_sums_of_group_totals(groups: Seq<Vec<RequestCounts>>)
    ensures
        sum_counts(all_steps(groups)) == sum_of_group_totals(groups),
    decreases groups.len(),
{
    if groups.len() > 0 {
        let v = groups.map_values(|g: Vec<RequestCounts>| g@);
        let pv = groups.drop_last().map_values(|g: Vec<RequestCounts>| g@);
        assert(v.drop_last() =~= pv);
        v.lemma_flatten_and_flatten_alt_are_equivalent();
        pv.lemma_flatten_and_flatten_alt_are_equivalent();
        assert(v.flatten_alt() == pv.flatten_alt() + v.last());
        law_report_totals_are_sums_of_group_totals(groups.drop_last());
        lemma_sum_counts_concat(pv.flatten(), groups.last()@);
    } else {
        assert(all_steps(groups) =~= Seq::<RequestCounts>::empty());
    }
}

/// The field-wise totals over every step of every group.
pub fn report_totals(groups: &Vec<Vec<RequestCounts>>) -> (t: RequestCounts)
    requires
        sums_fit(sum_counts(all_steps(groups@))),
    ensures
        counts_tuple(t) == sum_counts(all_steps(groups@)),
{
    proof {
        law_report_totals_are_sums_of_group_totals(groups@);
    }
    let mut t = RequestCounts { total: 0, successful: 0, failed: 0, errors: 0 };
    let mut i: usize = 0;
    proof {
        assert(groups@.take(0) =~= Seq::<Vec<RequestCounts>>::empty());
    }
    while i < groups.len()
        invariant
            i <= groups.len(),
            sums_fit(sum_of_group_totals(groups@)),
            counts_tuple(t) == sum_of_group_totals(groups@.take(i as int)),
        decreases groups.len() - i,
    {
        proof {
            lemma_group_totals_prefix(groups@, i + 1);
            let p = groups@.take(i + 1);
            assert(p.drop_last() =~= groups@.take(i as int));
            assert(p.last() == groups@[i as int]);
            lemma_group_total_le(groups@.take(i + 1));
        }
        let g = group_totals(&groups[i]);
        t = RequestCounts {
            total: t.total + g.total,
            successful: t.successful + g.successful,
            failed: t.failed + g.failed,
            errors: t.errors + g.errors,
        };
        i = i + 1;
    }
    proof {
        assert(groups@.take(groups.len() as int) =~= groups@);
    }
    t
}

proof fn lemma_group_total_le(groups: Seq<Vec<RequestCounts>>)
    requires
        groups.len() > 0,
    ensures
        sum_counts(groups.last()@).0 <= sum_of_group_totals(groups).0,
        sum_counts(groups.last()@).1 <= sum_of_group_totals(groups).1,
        sum_counts(groups.last()@).2 <= sum_of_group_totals(groups).2,
        sum_counts(groups.last()@).3 <= sum_of_group_totals(groups).3,
{
}

proof fn lemma_group_totals_prefix(groups: Seq<Vec<RequestCounts>>, i: int)
    requires
        0 <= i <= groups.len(),
    ensures
        sum_of_group_totals(groups.take(i)).0 <= sum_of_group_totals(groups).0,
        sum_of_group_totals(groups.take(i)).1 <= sum_of_group_totals(groups).1,
        sum_of_group_totals(groups.take(i)).2 <= sum_of_group_totals(groups).2,
        sum_of_group_totals(groups.take(i)).3 <= sum_of_group_totals(groups).3,
    decreases groups.len() - i,
{
    if i < groups.len() {
        lemma_group_totals_prefix(groups, i + 1);
        let t = groups.take(i + 1);
        assert(t.drop_last() =~= groups.take(i));
    } else {
        assert(groups.take(i) =~= groups);
    }
}

// ── Bar charts ───────────────────────────────────────────────────────────────

/// Colours of the report palette used by bars and badges.
#[derive(Debug, Clone, Copy, PartialEq, Eq, Structural)]
pub enum BarColor {
    Success,
    Indigo,
    Warn,
    Error,
}

/// One bar of a chart.
#[derive(Debug, Clone)]
pub struct Bar {
    pub label: String,
    pub count: u64,
    pub color: BarColor,
}

/// The colour of a status code: 2xx and below success, 3xx indigo, 4xx warn,
/// 5xx and above error.
pub open spec fn status_color(code: u16) -> BarColor {
    if code < 300 {
        BarColor::Success
    } else if code < 400 {
        BarColor::Indigo
    } else if code < 500 {
        BarColor::Warn
    } else {
        BarColor::Error
    }
}

/// The colour of a status code's bar.
pub fn bar_color_for_status(code: u16) -> (c: BarColor)
    ensures
        c == status_color(code),
        code < 300 ==> c == BarColor::Success,
        300 <= code < 400 ==> c == BarColor::Indigo,
        400 <= code < 500 ==> c == BarColor::Warn,
        500 <= code ==> c == BarColor::Error,
{
    if code < 300 {
        BarColor::Success
    } else if code < 400 {
        BarColor::Indigo
    } else if code < 500 {
        BarColor::Warn
    } else {
        BarColor::Error
    }
}

/// Whether the statuses are in ascending order of code.
pub open spec fn ascending_codes(s: Seq<(u16, u64)>) -> bool {
    forall|a: int, b: int| 0 <= a < b < s.len() ==> s[a].0 <= s[b].0
}

/// Whether the counts are in descending order.
pub open spec fn descending_counts(s: Seq<(String, u64)>) -> bool {
    forall|a: int, b: int| 0 <= a < b < s.len() ==> s[a].1 >= s[b].1
}

/// The statuses ordered by ascending code.
pub fn sort_by_status(v: &Vec<(u16, u64)>) -> (r: Vec<(u16, u64)>)
    ensures
        ascending_codes(r@),
        r@.to_multiset() == v@.to_multiset(),
{
    let mut r: Vec<(u16, u64)> = Vec::new();
    let mut i: usize = 0;
    proof {
        assert(v@.take(0) =~= Seq::<(u16, u64)>::empty());
    }
    while i < v.len()
        invariant
            i <= v.len(),
            ascending_codes(r@),
            r@.to_multiset() == v@.take(i as int).to_multiset(),
        decreases v.len() - i,
    {
        let x = v[i];
        let mut pos: usize = 0;
        while pos < r.len() && r[pos].0 <= x.0
            invariant
                pos <= r.len(),
                forall|j: int| 0 <= j < pos ==> r@[j].0 <= x.0,
            decreases r.len() - pos,
        {
            pos = pos + 1;
        }
        let ghost before = r@;
        r.insert(pos, x);
        proof {
            assert(r@ == before.insert(pos as int, x));
            assert forall|a: int, b: int| 0 <= a < b < r.len() implies r@[a].0 <= r@[b].0 by {
                if a < pos && b == pos {
                } else if a == pos && b > pos {
                    assert(r@[b] == before[b - 1]);
                    if pos < before.len() {
                        assert(before[pos as int].0 > x.0);
                        assert(before[pos as int].0 <= before[b - 1].0);
                    }
                } else if a < pos && b > pos {
                    assert(r@[b] == before[b - 1]);
                } else if a > pos {
                    assert(r@[a] == before[a - 1]);
                    assert(r@[b] == before[b - 1]);
                }
            }
            let t = v@.take(i + 1);
            assert(t =~= v@.take(i as int).push(x));
        }
        i = i + 1;
    }
    proof {
        assert(v@.take(v.len() as int) =~= v@);
    }
    r
}

/// The error kinds ordered by descending count.
pub fn sort_by_count_desc(v: &Vec<(String, u64)>) -> (r: Vec<(String, u64)>)
    ensures
        descending_counts(r@),
        r@.to_multiset() == v@.to_multiset(),
{
    let mut r: Vec<(String, u64)> = Vec::new();
    let mut i: usize = 0;
    proof {
        assert(v@.take(0) =~= Seq::<(String, u64)>::empty());
    }
    while i < v.len()
        invariant
            i <= v.len(),
            descending_counts(r@),
            r@.to_multiset() == v@.take(i as int).to_multiset(),
        decreases v.len() - i,
    {
        let x = (v[i].0.clone(), v[i].1);
        let mut pos: usize = 0;
        while pos < r.len() && r[pos].1 >= x.1
            invariant
                pos <= r.len(),
                forall|j: int| 0 <= j < pos ==> r@[j].1 >= x.1,
            decreases r.len() - pos,
        {
            pos = pos + 1;
        }
        let ghost before = r@;
        r.insert(pos, x);
        proof {
            assert(x == v@[i as int]);
            assert(r@ == before.insert(pos as int, x));
            assert forall|a: int, b: int| 0 <= a < b < r.len() implies r@[a].1 >= r@[b].1 by {
                if a < pos && b == pos {
                } else if a == pos && b > pos {
                    assert(r@[b] == before[b - 1]);
                    if pos < before.len() {
                        assert(before[pos as int].1 < x.1);
                        assert(before[pos as int].1 >= before[b - 1].1);
                    }
                } else if a < pos && b > pos {
                    assert(r@[b] == before[b - 1]);
                } else if a > pos {
                    assert(r@[a] == before[a - 1]);
                    assert(r@[b] == before[b - 1]);
                }
            }
            let t = v@.take(i + 1);
            assert(t =~= v@.take(i as int).push(x));
        }
        i = i + 1;
    }
    proof {
        assert(v@.take(v.len() as int) =~= v@);
    }
    r
}

/// A bar as data: label text, count, colour.
pub open spec fn bar_view(b: Bar) -> (Seq<char>, u64, BarColor) {
    (b.label@, b.count, b.color)
}

/// Views of bars.
pub open spec fn bars_view(v: Seq<Bar>) -> Seq<(Seq<char>, u64, BarColor)> {
    v.map_values(|b: Bar| bar_view(b))
}

/// The label of a status bar: "HTTP " and the code.
pub open spec fn status_label(code: u16) -> Seq<char> {
    seq!['H', 'T', 'T', 'P', ' '] + decimal(code as nat)
}

/// The label of the network-error bar.
pub open spec fn net_errors_label() -> Seq<char> {
    seq!['N', 'e', 't', ' ', 'E', 'r', 'r', 'o', 'r', 's']
}

/// The status chart: one bar per status, in the given order, then a
/// "Net Errors" bar when there were transport errors.
pub open spec fn status_chart(statuses: Seq<(u16, u64)>, error_requests: u64) -> Seq<
    (Seq<char>, u64, BarColor),
> {
    statuses.map_values(|p: (u16, u64)| (status_label(p.0), p.1, status_color(p.0))) + if error_requests
        > 0 {
        seq![(net_errors_label(), error_requests, BarColor::Error)]
    } else {
        Seq::empty()
    }
}

fn string_of(cs: &[char]) -> (s: String)
    ensures
        s@ == cs@,
{
    let mut s = String::new();
    let mut i: usize = 0;
    while i < cs.len()
        invariant
            i <= cs.len(),
            s@ == cs@.take(i as int),
        decreases cs.len() - i,
    {
        push_char(&mut s, cs[i]);
        i = i + 1;
        proof {
            assert(s@ =~= cs@.take(i as int));
        }
    }
    proof {
        assert(cs@.take(cs.len() as int) =~= cs@);
    }
    s
}

/// Status bars are coloured by class: codes below 300 as success, 3xx
/// indigo, 4xx warn, 500 and above error. Each status gets one bar, in the
/// order given, carrying its count; transport errors add one last red bar
/// with their count.
pub proof fn law_status_chart_classes(statuses: Seq<(u16, u64)>, error_requests: u64)
    ensures
        forall|code: u16| code < 300 ==> #[trigger] status_color(code) == BarColor::Success,
        forall|code: u16| 300 <= code < 400 ==> #[trigger] status_color(code) == BarColor::Indigo,
        forall|code: u16| 400 <= code < 500 ==> #[trigger] status_color(code) == BarColor::Warn,
        forall|code: u16| 500 <= code ==> #[trigger] status_color(code) == BarColor::Error,
        status_chart(statuses, error_requests).len() == statuses.len() + if error_requests > 0 {
            1int
        } else {
            0int
        },
        forall|k: int|
            0 <= k < statuses.len() ==> {
                let bar = #[trigger] status_chart(statuses, error_requests)[k];
                &&& bar.1 == statuses[k].1
                &&& bar.0 == seq!['H', 'T', 'T', 'P', ' '] + decimal(statuses[k].0 as nat)
                &&& statuses[k].0 < 300 ==> bar.2 == BarColor::Success
                &&& 300 <= statuses[k].0 < 400 ==> bar.2 == BarColor::Indigo
                &&& 400 <= statuses[k].0 < 500 ==> bar.2 == BarColor::Warn
                &&& 500 <= statuses[k].0 ==> bar.2 == BarColor::Error
            },
        error_requests > 0 ==> status_chart(statuses, error_requests)[statuses.len() as int] == (
            seq!['N', 'e', 't', ' ', 'E', 'r', 'r', 'o', 'r', 's'],
            error_requests,
            BarColor::Error,
        ),
{
    let c = status_chart(statuses, error_requests);
    assert forall|k: int| 0 <= k < statuses.len() implies {
        let bar = #[trigger] status_chart(statuses, error_requests)[k];
        &&& bar.1 == statuses[k].1
        &&& bar.0 == seq!['H', 'T', 'T', 'P', ' '] + decimal(statuses[k].0 as nat)
        &&& statuses[k].0 < 300 ==> bar.2 == BarColor::Success
        &&& 300 <= statuses[k].0 < 400 ==> bar.2 == BarColor::Indigo
        &&& 400 <= statuses[k].0 < 500 ==> bar.2 == BarColor::Warn
        &&& 500 <= statuses[k].0 ==> bar.2 == BarColor::Error
    } by {
        assert(c[k] == (status_label(statuses[k].0), statuses[k].1, status_color(statuses[k].0)));
    }
}

/// The bars of the status chart, statuses in the order given.
pub fn status_bars(statuses: &Vec<(u16, u64)>, error_requests: u64) -> (bars: Vec<Bar>)
    ensures
        bars_view(bars@) == status_chart(statuses@, error_requests),
{
    let mut bars: Vec<Bar> = Vec::new();
    let mut i: usize = 0;
    while i < statuses.len()
        invariant
            i <= statuses.len(),
            bars_view(bars@) == statuses@.take(i as int).map_values(
                |p: (u16, u64)| (status_label(p.0), p.1, status_color(p.0)),
            ),
        decreases statuses.len() - i,
    {
        let (code, count) = statuses[i];
        let mut label = string_of(&['H', 'T', 'T', 'P', ' ']);
        let digits = decimal_string(code as u64);
        label.append(digits.as_str());
        let ghost before = bars_view(bars@);
        bars.push(Bar { label, count, color: bar_color_for_status(code) });
        proof {
            assert(label@ =~= status_label(code));
            assert(bars_view(bars@) =~= before.push(
                (status_label(code), count, status_color(code)),
            ));
            assert(statuses@.take(i + 1) =~= statuses@.take(i as int).push(statuses@[i as int]));
            assert(statuses@.take(i + 1).map_values(
                |p: (u16, u64)| (status_label(p.0), p.1, status_color(p.0)),
            ) =~= statuses@.take(i as int).map_values(
                |p: (u16, u64)| (status_label(p.0), p.1, status_color(p.0)),
            ).push((status_label(code), count, status_color(code))));
        }
        i = i + 1;
    }
    proof {
        assert(statuses@.take(statuses.len() as int) =~= statuses@);
    }
    if error_requests > 0 {
        let label = string_of(&['N', 'e', 't', ' ', 'E', 'r', 'r', 'o', 'r', 's']);
        let ghost before = bars_view(bars@);
        bars.push(Bar { label, count: error_requests, color: BarColor::Error });
        proof {
            assert(bars_view(bars@) =~= before.push((net_errors_label(), error_requests, BarColor::Error)));
        }
    } else {
        proof {
            assert(bars_view(bars@) =~= bars_view(bars@) + Seq::<(Seq<char>, u64, BarColor)>::empty());
        }
    }
    bars
}

/// The error chart: one red bar per error kind, in the given order.
pub open spec fn error_chart(errors: Seq<(String, u64)>) -> Seq<(Seq<char>, u64, BarColor)> {
    errors.map_values(|p: (String, u64)| (p.0@, p.1, BarColor::Error))
}

/// The bars of the error chart, kinds in the order given.
pub fn error_bars(errors: &Vec<(String, u64)>) -> (bars: Vec<Bar>)
    ensures
        bars_view(bars@) == error_chart(errors@),
{
    let mut bars: Vec<Bar> = Vec::new();
    let mut i: usize = 0;
    while i < errors.len()
        invariant
            i <= errors.len(),
            bars_view(bars@) == error_chart(errors@.take(i as int)),
        decreases errors.len() - i,
    {
        let ghost before = bars_view(bars@);
        bars.push(Bar { label: errors[i].0.clone(), count: errors[i].1, color: BarColor::Error });
        proof {
            assert(errors@.take(i + 1) =~= errors@.take(i as int).push(errors@[i as int]));
            assert(bars_view(bars@) =~= before.push(
                (errors@[i as int].0@, errors@[i as int].1, BarColor::Error),
            ));
            assert(error_chart(errors@.take(i + 1)) =~= error_chart(errors@.take(i as int)).push(
                (errors@[i as int].0@, errors@[i as int].1, BarColor::Error),
            ));
        }
        i = i + 1;
    }
    proof {
        assert(errors@.take(errors.len() as int) =~= errors@);
    }
    bars
}

/// Badge colours of HTTP methods.
#[derive(Debug, Clone, Copy, PartialEq, Eq, Structural)]
pub enum MethodColor {
    Get,
    Post,
    Put,
    Patch,
    Delete,
    Other,
}

/// The badge colour of a method, by its upper-cased name.
pub open spec fn method_color_of(upper: Seq<char>) -> MethodColor {
    if upper == "GET"@ {
        MethodColor::Get
    } else if upper == "POST"@ {
        MethodColor::Post
    } else if upper == "PUT"@ {
        MethodColor::Put
    } else if upper == "PATCH"@ {
        MethodColor::Patch
    } else if upper == "DELETE"@ {
        MethodColor::Delete
    } else {
        MethodColor::Other
    }
}

/// The badge colour of a method (compared in upper case).
pub fn method_color(method: &str) -> (c: MethodColor)
    ensures
        c == method_color_of(uppercase(method@)),
{
    let m = to_uppercase(method);
    if m == String::from_str("GET") {
        MethodColor::Get
    } else if m == String::from_str("POST") {
        MethodColor::Post
    } else if m == String::from_str("PUT") {
        MethodColor::Put
    } else if m == String::from_str("PATCH") {
        MethodColor::Patch
    } else if m == String::from_str("DELETE") {
        MethodColor::Delete
    } else {
        MethodColor::Other
    }
}

// ── Export format ────────────────────────────────────────────────────────────

/// Why a report could not be produced.
#[derive(Debug, PartialEq, Eq)]
pub enum ReportError {
    /// The export path's extension names no known format.
    UnknownExtension { extension: String },
    /// The embedded UI holds no script bundle.
    UiBundleMissing,
    /// The report is not valid JSON; the message says why.
    InvalidJson { message: String },
}

/// The index of the last occurrence of `x` in `s`, if any.
pub open spec fn last_index_of(s: Seq<char>, x: char) -> Option<int>
    decreases s.len(),
{
    if s.len() == 0 {
        None
    } else if s.last() == x {
        Some(s.len() - 1)
    } else {
        last_index_of(s.drop_last(), x)
    }
}

/// Whether `c` separates path components on some platform.
pub open spec fn is_path_sep(c: char) -> bool {
    c == '/' || c == '\\'
}

/// The text after the last slash or backslash of a path (the whole path
/// without one).
pub open spec fn last_segment(p: Seq<char>) -> Seq<char>
    decreases p.len(),
{
    if p.len() == 0 {
        p
    } else if is_path_sep(p.last()) {
        Seq::empty()
    } else {
        last_segment(p.drop_last()).push(p.last())
    }
}

/// A path whose file name every platform reads alike: the text after its
/// last separator is non-empty, does not start with a dot and holds no
/// colon; the path does not start with two separators (a network prefix);
/// and the last segment holds a dot unless the path has no backslash.
pub open spec fn plain_file_name(p: Seq<char>) -> bool {
    let seg = last_segment(p);
    &&& seg.len() > 0
    &&& seg[0] != '.'
    &&& !seg.contains(':')
    &&& !(p.len() >= 2 && is_path_sep(p[0]) && is_path_sep(p[1]))
    &&& (seg.contains('.') || !p.contains('\\'))
}

/// The extension of a path with a plain file name: the text after the last
/// dot of its last segment, none without a dot.
pub open spec fn segment_extension(p: Seq<char>) -> Option<Seq<char>> {
    let seg = last_segment(p);
    match last_index_of(seg, '.') {
        Some(i) => Some(seg.skip(i + 1)),
        None => None,
    }
}

/// The text of an optional extension ("" for none).
pub open spec fn ext_text(e: Option<Seq<char>>) -> Seq<char> {
    match e {
        Some(t) => t,
        None => Seq::empty(),
    }
}

/// An optional string as text.
pub open spec fn opt_text(o: Option<String>) -> Option<Seq<char>> {
    match o {
        Some(s) => Some(s@),
        None => None,
    }
}

/// A path that every platform splits into components alike: no backslash,
/// no colon (drive prefix) and no leading `//` (network prefix).
pub open spec fn portable_path(p: Seq<char>) -> bool {
    &&& !p.contains('\\')
    &&& !p.contains(':')
    &&& !(p.len() >= 2 && p[0] == '/' && p[1] == '/')
}

/// What `Path::extension` gives for a portable path, as text.
pub uninterp spec fn path_extension(p: Seq<char>) -> Option<Seq<char>>;

/// Calls `std::path::Path::extension`. Claimed: for a portable path the
/// result is a function of the path; and for a path with a plain file name
/// it is the text after the last dot of the file name (none without a dot),
/// as the documentation of `Path::extension` says. There every platform
/// finds the same extension: where a backslash is not a separator it only
/// joins text before the file name's last dot. Other paths are split by
/// platform-specific rules, so nothing more is stated of them.
#[verifier::external_body]
fn extension_of(path: &str) -> (e: Option<String>)
    ensures
        portable_path(path@) ==> opt_text(e) == path_extension(path@),
        plain_file_name(path@) ==> opt_text(e) == segment_extension(path@),
{
    std::path::Path::new(path).extension().and_then(|x| x.to_str()).map(|x| x.to_string())
}

/// The lower-cased extension of a path ("" without one).
pub open spec fn lower_extension(p: Seq<char>) -> Seq<char> {
    lowercase(
        match path_extension(p) {
            Some(e) => e,
            None => Seq::empty(),
        },
    )
}

/// Whether `res` is the export format chosen by the lower-cased extension
/// `lower`: "html" or "pdf", any other extension an error naming it.
pub open spec fn is_format_for(res: Result<crate::config::OutputFormat, ReportError>, lower: Seq<char>) -> bool {
    &&& lower == "html"@ ==> res == Ok::<crate::config::OutputFormat, ReportError>(
        crate::config::OutputFormat::Html,
    )
    &&& lower == "pdf"@ ==> res == Ok::<crate::config::OutputFormat, ReportError>(
        crate::config::OutputFormat::Pdf,
    )
    &&& lower != "html"@ && lower != "pdf"@ ==> (res matches Err(
        ReportError::UnknownExtension { extension },
    ) && extension@ == lower)
}

/// The export format named by a file extension, in any letter case.
pub fn format_for_extension(ext: &str) -> (res: Result<crate::config::OutputFormat, ReportError>)
    ensures
        is_format_for(res, lowercase(ext@)),
{
    let lower = to_lowercase(ext);
    proof {
        reveal_strlit("html");
        reveal_strlit("pdf");
        assert("html"@.len() != "pdf"@.len());
    }
    if lower == String::from_str("html") {
        Ok(crate::config::OutputFormat::Html)
    } else if lower == String::from_str("pdf") {
        Ok(crate::config::OutputFormat::Pdf)
    } else {
        Err(ReportError::UnknownExtension { extension: lower })
    }
}

/// The format of an export file, from the extension of its path in any
/// letter case: ".html" or ".pdf"; any other extension is an error.
pub fn export_report(export_path: &str) -> (res: Result<crate::config::OutputFormat, ReportError>)
    ensures
        portable_path(export_path@) ==> is_format_for(res, lower_extension(export_path@)),
        plain_file_name(export_path@) ==> is_format_for(
            res,
            lowercase(ext_text(segment_extension(export_path@))),
        ),
        exists|ext: Seq<char>| #[trigger] is_format_for(res, lowercase(ext)),
{
    let ext = match extension_of(export_path) {
        Some(e) => e,
        None => String::new(),
    };
    let res = format_for_extension(ext.as_str());
    proof {
        assert(is_format_for(res, lowercase(ext@)));
    }
    res
}

// ── HTML report ──────────────────────────────────────────────────────────────

/// Whether `s` starts with `p`.
pub open spec fn starts_with(s: Seq<char>, p: Seq<char>) -> bool {
    p.len() <= s.len() && s.take(p.len() as int) == p
}

/// Whether `s` ends with `p`.
pub open spec fn ends_with(s: Seq<char>, p: Seq<char>) -> bool {
    p.len() <= s.len() && s.skip(s.len() - p.len()) == p
}

/// A script of the UI bundle: "assets/….js", not a source map.
pub open spec fn is_script_asset(p: Seq<char>) -> bool {
    starts_with(p, "assets/"@) && ends_with(p, ".js"@) && !ends_with(p, ".map"@)
}

/// A stylesheet of the UI bundle: "assets/….css".
pub open spec fn is_style_asset(p: Seq<char>) -> bool {
    starts_with(p, "assets/"@) && ends_with(p, ".css"@)
}

fn has_prefix(s: &Vec<char>, p: &Vec<char>) -> (b: bool)
    ensures
        b == starts_with(s@, p@),
{
    if p.len() > s.len() {
        return false;
    }
    let mut i: usize = 0;
    while i < p.len()
        invariant
            p.len() <= s.len(),
            i <= p.len(),
            forall|j: int| 0 <= j < i ==> s@[j] == p@[j],
        decreases p.len() - i,
    {
        if s[i] != p[i] {
            proof {
                assert(s@.take(p.len() as int)[i as int] != p@[i as int]);
            }
            return false;
        }
        i = i + 1;
    }
    proof {
        assert(s@.take(p.len() as int) =~= p@);
    }
    true
}

fn has_suffix(s: &Vec<char>, p: &Vec<char>) -> (b: bool)
    ensures
        b == ends_with(s@, p@),
{
    if p.len() > s.len() {
        return false;
    }
    let off = s.len() - p.len();
    let mut i: usize = 0;
    while i < p.len()
        invariant
            p.len() <= s.len(),
            off == s.len() - p.len(),
            i <= p.len(),
            forall|j: int| 0 <= j < i ==> s@[off + j] == p@[j],
        decreases p.len() - i,
    {
        if s[off + i] != p[i] {
            proof {
                assert(s@.skip(off as int)[i as int] != p@[i as int]);
            }
            return false;
        }
        i = i + 1;
    }
    proof {
        assert(s@.skip(off as int) =~= p@);
    }
    true
}

/// Views of a list of paths.
pub open spec fn paths_view(v: Seq<String>) -> Seq<Seq<char>> {
    v.map_values(|s: String| s@)
}

/// Whether `choice` is the last index of `paths` satisfying `pred`.
pub open spec fn is_last_match(paths: Seq<Seq<char>>, pred: spec_fn(Seq<char>) -> bool, choice: Option<usize>) -> bool {
    match choice {
        Some(i) => i < paths.len() && pred(paths[i as int]) && forall|j: int|
            i < j < paths.len() ==> !pred(#[trigger] paths[j]),
        None => forall|j: int| 0 <= j < paths.len() ==> !pred(#[trigger] paths[j]),
    }
}

/// Which embedded files make up the UI bundle: the index of the last script
/// and of the last stylesheet under "assets/".
pub fn select_ui_bundle(paths: &Vec<String>) -> (choice: (Option<usize>, Option<usize>))
    ensures
        is_last_match(paths_view(paths@), |p: Seq<char>| is_script_asset(p), choice.0),
        is_last_match(paths_view(paths@), |p: Seq<char>| is_style_asset(p), choice.1),
{
    let assets = crate::text::chars_of("assets/");
    let js = crate::text::chars_of(".js");
    let map = crate::text::chars_of(".map");
    let css = crate::text::chars_of(".css");
    let mut script: Option<usize> = None;
    let mut style: Option<usize> = None;
    let ghost pv = paths_view(paths@);
    let mut i: usize = 0;
    while i < paths.len()
        invariant
            i <= paths.len(),
            pv == paths_view(paths@),
            assets@ == "assets/"@,
            js@ == ".js"@,
            map@ == ".map"@,
            css@ == ".css"@,
            is_last_match(pv.take(i as int), |p: Seq<char>| is_script_asset(p), script),
            is_last_match(pv.take(i as int), |p: Seq<char>| is_style_asset(p), style),
        decreases paths.len() - i,
    {
        let cs = crate::text::chars_of(paths[i].as_str());
        let under_assets = has_prefix(&cs, &assets);
        if under_assets && has_suffix(&cs, &js) && !has_suffix(&cs, &map) {
            script = Some(i);
        }
        if under_assets && has_suffix(&cs, &css) {
            style = Some(i);
        }
        proof {
            let t = pv.take(i + 1);
            assert(t[i as int] == paths@[i as int]@);
            assert forall|j: int| 0 <= j < i implies t[j] == pv.take(i as int)[j] by {}
        }
        i = i + 1;
    }
    proof {
        assert(pv.take(paths.len() as int) =~= pv);
    }
    (script, style)
}

/// The text of the HTML page before the stylesheet.
pub open spec fn page_head() -> Seq<char> {
    "<!DOCTYPE html>\n<html lang=\"en\">\n<head>\n  <meta charset=\"UTF-8\" />\n  <meta name=\"viewport\" content=\"width=device-width, initial-scale=1.0\" />\n  <title>bench \u{2014} Report Viewer</title>\n  <style>"@
}

/// The text between the stylesheet and the report JSON.
pub open spec fn page_before_report() -> Seq<char> {
    "</style>\n</head>\n<body>\n  <div id=\"root\"></div>\n  <script>\n    window.__BENCH_MODE__ = \"report\";\n    window.__BENCH_REPORT__ = "@
}

/// The text between the report JSON and the script.
pub open spec fn page_before_script() -> Seq<char> {
    ";\n  </script>\n  <script type=\"module\">"@
}

/// The text after the script.
pub open spec fn page_tail() -> Seq<char> {
    "</script>\n</body>\n</html>"@
}

/// The self-contained report page: the viewer's stylesheet and script
/// inlined, and the report JSON assigned to `window.__BENCH_REPORT__`.
pub open spec fn report_page(report_json: Seq<char>, script: Seq<char>, style: Seq<char>) -> Seq<char> {
    page_head() + style + page_before_report() + report_json + page_before_script() + script
        + page_tail()
}

/// The report page opens as the report viewer: it holds
/// `window.__BENCH_MODE__ = "report";` and, next, the report JSON assigned
/// to `window.__BENCH_REPORT__`; it starts as an HTML document and ends
/// with the UI script followed by the closing tags.
pub proof fn law_report_page_opens_viewer(report_json: Seq<char>, script: Seq<char>, style: Seq<char>)
    ensures
        ({
            let page = report_page(report_json, script, style);
            let m = "window.__BENCH_MODE__ = \"report\";\n    window.__BENCH_REPORT__ = "@ + report_json;
            exists|i: int| 0 <= i && i + m.len() <= page.len() && #[trigger] page.subrange(i, i + m.len()) == m
        }),
        "<!DOCTYPE html>"@.is_prefix_of(report_page(report_json, script, style)),
        (script + "</script>\n</body>\n</html>"@).is_suffix_of(report_page(report_json, script, style)),
{
    reveal_strlit("window.__BENCH_MODE__ = \"report\";\n    window.__BENCH_REPORT__ = ");
    reveal_strlit("</style>\n</head>\n<body>\n  <div id=\"root\"></div>\n  <script>\n    ");
    reveal_strlit("</style>\n</head>\n<body>\n  <div id=\"root\"></div>\n  <script>\n    window.__BENCH_MODE__ = \"report\";\n    window.__BENCH_REPORT__ = ");
    reveal_strlit("<!DOCTYPE html>");
    reveal_strlit("<!DOCTYPE html>\n<html lang=\"en\">\n<head>\n  <meta charset=\"UTF-8\" />\n  <meta name=\"viewport\" content=\"width=device-width, initial-scale=1.0\" />\n  <title>bench \u{2014} Report Viewer</title>\n  <style>");
    reveal_strlit("</script>\n</body>\n</html>");
    let mode = "window.__BENCH_MODE__ = \"report\";\n    window.__BENCH_REPORT__ = "@;
    let pre = "</style>\n</head>\n<body>\n  <div id=\"root\"></div>\n  <script>\n    "@;
    assert(page_before_report() =~= pre + mode);
    let a = page_head() + style + pre;
    let m = mode + report_json;
    let rest = page_before_script() + script + page_tail();
    let page = report_page(report_json, script, style);
    assert(page =~= a + m + rest);
    assert(page.subrange(a.len() as int, (a.len() + m.len()) as int) =~= m);
    assert("<!DOCTYPE html>"@ =~= page_head().take(15));
    assert(page.take(15) =~= page_head().take(15));
    let tail = script + page_tail();
    assert(page.skip(page.len() - tail.len()) =~= tail);
}

/// Builds the report page; fails when the UI script is empty.
pub fn bundle_html(report_json: &str, script: &str, style: &str) -> (res: Result<String, ReportError>)
    ensures
        script@.len() == 0 ==> res == Err::<String, ReportError>(ReportError::UiBundleMissing),
        script@.len() > 0 ==> res is Ok && res->Ok_0@ == report_page(report_json@, script@, style@),
{
    if script.is_empty() {
        return Err(ReportError::UiBundleMissing);
    }
    let mut html = String::from_str("<!DOCTYPE html>\n<html lang=\"en\">\n<head>\n  <meta charset=\"UTF-8\" />\n  <meta name=\"viewport\" content=\"width=device-width, initial-scale=1.0\" />\n  <title>bench \u{2014} Report Viewer</title>\n  <style>");
    html.append(style);
    html.append("</style>\n</head>\n<body>\n  <div id=\"root\"></div>\n  <script>\n    window.__BENCH_MODE__ = \"report\";\n    window.__BENCH_REPORT__ = ");
    html.append(report_json);
    html.append(";\n  </script>\n  <script type=\"module\">");
    html.append(script);
    html.append("</script>\n</body>\n</html>");
    Ok(html)
}

#[verifier::external_type_specification]
#[verifier::external_body]
pub struct ExJsonValue(serde_json::Value);

#[verifier::external_type_specification]
#[verifier::external_body]
pub struct ExJsonError(serde_json::Error);

/// Whether `serde_json` accepts the bytes as one JSON value.
pub uninterp spec fn json_accepts(bytes: Seq<u8>) -> bool;

/// Calls `serde_json::from_slice` for a `serde_json::Value`. Claimed: whether
/// it succeeds is a function of the bytes. The parsed value is opaque.
#[verifier::external_body]
pub(crate) fn parse_json(bytes: &[u8]) -> (res: Result<serde_json::Value, serde_json::Error>)
    ensures
        res is Ok <==> json_accepts(bytes@),
{
    serde_json::from_slice(bytes)
}

/// Renders a `serde_json::Error` with its `Display` impl. Nothing is stated
/// of the text.
#[verifier::external_body]
pub(crate) fn json_error_message(e: &serde_json::Error) -> String {
    e.to_string()
}

/// The report page for a JSON report text, which must be valid JSON.
pub fn html_from_report_json(report_json: &str, script: &str, style: &str) -> (res: Result<
    String,
    ReportError,
>)
    ensures
        !json_accepts(encode_utf8(report_json@)) ==> res matches Err(ReportError::InvalidJson { .. }),
        json_accepts(encode_utf8(report_json@)) && script@.len() == 0 ==> res == Err::<
            String,
            ReportError,
        >(ReportError::UiBundleMissing),
        json_accepts(encode_utf8(report_json@)) && script@.len() > 0 ==> res is Ok && res->Ok_0@
            == report_page(report_json@, script@, style@),
{
    match parse_json(report_json.as_bytes()) {
        Err(e) => Err(ReportError::InvalidJson { message: json_error_message(&e) }),
        Ok(_) => bundle_html(report_json, script, style),
    }
}

} // verus!
