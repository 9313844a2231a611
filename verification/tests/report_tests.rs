use bench::config::OutputFormat;
use bench::report::{
    bar_color_for_status, bundle_html, error_bars, export_report, format_for_extension, group_totals, html_from_report_json,
    method_color, report_totals, select_ui_bundle, sort_by_count_desc, sort_by_status, status_bars,
    BarColor, MethodColor, ReportError, RequestCounts,
};

fn c(total: u64, ok: u64, fail: u64, err: u64) -> RequestCounts {
    RequestCounts { total, successful: ok, failed: fail, errors: err }
}

#[test]
fn group_and_report_totals() {
    let g1 = vec![c(10, 8, 1, 1), c(5, 5, 0, 0)];
    let g2 = vec![c(7, 0, 7, 0)];
    let g3: Vec<RequestCounts> = vec![];
    assert_eq!(group_totals(&g1), c(15, 13, 1, 1));
    assert_eq!(group_totals(&g3), c(0, 0, 0, 0));
    let all = report_totals(&vec![g1.clone(), g2.clone(), g3.clone()]);
    assert_eq!(all, c(22, 13, 8, 1));
    let sum_of_groups = [group_totals(&g1), group_totals(&g2), group_totals(&g3)]
        .iter()
        .fold(c(0, 0, 0, 0), |a, b| c(a.total + b.total, a.successful + b.successful, a.failed + b.failed, a.errors + b.errors));
    assert_eq!(all, sum_of_groups);
}

#[test]
fn export_format_from_extension() {
    assert_eq!(export_report("out/report.html"), Ok(OutputFormat::Html));
    assert_eq!(export_report("REPORT.PDF"), Ok(OutputFormat::Pdf));
    assert_eq!(export_report("report.Html"), Ok(OutputFormat::Html));
    assert_eq!(export_report("report.json"), Err(ReportError::UnknownExtension { extension: "json".to_string() }));
    assert_eq!(export_report("report"), Err(ReportError::UnknownExtension { extension: "".to_string() }));
    assert_eq!(export_report(".pdf"), Err(ReportError::UnknownExtension { extension: "".to_string() }));
}

#[test]
fn status_colors() {
    assert_eq!(bar_color_for_status(200), BarColor::Success);
    assert_eq!(bar_color_for_status(299), BarColor::Success);
    assert_eq!(bar_color_for_status(302), BarColor::Indigo);
    assert_eq!(bar_color_for_status(404), BarColor::Warn);
    assert_eq!(bar_color_for_status(503), BarColor::Error);
}

#[test]
fn status_chart_sorted_with_net_errors_last() {
    let sorted = sort_by_status(&vec![(500, 2), (200, 40), (404, 3)]);
    assert_eq!(sorted, vec![(200, 40), (404, 3), (500, 2)]);
    let bars = status_bars(&sorted, 5);
    let view: Vec<(&str, u64, BarColor)> = bars.iter().map(|b| (b.label.as_str(), b.count, b.color)).collect();
    assert_eq!(
        view,
        vec![
            ("HTTP 200", 40, BarColor::Success),
            ("HTTP 404", 3, BarColor::Warn),
            ("HTTP 500", 2, BarColor::Error),
            ("Net Errors", 5, BarColor::Error),
        ]
    );
    assert!(status_bars(&vec![], 0).is_empty());
}

#[test]
fn error_chart_sorted_by_count() {
    let sorted = sort_by_count_desc(&vec![
        ("request error".to_string(), 1),
        ("timeout".to_string(), 9),
        ("connection error".to_string(), 4),
    ]);
    let names: Vec<&str> = sorted.iter().map(|(n, _)| n.as_str()).collect();
    assert_eq!(names, vec!["timeout", "connection error", "request error"]);
    let bars = error_bars(&sorted);
    assert!(bars.iter().all(|b| b.color == BarColor::Error));
    assert_eq!(bars[0].count, 9);
}

#[test]
fn method_colors() {
    assert_eq!(method_color("get"), MethodColor::Get);
    assert_eq!(method_color("POST"), MethodColor::Post);
    assert_eq!(method_color("Put"), MethodColor::Put);
    assert_eq!(method_color("patch"), MethodColor::Patch);
    assert_eq!(method_color("DELETE"), MethodColor::Delete);
    assert_eq!(method_color("OPTIONS"), MethodColor::Other);
}

#[test]
fn ui_bundle_selection_takes_last_match() {
    let paths: Vec<String> = ["index.html", "assets/index-a.js", "assets/index-a.js.map", "assets/style.css", "assets/index-b.js", "favicon.svg"]
        .iter()
        .map(|s| s.to_string())
        .collect();
    assert_eq!(select_ui_bundle(&paths), (Some(4), Some(3)));
    assert_eq!(select_ui_bundle(&vec!["index.html".to_string()]), (None, None));
}

#[test]
fn html_page_embeds_report() {
    let page = bundle_html("{\"a\":1}", "console.log(1)", "body{}").unwrap();
    assert!(page.starts_with("<!DOCTYPE html>"));
    assert!(page.contains("<style>body{}</style>"));
    assert!(page.contains("window.__BENCH_REPORT__ = {\"a\":1};"));
    assert!(page.contains("<script type=\"module\">console.log(1)</script>"));
    assert!(page.contains("<title>bench — Report Viewer</title>"));
    assert!(page.ends_with("</html>"));
    assert_eq!(bundle_html("{}", "", "x"), Err(ReportError::UiBundleMissing));
}

#[test]
fn html_from_json_checks_json() {
    assert!(matches!(html_from_report_json("{not json", "js", ""), Err(ReportError::InvalidJson { .. })));
    assert_eq!(html_from_report_json("{}", "", ""), Err(ReportError::UiBundleMissing));
    assert!(html_from_report_json("{\"groups\":[]}", "js", "").is_ok());
}

#[test]
fn format_from_extension_text() {
    assert_eq!(format_for_extension("PDF"), Ok(OutputFormat::Pdf));
    assert_eq!(format_for_extension("html"), Ok(OutputFormat::Html));
    assert_eq!(format_for_extension("Txt"), Err(ReportError::UnknownExtension { extension: "txt".to_string() }));
    assert_eq!(format_for_extension(""), Err(ReportError::UnknownExtension { extension: "".to_string() }));
}

#[test]
fn export_format_of_windows_style_paths() {
    assert_eq!(export_report("C:\\out\\report.pdf"), Ok(OutputFormat::Pdf));
    assert_eq!(export_report("out\\Report.HTML"), Ok(OutputFormat::Html));
    assert_eq!(export_report("a\\b.txt"), Err(ReportError::UnknownExtension { extension: "txt".to_string() }));
}
