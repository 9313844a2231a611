use bench::config::{collect_leaves, OutputFormat, RequestNode, ScenarioNode};
use bench::text::{decimal_string, fmt_num, trim_str, truncate};

#[test]
fn fmt_num_groups_thousands() {
    assert_eq!(fmt_num(0), "0");
    assert_eq!(fmt_num(999), "999");
    assert_eq!(fmt_num(1000), "1,000");
    assert_eq!(fmt_num(1234567), "1,234,567");
    assert_eq!(fmt_num(100000), "100,000");
    assert_eq!(fmt_num(u64::MAX), "18,446,744,073,709,551,615");
}

#[test]
fn fmt_num_without_commas_is_decimal() {
    for n in [0u64, 7, 12, 123, 1234, 98765, 1000000, 4294967296] {
        assert_eq!(fmt_num(n).replace(',', ""), n.to_string());
        assert_eq!(decimal_string(n), n.to_string());
    }
}

#[test]
fn truncate_keeps_short_strings() {
    assert_eq!(truncate("short", 14), "short");
    assert_eq!(truncate("exactly14chars", 14), "exactly14chars");
}

#[test]
fn truncate_cuts_long_strings_with_ellipsis() {
    assert_eq!(truncate("abcdefghijklmnop", 5), "abcd\u{2026}");
    let long = "https://api.example.com/users/12345";
    assert_eq!(truncate(long, 10), "https://a\u{2026}");
}

#[test]
fn truncate_counts_utf8_bytes() {
    // "é" takes two bytes: 7 bytes in all, cut after 4 bytes.
    assert_eq!(truncate("ééé!", 5), "éé\u{2026}");
}

#[test]
fn trim_removes_unicode_whitespace() {
    assert_eq!(trim_str("  Accept \t"), "Accept");
    assert_eq!(trim_str("\u{3000}x y\u{a0}"), "x y");
    assert_eq!(trim_str("   "), "");
    assert_eq!(trim_str(""), "");
}

#[test]
fn case_mapping_follows_std() {
    // Lower-casing: the format name is matched case-insensitively.
    assert_eq!(OutputFormat::from_str("PDF"), OutputFormat::Pdf);
    assert_eq!(OutputFormat::from_str("Pdf"), OutputFormat::Pdf);
    // Upper-casing: leaf methods are reported upper-cased, with std's Unicode mapping.
    let leaf = |m: &str| ScenarioNode::Request(RequestNode {
        name: "n".to_string(),
        url: "http://x".to_string(),
        method: m.to_string(),
        headers: vec![],
        body: None,
    });
    let mut out = Vec::new();
    collect_leaves(&leaf("post"), &mut out);
    collect_leaves(&leaf("straße"), &mut out);
    assert_eq!(out[0].2, "POST");
    assert_eq!(out[1].2, "STRASSE");
}
