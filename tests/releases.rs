use kiisrv::stats::{summarize, tally, RequestLog};
use kiisrv::versions::{
    listing_line, parse_count, release_info, tag_listing, tag_name, tag_table, version_map,
    ReleaseInfo, TagRecord, VersionRow,
};

fn record(hash: &str, reference: &str, count: u64, date: &str) -> TagRecord {
    TagRecord {
        commit_hash: hash.to_string(),
        reference: reference.to_string(),
        count,
        date: date.to_string(),
    }
}

fn row(name: &str, container: &str, tag: &str) -> VersionRow {
    VersionRow {
        name: name.to_string(),
        channel: "latest".to_string(),
        container: container.to_string(),
        git_tag: tag.to_string(),
    }
}

#[test]
fn tag_names() {
    assert_eq!(tag_name("refs/tags/v0.5.7"), "v0.5.7");
    assert_eq!(tag_name("v0.5.7"), "v0.5.7");
    assert_eq!(tag_name("refs/tags/refs/tags/x"), "x");
    assert_eq!(tag_name(""), "");
    assert_eq!(tag_name("refs/tag"), "refs/tag");
}

#[test]
fn release_of_a_tag() {
    let r: ReleaseInfo = release_info(&record("abc123", "refs/tags/v0.5.7", 65791, "2019-01-01"));
    assert_eq!(r.commit, 255);
    assert_eq!(r.bcd, "0.ff");
    assert_eq!(r.hash, "abc123");
    assert_eq!(r.date, "2019-01-01");
    assert_eq!(r.notes, "https://github.com/kiibohd/controller/releases/tag/v0.5.7");
}

#[test]
fn tag_table_keeps_order_and_replaces() {
    let recs = vec![
        record("a1", "refs/tags/v2", 300, "d1"),
        record("b2", "refs/tags/v1", 256, "d2"),
        record("c3", "refs/tags/v2", 301, "d3"),
    ];
    let table = tag_table(recs);
    let keys: Vec<&String> = table.keys().collect();
    assert_eq!(keys, vec!["v2", "v1"]);
    assert_eq!(table.get("v2").unwrap().hash, "c3");
    assert_eq!(table.get("v2").unwrap().bcd, "1.45");
    assert_eq!(table.get("v1").unwrap().bcd, "1.0");
}

#[test]
fn version_filtering() {
    let table = tag_table(vec![record("a1", "refs/tags/v1", 10, "d")]);
    let rows = vec![
        row("MD1-Standard", "controller-057", "v1"),
        row("WhiteFox-Iso", "controller-999", "v1"),
        row("KType-Standard", "controller-050", "v-unknown"),
    ];
    let containers = vec!["controller-050".to_string(), "controller-057".to_string()];
    let out = version_map(rows, &containers, &table);
    assert_eq!(out.len(), 2);
    assert_eq!(out[0].0, "MD1-Standard");
    assert_eq!(out[0].1.container, "controller-057");
    assert_eq!(out[0].1.info.as_ref().unwrap().bcd, "0.10");
    assert_eq!(out[1].0, "KType-Standard");
    assert!(out[1].1.info.is_none());
    assert!(out.iter().all(|(n, _)| n != "WhiteFox-Iso"));
}

#[test]
fn version_map_of_nothing() {
    let table = tag_table(vec![]);
    let out = version_map(vec![row("A", "c", "t")], &vec![], &table);
    assert!(out.is_empty());
}

#[test]
fn listing_lines() {
    let p = listing_line("abc123\trefs/tags/v1 ").unwrap();
    assert_eq!(p.0, "abc123");
    assert_eq!(p.1, "refs/tags/v1");
    assert!(listing_line("abc123\trefs/tags/v1^{}").is_none());
    assert!(listing_line("no tab here").is_none());
    let q = listing_line("h\tr\textra").unwrap();
    assert_eq!(q.1, "r");
}

#[test]
fn listing_is_reversed_and_filtered() {
    let lines = vec![
        "h1\trefs/tags/v1".to_string(),
        "h1x\trefs/tags/v1^{}".to_string(),
        "h2\trefs/tags/v2".to_string(),
    ];
    let out = tag_listing(&lines);
    assert_eq!(out.len(), 2);
    assert_eq!(out[0], ("h2".to_string(), "refs/tags/v2".to_string()));
    assert_eq!(out[1], ("h1".to_string(), "refs/tags/v1".to_string()));
}

#[test]
fn commit_counts() {
    assert_eq!(parse_count("1234\n"), Some(1234));
    assert_eq!(parse_count("  0 "), Some(0));
    assert_eq!(parse_count("70000"), Some(70000));
    assert_eq!(parse_count(""), None);
    assert_eq!(parse_count("12a"), None);
    assert_eq!(parse_count("18446744073709551615"), Some(u64::MAX));
    assert_eq!(parse_count("18446744073709551616"), None);
}

fn log(ip: &str, os: &str, web: bool, hash: &str, success: bool, ms: Option<i64>) -> RequestLog {
    RequestLog {
        ip_addr: ip.to_string(),
        os: os.to_string(),
        web,
        hash: hash.to_string(),
        board: "MD1".to_string(),
        variant: "Standard".to_string(),
        layers: 1,
        container: "controller-057".to_string(),
        success,
        build_duration: ms,
    }
}

#[test]
fn stats_scenario() {
    let rows = vec![
        log("1.1.1.1", "Linux", true, "abc", true, Some(3000)),
        log("1.1.1.1", "Linux", true, "abc", true, None),
        log("2.2.2.2", "Windows", false, "def", false, Some(1000)),
    ];
    let s = summarize(&rows);
    assert_eq!(s.total_builds, 3);
    assert_eq!(s.unique_builds, 2);
    assert_eq!((s.total_builds as f64) / (s.unique_builds as f64), 1.5);
    assert_eq!(s.unique_users, 2);
    assert_eq!(s.total_layers, 3);
    assert_eq!(s.total_build_ms, 4000);
    assert_eq!(s.os_counts, vec![("Linux".to_string(), 2), ("Windows".to_string(), 1)]);
    assert_eq!(s.platform_counts, vec![("Web".to_string(), 2), ("Desktop".to_string(), 1)]);
    assert_eq!(s.keyboard_counts, vec![("MD1-Standard".to_string(), 3)]);
    assert_eq!(s.container_counts, vec![("controller-057".to_string(), 3)]);
}

#[test]
fn stats_of_no_rows() {
    let s = summarize(&vec![]);
    assert_eq!(s.total_builds, 0);
    assert_eq!(s.unique_builds, 0);
    assert_eq!(s.unique_users, 0);
    assert!(s.os_counts.is_empty());
}

#[test]
fn tally_counts_in_first_appearance_order() {
    let keys: Vec<String> = ["b", "a", "b", "c", "b"].iter().map(|s| s.to_string()).collect();
    let t = tally(&keys);
    assert_eq!(
        t,
        vec![("b".to_string(), 3), ("a".to_string(), 1), ("c".to_string(), 1)]
    );
}
