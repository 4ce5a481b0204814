use kiisrv::display::{build_number, dec_string, display_version, hex_string};
use kiisrv::registry::{JobEntry, JobRegistry};
use kiisrv::request::{
    artifact_name, build_result, classify_os, classify_os_lowered, container_for, fingerprint,
    fingerprint_value, is_web_client, is_web_lowered,
};
use std::cell::Cell;

#[test]
fn display_version_boundaries() {
    assert_eq!(display_version(0), "0.0");
    assert_eq!(display_version(255), "0.ff");
    assert_eq!(display_version(256), "1.0");
    assert_eq!(display_version(65536), display_version(0));
    assert_eq!(display_version(65536), "0.0");
}

#[test]
fn display_version_decimal_and_hex_bytes() {
    assert_eq!(display_version(99), "0.99");
    assert_eq!(display_version(100), "0.64");
    assert_eq!(display_version(99 * 256 + 42), "99.42");
    assert_eq!(display_version(100 * 256 + 100), "64.64");
    assert_eq!(display_version(65535), "ff.ff");
    assert_eq!(display_version(65536 + 257), "1.1");
}

#[test]
fn build_number_wraps() {
    assert_eq!(build_number(0), 0);
    assert_eq!(build_number(65535), 65535);
    assert_eq!(build_number(65536), 0);
    assert_eq!(build_number(70000), 4464);
}

#[test]
fn number_rendering() {
    assert_eq!(dec_string(0), "0");
    assert_eq!(dec_string(1234567890), "1234567890");
    assert_eq!(hex_string(0), "0");
    assert_eq!(hex_string(255), "ff");
    assert_eq!(hex_string(0xdead_beef), "deadbeef");
    assert_eq!(hex_string(u64::MAX), "ffffffffffffffff");
}

#[test]
fn registry_starts_one_build_per_fingerprint() {
    let spawns = Cell::new(0u32);
    let mut reg: JobRegistry<u32> = JobRegistry::new();
    let first = reg.submit(7, || -> Result<u32, String> {
        spawns.set(spawns.get() + 1);
        Ok(41)
    });
    assert!(matches!(first, Ok(JobEntry::Building(41))));
    let second = reg.submit(7, || -> Result<u32, String> {
        spawns.set(spawns.get() + 1);
        Ok(99)
    });
    assert!(matches!(second, Ok(JobEntry::Building(41))));
    assert_eq!(spawns.get(), 1);
    let other = reg.submit(8, || -> Result<u32, String> {
        spawns.set(spawns.get() + 1);
        Ok(5)
    });
    assert!(matches!(other, Ok(JobEntry::Building(5))));
    assert_eq!(spawns.get(), 2);
}

#[test]
fn registry_failed_start_is_retried() {
    let mut reg: JobRegistry<u32> = JobRegistry::new();
    let failed = reg.submit(3, || -> Result<u32, String> { Err("spawn failed".to_string()) });
    assert!(matches!(failed, Err(ref e) if e == "spawn failed"));
    assert!(reg.lookup(3).is_none());
    let retried = reg.submit(3, || -> Result<u32, String> { Ok(12) });
    assert!(matches!(retried, Ok(JobEntry::Building(12))));
}

#[test]
fn registry_first_completion_wins() {
    let mut reg: JobRegistry<u32> = JobRegistry::new();
    let _ = reg.submit(9, || -> Result<u32, String> { Ok(1) });
    assert!(reg.finish(9, true));
    assert!(reg.finish(9, false));
    assert!(matches!(reg.lookup(9), Some(JobEntry::Finished(true))));
    let again = reg.submit(9, || -> Result<u32, String> { panic!("no second build") });
    assert!(matches!(again, Ok(JobEntry::Finished(true))));
}

#[test]
fn registry_failed_build_is_cached() {
    let mut reg: JobRegistry<u32> = JobRegistry::new();
    let _ = reg.submit(4, || -> Result<u32, String> { Ok(2) });
    assert!(!reg.finish(4, false));
    let again = reg.submit(4, || -> Result<u32, String> { panic!("no retry of a failed build") });
    assert!(matches!(again, Ok(JobEntry::Finished(false))));
}

#[test]
fn os_classification() {
    assert_eq!(
        classify_os("Mozilla/5.0 (Windows NT 10.0; Win64; x64) AppleWebKit/537.36"),
        "Windows"
    );
    assert_eq!(classify_os("Mozilla/5.0 (X11; Linux x86_64) Gecko/20100101"), "Linux");
    assert_eq!(classify_os(""), "Unknown");
    assert_eq!(classify_os("Mozilla/5.0 (Macintosh; Intel Mac OS X 10_15_7)"), "Mac");
    assert_eq!(classify_os("SOMETHING ON X11"), "Linux");
    assert_eq!(classify_os("curl/8.0"), "Unknown");
}

#[test]
fn os_classification_of_lowered_text() {
    assert_eq!(classify_os_lowered("windows nt 10.0"), "Windows");
    assert_eq!(classify_os_lowered("x11; linux"), "Linux");
    assert_eq!(classify_os_lowered("Windows"), "Unknown");
    assert_eq!(classify_os_lowered(""), "Unknown");
}

#[test]
fn platform_classification() {
    assert!(is_web_client("Mozilla/5.0 (X11; Linux x86_64)"));
    assert!(!is_web_client("Mozilla/5.0 Configurator/1.0 Electron/9.0.0"));
    assert!(!is_web_lowered("electron"));
    assert!(is_web_lowered("Electron"));
    assert!(is_web_client(""));
}

#[test]
fn channel_containers() {
    assert_eq!(container_for("lts"), "controller-050");
    assert_eq!(container_for("nightly"), "controller-057");
    assert_eq!(container_for("latest"), "controller-057");
    assert_eq!(container_for("something-else"), "controller-057");
    assert_eq!(container_for("LTS"), "controller-057");
}

#[test]
fn fingerprint_is_deterministic() {
    let cfg = "{\"header\":{\"Name\":\"MD1\"}}";
    assert_eq!(fingerprint("controller-057", cfg), fingerprint("controller-057", cfg));
    assert_eq!(fingerprint_value("controller-057", cfg), fingerprint_value("controller-057", cfg));
    assert_ne!(fingerprint("controller-057", cfg), fingerprint("controller-050", cfg));
    assert_ne!(fingerprint("controller-057", cfg), fingerprint("controller-057", "{}"));
    assert_ne!(fingerprint("ab", "c"), fingerprint("a", "bc"));
}

#[test]
fn fingerprint_is_hex_of_value() {
    let v = fingerprint_value("controller-050", "{}");
    assert_eq!(fingerprint("controller-050", "{}"), format!("{:x}", v));
}

#[test]
fn artifact_names() {
    assert_eq!(artifact_name("MD1", "Standard", "abc", true), "MD1-Standard-abc.zip");
    assert_eq!(artifact_name("MD1", "Standard", "abc", false), "MD1-Standard-abc_error.zip");
    let ok = build_result("WhiteFox", "Iso", "12ef", true);
    assert_eq!(ok.filename, "./tmp/WhiteFox-Iso-12ef.zip");
    assert!(ok.success);
    let failed = build_result("WhiteFox", "Iso", "12ef", false);
    assert_eq!(failed.filename, "./tmp/WhiteFox-Iso-12ef_error.zip");
    assert!(!failed.success);
}

#[test]
fn end_to_end_dedup_and_result() {
    let config = "{\"matrix\":[]}";
    let container = container_for("nightly");
    let hash = fingerprint(&container, config);
    let key = fingerprint_value(&container, config);
    let spawns = Cell::new(0u32);
    let mut reg: JobRegistry<u32> = JobRegistry::new();
    let start = || -> Result<u32, String> {
        spawns.set(spawns.get() + 1);
        Ok(100)
    };
    let first = reg.submit(key, start).unwrap();
    let second = reg
        .submit(key, || -> Result<u32, String> {
            spawns.set(spawns.get() + 1);
            Ok(200)
        })
        .unwrap();
    assert_eq!(spawns.get(), 1);
    assert!(matches!(first, JobEntry::Building(100)));
    assert!(matches!(second, JobEntry::Building(100)));
    let a = reg.finish(key, true);
    let b = reg.finish(key, true);
    assert!(a && b);
    let result = build_result("MD1", "Standard", &hash, a);
    assert_eq!(result.filename, format!("./tmp/MD1-Standard-{}.zip", hash));
    assert!(result.success);
}
