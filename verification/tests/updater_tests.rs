use std::io::Write;
use gos3lih::updater::{
    check_release, is_service_binary, numbers_after, release_status, update_download_url, update_script,
    version_is_newer, version_numbers_of, GitHubAsset, GitHubRelease, ReleaseStatus, UpdateInfo, UpdateState,
    CURRENT_VERSION,
};

#[test]
fn newer_versions() {
    assert!(version_is_newer("0.2.0", "0.1.0"));
    assert!(version_is_newer("1.10.0", "1.9.3"));
    assert!(version_is_newer("0.1.0", "0.1"));
    assert!(version_is_newer("2", "1.99.99"));
}

#[test]
fn not_newer_versions() {
    assert!(!version_is_newer("0.1.0", "0.1.0"));
    assert!(!version_is_newer("0.1.0", "0.2.0"));
    assert!(!version_is_newer("0.1", "0.1.0"));
    assert!(!version_is_newer("0.1.0-build.4", "0.1.0"));
    assert!(!version_is_newer("", "0.0.1"));
}

#[test]
fn newer_is_a_strict_order() {
    let vs = ["0.1.0", "0.2.0", "0.10.0", "1.0", "1.0.0", "0.1.0-rc.1"];
    for a in vs {
        assert!(!version_is_newer(a, a));
        for b in vs {
            assert!(!(version_is_newer(a, b) && version_is_newer(b, a)), "{a} {b}");
            for c in vs {
                if version_is_newer(a, b) && version_is_newer(b, c) {
                    assert!(version_is_newer(a, c), "{a} {b} {c}");
                }
            }
        }
    }
}

#[test]
fn version_numbers_skip_what_is_no_number() {
    assert_eq!(version_numbers_of("1.2.3"), vec![1, 2, 3]);
    assert_eq!(version_numbers_of("1.x.3"), vec![1, 3]);
    assert_eq!(version_numbers_of("0.1.0-build.4"), vec![0, 1, 0]);
    assert_eq!(version_numbers_of("v1.2"), vec![2]);
    assert!(numbers_after(&vec![1, 3], &vec![1, 2, 9]));
    assert!(!numbers_after(&vec![], &vec![]));
}

fn asset(name: &str, url: &str) -> GitHubAsset {
    GitHubAsset { name: name.to_string(), browser_download_url: url.to_string() }
}

#[test]
fn newer_release_is_an_update() {
    let release = GitHubRelease {
        tag_name: "v0.2.0".to_string(),
        body: Some("Faster scans".to_string()),
        assets: vec![asset("other.zip", "https://h/other.zip"), asset("Gos3lih.zip", "https://h/Gos3lih.zip")],
    };
    let info = check_release(&release, CURRENT_VERSION).expect("update");
    assert!(info.available);
    assert_eq!(info.current_version, "0.1.0");
    assert_eq!(info.latest_version, "0.2.0");
    assert_eq!(info.download_url, "https://h/Gos3lih.zip");
    assert_eq!(info.release_notes, "Faster scans");
}

#[test]
fn release_without_bundle_has_empty_url() {
    let release = GitHubRelease { tag_name: "1.0.0".to_string(), body: None, assets: vec![asset("x", "y")] };
    let info = check_release(&release, "0.1.0").expect("update");
    assert_eq!(info.download_url, "");
    assert_eq!(info.release_notes, "");
    assert_eq!(update_download_url(&info), Err("No update available".to_string()));
}

#[test]
fn same_or_older_release_is_no_update() {
    let same = GitHubRelease { tag_name: "v0.1.0".to_string(), body: None, assets: vec![] };
    assert!(check_release(&same, "0.1.0").is_none());
    let older = GitHubRelease { tag_name: "v0.0.9".to_string(), body: None, assets: vec![] };
    assert!(check_release(&older, "0.1.0").is_none());
}

#[test]
fn release_status_codes() {
    assert_eq!(release_status(404), ReleaseStatus::NoRelease);
    assert_eq!(release_status(403), ReleaseStatus::Failed);
    assert_eq!(release_status(500), ReleaseStatus::Failed);
    assert_eq!(release_status(200), ReleaseStatus::Ready);
    assert_eq!(release_status(302), ReleaseStatus::Ready);
}

#[test]
fn service_binary_entries() {
    assert!(is_service_binary("gos3lih-service.exe"));
    assert!(is_service_binary("bin/gos3lih-service.exe"));
    assert!(!is_service_binary("gos3lih-ui.exe"));
    assert!(!is_service_binary("WinDivert.dll"));
}

#[test]
fn update_state_records_checks() {
    let mut us = UpdateState::new();
    assert!(!us.info.available);
    assert_eq!(us.info.latest_version, CURRENT_VERSION);
    us.record_check(Some(UpdateInfo {
        available: true,
        current_version: "0.1.0".to_string(),
        latest_version: "0.3.0".to_string(),
        download_url: "u".to_string(),
        release_notes: String::new(),
    }));
    assert_eq!(update_download_url(&us.info), Ok("u".to_string()));
    us.record_check(None);
    assert!(!us.info.available);
    assert_eq!(UpdateInfo::none().download_url, "");
}

#[test]
fn update_script_text() {
    let s = update_script(4321, "C:\\g\\svc.exe", "C:\\g\\svc.new", "C:\\g\\svc.old");
    let expected = "@echo off\n:wait\ntasklist /FI \"PID eq 4321\" 2>NUL | find \"4321\" >NUL\n\
if not errorlevel 1 (\n    timeout /t 1 /nobreak >NUL\n    goto wait\n)\n\
if exist \"C:\\g\\svc.old\" del /f \"C:\\g\\svc.old\"\n\
move /y \"C:\\g\\svc.exe\" \"C:\\g\\svc.old\"\n\
move /y \"C:\\g\\svc.new\" \"C:\\g\\svc.exe\"\n\
start \"\" \"C:\\g\\svc.exe\"\n\
del /f \"C:\\g\\svc.old\" 2>NUL\ndel /f \"%~f0\"\n";
    assert_eq!(s, expected);
}

fn bundle(entries: &[(&str, &[u8])]) -> Vec<u8> {
    let mut w = zip::ZipWriter::new(std::io::Cursor::new(Vec::new()));
    let opts = zip::write::SimpleFileOptions::default().compression_method(zip::CompressionMethod::Stored);
    for (name, data) in entries {
        w.start_file(*name, opts).unwrap();
        w.write_all(data).unwrap();
    }
    w.finish().unwrap().into_inner()
}

#[test]
fn bundle_is_planned_entry_by_entry() {
    let bytes = bundle(&[
        ("gos3lih-service.exe", b"new service"),
        ("WinDivert.dll", b"driver"),
        ("gos3lih-ui.exe", b""),
    ]);
    let plan = gos3lih::updater::plan_update(&bytes).expect("readable bundle");
    assert_eq!(plan.len(), 3);
    assert!(plan[0].replaces_service);
    assert_eq!(plan[0].name, "gos3lih-service.exe");
    assert_eq!(plan[0].data, b"new service".to_vec());
    assert!(!plan[1].replaces_service);
    assert_eq!(plan[1].name, "WinDivert.dll");
    assert_eq!(plan[1].data, b"driver".to_vec());
    assert!(!plan[2].replaces_service);
    assert!(plan[2].data.is_empty());
}

#[test]
fn unreadable_bundle_is_refused() {
    assert!(gos3lih::updater::plan_update(b"not a zip archive").is_none());
    assert!(gos3lih::updater::plan_update(&[]).is_none());
}

#[test]
fn download_url_must_not_be_empty() {
    assert_eq!(gos3lih::updater::check_download_url(""), Err("No download URL available".to_string()));
    assert_eq!(gos3lih::updater::check_download_url("https://h/Gos3lih.zip"), Ok(()));
}

#[test]
fn readable_entries_are_planned_even_when_not_all_are() {
    let whole = bundle(&[("gos3lih-service.exe", b"svc"), ("a.dll", b"aaaa")]);
    let p = gos3lih::updater::plan_update_entries(&whole).expect("archive");
    assert!(p.complete);
    assert_eq!(p.files.len(), 2);
    assert!(gos3lih::updater::plan_update_entries(b"no archive").is_none());
}

#[test]
fn entries_before_a_damaged_one_are_planned() {
    let mut bytes = bundle(&[("gos3lih-service.exe", b"first-entry"), ("b.dll", b"second-entry")]);
    let at = bytes.windows(12).position(|w| w == b"second-entry").expect("stored content");
    bytes[at] = b'S';
    let p = gos3lih::updater::plan_update_entries(&bytes).expect("archive");
    assert!(!p.complete);
    assert_eq!(p.files.len(), 1);
    assert!(p.files[0].replaces_service);
    assert_eq!(p.files[0].data, b"first-entry".to_vec());
    assert!(gos3lih::updater::plan_update(&bytes).is_none());
}
