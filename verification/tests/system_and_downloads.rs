use signalist::downloads::{download_candidate, free_destination, unique_download_destination, DownloadState, DownloadTracker};
use signalist::system::{chrome_user_agent, macos_too_old, macos_version, safari_user_agent, tail_lines, version_dialog_script};

#[test]
fn macos_versions_are_parsed() {
    assert_eq!(macos_version("15.3\n"), Some((15, 3)));
    assert_eq!(macos_version("26"), Some((26, 0)));
    assert_eq!(macos_version(" 14.2.1 "), Some((14, 2)));
    assert_eq!(macos_version("+14.x"), Some((14, 0)));
    assert_eq!(macos_version("0.1"), None);
    assert_eq!(macos_version("abc"), None);
    assert_eq!(macos_version(""), None);
    assert_eq!(macos_version("4294967296.1"), None);
    assert_eq!(macos_version("4294967295.01"), Some((4294967295, 1)));
}

#[test]
fn safari_version_follows_macos() {
    assert_eq!(
        safari_user_agent(Some((15, 3))),
        "Mozilla/5.0 (Macintosh; Intel Mac OS X 10_15_7) AppleWebKit/605.1.15 (KHTML, like Gecko) Version/18.3 Safari/605.1.15"
    );
    assert_eq!(
        safari_user_agent(Some((26, 1))),
        "Mozilla/5.0 (Macintosh; Intel Mac OS X 10_15_7) AppleWebKit/605.1.15 (KHTML, like Gecko) Version/26.1 Safari/605.1.15"
    );
    assert_eq!(
        safari_user_agent(None),
        "Mozilla/5.0 (Macintosh; Intel Mac OS X 10_15_7) AppleWebKit/605.1.15 (KHTML, like Gecko)"
    );
    assert!(chrome_user_agent().contains("Chrome/124.0.0.0"));
}

#[test]
fn old_macos_is_refused() {
    assert!(macos_too_old(Some((13, 6))));
    assert!(!macos_too_old(Some((14, 0))));
    assert!(!macos_too_old(None));
    let script = version_dialog_script(13, 6);
    assert!(script.starts_with("display dialog \"Signalist потребує macOS 14 Sonoma або новіше.\" & return & return \"Ваша версія: macOS 13.6\""));
    assert!(script.ends_with(" buttons {\"OK\"} default button \"OK\" with icon caution with title \"Signalist\""));
}

#[test]
fn log_tail() {
    assert_eq!(tail_lines("a\nb\r\nc\n", 2), "b\nc");
    assert_eq!(tail_lines("a\nb\r\nc\n", 10), "a\nb\nc");
    assert_eq!(tail_lines("a\nb\nc", 0), "");
    assert_eq!(tail_lines("", 5), "");
    assert_eq!(tail_lines("one\n\nthree", 2), "\nthree");
    assert_eq!(tail_lines("x\r", 1), "x\r");
}

#[test]
fn download_candidates_keep_the_extension() {
    assert_eq!(download_candidate("/Users/me/Downloads/report.pdf", 1), "/Users/me/Downloads/report (1).pdf");
    assert_eq!(download_candidate("/Users/me/Downloads/archive.2026.zip", 2), "/Users/me/Downloads/archive.2026 (2).zip");
    assert_eq!(download_candidate("/Users/me/Downloads/.env", 1), "/Users/me/Downloads/.env (1)");
    assert_eq!(download_candidate("/Users/me/Downloads/README", 12), "/Users/me/Downloads/README (12)");
    assert_eq!(download_candidate("/", 1), "download (1)");
}

#[test]
fn reserved_destinations_are_avoided() {
    let free = "/nonexistent-signalist-dir/file.txt".to_string();
    assert_eq!(unique_download_destination(&free, &Vec::new()), Some(free.clone()));
    let reserved = vec![free.clone(), "/nonexistent-signalist-dir/file (1).txt".to_string()];
    assert_eq!(
        unique_download_destination(&free, &reserved),
        Some("/nonexistent-signalist-dir/file (2).txt".to_string())
    );
}

#[test]
fn free_destination_needs_no_disk_entry_and_no_reservation() {
    let p = "/Users/me/Downloads/a.txt".to_string();
    assert_eq!(free_destination(p.clone(), false, &Vec::new()), Some(p.clone()));
    assert_eq!(free_destination(p.clone(), true, &Vec::new()), None);
    let reserved = vec!["/Users/me/Downloads/./a.txt".to_string()];
    assert_eq!(free_destination(p.clone(), false, &reserved), None);
    let other = vec!["/Users/me/Downloads/b.txt".to_string()];
    assert_eq!(free_destination(p.clone(), false, &other), Some(p));
}

#[test]
fn downloads_are_tracked_per_webview() {
    let mut t = DownloadTracker::new();
    let a = t.request("telegram", "https://t.me/f", "/nonexistent-signalist-dir/photo.jpg").unwrap();
    assert_eq!(a.id, 1);
    assert_eq!(a.file_name, "photo.jpg");
    assert_eq!(a.destination, "/nonexistent-signalist-dir/photo.jpg");
    // the same name again is renamed while the first is in flight
    let b = t.request("telegram", "https://t.me/f", "/nonexistent-signalist-dir/photo.jpg").unwrap();
    assert_eq!(b.id, 2);
    assert_eq!(b.destination, "/nonexistent-signalist-dir/photo (1).jpg");
    assert_eq!(b.file_name, "photo (1).jpg");
    let c = t.request("custom-x", "https://x/doc", "/nonexistent-signalist-dir/doc.pdf").unwrap();
    assert_eq!(c.id, 3);
    // finishing goes in request order
    let done = t.finish("telegram", "https://t.me/f", true).unwrap();
    assert_eq!(done.id, 1);
    assert_eq!(done.state, DownloadState::Completed);
    assert_eq!(done.state.as_str(), "completed");
    // the first name is free again
    let d = t.request("whatsapp", "https://w/p", "/nonexistent-signalist-dir/photo.jpg").unwrap();
    assert_eq!(d.destination, "/nonexistent-signalist-dir/photo.jpg");
    assert_eq!(d.id, 4);
    let failed = t.finish("telegram", "https://t.me/f", false).unwrap();
    assert_eq!(failed.id, 2);
    assert_eq!(failed.state.as_str(), "failed");
    assert!(t.finish("telegram", "https://t.me/f", true).is_none());
    // closing a webview fails what it still had in flight
    let abandoned = t.purge("custom-x");
    assert_eq!(abandoned.len(), 1);
    assert_eq!(abandoned[0].id, 3);
    assert_eq!(abandoned[0].file_name, "doc.pdf");
    assert_eq!(abandoned[0].state, DownloadState::Failed);
    assert!(t.purge("custom-x").is_empty());
    assert!(t.finish("custom-x", "https://x/doc", true).is_none());
    let e = t.request("custom-x", "https://x/doc", "/nonexistent-signalist-dir/doc.pdf").unwrap();
    assert_eq!(e.destination, "/nonexistent-signalist-dir/doc.pdf");
    assert_eq!(DownloadState::Downloading.as_str(), "downloading");
}
