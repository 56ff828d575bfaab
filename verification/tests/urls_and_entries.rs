use signalist::messengers::{messenger_navigation, BuiltinMessenger, NavigationDecision};
use signalist::shortcuts::{CustomShortcut, CustomShortcuts, UserMessenger, UserMessengers};
use signalist::urls::{
    allow_custom_navigation, check_browser_url, check_entry_url, is_google_domain, is_http_scheme,
    is_internal_frame_scheme, validate_browser_url, validate_entry_url, UrlParts,
};

const SHORTCUT_GOOGLE: &str =
    "Google services (Gemini, Google, YouTube) are not supported in the embedded window due to Google's policy";

fn parts(scheme: &str, host: Option<&str>) -> UrlParts {
    UrlParts { scheme: scheme.to_string(), host: host.map(|h| h.to_string()) }
}

#[test]
fn google_domains_are_detected() {
    assert!(is_google_domain("google.com"));
    assert!(is_google_domain("mail.google.com"));
    assert!(is_google_domain("www.YouTube.com"));
    assert!(is_google_domain("www.www.googleapis.com"));
    assert!(is_google_domain("lh3.googleusercontent.com"));
    assert!(is_google_domain("WWW.google.com"));
    assert!(is_google_domain("gemini.google.com"));
}

#[test]
fn other_domains_are_not_google() {
    assert!(!is_google_domain("notgoogle.com"));
    assert!(!is_google_domain("google.com.evil.example"));
    assert!(!is_google_domain("linear.app"));
    assert!(!is_google_domain(""));
    assert!(!is_google_domain("youtube.co"));
}

#[test]
fn schemes() {
    assert!(is_http_scheme("https"));
    assert!(is_http_scheme("http"));
    assert!(!is_http_scheme("HTTPS"));
    assert!(!is_http_scheme("ftp"));
    assert!(is_internal_frame_scheme(&parts("about", None)));
    assert!(is_internal_frame_scheme(&parts("blob", None)));
    assert!(!is_internal_frame_scheme(&parts("data", None)));
}

#[test]
fn entry_urls_are_checked_in_order() {
    assert_eq!(validate_entry_url("https://linear.app/team", SHORTCUT_GOOGLE), Ok("linear.app".to_string()));
    assert_eq!(
        validate_entry_url("linear.app", SHORTCUT_GOOGLE),
        Err("Invalid URL: relative URL without a base".to_string())
    );
    assert_eq!(validate_entry_url("mailto:someone@example.com", SHORTCUT_GOOGLE), Err("URL has no host".to_string()));
    assert_eq!(validate_entry_url("https://www.youtube.com/watch", SHORTCUT_GOOGLE), Err(SHORTCUT_GOOGLE.to_string()));
}

#[test]
fn parsed_entry_urls_are_decided_on() {
    let ok: Result<UrlParts, String> = Ok(parts("https", Some("notion.so")));
    assert_eq!(check_entry_url(&ok, "g"), Ok("notion.so".to_string()));
    let no_host: Result<UrlParts, String> = Ok(parts("data", None));
    assert_eq!(check_entry_url(&no_host, "g"), Err("URL has no host".to_string()));
    let google: Result<UrlParts, String> = Ok(parts("https", Some("docs.google.com")));
    assert_eq!(check_entry_url(&google, "g"), Err("g".to_string()));
    let bad: Result<UrlParts, String> = Err("empty host".to_string());
    assert_eq!(check_entry_url(&bad, "g"), Err("Invalid URL: empty host".to_string()));
}

#[test]
fn browser_links_must_be_web_pages() {
    assert_eq!(validate_browser_url("https://example.com/a?b=c"), Ok(()));
    assert_eq!(validate_browser_url("http://example.com"), Ok(()));
    assert_eq!(validate_browser_url("ftp://example.com"), Err("Only HTTP/HTTPS URLs are supported".to_string()));
    assert_eq!(validate_browser_url("file:///etc/passwd"), Err("Only HTTP/HTTPS URLs are supported".to_string()));
    assert_eq!(validate_browser_url("not a url"), Err("Invalid URL".to_string()));
    let parsed: Result<UrlParts, String> = Ok(parts("javascript", None));
    assert_eq!(check_browser_url(&parsed), Err("Only HTTP/HTTPS URLs are supported".to_string()));
}

#[test]
fn custom_webviews_follow_web_pages_and_frames() {
    assert!(allow_custom_navigation(&parts("https", Some("a.b"))));
    assert!(allow_custom_navigation(&parts("about", None)));
    assert!(allow_custom_navigation(&parts("blob", None)));
    assert!(!allow_custom_navigation(&parts("file", None)));
    assert!(!allow_custom_navigation(&parts("tg", Some("resolve"))));
}

#[test]
fn messengers_stay_on_their_domains() {
    let stay = NavigationDecision { allow: true, open_in_browser: false };
    let away = NavigationDecision { allow: false, open_in_browser: true };
    let drop = NavigationDecision { allow: false, open_in_browser: false };
    let t = BuiltinMessenger::Telegram;
    let w = BuiltinMessenger::WhatsApp;
    assert_eq!(messenger_navigation(t, &parts("https", Some("web.telegram.org"))), stay);
    assert_eq!(messenger_navigation(t, &parts("https", Some("t.me"))), stay);
    assert_eq!(messenger_navigation(t, &parts("https", Some("cdn.web.telegram.org"))), stay);
    assert_eq!(messenger_navigation(t, &parts("https", Some("example.com"))), away);
    assert_eq!(messenger_navigation(t, &parts("https", Some("evilt.me"))), away);
    assert_eq!(messenger_navigation(t, &parts("about", None)), stay);
    assert_eq!(messenger_navigation(t, &parts("data", None)), drop);
    assert_eq!(messenger_navigation(t, &parts("ftp", Some("example.com"))), drop);
    assert_eq!(messenger_navigation(w, &parts("https", Some("static.whatsapp.net"))), stay);
    assert_eq!(messenger_navigation(w, &parts("https", Some("web.telegram.org"))), away);
}

fn sc(id: &str, url: &str) -> CustomShortcut {
    CustomShortcut { id: id.to_string(), name: format!("name-{}", id), url: url.to_string(), icon: None, color: None }
}

fn ids(list: &[CustomShortcut]) -> Vec<String> {
    list.iter().map(|s| s.id.clone()).collect()
}

#[test]
fn add_shortcut_checks_url_then_color() {
    let mut list = CustomShortcuts(Vec::new());
    let added = list
        .add_with_id("abc".to_string(), "Linear".to_string(), "https://linear.app".to_string(), Some("lin".to_string()), Some(" #FF0000 ".to_string()))
        .unwrap();
    assert_eq!(added.id, "abc");
    assert_eq!(added.color, Some("#ff0000".to_string()));
    assert_eq!(added.icon, Some("lin".to_string()));
    assert_eq!(list.0.len(), 1);
    let err = list.add_with_id("x".to_string(), "G".to_string(), "https://gemini.google.com".to_string(), None, Some("bad".to_string()));
    assert_eq!(err.err(), Some(SHORTCUT_GOOGLE.to_string()));
    let err = list.add_with_id("x".to_string(), "L".to_string(), "https://linear.app".to_string(), None, Some("bad".to_string()));
    assert_eq!(err.err(), Some("Invalid color: bad (expected #rrggbb)".to_string()));
    assert_eq!(list.0.len(), 1);
}

#[test]
fn add_shortcut_generates_an_id() {
    let mut list = CustomShortcuts(Vec::new());
    let added = list.add("Notion".to_string(), "https://notion.so".to_string(), None, None).unwrap();
    assert!(added.id.len() >= 16);
    assert_eq!(list.0[0].id, added.id);
    assert_eq!(list.list().len(), 1);
}

#[test]
fn update_shortcut_reports_url_change() {
    let mut list = CustomShortcuts(vec![sc("a", "https://a.example"), sc("b", "https://b.example")]);
    let (updated, changed) = list
        .update("b", "B".to_string(), "https://b.example".to_string(), None, Some("#00ff00".to_string()))
        .unwrap();
    assert!(!changed);
    assert_eq!(updated.name, "B");
    assert_eq!(list.0[1].color, Some("#00ff00".to_string()));
    let (_, changed) = list.update("a", "A".to_string(), "https://other.example".to_string(), None, None).unwrap();
    assert!(changed);
    assert_eq!(list.0[0].url, "https://other.example");
    let missing = list.update("zz", "Z".to_string(), "https://z.example".to_string(), None, None);
    assert_eq!(missing.err(), Some("Shortcut not found: zz".to_string()));
    let bad = list.update("a", "A".to_string(), "nope".to_string(), None, None);
    assert_eq!(bad.err(), Some("Invalid URL: relative URL without a base".to_string()));
}

#[test]
fn remove_shortcut_drops_every_copy() {
    let mut list = CustomShortcuts(vec![sc("a", "https://a.x"), sc("b", "https://b.x"), sc("a", "https://c.x")]);
    list.remove_id("a");
    assert_eq!(ids(&list.0), vec!["b".to_string()]);
    list.remove_id("missing");
    assert_eq!(ids(&list.0), vec!["b".to_string()]);
}

#[test]
fn reorder_follows_ids() {
    let mut list = CustomShortcuts(vec![sc("a", "https://a.x"), sc("b", "https://b.x"), sc("c", "https://c.x")]);
    let out = list.reorder(&vec!["c".to_string(), "a".to_string(), "b".to_string()]).unwrap();
    assert_eq!(ids(&out), vec!["c", "a", "b"]);
    assert_eq!(ids(&list.0), vec!["c", "a", "b"]);
    assert_eq!(list.0[0].url, "https://c.x");
}

#[test]
fn reorder_refuses_wrong_length() {
    let mut list = CustomShortcuts(vec![sc("a", "https://a.x"), sc("b", "https://b.x")]);
    let r = list.reorder(&vec!["a".to_string()]);
    assert_eq!(r.err(), Some("Expected 2 ids, got 1".to_string()));
    assert_eq!(ids(&list.0), vec!["a", "b"]);
}

#[test]
fn reorder_refuses_unknown_or_duplicated_ids() {
    let mut list = CustomShortcuts(vec![sc("a", "https://a.x"), sc("b", "https://b.x")]);
    let r = list.reorder(&vec!["a".to_string(), "a".to_string()]);
    assert_eq!(r.err(), Some("Unknown or duplicated shortcut id: a".to_string()));
    let r = list.reorder(&vec!["z".to_string(), "a".to_string()]);
    assert_eq!(r.err(), Some("Unknown or duplicated shortcut id: z".to_string()));
    assert_eq!(ids(&list.0), vec!["a", "b"]);
}

#[test]
fn reorder_keeps_order_among_equal_ids() {
    let mut list = CustomShortcuts(vec![sc("a", "https://1.x"), sc("b", "https://2.x"), sc("a", "https://3.x")]);
    let out = list.reorder(&vec!["a".to_string(), "a".to_string(), "b".to_string()]).unwrap();
    let urls: Vec<String> = out.iter().map(|s| s.url.clone()).collect();
    assert_eq!(urls, vec!["https://1.x", "https://3.x", "https://2.x"]);
}

fn um(id: &str, preload: bool) -> UserMessenger {
    UserMessenger { id: id.to_string(), name: format!("m-{}", id), url: "https://app.slack.com".to_string(), icon: None, preload }
}

#[test]
fn user_messengers_are_added_and_edited() {
    let mut list = UserMessengers(Vec::new());
    let m = list.add_with_id("s1".to_string(), "Slack".to_string(), "https://app.slack.com".to_string(), None, None).unwrap();
    assert!(!m.preload);
    let m2 = list.add_with_id("d1".to_string(), "Discord".to_string(), "https://discord.com/app".to_string(), None, Some(true)).unwrap();
    assert!(m2.preload);
    let refused = list.add_with_id("g".to_string(), "YT".to_string(), "https://youtube.com".to_string(), None, None);
    assert_eq!(refused.err(), Some("Google services are not supported in the embedded window".to_string()));
    assert_eq!(list.set_preload("s1", true), Ok(()));
    assert!(list.0[0].preload);
    assert_eq!(list.set_preload("nope", true), Err("Unknown messenger: nope".to_string()));
    list.remove_id("s1");
    assert_eq!(list.list().len(), 1);
    assert_eq!(list.0[0].id, "d1");
    let fresh = list.add("X".to_string(), "https://x.com".to_string(), None, Some(false)).unwrap();
    assert!(fresh.id.len() >= 16);
    let _ = um("z", false);
}

#[test]
fn google_domains_ignore_ascii_case() {
    for host in ["www.google.com", "mail.google.com", "WWW.YouTube.com", "example.com", "www.example.org", "wwwgoogle.com"] {
        let verdict = is_google_domain(host);
        assert_eq!(is_google_domain(&host.to_ascii_uppercase()), verdict, "{}", host);
        assert_eq!(is_google_domain(&host.to_ascii_lowercase()), verdict, "{}", host);
    }
    assert!(is_google_domain("WWW.GOOGLE.COM"));
    assert!(!is_google_domain("WWW.EXAMPLE.COM"));
}
