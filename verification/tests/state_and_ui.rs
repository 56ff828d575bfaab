use signalist::messengers::{
    builtin_messengers, find_messenger, require_messenger, startup_preload_plan, webview_not_created_error, BuiltinMessenger,
    BuiltinPreload,
};
use signalist::shortcuts::{CustomShortcut, CustomShortcuts, UserMessenger, UserMessengers};
use signalist::tray::{accelerator_label, build_tray_menu, tray_menu_action, MenuEntry, TrayAction};
use signalist::unread::{NotifyState, NotifyTracker, UnreadCounts, UnreadUpdate};
use signalist::window::{
    confirm_delete_window, edit_shortcut_window_url, hide_plan, reposition_targets, should_forward_theme, step_message,
    webview_step, window_toggle, ActiveMessenger, DockHidden, SilenceMode, WebviewStep, WindowToggle,
};

fn sc(id: &str, name: &str) -> CustomShortcut {
    CustomShortcut { id: id.to_string(), name: name.to_string(), url: format!("https://{}.example", id), icon: None, color: None }
}

fn um(id: &str, name: &str, preload: bool) -> UserMessenger {
    UserMessenger { id: id.to_string(), name: name.to_string(), url: format!("https://{}.chat", id), icon: None, preload }
}

#[test]
fn builtin_messengers_in_order() {
    let all = builtin_messengers();
    assert_eq!(all, vec![BuiltinMessenger::Telegram, BuiltinMessenger::WhatsApp]);
    assert_eq!(all[0].label(), "telegram");
    assert_eq!(all[1].display_name(), "WhatsApp");
    assert_eq!(all[0].url(), "https://web.telegram.org/a/");
    assert_eq!(all[1].allowed_domains(), vec!["web.whatsapp.com", "whatsapp.com", "whatsapp.net"]);
    assert_eq!(all[1].data_store_id(), [1, 0, 0, 0, 0, 0, 0, 0, 0, 0, 0, 0, 0, 0, 0, 2]);
    for m in all {
        assert_eq!(find_messenger(m.label()), Some(m));
    }
    assert_eq!(find_messenger("Telegram"), None);
    assert_eq!(require_messenger("signal").err(), Some("Unknown messenger: signal".to_string()));
    assert_eq!(
        webview_not_created_error("telegram"),
        "telegram webview not created yet. Call open_messenger first."
    );
}

#[test]
fn builtin_preload_defaults_on() {
    let mut p = BuiltinPreload::new();
    assert!(p.enabled("telegram"));
    assert!(p.enabled("anything"));
    assert_eq!(p.set("whatsapp".to_string(), false), Ok(()));
    assert!(!p.enabled("whatsapp"));
    assert_eq!(p.set("slack".to_string(), false), Err("Unknown messenger: slack".to_string()));
    assert_eq!(p.flags(), vec![("telegram".to_string(), true), ("whatsapp".to_string(), false)]);
    assert_eq!(p.set("whatsapp".to_string(), true), Ok(()));
    assert_eq!(p.flags(), vec![("telegram".to_string(), true), ("whatsapp".to_string(), true)]);
}

#[test]
fn startup_plan_opens_first_preloaded_builtin() {
    let users = UserMessengers(vec![um("a", "A", true), um("b", "B", false), um("c", "C", true)]);
    let plan = startup_preload_plan(&BuiltinPreload::new(), &users);
    assert_eq!(plan.active, "telegram");
    assert_eq!(plan.hidden_builtins, vec!["whatsapp".to_string()]);
    assert_eq!(
        plan.user_targets,
        vec![("a".to_string(), "https://a.chat".to_string()), ("c".to_string(), "https://c.chat".to_string())]
    );
}

#[test]
fn startup_plan_without_preloads_still_opens_telegram() {
    let mut flags = BuiltinPreload::new();
    flags.set("telegram".to_string(), false).unwrap();
    let plan = startup_preload_plan(&flags, &UserMessengers(Vec::new()));
    assert_eq!(plan.active, "whatsapp");
    assert!(plan.hidden_builtins.is_empty());
    flags.set("whatsapp".to_string(), false).unwrap();
    let plan = startup_preload_plan(&flags, &UserMessengers(Vec::new()));
    assert_eq!(plan.active, "telegram");
    assert!(plan.hidden_builtins.is_empty());
    assert!(plan.user_targets.is_empty());
}

#[test]
fn unread_counts_are_recorded_and_capped() {
    let mut counts = UnreadCounts::new();
    assert!(counts.all_read());
    assert_eq!(counts.update("slack", 3), UnreadUpdate::Rejected);
    assert_eq!(counts.update("telegram", 0), UnreadUpdate::Unchanged);
    assert_eq!(counts.update("telegram", 3), UnreadUpdate::Changed { previous: 0, count: 3 });
    assert_eq!(counts.update("telegram", 3), UnreadUpdate::Unchanged);
    assert!(!counts.all_read());
    assert_eq!(counts.update("whatsapp", 25_000), UnreadUpdate::Changed { previous: 0, count: 10_000 });
    assert_eq!(counts.count("whatsapp"), 10_000);
    assert_eq!(counts.update("whatsapp", 10_001), UnreadUpdate::Unchanged);
    assert_eq!(counts.update("telegram", 0), UnreadUpdate::Changed { previous: 3, count: 0 });
    assert_eq!(counts.update("whatsapp", 0), UnreadUpdate::Changed { previous: 10_000, count: 0 });
    assert!(counts.all_read());
}

#[test]
fn rising_counts_start_one_debounce_task() {
    let mut t = NotifyTracker::new();
    assert!(t.on_count_change("telegram", 2, 0));
    assert_eq!(t.state("telegram"), NotifyState { last_notified: 0, pending_gen: 1, in_flight: true, last_shown_ms: None });
    // a second rise while the task sleeps only bumps the generation
    assert!(!t.on_count_change("telegram", 3, 2));
    assert_eq!(t.pending_gen("telegram"), 2);
    t.release("telegram");
    assert!(!t.state("telegram").in_flight);
    assert_eq!(t.pending_gen("whatsapp"), 0);
}

#[test]
fn drops_lower_the_baseline() {
    let mut t = NotifyTracker::new();
    assert!(t.on_count_change("telegram", 5, 0));
    let n = t.claim_notification("telegram", 5, false, false, 1_000).unwrap();
    assert_eq!(n.title, "New message on Telegram");
    assert_eq!(n.body, "You have 5 unread messages");
    assert_eq!(t.state("telegram").last_notified, 5);
    // already announced counts do nothing
    assert!(!t.on_count_change("telegram", 5, 4));
    assert!(t.claim_notification("telegram", 5, false, false, 9_000).is_none());
    // a drop re-arms
    assert!(!t.on_count_change("telegram", 1, 5));
    assert_eq!(t.state("telegram").last_notified, 1);
    assert_eq!(t.state("telegram").pending_gen, 2);
    t.release("telegram");
    assert!(t.on_count_change("telegram", 2, 1));
    let n = t.claim_notification("telegram", 2, false, false, 9_000).unwrap();
    assert_eq!(n.body, "You have 2 unread messages");
}

#[test]
fn notifications_are_held_back() {
    let mut t = NotifyTracker::new();
    assert!(t.claim_notification("whatsapp", 0, false, false, 1_000).is_none());
    assert!(t.claim_notification("whatsapp", 4, true, false, 1_000).is_none());
    assert!(t.claim_notification("whatsapp", 4, false, true, 1_000).is_none());
    assert_eq!(t.state("whatsapp").last_notified, 0);
    let n = t.claim_notification("whatsapp", 1, false, false, 1_000).unwrap();
    assert_eq!(n.title, "New message on WhatsApp");
    assert_eq!(n.body, "You have 1 unread message");
    let n = t.claim_notification("custom-x", 7, false, false, 1_000).unwrap();
    assert_eq!(n.title, "New message on custom-x");
}

#[test]
fn notifications_keep_a_five_second_cooldown() {
    let mut t = NotifyTracker::new();
    assert!(t.on_count_change("telegram", 1, 0));
    let n = t.claim_notification("telegram", 1, false, false, 10_000).unwrap();
    assert_eq!(n.body, "You have 1 unread message");
    assert_eq!(t.state("telegram").last_shown_ms, Some(10_000));
    t.release("telegram");
    // a rise right after the notification is held back
    assert!(t.on_count_change("telegram", 2, 1));
    assert!(t.claim_notification("telegram", 2, false, false, 14_999).is_none());
    assert_eq!(t.state("telegram").last_notified, 1);
    assert_eq!(t.state("telegram").last_shown_ms, Some(10_000));
    // the cooldown is per messenger
    assert!(t.claim_notification("whatsapp", 3, false, false, 11_000).is_some());
    // once five seconds have passed the rise is announced
    let n = t.claim_notification("telegram", 2, false, false, 15_000).unwrap();
    assert_eq!(n.body, "You have 2 unread messages");
    assert_eq!(t.state("telegram").last_shown_ms, Some(15_000));
}

#[test]
fn hotkey_is_shown_with_cmd() {
    assert_eq!(accelerator_label("Super+Shift+S"), "Cmd+Shift+S");
    assert_eq!(accelerator_label("SuperSuper+K"), "CmdCmd+K");
    assert_eq!(accelerator_label("Supe+K"), "Supe+K");
    assert_eq!(accelerator_label(""), "");
}

fn item(e: &MenuEntry) -> (String, String, Option<String>) {
    match e {
        MenuEntry::Item { id, text, accelerator } => (id.clone(), text.clone(), accelerator.clone()),
        MenuEntry::Separator => ("-".to_string(), "-".to_string(), None),
    }
}

#[test]
fn tray_menu_lists_everything() {
    let mut counts = UnreadCounts::new();
    counts.update("whatsapp", 2);
    let users = UserMessengers(vec![um("u1", "Slack", false)]);
    let shortcuts = CustomShortcuts(vec![sc("s1", "Linear")]);
    let menu = build_tray_menu(&counts, &users, &shortcuts, "Super+Shift+S", false);
    let lines: Vec<(String, String, Option<String>)> = menu.iter().map(item).collect();
    assert_eq!(lines.len(), 10);
    assert_eq!(lines[0], ("telegram".to_string(), "○  Telegram".to_string(), None));
    assert_eq!(lines[1], ("whatsapp".to_string(), "◉  WhatsApp".to_string(), None));
    assert_eq!(lines[2], ("custom-u1".to_string(), "○  Slack".to_string(), None));
    assert_eq!(lines[3], ("custom-s1".to_string(), "○  Linear".to_string(), None));
    assert_eq!(lines[4].0, "-");
    assert_eq!(lines[5], ("toggle_window".to_string(), "⧉  Show/Hide".to_string(), Some("Cmd+Shift+S".to_string())));
    assert_eq!(lines[7], ("toggle_dock".to_string(), "▭  Hide in Dock".to_string(), None));
    assert_eq!(lines[9], ("quit".to_string(), "⏻  Quit".to_string(), Some("Cmd+Q".to_string())));
    let hidden = build_tray_menu(&counts, &users, &shortcuts, "Super+Shift+S", true);
    assert_eq!(item(&hidden[7]).1, "▭  Show in Dock");
}

#[test]
fn tray_clicks_are_dispatched() {
    let users = UserMessengers(vec![um("u1", "Slack", false), um("dup", "Dup", false)]);
    let shortcuts = CustomShortcuts(vec![sc("s1", "Linear"), sc("dup", "First")]);
    assert!(matches!(tray_menu_action("telegram", &shortcuts, &users), TrayAction::OpenMessenger(m) if m == "telegram"));
    assert!(matches!(
        tray_menu_action("custom-u1", &shortcuts, &users),
        TrayAction::OpenCustom(Some((id, url))) if id == "u1" && url == "https://u1.chat"
    ));
    // a shortcut wins over a user messenger with the same id
    assert!(matches!(
        tray_menu_action("custom-dup", &shortcuts, &users),
        TrayAction::OpenCustom(Some((id, url))) if id == "dup" && url == "https://dup.example"
    ));
    assert!(matches!(tray_menu_action("custom-gone", &shortcuts, &users), TrayAction::OpenCustom(None)));
    assert!(matches!(tray_menu_action("toggle_window", &shortcuts, &users), TrayAction::ToggleWindow));
    assert!(matches!(tray_menu_action("toggle_dock", &shortcuts, &users), TrayAction::ToggleDock));
    assert!(matches!(tray_menu_action("quit", &shortcuts, &users), TrayAction::Quit));
    assert!(matches!(tray_menu_action("slack", &shortcuts, &users), TrayAction::Nothing));
}

#[test]
fn window_toggle_cases() {
    assert_eq!(window_toggle(true, true, true), WindowToggle::Nothing);
    assert_eq!(window_toggle(true, true, false), WindowToggle::Focus);
    assert_eq!(window_toggle(false, true, true), WindowToggle::Hide);
    assert_eq!(window_toggle(false, true, false), WindowToggle::Focus);
    assert_eq!(window_toggle(false, false, false), WindowToggle::Show);
    assert_eq!(window_toggle(false, false, true), WindowToggle::Show);
}

#[test]
fn small_settings() {
    let mut dock = DockHidden(false);
    assert!(dock.toggle());
    assert!(dock.0);
    assert!(!dock.toggle());
    let mut silence = SilenceMode(false);
    assert!(!silence.set(false));
    assert!(silence.set(true));
    assert!(silence.0);
    assert!(!silence.set(true));
}

#[test]
fn theme_comes_only_from_the_active_view() {
    assert!(!should_forward_theme(&ActiveMessenger(String::new()), ""));
    assert!(should_forward_theme(&ActiveMessenger("telegram".to_string()), "telegram"));
    assert!(!should_forward_theme(&ActiveMessenger("telegram".to_string()), "whatsapp"));
}

#[test]
fn hiding_and_repositioning_plans() {
    let users = UserMessengers(vec![um("u1", "Slack", false)]);
    let shortcuts = CustomShortcuts(vec![sc("s1", "Linear"), sc("s2", "Notion")]);
    let plan = hide_plan(&users, &shortcuts);
    assert_eq!(plan.hide_only, vec!["telegram", "whatsapp"]);
    assert_eq!(plan.hide_and_shrink, vec!["custom-u1", "custom-s1", "custom-s2"]);
    assert_eq!(reposition_targets(&ActiveMessenger("custom-s2".to_string())), vec!["telegram", "whatsapp", "custom-s2"]);
    assert_eq!(reposition_targets(&ActiveMessenger("whatsapp".to_string())), vec!["telegram", "whatsapp"]);
    assert_eq!(reposition_targets(&ActiveMessenger(String::new())), vec!["telegram", "whatsapp"]);
}

#[test]
fn webview_steps_and_reports() {
    assert_eq!(webview_step(true, false), WebviewStep::AlreadyLoaded);
    assert_eq!(webview_step(true, true), WebviewStep::FocusExisting);
    assert_eq!(webview_step(false, false), WebviewStep::Preload);
    assert_eq!(webview_step(false, true), WebviewStep::Create);
    assert_eq!(step_message(WebviewStep::AlreadyLoaded, "telegram"), "telegram already loaded");
    assert_eq!(step_message(WebviewStep::FocusExisting, "custom-a"), "Focused existing custom-a");
    assert_eq!(step_message(WebviewStep::Preload, "whatsapp"), "Preloaded whatsapp");
    assert_eq!(step_message(WebviewStep::Create, "telegram"), "Created telegram");
}

#[test]
fn dialog_windows() {
    assert_eq!(edit_shortcut_window_url("abc"), Ok("index.html?view=edit-shortcut&id=abc".to_string()));
    assert_eq!(edit_shortcut_window_url("a&b"), Err("Invalid id".to_string()));
    let w = confirm_delete_window("shortcut", "abc").unwrap();
    assert_eq!(w.label, "confirm-delete-abc");
    assert_eq!(w.url, "index.html?view=confirm-delete&kind=shortcut&id=abc");
    assert_eq!(w.title, "Delete Shortcut");
    let w = confirm_delete_window("messenger", "x1").unwrap();
    assert_eq!(w.title, "Delete Messenger");
    assert_eq!(confirm_delete_window("folder", "abc").err(), Some("Unknown delete target kind: folder".to_string()));
    assert_eq!(confirm_delete_window("shortcut", "").err(), Some("Invalid id".to_string()));
}

#[test]
fn no_notification_within_five_seconds_whatever_happens_between() {
    let mut t = NotifyTracker::new();
    assert!(t.on_count_change("whatsapp", 1, 0));
    assert!(t.claim_notification("whatsapp", 1, false, false, 100_000).is_some());
    t.release("whatsapp");
    // drops, rises, releases and claims, all before 105 000 ms
    assert!(!t.on_count_change("whatsapp", 0, 1));
    assert!(t.on_count_change("whatsapp", 3, 0));
    assert!(t.claim_notification("whatsapp", 3, false, false, 101_000).is_none());
    t.release("whatsapp");
    assert!(!t.on_count_change("whatsapp", 2, 3));
    assert!(t.on_count_change("whatsapp", 9, 2));
    assert!(t.claim_notification("whatsapp", 9, false, false, 104_999).is_none());
    assert_eq!(t.state("whatsapp").last_shown_ms, Some(100_000));
    assert!(t.claim_notification("whatsapp", 9, false, false, 105_000).is_some());
}
