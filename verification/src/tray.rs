use vstd::prelude::*;
use vstd::string::*;
use crate::ids::{is_custom_label, webview_label_of};
use crate::messengers::{display_name_of, label_of, BuiltinMessenger};
use crate::shortcuts::{CustomShortcuts, ShortcutView, UserMessengerView, UserMessengers};
use crate::text::{chars_of, eq_chars, matches_at, push_chars, push_str, starts_with, str_eq, string_of};
use crate::unread::{count_in, UnreadCounts};

verus! {

// ---------------------------------------------------------------------------
// Accelerator text
// ---------------------------------------------------------------------------

/// `s` with every `Super` replaced by `Cmd`, scanning left to right, as
/// `str::replace("Super", "Cmd")` does.
pub open spec fn super_to_cmd(s: Seq<char>) -> Seq<char>
    decreases s.len(),
{
    if s.len() == 0 {
        s
    } else if s.len() >= 5 && s.subrange(0, 5) == seq!['S', 'u', 'p', 'e', 'r'] {
        seq!['C', 'm', 'd'] + super_to_cmd(s.skip(5))
    } else {
        seq![s[0]] + super_to_cmd(s.skip(1))
    }
}

/// The accelerator text the tray shows for a hotkey.
pub fn accelerator_label(hotkey: &str) -> (r: String)
    ensures
        r@ == super_to_cmd(hotkey@),
{
    let s = chars_of(hotkey);
    let pat = vec!['S', 'u', 'p', 'e', 'r'];
    let mut out: Vec<char> = Vec::new();
    let mut i: usize = 0;
    assert(s@.skip(0) =~= s@);
    while i < s.len()
        invariant
            i <= s.len(),
            pat@ == seq!['S', 'u', 'p', 'e', 'r'],
            super_to_cmd(s@) == out@ + super_to_cmd(s@.skip(i as int)),
        decreases s.len() - i,
    {
        let ghost t = s@.skip(i as int);
        if s.len() - i >= 5 && matches_at(&s, i, &pat) {
            assert(t.subrange(0, 5) =~= s@.subrange(i as int, i + 5));
            assert(t.skip(5) =~= s@.skip(i + 5));
            out.push('C');
            out.push('m');
            out.push('d');
            i = i + 5;
            assert(out@ + super_to_cmd(s@.skip(i as int)) =~= out@.subrange(0, out@.len() - 3) + (seq!['C', 'm', 'd'] + super_to_cmd(t.skip(5))));
        } else {
            proof {
                if t.len() >= 5 {
                    assert(t.subrange(0, 5) =~= s@.subrange(i as int, i + 5));
                }
                assert(t.skip(1) =~= s@.skip(i + 1));
            }
            out.push(s[i]);
            i = i + 1;
            assert(out@ + super_to_cmd(s@.skip(i as int)) =~= out@.drop_last() + (seq![t[0]] + super_to_cmd(t.skip(1))));
        }
    }
    assert(s@.skip(i as int) =~= Seq::<char>::empty());
    assert(out@ + Seq::<char>::empty() =~= out@);
    string_of(&out)
}

// ---------------------------------------------------------------------------
// The tray menu
// ---------------------------------------------------------------------------

/// One line of the tray menu.
pub enum MenuEntry {
    Item { id: String, text: String, accelerator: Option<String> },
    Separator,
}

/// One line of the tray menu, as text.
pub enum MenuEntryView {
    Item { id: Seq<char>, text: Seq<char>, accelerator: Option<Seq<char>> },
    Separator,
}

impl View for MenuEntry {
    type V = MenuEntryView;

    open spec fn view(&self) -> MenuEntryView {
        match self {
            MenuEntry::Item { id, text, accelerator } => MenuEntryView::Item {
                id: id@,
                text: text@,
                accelerator: crate::urls::opt_view(*accelerator),
            },
            MenuEntry::Separator => MenuEntryView::Separator,
        }
    }
}

/// The line of a built-in messenger: a filled dot when it has unread messages.
pub open spec fn messenger_line(m: BuiltinMessenger, counts: Map<Seq<char>, u32>) -> MenuEntryView {
    MenuEntryView::Item {
        id: label_of(m),
        text: (if count_in(counts, label_of(m)) > 0 { "◉"@ } else { "○"@ }) + "  "@ + display_name_of(m),
        accelerator: None,
    }
}

/// The line of a user messenger or shortcut: its webview label and its name.
pub open spec fn entry_line(id: Seq<char>, name: Seq<char>) -> MenuEntryView {
    MenuEntryView::Item { id: webview_label_of(id), text: "○  "@ + name, accelerator: None }
}

/// The whole tray menu: the built-in messengers, the user messengers, the
/// shortcuts, then Show/Hide with the hotkey, the Dock toggle, and Quit.
pub open spec fn tray_menu_spec(
    counts: Map<Seq<char>, u32>,
    users: Seq<UserMessengerView>,
    shortcuts: Seq<ShortcutView>,
    hotkey: Seq<char>,
    dock_hidden: bool,
) -> Seq<MenuEntryView> {
    seq![messenger_line(BuiltinMessenger::Telegram, counts), messenger_line(BuiltinMessenger::WhatsApp, counts)]
        + users.map_values(|m: UserMessengerView| entry_line(m.id, m.name))
        + shortcuts.map_values(|s: ShortcutView| entry_line(s.id, s.name))
        + seq![
            MenuEntryView::Separator,
            MenuEntryView::Item { id: "toggle_window"@, text: "⧉  Show/Hide"@, accelerator: Some(super_to_cmd(hotkey)) },
            MenuEntryView::Separator,
            MenuEntryView::Item {
                id: "toggle_dock"@,
                text: if dock_hidden { "▭  Show in Dock"@ } else { "▭  Hide in Dock"@ },
                accelerator: None,
            },
            MenuEntryView::Separator,
            MenuEntryView::Item { id: "quit"@, text: "⏻  Quit"@, accelerator: Some("Cmd+Q"@) },
        ]
}

/// The id of a menu line and the first character of its text.
pub open spec fn line_mark(e: MenuEntryView) -> Option<(Seq<char>, char)> {
    match e {
        MenuEntryView::Item { id, text, .. } => if text.len() > 0 {
            Some((id, text[0]))
        } else {
            None
        },
        MenuEntryView::Separator => None,
    }
}

/// Unread messages are recorded for `label`.
pub open spec fn has_unread(counts: Map<Seq<char>, u32>, label: Seq<char>) -> bool {
    counts.contains_key(label) && counts[label] != 0
}

/// The tray's first two lines are Telegram and WhatsApp, each marked with a
/// filled dot exactly when unread messages are recorded for it and an empty
/// dot otherwise; when nothing is unread anywhere, both dots are empty.
pub proof fn lemma_tray_dots_mark_unread(
    counts: Map<Seq<char>, u32>,
    users: Seq<UserMessengerView>,
    shortcuts: Seq<ShortcutView>,
    hotkey: Seq<char>,
    dock_hidden: bool,
)
    ensures
        line_mark(tray_menu_spec(counts, users, shortcuts, hotkey, dock_hidden)[0]) == Some(
            ("telegram"@, if has_unread(counts, "telegram"@) { '◉' } else { '○' }),
        ),
        line_mark(tray_menu_spec(counts, users, shortcuts, hotkey, dock_hidden)[1]) == Some(
            ("whatsapp"@, if has_unread(counts, "whatsapp"@) { '◉' } else { '○' }),
        ),
        (forall|k: Seq<char>| #[trigger] counts.contains_key(k) ==> counts[k] == 0) ==> {
            &&& line_mark(tray_menu_spec(counts, users, shortcuts, hotkey, dock_hidden)[0]) == Some(("telegram"@, '○'))
            &&& line_mark(tray_menu_spec(counts, users, shortcuts, hotkey, dock_hidden)[1]) == Some(("whatsapp"@, '○'))
        },
{
    reveal_strlit("◉");
    reveal_strlit("○");
    let menu = tray_menu_spec(counts, users, shortcuts, hotkey, dock_hidden);
    assert(menu[0] == messenger_line(BuiltinMessenger::Telegram, counts));
    assert(menu[1] == messenger_line(BuiltinMessenger::WhatsApp, counts));
    let t = if count_in(counts, "telegram"@) > 0 { "◉"@ } else { "○"@ };
    let w = if count_in(counts, "whatsapp"@) > 0 { "◉"@ } else { "○"@ };
    assert((t + "  "@ + "Telegram"@)[0] == t[0]);
    assert((w + "  "@ + "WhatsApp"@)[0] == w[0]);
}

/// The view of a list of menu lines.
pub open spec fn menu_view(v: Seq<MenuEntry>) -> Seq<MenuEntryView> {
    v.map_values(|e: MenuEntry| e@)
}

fn builtin_line(m: BuiltinMessenger, counts: &UnreadCounts) -> (r: MenuEntry)
    ensures
        r@ == messenger_line(m, counts@),
{
    let mut text: Vec<char> = Vec::new();
    if counts.count(m.label()) > 0 {
        push_str(&mut text, "◉");
    } else {
        push_str(&mut text, "○");
    }
    push_str(&mut text, "  ");
    push_str(&mut text, m.display_name());
    MenuEntry::Item { id: String::from_str(m.label()), text: string_of(&text), accelerator: None }
}

fn named_line(id: &str, name: &str) -> (r: MenuEntry)
    ensures
        r@ == entry_line(id@, name@),
{
    let mut text: Vec<char> = Vec::new();
    push_str(&mut text, "○  ");
    push_str(&mut text, name);
    MenuEntry::Item { id: crate::ids::custom_webview_label(id), text: string_of(&text), accelerator: None }
}

/// The tray menu for the current state.
pub fn build_tray_menu(counts: &UnreadCounts, users: &UserMessengers, shortcuts: &CustomShortcuts, hotkey: &str, dock_hidden: bool) -> (r: Vec<MenuEntry>)
    ensures
        menu_view(r@) == tray_menu_spec(counts@, users@, shortcuts@, hotkey@, dock_hidden),
{
    let mut menu: Vec<MenuEntry> = Vec::new();
    menu.push(builtin_line(BuiltinMessenger::Telegram, counts));
    menu.push(builtin_line(BuiltinMessenger::WhatsApp, counts));
    let ghost head = menu_view(menu@);
    assert(head =~= seq![messenger_line(BuiltinMessenger::Telegram, counts@), messenger_line(BuiltinMessenger::WhatsApp, counts@)]);
    let nu = users.0.len();
    for i in 0..nu
        invariant
            nu == users.0@.len(),
            menu_view(menu@) == head + users@.take(i as int).map_values(|m: UserMessengerView| entry_line(m.id, m.name)),
    {
        let ghost before = menu_view(menu@);
        let line = named_line(users.0[i].id.as_str(), users.0[i].name.as_str());
        let ghost lv = line@;
        menu.push(line);
        assert(menu_view(menu@) =~= before.push(lv));
        assert(users@.take(i + 1) =~= users@.take(i as int).push(users@[i as int]));
        assert(users@.take(i + 1).map_values(|m: UserMessengerView| entry_line(m.id, m.name)) =~= users@.take(i as int).map_values(|m: UserMessengerView| entry_line(m.id, m.name)).push(lv));
        assert(menu_view(menu@) =~= head + users@.take(i + 1).map_values(|m: UserMessengerView| entry_line(m.id, m.name)));
    }
    assert(users@.take(nu as int) =~= users@);
    let ghost mid = menu_view(menu@);
    let ns = shortcuts.0.len();
    for i in 0..ns
        invariant
            ns == shortcuts.0@.len(),
            menu_view(menu@) == mid + shortcuts@.take(i as int).map_values(|s: ShortcutView| entry_line(s.id, s.name)),
    {
        let ghost before = menu_view(menu@);
        let line = named_line(shortcuts.0[i].id.as_str(), shortcuts.0[i].name.as_str());
        let ghost lv = line@;
        menu.push(line);
        assert(menu_view(menu@) =~= before.push(lv));
        assert(shortcuts@.take(i + 1) =~= shortcuts@.take(i as int).push(shortcuts@[i as int]));
        assert(shortcuts@.take(i + 1).map_values(|s: ShortcutView| entry_line(s.id, s.name)) =~= shortcuts@.take(i as int).map_values(|s: ShortcutView| entry_line(s.id, s.name)).push(lv));
        assert(menu_view(menu@) =~= mid + shortcuts@.take(i + 1).map_values(|s: ShortcutView| entry_line(s.id, s.name)));
    }
    assert(shortcuts@.take(ns as int) =~= shortcuts@);
    let ghost body = menu_view(menu@);
    menu.push(MenuEntry::Separator);
    menu.push(MenuEntry::Item {
        id: String::from_str("toggle_window"),
        text: String::from_str("⧉  Show/Hide"),
        accelerator: Some(accelerator_label(hotkey)),
    });
    menu.push(MenuEntry::Separator);
    let dock_text = if dock_hidden { String::from_str("▭  Show in Dock") } else { String::from_str("▭  Hide in Dock") };
    menu.push(MenuEntry::Item { id: String::from_str("toggle_dock"), text: dock_text, accelerator: None });
    menu.push(MenuEntry::Separator);
    menu.push(MenuEntry::Item { id: String::from_str("quit"), text: String::from_str("⏻  Quit"), accelerator: Some(String::from_str("Cmd+Q")) });
    assert(menu_view(menu@) =~= tray_menu_spec(counts@, users@, shortcuts@, hotkey@, dock_hidden));
    menu
}


// ---------------------------------------------------------------------------
// Tray menu clicks
// ---------------------------------------------------------------------------

/// What a click on a tray menu line asks for.
pub enum TrayAction {
    /// Show the main window and open this built-in messenger.
    OpenMessenger(String),
    /// Show the main window and, when the line still names an entry, open it
    /// (its id and URL).
    OpenCustom(Option<(String, String)>),
    ToggleWindow,
    ToggleDock,
    Quit,
    Nothing,
}

/// The first element of `s` that satisfies `p`.
pub open spec fn first_match<T>(s: Seq<T>, p: spec_fn(T) -> bool) -> Option<T>
    decreases s.len(),
{
    if s.len() == 0 {
        None
    } else if p(s[0]) {
        Some(s[0])
    } else {
        first_match(s.drop_first(), p)
    }
}

/// Whose webview carries this label.
pub open spec fn shortcut_with_label(label: Seq<char>) -> spec_fn(ShortcutView) -> bool {
    |s: ShortcutView| webview_label_of(s.id) == label
}

/// Whose webview carries this label.
pub open spec fn messenger_with_label(label: Seq<char>) -> spec_fn(UserMessengerView) -> bool {
    |m: UserMessengerView| webview_label_of(m.id) == label
}

/// The entry a custom line opens: the first shortcut with that webview label,
/// else the first user messenger with it.
pub open spec fn custom_target(label: Seq<char>, shortcuts: Seq<ShortcutView>, users: Seq<UserMessengerView>) -> Option<(Seq<char>, Seq<char>)> {
    match first_match(shortcuts, shortcut_with_label(label)) {
        Some(s) => Some((s.id, s.url)),
        None => match first_match(users, messenger_with_label(label)) {
            Some(m) => Some((m.id, m.url)),
            None => None,
        },
    }
}

/// The view of an optional id/URL pair.
pub open spec fn target_view(t: Option<(String, String)>) -> Option<(Seq<char>, Seq<char>)> {
    match t {
        Some((a, b)) => Some((a@, b@)),
        None => None,
    }
}

/// What a click on the line with this id asks for.
pub open spec fn tray_action_spec(id: Seq<char>, shortcuts: Seq<ShortcutView>, users: Seq<UserMessengerView>, action: TrayAction) -> bool {
    if id == "telegram"@ || id == "whatsapp"@ {
        action matches TrayAction::OpenMessenger(m) && m@ == id
    } else if starts_with(id, "custom-"@) {
        action matches TrayAction::OpenCustom(t) && target_view(t) == custom_target(id, shortcuts, users)
    } else if id == "toggle_window"@ {
        action is ToggleWindow
    } else if id == "toggle_dock"@ {
        action is ToggleDock
    } else if id == "quit"@ {
        action is Quit
    } else {
        action is Nothing
    }
}

fn find_shortcut_by_label(label: &str, shortcuts: &CustomShortcuts) -> (r: Option<(String, String)>)
    ensures
        target_view(r) == (match first_match(shortcuts@, shortcut_with_label(label@)) {
            Some(s) => Some((s.id, s.url)),
            None => None,
        }),
{
    let n = shortcuts.0.len();
    let mut i: usize = 0;
    assert(shortcuts@.skip(0) =~= shortcuts@);
    while i < n
        invariant
            i <= n,
            n == shortcuts@.len(),
            first_match(shortcuts@, shortcut_with_label(label@)) == first_match(shortcuts@.skip(i as int), shortcut_with_label(label@)),
        decreases n - i,
    {
        let l = shortcuts.0[i].webview_label();
        let ghost t = shortcuts@.skip(i as int);
        assert(t[0] == shortcuts@[i as int]);
        assert(t.drop_first() =~= shortcuts@.skip(i + 1));
        if str_eq(l.as_str(), label) {
            return Some((shortcuts.0[i].id.clone(), shortcuts.0[i].url.clone()));
        }
        i = i + 1;
    }
    None
}

fn find_messenger_by_label(label: &str, users: &UserMessengers) -> (r: Option<(String, String)>)
    ensures
        target_view(r) == (match first_match(users@, messenger_with_label(label@)) {
            Some(m) => Some((m.id, m.url)),
            None => None,
        }),
{
    let n = users.0.len();
    let mut i: usize = 0;
    assert(users@.skip(0) =~= users@);
    while i < n
        invariant
            i <= n,
            n == users@.len(),
            first_match(users@, messenger_with_label(label@)) == first_match(users@.skip(i as int), messenger_with_label(label@)),
        decreases n - i,
    {
        let l = users.0[i].webview_label();
        let ghost t = users@.skip(i as int);
        assert(t[0] == users@[i as int]);
        assert(t.drop_first() =~= users@.skip(i + 1));
        if str_eq(l.as_str(), label) {
            return Some((users.0[i].id.clone(), users.0[i].url.clone()));
        }
        i = i + 1;
    }
    None
}

/// Decides what a click on a tray menu line does.
pub fn tray_menu_action(id: &str, shortcuts: &CustomShortcuts, users: &UserMessengers) -> (r: TrayAction)
    ensures
        tray_action_spec(id@, shortcuts@, users@, r),
{
    if str_eq(id, "telegram") || str_eq(id, "whatsapp") {
        return TrayAction::OpenMessenger(String::from_str(id));
    }
    if is_custom_label(id) {
        let target = match find_shortcut_by_label(id, shortcuts) {
            Some(t) => Some(t),
            None => find_messenger_by_label(id, users),
        };
        return TrayAction::OpenCustom(target);
    }
    if str_eq(id, "toggle_window") {
        TrayAction::ToggleWindow
    } else if str_eq(id, "toggle_dock") {
        TrayAction::ToggleDock
    } else if str_eq(id, "quit") {
        TrayAction::Quit
    } else {
        TrayAction::Nothing
    }
}

} // verus!
