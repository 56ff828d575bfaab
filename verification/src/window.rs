use vstd::prelude::*;
use vstd::string::*;
use crate::ids::{custom_webview_label, is_custom_label, is_valid_id, validate_shortcut_id, webview_label_of};
use crate::messengers::{builtin_labels, label_of, BuiltinMessenger};
use crate::shortcuts::{CustomShortcuts, ShortcutView, UserMessengerView, UserMessengers};
use crate::text::{push_str, starts_with, str_eq, string_of};

verus! {

// ---------------------------------------------------------------------------
// Small pieces of application state
// ---------------------------------------------------------------------------

/// The label of the webview on screen; empty before any has been shown.
pub struct ActiveMessenger(pub String);

/// The accelerator that shows and hides the window.
pub struct HotkeyConfig(pub String);

/// Whether the app runs from the menu bar only, without a Dock icon.
pub struct DockHidden(pub bool);

/// Whether notifications are muted.
pub struct SilenceMode(pub bool);

impl HotkeyConfig {
    /// The accelerator to unregister before another is set, and to register
    /// again should the new one be refused; none while no hotkey is set.
    pub fn previous(&self) -> (r: Option<String>)
        ensures
            r is None <==> self.0@.len() == 0,
            r matches Some(h) ==> h@ == self.0@,
    {
        if self.0.as_str().unicode_len() == 0 {
            None
        } else {
            Some(self.0.clone())
        }
    }
}

impl DockHidden {
    /// Flips the setting and returns the new value.
    pub fn toggle(&mut self) -> (hidden: bool)
        ensures
            hidden == !old(self).0,
            final(self).0 == hidden,
    {
        self.0 = !self.0;
        self.0
    }
}

impl SilenceMode {
    /// Sets the mode; true when it changed (and must then be saved).
    pub fn set(&mut self, enable: bool) -> (changed: bool)
        ensures
            final(self).0 == enable,
            changed == (old(self).0 != enable),
    {
        if self.0 == enable {
            return false;
        }
        self.0 = enable;
        true
    }
}

/// The theme a page reports is forwarded to the sidebar only from the webview
/// on screen: hidden preloaded views must not restyle the sidebar.
pub fn should_forward_theme(active: &ActiveMessenger, webview_label: &str) -> (r: bool)
    ensures
        r == (active.0@.len() > 0 && webview_label@ == active.0@),
{
    active.0.as_str().unicode_len() > 0 && str_eq(webview_label, active.0.as_str())
}

// ---------------------------------------------------------------------------
// Showing and hiding the window
// ---------------------------------------------------------------------------

/// What the show/hide hotkey does to the main window.
#[derive(Clone, Copy, PartialEq, Eq, Structural, Debug)]
pub enum WindowToggle {
    Nothing,
    Focus,
    Hide,
    Show,
}

/// A full-screen window is only focused (hiding it would leave an empty space);
/// otherwise a focused visible window hides, an unfocused one takes focus, and a
/// hidden one is shown.
pub open spec fn window_toggle_spec(fullscreen: bool, visible: bool, focused: bool) -> WindowToggle {
    if fullscreen {
        if focused { WindowToggle::Nothing } else { WindowToggle::Focus }
    } else if visible && focused {
        WindowToggle::Hide
    } else if visible {
        WindowToggle::Focus
    } else {
        WindowToggle::Show
    }
}

pub fn window_toggle(fullscreen: bool, visible: bool, focused: bool) -> (r: WindowToggle)
    ensures
        r == window_toggle_spec(fullscreen, visible, focused),
{
    if fullscreen {
        if focused { WindowToggle::Nothing } else { WindowToggle::Focus }
    } else if visible && focused {
        WindowToggle::Hide
    } else if visible {
        WindowToggle::Focus
    } else {
        WindowToggle::Show
    }
}

/// Which webviews are hidden when another one comes to the front. Built-in
/// messengers keep their size so that their pages keep counting unread
/// messages; user messengers and shortcuts are also shrunk to nothing so the
/// compositor releases their surfaces.
pub struct HidePlan {
    pub hide_only: Vec<String>,
    pub hide_and_shrink: Vec<String>,
}

/// The labels of user messengers, then shortcuts.
pub open spec fn custom_labels(users: Seq<UserMessengerView>, shortcuts: Seq<ShortcutView>) -> Seq<Seq<char>> {
    users.map_values(|m: UserMessengerView| webview_label_of(m.id)) + shortcuts.map_values(|s: ShortcutView| webview_label_of(s.id))
}

/// The text of a list of strings.
pub open spec fn texts(v: Seq<String>) -> Seq<Seq<char>> {
    v.map_values(|s: String| s@)
}

pub fn hide_plan(users: &UserMessengers, shortcuts: &CustomShortcuts) -> (r: HidePlan)
    ensures
        texts(r.hide_only@) == builtin_labels(),
        texts(r.hide_and_shrink@) == custom_labels(users@, shortcuts@),
{
    let hide_only = vec![String::from_str("telegram"), String::from_str("whatsapp")];
    assert(texts(hide_only@) =~= builtin_labels());
    let mut shrink: Vec<String> = Vec::new();
    let nu = users.0.len();
    for i in 0..nu
        invariant
            nu == users@.len(),
            texts(shrink@) == users@.take(i as int).map_values(|m: UserMessengerView| webview_label_of(m.id)),
    {
        let l = users.0[i].webview_label();
        let ghost before = texts(shrink@);
        let ghost lv = l@;
        shrink.push(l);
        assert(texts(shrink@) =~= before.push(lv));
        assert(users@.take(i + 1) =~= users@.take(i as int).push(users@[i as int]));
        assert(users@.take(i + 1).map_values(|m: UserMessengerView| webview_label_of(m.id)) =~= users@.take(i as int).map_values(|m: UserMessengerView| webview_label_of(m.id)).push(lv));
    }
    assert(users@.take(nu as int) =~= users@);
    let ghost mid = texts(shrink@);
    let ns = shortcuts.0.len();
    for i in 0..ns
        invariant
            ns == shortcuts@.len(),
            texts(shrink@) == mid + shortcuts@.take(i as int).map_values(|s: ShortcutView| webview_label_of(s.id)),
    {
        let l = shortcuts.0[i].webview_label();
        let ghost before = texts(shrink@);
        let ghost lv = l@;
        shrink.push(l);
        assert(texts(shrink@) =~= before.push(lv));
        assert(shortcuts@.take(i + 1) =~= shortcuts@.take(i as int).push(shortcuts@[i as int]));
        assert(shortcuts@.take(i + 1).map_values(|s: ShortcutView| webview_label_of(s.id)) =~= shortcuts@.take(i as int).map_values(|s: ShortcutView| webview_label_of(s.id)).push(lv));
    }
    assert(shortcuts@.take(ns as int) =~= shortcuts@);
    HidePlan { hide_only, hide_and_shrink: shrink }
}

/// The webviews laid over the content area when the window is resized: the
/// built-in messengers, and the active view when it is a custom one (hidden
/// custom views stay shrunk).
pub open spec fn reposition_spec(active: Seq<char>) -> Seq<Seq<char>> {
    if starts_with(active, "custom-"@) {
        builtin_labels().push(active)
    } else {
        builtin_labels()
    }
}

pub fn reposition_targets(active: &ActiveMessenger) -> (r: Vec<String>)
    ensures
        texts(r@) == reposition_spec(active.0@),
{
    let mut r = vec![String::from_str("telegram"), String::from_str("whatsapp")];
    if is_custom_label(active.0.as_str()) {
        r.push(active.0.clone());
    }
    assert(texts(r@) =~= reposition_spec(active.0@));
    r
}

// ---------------------------------------------------------------------------
// Webviews of messengers and custom entries
// ---------------------------------------------------------------------------

/// What opening a webview comes to.
#[derive(Clone, Copy, PartialEq, Eq, Structural, Debug)]
pub enum WebviewStep {
    /// It exists and only a preload was asked for: nothing to do.
    AlreadyLoaded,
    /// It exists: hide the others and bring it to the front.
    FocusExisting,
    /// Create it, hidden, without taking focus.
    Preload,
    /// Hide the others and create it on screen.
    Create,
}

pub open spec fn webview_step_spec(exists: bool, activate: bool) -> WebviewStep {
    if exists {
        if activate { WebviewStep::FocusExisting } else { WebviewStep::AlreadyLoaded }
    } else if activate {
        WebviewStep::Create
    } else {
        WebviewStep::Preload
    }
}

pub fn webview_step(exists: bool, activate: bool) -> (r: WebviewStep)
    ensures
        r == webview_step_spec(exists, activate),
{
    if exists {
        if activate { WebviewStep::FocusExisting } else { WebviewStep::AlreadyLoaded }
    } else if activate {
        WebviewStep::Create
    } else {
        WebviewStep::Preload
    }
}

/// The report a webview step ends with, naming the webview.
pub open spec fn step_report(step: WebviewStep, label: Seq<char>) -> Seq<char> {
    match step {
        WebviewStep::AlreadyLoaded => label + " already loaded"@,
        WebviewStep::FocusExisting => "Focused existing "@ + label,
        WebviewStep::Preload => "Preloaded "@ + label,
        WebviewStep::Create => "Created "@ + label,
    }
}

pub fn step_message(step: WebviewStep, label: &str) -> (r: String)
    ensures
        r@ == step_report(step, label@),
{
    let mut m: Vec<char> = Vec::new();
    match step {
        WebviewStep::AlreadyLoaded => {
            push_str(&mut m, label);
            push_str(&mut m, " already loaded");
        },
        WebviewStep::FocusExisting => {
            push_str(&mut m, "Focused existing ");
            push_str(&mut m, label);
        },
        WebviewStep::Preload => {
            push_str(&mut m, "Preloaded ");
            push_str(&mut m, label);
        },
        WebviewStep::Create => {
            push_str(&mut m, "Created ");
            push_str(&mut m, label);
        },
    }
    string_of(&m)
}

/// What a custom webview is refused with when its URL points at Google.
pub open spec fn custom_view_google_message() -> Seq<char> {
    "Google services are not supported in the embedded window. Please delete this shortcut and open the website in your browser."@
}

/// The text a custom webview is refused with when its URL points at Google.
pub fn custom_view_google_text() -> (r: &'static str)
    ensures
        r@ == custom_view_google_message(),
{
    "Google services are not supported in the embedded window. Please delete this shortcut and open the website in your browser."
}

// ---------------------------------------------------------------------------
// Dialog windows
// ---------------------------------------------------------------------------

/// The page of the dialog that edits the shortcut with this id.
pub fn edit_shortcut_window_url(id: &str) -> (r: Result<String, String>)
    ensures
        r is Ok <==> is_valid_id(id@),
        r matches Ok(u) ==> u@ == "index.html?view=edit-shortcut&id="@ + id@,
        r matches Err(e) ==> e@ == "Invalid id"@,
{
    validate_shortcut_id(id)?;
    let mut u = String::from_str("index.html?view=edit-shortcut&id=");
    u.append(id);
    Ok(u)
}

/// The window that asks before an entry is deleted.
pub struct ConfirmDeleteWindow {
    pub label: String,
    pub url: String,
    pub title: String,
}

/// The confirmation window for deleting the entry `id` of `kind` (`shortcut`
/// or `messenger`); its label carries the id so that each prompt has its own.
pub fn confirm_delete_window(kind: &str, id: &str) -> (r: Result<ConfirmDeleteWindow, String>)
    ensures
        r is Ok <==> ((kind@ == "shortcut"@ || kind@ == "messenger"@) && is_valid_id(id@)),
        r matches Ok(w) ==> {
            &&& w.label@ == "confirm-delete-"@ + id@
            &&& w.url@ == "index.html?view=confirm-delete&kind="@ + kind@ + "&id="@ + id@
            &&& w.title@ == (if kind@ == "shortcut"@ { "Delete Shortcut"@ } else { "Delete Messenger"@ })
        },
        r matches Err(e) ==> e@ == (if !(kind@ == "shortcut"@ || kind@ == "messenger"@) {
            "Unknown delete target kind: "@ + kind@
        } else {
            "Invalid id"@
        }),
{
    let is_shortcut = str_eq(kind, "shortcut");
    if !is_shortcut && !str_eq(kind, "messenger") {
        let mut e = String::from_str("Unknown delete target kind: ");
        e.append(kind);
        return Err(e);
    }
    validate_shortcut_id(id)?;
    let mut label = String::from_str("confirm-delete-");
    label.append(id);
    let mut url = String::from_str("index.html?view=confirm-delete&kind=");
    url.append(kind);
    url.append("&id=");
    url.append(id);
    let title = if is_shortcut { String::from_str("Delete Shortcut") } else { String::from_str("Delete Messenger") };
    Ok(ConfirmDeleteWindow { label, url, title })
}

} // verus!
