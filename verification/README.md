# signalist

The core of Signalist, a desktop shell that keeps messenger web apps
(Telegram, WhatsApp, messengers picked from a catalog, and custom shortcuts)
in one window with a sidebar, a tray menu and a global hotkey.

`src/` is the library, verified with Verus: identifiers and webview labels,
URL and color checks, the shortcut and messenger lists, unread counts and
the notification debounce and cooldown, download destinations and the downloads in
flight, the tray menu, window decisions, and the sweep of orphaned website
data stores. Each public function states its result in its `ensures`; the
`lemma_*` proof functions state the laws that span several calls.

`app/` is the Tauri shell around it: windows, webviews, the settings store,
the tray, notifications and the file system. It hands the library plain
values and acts on what comes back.

`tests/` runs the library on concrete values.

Maps keyed by labels are kept as vectors with an invariant that no key
repeats (`LabelMap`, and the vectors inside `DownloadTracker`): vstd's
specification of `HashMap` says little of what a `String`-keyed map holds,
so the library states and proves these invariants itself.
