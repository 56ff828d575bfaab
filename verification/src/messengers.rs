use vstd::prelude::*;
use vstd::string::*;
use crate::labelmap::LabelMap;
use crate::text::{chars_of, ends_with, ends_with_chars, eq_chars, push_str, str_eq};
use crate::shortcuts::{UserMessengers, UserMessengerView};
use crate::urls::{is_internal_scheme, is_web_scheme, is_internal_frame_scheme, is_http_scheme, opt_view, UrlParts};

verus! {

// ---------------------------------------------------------------------------
// The built-in messengers
// ---------------------------------------------------------------------------

/// The messengers built into the app, with unread tracking.
#[derive(Clone, Copy, PartialEq, Eq, Structural, Debug)]
pub enum BuiltinMessenger {
    Telegram,
    WhatsApp,
}

/// The webview label of a built-in messenger.
pub open spec fn label_of(m: BuiltinMessenger) -> Seq<char> {
    match m {
        BuiltinMessenger::Telegram => "telegram"@,
        BuiltinMessenger::WhatsApp => "whatsapp"@,
    }
}

/// The name a built-in messenger is shown under.
pub open spec fn display_name_of(m: BuiltinMessenger) -> Seq<char> {
    match m {
        BuiltinMessenger::Telegram => "Telegram"@,
        BuiltinMessenger::WhatsApp => "WhatsApp"@,
    }
}

/// The domains a built-in messenger may navigate within.
pub open spec fn allowed_domains_of(m: BuiltinMessenger) -> Seq<Seq<char>> {
    match m {
        BuiltinMessenger::Telegram => seq!["web.telegram.org"@, "t.me"@],
        BuiltinMessenger::WhatsApp => seq!["web.whatsapp.com"@, "whatsapp.com"@, "whatsapp.net"@],
    }
}

/// The built-in messengers, in the order the sidebar and the tray list them.
pub open spec fn builtin_order() -> Seq<BuiltinMessenger> {
    seq![BuiltinMessenger::Telegram, BuiltinMessenger::WhatsApp]
}

/// The labels of the built-in messengers, in order.
pub open spec fn builtin_labels() -> Seq<Seq<char>> {
    seq!["telegram"@, "whatsapp"@]
}

/// A label that names a built-in messenger.
pub open spec fn is_builtin_label(label: Seq<char>) -> bool {
    label == "telegram"@ || label == "whatsapp"@
}

impl BuiltinMessenger {
    pub fn label(&self) -> (r: &'static str)
        ensures
            r@ == label_of(*self),
    {
        match self {
            BuiltinMessenger::Telegram => "telegram",
            BuiltinMessenger::WhatsApp => "whatsapp",
        }
    }

    pub fn display_name(&self) -> (r: &'static str)
        ensures
            r@ == display_name_of(*self),
    {
        match self {
            BuiltinMessenger::Telegram => "Telegram",
            BuiltinMessenger::WhatsApp => "WhatsApp",
        }
    }

    /// The page the messenger's webview loads.
    pub fn url(&self) -> (r: &'static str)
        ensures
            r@ == (match *self {
                BuiltinMessenger::Telegram => "https://web.telegram.org/a/"@,
                BuiltinMessenger::WhatsApp => "https://web.whatsapp.com/"@,
            }),
    {
        match self {
            BuiltinMessenger::Telegram => "https://web.telegram.org/a/",
            BuiltinMessenger::WhatsApp => "https://web.whatsapp.com/",
        }
    }

    /// The domains the messenger may navigate within.
    pub fn allowed_domains(&self) -> (r: Vec<&'static str>)
        ensures
            r@.map_values(|d: &str| d@) == allowed_domains_of(*self),
    {
        let r = match self {
            BuiltinMessenger::Telegram => vec!["web.telegram.org", "t.me"],
            BuiltinMessenger::WhatsApp => vec!["web.whatsapp.com", "whatsapp.com", "whatsapp.net"],
        };
        assert(r@.map_values(|d: &str| d@) =~= allowed_domains_of(*self));
        r
    }

    /// The identifier of the data store that keeps the messenger's session.
    pub fn data_store_id(&self) -> (r: [u8; 16])
        ensures
            r@ == (match *self {
                BuiltinMessenger::Telegram => seq![1u8, 0, 0, 0, 0, 0, 0, 0, 0, 0, 0, 0, 0, 0, 0, 1],
                BuiltinMessenger::WhatsApp => seq![1u8, 0, 0, 0, 0, 0, 0, 0, 0, 0, 0, 0, 0, 0, 0, 2],
            }),
    {
        let r = match self {
            BuiltinMessenger::Telegram => [1u8, 0, 0, 0, 0, 0, 0, 0, 0, 0, 0, 0, 0, 0, 0, 1],
            BuiltinMessenger::WhatsApp => [1u8, 0, 0, 0, 0, 0, 0, 0, 0, 0, 0, 0, 0, 0, 0, 2],
        };
        assert(r@ =~= (match *self {
            BuiltinMessenger::Telegram => seq![1u8, 0, 0, 0, 0, 0, 0, 0, 0, 0, 0, 0, 0, 0, 0, 1],
            BuiltinMessenger::WhatsApp => seq![1u8, 0, 0, 0, 0, 0, 0, 0, 0, 0, 0, 0, 0, 0, 0, 2],
        }));
        r
    }
}

/// The built-in messengers, in order.
pub fn builtin_messengers() -> (r: Vec<BuiltinMessenger>)
    ensures
        r@ == builtin_order(),
{
    let r = vec![BuiltinMessenger::Telegram, BuiltinMessenger::WhatsApp];
    assert(r@ =~= builtin_order());
    r
}

/// The built-in messenger with this label, if there is one.
pub fn find_messenger(label: &str) -> (r: Option<BuiltinMessenger>)
    ensures
        r matches Some(m) ==> label_of(m) == label@,
        r is None <==> !is_builtin_label(label@),
{
    if str_eq(label, "telegram") {
        Some(BuiltinMessenger::Telegram)
    } else if str_eq(label, "whatsapp") {
        Some(BuiltinMessenger::WhatsApp)
    } else {
        None
    }
}

/// The labels of the built-in messengers differ, so each is found again by its label.
pub proof fn lemma_labels_distinct()
    ensures
        "telegram"@ != "whatsapp"@,
        forall|m: BuiltinMessenger, n: BuiltinMessenger| label_of(m) == label_of(n) ==> m == n,
{
    reveal_strlit("telegram");
    reveal_strlit("whatsapp");
    assert("telegram"@[0] != "whatsapp"@[0]);
}

/// `Unknown messenger: <name>`.
pub fn unknown_messenger_error(name: &str) -> (r: String)
    ensures
        r@ == "Unknown messenger: "@ + name@,
{
    let mut m = String::from_str("Unknown messenger: ");
    m.append(name);
    m
}

/// The built-in messenger with this label, or the error the commands answer an
/// unknown label with.
pub fn require_messenger(label: &str) -> (r: Result<BuiltinMessenger, String>)
    ensures
        r matches Ok(m) ==> label_of(m) == label@,
        r is Err <==> !is_builtin_label(label@),
        r matches Err(e) ==> e@ == "Unknown messenger: "@ + label@,
{
    match find_messenger(label) {
        Some(m) => Ok(m),
        None => Err(unknown_messenger_error(label)),
    }
}

/// `<messenger> webview not created yet. Call open_messenger first.`
pub fn webview_not_created_error(messenger: &str) -> (r: String)
    ensures
        r@ == messenger@ + " webview not created yet. Call open_messenger first."@,
{
    let mut m = String::from_str(messenger);
    m.append(" webview not created yet. Call open_messenger first.");
    m
}

// ---------------------------------------------------------------------------
// Navigation inside a built-in messenger
// ---------------------------------------------------------------------------

/// What the webview does with a navigation request.
#[derive(Clone, Copy, PartialEq, Eq, Structural, Debug)]
pub struct NavigationDecision {
    /// Let the webview follow it.
    pub allow: bool,
    /// Hand the URL to the system browser instead.
    pub open_in_browser: bool,
}

/// `host` is one of the domains or a subdomain of one.
pub open spec fn host_allowed(host: Seq<char>, domains: Seq<Seq<char>>) -> bool {
    exists|i: int| 0 <= i < domains.len() && (host == domains[i] || ends_with(host, "."@ + domains[i]))
}

/// A built-in messenger follows its own internal frames and its own domains;
/// any other web page goes to the system browser, anything else is dropped.
pub open spec fn messenger_navigation_spec(m: BuiltinMessenger, scheme: Seq<char>, host: Option<Seq<char>>) -> NavigationDecision {
    if is_internal_scheme(scheme) {
        NavigationDecision { allow: true, open_in_browser: false }
    } else {
        match host {
            None => NavigationDecision { allow: false, open_in_browser: false },
            Some(h) => {
                let allowed = host_allowed(h, allowed_domains_of(m));
                NavigationDecision { allow: allowed, open_in_browser: !allowed && is_web_scheme(scheme) }
            },
        }
    }
}

/// How a built-in messenger treats a navigation, over all inputs:
/// - it follows its own frames (`about`, `blob`) and pages on its own domains;
/// - a page with a host outside its domains is handed to the system browser
///   exactly when it is a web page (`http` or `https`), and otherwise dropped;
/// - it never both follows a page and hands it to the browser;
/// - whatever it hands to the browser, a custom webview would follow in place.
pub proof fn lemma_messenger_navigation(m: BuiltinMessenger, scheme: Seq<char>, host: Option<Seq<char>>)
    ensures
        messenger_navigation_spec(m, scheme, host).allow <==> (scheme == "about"@ || scheme == "blob"@ || (host matches Some(
            h,
        ) && host_allowed(h, allowed_domains_of(m)))),
        messenger_navigation_spec(m, scheme, host).open_in_browser <==> ((scheme == "http"@ || scheme == "https"@) && (
        host matches Some(h) && !host_allowed(h, allowed_domains_of(m)))),
        !(messenger_navigation_spec(m, scheme, host).allow && messenger_navigation_spec(m, scheme, host).open_in_browser),
        messenger_navigation_spec(m, scheme, host).open_in_browser ==> crate::urls::custom_navigation_allowed(scheme),
{
    reveal_strlit("http");
    reveal_strlit("https");
    reveal_strlit("about");
    reveal_strlit("blob");
    assert("http"@[0] != "blob"@[0] && "http"@.len() != "about"@.len());
    assert("https"@[0] != "about"@[0] && "https"@.len() != "blob"@.len());
}

fn host_in_domains(host: &str, domains: &Vec<&'static str>) -> (r: bool)
    ensures
        r == host_allowed(host@, domains@.map_values(|d: &str| d@)),
{
    let ghost ds = domains@.map_values(|d: &str| d@);
    let h = chars_of(host);
    let mut i: usize = 0;
    while i < domains.len()
        invariant
            i <= domains@.len(),
            ds == domains@.map_values(|d: &str| d@),
            h@ == host@,
            forall|j: int| 0 <= j < i ==> !(host@ == ds[j] || ends_with(host@, "."@ + ds[j])),
        decreases domains.len() - i,
    {
        let d = chars_of(domains[i]);
        let mut dotted: Vec<char> = Vec::new();
        push_str(&mut dotted, ".");
        push_str(&mut dotted, domains[i]);
        if eq_chars(&h, &d) || ends_with_chars(&h, &dotted) {
            assert(host@ == ds[i as int] || ends_with(host@, "."@ + ds[i as int]));
            return true;
        }
        i = i + 1;
    }
    false
}

/// Decides on a navigation inside a built-in messenger.
pub fn messenger_navigation(m: BuiltinMessenger, url: &UrlParts) -> (r: NavigationDecision)
    ensures
        r == messenger_navigation_spec(m, url.scheme@, opt_view(url.host)),
{
    if is_internal_frame_scheme(url) {
        return NavigationDecision { allow: true, open_in_browser: false };
    }
    match &url.host {
        None => NavigationDecision { allow: false, open_in_browser: false },
        Some(h) => {
            let domains = m.allowed_domains();
            let allowed = host_in_domains(h.as_str(), &domains);
            NavigationDecision { allow: allowed, open_in_browser: !allowed && is_http_scheme(url.scheme.as_str()) }
        },
    }
}


// ---------------------------------------------------------------------------
// Startup preloading
// ---------------------------------------------------------------------------

/// Per-label preload flag for the built-in messengers. An absent label means
/// the default, preloading on: a fresh install loads every built-in messenger at
/// startup so that it reports unread counts without being opened first.
pub struct BuiltinPreload(pub LabelMap<bool>);

/// Whether the messenger with this label is preloaded at startup.
pub open spec fn preload_enabled(flags: Map<Seq<char>, bool>, label: Seq<char>) -> bool {
    if flags.contains_key(label) {
        flags[label]
    } else {
        true
    }
}

impl BuiltinPreload {
    /// No flag set: every built-in messenger is preloaded.
    pub fn new() -> (r: BuiltinPreload)
        ensures
            r.0@ == Map::<Seq<char>, bool>::empty(),
    {
        BuiltinPreload(LabelMap::new())
    }

    /// Whether the messenger with this label is preloaded at startup.
    pub fn enabled(&self, label: &str) -> (r: bool)
        ensures
            r == preload_enabled(self.0@, label@),
    {
        match self.0.get(label) {
            Some(v) => v,
            None => true,
        }
    }

    /// Sets the flag of a built-in messenger; any other name is refused.
    pub fn set(&mut self, messenger: String, enable: bool) -> (r: Result<(), String>)
        ensures
            r is Ok <==> is_builtin_label(messenger@),
            r is Ok ==> final(self).0@ == old(self).0@.insert(messenger@, enable),
            r matches Err(e) ==> final(self).0@ == old(self).0@ && e@ == "Unknown messenger: "@ + messenger@,
    {
        if find_messenger(messenger.as_str()).is_none() {
            return Err(unknown_messenger_error(messenger.as_str()));
        }
        self.0.insert(messenger, enable);
        Ok(())
    }

    /// One flag per built-in messenger, in order, with the default filled in.
    pub fn flags(&self) -> (r: Vec<(String, bool)>)
        ensures
            r@.len() == 2,
            forall|i: int| 0 <= i < 2 ==> (#[trigger] r@[i]).0@ == builtin_labels()[i]
                && r@[i].1 == preload_enabled(self.0@, builtin_labels()[i]),
    {
        let mut r: Vec<(String, bool)> = Vec::new();
        r.push((String::from_str("telegram"), self.enabled("telegram")));
        r.push((String::from_str("whatsapp"), self.enabled("whatsapp")));
        r
    }
}

/// What the app opens at startup: `active` visibly first, then the other
/// preloaded built-in messengers hidden, then the preloaded user messengers
/// (id and URL) hidden.
pub struct StartupPlan {
    pub active: String,
    pub hidden_builtins: Vec<String>,
    pub user_targets: Vec<(String, String)>,
}

/// The labels of the built-in messengers flagged for preloading, in order.
pub open spec fn preloaded_builtins(flags: Map<Seq<char>, bool>) -> Seq<Seq<char>> {
    builtin_labels().filter(|l: Seq<char>| preload_enabled(flags, l))
}

/// The messenger that takes the visible slot: the first preloaded one, or
/// Telegram when none is, so the content area is never blank.
pub open spec fn startup_active(flags: Map<Seq<char>, bool>) -> Seq<char> {
    if preloaded_builtins(flags).len() > 0 {
        preloaded_builtins(flags)[0]
    } else {
        "telegram"@
    }
}

/// The id and URL of a user messenger.
pub open spec fn target_of(m: UserMessengerView) -> (Seq<char>, Seq<char>) {
    (m.id, m.url)
}

/// The user messengers flagged for preloading, as id and URL, in order.
pub open spec fn preloaded_users(users: Seq<UserMessengerView>) -> Seq<(Seq<char>, Seq<char>)> {
    users.filter(|m: UserMessengerView| m.preload).map_values(|m: UserMessengerView| target_of(m))
}

/// The text of a list of id/URL pairs.
pub open spec fn targets_view(v: Seq<(String, String)>) -> Seq<(Seq<char>, Seq<char>)> {
    v.map_values(|p: (String, String)| (p.0@, p.1@))
}

/// The startup plan for these flags and messengers.
pub fn startup_preload_plan(preload: &BuiltinPreload, users: &UserMessengers) -> (r: StartupPlan)
    ensures
        r.active@ == startup_active(preload.0@),
        r.hidden_builtins@.map_values(|s: String| s@) == preloaded_builtins(preload.0@).filter(
            |l: Seq<char>| l != startup_active(preload.0@),
        ),
        targets_view(r.user_targets@) == preloaded_users(users@),
{
    let t = preload.enabled("telegram");
    let w = preload.enabled("whatsapp");
    let ghost flags = preload.0@;
    proof {
        lemma_labels_distinct();
        reveal_with_fuel(Seq::filter, 3);
        let p = |l: Seq<char>| preload_enabled(flags, l);
        assert(builtin_labels().drop_last() =~= seq!["telegram"@]);
        assert(seq!["telegram"@].drop_last() =~= Seq::<Seq<char>>::empty());
    }
    let active = if t {
        String::from_str("telegram")
    } else if w {
        String::from_str("whatsapp")
    } else {
        String::from_str("telegram")
    };
    let mut hidden: Vec<String> = Vec::new();
    if t && w {
        hidden.push(String::from_str("whatsapp"));
    }
    proof {
        let pb = preloaded_builtins(flags);
        let sa = startup_active(flags);
        let q = |l: Seq<char>| l != sa;
        reveal_with_fuel(Seq::filter, 3);
        if t && w {
            assert(pb =~= seq!["telegram"@, "whatsapp"@]);
            assert(pb.drop_last() =~= seq!["telegram"@]);
            assert(seq!["telegram"@].drop_last() =~= Seq::<Seq<char>>::empty());
            assert(pb.filter(q) =~= seq!["whatsapp"@]);
        } else if t {
            assert(pb =~= seq!["telegram"@]);
            assert(pb.drop_last() =~= Seq::<Seq<char>>::empty());
            assert(pb.filter(q) =~= Seq::<Seq<char>>::empty());
        } else if w {
            assert(pb =~= seq!["whatsapp"@]);
            assert(pb.drop_last() =~= Seq::<Seq<char>>::empty());
            assert(pb.filter(q) =~= Seq::<Seq<char>>::empty());
        } else {
            assert(pb =~= Seq::<Seq<char>>::empty());
        }
        assert(hidden@.map_values(|s: String| s@) =~= pb.filter(q));
    }
    let mut targets: Vec<(String, String)> = Vec::new();
    let n = users.0.len();
    for i in 0..n
        invariant
            n == users.0@.len(),
            targets_view(targets@) == preloaded_users(crate::shortcuts::messengers_view(users.0@.take(i as int))),
    {
        let ghost before = crate::shortcuts::messengers_view(users.0@.take(i as int));
        let ghost m = users.0@[i as int]@;
        proof {
            assert(crate::shortcuts::messengers_view(users.0@.take(i + 1)) =~= before.push(m));
            before.lemma_filter_push(m, |m: UserMessengerView| m.preload);
        }
        let ghost old_targets = targets@;
        if users.0[i].preload {
            targets.push((users.0[i].id.clone(), users.0[i].url.clone()));
            assert(targets_view(targets@) =~= targets_view(old_targets).push(target_of(m)));
            assert(preloaded_users(before.push(m)) =~= preloaded_users(before).push(target_of(m)));
        } else {
            assert(preloaded_users(before.push(m)) =~= preloaded_users(before));
        }
    }
    assert(users.0@.take(n as int) =~= users.0@);
    StartupPlan { active, hidden_builtins: hidden, user_targets: targets }
}


/// The startup plan always puts a built-in messenger on screen, never loads it
/// a second time among the hidden ones, and loads every preloaded built-in
/// messenger one way or the other.
pub proof fn lemma_startup_plan(flags: Map<Seq<char>, bool>)
    ensures
        is_builtin_label(startup_active(flags)),
        !preloaded_builtins(flags).filter(|l: Seq<char>| l != startup_active(flags)).contains(startup_active(flags)),
        forall|l: Seq<char>| #[trigger] preloaded_builtins(flags).contains(l) ==>
            l == startup_active(flags) || preloaded_builtins(flags).filter(|x: Seq<char>| x != startup_active(flags)).contains(l),
{
    broadcast use vstd::seq_lib::group_filter_ensures;
    let pb = preloaded_builtins(flags);
    let sa = startup_active(flags);
    let q = |x: Seq<char>| x != sa;
    assert(pb.len() <= 2) by {
        builtin_labels().lemma_filter_len(|l: Seq<char>| preload_enabled(flags, l));
    }
    if pb.len() > 0 {
        assert(builtin_labels().filter(|l: Seq<char>| preload_enabled(flags, l)).contains(pb[0]));
        builtin_labels().lemma_filter_contains_rev(|l: Seq<char>| preload_enabled(flags, l), pb[0]);
        assert(builtin_labels().contains(pb[0]));
        let k = choose|k: int| 0 <= k < builtin_labels().len() && builtin_labels()[k] == pb[0];
        assert(k == 0 || k == 1);
    }
    if pb.filter(q).contains(sa) {
        let i = choose|i: int| 0 <= i < pb.filter(q).len() && pb.filter(q)[i] == sa;
        pb.lemma_filter_pred(q, i);
    }
    assert forall|l: Seq<char>| #[trigger] pb.contains(l) implies l == sa || pb.filter(q).contains(l) by {
        if l != sa {
            let i = choose|i: int| 0 <= i < pb.len() && pb[i] == l;
            pb.lemma_filter_contains(q, i);
        }
    }
}

} // verus!
