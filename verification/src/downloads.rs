use vstd::prelude::*;
use vstd::string::*;
use crate::text::{chars_of, dec_digits, push_chars, push_dec, push_str, str_eq, string_of, sub_chars};
use crate::urls::opt_view;

verus! {

// ---------------------------------------------------------------------------
// Paths
// ---------------------------------------------------------------------------

/// What `Path::parent` gives for a path.
pub uninterp spec fn path_parent(p: Seq<char>) -> Option<Seq<char>>;

/// What `Path::file_name` gives for a path.
pub uninterp spec fn path_file_name(p: Seq<char>) -> Option<Seq<char>>;

/// What `Path::join` gives for a base and a name.
pub uninterp spec fn path_join(base: Seq<char>, name: Seq<char>) -> Seq<char>;

/// What `Path`'s `==` says of two paths (it compares their components).
pub uninterp spec fn path_eq(a: Seq<char>, b: Seq<char>) -> bool;

/// `Path::parent` of a path given as text. The contract names the result only.
#[verifier::external_body]
fn parent_of(p: &str) -> (r: Option<String>)
    ensures
        opt_view(r) == path_parent(p@),
{
    match std::path::Path::new(p).parent() {
        Some(q) => Some(q.to_string_lossy().into_owned()),
        None => None,
    }
}

/// `Path::file_name` of a path given as text. The contract names the result only.
#[verifier::external_body]
fn file_name_of(p: &str) -> (r: Option<String>)
    ensures
        opt_view(r) == path_file_name(p@),
{
    match std::path::Path::new(p).file_name() {
        Some(n) => Some(n.to_string_lossy().into_owned()),
        None => None,
    }
}

/// `Path::join` of a base and a name given as text. The contract names the
/// result only.
#[verifier::external_body]
fn join_path(base: &str, name: &str) -> (r: String)
    ensures
        r@ == path_join(base@, name@),
{
    std::path::Path::new(base).join(name).to_string_lossy().into_owned()
}

/// `==` on two `Path`s. Beyond naming the result, the contract claims only that
/// a path equals itself, which `Eq` promises.
#[verifier::external_body]
fn same_path(a: &str, b: &str) -> (r: bool)
    ensures
        r == path_eq(a@, b@),
        a@ == b@ ==> r,
{
    std::path::Path::new(a) == std::path::Path::new(b)
}

/// `Path::exists`: whether something is on disk at the path. It depends on the
/// disk, so nothing is stated of the result.
#[verifier::external_body]
fn path_exists(p: &str) -> (r: bool) {
    std::path::Path::new(p).exists()
}

// ---------------------------------------------------------------------------
// Download destinations
// ---------------------------------------------------------------------------

/// The index of the last `.` in `s`, if any.
pub open spec fn last_dot(s: Seq<char>) -> Option<int>
    decreases s.len(),
{
    if s.len() == 0 {
        None
    } else if s.last() == '.' {
        Some(s.len() - 1)
    } else {
        last_dot(s.drop_last())
    }
}

/// A file name split into stem and extension (with its dot) at the last dot,
/// when that dot has a stem before it: `archive.2026.zip` gives
/// `archive.2026` and `.zip`; a dotfile such as `.env` keeps its whole name as
/// the stem.
pub open spec fn split_extension(name: Seq<char>) -> (Seq<char>, Seq<char>) {
    match last_dot(name) {
        Some(i) => if i > 0 {
            (name.subrange(0, i), name.subrange(i, name.len() as int))
        } else {
            (name, Seq::empty())
        },
        None => (name, Seq::empty()),
    }
}

/// The file name of a path, or `download` when it has none.
pub open spec fn name_or_default(path: Seq<char>) -> Seq<char> {
    match path_file_name(path) {
        Some(n) => n,
        None => "download"@,
    }
}

/// The parent of a path, or the empty path when it has none.
pub open spec fn parent_or_empty(path: Seq<char>) -> Seq<char> {
    match path_parent(path) {
        Some(p) => p,
        None => Seq::empty(),
    }
}

/// The `counter`-th alternative to a taken path: `<stem> (<counter>)<extension>`
/// beside it.
pub open spec fn candidate(path: Seq<char>, counter: nat) -> Seq<char> {
    let (stem, ext) = split_extension(name_or_default(path));
    path_join(parent_or_empty(path), stem + " ("@ + dec_digits(counter) + ")"@ + ext)
}

/// Some reserved path equals `p`.
pub open spec fn is_reserved(p: Seq<char>, reserved: Seq<Seq<char>>) -> bool {
    exists|i: int| 0 <= i < reserved.len() && path_eq(reserved[i], p)
}

fn find_last_dot(v: &Vec<char>) -> (r: Option<usize>)
    ensures
        match r {
            Some(i) => last_dot(v@) == Some(i as int) && i < v@.len(),
            None => last_dot(v@) is None,
        },
{
    let mut k: usize = v.len();
    assert(v@.take(k as int) =~= v@);
    while k > 0
        invariant
            k <= v@.len(),
            last_dot(v@) == last_dot(v@.take(k as int)),
        decreases k,
    {
        assert(v@.take(k as int).last() == v@[k - 1]);
        if v[k - 1] == '.' {
            return Some(k - 1);
        }
        assert(v@.take(k as int).drop_last() =~= v@.take(k - 1));
        k = k - 1;
    }
    None
}

/// The `counter`-th alternative to a taken download destination.
pub fn download_candidate(path: &str, counter: u64) -> (r: String)
    ensures
        r@ == candidate(path@, counter as nat),
{
    let name = match file_name_of(path) {
        Some(n) => chars_of(n.as_str()),
        None => chars_of("download"),
    };
    let (stem, ext) = match find_last_dot(&name) {
        Some(i) => if i > 0 {
            (sub_chars(&name, 0, i), sub_chars(&name, i, name.len()))
        } else {
            (name, Vec::new())
        },
        None => (name, Vec::new()),
    };
    let mut file: Vec<char> = Vec::new();
    push_chars(&mut file, &stem);
    push_str(&mut file, " (");
    push_dec(&mut file, counter);
    push_str(&mut file, ")");
    push_chars(&mut file, &ext);
    let parent = match parent_of(path) {
        Some(p) => p,
        None => String::new(),
    };
    let file = string_of(&file);
    join_path(parent.as_str(), file.as_str())
}

fn reserved_contains(reserved: &Vec<String>, p: &str) -> (r: bool)
    ensures
        r == is_reserved(p@, reserved@.map_values(|s: String| s@)),
        !r ==> forall|j: int| 0 <= j < reserved@.len() ==> reserved@[j]@ != p@,
{
    let ghost rv = reserved@.map_values(|s: String| s@);
    let mut i: usize = 0;
    while i < reserved.len()
        invariant
            i <= reserved@.len(),
            rv == reserved@.map_values(|s: String| s@),
            forall|j: int| 0 <= j < i ==> !path_eq(#[trigger] rv[j], p@),
            forall|j: int| 0 <= j < i ==> reserved@[j]@ != p@,
        decreases reserved.len() - i,
    {
        if same_path(reserved[i].as_str(), p) {
            assert(path_eq(rv[i as int], p@));
            return true;
        }
        i = i + 1;
    }
    false
}

/// The largest counter tried for an alternative name.
pub open spec fn max_counter() -> u64 {
    0x7fff_ffff
}

/// The `n`-th path tried for a download proposed at `path`: the path itself
/// first, then its alternatives `<stem> (1)<ext>`, `<stem> (2)<ext>`, ...
pub open spec fn nth_destination(path: Seq<char>, n: nat) -> Seq<char> {
    if n == 0 {
        path
    } else {
        candidate(path, n)
    }
}

/// The reserved paths, as text.
pub open spec fn reserved_view(v: Seq<String>) -> Seq<Seq<char>> {
    v.map_values(|s: String| s@)
}

/// A path may receive a download: nothing was found on disk there and no
/// reserved path equals it.
pub open spec fn is_free(p: Seq<char>, on_disk: bool, reserved: Seq<Seq<char>>) -> bool {
    !on_disk && !is_reserved(p, reserved)
}

/// The first of the paths tried, from the `from`-th on, that is free, when the
/// disk reports `on_disk(n)` for the `n`-th of them; `None` if none up to the
/// last counter is.
pub open spec fn first_free_destination(
    path: Seq<char>,
    reserved: Seq<Seq<char>>,
    on_disk: spec_fn(nat) -> bool,
    from: nat,
) -> Option<Seq<char>>
    decreases max_counter() + 1 - from,
{
    if from > max_counter() {
        None
    } else if is_free(nth_destination(path, from), on_disk(from), reserved) {
        Some(nth_destination(path, from))
    } else {
        first_free_destination(path, reserved, on_disk, from + 1)
    }
}

/// Every path tried from the `from`-th to just before the `k`-th is taken and
/// the `k`-th is free: then the `k`-th is the one chosen.
proof fn lemma_first_free_at(
    path: Seq<char>,
    reserved: Seq<Seq<char>>,
    on_disk: spec_fn(nat) -> bool,
    from: nat,
    k: nat,
)
    requires
        from <= k <= max_counter(),
        forall|m: nat| from <= m < k ==> !is_free(nth_destination(path, m), on_disk(m), reserved),
        is_free(nth_destination(path, k), on_disk(k), reserved),
    ensures
        first_free_destination(path, reserved, on_disk, from) == Some(nth_destination(path, k)),
    decreases k - from,
{
    if from < k {
        lemma_first_free_at(path, reserved, on_disk, from + 1, k);
    }
}

/// Every path tried from the `from`-th to the last is taken: none is chosen.
proof fn lemma_first_free_none(
    path: Seq<char>,
    reserved: Seq<Seq<char>>,
    on_disk: spec_fn(nat) -> bool,
    from: nat,
)
    requires
        forall|m: nat| from <= m <= max_counter() ==> !is_free(nth_destination(path, m), on_disk(m), reserved),
    ensures
        first_free_destination(path, reserved, on_disk, from) is None,
    decreases max_counter() + 1 - from,
{
    if from <= max_counter() {
        lemma_first_free_none(path, reserved, on_disk, from + 1);
    }
}

/// The path handed in when it may receive a download, given whether something
/// was found on disk there: nothing on disk and no reserved path equal to it.
pub fn free_destination(p: String, on_disk: bool, reserved: &Vec<String>) -> (r: Option<String>)
    ensures
        opt_view(r) == (if is_free(p@, on_disk, reserved_view(reserved@)) {
            Some(p@)
        } else {
            None::<Seq<char>>
        }),
        r matches Some(d) ==> forall|j: int| 0 <= j < reserved@.len() ==> reserved@[j]@ != d@,
{
    if on_disk {
        None
    } else if reserved_contains(reserved, p.as_str()) {
        None
    } else {
        Some(p)
    }
}

/// A destination for a download proposed at `path` that no download in flight
/// has reserved and nothing occupied on disk when it was checked: the path
/// itself, or else the first of its alternatives `<stem> (1)<ext>`,
/// `<stem> (2)<ext>`, ... that is neither reserved nor on disk. `None` only if
/// every counter up to 2^31 - 1 is taken.
///
/// What the disk holds is read as the paths are tried, so the contract states
/// the result for what the disk reported of each path tried: it is the first
/// free path, as `first_free_destination` picks it.
pub fn unique_download_destination(path: &str, reserved: &Vec<String>) -> (r: Option<String>)
    ensures
        exists|on_disk: spec_fn(nat) -> bool|
            opt_view(r) == #[trigger] first_free_destination(path@, reserved_view(reserved@), on_disk, 0),
        r matches Some(d) ==> {
            &&& !is_reserved(d@, reserved@.map_values(|s: String| s@))
            &&& forall|j: int| 0 <= j < reserved@.len() ==> reserved@[j]@ != d@
            &&& (d@ == path@ || exists|n: nat| 1 <= n <= max_counter() && d@ == candidate(path@, n))
        },
{
    let ghost rv = reserved_view(reserved@);
    let here = path_exists(path);
    let ghost mut answers: Seq<bool> = seq![here];
    if let Some(d) = free_destination(String::from_str(path), here, reserved) {
        proof {
            let on_disk = |n: nat| if n < answers.len() { answers[n as int] } else { true };
            lemma_first_free_at(path@, rv, on_disk, 0, 0);
        }
        return Some(d);
    }
    let mut counter: u64 = 1;
    while counter <= 0x7fff_ffff
        invariant
            1 <= counter <= 0x8000_0000,
            rv == reserved_view(reserved@),
            answers.len() == counter,
            forall|m: nat| m < counter ==> !is_free(nth_destination(path@, m), #[trigger] answers[m as int], rv),
        decreases 0x8000_0000 - counter,
    {
        let c = download_candidate(path, counter);
        let taken = path_exists(c.as_str());
        proof {
            answers = answers.push(taken);
        }
        if let Some(d) = free_destination(c, taken, reserved) {
            proof {
                let on_disk = |n: nat| if n < answers.len() { answers[n as int] } else { true };
                assert forall|m: nat| 0 <= m < counter implies
                    !is_free(nth_destination(path@, m), #[trigger] on_disk(m), rv) by {
                    assert(on_disk(m) == answers[m as int]);
                }
                assert(on_disk(counter as nat) == taken);
                lemma_first_free_at(path@, rv, on_disk, 0, counter as nat);
            }
            return Some(d);
        }
        counter = counter + 1;
    }
    proof {
        let on_disk = |n: nat| if n < answers.len() { answers[n as int] } else { true };
        assert forall|m: nat| 0 <= m <= max_counter() implies
            !is_free(nth_destination(path@, m), #[trigger] on_disk(m), rv) by {
            assert(on_disk(m) == answers[m as int]);
        }
        lemma_first_free_none(path@, rv, on_disk, 0);
    }
    None
}


// ---------------------------------------------------------------------------
// Downloads in flight
// ---------------------------------------------------------------------------

/// A download that has been requested and has not finished yet.
pub struct PendingDownload {
    pub webview: String,
    pub url: String,
    pub id: u64,
    pub file_name: String,
    pub destination: String,
}

/// What a pending download holds, as text.
pub struct PendingView {
    pub webview: Seq<char>,
    pub url: Seq<char>,
    pub id: u64,
    pub file_name: Seq<char>,
    pub destination: Seq<char>,
}

impl View for PendingDownload {
    type V = PendingView;

    open spec fn view(&self) -> PendingView {
        PendingView {
            webview: self.webview@,
            url: self.url@,
            id: self.id,
            file_name: self.file_name@,
            destination: self.destination@,
        }
    }
}

/// The status a download reports to the sidebar.
#[derive(Clone, Copy, PartialEq, Eq, Structural, Debug)]
pub enum DownloadState {
    Downloading,
    Completed,
    Failed,
}

impl DownloadState {
    /// The word the sidebar receives.
    pub fn as_str(&self) -> (r: &'static str)
        ensures
            r@ == (match *self {
                DownloadState::Downloading => "downloading"@,
                DownloadState::Completed => "completed"@,
                DownloadState::Failed => "failed"@,
            }),
    {
        match self {
            DownloadState::Downloading => "downloading",
            DownloadState::Completed => "completed",
            DownloadState::Failed => "failed",
        }
    }
}

/// A status report for the sidebar.
pub struct DownloadStatus {
    pub id: u64,
    pub file_name: String,
    pub state: DownloadState,
}

/// A download accepted into the tracker: its id, file name and destination.
pub struct DownloadStarted {
    pub id: u64,
    pub file_name: String,
    pub destination: String,
}

/// The downloads in flight of every webview, in the order they were requested,
/// and the destinations they hold.
pub struct DownloadTracker {
    next_id: u64,
    pending: Vec<PendingDownload>,
    reserved_destinations: Vec<String>,
}

/// The contents of a list of pending downloads.
pub open spec fn pending_view(v: Seq<PendingDownload>) -> Seq<PendingView> {
    v.map_values(|p: PendingDownload| p@)
}

/// The destinations of pending downloads, in order.
pub open spec fn destinations(v: Seq<PendingView>) -> Seq<Seq<char>> {
    v.map_values(|p: PendingView| p.destination)
}

/// No two pending downloads share a destination.
pub open spec fn destinations_distinct(v: Seq<PendingView>) -> bool {
    forall|i: int, j: int| 0 <= i < j < v.len() ==> (#[trigger] v[i]).destination != (#[trigger] v[j]).destination
}

/// The download belongs to another webview.
pub open spec fn not_of_webview(webview: Seq<char>) -> spec_fn(PendingView) -> bool {
    |p: PendingView| p.webview != webview
}

/// The index of the earliest pending download of this webview and URL.
pub open spec fn is_first_of_key(v: Seq<PendingView>, webview: Seq<char>, url: Seq<char>, k: int) -> bool {
    &&& 0 <= k < v.len()
    &&& v[k].webview == webview && v[k].url == url
    &&& forall|j: int| 0 <= j < k ==> !(v[j].webview == webview && v[j].url == url)
}

impl DownloadTracker {
    #[verifier::type_invariant]
    spec fn inv(self) -> bool {
        &&& self.reserved_destinations@.map_values(|s: String| s@) == destinations(pending_view(self.pending@))
        &&& destinations_distinct(pending_view(self.pending@))
    }

    /// The downloads in flight, in the order they were requested.
    pub closed spec fn pending(self) -> Seq<PendingView> {
        pending_view(self.pending@)
    }

    /// The destinations held against new downloads.
    pub closed spec fn reserved(self) -> Seq<Seq<char>> {
        self.reserved_destinations@.map_values(|s: String| s@)
    }

    /// The id the last download received (0 before any).
    pub closed spec fn last_id(self) -> u64 {
        self.next_id
    }

    /// Nothing in flight.
    pub fn new() -> (r: DownloadTracker)
        ensures
            r.pending() == Seq::<PendingView>::empty(),
            r.reserved() == Seq::<Seq<char>>::empty(),
            r.last_id() == 0,
    {
        let pending: Vec<PendingDownload> = Vec::new();
        let reserved: Vec<String> = Vec::new();
        assert(reserved@.map_values(|s: String| s@) =~= destinations(pending_view(pending@)));
        DownloadTracker { next_id: 0, pending, reserved_destinations: reserved }
    }

    /// Takes in a download a webview asked for at `proposed`: picks a
    /// destination that nothing in flight holds (see
    /// `unique_download_destination`), gives it the next id, and holds its
    /// destination until it finishes.
    pub fn request(&mut self, webview: &str, url: &str, proposed: &str) -> (r: Option<DownloadStarted>)
        ensures
            old(self).reserved() == destinations(old(self).pending()),
            destinations_distinct(old(self).pending()),
            final(self).reserved() == destinations(final(self).pending()),
            destinations_distinct(final(self).pending()),
            r is None ==> final(self).pending() == old(self).pending() && final(self).reserved() == old(self).reserved()
                && final(self).last_id() == old(self).last_id(),
            r matches Some(st) ==> {
                &&& st.id == crate::unread::next_gen(old(self).last_id())
                &&& final(self).last_id() == st.id
                &&& st.file_name@ == name_or_default(st.destination@)
                &&& !is_reserved(st.destination@, old(self).reserved())
                &&& (st.destination@ == proposed@ || exists|n: nat| 1 <= n <= max_counter() && st.destination@ == candidate(proposed@, n))
                &&& final(self).pending() == old(self).pending().push(PendingView {
                    webview: webview@,
                    url: url@,
                    id: st.id,
                    file_name: st.file_name@,
                    destination: st.destination@,
                })
                &&& final(self).reserved() == old(self).reserved().push(st.destination@)
            },
    {
        proof {
            use_type_invariant(&*self);
        }
        let dest = match unique_download_destination(proposed, &self.reserved_destinations) {
            None => return None,
            Some(d) => d,
        };
        let file_name = match file_name_of(dest.as_str()) {
            Some(n) => n,
            None => String::from_str("download"),
        };
        let id = self.next_id.wrapping_add(1);
        let entry = PendingDownload {
            webview: String::from_str(webview),
            url: String::from_str(url),
            id,
            file_name: file_name.clone(),
            destination: dest.clone(),
        };
        let ghost ev = entry@;
        let mut taken = DownloadTracker::new();
        std::mem::swap(&mut taken, self);
        proof {
            use_type_invariant(&taken);
        }
        let DownloadTracker { next_id: taken_id, pending: mut pending, reserved_destinations: mut reserved } = taken;
        let ghost old_pending = pending_view(pending@);
        let ghost old_reserved = reserved@;
        assert(old_reserved.map_values(|s: String| s@) == destinations(old_pending));
        assert(destinations_distinct(old_pending));
        reserved.push(dest.clone());
        pending.push(entry);
        proof {
            assert(pending_view(pending@) =~= old_pending.push(ev));
            assert(reserved@.map_values(|s: String| s@) =~= old_reserved.map_values(|s: String| s@).push(dest@));
            assert(destinations(pending_view(pending@)) =~= destinations(old_pending).push(dest@));
            assert forall|i: int, j: int| 0 <= i < j < pending_view(pending@).len() implies
                (#[trigger] pending_view(pending@)[i]).destination != (#[trigger] pending_view(pending@)[j]).destination by {
                if j == old_pending.len() {
                    assert(old_reserved.map_values(|s: String| s@)[i] == old_reserved[i]@);
                    assert(destinations(old_pending)[i] == old_pending[i].destination);
                    assert(old_reserved[i]@ != dest@);
                }
            }
        }
        *self = DownloadTracker { next_id: id, pending, reserved_destinations: reserved };
        Some(DownloadStarted { id, file_name, destination: dest })
    }

    /// A download of this webview and URL finished: the earliest one in flight
    /// is released and reported as completed or failed. `None` when none is in
    /// flight. (The platform does not say which file finished, so with several
    /// downloads of one URL the queue order is all there is to go by.)
    pub fn finish(&mut self, webview: &str, url: &str, success: bool) -> (r: Option<DownloadStatus>)
        ensures
            old(self).reserved() == destinations(old(self).pending()),
            destinations_distinct(old(self).pending()),
            final(self).reserved() == destinations(final(self).pending()),
            destinations_distinct(final(self).pending()),
            final(self).last_id() == old(self).last_id(),
            r is None <==> forall|k: int| 0 <= k < old(self).pending().len() ==>
                !((#[trigger] old(self).pending()[k]).webview == webview@ && old(self).pending()[k].url == url@),
            r is None ==> final(self).pending() == old(self).pending() && final(self).reserved() == old(self).reserved(),
            r matches Some(st) ==> exists|k: int| {
                &&& is_first_of_key(old(self).pending(), webview@, url@, k)
                &&& st.id == old(self).pending()[k].id
                &&& st.file_name@ == old(self).pending()[k].file_name
                &&& st.state == (if success { DownloadState::Completed } else { DownloadState::Failed })
                &&& final(self).pending() == old(self).pending().remove(k)
                &&& final(self).reserved() == old(self).reserved().remove(k)
            },
    {
        proof {
            use_type_invariant(&*self);
        }
        let ghost pv = pending_view(self.pending@);
        let mut k: usize = 0;
        while k < self.pending.len()
            && !(str_eq(self.pending[k].webview.as_str(), webview) && str_eq(self.pending[k].url.as_str(), url))
            invariant
                k <= self.pending@.len(),
                pv == pending_view(self.pending@),
                forall|j: int| 0 <= j < k ==> !((#[trigger] pv[j]).webview == webview@ && pv[j].url == url@),
            decreases self.pending.len() - k,
        {
            k = k + 1;
        }
        if k == self.pending.len() {
            return None;
        }
        assert(pv[k as int].webview == webview@ && pv[k as int].url == url@);
        assert(old(self).pending()[k as int].webview == webview@ && old(self).pending()[k as int].url == url@);
        let mut taken = DownloadTracker::new();
        std::mem::swap(&mut taken, self);
        proof {
            use_type_invariant(&taken);
        }
        let DownloadTracker { next_id: taken_id, pending: mut pending, reserved_destinations: mut reserved } = taken;
        let ghost old_reserved = reserved@;
        assert(pending_view(pending@) == pv);
        assert(old_reserved.map_values(|s: String| s@) == destinations(pv));
        assert(old_reserved.map_values(|s: String| s@).len() == old_reserved.len());
        let e = pending.remove(k);
        reserved.remove(k);
        proof {
            assert(pending_view(pending@) =~= pv.remove(k as int));
            assert(reserved@.map_values(|s: String| s@) =~= old_reserved.map_values(|s: String| s@).remove(k as int));
            assert(destinations(pending_view(pending@)) =~= destinations(pv).remove(k as int));
            assert forall|i: int, j: int| 0 <= i < j < pending_view(pending@).len() implies
                (#[trigger] pending_view(pending@)[i]).destination != (#[trigger] pending_view(pending@)[j]).destination by {
                let a = if i < k { i } else { i + 1 };
                let b = if j < k { j } else { j + 1 };
                assert(pv[a].destination != pv[b].destination);
            }
        }
        *self = DownloadTracker { next_id: taken_id, pending, reserved_destinations: reserved };
        let state = if success { DownloadState::Completed } else { DownloadState::Failed };
        Some(DownloadStatus { id: e.id, file_name: e.file_name, state })
    }

    /// A webview closed: none of its downloads will report back, so every one
    /// is released and reported as failed, in the order they were requested.
    /// The downloads of other webviews stay as they were.
    pub fn purge(&mut self, webview: &str) -> (r: Vec<DownloadStatus>)
        ensures
            old(self).reserved() == destinations(old(self).pending()),
            destinations_distinct(old(self).pending()),
            final(self).reserved() == destinations(final(self).pending()),
            destinations_distinct(final(self).pending()),
            final(self).last_id() == old(self).last_id(),
            final(self).pending() == old(self).pending().filter(not_of_webview(webview@)),
            r@.map_values(|st: DownloadStatus| (st.id, st.file_name@)) == old(self).pending().filter(
                |p: PendingView| p.webview == webview@,
            ).map_values(|p: PendingView| (p.id, p.file_name)),
            forall|i: int| 0 <= i < r@.len() ==> (#[trigger] r@[i]).state == DownloadState::Failed,
    {
        proof {
            use_type_invariant(&*self);
        }
        let ghost pv = pending_view(self.pending@);
        let ghost mine = |p: PendingView| p.webview == webview@;
        let mut taken = DownloadTracker::new();
        std::mem::swap(&mut taken, self);
        proof {
            use_type_invariant(&taken);
        }
        let DownloadTracker { next_id: taken_id, pending: mut pending, reserved_destinations: mut reserved } = taken;
        let ghost rv = reserved@;
        assert(pending_view(pending@) == pv);
        assert(rv.map_values(|s: String| s@) == destinations(pv));
        assert(rv.map_values(|s: String| s@).len() == rv.len());
        let mut kept: Vec<PendingDownload> = Vec::new();
        let mut kept_reserved: Vec<String> = Vec::new();
        let mut abandoned: Vec<DownloadStatus> = Vec::new();
        let n = pending.len();
        let mut i: usize = 0;
        while i < n
            invariant
                i <= n,
                n == pending@.len(),
                pv == pending_view(pending@),
                rv == reserved@,
                rv.len() == n,
                rv.map_values(|s: String| s@) == destinations(pv),
                pending_view(kept@) == pv.take(i as int).filter(not_of_webview(webview@)),
                kept_reserved@.map_values(|s: String| s@) == destinations(pending_view(kept@)),
                abandoned@.map_values(|st: DownloadStatus| (st.id, st.file_name@))
                    == pv.take(i as int).filter(|p: PendingView| p.webview == webview@).map_values(|p: PendingView| (p.id, p.file_name)),
                forall|j: int| 0 <= j < abandoned@.len() ==> (#[trigger] abandoned@[j]).state == DownloadState::Failed,
            decreases n - i,
        {
            let ghost x = pv[i as int];
            proof {
                assert(pv.take(i + 1) =~= pv.take(i as int).push(x));
                pv.take(i as int).lemma_filter_push(x, not_of_webview(webview@));
                pv.take(i as int).lemma_filter_push(x, |p: PendingView| p.webview == webview@);
                assert(rv.map_values(|s: String| s@)[i as int] == rv[i as int]@);
                assert(destinations(pv)[i as int] == x.destination);
                assert(rv[i as int]@ == x.destination);
            }
            let ghost before_kept = pending_view(kept@);
            let ghost before_res = kept_reserved@;
            let ghost before_ab = abandoned@;
            if str_eq(pending[i].webview.as_str(), webview) {
                abandoned.push(DownloadStatus { id: pending[i].id, file_name: pending[i].file_name.clone(), state: DownloadState::Failed });
                assert(abandoned@.map_values(|st: DownloadStatus| (st.id, st.file_name@))
                    =~= before_ab.map_values(|st: DownloadStatus| (st.id, st.file_name@)).push((x.id, x.file_name)));
            } else {
                let e = PendingDownload {
                    webview: pending[i].webview.clone(),
                    url: pending[i].url.clone(),
                    id: pending[i].id,
                    file_name: pending[i].file_name.clone(),
                    destination: pending[i].destination.clone(),
                };
                kept.push(e);
                kept_reserved.push(reserved[i].clone());
                assert(pending_view(kept@) =~= before_kept.push(x));
                assert(kept_reserved@.map_values(|s: String| s@) =~= before_res.map_values(|s: String| s@).push(x.destination));
                assert(destinations(pending_view(kept@)) =~= destinations(before_kept).push(x.destination));
            }
            i = i + 1;
        }
        proof {
            assert(pv.take(n as int) =~= pv);
            let kv = pending_view(kept@);
            assert(destinations_distinct(pv));
            assert forall|a: int, b: int| 0 <= a < b < kv.len() implies
                (#[trigger] kv[a]).destination != (#[trigger] kv[b]).destination by {
                lemma_filter_keeps_distinct(pv, webview@);
            }
        }
        *self = DownloadTracker { next_id: taken_id, pending: kept, reserved_destinations: kept_reserved };
        abandoned
    }
}

/// Keeping some of the pending downloads keeps their destinations distinct.
proof fn lemma_filter_keeps_distinct(v: Seq<PendingView>, webview: Seq<char>)
    requires
        destinations_distinct(v),
    ensures
        destinations_distinct(v.filter(not_of_webview(webview))),
    decreases v.len(),
{
    reveal(Seq::filter);
    if v.len() > 0 {
        let t = v.drop_last();
        assert(destinations_distinct(t)) by {
            assert forall|i: int, j: int| 0 <= i < j < t.len() implies (#[trigger] t[i]).destination != (#[trigger] t[j]).destination by {
                assert(t[i] == v[i] && t[j] == v[j]);
            }
        }
        lemma_filter_keeps_distinct(t, webview);
        let f = t.filter(not_of_webview(webview));
        if not_of_webview(webview)(v.last()) {
            let g = f.push(v.last());
            assert forall|i: int, j: int| 0 <= i < j < g.len() implies (#[trigger] g[i]).destination != (#[trigger] g[j]).destination by {
                if j == f.len() {
                    t.lemma_filter_contains_rev(not_of_webview(webview), g[i]);
                    assert(f.contains(f[i]));
                    let k = choose|k: int| 0 <= k < t.len() && t[k] == f[i];
                    assert(v[k] == t[k]);
                    assert(v[k].destination != v[v.len() - 1].destination);
                }
            }
        }
    }
}


// ---------------------------------------------------------------------------
// Laws of the download tracker
// ---------------------------------------------------------------------------

/// Finishing releases the earliest download of its webview and URL: when a
/// download is requested while none of its webview and URL is in flight, the
/// next finish for them reports that very download.
pub proof fn lemma_finish_reports_request(pending: Seq<PendingView>, e: PendingView, k: int)
    requires
        forall|j: int| 0 <= j < pending.len() ==> !(pending[j].webview == e.webview && pending[j].url == e.url),
        is_first_of_key(pending.push(e), e.webview, e.url, k),
    ensures
        k == pending.len(),
        pending.push(e)[k] == e,
        pending.push(e).remove(k) == pending,
{
    if k < pending.len() {
        assert(pending.push(e)[k] == pending[k]);
    }
    assert(pending.push(e).remove(k) =~= pending);
}

/// Downloads of one webview and URL are released in the order they were
/// requested: the one reported is the earliest still in flight.
pub proof fn lemma_finish_is_fifo(pending: Seq<PendingView>, webview: Seq<char>, url: Seq<char>, k: int, j: int)
    requires
        is_first_of_key(pending, webview, url, k),
        0 <= j < pending.len(),
        pending[j].webview == webview && pending[j].url == url,
    ensures
        k <= j,
{
}

/// After a webview is purged, none of its downloads is in flight any more.
pub proof fn lemma_purge_clears_webview(pending: Seq<PendingView>, webview: Seq<char>)
    ensures
        forall|i: int| 0 <= i < pending.filter(not_of_webview(webview)).len() ==>
            (#[trigger] pending.filter(not_of_webview(webview))[i]).webview != webview,
{
    broadcast use vstd::seq_lib::group_filter_ensures;
    assert forall|i: int| 0 <= i < pending.filter(not_of_webview(webview)).len() implies
        (#[trigger] pending.filter(not_of_webview(webview))[i]).webview != webview by {
        pending.lemma_filter_pred(not_of_webview(webview), i);
    }
}

} // verus!
